pub mod board;
pub mod cell;
pub mod id;
pub mod pos;
pub mod solver;
pub mod strats;

pub use board::{Board, BoardError, CellData};
pub use pos::{Block, Candidate, Cell, Col, Digit, Line, Row, Unit};
pub use solver::{Action as SolverAction, Solver};
pub use strats::strategy::{strategy_list, Strategy, StrategyKind};
pub use strats::StrategyResult;
