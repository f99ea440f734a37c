pub mod candidate;
pub mod cell;
pub mod digit;
pub mod text;
pub mod units;

pub use candidate::Candidate;
pub use cell::Cell;
pub use digit::Digit;
pub use text::ParseDigitError;
pub use units::{Block, Col, Line, LineType, Row, Unit, UnitClass, UnitType, UNITS};
