use crate::sudoku::board::{Board, BoardModel};
use crate::sudoku::pos::units::{Block, Line, UnitClass};
use crate::sudoku::strats::bug::{bug_plus_one, find_bug_plus_one};
use crate::sudoku::strats::chains::{aic, find_chain, x_chain, x_chain_simple, xy_chain};
use crate::sudoku::strats::fish::{basic_fish, find_basic_fish};
use crate::sudoku::strats::hidden_subsets::{find_hidden_subset, hidden_subset};
use crate::sudoku::strats::intersections::{find_intersection, intersection};
use crate::sudoku::strats::link::{Bilocal, Bivalue, Strong, Weak, WeakUnit};
use crate::sudoku::strats::naked_subsets::{find_naked_subset, naked_subset};
use crate::sudoku::strats::revise_notes::{find_revise_notes, revise_notes};
use crate::sudoku::strats::singles::{
    find_full_house, find_hidden_single, find_naked_single, full_house, hidden_single,
    naked_single,
};
use crate::sudoku::strats::{ResultModel, StrategyResult};
use vstd::prelude::*;

verus! {

/// The deductions that the solver knows.
#[derive(Clone, Copy, Debug, PartialEq, Eq, Hash, Structural)]
pub enum StrategyKind {
    ReviseNotes,
    FullHouse,
    NakedSingle,
    HiddenSingle,
    NakedPair,
    HiddenPair,
    IntersectionPointing,
    IntersectionClaiming,
    NakedTriple,
    HiddenTriple,
    NakedQuad,
    HiddenQuad,
    XWing,
    Swordfish,
    Jellyfish,
    BugPlusOne,
    XChainSimple,
    XChain,
    XyChain,
    Aic,
}

/// What a strategy finds on a board.
pub open spec fn strategy_result(kind: StrategyKind, board: BoardModel) -> ResultModel {
    match kind {
        StrategyKind::ReviseNotes => revise_notes(board),
        StrategyKind::FullHouse => full_house(board),
        StrategyKind::NakedSingle => naked_single(board),
        StrategyKind::HiddenSingle => hidden_single(board),
        StrategyKind::NakedPair => naked_subset(board, 2),
        StrategyKind::HiddenPair => hidden_subset(board, 2),
        StrategyKind::IntersectionPointing => intersection(
            board,
            Block::spec_first(),
            Block::spec_count(),
            Line::spec_first(),
            Line::spec_count(),
        ),
        StrategyKind::IntersectionClaiming => intersection(
            board,
            Line::spec_first(),
            Line::spec_count(),
            Block::spec_first(),
            Block::spec_count(),
        ),
        StrategyKind::NakedTriple => naked_subset(board, 3),
        StrategyKind::HiddenTriple => hidden_subset(board, 3),
        StrategyKind::NakedQuad => naked_subset(board, 4),
        StrategyKind::HiddenQuad => hidden_subset(board, 4),
        StrategyKind::XWing => basic_fish(board, 2),
        StrategyKind::Swordfish => basic_fish(board, 3),
        StrategyKind::Jellyfish => basic_fish(board, 4),
        StrategyKind::BugPlusOne => bug_plus_one(board),
        StrategyKind::XChainSimple => x_chain_simple(board),
        StrategyKind::XChain => x_chain(board),
        StrategyKind::XyChain => xy_chain(board),
        StrategyKind::Aic => aic(board),
    }
}

/// The name of a strategy.
pub open spec fn strategy_name(kind: StrategyKind) -> Seq<char> {
    match kind {
        StrategyKind::ReviseNotes => "Revise Notes"@,
        StrategyKind::FullHouse => "Full House"@,
        StrategyKind::NakedSingle => "Naked Single"@,
        StrategyKind::HiddenSingle => "Hidden Single"@,
        StrategyKind::NakedPair => "Naked Pair"@,
        StrategyKind::HiddenPair => "Hidden Pair"@,
        StrategyKind::IntersectionPointing => "Intersection Pointing"@,
        StrategyKind::IntersectionClaiming => "Intersection Claiming"@,
        StrategyKind::NakedTriple => "Naked Triple"@,
        StrategyKind::HiddenTriple => "Hidden Triple"@,
        StrategyKind::NakedQuad => "Naked Quad"@,
        StrategyKind::HiddenQuad => "Hidden Quad"@,
        StrategyKind::XWing => "X-Wing"@,
        StrategyKind::Swordfish => "Swordfish"@,
        StrategyKind::Jellyfish => "Jellyfish"@,
        StrategyKind::BugPlusOne => "Bug+1"@,
        StrategyKind::XChainSimple => "X-Chain Simple"@,
        StrategyKind::XChain => "X-Chain"@,
        StrategyKind::XyChain => "XY-Chain"@,
        StrategyKind::Aic => "AIC"@,
    }
}

/// The strategies in the order in which the solver tries them.
pub open spec fn strategy_order() -> Seq<StrategyKind> {
    seq![
        StrategyKind::ReviseNotes,
        StrategyKind::FullHouse,
        StrategyKind::NakedSingle,
        StrategyKind::HiddenSingle,
        StrategyKind::NakedPair,
        StrategyKind::HiddenPair,
        StrategyKind::IntersectionPointing,
        StrategyKind::IntersectionClaiming,
        StrategyKind::NakedTriple,
        StrategyKind::HiddenTriple,
        StrategyKind::NakedQuad,
        StrategyKind::HiddenQuad,
        StrategyKind::XWing,
        StrategyKind::Swordfish,
        StrategyKind::Jellyfish,
        StrategyKind::BugPlusOne,
        StrategyKind::XChainSimple,
        StrategyKind::XChain,
        StrategyKind::XyChain,
        StrategyKind::Aic,
    ]
}

/// A named deduction: a search of a board that gives candidates to place or to strike.
#[derive(Clone, Copy, Debug, PartialEq, Eq)]
pub struct Strategy {
    name: &'static str,
    kind: StrategyKind,
}

impl View for Strategy {
    type V = StrategyKind;

    closed spec fn view(&self) -> StrategyKind {
        self.kind
    }
}

impl Strategy {
    /// A strategy has the name of its kind.
    #[verifier::type_invariant]
    closed spec fn inv(self) -> bool {
        self.name@ == strategy_name(self.kind)
    }

    /// The strategy of the given kind.
    pub fn new(kind: StrategyKind) -> (r: Strategy)
        ensures
            r@ == kind,
    {
        let name = match kind {
            StrategyKind::ReviseNotes => "Revise Notes",
            StrategyKind::FullHouse => "Full House",
            StrategyKind::NakedSingle => "Naked Single",
            StrategyKind::HiddenSingle => "Hidden Single",
            StrategyKind::NakedPair => "Naked Pair",
            StrategyKind::HiddenPair => "Hidden Pair",
            StrategyKind::IntersectionPointing => "Intersection Pointing",
            StrategyKind::IntersectionClaiming => "Intersection Claiming",
            StrategyKind::NakedTriple => "Naked Triple",
            StrategyKind::HiddenTriple => "Hidden Triple",
            StrategyKind::NakedQuad => "Naked Quad",
            StrategyKind::HiddenQuad => "Hidden Quad",
            StrategyKind::XWing => "X-Wing",
            StrategyKind::Swordfish => "Swordfish",
            StrategyKind::Jellyfish => "Jellyfish",
            StrategyKind::BugPlusOne => "Bug+1",
            StrategyKind::XChainSimple => "X-Chain Simple",
            StrategyKind::XChain => "X-Chain",
            StrategyKind::XyChain => "XY-Chain",
            StrategyKind::Aic => "AIC",
        };
        Strategy { name, kind }
    }

    /// The name of the strategy.
    pub fn name(&self) -> (r: &'static str)
        ensures
            r@ == strategy_name(self@),
    {
        proof {
            use_type_invariant(self);
        }
        self.name
    }

    /// The kind of the strategy.
    pub fn kind(&self) -> (r: StrategyKind)
        ensures
            r == self@,
    {
        self.kind
    }

    /// Searches `board`.
    pub fn find(&self, board: &Board) -> (r: StrategyResult)
        ensures
            r@ == strategy_result(self@, board@),
    {
        match self.kind {
            StrategyKind::ReviseNotes => find_revise_notes(board),
            StrategyKind::FullHouse => find_full_house(board),
            StrategyKind::NakedSingle => find_naked_single(board),
            StrategyKind::HiddenSingle => find_hidden_single(board),
            StrategyKind::NakedPair => find_naked_subset::<2>(board),
            StrategyKind::HiddenPair => find_hidden_subset::<2>(board),
            StrategyKind::IntersectionPointing => find_intersection::<Block, Line>(board),
            StrategyKind::IntersectionClaiming => find_intersection::<Line, Block>(board),
            StrategyKind::NakedTriple => find_naked_subset::<3>(board),
            StrategyKind::HiddenTriple => find_hidden_subset::<3>(board),
            StrategyKind::NakedQuad => find_naked_subset::<4>(board),
            StrategyKind::HiddenQuad => find_hidden_subset::<4>(board),
            StrategyKind::XWing => find_basic_fish::<2>(board),
            StrategyKind::Swordfish => find_basic_fish::<3>(board),
            StrategyKind::Jellyfish => find_basic_fish::<4>(board),
            StrategyKind::BugPlusOne => find_bug_plus_one(board),
            StrategyKind::XChainSimple => find_chain::<Bilocal, Bilocal>(board),
            StrategyKind::XChain => find_chain::<Bilocal, WeakUnit>(board),
            StrategyKind::XyChain => find_chain::<Bivalue, WeakUnit>(board),
            StrategyKind::Aic => find_chain::<Strong, Weak>(board),
        }
    }
}

/// The kinds of the strategies of a list.
pub open spec fn kinds_of(strategies: Seq<Strategy>) -> Seq<StrategyKind> {
    strategies.map_values(|s: Strategy| s@)
}

/// All strategies, in the order in which the solver tries them.
pub fn strategy_list() -> (r: Vec<Strategy>)
    ensures
        kinds_of(r@) == strategy_order(),
{
    let mut list: Vec<Strategy> = Vec::new();
    list.push(Strategy::new(StrategyKind::ReviseNotes));
    list.push(Strategy::new(StrategyKind::FullHouse));
    list.push(Strategy::new(StrategyKind::NakedSingle));
    list.push(Strategy::new(StrategyKind::HiddenSingle));
    list.push(Strategy::new(StrategyKind::NakedPair));
    list.push(Strategy::new(StrategyKind::HiddenPair));
    list.push(Strategy::new(StrategyKind::IntersectionPointing));
    list.push(Strategy::new(StrategyKind::IntersectionClaiming));
    list.push(Strategy::new(StrategyKind::NakedTriple));
    list.push(Strategy::new(StrategyKind::HiddenTriple));
    list.push(Strategy::new(StrategyKind::NakedQuad));
    list.push(Strategy::new(StrategyKind::HiddenQuad));
    list.push(Strategy::new(StrategyKind::XWing));
    list.push(Strategy::new(StrategyKind::Swordfish));
    list.push(Strategy::new(StrategyKind::Jellyfish));
    list.push(Strategy::new(StrategyKind::BugPlusOne));
    list.push(Strategy::new(StrategyKind::XChainSimple));
    list.push(Strategy::new(StrategyKind::XChain));
    list.push(Strategy::new(StrategyKind::XyChain));
    list.push(Strategy::new(StrategyKind::Aic));
    proof {
        assert(kinds_of(list@) =~= strategy_order());
    }
    list
}


/// What a strategy finds depends on the board alone: on equal boards it finds the same.
pub proof fn law_strategy_pure(kind: StrategyKind, first: BoardModel, second: BoardModel)
    requires
        first == second,
    ensures
        strategy_result(kind, first) == strategy_result(kind, second),
{
}

} // verus!
