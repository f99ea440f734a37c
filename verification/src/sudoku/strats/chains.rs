use crate::bitset::{ascending, indices, numbers_below, BitSet};
use crate::sudoku::board::{Board, BoardModel};
use crate::sudoku::pos::candidate::Candidate;
use crate::sudoku::pos::cell::neighbors_of;
use crate::sudoku::strats::link::{
    add_links, neighbors_in, Bilocal, Bivalue, LinkClass, LinkGraph, Strong, Weak, WeakUnit,
};
use crate::sudoku::strats::{
    candidates_of_cells, digit_candidates, noted, noted_candidates, ResultModel, StrategyResult,
};
use std::collections::{HashMap, VecDeque};
use vstd::prelude::*;

verus! {

broadcast use vstd::std_specs::hash::group_hash_axioms;

/// Whether a candidate was reached by an even or an odd number of links.
#[derive(Copy, Clone, Debug, PartialEq, Eq, Structural)]
pub enum Parity {
    Even,
    Odd,
}

impl Parity {
    /// The other parity.
    pub fn flip(&self) -> (r: Self)
        ensures
            (r is Odd) == (*self is Even),
    {
        match self {
            Parity::Even => Parity::Odd,
            Parity::Odd => Parity::Even,
        }
    }
}

/// A candidate that waits to be visited, with the parity at which it was reached.
#[derive(Copy, Clone, Debug)]
pub struct QueueItem {
    pub vertex: Candidate,
    pub parity: Parity,
}

impl View for QueueItem {
    type V = (int, bool);

    /// The number of the candidate, and whether the parity is odd.
    open spec fn view(&self) -> (int, bool) {
        (self.vertex@, self.parity is Odd)
    }
}

impl QueueItem {
    /// The item for `vertex`, reached at `parity`.
    pub fn new(vertex: Candidate, parity: Parity) -> (r: Self)
        ensures
            r.vertex == vertex,
            r.parity == parity,
    {
        QueueItem { vertex, parity }
    }
}

/// For each candidate that was reached, the candidate from which it was last reached.
pub struct Parents {
    map: HashMap<u16, u16>,
}

impl View for Parents {
    type V = Map<int, int>;

    closed spec fn view(&self) -> Map<int, int> {
        Map::new(
            |k: int| 0 <= k <= 0xffff && self.map@.contains_key(k as u16),
            |k: int| self.map@[k as u16] as int,
        )
    }
}

/// Whether every parent of a map is the number of a candidate.
pub open spec fn parents_wf(parents: Map<int, int>) -> bool {
    forall|k: int| parents.contains_key(k) ==> 0 <= #[trigger] parents[k] < 729
}

impl Parents {
    /// Every parent is the number of a candidate.
    pub open spec fn wf(self) -> bool {
        parents_wf(self@)
    }

    /// No candidate has a parent.
    pub fn new() -> (r: Self)
        ensures
            r.wf(),
            r@ == Map::<int, int>::empty(),
    {
        let r = Parents { map: HashMap::new() };
        proof {
            assert(r@ =~= Map::<int, int>::empty());
        }
        r
    }

    /// Makes `parent` the parent of `child`.
    pub fn insert(&mut self, child: Candidate, parent: Candidate)
        requires
            old(self).wf(),
        ensures
            final(self).wf(),
            final(self)@ == old(self)@.insert(child@, parent@),
    {
        let k = child.as_index() as u16;
        let v = parent.as_index() as u16;
        let ghost before = self@;
        self.map.insert(k, v);
        proof {
            assert forall|j: int|
                self@.contains_key(j) == before.insert(child@, parent@).contains_key(j) by {
                if 0 <= j <= 0xffff {
                    assert((j as u16 == k) == (j == child@));
                }
            }
            assert(self@ =~= before.insert(child@, parent@));
        }
    }

    /// The parent of `child`, if it has one.
    pub fn get(&self, child: &Candidate) -> (r: Option<Candidate>)
        requires
            self.wf(),
        ensures
            r is Some <==> self@.contains_key(child@),
            r is Some ==> r.unwrap()@ == self@[child@],
    {
        let k = child.as_index() as u16;
        match self.map.get(&k) {
            Some(v) => {
                proof {
                    assert(self@.contains_key(child@));
                    assert(self@[child@] == *v);
                }
                Some(Candidate::new_unchecked(*v))
            },
            None => None,
        }
    }
}

/// The candidate numbered `u`, then its parent, then the parent of that, and so on, for at
/// most `steps` parents.
pub open spec fn chain_up(u: int, parents: Map<int, int>, steps: nat) -> Seq<int>
    decreases steps,
{
    if steps == 0 || !parents.contains_key(u) {
        seq![u]
    } else {
        seq![u] + chain_up(parents[u], parents, (steps - 1) as nat)
    }
}

/// The chain that ends at the candidate numbered `u`: the candidates from which it was
/// reached, the earliest first.
pub open spec fn chain_to(u: int, parents: Map<int, int>) -> Seq<int> {
    chain_up(u, parents, 729).reverse()
}

/// The chain that ends at `u`.
pub fn backtrack_chain(u: Candidate, parents: &Parents) -> (r: Vec<Candidate>)
    requires
        parents.wf(),
    ensures
        indices(r@) == chain_to(u@, parents@),
{
    let mut back: Vec<Candidate> = Vec::new();
    back.push(u);
    let mut v = u;
    let mut steps: usize = 729;
    let mut at_root = false;
    let ghost whole = chain_up(u@, parents@, 729);
    proof {
        assert(indices(back@).drop_last() + chain_up(v@, parents@, steps as nat) =~= whole);
    }
    while steps > 0 && !at_root
        invariant
            parents.wf(),
            at_root ==> !parents@.contains_key(v@),
            back@.len() > 0,
            back@.last() == v,
            whole == chain_up(u@, parents@, 729),
            indices(back@).drop_last() + chain_up(v@, parents@, steps as nat) == whole,
        decreases steps + (if at_root { 0int } else { 1int }),
    {
        match parents.get(&v) {
            Some(parent) => {
                let ghost before = indices(back@);
                back.push(parent);
                proof {
                    assert(indices(back@).drop_last() =~= before);
                    assert(before =~= before.drop_last() + seq![v@]);
                    assert(indices(back@).drop_last() + chain_up(
                        parent@,
                        parents@,
                        (steps - 1) as nat,
                    ) =~= before.drop_last() + chain_up(v@, parents@, steps as nat));
                }
                v = parent;
                steps -= 1;
            },
            None => {
                at_root = true;
            },
        }
    }
    proof {
        assert(chain_up(v@, parents@, steps as nat) == seq![v@]);
        assert(indices(back@) =~= indices(back@).drop_last() + seq![v@]);
        assert(indices(back@) == whole);
    }
    let mut chain: Vec<Candidate> = Vec::new();
    let mut i: usize = back.len();
    while i > 0
        invariant
            0 <= i <= back.len(),
            chain@.len() == back.len() - i,
            forall|a: int| 0 <= a < chain@.len() ==> chain@[a] == back@[back.len() - 1 - a],
        decreases i,
    {
        i -= 1;
        chain.push(back[i]);
    }
    proof {
        assert(indices(chain@) =~= indices(back@).reverse());
    }
    chain
}


/// A chain that was found, with what it gives.
pub struct ChainFound {
    pub chain: Seq<int>,
    pub result: ResultModel,
}

/// The state of the search from one root: the candidates that wait to be visited, each with
/// whether it was reached at odd parity, the candidates visited, the parent of each candidate
/// reached, and the chains found so far.
pub struct ChainSearch {
    pub queue: Seq<(int, bool)>,
    pub visited: Set<int>,
    pub parents: Map<int, int>,
    pub found: Seq<ChainFound>,
}

impl ChainSearch {
    /// The state in which only the root waits, at even parity.
    pub open spec fn start(root: int, found: Seq<ChainFound>) -> ChainSearch {
        ChainSearch {
            queue: seq![(root, false)],
            visited: Set::empty(),
            parents: Map::empty(),
            found,
        }
    }

    /// Whether all candidates visited or waiting are numbers of candidates.
    pub open spec fn bounded(self) -> bool {
        &&& self.visited.subset_of(numbers_below(729))
        &&& forall|i: int| 0 <= i < self.queue.len() ==> 0 <= (#[trigger] self.queue[i]).0 < 729
    }
}

/// The candidates at the places of a chain whose number leaves the rest `parity` when
/// divided by two.
pub open spec fn places_of(chain: Seq<int>, parity: int) -> Set<int> {
    Set::new(|k: int| exists|i: int| 0 <= i < chain.len() && i % 2 == parity && #[trigger] chain[i] == k)
}

/// What a chain from the candidate `root` to the candidate `u` strikes: the digit of `u`, as a
/// note of the cells that share a unit with the cell of `u` and one with the cell of `root`.
pub open spec fn chain_eliminations(board: BoardModel, root: int, u: int) -> Set<int> {
    candidates_of_cells(
        neighbors_of(u / 9).intersect(neighbors_of(root / 9)).intersect(board.with_note(u % 9)),
        u % 9,
    )
}

/// What a chain gives that reaches the candidate `u` at odd parity: something only where `u`
/// has the digit of `root` and a note is struck. The candidates of the chain are shown, those
/// at even places apart from those at odd places.
pub open spec fn chain_result(board: BoardModel, root: int, u: int, chain: Seq<int>) -> Option<
    ResultModel,
> {
    if u % 9 == root % 9 && chain_eliminations(board, root, u) != Set::<int>::empty() {
        Some(
            ResultModel {
                solutions: Set::empty(),
                eliminations: chain_eliminations(board, root, u),
                highlights: places_of(chain, 0),
                highlights2: places_of(chain, 1),
            },
        )
    } else {
        None
    }
}

/// The queue and the parents after the neighbours of the candidate `u` are looked at, one
/// after the other: each that is not visited gets `u` as its parent and waits, at the other
/// parity.
pub open spec fn enqueue(
    queue: Seq<(int, bool)>,
    parents: Map<int, int>,
    visited: Set<int>,
    u: int,
    odd: bool,
    neighbors: Seq<int>,
) -> (Seq<(int, bool)>, Map<int, int>)
    decreases neighbors.len(),
{
    if neighbors.len() == 0 {
        (queue, parents)
    } else {
        let before = enqueue(queue, parents, visited, u, odd, neighbors.drop_last());
        let v = neighbors.last();
        if visited.contains(v) {
            before
        } else {
            (before.0.push((v, !odd)), before.1.insert(v, u))
        }
    }
}

/// The chains found after the candidate `u` is visited at the given parity.
pub open spec fn found_after(
    board: BoardModel,
    root: int,
    s: ChainSearch,
    u: int,
    odd: bool,
) -> Seq<ChainFound> {
    if odd {
        match chain_result(board, root, u, chain_to(u, s.parents)) {
            Some(result) => s.found.push(ChainFound { chain: chain_to(u, s.parents), result }),
            None => s.found,
        }
    } else {
        s.found
    }
}

/// One step of the search: the first waiting candidate is taken. If it was visited, nothing
/// else happens. Else it is tested, becomes visited, and its neighbours are looked at:
/// those by strong links at even parity, those by weak links at odd parity.
pub open spec fn chain_step(
    board: BoardModel,
    strong: Map<int, Seq<int>>,
    weak: Map<int, Seq<int>>,
    root: int,
    s: ChainSearch,
) -> ChainSearch {
    let u = s.queue[0].0;
    let odd = s.queue[0].1;
    let rest = s.queue.drop_first();
    if s.visited.contains(u) {
        ChainSearch { queue: rest, ..s }
    } else {
        let found = found_after(board, root, s, u, odd);
        let visited = s.visited.insert(u);
        let next = enqueue(
            rest,
            s.parents,
            visited,
            u,
            odd,
            neighbors_in(
                if odd {
                    weak
                } else {
                    strong
                },
                u,
            ),
        );
        ChainSearch { queue: next.0, visited, parents: next.1, found }
    }
}

/// The state in which the search ends: steps are taken until no candidate waits.
pub open spec fn chain_run(
    board: BoardModel,
    strong: Map<int, Seq<int>>,
    weak: Map<int, Seq<int>>,
    root: int,
    s: ChainSearch,
) -> ChainSearch
    decreases 729 - s.visited.len(), s.queue.len(),
    when s.bounded()
    via chain_run_decreases
{
    if s.queue.len() == 0 {
        s
    } else {
        chain_run(board, strong, weak, root, chain_step(board, strong, weak, root, s))
    }
}

/// A set of numbers of candidates has at most 729 members.
proof fn lemma_candidates_bounded(set: Set<int>)
    requires
        set.subset_of(numbers_below(729)),
    ensures
        set.finite(),
        set.len() <= 729,
{
    vstd::set_lib::lemma_int_range(0, 729);
    assert(numbers_below(729) =~= vstd::set_lib::set_int_range(0, 729));
    vstd::set_lib::lemma_len_subset(set, numbers_below(729));
}

#[via_fn]
proof fn chain_run_decreases(
    board: BoardModel,
    strong: Map<int, Seq<int>>,
    weak: Map<int, Seq<int>>,
    root: int,
    s: ChainSearch,
) {
    if s.queue.len() != 0 {
        let u = s.queue[0].0;
        let next = chain_step(board, strong, weak, root, s);
        lemma_candidates_bounded(s.visited);
        if !s.visited.contains(u) {
            assert(next.visited == s.visited.insert(u));
            lemma_candidates_bounded(next.visited);
        } else {
            assert(next.queue.len() == s.queue.len() - 1);
        }
    }
}


/// The models of the chains found.
pub open spec fn found_view(chains: Seq<(Vec<Candidate>, StrategyResult)>) -> Seq<ChainFound> {
    chains.map_values(
        |c: (Vec<Candidate>, StrategyResult)| ChainFound { chain: indices(c.0@), result: c.1@ },
    )
}

/// The models of the candidates that wait.
pub open spec fn queue_view(queue: Seq<QueueItem>) -> Seq<(int, bool)> {
    queue.map_values(|item: QueueItem| item@)
}

/// The candidates of a chain at its even places, and those at its odd places.
pub fn chain_highlights(chain: &Vec<Candidate>) -> (r: (BitSet<Candidate>, BitSet<Candidate>))
    ensures
        r.0@ == places_of(indices(chain@), 0),
        r.1@ == places_of(indices(chain@), 1),
{
    let mut highlights: BitSet<Candidate> = BitSet::new();
    let mut highlights2: BitSet<Candidate> = BitSet::new();
    let ghost list = indices(chain@);
    let mut i: usize = 0;
    proof {
        assert(highlights@ =~= places_of(list.take(0), 0));
        assert(highlights2@ =~= places_of(list.take(0), 1));
    }
    while i < chain.len()
        invariant
            0 <= i <= chain.len(),
            list == indices(chain@),
            highlights@ == places_of(list.take(i as int), 0),
            highlights2@ == places_of(list.take(i as int), 1),
        decreases chain.len() - i,
    {
        let ghost even = highlights@;
        let ghost odd = highlights2@;
        let c = chain[i];
        if i % 2 == 0 {
            highlights.insert(c);
        } else {
            highlights2.insert(c);
        }
        proof {
            let short = list.take(i as int);
            let long = list.take(i as int + 1);
            assert(long[i as int] == c@);
            assert forall|k: int| highlights@.contains(k) == places_of(long, 0).contains(k) by {
                if even.contains(k) {
                    let a = choose|a: int|
                        0 <= a < short.len() && a % 2 == 0 && #[trigger] short[a] == k;
                    assert(long[a] == k);
                }
                if places_of(long, 0).contains(k) {
                    let a = choose|a: int|
                        0 <= a < long.len() && a % 2 == 0 && #[trigger] long[a] == k;
                    if a < i {
                        assert(short[a] == k);
                    }
                }
            }
            assert forall|k: int| highlights2@.contains(k) == places_of(long, 1).contains(k) by {
                if odd.contains(k) {
                    let a = choose|a: int|
                        0 <= a < short.len() && a % 2 == 1 && #[trigger] short[a] == k;
                    assert(long[a] == k);
                }
                if places_of(long, 1).contains(k) {
                    let a = choose|a: int|
                        0 <= a < long.len() && a % 2 == 1 && #[trigger] long[a] == k;
                    if a < i {
                        assert(short[a] == k);
                    }
                }
            }
            assert(highlights@ =~= places_of(long, 0));
            assert(highlights2@ =~= places_of(long, 1));
        }
        i += 1;
    }
    proof {
        assert(list.take(i as int) =~= list);
    }
    (highlights, highlights2)
}

/// Tests the chain that reaches `u` at odd parity, and keeps it if it gives something.
pub fn test_chain(
    board: &Board,
    root: Candidate,
    u: Candidate,
    parents: &Parents,
    chains: &mut Vec<(Vec<Candidate>, StrategyResult)>,
)
    requires
        parents.wf(),
    ensures
        found_view(final(chains)@) == match chain_result(
            board@,
            root@,
            u@,
            chain_to(u@, parents@),
        ) {
            Some(result) => found_view(old(chains)@).push(
                ChainFound { chain: chain_to(u@, parents@), result },
            ),
            None => found_view(old(chains)@),
        },
{
    let digit = u.digit();
    if digit.as_index() != root.digit().as_index() {
        return ;
    }
    let common = u.cell().neighbors().intersection(root.cell().neighbors());
    let eliminations = digit_candidates(common.intersection(board.cells_with_note(digit)), digit);
    if eliminations.is_empty() {
        return ;
    }
    let chain = backtrack_chain(u, parents);
    let (highlights, highlights2) = chain_highlights(&chain);
    let result = StrategyResult {
        solutions: BitSet::new(),
        eliminations,
        highlights,
        highlights2,
    };
    let ghost before = found_view(chains@);
    chains.push((chain, result));
    proof {
        assert(found_view(chains@) =~= before.push(
            ChainFound { chain: chain_to(u@, parents@), result: result@ },
        ));
    }
}

/// Looks at the neighbours of `u`, one after the other: each that is not visited gets `u` as
/// its parent and waits, at the other parity.
pub fn enqueue_neighbors(
    queue: &mut VecDeque<QueueItem>,
    parents: &mut Parents,
    visited: &BitSet<Candidate>,
    u: Candidate,
    parity: Parity,
    neighbors: &Vec<Candidate>,
)
    requires
        old(parents).wf(),
    ensures
        final(parents).wf(),
        (queue_view(final(queue)@), final(parents)@) == enqueue(
            queue_view(old(queue)@),
            old(parents)@,
            visited@,
            u@,
            parity is Odd,
            indices(neighbors@),
        ),
{
    let ghost queue0 = queue_view(queue@);
    let ghost parents0 = parents@;
    let ghost list = indices(neighbors@);
    let other = parity.flip();
    let mut j: usize = 0;
    proof {
        assert(list.take(0) =~= Seq::<int>::empty());
    }
    while j < neighbors.len()
        invariant
            0 <= j <= neighbors.len(),
            list == indices(neighbors@),
            parents.wf(),
            (other is Odd) == (parity is Even),
            (queue_view(queue@), parents@) == enqueue(
                queue0,
                parents0,
                visited@,
                u@,
                parity is Odd,
                list.take(j as int),
            ),
        decreases neighbors.len() - j,
    {
        let v = neighbors[j];
        let ghost before = queue_view(queue@);
        proof {
            assert(list.take(j as int + 1).drop_last() =~= list.take(j as int));
            assert(list.take(j as int + 1).last() == v@);
        }
        if !visited.contains(v) {
            parents.insert(v, u);
            queue.push_back(QueueItem::new(v, other));
            proof {
                assert(queue_view(queue@) =~= before.push((v@, !(parity is Odd))));
            }
        }
        j += 1;
    }
    proof {
        assert(list.take(j as int) =~= list);
    }
}

/// Searches for chains from `root`, breadth first, and keeps those that give something.
pub fn search_chains(
    board: &Board,
    strong: &LinkGraph,
    weak: &LinkGraph,
    root: Candidate,
    chains: &mut Vec<(Vec<Candidate>, StrategyResult)>,
)
    requires
        strong.wf(),
        weak.wf(),
    ensures
        found_view(final(chains)@) == chain_run(
            board@,
            strong@,
            weak@,
            root@,
            ChainSearch::start(root@, found_view(old(chains)@)),
        ).found,
{
    let mut queue: VecDeque<QueueItem> = VecDeque::new();
    let mut visited: BitSet<Candidate> = BitSet::new();
    let mut parents = Parents::new();
    queue.push_back(QueueItem::new(root, Parity::Even));
    let ghost goal = chain_run(
        board@,
        strong@,
        weak@,
        root@,
        ChainSearch::start(root@, found_view(chains@)),
    );
    proof {
        use_type_invariant(&root);
        assert(queue_view(queue@) =~= seq![(root@, false)]);
    }
    loop
        invariant
            strong.wf(),
            weak.wf(),
            parents.wf(),
            visited@.subset_of(numbers_below(729)),
            forall|i: int| 0 <= i < queue@.len() ==> 0 <= (#[trigger] queue@[i]).vertex@ < 729,
            goal == chain_run(
                board@,
                strong@,
                weak@,
                root@,
                ChainSearch::start(root@, found_view(old(chains)@)),
            ),
            goal == chain_run(
                board@,
                strong@,
                weak@,
                root@,
                ChainSearch {
                    queue: queue_view(queue@),
                    visited: visited@,
                    parents: parents@,
                    found: found_view(chains@),
                },
            ),
        decreases 729 - visited@.len(), queue@.len(),
    {
        let ghost s = ChainSearch {
            queue: queue_view(queue@),
            visited: visited@,
            parents: parents@,
            found: found_view(chains@),
        };
        let ghost waiting = queue@;
        proof {
            assert(s.bounded());
            lemma_candidates_bounded(visited@);
        }
        match queue.pop_front() {
            None => {
                proof {
                    assert(s.queue.len() == 0);
                    assert(chain_run(board@, strong@, weak@, root@, s) == s);
                }
                return ;
            },
            Some(item) => {
                let u = item.vertex;
                let parity = item.parity;
                proof {
                    assert(item == waiting[0]);
                    assert(s.queue[0] == (u@, parity is Odd));
                    assert(queue_view(queue@) =~= s.queue.drop_first());
                    assert forall|i: int| 0 <= i < queue@.len() implies 0 <= (
                    #[trigger] queue@[i]).vertex@ < 729 by {
                        assert(queue@[i] == waiting[i + 1]);
                    }
                }
                if !visited.contains(u) {
                    match parity {
                        Parity::Odd => {
                            test_chain(board, root, u, &parents, chains);
                        },
                        Parity::Even => {},
                    }
                    visited.insert(u);
                    let neighbors = match parity {
                        Parity::Even => strong.neighbors(&u),
                        Parity::Odd => weak.neighbors(&u),
                    };
                    let ghost before = queue@;
                    enqueue_neighbors(&mut queue, &mut parents, &visited, u, parity, &neighbors);
                    proof {
                        lemma_candidates_bounded(visited@);
                        lemma_enqueue_bounded(
                            queue_view(before),
                            s.parents,
                            visited@,
                            u@,
                            parity is Odd,
                            indices(neighbors@),
                        );
                        assert forall|i: int| 0 <= i < queue@.len() implies 0 <= (
                        #[trigger] queue@[i]).vertex@ < 729 by {
                            assert(queue_view(queue@)[i].0 == queue@[i].vertex@);
                        }
                    }
                }
                proof {
                    let now = ChainSearch {
                        queue: queue_view(queue@),
                        visited: visited@,
                        parents: parents@,
                        found: found_view(chains@),
                    };
                    assert(now == chain_step(board@, strong@, weak@, root@, s));
                }
            },
        }
    }
}

/// Looking at neighbours that are numbers of candidates keeps the queue within bounds.
proof fn lemma_enqueue_bounded(
    queue: Seq<(int, bool)>,
    parents: Map<int, int>,
    visited: Set<int>,
    u: int,
    odd: bool,
    neighbors: Seq<int>,
)
    requires
        forall|i: int| 0 <= i < queue.len() ==> 0 <= (#[trigger] queue[i]).0 < 729,
        forall|i: int| 0 <= i < neighbors.len() ==> 0 <= #[trigger] neighbors[i] < 729,
    ensures
        forall|i: int|
            0 <= i < enqueue(queue, parents, visited, u, odd, neighbors).0.len() ==> 0 <= (
            #[trigger] enqueue(queue, parents, visited, u, odd, neighbors).0[i]).0 < 729,
    decreases neighbors.len(),
{
    if neighbors.len() > 0 {
        lemma_enqueue_bounded(queue, parents, visited, u, odd, neighbors.drop_last());
        let before = enqueue(queue, parents, visited, u, odd, neighbors.drop_last());
        let after = enqueue(queue, parents, visited, u, odd, neighbors);
        let v = neighbors.last();
        assert(0 <= v < 729) by {
            assert(neighbors[neighbors.len() - 1] == v);
        }
        assert forall|i: int| 0 <= i < after.0.len() implies 0 <= (#[trigger] after.0[i]).0
            < 729 by {
            if i < before.0.len() {
                assert(after.0[i] == before.0[i]);
            }
        }
    }
}


/// The first of the shortest chains of a list.
pub open spec fn shortest(found: Seq<ChainFound>) -> Option<ChainFound>
    decreases found.len(),
{
    if found.len() == 0 {
        None
    } else {
        match shortest(found.drop_last()) {
            Some(best) => if best.chain.len() <= found.last().chain.len() {
                Some(best)
            } else {
                Some(found.last())
            },
            None => Some(found.last()),
        }
    }
}

/// The candidates from which chains are searched: all notes, in ascending order.
pub open spec fn chain_roots(board: BoardModel) -> Seq<int> {
    ascending(noted_candidates(board, board.unsolved(), numbers_below(9)), 729)
}

/// The chains found from the roots of a list, one root after the other.
pub open spec fn chains_found(
    board: BoardModel,
    strong: Map<int, Seq<int>>,
    weak: Map<int, Seq<int>>,
    roots: Seq<int>,
) -> Seq<ChainFound>
    decreases roots.len(),
{
    if roots.len() == 0 {
        Seq::empty()
    } else {
        chain_run(
            board,
            strong,
            weak,
            roots.last(),
            ChainSearch::start(roots.last(), chains_found(board, strong, weak, roots.drop_last())),
        ).found
    }
}

/// What a chain strategy finds on a board, given its strong and its weak links in the order
/// in which they are added to the two graphs.
///
/// From every note, in ascending order, chains are searched breadth first that start with a
/// strong link and go on with weak and strong links in turn. The first of the shortest
/// chains that strike a note decides.
pub open spec fn chain(
    board: BoardModel,
    strong_links: Seq<(int, int)>,
    weak_links: Seq<(int, int)>,
) -> ResultModel {
    let strong = add_links(Map::empty(), strong_links);
    let weak = add_links(Map::empty(), weak_links);
    match shortest(chains_found(board, strong, weak, chain_roots(board))) {
        Some(best) => best.result,
        None => ResultModel::empty(),
    }
}

/// What "X-Chain Simple" finds: chains of strong links within units.
pub open spec fn x_chain_simple(board: BoardModel) -> ResultModel {
    chain(board, Bilocal::spec_links(board), Bilocal::spec_links(board))
}

/// What "X-Chain" finds: chains of strong and weak links within units.
pub open spec fn x_chain(board: BoardModel) -> ResultModel {
    chain(board, Bilocal::spec_links(board), WeakUnit::spec_links(board))
}

/// What "XY-Chain" finds: chains of strong links within cells and weak links within units.
pub open spec fn xy_chain(board: BoardModel) -> ResultModel {
    chain(board, Bivalue::spec_links(board), WeakUnit::spec_links(board))
}

/// What "AIC" finds: chains of all strong and all weak links.
pub open spec fn aic(board: BoardModel) -> ResultModel {
    chain(board, Strong::spec_links(board), Weak::spec_links(board))
}

/// What the first of the shortest chains of a list gives.
pub fn shortest_chain(chains: &Vec<(Vec<Candidate>, StrategyResult)>) -> (r: Option<
    StrategyResult,
>)
    ensures
        r is Some <==> shortest(found_view(chains@)) is Some,
        r is Some ==> r.unwrap()@ == shortest(found_view(chains@)).unwrap().result,
{
    let ghost all = found_view(chains@);
    let mut best: Option<usize> = None;
    let mut i: usize = 0;
    proof {
        assert(all.take(0) =~= Seq::<ChainFound>::empty());
    }
    while i < chains.len()
        invariant
            0 <= i <= chains.len(),
            all == found_view(chains@),
            best is Some <==> shortest(all.take(i as int)) is Some,
            best is Some ==> best.unwrap() < i && shortest(all.take(i as int)).unwrap()
                == all[best.unwrap() as int],
        decreases chains.len() - i,
    {
        proof {
            assert(all.take(i as int + 1).drop_last() =~= all.take(i as int));
            assert(all.take(i as int + 1).last() == all[i as int]);
            assert(all[i as int].chain.len() == chains@[i as int].0@.len());
        }
        match best {
            Some(b) => {
                proof {
                    assert(all[b as int].chain.len() == chains@[b as int].0@.len());
                }
                if chains[i].0.len() < chains[b].0.len() {
                    best = Some(i);
                }
            },
            None => {
                best = Some(i);
            },
        }
        i += 1;
    }
    proof {
        assert(all.take(i as int) =~= all);
    }
    match best {
        Some(b) => Some(chains[b].1),
        None => None,
    }
}

/// Searches for the first of the shortest chains of strong links of the kind `S` and weak
/// links of the kind `W` that strike a note.
pub fn find_chain<S: LinkClass, W: LinkClass>(board: &Board) -> (r: StrategyResult)
    ensures
        r@ == chain(board@, S::spec_links(board@), W::spec_links(board@)),
{
    let mut chains: Vec<(Vec<Candidate>, StrategyResult)> = Vec::new();
    let strong_links = LinkGraph::new::<S>(board);
    let weak_links = LinkGraph::new::<W>(board);
    let roots = noted(board, board.cells_unsolved(), BitSet::full()).to_vec();
    let ghost list = chain_roots(board@);
    let mut i: usize = 0;
    proof {
        assert(list.take(0) =~= Seq::<int>::empty());
        assert(found_view(chains@) =~= Seq::<ChainFound>::empty());
    }
    while i < roots.len()
        invariant
            0 <= i <= roots.len(),
            strong_links.wf(),
            weak_links.wf(),
            list == chain_roots(board@),
            indices(roots@) == list,
            found_view(chains@) == chains_found(
                board@,
                strong_links@,
                weak_links@,
                list.take(i as int),
            ),
        decreases roots.len() - i,
    {
        proof {
            assert(list.take(i as int + 1).drop_last() =~= list.take(i as int));
            assert(list.take(i as int + 1).last() == roots@[i as int]@);
        }
        search_chains(board, &strong_links, &weak_links, roots[i], &mut chains);
        i += 1;
    }
    proof {
        assert(list.take(i as int) =~= list);
    }
    match shortest_chain(&chains) {
        Some(result) => result,
        None => StrategyResult::default(),
    }
}

} // verus!
