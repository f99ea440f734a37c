use crate::bitset::{ascending, indices};
use crate::sudoku::board::{Board, BoardModel};
use crate::sudoku::pos::candidate::{candidate_of, Candidate};
use crate::sudoku::pos::cell::Cell;
use crate::sudoku::pos::digit::Digit;
use crate::sudoku::pos::units::{unit_cells, Block, Col, Row, Unit, UnitClass};
use crate::util::{combinations, combinations_of, lemma_combinations_items, lemma_combinations_map};
use multimap::MultiMap;
use vstd::prelude::*;

verus! {

/// The multimap of the `multimap` crate: a map from keys to lists of values.
#[verifier::external_type_specification]
#[verifier::external_body]
#[verifier::reject_recursive_types(K)]
#[verifier::reject_recursive_types(V)]
#[verifier::reject_recursive_types(S)]
pub struct ExMultiMap<K, V, S>(MultiMap<K, V, S>);

/// What a multimap holds: for each of its keys, the values put under it, in the order in
/// which they were put.
pub uninterp spec fn multimap_entries(map: MultiMap<u16, u16>) -> Map<u16, Seq<u16>>;

/// The entries after `v` is put under `k`: it is appended to the values of `k`, or is the
/// first of them.
pub open spec fn pushed(entries: Map<u16, Seq<u16>>, k: u16, v: u16) -> Map<u16, Seq<u16>> {
    entries.insert(
        k,
        if entries.contains_key(k) {
            entries[k].push(v)
        } else {
            seq![v]
        },
    )
}

/// The entries of a multimap without keys.
pub open spec fn no_entries() -> Map<u16, Seq<u16>> {
    Map::empty()
}

/// `MultiMap::new`: the new multimap has no key.
#[verifier::external_body]
fn multimap_new() -> (r: MultiMap<u16, u16>)
    ensures
        multimap_entries(r) == no_entries(),
{
    MultiMap::new()
}

/// `MultiMap::insert`: where the key is present the value is pushed to the key's vector,
/// else a new vector with the value is put under the key; other keys keep their vectors.
#[verifier::external_body]
fn multimap_insert(map: &mut MultiMap<u16, u16>, k: u16, v: u16)
    ensures
        multimap_entries(*final(map)) == pushed(multimap_entries(*old(map)), k, v),
{
    map.insert(k, v)
}

/// `MultiMap::get_vec`: the vector under the key, if the key is present. The vector is copied.
#[verifier::external_body]
fn multimap_get_vec(map: &MultiMap<u16, u16>, k: u16) -> (r: Option<Vec<u16>>)
    ensures
        r is Some <==> multimap_entries(*map).contains_key(k),
        r is Some ==> r.unwrap()@ == multimap_entries(*map)[k],
{
    map.get_vec(&k).cloned()
}

/// The graph after `b` is added to the neighbours of `a`.
pub open spec fn add_link(graph: Map<int, Seq<int>>, a: int, b: int) -> Map<int, Seq<int>> {
    graph.insert(
        a,
        if graph.contains_key(a) {
            graph[a].push(b)
        } else {
            seq![b]
        },
    )
}

/// The graph after the links of a list are added one after the other.
pub open spec fn add_links(graph: Map<int, Seq<int>>, links: Seq<(int, int)>) -> Map<
    int,
    Seq<int>,
>
    decreases links.len(),
{
    if links.len() == 0 {
        graph
    } else {
        add_link(add_links(graph, links.drop_last()), links.last().0, links.last().1)
    }
}

/// Adding one more link after a list of links.
pub proof fn lemma_add_links_push(graph: Map<int, Seq<int>>, links: Seq<(int, int)>, a: int, b: int)
    ensures
        add_links(graph, links.push((a, b))) == add_link(add_links(graph, links), a, b),
{
    assert(links.push((a, b)).drop_last() =~= links);
}

/// Adding two lists of links one after the other is adding their concatenation.
pub proof fn lemma_add_links_concat(
    graph: Map<int, Seq<int>>,
    first: Seq<(int, int)>,
    second: Seq<(int, int)>,
)
    ensures
        add_links(graph, first + second) == add_links(add_links(graph, first), second),
    decreases second.len(),
{
    if second.len() == 0 {
        assert(first + second =~= first);
    } else {
        lemma_add_links_concat(graph, first, second.drop_last());
        assert((first + second).drop_last() =~= first + second.drop_last());
    }
}

/// The neighbours of a candidate in a graph; a candidate that is no key has none.
pub open spec fn neighbors_in(graph: Map<int, Seq<int>>, u: int) -> Seq<int> {
    if graph.contains_key(u) {
        graph[u]
    } else {
        Seq::empty()
    }
}

/// Whether every candidate of a graph is the number of a candidate.
pub open spec fn graph_wf(graph: Map<int, Seq<int>>) -> bool {
    forall|k: int|
        graph.contains_key(k) ==> 0 <= k < 729 && forall|j: int|
            0 <= j < graph[k].len() ==> 0 <= #[trigger] graph[k][j] < 729
}

/// A graph of links between candidates: each candidate has a list of neighbours.
pub struct LinkGraph {
    neighbors: MultiMap<u16, u16>,
}

impl View for LinkGraph {
    type V = Map<int, Seq<int>>;

    closed spec fn view(&self) -> Map<int, Seq<int>> {
        Map::new(
            |k: int| 0 <= k <= 0xffff && multimap_entries(self.neighbors).contains_key(k as u16),
            |k: int| multimap_entries(self.neighbors)[k as u16].map_values(|v: u16| v as int),
        )
    }
}

/// A kind of link, which adds its links for a board to a graph.
pub trait LinkClass {
    /// The links of this kind on a board, in the order in which they are added.
    spec fn spec_links(board: BoardModel) -> Seq<(int, int)>;

    /// Adds the links of this kind on `board` to `graph`.
    fn add_links(board: &Board, graph: &mut LinkGraph)
        requires
            old(graph).wf(),
        ensures
            final(graph).wf(),
            final(graph)@ == add_links(old(graph)@, Self::spec_links(board@)),
    ;
}

impl LinkGraph {
    /// Every key and every neighbour is the number of a candidate.
    pub open spec fn wf(self) -> bool {
        graph_wf(self@)
    }

    /// The graph of the links of the kind `L` on `board`.
    pub fn new<L: LinkClass>(board: &Board) -> (r: Self)
        ensures
            r.wf(),
            r@ == add_links(Map::<int, Seq<int>>::empty(), L::spec_links(board@)),
    {
        let mut graph = LinkGraph { neighbors: multimap_new() };
        proof {
            assert(graph@ =~= Map::<int, Seq<int>>::empty());
        }
        L::add_links(board, &mut graph);
        graph
    }

    /// Adds `b` to the neighbours of `a`.
    pub fn insert(&mut self, a: Candidate, b: Candidate)
        requires
            old(self).wf(),
        ensures
            final(self).wf(),
            final(self)@ == add_link(old(self)@, a@, b@),
    {
        let ka = a.as_index() as u16;
        let kb = b.as_index() as u16;
        let ghost before = self@;
        let ghost entries = multimap_entries(self.neighbors);
        multimap_insert(&mut self.neighbors, ka, kb);
        proof {
            let after = add_link(before, a@, b@);
            assert forall|k: int| self@.contains_key(k) == after.contains_key(k) by {
                if 0 <= k <= 0xffff {
                    assert((k as u16 == ka) == (k == a@));
                }
            }
            assert forall|k: int| self@.contains_key(k) implies self@[k] == after[k] by {
                if k == a@ {
                    if entries.contains_key(ka) {
                        assert(self@[k] =~= before[k].push(b@));
                    } else {
                        assert(self@[k] =~= seq![b@]);
                    }
                } else {
                    assert(k as u16 != ka);
                    assert(self@[k] =~= before[k]);
                }
            }
            assert(self@ =~= after);
        }
    }

    /// The neighbours of `candidate`, in the order in which they were added.
    pub fn neighbors(&self, candidate: &Candidate) -> (r: Vec<Candidate>)
        requires
            self.wf(),
        ensures
            indices(r@) == neighbors_in(self@, candidate@),
    {
        let k = candidate.as_index() as u16;
        let mut out: Vec<Candidate> = Vec::new();
        match multimap_get_vec(&self.neighbors, k) {
            Some(list) => {
                let mut j: usize = 0;
                while j < list.len()
                    invariant
                        0 <= j <= list.len(),
                        self.wf(),
                        self@.contains_key(candidate@),
                        self@[candidate@] == list@.map_values(|v: u16| v as int),
                        out@.len() == j,
                        forall|a: int| 0 <= a < j ==> (#[trigger] out@[a])@ == list@[a],
                    decreases list.len() - j,
                {
                    proof {
                        assert(self@[candidate@][j as int] == list@[j as int]);
                    }
                    out.push(Candidate::new_unchecked(list[j]));
                    j += 1;
                }
                proof {
                    assert(indices(out@) =~= self@[candidate@]);
                }
            },
            None => {
                proof {
                    assert(indices(out@) =~= Seq::<int>::empty());
                }
            },
        }
        out
    }
}

/// The two links between the candidates of a pair, one in each direction.
pub open spec fn pair_links(pair: Seq<int>) -> Seq<(int, int)> {
    seq![(pair[0], pair[1]), (pair[1], pair[0])]
}

/// The links between the candidates of each pair of a list.
pub open spec fn pairs_links(pairs: Seq<Seq<int>>) -> Seq<(int, int)>
    decreases pairs.len(),
{
    if pairs.len() == 0 {
        Seq::empty()
    } else {
        pairs_links(pairs.drop_last()) + pair_links(pairs.last())
    }
}

/// The links within a group of candidates of which at most one can hold.
///
/// A weak link joins every two candidates of the group. A strong link joins the two
/// candidates of a group of two, of which one must hold; other groups have no strong link.
pub open spec fn group_links(group: Seq<int>, strong: bool) -> Seq<(int, int)> {
    if strong && group.len() != 2 {
        Seq::empty()
    } else {
        pairs_links(combinations_of(group, 2))
    }
}

/// The links of the first `t` groups of a list of groups.
pub open spec fn links_below(groups: spec_fn(int) -> Seq<int>, strong: bool, t: int) -> Seq<
    (int, int),
>
    decreases t,
{
    if t <= 0 {
        Seq::empty()
    } else {
        links_below(groups, strong, t - 1) + group_links(groups(t - 1), strong)
    }
}

/// The candidates of the cell numbered `c`: its notes, in ascending order.
pub open spec fn cell_group(board: BoardModel, c: int) -> Seq<int> {
    ascending(board.notes_at(c), 9).map_values(|d: int| candidate_of(c, d))
}

/// The candidates for the digit numbered `x` in the unit numbered `u`: the cells of the unit
/// with that note, in ascending order.
pub open spec fn unit_group(board: BoardModel, u: int, x: int) -> Seq<int> {
    ascending(unit_cells(u).intersect(board.with_note(x)), 81).map_values(
        |c: int| candidate_of(c, x),
    )
}

/// The groups that the 81 cells make.
pub open spec fn cell_groups(board: BoardModel) -> spec_fn(int) -> Seq<int> {
    |c: int| cell_group(board, c)
}

/// The 81 groups that nine units, numbered from `first` on, make with the nine digits: the
/// digits in ascending order, and for each digit the units in ascending order.
pub open spec fn unit_groups(board: BoardModel, first: int) -> spec_fn(int) -> Seq<int> {
    |t: int| unit_group(board, first + t % 9, t / 9)
}

/// Adds the links within a group of candidates to a graph.
pub fn add_group_links(graph: &mut LinkGraph, group: &Vec<Candidate>, strong: bool)
    requires
        old(graph).wf(),
    ensures
        final(graph).wf(),
        final(graph)@ == add_links(old(graph)@, group_links(indices(group@), strong)),
{
    if strong && group.len() != 2 {
        return ;
    }
    let pairs = combinations(group, 2);
    let ghost start = graph@;
    let ghost want = combinations_of(indices(group@), 2);
    proof {
        lemma_combinations_map(group@, |c: Candidate| c@, 2);
        lemma_combinations_items(indices(group@), 2);
        assert(indices(group@) =~= group@.map_values(|c: Candidate| c@));
        let views = pairs@.map_values(|pair: Vec<Candidate>| pair@);
        assert(views.map_values(|pair: Seq<Candidate>| pair.map_values(|c: Candidate| c@))
            == want);
        assert forall|a: int| 0 <= a < pairs@.len() implies indices(
            (#[trigger] pairs@[a])@,
        ) == want[a] by {
            assert(views[a] == pairs@[a]@);
            assert(indices(pairs@[a]@) =~= views[a].map_values(|c: Candidate| c@));
        }
        assert(want.take(0) =~= Seq::<Seq<int>>::empty());
    }
    let mut j: usize = 0;
    while j < pairs.len()
        invariant
            0 <= j <= pairs.len(),
            pairs@.len() == want.len(),
            forall|a: int| 0 <= a < pairs@.len() ==> indices((#[trigger] pairs@[a])@) == want[a],
            forall|a: int| 0 <= a < want.len() ==> (#[trigger] want[a]).len() == 2,
            graph.wf(),
            graph@ == add_links(start, pairs_links(want.take(j as int))),
        decreases pairs.len() - j,
    {
        let pair = &pairs[j];
        proof {
            assert(indices(pair@).len() == 2);
        }
        let a = pair[0];
        let b = pair[1];
        let ghost before = pairs_links(want.take(j as int));
        graph.insert(a, b);
        graph.insert(b, a);
        proof {
            let p = want[j as int];
            assert(p[0] == a@ && p[1] == b@);
            assert(want.take(j as int + 1).drop_last() =~= want.take(j as int));
            assert(want.take(j as int + 1).last() == p);
            assert(pairs_links(want.take(j as int + 1)) == before + pair_links(p));
            assert(before + pair_links(p) =~= before.push((a@, b@)).push((b@, a@)));
            lemma_add_links_push(start, before, a@, b@);
            lemma_add_links_push(start, before.push((a@, b@)), b@, a@);
        }
        j += 1;
    }
    proof {
        assert(want.take(j as int) =~= want);
    }
}

/// The candidates of `cell`: its notes, in ascending order.
pub fn candidates_in_cell(board: &Board, cell: Cell) -> (r: Vec<Candidate>)
    ensures
        indices(r@) == cell_group(board@, cell@),
{
    let mut out: Vec<Candidate> = Vec::new();
    match board.get_notes(&cell) {
        Some(notes) => {
            let digits = notes.to_vec();
            let mut j: usize = 0;
            while j < digits.len()
                invariant
                    0 <= j <= digits.len(),
                    indices(digits@) == ascending(board@.notes_at(cell@), 9),
                    out@.len() == j,
                    forall|a: int|
                        0 <= a < j ==> (#[trigger] out@[a])@ == candidate_of(cell@, digits@[a]@),
                decreases digits.len() - j,
            {
                out.push(Candidate::from_cell_and_digit(cell, digits[j]));
                j += 1;
            }
            proof {
                assert(indices(out@) =~= cell_group(board@, cell@));
            }
        },
        None => {
            proof {
                crate::bitset::lemma_ascending_empty(9);
                assert(indices(out@) =~= cell_group(board@, cell@));
            }
        },
    }
    out
}

/// The candidates for `x` in `unit`: the cells of the unit with that note, in ascending order.
pub fn candidates_in_unit(board: &Board, unit: Unit, x: Digit) -> (r: Vec<Candidate>)
    ensures
        indices(r@) == unit_group(board@, unit@, x@),
{
    let cells = unit.cells_set().intersection(board.cells_with_note(x)).to_vec();
    let mut out: Vec<Candidate> = Vec::new();
    let mut j: usize = 0;
    while j < cells.len()
        invariant
            0 <= j <= cells.len(),
            out@.len() == j,
            forall|a: int| 0 <= a < j ==> (#[trigger] out@[a])@ == candidate_of(cells@[a]@, x@),
        decreases cells.len() - j,
    {
        out.push(Candidate::from_cell_and_digit(cells[j], x));
        j += 1;
    }
    proof {
        assert(indices(out@) =~= unit_group(board@, unit@, x@));
    }
    out
}

/// Adds the links within each of the 81 cells to a graph.
pub fn add_links_in_cells(board: &Board, graph: &mut LinkGraph, strong: bool)
    requires
        old(graph).wf(),
    ensures
        final(graph).wf(),
        final(graph)@ == add_links(old(graph)@, links_below(cell_groups(board@), strong, 81)),
{
    let cells = Cell::list();
    let ghost start = graph@;
    let ghost groups = cell_groups(board@);
    let mut i: usize = 0;
    while i < 81
        invariant
            0 <= i <= 81,
            cells@.len() == 81,
            forall|j: int| 0 <= j < 81 ==> (#[trigger] cells@[j])@ == j,
            groups == cell_groups(board@),
            graph.wf(),
            graph@ == add_links(start, links_below(groups, strong, i as int)),
        decreases 81 - i,
    {
        let group = candidates_in_cell(board, cells[i]);
        add_group_links(graph, &group, strong);
        proof {
            lemma_add_links_concat(
                start,
                links_below(groups, strong, i as int),
                group_links(groups(i as int), strong),
            );
        }
        i += 1;
    }
}

/// Adds the links for each digit within each unit of the kind `U` to a graph.
pub fn add_links_in_units<U: UnitClass>(board: &Board, graph: &mut LinkGraph, strong: bool)
    requires
        old(graph).wf(),
        U::spec_count() == 9,
    ensures
        final(graph).wf(),
        final(graph)@ == add_links(
            old(graph)@,
            links_below(unit_groups(board@, U::spec_first()), strong, 81),
        ),
{
    let digits = Digit::list();
    let units = U::all_vec();
    let ghost start = graph@;
    let ghost groups = unit_groups(board@, U::spec_first());
    let mut x: usize = 0;
    while x < 9
        invariant
            0 <= x <= 9,
            digits@.len() == 9,
            forall|j: int| 0 <= j < 9 ==> (#[trigger] digits@[j])@ == j,
            units@.len() == 9,
            forall|j: int|
                0 <= j < 9 ==> (#[trigger] units@[j]).spec_unit() == U::spec_first() + j,
            groups == unit_groups(board@, U::spec_first()),
            graph.wf(),
            graph@ == add_links(start, links_below(groups, strong, 9 * x)),
        decreases 9 - x,
    {
        let mut i: usize = 0;
        while i < 9
            invariant
                0 <= i <= 9,
                0 <= x < 9,
                digits@.len() == 9,
                forall|j: int| 0 <= j < 9 ==> (#[trigger] digits@[j])@ == j,
                units@.len() == 9,
                forall|j: int|
                    0 <= j < 9 ==> (#[trigger] units@[j]).spec_unit() == U::spec_first() + j,
                groups == unit_groups(board@, U::spec_first()),
                graph.wf(),
                graph@ == add_links(start, links_below(groups, strong, 9 * x + i)),
            decreases 9 - i,
        {
            let group = candidates_in_unit(board, units[i].unit(), digits[x]);
            add_group_links(graph, &group, strong);
            proof {
                let t = 9 * x + i;
                assert(t / 9 == x && t % 9 == i);
                lemma_add_links_concat(
                    start,
                    links_below(groups, strong, t as int),
                    group_links(groups(t as int), strong),
                );
            }
            i += 1;
        }
        x += 1;
    }
}


/// Strong links within cells: the two notes of a cell with two notes.
pub struct Bivalue;

impl LinkClass for Bivalue {
    open spec fn spec_links(board: BoardModel) -> Seq<(int, int)> {
        links_below(cell_groups(board), true, 81)
    }

    fn add_links(board: &Board, graph: &mut LinkGraph) {
        add_links_in_cells(board, graph, true);
    }
}

/// Adds, for each digit and each unit of the kind `U`, the strong link between the two
/// cells of the unit with that note, where there are exactly two.
pub fn add_links_bilocal<U: UnitClass>(board: &Board, graph: &mut LinkGraph)
    requires
        old(graph).wf(),
        U::spec_count() == 9,
    ensures
        final(graph).wf(),
        final(graph)@ == add_links(
            old(graph)@,
            links_below(unit_groups(board@, U::spec_first()), true, 81),
        ),
{
    add_links_in_units::<U>(board, graph, true);
}

/// Adds, for each digit and each unit of the kind `U`, the weak links between every two
/// cells of the unit with that note.
pub fn add_links_weak_local<U: UnitClass>(board: &Board, graph: &mut LinkGraph)
    requires
        old(graph).wf(),
        U::spec_count() == 9,
    ensures
        final(graph).wf(),
        final(graph)@ == add_links(
            old(graph)@,
            links_below(unit_groups(board@, U::spec_first()), false, 81),
        ),
{
    add_links_in_units::<U>(board, graph, false);
}

/// Strong links within rows: the two places of a digit with two places in a row.
pub struct BilocalRow;

impl LinkClass for BilocalRow {
    open spec fn spec_links(board: BoardModel) -> Seq<(int, int)> {
        links_below(unit_groups(board, Row::spec_first()), true, 81)
    }

    fn add_links(board: &Board, graph: &mut LinkGraph) {
        add_links_bilocal::<Row>(board, graph);
    }
}

/// Strong links within columns.
pub struct BilocalCol;

impl LinkClass for BilocalCol {
    open spec fn spec_links(board: BoardModel) -> Seq<(int, int)> {
        links_below(unit_groups(board, Col::spec_first()), true, 81)
    }

    fn add_links(board: &Board, graph: &mut LinkGraph) {
        add_links_bilocal::<Col>(board, graph);
    }
}

/// Strong links within blocks.
pub struct BilocalBlock;

impl LinkClass for BilocalBlock {
    open spec fn spec_links(board: BoardModel) -> Seq<(int, int)> {
        links_below(unit_groups(board, Block::spec_first()), true, 81)
    }

    fn add_links(board: &Board, graph: &mut LinkGraph) {
        add_links_bilocal::<Block>(board, graph);
    }
}

/// Strong links within units: those of the rows, then the columns, then the blocks.
pub struct Bilocal;

impl LinkClass for Bilocal {
    open spec fn spec_links(board: BoardModel) -> Seq<(int, int)> {
        BilocalRow::spec_links(board) + BilocalCol::spec_links(board) + BilocalBlock::spec_links(board)
    }

    fn add_links(board: &Board, graph: &mut LinkGraph) {
        let ghost start = graph@;
        BilocalRow::add_links(board, graph);
        BilocalCol::add_links(board, graph);
        BilocalBlock::add_links(board, graph);
        proof {
            lemma_add_links_concat(
                start,
                BilocalRow::spec_links(board@),
                BilocalCol::spec_links(board@),
            );
            lemma_add_links_concat(
                start,
                BilocalRow::spec_links(board@) + BilocalCol::spec_links(board@),
                BilocalBlock::spec_links(board@),
            );
        }
    }
}

/// All strong links: those within cells, then those within units.
pub struct Strong;

impl LinkClass for Strong {
    open spec fn spec_links(board: BoardModel) -> Seq<(int, int)> {
        Bivalue::spec_links(board) + Bilocal::spec_links(board)
    }

    fn add_links(board: &Board, graph: &mut LinkGraph) {
        let ghost start = graph@;
        Bivalue::add_links(board, graph);
        Bilocal::add_links(board, graph);
        proof {
            lemma_add_links_concat(
                start,
                Bivalue::spec_links(board@),
                Bilocal::spec_links(board@),
            );
        }
    }
}

/// Weak links within cells: every two notes of a cell.
pub struct WeakCell;

impl LinkClass for WeakCell {
    open spec fn spec_links(board: BoardModel) -> Seq<(int, int)> {
        links_below(cell_groups(board), false, 81)
    }

    fn add_links(board: &Board, graph: &mut LinkGraph) {
        add_links_in_cells(board, graph, false);
    }
}

/// Weak links within rows: every two places of a digit in a row.
pub struct WeakRow;

impl LinkClass for WeakRow {
    open spec fn spec_links(board: BoardModel) -> Seq<(int, int)> {
        links_below(unit_groups(board, Row::spec_first()), false, 81)
    }

    fn add_links(board: &Board, graph: &mut LinkGraph) {
        add_links_weak_local::<Row>(board, graph);
    }
}

/// Weak links within columns.
pub struct WeakCol;

impl LinkClass for WeakCol {
    open spec fn spec_links(board: BoardModel) -> Seq<(int, int)> {
        links_below(unit_groups(board, Col::spec_first()), false, 81)
    }

    fn add_links(board: &Board, graph: &mut LinkGraph) {
        add_links_weak_local::<Col>(board, graph);
    }
}

/// Weak links within blocks.
pub struct WeakBlock;

impl LinkClass for WeakBlock {
    open spec fn spec_links(board: BoardModel) -> Seq<(int, int)> {
        links_below(unit_groups(board, Block::spec_first()), false, 81)
    }

    fn add_links(board: &Board, graph: &mut LinkGraph) {
        add_links_weak_local::<Block>(board, graph);
    }
}

/// Weak links within units: those of the rows, then the columns, then the blocks.
pub struct WeakUnit;

impl LinkClass for WeakUnit {
    open spec fn spec_links(board: BoardModel) -> Seq<(int, int)> {
        WeakRow::spec_links(board) + WeakCol::spec_links(board) + WeakBlock::spec_links(board)
    }

    fn add_links(board: &Board, graph: &mut LinkGraph) {
        let ghost start = graph@;
        WeakRow::add_links(board, graph);
        WeakCol::add_links(board, graph);
        WeakBlock::add_links(board, graph);
        proof {
            lemma_add_links_concat(
                start,
                WeakRow::spec_links(board@),
                WeakCol::spec_links(board@),
            );
            lemma_add_links_concat(
                start,
                WeakRow::spec_links(board@) + WeakCol::spec_links(board@),
                WeakBlock::spec_links(board@),
            );
        }
    }
}

/// All weak links: those within cells, then those within units.
pub struct Weak;

impl LinkClass for Weak {
    open spec fn spec_links(board: BoardModel) -> Seq<(int, int)> {
        WeakCell::spec_links(board) + WeakUnit::spec_links(board)
    }

    fn add_links(board: &Board, graph: &mut LinkGraph) {
        let ghost start = graph@;
        WeakCell::add_links(board, graph);
        WeakUnit::add_links(board, graph);
        proof {
            lemma_add_links_concat(
                start,
                WeakCell::spec_links(board@),
                WeakUnit::spec_links(board@),
            );
        }
    }
}

} // verus!
