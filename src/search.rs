use crate::arena::{Arena, ArenaHandle};
use crate::game::{MonteCarloGame, Winner};
use crate::slice_arena::{lemma_insert_keeps_runs, slice_of, SliceArena, SliceHandle};
use core::marker::PhantomData;
use rustc_hash::{FxHashMap, FxHasher};
use std::hash::BuildHasherDefault;
use vstd::prelude::*;

verus! {

#[verifier::external_type_specification]
#[verifier::external_body]
pub struct ExFxHasher(FxHasher);

#[verifier::external_type_specification]
#[verifier::external_body]
#[verifier::reject_recursive_types(H)]
pub struct ExBuildHasherDefault<H>(BuildHasherDefault<H>);

/// The transposition map: digest of a position to the handles of the nodes with that digest.
pub type Buckets = FxHashMap<u64, Vec<usize>>;

/// Relies on rustc_hash's `FxHashMap::default`: a new map is empty.
#[verifier::external_body]
fn fx_new() -> (r: Buckets)
    ensures
        r@.dom() == Set::<u64>::empty(),
{
    FxHashMap::default()
}

/// Relies on `FxHashMap::get` (std's `HashMap::get` with the deterministic `FxHasher`): the
/// value stored under `k`, if any.
#[verifier::external_body]
fn fx_get(m: &Buckets, k: u64) -> (r: Option<&Vec<usize>>)
    ensures
        match r {
            Some(v) => m@.contains_key(k) && *v == m@[k],
            None => !m@.contains_key(k),
        },
{
    m.get(&k)
}

/// Relies on `FxHashMap::remove`: takes out the value stored under `k`, if any.
#[verifier::external_body]
fn fx_remove(m: &mut Buckets, k: u64) -> (r: Option<Vec<usize>>)
    ensures
        final(m)@ == old(m)@.remove(k),
        match r {
            Some(v) => old(m)@.contains_key(k) && v == old(m)@[k],
            None => !old(m)@.contains_key(k),
        },
{
    m.remove(&k)
}

/// Relies on `FxHashMap::insert`: stores `v` under `k`, replacing what was there.
#[verifier::external_body]
fn fx_insert(m: &mut Buckets, k: u64, v: Vec<usize>)
    ensures
        final(m)@ == old(m)@.insert(k, v),
{
    m.insert(k, v);
}

/// The successor handle of an edge that has not been expanded yet.
pub const UNEXPANDED: usize = usize::MAX;

/// One vertex of the search graph: a reachable position, the nodes that lead to it, the run of
/// its outgoing edges (successor handle and move) in the edge store, its visit count and
/// whether it is solved.
pub struct MCNode<G: MonteCarloGame> {
    pub predecessors: Vec<usize>,
    pub moves: SliceHandle<(usize, G::MOVE)>,
    pub game_state: G,
    pub visited_amount: u64,
    pub completely_computed: bool,
}

/// The search graph: nodes in an arena, their edge lists in a slice arena, and a
/// transposition map from a position's digest to the nodes with that digest.
pub struct SearchGraph<G: MonteCarloGame> {
    pub nodes: Arena<MCNode<G>>,
    pub move_store: SliceArena<(usize, G::MOVE)>,
    pub mappings: Buckets,
}

/// What the graph holds of one node: predecessors, edges, position and solved mark.
pub struct NodeView<G: MonteCarloGame> {
    pub predecessors: Seq<usize>,
    pub moves: Seq<(usize, G::MOVE)>,
    pub game_state: G,
    pub completely_computed: bool,
}

/// Two runs share no element.
pub open spec fn runs_apart<T>(a: SliceHandle<T>, b: SliceHandle<T>) -> bool {
    a.len == 0 || b.len == 0 || a.chunk_idx != b.chunk_idx || a.start_idx + a.len <= b.start_idx
        || b.start_idx + b.len <= a.start_idx
}

/// Every node's edge list can be read from `pages`, and the lists of two nodes share no
/// element.
pub open spec fn store_ok<G: MonteCarloGame>(
    nodes: Map<usize, MCNode<G>>,
    pages: Seq<Seq<(usize, G::MOVE)>>,
) -> bool {
    &&& forall|h: usize| #[trigger] nodes.contains_key(h) ==> slice_of(pages, nodes[h].moves) is Some
    &&& forall|h1: usize, h2: usize|
        #[trigger] nodes.contains_key(h1) && #[trigger] nodes.contains_key(h2) && h1 != h2
            ==> runs_apart(nodes[h1].moves, nodes[h2].moves)
}

/// The graph that the node store `nodes` and the edge store `pages` hold.
pub open spec fn view_of<G: MonteCarloGame>(
    nodes: Map<usize, MCNode<G>>,
    pages: Seq<Seq<(usize, G::MOVE)>>,
) -> Map<usize, NodeView<G>> {
    Map::new(
        |h: usize| nodes.contains_key(h),
        |h: usize|
            NodeView {
                predecessors: nodes[h].predecessors@,
                moves: slice_of(pages, nodes[h].moves)->Some_0,
                game_state: nodes[h].game_state,
                completely_computed: nodes[h].completely_computed,
            },
    )
}

/// Writing `new` over run `w` changes what `w` reads and nothing that a run apart from it
/// reads.
proof fn lemma_write_run<T>(
    p1: Seq<Seq<T>>,
    p2: Seq<Seq<T>>,
    w: SliceHandle<T>,
    new: Seq<T>,
    x: SliceHandle<T>,
)
    requires
        slice_of(p1, w) is Some,
        new.len() == w.len,
        p2.len() == p1.len(),
        forall|j: int| 0 <= j < p1.len() && j != w.chunk_idx ==> #[trigger] p2[j] == p1[j],
        p2[w.chunk_idx as int] =~= p1[w.chunk_idx as int].subrange(0, w.start_idx as int) + new
            + p1[w.chunk_idx as int].subrange(
            w.start_idx + w.len,
            p1[w.chunk_idx as int].len() as int,
        ),
    ensures
        slice_of(p2, w) == Some(new),
        slice_of(p1, x) is Some && runs_apart(w, x) ==> slice_of(p2, x) == slice_of(p1, x),
{
    let c = w.chunk_idx as int;
    assert(p2[c].subrange(w.start_idx as int, w.start_idx + w.len) =~= new);
    if slice_of(p1, x) is Some && runs_apart(w, x) && x.chunk_idx == w.chunk_idx {
        assert(p2[c].subrange(x.start_idx as int, x.start_idx + x.len) =~= p1[c].subrange(
            x.start_idx as int,
            x.start_idx + x.len,
        ));
    }
}

/// Some edge of node `p` leads to node `h`.
pub open spec fn has_edge<G: MonteCarloGame>(nodes: Map<usize, NodeView<G>>, p: usize, h: usize) -> bool {
    exists|k: int| 0 <= k < nodes[p].moves.len() && #[trigger] nodes[p].moves[k].0 == h
}

/// Every edge of node `h` is expanded and leads to a solved node.
pub open spec fn children_solved<G: MonteCarloGame>(nodes: Map<usize, NodeView<G>>, h: usize) -> bool {
    forall|k: int|
        0 <= k < nodes[h].moves.len() ==> nodes.contains_key(#[trigger] nodes[h].moves[k].0)
            && nodes[nodes[h].moves[k].0].completely_computed
}

/// Edge `k` of node `h` is unexpanded, or leads to the node of the position that its move
/// reaches.
pub open spec fn edge_ok<G: MonteCarloGame>(nodes: Map<usize, NodeView<G>>, h: usize, k: int) -> bool {
    let (s, m) = nodes[h].moves[k];
    s == UNEXPANDED || (nodes.contains_key(s) && nodes[h].game_state.spec_apply(m) is Ok
        && nodes[h].game_state.spec_apply(m)->Ok_0.0 == nodes[s].game_state)
}

/// Node `h` lists the legal moves of its position, its edges are sound, each of its
/// predecessors has an edge to it, it is solved only where all its children are, and it is
/// solved where it has no moves.
pub open spec fn node_ok<G: MonteCarloGame>(nodes: Map<usize, NodeView<G>>, h: usize) -> bool {
    let n = nodes[h];
    &&& n.game_state.valid()
    &&& n.moves.len() == n.game_state.spec_moves().len()
    &&& forall|k: int| 0 <= k < n.moves.len() ==> #[trigger] n.moves[k].1 == n.game_state.spec_moves()[k]
    &&& forall|k: int| 0 <= k < n.moves.len() ==> #[trigger] edge_ok(nodes, h, k)
    &&& forall|j: int|
        0 <= j < n.predecessors.len() ==> nodes.contains_key(#[trigger] n.predecessors[j])
            && has_edge(nodes, n.predecessors[j], h)
    &&& n.completely_computed ==> children_solved(nodes, h)
    &&& n.moves.len() == 0 ==> n.completely_computed
}

/// A graph whose nodes `nodes` all satisfy [`node_ok`], hold distinct positions, and are
/// found under their digest in `mappings`, which lists nothing else.
pub open spec fn graph_ok<G: MonteCarloGame>(nodes: Map<usize, NodeView<G>>, mappings: Map<u64, Vec<usize>>) -> bool {
    &&& !nodes.contains_key(UNEXPANDED)
    &&& forall|h: usize| #[trigger] nodes.contains_key(h) ==> node_ok(nodes, h)
    &&& forall|h1: usize, h2: usize|
        #[trigger] nodes.contains_key(h1) && #[trigger] nodes.contains_key(h2) && nodes[h1].game_state
            == nodes[h2].game_state ==> h1 == h2
    &&& forall|h: usize| #[trigger] nodes.contains_key(h) ==> mappings.contains_key(nodes[h].game_state.spec_key())
        && mappings[nodes[h].game_state.spec_key()]@.contains(h)
    &&& forall|key: u64, j: int|
        #[trigger] mappings.contains_key(key) && 0 <= j < mappings[key]@.len() ==> nodes.contains_key(
            #[trigger] mappings[key]@[j],
        ) && nodes[mappings[key]@[j]].game_state.spec_key() == key
}

/// Unexpanded edges for the legal moves of `state`, in order.
fn edges_of<G: MonteCarloGame>(state: &G) -> (r: Vec<(usize, G::MOVE)>)
    requires
        state.valid(),
    ensures
        r@.len() == state.spec_moves().len(),
        forall|k: int| 0 <= k < r@.len() ==> (#[trigger] r@[k]).0 == UNEXPANDED && r@[k].1
            == state.spec_moves()[k],
{
    let moves = state.moves();
    let mut r: Vec<(usize, G::MOVE)> = Vec::new();
    let mut k: usize = 0;
    while k < moves.len()
        invariant
            moves@ == state.spec_moves(),
            k <= moves@.len(),
            r@.len() == k,
            forall|i: int| 0 <= i < k ==> (#[trigger] r@[i]).0 == UNEXPANDED && r@[i].1 == moves@[i],
        decreases moves@.len() - k,
    {
        r.push((UNEXPANDED, moves[k]));
        k += 1;
    }
    r
}

impl<G: MonteCarloGame> SearchGraph<G> {
    /// The graph that the stores hold.
    pub open spec fn graph(&self) -> Map<usize, NodeView<G>> {
        view_of(self.nodes@, self.move_store.pages())
    }

    /// Both stores are well formed, every edge list can be read, and the graph satisfies
    /// [`graph_ok`].
    pub open spec fn wf(&self) -> bool {
        &&& self.nodes.wf()
        &&& self.move_store.wf()
        &&& store_ok(self.nodes@, self.move_store.pages())
        &&& graph_ok(self.graph(), self.mappings@)
    }

    /// An empty graph.
    pub fn new() -> (r: Self)
        ensures
            r.wf(),
            r.graph() == Map::<usize, NodeView<G>>::empty(),
    {
        let r = SearchGraph { nodes: Arena::new(), move_store: SliceArena::new(), mappings: fx_new() };
        assert(r.graph() =~= Map::<usize, NodeView<G>>::empty());
        r
    }

    /// Drops every node and edge and empties the transposition map.
    pub fn reset(&mut self)
        requires
            old(self).nodes.wf(),
            old(self).move_store.wf(),
        ensures
            final(self).wf(),
            final(self).graph() == Map::<usize, NodeView<G>>::empty(),
    {
        self.nodes.purge();
        self.move_store.clear();
        self.mappings = fx_new();
        assert(self.graph() =~= Map::<usize, NodeView<G>>::empty());
    }

    /// The node that holds `state`, if any.
    pub fn find(&self, state: &G) -> (r: Option<usize>)
        requires
            self.wf(),
        ensures
            match r {
                Some(h) => self.graph().contains_key(h) && self.graph()[h].game_state == *state,
                None => forall|h: usize|
                    #[trigger] self.graph().contains_key(h) ==> self.graph()[h].game_state != *state,
            },
    {
        let key = state.position_key();
        match fx_get(&self.mappings, key) {
            None => {
                proof {
                    assert forall|h: usize| #[trigger] self.graph().contains_key(h) implies self.graph()[h].game_state != *state by {
                        if self.graph()[h].game_state == *state {
                            assert(self.mappings@.contains_key(state.spec_key()));
                        }
                    }
                }
                None
            },
            Some(bucket) => {
                let mut j: usize = 0;
                while j < bucket.len()
                    invariant
                        self.wf(),
                        key == state.spec_key(),
                        self.mappings@.contains_key(key),
                        bucket@ == self.mappings@[key]@,
                        j <= bucket@.len(),
                        forall|i: int| 0 <= i < j ==> self.graph()[#[trigger] bucket@[i]].game_state != *state,
                    decreases bucket@.len() - j,
                {
                    let h = bucket[j];
                    assert(self.graph().contains_key(h));
                    let n = self.nodes.get(&ArenaHandle::new(h)).unwrap();
                    if n.game_state.same_position(state) {
                        return Some(h);
                    }
                    j += 1;
                }
                proof {
                    assert forall|h: usize| #[trigger] self.graph().contains_key(h) implies self.graph()[h].game_state != *state by {
                        if self.graph()[h].game_state == *state {
                            let b = self.mappings@[key]@;
                            assert(b.contains(h));
                            let i = choose|i: int| 0 <= i < b.len() && b[i] == h;
                            assert(self.graph()[bucket@[i]].game_state != *state);
                        }
                    }
                }
                None
            },
        }
    }

    /// A copy of the run handle of node `h`.
    fn run_of(&self, h: usize) -> (r: SliceHandle<(usize, G::MOVE)>)
        requires
            self.wf(),
            self.graph().contains_key(h),
        ensures
            r == self.nodes@[h].moves,
    {
        let n = self.nodes.get(&ArenaHandle::new(h)).unwrap();
        SliceHandle { chunk_idx: n.moves.chunk_idx, start_idx: n.moves.start_idx, len: n.moves.len, _data: PhantomData }
    }

    /// The edges of node `h`, if there is such a node.
    pub fn edges(&self, h: usize) -> (r: Option<&[(usize, G::MOVE)]>)
        requires
            self.wf(),
        ensures
            match r {
                Some(e) => self.graph().contains_key(h) && e@ == self.graph()[h].moves,
                None => !self.graph().contains_key(h),
            },
    {
        if h == UNEXPANDED || self.nodes.get(&ArenaHandle::new(h)).is_none() {
            return None;
        }
        let run = self.run_of(h);
        self.move_store.get(&run)
    }

    /// Expands edge `i` of node `parent`: applies its move, links the edge to the node that
    /// already holds the position reached (adding `parent` to its predecessors) or to a new
    /// node for it, and returns that node with the outcome of the move. `Err` where the move
    /// is illegal, or where a new node is needed and the arena has no room.
    pub fn expand(&mut self, parent: usize, i: usize) -> (r: Result<(usize, Option<Winner>), ()>)
        requires
            old(self).wf(),
            old(self).graph().contains_key(parent),
            i < old(self).graph()[parent].moves.len(),
            old(self).graph()[parent].moves[i as int].0 == UNEXPANDED,
        ensures
            final(self).wf(),
            old(self).graph().dom().subset_of(final(self).graph().dom()),
            ({
                let m = old(self).graph()[parent].moves[i as int].1;
                match old(self).graph()[parent].game_state.spec_apply(m) {
                    Err(()) => r is Err,
                    Ok((next, w)) => match r {
                        Ok((c, w2)) => {
                            &&& w2 == w
                            &&& final(self).graph().contains_key(c)
                            &&& final(self).graph()[c].game_state == next
                            &&& final(self).graph()[parent].moves[i as int] == (c, m)
                            &&& final(self).graph()[c].predecessors.contains(parent)
                            &&& forall|h: usize|
                                #[trigger] old(self).graph().contains_key(h)
                                    && old(self).graph()[h].game_state == next ==> c == h
                        },
                        Err(()) => !old(self).nodes.can_insert_spec() && forall|h: usize|
                            #[trigger] old(self).graph().contains_key(h)
                                ==> old(self).graph()[h].game_state != next,
                    },
                }
            }),
    {
        let ghost v0 = self.graph();
        let ghost s0 = self.nodes@;
        let ghost p0 = self.move_store.pages();
        let ghost map0 = self.mappings@;
        let run = self.run_of(parent);
        let list = self.move_store.get(&run).unwrap();
        let m = list[i].1;
        let pnode = self.nodes.get(&ArenaHandle::new(parent)).unwrap();
        let applied = pnode.game_state.make_move(&m);
        let (next, winner) = match applied {
            Ok(x) => x,
            Err(()) => {
                return Err(());
            },
        };
        let ghost next_state = next;
        let ghost mut new_run = run;
        let c: usize;
        match self.find(&next) {
            Some(h) => {
                let hn = self.nodes.get_mut(&ArenaHandle::new(h)).unwrap();
                hn.predecessors.push(parent);
                c = h;
            },
            None => {
                if !self.nodes.can_insert() {
                    return Err(());
                }
                let edges = edges_of(&next);
                let key = next.position_key();
                let solved = edges.len() == 0;
                let ghost items = edges@;
                let ghost before = self.move_store;
                let moves = self.move_store.insert(edges);
                proof {
                    new_run = moves;
                    assert forall|x: usize| #[trigger] s0.contains_key(x) implies slice_of(self.move_store.pages(), s0[x].moves)
                        == slice_of(p0, s0[x].moves) && runs_apart(s0[x].moves, moves) by {
                        lemma_insert_keeps_runs(before, self.move_store, items, moves, s0[x].moves);
                    }
                }
                let mut preds: Vec<usize> = Vec::new();
                preds.push(parent);
                let node = MCNode {
                    predecessors: preds,
                    moves,
                    game_state: next,
                    visited_amount: 0,
                    completely_computed: solved,
                };
                c = self.nodes.insert(node).index;
                self.register(key, c);
            },
        }
        let ghost s1 = self.nodes@;
        let ghost p1 = self.move_store.pages();
        proof {
            assert(s1.contains_key(parent) && s1[parent].moves == run);
            assert(slice_of(p1, run) == slice_of(p0, run));
        }
        let slot = self.move_store.get_mut(&run).unwrap();
        let ghost old_slot = slot@;
        slot[i] = (c, m);
        proof {
            let p2 = self.move_store.pages();
            let s2 = self.nodes@;
            let v2 = self.graph();
            assert(s2 == s1);
            assert(old_slot == v0[parent].moves);
            let new = old_slot.update(i as int, (c, m));
            assert forall|x: usize| #[trigger] s1.contains_key(x) implies slice_of(p2, s1[x].moves) == (if x == parent {
                Some(new)
            } else {
                slice_of(p1, s1[x].moves)
            }) by {
                lemma_write_run(p1, p2, run, new, s1[x].moves);
                if x != parent {
                    if s0.contains_key(x) {
                        assert(s1[x].moves == s0[x].moves);
                    } else {
                        assert(x == c);
                    }
                }
            }
            assert(v2.dom() =~= v0.dom().insert(c));
            assert forall|x: usize| #[trigger] v0.contains_key(x) implies {
                &&& v2[x].game_state == v0[x].game_state
                &&& v2[x].completely_computed == v0[x].completely_computed
                &&& v2[x].moves == (if x == parent {
                    v0[x].moves.update(i as int, (c, m))
                } else {
                    v0[x].moves
                })
                &&& v2[x].predecessors == (if x == c {
                    v0[x].predecessors.push(parent)
                } else {
                    v0[x].predecessors
                })
            } by {
                assert(s1.contains_key(x));
                assert(x != c ==> s1[x] == s0[x]);
                assert(s1[x].moves == s0[x].moves);
            }
            if !s0.contains_key(c) {
                assert(v2[c].moves == slice_of(p1, s1[c].moves)->Some_0);
            }
            lemma_link(v0, v2, parent, i as int, c, m);
            assert forall|h1: usize, h2: usize|
                #[trigger] s2.contains_key(h1) && #[trigger] s2.contains_key(h2) && h1 != h2 implies runs_apart(
                s2[h1].moves,
                s2[h2].moves,
            ) by {
                if s0.contains_key(h1) && s0.contains_key(h2) {
                    assert(s2[h1].moves == s0[h1].moves && s2[h2].moves == s0[h2].moves);
                } else if s0.contains_key(h1) {
                    assert(s2[h1].moves == s0[h1].moves);
                } else if s0.contains_key(h2) {
                    assert(s2[h2].moves == s0[h2].moves);
                }
            }
            if s0.contains_key(c) {
                assert(self.mappings@ == map0);
                assert forall|h1: usize, h2: usize|
                    #[trigger] v2.contains_key(h1) && #[trigger] v2.contains_key(h2) && v2[h1].game_state
                        == v2[h2].game_state implies h1 == h2 by {
                    assert(v0.contains_key(h1) && v0.contains_key(h2));
                }
                assert forall|h: usize| #[trigger] v2.contains_key(h) implies map0.contains_key(v2[h].game_state.spec_key())
                    && map0[v2[h].game_state.spec_key()]@.contains(h) by {
                    assert(v0.contains_key(h));
                }
                assert forall|k2: u64, j: int|
                    #[trigger] map0.contains_key(k2) && 0 <= j < map0[k2]@.len() implies v2.contains_key(
                        #[trigger] map0[k2]@[j],
                    ) && v2[map0[k2]@[j]].game_state.spec_key() == k2 by {
                    assert(v0.contains_key(map0[k2]@[j]));
                }
            } else {
                lemma_map_after_add(v0, map0, v2, self.mappings@, c, next_state.spec_key());
            }
            assert(v2[c].predecessors.last() == parent);
        }
        Ok((c, winner))
    }

    /// Counts one more visit of node `h`.
    pub fn record_visit(&mut self, h: usize)
        requires
            old(self).wf(),
            old(self).graph().contains_key(h),
            old(self).nodes@[h].visited_amount < u64::MAX,
        ensures
            final(self).wf(),
            final(self).graph() == old(self).graph(),
            final(self).nodes@[h].visited_amount == old(self).nodes@[h].visited_amount + 1,
            forall|x: usize|
                #[trigger] old(self).nodes@.contains_key(x) && x != h ==> final(self).nodes@[x]
                    == old(self).nodes@[x],
    {
        let ghost v0 = self.graph();
        let n = self.nodes.get_mut(&ArenaHandle::new(h)).unwrap();
        n.visited_amount = n.visited_amount + 1;
        proof {
            assert(self.graph() =~= v0);
        }
    }

    /// Marks node `h` solved where its move list is empty or all its children are solved, and
    /// reports the mark.
    pub fn refresh_solved(&mut self, h: usize) -> (r: bool)
        requires
            old(self).wf(),
            old(self).graph().contains_key(h),
        ensures
            final(self).wf(),
            final(self).graph().dom() == old(self).graph().dom(),
            r == children_solved(old(self).graph(), h),
            final(self).graph()[h].completely_computed == r,
            forall|x: usize|
                #[trigger] old(self).graph().contains_key(x) && x != h ==> final(self).graph()[x]
                    == old(self).graph()[x],
            final(self).graph()[h].moves == old(self).graph()[h].moves,
            final(self).graph()[h].predecessors == old(self).graph()[h].predecessors,
            final(self).graph()[h].game_state == old(self).graph()[h].game_state,
    {
        let ghost v0 = self.graph();
        let run = self.run_of(h);
        let list = self.move_store.get(&run).unwrap();
        let mut all_solved = true;
        let mut k: usize = 0;
        while k < list.len()
            invariant
                self.wf(),
                self.graph() == v0,
                v0.contains_key(h),
                list@ == v0[h].moves,
                k <= list@.len(),
                all_solved == (forall|j: int| 0 <= j < k ==> v0.contains_key(#[trigger] list@[j].0)
                    && v0[list@[j].0].completely_computed),
            decreases list@.len() - k,
        {
            let s = list[k].0;
            if s == UNEXPANDED {
                all_solved = false;
            } else {
                match self.nodes.get(&ArenaHandle::new(s)) {
                    Some(child) => {
                        if !child.completely_computed {
                            all_solved = false;
                        }
                    },
                    None => {
                        all_solved = false;
                    },
                }
            }
            proof {
                if !all_solved {
                    assert(!(v0.contains_key(list@[k as int].0) && v0[list@[k as int].0].completely_computed)
                        || !(forall|j: int| 0 <= j < k ==> v0.contains_key(#[trigger] list@[j].0)
                            && v0[list@[j].0].completely_computed));
                }
            }
            k += 1;
        }
        proof {
            assert(node_ok(v0, h));
        }
        let current = self.nodes.get(&ArenaHandle::new(h)).unwrap().completely_computed;
        if all_solved && !current {
            let ghost s0 = self.nodes@;
            let nm = self.nodes.get_mut(&ArenaHandle::new(h)).unwrap();
            nm.completely_computed = true;
            proof {
                let v2 = self.graph();
                assert(v2.dom() =~= v0.dom());
                assert forall|x: usize| #[trigger] v0.contains_key(x) implies {
                    &&& v2[x].game_state == v0[x].game_state
                    &&& v2[x].moves == v0[x].moves
                    &&& v2[x].predecessors == v0[x].predecessors
                    &&& (v0[x].completely_computed ==> v2[x].completely_computed)
                    &&& (v2[x].completely_computed ==> children_solved(v2, x))
                } by {
                    assert(x != h ==> self.nodes@[x] == s0[x]);
                    if v2[x].completely_computed {
                        assert(node_ok(v0, x));
                        assert(x == h || children_solved(v0, x));
                        assert forall|j: int| 0 <= j < v2[x].moves.len() implies v2.contains_key(#[trigger] v2[x].moves[j].0)
                            && v2[v2[x].moves[j].0].completely_computed by {
                            let s = v0[x].moves[j].0;
                            assert(v0.contains_key(s) && v0[s].completely_computed);
                        }
                    }
                }
                lemma_same_shape(v0, v2, self.mappings@);
            }
        } else {
            proof {
                assert(current ==> all_solved) by {
                    assert(node_ok(v0, h));
                }
            }
        }
        all_solved
    }

    /// The indices of the edges of node `h` that are not expanded yet, in increasing order.
    pub fn unexpanded_moves(&self, h: usize) -> (r: Vec<usize>)
        requires
            self.wf(),
            self.graph().contains_key(h),
        ensures
            forall|j: int| 0 <= j < r@.len() ==> #[trigger] r@[j] < self.graph()[h].moves.len()
                && self.graph()[h].moves[r@[j] as int].0 == UNEXPANDED,
            forall|k: int|
                0 <= k < self.graph()[h].moves.len() && #[trigger] self.graph()[h].moves[k].0
                    == UNEXPANDED ==> r@.contains(k as usize),
            forall|a: int, b: int| 0 <= a < b < r@.len() ==> r@[a] < r@[b],
    {
        let run = self.run_of(h);
        let list = self.move_store.get(&run).unwrap();
        let mut r: Vec<usize> = Vec::new();
        let mut k: usize = 0;
        while k < list.len()
            invariant
                list@ == self.graph()[h].moves,
                k <= list@.len(),
                forall|j: int| 0 <= j < r@.len() ==> #[trigger] r@[j] < k && list@[r@[j] as int].0
                    == UNEXPANDED,
                forall|q: int| 0 <= q < k && #[trigger] list@[q].0 == UNEXPANDED ==> r@.contains(
                    q as usize,
                ),
                forall|a: int, b: int| 0 <= a < b < r@.len() ==> r@[a] < r@[b],
            decreases list@.len() - k,
        {
            if list[k].0 == UNEXPANDED {
                let ghost before = r@;
                r.push(k);
                proof {
                    assert(r@.last() == k);
                    assert forall|q: int| 0 <= q < k + 1 && #[trigger] list@[q].0 == UNEXPANDED implies r@.contains(q as usize) by {
                        if q < k {
                            assert(before.contains(q as usize));
                            let j = choose|j: int| 0 <= j < before.len() && before[j] == q as usize;
                            assert(r@[j] == q as usize);
                        } else {
                            assert(r@[r@.len() - 1] == q as usize);
                        }
                    }
                }
            }
            k += 1;
        }
        r
    }

    /// The node under handle `h`, if there is one.
    pub fn node(&self, h: usize) -> (r: Option<&MCNode<G>>)
        requires
            self.wf(),
        ensures
            match r {
                Some(n) => self.graph().contains_key(h) && *n == self.nodes@[h],
                None => !self.graph().contains_key(h),
            },
    {
        if h == UNEXPANDED {
            return None;
        }
        self.nodes.get(&ArenaHandle::new(h))
    }

    /// Registers node `h` under the digest `key`.
    fn register(&mut self, key: u64, h: usize)
        ensures
            final(self).nodes == old(self).nodes,
            final(self).move_store == old(self).move_store,
            final(self).mappings@ == old(self).mappings@.insert(
                key,
                final(self).mappings@[key],
            ),
            final(self).mappings@[key]@ == (if old(self).mappings@.contains_key(key) {
                old(self).mappings@[key]@
            } else {
                Seq::<usize>::empty()
            }).push(h),
    {
        let mut bucket = match fx_remove(&mut self.mappings, key) {
            Some(b) => b,
            None => Vec::new(),
        };
        bucket.push(h);
        fx_insert(&mut self.mappings, key, bucket);
    }

    /// Adds the root node for `state`, or finds the node that already holds it; `Err` where the
    /// arena has no room for a node.
    pub fn create_root(&mut self, state: G) -> (r: Result<usize, ()>)
        requires
            old(self).wf(),
            state.valid(),
        ensures
            final(self).wf(),
            r is Ok ==> final(self).graph().contains_key(r->Ok_0)
                && final(self).graph()[r->Ok_0].game_state == state,
            forall|h: usize|
                #[trigger] old(self).graph().contains_key(h) && old(self).graph()[h].game_state
                    == state ==> r == Ok::<usize, ()>(h),
            r is Err ==> !old(self).nodes.can_insert_spec(),
            old(self).graph().dom().subset_of(final(self).graph().dom()),
    {
        match self.find(&state) {
            Some(h) => {
                return Ok(h);
            },
            None => {},
        }
        if !self.nodes.can_insert() {
            return Err(());
        }
        let edges = edges_of(&state);
        let key = state.position_key();
        let solved = edges.len() == 0;
        let ghost v0 = self.graph();
        let ghost s0 = self.nodes@;
        let ghost p0 = self.move_store.pages();
        let ghost old_map = self.mappings@;
        let ghost items = edges@;
        let ghost before = self.move_store;
        let moves = self.move_store.insert(edges);
        proof {
            assert forall|x: usize| #[trigger] s0.contains_key(x) implies slice_of(self.move_store.pages(), s0[x].moves)
                == slice_of(p0, s0[x].moves) && runs_apart(s0[x].moves, moves) by {
                lemma_insert_keeps_runs(before, self.move_store, items, moves, s0[x].moves);
            }
        }
        let node = MCNode {
            predecessors: Vec::new(),
            moves,
            game_state: state,
            visited_amount: 0,
            completely_computed: solved,
        };
        let c = self.nodes.insert(node).index;
        self.register(key, c);
        proof {
            let s2 = self.nodes@;
            let v2 = self.graph();
            assert(v2.dom() =~= v0.dom().insert(c));
            assert forall|x: usize| #[trigger] v0.contains_key(x) implies v2[x] == v0[x] by {
                assert(s2[x] == s0[x]);
            }
            assert forall|h1: usize, h2: usize|
                #[trigger] s2.contains_key(h1) && #[trigger] s2.contains_key(h2) && h1 != h2 implies runs_apart(
                s2[h1].moves,
                s2[h2].moves,
            ) by {
                if s0.contains_key(h1) && s0.contains_key(h2) {
                    assert(s2[h1].moves == s0[h1].moves && s2[h2].moves == s0[h2].moves);
                } else if s0.contains_key(h1) {
                    assert(s2[h1].moves == s0[h1].moves);
                } else if s0.contains_key(h2) {
                    assert(s2[h2].moves == s0[h2].moves);
                }
            }
            assert forall|h: usize| #[trigger] v2.contains_key(h) implies node_ok(v2, h) by {
                if h != c {
                    assert(node_ok(v0, h));
                    let n = v2[h];
                    assert forall|k: int| 0 <= k < n.moves.len() implies #[trigger] edge_ok(v2, h, k) by {
                        assert(edge_ok(v0, h, k));
                        let s = v0[h].moves[k].0;
                        if s != UNEXPANDED {
                            assert(v0.contains_key(s));
                        }
                    }
                    assert forall|j: int| 0 <= j < n.predecessors.len() implies v2.contains_key(#[trigger] n.predecessors[j])
                        && has_edge(v2, n.predecessors[j], h) by {
                        let p = n.predecessors[j];
                        assert(v0.contains_key(p) && has_edge(v0, p, h));
                        let k = choose|k: int| 0 <= k < v0[p].moves.len() && #[trigger] v0[p].moves[k].0 == h;
                        assert(v2[p].moves[k].0 == h);
                    }
                    if n.completely_computed {
                        assert(children_solved(v0, h));
                        assert forall|k: int| 0 <= k < v2[h].moves.len() implies v2.contains_key(#[trigger] v2[h].moves[k].0)
                            && v2[v2[h].moves[k].0].completely_computed by {
                            let s = v0[h].moves[k].0;
                            assert(v0.contains_key(s));
                        }
                    }
                } else {
                    assert(v2[c].moves == items);
                    assert forall|k: int| 0 <= k < v2[c].moves.len() implies #[trigger] edge_ok(v2, c, k) by {
                    }
                }
            }
            lemma_map_after_add(v0, old_map, v2, self.mappings@, c, key);
        }
        Ok(c)
    }
}

/// Where the positions, edges and predecessors of all nodes stay and solved marks only come
/// where all children are solved, the graph stays in order.
proof fn lemma_same_shape<G: MonteCarloGame>(
    v0: Map<usize, NodeView<G>>,
    v2: Map<usize, NodeView<G>>,
    mappings: Map<u64, Vec<usize>>,
)
    requires
        graph_ok(v0, mappings),
        v2.dom() == v0.dom(),
        forall|x: usize|
            #[trigger] v0.contains_key(x) ==> {
                &&& v2[x].game_state == v0[x].game_state
                &&& v2[x].moves == v0[x].moves
                &&& v2[x].predecessors == v0[x].predecessors
                &&& (v0[x].completely_computed ==> v2[x].completely_computed)
                &&& (v2[x].completely_computed ==> children_solved(v2, x))
            },
    ensures
        graph_ok(v2, mappings),
{
    assert forall|x: usize| #[trigger] v2.contains_key(x) implies node_ok(v2, x) by {
        assert(node_ok(v0, x));
        let n = v2[x];
        assert forall|k: int| 0 <= k < n.moves.len() implies #[trigger] edge_ok(v2, x, k) by {
            assert(edge_ok(v0, x, k));
            let s = v0[x].moves[k].0;
            if s != UNEXPANDED {
                assert(v0.contains_key(s));
            }
        }
        assert forall|j: int| 0 <= j < n.predecessors.len() implies v2.contains_key(#[trigger] n.predecessors[j])
            && has_edge(v2, n.predecessors[j], x) by {
            let p = v0[x].predecessors[j];
            assert(v0.contains_key(p) && has_edge(v0, p, x));
            let k = choose|k: int| 0 <= k < v0[p].moves.len() && #[trigger] v0[p].moves[k].0 == x;
            assert(v2[p].moves[k].0 == x);
        }
    }
    assert forall|h1: usize, h2: usize|
        #[trigger] v2.contains_key(h1) && #[trigger] v2.contains_key(h2) && v2[h1].game_state
            == v2[h2].game_state implies h1 == h2 by {
        assert(v0.contains_key(h1) && v0.contains_key(h2));
    }
    assert forall|h: usize| #[trigger] v2.contains_key(h) implies mappings.contains_key(v2[h].game_state.spec_key())
        && mappings[v2[h].game_state.spec_key()]@.contains(h) by {
        assert(v0.contains_key(h));
    }
    assert forall|k2: u64, j: int|
        #[trigger] mappings.contains_key(k2) && 0 <= j < mappings[k2]@.len() implies v2.contains_key(
            #[trigger] mappings[k2]@[j],
        ) && v2[mappings[k2]@[j]].game_state.spec_key() == k2 by {
        assert(v0.contains_key(mappings[k2]@[j]));
    }
}

/// Move `m` is legal in `g` and wins the game for the side that makes it.
pub open spec fn wins_at_once<G: MonteCarloGame>(g: G, m: G::MOVE) -> bool {
    g.spec_apply(m) is Ok && g.spec_apply(m)->Ok_0.1 == Some(Winner::WIN)
}

/// The move to play without searching: the only legal move where there is just one, else the
/// first legal move that wins at once, if any.
pub fn forced_move<G: MonteCarloGame>(game: &G) -> (r: Option<G::MOVE>)
    requires
        game.valid(),
    ensures
        game.spec_moves().len() == 1 ==> r == Some(game.spec_moves()[0]),
        game.spec_moves().len() != 1 ==> (r is Some <==> exists|k: int|
            0 <= k < game.spec_moves().len() && wins_at_once(*game, #[trigger] game.spec_moves()[k])),
        game.spec_moves().len() != 1 && r is Some ==> game.spec_moves().contains(r->Some_0)
            && wins_at_once(*game, r->Some_0),
{
    let moves = game.moves();
    if moves.len() == 1 {
        return Some(moves[0]);
    }
    let mut k: usize = 0;
    while k < moves.len()
        invariant
            game.valid(),
            moves@ == game.spec_moves(),
            k <= moves@.len(),
            forall|j: int| 0 <= j < k ==> !wins_at_once(*game, #[trigger] moves@[j]),
        decreases moves@.len() - k,
    {
        let m = moves[k];
        match game.make_move(&m) {
            Ok((_, Some(Winner::WIN))) => {
                proof {
                    assert(moves@[k as int] == m);
                }
                return Some(m);
            },
            _ => {},
        }
        k += 1;
    }
    None
}

/// Adding node `c` under its digest keeps the transposition map and the distinctness of
/// positions in order.
proof fn lemma_map_after_add<G: MonteCarloGame>(
    old_nodes: Map<usize, NodeView<G>>,
    old_map: Map<u64, Vec<usize>>,
    nodes: Map<usize, NodeView<G>>,
    map: Map<u64, Vec<usize>>,
    c: usize,
    key: u64,
)
    requires
        graph_ok(old_nodes, old_map),
        !old_nodes.contains_key(c),
        c != UNEXPANDED,
        nodes.dom() == old_nodes.dom().insert(c),
        forall|h: usize| #[trigger] old_nodes.contains_key(h) ==> nodes[h].game_state == old_nodes[h].game_state,
        key == nodes[c].game_state.spec_key(),
        forall|h: usize| #[trigger] old_nodes.contains_key(h) ==> old_nodes[h].game_state != nodes[c].game_state,
        map == old_map.insert(key, map[key]),
        map[key]@ == (if old_map.contains_key(key) {
            old_map[key]@
        } else {
            Seq::<usize>::empty()
        }).push(c),
        forall|h: usize| #[trigger] nodes.contains_key(h) ==> node_ok(nodes, h),
    ensures
        graph_ok(nodes, map),
{
    assert(!nodes.contains_key(UNEXPANDED));
    assert forall|h1: usize, h2: usize|
        #[trigger] nodes.contains_key(h1) && #[trigger] nodes.contains_key(h2) && nodes[h1].game_state
            == nodes[h2].game_state implies h1 == h2 by {
        if h1 != c && h2 != c {
            assert(old_nodes.contains_key(h1) && old_nodes.contains_key(h2));
        } else if h1 != c {
            assert(old_nodes.contains_key(h1));
        } else if h2 != c {
            assert(old_nodes.contains_key(h2));
        }
    }
    assert forall|h: usize| #[trigger] nodes.contains_key(h) implies map.contains_key(nodes[h].game_state.spec_key())
        && map[nodes[h].game_state.spec_key()]@.contains(h) by {
        if h == c {
            assert(map[key]@.last() == c);
        } else {
            assert(old_nodes.contains_key(h));
            let k2 = nodes[h].game_state.spec_key();
            assert(old_map.contains_key(k2) && old_map[k2]@.contains(h));
            if k2 == key {
                let i = choose|i: int| 0 <= i < old_map[k2]@.len() && old_map[k2]@[i] == h;
                assert(map[key]@[i] == h);
            }
        }
    }
    assert forall|k2: u64, j: int|
        #[trigger] map.contains_key(k2) && 0 <= j < map[k2]@.len() implies nodes.contains_key(
            #[trigger] map[k2]@[j],
        ) && nodes[map[k2]@[j]].game_state.spec_key() == k2 by {
        if k2 == key {
            if j < map[k2]@.len() - 1 {
                assert(old_map.contains_key(k2) && old_map[k2]@[j] == map[k2]@[j]);
                assert(old_nodes.contains_key(map[k2]@[j]));
            }
        } else {
            assert(old_map.contains_key(k2) && old_map[k2]@[j] == map[k2]@[j]);
            assert(old_nodes.contains_key(map[k2]@[j]));
        }
    }
}

/// Linking edge `i` of `parent` to node `c` (new, or existing with `parent` added to its
/// predecessors) keeps every node in order.
proof fn lemma_link<G: MonteCarloGame>(
    n0: Map<usize, NodeView<G>>,
    n2: Map<usize, NodeView<G>>,
    parent: usize,
    i: int,
    c: usize,
    m: G::MOVE,
)
    requires
        !n0.contains_key(UNEXPANDED),
        forall|h: usize| #[trigger] n0.contains_key(h) ==> node_ok(n0, h),
        n0.contains_key(parent),
        0 <= i < n0[parent].moves.len(),
        n0[parent].moves[i] == (UNEXPANDED, m),
        c != UNEXPANDED,
        n2.dom() == n0.dom().insert(c),
        n0[parent].game_state.spec_apply(m) is Ok,
        n0[parent].game_state.spec_apply(m)->Ok_0.0 == n2[c].game_state,
        forall|x: usize|
            #[trigger] n0.contains_key(x) ==> {
                &&& n2[x].game_state == n0[x].game_state
                &&& n2[x].completely_computed == n0[x].completely_computed
                &&& n2[x].moves == (if x == parent {
                    n0[x].moves.update(i, (c, m))
                } else {
                    n0[x].moves
                })
                &&& n2[x].predecessors == (if x == c {
                    n0[x].predecessors.push(parent)
                } else {
                    n0[x].predecessors
                })
            },
        !n0.contains_key(c) ==> {
            &&& n2[c].predecessors == seq![parent]
            &&& n2[c].game_state.valid()
            &&& n2[c].moves.len() == n2[c].game_state.spec_moves().len()
            &&& forall|k: int|
                0 <= k < n2[c].moves.len() ==> (#[trigger] n2[c].moves[k]).0 == UNEXPANDED
                    && n2[c].moves[k].1 == n2[c].game_state.spec_moves()[k]
            &&& n2[c].completely_computed == (n2[c].moves.len() == 0)
        },
    ensures
        !n2.contains_key(UNEXPANDED),
        forall|h: usize| #[trigger] n2.contains_key(h) ==> node_ok(n2, h),
        has_edge(n2, parent, c),
{
    assert(n2[parent].moves[i].0 == c);
    assert(has_edge(n2, parent, c));
    assert forall|x: usize| #[trigger] n2.contains_key(x) implies node_ok(n2, x) by {
        if n0.contains_key(x) {
            assert(node_ok(n0, x));
            let n = n2[x];
            assert forall|k: int| 0 <= k < n.moves.len() implies #[trigger] n.moves[k].1 == n.game_state.spec_moves()[k] by {
                if x == parent && k == i {
                } else {
                    assert(n0[x].moves[k].1 == n0[x].game_state.spec_moves()[k]);
                }
            }
            assert forall|k: int| 0 <= k < n.moves.len() implies #[trigger] edge_ok(n2, x, k) by {
                if x == parent && k == i {
                } else {
                    assert(edge_ok(n0, x, k));
                    let s = n0[x].moves[k].0;
                    if s != UNEXPANDED {
                        assert(n0.contains_key(s));
                    }
                }
            }
            assert forall|j: int| 0 <= j < n.predecessors.len() implies n2.contains_key(#[trigger] n.predecessors[j])
                && has_edge(n2, n.predecessors[j], x) by {
                if x == c && j == n0[x].predecessors.len() {
                } else {
                    let p = n0[x].predecessors[j];
                    assert(n.predecessors[j] == p);
                    assert(n0.contains_key(p) && has_edge(n0, p, x));
                    let k = choose|k: int| 0 <= k < n0[p].moves.len() && #[trigger] n0[p].moves[k].0 == x;
                    if p == parent && k == i {
                        assert(false);
                    }
                    assert(n2[p].moves[k].0 == x);
                }
            }
            if n.completely_computed {
                assert(children_solved(n0, x));
                if x == parent {
                    assert(n0.contains_key(n0[parent].moves[i].0));
                }
                assert forall|k: int| 0 <= k < n2[x].moves.len() implies n2.contains_key(#[trigger] n2[x].moves[k].0)
                    && n2[n2[x].moves[k].0].completely_computed by {
                    let s = n0[x].moves[k].0;
                    assert(n0.contains_key(s));
                }
            }
        } else {
            assert(x == c);
            assert forall|k: int| 0 <= k < n2[c].moves.len() implies #[trigger] edge_ok(n2, c, k) by {
                assert(n2[c].moves[k].0 == UNEXPANDED);
            }
            assert forall|j: int| 0 <= j < n2[c].predecessors.len() implies n2.contains_key(#[trigger] n2[c].predecessors[j])
                && has_edge(n2, n2[c].predecessors[j], c) by {
                assert(n2[c].predecessors[j] == parent);
            }
        }
    }
}

/// Every predecessor of a node has an edge to it.
pub proof fn lemma_dag<G: MonteCarloGame>(g: SearchGraph<G>, h: usize, j: int)
    requires
        g.wf(),
        g.graph().contains_key(h),
        0 <= j < g.graph()[h].predecessors.len(),
    ensures
        g.graph().contains_key(g.graph()[h].predecessors[j]),
        has_edge(g.graph(), g.graph()[h].predecessors[j], h),
{
    assert(node_ok(g.graph(), h));
}

/// A solved node has only solved children, all expanded.
pub proof fn lemma_solved_children<G: MonteCarloGame>(g: SearchGraph<G>, h: usize)
    requires
        g.wf(),
        g.graph().contains_key(h),
        g.graph()[h].completely_computed,
    ensures
        children_solved(g.graph(), h),
{
    assert(node_ok(g.graph(), h));
}

/// Transposition: one position has one node, whatever moves led to it.
pub proof fn lemma_one_node_per_position<G: MonteCarloGame>(g: SearchGraph<G>, h1: usize, h2: usize)
    requires
        g.wf(),
        g.graph().contains_key(h1),
        g.graph().contains_key(h2),
        g.graph()[h1].game_state == g.graph()[h2].game_state,
    ensures
        h1 == h2,
{
}

/// Each recorded visit of the root adds one to its count: after a run of `n` visits the root
/// has been visited `n` times more.
pub proof fn lemma_visits_add_up<G: MonteCarloGame>(states: Seq<SearchGraph<G>>, root: usize)
    requires
        states.len() >= 1,
        forall|i: int|
            0 <= i < states.len() - 1 ==> (#[trigger] states[i + 1]).nodes@[root].visited_amount
                == states[i].nodes@[root].visited_amount + 1,
    ensures
        states.last().nodes@[root].visited_amount == states[0].nodes@[root].visited_amount
            + states.len() - 1,
    decreases states.len(),
{
    if states.len() > 1 {
        let shorter = states.drop_last();
        assert forall|i: int| 0 <= i < shorter.len() - 1 implies (#[trigger] shorter[i + 1]).nodes@[root].visited_amount
            == shorter[i].nodes@[root].visited_amount + 1 by {
            assert(shorter[i + 1] == states[i + 1] && shorter[i] == states[i]);
        }
        lemma_visits_add_up(shorter, root);
        let n = states.len() - 2;
        assert(states[n + 1].nodes@[root].visited_amount == states[n].nodes@[root].visited_amount + 1);
        assert(states[n + 1] == states.last());
        assert(states[n] == shorter.last());
        assert(shorter[0] == states[0]);
    }
}

/// A node without moves is solved and has nothing to expand, so a playoff from it changes
/// nothing.
pub proof fn lemma_terminal_node_closed<G: MonteCarloGame>(g: SearchGraph<G>, h: usize)
    requires
        g.wf(),
        g.graph().contains_key(h),
        g.graph()[h].moves.len() == 0,
    ensures
        g.graph()[h].completely_computed,
        children_solved(g.graph(), h),
{
    assert(node_ok(g.graph(), h));
}

} // verus!
