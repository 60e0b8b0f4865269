use crate::model::technology::tree::{technology_views, well_formed, TechnologyTree};
use crate::model::technology::{id_lists, id_views, TechnologyId, TechnologyView};
use crate::usecase::validation::no_cycles::{acyclic, is_ranking};
use vstd::prelude::*;
use vstd::set_lib::{lemma_int_range, lemma_len_subset, set_int_range};

verus! {

/// Tells whether `value` is the depth that technology `s` must have, given
/// the depths of its predecessors: zero without predecessors, and otherwise
/// one more than the greatest depth among them.
pub open spec fn depth_rule(tree: Seq<TechnologyView>, depth: Seq<u32>, s: int, value: int) -> bool {
    let predecessors = tree[s].predecessors;
    if predecessors.len() == 0 {
        value == 0
    } else {
        &&& forall|k: int|
            0 <= k < predecessors.len() ==> value >= depth[(#[trigger] predecessors[k]) as int] + 1
        &&& exists|k: int|
            0 <= k < predecessors.len() && value == depth[(#[trigger] predecessors[k]) as int] + 1
    }
}

/// Tells whether technology `s` has the depth that it must have.
pub open spec fn settled_at(tree: Seq<TechnologyView>, depth: Seq<u32>, s: int) -> bool {
    depth_rule(tree, depth, s, depth[s] as int)
}

/// Tells whether `depth` holds, for every technology, the length of the
/// longest chain of predecessors that ends at it.
pub open spec fn is_depth(tree: Seq<TechnologyView>, depth: Seq<u32>) -> bool {
    &&& depth.len() == tree.len()
    &&& forall|s: int| 0 <= s < tree.len() ==> #[trigger] settled_at(tree, depth, s)
}

/// The depths of the technologies of an acyclic tree.
pub open spec fn depths(tree: Seq<TechnologyView>) -> Seq<u32> {
    choose|depth: Seq<u32>| is_depth(tree, depth)
}

/// The greatest number of a list; zero for the empty list.
pub open spec fn greatest(depth: Seq<u32>) -> nat
    decreases depth.len(),
{
    if depth.len() == 0 {
        0
    } else if depth.last() > greatest(depth.drop_last()) {
        depth.last() as nat
    } else {
        greatest(depth.drop_last())
    }
}

/// The places at which `depth` holds `d`, in ascending order.
pub open spec fn members(depth: Seq<u32>, d: int) -> Seq<nat>
    decreases depth.len(),
{
    if depth.len() == 0 {
        Seq::empty()
    } else if depth.last() == d {
        members(depth.drop_last(), d).push((depth.len() - 1) as nat)
    } else {
        members(depth.drop_last(), d)
    }
}

/// The technologies grouped by depth: at place `d`, in ascending order,
/// those of depth `d`, up to the greatest depth.
pub open spec fn groups_of(depth: Seq<u32>) -> Seq<Seq<nat>> {
    Seq::new(greatest(depth) + 1, |d: int| members(depth, d))
}

/// Every member of a group is a place of the list.
pub proof fn lemma_members_bounded(depth: Seq<u32>, d: int, k: int)
    requires
        0 <= k < members(depth, d).len(),
    ensures
        members(depth, d)[k] < depth.len(),
        depth[members(depth, d)[k] as int] == d,
    decreases depth.len(),
{
    if depth.len() > 0 {
        if depth.last() == d && k == members(depth, d).len() - 1 {
        } else {
            lemma_members_bounded(depth.drop_last(), d, k);
        }
    }
}

/// Every place of the list is a member of the group of its depth, and no
/// depth is above the greatest.
pub proof fn lemma_members_complete(depth: Seq<u32>, i: int)
    requires
        0 <= i < depth.len(),
    ensures
        members(depth, depth[i] as int).contains(i as nat),
        depth[i] <= greatest(depth),
    decreases depth.len(),
{
    let d = depth[i] as int;
    if i == depth.len() - 1 {
        assert(members(depth, d).last() == i as nat);
    } else {
        lemma_members_complete(depth.drop_last(), i);
        let rest = members(depth.drop_last(), d);
        let at = choose|at: int| 0 <= at < rest.len() && rest[at] == i as nat;
        assert(members(depth, d)[at] == i as nat);
    }
}

/// The identifiers of the technologies without predecessors, in the order
/// of the tree.
pub open spec fn roots(tree: Seq<TechnologyView>) -> Seq<nat>
    decreases tree.len(),
{
    if tree.len() == 0 {
        Seq::empty()
    } else if tree.last().predecessors.len() == 0 {
        roots(tree.drop_last()).push(tree.last().id)
    } else {
        roots(tree.drop_last())
    }
}

/// A technology keeps the depth that it must have while the depths of its
/// predecessors stay as they are.
pub proof fn lemma_rule_stable(
    tree: Seq<TechnologyView>,
    before: Seq<u32>,
    after: Seq<u32>,
    s: int,
    value: int,
)
    requires
        depth_rule(tree, before, s, value),
        forall|k: int|
            0 <= k < tree[s].predecessors.len() ==> after[(#[trigger] tree[s].predecessors[k]) as int]
                == before[tree[s].predecessors[k] as int],
    ensures
        depth_rule(tree, after, s, value),
{
}

/// The depths of the predecessors leave one depth only.
pub proof fn lemma_rule_decides(
    tree: Seq<TechnologyView>,
    depth: Seq<u32>,
    s: int,
    one: int,
    other: int,
)
    requires
        depth_rule(tree, depth, s, one),
        depth_rule(tree, depth, s, other),
    ensures
        one == other,
{
}

proof fn lemma_depths_agree(
    tree: Seq<TechnologyView>,
    rank: Seq<nat>,
    one: Seq<u32>,
    other: Seq<u32>,
    s: int,
)
    requires
        well_formed(tree),
        is_ranking(tree, rank),
        is_depth(tree, one),
        is_depth(tree, other),
        0 <= s < tree.len(),
    ensures
        one[s] == other[s],
    decreases rank[s],
{
    let predecessors = tree[s].predecessors;
    assert(settled_at(tree, one, s));
    assert(settled_at(tree, other, s));
    if predecessors.len() > 0 {
        let a = choose|k: int|
            0 <= k < predecessors.len() && one[s] == one[(#[trigger] predecessors[k]) as int] + 1;
        let b = choose|k: int|
            0 <= k < predecessors.len() && other[s] == other[(#[trigger] predecessors[k]) as int] + 1;
        lemma_depths_agree(tree, rank, one, other, predecessors[a] as int);
        lemma_depths_agree(tree, rank, one, other, predecessors[b] as int);
    }
}

/// An acyclic tree has one assignment of depths only.
pub proof fn lemma_depth_unique(tree: Seq<TechnologyView>, one: Seq<u32>, other: Seq<u32>)
    requires
        well_formed(tree),
        acyclic(tree),
        is_depth(tree, one),
        is_depth(tree, other),
    ensures
        one == other,
{
    let rank = choose|rank: Seq<nat>| is_ranking(tree, rank);
    assert forall|s: int| 0 <= s < tree.len() implies one[s] == other[s] by {
        lemma_depths_agree(tree, rank, one, other, s);
    }
}

/// Where depths follow the rule, every technology lies deeper than each of
/// its predecessors, and exactly one level below the deepest of them.
pub proof fn lemma_depth_exact(tree: Seq<TechnologyView>, depth: Seq<u32>, s: int, k: int)
    requires
        is_depth(tree, depth),
        0 <= s < tree.len(),
        0 <= k < tree[s].predecessors.len(),
    ensures
        depth[s] >= depth[tree[s].predecessors[k] as int] + 1,
        exists|m: int|
            0 <= m < tree[s].predecessors.len() && depth[s] == depth[(
            #[trigger] tree[s].predecessors[m]) as int] + 1,
{
    assert(settled_at(tree, depth, s));
}

/// One more than the greatest depth among the first `count` predecessors of
/// `s`; zero if `count` is zero.
pub open spec fn deepest(tree: Seq<TechnologyView>, depth: Seq<u32>, s: int, count: int) -> int
    decreases count,
{
    if count <= 0 {
        0
    } else if depth[tree[s].predecessors[count - 1] as int] + 1 > deepest(tree, depth, s, count - 1) {
        depth[tree[s].predecessors[count - 1] as int] + 1
    } else {
        deepest(tree, depth, s, count - 1)
    }
}

proof fn lemma_deepest(tree: Seq<TechnologyView>, rank: Seq<nat>, depth: Seq<u32>, s: int, count: int)
    requires
        well_formed(tree),
        is_ranking(tree, rank),
        depth.len() == tree.len(),
        forall|v: int| 0 <= v < tree.len() ==> #[trigger] depth[v] <= rank[v],
        0 <= s < tree.len(),
        0 <= count <= tree[s].predecessors.len(),
    ensures
        0 <= deepest(tree, depth, s, count) <= rank[s],
        count == 0 ==> deepest(tree, depth, s, count) == 0,
        forall|k: int|
            0 <= k < count ==> deepest(tree, depth, s, count) >= depth[(
            #[trigger] tree[s].predecessors[k]) as int] + 1,
        count > 0 ==> exists|k: int|
            0 <= k < count && deepest(tree, depth, s, count) == depth[(
            #[trigger] tree[s].predecessors[k]) as int] + 1,
    decreases count,
{
    if count > 0 {
        lemma_deepest(tree, rank, depth, s, count - 1);
        let last = tree[s].predecessors[count - 1];
        assert(last < tree.len());
        assert(rank[last as int] < rank[s]);
        if count > 1 && deepest(tree, depth, s, count) == deepest(tree, depth, s, count - 1) {
            let at = choose|k: int|
                0 <= k < count - 1 && deepest(tree, depth, s, count - 1) == depth[(
                #[trigger] tree[s].predecessors[k]) as int] + 1;
            assert(0 <= at < count);
        }
    }
}

proof fn lemma_depths_below(tree: Seq<TechnologyView>, rank: Seq<nat>, round: nat) -> (depth: Seq<u32>)
    requires
        well_formed(tree),
        is_ranking(tree, rank),
        tree.len() <= u32::MAX,
    ensures
        depth.len() == tree.len(),
        forall|v: int| 0 <= v < tree.len() ==> #[trigger] depth[v] <= rank[v],
        forall|v: int| 0 <= v < tree.len() && rank[v] < round ==> #[trigger] settled_at(tree, depth, v),
    decreases round,
{
    if round == 0 {
        Seq::new(tree.len(), |v: int| 0u32)
    } else {
        let before = lemma_depths_below(tree, rank, (round - 1) as nat);
        let after = Seq::new(
            tree.len(),
            |v: int|
                if rank[v] == round - 1 {
                    deepest(tree, before, v, tree[v].predecessors.len() as int) as u32
                } else {
                    before[v]
                },
        );
        assert forall|v: int| 0 <= v < tree.len() implies #[trigger] after[v] <= rank[v] by {
            lemma_deepest(tree, rank, before, v, tree[v].predecessors.len() as int);
        }
        assert forall|v: int| 0 <= v < tree.len() && rank[v] < round implies #[trigger] settled_at(
            tree,
            after,
            v,
        ) by {
            lemma_deepest(tree, rank, before, v, tree[v].predecessors.len() as int);
            assert forall|k: int| 0 <= k < tree[v].predecessors.len() implies after[(
            #[trigger] tree[v].predecessors[k]) as int] == before[tree[v].predecessors[k] as int] by {
                let p = tree[v].predecessors[k];
                assert(rank[p as int] < rank[v]);
            }
            if rank[v] == round - 1 {
                assert(depth_rule(tree, before, v, after[v] as int));
            } else {
                assert(settled_at(tree, before, v));
            }
            lemma_rule_stable(tree, before, after, v, after[v] as int);
        }
        after
    }
}

/// Every acyclic tree has depths: every technology lies deeper than each of
/// its predecessors, exactly one level below the deepest of them, and a
/// technology without predecessors has depth zero.
pub proof fn lemma_depths(tree: Seq<TechnologyView>)
    requires
        well_formed(tree),
        acyclic(tree),
        tree.len() <= u32::MAX,
    ensures
        is_depth(tree, depths(tree)),
{
    let rank = choose|rank: Seq<nat>| is_ranking(tree, rank);
    let depth = lemma_depths_below(tree, rank, tree.len());
    assert forall|s: int| 0 <= s < tree.len() implies #[trigger] settled_at(tree, depth, s) by {
        assert(rank[s] < tree.len());
    }
    assert(is_depth(tree, depth));
}

/// What a walk along predecessors knows at one moment: the depths found so
/// far, the technologies whose depth is final, the path from the technology
/// it started at to the one it looks at, and for each technology of the path
/// how many of its predecessors it has tried.
struct WalkState {
    numbers: Seq<u32>,
    done: Seq<bool>,
    path: Seq<usize>,
    cursor: Seq<usize>,
    finished: Set<int>,
}

/// The `k`-th predecessor of `v`.
spec fn predecessor(tree: Seq<TechnologyView>, v: int, k: int) -> int {
    tree[v].predecessors[k] as int
}

impl WalkState {
    /// The predecessors of the last technology of the path that are still
    /// to be tried.
    spec fn untried(self, tree: Seq<TechnologyView>) -> int {
        if self.path.len() > 0 {
            tree[self.path.last() as int].predecessors.len() - self.cursor.last()
        } else {
            0
        }
    }

    /// The rank of the last technology of the path.
    spec fn height(self, rank: Seq<nat>) -> int {
        if self.path.len() > 0 {
            rank[self.path.last() as int] as int
        } else {
            0
        }
    }

    /// Tells whether the technology at place `j` of the path is the
    /// predecessor that the walk tried last at place `i`.
    spec fn ascends(self, tree: Seq<TechnologyView>, i: int, j: int) -> bool {
        self.cursor[i] >= 1 && predecessor(tree, self.path[i] as int, self.cursor[i] - 1)
            == self.path[j]
    }

    /// The rules that the depths keep throughout a walk: a final depth is
    /// the depth that the technology must have, and the depths of its
    /// predecessors are final as well.
    spec fn settled(self, tree: Seq<TechnologyView>, rank: Seq<nat>) -> bool {
        let n = tree.len();
        &&& self.numbers.len() == n
        &&& self.done.len() == n
        &&& self.finished.finite()
        &&& self.finished.len() <= n
        &&& forall|v: int| #[trigger] self.finished.contains(v) <==> (0 <= v < n && self.done[v])
        &&& forall|v: int| 0 <= v < n ==> #[trigger] self.numbers[v] <= rank[v]
        &&& forall|v: int| 0 <= v < n && self.done[v] ==> #[trigger] settled_at(tree, self.numbers, v)
        &&& forall|v: int, k: int|
            0 <= v < n && self.done[v] && 0 <= k < tree[v].predecessors.len() ==> self.done[
                #[trigger] predecessor(tree, v, k)
            ]
    }

    /// The rules that the path keeps throughout a walk.
    spec fn threaded(self, tree: Seq<TechnologyView>) -> bool {
        let n = tree.len();
        let length = self.path.len();
        &&& self.cursor.len() == length
        &&& forall|i: int|
            0 <= i < length ==> {
                let v = #[trigger] self.path[i];
                &&& v < n
                &&& !self.done[v as int]
                &&& self.cursor[i] <= tree[v as int].predecessors.len()
            }
        &&& forall|i: int, j: int|
            0 <= i && j == i + 1 && j < length ==> #[trigger] self.ascends(tree, i, j)
        &&& forall|i: int, k: int|
            0 <= i < length && 0 <= k < self.cursor[i] && (i == length - 1 || k < self.cursor[i] - 1)
                ==> self.done[#[trigger] predecessor(tree, self.path[i] as int, k)]
    }

    /// The rules of a walk that is under way.
    spec fn consistent(self, tree: Seq<TechnologyView>, rank: Seq<nat>) -> bool {
        self.settled(tree, rank) && self.threaded(tree)
    }
}

/// The state that the depths, the marks and the path make up.
spec fn walk_of(
    numbers: Seq<u32>,
    done: Seq<bool>,
    path: Seq<usize>,
    cursor: Seq<usize>,
    finished: Set<int>,
) -> WalkState {
    WalkState { numbers, done, path, cursor, finished }
}

/// The state after the walk has tried one more predecessor of the last
/// technology of its path, if the path has one.
spec fn turned(state: WalkState) -> WalkState {
    if state.path.len() > 0 {
        WalkState {
            cursor: state.cursor.update(state.cursor.len() - 1, (state.cursor.last() + 1) as usize),
            ..state
        }
    } else {
        state
    }
}

/// The state after the walk has turned to `v`, whose depth is not final.
spec fn entered(state: WalkState, v: usize) -> WalkState {
    WalkState {
        path: turned(state).path.push(v),
        cursor: turned(state).cursor.push(0),
        ..state
    }
}

/// The state after the walk has given the last technology of its path the
/// depth `value`.
spec fn closed_with(state: WalkState, value: u32) -> WalkState {
    WalkState {
        numbers: state.numbers.update(state.path.last() as int, value),
        done: state.done.update(state.path.last() as int, true),
        path: state.path.drop_last(),
        cursor: state.cursor.drop_last(),
        finished: state.finished.insert(state.path.last() as int),
    }
}

proof fn lemma_walk_step(tree: Seq<TechnologyView>, state: WalkState, i: int)
    requires
        state.threaded(tree),
        0 <= i,
        i + 1 < state.path.len(),
    ensures
        state.cursor[i] >= 1,
        predecessor(tree, state.path[i] as int, state.cursor[i] - 1) == state.path[i + 1],
{
    assert(state.ascends(tree, i, i + 1));
}

proof fn lemma_pass(tree: Seq<TechnologyView>, rank: Seq<nat>, state: WalkState)
    requires
        state.consistent(tree, rank),
        state.path.len() > 0,
        state.cursor.last() < tree[state.path.last() as int].predecessors.len(),
        state.cursor.last() < usize::MAX,
        state.done[predecessor(tree, state.path.last() as int, state.cursor.last() as int)],
    ensures
        turned(state).consistent(tree, rank),
        turned(state).untried(tree) < state.untried(tree),
        turned(state).height(rank) == state.height(rank),
{
    let after = turned(state);
    assert forall|i: int, j: int|
        0 <= i && j == i + 1 && j < after.path.len() implies #[trigger] after.ascends(tree, i, j) by {
        lemma_walk_step(tree, state, i);
    }
}

proof fn lemma_enter(tree: Seq<TechnologyView>, rank: Seq<nat>, state: WalkState, v: usize)
    requires
        well_formed(tree),
        is_ranking(tree, rank),
        state.consistent(tree, rank),
        v < tree.len(),
        !state.done[v as int],
        state.path.len() > 0 ==> state.cursor.last() < tree[state.path.last() as int].predecessors.len()
            && state.cursor.last() < usize::MAX && predecessor(
            tree,
            state.path.last() as int,
            state.cursor.last() as int,
        ) == v,
    ensures
        entered(state, v).consistent(tree, rank),
        state.path.len() > 0 ==> entered(state, v).height(rank) < state.height(rank),
{
    let after = entered(state, v);
    let length = state.path.len();
    assert forall|i: int, j: int|
        0 <= i && j == i + 1 && j < after.path.len() implies #[trigger] after.ascends(tree, i, j) by {
        if j < length {
            lemma_walk_step(tree, state, i);
        }
    }
}

proof fn lemma_finish(tree: Seq<TechnologyView>, rank: Seq<nat>, state: WalkState, value: u32)
    requires
        well_formed(tree),
        is_ranking(tree, rank),
        state.consistent(tree, rank),
        state.path.len() > 0,
        state.cursor.last() == tree[state.path.last() as int].predecessors.len(),
        depth_rule(tree, state.numbers, state.path.last() as int, value as int),
        value <= rank[state.path.last() as int],
    ensures
        closed_with(state, value).consistent(tree, rank),
        closed_with(state, value).finished.len() == state.finished.len() + 1,
{
    let after = closed_with(state, value);
    let n = tree.len();
    let top = state.path.len() - 1;
    let v = state.path[top] as int;
    lemma_int_range(0, n as int);
    lemma_len_subset(after.finished, set_int_range(0, n as int));
    assert forall|x: int| 0 <= x < n && after.done[x] implies #[trigger] settled_at(
        tree,
        after.numbers,
        x,
    ) by {
        assert forall|k: int| 0 <= k < tree[x].predecessors.len() implies after.numbers[(
        #[trigger] tree[x].predecessors[k]) as int] == state.numbers[tree[x].predecessors[k] as int] by {
            if x != v {
                assert(state.done[predecessor(tree, x, k)]);
            }
        }
        if x == v {
            lemma_rule_stable(tree, state.numbers, after.numbers, x, value as int);
        } else {
            assert(settled_at(tree, state.numbers, x));
            lemma_rule_stable(tree, state.numbers, after.numbers, x, state.numbers[x] as int);
        }
    }
    assert forall|i: int| 0 <= i < after.path.len() implies ({
        let x = #[trigger] after.path[i];
        &&& x < n
        &&& !after.done[x as int]
        &&& after.cursor[i] <= tree[x as int].predecessors.len()
    }) by {
        let x = state.path[i];
        if x == v {
            lemma_path_falls(tree, rank, state, i, top);
        }
    }
    assert forall|i: int, j: int|
        0 <= i && j == i + 1 && j < after.path.len() implies #[trigger] after.ascends(tree, i, j) by {
        lemma_walk_step(tree, state, i);
    }
    assert forall|i: int, k: int|
        0 <= i < after.path.len() && 0 <= k < after.cursor[i] && (i == after.path.len() - 1 || k
            < after.cursor[i] - 1) implies after.done[#[trigger] predecessor(
        tree,
        after.path[i] as int,
        k,
    )] by {
        if i == top - 1 && k == state.cursor[i] - 1 {
            lemma_walk_step(tree, state, i);
        }
    }
}

/// Ranks fall along the path of a walk.
proof fn lemma_path_falls(tree: Seq<TechnologyView>, rank: Seq<nat>, state: WalkState, i: int, j: int)
    requires
        well_formed(tree),
        is_ranking(tree, rank),
        state.threaded(tree),
        0 <= i < j < state.path.len(),
    ensures
        rank[state.path[j] as int] < rank[state.path[i] as int],
    decreases j - i,
{
    lemma_walk_step(tree, state, j - 1);
    if i < j - 1 {
        lemma_path_falls(tree, rank, state, i, j - 1);
    }
}

fn required_depth(
    tree: &TechnologyTree,
    numbers: &Vec<u32>,
    id: usize,
    Ghost(rank): Ghost<Seq<nat>>,
) -> (value: u32)
    requires
        well_formed(tree@),
        is_ranking(tree@, rank),
        tree@.len() <= u32::MAX,
        id < tree@.len(),
        numbers.len() == tree@.len(),
        forall|v: int| 0 <= v < tree@.len() ==> #[trigger] numbers[v] <= rank[v],
    ensures
        depth_rule(tree@, numbers@, id as int, value as int),
        value <= rank[id as int],
{
    let technologies = tree.technologies();
    let predecessors = technologies[id].predecessors();
    let ghost list = tree@[id as int].predecessors;
    let mut value: u32 = 0;
    let mut k: usize = 0;
    while k < predecessors.len()
        invariant
            k <= predecessors.len(),
            well_formed(tree@),
            is_ranking(tree@, rank),
            tree@.len() <= u32::MAX,
            id < tree@.len(),
            numbers.len() == tree@.len(),
            forall|v: int| 0 <= v < tree@.len() ==> #[trigger] numbers[v] <= rank[v],
            list == tree@[id as int].predecessors,
            id_views(predecessors@) == list,
            value <= rank[id as int],
            k == 0 ==> value == 0,
            forall|i: int| 0 <= i < k ==> value >= numbers[(#[trigger] list[i]) as int] + 1,
            k > 0 ==> exists|i: int| 0 <= i < k && value == numbers[(#[trigger] list[i]) as int] + 1,
        decreases predecessors.len() - k,
    {
        let predecessor = predecessors[k].id();
        assert(predecessor == list[k as int]);
        let candidate: u32 = numbers[predecessor] + 1;
        if candidate > value {
            value = candidate;
        }
        k = k + 1;
    }
    value
}

fn settle(
    tree: &TechnologyTree,
    id: usize,
    numbers: &mut Vec<u32>,
    done: &mut Vec<bool>,
    Ghost(rank): Ghost<Seq<nat>>,
    Ghost(before): Ghost<Set<int>>,
) -> (after: Ghost<Set<int>>)
    requires
        well_formed(tree@),
        is_ranking(tree@, rank),
        tree@.len() <= u32::MAX,
        id < tree@.len(),
        walk_of(old(numbers)@, old(done)@, Seq::empty(), Seq::empty(), before).consistent(tree@, rank),
    ensures
        walk_of(final(numbers)@, final(done)@, Seq::empty(), Seq::empty(), after@).consistent(
            tree@,
            rank,
        ),
        final(done)@[id as int],
        forall|v: int| 0 <= v < tree@.len() && old(done)@[v] ==> #[trigger] final(done)@[v],
{
    let technologies = tree.technologies();
    let ghost earlier = done@;
    let ghost mut finished = before;
    if done[id] {
        return Ghost(finished);
    }
    let mut path: Vec<usize> = Vec::new();
    let mut cursor: Vec<usize> = Vec::new();
    proof {
        lemma_enter(tree@, rank, walk_of(numbers@, done@, path@, cursor@, finished), id);
    }
    path.push(id);
    cursor.push(0);
    while path.len() > 0
        invariant
            well_formed(tree@),
            is_ranking(tree@, rank),
            tree@.len() <= u32::MAX,
            technology_views(technologies@) == tree@,
            walk_of(numbers@, done@, path@, cursor@, finished).consistent(tree@, rank),
            id < tree@.len(),
            earlier.len() == tree@.len(),
            path.len() > 0 ==> path[0] == id,
            path.len() == 0 ==> done@[id as int],
            forall|v: int| 0 <= v < tree@.len() && earlier[v] ==> #[trigger] done@[v],
        decreases
                tree@.len() - finished.len(),
                walk_of(numbers@, done@, path@, cursor@, finished).height(rank),
                walk_of(numbers@, done@, path@, cursor@, finished).untried(tree@),
    {
        let ghost state = walk_of(numbers@, done@, path@, cursor@, finished);
        let top = path.len() - 1;
        let current = path[top];
        let predecessors = technologies[current].predecessors();
        let next = cursor[top];
        if next < predecessors.len() {
            let target = predecessors[next].id();
            assert(target == predecessor(tree@, current as int, next as int));
            cursor[top] = next + 1;
            if done[target] {
                proof {
                    lemma_pass(tree@, rank, state);
                }
            } else {
                proof {
                    lemma_enter(tree@, rank, state, target);
                }
                path.push(target);
                cursor.push(0);
            }
        } else {
            let value = required_depth(tree, numbers, current, Ghost(rank));
            proof {
                lemma_finish(tree@, rank, state, value);
                finished = closed_with(state, value).finished;
            }
            numbers[current] = value;
            done[current] = true;
            path.pop();
            cursor.pop();
        }
    }
    Ghost(finished)
}

/// The depth of every technology: the length of the longest chain of
/// predecessors that ends at it.
pub fn calculate_depth(tree: &TechnologyTree) -> (depth: Vec<u32>)
    requires
        well_formed(tree@),
        acyclic(tree@),
        tree@.len() <= u32::MAX,
    ensures
        is_depth(tree@, depth@),
        depth@ == depths(tree@),
        forall|v: int| 0 <= v < depth@.len() ==> #[trigger] depth@[v] < tree@.len(),
{
    let n = tree.technologies().len();
    let ghost rank = choose|rank: Seq<nat>| is_ranking(tree@, rank);
    let mut numbers: Vec<u32> = Vec::new();
    let mut done: Vec<bool> = Vec::new();
    let mut i: usize = 0;
    while i < n
        invariant
            i <= n,
            numbers.len() == i,
            done.len() == i,
            forall|v: int| 0 <= v < i ==> #[trigger] numbers[v] == 0,
            forall|v: int| 0 <= v < i ==> !#[trigger] done[v],
        decreases n - i,
    {
        numbers.push(0);
        done.push(false);
        i = i + 1;
    }
    let ghost mut finished: Set<int> = Set::empty();
    let mut id: usize = 0;
    while id < n
        invariant
            id <= n,
            n == tree@.len(),
            well_formed(tree@),
            is_ranking(tree@, rank),
            tree@.len() <= u32::MAX,
            walk_of(numbers@, done@, Seq::empty(), Seq::empty(), finished).consistent(tree@, rank),
            forall|v: int| 0 <= v < id ==> #[trigger] done@[v],
        decreases n - id,
    {
        let Ghost(after) = settle(tree, id, &mut numbers, &mut done, Ghost(rank), Ghost(finished));
        proof {
            finished = after;
        }
        id = id + 1;
    }
    proof {
        lemma_depth_unique(tree@, numbers@, depths(tree@));
    }
    numbers
}

/// The technologies grouped by their depth: the group at place `d` holds, in
/// ascending order, the identifiers of the technologies of depth `d`.
pub fn group_by_depth(depth: &[u32]) -> (groups: Vec<Vec<TechnologyId>>)
    requires
        forall|i: int| 0 <= i < depth@.len() ==> #[trigger] depth@[i] < usize::MAX,
    ensures
        groups.len() == greatest(depth@) + 1,
        forall|d: int|
            0 <= d < groups.len() ==> id_views(#[trigger] groups[d]@) == members(depth@, d),
        id_lists(groups@) == groups_of(depth@),
{
    let mut max_depth: u32 = 0;
    let mut i: usize = 0;
    while i < depth.len()
        invariant
            i <= depth.len(),
            max_depth == greatest(depth@.take(i as int)),
            forall|k: int| 0 <= k < i ==> depth@[k] <= max_depth,
            forall|i: int| 0 <= i < depth@.len() ==> #[trigger] depth@[i] < usize::MAX,
            max_depth < usize::MAX,
        decreases depth.len() - i,
    {
        proof {
            let next = depth@.take(i + 1);
            assert(next.drop_last() == depth@.take(i as int));
        }
        if depth[i] > max_depth {
            max_depth = depth[i];
        }
        i = i + 1;
    }
    assert(depth@.take(i as int) == depth@);
    let count: usize = max_depth as usize + 1;
    let mut groups: Vec<Vec<TechnologyId>> = Vec::new();
    let mut d: usize = 0;
    while d < count
        invariant
            d <= count,
            groups.len() == d,
            forall|e: int| 0 <= e < d ==> (#[trigger] groups[e])@.len() == 0,
        decreases count - d,
    {
        groups.push(Vec::new());
        d = d + 1;
    }
    let mut i: usize = 0;
    while i < depth.len()
        invariant
            i <= depth.len(),
            groups.len() == count,
            count == max_depth + 1,
            forall|k: int| 0 <= k < depth@.len() ==> depth@[k] <= max_depth,
            forall|e: int|
                0 <= e < count ==> id_views(#[trigger] groups[e]@) == members(
                    depth@.take(i as int),
                    e,
                ),
        decreases depth.len() - i,
    {
        let at = depth[i] as usize;
        groups[at].push(TechnologyId::new(i));
        proof {
            let next = depth@.take(i + 1);
            assert(next.drop_last() == depth@.take(i as int));
        }
        i = i + 1;
    }
    groups
}

/// The technologies that rest on no other, in the order of the tree.
pub fn calculate_technologies_without_predecessors(tree: &TechnologyTree) -> (ids: Vec<TechnologyId>)
    ensures
        id_views(ids@) == roots(tree@),
{
    let technologies = tree.technologies();
    let mut ids: Vec<TechnologyId> = Vec::new();
    let mut i: usize = 0;
    while i < technologies.len()
        invariant
            i <= technologies.len(),
            technology_views(technologies@) == tree@,
            id_views(ids@) == roots(tree@.take(i as int)),
        decreases technologies.len() - i,
    {
        let technology = &technologies[i];
        proof {
            let next = tree@.take(i + 1);
            assert(next.drop_last() == tree@.take(i as int));
        }
        if technology.predecessors().len() == 0 {
            ids.push(*technology.id());
        }
        i = i + 1;
    }
    assert(tree@.take(i as int) == tree@);
    ids
}

} // verus!
