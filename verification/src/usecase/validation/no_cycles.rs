use crate::model::error::{AddError, AddErrorView};
use crate::model::technology::tree::{technology_views, well_formed, TechnologyTree};
use crate::model::technology::{id_views, TechnologyId, TechnologyView};
use vstd::prelude::*;
use vstd::set_lib::{lemma_int_range, lemma_len_subset, set_int_range};

verus! {

/// Tells whether `to` is a successor of `from`.
pub open spec fn leads(tree: Seq<TechnologyView>, from: nat, to: nat) -> bool {
    from < tree.len() && to < tree.len() && tree[from as int].successors.contains(to)
}

/// Tells whether `walk` is a cycle of the tree: it names at least one
/// technology, each leads to the next, and the last leads to the first.
pub open spec fn is_cycle(tree: Seq<TechnologyView>, walk: Seq<nat>) -> bool {
    &&& walk.len() > 0
    &&& forall|i: int, j: int|
        0 <= i && j == i + 1 && j < walk.len() ==> leads(tree, #[trigger] walk[i], #[trigger] walk[j])
    &&& leads(tree, walk.last(), walk[0])
}

/// Tells whether `rank` numbers the technologies, with numbers below their
/// count, so that each stands above all of its predecessors.
pub open spec fn is_ranking(tree: Seq<TechnologyView>, rank: Seq<nat>) -> bool {
    &&& rank.len() == tree.len()
    &&& forall|i: int| 0 <= i < tree.len() ==> #[trigger] rank[i] < tree.len()
    &&& forall|i: int, k: int|
        0 <= i < tree.len() && 0 <= k < tree[i].predecessors.len() ==> rank[(
        #[trigger] tree[i].predecessors[k]) as int] < rank[i]
}

/// A tree is acyclic if its technologies can be ranked.
pub open spec fn acyclic(tree: Seq<TechnologyView>) -> bool {
    exists|rank: Seq<nat>| is_ranking(tree, rank)
}

/// The display names of the technologies of a walk.
pub open spec fn walk_names(tree: Seq<TechnologyView>, walk: Seq<nat>) -> Seq<Seq<char>> {
    Seq::new(walk.len(), |i: int| tree[walk[i] as int].name.full())
}

/// What a cycle report says: the names belong to the technologies of a cycle
/// that passes through none of them twice.
pub open spec fn reports_cycle(tree: Seq<TechnologyView>, names: Seq<Seq<char>>) -> bool {
    exists|walk: Seq<nat>| is_cycle(tree, walk) && walk.no_duplicates() && names == walk_names(tree, walk)
}

proof fn lemma_rank_climbs(tree: Seq<TechnologyView>, rank: Seq<nat>, walk: Seq<nat>, i: int)
    requires
        well_formed(tree),
        is_ranking(tree, rank),
        is_cycle(tree, walk),
        0 <= i < walk.len(),
    ensures
        walk[i] < tree.len(),
        rank[walk[0] as int] + i <= rank[walk[i] as int],
    decreases i,
{
    if i == 0 {
    } else {
        lemma_rank_climbs(tree, rank, walk, i - 1);
    }
}

/// A tree with a cycle cannot be ranked.
pub proof fn lemma_cycle_excludes_ranking(tree: Seq<TechnologyView>, walk: Seq<nat>)
    requires
        well_formed(tree),
        is_cycle(tree, walk),
    ensures
        !acyclic(tree),
{
    if acyclic(tree) {
        let rank = choose|rank: Seq<nat>| is_ranking(tree, rank);
        let last = walk.len() - 1;
        lemma_rank_climbs(tree, rank, walk, last);
        lemma_rank_climbs(tree, rank, walk, 0);
    }
}

/// What a search knows at one moment: the marks of the technologies, the
/// path from the technology it started at to the one it looks at, and for
/// each technology of the path how many of its successors it has tried.
struct SearchState {
    visited: Seq<bool>,
    recursive: Seq<bool>,
    path: Seq<usize>,
    cursor: Seq<usize>,
    notes: SearchNotes,
}

/// What a search remembers beside its marks.
struct SearchNotes {
    /// For each technology that the search has left, how many it had left before.
    left_after: Seq<nat>,
    /// How many technologies the search has left.
    left: nat,
    /// The technologies that the search has entered.
    seen: Set<int>,
    /// For each technology of the path, where it stands there.
    place: Seq<int>,
}


/// The `k`-th successor of `v`.
spec fn successor(tree: Seq<TechnologyView>, v: int, k: int) -> int {
    tree[v].successors[k] as int
}

impl SearchState {
    /// Tells whether the search has entered and left `v`.
    spec fn done(self, v: int) -> bool {
        self.visited[v] && !self.recursive[v]
    }

    /// The successors of the last technology of the path that are still to be tried.
    spec fn untried(self, tree: Seq<TechnologyView>) -> int {
        if self.path.len() > 0 {
            tree[self.path.last() as int].successors.len() - self.cursor.last()
        } else {
            0
        }
    }

    /// Tells whether the technology at place `j` of the path is the
    /// successor that the search tried last at place `i`.
    spec fn descends(self, tree: Seq<TechnologyView>, i: int, j: int) -> bool {
        self.cursor[i] >= 1 && successor(tree, self.path[i] as int, self.cursor[i] - 1)
            == self.path[j]
    }

    /// The rules that the marks keep throughout a search.
    spec fn marked(self, tree: Seq<TechnologyView>) -> bool {
        let n = tree.len();
        &&& self.visited.len() == n
        &&& self.recursive.len() == n
        &&& self.notes.left_after.len() == n
        &&& self.notes.place.len() == n
        &&& self.notes.seen.finite()
        &&& self.notes.seen.len() <= n
        &&& forall|v: int| #[trigger] self.notes.seen.contains(v) <==> (0 <= v < n && self.visited[v])
        &&& forall|v: int| 0 <= v < n && #[trigger] self.recursive[v] ==> self.visited[v]
        &&& forall|v: int| 0 <= v < n && #[trigger] self.done(v) ==> self.notes.left_after[v] < self.notes.left
        &&& forall|v: int, k: int|
            0 <= v < n && self.done(v) && 0 <= k < tree[v].successors.len() ==> {
                let next = #[trigger] successor(tree, v, k);
                self.done(next) && self.notes.left_after[next] < self.notes.left_after[v]
            }
    }

    /// The rules that the path keeps throughout a search.
    spec fn threaded(self, tree: Seq<TechnologyView>) -> bool {
        let n = tree.len();
        let length = self.path.len();
        &&& self.cursor.len() == length
        &&& self.notes.seen.len() == self.notes.left + length
        &&& forall|i: int|
            0 <= i < length ==> {
                let v = #[trigger] self.path[i];
                &&& v < n
                &&& self.recursive[v as int]
                &&& self.cursor[i] <= tree[v as int].successors.len()
                &&& self.notes.place[v as int] == i
            }
        &&& forall|v: int|
            0 <= v < n && #[trigger] self.recursive[v] ==> 0 <= self.notes.place[v] < length
                && self.path[self.notes.place[v]] == v
        &&& forall|i: int, j: int|
            0 <= i && j == i + 1 && j < length ==> #[trigger] self.descends(tree, i, j)
        &&& forall|i: int, k: int|
            0 <= i < length && 0 <= k < self.cursor[i] && (i == length - 1 || k < self.cursor[i] - 1)
                ==> self.done(#[trigger] successor(tree, self.path[i] as int, k))
    }

    /// The rules of a search that is under way.
    spec fn consistent(self, tree: Seq<TechnologyView>) -> bool {
        self.marked(tree) && self.threaded(tree)
    }

    /// The rules of a search that stands between two starts.
    spec fn settled(self, tree: Seq<TechnologyView>) -> bool {
        self.consistent(tree) && self.path.len() == 0
    }
}

/// The state that the marks, the path and the notes make up.
spec fn state_of(
    visited: Seq<bool>,
    recursive: Seq<bool>,
    path: Seq<usize>,
    cursor: Seq<usize>,
    notes: SearchNotes,
) -> SearchState {
    SearchState { visited, recursive, path, cursor, notes }
}

/// The state after the search has entered `v`, which it had not seen before.
spec fn entered(state: SearchState, v: usize) -> SearchState {
    SearchState {
        visited: state.visited.update(v as int, true),
        recursive: state.recursive.update(v as int, true),
        path: state.path.push(v),
        cursor: state.cursor.push(0),
        notes: SearchNotes {
            left_after: state.notes.left_after,
            left: state.notes.left,
            seen: state.notes.seen.insert(v as int),
            place: state.notes.place.update(v as int, state.path.len() as int),
        },
    }
}

/// The state after the search has tried one more successor of the last
/// technology of its path.
spec fn advanced(state: SearchState) -> SearchState {
    SearchState {
        visited: state.visited,
        recursive: state.recursive,
        path: state.path,
        cursor: state.cursor.update(state.cursor.len() - 1, (state.cursor.last() + 1) as usize),
        notes: state.notes,
    }
}

/// The state after the search has left the last technology of its path.
spec fn left(state: SearchState) -> SearchState {
    SearchState {
        visited: state.visited,
        recursive: state.recursive.update(state.path.last() as int, false),
        path: state.path.drop_last(),
        cursor: state.cursor.drop_last(),
        notes: SearchNotes {
            left_after: state.notes.left_after.update(state.path.last() as int, state.notes.left),
            left: state.notes.left + 1,
            seen: state.notes.seen,
            place: state.notes.place,
        },
    }
}

proof fn lemma_seen_bounded(tree: Seq<TechnologyView>, seen: Set<int>)
    requires
        forall|v: int| #[trigger] seen.contains(v) ==> 0 <= v < tree.len(),
    ensures
        seen.finite(),
        seen.len() <= tree.len(),
{
    lemma_int_range(0, tree.len() as int);
    lemma_len_subset(seen, set_int_range(0, tree.len() as int));
}

proof fn lemma_path_step(tree: Seq<TechnologyView>, state: SearchState, i: int)
    requires
        state.threaded(tree),
        0 <= i,
        i + 1 < state.path.len(),
    ensures
        state.cursor[i] >= 1,
        successor(tree, state.path[i] as int, state.cursor[i] - 1) == state.path[i + 1],
{
    assert(state.descends(tree, i, i + 1));
}

proof fn lemma_advance(tree: Seq<TechnologyView>, state: SearchState)
    requires
        state.consistent(tree),
        state.path.len() > 0,
        state.cursor.last() < tree[state.path.last() as int].successors.len(),
        state.cursor.last() < usize::MAX,
        state.done(successor(tree, state.path.last() as int, state.cursor.last() as int)),
    ensures
        advanced(state).consistent(tree),
        advanced(state).untried(tree) < state.untried(tree),
{
    let after = advanced(state);
    let n = tree.len();
    assert forall|x: int| 0 <= x < n && #[trigger] after.done(x) implies after.notes.left_after[x]
        < after.notes.left by {
        assert(state.done(x));
    }
    assert forall|i: int, j: int|
        0 <= i && j == i + 1 && j < after.path.len() implies #[trigger] after.descends(tree, i, j) by {
        lemma_path_step(tree, state, i);
    }
}

/// The state in which the search turns to the next successor of the last
/// technology of its path, if the path has one.
spec fn turned(state: SearchState) -> SearchState {
    if state.path.len() > 0 {
        advanced(state)
    } else {
        state
    }
}

proof fn lemma_enter(tree: Seq<TechnologyView>, state: SearchState, v: usize)
    requires
        well_formed(tree),
        state.consistent(tree),
        v < tree.len(),
        !state.visited[v as int],
        state.path.len() > 0 ==> state.cursor.last() < tree[state.path.last() as int].successors.len()
            && state.cursor.last() < usize::MAX && successor(
            tree,
            state.path.last() as int,
            state.cursor.last() as int,
        ) == v,
    ensures
        entered(turned(state), v).consistent(tree),
        entered(turned(state), v).notes.seen.len() == state.notes.seen.len() + 1,
{
    let after = entered(turned(state), v);
    let n = tree.len();
    let length = state.path.len();
    lemma_seen_bounded(tree, after.notes.seen);
    assert forall|x: int| 0 <= x < n && #[trigger] after.done(x) implies after.notes.left_after[x]
        < after.notes.left by {
        assert(state.done(x));
    }
    assert forall|i: int, j: int|
        0 <= i && j == i + 1 && j < after.path.len() implies #[trigger] after.descends(tree, i, j) by {
        if j < length {
            lemma_path_step(tree, state, i);
        }
    }
}

/// The technologies of a path from place `from` on.
spec fn tail(path: Seq<usize>, from: int) -> Seq<nat> {
    Seq::new((path.len() - from) as nat, |i: int| path[from + i] as nat)
}

proof fn lemma_cycle_found(tree: Seq<TechnologyView>, state: SearchState, v: usize)
    requires
        well_formed(tree),
        state.consistent(tree),
        state.path.len() > 0,
        state.cursor.last() < tree[state.path.last() as int].successors.len(),
        successor(tree, state.path.last() as int, state.cursor.last() as int) == v,
        v < tree.len(),
        state.recursive[v as int],
    ensures
        0 <= state.notes.place[v as int] < state.path.len(),
        state.path[state.notes.place[v as int]] == v,
        forall|j: int| 0 <= j < state.path.len() && state.path[j] == v ==> j == state.notes.place[v as int],
        is_cycle(tree, tail(state.path, state.notes.place[v as int])),
        tail(state.path, state.notes.place[v as int]).no_duplicates(),
{
    let from = state.notes.place[v as int];
    let walk = tail(state.path, from);
    assert forall|i: int, j: int| 0 <= i && j == i + 1 && j < walk.len() implies leads(
        tree,
        #[trigger] walk[i],
        #[trigger] walk[j],
    ) by {
        lemma_path_step(tree, state, from + i);
    }
}

proof fn lemma_leave(tree: Seq<TechnologyView>, state: SearchState)
    requires
        state.consistent(tree),
        state.path.len() > 0,
        state.cursor.last() == tree[state.path.last() as int].successors.len(),
        well_formed(tree),
    ensures
        left(state).consistent(tree),
{
    let after = left(state);
    let n = tree.len();
    let top = state.path.len() - 1;
    let v = state.path[top];
    assert forall|x: int| 0 <= x < n && #[trigger] after.done(x) implies after.notes.left_after[x]
        < after.notes.left by {
        if x != v {
            assert(state.done(x));
        }
    }
    assert forall|i: int, j: int|
        0 <= i && j == i + 1 && j < after.path.len() implies #[trigger] after.descends(tree, i, j) by {
        lemma_path_step(tree, state, i);
    }
    assert forall|i: int, k: int|
        0 <= i < after.path.len() && 0 <= k < after.cursor[i] && (i == after.path.len() - 1 || k
            < after.cursor[i] - 1) implies after.done(
        #[trigger] successor(tree, after.path[i] as int, k),
    ) by {
        if i == top - 1 && k == state.cursor[i] - 1 {
            lemma_path_step(tree, state, i);
        }
    }
}


fn get_circle(tree: &TechnologyTree, id: TechnologyId, path: &Vec<usize>) -> (circle: Vec<String>)
    requires
        forall|i: int| 0 <= i < path.len() ==> #[trigger] path[i] < tree@.len(),
        exists|j: int| 0 <= j < path.len() && path[j] == id@,
    ensures
        exists|j: int|
            0 <= j < path.len() && path[j] == id@ && circle.deep_view() == walk_names(
                tree@,
                #[trigger] tail(path@, j),
            ),
{
    let technologies = tree.technologies();
    let ghost witness = choose|j: int| 0 <= j < path.len() && path[j] == id@;
    let mut from: usize = 0;
    while path[from] != id.id()
        invariant
            0 <= from <= witness < path.len(),
            path[witness] == id@,
        decreases path.len() - from,
    {
        from = from + 1;
    }
    let ghost walk = tail(path@, from as int);
    let mut circle: Vec<String> = Vec::new();
    let mut i: usize = from;
    while i < path.len()
        invariant
            from <= i <= path.len(),
            walk == tail(path@, from as int),
            technology_views(technologies@) == tree@,
            forall|i: int| 0 <= i < path.len() ==> #[trigger] path[i] < tree@.len(),
            circle.len() == i - from,
            forall|k: int| 0 <= k < circle.len() ==> (#[trigger] circle[k])@ == walk_names(tree@, walk)[k],
        decreases path.len() - i,
    {
        let technology = &technologies[path[i]];
        circle.push(technology.name().get_full().to_owned());
        i = i + 1;
    }
    circle
}

fn validate_technology(
    tree: &TechnologyTree,
    id: TechnologyId,
    visited: &mut Vec<bool>,
    recursive: &mut Vec<bool>,
    Ghost(notes): Ghost<SearchNotes>,
) -> (result: (Option<Vec<String>>, Ghost<SearchNotes>))
    requires
        well_formed(tree@),
        id@ < tree@.len(),
        state_of(old(visited)@, old(recursive)@, Seq::empty(), Seq::empty(), notes).settled(tree@),
    ensures
        match result.0 {
            Some(circle) => reports_cycle(tree@, circle.deep_view()),
            None => {
                &&& state_of(
                    final(visited)@,
                    final(recursive)@,
                    Seq::empty(),
                    Seq::empty(),
                    result.1@,
                ).settled(tree@)
                &&& final(visited)@[id@ as int]
                &&& forall|v: int|
                    0 <= v < tree@.len() && old(visited)@[v] ==> #[trigger] final(visited)@[v]
            },
        },
{
    let technologies = tree.technologies();
    let start = id.id();
    let ghost before = visited@;
    let ghost mut notes = notes;
    if visited[start] {
        return (None, Ghost(notes));
    }
    let mut path: Vec<usize> = Vec::new();
    let mut cursor: Vec<usize> = Vec::new();
    proof {
        let state = state_of(visited@, recursive@, path@, cursor@, notes);
        lemma_enter(tree@, state, start);
        notes = entered(state, start).notes;
    }
    visited[start] = true;
    recursive[start] = true;
    path.push(start);
    cursor.push(0);
    while path.len() > 0
        invariant
            well_formed(tree@),
            technology_views(technologies@) == tree@,
            state_of(visited@, recursive@, path@, cursor@, notes).consistent(tree@),
            start < tree@.len(),
            visited@[start as int],
            before.len() == tree@.len(),
            forall|v: int| 0 <= v < tree@.len() && before[v] ==> #[trigger] visited@[v],
        decreases
                tree@.len() - notes.seen.len(),
                path.len(),
                state_of(visited@, recursive@, path@, cursor@, notes).untried(tree@),
    {
        let ghost state = state_of(visited@, recursive@, path@, cursor@, notes);
        let top = path.len() - 1;
        let current = path[top];
        let successors = technologies[current].successors();
        let next = cursor[top];
        if next < successors.len() {
            let target = successors[next].id();
            assert(target == successor(tree@, current as int, next as int));
            if recursive[target] {
                proof {
                    lemma_cycle_found(tree@, state, target);
                }
                let circle = get_circle(tree, TechnologyId::new(target), &path);
                return (Some(circle), Ghost(notes));
            }
            cursor[top] = next + 1;
            if visited[target] {
                proof {
                    lemma_advance(tree@, state);
                }
            } else {
                proof {
                    lemma_enter(tree@, state, target);
                    notes = entered(turned(state), target).notes;
                }
                visited[target] = true;
                recursive[target] = true;
                path.push(target);
                cursor.push(0);
            }
        } else {
            proof {
                lemma_leave(tree@, state);
                notes = left(state).notes;
            }
            recursive[current] = false;
            path.pop();
            cursor.pop();
        }
    }
    assert(path@ == Seq::<usize>::empty());
    assert(cursor@ == Seq::<usize>::empty());
    (None, Ghost(notes))
}

/// Looks for a cycle from every technology in turn; where there is one, the
/// names of its technologies are returned in the order of the cycle.
pub fn validate_tree(tree: &TechnologyTree) -> (result: Option<Vec<String>>)
    requires
        well_formed(tree@),
    ensures
        match result {
            Some(circle) => reports_cycle(tree@, circle.deep_view()) && !acyclic(tree@),
            None => acyclic(tree@),
        },
{
    let technologies = tree.technologies();
    let len = technologies.len();
    let mut visited: Vec<bool> = Vec::new();
    let mut recursive: Vec<bool> = Vec::new();
    let mut i: usize = 0;
    while i < len
        invariant
            i <= len,
            visited.len() == i,
            recursive.len() == i,
            forall|v: int| 0 <= v < i ==> !#[trigger] visited[v],
            forall|v: int| 0 <= v < i ==> !#[trigger] recursive[v],
        decreases len - i,
    {
        visited.push(false);
        recursive.push(false);
        i = i + 1;
    }
    let ghost mut notes = SearchNotes {
        left_after: Seq::new(len as nat, |v: int| 0nat),
        left: 0,
        seen: Set::empty(),
        place: Seq::new(len as nat, |v: int| 0int),
    };
    let mut id: usize = 0;
    while id < len
        invariant
            id <= len,
            len == tree@.len(),
            well_formed(tree@),
            state_of(visited@, recursive@, Seq::empty(), Seq::empty(), notes).settled(tree@),
            forall|v: int| 0 <= v < id ==> #[trigger] visited@[v],
        decreases len - id,
    {
        let (found, Ghost(after)) = validate_technology(
            tree,
            TechnologyId::new(id),
            &mut visited,
            &mut recursive,
            Ghost(notes),
        );
        if let Some(circle) = found {
            proof {
                let walk = choose|walk: Seq<nat>|
                    is_cycle(tree@, walk) && walk.no_duplicates() && circle.deep_view()
                        == walk_names(tree@, walk);
                lemma_cycle_excludes_ranking(tree@, walk);
            }
            return Some(circle);
        }
        proof {
            notes = after;
        }
        id = id + 1;
    }
    proof {
        let state = state_of(visited@, recursive@, Seq::empty(), Seq::empty(), notes);
        let n = tree@.len();
        let rank = Seq::new(n, |v: int| (n - 1 - notes.left_after[v]) as nat);
        assert(forall|v: int| 0 <= v < n ==> state.done(v));
        assert forall|i: int, k: int|
            0 <= i < n && 0 <= k < tree@[i].predecessors.len() implies rank[(
        #[trigger] tree@[i].predecessors[k]) as int] < rank[i] by {
            let p = tree@[i].predecessors[k];
            assert(tree@[i].predecessors.contains(p));
            let at = choose|at: int|
                0 <= at < tree@[p as int].successors.len() && tree@[p as int].successors[at] == i as nat;
            assert(successor(tree@, p as int, at) == i);
        }
        assert forall|v: int| 0 <= v < n implies #[trigger] rank[v] < n by {
            assert(state.done(v));
        }
        assert(is_ranking(tree@, rank));
    }
    None
}

/// What validation makes of a tree: an acyclic tree comes back as it is,
/// and of any other tree one cycle is reported.
pub open spec fn validation(tree: TechnologyTree, result: Result<TechnologyTree, AddError>) -> bool {
    match result {
        Ok(same) => same == tree && acyclic(tree@),
        Err(error) => !acyclic(tree@) && (exists|names: Seq<Seq<char>>|
            error@ == AddErrorView::Cycle(names) && #[trigger] reports_cycle(tree@, names)),
    }
}

/// Validation is idempotent on acyclic trees: the first validation hands the
/// tree back, and so does a validation of what the first handed back.
pub proof fn lemma_validation_idempotent(
    tree: TechnologyTree,
    first: Result<TechnologyTree, AddError>,
    second: Result<TechnologyTree, AddError>,
)
    requires
        acyclic(tree@),
        validation(tree, first),
        first matches Ok(same) ==> validation(same, second),
    ensures
        first == Ok::<TechnologyTree, AddError>(tree),
        second == first,
{
}

/// Hands the tree back if it has no cycle, and reports one cycle otherwise.
pub fn validate_no_cycles(tree: TechnologyTree) -> (result: Result<TechnologyTree, AddError>)
    requires
        well_formed(tree@),
    ensures
        validation(tree, result),
{
    if let Some(circle) = validate_tree(&tree) {
        return Err(AddError::Cycle(circle));
    }
    Ok(tree)
}

} // verus!
