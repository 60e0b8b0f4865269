use crate::model::error::{AddError, AddErrorView};
use crate::model::technology::name::{name_of, NameView, TechnologyName};
use crate::model::technology::tree::{technology_views, well_formed, TechnologyTree};
use crate::model::technology::{
    id_lists, id_views, Input, InputView, Technology, TechnologyId, TechnologyView,
};
use vstd::prelude::*;

verus! {

/// The least index below `n` at which `p` holds.
pub open spec fn first_index(n: nat, p: spec_fn(int) -> bool) -> Option<int>
    decreases n,
{
    if n == 0 {
        None
    } else {
        match first_index((n - 1) as nat, p) {
            Some(i) => Some(i),
            None => if p(n - 1) {
                Some(n - 1)
            } else {
                None
            },
        }
    }
}

/// `first_index` finds an index at which the property holds and before which
/// it never does; it finds none only where the property holds nowhere.
pub proof fn lemma_first_index(n: nat, p: spec_fn(int) -> bool)
    ensures
        match first_index(n, p) {
            Some(i) => 0 <= i < n && p(i) && forall|j: int| 0 <= j < i ==> !#[trigger] p(j),
            None => forall|j: int| 0 <= j < n ==> !#[trigger] p(j),
        },
    decreases n,
{
    if n > 0 {
        lemma_first_index((n - 1) as nat, p);
    }
}

/// The least index at which the property holds is what `first_index` finds.
pub proof fn lemma_first_index_is(n: nat, p: spec_fn(int) -> bool, i: int)
    requires
        0 <= i < n,
        p(i),
        forall|j: int| 0 <= j < i ==> !#[trigger] p(j),
    ensures
        first_index(n, p) == Some(i),
{
    lemma_first_index(n, p);
}

/// The views of a list of inputs.
pub open spec fn input_views(list: Seq<Input>) -> Seq<InputView> {
    Seq::new(list.len(), |i: int| list[i]@)
}

/// The raw names of the inputs, in order.
pub open spec fn input_names(inputs: Seq<InputView>) -> Seq<Seq<char>> {
    Seq::new(inputs.len(), |i: int| inputs[i].name)
}

/// Tells whether the name at `j` already stands at an earlier place.
pub open spec fn repeats(names: Seq<Seq<char>>, j: int) -> bool {
    exists|i: int| 0 <= i < j && names[i] == names[j]
}

/// The property of a place that its name already stands at an earlier one.
pub open spec fn repeated_in(names: Seq<Seq<char>>) -> spec_fn(int) -> bool {
    |j: int| repeats(names, j)
}

/// The property of a place in `predecessors` that no input carries its name.
pub open spec fn unknown_in(names: Seq<Seq<char>>, predecessors: Seq<Seq<char>>) -> spec_fn(
    int,
) -> bool {
    |k: int| !names.contains(predecessors[k])
}

/// Tells whether no name stands at two places.
pub open spec fn distinct(names: Seq<Seq<char>>) -> bool {
    forall|i: int, j: int| 0 <= i < j < names.len() ==> names[i] != names[j]
}

/// The identifiers that a list of predecessor names stands for.
pub open spec fn resolved(names: Seq<Seq<char>>, predecessors: Seq<Seq<char>>) -> Seq<nat> {
    Seq::new(predecessors.len(), |k: int| names.index_of(predecessors[k]) as nat)
}

/// What is wrong with one input, if anything: its own name is looked at
/// first, then the names of its predecessors from left to right.
pub open spec fn input_failure(names: Seq<Seq<char>>, input: InputView) -> Option<AddErrorView> {
    match name_of(input.name) {
        Err(error) => Some(error),
        Ok(_) => match first_index(
            input.predecessors.len(),
            unknown_in(names, input.predecessors),
        ) {
            Some(k) => Some(AddErrorView::UnknownPredecessor(input.predecessors[k])),
            None => None,
        },
    }
}

/// The property of a place in `inputs` that its input has a fault.
pub open spec fn faulty_in(inputs: Seq<InputView>) -> spec_fn(int) -> bool {
    |i: int| input_failure(input_names(inputs), inputs[i]) is Some
}

/// `b`, once for each time that `a` stands in `list`.
pub open spec fn mentions(list: Seq<nat>, a: nat, b: nat) -> Seq<nat>
    decreases list.len(),
{
    if list.len() == 0 {
        Seq::empty()
    } else if list.last() == a {
        mentions(list.drop_last(), a, b).push(b)
    } else {
        mentions(list.drop_last(), a, b)
    }
}

/// The successors of `a`: every technology in ascending order, once for each
/// time that it names `a` among its predecessors.
pub open spec fn successors_of(predecessors: Seq<Seq<nat>>, a: nat) -> Seq<nat>
    decreases predecessors.len(),
{
    if predecessors.len() == 0 {
        Seq::empty()
    } else {
        successors_of(predecessors.drop_last(), a) + mentions(
            predecessors.last(),
            a,
            (predecessors.len() - 1) as nat,
        )
    }
}

/// The predecessor lists that the inputs declare, as identifiers.
pub open spec fn declared_predecessors(inputs: Seq<InputView>) -> Seq<Seq<nat>> {
    Seq::new(inputs.len(), |i: int| resolved(input_names(inputs), inputs[i].predecessors))
}

/// The tree that sound inputs describe.
pub open spec fn graph_of(inputs: Seq<InputView>) -> Seq<TechnologyView> {
    Seq::new(
        inputs.len(),
        |i: int|
            TechnologyView {
                id: i as nat,
                name: name_of(inputs[i].name)->Ok_0,
                predecessors: declared_predecessors(inputs)[i],
                successors: successors_of(declared_predecessors(inputs), i as nat),
            },
    )
}

/// What a list of inputs is built into. A name that stands twice is reported
/// first, at its second place. Otherwise the first input with a fault decides,
/// and without any fault the inputs give their tree.
pub open spec fn built(inputs: Seq<InputView>) -> Result<Seq<TechnologyView>, AddErrorView> {
    let names = input_names(inputs);
    match first_index(names.len(), repeated_in(names)) {
        Some(j) => Err(AddErrorView::NameExists(names[j])),
        None => match first_index(inputs.len(), faulty_in(inputs)) {
            Some(i) => Err(input_failure(names, inputs[i])->Some_0),
            None => Ok(graph_of(inputs)),
        },
    }
}

/// `b` is all that `mentions` ever holds, and it holds it where `a` is in the list.
pub proof fn lemma_mentions(list: Seq<nat>, a: nat, b: nat, x: nat)
    ensures
        mentions(list, a, b).contains(x) <==> (x == b && list.contains(a)),
    decreases list.len(),
{
    if list.len() > 0 {
        let rest = list.drop_last();
        lemma_mentions(rest, a, b, x);
        let shorter = mentions(rest, a, b);
        if list.last() == a {
            assert(shorter.push(b).last() == b);
        } else if list.contains(a) {
            let i = choose|i: int| 0 <= i < list.len() && list[i] == a;
            assert(rest[i] == a);
        }
    }
}

/// A technology is among the successors of `a` exactly if it names `a`
/// among its predecessors.
pub proof fn lemma_successors_of(predecessors: Seq<Seq<nat>>, a: nat, b: nat)
    ensures
        successors_of(predecessors, a).contains(b) <==> (b < predecessors.len()
            && predecessors[b as int].contains(a)),
    decreases predecessors.len(),
{
    if predecessors.len() > 0 {
        let rest = predecessors.drop_last();
        let last = (predecessors.len() - 1) as nat;
        lemma_successors_of(rest, a, b);
        lemma_mentions(predecessors.last(), a, last, b);
        let left = successors_of(rest, a);
        let right = mentions(predecessors.last(), a, last);
        if left.contains(b) {
            let i = choose|i: int| 0 <= i < left.len() && left[i] == b;
            assert((left + right)[i] == b);
        }
        if right.contains(b) {
            let i = choose|i: int| 0 <= i < right.len() && right[i] == b;
            assert((left + right)[left.len() + i] == b);
        }
    }
}

/// In every tree that is built, identifiers are positions, neighbours exist,
/// and `b` is a successor of `a` exactly if `a` is a predecessor of `b`.
pub proof fn lemma_built_well_formed(inputs: Seq<InputView>)
    requires
        built(inputs) is Ok,
    ensures
        well_formed(built(inputs)->Ok_0),
{
    let names = input_names(inputs);
    let tree = graph_of(inputs);
    let lists = declared_predecessors(inputs);
    lemma_first_index(names.len(), repeated_in(names));
    lemma_first_index(inputs.len(), faulty_in(inputs));
    assert forall|i: int, k: int|
        0 <= i < tree.len() && 0 <= k < tree[i].predecessors.len() implies #[trigger] tree[i].predecessors[k]
        < tree.len() by {
        let unknown = unknown_in(names, inputs[i].predecessors);
        lemma_first_index(inputs[i].predecessors.len(), unknown);
        assert(!faulty_in(inputs)(i));
        assert(!unknown(k));
    }
    assert forall|i: int, k: int|
        0 <= i < tree.len() && 0 <= k < tree[i].successors.len() implies #[trigger] tree[i].successors[k]
        < tree.len() by {
        let b = tree[i].successors[k];
        lemma_successors_of(lists, i as nat, b);
    }
    assert forall|a: nat, b: nat|
        #![trigger tree[b as int].predecessors.contains(a)]
        #![trigger tree[a as int].successors.contains(b)]
        a < tree.len() && b < tree.len() implies (tree[b as int].predecessors.contains(a)
        <==> tree[a as int].successors.contains(b)) by {
        lemma_successors_of(lists, a, b);
    }
}

/// The names of the inputs, each at the place of its identifier; no name
/// stands at two places.
struct NameToId {
    names: Vec<String>,
}

impl View for NameToId {
    type V = Seq<Seq<char>>;

    closed spec fn view(&self) -> Seq<Seq<char>> {
        self.names.deep_view()
    }
}

impl NameToId {
    #[verifier::type_invariant]
    spec fn names_differ(&self) -> bool {
        distinct(self.names.deep_view())
    }

    /// An index without names.
    fn new() -> (index: Self)
        ensures
            index@ == Seq::<Seq<char>>::empty(),
    {
        let index = NameToId { names: Vec::new() };
        index
    }

    /// The identifier under which `name` stands.
    fn get(&self, name: &String) -> (id: Option<usize>)
        ensures
            distinct(self@),
            match id {
                Some(i) => i < self@.len() && self@[i as int] == name@ && self@.index_of(name@) == i,
                None => !self@.contains(name@),
            },
    {
        proof {
            use_type_invariant(self);
        }
        let mut i: usize = 0;
        while i < self.names.len()
            invariant
                i <= self.names.len(),
                distinct(self.names.deep_view()),
                forall|k: int| 0 <= k < i ==> self.names.deep_view()[k] != name@,
            decreases self.names.len() - i,
        {
            if self.names[i] == *name {
                assert(self.names.deep_view()[i as int] == name@);
                return Some(i);
            }
            i = i + 1;
        }
        None
    }

    /// Gives `name` the next identifier, unless the index holds it already;
    /// tells whether it was new.
    fn insert(&mut self, name: String) -> (added: bool)
        ensures
            added == !old(self)@.contains(name@),
            final(self)@ == if added {
                old(self)@.push(name@)
            } else {
                old(self)@
            },
    {
        if self.get(&name).is_some() {
            return false;
        }
        proof {
            use_type_invariant(&*self);
        }
        let ghost before = self.names.deep_view();
        let mut names: Vec<String> = Vec::new();
        std::mem::swap(&mut names, &mut self.names);
        names.push(name);
        assert(names.deep_view() =~= before.push(name@));
        *self = NameToId { names };
        true
    }
}

fn create_name_to_id_map(technologies: &Vec<Input>) -> (result: Result<NameToId, AddError>)
    ensures
        match result {
            Ok(name_to_id) => {
                &&& name_to_id@ == input_names(input_views(technologies@))
                &&& distinct(name_to_id@)
                &&& first_index(name_to_id@.len(), repeated_in(name_to_id@)) is None
            },
            Err(error) => {
                let names = input_names(input_views(technologies@));
                let first = first_index(names.len(), repeated_in(names));
                first is Some && error@ == AddErrorView::NameExists(names[first->Some_0])
            },
        },
{
    let ghost names = input_names(input_views(technologies@));
    let ghost twice = repeated_in(names);
    let mut name_to_id = NameToId::new();
    let mut j: usize = 0;
    while j < technologies.len()
        invariant
            j <= technologies.len(),
            names == input_names(input_views(technologies@)),
            twice == repeated_in(names),
            name_to_id@ == names.take(j as int),
            forall|k: int| 0 <= k < j ==> !#[trigger] twice(k),
        decreases technologies.len() - j,
    {
        let name = technologies[j].name().to_owned();
        let ghost before = name_to_id@;
        if !name_to_id.insert(name) {
            proof {
                lemma_first_index_is(names.len(), twice, j as int);
            }
            return Err(AddError::NameExists(technologies[j].name().to_owned()));
        }
        proof {
            if twice(j as int) {
                let i = choose|i: int| 0 <= i < j && names[i] == names[j as int];
                assert(before[i] == names[j as int]);
            }
        }
        j = j + 1;
    }
    proof {
        lemma_first_index(names.len(), twice);
        use_type_invariant(&name_to_id);
    }
    Ok(name_to_id)
}

fn into_id(name: &String, name_to_id: &NameToId) -> (result: Result<TechnologyId, AddError>)
    ensures
        match result {
            Ok(id) => name_to_id@.contains(name@) && id@ == name_to_id@.index_of(name@),
            Err(error) => !name_to_id@.contains(name@) && error@ == AddErrorView::UnknownPredecessor(
                name@,
            ),
        },
{
    match name_to_id.get(name) {
        Some(id) => Ok(TechnologyId::new(id)),
        None => Err(AddError::UnknownPredecessor(name.clone())),
    }
}

fn process_predecessors(technology: &Input, name_to_id: &NameToId) -> (result: Result<
    Vec<TechnologyId>,
    AddError,
>)
    ensures
        match result {
            Ok(ids) => {
                &&& id_views(ids@) == resolved(name_to_id@, technology@.predecessors)
                &&& first_index(
                    technology@.predecessors.len(),
                    unknown_in(name_to_id@, technology@.predecessors),
                ) is None
            },
            Err(error) => {
                let first = first_index(
                    technology@.predecessors.len(),
                    unknown_in(name_to_id@, technology@.predecessors),
                );
                first is Some && error@ == AddErrorView::UnknownPredecessor(
                    technology@.predecessors[first->Some_0],
                )
            },
        },
{
    let names = technology.predecessors();
    let ghost wanted = technology@.predecessors;
    let ghost unknown = unknown_in(name_to_id@, wanted);
    let mut ids: Vec<TechnologyId> = Vec::new();
    let mut k: usize = 0;
    while k < names.len()
        invariant
            k <= names.len(),
            names.deep_view() == wanted,
            wanted == technology@.predecessors,
            unknown == unknown_in(name_to_id@, wanted),
            ids.len() == k,
            forall|i: int| 0 <= i < k ==> !#[trigger] unknown(i),
            forall|i: int| 0 <= i < k ==> (#[trigger] ids[i])@ == name_to_id@.index_of(wanted[i]),
        decreases names.len() - k,
    {
        match into_id(&names[k], name_to_id) {
            Ok(id) => {
                ids.push(id);
            },
            Err(error) => {
                proof {
                    lemma_first_index_is(wanted.len(), unknown, k as int);
                }
                return Err(error);
            },
        }
        k = k + 1;
    }
    proof {
        lemma_first_index(wanted.len(), unknown);
    }
    Ok(ids)
}

fn process_successors(predecessors_list: &Vec<Vec<TechnologyId>>) -> (successors: Vec<
    Vec<TechnologyId>,
>)
    requires
        forall|b: int, k: int|
            0 <= b < predecessors_list.len() && 0 <= k < predecessors_list[b].len()
                ==> (#[trigger] predecessors_list[b][k])@ < predecessors_list.len(),
    ensures
        successors.len() == predecessors_list.len(),
        forall|a: int|
            0 <= a < successors.len() ==> id_views(#[trigger] successors[a]@) == successors_of(
                id_lists(predecessors_list@),
                a as nat,
            ),
{
    let n = predecessors_list.len();
    let ghost lists = id_lists(predecessors_list@);
    let mut successors: Vec<Vec<TechnologyId>> = Vec::new();
    let mut a: usize = 0;
    while a < n
        invariant
            a <= n,
            successors.len() == a,
            forall|i: int| 0 <= i < a ==> (#[trigger] successors[i])@.len() == 0,
        decreases n - a,
    {
        successors.push(Vec::new());
        a = a + 1;
    }
    let mut b: usize = 0;
    while b < n
        invariant
            b <= n,
            n == predecessors_list.len(),
            lists == id_lists(predecessors_list@),
            successors.len() == n,
            forall|b: int, k: int|
                0 <= b < predecessors_list.len() && 0 <= k < predecessors_list[b].len()
                    ==> (#[trigger] predecessors_list[b][k])@ < predecessors_list.len(),
            forall|a: int|
                0 <= a < n ==> id_views(#[trigger] successors[a]@) =~= successors_of(
                    lists.take(b as int),
                    a as nat,
                ),
        decreases n - b,
    {
        let predecessors = &predecessors_list[b];
        let ghost list = lists[b as int];
        let ghost earlier = lists.take(b as int);
        let mut k: usize = 0;
        while k < predecessors.len()
            invariant
                k <= predecessors.len(),
                b < n,
                n == predecessors_list.len(),
                successors.len() == n,
                list == id_views(predecessors@),
                forall|i: int| 0 <= i < predecessors.len() ==> (#[trigger] predecessors[i])@ < n,
                forall|a: int|
                    0 <= a < n ==> id_views(#[trigger] successors[a]@) =~= successors_of(
                        earlier,
                        a as nat,
                    ) + mentions(list.take(k as int), a as nat, b as nat),
            decreases predecessors.len() - k,
        {
            let predecessor = predecessors[k].id();
            let ghost before = successors@;
            successors[predecessor].push(TechnologyId::new(b));
            proof {
                let next = list.take(k + 1);
                assert(next.drop_last() == list.take(k as int));
                assert forall|a: int| 0 <= a < n implies id_views(#[trigger] successors[a]@)
                    =~= successors_of(earlier, a as nat) + mentions(next, a as nat, b as nat) by {
                    if a == predecessor {
                        assert(id_views(successors[a]@) =~= id_views(before[a]@).push(b as nat));
                    }
                }
            }
            k = k + 1;
        }
        proof {
            assert(list.take(k as int) == list);
            let next = lists.take(b + 1);
            assert(next.drop_last() == earlier);
        }
        b = b + 1;
    }
    assert(lists.take(b as int) == lists);
    successors
}

/// Builds the tree that a list of inputs describes.
pub fn create_tree(input_list: Vec<Input>) -> (result: Result<TechnologyTree, AddError>)
    ensures
        match result {
            Ok(tree) => built(input_views(input_list@)) == Ok::<Seq<TechnologyView>, AddErrorView>(
                tree@,
            ) && well_formed(tree@),
            Err(error) => built(input_views(input_list@)) == Err::<
                Seq<TechnologyView>,
                AddErrorView,
            >(error@),
        },
{
    let ghost inputs = input_views(input_list@);
    let ghost names = input_names(inputs);
    let ghost faulty = faulty_in(inputs);
    let name_to_id = match create_name_to_id_map(&input_list) {
        Ok(name_to_id) => name_to_id,
        Err(error) => {
            return Err(error);
        },
    };
    let n = input_list.len();
    let mut name_list: Vec<TechnologyName> = Vec::new();
    let mut predecessors_list: Vec<Vec<TechnologyId>> = Vec::new();
    let mut i: usize = 0;
    while i < n
        invariant
            i <= n,
            n == input_list.len(),
            inputs == input_views(input_list@),
            names == input_names(inputs),
            name_to_id@ == names,
            faulty == faulty_in(inputs),
            first_index(names.len(), repeated_in(names)) is None,
            name_list.len() == i,
            predecessors_list.len() == i,
            forall|j: int| 0 <= j < i ==> !#[trigger] faulty(j),
            forall|j: int|
                0 <= j < i ==> name_of(inputs[j].name) == Ok::<NameView, AddErrorView>(
                    (#[trigger] name_list[j])@,
                ),
            forall|j: int|
                0 <= j < i ==> id_views(#[trigger] predecessors_list[j]@) == resolved(
                    names,
                    inputs[j].predecessors,
                ),
        decreases n - i,
    {
        let input = &input_list[i];
        let name = match TechnologyName::new(input.name()) {
            Ok(name) => name,
            Err(error) => {
                proof {
                    lemma_first_index_is(inputs.len(), faulty, i as int);
                }
                return Err(error);
            },
        };
        let predecessors = match process_predecessors(input, &name_to_id) {
            Ok(predecessors) => predecessors,
            Err(error) => {
                proof {
                    lemma_first_index_is(inputs.len(), faulty, i as int);
                }
                return Err(error);
            },
        };
        name_list.push(name);
        predecessors_list.push(predecessors);
        i = i + 1;
    }
    proof {
        lemma_first_index(inputs.len(), faulty);
        lemma_built_well_formed(inputs);
        assert(id_lists(predecessors_list@) =~= declared_predecessors(inputs));
        assert forall|b: int, k: int|
            0 <= b < predecessors_list.len() && 0 <= k < predecessors_list[b].len() implies (
        #[trigger] predecessors_list[b][k])@ < predecessors_list.len() by {
            assert(id_views(predecessors_list[b]@)[k] == graph_of(inputs)[b].predecessors[k]);
        }
    }
    let mut successors_list = process_successors(&predecessors_list);
    let ghost all_names = name_list@;
    let ghost all_predecessors = predecessors_list@;
    let ghost all_successors = successors_list@;
    let mut technologies: Vec<Technology> = Vec::new();
    let mut id: usize = 0;
    while id < n
        invariant
            id <= n,
            n == inputs.len(),
            name_list.len() == n,
            predecessors_list.len() == n,
            successors_list.len() == n,
            technologies.len() == id,
            all_names.len() == n,
            all_predecessors.len() == n,
            all_successors.len() == n,
            forall|j: int| id <= j < n ==> #[trigger] name_list[j] == all_names[j],
            forall|j: int| id <= j < n ==> #[trigger] predecessors_list[j] == all_predecessors[j],
            forall|j: int| id <= j < n ==> #[trigger] successors_list[j] == all_successors[j],
            forall|j: int|
                0 <= j < n ==> name_of(inputs[j].name) == Ok::<NameView, AddErrorView>(
                    (#[trigger] all_names[j])@,
                ),
            forall|j: int|
                0 <= j < n ==> id_views(#[trigger] all_predecessors[j]@) == declared_predecessors(
                    inputs,
                )[j],
            forall|j: int|
                0 <= j < n ==> id_views(#[trigger] all_successors[j]@) == successors_of(
                    declared_predecessors(inputs),
                    j as nat,
                ),
            forall|j: int| 0 <= j < id ==> (#[trigger] technologies[j])@ == graph_of(inputs)[j],
        decreases n - id,
    {
        let mut name = TechnologyName::Simple(String::new());
        std::mem::swap(&mut name, &mut name_list[id]);
        let mut predecessors: Vec<TechnologyId> = Vec::new();
        std::mem::swap(&mut predecessors, &mut predecessors_list[id]);
        let mut successors: Vec<TechnologyId> = Vec::new();
        std::mem::swap(&mut successors, &mut successors_list[id]);
        technologies.push(Technology::new(TechnologyId::new(id), name, predecessors, successors));
        id = id + 1;
    }
    assert(technology_views(technologies@) =~= graph_of(inputs));
    Ok(TechnologyTree::new(technologies))
}

} // verus!
