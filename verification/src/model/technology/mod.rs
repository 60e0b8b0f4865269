pub mod name;
pub mod tree;

use crate::model::technology::name::{NameView, TechnologyName};
use crate::text::{decimal, push_decimal};
use vstd::prelude::*;

verus! {

/// The identifier of a technology: its position in the tree.
#[derive(Copy, Clone, Debug, PartialEq, Eq, Structural)]
pub struct TechnologyId(usize);

impl View for TechnologyId {
    type V = nat;

    closed spec fn view(&self) -> nat {
        self.0 as nat
    }
}

/// The numbers that a list of identifiers holds.
pub open spec fn id_views(ids: Seq<TechnologyId>) -> Seq<nat> {
    Seq::new(ids.len(), |i: int| ids[i]@)
}

/// The numbers that a list of lists of identifiers holds.
pub open spec fn id_lists(lists: Seq<Vec<TechnologyId>>) -> Seq<Seq<nat>> {
    Seq::new(lists.len(), |i: int| id_views(lists[i]@))
}

impl TechnologyId {
    pub fn new(id: usize) -> (result: Self)
        ensures
            result@ == id,
    {
        TechnologyId(id)
    }

    pub fn id(&self) -> (id: usize)
        ensures
            id == self@,
    {
        self.0
    }
}

/// One technology with the technologies next to it in the tree.
#[derive(Clone, Debug, PartialEq)]
pub struct Technology {
    id: TechnologyId,
    name: TechnologyName,
    predecessors: Vec<TechnologyId>,
    successors: Vec<TechnologyId>,
}

/// The mathematical content of a [`Technology`].
pub struct TechnologyView {
    pub id: nat,
    pub name: NameView,
    pub predecessors: Seq<nat>,
    pub successors: Seq<nat>,
}

impl View for Technology {
    type V = TechnologyView;

    closed spec fn view(&self) -> TechnologyView {
        TechnologyView {
            id: self.id@,
            name: self.name@,
            predecessors: id_views(self.predecessors@),
            successors: id_views(self.successors@),
        }
    }
}

fn into_ids(numbers: Vec<usize>) -> (ids: Vec<TechnologyId>)
    ensures
        id_views(ids@) == numbers@.map_values(|n: usize| n as nat),
{
    let mut ids: Vec<TechnologyId> = Vec::new();
    let mut i: usize = 0;
    while i < numbers.len()
        invariant
            i <= numbers.len(),
            ids.len() == i,
            forall|k: int| 0 <= k < i ==> (#[trigger] ids[k])@ == numbers[k],
        decreases numbers.len() - i,
    {
        ids.push(TechnologyId::new(numbers[i]));
        i = i + 1;
    }
    ids
}

impl Technology {
    pub fn new(
        id: TechnologyId,
        name: TechnologyName,
        predecessors: Vec<TechnologyId>,
        successors: Vec<TechnologyId>,
    ) -> (technology: Self)
        ensures
            technology@ == (TechnologyView {
                id: id@,
                name: name@,
                predecessors: id_views(predecessors@),
                successors: id_views(successors@),
            }),
    {
        Technology { id, name, predecessors, successors }
    }

    /// A technology that stands alone and is called "Tech", a blank and its number.
    pub fn simple(id: usize) -> (technology: Self)
        ensures
            technology@ == (TechnologyView {
                id: id as nat,
                name: NameView::Simple("Tech "@ + decimal(id as nat)),
                predecessors: Seq::empty(),
                successors: Seq::empty(),
            }),
    {
        let mut name = "Tech ".to_owned();
        push_decimal(&mut name, id);
        let technology = Technology {
            id: TechnologyId(id),
            name: TechnologyName::Simple(name),
            predecessors: Vec::new(),
            successors: Vec::new(),
        };
        assert(technology@.predecessors =~= Seq::empty());
        technology
    }

    /// A technology with the given name, taken as it is, and neighbours.
    pub fn simple2(id: usize, name: &str, predecessors: Vec<usize>, successors: Vec<usize>) -> (technology: Self)
        ensures
            technology@ == (TechnologyView {
                id: id as nat,
                name: NameView::Simple(name@),
                predecessors: predecessors@.map_values(|n: usize| n as nat),
                successors: successors@.map_values(|n: usize| n as nat),
            }),
    {
        Technology {
            id: TechnologyId(id),
            name: TechnologyName::Simple(name.to_owned()),
            predecessors: into_ids(predecessors),
            successors: into_ids(successors),
        }
    }

    pub fn id(&self) -> (id: &TechnologyId)
        ensures
            id@ == self@.id,
    {
        &self.id
    }

    pub fn name(&self) -> (name: &TechnologyName)
        ensures
            name@ == self@.name,
    {
        &self.name
    }

    pub fn predecessors(&self) -> (predecessors: &Vec<TechnologyId>)
        ensures
            id_views(predecessors@) == self@.predecessors,
    {
        &self.predecessors
    }

    /// The first place at which `id` stands among the predecessors.
    pub fn get_predecessor_index(&self, id: TechnologyId) -> (index: Option<usize>)
        ensures
            match index {
                Some(i) => {
                    &&& i < self@.predecessors.len()
                    &&& self@.predecessors[i as int] == id@
                    &&& forall|k: int| 0 <= k < i ==> self@.predecessors[k] != id@
                },
                None => !self@.predecessors.contains(id@),
            },
    {
        let mut index: usize = 0;
        while index < self.predecessors.len()
            invariant
                index <= self.predecessors.len(),
                forall|k: int| 0 <= k < index ==> id_views(self.predecessors@)[k] != id@,
            decreases self.predecessors.len() - index,
        {
            if self.predecessors[index].0 == id.0 {
                return Some(index);
            }
            index = index + 1;
        }
        None
    }

    pub fn successors(&self) -> (successors: &Vec<TechnologyId>)
        ensures
            id_views(successors@) == self@.successors,
    {
        &self.successors
    }
}

/// What a caller states of one technology: its name and the names of the
/// technologies that it rests on.
#[derive(Clone, Debug, PartialEq)]
pub struct Input {
    name: String,
    predecessors: Vec<String>,
}

/// The mathematical content of an [`Input`].
pub struct InputView {
    pub name: Seq<char>,
    pub predecessors: Seq<Seq<char>>,
}

impl View for Input {
    type V = InputView;

    closed spec fn view(&self) -> InputView {
        InputView { name: self.name@, predecessors: self.predecessors.deep_view() }
    }
}

impl Input {
    pub fn new(name: String, predecessors: Vec<String>) -> (input: Self)
        ensures
            input@ == (InputView { name: name@, predecessors: predecessors.deep_view() }),
    {
        Input { name, predecessors }
    }

    /// An input written with string slices.
    pub fn test(name: &str, predecessors: Vec<&str>) -> (input: Self)
        ensures
            input@ == (InputView {
                name: name@,
                predecessors: predecessors@.map_values(|p: &str| p@),
            }),
    {
        let mut names: Vec<String> = Vec::new();
        let mut i: usize = 0;
        while i < predecessors.len()
            invariant
                i <= predecessors.len(),
                names.len() == i,
                forall|k: int| 0 <= k < i ==> (#[trigger] names[k])@ == predecessors[k]@,
            decreases predecessors.len() - i,
        {
            names.push(predecessors[i].to_owned());
            i = i + 1;
        }
        assert(names.deep_view() =~= predecessors@.map_values(|p: &str| p@));
        Input { name: name.to_owned(), predecessors: names }
    }

    pub fn name(&self) -> (name: &str)
        ensures
            name@ == self@.name,
    {
        self.name.as_str()
    }

    pub fn predecessors(&self) -> (predecessors: &Vec<String>)
        ensures
            predecessors.deep_view() == self@.predecessors,
    {
        &self.predecessors
    }
}

} // verus!
