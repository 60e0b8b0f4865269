pub mod tree;

use crate::model::technology::tree::TechnologyTree;
use crate::model::technology::{Input, InputView, Technology, TechnologyView};
use vstd::prelude::*;

verus! {

/// One technology as it is written down: its name and the names of its
/// predecessors.
#[derive(Clone, Debug, PartialEq)]
pub struct TechnologyDefinition {
    name: String,
    predecessors: Vec<String>,
}

impl View for TechnologyDefinition {
    type V = InputView;

    closed spec fn view(&self) -> InputView {
        InputView { name: self.name@, predecessors: self.predecessors.deep_view() }
    }
}

/// The name under which a predecessor is written down: the display name of
/// the technology that the identifier names, or `UNKNOWN` if the tree has no
/// such technology.
pub open spec fn written_name(tree: Seq<TechnologyView>, id: nat) -> Seq<char> {
    if id < tree.len() {
        tree[id as int].name.full()
    } else {
        "UNKNOWN"@
    }
}

/// What is written down of a technology of a tree.
pub open spec fn written(tree: Seq<TechnologyView>, technology: TechnologyView) -> InputView {
    InputView {
        name: technology.name.full(),
        predecessors: Seq::new(
            technology.predecessors.len(),
            |k: int| written_name(tree, technology.predecessors[k]),
        ),
    }
}

impl TechnologyDefinition {
    pub fn new(name: String, predecessors: Vec<String>) -> (definition: Self)
        ensures
            definition@ == (InputView { name: name@, predecessors: predecessors.deep_view() }),
    {
        TechnologyDefinition { name, predecessors }
    }

    pub fn name(&self) -> (name: &str)
        ensures
            name@ == self@.name,
    {
        self.name.as_str()
    }

    pub fn predecessors(&self) -> (predecessors: &Vec<String>)
        ensures
            predecessors.deep_view() == self@.predecessors,
    {
        &self.predecessors
    }

    /// The input that the definition stands for.
    pub fn to_model(self) -> (input: Input)
        ensures
            input@ == self@,
    {
        Input::new(self.name, self.predecessors)
    }

    /// The definition of a technology of a tree.
    pub fn from_model(technology: &Technology, tree: &TechnologyTree) -> (definition: TechnologyDefinition)
        ensures
            definition@ == written(tree@, technology@),
    {
        let ids = technology.predecessors();
        let mut names: Vec<String> = Vec::new();
        let mut k: usize = 0;
        while k < ids.len()
            invariant
                k <= ids.len(),
                names.len() == k,
                forall|i: int|
                    0 <= i < k ==> (#[trigger] names[i])@ == written_name(tree@, ids[i]@),
            decreases ids.len() - k,
        {
            let name = match tree.get(ids[k]) {
                Some(predecessor) => predecessor.name().get_full().to_owned(),
                None => "UNKNOWN".to_owned(),
            };
            names.push(name);
            k = k + 1;
        }
        assert(names.deep_view() =~= written(tree@, technology@).predecessors);
        TechnologyDefinition::new(technology.name().get_full().to_owned(), names)
    }
}

} // verus!
