use crate::definition::technology::{written, TechnologyDefinition};
use crate::model::error::{AddError, AddErrorView};
use crate::model::technology::name::name_of;
use crate::model::technology::tree::{technology_views, well_formed, TechnologyTree};
use crate::model::technology::{Input, InputView, TechnologyView};
use crate::usecase::creation::{
    built, create_tree, faulty_in, graph_of, input_names, input_views, lemma_first_index,
    repeated_in, unknown_in,
};
use vstd::prelude::*;

verus! {

/// A tree as it is written down: the definitions of its technologies.
#[derive(Clone, Debug, PartialEq)]
pub struct TechnologyTreeDefinition {
    technologies: Vec<TechnologyDefinition>,
}

/// The views of a list of definitions.
pub open spec fn definition_views(list: Seq<TechnologyDefinition>) -> Seq<InputView> {
    Seq::new(list.len(), |i: int| list[i]@)
}

impl View for TechnologyTreeDefinition {
    type V = Seq<InputView>;

    closed spec fn view(&self) -> Seq<InputView> {
        definition_views(self.technologies@)
    }
}

/// What is written down of a tree.
pub open spec fn written_tree(tree: Seq<TechnologyView>) -> Seq<InputView> {
    Seq::new(tree.len(), |i: int| written(tree, tree[i]))
}

/// Tells whether a raw name is written as it is displayed.
pub open spec fn canonical(raw: Seq<char>) -> bool {
    name_of(raw) matches Ok(name) && name.full() == raw
}

/// Writing down the tree that was built from inputs gives the inputs back,
/// if every input is named as its technology is displayed.
pub proof fn lemma_round_trip(inputs: Seq<InputView>)
    requires
        built(inputs) is Ok,
        forall|i: int| 0 <= i < inputs.len() ==> canonical(#[trigger] inputs[i].name),
    ensures
        written_tree(built(inputs)->Ok_0) == inputs,
{
    let names = input_names(inputs);
    let tree = graph_of(inputs);
    lemma_first_index(names.len(), repeated_in(names));
    lemma_first_index(inputs.len(), faulty_in(inputs));
    assert forall|i: int| 0 <= i < inputs.len() implies written(tree, #[trigger] tree[i]) == inputs[i] by {
        assert(!faulty_in(inputs)(i));
        let wanted = inputs[i].predecessors;
        let unknown = unknown_in(names, wanted);
        lemma_first_index(wanted.len(), unknown);
        assert forall|k: int| 0 <= k < wanted.len() implies written(tree, tree[i]).predecessors[k]
            == wanted[k] by {
            assert(!unknown(k));
        }
        assert(written(tree, tree[i]).predecessors =~= wanted);
    }
}

impl TechnologyTreeDefinition {
    pub fn new(technologies: Vec<TechnologyDefinition>) -> (definition: Self)
        ensures
            definition@ == definition_views(technologies@),
    {
        TechnologyTreeDefinition { technologies }
    }

    pub fn technologies(&self) -> (technologies: &Vec<TechnologyDefinition>)
        ensures
            definition_views(technologies@) == self@,
    {
        &self.technologies
    }

    /// Builds the tree that the definitions describe.
    pub fn to_model(self) -> (result: Result<TechnologyTree, AddError>)
        ensures
            match result {
                Ok(tree) => built(self@) == Ok::<Seq<TechnologyView>, AddErrorView>(tree@)
                    && well_formed(tree@),
                Err(error) => built(self@) == Err::<Seq<TechnologyView>, AddErrorView>(error@),
            },
    {
        let ghost wanted = self@;
        let mut definitions = self.technologies;
        let mut inputs: Vec<Input> = Vec::new();
        let mut i: usize = 0;
        while i < definitions.len()
            invariant
                i <= definitions.len(),
                wanted.len() == definitions.len(),
                inputs.len() == i,
                forall|k: int| i <= k < definitions.len() ==> (#[trigger] definitions[k])@ == wanted[k],
                forall|k: int| 0 <= k < i ==> (#[trigger] inputs[k])@ == wanted[k],
            decreases definitions.len() - i,
        {
            let mut definition = TechnologyDefinition::new(String::new(), Vec::new());
            std::mem::swap(&mut definition, &mut definitions[i]);
            inputs.push(definition.to_model());
            i = i + 1;
        }
        assert(input_views(inputs@) =~= wanted);
        create_tree(inputs)
    }

    /// Writes down a tree.
    pub fn from_model(tree: &TechnologyTree) -> (definition: Self)
        ensures
            definition@ == written_tree(tree@),
    {
        let technologies = tree.technologies();
        let mut definitions: Vec<TechnologyDefinition> = Vec::new();
        let mut i: usize = 0;
        while i < technologies.len()
            invariant
                i <= technologies.len(),
                technology_views(technologies@) == tree@,
                definitions.len() == i,
                forall|k: int| 0 <= k < i ==> (#[trigger] definitions[k])@ == written(tree@, tree@[k]),
            decreases technologies.len() - i,
        {
            let technology = &technologies[i];
            definitions.push(TechnologyDefinition::from_model(technology, tree));
            i = i + 1;
        }
        Self::new(definitions)
    }
}

} // verus!
