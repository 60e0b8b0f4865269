use crate::model::technology::{Technology, TechnologyId, TechnologyView};
use vstd::prelude::*;

verus! {

/// The technologies of a tree, each at the place that its identifier names.
#[derive(Clone, Debug, PartialEq)]
pub struct TechnologyTree {
    technologies: Vec<Technology>,
}

/// The views of a list of technologies.
pub open spec fn technology_views(list: Seq<Technology>) -> Seq<TechnologyView> {
    Seq::new(list.len(), |i: int| list[i]@)
}

/// The rules that every built tree keeps: a technology's identifier is its
/// position, every neighbour is a technology of the tree, and a technology
/// is a successor of exactly those that it names as predecessors.
pub open spec fn well_formed(tree: Seq<TechnologyView>) -> bool {
    &&& forall|i: int| 0 <= i < tree.len() ==> (#[trigger] tree[i]).id == i
    &&& forall|i: int, k: int|
        0 <= i < tree.len() && 0 <= k < tree[i].predecessors.len()
            ==> #[trigger] tree[i].predecessors[k] < tree.len()
    &&& forall|i: int, k: int|
        0 <= i < tree.len() && 0 <= k < tree[i].successors.len()
            ==> #[trigger] tree[i].successors[k] < tree.len()
    &&& forall|a: nat, b: nat|
        #![trigger tree[b as int].predecessors.contains(a)]
        #![trigger tree[a as int].successors.contains(b)]
        a < tree.len() && b < tree.len() ==> (tree[b as int].predecessors.contains(a)
            <==> tree[a as int].successors.contains(b))
}

impl View for TechnologyTree {
    type V = Seq<TechnologyView>;

    closed spec fn view(&self) -> Seq<TechnologyView> {
        technology_views(self.technologies@)
    }
}

impl TechnologyTree {
    pub fn new(technologies: Vec<Technology>) -> (tree: Self)
        ensures
            tree@ == technology_views(technologies@),
    {
        TechnologyTree { technologies }
    }

    pub fn technologies(&self) -> (technologies: &Vec<Technology>)
        ensures
            technology_views(technologies@) == self@,
    {
        &self.technologies
    }

    /// The technology that `id` names, if the tree holds that many.
    pub fn get(&self, id: TechnologyId) -> (technology: Option<&Technology>)
        ensures
            match technology {
                Some(found) => id@ < self@.len() && found@ == self@[id@ as int],
                None => id@ >= self@.len(),
            },
    {
        let index = id.id();
        if index < self.technologies.len() {
            Some(&self.technologies[index])
        } else {
            None
        }
    }
}

} // verus!
