use crate::model::technology::TechnologyId;
use std::collections::HashMap;
use vstd::prelude::*;

verus! {

broadcast use vstd::std_specs::hash::group_hash_axioms;

/// The box of one technology in the picture.
#[derive(Copy, Clone, Debug, PartialEq)]
pub struct GridCell {
    pub id: TechnologyId,
    pub center_x: u32,
    pub center_y: u32,
    pub half_width: u32,
    pub half_height: u32,
}

/// The mathematical content of a [`GridCell`].
pub struct CellView {
    pub id: nat,
    pub center_x: int,
    pub center_y: int,
    pub half_width: int,
    pub half_height: int,
}

impl View for GridCell {
    type V = CellView;

    open spec fn view(&self) -> CellView {
        CellView {
            id: self.id@,
            center_x: self.center_x as int,
            center_y: self.center_y as int,
            half_width: self.half_width as int,
            half_height: self.half_height as int,
        }
    }
}

impl CellView {
    /// Where a link to a successor leaves the box: the middle of its lower edge.
    pub open spec fn link_start(self) -> (int, int) {
        (self.center_x, self.center_y + self.half_height)
    }

    /// Where a link from a predecessor reaches the box: the middle of its upper edge.
    pub open spec fn link_end(self) -> (int, int) {
        (self.center_x, self.center_y - self.half_height)
    }
}

impl GridCell {
    pub fn new(id: TechnologyId, center_x: u32, center_y: u32, half_width: u32, half_height: u32) -> (cell: Self)
        ensures
            cell == (GridCell { id, center_x, center_y, half_width, half_height }),
    {
        Self { id, center_x, center_y, half_width, half_height }
    }

    /// A cell without extent at the origin.
    pub fn simple(id: usize) -> (cell: Self)
        ensures
            cell@ == (CellView { id: id as nat, center_x: 0, center_y: 0, half_width: 0, half_height: 0 }),
    {
        Self { id: TechnologyId::new(id), center_x: 0, center_y: 0, half_width: 0, half_height: 0 }
    }

    pub fn get_link_start(&self) -> (point: (u32, u32))
        requires
            self.center_y + self.half_height <= u32::MAX,
        ensures
            (point.0 as int, point.1 as int) == self@.link_start(),
    {
        (self.center_x, self.center_y + self.half_height)
    }

    pub fn get_link_end(&self) -> (point: (u32, u32))
        requires
            self.half_height <= self.center_y,
        ensures
            (point.0 as int, point.1 as int) == self@.link_end(),
    {
        (self.center_x, self.center_y - self.half_height)
    }
}

/// The views of a list of cells.
pub open spec fn cell_views(cells: Seq<GridCell>) -> Seq<CellView> {
    Seq::new(cells.len(), |i: int| cells[i]@)
}

/// The place of the last cell that belongs to technology `id`.
pub open spec fn last_place(cells: Seq<CellView>, id: nat) -> Option<int>
    decreases cells.len(),
{
    if cells.len() == 0 {
        None
    } else if cells.last().id == id {
        Some(cells.len() - 1)
    } else {
        last_place(cells.drop_last(), id)
    }
}

/// `last_place` finds a cell of the technology, and it finds none only if
/// no cell belongs to it.
pub proof fn lemma_last_place(cells: Seq<CellView>, id: nat)
    ensures
        match last_place(cells, id) {
            Some(i) => 0 <= i < cells.len() && cells[i].id == id,
            None => forall|i: int| 0 <= i < cells.len() ==> (#[trigger] cells[i]).id != id,
        },
    decreases cells.len(),
{
    if cells.len() > 0 && cells.last().id != id {
        lemma_last_place(cells.drop_last(), id);
        match last_place(cells, id) {
            Some(i) => {
            },
            None => {
                assert forall|i: int| 0 <= i < cells.len() implies (#[trigger] cells[i]).id != id by {
                    if i < cells.len() - 1 {
                        assert(cells.drop_last()[i] == cells[i]);
                    }
                }
            },
        }
    }
}

/// The boxes of a picture and its extent.
pub struct Grid {
    width: u32,
    height: u32,
    cells: Vec<GridCell>,
    id_map: HashMap<usize, usize>,
}

/// The mathematical content of a [`Grid`].
pub struct GridView {
    pub width: int,
    pub height: int,
    pub cells: Seq<CellView>,
}

/// Tells whether `map` leads from every technology that has a cell to the
/// place of its last cell, and from no other.
pub open spec fn indexes(map: Map<usize, usize>, cells: Seq<CellView>) -> bool {
    forall|id: usize|
        match last_place(cells, id as nat) {
            Some(i) => #[trigger] map.contains_key(id) && map[id] == i,
            None => !map.contains_key(id),
        }
}

impl View for Grid {
    type V = GridView;

    closed spec fn view(&self) -> GridView {
        GridView {
            width: self.width as int,
            height: self.height as int,
            cells: cell_views(self.cells@),
        }
    }
}

impl Grid {
    #[verifier::type_invariant]
    spec fn indexed(&self) -> bool {
        indexes(self.id_map@, cell_views(self.cells@))
    }

    pub fn new(width: u32, height: u32, cells: Vec<GridCell>) -> (grid: Self)
        ensures
            grid@ == (GridView {
                width: width as int,
                height: height as int,
                cells: cell_views(cells@),
            }),
    {
        let mut id_map: HashMap<usize, usize> = HashMap::new();
        let mut i: usize = 0;
        let ghost views = cell_views(cells@);
        while i < cells.len()
            invariant
                i <= cells.len(),
                views == cell_views(cells@),
                indexes(id_map@, views.take(i as int)),
            decreases cells.len() - i,
        {
            let key = cells[i].id.id();
            id_map.insert(key, i);
            proof {
                let next = views.take(i + 1);
                assert(next.drop_last() == views.take(i as int));
            }
            i = i + 1;
        }
        assert(views.take(i as int) == views);
        Self { width, height, cells, id_map }
    }

    pub fn width(&self) -> (width: u32)
        ensures
            width == self@.width,
    {
        self.width
    }

    pub fn height(&self) -> (height: u32)
        ensures
            height == self@.height,
    {
        self.height
    }

    pub fn cells(&self) -> (cells: &Vec<GridCell>)
        ensures
            cell_views(cells@) == self@.cells,
    {
        &self.cells
    }

    /// The last cell that belongs to technology `id`.
    pub fn get_cell(&self, id: TechnologyId) -> (cell: Option<&GridCell>)
        ensures
            match last_place(self@.cells, id@) {
                Some(i) => cell matches Some(found) && found@ == self@.cells[i],
                None => cell is None,
            },
    {
        proof {
            use_type_invariant(self);
            lemma_last_place(cell_views(self.cells@), id@);
        }
        let key = id.id();
        match self.id_map.get(&key) {
            Some(i) => {
                Some(&self.cells[*i])
            },
            None => {
                None
            },
        }
    }
}

} // verus!
