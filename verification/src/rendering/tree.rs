use crate::model::technology::tree::{technology_views, well_formed, TechnologyTree};
use crate::model::technology::{id_lists, id_views, TechnologyId, TechnologyView};
use crate::rendering::grid::{cell_views, last_place, lemma_last_place, CellView, Grid, GridCell};
use crate::rendering::renderer::{point_views, DrawCall, Renderer};
use crate::usecase::analysis::{
    calculate_depth, depths, group_by_depth, groups_of, lemma_members_bounded,
    lemma_members_complete, members,
};
use crate::usecase::validation::no_cycles::acyclic;
use vstd::prelude::*;

verus! {

/// The extent of a box with the padding on both of its sides.
pub open spec fn padded(extent: u32, padding: u32) -> int {
    extent + 2 * padding
}

/// The width of a column: the padded widths of its boxes, added up.
pub open spec fn column_width(sizes: Seq<(u32, u32)>, padding: u32) -> int
    decreases sizes.len(),
{
    if sizes.len() == 0 {
        0
    } else {
        column_width(sizes.drop_last(), padding) + padded(sizes.last().0, padding)
    }
}

/// The height of a column: the greatest padded height among its boxes.
pub open spec fn column_height(sizes: Seq<(u32, u32)>, padding: u32) -> int
    decreases sizes.len(),
{
    if sizes.len() == 0 {
        0
    } else if padded(sizes.last().1, padding) > column_height(sizes.drop_last(), padding) {
        padded(sizes.last().1, padding)
    } else {
        column_height(sizes.drop_last(), padding)
    }
}

/// The width of the picture: the greatest width among its columns.
pub open spec fn total_width(sizes: Seq<Seq<(u32, u32)>>, padding: u32) -> int
    decreases sizes.len(),
{
    if sizes.len() == 0 {
        0
    } else if column_width(sizes.last(), padding) > total_width(sizes.drop_last(), padding) {
        column_width(sizes.last(), padding)
    } else {
        total_width(sizes.drop_last(), padding)
    }
}

/// The height of the picture: the heights of its columns, added up.
pub open spec fn total_height(sizes: Seq<Seq<(u32, u32)>>, padding: u32) -> int
    decreases sizes.len(),
{
    if sizes.len() == 0 {
        0
    } else {
        total_height(sizes.drop_last(), padding) + column_height(sizes.last(), padding)
    }
}

/// Tells whether the picture can be measured in `u32`.
pub open spec fn fits(sizes: Seq<Seq<(u32, u32)>>, padding: u32) -> bool {
    total_width(sizes, padding) <= u32::MAX && total_height(sizes, padding) <= u32::MAX
}

/// Tells whether every column has a size for each of its technologies.
pub open spec fn same_shape(ids: Seq<Seq<nat>>, sizes: Seq<Seq<(u32, u32)>>) -> bool {
    &&& ids.len() == sizes.len()
    &&& forall|c: int| 0 <= c < ids.len() ==> (#[trigger] ids[c]).len() == sizes[c].len()
}

/// The cell of the technology at place `j` of column `c`. The columns lie
/// below each other and the boxes of a column side by side, each in the
/// middle of the room that its padded size takes.
pub open spec fn placed(
    ids: Seq<Seq<nat>>,
    sizes: Seq<Seq<(u32, u32)>>,
    padding: u32,
    c: int,
    j: int,
) -> CellView {
    CellView {
        id: ids[c][j],
        center_x: column_width(sizes[c].take(j), padding) + padded(sizes[c][j].0, padding) / 2,
        center_y: total_height(sizes.take(c), padding) + padded(sizes[c][j].1, padding) / 2,
        half_width: sizes[c][j].0 as int / 2,
        half_height: sizes[c][j].1 as int / 2,
    }
}

/// The cells of column `c`, from left to right.
pub open spec fn placed_column(
    ids: Seq<Seq<nat>>,
    sizes: Seq<Seq<(u32, u32)>>,
    padding: u32,
    c: int,
) -> Seq<CellView> {
    Seq::new(ids[c].len(), |j: int| placed(ids, sizes, padding, c, j))
}

/// The cells of the first `count` columns, column after column.
pub open spec fn laid_out(
    ids: Seq<Seq<nat>>,
    sizes: Seq<Seq<(u32, u32)>>,
    padding: u32,
    count: int,
) -> Seq<CellView>
    decreases count,
{
    if count <= 0 {
        Seq::empty()
    } else {
        laid_out(ids, sizes, padding, count - 1) + placed_column(ids, sizes, padding, count - 1)
    }
}

/// The views of a list of lists of sizes.
pub open spec fn size_lists(lists: Seq<Vec<(u32, u32)>>) -> Seq<Seq<(u32, u32)>> {
    Seq::new(lists.len(), |c: int| lists[c]@)
}

/// The first boxes of a column are not wider than the column.
pub proof fn lemma_column_width_grows(sizes: Seq<(u32, u32)>, padding: u32, j: int)
    requires
        0 <= j <= sizes.len(),
    ensures
        0 <= column_width(sizes.take(j), padding) <= column_width(sizes, padding),
    decreases sizes.len(),
{
    if j == sizes.len() {
        assert(sizes.take(j) == sizes);
        if j > 0 {
            lemma_column_width_grows(sizes.drop_last(), padding, j - 1);
            lemma_column_width_grows(sizes.drop_last(), padding, sizes.len() - 1);
        }
    } else {
        lemma_column_width_grows(sizes.drop_last(), padding, j);
        assert(sizes.drop_last().take(j) == sizes.take(j));
    }
}

/// No box of a column is higher than the column.
pub proof fn lemma_column_height_covers(sizes: Seq<(u32, u32)>, padding: u32, j: int)
    requires
        0 <= j < sizes.len(),
    ensures
        padded(sizes[j].1, padding) <= column_height(sizes, padding),
    decreases sizes.len(),
{
    if j < sizes.len() - 1 {
        lemma_column_height_covers(sizes.drop_last(), padding, j);
    }
}

/// A column is not lower than its first boxes.
pub proof fn lemma_column_height_grows(sizes: Seq<(u32, u32)>, padding: u32, j: int)
    requires
        0 <= j <= sizes.len(),
    ensures
        0 <= column_height(sizes.take(j), padding) <= column_height(sizes, padding),
    decreases sizes.len(),
{
    if j == sizes.len() {
        assert(sizes.take(j) == sizes);
        if j > 0 {
            lemma_column_height_grows(sizes.drop_last(), padding, sizes.len() - 1);
        }
    } else {
        lemma_column_height_grows(sizes.drop_last(), padding, j);
        assert(sizes.drop_last().take(j) == sizes.take(j));
    }
}

/// The first columns are not higher than the picture.
pub proof fn lemma_total_height_grows(sizes: Seq<Seq<(u32, u32)>>, padding: u32, c: int)
    requires
        0 <= c <= sizes.len(),
    ensures
        0 <= total_height(sizes.take(c), padding) <= total_height(sizes, padding),
    decreases sizes.len(),
{
    if c == sizes.len() {
        assert(sizes.take(c) == sizes);
        if c > 0 {
            lemma_total_height_grows(sizes.drop_last(), padding, sizes.len() - 1);
            lemma_column_height_grows(sizes.last(), padding, 0);
        }
    } else {
        lemma_total_height_grows(sizes.drop_last(), padding, c);
        assert(sizes.drop_last().take(c) == sizes.take(c));
        lemma_column_height_grows(sizes.last(), padding, 0);
    }
}

/// No column is wider than the picture.
pub proof fn lemma_total_width_covers(sizes: Seq<Seq<(u32, u32)>>, padding: u32, c: int)
    requires
        0 <= c < sizes.len(),
    ensures
        column_width(sizes[c], padding) <= total_width(sizes, padding),
    decreases sizes.len(),
{
    if c < sizes.len() - 1 {
        lemma_total_width_covers(sizes.drop_last(), padding, c);
    }
}

/// Places the technologies of each column side by side and the columns below
/// each other; gives nothing if the picture cannot be measured in `u32`.
pub fn place_cells(padding: u32, groups: &Vec<Vec<TechnologyId>>, sizes: &Vec<Vec<(u32, u32)>>) -> (grid: Option<Grid>)
    requires
        same_shape(id_lists(groups@), size_lists(sizes@)),
    ensures
        match grid {
            Some(grid) => {
                &&& fits(size_lists(sizes@), padding)
                &&& grid@.width == total_width(size_lists(sizes@), padding)
                &&& grid@.height == total_height(size_lists(sizes@), padding)
                &&& grid@.cells == laid_out(
                    id_lists(groups@),
                    size_lists(sizes@),
                    padding,
                    groups.len() as int,
                )
            },
            None => !fits(size_lists(sizes@), padding),
        },
{
    let ghost ids = id_lists(groups@);
    let ghost all = size_lists(sizes@);
    let mut cells: Vec<GridCell> = Vec::new();
    let mut max_width: u32 = 0;
    let mut y: u32 = 0;
    let mut c: usize = 0;
    while c < groups.len()
        invariant
            c <= groups.len(),
            ids == id_lists(groups@),
            all == size_lists(sizes@),
            same_shape(ids, all),
            max_width == total_width(all.take(c as int), padding),
            y == total_height(all.take(c as int), padding),
            cell_views(cells@) == laid_out(ids, all, padding, c as int),
        decreases groups.len() - c,
    {
        let column_id = &groups[c];
        let column_size = &sizes[c];
        let ghost column = all[c as int];
        let ghost above = cell_views(cells@);
        assert(ids[c as int].len() == all[c as int].len());
        let mut x: u32 = 0;
        let mut tallest: u32 = 0;
        let mut j: usize = 0;
        while j < column_id.len()
            invariant
                j <= column_id.len(),
                c < groups.len(),
                ids == id_lists(groups@),
                all == size_lists(sizes@),
                same_shape(ids, all),
                column == all[c as int],
                column == column_size@,
                column_id@ == groups[c as int]@,
                column_id.len() == column.len(),
                y == total_height(all.take(c as int), padding),
                x == column_width(column.take(j as int), padding),
                tallest == column_height(column.take(j as int), padding),
                y + tallest <= u32::MAX,
                cell_views(cells@) == above + placed_column(ids, all, padding, c as int).take(
                    j as int,
                ),
            decreases column_id.len() - j,
        {
            let id = column_id[j];
            let (width, height) = column_size[j];
            let padded_width: u64 = width as u64 + 2 * (padding as u64);
            let padded_height: u64 = height as u64 + 2 * (padding as u64);
            let right: u64 = x as u64 + padded_width;
            let bottom: u64 = y as u64 + padded_height;
            proof {
                let next = column.take(j + 1);
                assert(next.drop_last() == column.take(j as int));
                lemma_column_width_grows(column, padding, j + 1);
                lemma_total_width_covers(all, padding, c as int);
                lemma_column_height_covers(column, padding, j as int);
                lemma_total_height_grows(all, padding, c + 1);
                assert(all.take(c + 1).drop_last() == all.take(c as int));
            }
            if right > u32::MAX as u64 || bottom > u32::MAX as u64 {
                return None;
            }
            let ghost before = cell_views(cells@);
            cells.push(
                GridCell::new(
                    id,
                    x + (padded_width / 2) as u32,
                    y + (padded_height / 2) as u32,
                    width / 2,
                    height / 2,
                ),
            );
            proof {
                let row = placed_column(ids, all, padding, c as int);
                assert(cell_views(cells@) =~= before.push(row[j as int]));
            }
            x = right as u32;
            if padded_height as u32 > tallest {
                tallest = padded_height as u32;
            }
            j = j + 1;
        }
        proof {
            assert(column.take(j as int) == column);
            assert(all.take(c + 1).drop_last() == all.take(c as int));
        }
        if x > max_width {
            max_width = x;
        }
        y = y + tallest;
        c = c + 1;
    }
    assert(all.take(c as int) == all);
    Some(Grid::new(max_width, y, cells))
}

/// The rule by which a renderer sizes texts.
pub open spec fn sizing<R: Renderer>(renderer: &R) -> spec_fn(Seq<char>) -> (u32, u32) {
    |text: Seq<char>| renderer.size_of(text)
}

/// The sizes of the technologies of every column under a sizing rule.
pub open spec fn measured(
    tree: Seq<TechnologyView>,
    ids: Seq<Seq<nat>>,
    size_of: spec_fn(Seq<char>) -> (u32, u32),
) -> Seq<Seq<(u32, u32)>> {
    Seq::new(
        ids.len(),
        |c: int| Seq::new(ids[c].len(), |j: int| size_of(tree[ids[c][j] as int].name.full())),
    )
}

/// The cell of technology `id` in a list of cells: the last that belongs to it.
pub open spec fn cell_of(cells: Seq<CellView>, id: nat) -> CellView {
    cells[last_place(cells, id)->Some_0]
}

/// The links from technology `v` to the first `count` of its successors.
pub open spec fn links(tree: Seq<TechnologyView>, cells: Seq<CellView>, v: int, count: int) -> Seq<
    DrawCall,
>
    decreases count,
{
    if count <= 0 {
        Seq::empty()
    } else {
        links(tree, cells, v, count - 1).push(
            DrawCall::Link {
                points: seq![
                    cell_of(cells, v as nat).link_start(),
                    cell_of(cells, tree[v].successors[count - 1]).link_end(),
                ],
            },
        )
    }
}

/// What is drawn for the first `count` technologies: each technology at the
/// centre of its cell, followed by the links to its successors.
pub open spec fn drawn(tree: Seq<TechnologyView>, cells: Seq<CellView>, count: int) -> Seq<DrawCall>
    decreases count,
{
    if count <= 0 {
        Seq::empty()
    } else {
        drawn(tree, cells, count - 1).push(
            DrawCall::Technology {
                text: tree[count - 1].name.full(),
                x: cell_of(cells, (count - 1) as nat).center_x,
                y: cell_of(cells, (count - 1) as nat).center_y,
            },
        ) + links(tree, cells, count - 1, tree[count - 1].successors.len() as int)
    }
}

/// What is asked of a renderer to draw a tree with the given cells: first
/// the extent of the picture, then the technologies in the order of their
/// identifiers, each with its links.
pub open spec fn drawing(tree: Seq<TechnologyView>, width: int, height: int, cells: Seq<CellView>) -> Seq<
    DrawCall,
> {
    seq![DrawCall::Init { width, height }] + drawn(tree, cells, tree.len() as int)
}

/// Every cell of a layout is the cell of some technology of some column.
pub proof fn lemma_laid_out_cell(
    ids: Seq<Seq<nat>>,
    sizes: Seq<Seq<(u32, u32)>>,
    padding: u32,
    count: int,
    i: int,
) -> (at: (int, int))
    requires
        0 <= i < laid_out(ids, sizes, padding, count).len(),
    ensures
        0 <= at.0 < count,
        0 <= at.1 < ids[at.0].len(),
        laid_out(ids, sizes, padding, count)[i] == placed(ids, sizes, padding, at.0, at.1),
    decreases count,
{
    let before = laid_out(ids, sizes, padding, count - 1);
    if i < before.len() {
        lemma_laid_out_cell(ids, sizes, padding, count - 1, i)
    } else {
        (count - 1, i - before.len())
    }
}

/// Every technology of every column has its cell in the layout.
pub proof fn lemma_laid_out_holds(
    ids: Seq<Seq<nat>>,
    sizes: Seq<Seq<(u32, u32)>>,
    padding: u32,
    count: int,
    c: int,
    j: int,
) -> (i: int)
    requires
        0 <= c < count,
        0 <= j < ids[c].len(),
    ensures
        0 <= i < laid_out(ids, sizes, padding, count).len(),
        laid_out(ids, sizes, padding, count)[i] == placed(ids, sizes, padding, c, j),
    decreases count,
{
    let before = laid_out(ids, sizes, padding, count - 1);
    if c < count - 1 {
        lemma_laid_out_holds(ids, sizes, padding, count - 1, c, j)
    } else {
        before.len() + j
    }
}

/// In a layout that fits, every box lies inside the picture: the ends of
/// its links do not leave it at the top or at the bottom.
pub proof fn lemma_cell_inside(
    ids: Seq<Seq<nat>>,
    sizes: Seq<Seq<(u32, u32)>>,
    padding: u32,
    i: int,
)
    requires
        same_shape(ids, sizes),
        0 <= i < laid_out(ids, sizes, padding, ids.len() as int).len(),
    ensures
        ({
            let cell = laid_out(ids, sizes, padding, ids.len() as int)[i];
            &&& 0 <= cell.half_height <= cell.center_y
            &&& cell.center_y + cell.half_height <= total_height(sizes, padding)
        }),
{
    let at = lemma_laid_out_cell(ids, sizes, padding, ids.len() as int, i);
    let c = at.0;
    let j = at.1;
    lemma_total_height_grows(sizes, padding, c);
    lemma_total_height_grows(sizes, padding, c + 1);
    assert(sizes.take(c + 1).drop_last() == sizes.take(c));
    lemma_column_height_covers(sizes[c], padding, j);
}

/// Draws trees with a padding around every box.
pub struct TreeRenderer {
    padding: u32,
}

impl View for TreeRenderer {
    type V = u32;

    closed spec fn view(&self) -> u32 {
        self.padding
    }
}

impl TreeRenderer {
    /// A renderer that leaves `padding` free on every side of a box.
    pub fn new(padding: u32) -> (renderer: Self)
        ensures
            renderer@ == padding,
    {
        Self { padding }
    }

    /// Draws the tree, unless its picture cannot be measured in `u32`; tells
    /// whether it was drawn.
    pub fn render<R: Renderer>(&mut self, renderer: &mut R, tree: &TechnologyTree) -> (done: bool)
        requires
            well_formed(tree@),
            acyclic(tree@),
            tree@.len() <= u32::MAX,
        ensures
            final(self)@ == old(self)@,
            ({
                let ids = groups_of(depths(tree@));
                let sizes = measured(tree@, ids, sizing(old(renderer)));
                &&& done == fits(sizes, old(self)@)
                &&& final(renderer).calls() == if done {
                    old(renderer).calls() + drawing(
                        tree@,
                        total_width(sizes, old(self)@),
                        total_height(sizes, old(self)@),
                        laid_out(ids, sizes, old(self)@, ids.len() as int),
                    )
                } else {
                    old(renderer).calls()
                }
            }),
    {
        let ghost ids = groups_of(depths(tree@));
        let ghost sizes = measured(tree@, ids, sizing(renderer));
        let ghost earlier = renderer.calls();
        let grid = match self.calculate_grid(renderer, tree) {
            Some(grid) => grid,
            None => {
                return false;
            },
        };
        let ghost cells = grid@.cells;
        renderer.init(grid.width(), grid.height());
        let technologies = tree.technologies();
        let mut id: usize = 0;
        while id < technologies.len()
            invariant
                id <= technologies.len(),
                technology_views(technologies@) == tree@,
                well_formed(tree@),
                cells == grid@.cells,
                same_shape(ids, sizes),
                cells == laid_out(ids, sizes, self@, ids.len() as int),
                total_height(sizes, self@) <= u32::MAX,
                forall|v: nat| v < tree@.len() ==> last_place(cells, v) is Some,
                renderer.calls() == earlier + seq![
                    DrawCall::Init { width: grid@.width, height: grid@.height },
                ] + drawn(tree@, cells, id as int),
            decreases technologies.len() - id,
        {
            let technology = &technologies[id];
            let cell = *grid.get_cell(TechnologyId::new(id)).unwrap();
            proof {
                lemma_last_place(cells, id as nat);
                lemma_cell_inside(ids, sizes, self@, last_place(cells, id as nat)->Some_0);
            }
            renderer.render_technology(technology.name().get_full(), cell.center_x, cell.center_y);
            let ghost base = renderer.calls();
            let successors = technology.successors();
            let link_start = cell.get_link_start();
            let mut k: usize = 0;
            while k < successors.len()
                invariant
                    k <= successors.len(),
                    id < tree@.len(),
                    well_formed(tree@),
                    cells == grid@.cells,
                    same_shape(ids, sizes),
                    cells == laid_out(ids, sizes, self@, ids.len() as int),
                    total_height(sizes, self@) <= u32::MAX,
                    forall|v: nat| v < tree@.len() ==> last_place(cells, v) is Some,
                    id_views(successors@) == tree@[id as int].successors,
                    (link_start.0 as int, link_start.1 as int) == cell_of(cells, id as nat).link_start(),
                    renderer.calls() == base + links(tree@, cells, id as int, k as int),
                decreases successors.len() - k,
            {
                let successor = successors[k];
                assert(successor@ == tree@[id as int].successors[k as int]);
                let successor_cell = *grid.get_cell(successor).unwrap();
                proof {
                    lemma_last_place(cells, successor@);
                    lemma_cell_inside(ids, sizes, self@, last_place(cells, successor@)->Some_0);
                }
                let link_end = successor_cell.get_link_end();
                let points = vec![link_start, link_end];
                assert(point_views(points@) =~= seq![
                    cell_of(cells, id as nat).link_start(),
                    cell_of(cells, tree@[id as int].successors[k as int]).link_end(),
                ]);
                renderer.render_link(points);
                k = k + 1;
            }
            id = id + 1;
        }
        true
    }

    fn calculate_grid<R: Renderer>(&self, renderer: &R, tree: &TechnologyTree) -> (grid: Option<
        Grid,
    >)
        requires
            well_formed(tree@),
            acyclic(tree@),
            tree@.len() <= u32::MAX,
        ensures
            ({
                let ids = groups_of(depths(tree@));
                let sizes = measured(tree@, ids, sizing(renderer));
                &&& same_shape(ids, sizes)
                &&& forall|v: nat|
                    v < tree@.len() ==> last_place(
                        laid_out(ids, sizes, self@, ids.len() as int),
                        v,
                    ) is Some
                &&& match grid {
                    Some(grid) => {
                        &&& fits(sizes, self@)
                        &&& grid@.width == total_width(sizes, self@)
                        &&& grid@.height == total_height(sizes, self@)
                        &&& grid@.cells == laid_out(ids, sizes, self@, ids.len() as int)
                    },
                    None => !fits(sizes, self@),
                }
            }),
    {
        let depth = calculate_depth(tree);
        let groups = group_by_depth(depth.as_slice());
        let ghost ids = id_lists(groups@);
        proof {
            assert forall|c: int, j: int|
                0 <= c < groups.len() && 0 <= j < groups[c].len() implies (#[trigger] groups[c][j])@
                < tree@.len() by {
                lemma_members_bounded(depth@, c, j);
            }
        }
        let sizes = self.get_sizes(renderer, tree, &groups);
        proof {
            let all = size_lists(sizes@);
            assert forall|v: nat| v < tree@.len() implies last_place(
                laid_out(ids, all, self@, ids.len() as int),
                v,
            ) is Some by {
                let d = depth@[v as int] as int;
                lemma_members_complete(depth@, v as int);
                let j = choose|j: int| 0 <= j < members(depth@, d).len() && members(depth@, d)[j] == v;
                let i = lemma_laid_out_holds(ids, all, self@, ids.len() as int, d, j);
                lemma_last_place(laid_out(ids, all, self@, ids.len() as int), v);
            }
        }
        place_cells(self.padding, &groups, &sizes)
    }

    fn get_sizes<R: Renderer>(
        &self,
        renderer: &R,
        tree: &TechnologyTree,
        groups: &Vec<Vec<TechnologyId>>,
    ) -> (sizes: Vec<Vec<(u32, u32)>>)
        requires
            forall|c: int, j: int|
                0 <= c < groups.len() && 0 <= j < groups[c].len() ==> (#[trigger] groups[c][j])@
                    < tree@.len(),
        ensures
            size_lists(sizes@) == measured(tree@, id_lists(groups@), sizing(renderer)),
            same_shape(id_lists(groups@), size_lists(sizes@)),
    {
        let technologies = tree.technologies();
        let ghost wanted = measured(tree@, id_lists(groups@), sizing(renderer));
        let mut sizes: Vec<Vec<(u32, u32)>> = Vec::new();
        let mut c: usize = 0;
        while c < groups.len()
            invariant
                c <= groups.len(),
                technology_views(technologies@) == tree@,
                wanted == measured(tree@, id_lists(groups@), sizing(renderer)),
                forall|c: int, j: int|
                    0 <= c < groups.len() && 0 <= j < groups[c].len() ==> (#[trigger] groups[c][j])@
                        < tree@.len(),
                sizes.len() == c,
                forall|e: int| 0 <= e < c ==> (#[trigger] sizes[e])@ == wanted[e],
            decreases groups.len() - c,
        {
            let column = &groups[c];
            let mut widths: Vec<(u32, u32)> = Vec::new();
            let mut j: usize = 0;
            while j < column.len()
                invariant
                    j <= column.len(),
                    c < groups.len(),
                    column@ == groups[c as int]@,
                    technology_views(technologies@) == tree@,
                    wanted == measured(tree@, id_lists(groups@), sizing(renderer)),
                    forall|c: int, j: int|
                        0 <= c < groups.len() && 0 <= j < groups[c].len() ==> (
                        #[trigger] groups[c][j])@ < tree@.len(),
                    widths.len() == j,
                    forall|i: int| 0 <= i < j ==> #[trigger] widths[i] == wanted[c as int][i],
                decreases column.len() - j,
            {
                let id = column[j];
                let technology = &technologies[id.id()];
                let size = renderer.get_size_of_technology(technology.name().get_full());
                widths.push(size);
                j = j + 1;
            }
            sizes.push(widths);
            c = c + 1;
        }
        sizes
    }
}


} // verus!
