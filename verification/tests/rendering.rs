use std::collections::HashMap;
use tech_tree::model::technology::tree::TechnologyTree;
use tech_tree::model::technology::{Input, TechnologyId};
use tech_tree::rendering::grid::{Grid, GridCell};
use tech_tree::rendering::renderer::Renderer;
use tech_tree::rendering::tree::{place_cells, TreeRenderer};
use tech_tree::usecase::creation::create_tree;

#[test]
fn test_new() {
    let cells = vec![
        GridCell::simple(0),
        GridCell::simple(1),
        GridCell::simple(2),
    ];
    let grid = Grid::new(10, 20, cells.clone());

    assert_eq!(grid.width(), 10);
    assert_eq!(grid.height(), 20);
    assert_eq!(grid.cells(), &cells);
    assert_id(&grid, 0);
    assert_id(&grid, 1);
    assert_id(&grid, 2);
    assert!(grid.get_cell(TechnologyId::new(3)).is_none());
}

fn assert_id(grid: &Grid, id: usize) {
    assert_eq!(grid.get_cell(TechnologyId::new(id)).unwrap().id.id(), id);
}

#[derive(Default)]
struct MockRender {
    pub width: u32,
    pub height: u32,
    pub technologies: HashMap<String, (u32, u32)>,
}

impl Renderer for MockRender {
    fn init(&mut self, width: u32, height: u32) {
        self.width = width;
        self.height = height;
    }

    fn render_link(&mut self, _points: Vec<(u32, u32)>) {}

    fn render_technology(&mut self, text: &str, x: u32, y: u32) {
        self.technologies.insert(text.to_string(), (x, y));
    }

    fn get_size_of_technology(&self, text: &str) -> (u32, u32) {
        let l = text.len() as u32;
        (l * 10, l * 20)
    }
}

#[test]
fn test_render() {
    let tree = init_tree();
    let mut renderer = MockRender::default();
    let mut tree_renderer = TreeRenderer::new(5);

    tree_renderer.render(&mut renderer, &tree);

    assert_eq!(renderer.width, 70);
    assert_eq!(renderer.height, 100);
    assert_eq!(
        renderer.technologies,
        HashMap::from([
            ("a".to_string(), (10, 15)),
            ("bb".to_string(), (15, 55)),
            ("ccc".to_string(), (50, 65)),
        ])
    );
}

fn init_tree() -> TechnologyTree {
    create_tree(vec![
        Input::test("a", vec![]),
        Input::test("bb", vec!["a"]),
        Input::test("ccc", vec!["a"]),
    ])
    .unwrap()
}

#[derive(Debug, PartialEq)]
enum Call {
    Init(u32, u32),
    Link(Vec<(u32, u32)>),
    Technology(String, u32, u32),
}

struct Recorder {
    calls: Vec<Call>,
    width: u32,
    height: u32,
}

impl Recorder {
    fn new(width: u32, height: u32) -> Self {
        Recorder { calls: Vec::new(), width, height }
    }
}

impl Renderer for Recorder {
    fn init(&mut self, width: u32, height: u32) {
        self.calls.push(Call::Init(width, height));
    }

    fn render_link(&mut self, points: Vec<(u32, u32)>) {
        self.calls.push(Call::Link(points));
    }

    fn render_technology(&mut self, text: &str, x: u32, y: u32) {
        self.calls.push(Call::Technology(text.to_string(), x, y));
    }

    fn get_size_of_technology(&self, text: &str) -> (u32, u32) {
        (self.width * text.len() as u32, self.height)
    }
}

#[test]
fn test_cell_new_keeps_its_parts() {
    let cell = GridCell::new(TechnologyId::new(4), 1, 2, 3, 4);

    assert_eq!(cell.id, TechnologyId::new(4));
    assert_eq!((cell.center_x, cell.center_y), (1, 2));
    assert_eq!((cell.half_width, cell.half_height), (3, 4));
    assert_eq!(GridCell::simple(9), GridCell::new(TechnologyId::new(9), 0, 0, 0, 0));
}

#[test]
fn test_link_points() {
    let cell = GridCell::new(TechnologyId::new(0), 30, 50, 7, 20);

    assert_eq!(cell.get_link_start(), (30, 70));
    assert_eq!(cell.get_link_end(), (30, 30));
}

#[test]
fn test_link_points_at_the_limits() {
    let low = GridCell::new(TechnologyId::new(0), 0, 5, 0, 5);
    let high = GridCell::new(TechnologyId::new(0), u32::MAX, u32::MAX - 5, 0, 5);

    assert_eq!(low.get_link_end(), (0, 0));
    assert_eq!(high.get_link_start(), (u32::MAX, u32::MAX));
}

#[test]
fn test_get_cell_finds_the_last() {
    let cells = vec![
        GridCell::new(TechnologyId::new(7), 1, 1, 0, 0),
        GridCell::new(TechnologyId::new(3), 2, 2, 0, 0),
        GridCell::new(TechnologyId::new(7), 3, 3, 0, 0),
    ];
    let grid = Grid::new(0, 0, cells.clone());

    assert_eq!(grid.get_cell(TechnologyId::new(7)), Some(&cells[2]));
    assert_eq!(grid.get_cell(TechnologyId::new(3)), Some(&cells[1]));
    assert_eq!(grid.get_cell(TechnologyId::new(0)), None);
}

#[test]
fn test_place_cells() {
    let groups = vec![
        vec![TechnologyId::new(0)],
        vec![],
        vec![TechnologyId::new(2), TechnologyId::new(1)],
    ];
    let sizes = vec![vec![(10, 20)], vec![], vec![(30, 60), (21, 41)]];
    let grid = place_cells(5, &groups, &sizes).unwrap();

    assert_eq!(grid.width(), 71);
    assert_eq!(grid.height(), 100);
    assert_eq!(
        grid.cells(),
        &vec![
            GridCell::new(TechnologyId::new(0), 10, 15, 5, 10),
            GridCell::new(TechnologyId::new(2), 20, 65, 15, 30),
            GridCell::new(TechnologyId::new(1), 55, 55, 10, 20),
        ]
    );
}

#[test]
fn test_place_nothing() {
    let grid = place_cells(5, &vec![vec![]], &vec![vec![]]).unwrap();

    assert_eq!((grid.width(), grid.height()), (0, 0));
    assert!(grid.cells().is_empty());
}

#[test]
fn test_place_cells_at_the_limit() {
    let groups = vec![vec![TechnologyId::new(0), TechnologyId::new(1)]];
    let fitting = vec![vec![(u32::MAX - 5, u32::MAX - 2), (1, 0)]];
    let wide = vec![vec![(u32::MAX - 5, 0), (2, 0)]];
    let high = vec![vec![(0, u32::MAX - 1), (0, 0)]];

    let grid = place_cells(1, &groups, &fitting).unwrap();
    assert_eq!((grid.width(), grid.height()), (u32::MAX, u32::MAX));
    assert!(place_cells(1, &groups, &wide).is_none());
    assert!(place_cells(1, &groups, &high).is_none());
    assert!(place_cells(u32::MAX, &groups, &vec![vec![(0, 0), (0, 0)]]).is_none());
}

#[test]
fn test_render_order() {
    let tree = init_tree();
    let mut renderer = Recorder::new(10, 20);
    let mut tree_renderer = TreeRenderer::new(5);

    assert!(tree_renderer.render(&mut renderer, &tree));

    assert_eq!(
        renderer.calls,
        vec![
            Call::Init(70, 60),
            Call::Technology("a".to_string(), 10, 15),
            Call::Link(vec![(10, 25), (15, 35)]),
            Call::Link(vec![(10, 25), (50, 35)]),
            Call::Technology("bb".to_string(), 15, 45),
            Call::Technology("ccc".to_string(), 50, 45),
        ]
    );
}

#[test]
fn test_render_by_identifier() {
    let tree = create_tree(vec![
        Input::test("late", vec!["root"]),
        Input::test("root", vec![]),
    ])
    .unwrap();
    let mut renderer = Recorder::new(1, 2);
    let mut tree_renderer = TreeRenderer::new(0);

    assert!(tree_renderer.render(&mut renderer, &tree));

    assert_eq!(
        renderer.calls,
        vec![
            Call::Init(4, 4),
            Call::Technology("late".to_string(), 2, 3),
            Call::Technology("root".to_string(), 2, 1),
            Call::Link(vec![(2, 2), (2, 2)]),
        ]
    );
}

#[test]
fn test_render_empty_tree() {
    let mut renderer = Recorder::new(1, 1);
    let mut tree_renderer = TreeRenderer::new(3);

    assert!(tree_renderer.render(&mut renderer, &TechnologyTree::new(vec![])));

    assert_eq!(renderer.calls, vec![Call::Init(0, 0)]);
}

#[test]
fn test_render_too_large() {
    let tree = init_tree();
    let mut renderer = Recorder::new(u32::MAX / 2, 1);
    let mut tree_renderer = TreeRenderer::new(1);

    assert!(!tree_renderer.render(&mut renderer, &tree));

    assert!(renderer.calls.is_empty());
}

#[test]
fn test_boxes_of_a_column_do_not_overlap() {
    let tree = create_tree(vec![
        Input::test("a", vec![]),
        Input::test("bb", vec![]),
        Input::test("ccc", vec![]),
    ])
    .unwrap();
    let mut renderer = MockRender::default();
    let mut tree_renderer = TreeRenderer::new(5);

    tree_renderer.render(&mut renderer, &tree);

    assert_eq!((renderer.width, renderer.height), (90, 70));
    assert_eq!(
        renderer.technologies,
        HashMap::from([
            ("a".to_string(), (10, 15)),
            ("bb".to_string(), (35, 25)),
            ("ccc".to_string(), (70, 35)),
        ])
    );
}
