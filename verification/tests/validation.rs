use tech_tree::model::error::AddError;
use tech_tree::model::technology::tree::TechnologyTree;
use tech_tree::model::technology::Input;
use tech_tree::usecase::creation::create_tree;
use tech_tree::usecase::validation::no_cycles::{validate_no_cycles, validate_tree};

#[test]
fn test_empty() {
    let tree = TechnologyTree::new(vec![]);

    assert_eq!(validate_tree(&tree), None);
}

#[test]
fn test_no_cycle() {
    let tree = init_tree(vec![]);

    assert_eq!(validate_tree(&tree), None);
}

#[test]
fn test_error() {
    let tree = init_tree(vec!["t3"]);

    assert_eq!(
        validate_no_cycles(tree),
        Err(AddError::Cycle(vec![
            "t0".to_string(),
            "t2".to_string(),
            "t3".to_string()
        ]))
    );
}

fn init_tree(predecessors0: Vec<&str>) -> TechnologyTree {
    create_tree(vec![
        Input::test("t0", predecessors0),
        Input::test("t1", vec![]),
        Input::test("t2", vec!["t0"]),
        Input::test("t3", vec!["t2", "t1"]),
        Input::test("t4", vec!["t3"]),
    ])
    .unwrap()
}

fn names(list: Vec<&str>) -> Vec<String> {
    list.into_iter().map(|name| name.to_string()).collect()
}

#[test]
fn test_validation_hands_the_tree_back() {
    let tree = init_tree(vec![]);

    assert_eq!(validate_no_cycles(tree.clone()), Ok(tree));
}

#[test]
fn test_validation_is_idempotent() {
    let tree = init_tree(vec![]);
    let first = validate_no_cycles(tree.clone()).unwrap();
    let second = validate_no_cycles(first.clone()).unwrap();

    assert_eq!(first, tree);
    assert_eq!(second, tree);
}

#[test]
fn test_self_loop() {
    let tree = create_tree(vec![Input::test("a", vec![]), Input::test("b", vec!["b"])]).unwrap();

    assert_eq!(validate_tree(&tree), Some(names(vec!["b"])));
}

#[test]
fn test_cycle_behind_a_tail() {
    let tree = create_tree(vec![
        Input::test("a", vec![]),
        Input::test("b", vec!["a", "d"]),
        Input::test("c", vec!["b"]),
        Input::test("d", vec!["c"]),
    ])
    .unwrap();

    assert_eq!(
        validate_no_cycles(tree),
        Err(AddError::Cycle(names(vec!["b", "c", "d"])))
    );
}

#[test]
fn test_cycle_in_a_later_fragment() {
    let tree = create_tree(vec![
        Input::test("a", vec![]),
        Input::test("b", vec!["a"]),
        Input::test("x 1", vec!["y"]),
        Input::test("y", vec!["x 1"]),
    ])
    .unwrap();

    assert_eq!(validate_tree(&tree), Some(names(vec!["x 1", "y"])));
}

#[test]
fn test_cycle_ends_where_it_closes() {
    let tree = create_tree(vec![
        Input::test("v0", vec!["v1"]),
        Input::test("v1", vec!["v0", "v3"]),
        Input::test("v2", vec!["v1", "v3"]),
        Input::test("v3", vec!["v2"]),
    ])
    .unwrap();

    assert_eq!(validate_tree(&tree), Some(names(vec!["v0", "v1"])));
}

#[test]
fn test_reported_names_form_a_cycle() {
    let tree = create_tree(vec![
        Input::test("a", vec![]),
        Input::test("b", vec!["a", "e"]),
        Input::test("c", vec!["b", "a"]),
        Input::test("d", vec!["c", "b"]),
        Input::test("e", vec!["d", "c"]),
    ])
    .unwrap();
    let circle = validate_tree(&tree).unwrap();

    let technologies = tree.technologies();
    let ids: Vec<usize> = circle
        .iter()
        .map(|name| {
            technologies
                .iter()
                .position(|technology| technology.name().get_full() == name)
                .unwrap()
        })
        .collect();
    assert!(!ids.is_empty());
    for (place, id) in ids.iter().enumerate() {
        let next = ids[(place + 1) % ids.len()];
        assert!(technologies[*id]
            .successors()
            .iter()
            .any(|successor| successor.id() == next));
        assert!(!ids[place + 1..].contains(id));
    }
}

#[test]
fn test_diamond_has_no_cycle() {
    let tree = create_tree(vec![
        Input::test("a", vec![]),
        Input::test("b", vec!["a"]),
        Input::test("c", vec!["a"]),
        Input::test("d", vec!["b", "c", "b"]),
    ])
    .unwrap();

    assert_eq!(validate_tree(&tree), None);
}

#[test]
fn test_deep_chain() {
    let count = 50_000;
    let mut input = vec![Input::test("0", vec![])];
    for i in 1..count {
        input.push(Input::new(i.to_string(), vec![(i - 1).to_string()]));
    }
    let tree = create_tree(input).unwrap();

    assert_eq!(validate_tree(&tree), None);
}
