use tech_tree::model::error::AddError;
use tech_tree::model::technology::tree::TechnologyTree;
use tech_tree::model::technology::{Input, Technology, TechnologyId};
use tech_tree::usecase::creation::create_tree;

#[test]
fn test_create_tree() {
    let input = vec![
        Input::new("t0".to_string(), vec![]),
        Input::new("t1".to_string(), vec![]),
        Input::new("t2".to_string(), vec!["t0".to_string(), "t1".to_string()]),
        Input::new("t3".to_string(), vec!["t2".to_string()]),
        Input::new("t4".to_string(), vec!["t2".to_string()]),
    ];

    assert_eq!(
        create_tree(input),
        Ok(TechnologyTree::new(vec![
            Technology::simple2(0, "t0", vec![], vec![2]),
            Technology::simple2(1, "t1", vec![], vec![2]),
            Technology::simple2(2, "t2", vec![0, 1], vec![3, 4]),
            Technology::simple2(3, "t3", vec![2], vec![]),
            Technology::simple2(4, "t4", vec![2], vec![]),
        ]))
    );
}

#[test]
fn test_wrong_order() {
    let input = vec![
        Input::new("t0".to_string(), vec!["t1".to_string()]),
        Input::new("t1".to_string(), vec![]),
    ];

    assert_eq!(
        create_tree(input),
        Ok(TechnologyTree::new(vec![
            Technology::simple2(0, "t0", vec![1], vec![]),
            Technology::simple2(1, "t1", vec![], vec![0]),
        ]))
    );
}

#[test]
fn test_invalid_name() {
    let name = "   ";
    let input = vec![Input::new(name.to_string(), vec![])];

    assert_eq!(
        create_tree(input),
        Err(AddError::InvalidName(name.to_string()))
    );
}

#[test]
fn test_duplicate_name() {
    let name = "duplicate";
    let input = vec![
        Input::new(name.to_string(), vec![]),
        Input::new(name.to_string(), vec![]),
    ];

    assert_eq!(
        create_tree(input),
        Err(AddError::NameExists(name.to_string()))
    );
}

#[test]
fn test_unknown_predecessor() {
    let predecessor = "unknown";
    let input = vec![Input::new(
        "name".to_string(),
        vec![predecessor.to_string()],
    )];

    assert_eq!(
        create_tree(input),
        Err(AddError::UnknownPredecessor(predecessor.to_string()))
    );
}

#[test]
fn test_two_inputs_of_one_name() {
    assert_eq!(
        create_tree(vec![Input::test("dup", vec![]), Input::test("dup", vec![])]),
        Err(AddError::NameExists("dup".to_string()))
    );
}

#[test]
fn test_predecessor_without_input() {
    assert_eq!(
        create_tree(vec![Input::test("x", vec!["missing"])]),
        Err(AddError::UnknownPredecessor("missing".to_string()))
    );
}

#[test]
fn test_empty_input_gives_empty_tree() {
    assert_eq!(create_tree(vec![]), Ok(TechnologyTree::new(vec![])));
}

#[test]
fn test_identifier_is_the_position() {
    let tree = create_tree(vec![
        Input::test("c", vec!["a"]),
        Input::test("a", vec![]),
        Input::test("b", vec!["a", "c"]),
    ])
    .unwrap();

    for (index, technology) in tree.technologies().iter().enumerate() {
        assert_eq!(technology.id().id(), index);
        assert_eq!(tree.get(TechnologyId::new(index)), Some(technology));
    }
}

#[test]
fn test_successors_invert_predecessors() {
    let tree = create_tree(vec![
        Input::test("a", vec!["d"]),
        Input::test("b", vec!["a", "c"]),
        Input::test("c", vec!["a"]),
        Input::test("d", vec!["b", "c", "a"]),
    ])
    .unwrap();

    let technologies = tree.technologies();
    for a in technologies.iter() {
        for b in technologies.iter() {
            assert_eq!(
                b.predecessors().contains(a.id()),
                a.successors().contains(b.id())
            );
        }
    }
    assert_eq!(
        technologies[0].successors(),
        &vec![TechnologyId::new(1), TechnologyId::new(2), TechnologyId::new(3)]
    );
}

#[test]
fn test_repeated_predecessor_is_kept() {
    let tree = create_tree(vec![
        Input::test("a", vec![]),
        Input::test("b", vec!["a", "a"]),
        Input::test("c", vec!["a"]),
    ])
    .unwrap();

    assert_eq!(
        tree,
        TechnologyTree::new(vec![
            Technology::simple2(0, "a", vec![], vec![1, 1, 2]),
            Technology::simple2(1, "b", vec![0, 0], vec![]),
            Technology::simple2(2, "c", vec![0], vec![]),
        ])
    );
}

#[test]
fn test_cycle_is_built() {
    let tree = create_tree(vec![Input::test("a", vec!["b"]), Input::test("b", vec!["a"])]);

    assert_eq!(
        tree,
        Ok(TechnologyTree::new(vec![
            Technology::simple2(0, "a", vec![1], vec![1]),
            Technology::simple2(1, "b", vec![0], vec![0]),
        ]))
    );
}

#[test]
fn test_repeated_name_is_reported_first() {
    let input = vec![
        Input::test("   ", vec![]),
        Input::test("x", vec!["missing"]),
        Input::test("y", vec![]),
        Input::test("x", vec![]),
        Input::test("y", vec![]),
    ];

    assert_eq!(create_tree(input), Err(AddError::NameExists("x".to_string())));
}

#[test]
fn test_first_faulty_input_decides() {
    assert_eq!(
        create_tree(vec![
            Input::test("  ", vec![]),
            Input::test("x", vec!["missing"]),
        ]),
        Err(AddError::InvalidName("  ".to_string()))
    );
    assert_eq!(
        create_tree(vec![
            Input::test("x", vec!["x", "first", "second"]),
            Input::test("  ", vec![]),
        ]),
        Err(AddError::UnknownPredecessor("first".to_string()))
    );
    assert_eq!(
        create_tree(vec![Input::test(" ", vec!["missing"])]),
        Err(AddError::InvalidName(" ".to_string()))
    );
}

#[test]
fn test_predecessors_are_found_by_raw_name() {
    let tree = create_tree(vec![
        Input::test(" a ", vec![]),
        Input::test("b", vec![" a "]),
    ])
    .unwrap();

    assert_eq!(tree.technologies()[0].name().get_full(), "a");
    assert_eq!(tree.technologies()[1].predecessors(), &vec![TechnologyId::new(0)]);
    assert_eq!(
        create_tree(vec![Input::test(" a ", vec![]), Input::test("b", vec!["a"])]),
        Err(AddError::UnknownPredecessor("a".to_string()))
    );
}

#[test]
fn test_names_are_parsed() {
    let tree = create_tree(vec![Input::test(" Iron   Age 2 ", vec![])]).unwrap();

    assert_eq!(tree.technologies()[0].name().get_full(), "Iron Age 2");
}
