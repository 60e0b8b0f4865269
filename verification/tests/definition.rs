use tech_tree::definition::technology::tree::TechnologyTreeDefinition;
use tech_tree::definition::technology::TechnologyDefinition;
use tech_tree::model::error::AddError;
use tech_tree::model::technology::tree::TechnologyTree;
use tech_tree::model::technology::{Input, Technology};

#[test]
fn test_converting() {
    let definition = TechnologyTreeDefinition::new(vec![
        TechnologyDefinition::new("t0".to_string(), vec![]),
        TechnologyDefinition::new("t1".to_string(), vec!["t0".to_string()]),
        TechnologyDefinition::new("t2".to_string(), vec!["t0".to_string(), "t1".to_string()]),
    ]);

    assert_eq!(
        TechnologyTreeDefinition::from_model(&definition.clone().to_model().unwrap()),
        definition
    )
}

#[test]
fn test_definition_to_input() {
    let definition = TechnologyDefinition::new("a".to_string(), vec!["b".to_string()]);

    assert_eq!(definition.to_model(), Input::test("a", vec!["b"]));
}

#[test]
fn test_definition_of_unknown_predecessor() {
    let technology = Technology::simple2(0, "a", vec![1, 0], vec![]);
    let tree = TechnologyTree::new(vec![technology.clone()]);

    assert_eq!(
        TechnologyDefinition::from_model(&technology, &tree),
        TechnologyDefinition::new("a".to_string(), vec!["UNKNOWN".to_string(), "a".to_string()])
    );
}

#[test]
fn test_definition_errors() {
    let definition = TechnologyTreeDefinition::new(vec![TechnologyDefinition::new(
        "a".to_string(),
        vec!["b".to_string()],
    )]);

    assert_eq!(
        definition.to_model(),
        Err(AddError::UnknownPredecessor("b".to_string()))
    );
}

#[test]
fn test_round_trip_without_predecessors() {
    let definition = TechnologyTreeDefinition::new(vec![
        TechnologyDefinition::new("Stone Age".to_string(), vec![]),
        TechnologyDefinition::new("Iron Age 2".to_string(), vec![]),
        TechnologyDefinition::new("b".to_string(), vec![]),
    ]);

    assert_eq!(
        TechnologyTreeDefinition::from_model(&definition.clone().to_model().unwrap()),
        definition
    );
}

#[test]
fn test_round_trip_settles_the_names() {
    let definition = TechnologyTreeDefinition::new(vec![
        TechnologyDefinition::new(" a  1".to_string(), vec![]),
        TechnologyDefinition::new("b".to_string(), vec![" a  1".to_string()]),
    ]);
    let settled = TechnologyTreeDefinition::new(vec![
        TechnologyDefinition::new("a 1".to_string(), vec![]),
        TechnologyDefinition::new("b".to_string(), vec!["a 1".to_string()]),
    ]);

    let written = TechnologyTreeDefinition::from_model(&definition.to_model().unwrap());
    assert_eq!(written, settled);
    assert_eq!(
        TechnologyTreeDefinition::from_model(&written.clone().to_model().unwrap()),
        written
    );
}
