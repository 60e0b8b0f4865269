use tech_tree::model::error::AddError;
use tech_tree::model::technology::name::TechnologyName;
use tech_tree::model::technology::tree::TechnologyTree;
use tech_tree::model::technology::{Input, Technology, TechnologyId};

#[test]
fn test_technology() {
    let technology = Technology::simple2(2, "Tech", vec![0, 1], vec![3, 4]);

    assert_eq!(technology.name().get_full(), "Tech");
    assert_eq!(technology.id(), &TechnologyId::new(2));
    assert_eq!(
        technology.predecessors(),
        &vec![TechnologyId::new(0), TechnologyId::new(1)]
    );
    assert_eq!(
        technology.successors(),
        &vec![TechnologyId::new(3), TechnologyId::new(4)]
    );
}

#[test]
fn test_get_predecessor_index() {
    let technology = Technology::simple2(0, "Tech", vec![2, 3], vec![1]);

    assert_predecessor_index(&technology, 0, None);
    assert_predecessor_index(&technology, 1, None);
    assert_predecessor_index(&technology, 2, Some(0));
    assert_predecessor_index(&technology, 3, Some(1));
    assert_predecessor_index(&technology, 4, None);
}

fn assert_predecessor_index(technology: &Technology, id: usize, result: Option<usize>) {
    assert_eq!(
        technology.get_predecessor_index(TechnologyId::new(id)),
        result
    );
}

#[test]
fn test_input() {
    let input = Input::test("A", vec!["B", "C"]);

    assert_eq!(input.name(), "A");
    assert_eq!(input.predecessors(), &vec!["B", "C"]);
}

#[test]
fn test_new_with_simple() {
    assert_eq!(
        TechnologyName::new("  Test  "),
        Ok(TechnologyName::Simple("Test".to_string()))
    );
}

#[test]
fn test_new_with_ranked() {
    assert_eq!(
        TechnologyName::new("  Very  Advanced   Tech 4  "),
        Ok(TechnologyName::Ranked {
            base: "Very Advanced Tech".to_string(),
            rank: 4,
            full: "Very Advanced Tech 4".to_string()
        })
    );
}

#[test]
fn test_new_with_empty_string() {
    let string = "   ";
    assert_eq!(
        TechnologyName::new(string).unwrap_err(),
        AddError::InvalidName(string.to_string())
    );
}

#[test]
fn test_get_full_simple() {
    assert_eq!(TechnologyName::new("  UVW   ").unwrap().get_full(), "UVW");
}

#[test]
fn test_get_full_ranked() {
    assert_eq!(
        TechnologyName::new("  ABC   2 ").unwrap().get_full(),
        "ABC 2"
    );
}

#[test]
fn test_get() {
    let tree = TechnologyTree::new(vec![
        Technology::simple(0),
        Technology::simple(1),
        Technology::simple(2),
    ]);

    assert_eq!(tree.get(TechnologyId::new(0)), Some(&Technology::simple(0)));
    assert_eq!(tree.get(TechnologyId::new(1)), Some(&Technology::simple(1)));
    assert_eq!(tree.get(TechnologyId::new(2)), Some(&Technology::simple(2)));
    assert_eq!(tree.get(TechnologyId::new(3)), None);
}

#[test]
fn test_id_keeps_its_number() {
    assert_eq!(TechnologyId::new(0).id(), 0);
    assert_eq!(TechnologyId::new(17).id(), 17);
    assert_eq!(TechnologyId::new(usize::MAX).id(), usize::MAX);
}

#[test]
fn test_simple_is_named_by_its_number() {
    assert_eq!(Technology::simple(0).name().get_full(), "Tech 0");
    assert_eq!(Technology::simple(7).name().get_full(), "Tech 7");
    assert_eq!(Technology::simple(10).name().get_full(), "Tech 10");
    assert_eq!(Technology::simple(1234567890).name().get_full(), "Tech 1234567890");
    assert_eq!(
        Technology::simple(3).name(),
        &TechnologyName::Simple("Tech 3".to_string())
    );
    assert!(Technology::simple(3).predecessors().is_empty());
    assert!(Technology::simple(3).successors().is_empty());
}

#[test]
fn test_technology_new_keeps_its_parts() {
    let technology = Technology::new(
        TechnologyId::new(5),
        TechnologyName::new("Wheel 2").unwrap(),
        vec![TechnologyId::new(1)],
        vec![TechnologyId::new(8), TechnologyId::new(9)],
    );

    assert_eq!(technology.id().id(), 5);
    assert_eq!(technology.name().get_full(), "Wheel 2");
    assert_eq!(technology.predecessors(), &vec![TechnologyId::new(1)]);
    assert_eq!(
        technology.successors(),
        &vec![TechnologyId::new(8), TechnologyId::new(9)]
    );
}

#[test]
fn test_predecessor_index_is_the_first_place() {
    let technology = Technology::simple2(0, "Tech", vec![4, 2, 4, 2], vec![]);

    assert_predecessor_index(&technology, 4, Some(0));
    assert_predecessor_index(&technology, 2, Some(1));
}

#[test]
fn test_input_new_keeps_its_parts() {
    let input = Input::new("A".to_string(), vec!["B".to_string()]);

    assert_eq!(input.name(), "A");
    assert_eq!(input.predecessors(), &vec!["B".to_string()]);
    assert_eq!(input, Input::test("A", vec!["B"]));
}

#[test]
fn test_name_keeps_inner_whitespace_of_plain_text() {
    assert_eq!(
        TechnologyName::new("  Very  Advanced Tech "),
        Ok(TechnologyName::Simple("Very  Advanced Tech".to_string()))
    );
}

#[test]
fn test_name_rank_forms() {
    assert_eq!(
        TechnologyName::new("Tech +4"),
        Ok(TechnologyName::Ranked {
            base: "Tech".to_string(),
            rank: 4,
            full: "Tech 4".to_string()
        })
    );
    assert_eq!(
        TechnologyName::new("Tech 007"),
        Ok(TechnologyName::Ranked {
            base: "Tech".to_string(),
            rank: 7,
            full: "Tech 7".to_string()
        })
    );
    assert_eq!(
        TechnologyName::new("Tech 0"),
        Ok(TechnologyName::Ranked {
            base: "Tech".to_string(),
            rank: 0,
            full: "Tech 0".to_string()
        })
    );
    assert_eq!(
        TechnologyName::new("Tech 255"),
        Ok(TechnologyName::Ranked {
            base: "Tech".to_string(),
            rank: 255,
            full: "Tech 255".to_string()
        })
    );
}

#[test]
fn test_name_without_rank() {
    assert_eq!(
        TechnologyName::new("Tech 256"),
        Ok(TechnologyName::Simple("Tech 256".to_string()))
    );
    assert_eq!(
        TechnologyName::new("Tech -1"),
        Ok(TechnologyName::Simple("Tech -1".to_string()))
    );
    assert_eq!(
        TechnologyName::new("Tech +"),
        Ok(TechnologyName::Simple("Tech +".to_string()))
    );
    assert_eq!(
        TechnologyName::new("Tech 1a"),
        Ok(TechnologyName::Simple("Tech 1a".to_string()))
    );
    assert_eq!(
        TechnologyName::new("Tech ٣"),
        Ok(TechnologyName::Simple("Tech ٣".to_string()))
    );
    assert_eq!(
        TechnologyName::new(" 42 "),
        Ok(TechnologyName::Simple("42".to_string()))
    );
}

#[test]
fn test_name_whitespace_kinds() {
    assert_eq!(
        TechnologyName::new("\t\nIron\u{3000}Age\u{a0}3\r\n"),
        Ok(TechnologyName::Ranked {
            base: "Iron Age".to_string(),
            rank: 3,
            full: "Iron Age 3".to_string()
        })
    );
    assert_eq!(
        TechnologyName::new("\u{2003}Bronze\u{200b}\u{2028}"),
        Ok(TechnologyName::Simple("Bronze\u{200b}".to_string()))
    );
    assert_eq!(
        TechnologyName::new("\u{85}\u{1680}\u{202f}\u{205f}"),
        Err(AddError::InvalidName("\u{85}\u{1680}\u{202f}\u{205f}".to_string()))
    );
    assert_eq!(
        TechnologyName::new(""),
        Err(AddError::InvalidName(String::new()))
    );
}

#[test]
fn test_name_agrees_with_the_standard_library() {
    for raw in ["  a  b 12 ", "x\u{b}y 1", "word", " + ", "r\u{2000}+0012", "t 999"] {
        let parts: Vec<&str> = raw.split_whitespace().collect();
        let expected = match parts.split_last() {
            Some((last, rest)) if !rest.is_empty() && last.parse::<u8>().is_ok() => {
                let base = rest.join(" ");
                let rank = last.parse::<u8>().unwrap();
                TechnologyName::Ranked {
                    full: format!("{} {}", base, rank),
                    base,
                    rank,
                }
            }
            _ => TechnologyName::Simple(raw.trim().to_string()),
        };
        assert_eq!(TechnologyName::new(raw), Ok(expected));
    }
}

#[test]
fn test_full_name_is_never_empty() {
    for raw in ["a", " a 1 ", "+1", "a  b", "0 0"] {
        assert!(!TechnologyName::new(raw).unwrap().get_full().is_empty());
    }
}

#[test]
fn test_name_agrees_on_many_texts() {
    let alphabet = [
        ' ', ' ', '\t', '\n', '\u{a0}', '\u{3000}', '\u{200b}', '+', '-', '0', '0', '1', '2', '5',
        '6', '9', 'a', 'Z', 'é', '٣',
    ];
    let mut state: u64 = 0x2545_f491_4f6c_dd1d;
    for _ in 0..20_000 {
        let mut raw = String::new();
        state = state.wrapping_mul(6364136223846793005).wrapping_add(1442695040888963407);
        let length = (state >> 33) % 9;
        for _ in 0..length {
            state = state.wrapping_mul(6364136223846793005).wrapping_add(1442695040888963407);
            raw.push(alphabet[((state >> 33) % alphabet.len() as u64) as usize]);
        }
        let parts: Vec<&str> = raw.split_whitespace().collect();
        let expected = match parts.split_last() {
            None => Err(AddError::InvalidName(raw.clone())),
            Some((last, rest)) if !rest.is_empty() && last.parse::<u8>().is_ok() => {
                let base = rest.join(" ");
                let rank = last.parse::<u8>().unwrap();
                Ok(TechnologyName::Ranked {
                    full: format!("{} {}", base, rank),
                    base,
                    rank,
                })
            }
            Some(_) => Ok(TechnologyName::Simple(raw.trim().to_string())),
        };
        assert_eq!(TechnologyName::new(&raw), expected);
    }
}
