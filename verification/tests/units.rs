//! Unit tests for the value, text, blackboard and factory layers.

use behavior_tree::blackboard::Blackboards;
use behavior_tree::factory::ActionRegex;
use behavior_tree::node::{is_ref_key, strip_ref_tag};
use behavior_tree::value::{parse_usize, u16_to_string, BtValue};

#[test]
fn parse_usize_plain() {
    assert_eq!(parse_usize("42"), Some(42));
    assert_eq!(parse_usize("0"), Some(0));
    assert_eq!(parse_usize("7"), Some(7));
}

#[test]
fn parse_usize_leading_plus() {
    assert_eq!(parse_usize("+7"), Some(7));
}

#[test]
fn parse_usize_rejects_garbage() {
    assert_eq!(parse_usize(""), None);
    assert_eq!(parse_usize("abc"), None);
    assert_eq!(parse_usize("4x"), None);
    assert_eq!(parse_usize("-3"), None);
    assert_eq!(parse_usize("+"), None);
}

#[test]
fn parse_usize_rejects_overflow() {
    assert_eq!(parse_usize("99999999999999999999999999"), None);
}

#[test]
fn u16_rendering() {
    assert_eq!(u16_to_string(0), "0");
    assert_eq!(u16_to_string(42), "42");
    assert_eq!(u16_to_string(65535), "65535");
}

#[test]
fn ref_keys() {
    assert!(is_ref_key("{x}"));
    assert!(is_ref_key("{}"));
    assert!(!is_ref_key("x"));
    assert!(!is_ref_key("{"));
    assert!(!is_ref_key("{x"));
    assert!(!is_ref_key("x}"));
}

#[test]
fn strip_ref_tags() {
    assert_eq!(strip_ref_tag("{x}"), "x");
    assert_eq!(strip_ref_tag("a{b}c"), "abc");
    assert_eq!(strip_ref_tag("plain"), "plain");
    assert_eq!(strip_ref_tag("{}"), "");
}

#[test]
fn value_accessors() {
    assert_eq!(BtValue::Int(5).as_usize(), Some(5));
    assert_eq!(BtValue::Int(-1).as_usize(), None);
    assert_eq!(BtValue::Str(String::from("x")).as_usize(), None);
    assert_eq!(BtValue::Str(String::from("x")).as_string(), Some(String::from("x")));
    assert_eq!(BtValue::Null.as_string(), None);
}

#[test]
fn structured_values_round_trip() {
    let mut bb = Blackboards::new();
    let root = bb.new_root();
    let nested = BtValue::Obj(vec![
        (String::from("xs"), BtValue::Arr(vec![BtValue::Int(1), BtValue::Bool(true)])),
        (String::from("note"), BtValue::Str(String::from("n"))),
    ]);
    bb.set(root, String::from("cfg"), nested);
    match bb.get_entry(root, "cfg") {
        Some(BtValue::Obj(fields)) => {
            assert_eq!(fields.len(), 2);
            assert_eq!(fields[0].0, "xs");
            match &fields[0].1 {
                BtValue::Arr(items) => {
                    assert_eq!(items.len(), 2);
                    assert!(matches!(items[0], BtValue::Int(1)));
                    assert!(matches!(items[1], BtValue::Bool(true)));
                },
                _ => panic!("expected an array"),
            }
        },
        _ => panic!("expected an object"),
    }
    // structured values are not readable as strings or numbers
    assert!(BtValue::Arr(Vec::new()).as_string().is_none());
    assert!(BtValue::Obj(Vec::new()).as_usize().is_none());
}

#[test]
fn blackboard_local_set_get() {
    let mut bb = Blackboards::new();
    let root = bb.new_root();
    bb.set(root, String::from("k"), BtValue::Int(3));
    match bb.get_entry(root, "k") {
        Some(BtValue::Int(v)) => assert_eq!(v, 3),
        _ => panic!("missing entry"),
    }
    assert!(bb.get_entry(root, "absent").is_none());
    bb.set(root, String::from("k"), BtValue::Int(9));
    match bb.get_entry(root, "k") {
        Some(BtValue::Int(v)) => assert_eq!(v, 9),
        _ => panic!("missing entry"),
    }
}

#[test]
fn blackboard_parent_chain() {
    let mut bb = Blackboards::new();
    let parent = bb.new_root();
    let child = bb.new_with_parent(parent);
    bb.set(parent, String::from("k"), BtValue::Int(1));
    // the parent value is visible from the child under the same key
    match bb.get_entry(child, "k") {
        Some(BtValue::Int(v)) => assert_eq!(v, 1),
        _ => panic!("missing entry"),
    }
    // a child write shadows without touching the parent
    bb.set(child, String::from("k"), BtValue::Int(2));
    match bb.get_entry(child, "k") {
        Some(BtValue::Int(v)) => assert_eq!(v, 2),
        _ => panic!("missing entry"),
    }
    match bb.get_entry(parent, "k") {
        Some(BtValue::Int(v)) => assert_eq!(v, 1),
        _ => panic!("missing entry"),
    }
}

#[test]
fn blackboard_child_write_invisible_to_parent() {
    let mut bb = Blackboards::new();
    let parent = bb.new_root();
    let child = bb.new_with_parent(parent);
    bb.set(child, String::from("local"), BtValue::Int(7));
    assert!(bb.get_entry(parent, "local").is_none());
}

#[test]
fn blackboard_remapping() {
    let mut bb = Blackboards::new();
    let parent = bb.new_root();
    let child = bb.new_with_parent(parent);
    bb.set(parent, String::from("x"), BtValue::Int(42));
    bb.extend_parent_remappings(child, vec![(String::from("y"), String::from("x"))]);
    // the internal key routes to the parent's external key
    match bb.get_entry(child, "y") {
        Some(BtValue::Int(v)) => assert_eq!(v, 42),
        _ => panic!("missing entry"),
    }
    // a later remapping of the same internal key wins
    bb.set(parent, String::from("z"), BtValue::Int(1));
    bb.extend_parent_remappings(child, vec![(String::from("y"), String::from("z"))]);
    match bb.get_entry(child, "y") {
        Some(BtValue::Int(v)) => assert_eq!(v, 1),
        _ => panic!("missing entry"),
    }
}

#[test]
fn regex_patterns_compile_and_match() {
    let re = ActionRegex::try_new("^Print.*y$").unwrap();
    assert!(re.is_match("PrintBody"));
    assert!(!re.is_match("PrintArm"));
    assert!(ActionRegex::try_new("(unclosed").is_err());
}
