use mavgate::tree::Tree;

fn obj(entries: Vec<(&str, Tree)>) -> Tree {
    Tree::Object(entries.into_iter().map(|(k, v)| (k.to_owned(), v)).collect())
}

#[test]
fn deep_eq_distinguishes_values() {
    let a = obj(vec![("x", Tree::UInt(1)), ("y", Tree::Text("hi".to_owned()))]);
    let b = obj(vec![("x", Tree::UInt(1)), ("y", Tree::Text("hi".to_owned()))]);
    let c = obj(vec![("x", Tree::UInt(2)), ("y", Tree::Text("hi".to_owned()))]);
    assert!(a.deep_eq(&b));
    assert!(!a.deep_eq(&c));
    assert!(!a.deep_eq(&Tree::Null));
}

#[test]
fn deep_eq_compares_lists_elementwise() {
    let a = Tree::List(vec![Tree::Int(-1), Tree::Bool(true)]);
    let b = Tree::List(vec![Tree::Int(-1), Tree::Bool(true)]);
    let c = Tree::List(vec![Tree::Int(-1)]);
    assert!(a.deep_eq(&b));
    assert!(!a.deep_eq(&c));
}

#[test]
fn deep_copy_preserves_content() {
    let a = obj(vec![
        ("n", Tree::Float(1.5f64.to_bits())),
        ("l", Tree::List(vec![Tree::UInt(7)])),
    ]);
    let b = a.deep_copy();
    assert!(a.deep_eq(&b));
}

#[test]
fn obj_get_finds_first_entry() {
    let entries: Vec<(String, Tree)> = vec![
        ("a".to_owned(), Tree::UInt(1)),
        ("b".to_owned(), Tree::UInt(2)),
    ];
    match Tree::obj_get(&entries, "b") {
        Some(Tree::UInt(v)) => assert_eq!(*v, 2),
        _ => panic!("expected b"),
    }
    assert!(Tree::obj_get(&entries, "c").is_none());
}

#[test]
fn structured_round_trip_returns_original() {
    let fields: Vec<(String, Tree)> = vec![
        ("custom_mode".to_owned(), Tree::UInt(0)),
        ("autopilot".to_owned(), Tree::Text("MAV_AUTOPILOT_GENERIC".to_owned())),
    ];
    let tagged = mavgate::tree::to_structured("HEARTBEAT", fields);
    let (name, rest) = mavgate::tree::from_structured(tagged).expect("tagged object");
    assert_eq!(name, "HEARTBEAT");
    let expected = Tree::Object(vec![
        ("custom_mode".to_owned(), Tree::UInt(0)),
        ("autopilot".to_owned(), Tree::Text("MAV_AUTOPILOT_GENERIC".to_owned())),
    ]);
    assert!(rest.deep_eq(&expected));
}

#[test]
fn from_structured_rejects_untagged_values() {
    assert!(mavgate::tree::from_structured(Tree::Null).is_none());
    let untagged = Tree::Object(vec![("x".to_owned(), Tree::UInt(1))]);
    assert!(mavgate::tree::from_structured(untagged).is_none());
    let bad_tag = Tree::Object(vec![("type".to_owned(), Tree::UInt(1))]);
    assert!(mavgate::tree::from_structured(bad_tag).is_none());
}

#[test]
fn message_type_of_reads_the_tag() {
    let tagged = Tree::Object(vec![("type".to_owned(), Tree::Text("HEARTBEAT".to_owned()))]);
    assert_eq!(mavgate::tree::message_type_of(&tagged).unwrap(), "HEARTBEAT");
    assert!(mavgate::tree::message_type_of(&Tree::Null).is_none());
}
