use subtake::nested::{copy_node, get_nested, key_path, set_nested, Node};

fn leaf(text: &str) -> Node {
    Node::Leaf(text.to_string())
}

fn object(members: Vec<(&str, Node)>) -> Node {
    Node::Object(members.into_iter().map(|(k, v)| (k.to_string(), v)).collect())
}

fn webcam() -> Node {
    object(vec![
        ("webcam", object(vec![("cropRegion", object(vec![("x", leaf("0.25"))])), ("size", leaf("30"))])),
        ("title", leaf("\"Intro\"")),
    ])
}

#[test]
fn a_dotted_key_splits_at_every_dot() {
    assert_eq!(key_path("webcam.cropRegion.x"), vec!["webcam", "cropRegion", "x"]);
    assert_eq!(key_path("a..b"), vec!["a", "", "b"]);
    assert_eq!(key_path("a."), vec!["a", ""]);
    assert_eq!(key_path("plain"), vec!["plain"]);
    assert_eq!(key_path(""), vec![""]);
}

#[test]
fn nested_reads_follow_members_and_give_null_past_them() {
    let v = webcam();
    assert_eq!(get_nested(&v, "webcam.cropRegion.x"), leaf("0.25"));
    assert_eq!(get_nested(&v, "webcam.size"), leaf("30"));
    assert_eq!(get_nested(&v, "webcam.cropRegion"), object(vec![("x", leaf("0.25"))]));
    assert_eq!(get_nested(&v, "webcam.missing"), leaf("null"));
    assert_eq!(get_nested(&v, "webcam.size.x"), leaf("null"));
    assert_eq!(get_nested(&v, "missing.x.y"), leaf("null"));
    assert_eq!(get_nested(&leaf("7"), "x"), leaf("null"));
    assert_eq!(copy_node(&v), v);
}

#[test]
fn nested_writes_make_objects_on_the_way() {
    let mut root = leaf("3");
    set_nested(&mut root, "a.b", leaf("1"));
    assert_eq!(root, object(vec![("a", object(vec![("b", leaf("1"))]))]));
    set_nested(&mut root, "a.c", leaf("2"));
    assert_eq!(root, object(vec![("a", object(vec![("b", leaf("1")), ("c", leaf("2"))]))]));
    set_nested(&mut root, "a.b.d", leaf("4"));
    assert_eq!(
        root,
        object(vec![("a", object(vec![("b", object(vec![("d", leaf("4"))])), ("c", leaf("2"))]))])
    );
    set_nested(&mut root, "a", leaf("5"));
    assert_eq!(root, object(vec![("a", leaf("5"))]));
}

#[test]
fn a_nested_write_reads_back_and_leaves_the_rest() {
    let mut v = webcam();
    set_nested(&mut v, "webcam.cropRegion.x", leaf("0.5"));
    assert_eq!(get_nested(&v, "webcam.cropRegion.x"), leaf("0.5"));
    assert_eq!(get_nested(&v, "webcam.size"), leaf("30"));
    assert_eq!(get_nested(&v, "title"), leaf("\"Intro\""));
    set_nested(&mut v, "title", leaf("\"Outro\""));
    assert_eq!(get_nested(&v, "title"), leaf("\"Outro\""));
    assert_eq!(get_nested(&v, "webcam.cropRegion.x"), leaf("0.5"));
}
