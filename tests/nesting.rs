use traverse::dataset::FieldValue;
use traverse::nest::{Document, NodeShape};

fn num(i: i128) -> FieldValue {
    FieldValue::Int(i)
}

fn child(doc: &Document, p: usize, key: &str) -> usize {
    *doc.children(p).iter().find(|&&j| doc.nodes[j].key == key).unwrap()
}

#[test]
fn flat_paths_rebuild_the_nested_shape() {
    let flat = vec![
        ("a".to_string(), num(1)),
        ("b.c".to_string(), num(2)),
        ("b.d".to_string(), num(3)),
    ];
    let doc = Document::nest(&flat);
    assert_eq!(doc.children(0).len(), 2);
    let a = child(&doc, 0, "a");
    let b = child(&doc, 0, "b");
    assert!(matches!(doc.shape(a), NodeShape::Value(FieldValue::Int(1))));
    match doc.shape(b) {
        NodeShape::Object { own, children } => {
            assert!(own.is_none());
            assert_eq!(children.len(), 2);
        }
        NodeShape::Value(_) => panic!("b must be an object"),
    }
    assert!(matches!(doc.shape(child(&doc, b, "c")), NodeShape::Value(FieldValue::Int(2))));
    assert!(matches!(doc.shape(child(&doc, b, "d")), NodeShape::Value(FieldValue::Int(3))));
}

#[test]
fn value_beside_children_is_kept() {
    let flat = vec![
        ("user_id.name".to_string(), FieldValue::Text("Ann".to_string())),
        ("user_id".to_string(), num(1)),
    ];
    let doc = Document::nest(&flat);
    let u = child(&doc, 0, "user_id");
    match doc.shape(u) {
        NodeShape::Object { own, children } => {
            assert_eq!(own, Some(num(1)));
            assert_eq!(children.len(), 1);
        }
        NodeShape::Value(_) => panic!("user_id must keep its children"),
    }
}

#[test]
fn later_pair_wins() {
    let flat = vec![("x".to_string(), num(1)), ("x".to_string(), num(2))];
    let doc = Document::nest(&flat);
    assert_eq!(doc.children(0).len(), 1);
    assert!(matches!(doc.shape(child(&doc, 0, "x")), NodeShape::Value(FieldValue::Int(2))));
}

#[test]
fn empty_input_gives_empty_root() {
    let doc = Document::nest(&vec![]);
    assert_eq!(doc.nodes.len(), 1);
    assert!(matches!(doc.shape(0), NodeShape::Object { own: None, .. }));
}

#[test]
fn insert_path_creates_intermediate_objects() {
    let mut doc = Document::new();
    doc.insert_path(&vec!["p".to_string(), "q".to_string(), "r".to_string()], num(7));
    assert_eq!(doc.nodes.len(), 4);
    let p = child(&doc, 0, "p");
    let q = child(&doc, p, "q");
    assert!(matches!(doc.shape(child(&doc, q, "r")), NodeShape::Value(FieldValue::Int(7))));
}
