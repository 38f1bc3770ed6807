use ark_storage::document::{merge, Document};
use ark_storage::properties::apply_update;

fn s(text: &str) -> String {
    text.to_string()
}

fn num(text: &str) -> Document {
    Document::Number(s(text))
}

fn obj(entries: Vec<(&str, Document)>) -> Document {
    Document::Object(entries.into_iter().map(|(k, v)| (s(k), v)).collect())
}

fn sorted(doc: Document) -> Vec<(String, Document)> {
    match doc {
        Document::Object(mut v) => {
            v.sort_by(|a, b| a.0.cmp(&b.0));
            v
        }
        _ => panic!("not an object"),
    }
}

#[test]
fn first_update_is_stored_verbatim() {
    let d = apply_update(None, obj(vec![("a", num("1"))]));
    assert_eq!(d, obj(vec![("a", num("1"))]));
}

#[test]
fn disjoint_keys_are_united() {
    let first = apply_update(None, obj(vec![("a", num("1"))]));
    let second = apply_update(Some(first), obj(vec![("b", num("2"))]));
    assert_eq!(sorted(second), vec![(s("a"), num("1")), (s("b"), num("2"))]);
}

#[test]
fn new_leaf_value_wins() {
    let first = apply_update(None, obj(vec![("a", num("1"))]));
    let second = apply_update(Some(first), obj(vec![("a", num("2"))]));
    assert_eq!(second, obj(vec![("a", num("2"))]));
}

#[test]
fn nested_objects_merge_recursively() {
    let old = obj(vec![
        ("tags", obj(vec![("x", Document::Bool(true)), ("y", Document::Null)])),
        ("title", Document::Text(s("old"))),
    ]);
    let new = obj(vec![("tags", obj(vec![("y", num("3")), ("z", Document::Text(s("new")))]))]);
    let merged = merge(old, new);
    assert_eq!(merged.get(&s("title")), Some(&Document::Text(s("old"))));
    let tags = merged.get(&s("tags")).unwrap();
    assert_eq!(tags.get(&s("x")), Some(&Document::Bool(true)));
    assert_eq!(tags.get(&s("y")), Some(&num("3")));
    assert_eq!(tags.get(&s("z")), Some(&Document::Text(s("new"))));
}

#[test]
fn non_objects_are_replaced() {
    let merged = merge(Document::Array(vec![num("1")]), Document::Array(vec![num("2")]));
    assert_eq!(merged, Document::Array(vec![num("2")]));
    let merged = merge(obj(vec![("a", num("1"))]), Document::Text(s("t")));
    assert_eq!(merged, Document::Text(s("t")));
    let merged = merge(num("5"), obj(vec![("a", num("1"))]));
    assert_eq!(merged, obj(vec![("a", num("1"))]));
}
