use kanon::json::{JsonNumber, JsonValue};
use kanon::order::{apply_order, stable_order};
use kanon::text::{join_path, push_padded, split_char, split_lines, split_words_str, trimmed};

#[test]
fn stable_order_sorts_by_key_and_keeps_ties_in_input_order() {
    let keys = vec![(5, "b".to_string()), (1, "z".to_string()), (5, "a".to_string()), (1, "z".to_string())];
    let order = stable_order(&keys);
    assert_eq!(order, vec![1, 3, 2, 0]);
    assert_eq!(apply_order(vec!['w', 'x', 'y', 'z'], &order), vec!['x', 'z', 'y', 'w']);
}

#[test]
fn json_members_are_looked_up_by_key() {
    let v = JsonValue::Object(vec![
        ("id".to_string(), JsonValue::Number(JsonNumber::PosInt(3))),
        ("name".to_string(), JsonValue::String("kanon".to_string())),
        ("id".to_string(), JsonValue::Null),
    ]);
    assert_eq!(v.get("id").and_then(|x| x.as_u64()), Some(3));
    assert_eq!(v.get("name").and_then(|x| x.as_str()), Some("kanon"));
    assert!(v.get("missing").is_none());
    assert!(v.is_object());
    assert!(!JsonValue::Null.is_object());
    assert!(JsonValue::String("x".to_string()).is_string("x"));
    assert_eq!(JsonValue::Number(JsonNumber::NegInt(-1)).as_u64(), None);
}

#[test]
fn paths_and_lines_are_split_like_std() {
    assert_eq!(join_path("/srv", "a.txt"), "/srv/a.txt");
    assert_eq!(join_path("/srv/", "a.txt"), "/srv/a.txt");
    assert_eq!(join_path("/srv", "/abs"), "/abs");
    assert_eq!(split_lines("a\r\nb\n\nc\n"), vec!["a".to_string(), "b".to_string(), String::new(), "c".to_string()]);
    assert_eq!(split_char("a//b", '/'), vec!["a".to_string(), String::new(), "b".to_string()]);
    assert_eq!(split_words_str("  one \t two  "), vec!["one".to_string(), "two".to_string()]);
    assert_eq!(trimmed("\t x y \n"), "x y");
}

#[test]
fn numbers_are_rendered_with_zero_padding() {
    let mut s = String::new();
    push_padded(&mut s, 7, 3);
    s.push(' ');
    push_padded(&mut s, 1234, 2);
    assert_eq!(s, "007 1234");
}
