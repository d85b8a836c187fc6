use virtual_node::{AttributeValue, Attributes};

fn s(v: &str) -> AttributeValue {
    AttributeValue::String(v.to_string())
}

#[test]
fn insert_get() {
    let mut a = Attributes::new();
    assert_eq!(a.insert("class".into(), s("row")), None);
    assert_eq!(a.get("class"), Some(&s("row")));
    assert_eq!(a.get("missing"), None);
    assert_eq!(a.len(), 1);
}

#[test]
fn insert_replaces_existing_key() {
    let mut a = Attributes::new();
    a.insert("class".into(), s("row"));
    // Replacing returns the previous value and does not grow the collection.
    assert_eq!(a.insert("class".into(), s("row active")), Some(s("row")));
    assert_eq!(a.get("class"), Some(&s("row active")));
    assert_eq!(a.len(), 1);
}

#[test]
fn equality_is_order_insensitive() {
    let mut a = Attributes::new();
    a.insert("class".into(), s("row"));
    a.insert("id".into(), s("1"));

    let mut b = Attributes::new();
    b.insert("id".into(), s("1"));
    b.insert("class".into(), s("row"));

    assert_eq!(a, b);
}

#[test]
fn inequality_on_value_and_length() {
    let mut a = Attributes::new();
    a.insert("class".into(), s("row"));

    let mut different_value = Attributes::new();
    different_value.insert("class".into(), s("col"));
    assert_ne!(a, different_value);

    let mut extra_key = Attributes::new();
    extra_key.insert("class".into(), s("row"));
    extra_key.insert("id".into(), s("1"));
    assert_ne!(a, extra_key);
}

#[test]
fn new_and_default_are_empty() {
    let a = Attributes::new();
    assert!(a.is_empty());
    assert_eq!(a.len(), 0);
    let d = Attributes::default();
    assert!(d.is_empty());
    assert_eq!(a, d);
}

#[test]
fn not_empty_after_insert() {
    let mut a = Attributes::new();
    a.insert("disabled".into(), AttributeValue::Bool(true));
    assert!(!a.is_empty());
    assert_eq!(a.get("disabled"), Some(&AttributeValue::Bool(true)));
}

#[test]
fn get_after_insert_keeps_other_names() {
    let mut a = Attributes::new();
    a.insert("class".into(), s("row"));
    a.insert("id".into(), s("7"));
    a.insert("class".into(), s("col"));
    assert_eq!(a.get("class"), Some(&s("col")));
    assert_eq!(a.get("id"), Some(&s("7")));
    assert_eq!(a.len(), 2);
}

#[test]
fn iter_gives_pairs_in_insertion_order() {
    let mut a = Attributes::new();
    a.insert("id".into(), s("1"));
    a.insert("class".into(), s("row"));
    a.insert("hidden".into(), AttributeValue::Bool(false));
    a.insert("id".into(), s("2"));
    let pairs = a.iter();
    assert_eq!(pairs.len(), 3);
    assert_eq!(pairs[0].0, "id");
    assert_eq!(pairs[0].1, s("2"));
    assert_eq!(pairs[1].0, "class");
    assert_eq!(pairs[1].1, s("row"));
    assert_eq!(pairs[2].0, "hidden");
    assert_eq!(pairs[2].1, AttributeValue::Bool(false));
}

#[test]
fn clone_is_equal() {
    let mut a = Attributes::new();
    a.insert("class".into(), s("row"));
    a.insert("checked".into(), AttributeValue::Bool(true));
    let b = a.clone();
    assert_eq!(a, b);
    assert_eq!(b.get("checked"), Some(&AttributeValue::Bool(true)));
    assert_eq!(b.iter()[0].0, "class");
}

#[test]
fn equality_sees_bool_against_string() {
    let mut a = Attributes::new();
    a.insert("x".into(), AttributeValue::Bool(true));
    let mut b = Attributes::new();
    b.insert("x".into(), s("true"));
    assert_ne!(a, b);
    let mut c = Attributes::new();
    c.insert("y".into(), AttributeValue::Bool(true));
    assert_ne!(a, c);
}

#[test]
fn attribute_value_equality() {
    assert_eq!(s("a"), s("a"));
    assert_ne!(s("a"), s("b"));
    assert_eq!(AttributeValue::Bool(false), AttributeValue::Bool(false));
    assert_ne!(AttributeValue::Bool(false), AttributeValue::Bool(true));
    assert_ne!(s(""), AttributeValue::Bool(false));
}

#[test]
fn dom_value_of_each_kind() {
    assert_eq!(s("row").dom_value(), Some("row"));
    assert_eq!(AttributeValue::Bool(true).dom_value(), Some(""));
    assert_eq!(AttributeValue::Bool(false).dom_value(), None);
}

#[test]
fn equality_ignores_order_of_many_inserts() {
    let pairs = [("a", "1"), ("b", "2"), ("c", "3"), ("d", "4")];
    let orders: [[usize; 4]; 4] = [[0, 1, 2, 3], [3, 2, 1, 0], [2, 0, 3, 1], [1, 3, 0, 2]];
    let build = |order: &[usize; 4]| {
        let mut a = Attributes::new();
        for &i in order.iter() {
            a.insert(pairs[i].0.to_string(), s(pairs[i].1));
        }
        a
    };
    let first = build(&orders[0]);
    for order in orders.iter() {
        let other = build(order);
        assert_eq!(first, other);
        assert_eq!(other, first);
        assert_eq!(other, other.clone());
    }
}
