use virtual_node::special_attributes::SpecialAttributes;

type Attrs = SpecialAttributes<u32, &'static str>;

#[test]
fn new_is_empty() {
    let a = Attrs::new();
    assert!(a.is_empty());
    assert_eq!(a.on_create_element_key(), None);
    assert_eq!(a.on_remove_element_key(), None);
    assert_eq!(a.element_effect_key(), None);
    assert!(a.on_create_element_hook().is_none());
    let d = Attrs::default();
    assert!(d.is_empty());
}

#[test]
fn set_on_create_element_records_key_and_hook() {
    let mut a = Attrs::new();
    a.set_on_create_element("some-key".to_string(), 7);
    assert!(!a.is_empty());
    assert_eq!(a.on_create_element_key().map(|k| k.as_str()), Some("some-key"));
    assert_eq!(a.on_create_element_hook(), Some(&7));
    assert_eq!(a.on_remove_element_key(), None);
    assert!(a.on_remove_element_hook().is_none());
}

#[test]
fn set_on_remove_element_records_key_and_hook() {
    let mut a = Attrs::new();
    a.set_on_remove_element("rm".to_string(), 3);
    assert!(!a.is_empty());
    assert_eq!(a.on_remove_element_key().map(|k| k.as_str()), Some("rm"));
    assert_eq!(a.on_remove_element_hook(), Some(&3));
    assert_eq!(a.on_create_element_key(), None);
}

#[test]
fn set_element_effect_records_key_and_effect() {
    let mut a = Attrs::new();
    a.set_element_effect("deps-1".to_string(), "observer");
    assert!(!a.is_empty());
    assert_eq!(a.element_effect_key().map(|k| k.as_str()), Some("deps-1"));
    assert_eq!(a.element_effect_hook(), Some(&"observer"));
}

#[test]
fn inner_html_makes_it_non_empty() {
    let mut a = Attrs::new();
    a.dangerous_inner_html = Some("<b>hi</b>".to_string());
    assert!(!a.is_empty());
}

#[test]
fn equality_compares_keys_not_hooks() {
    let mut a = Attrs::new();
    a.set_on_create_element("k".to_string(), 1);
    let mut b = Attrs::new();
    b.set_on_create_element("k".to_string(), 2);
    assert!(a == b);

    let mut c = Attrs::new();
    c.set_on_create_element("other".to_string(), 1);
    assert!(a != c);

    let mut d = Attrs::new();
    d.set_on_create_element("k".to_string(), 1);
    d.set_element_effect("e".to_string(), "x");
    assert!(a != d);

    let mut e = Attrs::new();
    e.set_on_create_element("k".to_string(), 1);
    e.dangerous_inner_html = Some("x".to_string());
    assert!(a != e);
}

#[test]
fn setting_again_replaces_key() {
    let mut a = Attrs::new();
    a.set_on_remove_element("first".to_string(), 1);
    a.set_on_remove_element("second".to_string(), 2);
    assert_eq!(a.on_remove_element_key().map(|k| k.as_str()), Some("second"));
    assert_eq!(a.on_remove_element_hook(), Some(&2));
}

#[test]
fn inner_html_setter_and_getter() {
    let mut a = Attrs::new();
    assert_eq!(a.dangerous_inner_html(), None);
    a.set_dangerous_inner_html(Some(String::new()));
    assert_eq!(a.dangerous_inner_html().map(|h| h.as_str()), Some(""));
    assert!(!a.is_empty());
    a.set_on_create_element("k".to_string(), 1);
    a.set_dangerous_inner_html(None);
    assert_eq!(a.dangerous_inner_html(), None);
    assert_eq!(a.on_create_element_hook(), Some(&1));
    assert!(!a.is_empty());
}
