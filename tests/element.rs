use versioned_map::Element;

#[test]
fn test_elem() {
    let element = Element::new();
    assert_eq!(element.get("key".to_string()), None);
}

#[test]
fn test_insert_elem() {
    let mut element = Element::new();
    element.insert("key".to_string(), "value".to_string());
    assert_eq!(element.get("key".to_string()), Some(&"value".to_string()));
}

#[test]
fn test_remove_elem() {
    let mut element = Element::new();
    element.insert("key1".to_string(), "value1".to_string());
    assert_eq!(element.get("key1".to_string()), Some(&"value1".to_string()));
    element.insert("key2".to_string(), "value2".to_string());
    assert_eq!(element.get("key2".to_string()), Some(&"value2".to_string()));
    element.insert("key3".to_string(), "value3".to_string());
    assert_eq!(element.get("key3".to_string()), Some(&"value3".to_string()));
    assert_eq!(element.len(), 3);
    element.remove("key1".to_string());
    assert_eq!(element.get("key1".to_string()), None);
}

#[test]
fn test_checkpoint() {
    let mut element = Element::new();
    element.insert("key".to_string(), "value".to_string());
    assert_eq!(element.get("key".to_string()), Some(&"value".to_string()));
    element.checkpoint();
    assert_eq!(element.get("key".to_string()), Some(&"value".to_string()));
}

#[test]
fn test_roolback() {
    let mut element = Element::new();
    element.insert("key".to_string(), "value".to_string());
    assert_eq!(element.get("key".to_string()), Some(&"value".to_string()));
    element.checkpoint();
    element.insert("key1".to_string(), "value1".to_string());
    assert_eq!(element.get("key".to_string()), Some(&"value".to_string()));
    assert_eq!(element.get("key1".to_string()), Some(&"value1".to_string()));
    element.checkpoint();
    element.rollback(1);
    assert_eq!(element.get("key1".to_string()), None);
}

#[test]
fn test_prune() {
    let mut element = Element::new();
    element.insert("key".to_string(), "value".to_string());
    assert_eq!(element.get("key".to_string()), Some(&"value".to_string()));
    element.checkpoint();
    element.insert("key1".to_string(), "value1".to_string());
    assert_eq!(element.get("key".to_string()), Some(&"value".to_string()));
    assert_eq!(element.get("key1".to_string()), Some(&"value1".to_string()));
    element.checkpoint();
    element.rollback(1);
    assert_eq!(element.get("key1".to_string()), None);
    assert_eq!(element.vec_len(), 2);
    element.prune();
    assert_eq!(element.vec_len(), 1);
}
