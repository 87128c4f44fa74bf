use smart_home::Provider;

#[test]
fn lib_create() {
    let source = Provider::<String>::new(String::from("test"));
    let result = source.get_name();
    assert!(result.eq("test"));
}

#[test]
fn add_first() {
    let mut source = Provider::<String>::new(String::from("test"));
    let param = "value".into();

    let result = source.add(param);
    assert!(result == 0);
}

#[test]
fn get() {
    let mut source = Provider::<String>::new(String::from("test"));
    let param = "value".into();

    let idx = source.add(param);

    let result = source.get(&idx).unwrap();
    assert!(result.eq("value"));
}

#[test]
fn remove() {
    let mut source = Provider::<String>::new(String::from("test"));
    let param = "value".into();

    let idx = source.add(param);

    source.remove(&idx);
    let result = source.get(&idx);
    assert!(result == None);
}

#[test]
fn handles_grow_past_removal() {
    let mut source = Provider::<String>::new(String::from("test"));
    let first = source.add("one".into());
    source.remove(&first);
    let second = source.add("two".into());
    assert_ne!(first, second);
    assert!(source.get(&first).is_none());
    assert!(source.get(&second).unwrap().eq("two"));
}
