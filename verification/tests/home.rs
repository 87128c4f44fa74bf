use smart_home::DeviceError;
use smart_home::DeviceId;
use smart_home::Home;
use smart_home::RoomError;

#[test]
fn smart_home_create() {
    let source = Home::new("test".into());
    assert!(source.get_name().eq("test"));
}

#[test]
fn room_add_success() {
    let mut source = Home::new("test".into());
    let result = source.room_add("room_name");
    match result {
        Result::Ok(_) => {}
        _ => panic!(),
    }
}

#[test]
fn room_add_fail() {
    let mut source = Home::new("test".into());
    source.room_add("room_name").unwrap();
    match source.room_add("room_name") {
        Result::Err(RoomError::Duplicated(_)) => {}
        _ => panic!(),
    };
}

#[test]
fn room_list() {
    let mut source = Home::new("test".into());
    source.room_add("кухня").unwrap();
    source.room_add("гостиная").unwrap();
    source.room_add("детская").unwrap();
    source.room_add("спальня").unwrap();
    source.room_add("гардероб").unwrap();
    source.room_add("кладовка").unwrap();
    source.room_add("спорт зал").unwrap();
    let result = source.room_list();
    assert!(result.len() == 7);
}

#[test]
fn room_remove() {
    let mut source = Home::new("test".into());
    source.room_add("кухня").unwrap();
    source.room_remove("кухня");
    let result = source.room_list();
    assert!(result.is_empty());
}

#[test]
fn room_remove_skip() {
    let mut source = Home::new("test".into());
    source.room_add("кухня").unwrap();
    source.room_remove("гардероб");
    let result = source.room_list();
    assert!(result.len() == 1);
}

#[test]
fn device_add() {
    let mut source = Home::new("test".into());
    source.room_add("кухня").unwrap();
    source
        .device_add("кухня", "device", DeviceId("type".into(), 0))
        .unwrap();
    let result = source.device_list("кухня").unwrap();
    assert!(result.len() == 1);
}

#[test]
fn device_add_fail() {
    let mut source = Home::new("test".into());
    source.room_add("кухня").unwrap();
    let result = source.device_add("гардероб", "device", DeviceId("type".into(), 0));
    match result {
        Result::Err(DeviceError::NoRoom(_)) => {}
        _ => panic!(),
    }
}

#[test]
fn device_add_duplicate() {
    let mut source = Home::new("test".into());
    source.room_add("кухня").unwrap();
    source
        .device_add("кухня", "device", DeviceId("type".into(), 0))
        .unwrap();
    let result = source.device_add("кухня", "device", DeviceId("type".into(), 1));
    match result {
        Result::Err(DeviceError::DeviceDuplicated(_, _)) => {}
        _ => panic!(),
    }
}

#[test]
fn device_list() {
    let mut source = Home::new("test".into());
    source.room_add("кухня").unwrap();
    source
        .device_add("кухня", "device", DeviceId("type".into(), 0))
        .unwrap();
    let result = source.device_list("кухня").unwrap();
    assert!(result.len() == 1);
}

#[test]
fn device_list_with_fake_room() {
    let mut source = Home::new("test".into());
    source.room_add("кухня").unwrap();
    if source.device_list("гардероб").is_ok() {
        panic!()
    }
}

#[test]
fn device_remove() {
    let mut source = Home::new("test".into());
    source.room_add("кухня").unwrap();
    source
        .device_add("кухня", "device", DeviceId("type".into(), 0))
        .unwrap();
    source.device_remove("кухня", "device");
    let result = source.device_list("кухня").unwrap();
    assert!(result.len() == 0);
}

#[test]
fn room_add_duplicate_keeps_count() {
    let mut source = Home::new("test".into());
    source.room_add("кухня").unwrap();
    source.room_add("гостиная").unwrap();
    let before = source.room_list().len();
    match source.room_add("кухня") {
        Result::Err(RoomError::Duplicated(name)) => assert_eq!(name, "кухня"),
        _ => panic!(),
    }
    assert_eq!(source.room_list().len(), before);
}

#[test]
fn room_remove_excludes_name() {
    let mut source = Home::new("test".into());
    source.room_add("кухня").unwrap();
    source.room_add("гостиная").unwrap();
    source.room_remove("кухня");
    assert!(!source.room_list().iter().any(|name| name == "кухня"));
    source.room_remove("чулан");
    assert!(!source.room_list().iter().any(|name| name == "чулан"));
    assert_eq!(source.room_list().len(), 1);
}

#[test]
fn device_add_fresh_listed_once() {
    let mut source = Home::new("test".into());
    source.room_add("кухня").unwrap();
    source
        .device_add("кухня", "чайник", DeviceId("розетки".into(), 0))
        .unwrap();
    source
        .device_add("кухня", "датчик", DeviceId("сенсоры".into(), 0))
        .unwrap();
    let listed = source.device_list("кухня").unwrap();
    assert_eq!(listed.iter().filter(|name| name.as_str() == "чайник").count(), 1);
    assert_eq!(listed.iter().filter(|name| name.as_str() == "датчик").count(), 1);
}

#[test]
fn device_list_fake_room_names_it() {
    let mut source = Home::new("test".into());
    source.room_add("кухня").unwrap();
    match source.device_list("гардероб") {
        Result::Err(RoomError::NoRoom(name)) => assert_eq!(name, "гардероб"),
        _ => panic!(),
    }
}

#[test]
fn device_remove_twice_is_idempotent() {
    let mut source = Home::new("test".into());
    source.room_add("кухня").unwrap();
    source
        .device_add("кухня", "device", DeviceId("type".into(), 0))
        .unwrap();
    source.device_remove("кухня", "device");
    let after_once = source.device_list("кухня").unwrap();
    source.device_remove("кухня", "device");
    let after_twice = source.device_list("кухня").unwrap();
    assert_eq!(after_once, after_twice);
    assert!(after_twice.is_empty());
    source.device_remove("чулан", "device");
    assert_eq!(source.room_list().len(), 1);
}
