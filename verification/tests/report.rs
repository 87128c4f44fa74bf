use smart_home::DeviceId;
use smart_home::Home;
use smart_home::Provider;
use smart_home::ReportParam;
use smart_home::StatusProvider;

fn query(room: &str, device: &str) -> ReportParam {
    ReportParam { room_name: room.into(), device_name: device.into() }
}

#[test]
fn report_room_missing() {
    let home = Home::new("Квартира".into());
    let provider = StatusProvider::new();
    let filter = [query("гостиная", "любой")];
    let report = home.report(&filter, &provider);
    assert_eq!(report, "гостиная: нет в доме\n");
}

#[test]
fn report_device_unregistered() {
    let mut home = Home::new("Квартира".into());
    home.room_add("гостиная").unwrap();
    let provider = StatusProvider::new();
    let filter = [query("гостиная", "термометр")];
    let report = home.report(&filter, &provider);
    assert!(report.starts_with("гостиная:\n- термометр: не зарегистрировано"));
    assert_eq!(report, "гостиная:\n- термометр: не зарегистрировано");
}

#[test]
fn report_device_status() {
    let mut home = Home::new("Квартира".into());
    home.room_add("гостиная").unwrap();
    let mut sensors = Provider::<String>::new("сенсоры".into());
    let handle = sensors.add("температура: 20".into());
    home.device_add("гостиная", "термометр", DeviceId("сенсоры".into(), handle))
        .unwrap();
    let mut provider = StatusProvider::new();
    provider.register(sensors);
    let filter = [query("гостиная", "термометр")];
    let report = home.report(&filter, &provider);
    assert_eq!(report, "гостиная:\n- термометр: температура: 20\n");
}

#[test]
fn report_desynchronized_device() {
    let mut home = Home::new("Квартира".into());
    home.room_add("гостиная").unwrap();
    let mut sensors = Provider::<String>::new("сенсоры".into());
    let handle = sensors.add("температура: 20".into());
    sensors.remove(&handle);
    home.device_add("гостиная", "термометр", DeviceId("сенсоры".into(), handle))
        .unwrap();
    let mut provider = StatusProvider::new();
    provider.register(sensors);
    let filter = [query("гостиная", "термометр")];
    let report = home.report(&filter, &provider);
    assert_eq!(
        report,
        "гостиная:\n- рассинхронизация данных: устройство с идентификатором 0 \
         не зарегистрировано среди сенсоры, но числиться как термометр\n"
    );
}

#[test]
fn report_unknown_category_is_desynchronized() {
    let mut home = Home::new("Квартира".into());
    home.room_add("гостиная").unwrap();
    home.device_add("гостиная", "термометр", DeviceId("сенсоры".into(), 0))
        .unwrap();
    let provider = StatusProvider::new();
    let filter = [query("гостиная", "термометр")];
    let report = home.report(&filter, &provider);
    assert_eq!(
        report,
        "гостиная:\n- рассинхронизация данных: устройство с идентификатором 0 \
         не зарегистрировано среди сенсоры, но числиться как термометр\n"
    );
}

#[test]
fn report_two_digit_handle() {
    let mut home = Home::new("Квартира".into());
    home.room_add("гостиная").unwrap();
    let mut sensors = Provider::<String>::new("сенсоры".into());
    let mut handle: u8 = 0;
    for _ in 0..11 {
        handle = sensors.add("температура: 20".into());
    }
    assert_eq!(handle, 10);
    sensors.remove(&handle);
    home.device_add("гостиная", "термометр", DeviceId("сенсоры".into(), handle))
        .unwrap();
    let mut provider = StatusProvider::new();
    provider.register(sensors);
    let filter = [query("гостиная", "термометр")];
    let report = home.report(&filter, &provider);
    assert_eq!(
        report,
        "гостиная:\n- рассинхронизация данных: устройство с идентификатором 10 \
         не зарегистрировано среди сенсоры, но числиться как термометр\n"
    );
}

#[test]
fn report_queries_in_order() {
    let mut home = Home::new("квартира".into());
    home.room_add("гостиная").unwrap();
    let mut sensors = Provider::<String>::new("сенсоры".into());
    let handle = sensors.add("температура: 20".into());
    home.device_add("гостиная", "термометр", DeviceId("сенсоры".into(), handle))
        .unwrap();
    let mut outlets = Provider::<String>::new("розетки".into());
    let outlet = outlets.add("состояние: выключено".into());
    home.device_add("гостиная", "подсветка", DeviceId("розетки".into(), outlet))
        .unwrap();
    let mut provider = StatusProvider::new();
    provider.register(sensors);
    provider.register(outlets);
    let filter = [
        query("гостиная", "термометр"),
        query("фое", "термометр"),
        query("гостиная", "подсветка"),
    ];
    let report = home.report(&filter, &provider);
    assert_eq!(
        report,
        "гостиная:\n- термометр: температура: 20\n\
         фое: нет в доме\n\
         гостиная:\n- подсветка: состояние: выключено\n"
    );
}

#[test]
fn report_is_deterministic() {
    let mut home = Home::new("Квартира".into());
    home.room_add("гостиная").unwrap();
    home.room_add("кухня").unwrap();
    let mut sensors = Provider::<String>::new("сенсоры".into());
    let handle = sensors.add("температура: 20".into());
    home.device_add("гостиная", "термометр", DeviceId("сенсоры".into(), handle))
        .unwrap();
    home.device_add("кухня", "датчик", DeviceId("сенсоры".into(), 77)).unwrap();
    let mut provider = StatusProvider::new();
    provider.register(sensors);
    let filter = [
        query("гостиная", "термометр"),
        query("кухня", "датчик"),
        query("кухня", "чайник"),
        query("чулан", "лампа"),
    ];
    let first = home.report(&filter, &provider);
    let second = home.report(&filter, &provider);
    assert_eq!(first, second);
}

#[test]
fn report_first_matching_category_answers() {
    let mut home = Home::new("Квартира".into());
    home.room_add("гостиная").unwrap();
    let mut early = Provider::<String>::new("сенсоры".into());
    let handle = early.add("температура: 18".into());
    let mut late = Provider::<String>::new("сенсоры".into());
    late.add("температура: 99".into());
    home.device_add("гостиная", "термометр", DeviceId("сенсоры".into(), handle))
        .unwrap();
    let mut provider = StatusProvider::new();
    provider.register(early);
    provider.register(late);
    let filter = [query("гостиная", "термометр")];
    let report = home.report(&filter, &provider);
    assert_eq!(report, "гостиная:\n- термометр: температура: 18\n");
}
