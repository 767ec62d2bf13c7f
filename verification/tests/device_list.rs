use umbral::devices::{delete_device, find_device, rename_device, save_device, Device, DeviceError};

fn device(uid: &str, name: &str, mac: &str) -> Device {
    Device {
        uid: Some(uid.to_string()),
        name: Some(name.to_string()),
        mac: Some(mac.to_string()),
        status: None,
        source: "{}".to_string(),
    }
}

fn names(ds: &[Device]) -> Vec<Option<String>> {
    ds.iter().map(|d| d.name.clone()).collect()
}

#[test]
fn save_appends_device() {
    let mut ds = vec![device("u1", "Aula 1", "aa")];
    save_device(&mut ds, "u2", "Aula 2", "bb");
    assert_eq!(ds.len(), 2);
    assert_eq!(ds[1].uid.as_deref(), Some("u2"));
    assert_eq!(ds[1].name.as_deref(), Some("Aula 2"));
    assert_eq!(ds[1].mac.as_deref(), Some("bb"));
    assert_eq!(ds[1].status, None);
}

#[test]
fn rename_changes_first_match_only() {
    let mut ds = vec![device("u1", "A", "aa"), device("u2", "B", "bb"), device("u3", "C", "bb")];
    assert!(rename_device(&mut ds, "bb", "Lab").is_ok());
    assert_eq!(names(&ds), vec![Some("A".to_string()), Some("Lab".to_string()), Some("C".to_string())]);
    assert_eq!(ds[1].uid.as_deref(), Some("u2"));
}

#[test]
fn rename_unknown_mac_is_refused() {
    let mut ds = vec![device("u1", "A", "aa")];
    let r = rename_device(&mut ds, "zz", "Lab");
    match r {
        Err(e) => assert_eq!(e.message(), "Device with MAC zz not found locally"),
        Ok(()) => panic!("rename of an unknown MAC succeeded"),
    }
    assert_eq!(names(&ds), vec![Some("A".to_string())]);
}

#[test]
fn delete_removes_first_match() {
    let mut ds = vec![device("u1", "A", "aa"), device("u2", "B", "bb"), device("u3", "C", "bb")];
    assert!(delete_device(&mut ds, "bb").is_ok());
    assert_eq!(names(&ds), vec![Some("A".to_string()), Some("C".to_string())]);
}

#[test]
fn delete_unknown_mac_is_refused() {
    let mut ds = vec![device("u1", "A", "aa")];
    assert!(matches!(delete_device(&mut ds, "bb"), Err(DeviceError::NotFound(ref m)) if m == "bb"));
    assert_eq!(ds.len(), 1);
}

#[test]
fn save_then_delete_restores_list() {
    let mut ds = vec![device("u1", "A", "aa")];
    save_device(&mut ds, "u2", "B", "bb");
    assert!(delete_device(&mut ds, "bb").is_ok());
    assert_eq!(ds.len(), 1);
    assert_eq!(ds[0].mac.as_deref(), Some("aa"));
}

#[test]
fn find_skips_devices_without_mac() {
    let ds = vec![
        Device { uid: None, name: None, mac: None, status: None, source: "5".to_string() },
        device("u2", "B", "bb"),
    ];
    assert_eq!(find_device(&ds, "bb"), Some(1));
    assert_eq!(find_device(&ds, ""), None);
    assert_eq!(find_device(&Vec::new(), "bb"), None);
}

#[test]
fn rename_then_lookup_shows_new_name() {
    let mut ds = vec![device("u1", "A", "aa"), device("u2", "B", "bb")];
    assert!(rename_device(&mut ds, "aa", "Lab 1").is_ok());
    let i = find_device(&ds, "aa").unwrap();
    assert_eq!(i, 0);
    assert_eq!(ds[i].name.as_deref(), Some("Lab 1"));
    assert_eq!(find_device(&ds, "bb"), Some(1));
    assert_eq!(ds[1].name.as_deref(), Some("B"));
}

#[test]
fn devices_read_from_text() {
    let text = br#"[{"uid":"u1","name":"Aula 1","mac":"aa","extra":3}, 7, {"name":5,"mac":"bb","status":"1"}]"#;
    let ds = umbral::devices::devices_from_text(Some(text));
    assert_eq!(ds.len(), 3);
    assert_eq!(ds[0].uid.as_deref(), Some("u1"));
    assert_eq!(ds[0].name.as_deref(), Some("Aula 1"));
    assert_eq!(ds[0].mac.as_deref(), Some("aa"));
    assert_eq!(ds[0].status, None);
    assert_eq!(ds[0].source, r#"{"extra":3,"mac":"aa","name":"Aula 1","uid":"u1"}"#);
    assert_eq!(ds[1].mac, None);
    assert_eq!(ds[1].source, "7");
    assert_eq!(ds[2].name, None);
    assert_eq!(ds[2].status.as_deref(), Some("1"));
}

#[test]
fn devices_from_text_that_is_not_a_list() {
    assert!(umbral::devices::devices_from_text(Some(b"{\"a\":1}")).is_empty());
    assert!(umbral::devices::devices_from_text(Some(b"not json")).is_empty());
    assert!(umbral::devices::devices_from_text(None).is_empty());
}

#[test]
fn saved_device_starts_from_empty_object() {
    let mut ds = Vec::new();
    save_device(&mut ds, "u", "n", "m");
    assert_eq!(ds[0].source, "{}");
}

#[test]
fn rename_keeps_source() {
    let mut ds = umbral::devices::devices_from_text(Some(br#"[{"mac":"aa","name":"A","floor":2}]"#));
    assert!(rename_device(&mut ds, "aa", "B").is_ok());
    assert_eq!(ds[0].name.as_deref(), Some("B"));
    assert_eq!(ds[0].source, r#"{"floor":2,"mac":"aa","name":"A"}"#);
}

#[test]
fn renamed_device_written_over_its_source() {
    let mut ds = umbral::devices::devices_from_text(Some(br#"[{"mac":"aa","name":"A","floor":2}, 7]"#));
    assert!(rename_device(&mut ds, "aa", "B").is_ok());
    assert_eq!(umbral::devices::device_to_text(&ds[0]), r#"{"floor":2,"mac":"aa","name":"B"}"#);
    assert_eq!(umbral::devices::device_to_text(&ds[1]), "7");
    let text = umbral::devices::devices_to_text(&ds).ok().unwrap();
    assert_eq!(text, "[\n  {\n    \"floor\": 2,\n    \"mac\": \"aa\",\n    \"name\": \"B\"\n  },\n  7\n]");
}

#[test]
fn saved_device_written_with_its_members() {
    let mut ds = Vec::new();
    save_device(&mut ds, "u1", "Aula 1", "aa");
    assert_eq!(
        umbral::devices::device_to_text(&ds[0]),
        r#"{"mac":"aa","name":"Aula 1","uid":"u1"}"#
    );
    assert_eq!(umbral::devices::devices_to_text(&Vec::new()).ok().unwrap(), "[]");
}

#[test]
fn device_with_unreadable_source_is_not_written() {
    let ds = vec![Device { uid: None, name: None, mac: Some("aa".to_string()), status: None, source: "not json".to_string() }];
    assert_eq!(umbral::devices::device_to_text(&ds[0]), "not json");
    assert!(umbral::devices::devices_to_text(&ds).is_err());
}

#[test]
fn device_from_element_reads_string_members() {
    let d = umbral::devices::device_from_element(r#"{"uid":"u","name":3,"mac":"aa","status":"0"}"#);
    assert_eq!(d.uid.as_deref(), Some("u"));
    assert_eq!(d.name, None);
    assert_eq!(d.mac.as_deref(), Some("aa"));
    assert_eq!(d.status.as_deref(), Some("0"));
    let d = umbral::devices::device_from_element("[1]");
    assert_eq!(d.mac, None);
    assert_eq!(d.source, "[1]");
}
