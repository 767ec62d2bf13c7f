use umbral::mqtt::ClassroomUpdate;

#[test]
fn payload_with_both_members() {
    let u = ClassroomUpdate::from_payload(br#"{"mac":"aabbccddeeff","status":"1"}"#, "Unknown").unwrap();
    assert_eq!(u.mac, "aabbccddeeff");
    assert_eq!(u.status, "1");
}

#[test]
fn payload_without_status_is_available() {
    let u = ClassroomUpdate::from_payload(br#"{"mac":"aa"}"#, "Unknown").unwrap();
    assert_eq!(u.mac, "aa");
    assert_eq!(u.status, "0");
}

#[test]
fn payload_without_mac_uses_unknown() {
    let u = ClassroomUpdate::from_payload(br#"{"mac":5,"status":"1"}"#, "Desconocido").unwrap();
    assert_eq!(u.mac, "Desconocido");
    assert_eq!(u.status, "1");
    let v = ClassroomUpdate::from_payload(b"[1, 2]", "Unknown").unwrap();
    assert_eq!(v.mac, "Unknown");
    assert_eq!(v.status, "0");
}

#[test]
fn payload_that_is_not_json() {
    assert!(ClassroomUpdate::from_payload(b"mac=aa", "Unknown").is_none());
    assert!(ClassroomUpdate::from_payload(b"", "Unknown").is_none());
}

#[test]
fn update_from_fields() {
    let u = ClassroomUpdate::from_fields(None, Some("1".to_string()), "Unknown");
    assert_eq!(u.mac, "Unknown");
    assert_eq!(u.status, "1");
    let v = ClassroomUpdate::from_fields(Some("aa".to_string()), None, "Unknown");
    assert_eq!(v.mac, "aa");
    assert_eq!(v.status, "0");
}
