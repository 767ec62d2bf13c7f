use umbral::classrooms::{
    classroom_card, classroom_cards, edited_name, grid_columns, ClassroomStatus, StatusCache,
};
use umbral::devices::Device;

fn device(name: Option<&str>, mac: Option<&str>, status: Option<&str>) -> Device {
    Device {
        uid: None,
        name: name.map(|s| s.to_string()),
        mac: mac.map(|s| s.to_string()),
        status: status.map(|s| s.to_string()),
        source: "{}".to_string(),
    }
}

#[test]
fn status_codes() {
    assert_eq!(ClassroomStatus::from_code("0"), ClassroomStatus::Available);
    assert_eq!(ClassroomStatus::from_code("1"), ClassroomStatus::Occupied);
    assert_eq!(ClassroomStatus::from_code("2"), ClassroomStatus::Offline);
    assert_eq!(ClassroomStatus::from_code(""), ClassroomStatus::Offline);
    assert_eq!(ClassroomStatus::from_code("00"), ClassroomStatus::Offline);
}

#[test]
fn status_style_classes() {
    assert_eq!(ClassroomStatus::Available.css_class().as_deref(), Some("classroom-available"));
    assert_eq!(ClassroomStatus::Occupied.css_class().as_deref(), Some("classroom-occupied"));
    assert_eq!(ClassroomStatus::Offline.css_class(), None);
}

#[test]
fn cache_keeps_last_status() {
    let mut c = StatusCache::new();
    assert_eq!(c.get("aa"), None);
    c.record("aa".to_string(), "0".to_string());
    c.record("bb".to_string(), "1".to_string());
    c.record("aa".to_string(), "1".to_string());
    assert_eq!(c.get("aa").as_deref(), Some("1"));
    assert_eq!(c.get("bb").as_deref(), Some("1"));
    assert_eq!(c.get("cc"), None);
}

#[test]
fn card_prefers_reported_status() {
    let mut c = StatusCache::new();
    c.record("aa".to_string(), "1".to_string());
    let card = classroom_card(&device(Some("Lab"), Some("aa"), Some("0")), &c);
    assert_eq!(card.name, "Lab");
    assert_eq!(card.mac, "aa");
    assert_eq!(card.status, ClassroomStatus::Occupied);
}

#[test]
fn card_falls_back_to_stored_status() {
    let c = StatusCache::new();
    assert_eq!(classroom_card(&device(Some("A"), Some("aa"), Some("0")), &c).status, ClassroomStatus::Available);
    assert_eq!(classroom_card(&device(Some("A"), Some("aa"), None), &c).status, ClassroomStatus::Offline);
    let card = classroom_card(&device(None, None, None), &c);
    assert_eq!(card.name, "");
    assert_eq!(card.mac, "");
}

#[test]
fn cards_follow_device_order() {
    let mut c = StatusCache::new();
    c.record("bb".to_string(), "0".to_string());
    let ds = vec![device(Some("A"), Some("aa"), Some("1")), device(Some("B"), Some("bb"), None)];
    let cards = classroom_cards(&ds, &c);
    assert_eq!(cards.len(), 2);
    assert_eq!(cards[0].name, "A");
    assert_eq!(cards[0].status, ClassroomStatus::Occupied);
    assert_eq!(cards[1].name, "B");
    assert_eq!(cards[1].status, ClassroomStatus::Available);
}

#[test]
fn columns_for_rows() {
    assert_eq!(grid_columns(0, true), 0);
    assert_eq!(grid_columns(7, true), 3);
    assert_eq!(grid_columns(7, false), 4);
    assert_eq!(grid_columns(6, true), 2);
    assert_eq!(grid_columns(1, false), 1);
    assert_eq!(grid_columns(usize::MAX, false), usize::MAX / 2 + 1);
}

#[test]
fn edited_name_is_trimmed() {
    assert_eq!(edited_name("  New lab "), Some("New lab".to_string()));
    assert_eq!(edited_name("   "), None);
    assert_eq!(edited_name(""), None);
}

#[test]
fn columns_hold_every_card() {
    for total in 0..40usize {
        for news_on in [false, true] {
            let rows = if news_on { 3 } else { 2 };
            let cols = grid_columns(total, news_on);
            assert!(cols * rows >= total);
            if total > 0 {
                assert!((cols - 1) * rows < total);
            }
        }
    }
}

#[test]
fn other_cards_keep_their_status() {
    let mut c = StatusCache::new();
    c.record("aa".to_string(), "1".to_string());
    let before = classroom_card(&device(Some("B"), Some("bb"), Some("0")), &c).status;
    c.record("aa".to_string(), "0".to_string());
    let after = classroom_card(&device(Some("B"), Some("bb"), Some("0")), &c).status;
    assert_eq!(before, after);
}
