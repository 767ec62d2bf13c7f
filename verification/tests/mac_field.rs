use umbral::mac::{clean_mac, format_mac, is_form_ready, reformat_mac_entry, remove_colons, storage_mac};

#[test]
fn format_groups_twelve_digits() {
    assert_eq!(format_mac("aabbccddeeff"), "AA:BB:CC:DD:EE:FF");
}

#[test]
fn format_drops_non_hex_characters() {
    assert_eq!(format_mac("a1-b2 c3"), "A1:B2:C3");
    assert_eq!(format_mac("xyz"), "");
    assert_eq!(format_mac(""), "");
}

#[test]
fn format_keeps_first_twelve_digits() {
    assert_eq!(format_mac("0123456789abcdef"), "01:23:45:67:89:AB");
}

#[test]
fn format_odd_number_of_digits() {
    assert_eq!(format_mac("abc"), "AB:C");
    assert_eq!(format_mac("a"), "A");
}

#[test]
fn format_is_stable() {
    for s in ["aabbccddeeff", "a1-b2 c3", "0123456789abcdef", "abc", "", "zz:9"] {
        let once = format_mac(s);
        assert_eq!(format_mac(&once), once);
        assert!(reformat_mac_entry(&once, 0).is_none());
    }
}

#[test]
fn clean_keeps_upper_case_digits() {
    assert_eq!(clean_mac("g1h2"), vec!['1', '2']);
    assert_eq!(clean_mac("ab:cd"), vec!['A', 'B', 'C', 'D']);
}

#[test]
fn reformat_leaves_formatted_text() {
    assert!(reformat_mac_entry("AA:BB", 5).is_none());
    assert!(reformat_mac_entry("", 0).is_none());
}

#[test]
fn reformat_moves_cursor_past_separator() {
    assert_eq!(reformat_mac_entry("aab", 3), Some(("AA:B".to_string(), 4)));
    assert_eq!(reformat_mac_entry("AA:BBC", 6), Some(("AA:BB:C".to_string(), 7)));
}

#[test]
fn reformat_keeps_cursor_among_digits() {
    assert_eq!(reformat_mac_entry("AAB", 2), Some(("AA:B".to_string(), 2)));
    assert_eq!(reformat_mac_entry("aab", 0), Some(("AA:B".to_string(), 0)));
    assert_eq!(reformat_mac_entry("aab", -4), Some(("AA:B".to_string(), 0)));
    assert_eq!(reformat_mac_entry("aab", 99), Some(("AA:B".to_string(), 4)));
}

#[test]
fn reformat_after_extra_character() {
    assert_eq!(reformat_mac_entry("AA:BBx", 6), Some(("AA:BB".to_string(), 5)));
    assert_eq!(reformat_mac_entry("AA::BB", 3), Some(("AA:BB".to_string(), 2)));
}

#[test]
fn form_ready_needs_name_and_full_mac() {
    assert!(is_form_ready("Aula 1", "AA:BB:CC:DD:EE:FF"));
    assert!(!is_form_ready("  \t", "AA:BB:CC:DD:EE:FF"));
    assert!(!is_form_ready("Aula", "AA:BB"));
    assert!(!is_form_ready("", ""));
}

#[test]
fn form_ready_counts_bytes() {
    // 16 characters, 17 bytes: the check is on the byte length.
    assert!(is_form_ready("Aula", "\u{c1}A:BB:CC:DD:EE:F"));
}

#[test]
fn storage_mac_is_bare_lower_case() {
    assert_eq!(storage_mac("AA:BB:CC:DD:EE:FF"), "aabbccddeeff");
    assert_eq!(storage_mac(" AA:BB "), "aabb");
    assert_eq!(storage_mac(":"), "");
}

#[test]
fn storage_of_formatted_text_keeps_digits() {
    let formatted = format_mac("0a-1b-2c-3d-4e-5f");
    assert_eq!(storage_mac(&formatted), "0a1b2c3d4e5f");
}

#[test]
fn remove_colons_only_drops_colons() {
    assert_eq!(remove_colons("a:b::c d"), "abc d");
}

#[test]
fn separators_stand_every_third_place() {
    let f: Vec<char> = format_mac("aabbccddeeff").chars().collect();
    for (j, c) in f.iter().enumerate() {
        assert_eq!(*c == ':', j % 3 == 2);
    }
    assert_ne!(format_mac("aabbc").chars().last(), Some(':'));
    assert_eq!(format_mac("aabb"), "AA:BB");
}

#[test]
fn cursor_lands_after_the_digits_before_it() {
    assert_eq!(reformat_mac_entry("a:a:b:b", 5), Some(("AA:BB".to_string(), 4)));
    assert_eq!(reformat_mac_entry("aabbccddeeff99", 14), Some(("AA:BB:CC:DD:EE:FF".to_string(), 20)));
    assert_eq!(reformat_mac_entry("AA:BB:CCD:DEE", 12), Some(("AA:BB:CC:DD:EE".to_string(), 13)));
}
