use er_qs::{
    common_items, display_slot, fmt_relative, item_db, item_name, item_search, validate_slot,
    QUICK_SLOT,
};

#[test]
fn validate_slot_names() {
    assert!(validate_slot("boss1").is_ok());
    assert!(validate_slot(QUICK_SLOT).is_ok());
    assert_eq!(validate_slot("").unwrap_err(), "invalid slot name ''");
    assert_eq!(validate_slot("a/b").unwrap_err(), "invalid slot name 'a/b'");
    assert_eq!(validate_slot("..").unwrap_err(), "invalid slot name '..'");
    assert_eq!(validate_slot("x..y").unwrap_err(), "invalid slot name 'x..y'");
    assert!(validate_slot("x.y").is_ok());
}

#[test]
fn display_slot_names() {
    assert_eq!(display_slot("_quick"), "[quick]");
    assert_eq!(display_slot(QUICK_SLOT), "[quick]");
    assert_eq!(display_slot("boss"), "boss");
    assert_eq!(display_slot("_quick2"), "_quick2");
}

#[test]
fn fmt_relative_units() {
    assert_eq!(fmt_relative(0), "0s ago");
    assert_eq!(fmt_relative(59), "59s ago");
    assert_eq!(fmt_relative(60), "1m ago");
    assert_eq!(fmt_relative(3599), "59m ago");
    assert_eq!(fmt_relative(3600), "1h ago");
    assert_eq!(fmt_relative(86399), "23h ago");
    assert_eq!(fmt_relative(86400), "1d ago");
    assert_eq!(fmt_relative(10 * 86400 + 5), "10d ago");
    assert_eq!(fmt_relative(u64::MAX), format!("{}d ago", u64::MAX / 86400));
}

#[test]
fn item_table_lookups() {
    assert_eq!(item_name(2919), Some("王之卢恩"));
    assert_eq!(item_name(10101), Some("锻造石[2]"));
    assert_eq!(item_name(8185), Some("泪滴幼体"));
    assert_eq!(item_name(1), None);
    let db = item_db();
    let defs = common_items();
    assert_eq!(db.len(), defs.len());
    for (row, def) in db.iter().zip(defs.iter()) {
        assert_eq!(row.0, def.base_id);
        assert_eq!(row.1, def.name);
    }
}

#[test]
fn item_search_by_substring() {
    let all = item_search("");
    assert_eq!(all, item_db());
    let stones = item_search("锻造");
    assert!(!stones.is_empty());
    assert!(stones.iter().all(|(_, n)| n.contains("锻造")));
    assert!(stones.iter().any(|(_, n)| n.contains("锻造石")));
    assert!(stones.iter().any(|&(id, _)| id == 10101));
    assert_eq!(item_search("王之卢恩"), vec![(2919, "王之卢恩")]);
    assert!(item_search("not an item").is_empty());
}
