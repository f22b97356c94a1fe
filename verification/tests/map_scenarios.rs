use overlay_map::OverlayMap;

#[test]
fn push_and_get_foreground() {
    let mut map = OverlayMap::<&str, i32>::new();
    assert!(map.fg(&"key").is_none());
    map.push("key", 42);
    assert_eq!(*map.fg(&"key").expect("Entry was just pushed"), 42);
}

#[test]
fn push_and_get_background() {
    let mut map = OverlayMap::<&str, i32>::new();
    assert!(map.fg(&"key").is_none());
    map.push("key", 99);
    assert_eq!(*map.fg(&"key").expect("Entry was just pushed"), 99);
}

#[test]
fn push_if_no_change_foreground() {
    let mut map = OverlayMap::<&str, i32>::new();
    map.push("key", 100);

    // Try swap but do nothing
    map.push_if(&"key", |old| {
        if *old == 100 {
            None // no change
        } else {
            Some(999)
        }
    });

    // Still foreground = 100, no background
    assert_eq!(*map.fg(&"key").expect("Entry should still exist"), 100);
}

#[test]
fn push_if_foreground_to_background() {
    let mut map = OverlayMap::<&str, i32>::new();
    map.push("key", 50);
    map.push_if(&"key", |old| if *old == 50 { Some(123) } else { None });
    assert_eq!(*map.fg(&"key").expect("Entry should still exist"), 123);
    assert_eq!(
        *map.bg(&"key").expect("Old value not found in background"),
        50
    );
}

#[test]
fn push_if_missing_key() {
    let mut map = OverlayMap::<&str, i32>::new();
    map.push_if(&"missing", |_| Some(999));
    assert!(map.fg(&"missing").is_none());
}

#[test]
fn pull_with_remainder_test() {
    let mut map = OverlayMap::<&str, i32>::new();
    map.push("key", 42);
    map.push("key", 24);
    assert_eq!(Some(&24), map.fg(&"key"));
    assert_eq!(Some(&42), map.bg(&"key"));
    assert_eq!(Some(24), map.pull(&"key"));
    assert_eq!(Some(&42), map.fg(&"key"));
    assert_eq!(None, map.bg(&"key"));
    assert_eq!(1, map.len());
}

#[test]
fn pull_without_remainder_test() {
    let mut map = OverlayMap::<&str, i32>::new();
    map.push("key", 42);
    assert_eq!(Some(&42), map.fg(&"key"));
    assert_eq!(Some(42), map.pull(&"key"));
    assert_eq!(None, map.fg(&"key"));
    assert_eq!(None, map.bg(&"key"));
    assert_eq!(0, map.len());
}

#[test]
fn swap_test() {
    let mut map = OverlayMap::<&str, i32>::new();
    map.push("key", 42);
    assert_eq!(*map.fg(&"key").expect("Entry was just pushed"), 42);
    assert_eq!(None, map.swap("key", 100));
    let old_value = map.swap("key", 150);
    assert_eq!(old_value, Some(42));
    assert_eq!(*map.fg(&"key").expect("Entry was just pushed"), 150);
    assert_eq!(*map.bg(&"key").expect("Entry was just pushed"), 100);
}

#[test]
fn swap_if_test() {
    let mut map = OverlayMap::<&str, i32>::new();
    map.push("key", 50);
    map.push("key", 100);
    let evicted = map.swap_if(&"key", |old| if *old == 100 { Some(123) } else { None });
    assert_eq!(*map.fg(&"key").expect("Entry should still exist"), 123);
    assert_eq!(*map.bg(&"key").expect("Entry should still exist"), 100);
    assert_eq!(evicted, Some(50));
}

#[test]
fn overlay_test() {
    // Initialize an OverlayMap with:
    // - "fg_key" in foreground
    // - "bg_key" in background
    // - "absent_key" absent
    let mut map = OverlayMap::<&str, i32>::new();
    map.push("fg_key", 10);
    map.push("bg_key", 20);

    // Prepare updates:
    // - "fg_key" -> 100
    // - "bg_key" -> 200
    // - "none_key" -> 300 (was absent in map)
    let updates = vec![("fg_key", 100), ("bg_key", 200), ("none_key", 300)];

    // Perform the merge
    map.overlay(updates);

    // Check that "fg_key" was in foreground, so old value (10) moved to background.
    // New value (100) should be in foreground.
    match map.fg(&"fg_key") {
        Some(val) => assert_eq!(*val, 100),
        _ => panic!("Expected 'fg_key' = 100 in foreground"),
    }
    match map.bg(&"fg_key") {
        Some(val) => assert_eq!(*val, 10),
        None => panic!("Expected old 'fg_key' value = 10 in background"),
    }

    // Check that "none_key" was absent, so it is now in the foreground with 300
    match map.fg(&"none_key") {
        Some(val) => assert_eq!(*val, 300),
        _ => panic!("Expected 'none_key' = 300 in foreground"),
    }
    // It shouldn't exist in background
    assert!(map.bg(&"none_key").is_none());
}
