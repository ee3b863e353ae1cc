use buldr::cache::Cache;
use buldr::paths::{str_concat, str_ends_with, with_object_extension};

#[test]
fn concat_joins_views() {
    assert_eq!(str_concat("-I", "include/dir"), "-Iinclude/dir");
    assert_eq!(str_concat("", "x"), "x");
    assert_eq!(str_concat("x", ""), "x");
}

#[test]
fn ends_with_checks_suffix() {
    assert!(str_ends_with("main.cpp", ".cpp"));
    assert!(str_ends_with("main.cpp", ""));
    assert!(!str_ends_with("main.cpp", ".c"));
    assert!(!str_ends_with("c", ".c"));
    assert!(str_ends_with(".c", ".c"));
}

#[test]
fn object_extension_replaces_the_extension() {
    assert_eq!(with_object_extension("src/a.c"), "src/a.o");
    assert_eq!(with_object_extension("src/a.b.cpp"), "src/a.b.o");
    assert_eq!(with_object_extension("main"), "main.o");
    assert_eq!(with_object_extension("dir.x/main"), "dir.x/main.o");
    assert_eq!(with_object_extension(".hidden"), ".hidden.o");
    assert_eq!(with_object_extension("a."), "a.o");
}

#[test]
fn missing_entry_is_stale() {
    let cache = Cache::new();
    assert!(cache.has_changed("obj/core/a.o", 100));
}

#[test]
fn update_records_build_time() {
    let mut cache = Cache::new();
    cache.update("obj/core/a.o", 100);
    // modification time not newer than the recorded build time: fresh
    assert!(!cache.has_changed("obj/core/a.o", 100));
    assert!(!cache.has_changed("obj/core/a.o", 50));
    // strictly newer modification time: stale again
    assert!(cache.has_changed("obj/core/a.o", 101));
    // other objects stay unknown
    assert!(cache.has_changed("obj/core/b.o", 1));
}

#[test]
fn update_overwrites_in_place() {
    let mut cache = Cache::new();
    cache.update("obj/a.o", 10);
    cache.update("obj/a.o", 20);
    assert_eq!(cache.entries().len(), 1);
    assert!(!cache.has_changed("obj/a.o", 20));
    assert!(cache.has_changed("obj/a.o", 21));
}

#[test]
fn from_entries_later_pair_wins() {
    let list = vec![
        ("obj/a.o".to_string(), 10u64),
        ("obj/b.o".to_string(), 5u64),
        ("obj/a.o".to_string(), 30u64),
    ];
    let cache = Cache::from_entries(&list);
    assert!(!cache.has_changed("obj/a.o", 30));
    assert!(cache.has_changed("obj/a.o", 31));
    assert!(!cache.has_changed("obj/b.o", 5));
    assert!(cache.has_changed("obj/b.o", 6));
    assert_eq!(cache.entries().len(), 2);
}

#[test]
fn entries_round_trip() {
    let mut cache = Cache::new();
    cache.update("obj/a.o", 10);
    cache.update("obj/b.o", 20);
    let copy = Cache::from_entries(cache.entries());
    assert!(!copy.has_changed("obj/a.o", 10));
    assert!(copy.has_changed("obj/a.o", 11));
    assert!(!copy.has_changed("obj/b.o", 20));
}
