use defmt_kernel::bitflags::{BitflagsKey, BitflagsRegistry};
use defmt_kernel::version::check_version;
use defmt_kernel::{Encoding, Error, StringEntry, Table, TableEntry, Tag, DEFMT_VERSIONS};

fn entry(tag: Tag, string: &str, symbol: &str) -> TableEntry {
    TableEntry::new(StringEntry::new(tag, string.to_string()), symbol.to_string())
}

fn key(ident: &str, package: &str, disambig: &str, crate_name: Option<&str>) -> BitflagsKey {
    BitflagsKey::new(
        ident.to_string(),
        package.to_string(),
        disambig.to_string(),
        crate_name.map(|name| name.to_string()),
    )
}

#[test]
fn string_entry_keeps_tag_and_string() {
    let entry = StringEntry::new(Tag::Warn, "low battery: {=u8}%".to_string());
    assert_eq!(entry.tag(), Tag::Warn);
    assert_eq!(entry.string(), "low battery: {=u8}%");
}

#[test]
fn table_entry_keeps_string_and_symbol() {
    let entry = entry(Tag::Info, "hello {=u8}", "{\"tag\":\"defmt_info\"}");
    assert_eq!(entry.string_entry().tag(), Tag::Info);
    assert_eq!(entry.string_entry().string(), "hello {=u8}");
    assert_eq!(entry.raw_symbol(), "{\"tag\":\"defmt_info\"}");
}

#[test]
fn entry_without_symbol_is_unknown() {
    let entry = TableEntry::new_without_symbol(Tag::Println, "boot".to_string());
    assert_eq!(entry.raw_symbol(), "<unknown>");
    assert_eq!(entry.string_entry().tag(), Tag::Println);
    assert_eq!(entry.string_entry().string(), "boot");
}

#[test]
fn entries_compare_by_content() {
    assert_eq!(entry(Tag::Info, "a", "s"), entry(Tag::Info, "a", "s"));
    assert_ne!(entry(Tag::Info, "a", "s"), entry(Tag::Debug, "a", "s"));
    assert_ne!(entry(Tag::Info, "a", "s"), entry(Tag::Info, "a", "t"));
    assert!(entry(Tag::Info, "a", "s").same_symbol(&entry(Tag::Error, "b", "s")));
    assert!(!entry(Tag::Info, "a", "s").same_symbol(&entry(Tag::Info, "a", "t")));
}

#[test]
fn empty_table_is_valid_and_resolves_nothing() {
    let table = Table::new(Vec::new(), Encoding::Rzcobs, None, BitflagsRegistry::new()).unwrap();
    for index in [0usize, 1, 7, 255, 65535, usize::MAX] {
        assert!(table.lookup(index).is_none());
    }
    assert!(table.timestamp().is_none());
    assert_eq!(table.encoding(), Encoding::Rzcobs);
}

#[test]
fn shared_index_is_duplicate_index() {
    let entries = vec![(7, entry(Tag::Info, "a", "sym_a")), (7, entry(Tag::Warn, "b", "sym_b"))];
    let built = Table::new(entries, Encoding::Raw, None, BitflagsRegistry::new());
    assert_eq!(built.err(), Some(Error::DuplicateIndex));
}

#[test]
fn shared_symbol_is_duplicate_symbol() {
    let entries = vec![(7, entry(Tag::Info, "a", "sym")), (8, entry(Tag::Warn, "b", "sym"))];
    let built = Table::new(entries, Encoding::Raw, None, BitflagsRegistry::new());
    assert_eq!(built.err(), Some(Error::DuplicateSymbol));
}

#[test]
fn duplicate_index_is_reported_before_duplicate_symbol() {
    let entries = vec![
        (1, entry(Tag::Info, "a", "sym")),
        (2, entry(Tag::Warn, "b", "sym")),
        (3, entry(Tag::Warn, "c", "other")),
        (3, entry(Tag::Warn, "d", "another")),
    ];
    let built = Table::new(entries, Encoding::Raw, None, BitflagsRegistry::new());
    assert_eq!(built.err(), Some(Error::DuplicateIndex));
}

#[test]
fn duplicates_far_apart_are_found() {
    let entries = vec![
        (10, entry(Tag::Info, "a", "s0")),
        (11, entry(Tag::Info, "b", "s1")),
        (12, entry(Tag::Info, "c", "s2")),
        (10, entry(Tag::Info, "d", "s3")),
    ];
    let built = Table::new(entries, Encoding::Raw, None, BitflagsRegistry::new());
    assert_eq!(built.err(), Some(Error::DuplicateIndex));
    let entries = vec![
        (10, entry(Tag::Info, "a", "s0")),
        (11, entry(Tag::Info, "b", "s1")),
        (12, entry(Tag::Info, "c", "s2")),
        (13, entry(Tag::Info, "d", "s0")),
    ];
    let built = Table::new(entries, Encoding::Raw, None, BitflagsRegistry::new());
    assert_eq!(built.err(), Some(Error::DuplicateSymbol));
}

#[test]
fn lookup_finds_each_entry_under_its_index() {
    let entries = vec![
        (0, entry(Tag::Info, "hello {=u8}", "sym_hello")),
        (1, entry(Tag::Timestamp, "{=u32}", "sym_time")),
        (4096, entry(Tag::Error, "failed", "sym_failed")),
    ];
    let table = Table::new(entries, Encoding::Raw, None, BitflagsRegistry::new()).unwrap();
    assert_eq!(table.lookup(0), Some(&entry(Tag::Info, "hello {=u8}", "sym_hello")));
    assert_eq!(table.lookup(1), Some(&entry(Tag::Timestamp, "{=u32}", "sym_time")));
    assert_eq!(table.lookup(4096), Some(&entry(Tag::Error, "failed", "sym_failed")));
    assert_eq!(table.lookup(2), None);
    assert_eq!(table.lookup(4095), None);
    assert_eq!(table.encoding(), Encoding::Raw);
}

#[test]
fn entries_without_symbol_collide() {
    let entries = vec![
        (0, TableEntry::new_without_symbol(Tag::Info, "a".to_string())),
        (1, TableEntry::new_without_symbol(Tag::Info, "b".to_string())),
    ];
    let built = Table::new(entries, Encoding::Raw, None, BitflagsRegistry::new());
    assert_eq!(built.err(), Some(Error::DuplicateSymbol));
}

#[test]
fn timestamp_is_kept_apart_from_the_entries() {
    let timestamp = entry(Tag::Timestamp, "{=u64:us}", "sym_time");
    let entries = vec![(3, entry(Tag::Debug, "tick", "sym_tick"))];
    let table =
        Table::new(entries, Encoding::Rzcobs, Some(timestamp), BitflagsRegistry::new()).unwrap();
    assert_eq!(table.timestamp(), Some(&entry(Tag::Timestamp, "{=u64:us}", "sym_time")));
    assert_eq!(table.lookup(3), Some(&entry(Tag::Debug, "tick", "sym_tick")));
}

#[test]
fn registry_keeps_declaration_order() {
    let mut registry = BitflagsRegistry::new();
    let flags = || key("Flags", "app", "1", Some("app"));
    registry.declare(flags(), "C".to_string(), 4);
    registry.declare(flags(), "A".to_string(), 1);
    registry.declare(key("Other", "app", "2", None), "X".to_string(), u128::MAX);
    registry.declare(flags(), "B".to_string(), 2);
    let expected = vec![("C".to_string(), 4u128), ("A".to_string(), 1), ("B".to_string(), 2)];
    assert_eq!(registry.resolve(&flags()), Some(expected.as_slice()));
    let other = vec![("X".to_string(), u128::MAX)];
    assert_eq!(registry.resolve(&key("Other", "app", "2", None)), Some(other.as_slice()));
}

#[test]
fn registry_tells_keys_apart_by_every_part() {
    let mut registry = BitflagsRegistry::new();
    registry.declare(key("Flags", "app", "1", Some("app")), "A".to_string(), 1);
    assert!(registry.resolve(&key("Flags", "app", "1", Some("app"))).is_some());
    assert!(registry.resolve(&key("Flagz", "app", "1", Some("app"))).is_none());
    assert!(registry.resolve(&key("Flags", "lib", "1", Some("app"))).is_none());
    assert!(registry.resolve(&key("Flags", "app", "2", Some("app"))).is_none());
    assert!(registry.resolve(&key("Flags", "app", "1", Some("lib"))).is_none());
    assert!(registry.resolve(&key("Flags", "app", "1", None)).is_none());
    assert!(BitflagsRegistry::new().resolve(&key("Flags", "app", "1", None)).is_none());
}

#[test]
fn keys_are_equal_when_all_parts_agree() {
    assert!(key("F", "p", "d", None) == key("F", "p", "d", None));
    assert!(key("F", "p", "d", Some("c")) == key("F", "p", "d", Some("c")));
    assert!(key("F", "p", "d", Some("c")) != key("F", "p", "d", None));
    assert!(key("F", "p", "d", None) != key("F", "p", "e", None));
}

#[test]
fn table_resolves_bitflags() {
    let mut registry = BitflagsRegistry::new();
    registry.declare(key("Flags", "app", "1", None), "READ".to_string(), 1);
    registry.declare(key("Flags", "app", "1", None), "WRITE".to_string(), 2);
    let table = Table::new(Vec::new(), Encoding::Raw, None, registry).unwrap();
    let expected = vec![("READ".to_string(), 1u128), ("WRITE".to_string(), 2)];
    assert_eq!(table.resolve_bitflags(&key("Flags", "app", "1", None)), Some(expected.as_slice()));
    assert_eq!(table.resolve_bitflags(&key("Flags", "app", "2", None)), None);
}

#[test]
fn versions_three_and_four_are_supported() {
    assert_eq!(DEFMT_VERSIONS, ["3", "4"]);
    assert_eq!(check_version("3"), Ok(()));
    assert_eq!(check_version("4"), Ok(()));
}

#[test]
fn other_versions_are_refused() {
    for version in ["", "2", "5", "34", "3 ", "0.3", "four"] {
        assert_eq!(check_version(version), Err(Error::UnsupportedVersion));
    }
}
