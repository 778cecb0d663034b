use defmt_kernel::{Encoding, Error, Tag};
use defmt_parser::Level;

#[test]
fn raw_is_parsed_and_cannot_recover() {
    let encoding = Encoding::from_str("raw").unwrap();
    assert_eq!(encoding, Encoding::Raw);
    assert!(!encoding.can_recover());
}

#[test]
fn rzcobs_is_parsed_and_can_recover() {
    let encoding = Encoding::from_str("rzcobs").unwrap();
    assert_eq!(encoding, Encoding::Rzcobs);
    assert!(encoding.can_recover());
}

#[test]
fn zlib_is_an_unknown_encoding() {
    assert_eq!(Encoding::from_str("zlib"), Err(Error::UnknownEncoding));
}

#[test]
fn near_misses_are_unknown_encodings() {
    for name in ["", "Raw", "RAW", "raw ", " raw", "ra", "rzcob", "rzcobs2", "cobs", "r\u{e4}w"] {
        assert_eq!(Encoding::from_str(name), Err(Error::UnknownEncoding));
    }
}

#[test]
fn severity_tags_have_their_level() {
    assert_eq!(Tag::Trace.to_level(), Some(Level::Trace));
    assert_eq!(Tag::Debug.to_level(), Some(Level::Debug));
    assert_eq!(Tag::Info.to_level(), Some(Level::Info));
    assert_eq!(Tag::Warn.to_level(), Some(Level::Warn));
    assert_eq!(Tag::Error.to_level(), Some(Level::Error));
}

#[test]
fn other_tags_have_no_level() {
    let others = [
        Tag::Prim,
        Tag::Derived,
        Tag::Bitflags,
        Tag::Write,
        Tag::Str,
        Tag::Timestamp,
        Tag::BitflagsValue,
        Tag::Println,
    ];
    for tag in others {
        assert_eq!(tag.to_level(), None);
    }
}

#[test]
fn levels_are_ordered_by_severity() {
    let levels: Vec<Level> = [Tag::Trace, Tag::Debug, Tag::Info, Tag::Warn, Tag::Error]
        .iter()
        .map(|tag| tag.to_level().unwrap())
        .collect();
    for pair in levels.windows(2) {
        assert!(pair[0] < pair[1]);
    }
}
