//! The table of names.

use def_compiler::crc32::crc_text;
use def_compiler::names::{
    Names, NamesBuilder, NamesEntryError, NamesError, TakeError, TakeNullTerminatedUtf8,
};

const HEADER: [u8; 20] = [7; 20];

#[test]
fn a_table_is_written_and_read_back() {
    let mut builder = NamesBuilder::new();
    let a = builder.intern("CREATURE");
    let b = builder.intern("SWORD é");
    let names = builder.finalize(HEADER);
    let bytes = names.to_bytes();
    assert_eq!(bytes.len(), 20 + (4 + 8 + 1) + (4 + 8 + 1));
    // The header holds how many strings there are, and how long what follows is.
    assert_eq!(&bytes[..8], &HEADER[..8]);
    assert_eq!(&bytes[8..12], &2u32.to_le_bytes());
    assert_eq!(&bytes[12..16], &30u32.to_le_bytes());
    assert_eq!(&bytes[16..20], &HEADER[16..]);

    let back = Names::from_bytes(&bytes).unwrap();
    assert_eq!(back.to_bytes(), bytes);
    let strings: Vec<&str> = back.map.values().map(|e| e.string.as_str()).collect();
    assert_eq!(strings, ["CREATURE", "SWORD é"]);
    for e in back.map.values() {
        assert_eq!(e.crc, crc_text(&e.string));
    }
    assert!(a < b);
}

/// A string is stored once, and keeps its offset.
#[test]
fn interned_strings_keep_their_offsets() {
    let mut builder = NamesBuilder::new();
    let a = builder.intern("A");
    let b = builder.intern("B");
    assert_ne!(a, b);
    assert_eq!(builder.intern("A"), a);
    assert_eq!(builder.intern("B"), b);
    assert_eq!((builder.lookup("A"), builder.lookup("C")), (Some(a), None));
    assert_eq!(builder.finalize(HEADER).map.len(), 2);
}

#[test]
fn an_empty_table_is_its_header() {
    let names = NamesBuilder::new().finalize(HEADER);
    let mut expected = HEADER.to_vec();
    expected[8..16].copy_from_slice(&[0, 0, 0, 0, 4, 0, 0, 0]);
    assert_eq!(names.to_bytes(), expected);
    assert!(Names::from_bytes(&HEADER).unwrap().map.is_empty());
}

#[test]
fn a_table_needs_its_header() {
    assert_eq!(Names::from_bytes(&[0; 19]).unwrap_err(), NamesError::MissingHeader);
}

fn entry_error(tail: &[u8]) -> (usize, NamesEntryError) {
    let mut bytes = HEADER.to_vec();
    bytes.extend_from_slice(tail);
    match Names::from_bytes(&bytes) {
        Err(NamesError::ParseEntry(at, e)) => (at, e),
        _ => panic!("no error"),
    }
}

#[test]
fn entries_that_cannot_be_read_are_errors() {
    assert_eq!(entry_error(&[1, 2]).1, NamesEntryError::Crc(TakeError::UnexpectedEnd));
    assert_eq!(
        entry_error(&[1, 2, 3, 4, b'a']).1,
        NamesEntryError::String(TakeNullTerminatedUtf8::MissingTerminator)
    );
    assert_eq!(
        entry_error(&[1, 2, 3, 4, 0xff, 0]).1,
        NamesEntryError::String(TakeNullTerminatedUtf8::InvalidUtf8)
    );
}

/// An offset stays with its string, whatever is added, and no other string has it.
#[test]
fn an_offset_belongs_to_one_string() {
    let mut builder = NamesBuilder::new();
    builder.intern("FIRST");
    let offset = builder.intern("KEPT");
    let others: Vec<u32> = (0..50).map(|i| builder.intern(&format!("S{i}"))).collect();
    assert_eq!(builder.intern("KEPT"), offset);
    assert!(others.iter().all(|o| *o != offset));
    assert_eq!(builder.finalize(HEADER).map.len(), 52);
}

/// Where there is room, holding a string is interning it.
#[test]
fn holding_is_interning() {
    let (mut held, mut interned) = (NamesBuilder::new(), NamesBuilder::new());
    for s in ["A", "\u{e9}t\u{e9}", "A", "B"] {
        assert_eq!(held.hold(s), Some(interned.intern(s)));
    }
    assert!(held.can_add("C"));
    assert!(!held.can_add("A"));
    let more = held.lookup_with("C", "C");
    assert_eq!(held.lookup_with("C", "B"), held.lookup("B"));
    assert_eq!(held.lookup_with("C", "D"), None);
    assert_eq!(held.lookup("C"), None);
    assert_eq!(more, Some(interned.intern("C")));
}
