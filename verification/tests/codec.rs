use rainmeter::codec::decode;
use rainmeter::codec::encode;

#[test]
fn encode_appends_exactly_one_terminator() {
    assert_eq!(encode("hi"), vec![0x68u16, 0x69, 0]);
    assert_eq!(encode(""), vec![0u16]);
}

#[test]
fn astral_character_encodes_to_a_surrogate_pair() {
    assert_eq!(encode("🦀"), vec![0xD83Eu16, 0xDD80, 0]);
}

#[test]
fn round_trip_plain_text() {
    let wire = encode("hello world");
    assert_eq!(decode(Some(wire.as_slice())), "hello world");
}

#[test]
fn round_trip_wide_text() {
    let text = "héllo 🦀 — ∑";
    let wire = encode(text);
    assert_eq!(decode(Some(wire.as_slice())), text);
}

#[test]
fn round_trip_truncates_at_embedded_nul() {
    let wire = encode("ab\0cd");
    assert_eq!(decode(Some(wire.as_slice())), "ab");
}

#[test]
fn leading_nul_round_trips_to_empty() {
    let wire = encode("\0late");
    assert_eq!(decode(Some(wire.as_slice())), "");
}

#[test]
fn null_pointer_decodes_to_empty_string() {
    assert_eq!(decode(None), "");
}

#[test]
fn surrogate_pair_decodes_to_one_character() {
    let wire: Vec<u16> = vec![0xD83E, 0xDD80, 0];
    assert_eq!(decode(Some(wire.as_slice())), "🦀");
}

#[test]
fn unpaired_surrogates_become_replacement_characters() {
    let wire: Vec<u16> = vec![0xD800, 0x41, 0xDC00, 0];
    assert_eq!(decode(Some(wire.as_slice())), "\u{FFFD}A\u{FFFD}");
}

#[test]
fn buffer_without_terminator_decodes_wholly() {
    let wire: Vec<u16> = vec![0x41, 0x42];
    assert_eq!(decode(Some(wire.as_slice())), "AB");
}

#[test]
fn terminator_stops_the_reading() {
    let wire: Vec<u16> = vec![0x41, 0, 0x42, 0];
    assert_eq!(decode(Some(wire.as_slice())), "A");
}

#[test]
fn empty_buffer_decodes_to_empty_string() {
    let wire: Vec<u16> = vec![];
    assert_eq!(decode(Some(wire.as_slice())), "");
}
