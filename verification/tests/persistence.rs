//! Settings persistence: the document format and its round trip.

use key_overlay::codec::{decode_settings, encode_settings, settings_from_document};
use key_overlay::settings::{Settings, UColor32};

#[test]
fn serialize() {
    let setting = Settings::default();
    let setting_doc = encode_settings(&setting);
    let setting_1 = decode_settings(&setting_doc).unwrap();
    assert_eq!(setting_1, setting);
}

#[test]
fn default_document_is_exact() {
    let doc = encode_settings(&Settings::default());
    let text = String::from_utf8(doc).unwrap();
    assert_eq!(
        text,
        "1000\n4\n64\n8\n255\n255\n255\n255\n0\n0\n0\n255\n2\n90\n88\n"
    );
}

#[test]
fn custom_settings_round_trip() {
    let settings = Settings {
        tracked_keys: vec![1, 32, 65, 4294967295],
        window_ms: 18446744073709551615,
        decay_per_ms: 0,
        key_color: UColor32 { r: 1, g: 2, b: 3, a: 4 },
        background_color: UColor32 { r: 250, g: 251, b: 252, a: 253 },
        key_size: 1,
        key_spacing: 0,
    };
    let doc = encode_settings(&settings);
    assert_eq!(decode_settings(&doc).unwrap(), settings);
}

#[test]
fn no_tracked_keys_round_trip() {
    let settings = Settings {
        tracked_keys: vec![],
        window_ms: 1,
        decay_per_ms: 7,
        key_color: UColor32 { r: 0, g: 0, b: 0, a: 0 },
        background_color: UColor32 { r: 0, g: 0, b: 0, a: 0 },
        key_size: 10,
        key_spacing: 2,
    };
    let doc = encode_settings(&settings);
    assert_eq!(decode_settings(&doc).unwrap(), settings);
}

#[test]
fn corrupt_documents_are_rejected() {
    // Not decimal lines at all.
    assert_eq!(decode_settings(&b"hello".to_vec()), None);
    // Truncated: too few fields.
    assert_eq!(decode_settings(&b"1000\n4\n".to_vec()), None);
    // A zero window length is invalid.
    let zero_window = b"0\n4\n64\n8\n255\n255\n255\n255\n0\n0\n0\n255\n0\n".to_vec();
    assert_eq!(decode_settings(&zero_window), None);
    // A color component out of range.
    let bad_color = b"1000\n4\n64\n8\n256\n255\n255\n255\n0\n0\n0\n255\n0\n".to_vec();
    assert_eq!(decode_settings(&bad_color), None);
    // Key count that does not match the keys that follow.
    let bad_count = b"1000\n4\n64\n8\n255\n255\n255\n255\n0\n0\n0\n255\n2\n90\n".to_vec();
    assert_eq!(decode_settings(&bad_count), None);
    // A repeated tracked key.
    let dup_keys = b"1000\n4\n64\n8\n255\n255\n255\n255\n0\n0\n0\n255\n2\n90\n90\n".to_vec();
    assert_eq!(decode_settings(&dup_keys), None);
    // A value too large for u64 (21 digits).
    let huge = b"184467440737095516150\n4\n64\n8\n255\n255\n255\n255\n0\n0\n0\n255\n0\n".to_vec();
    assert_eq!(decode_settings(&huge), None);
    // Missing trailing newline.
    let no_newline = b"1000\n4\n64\n8\n255\n255\n255\n255\n0\n0\n0\n255\n0".to_vec();
    assert_eq!(decode_settings(&no_newline), None);
}

#[test]
fn unreadable_document_falls_back_to_defaults() {
    let fallback = settings_from_document(&b"not a settings file".to_vec());
    assert_eq!(fallback, Settings::default());
    // A good document is taken as is.
    let settings = Settings::default();
    let taken = settings_from_document(&encode_settings(&settings));
    assert_eq!(taken, settings);
}

#[test]
fn default_settings_are_well_formed() {
    let s = Settings::default();
    assert_eq!(s.tracked_keys, vec![90, 88]);
    assert_eq!(s.window_ms, 1000);
    assert_eq!(s.decay_per_ms, 4);
    assert_eq!(s.key_size, 64);
    assert_eq!(s.key_spacing, 8);
}

#[test]
fn tmp() {
    let ucolor = UColor32::white().with_a(128);
    println!("{:?}", ucolor);
    assert_eq!(ucolor, UColor32 { r: 255, g: 255, b: 255, a: 128 });
}
