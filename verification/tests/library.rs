//! The header index: its keys, its hex fields and its file.

use slot::store::library::{
    cache_key, cached_header, collect_index, encode_cache, hex, index_is_stale, read_cache,
    remember, unhex, CachedRecord, Fingerprint, UnhexResult,
};
use slot::store::platform::Platform;

fn record(len: u64, modified_ns: u128, title: &str, code: &str) -> CachedRecord {
    CachedRecord {
        fingerprint: Fingerprint { len, modified_ns },
        title: title.to_string(),
        code: code.to_string(),
    }
}

#[test]
fn keys_carry_the_platform_or_legacy_prefix() {
    assert_eq!(cache_key(Platform::Gba, false, "Zelda.gba"), "GBA/Zelda.gba");
    assert_eq!(cache_key(Platform::Gbc, false, "Zelda.gbc"), "GBC/Zelda.gbc");
    assert_eq!(cache_key(Platform::Gba, true, "Zelda.gba"), "legacy/Zelda.gba");
}

#[test]
fn hex_spells_each_utf8_byte() {
    assert_eq!(hex(""), "");
    assert_eq!(hex("A\t"), "4109");
    assert_eq!(hex("é"), "c3a9");
}

#[test]
fn unhex_undoes_hex_and_refuses_odd_or_foreign_text() {
    assert!(matches!(unhex("4109"), UnhexResult::Text(s) if s == "A\t"));
    assert!(matches!(unhex("c3a9"), UnhexResult::Text(s) if s == "é"));
    assert!(matches!(unhex("41f"), UnhexResult::Invalid));
    assert!(matches!(unhex("zz"), UnhexResult::Invalid));
    // Each pair is read as a base 16 number, which may carry a plus sign.
    assert!(matches!(unhex("+f"), UnhexResult::Text(s) if s == "\u{f}"));
    assert!(matches!(unhex("-f"), UnhexResult::Invalid));
    // A byte sequence that is not UTF-8.
    assert!(matches!(unhex("ff"), UnhexResult::Invalid));
    // A two-byte character that fills a pair is no hex digit.
    assert!(matches!(unhex("éé"), UnhexResult::Invalid));
    // A pair cut through a two-byte character.
    assert!(matches!(unhex("aéb"), UnhexResult::Split));
}

#[test]
fn an_index_reads_back_what_was_written() {
    let records = vec![
        ("GBA/Zelda.gba".to_string(), record(8_388_608, 1_700_000_000_123_456_789, "ZELDA", "BZME")),
        ("GB/Tetris\tDX.gb".to_string(), record(32_768, 0, "TÉTRIS", "")),
    ];
    let text = encode_cache(&records);
    assert!(text.starts_with("slot-library-index=2\n"));
    let back = read_cache(&text).ok().flatten().expect("an index");
    assert_eq!(back, records);
}

#[test]
fn an_index_line_is_hex_and_decimal_fields() {
    let records = vec![("GBA/A.gba".to_string(), record(5, 7, "T", "C"))];
    assert_eq!(
        encode_cache(&records),
        "slot-library-index=2\n4742412f412e676261\t5\t7\t54\t43\n"
    );
}

#[test]
fn a_foreign_or_damaged_index_is_ignored() {
    assert!(matches!(read_cache(""), Ok(None)));
    assert!(matches!(read_cache("slot-library-index=1\n"), Ok(None)));
    assert!(matches!(read_cache("slot-library-index=2\n41\t5\t7\t54\n"), Ok(None)));
    assert!(matches!(read_cache("slot-library-index=2\n41\tfive\t7\t54\t43\n"), Ok(None)));
    assert!(matches!(read_cache("slot-library-index=2\n41\t5\t7\t54\t43\textra\n"), Ok(None)));
    assert!(matches!(read_cache("slot-library-index=2\n"), Ok(Some(v)) if v.is_empty()));
}

#[test]
fn a_hand_edited_line_cut_through_a_character_is_reported() {
    assert!(read_cache("slot-library-index=2\naéb\t5\t7\t54\t43\n").is_err());
}

#[test]
fn a_later_record_for_a_key_stands() {
    let records = vec![
        ("b".to_string(), record(1, 1, "old", "")),
        ("a".to_string(), record(2, 2, "A", "")),
        ("b".to_string(), record(3, 3, "new", "")),
    ];
    let index = collect_index(&records);
    let keys: Vec<&str> = index.iter().map(|(k, _)| k.as_str()).collect();
    assert_eq!(keys, vec!["a", "b"]);
    assert_eq!(index[1].1.title, "new");
}

#[test]
fn a_cached_header_needs_the_same_fingerprint() {
    let cache = vec![("GBA/Zelda.gba".to_string(), record(10, 20, "ZELDA", "BZME"))];
    let same = Fingerprint { len: 10, modified_ns: 20 };
    let touched = Fingerprint { len: 10, modified_ns: 21 };
    assert_eq!(
        cached_header(&cache, "GBA/Zelda.gba", same),
        Some(("ZELDA".to_string(), "BZME".to_string()))
    );
    assert_eq!(cached_header(&cache, "GBA/Zelda.gba", touched), None);
    assert_eq!(cached_header(&cache, "GB/Zelda.gba", same), None);
}

#[test]
fn remembering_replaces_and_keeps_key_order() {
    let mut records = Vec::new();
    remember(&mut records, "m".to_string(), record(1, 1, "M", ""));
    remember(&mut records, "c".to_string(), record(1, 1, "C", ""));
    remember(&mut records, "x".to_string(), record(1, 1, "X", ""));
    remember(&mut records, "m".to_string(), record(2, 2, "M2", ""));
    let keys: Vec<&str> = records.iter().map(|(k, _)| k.as_str()).collect();
    assert_eq!(keys, vec!["c", "m", "x"]);
    assert_eq!(records[1].1.title, "M2");
}

#[test]
fn a_remembered_header_comes_back_across_a_reboot_until_the_rom_changes() {
    let mut records = Vec::new();
    remember(&mut records, "GBA/Zelda.gba".to_string(), record(10, 20, "ZELDA", "BZME"));
    remember(&mut records, "GB/Tetris.gb".to_string(), record(5, 6, "TETRIS", ""));
    let text = encode_cache(&records);
    let read = read_cache(&text).unwrap().unwrap();
    let index = collect_index(&read);
    let same = Fingerprint { len: 10, modified_ns: 20 };
    assert_eq!(
        cached_header(&index, "GBA/Zelda.gba", same),
        Some(("ZELDA".to_string(), "BZME".to_string()))
    );
    assert_eq!(cached_header(&index, "GBA/Zelda.gba", Fingerprint { len: 11, modified_ns: 20 }), None);
    assert_eq!(
        cached_header(&index, "GB/Tetris.gb", Fingerprint { len: 5, modified_ns: 6 }),
        Some(("TETRIS".to_string(), String::new()))
    );
}

#[test]
fn the_index_is_rewritten_when_anything_changed() {
    let one = vec![("a".to_string(), record(1, 1, "A", ""))];
    assert!(index_is_stale(&None, false, &one));
    assert!(!index_is_stale(&Some(one.clone()), false, &one));
    assert!(index_is_stale(&Some(one.clone()), true, &one));
    assert!(index_is_stale(&Some(one.clone()), false, &Vec::new()));
}
