use love_api::pcm::{source_key, SourceKey};
use love_api::prepare::{
    index_text, parse_index, select_sounds, split_fields, split_lines, summarize_index,
    ArchiveEntry, CacheSummary, SoundsError, MAX_INDEX_BYTES, MAX_SOURCE_BYTES,
};

/// Reads an index as a launch does: parse it, then look up the size of each listed file.
fn read_index(text: &[u8], signature: &str, sounds: usize, sizes: &[(Vec<u8>, u64)]) -> Option<CacheSummary> {
    let (expected, keys) = parse_index(text, signature.as_bytes(), sounds)?;
    let mut found = Vec::new();
    for key in &keys {
        let (_, size) = sizes.iter().find(|(k, _)| *k == key.bytes().to_vec())?;
        found.push(*size);
    }
    summarize_index(expected, &found)
}

#[test]
fn index_rejects_changed_archives_truncation_and_oversized_input() {
    let index = b"BALCACHE1 abc 1 0\n";
    assert_eq!(
        read_index(index, "abc", 1, &[]),
        Some(CacheSummary { files: 0, bytes: 0, reused: true })
    );
    assert!(read_index(index, "changed", 1, &[]).is_none());
    assert!(read_index(index, "abc", 2, &[]).is_none());
    for content in ["", "BALCACHE1 abc 1 1\n", "BALCACHE1 abc 1 0\njunk\n"] {
        assert!(read_index(content.as_bytes(), "abc", 1, &[]).is_none());
    }
    assert!(read_index(&vec![b'a'; MAX_INDEX_BYTES as usize + 1], "abc", 1, &[]).is_none());
}

#[test]
fn written_index_is_read_back() {
    let keys: Vec<SourceKey> = vec![source_key(b"one"), source_key(b"two")];
    let text = index_text(b"f00d", 7, &keys);
    let sizes: Vec<(Vec<u8>, u64)> = keys.iter().map(|k| (k.bytes().to_vec(), 100)).collect();
    assert_eq!(
        read_index(&text, "f00d", 7, &sizes),
        Some(CacheSummary { files: 2, bytes: 200, reused: true })
    );
    assert!(read_index(&text, "f00d", 7, &sizes[..1]).is_none());
}

#[test]
fn index_numbers_and_white_space_read_as_rust_does() {
    assert_eq!(read_index(b"BALCACHE1\tabc  +1 0\r\n", "abc", 1, &[]).map(|s| s.files), Some(0));
    assert!(read_index(b"BALCACHE1 abc 1 -0\n", "abc", 1, &[]).is_none());
    assert!(read_index(b"BALCACHE1 abc 1 0 extra\n", "abc", 1, &[]).is_none());
    assert!(read_index(b"BALCACHE1 abc 99999999999999999999999 0\n", "abc", 1, &[]).is_none());
    assert!(read_index(&[0xff, 0xfe], "abc", 1, &[]).is_none());
    let nbsp = "BALCACHE1\u{a0}abc\u{3000}1 0\n";
    assert_eq!(read_index(nbsp.as_bytes(), "abc", 1, &[]).map(|s| s.files), Some(0));
}

#[test]
fn lines_and_fields_split_as_str_does() {
    for text in ["a\nb", "a\r\nb\n", "\n\nx", "", "one\r", "tab\tand space  \u{2003}end"] {
        let lines: Vec<String> = split_lines(text.as_bytes()).into_iter().map(|l| String::from_utf8(l).unwrap()).collect();
        assert_eq!(lines, text.lines().collect::<Vec<_>>(), "{text:?}");
        let fields: Vec<String> = split_fields(text.as_bytes()).into_iter().map(|l| String::from_utf8(l).unwrap()).collect();
        assert_eq!(fields, text.split_whitespace().collect::<Vec<_>>(), "{text:?}");
    }
}

fn entry(name: &str, size: u64) -> ArchiveEntry {
    ArchiveEntry { name: name.as_bytes().to_vec(), is_dir: name.ends_with('/'), size, crc32: 7 }
}

#[test]
fn sounds_are_the_ogg_files_under_the_sound_directory() {
    let entries = vec![
        entry("main.lua", 10),
        entry("resources/sounds/", 0),
        entry("resources/sounds/chips1.ogg", 100),
        entry("resources/sounds/readme.txt", 5),
        entry("resources/music.ogg", 5),
        entry("resources/sounds/intro.ogg", 200),
    ];
    let (indices, signature) = select_sounds(&entries).unwrap();
    assert_eq!(indices, vec![2, 5]);
    assert_eq!(signature.len(), 64);
    let mut changed = entries.clone();
    changed[5].crc32 = 8;
    assert_ne!(select_sounds(&changed).unwrap().1, signature);
    assert_eq!(select_sounds(&vec![entry("main.lua", 1)]), Err(SoundsError::NoAudio));
    assert_eq!(
        select_sounds(&vec![entry("resources/sounds/a.ogg", MAX_SOURCE_BYTES + 1)]),
        Err(SoundsError::TooLarge(0))
    );
}
