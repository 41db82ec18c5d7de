use raw_read::{dump_rows, format_rows, is_benign_sentinel, view_words, Opt, Requirements};

fn validated(addr: usize, size: usize, per_row: usize) -> Requirements {
    Requirements::try_from(Opt {
        start_addr_bytes: addr,
        size_bytes: size,
        per_row,
    })
    .expect("request should validate")
}

fn words_as_bytes(words: &[u32]) -> Vec<u8> {
    let mut bytes = Vec::new();
    for w in words {
        bytes.extend_from_slice(&w.to_ne_bytes());
    }
    bytes
}

#[test]
fn hex_formatting_is_fixed_width_lowercase() {
    assert_eq!(raw_read::hex::format_hex(0x1000), "0x00001000");
    assert_eq!(raw_read::hex::format_hex(0), "0x00000000");
    assert_eq!(raw_read::hex::format_hex(0xdead_beef), "0xdeadbeef");
    assert_eq!(raw_read::hex::format_hex(0xfedc_ba98_7654_3210), "0xfedcba9876543210");
}

#[test]
fn sentinel_words_are_benign_all_others_flagged() {
    assert!(is_benign_sentinel(0xffff_ffff));
    assert!(is_benign_sentinel(0xdead_beef));
    assert!(!is_benign_sentinel(0));
    assert!(!is_benign_sentinel(0xdead_beee));
    assert!(!is_benign_sentinel(0x7fff_ffff));
    assert!(!is_benign_sentinel(0x1234_5678));
}

#[test]
fn two_full_rows() {
    // 32 bytes = 8 words at 4 words per row: exactly two full rows.
    let reqs = validated(0x1000, 0x20, 4);
    assert_eq!(reqs.row_count(), 2);
    let words: Vec<u32> = (0..8).collect();
    let rows = format_rows(&reqs, &words);
    assert_eq!(rows.len(), 2);
    assert_eq!(rows[0].header, "0x00001000:");
    assert_eq!(rows[1].header, "0x00001010:");
    assert_eq!(rows[0].words.len(), 4);
    assert_eq!(rows[1].words.len(), 4);
}

#[test]
fn short_final_row() {
    // 20 bytes = 5 words at 4 words per row: a full row, then one word.
    let reqs = validated(0x1000, 0x14, 4);
    assert_eq!(reqs.row_count(), 2);
    let words: Vec<u32> = (0..5).collect();
    let rows = format_rows(&reqs, &words);
    assert_eq!(rows.len(), 2);
    assert_eq!(rows[0].words.len(), 4);
    assert_eq!(rows[1].header, "0x00001010:");
    assert_eq!(rows[1].words.len(), 1);
}

#[test]
fn rows_cover_all_words() {
    for (size, per_row) in [(0x14, 4), (0x20, 4), (0x40, 16), (0x4, 3), (0x0, 5)] {
        let reqs = validated(0, size, per_row);
        let mut covered = 0;
        for i in 0..reqs.row_count() {
            assert_eq!(reqs.row_start(i), 4 * covered);
            covered += reqs.row_word_count(i);
        }
        assert_eq!(covered, size / 4);
    }
}

#[test]
fn word_texts_and_highlights() {
    let reqs = validated(0, 0x10, 2);
    let words = vec![0xffff_ffff, 0x1234_5678, 0xdead_beef, 0];
    let rows = format_rows(&reqs, &words);
    assert_eq!(rows.len(), 2);
    assert_eq!(rows[0].words[0].text, " 0xffffffff");
    assert!(!rows[0].words[0].highlight);
    assert_eq!(rows[0].words[1].text, " 0x12345678");
    assert!(rows[0].words[1].highlight);
    assert_eq!(rows[1].words[0].text, " 0xdeadbeef");
    assert!(!rows[1].words[0].highlight);
    assert_eq!(rows[1].words[1].text, " 0x00000000");
    assert!(rows[1].words[1].highlight);
}

#[test]
fn view_words_reads_native_endian() {
    let bytes = words_as_bytes(&[0x0102_0304, 0xdead_beef]);
    assert_eq!(view_words(&bytes), vec![0x0102_0304, 0xdead_beef]);
}

#[test]
fn dump_from_bytes() {
    let reqs = validated(0x2000, 0xc, 2);
    let view = words_as_bytes(&[0xffff_ffff, 0xabad_1dea, 0xdead_beef]);
    let rows = dump_rows(&reqs, &view);
    assert_eq!(rows.len(), 2);
    assert_eq!(rows[0].header, "0x00002000:");
    assert_eq!(rows[0].words.len(), 2);
    assert_eq!(rows[0].words[0].text, " 0xffffffff");
    assert!(!rows[0].words[0].highlight);
    assert_eq!(rows[0].words[1].text, " 0xabad1dea");
    assert!(rows[0].words[1].highlight);
    assert_eq!(rows[1].header, "0x00002008:");
    assert_eq!(rows[1].words.len(), 1);
    assert_eq!(rows[1].words[0].text, " 0xdeadbeef");
    assert!(!rows[1].words[0].highlight);
}
