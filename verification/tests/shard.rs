use patpubrender::shard::{
    frame_payload, frame_text, index_row, parse_shard_index, parse_u64, IntErrorKind, ShardCursor,
    ShardPointer,
};

#[test]
fn write_then_read_roundtrips_each_frame() {
    let docs = [("US1", "alpha doc"), ("US2", "beta doc body")];

    let mut writer = ShardCursor::new("wk01");
    let mut zst: Vec<u8> = Vec::new();
    let mut idx = String::new();
    let mut pointers = Vec::new();
    for (key, body) in &docs {
        let appended = writer.append(key, body.as_bytes()).unwrap();
        zst.extend_from_slice(&appended.frame);
        idx.push_str(&appended.index_row);
        pointers.push((key, appended.pointer));
    }

    let entries = parse_shard_index("wk01", &idx).unwrap();
    assert_eq!(entries.len(), 2);

    for ((_, body), entry) in docs.iter().zip(&entries) {
        let start = entry.pointer.offset as usize;
        let end = start + entry.pointer.length as usize;
        let bytes = frame_payload(&zst[start..end]).unwrap();
        assert_eq!(&frame_text(&entry.pointer.shard, bytes).unwrap(), body);
    }

    for ((_, body), (_, ptr)) in docs.iter().zip(&pointers) {
        let start = ptr.offset as usize;
        let bytes = frame_payload(&zst[start..start + ptr.length as usize]).unwrap();
        assert_eq!(&String::from_utf8(bytes).unwrap(), body);
    }
}

#[test]
fn pointers_advance_by_frame_length() {
    let mut writer = ShardCursor::new("s");
    let a = writer.append("A", b"first").unwrap();
    let b = writer.append("B", b"second").unwrap();
    assert_eq!(a.pointer, ShardPointer::new("s", 0, a.frame.len() as u64));
    assert_eq!(b.pointer.offset, a.frame.len() as u64);
    assert_eq!(writer.offset, (a.frame.len() + b.frame.len()) as u64);
    assert_eq!(a.index_row, format!("A\t0\t{}\n", a.frame.len()));
}

#[test]
fn index_rows_and_numbers() {
    assert_eq!(index_row("US9", 12, 345), "US9\t12\t345\n");
    assert_eq!(parse_u64(&['4', '2']), Ok(42));
    assert_eq!(parse_u64(&['+', '7']), Ok(7));
    assert_eq!(parse_u64(&[]), Err(IntErrorKind::Empty));
    assert_eq!(parse_u64(&['+']), Err(IntErrorKind::InvalidDigit));
    assert_eq!(parse_u64(&['1', 'x']), Err(IntErrorKind::InvalidDigit));
    let big: Vec<char> = "18446744073709551616".chars().collect();
    assert_eq!(parse_u64(&big), Err(IntErrorKind::PosOverflow));
    let max: Vec<char> = "18446744073709551615".chars().collect();
    assert_eq!(parse_u64(&max), Ok(u64::MAX));
}

#[test]
fn index_parse_skips_blank_lines_and_reports_bad_ones() {
    let entries = parse_shard_index("w", "\n a\t1\t2 \r\n\nb\t3\t4\n").unwrap();
    assert_eq!(entries.len(), 2);
    assert_eq!(entries[0].doc_key, "a");
    assert_eq!(entries[0].pointer, ShardPointer::new("w", 1, 2));
    assert_eq!(entries[1].pointer, ShardPointer::new("w", 3, 4));

    let e = parse_shard_index("w", "a\t1\t2\nb\t3\n").unwrap_err();
    assert_eq!(e.line_number, 2);
    assert_eq!(e.message(), "invalid shard index line 2: expected 3 tab-separated fields");
    let e = parse_shard_index("w", "k\t1\t2\t3\n").unwrap_err();
    assert_eq!(e.message(), "invalid shard index line 1: expected 3 tab-separated fields");
    let e = parse_shard_index("w", "k\tx\t2\n").unwrap_err();
    assert_eq!(e.message(), "invalid shard index line 1: offset: invalid digit found in string");
    let e = parse_shard_index("w", "k\t1\t-2\n").unwrap_err();
    assert_eq!(e.reason, "length: invalid digit found in string");
}

#[test]
fn corrupt_frame_is_an_error_and_bad_utf8_is_reported() {
    assert!(frame_payload(b"not a zstd frame").is_err());
    let e = frame_text("wk", vec![0xff, 0xfe]).unwrap_err();
    assert!(e.starts_with("decompressed wk document was not UTF-8: "));
}

#[test]
fn shard_paths_join_the_trimmed_name() {
    let p = patpubrender::shard::shard_path("/data/shards", " wk01 ");
    assert!(p.ends_with("wk01.zst"));
    let ptr = ShardPointer::new("wk02", 0, 0);
    assert!(ptr.shard_path("/data").ends_with("wk02.zst"));
}

#[test]
fn placed_frame_follows_the_previous_one() {
    let mut cursor = ShardCursor::new("wk02");
    cursor.offset = 10;
    let placed = cursor.place_frame("US9", vec![1u8, 2, 3]).expect("fits");
    assert_eq!(placed.frame, vec![1u8, 2, 3]);
    assert_eq!(placed.pointer.offset, 10);
    assert_eq!(placed.pointer.length, 3);
    assert_eq!(placed.index_row, "US9\t10\t3\n");
    assert_eq!(cursor.offset, 13);
}

#[test]
fn frame_past_the_largest_offset_is_refused() {
    let mut cursor = ShardCursor::new("wk03");
    cursor.offset = u64::MAX - 1;
    match cursor.place_frame("US9", vec![1u8, 2]) {
        Err(m) => assert_eq!(m, "shard offset overflow"),
        Ok(_) => panic!("overflow accepted"),
    }
    assert_eq!(cursor.offset, u64::MAX - 1);
}

#[test]
fn shard_path_joins_trimmed_name_under_root() {
    let p = patpubrender::shard::shard_path("/data/shards", " ipg260101 ");
    assert_eq!(p, "/data/shards/ipg260101.zst");
    let ptr = patpubrender::shard::ShardPointer::new("ipg260101", 0, 1);
    assert_eq!(ptr.shard_path("/data/shards"), "/data/shards/ipg260101.zst");
}

#[test]
fn appended_frame_decodes_to_its_payload() {
    let mut cursor = ShardCursor::new("wk04");
    let a = cursor.append("US1", b"payload bytes").expect("appends");
    assert_eq!(frame_payload(&a.frame).unwrap(), b"payload bytes".to_vec());
    assert_eq!(a.pointer.offset, 0);
    let b = cursor.append("US2", b"more").expect("appends");
    assert_eq!(b.pointer.offset, a.pointer.length);
    assert_eq!(cursor.offset, a.pointer.length + b.pointer.length);
}

#[test]
fn entries_are_found_by_their_first_key() {
    let entries = parse_shard_index("s", "A\t0\t3\nB\t3\t4\nA\t7\t1\n").unwrap();
    assert_eq!(patpubrender::shard::find_entry(&entries, "A"), Some(0));
    assert_eq!(patpubrender::shard::find_entry(&entries, "B"), Some(1));
    assert_eq!(patpubrender::shard::find_entry(&entries, "C"), None);
}
