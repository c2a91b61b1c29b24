use patternscan::{
    find_pattern, pattern_matches, scan, scan_bytes, scan_first_match, Error, ErrorKind, Matches,
    Pattern, PatternByte, SliceSource, CHUNK_SIZE,
};

#[test]
fn chunk_boundary_match_offset() {
    let mut bytes = vec![0; CHUNK_SIZE - 2];
    bytes.push(0xaa);
    bytes.push(0xbb);
    bytes.push(0xcc);
    bytes.push(0xdd);
    let pattern = "aa bb cc dd";

    assert_eq!(
        scan(SliceSource::new(bytes), &pattern).unwrap(),
        vec![CHUNK_SIZE - 2]
    );
}

#[test]
fn first_match_across_chunk_boundary_offset() {
    let mut bytes = vec![0; CHUNK_SIZE - 2];
    bytes.push(0xaa);
    bytes.push(0xbb);
    bytes.push(0xcc);
    bytes.push(0xdd);
    let pattern = "aa bb cc dd";

    assert_eq!(
        scan_first_match(SliceSource::new(bytes), &pattern).unwrap(),
        Some(CHUNK_SIZE - 2)
    );
}

#[test]
fn streaming_and_in_memory_agree() {
    let mut bytes = vec![0u8; 3 * CHUNK_SIZE];
    let plants = [5, CHUNK_SIZE - 2, 2 * CHUNK_SIZE - 3, 3 * CHUNK_SIZE - 4];
    for &at in plants.iter() {
        bytes[at] = 0xde;
        bytes[at + 1] = 0xad;
        bytes[at + 2] = 0xbe;
        bytes[at + 3] = 0xef;
    }
    let pattern = "de ad be ef";

    let streamed = scan(SliceSource::new(bytes.clone()), &pattern).unwrap();
    let resident = scan_bytes(&bytes, &pattern).unwrap();
    assert_eq!(streamed, resident);
    assert_eq!(streamed, vec![5, CHUNK_SIZE - 2, 2 * CHUNK_SIZE - 3, 3 * CHUNK_SIZE - 4]);
}

#[test]
fn scan_bytes_overlapping_instances() {
    let bytes = vec![0x10, 0x20, 0x30, 0x10, 0x40, 0x30];
    let pattern = "10 ? 30";

    assert_eq!(scan_bytes(&bytes, &pattern).unwrap(), vec![0, 3]);
}

#[test]
fn wildcard_only_pattern_matches_everywhere() {
    let bytes = vec![0x01, 0x02, 0x03, 0x04];
    let pattern = "? ?";

    assert_eq!(scan(SliceSource::new(bytes.clone()), &pattern).unwrap(), vec![0, 1, 2]);
    assert_eq!(scan_bytes(&bytes, &pattern).unwrap(), vec![0, 1, 2]);
}

#[test]
fn too_long_pattern_rejected() {
    let mut pattern = String::new();
    let mut i = 0;
    while i < CHUNK_SIZE / 2 + 1 {
        pattern.push_str("aa ");
        i += 1;
    }
    let bytes = vec![0xaa, 0xaa, 0xaa];

    let e = scan(SliceSource::new(bytes), &pattern).unwrap_err();
    assert_eq!(e.kind, ErrorKind::PatternTooLong);
}

#[test]
fn longest_allowed_pattern_accepted() {
    let mut pattern = String::new();
    let mut i = 0;
    while i < CHUNK_SIZE / 2 {
        pattern.push_str("aa ");
        i += 1;
    }
    let bytes = vec![0xaa, 0xaa, 0xaa];

    assert_eq!(scan(SliceSource::new(bytes), &pattern).unwrap(), vec![]);
}

#[test]
fn empty_pattern_rejected() {
    let e = scan(SliceSource::new(vec![0x10, 0x20]), "").unwrap_err();
    assert_eq!(e.kind, ErrorKind::EmptyPattern);

    let e = scan(SliceSource::new(vec![0x10, 0x20]), " \t \r\n ").unwrap_err();
    assert_eq!(e.kind, ErrorKind::EmptyPattern);

    let e = find_pattern(&[0x10, 0x20], "").unwrap_err();
    assert_eq!(e.kind, ErrorKind::EmptyPattern);
}

#[test]
fn invalid_tokens_rejected() {
    let bytes = vec![0x10, 0x20, 0x30];

    let e = scan(SliceSource::new(bytes.clone()), "fff").unwrap_err();
    assert_eq!(e.kind, ErrorKind::InvalidPatternToken);

    let e = scan(SliceSource::new(bytes.clone()), "zz").unwrap_err();
    assert_eq!(e.kind, ErrorKind::InvalidPatternToken);

    let e = scan(SliceSource::new(bytes.clone()), "+5").unwrap_err();
    assert_eq!(e.kind, ErrorKind::InvalidPatternToken);

    let e = scan(SliceSource::new(bytes), "10 ?x 20").unwrap_err();
    assert_eq!(e.kind, ErrorKind::InvalidPatternToken);
}

#[test]
fn pattern_byte_parse_values() {
    assert_eq!(PatternByte::parse("0a").unwrap(), PatternByte::Byte(0x0a));
    assert_eq!(PatternByte::parse("F").unwrap(), PatternByte::Byte(0x0f));
    assert_eq!(PatternByte::parse("FF").unwrap(), PatternByte::Byte(0xff));
    assert_eq!(PatternByte::parse("00").unwrap(), PatternByte::Byte(0x00));
    assert_eq!(PatternByte::parse("?").unwrap(), PatternByte::Any);
    assert!(PatternByte::parse("fff").is_err());
    assert!(PatternByte::parse("").is_err());
    assert!(PatternByte::parse("g").is_err());
}

#[test]
fn pattern_parse_token_count() {
    assert_eq!(Pattern::parse("10 ? 30").unwrap().len(), 3);
    assert_eq!(Pattern::parse("").unwrap().len(), 0);
    assert_eq!(Pattern::parse("\t10\n20  30\r").unwrap().len(), 3);
}

#[test]
fn whitespace_variants_scan_alike() {
    let bytes = vec![0x10, 0x20, 0x30, 0x40];
    let spaced = scan(SliceSource::new(bytes.clone()), "20 30").unwrap();
    let tabbed = scan(SliceSource::new(bytes), "\t20\n30 ").unwrap();
    assert_eq!(spaced, tabbed);
    assert_eq!(spaced, vec![1]);
}

#[test]
fn hex_digits_case_insensitive() {
    let bytes = vec![0xab, 0xcd, 0xef];
    assert_eq!(scan(SliceSource::new(bytes), "AB cd Ef").unwrap(), vec![0]);
}

#[test]
fn pattern_matches_at_start_only() {
    let bytes = [0x10u8, 0x20, 0x30];

    let p = Pattern::parse("10 ? 30").unwrap();
    assert!(pattern_matches(&bytes, &p));

    let p = Pattern::parse("20 30").unwrap();
    assert!(!pattern_matches(&bytes, &p));

    let p = Pattern::parse("10 20 30 40").unwrap();
    assert!(!pattern_matches(&bytes, &p));

    let p = Pattern::parse("").unwrap();
    assert!(pattern_matches(&bytes, &p));
}

#[test]
fn find_pattern_first_location() {
    let bytes = [0x10, 0x20, 0x30, 0x40, 0x10, 0x20, 0x50, 0x50, 0x90, 0x90, 0x80];

    assert_eq!(find_pattern(&bytes, "90 ? 80").unwrap(), Some(8));
    assert_eq!(find_pattern(&bytes, "10 20").unwrap(), Some(0));
    assert_eq!(find_pattern(&bytes, "77").unwrap(), None);
    assert!(find_pattern(&bytes, "10 fff").is_err());
}

#[test]
fn session_pulls_matches_in_order() {
    let bytes = vec![0x10, 0x20, 0x10, 0x20];
    let mut m = Matches::from_pattern_str(SliceSource::new(bytes), "10 20").unwrap();

    assert_eq!(m.next().unwrap().unwrap(), 0);
    assert_eq!(m.next().unwrap().unwrap(), 2);
    assert!(m.next().is_none());
    assert!(m.next().is_none());
}

#[test]
fn session_from_pattern_value() {
    let p = Pattern::new(vec![PatternByte::Byte(0x20), PatternByte::Any]);
    let bytes = vec![0x10, 0x20, 0x30];
    let mut m = Matches::from_pattern(SliceSource::new(bytes), p).unwrap();

    assert_eq!(m.next().unwrap().unwrap(), 1);
    assert!(m.next().is_none());
}

#[test]
fn scan_empty_source() {
    assert_eq!(scan(SliceSource::new(vec![]), "aa").unwrap(), vec![]);
}

#[test]
fn scan_window_sized_source() {
    let mut bytes = vec![0u8; CHUNK_SIZE];
    let at = CHUNK_SIZE - 3;
    bytes[at] = 0x01;
    bytes[at + 1] = 0x02;
    bytes[at + 2] = 0x03;

    assert_eq!(scan(SliceSource::new(bytes), "1 2 3").unwrap(), vec![at]);
}

#[test]
fn error_new_keeps_message() {
    let e = Error::new(String::from("boom"));
    assert_eq!(e.kind, ErrorKind::Other);
    assert_eq!(e.message, "boom");
}

#[test]
fn first_match_agrees_with_scan() {
    let bytes = vec![0x00, 0x10, 0x20, 0x30, 0x10, 0x20, 0x30];
    let pattern = "10 20 30";

    let all = scan(SliceSource::new(bytes.clone()), &pattern).unwrap();
    let first = scan_first_match(SliceSource::new(bytes), &pattern).unwrap();
    assert_eq!(first, all.first().copied());
    assert_eq!(all, vec![1, 4]);
}
