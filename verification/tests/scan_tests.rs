use patternscan::{scan, scan_first_match, SliceSource, CHUNK_SIZE};

#[test]
fn simple_scan_start() {
    let bytes = vec![0x10, 0x20, 0x30, 0x40, 0x50];
    let pattern = "10 20 30";

    assert_eq!(scan(SliceSource::new(bytes), &pattern).unwrap(), vec![0]);
}

#[test]
fn simple_scan_middle() {
    let bytes = vec![0x10, 0x20, 0x30, 0x40, 0x50];
    let pattern = "20 30 40";

    assert_eq!(scan(SliceSource::new(bytes), &pattern).unwrap(), vec![1]);
}

#[test]
fn scan_bad_exceeds() {
    let bytes = vec![0x10, 0x20, 0x30, 0x40, 0x50];
    let pattern = "40 50 60";

    assert_eq!(scan(SliceSource::new(bytes), &pattern).unwrap(), vec![]);
}

#[test]
fn scan_exists() {
    let bytes = vec![0xff, 0xfe, 0x7c, 0x88, 0xfd, 0x90, 0x00];
    let pattern = "fe 7c 88 fd 90 0";

    assert_eq!(scan(SliceSource::new(bytes), &pattern).unwrap(), vec![1]);
}

#[test]
fn scan_exists_multiple_q() {
    let bytes = vec![0xff, 0xfe, 0x7c, 0x88, 0xfd, 0x90, 0x00];
    let pattern = "fe ? ? ? 90";

    assert_eq!(scan(SliceSource::new(bytes), &pattern).unwrap(), vec![1]);
}

#[test]
fn scan_exists_multiple_q_starts() {
    let bytes = vec![0xff, 0xfe, 0x7c, 0x88, 0xfd, 0x90, 0x00];
    let pattern = "? ? ? ? fd";

    assert_eq!(scan(SliceSource::new(bytes), &pattern).unwrap(), vec![0]);
}

#[test]
fn scan_nexists_1() {
    let bytes = vec![0xff, 0xfe, 0x7c, 0x88, 0xfd, 0x90, 0x00];
    let pattern = "78 90 cc dd fe";

    assert_eq!(scan(SliceSource::new(bytes), &pattern).unwrap(), vec![]);
}

#[test]
fn scan_nexists_2() {
    let bytes = vec![0xff, 0xfe, 0x7c, 0x88, 0xfd, 0x90, 0x00];
    let pattern = "fe 7c 88 fd 90 1";

    assert_eq!(scan(SliceSource::new(bytes), &pattern).unwrap(), vec![]);
}

#[test]
fn scan_pattern_larger_than_bytes() {
    let bytes = vec![0xff, 0xfe, 0x7c, 0x88, 0xfd, 0x90, 0x00];
    let pattern = "fe 7c 88 fd 90 0 1";

    assert_eq!(scan(SliceSource::new(bytes), &pattern).unwrap(), vec![]);
}

#[test]
fn scan_multiple_instances_of_pattern() {
    let bytes = vec![0x10, 0x20, 0x30, 0x10, 0x20, 0x30];
    let pattern = "10 20 30";

    assert_eq!(scan(SliceSource::new(bytes), &pattern).unwrap(), vec![0, 3]);
}

#[test]
fn scan_multiple_instances_q() {
    let bytes = vec![0x10, 0x20, 0x30, 0x10, 0x40, 0x30];
    let pattern = "10 ? 30";

    assert_eq!(scan(SliceSource::new(bytes), &pattern).unwrap(), vec![0, 3]);
}

#[test]
fn scan_rejects_invalid_pattern() {
    let bytes = vec![0x10, 0x20, 0x30];
    let pattern = "10 fff 20";

    assert!(scan(SliceSource::new(bytes), &pattern).is_err());
}

#[test]
fn scan_first_match_simple_start() {
    let bytes = vec![0x10, 0x20, 0x30, 0x40, 0x50];
    let pattern = "10 20 30";

    assert_eq!(
        scan_first_match(SliceSource::new(bytes), &pattern)
            .unwrap()
            .unwrap(),
        0
    );
}

#[test]
fn scan_first_match_simple_middle() {
    let bytes = vec![0x10, 0x20, 0x30, 0x40, 0x50];
    let pattern = "20 30 40";

    assert_eq!(
        scan_first_match(SliceSource::new(bytes), &pattern)
            .unwrap()
            .unwrap(),
        1
    );
}

#[test]
fn scan_first_match_no_match() {
    let bytes = vec![0x10, 0x20, 0x30, 0x40, 0x50];
    let pattern = "10 11 12";

    assert!(scan_first_match(SliceSource::new(bytes), &pattern)
        .unwrap()
        .is_none());
}

#[test]
fn find_across_chunk_boundary() {
    let mut bytes = vec![0; CHUNK_SIZE - 2];
    bytes.push(0xaa);
    bytes.push(0xbb);
    bytes.push(0xcc);
    bytes.push(0xdd);
    let pattern = "aa bb cc dd";

    assert!(scan_first_match(SliceSource::new(bytes), &pattern)
        .unwrap()
        .is_some())
}
