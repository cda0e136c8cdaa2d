use rcompare::cache_journal::{frame_record, split_journal};

#[test]
fn framed_records_read_back_in_order() {
    let mut journal = frame_record(b"first");
    journal.extend(frame_record(b""));
    journal.extend(frame_record(&[7u8; 300]));
    assert_eq!(&journal[..8], &[5, 0, 0, 0, 0, 0, 0, 0]);
    let (records, damaged) = split_journal(&journal);
    assert!(!damaged);
    assert_eq!(records, vec![b"first".to_vec(), Vec::new(), vec![7u8; 300]]);
}

#[test]
fn a_cut_last_record_keeps_the_earlier_ones() {
    let mut journal = frame_record(b"kept");
    let last = frame_record(b"lost in a crash");
    journal.extend(&last[..last.len() - 3]);
    let (records, damaged) = split_journal(&journal);
    assert!(damaged);
    assert_eq!(records, vec![b"kept".to_vec()]);
    let (none, cut_length) = split_journal(&last[..5]);
    assert!(cut_length && none.is_empty());
}

#[test]
fn an_oversized_length_is_damage() {
    let mut journal = frame_record(b"ok");
    journal.extend((8u64 * 1024 * 1024 + 1).to_le_bytes());
    journal.extend([0u8; 16]);
    let (records, damaged) = split_journal(&journal);
    assert!(damaged);
    assert_eq!(records, vec![b"ok".to_vec()]);
    assert_eq!(split_journal(&[]), (Vec::<Vec<u8>>::new(), false));
}
