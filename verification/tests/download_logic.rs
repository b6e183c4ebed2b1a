use egs_client::download::{
    after_attempt, check_manifest_files, chunk_data_or_raw, chunk_parse_would_panic, chunk_percent, concurrency_limit,
    download_result, existing_file_up_to_date, parse_usize, part_slice, sha1_hex, to_hex, total_size, AttemptOutcome,
    FileAssembler, FileDigest, assembled_file_accepted, file_step, FileAction,
};
use egs_client::models::Totals;

fn header(version: u32, compressed: bool) -> Vec<u8> {
    let mut b: Vec<u8> = Vec::new();
    b.extend_from_slice(&2986228386u32.to_le_bytes());
    b.extend_from_slice(&version.to_le_bytes());
    b.extend_from_slice(&40u32.to_le_bytes());
    b.extend_from_slice(&5u32.to_le_bytes());
    for _ in 0..4 {
        b.extend_from_slice(&0u32.to_le_bytes());
    }
    b.extend_from_slice(&42u64.to_le_bytes());
    b.push(if compressed { 1 } else { 0 });
    b
}

#[test]
fn chunk_uncompressed_payload() {
    let mut b = header(1, false);
    b.extend_from_slice(&[1, 2, 3, 4, 5]);
    assert!(!chunk_parse_would_panic(&b));
    assert_eq!(chunk_data_or_raw(b), vec![1, 2, 3, 4, 5]);
}

#[test]
fn chunk_version_two_header_is_skipped() {
    let mut b = header(2, false);
    b.extend_from_slice(&[0xAB; 20]);
    b.push(2);
    b.extend_from_slice(&[9, 8, 7]);
    assert_eq!(chunk_data_or_raw(b), vec![9, 8, 7]);
}

#[test]
fn chunk_compressed_payload_is_inflated() {
    let mut b = header(1, true);
    b.extend_from_slice(&[120, 156, 227, 18, 145, 3, 0, 0, 103, 0, 61]);
    assert_eq!(chunk_data_or_raw(b), vec![10, 20, 30]);
}

#[test]
fn raw_blobs_pass_through() {
    let raw = vec![0u8, 1, 2, 3, 4, 5, 6];
    assert!(!chunk_parse_would_panic(&raw));
    assert_eq!(chunk_data_or_raw(raw.clone()), raw);
}

#[test]
fn short_chunks_are_detected() {
    assert!(chunk_parse_would_panic(&[1, 2, 3]));
    let b = header(1, false);
    assert!(!chunk_parse_would_panic(&b));
    assert!(chunk_parse_would_panic(&b[..40]));
    let v2 = header(2, false);
    assert!(chunk_parse_would_panic(&v2));
    let mut v3 = header(3, false);
    v3.extend_from_slice(&[0u8; 21]);
    assert!(chunk_parse_would_panic(&v3));
    v3.extend_from_slice(&[0u8; 4]);
    assert!(!chunk_parse_would_panic(&v3));
}

#[test]
fn parts_are_cut_from_chunks() {
    let data = vec![10u8, 11, 12, 13, 14];
    assert_eq!(part_slice(&data, 1, 3, "f.bin"), Ok(vec![11, 12, 13]));
    assert_eq!(part_slice(&data, 5, 0, "f.bin"), Ok(vec![]));
    assert_eq!(
        part_slice(&data, 3, 4, "Content/f.uasset"),
        Err("chunk/raw too small for Content/f.uasset [3..7 > 5]".to_string())
    );
}

#[test]
fn sha1_digests() {
    assert_eq!(sha1_hex(b"hello world"), "2aae6c35c94fcfb415dbe95f408b9ce91ee846ed");
    assert_eq!(sha1_hex(b""), "da39a3ee5e6b4b0d3255bfef95601890afd80709");
    let mut d = FileDigest::new();
    d.update(b"hello ");
    d.update(b"world");
    assert_eq!(d.hex(), "2aae6c35c94fcfb415dbe95f408b9ce91ee846ed");
    assert_eq!(to_hex(&[0x00, 0x0f, 0xa0, 0xff]), "000fa0ff");
}

#[test]
fn existing_files_are_kept_when_up_to_date() {
    let h = "11966ab9c099f8fabefac54c08d5be2bd8c903af";
    assert!(existing_file_up_to_date(h, &Some(sha1_hex(&[1, 2, 3, 4, 5])), 0, None));
    assert!(!existing_file_up_to_date(h, &Some(sha1_hex(&[1, 2, 3])), 5, Some(5)));
    assert!(!existing_file_up_to_date(h, &None, 5, Some(5)));
    assert!(existing_file_up_to_date("", &None, 5, Some(5)));
    assert!(!existing_file_up_to_date("", &None, 5, Some(4)));
    assert!(!existing_file_up_to_date("", &None, 5, None));
}

#[test]
fn sizes_add_up() {
    assert_eq!(total_size(&[1, 2, 3]), 6);
    assert_eq!(total_size(&[]), 0);
}

#[test]
fn download_outcomes() {
    assert_eq!(check_manifest_files(0), Err("download manifest contains no files".to_string()));
    assert_eq!(check_manifest_files(3), Ok(()));
    let mut t = Totals::new();
    assert_eq!(
        download_result(&t, 3),
        Err("no files could be downloaded: 3 files listed, 0 skipped (zero chunks)".to_string())
    );
    t.skipped_zero = 2;
    assert_eq!(
        download_result(&t, 2),
        Err("no files could be downloaded: 2 files listed, 2 skipped (zero chunks)".to_string())
    );
    t.up_to_date = 1;
    assert_eq!(download_result(&t, 3), Ok(()));
    let d = Totals { downloaded: 1, skipped_zero: 0, up_to_date: 0, rejected: 0 };
    assert_eq!(download_result(&d, 1), Ok(()));
}

#[test]
fn concurrency_settings() {
    assert_eq!(parse_usize("12"), Some(12));
    assert_eq!(parse_usize("+7"), Some(7));
    assert_eq!(parse_usize(""), None);
    assert_eq!(parse_usize("+"), None);
    assert_eq!(parse_usize(" 3"), None);
    assert_eq!(parse_usize("-1"), None);
    assert_eq!(parse_usize("99999999999999999999999"), None);
    assert_eq!(concurrency_limit(&Some("8".to_string()), 2), 8);
    assert_eq!(concurrency_limit(&Some("0".to_string()), 2), 2);
    assert_eq!(concurrency_limit(&Some("x".to_string()), 4), 4);
    assert_eq!(concurrency_limit(&None, 4), 4);
}

#[test]
fn attempts_and_percentages() {
    assert_eq!(after_attempt(true, true), AttemptOutcome::Cancelled);
    assert_eq!(after_attempt(false, true), AttemptOutcome::Cancelled);
    assert_eq!(after_attempt(true, false), AttemptOutcome::Completed);
    assert_eq!(after_attempt(false, false), AttemptOutcome::TryNext);
    assert_eq!(chunk_percent(0, 3), 33);
    assert_eq!(chunk_percent(2, 3), 100);
}

#[test]
fn assembler_concatenates_parts_in_order() {
    let mut a = FileAssembler::new();
    let first = a.add_part(vec![9, 8, 7, 6, 5], 1, 2, "f").unwrap();
    assert_eq!(first, vec![8, 7]);
    let mut chunk = header(1, false);
    chunk.extend_from_slice(&[1, 2, 3, 4]);
    let second = a.add_part(chunk, 0, 3, "f").unwrap();
    assert_eq!(second, vec![1, 2, 3]);
    let err = a.add_part(vec![0, 0, 0, 0, 0], 4, 5, "f").unwrap_err();
    assert_eq!(err, "chunk/raw too small for f [4..9 > 5]");
    let want = sha1_hex(&[8, 7, 1, 2, 3]);
    let (hex, ok) = a.finish(&want);
    assert_eq!(hex, want);
    assert!(ok);
}

#[test]
fn assembled_file_acceptance() {
    let a = FileAssembler::new();
    let (hex, ok) = a.finish("");
    assert_eq!(hex, "da39a3ee5e6b4b0d3255bfef95601890afd80709");
    assert!(ok);
    let b = FileAssembler::new();
    let (_, ok) = b.finish("0000000000000000000000000000000000000000");
    assert!(!ok);
    assert!(assembled_file_accepted("", "abc"));
    assert!(assembled_file_accepted("abc", "abc"));
    assert!(!assembled_file_accepted("abc", "abd"));
}

#[test]
fn per_file_decisions() {
    assert_eq!(file_step(true, 0, None), FileAction::KeepExisting);
    assert_eq!(file_step(true, 3, Some(false)), FileAction::KeepExisting);
    assert_eq!(file_step(false, 0, None), FileAction::SkipNoParts);
    assert_eq!(file_step(false, 2, None), FileAction::Install);
    assert_eq!(file_step(false, 2, Some(true)), FileAction::Install);
    assert_eq!(file_step(false, 2, Some(false)), FileAction::Reject);
}

#[test]
fn totals_count_each_action() {
    let mut t = Totals::new();
    t.record(FileAction::Install);
    t.record(FileAction::Reject);
    t.record(FileAction::Reject);
    t.record(FileAction::SkipNoParts);
    t.record(FileAction::KeepExisting);
    assert_eq!((t.downloaded, t.rejected, t.skipped_zero, t.up_to_date), (1, 2, 1, 1));
    let mut only_rejected = Totals::new();
    only_rejected.record(FileAction::Reject);
    assert_eq!(
        download_result(&only_rejected, 1),
        Err("no files could be downloaded: 1 files listed, 0 skipped (zero chunks)".to_string())
    );
}
