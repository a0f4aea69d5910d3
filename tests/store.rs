use electrs::collision::{max_collision, revhex, CollisionScanner, ScanStep};
use electrs::keys::{common_prefix_len, key_has_prefix};
use electrs::scan::{scan_rows, Row};
use electrs::server::{run_server, Action, Event, Phase, ServerState, WAIT_SECS};
use electrs::store::{Compression, Options, WriteMode};

fn tagged(tag: &[u8], rest: &[u8]) -> Vec<u8> {
    let mut k = tag.to_vec();
    k.extend_from_slice(rest);
    k
}

fn row(key: &[u8], value: &[u8]) -> Row {
    Row::new(key.to_vec(), value.to_vec())
}

#[test]
fn collision_reports_longest_run_after_tag() {
    let keys = vec![
        tagged(b"T", b"AAAA"),
        tagged(b"T", b"AAAB"),
        tagged(b"T", b"BBBB"),
    ];
    let found = max_collision(b"T", &keys);
    assert_eq!(found.len(), 1);
    assert_eq!(found[0].len, 3);
    assert_eq!(found[0].prev_suffix, "41414141");
    assert_eq!(found[0].key_suffix, "42414141");
}

#[test]
fn collision_result_independent_of_insertion_order() {
    let orders: Vec<Vec<&[u8]>> = vec![
        vec![b"AAAA", b"AAAB", b"BBBB"],
        vec![b"BBBB", b"AAAA", b"AAAB"],
        vec![b"AAAB", b"BBBB", b"AAAA"],
    ];
    for order in orders {
        let mut keys: Vec<Vec<u8>> = order.iter().map(|s| tagged(b"T", s)).collect();
        keys.sort();
        let found = max_collision(b"T", &keys);
        assert_eq!(found.last().map(|c| c.len), Some(3));
    }
}

#[test]
fn collision_two_byte_run() {
    let keys = vec![
        tagged(b"T", &[0x12, 0x34, 0x56]),
        tagged(b"T", &[0x12, 0x34, 0x78]),
    ];
    let found = max_collision(b"T", &keys);
    assert_eq!(found.len(), 1);
    assert_eq!(found[0].len, 2);
    assert_eq!(found[0].prev_suffix, "563412");
    assert_eq!(found[0].key_suffix, "783412");
}

#[test]
fn collision_reports_only_strict_growth() {
    let keys = vec![
        tagged(b"T", &[0x00, 0x01]),
        tagged(b"T", &[0x01, 0x00]),
        tagged(b"T", &[0x01, 0x01]),
        tagged(b"T", &[0x02, 0x00]),
        tagged(b"T", &[0x02, 0x01]),
    ];
    let found = max_collision(b"T", &keys);
    let lens: Vec<usize> = found.iter().map(|c| c.len).collect();
    assert_eq!(lens, vec![0, 1]);
    assert_eq!(found[1].prev_suffix, "0001");
    assert_eq!(found[1].key_suffix, "0101");
}

#[test]
fn collision_stops_at_other_tag() {
    let keys = vec![
        tagged(b"T", &[0x10, 0x00]),
        tagged(b"T", &[0x20, 0x00]),
        tagged(b"U", &[0x20, 0x00, 0x01]),
    ];
    let found = max_collision(b"T", &keys);
    assert_eq!(found.len(), 1);
    assert_eq!(found[0].len, 0);
}

#[test]
fn collision_single_or_no_key() {
    assert!(max_collision(b"T", &vec![]).is_empty());
    assert!(max_collision(b"T", &vec![tagged(b"T", b"A")]).is_empty());
}

#[test]
fn collision_scanner_steps() {
    let mut s = CollisionScanner::new(b"T");
    assert!(matches!(s.feed(b"Tab"), ScanStep::Next));
    match s.feed(b"Tac") {
        ScanStep::Found(c) => {
            assert_eq!(c.len, 1);
            assert_eq!(c.prev_suffix, "6261");
            assert_eq!(c.key_suffix, "6361");
        }
        _ => panic!("expected a collision"),
    }
    assert!(matches!(s.feed(b"Tad"), ScanStep::Next));
    assert!(matches!(s.feed(b"Ua"), ScanStep::Stop));
}

#[test]
fn revhex_reverses_bytes() {
    assert_eq!(revhex(&[0x01, 0xab, 0xff]), "ffab01");
    assert_eq!(revhex(&[]), "");
}

#[test]
fn common_prefix_and_prefix_test() {
    assert_eq!(common_prefix_len(b"abcd", b"abxy"), 2);
    assert_eq!(common_prefix_len(b"ab", b"abc"), 2);
    assert_eq!(common_prefix_len(b"", b"abc"), 0);
    assert!(key_has_prefix(b"Tabc", b"T"));
    assert!(key_has_prefix(b"T", b"T"));
    assert!(!key_has_prefix(b"", b"T"));
    assert!(!key_has_prefix(b"Uabc", b"T"));
    assert!(key_has_prefix(b"anything", b""));
}

#[test]
fn scan_returns_all_rows_under_prefix() {
    let mut entries = Vec::new();
    for i in 0u16..1000 {
        entries.push(row(&tagged(b"X", &i.to_be_bytes()), &i.to_le_bytes()));
    }
    entries.push(row(b"Y", b"other"));
    let rows = scan_rows(b"X", entries);
    assert_eq!(rows.len(), 1000);
    for (i, r) in rows.iter().enumerate() {
        assert_eq!(r.key, tagged(b"X", &(i as u16).to_be_bytes()));
        assert_eq!(r.value, (i as u16).to_le_bytes().to_vec());
    }
    for w in rows.windows(2) {
        assert!(w[0].key < w[1].key);
    }
}

#[test]
fn scan_excludes_adjacent_prefix() {
    let entries = vec![row(b"T1", b"a"), row(b"T2", b"b"), row(b"U1", b"c"), row(b"T3", b"d")];
    let rows = scan_rows(b"T", entries);
    let keys: Vec<Vec<u8>> = rows.into_iter().map(|r| r.into_pair().0).collect();
    assert_eq!(keys, vec![b"T1".to_vec(), b"T2".to_vec()]);
}

#[test]
fn scan_excludes_shorter_keys() {
    let entries = vec![row(b"TTa", b"1"), row(b"Tb", b"2")];
    let rows = scan_rows(b"TT", entries);
    assert_eq!(rows.len(), 1);
    assert_eq!(rows[0].key, b"TTa".to_vec());
}

#[test]
fn scan_of_empty_range() {
    assert!(scan_rows(b"T", vec![]).is_empty());
    assert!(scan_rows(b"T", vec![row(b"U", b"")]).is_empty());
}

#[test]
fn row_into_pair() {
    let (k, v) = row(b"key", b"value").into_pair();
    assert_eq!(k, b"key".to_vec());
    assert_eq!(v, b"value".to_vec());
}

#[test]
fn bulk_mode_skips_log_and_sync() {
    let o = Options::open("db".to_string());
    assert!(o.bulk_import);
    assert!(o.write_mode() == WriteMode { sync: false, disable_wal: true });
    assert!(o.flush_mode() == WriteMode { sync: true, disable_wal: false });
    let t = o.tuning();
    assert!(t.disable_auto_compactions);
    assert!(t.create_if_missing);
    assert_eq!(t.max_open_files, 2048);
    assert_eq!(t.compaction_readahead_size, 1 << 20);
    assert!(t.leveled_compaction);
    assert!(t.compression == Compression::Snappy);
    assert_eq!(t.target_file_size_base, 128 << 20);
    assert_eq!(t.write_buffer_size, 64 << 20);
    assert_eq!(t.min_write_buffer_number, 2);
    assert_eq!(t.max_write_buffer_number, 3);
    assert_eq!(t.block_size, 1 << 20);
}

#[test]
fn durable_mode_after_transition() {
    let o = Options::open("db".to_string()).enable_compaction();
    assert_eq!(o.path, "db");
    assert!(!o.bulk_import);
    assert!(o.write_mode() == WriteMode { sync: true, disable_wal: false });
    assert!(o.flush_mode() == WriteMode { sync: true, disable_wal: false });
    assert!(!o.tuning().disable_auto_compactions);
}

#[test]
fn server_bulk_path_and_shutdown() {
    let s = ServerState::new(false);
    let (s, a) = run_server(s, Event::Begin);
    assert!(a == Action::BulkLoad && s.phase == Phase::Loading);
    let (s, a) = run_server(s, Event::LoadDone);
    assert!(a == Action::Serve { start_rpc: true, wait_secs: WAIT_SECS });
    assert_eq!(WAIT_SECS, 5);
    let (s, a) = run_server(s, Event::Timeout);
    assert!(a == Action::Serve { start_rpc: false, wait_secs: 5 });
    let (s, a) = run_server(s, Event::Shutdown);
    assert!(a == Action::Exit { success: true } && s.phase == Phase::Stopped);
    let (_, a) = run_server(s, Event::Timeout);
    assert!(a == Action::Idle);
}

#[test]
fn server_incremental_path_and_failure() {
    let s = ServerState::new(true);
    let (s, a) = run_server(s, Event::Begin);
    assert!(a == Action::IncrementalLoad);
    let (s, a) = run_server(s, Event::Failed);
    assert!(a == Action::Exit { success: false } && s.phase == Phase::Stopped);
}

#[test]
fn server_ignores_out_of_order_events() {
    let s = ServerState::new(false);
    let (s2, a) = run_server(s, Event::Timeout);
    assert!(a == Action::Idle && s2 == s);
}

#[test]
fn collision_with_empty_tag() {
    let keys = vec![b"ab".to_vec(), b"ac".to_vec(), b"b".to_vec()];
    let found = max_collision(b"", &keys);
    assert_eq!(found.len(), 1);
    assert_eq!(found[0].len, 1);
    assert_eq!(found[0].prev_suffix, "6261");
    assert_eq!(found[0].key_suffix, "6361");
}
