use video_relay::tail::{
    freshest_recording, is_recording_path, same_file_name, DirEntryInfo, TailAction, TailPhase, TailSession,
    TransferOutcome, WatchEvent, TRANSFER_CHUNK,
};

fn entry(name: &str, is_file: bool, modified_ns: i128) -> DirEntryInfo {
    DirEntryInfo { name: name.as_bytes().to_vec(), is_file, modified_ns }
}

fn streaming(path: &str, len: u64) -> TailSession {
    let mut s = TailSession::new(TRANSFER_CHUNK);
    s.on_located(path.as_bytes().to_vec(), len);
    s
}

fn changed(path: &str) -> WatchEvent {
    WatchEvent::ContentChanged { path: path.as_bytes().to_vec() }
}

#[test]
fn recording_paths() {
    assert!(is_recording_path(b"2024-01-02T10:00:00.ts"));
    assert!(is_recording_path(b"./dir/a.ts"));
    assert!(is_recording_path(b"..ts"));
    assert!(!is_recording_path(b".ts"));
    assert!(!is_recording_path(b"dir/.ts"));
    assert!(!is_recording_path(b"a.srt"));
    assert!(!is_recording_path(b"a.ts/b"));
    assert!(!is_recording_path(b"ts"));
    assert!(!is_recording_path(b""));
}

#[test]
fn freshest_picks_latest_recording_file() {
    let entries = vec![
        entry("a.ts", true, 10),
        entry("b.ts", true, 30),
        entry("c.srt", true, 99),
        entry("d.ts", false, 50),
        entry("e.ts", true, 20),
    ];
    assert_eq!(freshest_recording(&entries), Some(1));
}

#[test]
fn freshest_tie_takes_last_listed() {
    let entries = vec![entry("a.ts", true, 30), entry("b.ts", true, 30), entry("c.ts", true, 5)];
    assert_eq!(freshest_recording(&entries), Some(1));
}

#[test]
fn freshest_none_without_recordings() {
    assert_eq!(freshest_recording(&vec![]), None);
    assert_eq!(freshest_recording(&vec![entry("x.srt", true, 1), entry("y.ts", false, 2)]), None);
}

#[test]
fn session_starts_one_chunk_before_end() {
    let s = streaming("a.ts", 10_000);
    assert_eq!(s.phase(), TailPhase::Streaming);
    assert_eq!(s.offset(), 10_000 - TRANSFER_CHUNK);
    let short = streaming("a.ts", 500);
    assert_eq!(short.offset(), 0);
    let fresh = streaming("a.ts", 0);
    assert_eq!(fresh.offset(), 0);
}

#[test]
fn transfers_advance_offset_by_sent_bytes() {
    let len = 5_000;
    let mut s = streaming("a.ts", len);
    let start = s.offset();
    assert!(len - start <= TRANSFER_CHUNK);
    let sizes = [1472u64, 100, 7, 1472];
    for n in sizes {
        match s.on_event(changed("a.ts")) {
            TailAction::Transfer { offset, max_len } => {
                assert_eq!(offset, s.offset());
                assert_eq!(max_len, TRANSFER_CHUNK);
            }
            _ => panic!("expected a transfer"),
        }
        assert!(matches!(s.on_transfer(TransferOutcome::Sent(n)), TailAction::Wait));
    }
    assert_eq!(s.offset(), start + sizes.iter().sum::<u64>());
}

#[test]
fn zero_byte_transfer_pauses() {
    let mut s = streaming("a.ts", 3_000);
    let before = s.offset();
    assert!(matches!(s.on_transfer(TransferOutcome::Sent(0)), TailAction::Pause));
    assert_eq!(s.offset(), before);
    assert_eq!(s.phase(), TailPhase::Streaming);
}

#[test]
fn failed_transfer_ends_session() {
    let mut s = streaming("a.ts", 3_000);
    assert!(matches!(s.on_transfer(TransferOutcome::Failed), TailAction::Stop));
    assert_eq!(s.phase(), TailPhase::Failed);
}

#[test]
fn offset_saturates() {
    let mut s = streaming("a.ts", u64::MAX);
    s.on_transfer(TransferOutcome::Sent(10_000));
    assert_eq!(s.offset(), u64::MAX);
}

#[test]
fn new_recording_file_resets_offset() {
    let mut s = streaming("old.ts", 9_000);
    let created = WatchEvent::FileCreated { path: b"./new.ts".to_vec() };
    match s.on_event(created) {
        TailAction::SwitchTo { path } => assert_eq!(path, b"./new.ts".to_vec()),
        _ => panic!("expected a switch"),
    }
    assert_eq!(s.offset(), 0);
    assert_eq!(s.file(), &b"./new.ts".to_vec());
    s.on_event(changed("old.ts"));
    s.on_transfer(TransferOutcome::Sent(200));
    s.on_event(WatchEvent::FileCreated { path: b"./new.srt".to_vec() });
    s.on_event(WatchEvent::WatchError);
    assert_eq!(s.file(), &b"./new.ts".to_vec());
    assert_eq!(s.offset(), 200);
}

#[test]
fn other_events_change_nothing() {
    let mut s = streaming("a.ts", 4_000);
    let before = s.offset();
    assert!(matches!(s.on_event(WatchEvent::Other), TailAction::Wait));
    assert!(matches!(s.on_event(WatchEvent::WatchError), TailAction::Wait));
    assert!(matches!(s.on_event(changed("a.srt")), TailAction::Wait));
    assert!(matches!(
        s.on_event(WatchEvent::FileCreated { path: b"notes.txt".to_vec() }),
        TailAction::Wait
    ));
    assert_eq!(s.offset(), before);
    assert_eq!(s.file(), &b"a.ts".to_vec());
}

#[test]
fn closed_channel_ends_session() {
    let mut s = streaming("a.ts", 4_000);
    assert!(matches!(s.on_event(WatchEvent::Closed), TailAction::Stop));
    assert_eq!(s.phase(), TailPhase::Failed);
}

#[test]
fn open_failure_goes_back_to_locating() {
    let mut s = streaming("a.ts", 4_000);
    s.on_event(WatchEvent::FileCreated { path: b"b.ts".to_vec() });
    assert!(matches!(s.on_open_failed(), TailAction::Locate));
    assert_eq!(s.phase(), TailPhase::Locating);
    s.on_located(b"c.ts".to_vec(), 2_000);
    assert_eq!(s.offset(), 2_000 - TRANSFER_CHUNK);
}

#[test]
fn change_of_another_recording_file_sends_nothing() {
    let mut s = streaming("a.ts", 4_000);
    let before = s.offset();
    assert!(matches!(s.on_event(changed("b.ts")), TailAction::Wait));
    assert!(matches!(s.on_event(changed("./dir/b.ts")), TailAction::Wait));
    assert_eq!(s.offset(), before);
    assert_eq!(s.file(), &b"a.ts".to_vec());
    assert_eq!(s.phase(), TailPhase::Streaming);
}

#[test]
fn change_of_tailed_file_under_another_directory_prefix_transfers() {
    let mut s = streaming("a.ts", 4_000);
    match s.on_event(changed("./a.ts")) {
        TailAction::Transfer { offset, .. } => assert_eq!(offset, 4_000 - TRANSFER_CHUNK),
        _ => panic!("expected a transfer"),
    }
}

#[test]
fn same_file_name_compares_final_components() {
    assert!(same_file_name(b"./x.ts", b"x.ts"));
    assert!(same_file_name(b"/a/b/x.ts", b"./x.ts"));
    assert!(!same_file_name(b"./x.ts", b"y.ts"));
    assert!(!same_file_name(b"x.ts", b"xx.ts"));
    assert!(same_file_name(b"", b"dir/"));
}
