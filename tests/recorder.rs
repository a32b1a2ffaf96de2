use video_relay::chunk::Timestamp;
use video_relay::recorder::{Recorder, CUE_INTERVAL_MS, WINDOW_MS};

fn at(ms: i64) -> Timestamp {
    let secs = ms / 1000;
    Timestamp {
        epoch_ms: 1_700_000_000_000 + ms,
        year: 2024,
        month: 1,
        day: 2,
        hour: 10,
        minute: (secs / 60) as u8,
        second: (secs % 60) as u8,
    }
}

fn text(v: Vec<u8>) -> String {
    String::from_utf8(v).unwrap()
}

/// Drives a recorder over chunks captured at `times`, as the disk loop does:
/// append the payload to the open file, then rotate when asked.
fn simulate(times: &[i64]) -> (Vec<(String, Vec<u8>)>, Vec<String>) {
    let mut rec = Recorder::new(at(0), WINDOW_MS, CUE_INTERVAL_MS);
    let mut files = vec![(text(rec.current_file_name()), Vec::new())];
    let mut cues = Vec::new();
    for (i, t) in times.iter().enumerate() {
        let step = rec.on_chunk(&at(*t));
        files.last_mut().unwrap().1.push(i as u8);
        if let Some(cue) = step.cue {
            cues.push(text(cue));
        }
        if let Some(name) = step.rotate_to {
            files.push((text(name), Vec::new()));
        }
    }
    (files, cues)
}

#[test]
fn rotation_splits_chunks_by_window() {
    let times: Vec<i64> = (0..25).map(|i| i * 7_000).collect();
    let (files, _) = simulate(&times);
    // 0..168 s of chunks, one every 7 s: rotations at 63 s and 126 s.
    assert_eq!(files.len(), 3);
    assert_eq!(files[0].0, "2024-01-02T10:00:00.ts");
    assert_eq!(files[1].0, "2024-01-02T10:01:03.ts");
    assert_eq!(files[2].0, "2024-01-02T10:02:06.ts");
    assert_eq!(files[0].1, (0..=9).collect::<Vec<u8>>());
    assert_eq!(files[1].1, (10..=18).collect::<Vec<u8>>());
    assert_eq!(files[2].1, (19..=24).collect::<Vec<u8>>());
    let all: Vec<u8> = files.iter().flat_map(|f| f.1.clone()).collect();
    assert_eq!(all, (0..25).collect::<Vec<u8>>());
}

#[test]
fn no_rotation_within_one_window() {
    let (files, _) = simulate(&[0, 10_000, 59_999]);
    assert_eq!(files.len(), 1);
    assert_eq!(files[0].1, vec![0, 1, 2]);
}

#[test]
fn rotation_at_exactly_one_window() {
    let (files, _) = simulate(&[0, 60_000, 60_001]);
    assert_eq!(files.len(), 2);
    assert_eq!(files[0].1, vec![0, 1]);
    assert_eq!(files[1].1, vec![2]);
    assert_eq!(files[1].0, "2024-01-02T10:01:00.ts");
}

#[test]
fn caption_cues_every_second() {
    let (_, cues) = simulate(&[300, 1_100, 2_400]);
    assert_eq!(cues.len(), 2);
    assert_eq!(cues[0], "1\n00:00:00,000 --> 00:00:01,100\n10:00:01\n\n");
    assert_eq!(cues[1], "2\n00:00:01,100 --> 00:00:02,400\n10:00:02\n\n");
}

#[test]
fn cue_numbers_restart_in_a_new_window() {
    let mut rec = Recorder::new(at(0), WINDOW_MS, CUE_INTERVAL_MS);
    let first = rec.on_chunk(&at(61_000));
    assert_eq!(text(first.cue.unwrap()), "1\n00:00:00,000 --> 00:01:01,000\n10:01:01\n\n");
    assert!(first.rotate_to.is_some());
    assert_eq!(rec.next_cue_id, 1);
    let second = rec.on_chunk(&at(62_500));
    assert_eq!(text(second.cue.unwrap()), "1\n00:00:00,000 --> 00:00:01,500\n10:01:02\n\n");
    assert_eq!(text(rec.current_caption_name()), "2024-01-02T10:01:01.srt");
}

#[test]
fn starting_now_reads_the_clock() {
    let rec = Recorder::starting_now(WINDOW_MS, CUE_INTERVAL_MS);
    assert!(rec.window_start.year >= 2000);
    assert!(rec.window_start.epoch_ms > 946_684_800_000);
    assert_eq!(rec.next_cue_id, 1);
}

fn chunks_at(times: &[i64]) -> Vec<video_relay::chunk::Chunk> {
    times
        .iter()
        .enumerate()
        .map(|(i, t)| video_relay::chunk::Chunk {
            payload: vec![i as u8],
            source: String::from("cam"),
            sequence_id: i,
            captured_at: at(*t),
        })
        .collect()
}

#[test]
fn record_run_matches_step_by_step() {
    let times: Vec<i64> = (0..25).map(|i| i * 7_000).collect();
    let mut rec = Recorder::new(at(0), WINDOW_MS, CUE_INTERVAL_MS);
    let steps = rec.record_run(&chunks_at(&times));
    assert_eq!(steps.len(), 25);
    let rotated: Vec<usize> =
        steps.iter().enumerate().filter(|(_, s)| s.rotate_to.is_some()).map(|(i, _)| i).collect();
    assert_eq!(rotated, vec![9, 18]);
    assert_eq!(text(steps[9].rotate_to.clone().unwrap()), "2024-01-02T10:01:03.ts");
    assert_eq!(rec.window_start, at(126_000));
}

#[test]
fn record_run_cues_in_one_window() {
    let mut rec = Recorder::new(at(0), WINDOW_MS, CUE_INTERVAL_MS);
    let steps = rec.record_run(&chunks_at(&[300, 1_100, 2_400, 2_900, 3_400]));
    let cues: Vec<String> = steps.into_iter().filter_map(|s| s.cue).map(text).collect();
    assert_eq!(
        cues,
        vec![
            "1\n00:00:00,000 --> 00:00:01,100\n10:00:01\n\n",
            "2\n00:00:01,100 --> 00:00:02,400\n10:00:02\n\n",
            "3\n00:00:02,400 --> 00:00:03,400\n10:00:03\n\n",
        ]
    );
    assert_eq!(rec.next_cue_id, 4);
}

#[test]
fn evenly_spaced_chunks_make_ceiling_many_files() {
    // 30 chunks every 5 s span 150 s: ceil(150 / 60) = 3 files.
    let times: Vec<i64> = (0..30).map(|i| i * 5_000).collect();
    let mut rec = Recorder::new(at(0), WINDOW_MS, CUE_INTERVAL_MS);
    let steps = rec.record_run(&chunks_at(&times));
    let files = 1 + steps.iter().filter(|s| s.rotate_to.is_some()).count();
    assert_eq!(files, 3);
}
