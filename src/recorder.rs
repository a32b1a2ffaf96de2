use crate::chunk::{local_now, Chunk, ChunkView, Timestamp};
use crate::timefmt::{
    caption_file_name, caption_name_for, clock_text, cue_time_text, decimal, file_name_for, push_clock, push_cue_time, push_decimal,
    recording_file_name,
};
use vstd::prelude::*;

verus! {

/// How long one recording file covers, in milliseconds.
pub const WINDOW_MS: i64 = 60000;

/// How often a caption cue is written, in milliseconds.
pub const CUE_INTERVAL_MS: i64 = 1000;

/// Milliseconds from `from` to `to`.
pub open spec fn elapsed_ms(from: Timestamp, to: Timestamp) -> int {
    to.epoch_ms - from.epoch_ms
}

/// Whether a chunk captured at `at` closes the window that started at `start`.
pub open spec fn closes_window(start: Timestamp, at: Timestamp, window_ms: int) -> bool {
    elapsed_ms(start, at) >= window_ms
}

/// The window start once a chunk captured at `at` is taken by a recorder
/// whose window started at `start`.
pub open spec fn window_after(start: Timestamp, at: Timestamp, window_ms: int) -> Timestamp {
    if closes_window(start, at, window_ms) {
        at
    } else {
        start
    }
}

/// Whether a chunk captured at `at` is due a caption cue, the previous cue
/// (or the window start) being at `last_ms`.
pub open spec fn cue_due(last_ms: int, at: Timestamp, interval_ms: int) -> bool {
    at.epoch_ms - last_ms >= interval_ms
}

/// One subtitle cue: its number, its span as offsets into the recording
/// window, and the wall-clock time of the chunk that ends it as its text.
pub open spec fn cue_text(id: nat, from_ms: nat, to_ms: nat, at: Timestamp) -> Seq<u8> {
    decimal(id) + seq![10u8] + cue_time_text(from_ms) + seq![32u8, 45u8, 45u8, 62u8, 32u8]
        + cue_time_text(to_ms) + seq![10u8] + clock_text(at) + seq![10u8, 10u8]
}

/// The recording files, oldest first, and the window start of each, once a
/// recorder whose first window starts at `s0` has taken the chunks `cs`: each
/// chunk is appended to the open file, and a chunk that closes the window
/// opens the next file, whose window starts at that chunk's time.
pub open spec fn recorded(s0: Timestamp, window_ms: int, cs: Seq<ChunkView>) -> (Seq<
    Seq<ChunkView>,
>, Seq<Timestamp>)
    decreases cs.len(),
{
    if cs.len() == 0 {
        (seq![Seq::<ChunkView>::empty()], seq![s0])
    } else {
        let prev = recorded(s0, window_ms, cs.drop_last());
        let files = prev.0;
        let starts = prev.1;
        let c = cs.last();
        let appended = files.update(files.len() - 1, files.last().push(c));
        if closes_window(starts.last(), c.captured_at, window_ms) {
            (
                appended.push(Seq::<ChunkView>::empty()),
                starts.push(window_after(starts.last(), c.captured_at, window_ms)),
            )
        } else {
            (appended, starts)
        }
    }
}

/// The files' contents one after another.
pub open spec fn concat_all(fs: Seq<Seq<ChunkView>>) -> Seq<ChunkView>
    decreases fs.len(),
{
    if fs.len() == 0 {
        Seq::<ChunkView>::empty()
    } else {
        concat_all(fs.drop_last()) + fs.last()
    }
}

/// Chunks captured in order, none before the first window starts.
pub open spec fn in_capture_order(s0: Timestamp, cs: Seq<ChunkView>) -> bool {
    &&& cs.len() > 0 ==> s0.epoch_ms <= cs[0].captured_at.epoch_ms
    &&& forall|i: int, j: int|
        0 <= i < j < cs.len() ==> cs[i].captured_at.epoch_ms <= cs[j].captured_at.epoch_ms
}

proof fn lemma_concat_update_last(fs: Seq<Seq<ChunkView>>, c: ChunkView)
    requires
        fs.len() > 0,
    ensures
        concat_all(fs.update(fs.len() - 1, fs.last().push(c))) == concat_all(fs).push(c),
{
    let g = fs.update(fs.len() - 1, fs.last().push(c));
    assert(g.drop_last() =~= fs.drop_last());
    assert(concat_all(fs.drop_last()) + fs.last().push(c) =~= (concat_all(fs.drop_last())
        + fs.last()).push(c));
}

/// Recording loses no chunk and repeats none: the files, read one after
/// another, hold exactly the chunks taken, in the order they came. There is
/// one window start per file.
pub proof fn lemma_recording_keeps_every_chunk(s0: Timestamp, window_ms: int, cs: Seq<ChunkView>)
    ensures
        concat_all(recorded(s0, window_ms, cs).0) == cs,
        recorded(s0, window_ms, cs).0.len() == recorded(s0, window_ms, cs).1.len(),
        recorded(s0, window_ms, cs).0.len() >= 1,
    decreases cs.len(),
{
    if cs.len() == 0 {
        let fs = recorded(s0, window_ms, cs).0;
        assert(fs.drop_last() =~= Seq::<Seq<ChunkView>>::empty());
        assert(concat_all(fs.drop_last()) =~= Seq::<ChunkView>::empty());
        assert(concat_all(fs) =~= cs);
    } else {
        lemma_recording_keeps_every_chunk(s0, window_ms, cs.drop_last());
        let prev = recorded(s0, window_ms, cs.drop_last());
        let files = prev.0;
        let c = cs.last();
        lemma_concat_update_last(files, c);
        let appended = files.update(files.len() - 1, files.last().push(c));
        let pushed = appended.push(Seq::<ChunkView>::empty());
        assert(pushed.drop_last() =~= appended);
        assert(concat_all(pushed) =~= concat_all(appended));
        assert(cs.drop_last().push(c) =~= cs);
    }
}

proof fn lemma_open_window_started_before(s0: Timestamp, window_ms: int, cs: Seq<ChunkView>)
    requires
        in_capture_order(s0, cs),
        cs.len() > 0,
    ensures
        recorded(s0, window_ms, cs).1.last().epoch_ms <= cs.last().captured_at.epoch_ms,
    decreases cs.len(),
{
    let pre = cs.drop_last();
    lemma_recording_keeps_every_chunk(s0, window_ms, pre);
    let starts = recorded(s0, window_ms, pre).1;
    if pre.len() > 0 {
        assert(in_capture_order(s0, pre));
        lemma_open_window_started_before(s0, window_ms, pre);
        assert(pre.last() == cs[cs.len() - 2]);
    } else {
        assert(starts.last() == s0);
    }
    assert(starts.last().epoch_ms <= cs.last().captured_at.epoch_ms);
}

/// Every chunk in a recording file was captured no earlier than the file's
/// window start, and before the window's end, but for one: the last chunk of
/// each file but the newest is the one that closed its window, and the next
/// file's window starts at its time. Window starts lie at least a window
/// length apart.
pub proof fn lemma_recording_windows(s0: Timestamp, window_ms: int, cs: Seq<ChunkView>)
    requires
        window_ms > 0,
        in_capture_order(s0, cs),
    ensures
        ({
            let files = recorded(s0, window_ms, cs).0;
            let starts = recorded(s0, window_ms, cs).1;
            &&& files.len() == starts.len()
            &&& starts[0] == s0
            &&& forall|k: int| 0 <= k < starts.len() - 1 ==> #[trigger] starts[k + 1].epoch_ms
                >= starts[k].epoch_ms + window_ms
            &&& forall|k: int, j: int|
                0 <= k < files.len() && 0 <= j < files[k].len() ==> {
                    let t = #[trigger] files[k][j].captured_at;
                    &&& starts[k].epoch_ms <= t.epoch_ms
                    &&& t.epoch_ms < starts[k].epoch_ms + window_ms || (k + 1 < files.len() && j
                        + 1 == files[k].len() && starts[k + 1] == t)
                }
        }),
    decreases cs.len(),
{
    lemma_recording_keeps_every_chunk(s0, window_ms, cs);
    if cs.len() > 0 {
        let pre = cs.drop_last();
        assert(in_capture_order(s0, pre));
        lemma_recording_windows(s0, window_ms, pre);
        lemma_recording_keeps_every_chunk(s0, window_ms, pre);
        let prev = recorded(s0, window_ms, pre);
        let files = prev.0;
        let starts = prev.1;
        let c = cs.last();
        if pre.len() > 0 {
            lemma_open_window_started_before(s0, window_ms, pre);
            assert(pre.last() == cs[cs.len() - 2]);
        }
        assert(starts.last().epoch_ms <= c.captured_at.epoch_ms);
        let appended = files.update(files.len() - 1, files.last().push(c));
        let nf = recorded(s0, window_ms, cs).0;
        let ns = recorded(s0, window_ms, cs).1;
        assert forall|k: int, j: int| 0 <= k < nf.len() && 0 <= j < nf[k].len() implies {
            let t = #[trigger] nf[k][j].captured_at;
            &&& ns[k].epoch_ms <= t.epoch_ms
            &&& t.epoch_ms < ns[k].epoch_ms + window_ms || (k + 1 < nf.len() && j + 1
                == nf[k].len() && ns[k + 1] == t)
        } by {
            if k < files.len() - 1 {
                assert(nf[k] == files[k]);
                assert(ns[k + 1] == starts[k + 1]);
            } else if k == files.len() - 1 {
                assert(nf[k] == files[k].push(c));
                if j < files[k].len() {
                    assert(nf[k][j] == files[k][j]);
                }
            }
        }
    }
}

proof fn lemma_starts_spread(starts: Seq<Timestamp>, window_ms: int, k: int)
    requires
        0 <= k < starts.len(),
        forall|i: int| 0 <= i < starts.len() - 1 ==> #[trigger] starts[i + 1].epoch_ms
            >= starts[i].epoch_ms + window_ms,
    ensures
        starts[k].epoch_ms >= starts[0].epoch_ms + k * window_ms,
    decreases k,
{
    if k > 0 {
        lemma_starts_spread(starts, window_ms, k - 1);
        assert(starts[(k - 1) + 1].epoch_ms >= starts[k - 1].epoch_ms + window_ms);
        assert(k * window_ms == (k - 1) * window_ms + window_ms) by (nonlinear_arith);
    } else {
        assert(k * window_ms == 0) by (nonlinear_arith)
            requires
                k == 0,
        ;
    }
}

/// A recorder opens at most one file per window length that the chunks
/// span, plus the first: the files number no more than the span from the
/// first window start to the last chunk, divided by the window length, plus
/// one.
pub proof fn lemma_recording_file_count(s0: Timestamp, window_ms: int, cs: Seq<ChunkView>)
    requires
        window_ms > 0,
        in_capture_order(s0, cs),
        cs.len() > 0,
    ensures
        (recorded(s0, window_ms, cs).0.len() - 1) * window_ms <= cs.last().captured_at.epoch_ms
            - s0.epoch_ms,
{
    lemma_recording_keeps_every_chunk(s0, window_ms, cs);
    lemma_recording_windows(s0, window_ms, cs);
    lemma_open_window_started_before(s0, window_ms, cs);
    let starts = recorded(s0, window_ms, cs).1;
    lemma_starts_spread(starts, window_ms, starts.len() - 1);
    assert(starts.last() == starts[starts.len() - 1]);
}

/// One call of `Recorder::on_chunk` is one step of `recorded`: from the
/// window start that the call starts from, the chunk goes to the open file,
/// a file is added exactly when the call asks for a rotation, and the open
/// window then starts where the call leaves it (`window_after`, which both
/// state the step by).
pub proof fn lemma_recorded_step(s0: Timestamp, window_ms: int, cs: Seq<ChunkView>, c: ChunkView)
    ensures
        ({
            let before = recorded(s0, window_ms, cs);
            let after = recorded(s0, window_ms, cs.push(c));
            let closes = closes_window(before.1.last(), c.captured_at, window_ms);
            &&& after.1.last() == window_after(before.1.last(), c.captured_at, window_ms)
            &&& after.0.len() == before.0.len() + if closes {
                1int
            } else {
                0int
            }
            &&& after.0[before.0.len() - 1] == before.0.last().push(c)
            &&& forall|k: int| 0 <= k < before.0.len() - 1 ==> after.0[k] == before.0[k]
            &&& closes ==> after.0.last() == Seq::<ChunkView>::empty()
        }),
{
    lemma_recording_keeps_every_chunk(s0, window_ms, cs);
    assert(cs.push(c).drop_last() =~= cs);
}

/// The spans of the caption cues written while chunks captured at `ts` come
/// in a window that starts at `ws`, as offsets from `ws`, in the order they
/// are written: cue `j` (from 0) is numbered `j + 1`.
pub open spec fn cue_spans(ws: Timestamp, interval_ms: int, ts: Seq<Timestamp>) -> Seq<(int, int)>
    decreases ts.len(),
{
    if ts.len() == 0 {
        Seq::<(int, int)>::empty()
    } else {
        let prev = cue_spans(ws, interval_ms, ts.drop_last());
        let last = last_cue_ms(ws, prev);
        let t = ts.last();
        if cue_due(last, t, interval_ms) {
            prev.push((last - ws.epoch_ms, t.epoch_ms - ws.epoch_ms))
        } else {
            prev
        }
    }
}

/// When the previous cue ended, or the window start if there was none.
pub open spec fn last_cue_ms(ws: Timestamp, spans: Seq<(int, int)>) -> int {
    if spans.len() == 0 {
        ws.epoch_ms as int
    } else {
        ws.epoch_ms + spans.last().1
    }
}

/// One call of `Recorder::on_chunk` inside a window is one step of
/// `cue_spans`: a cue is written exactly when `cue_due` holds of the previous
/// cue's time, it spans from that time to the chunk, and the chunk's time is
/// then the previous cue's time.
pub proof fn lemma_cue_step(ws: Timestamp, interval_ms: int, ts: Seq<Timestamp>, t: Timestamp)
    ensures
        ({
            let before = cue_spans(ws, interval_ms, ts);
            let after = cue_spans(ws, interval_ms, ts.push(t));
            let last = last_cue_ms(ws, before);
            &&& cue_due(last, t, interval_ms) ==> after == before.push(
                (last - ws.epoch_ms, t.epoch_ms - ws.epoch_ms),
            ) && last_cue_ms(ws, after) == t.epoch_ms
            &&& !cue_due(last, t, interval_ms) ==> after == before && last_cue_ms(ws, after)
                == last
        }),
{
    assert(ts.push(t).drop_last() =~= ts);
}

/// The cues of one window are numbered from 1 up by one, the first starts
/// at the window start, each next one starts where the one before ended,
/// and each lasts at least the caption interval.
pub proof fn lemma_cue_sequence(ws: Timestamp, interval_ms: int, ts: Seq<Timestamp>)
    requires
        interval_ms > 0,
    ensures
        ({
            let spans = cue_spans(ws, interval_ms, ts);
            &&& spans.len() > 0 ==> spans[0].0 == 0
            &&& forall|j: int| 0 < j < spans.len() ==> #[trigger] spans[j].0 == spans[j - 1].1
            &&& forall|j: int|
                0 <= j < spans.len() ==> #[trigger] spans[j].1 >= spans[j].0 + interval_ms
            &&& last_cue_ms(ws, spans) >= ws.epoch_ms
        }),
    decreases ts.len(),
{
    if ts.len() > 0 {
        lemma_cue_sequence(ws, interval_ms, ts.drop_last());
        let prev = cue_spans(ws, interval_ms, ts.drop_last());
        let spans = cue_spans(ws, interval_ms, ts);
        if spans.len() > prev.len() {
            assert forall|j: int| 0 < j < spans.len() implies #[trigger] spans[j].0 == spans[j
                - 1].1 by {
                if j < prev.len() {
                    assert(spans[j] == prev[j] && spans[j - 1] == prev[j - 1]);
                }
            }
            assert forall|j: int| 0 <= j < spans.len() implies #[trigger] spans[j].1 >= spans[j].0
                + interval_ms by {
                if j < prev.len() {
                    assert(spans[j] == prev[j]);
                }
            }
        }
    }
}

/// Chunks captured every `step_ms`, the first at `s0`.
pub open spec fn evenly_spaced(s0: Timestamp, step_ms: int, cs: Seq<ChunkView>) -> bool {
    forall|i: int| 0 <= i < cs.len() ==> #[trigger] cs[i].captured_at.epoch_ms == s0.epoch_ms + i
        * step_ms
}

proof fn lemma_even_rotations(s0: Timestamp, m: int, d: int, cs: Seq<ChunkView>)
    requires
        m > 0,
        d > 0,
        cs.len() > 0,
        evenly_spaced(s0, d, cs),
    ensures
        ({
            let f = recorded(s0, m * d, cs).0.len();
            &&& recorded(s0, m * d, cs).1.last().epoch_ms == s0.epoch_ms + (f - 1) * m * d
            &&& (f - 1) * m <= cs.len() - 1 < f * m
        }),
    decreases cs.len(),
{
    let pre = cs.drop_last();
    lemma_recording_keeps_every_chunk(s0, m * d, pre);
    lemma_recorded_step(s0, m * d, pre, cs.last());
    assert(pre.push(cs.last()) =~= cs);
    let j = pre.len() as int;
    assert(cs.last().captured_at.epoch_ms == s0.epoch_ms + j * d);
    if j == 0 {
        assert(recorded(s0, m * d, pre).0.len() == 1);
        assert(recorded(s0, m * d, pre).1.last() == s0);
        assert(0 < 1 * m && 0 < m * d) by (nonlinear_arith)
            requires
                m > 0,
                d > 0,
        ;
        assert((1 - 1) * m * d == 0) by (nonlinear_arith);
        assert((1 - 1) * m == 0) by (nonlinear_arith);
        assert(0 * d == 0) by (nonlinear_arith);
    } else {
        assert(evenly_spaced(s0, d, pre));
        lemma_even_rotations(s0, m, d, pre);
        let f = recorded(s0, m * d, pre).0.len() as int;
        let start = recorded(s0, m * d, pre).1.last().epoch_ms;
        let elapsed = s0.epoch_ms + j * d - start;
        assert(elapsed == (j - (f - 1) * m) * d) by (nonlinear_arith)
            requires
                start == s0.epoch_ms + (f - 1) * m * d,
                elapsed == s0.epoch_ms + j * d - start,
        ;
        assert(j <= f * m);
        if j == f * m {
            assert(elapsed == m * d) by (nonlinear_arith)
                requires
                    elapsed == (j - (f - 1) * m) * d,
                    j == f * m,
            ;
            assert(s0.epoch_ms + j * d == s0.epoch_ms + ((f + 1) - 1) * m * d) by (nonlinear_arith)
                requires
                    j == f * m,
            ;
            assert(j < (f + 1) * m) by (nonlinear_arith)
                requires
                    j == f * m,
                    m > 0,
            ;
            assert(((f + 1) - 1) * m == f * m);
            assert(closes_window(recorded(s0, m * d, pre).1.last(), cs.last().captured_at, m * d));
            assert(recorded(s0, m * d, cs).0.len() == f + 1);
        } else {
            assert(elapsed < m * d) by (nonlinear_arith)
                requires
                    elapsed == (j - (f - 1) * m) * d,
                    j < f * m,
                    d > 0,
            ;
            assert(!closes_window(recorded(s0, m * d, pre).1.last(), cs.last().captured_at, m * d));
            assert(recorded(s0, m * d, cs).0.len() == f);
        }
    }
}

/// Chunks captured every `step_ms`, where the window length is a whole
/// number of steps, make exactly as many recording files as the window
/// length goes into the span they cover (`n * step_ms` for `n` chunks),
/// rounded up: `(f - 1) * window < span <= f * window`.
pub proof fn lemma_even_file_count(s0: Timestamp, window_ms: int, step_ms: int, cs: Seq<ChunkView>)
    requires
        step_ms > 0,
        window_ms > 0,
        window_ms % step_ms == 0,
        cs.len() > 0,
        evenly_spaced(s0, step_ms, cs),
    ensures
        (recorded(s0, window_ms, cs).0.len() - 1) * window_ms < cs.len() * step_ms,
        cs.len() * step_ms <= recorded(s0, window_ms, cs).0.len() * window_ms,
{
    let m = window_ms / step_ms;
    assert(window_ms == m * step_ms && m > 0) by (nonlinear_arith)
        requires
            window_ms % step_ms == 0,
            step_ms > 0,
            window_ms > 0,
            m == window_ms / step_ms,
    ;
    lemma_even_rotations(s0, m, step_ms, cs);
    let f = recorded(s0, window_ms, cs).0.len() as int;
    let n = cs.len() as int;
    assert((f - 1) * window_ms < n * step_ms && n * step_ms <= f * window_ms) by (nonlinear_arith)
        requires
            window_ms == m * step_ms,
            (f - 1) * m <= n - 1,
            n - 1 < f * m,
            step_ms > 0,
    ;
}

/// What the recorder does with one chunk, besides appending its payload to
/// the open recording file.
pub struct RecordStep {
    /// A caption cue to append to the companion caption file.
    pub cue: Option<Vec<u8>>,
    /// After the payload is written, a new recording file opens under this
    /// name and becomes the write target.
    pub rotate_to: Option<Vec<u8>>,
}

/// The Disk Recorder's state: where the open recording window starts, and
/// where the caption track stands within it.
pub struct Recorder {
    pub window_start: Timestamp,
    pub window_ms: i64,
    pub cue_interval_ms: i64,
    /// The time of the previous caption cue, or the window start.
    pub last_cue: Timestamp,
    /// The number the next caption cue gets.
    pub next_cue_id: u64,
}

impl Recorder {
    pub open spec fn wf(&self) -> bool {
        &&& self.window_ms > 0
        &&& self.cue_interval_ms > 0
        &&& self.window_start.epoch_ms <= self.last_cue.epoch_ms
        &&& 1 <= self.next_cue_id
    }

    /// A recorder whose first window starts at `start`, with the given window
    /// length and caption interval.
    pub fn new(start: Timestamp, window_ms: i64, cue_interval_ms: i64) -> (r: Recorder)
        requires
            window_ms > 0,
            cue_interval_ms > 0,
        ensures
            r.wf(),
            r.window_start == start,
            r.last_cue == start,
            r.next_cue_id == 1,
            r.window_ms == window_ms,
            r.cue_interval_ms == cue_interval_ms,
    {
        Recorder { window_start: start, window_ms, cue_interval_ms, last_cue: start, next_cue_id: 1 }
    }

    /// A recorder whose first window starts now.
    pub fn starting_now(window_ms: i64, cue_interval_ms: i64) -> (r: Recorder)
        requires
            window_ms > 0,
            cue_interval_ms > 0,
        ensures
            r.wf(),
            r.window_start.wf(),
            r.last_cue == r.window_start,
            r.next_cue_id == 1,
            r.window_ms == window_ms,
            r.cue_interval_ms == cue_interval_ms,
    {
        Recorder::new(local_now(), window_ms, cue_interval_ms)
    }

    /// The name of the caption file of the open window.
    pub fn current_caption_name(&self) -> (r: Vec<u8>)
        ensures
            r@ == caption_file_name(self.window_start),
    {
        caption_name_for(&self.window_start)
    }

    /// The name of the recording file of the open window.
    pub fn current_file_name(&self) -> (r: Vec<u8>)
        ensures
            r@ == recording_file_name(self.window_start),
    {
        file_name_for(&self.window_start)
    }

    /// Decides what happens with a chunk captured at `at`. A cue is due once
    /// the caption interval has passed since the previous one; it spans from
    /// the previous cue to `at`, relative to the window start. The window
    /// closes once its length has passed since it started; the next one
    /// starts at `at`, with cue numbers from 1 again.
    pub fn on_chunk(&mut self, at: &Timestamp) -> (r: RecordStep)
        requires
            old(self).wf(),
            old(self).next_cue_id < u64::MAX,
        ensures
            final(self).wf(),
            final(self).window_ms == old(self).window_ms,
            final(self).cue_interval_ms == old(self).cue_interval_ms,
            cue_due(old(self).last_cue.epoch_ms as int, *at, old(self).cue_interval_ms as int) ==> {
                &&& r.cue.is_some()
                &&& r.cue.unwrap()@ == cue_text(
                    old(self).next_cue_id as nat,
                    elapsed_ms(old(self).window_start, old(self).last_cue) as nat,
                    elapsed_ms(old(self).window_start, *at) as nat,
                    *at,
                )
            },
            !cue_due(old(self).last_cue.epoch_ms as int, *at, old(self).cue_interval_ms as int) ==> r.cue.is_none(),
            final(self).window_start == window_after(
                old(self).window_start,
                *at,
                old(self).window_ms as int,
            ),
            r.rotate_to.is_some() == closes_window(
                old(self).window_start,
                *at,
                old(self).window_ms as int,
            ),
            closes_window(old(self).window_start, *at, old(self).window_ms as int) ==> {
                &&& r.rotate_to.is_some()
                &&& r.rotate_to.unwrap()@ == recording_file_name(*at)
                &&& final(self).window_start == *at
                &&& final(self).last_cue == *at
                &&& final(self).next_cue_id == 1
            },
            !closes_window(old(self).window_start, *at, old(self).window_ms as int) ==> {
                &&& r.rotate_to.is_none()
                &&& final(self).window_start == old(self).window_start
                &&& cue_due(old(self).last_cue.epoch_ms as int, *at, old(self).cue_interval_ms as int) ==> {
                    &&& final(self).last_cue == *at
                    &&& final(self).next_cue_id == old(self).next_cue_id + 1
                }
                &&& !cue_due(old(self).last_cue.epoch_ms as int, *at, old(self).cue_interval_ms as int) ==> {
                    &&& final(self).last_cue == old(self).last_cue
                    &&& final(self).next_cue_id == old(self).next_cue_id
                }
            },
    {
        let since_cue: i128 = (at.epoch_ms as i128) - (self.last_cue.epoch_ms as i128);
        let cue = if since_cue >= self.cue_interval_ms as i128 {
            let from: i128 = (self.last_cue.epoch_ms as i128) - (self.window_start.epoch_ms as i128);
            let to: i128 = (at.epoch_ms as i128) - (self.window_start.epoch_ms as i128);
            let mut text: Vec<u8> = Vec::new();
            push_decimal(&mut text, self.next_cue_id);
            text.push(10u8);
            push_cue_time(&mut text, from as u64);
            text.push(32u8);
            text.push(45u8);
            text.push(45u8);
            text.push(62u8);
            text.push(32u8);
            push_cue_time(&mut text, to as u64);
            text.push(10u8);
            push_clock(&mut text, at);
            text.push(10u8);
            text.push(10u8);
            assert(text@ =~= cue_text(self.next_cue_id as nat, from as nat, to as nat, *at));
            self.last_cue = *at;
            self.next_cue_id = self.next_cue_id + 1;
            Some(text)
        } else {
            None
        };
        let elapsed: i128 = (at.epoch_ms as i128) - (self.window_start.epoch_ms as i128);
        let rotate_to = if elapsed >= self.window_ms as i128 {
            self.window_start = *at;
            self.last_cue = *at;
            self.next_cue_id = 1;
            Some(file_name_for(at))
        } else {
            None
        };
        RecordStep { cue, rotate_to }
    }

    /// Takes `chunks` one after another, as the disk loop does, and returns
    /// what `on_chunk` decided for each. The open window then starts where
    /// `recorded` puts it, and each chunk closes a window exactly when it
    /// does in `recorded`. Run from a fresh window with no rotation, the
    /// cues written are those of `cue_spans`, numbered from 1 up.
    pub fn record_run(&mut self, chunks: &Vec<Chunk>) -> (steps: Vec<RecordStep>)
        requires
            old(self).wf(),
            old(self).next_cue_id + chunks@.len() < u64::MAX,
        ensures
            ({
                let views = chunks@.map_values(|c: Chunk| c@);
                let times = views.map_values(|v: ChunkView| v.captured_at);
                let ws0 = old(self).window_start;
                let w = old(self).window_ms as int;
                let iv = old(self).cue_interval_ms as int;
                &&& final(self).wf()
                &&& steps@.len() == chunks@.len()
                &&& final(self).window_start == recorded(ws0, w, views).1.last()
                &&& forall|i: int|
                    0 <= i < steps@.len() ==> #[trigger] steps@[i].rotate_to.is_some()
                        == closes_window(
                        recorded(ws0, w, views.take(i)).1.last(),
                        views[i].captured_at,
                        w,
                    )
                &&& (old(self).last_cue == ws0 && old(self).next_cue_id == 1 && forall|i: int|
                    0 <= i < steps@.len() ==> #[trigger] steps@[i].rotate_to.is_none()) ==> forall|
                    i: int,
                |
                    0 <= i < steps@.len() ==> {
                        let after = cue_spans(ws0, iv, times.take(i + 1));
                        &&& #[trigger] steps@[i].cue.is_some() == (after.len() > cue_spans(
                            ws0,
                            iv,
                            times.take(i),
                        ).len())
                        &&& steps@[i].cue.is_some() ==> steps@[i].cue.unwrap()@ == cue_text(
                            after.len(),
                            after.last().0 as nat,
                            after.last().1 as nat,
                            times[i],
                        )
                    }
            }),
    {
        let ghost views = chunks@.map_values(|c: Chunk| c@);
        let ghost times = views.map_values(|v: ChunkView| v.captured_at);
        let ghost ws0 = self.window_start;
        let ghost w = self.window_ms as int;
        let ghost iv = self.cue_interval_ms as int;
        let ghost id0 = self.next_cue_id;
        let ghost fresh = self.last_cue == ws0 && self.next_cue_id == 1;
        let mut steps: Vec<RecordStep> = Vec::new();
        let mut calm = true;
        let mut i: usize = 0;
        proof {
            lemma_recording_keeps_every_chunk(ws0, w, views.take(0));
            assert(views.take(0) =~= Seq::<ChunkView>::empty());
            assert(times.take(0) =~= Seq::<Timestamp>::empty());
        }
        while i < chunks.len()
            invariant
                i <= chunks@.len(),
                views == chunks@.map_values(|c: Chunk| c@),
                times == views.map_values(|v: ChunkView| v.captured_at),
                self.wf(),
                self.window_ms == w,
                self.cue_interval_ms == iv,
                self.next_cue_id <= id0 + i,
                id0 + chunks@.len() < u64::MAX,
                steps@.len() == i,
                self.window_start == recorded(ws0, w, views.take(i as int)).1.last(),
                forall|k: int|
                    0 <= k < i ==> #[trigger] steps@[k].rotate_to.is_some() == closes_window(
                        recorded(ws0, w, views.take(k)).1.last(),
                        views[k].captured_at,
                        w,
                    ),
                calm == forall|k: int| 0 <= k < i ==> #[trigger] steps@[k].rotate_to.is_none(),
                fresh && calm ==> {
                    &&& self.window_start == ws0
                    &&& self.last_cue.epoch_ms == last_cue_ms(
                        ws0,
                        cue_spans(ws0, iv, times.take(i as int)),
                    )
                    &&& self.next_cue_id == cue_spans(ws0, iv, times.take(i as int)).len() + 1
                },
                fresh && calm ==> forall|k: int|
                    0 <= k < i ==> {
                        let after = cue_spans(ws0, iv, times.take(k + 1));
                        &&& #[trigger] steps@[k].cue.is_some() == (after.len() > cue_spans(
                            ws0,
                            iv,
                            times.take(k),
                        ).len())
                        &&& steps@[k].cue.is_some() ==> steps@[k].cue.unwrap()@ == cue_text(
                            after.len(),
                            after.last().0 as nat,
                            after.last().1 as nat,
                            times[k],
                        )
                    },
            decreases chunks@.len() - i,
        {
            let ghost before = *self;
            let at = chunks[i].captured_at;
            proof {
                assert(views.take(i + 1) =~= views.take(i as int).push(views[i as int]));
                assert(times.take(i + 1) =~= times.take(i as int).push(times[i as int]));
                lemma_recorded_step(ws0, w, views.take(i as int), views[i as int]);
                lemma_cue_step(ws0, iv, times.take(i as int), times[i as int]);
                lemma_recording_keeps_every_chunk(ws0, w, views.take(i as int));
                if fresh && calm {
                    lemma_cue_sequence(ws0, iv, times.take(i as int));
                }
            }
            let step = self.on_chunk(&at);
            let ghost prev_steps = steps@;
            let quiet = step.rotate_to.is_none();
            steps.push(step);
            proof {
                assert(forall|k: int| 0 <= k < i ==> steps@[k] == prev_steps[k]);
                if !quiet {
                    assert(!steps@[i as int].rotate_to.is_none());
                }
            }
            calm = calm && quiet;
            i = i + 1;
        }
        proof {
            assert(views.take(chunks@.len() as int) =~= views);
        }
        steps
    }
}

} // verus!
