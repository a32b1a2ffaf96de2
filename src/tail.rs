use crate::chunk::copy_bytes;
use vstd::prelude::*;

verus! {

/// How many bytes one transfer asks for: one typical datagram payload.
pub const TRANSFER_CHUNK: u64 = 1472;

/// Where the final component of a path starts: just past its last `/`.
pub open spec fn file_name_start(p: Seq<u8>) -> int
    decreases p.len(),
{
    if p.len() == 0 {
        0
    } else if p.last() == 47u8 {
        p.len() as int
    } else {
        file_name_start(p.drop_last())
    }
}

/// The final component of a path.
pub open spec fn file_name_of(p: Seq<u8>) -> Seq<u8> {
    p.subrange(file_name_start(p), p.len() as int)
}

/// Whether a path names a recording file: its final component has the
/// extension `ts`, after a stem that is not empty.
pub open spec fn is_recording_path_spec(p: Seq<u8>) -> bool {
    let f = file_name_of(p);
    f.len() > 3 && f.subrange(f.len() - 3, f.len() as int) == seq![46u8, 116u8, 115u8]
}

proof fn lemma_file_name_start_at(p: Seq<u8>, k: int)
    requires
        0 <= k <= p.len(),
        forall|i: int| k <= i < p.len() ==> p[i] != 47u8,
        k > 0 ==> p[k - 1] == 47u8,
    ensures
        file_name_start(p) == k,
    decreases p.len(),
{
    if p.len() > k {
        assert(p.last() == p[p.len() - 1]);
        lemma_file_name_start_at(p.drop_last(), k);
    }
}

/// Whether `path` names a recording file (its extension is `ts`).
/// Where the final component of `path` starts.
fn name_start(path: &[u8]) -> (k: usize)
    ensures
        k == file_name_start(path@),
        k <= path@.len(),
{
    let n = path.len();
    let mut k: usize = n;
    while k > 0 && path[k - 1] != 47u8
        invariant
            k <= n,
            n == path@.len(),
            forall|i: int| k <= i < n ==> path@[i] != 47u8,
        decreases k,
    {
        k = k - 1;
    }
    proof {
        lemma_file_name_start_at(path@, k as int);
    }
    k
}

/// Whether two paths end in the same final component.
pub fn same_file_name(a: &[u8], b: &[u8]) -> (r: bool)
    ensures
        r == (file_name_of(a@) == file_name_of(b@)),
{
    let ka = name_start(a);
    let kb = name_start(b);
    if a.len() - ka != b.len() - kb {
        proof {
            assert(file_name_of(a@).len() != file_name_of(b@).len());
        }
        return false;
    }
    let len = a.len() - ka;
    let mut i: usize = 0;
    while i < len
        invariant
            ka <= a@.len(),
            kb <= b@.len(),
            ka + len == a@.len(),
            kb + len == b@.len(),
            a@.len() == a.len(),
            b@.len() == b.len(),
            i <= len,
            ka == file_name_start(a@),
            kb == file_name_start(b@),
            forall|j: int| 0 <= j < i ==> #[trigger] file_name_of(a@)[j] == file_name_of(b@)[j],
        decreases len - i,
    {
        if a[ka + i] != b[kb + i] {
            proof {
                assert(file_name_of(a@)[i as int] != file_name_of(b@)[i as int]);
            }
            return false;
        }
        assert(file_name_of(a@)[i as int] == file_name_of(b@)[i as int]);
        i = i + 1;
    }
    proof {
        assert(file_name_of(a@) =~= file_name_of(b@));
    }
    true
}

/// Whether `path` names a recording file (its extension is `ts`).
pub fn is_recording_path(path: &[u8]) -> (r: bool)
    ensures
        r == is_recording_path_spec(path@),
{
    let n = path.len();
    let k = name_start(path);
    if n - k <= 3 {
        return false;
    }
    let r = path[n - 3] == 46u8 && path[n - 2] == 116u8 && path[n - 1] == 115u8;
    proof {
        let f = file_name_of(path@);
        if r {
            assert(f.subrange(f.len() - 3, f.len() as int) =~= seq![46u8, 116u8, 115u8]);
        } else {
            if f.subrange(f.len() - 3, f.len() as int) == seq![46u8, 116u8, 115u8] {
                assert(f.subrange(f.len() - 3, f.len() as int)[0] == 46u8);
                assert(f.subrange(f.len() - 3, f.len() as int)[1] == 116u8);
                assert(f.subrange(f.len() - 3, f.len() as int)[2] == 115u8);
            }
        }
    }
    r
}

/// A directory entry as the session sees it: its name, whether it is a plain
/// file, and when it was last modified (nanoseconds since the Unix epoch).
pub struct DirEntryInfo {
    pub name: Vec<u8>,
    pub is_file: bool,
    pub modified_ns: i128,
}

/// Whether an entry is a recording file.
pub open spec fn is_candidate(e: DirEntryInfo) -> bool {
    e.is_file && is_recording_path_spec(e.name@)
}

/// Picks the freshest recording file: among the plain files with the
/// recording extension, the one modified last; on a tie, the last of them
/// listed. `None` when there is no recording file.
pub fn freshest_recording(entries: &Vec<DirEntryInfo>) -> (r: Option<usize>)
    ensures
        r.is_none() <==> forall|j: int| 0 <= j < entries@.len() ==> !is_candidate(
            #[trigger] entries@[j],
        ),
        r.is_some() ==> {
            let i = r.unwrap() as int;
            &&& 0 <= i < entries@.len()
            &&& is_candidate(entries@[i])
            &&& forall|j: int|
                0 <= j < entries@.len() && is_candidate(#[trigger] entries@[j])
                    ==> entries@[j].modified_ns <= entries@[i].modified_ns
            &&& forall|j: int|
                i < j < entries@.len() && is_candidate(#[trigger] entries@[j])
                    ==> entries@[j].modified_ns < entries@[i].modified_ns
        },
{
    let mut best: Option<usize> = None;
    let mut k: usize = 0;
    while k < entries.len()
        invariant
            k <= entries@.len(),
            best.is_none() ==> forall|j: int| 0 <= j < k ==> !is_candidate(
                #[trigger] entries@[j],
            ),
            best.is_some() ==> {
                let i = best.unwrap() as int;
                &&& 0 <= i < k
                &&& is_candidate(entries@[i])
                &&& forall|j: int|
                    0 <= j < k && is_candidate(#[trigger] entries@[j])
                        ==> entries@[j].modified_ns <= entries@[i].modified_ns
                &&& forall|j: int|
                    i < j < k && is_candidate(#[trigger] entries@[j])
                        ==> entries@[j].modified_ns < entries@[i].modified_ns
            },
        decreases entries@.len() - k,
    {
        let e = &entries[k];
        if e.is_file && is_recording_path(e.name.as_slice()) {
            match best {
                None => {
                    best = Some(k);
                },
                Some(b) => {
                    if e.modified_ns >= entries[b].modified_ns {
                        best = Some(k);
                    }
                },
            }
        }
        k = k + 1;
    }
    best
}

/// A filesystem change notification, as the session reads it.
pub enum WatchEvent {
    /// A file was created at this path.
    FileCreated { path: Vec<u8> },
    /// The content of the file at this path changed.
    ContentChanged { path: Vec<u8> },
    /// Any other change.
    Other,
    /// The watcher reported an error.
    WatchError,
    /// The notification channel closed.
    Closed,
}

/// What came of one zero-copy transfer.
pub enum TransferOutcome {
    /// This many bytes went to the client.
    Sent(u64),
    /// The transfer failed.
    Failed,
}

/// Where a tail session stands.
#[derive(Clone, Copy, PartialEq, Eq, Structural, Debug)]
pub enum TailPhase {
    /// No recording file is being tailed yet.
    Locating,
    /// A recording file is being tailed.
    Streaming,
    /// The session is over.
    Failed,
}

/// What the session asks of the code that runs it.
pub enum TailAction {
    /// Open the recording file at this path and tail it from its start.
    SwitchTo { path: Vec<u8> },
    /// Transfer up to `max_len` bytes of the tailed file, from `offset`, to the client.
    Transfer { offset: u64, max_len: u64 },
    /// Sleep briefly: no new data was there yet.
    Pause,
    /// Look for the freshest recording file again.
    Locate,
    /// Nothing to do; wait for the next notification.
    Wait,
    /// End the session.
    Stop,
}

/// One client's cursor into the recording files: which phase it is in,
/// which file it tails and how many bytes of it the client has received.
pub struct TailSession {
    phase: TailPhase,
    offset: u64,
    chunk_size: u64,
    file: Vec<u8>,
}

/// A tail session's state as plain values.
pub struct TailState {
    pub phase: TailPhase,
    pub offset: u64,
    pub chunk_size: u64,
    pub file: Seq<u8>,
}

impl View for TailSession {
    type V = TailState;

    closed spec fn view(&self) -> TailState {
        TailState {
            phase: self.phase,
            offset: self.offset,
            chunk_size: self.chunk_size,
            file: self.file@,
        }
    }
}

/// Where a session starts in a file of `len` bytes: one transfer chunk before
/// its end, so that a chunk only partly written when the session began is
/// sent again whole; at the start of a file shorter than that.
pub open spec fn start_offset(len: u64, chunk: u64) -> u64 {
    if len >= chunk {
        (len - chunk) as u64
    } else {
        0
    }
}

/// The session once the file at `file`, `len` bytes long, is found.
pub open spec fn located(s: TailState, file: Seq<u8>, len: u64) -> TailState {
    TailState {
        phase: TailPhase::Streaming,
        offset: start_offset(len, s.chunk_size),
        file,
        ..s
    }
}

/// Whether `path` is the recording file the session tails: a recording
/// path whose final component is that of the tailed file.
pub open spec fn tails(s: TailState, path: Seq<u8>) -> bool {
    is_recording_path_spec(path) && file_name_of(path) == file_name_of(s.file)
}

/// The session after a notification.
pub open spec fn event_next(s: TailState, e: WatchEvent) -> TailState {
    match e {
        WatchEvent::FileCreated { path } => if is_recording_path_spec(path@) {
            TailState { offset: 0, file: path@, ..s }
        } else {
            s
        },
        WatchEvent::Closed => TailState { phase: TailPhase::Failed, ..s },
        _ => s,
    }
}

/// `offset + n`, or the largest offset where that does not fit.
pub open spec fn advance(offset: u64, n: u64) -> u64 {
    if offset + n <= u64::MAX {
        (offset + n) as u64
    } else {
        u64::MAX
    }
}

/// The session after a transfer.
pub open spec fn transfer_next(s: TailState, o: TransferOutcome) -> TailState {
    match o {
        TransferOutcome::Sent(n) => TailState { offset: advance(s.offset, n), ..s },
        TransferOutcome::Failed => TailState { phase: TailPhase::Failed, ..s },
    }
}

impl TailSession {
    /// A session that has not found a recording file yet.
    pub fn new(chunk_size: u64) -> (r: TailSession)
        requires
            chunk_size > 0,
        ensures
            r@.phase == TailPhase::Locating,
            r@.offset == 0,
            r@.chunk_size == chunk_size,
            r@.file == Seq::<u8>::empty(),
    {
        TailSession { phase: TailPhase::Locating, offset: 0, chunk_size, file: Vec::new() }
    }

    pub fn phase(&self) -> (r: TailPhase)
        ensures
            r == self@.phase,
    {
        self.phase
    }

    pub fn offset(&self) -> (r: u64)
        ensures
            r == self@.offset,
    {
        self.offset
    }

    /// The path of the file being tailed.
    pub fn file(&self) -> (r: &Vec<u8>)
        ensures
            r@ == self@.file,
    {
        &self.file
    }

    /// The freshest recording file was found at `file` and opened; it is
    /// `len` bytes long.
    pub fn on_located(&mut self, file: Vec<u8>, len: u64)
        requires
            old(self)@.phase == TailPhase::Locating,
        ensures
            final(self)@ == located(old(self)@, file@, len),
    {
        self.phase = TailPhase::Streaming;
        self.file = file;
        self.offset = if len >= self.chunk_size {
            len - self.chunk_size
        } else {
            0
        };
    }

    /// A notification arrived. A new recording file makes the session tail
    /// it from its start. A change of the tailed file's content asks for a
    /// transfer from the current offset; a change of any other file asks for
    /// nothing. A closed channel ends the session.
    /// Anything else, a watcher error included, changes nothing.
    pub fn on_event(&mut self, event: WatchEvent) -> (r: TailAction)
        requires
            old(self)@.phase == TailPhase::Streaming,
        ensures
            final(self)@ == event_next(old(self)@, event),
            match event {
                WatchEvent::FileCreated { path } => if is_recording_path_spec(path@) {
                    r == (TailAction::SwitchTo { path })
                } else {
                    r == TailAction::Wait
                },
                WatchEvent::ContentChanged { path } => if tails(old(self)@, path@) {
                    r == (TailAction::Transfer {
                        offset: old(self)@.offset,
                        max_len: old(self)@.chunk_size,
                    })
                } else {
                    r == TailAction::Wait
                },
                WatchEvent::Closed => r == TailAction::Stop,
                _ => r == TailAction::Wait,
            },
    {
        match event {
            WatchEvent::FileCreated { path } => {
                if is_recording_path(path.as_slice()) {
                    self.offset = 0;
                    self.file = copy_bytes(&path);
                    TailAction::SwitchTo { path }
                } else {
                    TailAction::Wait
                }
            },
            WatchEvent::ContentChanged { path } => {
                if is_recording_path(path.as_slice()) && same_file_name(
                    path.as_slice(),
                    self.file.as_slice(),
                ) {
                    TailAction::Transfer { offset: self.offset, max_len: self.chunk_size }
                } else {
                    TailAction::Wait
                }
            },
            WatchEvent::Closed => {
                self.phase = TailPhase::Failed;
                TailAction::Stop
            },
            _ => TailAction::Wait,
        }
    }

    /// A transfer asked for by `on_event` ended. Sent bytes advance the
    /// offset; none sent means no new data yet, so the session pauses; a
    /// failure ends the session.
    pub fn on_transfer(&mut self, outcome: TransferOutcome) -> (r: TailAction)
        requires
            old(self)@.phase == TailPhase::Streaming,
        ensures
            final(self)@ == transfer_next(old(self)@, outcome),
            match outcome {
                TransferOutcome::Sent(n) => r == if n == 0 {
                    TailAction::Pause
                } else {
                    TailAction::Wait
                },
                TransferOutcome::Failed => r == TailAction::Stop,
            },
    {
        match outcome {
            TransferOutcome::Sent(n) => {
                self.offset = self.offset.saturating_add(n);
                if n == 0 {
                    TailAction::Pause
                } else {
                    TailAction::Wait
                }
            },
            TransferOutcome::Failed => {
                self.phase = TailPhase::Failed;
                TailAction::Stop
            },
        }
    }

    /// The file named by `SwitchTo` could not be opened: the session looks
    /// for the freshest recording file again.
    pub fn on_open_failed(&mut self) -> (r: TailAction)
        ensures
            final(self)@ == (TailState { phase: TailPhase::Locating, offset: 0, ..old(self)@ }),
            r == TailAction::Locate,
    {
        self.phase = TailPhase::Locating;
        self.offset = 0;
        TailAction::Locate
    }
}

/// The total of a list of sizes.
pub open spec fn total(sizes: Seq<u64>) -> int
    decreases sizes.len(),
{
    if sizes.len() == 0 {
        0
    } else {
        total(sizes.drop_last()) + sizes.last()
    }
}

/// The session after transfers that sent `sizes` bytes, one after another.
pub open spec fn after_sent(s: TailState, sizes: Seq<u64>) -> TailState
    decreases sizes.len(),
{
    if sizes.len() == 0 {
        s
    } else {
        transfer_next(after_sent(s, sizes.drop_last()), TransferOutcome::Sent(sizes.last()))
    }
}

/// A session that finds a file of `len` bytes starts within one transfer
/// chunk of its end, and after transfers of `sizes` bytes its offset is the
/// start plus their total, still in the same file.
pub proof fn lemma_resume_offset(s: TailState, file: Seq<u8>, len: u64, sizes: Seq<u64>)
    requires
        start_offset(len, s.chunk_size) + total(sizes) <= u64::MAX,
    ensures
        located(s, file, len).offset <= len,
        len - located(s, file, len).offset <= s.chunk_size,
        after_sent(located(s, file, len), sizes).offset == located(s, file, len).offset + total(
            sizes,
        ),
        after_sent(located(s, file, len), sizes).file == file,
        after_sent(located(s, file, len), sizes).phase == TailPhase::Streaming,
    decreases sizes.len(),
{
    if sizes.len() > 0 {
        assert(total(sizes.drop_last()) <= total(sizes));
        lemma_resume_offset(s, file, len, sizes.drop_last());
    }
}

/// One input a session reacts to.
pub enum TailInput {
    Notified(WatchEvent),
    Transferred(TransferOutcome),
}

/// The session after the inputs `ins`, one after another.
pub open spec fn run(s: TailState, ins: Seq<TailInput>) -> TailState
    decreases ins.len(),
{
    if ins.len() == 0 {
        s
    } else {
        let prev = run(s, ins.drop_last());
        match ins.last() {
            TailInput::Notified(e) => event_next(prev, e),
            TailInput::Transferred(o) => transfer_next(prev, o),
        }
    }
}

/// Whether an input announces a new recording file.
pub open spec fn announces_recording(i: TailInput) -> bool {
    match i {
        TailInput::Notified(WatchEvent::FileCreated { path }) => is_recording_path_spec(path@),
        _ => false,
    }
}

/// Once a new recording file is announced, the session tails it from offset
/// 0, and keeps tailing it, whatever else happens, until another recording
/// file is announced.
pub proof fn lemma_rotation_handoff(s: TailState, path: Vec<u8>, ins: Seq<TailInput>)
    requires
        is_recording_path_spec(path@),
        forall|i: int| 0 <= i < ins.len() ==> !announces_recording(#[trigger] ins[i]),
    ensures
        event_next(s, WatchEvent::FileCreated { path }).offset == 0,
        event_next(s, WatchEvent::FileCreated { path }).file == path@,
        run(event_next(s, WatchEvent::FileCreated { path }), ins).file == path@,
    decreases ins.len(),
{
    if ins.len() > 0 {
        assert(!announces_recording(ins[ins.len() - 1]));
        lemma_rotation_handoff(s, path, ins.drop_last());
    }
}

} // verus!
