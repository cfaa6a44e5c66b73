//! The progress model: per-file download state machines, the event type that
//! transfer tasks emit, and the aggregate state that the single rendering
//! consumer owns and mutates.
//!
//! Timestamps are plain `u64` millisecond counts measured from the start of
//! the run, so that the model is a pure function of the events it is fed.

use vstd::prelude::*;

use crate::errors::Error;

verus! {

/// Options that a caller hands to a run.
pub struct CliOptions {
    /// The template file to use.
    pub template_file: String,
    /// When set, files are not extracted from the given zip files.
    pub no_extract: bool,
    /// The maximum number of files that should be downloaded simultaneously.
    pub parallelism: usize,
    /// The maximum amount of time (in seconds) to wait to connect or receive
    /// data before failing the download.
    pub timeout: u64,
}

/// A message indicating the progress made by a file with the given id.
#[derive(Clone, Copy, Debug, PartialEq, Eq, Structural)]
pub enum DownloadStatus {
    /// Initializing connection.
    Init(usize),
    /// Download started, with the declared content length if the source
    /// reported one.
    Start(usize, Option<u64>),
    /// Download in progress, with the number of bytes last downloaded and the
    /// timestamp (milliseconds from the start of the run) of the chunk.
    Progress(usize, usize, u64),
    /// Download finished.
    Finish(usize),
    /// Download failed.
    Failed(usize, Error),
}

impl DownloadStatus {
    /// The id of the file that this status is about.
    pub open spec fn index_spec(self) -> usize {
        match self {
            DownloadStatus::Init(idx) => idx,
            DownloadStatus::Start(idx, _) => idx,
            DownloadStatus::Progress(idx, _, _) => idx,
            DownloadStatus::Finish(idx) => idx,
            DownloadStatus::Failed(idx, _) => idx,
        }
    }

    /// Whether this event ends its task: each task emits exactly one
    /// terminal event.
    pub open spec fn is_terminal(self) -> bool {
        self is Finish || self is Failed
    }

    /// Returns the id of the file that this status represents.
    pub fn get_index(&self) -> (idx: usize)
        ensures
            idx == self.index_spec(),
    {
        match self {
            DownloadStatus::Init(idx) => *idx,
            DownloadStatus::Start(idx, _) => *idx,
            DownloadStatus::Progress(idx, _, _) => *idx,
            DownloadStatus::Finish(idx) => *idx,
            DownloadStatus::Failed(idx, _) => *idx,
        }
    }
}

/// Rate samples closer together than this (milliseconds) are not used to
/// recompute the download rate, to avoid divide-by-small-delta noise.
pub const UPDATE_THRESHOLD_MS: u64 = 200;

/// `a + b`, saturating at `u64::MAX`.
pub open spec fn sat_add_u64(a: u64, b: u64) -> u64 {
    if a + b > u64::MAX {
        u64::MAX
    } else {
        (a + b) as u64
    }
}

/// The rate, in bytes per second, of `delta` bytes over `passed`
/// milliseconds, saturating at `u64::MAX`.
pub open spec fn rate_spec(delta: u64, passed: u64) -> u64 {
    if passed == 0 {
        0
    } else if delta * 1000 / (passed as int) > u64::MAX {
        u64::MAX
    } else {
        (delta * 1000 / (passed as int)) as u64
    }
}

/// Contains information about the status of one download.
#[derive(Clone, Copy, Debug, PartialEq, Eq, Structural)]
pub struct FileDownloadProgress {
    /// The max size of the file, in bytes, if the source declared one.
    pub max_size: Option<u64>,
    /// The current number of bytes downloaded.
    pub down_size: u64,
    /// The timestamp of the sample the rate was last computed against.
    pub last_update_time: u64,
    /// The number of bytes downloaded as of that sample.
    pub last_update_size: u64,
    /// The rate of download (bytes per second, rounded) at that sample.
    pub last_update_rate: u64,
}

impl FileDownloadProgress {
    /// The record a fresh download starts from: nothing downloaded, the rate
    /// reference point at the start of the run.
    pub open spec fn new_spec(max_size: Option<u64>) -> FileDownloadProgress {
        FileDownloadProgress {
            max_size,
            down_size: 0,
            last_update_time: 0,
            last_update_size: 0,
            last_update_rate: 0,
        }
    }

    /// The rate reference sample never runs ahead of the byte count.
    pub open spec fn wf(self) -> bool {
        self.last_update_size <= self.down_size
    }

    /// What `inc` does: the bytes are always added; the rate fields move only
    /// when the timestamp is not older than the current sample and at least
    /// `UPDATE_THRESHOLD_MS` have passed since it.
    pub open spec fn inc_spec(self, b: u64, timestamp: u64) -> FileDownloadProgress {
        let down = sat_add_u64(self.down_size, b);
        if timestamp >= self.last_update_time && timestamp - self.last_update_time
            >= UPDATE_THRESHOLD_MS {
            FileDownloadProgress {
                max_size: self.max_size,
                down_size: down,
                last_update_time: timestamp,
                last_update_size: down,
                last_update_rate: rate_spec(
                    (down - self.last_update_size) as u64,
                    (timestamp - self.last_update_time) as u64,
                ),
            }
        } else {
            FileDownloadProgress {
                max_size: self.max_size,
                down_size: down,
                last_update_time: self.last_update_time,
                last_update_size: self.last_update_size,
                last_update_rate: self.last_update_rate,
            }
        }
    }

    pub fn new(max_size: Option<u64>) -> (p: Self)
        ensures
            p == Self::new_spec(max_size),
            p.wf(),
    {
        FileDownloadProgress {
            max_size,
            down_size: 0,
            last_update_time: 0,
            last_update_size: 0,
            last_update_rate: 0,
        }
    }

    /// Adds the given amount of progress to the current download size.
    ///
    /// The event channel may deliver progress notifications for concurrent
    /// chunks of the same file out of causal order, so a timestamp older
    /// than the current sample is ignored for rate purposes, though its byte
    /// count still counts.
    pub fn inc(&mut self, b: u64, timestamp: u64)
        requires
            old(self).wf(),
        ensures
            *final(self) == old(self).inc_spec(b, timestamp),
            final(self).wf(),
    {
        let down: u64 = if b > u64::MAX - self.down_size {
            u64::MAX
        } else {
            self.down_size + b
        };
        self.down_size = down;

        // The write stream may not send its updates in order, so don't update
        // the rate if we get a timestamp older than the last update.
        if timestamp < self.last_update_time {
            return;
        }

        let passed: u64 = timestamp - self.last_update_time;
        // Only update if enough time has passed, to avoid rounding errors
        // from small time deltas.
        if passed >= UPDATE_THRESHOLD_MS {
            let delta: u64 = down - self.last_update_size;
            let wide: u128 = (delta as u128) * 1000 / (passed as u128);
            self.last_update_rate = if wide > (u64::MAX as u128) {
                u64::MAX
            } else {
                wide as u64
            };
            self.last_update_time = timestamp;
            self.last_update_size = down;
        }
    }
}

/// The rate-threshold law: an increment whose timestamp is within
/// `UPDATE_THRESHOLD_MS` of the current sample — or older than it — adds
/// its bytes but leaves every rate field unchanged, while an increment at
/// or past the threshold moves the sample to the new timestamp and
/// recomputes the rate from the bytes accumulated since the old sample.
/// The rate is a `u64`, hence never negative.
pub proof fn lemma_rate_threshold(p: FileDownloadProgress, b: u64, timestamp: u64)
    ensures
        ({
            let q = p.inc_spec(b, timestamp);
            &&& q.down_size == sat_add_u64(p.down_size, b)
            &&& q.max_size == p.max_size
            &&& (timestamp < p.last_update_time + UPDATE_THRESHOLD_MS ==> q.last_update_rate
                == p.last_update_rate && q.last_update_time == p.last_update_time
                && q.last_update_size == p.last_update_size)
            &&& (timestamp >= p.last_update_time + UPDATE_THRESHOLD_MS ==> q.last_update_rate
                == rate_spec(
                (sat_add_u64(p.down_size, b) - p.last_update_size) as u64,
                (timestamp - p.last_update_time) as u64,
            ) && q.last_update_time == timestamp && q.last_update_size == q.down_size)
        }),
{
}

/// Whether the renderer redraws after consuming this event. `Init`,
/// `Start` and the terminal events always trigger an immediate redraw:
/// they are low-frequency, high-significance transitions. `Progress`
/// events redraw only when at least `UPDATE_THRESHOLD_MS` have passed
/// since the previous redraw, to bound rendering cost independent of chunk
/// granularity; the state is updated on every event regardless.
pub fn should_render(status: &DownloadStatus, now: u64, last_render: u64) -> (b: bool)
    ensures
        b == if *status is Progress {
            now >= last_render + UPDATE_THRESHOLD_MS
        } else {
            true
        },
{
    match status {
        DownloadStatus::Progress(_, _, _) => now > last_render && now - last_render
            >= UPDATE_THRESHOLD_MS,
        _ => true,
    }
}

/// Download progress state for one file.
///
/// Transitions are monotonic and one-directional:
/// `Queued -> Connecting -> InProgress -> {Finished | Failed}`, where
/// `Connecting` and `InProgress` may also step directly to `Failed`. No
/// transition ever returns to an earlier state.
#[derive(Clone, Copy, Debug, PartialEq, Eq, Structural)]
pub enum DownloadState {
    /// The file is currently queued for download.
    Queued,
    /// Currently attempting to connect to the URL where the file is located.
    Connecting,
    /// The download is in progress.
    InProgress(FileDownloadProgress),
    /// The download is completed.
    Finished,
    /// The download failed due to some error.
    Failed(Error),
}

impl DownloadState {
    /// Terminal states: the file is downloaded or has failed for good.
    pub open spec fn is_ended(self) -> bool {
        self is Finished || self is Failed
    }

    /// States in which a transfer task is actively at work on the file.
    pub open spec fn is_processing(self) -> bool {
        self is Connecting || self is InProgress
    }
}

/// How one event moves the state of the file it is about. Events for other
/// files leave a state untouched; an event that does not fit the current
/// state (for example `Finish` for a file that never started) is ignored, so
/// that a stray message can never step a state machine backwards.
pub open spec fn step_one(st: DownloadState, ev: DownloadStatus) -> DownloadState {
    match ev {
        DownloadStatus::Init(_) => if st is Queued {
            DownloadState::Connecting
        } else {
            st
        },
        DownloadStatus::Start(_, size_opt) => if st is Connecting {
            DownloadState::InProgress(FileDownloadProgress::new_spec(size_opt))
        } else {
            st
        },
        DownloadStatus::Progress(_, amount, timestamp) => match st {
            DownloadState::InProgress(p) => DownloadState::InProgress(
                p.inc_spec(amount as u64, timestamp),
            ),
            _ => st,
        },
        DownloadStatus::Finish(_) => if st is InProgress {
            DownloadState::Finished
        } else {
            st
        },
        DownloadStatus::Failed(_, err) => if st.is_ended() {
            st
        } else {
            DownloadState::Failed(err)
        },
    }
}

/// How one event moves the whole state vector: only the entry of the event's
/// id moves, and an id outside the vector moves nothing.
pub open spec fn step_states(ss: Seq<DownloadState>, ev: DownloadStatus) -> Seq<DownloadState> {
    let id = ev.index_spec() as int;
    if 0 <= id < ss.len() {
        ss.update(id, step_one(ss[id], ev))
    } else {
        ss
    }
}

/// The state vector after consuming a whole sequence of events, in order.
pub open spec fn replay(ss: Seq<DownloadState>, evs: Seq<DownloadStatus>) -> Seq<DownloadState>
    decreases evs.len(),
{
    if evs.len() == 0 {
        ss
    } else {
        step_states(replay(ss, evs.drop_last()), evs.last())
    }
}

/// The state of a single file after consuming, in order, the events that are
/// about it.
pub open spec fn replay_one(st: DownloadState, evs: Seq<DownloadStatus>) -> DownloadState
    decreases evs.len(),
{
    if evs.len() == 0 {
        st
    } else {
        step_one(replay_one(st, evs.drop_last()), evs.last())
    }
}

/// The subsequence of events that are about the given id, in order.
pub open spec fn filter_id(evs: Seq<DownloadStatus>, id: usize) -> Seq<DownloadStatus>
    decreases evs.len(),
{
    if evs.len() == 0 {
        evs
    } else {
        let pre = filter_id(evs.drop_last(), id);
        if evs.last().index_spec() == id {
            pre.push(evs.last())
        } else {
            pre
        }
    }
}

/// Appending one event extends exactly the filtered view of its own id.
pub proof fn lemma_filter_id_push(evs: Seq<DownloadStatus>, ev: DownloadStatus, id: usize)
    ensures
        filter_id(evs.push(ev), id) == if ev.index_spec() == id {
            filter_id(evs, id).push(ev)
        } else {
            filter_id(evs, id)
        },
{
    assert(evs.push(ev).drop_last() =~= evs);
    assert(evs.push(ev).last() == ev);
}

/// Replaying preserves the number of tracked files.
pub proof fn lemma_replay_len(ss: Seq<DownloadState>, evs: Seq<DownloadStatus>)
    ensures
        replay(ss, evs).len() == ss.len(),
    decreases evs.len(),
{
    if evs.len() > 0 {
        lemma_replay_len(ss, evs.drop_last());
    }
}

/// The state of one file after a replay depends only on the events that are
/// about that file: the channel is a fan-in multiplexer, and events about
/// other ids cannot move this file's state machine.
pub proof fn lemma_replay_project(ss: Seq<DownloadState>, evs: Seq<DownloadStatus>, id: usize)
    requires
        id < ss.len(),
    ensures
        replay(ss, evs)[id as int] == replay_one(ss[id as int], filter_id(evs, id)),
    decreases evs.len(),
{
    if evs.len() > 0 {
        let pre = evs.drop_last();
        let ev = evs.last();
        lemma_replay_project(ss, pre, id);
        lemma_replay_len(ss, pre);
        if ev.index_spec() == id {
            assert(filter_id(evs, id) == filter_id(pre, id).push(ev));
            assert(filter_id(evs, id).drop_last() =~= filter_id(pre, id));
        }
    }
}

/// The initial state vector: every file queued.
pub open spec fn init_states(n: nat) -> Seq<DownloadState> {
    Seq::new(n, |i: int| DownloadState::Queued)
}

/// How many of the states satisfy the predicate.
pub open spec fn count_matching(ss: Seq<DownloadState>, pred: spec_fn(DownloadState) -> bool) -> nat
    decreases ss.len(),
{
    if ss.len() == 0 {
        0
    } else {
        count_matching(ss.drop_last(), pred) + if pred(ss.last()) {
            1nat
        } else {
            0nat
        }
    }
}

/// How many files a state vector holds in `Connecting` or `InProgress`:
/// the number of transfers at work at that instant.
pub open spec fn processing_count(ss: Seq<DownloadState>) -> nat
    decreases ss.len(),
{
    if ss.len() == 0 {
        0
    } else {
        processing_count(ss.drop_last()) + if ss.last().is_processing() {
            1nat
        } else {
            0nat
        }
    }
}

/// Updating one entry changes the processing count exactly by the
/// difference at that entry.
pub proof fn lemma_processing_count_update(ss: Seq<DownloadState>, i: int, st: DownloadState)
    requires
        0 <= i < ss.len(),
    ensures
        processing_count(ss.update(i, st)) == processing_count(ss) + (if st.is_processing() {
            1int
        } else {
            0int
        }) - (if ss[i].is_processing() {
            1int
        } else {
            0int
        }),
    decreases ss.len(),
{
    let upd = ss.update(i, st);
    if i == ss.len() - 1 {
        assert(upd.drop_last() =~= ss.drop_last());
        assert(upd.last() == st);
    } else {
        assert(upd.drop_last() =~= ss.drop_last().update(i, st));
        assert(upd.last() == ss.last());
        lemma_processing_count_update(ss.drop_last(), i, st);
    }
}

/// In the initial vector everything is queued, so nothing is processing.
pub proof fn lemma_processing_count_init(n: nat)
    ensures
        processing_count(init_states(n)) == 0,
    decreases n,
{
    if n > 0 {
        assert(init_states(n).drop_last() =~= init_states((n - 1) as nat));
        lemma_processing_count_init((n - 1) as nat);
    }
}

/// The indices whose state satisfies the predicate, in ascending order.
pub open spec fn ids_matching(
    ss: Seq<DownloadState>,
    pred: spec_fn(DownloadState) -> bool,
) -> Seq<usize>
    decreases ss.len(),
{
    if ss.len() == 0 {
        Seq::empty()
    } else {
        ids_matching(ss.drop_last(), pred) + if pred(ss.last()) {
            seq![(ss.len() - 1) as usize]
        } else {
            Seq::empty()
        }
    }
}

/// The indices with a `Failed` state, each paired with its error, in
/// ascending order of index.
pub open spec fn failures_of(ss: Seq<DownloadState>) -> Seq<(usize, Error)>
    decreases ss.len(),
{
    if ss.len() == 0 {
        Seq::empty()
    } else {
        failures_of(ss.drop_last()) + match ss.last() {
            DownloadState::Failed(e) => seq![(((ss.len() - 1) as usize), e)],
            _ => Seq::empty(),
        }
    }
}

/// The error of a failed state, if the state is failed.
pub open spec fn failure_error(st: DownloadState) -> Option<Error> {
    match st {
        DownloadState::Failed(e) => Some(e),
        _ => None,
    }
}

/// For a predicate that recognizes exactly the processing states, the
/// listed indices are as many as `processing_count` counts: the live
/// listing's length is the number of transfers at work. This ties the
/// scheduler's concurrency bound to what `processing` reports.
pub proof fn lemma_ids_matching_processing(ss: Seq<DownloadState>, pred: spec_fn(DownloadState) -> bool)
    requires
        forall|st: DownloadState| #[trigger] pred(st) == st.is_processing(),
    ensures
        ids_matching(ss, pred).len() == processing_count(ss),
    decreases ss.len(),
{
    if ss.len() > 0 {
        lemma_ids_matching_processing(ss.drop_last(), pred);
    }
}

/// `ids_matching` lists exactly the indices whose state satisfies the
/// predicate, in ascending order, and as many of them as `count_matching`
/// counts.
pub proof fn lemma_ids_matching_props(ss: Seq<DownloadState>, pred: spec_fn(DownloadState) -> bool)
    requires
        ss.len() <= usize::MAX,
    ensures
        ids_matching(ss, pred).len() == count_matching(ss, pred),
        forall|k: int|
            0 <= k < ids_matching(ss, pred).len() ==> (#[trigger] ids_matching(ss, pred)[k]) < ss.len()
                && pred(ss[ids_matching(ss, pred)[k] as int]),
        forall|k1: int, k2: int|
            0 <= k1 < k2 < ids_matching(ss, pred).len() ==> ids_matching(ss, pred)[k1]
                < ids_matching(ss, pred)[k2],
        forall|i: int|
            0 <= i < ss.len() && pred(#[trigger] ss[i]) ==> ids_matching(ss, pred).contains(
                i as usize,
            ),
    decreases ss.len(),
{
    if ss.len() > 0 {
        lemma_ids_matching_props(ss.drop_last(), pred);
        let pre = ids_matching(ss.drop_last(), pred);
        let all = ids_matching(ss, pred);
        assert forall|i: int| 0 <= i < ss.len() - 1 && pred(#[trigger] ss[i]) implies pre.contains(
            i as usize,
        ) by {
            assert(ss.drop_last()[i] == ss[i]);
        }
        assert(forall|u: usize| pre.contains(u) ==> all.contains(u)) by {
            assert(forall|k: int| 0 <= k < pre.len() ==> all[k] == pre[k]);
        }
        if pred(ss.last()) {
            assert(all[all.len() - 1] == (ss.len() - 1) as usize);
        }
    }
}

/// Every file of the vector is in a terminal state.
pub open spec fn all_ended(ss: Seq<DownloadState>) -> bool {
    forall|i: int| 0 <= i < ss.len() ==> (#[trigger] ss[i]).is_ended()
}

/// Every `InProgress` entry of the vector carries a well-formed progress
/// record.
pub open spec fn states_wf(ss: Seq<DownloadState>) -> bool {
    forall|i: int|
        0 <= i < ss.len() ==> ((#[trigger] ss[i]) matches DownloadState::InProgress(p) ==> p.wf())
}

/// Keeps track of the download progress for each file being downloaded. The
/// progress of each file is treated as a state machine whose states are
/// `DownloadState`s; the states are moved by the appropriate methods, such
/// as `mark_current` or `inc_progress`, and only ever forwards.
pub struct ProgressState {
    /// Maps file id (the position in the work list) to location on disk and
    /// URL.
    pub file_info: Vec<(String, String)>,
    /// Tracks file download state information, one entry per file id.
    pub states: Vec<DownloadState>,
}

impl ProgressState {
    /// One state per tracked file, each well formed.
    pub open spec fn wf(self) -> bool {
        &&& self.states@.len() == self.file_info@.len()
        &&& states_wf(self.states@)
    }

    pub fn new(file_info: Vec<(String, String)>) -> (r: Self)
        ensures
            r.wf(),
            r.file_info == file_info,
            r.states@ == init_states(file_info@.len()),
    {
        let n: usize = file_info.len();
        let mut states: Vec<DownloadState> = Vec::new();
        let mut i: usize = 0;
        while i < n
            invariant
                i <= n,
                states@.len() == i,
                forall|j: int| 0 <= j < i ==> states@[j] == DownloadState::Queued,
            decreases n - i,
        {
            states.push(DownloadState::Queued);
            i = i + 1;
        }
        proof {
            assert(states@ =~= init_states(file_info@.len()));
        }
        ProgressState { file_info, states }
    }

    /// Returns true when each file is downloaded or has failed to download.
    pub fn is_done(&self) -> (d: bool)
        ensures
            d == all_ended(self.states@),
    {
        let n: usize = self.states.len();
        let mut i: usize = 0;
        while i < n
            invariant
                i <= n,
                n == self.states@.len(),
                forall|j: int| 0 <= j < i ==> (#[trigger] self.states@[j]).is_ended(),
            decreases n - i,
        {
            let ended = match self.states[i] {
                DownloadState::Finished => true,
                DownloadState::Failed(_) => true,
                _ => false,
            };
            if !ended {
                return false;
            }
            i = i + 1;
        }
        true
    }

    /// Marks the file with the given id as currently connecting if the file
    /// download is being queued.
    pub fn mark_connect(&mut self, id: usize)
        requires
            old(self).wf(),
        ensures
            final(self).wf(),
            final(self).file_info == old(self).file_info,
            final(self).states@ == step_states(old(self).states@, DownloadStatus::Init(id)),
    {
        if id < self.states.len() {
            match self.states[id] {
                DownloadState::Queued => {
                    self.states[id] = DownloadState::Connecting;
                },
                _ => {},
            }
        }
    }

    /// Marks the file with the given id as being downloaded if the file
    /// download has not started yet.
    pub fn mark_current(&mut self, id: usize, size_opt: Option<u64>)
        requires
            old(self).wf(),
        ensures
            final(self).wf(),
            final(self).file_info == old(self).file_info,
            final(self).states@ == step_states(
                old(self).states@,
                DownloadStatus::Start(id, size_opt),
            ),
    {
        if id < self.states.len() {
            match self.states[id] {
                DownloadState::Connecting => {
                    let p = FileDownloadProgress::new(size_opt);
                    self.states[id] = DownloadState::InProgress(p);
                },
                _ => {},
            }
        }
    }

    /// Marks the file with the given id as finished downloading. Does
    /// nothing if the file is not downloading.
    pub fn mark_finished(&mut self, id: usize)
        requires
            old(self).wf(),
        ensures
            final(self).wf(),
            final(self).file_info == old(self).file_info,
            final(self).states@ == step_states(old(self).states@, DownloadStatus::Finish(id)),
    {
        if id < self.states.len() {
            match self.states[id] {
                DownloadState::InProgress(_) => {
                    self.states[id] = DownloadState::Finished;
                },
                _ => {},
            }
        }
    }

    /// Marks the file with the given id as failed. Does nothing if the file
    /// has already ended: terminal states, `Finished` as much as `Failed`,
    /// are never left.
    pub fn mark_failed(&mut self, id: usize, err: Error)
        requires
            old(self).wf(),
        ensures
            final(self).wf(),
            final(self).file_info == old(self).file_info,
            final(self).states@ == step_states(old(self).states@, DownloadStatus::Failed(id, err)),
    {
        if id < self.states.len() {
            match self.states[id] {
                DownloadState::Failed(_) => {},
                DownloadState::Finished => {},
                _ => {
                    self.states[id] = DownloadState::Failed(err);
                },
            }
        }
    }

    /// Increases the progress of the file with the given id if it is being
    /// downloaded, or does nothing otherwise.
    pub fn inc_progress(&mut self, id: usize, amount: usize, timestamp: u64)
        requires
            old(self).wf(),
        ensures
            final(self).wf(),
            final(self).file_info == old(self).file_info,
            final(self).states@ == step_states(
                old(self).states@,
                DownloadStatus::Progress(id, amount, timestamp),
            ),
    {
        if id < self.states.len() {
            match self.states[id] {
                DownloadState::InProgress(p) => {
                    let mut q = p;
                    q.inc(amount as u64, timestamp);
                    self.states[id] = DownloadState::InProgress(q);
                },
                _ => {},
            }
        }
    }

    /// Applies one event to the state of the file it is about, exactly as
    /// the per-event marking methods do.
    pub fn apply_status(&mut self, status: &DownloadStatus)
        requires
            old(self).wf(),
        ensures
            final(self).wf(),
            final(self).file_info == old(self).file_info,
            final(self).states@ == step_states(old(self).states@, *status),
    {
        match status {
            DownloadStatus::Init(idx) => self.mark_connect(*idx),
            DownloadStatus::Start(idx, size_opt) => self.mark_current(*idx, *size_opt),
            DownloadStatus::Progress(idx, amount, timestamp) => self.inc_progress(
                *idx,
                *amount,
                *timestamp,
            ),
            DownloadStatus::Finish(idx) => self.mark_finished(*idx),
            DownloadStatus::Failed(idx, err) => self.mark_failed(*idx, *err),
        }
    }

    /// Returns the indexes of all of the finished downloads, in ascending
    /// order.
    pub fn finished(&self) -> (r: Vec<usize>)
        ensures
            r@ == ids_matching(self.states@, |st: DownloadState| st is Finished),
    {
        let ghost pred = |st: DownloadState| st is Finished;
        let n: usize = self.states.len();
        let mut r: Vec<usize> = Vec::new();
        let mut i: usize = 0;
        while i < n
            invariant
                i <= n,
                n == self.states@.len(),
                pred == (|st: DownloadState| st is Finished),
                r@ == ids_matching(self.states@.take(i as int), pred),
            decreases n - i,
        {
            proof {
                assert(self.states@.take(i + 1).drop_last() =~= self.states@.take(i as int));
                assert(self.states@.take(i + 1).last() == self.states@[i as int]);
            }
            match self.states[i] {
                DownloadState::Finished => {
                    r.push(i);
                },
                _ => {},
            }
            i = i + 1;
        }
        proof {
            assert(self.states@.take(n as int) =~= self.states@);
        }
        r
    }

    /// Returns the indexes of all of the failed downloads, each with the
    /// error that caused the failure, in ascending order.
    pub fn failed(&self) -> (r: Vec<(usize, Error)>)
        ensures
            r@ == failures_of(self.states@),
    {
        let n: usize = self.states.len();
        let mut r: Vec<(usize, Error)> = Vec::new();
        let mut i: usize = 0;
        while i < n
            invariant
                i <= n,
                n == self.states@.len(),
                r@ == failures_of(self.states@.take(i as int)),
            decreases n - i,
        {
            proof {
                assert(self.states@.take(i + 1).drop_last() =~= self.states@.take(i as int));
                assert(self.states@.take(i + 1).last() == self.states@[i as int]);
            }
            match self.states[i] {
                DownloadState::Failed(e) => {
                    r.push((i, e));
                },
                _ => {},
            }
            i = i + 1;
        }
        proof {
            assert(self.states@.take(n as int) =~= self.states@);
        }
        r
    }

    /// Returns the indexes of all finished or failed downloads, in ascending
    /// order.
    pub fn ended(&self) -> (r: Vec<usize>)
        ensures
            r@ == ids_matching(self.states@, |st: DownloadState| st.is_ended()),
    {
        let ghost pred = |st: DownloadState| st.is_ended();
        let n: usize = self.states.len();
        let mut r: Vec<usize> = Vec::new();
        let mut i: usize = 0;
        while i < n
            invariant
                i <= n,
                n == self.states@.len(),
                pred == (|st: DownloadState| st.is_ended()),
                r@ == ids_matching(self.states@.take(i as int), pred),
            decreases n - i,
        {
            proof {
                assert(self.states@.take(i + 1).drop_last() =~= self.states@.take(i as int));
                assert(self.states@.take(i + 1).last() == self.states@[i as int]);
            }
            match self.states[i] {
                DownloadState::Finished => {
                    r.push(i);
                },
                DownloadState::Failed(_) => {
                    r.push(i);
                },
                _ => {},
            }
            i = i + 1;
        }
        proof {
            assert(self.states@.take(n as int) =~= self.states@);
        }
        r
    }

    /// Returns the indexes of all files being processed (neither queued nor
    /// ended), in ascending order. These are the files the renderer lists.
    pub fn processing(&self) -> (r: Vec<usize>)
        ensures
            r@ == ids_matching(self.states@, |st: DownloadState| st.is_processing()),
    {
        let ghost pred = |st: DownloadState| st.is_processing();
        let n: usize = self.states.len();
        let mut r: Vec<usize> = Vec::new();
        let mut i: usize = 0;
        while i < n
            invariant
                i <= n,
                n == self.states@.len(),
                pred == (|st: DownloadState| st.is_processing()),
                r@ == ids_matching(self.states@.take(i as int), pred),
            decreases n - i,
        {
            proof {
                assert(self.states@.take(i + 1).drop_last() =~= self.states@.take(i as int));
                assert(self.states@.take(i + 1).last() == self.states@[i as int]);
            }
            match self.states[i] {
                DownloadState::Connecting => {
                    r.push(i);
                },
                DownloadState::InProgress(_) => {
                    r.push(i);
                },
                _ => {},
            }
            i = i + 1;
        }
        proof {
            assert(self.states@.take(n as int) =~= self.states@);
        }
        r
    }

    /// Returns the total number of files tracked by this `ProgressState`.
    pub fn total(&self) -> (n: usize)
        ensures
            n == self.file_info@.len(),
    {
        self.file_info.len()
    }

    /// Returns the URL of the file with the given id, or `None` if there is
    /// no such file.
    pub fn get_url(&self, id: usize) -> (r: Option<String>)
        ensures
            match r {
                Some(u) => id < self.file_info@.len() && u == self.file_info@[id as int].1,
                None => id >= self.file_info@.len(),
            },
    {
        if id < self.file_info.len() {
            Some(self.file_info[id].1.clone())
        } else {
            None
        }
    }

    /// Returns the path to which the file with the given id will be
    /// downloaded, or `None` if there is no such file.
    pub fn get_path(&self, id: usize) -> (r: Option<String>)
        ensures
            match r {
                Some(p) => id < self.file_info@.len() && p == self.file_info@[id as int].0,
                None => id >= self.file_info@.len(),
            },
    {
        if id < self.file_info.len() {
            Some(self.file_info[id].0.clone())
        } else {
            None
        }
    }

    /// Returns the error that caused the file with the given id to fail, or
    /// `None` if there is no such file or the file has not failed.
    pub fn get_failure_error(&self, id: usize) -> (r: Option<Error>)
        ensures
            r == if id < self.states@.len() {
                failure_error(self.states@[id as int])
            } else {
                None::<Error>
            },
    {
        if id < self.states.len() {
            match self.states[id] {
                DownloadState::Failed(e) => Some(e),
                _ => None,
            }
        } else {
            None
        }
    }
}

} // verus!
