//! The transfer-task state machine and the bounded-concurrency scheduler.
//!
//! A transfer task performs one download end-to-end and narrates it as a
//! sequence of events on the shared channel. What the transport answers —
//! connection outcome, then a stream of read outcomes — is handed to this
//! module as plain data, and everything decided from it is verified: which
//! event each outcome turns into, and the exact event sequence a whole run
//! produces.

use vstd::prelude::*;

use crate::cli::DownloadState;
use crate::cli::DownloadStatus;
use crate::cli::filter_id;
use crate::cli::init_states;
use crate::cli::lemma_filter_id_push;
use crate::cli::lemma_processing_count_init;
use crate::cli::lemma_processing_count_update;
use crate::cli::lemma_replay_len;
use crate::cli::lemma_replay_project;
use crate::cli::processing_count;
use crate::cli::replay;
use crate::cli::replay_one;
use crate::cli::step_one;
use crate::cli::step_states;
use crate::errors::Error;
use crate::errors::StatusCode;
use crate::errors::Timeout;
use crate::cli::ProgressState;
use crate::cli::all_ended;
use crate::errors::status_code;
use crate::errors::timeout;
use crate::template::Template;

verus! {

/// What the transport answered to the connection attempt for one file.
#[derive(Clone, Copy, Debug, PartialEq, Eq, Structural)]
pub enum ConnectOutcome {
    /// A response arrived, with its status code and its declared content
    /// length (absent when the source declines to report one).
    Connected { status: u16, content_length: Option<u64> },
    /// No response arrived within the configured timeout.
    TimedOut,
    /// The transport failed outright (connection refused, broken socket).
    TransportFailed,
}

/// What the transport answered to one read of the response body.
#[derive(Clone, Copy, Debug, PartialEq, Eq, Structural)]
pub enum ReadOutcome {
    /// A chunk of the body arrived and was written, with its byte count and
    /// the timestamp (milliseconds from the start of the run) of the read.
    Chunk { len: usize, timestamp: u64 },
    /// The body ended; the download is complete.
    Eof,
    /// No bytes arrived within the configured timeout.
    TimedOut,
    /// Reading or writing failed (I/O error).
    ReadFailed,
}

/// What a task does after the connection attempt resolves.
#[derive(Clone, Copy, Debug, PartialEq, Eq, Structural)]
pub enum ConnectDecision {
    /// Stream the body, with the declared content length if any.
    Proceed { content_length: Option<u64> },
    /// Emit `Failed` with this error and stop.
    Fail { error: Error },
}

/// What a task does after one read of the body resolves.
#[derive(Clone, Copy, Debug, PartialEq, Eq, Structural)]
pub enum ReadDecision {
    /// Emit `Progress` for the chunk and keep reading.
    Write { len: usize, timestamp: u64 },
    /// Emit `Finish`: the whole body was streamed.
    Complete,
    /// Emit `Failed` with this error and stop.
    Fail { error: Error },
}

/// A 2xx status code, the success range of an HTTP response.
pub open spec fn is_success_code(status: u16) -> bool {
    200 <= status < 300
}

/// The decision a task owes to each connection outcome: a timeout fails the
/// task with `ConnectTimeout`, a transport fault with `IoError`, a non-2xx
/// response with `StatusCodeError`; only a 2xx response proceeds.
pub open spec fn classify_connect_spec(outcome: ConnectOutcome, timeout_secs: u64) -> ConnectDecision {
    match outcome {
        ConnectOutcome::Connected { status, content_length } => {
            if is_success_code(status) {
                ConnectDecision::Proceed { content_length }
            } else {
                ConnectDecision::Fail {
                    error: Error::StatusCodeError(StatusCode { code: status }),
                }
            }
        },
        ConnectOutcome::TimedOut => ConnectDecision::Fail {
            error: Error::ConnectTimeout(Timeout { seconds: timeout_secs }),
        },
        ConnectOutcome::TransportFailed => ConnectDecision::Fail { error: Error::IoError },
    }
}

/// Decides how a task goes on after its connection attempt.
pub fn classify_connect(outcome: &ConnectOutcome, timeout_secs: u64) -> (d: ConnectDecision)
    ensures
        d == classify_connect_spec(*outcome, timeout_secs),
{
    match outcome {
        ConnectOutcome::Connected { status, content_length } => {
            if 200 <= *status && *status < 300 {
                ConnectDecision::Proceed { content_length: *content_length }
            } else {
                ConnectDecision::Fail { error: Error::StatusCodeError(status_code(*status)) }
            }
        },
        ConnectOutcome::TimedOut => ConnectDecision::Fail {
            error: Error::ConnectTimeout(timeout(timeout_secs)),
        },
        ConnectOutcome::TransportFailed => ConnectDecision::Fail { error: Error::IoError },
    }
}

/// The decision a task owes to each read outcome: a chunk is reported and
/// streaming goes on, the end of the body completes the task, a stall
/// beyond the timeout fails it with `ReadTimeout`, an I/O fault with
/// `IoError`.
pub open spec fn classify_read_spec(outcome: ReadOutcome, timeout_secs: u64) -> ReadDecision {
    match outcome {
        ReadOutcome::Chunk { len, timestamp } => ReadDecision::Write { len, timestamp },
        ReadOutcome::Eof => ReadDecision::Complete,
        ReadOutcome::TimedOut => ReadDecision::Fail {
            error: Error::ReadTimeout(Timeout { seconds: timeout_secs }),
        },
        ReadOutcome::ReadFailed => ReadDecision::Fail { error: Error::IoError },
    }
}

/// Decides how a task goes on after one read of the body.
pub fn classify_read(outcome: &ReadOutcome, timeout_secs: u64) -> (d: ReadDecision)
    ensures
        d == classify_read_spec(*outcome, timeout_secs),
{
    match outcome {
        ReadOutcome::Chunk { len, timestamp } => ReadDecision::Write {
            len: *len,
            timestamp: *timestamp,
        },
        ReadOutcome::Eof => ReadDecision::Complete,
        ReadOutcome::TimedOut => ReadDecision::Fail {
            error: Error::ReadTimeout(timeout(timeout_secs)),
        },
        ReadOutcome::ReadFailed => ReadDecision::Fail { error: Error::IoError },
    }
}

/// Everything the transport will answer for one task: the connection
/// outcome, whether the destination's parent directories can be created,
/// and the body reads in order. The scheduler is verified against every
/// possible script.
#[derive(Clone, Debug)]
pub struct TaskScript {
    /// What the connection attempt resolves to.
    pub connect: ConnectOutcome,
    /// Whether creating the destination's parent directories succeeds.
    pub dir_ok: bool,
    /// What each successive read of the body resolves to. Reads past the
    /// end of this list mean the body ended.
    pub reads: Vec<ReadOutcome>,
}

/// How many reads deliver a chunk before the stream resolves: the index of
/// the first non-chunk outcome, or the length if every read is a chunk.
pub open spec fn chunk_count(reads: Seq<ReadOutcome>) -> nat
    decreases reads.len(),
{
    if reads.len() == 0 {
        0
    } else if reads[0] is Chunk {
        1 + chunk_count(reads.drop_first())
    } else {
        0
    }
}

pub proof fn lemma_chunk_count(reads: Seq<ReadOutcome>)
    ensures
        chunk_count(reads) <= reads.len(),
        forall|j: int| 0 <= j < chunk_count(reads) ==> (#[trigger] reads[j]) is Chunk,
        chunk_count(reads) < reads.len() ==> !(reads[chunk_count(reads) as int] is Chunk),
    decreases reads.len(),
{
    if reads.len() > 0 && reads[0] is Chunk {
        lemma_chunk_count(reads.drop_first());
        assert forall|j: int| 0 <= j < chunk_count(reads) implies (#[trigger] reads[j]) is Chunk by {
            if j > 0 {
                assert(reads.drop_first()[j - 1] == reads[j]);
            }
        }
        if chunk_count(reads) < reads.len() {
            assert(reads.drop_first()[chunk_count(reads.drop_first()) as int] == reads[chunk_count(
                reads,
            ) as int]);
        }
    }
}

/// The `Progress` event a chunk outcome turns into. Only applied to chunk
/// outcomes; the fallback arm is never selected.
pub open spec fn progress_of(id: usize, outcome: ReadOutcome) -> DownloadStatus {
    match outcome {
        ReadOutcome::Chunk { len, timestamp } => DownloadStatus::Progress(id, len, timestamp),
        _ => DownloadStatus::Init(id),
    }
}

/// The terminal event of a streaming task: `Finish` when the body ends,
/// `Failed` when a read stalls or faults.
pub open spec fn stream_end_event(id: usize, reads: Seq<ReadOutcome>, timeout_secs: u64) -> DownloadStatus {
    let cc = chunk_count(reads);
    if cc == reads.len() {
        DownloadStatus::Finish(id)
    } else {
        match reads[cc as int] {
            ReadOutcome::Eof => DownloadStatus::Finish(id),
            ReadOutcome::TimedOut => DownloadStatus::Failed(
                id,
                Error::ReadTimeout(Timeout { seconds: timeout_secs }),
            ),
            _ => DownloadStatus::Failed(id, Error::IoError),
        }
    }
}

/// The events a streaming task emits after `Start`: one `Progress` per
/// chunk written, then exactly one terminal event.
pub open spec fn stream_trace(id: usize, reads: Seq<ReadOutcome>, timeout_secs: u64) -> Seq<
    DownloadStatus,
> {
    Seq::new(chunk_count(reads), |j: int| progress_of(id, reads[j])).push(
        stream_end_event(id, reads, timeout_secs),
    )
}

/// The exact sequence of events one task emits, start to finish: `Init`
/// first, then — depending on how the connection resolves — either a single
/// `Failed`, or `Start` followed by the stream's events. A task that fails
/// before `Start` never emits `Progress` or `Finish`.
pub open spec fn task_trace(id: usize, script: TaskScript, timeout_secs: u64) -> Seq<
    DownloadStatus,
> {
    seq![DownloadStatus::Init(id)] + match classify_connect_spec(script.connect, timeout_secs) {
        ConnectDecision::Fail { error } => seq![DownloadStatus::Failed(id, error)],
        ConnectDecision::Proceed { content_length } => {
            if !script.dir_ok {
                seq![DownloadStatus::Failed(id, Error::IoError)]
            } else {
                seq![DownloadStatus::Start(id, content_length)] + stream_trace(
                    id,
                    script.reads@,
                    timeout_secs,
                )
            }
        },
    }
}

/// Where each event stands in a task's trace, by the decision the script
/// resolves the connection to.
pub proof fn lemma_task_trace_index(id: usize, script: TaskScript, timeout_secs: u64)
    ensures
        ({
            let tr = task_trace(id, script, timeout_secs);
            let d = classify_connect_spec(script.connect, timeout_secs);
            let cc = chunk_count(script.reads@);
            &&& tr.len() >= 2
            &&& tr[0] == DownloadStatus::Init(id)
            &&& (d matches ConnectDecision::Fail { error } ==> tr.len() == 2 && tr[1]
                == DownloadStatus::Failed(id, error))
            &&& (d is Proceed ==> (!script.dir_ok ==> tr.len() == 2 && tr[1]
                == DownloadStatus::Failed(id, Error::IoError)))
            &&& (d matches ConnectDecision::Proceed { content_length } ==> (script.dir_ok ==> {
                &&& tr.len() == 3 + cc
                &&& tr[1] == DownloadStatus::Start(id, content_length)
                &&& (forall|j: int|
                    0 <= j < cc ==> tr[2 + j] == progress_of(id, script.reads@[j]))
                &&& tr[tr.len() - 1] == stream_end_event(id, script.reads@, timeout_secs)
            }))
        }),
{
    let tr = task_trace(id, script, timeout_secs);
    let d = classify_connect_spec(script.connect, timeout_secs);
    match d {
        ConnectDecision::Fail { error } => {},
        ConnectDecision::Proceed { content_length } => {
            if script.dir_ok {
                let st = stream_trace(id, script.reads@, timeout_secs);
                let cc = chunk_count(script.reads@);
                assert(st.len() == cc + 1);
                assert(tr.len() == 3 + cc);
                assert forall|j: int| 0 <= j < cc implies tr[2 + j] == progress_of(
                    id,
                    script.reads@[j],
                ) by {
                    assert(tr[2 + j] == st[j]);
                }
                assert(tr[tr.len() - 1] == st[st.len() - 1]);
            }
        },
    }
}

/// The ordering law a single task's events obey: `Init` first and only
/// first; `Start` exactly when the task got past the connection, right
/// after `Init`; `Progress` only strictly between `Start` and the end; and
/// exactly one terminal event, which comes last. `Start` never follows a
/// terminal event, and `Progress` never precedes `Start`.
pub proof fn lemma_task_trace_ordered(id: usize, script: TaskScript, timeout_secs: u64)
    ensures
        ({
            let tr = task_trace(id, script, timeout_secs);
            &&& tr.len() >= 2
            &&& tr[0] == DownloadStatus::Init(id)
            &&& (forall|j: int| 0 <= j < tr.len() ==> (#[trigger] tr[j]).index_spec() == id)
            &&& tr.last().is_terminal()
            &&& (forall|j: int| 0 <= j < tr.len() - 1 ==> !(#[trigger] tr[j]).is_terminal())
            &&& (forall|j: int|
                0 <= j < tr.len() ==> ((#[trigger] tr[j]) is Start <==> (j == 1 && tr.len() > 2)))
            &&& (forall|j: int|
                0 <= j < tr.len() ==> ((#[trigger] tr[j]) is Progress ==> 2 <= j < tr.len() - 1))
            &&& (forall|j: int| 0 <= j < tr.len() ==> ((#[trigger] tr[j]) is Init ==> j == 0))
        }),
{
    lemma_task_trace_index(id, script, timeout_secs);
    lemma_chunk_count(script.reads@);
    let tr = task_trace(id, script, timeout_secs);
    let d = classify_connect_spec(script.connect, timeout_secs);
    match d {
        ConnectDecision::Fail { error } => {},
        ConnectDecision::Proceed { content_length } => {
            if script.dir_ok {
                let cc = chunk_count(script.reads@);
                assert forall|j: int| 2 <= j < tr.len() - 1 implies (#[trigger] tr[j]) is Progress
                    && tr[j].index_spec() == id by {
                    assert(tr[j] == progress_of(id, script.reads@[j - 2]));
                    assert(script.reads@[j - 2] is Chunk);
                }
            }
        },
    }
}

/// The per-file state machine driven by a prefix of its own trace: after
/// `Init` the file is connecting, after `Start` it is in progress, and
/// after the last event of the trace it has ended.
pub proof fn lemma_trace_replay(id: usize, script: TaskScript, timeout_secs: u64, k: int)
    requires
        0 <= k <= task_trace(id, script, timeout_secs).len(),
    ensures
        ({
            let tr = task_trace(id, script, timeout_secs);
            let st = replay_one(DownloadState::Queued, tr.take(k));
            &&& (k == 0 ==> st is Queued)
            &&& (k == 1 ==> st is Connecting)
            &&& (2 <= k < tr.len() ==> st is InProgress)
            &&& (k == tr.len() ==> st.is_ended())
        }),
    decreases k,
{
    let tr = task_trace(id, script, timeout_secs);
    lemma_task_trace_index(id, script, timeout_secs);
    lemma_task_trace_ordered(id, script, timeout_secs);
    if k == 0 {
        assert(tr.take(0) =~= Seq::<DownloadStatus>::empty());
    } else {
        lemma_trace_replay(id, script, timeout_secs, k - 1);
        assert(tr.take(k).drop_last() =~= tr.take(k - 1));
        assert(tr.take(k).last() == tr[k - 1]);
        let prev = replay_one(DownloadState::Queued, tr.take(k - 1));
        let st = replay_one(DownloadState::Queued, tr.take(k));
        assert(st == step_one(prev, tr[k - 1]));
        if k == tr.len() {
            if tr[k - 1] is Finish {
                // A `Finish` can only stand at the end of a trace that got
                // past `Start`, so the state it acts on is `InProgress`.
                assert(tr.len() > 2);
                assert(prev is InProgress);
            } else {
                assert(tr[k - 1] is Failed);
                assert(!prev.is_ended());
            }
        }
    }
}

/// How many terminal events a sequence holds: with one channel consumer,
/// this is how many tasks have been seen to end.
pub open spec fn count_terminal(evs: Seq<DownloadStatus>) -> nat
    decreases evs.len(),
{
    if evs.len() == 0 {
        0
    } else {
        count_terminal(evs.drop_last()) + if evs.last().is_terminal() {
            1nat
        } else {
            0nat
        }
    }
}

pub proof fn lemma_count_terminal_push(evs: Seq<DownloadStatus>, e: DownloadStatus)
    ensures
        count_terminal(evs.push(e)) == count_terminal(evs) + if e.is_terminal() {
            1nat
        } else {
            0nat
        },
{
    assert(evs.push(e).drop_last() =~= evs);
}

/// Appending one event extends the filtered view of its own id and leaves
/// the view of every other id unchanged.
pub proof fn lemma_filter_id_push_all(evs: Seq<DownloadStatus>, e: DownloadStatus)
    ensures
        forall|id: usize|
            #[trigger] filter_id(evs.push(e), id) == if id == e.index_spec() {
                filter_id(evs, id).push(e)
            } else {
                filter_id(evs, id)
            },
{
    assert forall|id: usize|
        #[trigger] filter_id(evs.push(e), id) == if id == e.index_spec() {
            filter_id(evs, id).push(e)
        } else {
            filter_id(evs, id)
        } by {
        lemma_filter_id_push(evs, e, id);
    }
}

/// Consuming one more event steps the replayed state vector by that event.
pub proof fn lemma_replay_push(ss: Seq<DownloadState>, evs: Seq<DownloadStatus>, e: DownloadStatus)
    ensures
        replay(ss, evs.push(e)) == step_states(replay(ss, evs), e),
{
    assert(evs.push(e).drop_last() =~= evs);
    assert(evs.push(e).last() == e);
}

/// Where the task at the front of the admitted pool stands: waiting for its
/// connection attempt to resolve, or streaming its body at the given read.
#[derive(Clone, Copy)]
enum TaskPos {
    AwaitConnect,
    Streaming { next_read: usize },
}

/// How many events of its trace a task at this position has emitted: `Init`
/// alone while the connection is pending, `Init`, `Start` and one
/// `Progress` per completed read while streaming.
spec fn emitted_of(pos: TaskPos) -> int {
    match pos {
        TaskPos::AwaitConnect => 1,
        TaskPos::Streaming { next_read } => 2 + next_read,
    }
}

/// Runs at most `parallelism` transfer tasks concurrently over the whole
/// work list, funneling all their events into one ordered stream.
///
/// The returned stream interleaves, without loss or reordering within an
/// id, exactly the trace of every task: the events of task `id` are
/// `task_trace(id, scripts[id], timeout_secs)`, in that order. The stream
/// carries exactly one terminal event per scheduled task, and at no
/// observed instant — no prefix of the stream — are more than `parallelism`
/// files connecting or in progress.
#[verifier::rlimit(100)]
pub fn schedule(scripts: &Vec<TaskScript>, parallelism: usize, timeout_secs: u64) -> (events: Vec<
    DownloadStatus,
>)
    requires
        parallelism >= 1,
    ensures
        forall|id: usize|
            (id as int) < scripts@.len() ==> #[trigger] filter_id(events@, id) == task_trace(
                id,
                scripts@[id as int],
                timeout_secs,
            ),
        forall|id: usize|
            (id as int) >= scripts@.len() ==> #[trigger] filter_id(events@, id) == Seq::<
                DownloadStatus,
            >::empty(),
        count_terminal(events@) == scripts@.len(),
        forall|k: int|
            0 <= k <= events@.len() ==> processing_count(
                replay(init_states(scripts@.len()), #[trigger] events@.take(k)),
            ) <= parallelism,
{
    let n: usize = scripts.len();
    let mut events: Vec<DownloadStatus> = Vec::new();
    let mut front: usize = 0;
    let mut next: usize = 0;
    let mut pos = TaskPos::AwaitConnect;

    proof {
        lemma_processing_count_init(n as nat);
        assert(events@.take(0) =~= events@);
    }

    while front < n
        invariant
            n == scripts@.len(),
            parallelism >= 1,
            front <= next <= n,
            next - front <= parallelism,
            front == next ==> pos is AwaitConnect,
            front < next ==> ({
                let tr = task_trace(front, scripts@[front as int], timeout_secs);
                &&& 1 <= emitted_of(pos) < tr.len()
                &&& filter_id(events@, front) == tr.take(emitted_of(pos))
            }),
            forall|id: usize|
                front < id < next ==> #[trigger] filter_id(events@, id) == task_trace(
                    id,
                    scripts@[id as int],
                    timeout_secs,
                ).take(1),
            forall|id: usize|
                id < front ==> #[trigger] filter_id(events@, id) == task_trace(
                    id,
                    scripts@[id as int],
                    timeout_secs,
                ),
            forall|id: usize|
                next <= id ==> #[trigger] filter_id(events@, id) == Seq::<DownloadStatus>::empty(),
            count_terminal(events@) == front,
            processing_count(replay(init_states(n as nat), events@)) == next - front,
            forall|k: int|
                0 <= k <= events@.len() ==> processing_count(
                    replay(init_states(n as nat), #[trigger] events@.take(k)),
                ) <= parallelism,
        decreases
            n - front,
            task_trace(front, scripts@[front as int], timeout_secs).len() - emitted_of(pos),
    {
        let ghost init = init_states(n as nat);

        // Admission: while a slot is free and work remains, the next task
        // enters the pool and announces itself before any network activity.
        if next - front < parallelism && next < n {
            let ghost pre = events@;
            let e = DownloadStatus::Init(next);
            events.push(e);
            proof {
                let s = scripts@[next as int];
                let tr = task_trace(next, s, timeout_secs);
                lemma_task_trace_index(next, s, timeout_secs);
                lemma_filter_id_push_all(pre, e);
                assert(filter_id(pre, next) == Seq::<DownloadStatus>::empty());
                assert(filter_id(events@, next) =~= tr.take(1));
                lemma_count_terminal_push(pre, e);
                lemma_replay_push(init, pre, e);
                lemma_replay_len(init, pre);
                lemma_replay_project(init, pre, next);
                let cur = replay(init, pre);
                assert(cur[next as int] == replay_one(
                    DownloadState::Queued,
                    filter_id(pre, next),
                ));
                assert(cur[next as int] is Queued);
                lemma_processing_count_update(
                    cur,
                    next as int,
                    step_one(cur[next as int], e),
                );
                assert(processing_count(replay(init, events@)) == next + 1 - front);
                assert forall|k: int|
                    0 <= k <= events@.len() implies processing_count(
                    replay(init, #[trigger] events@.take(k)),
                ) <= parallelism by {
                    if k <= pre.len() {
                        assert(events@.take(k) =~= pre.take(k));
                    } else {
                        assert(events@.take(k) =~= events@);
                    }
                }
            }
            next = next + 1;
        }
        assert(front < next);

        // Step the front task one transport interaction and emit the one
        // event that interaction owes, per the task contract.
        let ghost s = scripts@[front as int];
        let ghost tr = task_trace(front, s, timeout_secs);
        let ghost k = emitted_of(pos);
        let ghost pre = events@;

        proof {
            lemma_task_trace_index(front, s, timeout_secs);
            lemma_task_trace_ordered(front, s, timeout_secs);
            lemma_chunk_count(s.reads@);
        }

        let script = &scripts[front];
        let mut completed: bool = false;
        match pos {
            TaskPos::AwaitConnect => {
                let d = classify_connect(&script.connect, timeout_secs);
                match d {
                    ConnectDecision::Fail { error } => {
                        events.push(DownloadStatus::Failed(front, error));
                        completed = true;
                    },
                    ConnectDecision::Proceed { content_length } => {
                        if !script.dir_ok {
                            events.push(DownloadStatus::Failed(front, Error::IoError));
                            completed = true;
                        } else {
                            events.push(DownloadStatus::Start(front, content_length));
                            pos = TaskPos::Streaming { next_read: 0 };
                        }
                    },
                }
            },
            TaskPos::Streaming { next_read } => {
                proof {
                    // Streaming positions only arise on traces that got past
                    // `Start`, whose length pins the chunk count.
                    assert(tr.len() > 2);
                    assert(next_read <= chunk_count(s.reads@));
                }
                if next_read >= script.reads.len() {
                    events.push(DownloadStatus::Finish(front));
                    completed = true;
                    proof {
                        assert(chunk_count(s.reads@) == s.reads@.len());
                        assert(k == tr.len() - 1);
                    }
                } else {
                    let rd = classify_read(&script.reads[next_read], timeout_secs);
                    match rd {
                        ReadDecision::Write { len, timestamp } => {
                            events.push(DownloadStatus::Progress(front, len, timestamp));
                            pos = TaskPos::Streaming { next_read: next_read + 1 };
                            proof {
                                assert(s.reads@[next_read as int] is Chunk);
                                assert(next_read < chunk_count(s.reads@));
                                assert(tr[k] == progress_of(front, s.reads@[next_read as int]));
                            }
                        },
                        ReadDecision::Complete => {
                            events.push(DownloadStatus::Finish(front));
                            completed = true;
                            proof {
                                assert(!(s.reads@[next_read as int] is Chunk));
                                assert(next_read == chunk_count(s.reads@));
                                assert(k == tr.len() - 1);
                                assert(tr[k] == stream_end_event(front, s.reads@, timeout_secs));
                            }
                        },
                        ReadDecision::Fail { error } => {
                            events.push(DownloadStatus::Failed(front, error));
                            completed = true;
                            proof {
                                assert(!(s.reads@[next_read as int] is Chunk));
                                assert(next_read == chunk_count(s.reads@));
                                assert(k == tr.len() - 1);
                                assert(tr[k] == stream_end_event(front, s.reads@, timeout_secs));
                            }
                        },
                    }
                }
            },
        }

        proof {
            let e = events@.last();
            assert(events@ =~= pre.push(e));
            assert(e == tr[k]);
            assert(e.index_spec() == front);
            lemma_filter_id_push_all(pre, e);
            assert(tr.take(k + 1) =~= tr.take(k).push(tr[k]));
            assert(filter_id(events@, front) == tr.take(k + 1));
            lemma_count_terminal_push(pre, e);
            lemma_replay_push(init, pre, e);
            lemma_replay_len(init, pre);
            lemma_replay_project(init, pre, front);
            let cur = replay(init, pre);
            assert(cur[front as int] == replay_one(DownloadState::Queued, tr.take(k)));
            lemma_trace_replay(front, s, timeout_secs, k);
            lemma_trace_replay(front, s, timeout_secs, k + 1);
            assert(tr.take(k + 1).drop_last() =~= tr.take(k));
            assert(replay_one(DownloadState::Queued, tr.take(k + 1)) == step_one(
                cur[front as int],
                e,
            ));
            lemma_processing_count_update(cur, front as int, step_one(cur[front as int], e));
            assert forall|k2: int|
                0 <= k2 <= events@.len() implies processing_count(
                replay(init, #[trigger] events@.take(k2)),
            ) <= parallelism by {
                if k2 <= pre.len() {
                    assert(events@.take(k2) =~= pre.take(k2));
                } else {
                    assert(events@.take(k2) =~= events@);
                }
            }
            if k + 1 == tr.len() {
                assert(tr.take(k + 1) =~= tr);
                assert(e.is_terminal());
                assert(replay_one(DownloadState::Queued, tr.take(k + 1)).is_ended());
            } else {
                assert(!e.is_terminal());
            }
        }

        if completed {
            front = front + 1;
            pos = TaskPos::AwaitConnect;
        }
    }

    proof {
        assert(front == n);
        assert(next == n) by {
            assert(next - front <= parallelism);
            assert(front <= next <= n);
        }
    }
    events
}

/// Consumes an event stream in order, applying each event to the progress
/// model exactly as the per-event marking methods do. This is the whole
/// mutation the control loop performs; rendering decisions are separate and
/// read-only.
pub fn consume_events(state: &mut ProgressState, events: &Vec<DownloadStatus>)
    requires
        old(state).wf(),
    ensures
        final(state).wf(),
        final(state).file_info == old(state).file_info,
        final(state).states@ == replay(old(state).states@, events@),
{
    let n: usize = events.len();
    let mut i: usize = 0;
    while i < n
        invariant
            i <= n,
            n == events@.len(),
            state.wf(),
            state.file_info == old(state).file_info,
            state.states@ == replay(old(state).states@, events@.take(i as int)),
        decreases n - i,
    {
        proof {
            assert(events@.take(i + 1).drop_last() =~= events@.take(i as int));
            assert(events@.take(i + 1).last() == events@[i as int]);
        }
        let ev = events[i];
        state.apply_status(&ev);
        i = i + 1;
    }
    proof {
        assert(events@.take(n as int) =~= events@);
    }
}

/// Runs the whole batch: schedules every task with bounded parallelism,
/// consumes the resulting event stream into a fresh progress model, and
/// returns the final model together with the stream it consumed.
///
/// The final model reports every file ended — finished or failed — which is
/// why the control loop that mirrors this run terminates.
pub fn run(
    file_info: Vec<(String, String)>,
    scripts: &Vec<TaskScript>,
    parallelism: usize,
    timeout_secs: u64,
) -> (r: (ProgressState, Vec<DownloadStatus>))
    requires
        parallelism >= 1,
        file_info@.len() == scripts@.len(),
    ensures
        r.0.wf(),
        r.0.file_info == file_info,
        r.0.states@ == replay(init_states(file_info@.len()), r.1@),
        all_ended(r.0.states@),
        forall|id: usize|
            (id as int) < scripts@.len() ==> #[trigger] filter_id(r.1@, id) == task_trace(
                id,
                scripts@[id as int],
                timeout_secs,
            ),
        forall|id: usize|
            (id as int) >= scripts@.len() ==> #[trigger] filter_id(r.1@, id) == Seq::<
                DownloadStatus,
            >::empty(),
        count_terminal(r.1@) == scripts@.len(),
        forall|k: int|
            0 <= k <= r.1@.len() ==> processing_count(
                replay(init_states(scripts@.len()), #[trigger] r.1@.take(k)),
            ) <= parallelism,
{
    let events = schedule(scripts, parallelism, timeout_secs);
    let ghost n = file_info@.len();
    let mut state = ProgressState::new(file_info);
    // The file count, as a usize: it bounds every id below.
    let total: usize = state.total();
    consume_events(&mut state, &events);
    proof {
        lemma_replay_len(init_states(n), events@);
        assert(state.states@ == replay(init_states(n), events@));
        assert forall|i: int| 0 <= i < state.states@.len() implies (#[trigger] state.states@[i]).is_ended() by {
            assert(n == total);
            let id = i as usize;
            assert(id as int == i);
            lemma_replay_project(init_states(n), events@, id);
            assert(init_states(n)[i] is Queued);
            let s = scripts@[i];
            let tr = task_trace(id, s, timeout_secs);
            assert(filter_id(events@, id) == tr);
            lemma_task_trace_index(id, s, timeout_secs);
            lemma_trace_replay(id, s, timeout_secs, tr.len() as int);
            assert(tr.take(tr.len() as int) =~= tr);
            assert(state.states@[i] == replay_one(DownloadState::Queued, tr));
        }
    }
    (state, events)
}

/// One entry of the unfiltered work list: where the file would be written,
/// where it comes from, and whether the destination already exists on disk
/// (checked once, before scheduling).
pub struct TaskEntry {
    /// The destination path.
    pub path: String,
    /// The source URL.
    pub url: String,
    /// Whether the destination already exists.
    pub exists: bool,
}

/// The work list an entry sequence gives rise to: the (path, URL) pairs of
/// the entries whose destination does not already exist, in input order.
/// Ids are positions in this list.
pub open spec fn work_list_of(entries: Seq<TaskEntry>) -> Seq<(String, String)>
    decreases entries.len(),
{
    if entries.len() == 0 {
        Seq::empty()
    } else {
        work_list_of(entries.drop_last()) + if !entries.last().exists {
            seq![(entries.last().path, entries.last().url)]
        } else {
            Seq::empty()
        }
    }
}

/// Builds the work list: entries whose destination already exists are
/// skipped (reported by the caller, never scheduled), the rest keep their
/// input order and get ids `0..len` by position.
pub fn build_work_list(entries: &Vec<TaskEntry>) -> (r: Vec<(String, String)>)
    ensures
        r@ == work_list_of(entries@),
{
    let n: usize = entries.len();
    let mut r: Vec<(String, String)> = Vec::new();
    let mut i: usize = 0;
    while i < n
        invariant
            i <= n,
            n == entries@.len(),
            r@ == work_list_of(entries@.take(i as int)),
        decreases n - i,
    {
        proof {
            assert(entries@.take(i + 1).drop_last() =~= entries@.take(i as int));
            assert(entries@.take(i + 1).last() == entries@[i as int]);
        }
        if !entries[i].exists {
            r.push((entries[i].path.clone(), entries[i].url.clone()));
        }
        i = i + 1;
    }
    proof {
        assert(entries@.take(n as int) =~= entries@);
    }
    r
}

/// Skip-if-exists is idempotent: when every destination already exists — as
/// after a run that downloaded every file — the work list is empty, so a
/// second run schedules zero tasks.
pub proof fn lemma_work_list_all_existing(entries: Seq<TaskEntry>)
    requires
        forall|i: int| 0 <= i < entries.len() ==> (#[trigger] entries[i]).exists,
    ensures
        work_list_of(entries).len() == 0,
    decreases entries.len(),
{
    if entries.len() > 0 {
        assert(forall|i: int|
            0 <= i < entries.len() - 1 ==> (#[trigger] entries.drop_last()[i]) == entries[i]);
        lemma_work_list_all_existing(entries.drop_last());
    }
}

/// Generates the request list of a template: for each file, the
/// destination path paired with the URL a GET request will retrieve, in
/// template order. This is the unfiltered input to `build_work_list`.
pub fn get_template_requests(templ: &Template) -> (r: Vec<(String, String)>)
    ensures
        r@ == templ.retrieve@,
{
    let n: usize = templ.retrieve.len();
    let mut r: Vec<(String, String)> = Vec::new();
    let mut i: usize = 0;
    while i < n
        invariant
            i <= n,
            n == templ.retrieve@.len(),
            r@ == templ.retrieve@.take(i as int),
        decreases n - i,
    {
        proof {
            assert(templ.retrieve@.take(i + 1).drop_last() =~= templ.retrieve@.take(i as int));
            assert(templ.retrieve@.take(i + 1).last() == templ.retrieve@[i as int]);
        }
        r.push((templ.retrieve[i].0.clone(), templ.retrieve[i].1.clone()));
        i = i + 1;
    }
    proof {
        assert(templ.retrieve@.take(n as int) =~= templ.retrieve@);
    }
    r
}

/// An ASCII decimal digit.
pub open spec fn is_ascii_digit(b: u8) -> bool {
    48 <= b <= 57
}

/// The number the digit bytes spell in decimal.
pub open spec fn digits_val(s: Seq<u8>) -> nat
    decreases s.len(),
{
    if s.len() == 0 {
        0
    } else {
        digits_val(s.drop_last()) * 10 + (s.last() - 48) as nat
    }
}

/// A nonempty, all-digit byte string.
pub open spec fn all_digits(s: Seq<u8>) -> bool {
    s.len() > 0 && forall|i: int| 0 <= i < s.len() ==> is_ascii_digit(#[trigger] s[i])
}

/// The digits of a header value: an optional leading `+` sign is allowed,
/// as the standard integer parser allows it.
pub open spec fn digits_part(s: Seq<u8>) -> Seq<u8> {
    if s.len() > 0 && s[0] == 43 {
        s.drop_first()
    } else {
        s
    }
}

/// A byte string that parses as a content length: digits after an optional
/// `+`, spelling a value that fits in a `u64`.
pub open spec fn valid_content_length(s: Seq<u8>) -> bool {
    all_digits(digits_part(s)) && digits_val(digits_part(s)) <= u64::MAX
}

/// A prefix of a digit string never spells a larger number than the whole.
proof fn lemma_digits_val_take(s: Seq<u8>, m: int)
    requires
        0 <= m <= s.len(),
    ensures
        digits_val(s.take(m)) <= digits_val(s),
    decreases s.len() - m,
{
    if m < s.len() {
        lemma_digits_val_take(s, m + 1);
        assert(s.take(m + 1).drop_last() =~= s.take(m));
        assert(digits_val(s.take(m + 1)) == digits_val(s.take(m)) * 10 + (s.take(m + 1).last()
            - 48) as nat);
    } else {
        assert(s.take(m) =~= s);
    }
}

/// Reads the declared content length from the bytes of a header value:
/// `Some` exactly when the bytes are an optionally `+`-signed decimal
/// number that fits in a `u64`, and then that number. Absence, foreign
/// characters and overflow all yield `None`, and `None` is a valid content
/// length for the task contract (the source declined to report one).
pub fn parse_content_length(bytes: &Vec<u8>) -> (r: Option<u64>)
    ensures
        valid_content_length(bytes@) ==> r == Some((digits_val(digits_part(bytes@)) as u64)),
        !valid_content_length(bytes@) ==> r is None,
{
    let n: usize = bytes.len();
    let start: usize = if n > 0 && bytes[0] == 43 {
        1
    } else {
        0
    };
    proof {
        if start == 1 {
            assert(digits_part(bytes@) =~= bytes@.skip(1));
        } else {
            assert(digits_part(bytes@) =~= bytes@.skip(0));
            assert(bytes@.skip(0) =~= bytes@);
        }
    }
    if start >= n {
        return None;
    }
    let mut acc: u64 = 0;
    let mut i: usize = start;
    while i < n
        invariant
            start <= i <= n,
            start <= 1,
            n == bytes@.len(),
            digits_part(bytes@) == bytes@.skip(start as int),
            forall|j: int| start <= j < i ==> is_ascii_digit(#[trigger] bytes@[j]),
            acc == digits_val(bytes@.subrange(start as int, i as int)),
        decreases n - i,
    {
        let b = bytes[i];
        proof {
            assert(bytes@.skip(start as int)[i - start] == bytes@[i as int]);
        }
        if b < 48 || b > 57 {
            // A foreign character anywhere makes the whole value invalid.
            return None;
        }
        let d: u8 = b - 48;
        proof {
            assert(bytes@.subrange(start as int, i + 1).drop_last() =~= bytes@.subrange(
                start as int,
                i as int,
            ));
            assert(bytes@.subrange(start as int, i + 1).last() == bytes@[i as int]);
        }
        if acc > (u64::MAX - (d as u64)) / 10 {
            // The number no longer fits in a u64; no longer prefix can
            // shrink it back.
            proof {
                assert(acc * 10 + d > u64::MAX);
                lemma_digits_val_take(bytes@.skip(start as int), i + 1 - start);
                assert(bytes@.skip(start as int).take(i + 1 - start) =~= bytes@.subrange(
                    start as int,
                    i + 1,
                ));
            }
            return None;
        }
        acc = acc * 10 + (d as u64);
        i = i + 1;
    }
    proof {
        assert(bytes@.subrange(start as int, n as int) =~= bytes@.skip(start as int));
    }
    Some(acc)
}

} // verus!
