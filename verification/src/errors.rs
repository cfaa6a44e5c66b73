//! The closed set of errors that a single transfer can fail with, plus the
//! batch-level record of every failed download.

use vstd::prelude::*;

verus! {

/// A transfer timed out: no data received in the recorded interval.
#[derive(Clone, Copy, Debug, PartialEq, Eq, Structural)]
pub struct Timeout {
    /// The length of the configured timeout interval, in seconds.
    pub seconds: u64,
}

/// The request was answered with a non-2xx HTTP status code.
#[derive(Clone, Copy, Debug, PartialEq, Eq, Structural)]
pub struct StatusCode {
    /// The status code of the response.
    pub code: u16,
}

/// The reason one transfer failed. Every failure mode inside a transfer task
/// converts into one of these; a failure is data carried by an event, never
/// control flow that could abort the batch.
#[derive(Clone, Copy, Debug, PartialEq, Eq, Structural)]
pub enum Error {
    /// No connection was established within the configured timeout.
    ConnectTimeout(Timeout),
    /// The body read stalled beyond the configured timeout.
    ReadTimeout(Timeout),
    /// The response carried a non-2xx status code.
    StatusCodeError(StatusCode),
    /// A filesystem or transport failure (directory creation, file creation,
    /// write, or a broken connection).
    IoError,
}

/// The files whose download failed, each with the destination path and a
/// description of the cause. Used for the consolidated report at the end of
/// a run.
#[derive(Clone, Debug)]
pub struct DownloadsFailed {
    /// Pairs of destination path and failure description.
    pub files: Vec<(String, String)>,
}

/// Constructs a `Timeout` record for the given interval.
pub fn timeout(seconds: u64) -> (e: Timeout)
    ensures
        e.seconds == seconds,
{
    Timeout { seconds }
}

/// Constructs a `StatusCode` record for the given code.
pub fn status_code(code: u16) -> (e: StatusCode)
    ensures
        e.code == code,
{
    StatusCode { code }
}

/// Constructs a `DownloadsFailed` record from the given list of failures.
pub fn download_failed(files: Vec<(String, String)>) -> (e: DownloadsFailed)
    ensures
        e.files == files,
{
    DownloadsFailed { files }
}

} // verus!
