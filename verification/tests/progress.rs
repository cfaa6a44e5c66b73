use tempget::cli::{DownloadState, DownloadStatus, FileDownloadProgress, ProgressState, should_render};
use tempget::errors::{download_failed, status_code, timeout, Error, StatusCode, Timeout};

fn two_files() -> ProgressState {
    ProgressState::new(vec![
        ("a.bin".to_string(), "http://x/a".to_string()),
        ("b.bin".to_string(), "http://x/b".to_string()),
    ])
}

#[test]
fn new_progress_starts_empty() {
    let p = FileDownloadProgress::new(Some(1000));
    assert_eq!(p.max_size, Some(1000));
    assert_eq!(p.down_size, 0);
    assert_eq!(p.last_update_rate, 0);
}

#[test]
fn rate_updates_only_past_threshold() {
    let mut p = FileDownloadProgress::new(Some(1000));
    // 300 ms after the initial sample: past the 200 ms threshold.
    p.inc(100, 300);
    assert_eq!(p.down_size, 100);
    assert_eq!(p.last_update_rate, 100 * 1000 / 300);
    // 50 ms later: bytes counted, rate untouched.
    let rate_before = p.last_update_rate;
    p.inc(50, 350);
    assert_eq!(p.down_size, 150);
    assert_eq!(p.last_update_rate, rate_before);
    // 250 ms after the last sample: rate recomputed over the 50 bytes
    // accumulated since that sample.
    p.inc(50, 600);
    assert_eq!(p.down_size, 200);
    assert_eq!(p.last_update_rate, 100 * 1000 / 300);
}

#[test]
fn rate_recomputed_from_accumulated_delta() {
    let mut p = FileDownloadProgress::new(None);
    p.inc(100, 250);
    assert_eq!(p.last_update_rate, 400);
    p.inc(100, 500);
    assert_eq!(p.last_update_rate, 400);
    p.inc(300, 1000);
    assert_eq!(p.last_update_rate, 600);
}

#[test]
fn stale_timestamp_adds_bytes_without_rate_change() {
    let mut p = FileDownloadProgress::new(None);
    p.inc(100, 500);
    let rate = p.last_update_rate;
    // An out-of-order notification older than the current sample.
    p.inc(25, 100);
    assert_eq!(p.down_size, 125);
    assert_eq!(p.last_update_rate, rate);
    assert_eq!(p.last_update_time, 500);
}

#[test]
fn byte_count_saturates_instead_of_wrapping() {
    let mut p = FileDownloadProgress::new(None);
    p.inc(u64::MAX - 10, 50);
    assert_eq!(p.down_size, u64::MAX - 10);
    p.inc(100, 60);
    assert_eq!(p.down_size, u64::MAX);
}

#[test]
fn get_index_names_every_variant() {
    assert_eq!(DownloadStatus::Init(3).get_index(), 3);
    assert_eq!(DownloadStatus::Start(4, Some(9)).get_index(), 4);
    assert_eq!(DownloadStatus::Progress(5, 10, 7).get_index(), 5);
    assert_eq!(DownloadStatus::Finish(6).get_index(), 6);
    assert_eq!(DownloadStatus::Failed(7, Error::IoError).get_index(), 7);
}

#[test]
fn state_machine_walks_forward() {
    let mut st = two_files();
    assert!(!st.is_done());
    assert_eq!(st.total(), 2);
    st.mark_connect(0);
    assert_eq!(st.processing(), vec![0]);
    st.mark_current(0, Some(5));
    assert_eq!(st.processing(), vec![0]);
    st.inc_progress(0, 5, 10);
    st.mark_finished(0);
    assert_eq!(st.finished(), vec![0]);
    assert!(!st.is_done());
    st.mark_connect(1);
    st.mark_failed(1, Error::StatusCodeError(StatusCode { code: 404 }));
    assert!(st.is_done());
    assert_eq!(st.ended(), vec![0, 1]);
    let failed = st.failed();
    assert_eq!(failed, vec![(1, Error::StatusCodeError(StatusCode { code: 404 }))]);
    assert_eq!(
        st.get_failure_error(1),
        Some(Error::StatusCodeError(StatusCode { code: 404 }))
    );
    assert_eq!(st.get_failure_error(0), None);
}

#[test]
fn out_of_phase_events_are_ignored() {
    let mut st = two_files();
    // Start before Init: ignored.
    st.mark_current(0, Some(5));
    assert_eq!(st.processing(), Vec::<usize>::new());
    // Finish before anything started: ignored.
    st.mark_finished(0);
    assert!(st.finished().is_empty());
    // Progress before Start: ignored.
    st.inc_progress(0, 10, 0);
    assert!(st.processing().is_empty());
    // A failure sticks: a later Finish or second failure cannot move it.
    st.mark_connect(0);
    st.mark_failed(0, Error::IoError);
    st.mark_finished(0);
    st.mark_failed(0, Error::ConnectTimeout(Timeout { seconds: 1 }));
    assert_eq!(st.get_failure_error(0), Some(Error::IoError));
    // An id outside the work list does nothing.
    st.mark_connect(9);
    assert_eq!(st.processing(), Vec::<usize>::new());
}

#[test]
fn finished_is_terminal_even_for_failures() {
    // No transition leaves a terminal state: a stray Failed arriving after
    // Finish leaves the file finished.
    let mut st = two_files();
    st.mark_connect(0);
    st.mark_current(0, Some(5));
    st.mark_finished(0);
    st.mark_failed(0, Error::IoError);
    assert_eq!(st.finished(), vec![0]);
    assert_eq!(st.get_failure_error(0), None);
    assert!(st.failed().is_empty());
}

#[test]
fn paths_and_urls_by_id() {
    let st = two_files();
    assert_eq!(st.get_path(0), Some("a.bin".to_string()));
    assert_eq!(st.get_url(1), Some("http://x/b".to_string()));
    assert_eq!(st.get_path(2), None);
    assert_eq!(st.get_url(2), None);
}

#[test]
fn renderer_throttles_progress_only() {
    let progress = DownloadStatus::Progress(0, 10, 0);
    assert!(!should_render(&progress, 199, 0));
    assert!(!should_render(&progress, 0, 500));
    assert!(should_render(&progress, 200, 0));
    assert!(should_render(&progress, 201, 0));
    assert!(should_render(&DownloadStatus::Init(0), 0, 500));
    assert!(should_render(&DownloadStatus::Start(0, None), 0, 500));
    assert!(should_render(&DownloadStatus::Finish(0), 0, 500));
    assert!(should_render(&DownloadStatus::Failed(0, Error::IoError), 0, 500));
}

#[test]
fn error_constructors_carry_their_fields() {
    assert_eq!(timeout(10).seconds, 10);
    assert_eq!(status_code(404).code, 404);
    let report = download_failed(vec![("a.bin".to_string(), "timed out".to_string())]);
    assert_eq!(report.files.len(), 1);
    assert_eq!(report.files[0].0, "a.bin");
}

#[test]
fn apply_status_matches_marks() {
    let mut by_event = two_files();
    by_event.apply_status(&DownloadStatus::Init(0));
    by_event.apply_status(&DownloadStatus::Start(0, Some(100)));
    by_event.apply_status(&DownloadStatus::Progress(0, 40, 250));
    by_event.apply_status(&DownloadStatus::Finish(0));
    assert_eq!(by_event.finished(), vec![0]);
    match &by_event.states[0] {
        DownloadState::Finished => {}
        other => panic!("unexpected state: {:?}", other),
    }
}
