use tempget::cli::{DownloadState, DownloadStatus, ProgressState};
use tempget::errors::{Error, StatusCode, Timeout};
use tempget::fetcher::{
    build_work_list, classify_connect, classify_read, parse_content_length, run, schedule,
    ConnectDecision, ConnectOutcome, ReadDecision, ReadOutcome, TaskEntry, TaskScript,
};

fn ok_script(size: Option<u64>, chunks: &[(usize, u64)]) -> TaskScript {
    TaskScript {
        connect: ConnectOutcome::Connected {
            status: 200,
            content_length: size,
        },
        dir_ok: true,
        reads: chunks
            .iter()
            .map(|&(len, timestamp)| ReadOutcome::Chunk { len, timestamp })
            .collect(),
    }
}

fn info(n: usize) -> Vec<(String, String)> {
    (0..n)
        .map(|i| (format!("f{}.bin", i), format!("http://x/{}", i)))
        .collect()
}

fn events_of(events: &[DownloadStatus], id: usize) -> Vec<DownloadStatus> {
    events
        .iter()
        .copied()
        .filter(|e| e.get_index() == id)
        .collect()
}

fn is_terminal(e: &DownloadStatus) -> bool {
    matches!(e, DownloadStatus::Finish(_) | DownloadStatus::Failed(_, _))
}

/// Every id's events are ordered Init, Start?, Progress*, terminal, with
/// exactly one terminal event and nothing after it.
fn check_order(events: &[DownloadStatus], id: usize) {
    let evs = events_of(events, id);
    assert!(evs.len() >= 2);
    assert_eq!(evs[0], DownloadStatus::Init(id));
    assert!(is_terminal(evs.last().unwrap()));
    assert_eq!(evs.iter().filter(|e| is_terminal(e)).count(), 1);
    for (k, e) in evs.iter().enumerate() {
        match e {
            DownloadStatus::Init(_) => assert_eq!(k, 0),
            DownloadStatus::Start(_, _) => assert_eq!(k, 1),
            DownloadStatus::Progress(_, _, _) => {
                assert!(k >= 2);
                assert!(matches!(evs[1], DownloadStatus::Start(_, _)));
                assert!(k < evs.len() - 1);
            }
            DownloadStatus::Finish(_) | DownloadStatus::Failed(_, _) => {
                assert_eq!(k, evs.len() - 1)
            }
        }
    }
}

#[test]
fn sequential_batch_finishes_in_order() {
    // Work list of two files, one of known size and one of unknown size,
    // downloaded with parallelism 1: the first fully completes before the
    // second is even announced, and nothing fails.
    let scripts = vec![
        ok_script(Some(1000), &[(500, 10), (500, 20)]),
        ok_script(None, &[(1000, 30)]),
    ];
    let (state, events) = run(info(2), &scripts, 1, 10);
    assert!(state.failed().is_empty());
    assert!(state.is_done());
    assert_eq!(state.finished(), vec![0, 1]);
    let finish0 = events
        .iter()
        .position(|e| *e == DownloadStatus::Finish(0))
        .unwrap();
    let init1 = events
        .iter()
        .position(|e| *e == DownloadStatus::Init(1))
        .unwrap();
    assert!(finish0 < init1);
}

#[test]
fn status_404_fails_one_task_only() {
    // The source for id 1 answers 404: id 1 sees exactly Init then
    // Failed(StatusCodeError(404)), while id 0 still finishes.
    let scripts = vec![
        ok_script(Some(100), &[(100, 10)]),
        TaskScript {
            connect: ConnectOutcome::Connected {
                status: 404,
                content_length: None,
            },
            dir_ok: true,
            reads: vec![],
        },
    ];
    let (state, events) = run(info(2), &scripts, 2, 10);
    let evs1 = events_of(&events, 1);
    assert_eq!(
        evs1,
        vec![
            DownloadStatus::Init(1),
            DownloadStatus::Failed(1, Error::StatusCodeError(StatusCode { code: 404 })),
        ]
    );
    assert_eq!(
        state.failed(),
        vec![(1, Error::StatusCodeError(StatusCode { code: 404 }))]
    );
    assert_eq!(state.finished(), vec![0]);
}

#[test]
fn read_stall_fails_with_partial_bytes() {
    // The read stalls beyond the configured timeout after 500 of 1000
    // bytes: the task fails with ReadTimeout, no Progress event follows,
    // and 500 bytes had been written when it failed.
    let scripts = vec![TaskScript {
        connect: ConnectOutcome::Connected {
            status: 200,
            content_length: Some(1000),
        },
        dir_ok: true,
        reads: vec![
            ReadOutcome::Chunk {
                len: 500,
                timestamp: 250,
            },
            ReadOutcome::TimedOut,
        ],
    }];
    let (state, events) = run(info(1), &scripts, 1, 10);
    assert_eq!(
        state.get_failure_error(0),
        Some(Error::ReadTimeout(Timeout { seconds: 10 }))
    );
    let failed_at = events
        .iter()
        .position(|e| matches!(e, DownloadStatus::Failed(_, _)))
        .unwrap();
    assert!(events[failed_at..]
        .iter()
        .all(|e| !matches!(e, DownloadStatus::Progress(_, _, _))));
    // Replaying everything up to the failure shows the 500 bytes written.
    let mut partial = ProgressState::new(info(1));
    for e in &events[..failed_at] {
        partial.apply_status(e);
    }
    match &partial.states[0] {
        DownloadState::InProgress(p) => assert_eq!(p.down_size, 500),
        other => panic!("unexpected state: {:?}", other),
    }
}

#[test]
fn one_terminal_event_per_task() {
    let scripts = vec![
        ok_script(Some(10), &[(10, 5)]),
        TaskScript {
            connect: ConnectOutcome::TimedOut,
            dir_ok: true,
            reads: vec![],
        },
        TaskScript {
            connect: ConnectOutcome::Connected {
                status: 200,
                content_length: None,
            },
            dir_ok: false,
            reads: vec![],
        },
        ok_script(None, &[]),
        TaskScript {
            connect: ConnectOutcome::Connected {
                status: 200,
                content_length: Some(4),
            },
            dir_ok: true,
            reads: vec![ReadOutcome::Chunk { len: 2, timestamp: 1 }, ReadOutcome::ReadFailed],
        },
    ];
    let (state, events) = run(info(5), &scripts, 2, 7);
    assert_eq!(events.iter().filter(|e| is_terminal(e)).count(), 5);
    assert!(state.is_done());
    // Each failure carries the error its outcome owes.
    assert_eq!(
        state.get_failure_error(1),
        Some(Error::ConnectTimeout(Timeout { seconds: 7 }))
    );
    assert_eq!(state.get_failure_error(2), Some(Error::IoError));
    assert_eq!(state.get_failure_error(4), Some(Error::IoError));
    assert_eq!(state.finished(), vec![0, 3]);
}

#[test]
fn per_id_event_order_holds() {
    let scripts = vec![
        ok_script(Some(30), &[(10, 1), (10, 2), (10, 3)]),
        TaskScript {
            connect: ConnectOutcome::TransportFailed,
            dir_ok: true,
            reads: vec![],
        },
        ok_script(None, &[(4, 9)]),
        TaskScript {
            connect: ConnectOutcome::Connected {
                status: 301,
                content_length: None,
            },
            dir_ok: true,
            reads: vec![],
        },
    ];
    let (_, events) = run(info(4), &scripts, 3, 10);
    for id in 0..4 {
        check_order(&events, id);
    }
}

#[test]
fn at_most_parallelism_tasks_processing() {
    let scripts: Vec<TaskScript> = (0..5)
        .map(|i| ok_script(Some(10 * i as u64), &[(8, 1), (9, 2)]))
        .collect();
    for parallelism in 1..4 {
        let events = schedule(&scripts, parallelism, 10);
        let mut state = ProgressState::new(info(5));
        for e in &events {
            state.apply_status(e);
            assert!(state.processing().len() <= parallelism);
        }
        assert!(state.is_done());
    }
}

#[test]
fn existing_destinations_are_skipped() {
    let entries = vec![
        TaskEntry {
            path: "a.bin".to_string(),
            url: "http://x/a".to_string(),
            exists: true,
        },
        TaskEntry {
            path: "b.bin".to_string(),
            url: "http://x/b".to_string(),
            exists: false,
        },
        TaskEntry {
            path: "c.bin".to_string(),
            url: "http://x/c".to_string(),
            exists: true,
        },
        TaskEntry {
            path: "d.bin".to_string(),
            url: "http://x/d".to_string(),
            exists: false,
        },
    ];
    let work = build_work_list(&entries);
    assert_eq!(
        work,
        vec![
            ("b.bin".to_string(), "http://x/b".to_string()),
            ("d.bin".to_string(), "http://x/d".to_string()),
        ]
    );
}

#[test]
fn second_run_schedules_nothing() {
    // Skip-if-exists is idempotent: after a run that downloaded every
    // file, every destination exists, so the next work list is empty and
    // zero tasks are scheduled.
    let entries: Vec<TaskEntry> = (0..3)
        .map(|i| TaskEntry {
            path: format!("f{}.bin", i),
            url: format!("http://x/{}", i),
            exists: true,
        })
        .collect();
    let work = build_work_list(&entries);
    assert!(work.is_empty());
    let (state, events) = run(Vec::new(), &Vec::new(), 4, 10);
    assert!(events.is_empty());
    assert!(state.is_done());
    assert_eq!(state.total(), 0);
}

#[test]
fn connect_decisions_match_taxonomy() {
    assert_eq!(
        classify_connect(&ConnectOutcome::TimedOut, 9),
        ConnectDecision::Fail {
            error: Error::ConnectTimeout(Timeout { seconds: 9 })
        }
    );
    assert_eq!(
        classify_connect(&ConnectOutcome::TransportFailed, 9),
        ConnectDecision::Fail {
            error: Error::IoError
        }
    );
    assert_eq!(
        classify_connect(
            &ConnectOutcome::Connected {
                status: 500,
                content_length: None
            },
            9
        ),
        ConnectDecision::Fail {
            error: Error::StatusCodeError(StatusCode { code: 500 })
        }
    );
    assert_eq!(
        classify_connect(
            &ConnectOutcome::Connected {
                status: 204,
                content_length: Some(3)
            },
            9
        ),
        ConnectDecision::Proceed {
            content_length: Some(3)
        }
    );
}

#[test]
fn read_decisions_match_taxonomy() {
    assert_eq!(
        classify_read(&ReadOutcome::Chunk { len: 4, timestamp: 2 }, 9),
        ReadDecision::Write { len: 4, timestamp: 2 }
    );
    assert_eq!(classify_read(&ReadOutcome::Eof, 9), ReadDecision::Complete);
    assert_eq!(
        classify_read(&ReadOutcome::TimedOut, 9),
        ReadDecision::Fail {
            error: Error::ReadTimeout(Timeout { seconds: 9 })
        }
    );
    assert_eq!(
        classify_read(&ReadOutcome::ReadFailed, 9),
        ReadDecision::Fail {
            error: Error::IoError
        }
    );
}

#[test]
fn content_length_parses_exactly() {
    assert_eq!(parse_content_length(&b"1000".to_vec()), Some(1000));
    assert_eq!(parse_content_length(&b"+42".to_vec()), Some(42));
    assert_eq!(parse_content_length(&b"007".to_vec()), Some(7));
    assert_eq!(parse_content_length(&b"0".to_vec()), Some(0));
    assert_eq!(
        parse_content_length(&b"18446744073709551615".to_vec()),
        Some(u64::MAX)
    );
    assert_eq!(parse_content_length(&b"18446744073709551616".to_vec()), None);
    assert_eq!(parse_content_length(&b"".to_vec()), None);
    assert_eq!(parse_content_length(&b"+".to_vec()), None);
    assert_eq!(parse_content_length(&b"12a".to_vec()), None);
    assert_eq!(parse_content_length(&b"-5".to_vec()), None);
    assert_eq!(parse_content_length(&b" 5".to_vec()), None);
}
