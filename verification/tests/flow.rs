use zzh::error::Error;
use zzh::flow::{advance, begin_session_at, start, Action, Event, Request, Stage};
use zzh::history::{extract_history, HistoryEntry};

fn request(target: Option<&str>, detached: bool, hosts: bool) -> Request {
    Request { home: "/home/me".to_string(), target: target.map(|t| t.to_string()), detached, hosts }
}

fn strings(items: &[&str]) -> Vec<String> {
    items.iter().map(|s| s.to_string()).collect()
}

fn finish(result: Result<(), Error>) -> Option<(Stage, Action)> {
    Some((Stage::Done, Action::Finish { result }))
}

#[test]
fn every_run_starts_with_the_state_directory() {
    for r in [request(None, false, false), request(Some("a"), true, false), request(None, false, true)] {
        assert_eq!(
            start(&r),
            (Stage::Preparing, Action::EnsureFolder { path: "/home/me/.zzh".to_string() })
        );
    }
}

#[test]
fn listing_reads_the_configuration_and_prints() {
    let r = request(None, false, true);
    let (stage, action) = advance(&r, Stage::Preparing, Event::FolderReady).unwrap();
    assert_eq!(stage, Stage::Listing);
    assert_eq!(action, Action::ReadConfig { path: "/home/me/.ssh/config".to_string() });
    let step = advance(&r, stage, Event::ConfigText("Host a b\nHost c\n".to_string()));
    assert_eq!(step, Some((Stage::Done, Action::Report { text: "a\nb\nc\n".to_string() })));
}

#[test]
fn listing_wins_over_a_target() {
    let r = request(Some("web"), true, true);
    let (stage, action) = advance(&r, Stage::Preparing, Event::FolderReady).unwrap();
    assert_eq!(stage, Stage::Listing);
    assert_eq!(action, Action::ReadConfig { path: "/home/me/.ssh/config".to_string() });
}

#[test]
fn listing_fails_without_configuration() {
    let r = request(None, false, true);
    assert_eq!(advance(&r, Stage::Listing, Event::ConfigMissing), finish(Err(Error::ConfigNotFound)));
    assert_eq!(advance(&r, Stage::Listing, Event::ConfigFailed), finish(Err(Error::ConfigIo)));
}

#[test]
fn detached_launch_records_one_attempt_then_runs() {
    let r = request(Some("newhost"), true, false);
    let (stage, action) = advance(&r, Stage::Preparing, Event::FolderReady).unwrap();
    assert_eq!(stage, Stage::Timing { alias: "newhost".to_string() });
    assert_eq!(action, Action::ReadClock);
    let timestamp = 1_704_164_645;
    let (stage, action) = advance(&r, stage, Event::Now(timestamp)).unwrap();
    assert_eq!(stage, Stage::Recording { alias: "newhost".to_string(), timestamp });
    let line = match action {
        Action::Append { path, line } => {
            assert_eq!(path, "/home/me/.zzh/history");
            line
        }
        other => panic!("not an append: {:?}", other),
    };
    assert_eq!(line, "2024-01-02T03:04:05Z newhost\n");
    assert_eq!(line.matches('\n').count(), 1);
    assert_eq!(
        extract_history(&line),
        Ok(vec![HistoryEntry { alias: "newhost".to_string(), timestamp }])
    );
    let (stage, action) = advance(&r, stage, Event::Appended).unwrap();
    assert_eq!(stage, Stage::Running);
    assert_eq!(
        action,
        Action::Run {
            program: "ssh".to_string(),
            arguments: strings(&[
                "-o",
                "ControlMaster=auto",
                "-o",
                "ControlPath=/home/me/.zzh/%r@%h:%p",
                "-o",
                "ControlPersist=yes",
                "-fN",
                "-T",
                "newhost",
            ]),
            detached: true,
        }
    );
    assert_eq!(advance(&r, stage, Event::Exited(Some(0))), finish(Ok(())));
}

#[test]
fn attached_launch_reports_the_exit_code() {
    let r = request(Some("web"), false, false);
    let stage = Stage::Recording { alias: "web".to_string(), timestamp: 5 };
    let (stage, action) = advance(&r, stage, Event::Appended).unwrap();
    assert_eq!(
        action,
        Action::Run {
            program: "ssh".to_string(),
            arguments: strings(&[
                "-o",
                "ControlMaster=auto",
                "-o",
                "ControlPath=/home/me/.zzh/%r@%h:%p",
                "-o",
                "ControlPersist=yes",
                "web",
            ]),
            detached: false,
        }
    );
    assert_eq!(
        advance(&r, stage, Event::Exited(Some(255))),
        finish(Err(Error::Session { code: Some(255) }))
    );
    assert_eq!(
        advance(&r, Stage::Running, Event::Exited(None)),
        finish(Err(Error::Session { code: None }))
    );
}

#[test]
fn client_is_not_run_when_the_attempt_cannot_be_written() {
    let r = request(Some("web"), false, false);
    let stage = Stage::Recording { alias: "web".to_string(), timestamp: 5 };
    assert_eq!(advance(&r, stage, Event::AppendFailed), finish(Err(Error::HistoryIo)));
}

#[test]
fn run_ends_when_the_state_directory_cannot_be_made() {
    let r = request(Some("web"), false, false);
    assert_eq!(advance(&r, Stage::Preparing, Event::FolderFailed), finish(Err(Error::HistoryIo)));
}

#[test]
fn choosing_offers_history_then_configuration() {
    let r = request(None, false, false);
    let (stage, action) = advance(&r, Stage::Preparing, Event::FolderReady).unwrap();
    assert_eq!(stage, Stage::Gathering);
    assert_eq!(action, Action::ReadConfig { path: "/home/me/.ssh/config".to_string() });
    let (stage, action) =
        advance(&r, stage, Event::ConfigText("Host a\nHost b\nHost c\n".to_string())).unwrap();
    assert_eq!(stage, Stage::Loading { hosts: strings(&["a", "b", "c"]) });
    assert_eq!(action, Action::LoadHistory { path: "/home/me/.zzh/history".to_string() });
    let log = "2024-01-01T00:00:00Z b\n2024-01-02T00:00:00Z a\n".to_string();
    let (stage, action) = advance(&r, stage, Event::HistoryText(log)).unwrap();
    assert_eq!(stage, Stage::Choosing { candidates: strings(&["a", "b", "c"]) });
    assert_eq!(
        action,
        Action::Choose {
            candidates: strings(&["a", "b", "c"]),
            history: vec![
                HistoryEntry { alias: "a".to_string(), timestamp: 1_704_153_600 },
                HistoryEntry { alias: "b".to_string(), timestamp: 1_704_067_200 },
            ],
        }
    );
    let (stage, action) = advance(&r, stage, Event::Chosen(2)).unwrap();
    assert_eq!(stage, Stage::Timing { alias: "c".to_string() });
    assert_eq!(action, Action::ReadClock);
    let (stage, action) = advance(&r, stage, Event::Now(0)).unwrap();
    assert_eq!(stage, Stage::Recording { alias: "c".to_string(), timestamp: 0 });
    assert_eq!(
        action,
        Action::Append {
            path: "/home/me/.zzh/history".to_string(),
            line: "1970-01-01T00:00:00Z c\n".to_string(),
        }
    );
}

#[test]
fn run_ends_when_the_clock_has_no_text() {
    let r = request(Some("web"), false, false);
    let stage = Stage::Timing { alias: "web".to_string() };
    assert_eq!(advance(&r, stage, Event::Now(253_402_300_800)), finish(Err(Error::HistoryIo)));
    let stage = Stage::Timing { alias: "web".to_string() };
    assert_eq!(advance(&r, stage, Event::Now(-62_167_219_201)), finish(Err(Error::HistoryIo)));
}

#[test]
fn choosing_with_an_empty_history() {
    let r = request(None, false, false);
    let stage = Stage::Loading { hosts: strings(&["a", "b"]) };
    let (stage, action) = advance(&r, stage, Event::HistoryText(String::new())).unwrap();
    assert_eq!(stage, Stage::Choosing { candidates: strings(&["a", "b"]) });
    assert_eq!(action, Action::Choose { candidates: strings(&["a", "b"]), history: vec![] });
}

#[test]
fn missing_history_is_created_and_empty() {
    let r = request(None, false, false);
    let stage = Stage::Loading { hosts: strings(&["a", "b"]) };
    let (stage, action) = advance(&r, stage, Event::HistoryMissing).unwrap();
    assert_eq!(stage, Stage::Creating { hosts: strings(&["a", "b"]) });
    assert_eq!(action, Action::CreateHistory { path: "/home/me/.zzh/history".to_string() });
    let (stage, action) = advance(&r, stage, Event::Created).unwrap();
    assert_eq!(stage, Stage::Choosing { candidates: strings(&["a", "b"]) });
    assert_eq!(action, Action::Choose { candidates: strings(&["a", "b"]), history: vec![] });
}

#[test]
fn run_ends_when_the_history_cannot_be_created() {
    let r = request(None, false, false);
    let stage = Stage::Creating { hosts: strings(&["a", "b"]) };
    assert_eq!(advance(&r, stage, Event::CreateFailed), finish(Err(Error::HistoryIo)));
}

#[test]
fn cancelled_choice_ends_well() {
    let r = request(None, false, false);
    let stage = Stage::Choosing { candidates: strings(&["a", "b"]) };
    assert_eq!(advance(&r, stage, Event::Cancelled), finish(Ok(())));
    let stage = Stage::Choosing { candidates: strings(&["a", "b"]) };
    assert_eq!(advance(&r, stage, Event::Chosen(2)), finish(Ok(())));
}

#[test]
fn corrupt_history_ends_the_run() {
    let r = request(None, false, false);
    let stage = Stage::Loading { hosts: strings(&["a"]) };
    assert_eq!(
        advance(&r, stage, Event::HistoryText("not-a-timestamp host1\n".to_string())),
        finish(Err(Error::HistoryCorrupt { line: 0 }))
    );
    let stage = Stage::Loading { hosts: strings(&["a"]) };
    assert_eq!(advance(&r, stage, Event::HistoryFailed), finish(Err(Error::HistoryIo)));
}

#[test]
fn choosing_fails_without_configuration() {
    let r = request(None, false, false);
    assert_eq!(advance(&r, Stage::Gathering, Event::ConfigMissing), finish(Err(Error::ConfigNotFound)));
    assert_eq!(advance(&r, Stage::Gathering, Event::ConfigFailed), finish(Err(Error::ConfigIo)));
}

#[test]
fn events_that_answer_nothing_are_refused() {
    let r = request(None, false, false);
    assert_eq!(advance(&r, Stage::Preparing, Event::Appended), None);
    assert_eq!(advance(&r, Stage::Listing, Event::FolderReady), None);
    assert_eq!(advance(&r, Stage::Gathering, Event::Exited(Some(0))), None);
    assert_eq!(advance(&r, Stage::Loading { hosts: vec![] }, Event::ConfigMissing), None);
    assert_eq!(advance(&r, Stage::Creating { hosts: vec![] }, Event::HistoryMissing), None);
    assert_eq!(advance(&r, Stage::Choosing { candidates: vec![] }, Event::Appended), None);
    assert_eq!(advance(&r, Stage::Timing { alias: "a".to_string() }, Event::Appended), None);
    assert_eq!(advance(&r, Stage::Running, Event::Now(0)), None);
    assert_eq!(
        advance(&r, Stage::Recording { alias: "a".to_string(), timestamp: 0 }, Event::Cancelled),
        None
    );
    assert_eq!(advance(&r, Stage::Running, Event::Appended), None);
    assert_eq!(advance(&r, Stage::Done, Event::Exited(Some(0))), None);
    assert_eq!(advance(&r, Stage::Done, Event::FolderReady), None);
}

#[test]
fn listing_never_asks_for_the_history() {
    let r = request(Some("web"), true, true);
    let mut actions = vec![start(&r).1];
    let (stage, action) = advance(&r, Stage::Preparing, Event::FolderReady).unwrap();
    actions.push(action);
    let (stage, action) = advance(&r, stage, Event::ConfigText("Host a\n".to_string())).unwrap();
    actions.push(action);
    assert_eq!(stage, Stage::Done);
    for action in &actions {
        assert!(!matches!(
            action,
            Action::LoadHistory { .. }
                | Action::CreateHistory { .. }
                | Action::ReadClock
                | Action::Append { .. }
                | Action::Run { .. }
                | Action::Choose { .. }
        ));
    }
}

#[test]
fn session_begun_at_a_given_time() {
    let r = request(None, false, false);
    assert_eq!(
        begin_session_at(&r, &"web".to_string(), 1_704_164_645),
        (
            Stage::Recording { alias: "web".to_string(), timestamp: 1_704_164_645 },
            Action::Append {
                path: "/home/me/.zzh/history".to_string(),
                line: "2024-01-02T03:04:05Z web\n".to_string(),
            },
        )
    );
}

#[test]
fn no_session_at_a_time_without_text() {
    let r = request(None, false, false);
    assert_eq!(
        begin_session_at(&r, &"web".to_string(), i64::MAX),
        (Stage::Done, Action::Finish { result: Err(Error::HistoryIo) })
    );
}
