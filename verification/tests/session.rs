use snapdown::progress::SnapdownStatus;
use snapdown::session::{Session, SnapdownState, CONSOLE_CAPACITY};

#[test]
fn a_new_session_is_idle_and_empty() {
    let session = Session::new();
    assert_eq!(session.state(), SnapdownState::Idle);
    assert_eq!(session.picked_path(), None);
    assert_eq!(
        session.status(),
        SnapdownStatus { finished: false, error_count: 0, success_count: 0, skip_count: 0 }
    );
    assert!(session.console().is_empty());
}

#[test]
fn picking_a_file_goes_through_the_dialog_and_back() {
    let mut session = Session::new();
    session.select_file();
    assert_eq!(session.state(), SnapdownState::SelectingFile);
    session.file_picked("memories_history.html".to_string());
    assert_eq!(session.state(), SnapdownState::Idle);
    assert_eq!(session.picked_path(), Some(&"memories_history.html".to_string()));
}

#[test]
fn a_run_needs_a_file() {
    let mut session = Session::new();
    assert_eq!(session.start_run(), None);
    assert_eq!(session.state(), SnapdownState::Idle);
    session.file_picked("snap_export.csv".to_string());
    assert_eq!(session.start_run(), Some("snap_export.csv".to_string()));
    assert_eq!(session.state(), SnapdownState::Downloading);
    assert_eq!(session.picked_path(), Some(&"snap_export.csv".to_string()));
}

#[test]
fn a_snapshot_sets_the_counts_and_the_state() {
    let mut session = Session::new();
    session.status_received(SnapdownStatus {
        finished: false,
        error_count: 1,
        success_count: 2,
        skip_count: 3,
    });
    assert_eq!(session.state(), SnapdownState::Downloading);
    assert_eq!(
        session.status(),
        SnapdownStatus { finished: false, error_count: 1, success_count: 2, skip_count: 3 }
    );
    session.status_received(SnapdownStatus {
        finished: true,
        error_count: 1,
        success_count: 5,
        skip_count: 3,
    });
    assert_eq!(session.state(), SnapdownState::Completed);
    assert_eq!(
        session.status(),
        SnapdownStatus { finished: true, error_count: 1, success_count: 5, skip_count: 3 }
    );
}

#[test]
fn the_console_keeps_lines_in_the_order_they_came() {
    let mut session = Session::new();
    session.log_received("one".to_string());
    session.log_received("two".to_string());
    session.log_received("three".to_string());
    assert_eq!(session.console(), vec!["one", "two", "three"]);
    assert_eq!(session.state(), SnapdownState::Idle);
}

#[test]
fn the_console_keeps_the_last_lines_only() {
    assert_eq!(CONSOLE_CAPACITY, 1024);
    let mut session = Session::new();
    for i in 0..CONSOLE_CAPACITY {
        session.log_received(format!("line {}", i));
    }
    let lines = session.console();
    assert_eq!(lines.len(), 1024);
    assert_eq!(lines[0], "line 0");
    assert_eq!(lines[1023], "line 1023");

    session.log_received("line 1024".to_string());
    session.log_received("line 1025".to_string());
    let lines = session.console();
    assert_eq!(lines.len(), 1024);
    assert_eq!(lines[0], "line 2");
    assert_eq!(lines[1022], "line 1024");
    assert_eq!(lines[1023], "line 1025");
}
