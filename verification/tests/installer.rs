use ublock_installer::installer::{
    format_log_line, tenths_of_millis, InstallerApp, WorkerMessage, INSTALLING_LABEL,
    INSTALL_LABEL, UNINSTALLING_LABEL, UNINSTALL_LABEL,
};

fn stamped(line: &str, text: &str) -> bool {
    line.starts_with('[') && line.ends_with(text) && line.contains("s] ")
}

#[test]
fn log_lines_are_right_aligned() {
    assert_eq!(format_log_line(0, "starting"), "[ 0.0s] starting");
    assert_eq!(format_log_line(15, "x"), "[ 1.5s] x");
    assert_eq!(format_log_line(123, "y"), "[12.3s] y");
    assert_eq!(format_log_line(1234, "z"), "[123.4s] z");
    assert_eq!(format_log_line(100, ""), "[10.0s] ");
}

#[test]
fn millis_round_to_tenths() {
    assert_eq!(tenths_of_millis(0), 0);
    assert_eq!(tenths_of_millis(49), 0);
    assert_eq!(tenths_of_millis(50), 1);
    assert_eq!(tenths_of_millis(1549), 15);
    assert_eq!(tenths_of_millis(1550), 16);
}

#[test]
fn new_app_is_idle() {
    let app = InstallerApp::new();
    assert!(!app.installing);
    assert!(app.logs.is_empty());
    let screen = app.screen();
    assert_eq!(screen.install_label, "Install");
    assert_eq!(screen.uninstall_label, "Uninstall");
    assert!(screen.buttons_enabled);
    assert!(screen.ready_line);
    assert!(!screen.spinner);
    assert!(!screen.encouragement);
    assert!(screen.error.is_none());
    assert!(!screen.keep_repainting);
}

#[test]
fn log_without_start_is_at_zero() {
    let mut app = InstallerApp::new();
    app.log("hello");
    assert_eq!(app.logs, vec!["[ 0.0s] hello".to_string()]);
}

#[test]
fn start_install_clears_console() {
    let mut app = InstallerApp::new();
    app.log("old");
    app.error = Some("old error".to_string());
    app.finished = true;
    app.start_install();
    assert!(app.installing);
    assert!(!app.busy_uninstall);
    assert!(!app.finished);
    assert!(app.error.is_none());
    assert_eq!(app.logs.len(), 1);
    assert!(stamped(&app.logs[0], "starting"));
    let screen = app.screen();
    assert_eq!(screen.install_label, INSTALLING_LABEL);
    assert_eq!(screen.install_label, "Installing…");
    assert_eq!(screen.uninstall_label, UNINSTALL_LABEL);
    assert!(!screen.buttons_enabled);
    assert!(screen.spinner);
    assert!(!screen.ready_line);
    assert!(screen.keep_repainting);
}

#[test]
fn start_uninstall_labels() {
    let mut app = InstallerApp::new();
    app.start_uninstall();
    assert!(app.busy_uninstall);
    let screen = app.screen();
    assert_eq!(screen.install_label, INSTALL_LABEL);
    assert_eq!(screen.uninstall_label, UNINSTALLING_LABEL);
    assert_eq!(screen.uninstall_label, "Uninstalling…");
}

#[test]
fn status_messages_keep_the_run_going() {
    let mut app = InstallerApp::new();
    app.start_install();
    let keep = app.receive_worker_messages(vec![
        WorkerMessage::Status("one".to_string()),
        WorkerMessage::Status("two".to_string()),
    ]);
    assert!(keep);
    assert!(app.installing);
    assert_eq!(app.logs.len(), 3);
    assert!(stamped(&app.logs[1], "one"));
    assert!(stamped(&app.logs[2], "two"));
}

#[test]
fn success_ends_the_run() {
    let mut app = InstallerApp::new();
    app.start_install();
    let keep = app.receive_worker_messages(vec![
        WorkerMessage::Status("policy removed".to_string()),
        WorkerMessage::Done(Ok(())),
    ]);
    assert!(!keep);
    assert!(!app.installing);
    assert!(app.finished);
    assert!(app.error.is_none());
    assert!(stamped(&app.logs[2], "done"));
    let screen = app.screen();
    assert!(screen.encouragement);
    assert!(screen.buttons_enabled);
    assert_eq!(screen.install_label, "Install");
}

#[test]
fn failure_ends_the_run_with_error() {
    let mut app = InstallerApp::new();
    app.start_uninstall();
    let keep = app.receive_worker_messages(vec![WorkerMessage::Done(Err("boom".to_string()))]);
    assert!(!keep);
    assert!(!app.installing);
    assert!(!app.finished);
    assert_eq!(app.error.as_deref(), Some("boom"));
    assert!(stamped(&app.logs[1], "error: boom"));
    assert_eq!(app.screen().error.as_deref(), Some("boom"));
}

#[test]
fn messages_after_outcome_are_still_logged() {
    let mut app = InstallerApp::new();
    app.start_install();
    let keep = app.receive_worker_messages(vec![
        WorkerMessage::Done(Err("first".to_string())),
        WorkerMessage::Status("late".to_string()),
    ]);
    assert!(!keep);
    assert_eq!(app.logs.len(), 3);
    assert!(stamped(&app.logs[2], "late"));
}

#[test]
fn idle_app_ignores_messages() {
    let mut app = InstallerApp::new();
    let keep = app.receive_worker_messages(vec![WorkerMessage::Status("x".to_string())]);
    assert!(!keep);
    assert!(app.logs.is_empty());
}

#[test]
fn messages_without_start_are_stamped_zero() {
    let mut app = InstallerApp::new();
    app.installing = true;
    let keep = app.receive_worker_messages(vec![
        WorkerMessage::Status("a".to_string()),
        WorkerMessage::Done(Ok(())),
    ]);
    assert!(!keep);
    assert_eq!(app.logs, vec!["[ 0.0s] a".to_string(), "[ 0.0s] done".to_string()]);
    assert!(!app.installing);
    assert!(app.finished);
    assert!(app.error.is_none());
}

#[test]
fn failure_without_start_is_stamped_zero() {
    let mut app = InstallerApp::new();
    app.installing = true;
    let keep = app.receive_worker_messages(vec![WorkerMessage::Done(Err("boom".to_string()))]);
    assert!(!keep);
    assert_eq!(app.logs, vec!["[ 0.0s] error: boom".to_string()]);
    assert!(!app.installing);
    assert!(!app.finished);
    assert_eq!(app.error.as_deref(), Some("boom"));
}

#[test]
fn run_messages_over_several_frames() {
    let mut app = InstallerApp::new();
    app.start_install();
    assert!(app.receive_worker_messages(vec![WorkerMessage::Status("a".to_string())]));
    assert!(app.receive_worker_messages(Vec::new()));
    let keep = app.receive_worker_messages(vec![
        WorkerMessage::Status("b".to_string()),
        WorkerMessage::Done(Err("bad".to_string())),
    ]);
    assert!(!keep);
    assert!(!app.installing);
    assert!(!app.finished);
    assert_eq!(app.error.as_deref(), Some("bad"));
    assert_eq!(app.logs.len(), 4);
    assert!(stamped(&app.logs[0], "starting"));
    assert!(stamped(&app.logs[1], "a"));
    assert!(stamped(&app.logs[2], "b"));
    assert!(stamped(&app.logs[3], "error: bad"));
    assert!(!app.receive_worker_messages(Vec::new()));
    assert_eq!(app.logs.len(), 4);
}
