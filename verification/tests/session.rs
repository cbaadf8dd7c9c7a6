use ublock_installer::session::{
    chrome_is_running, chrome_listing_args, lists_chrome_text, close_chrome_args, run_install, run_uninstall,
    Action, Event, Job, Phase, Step, TaskState, AMO_UBO_PAGE, ERR_CRASHED, ERR_NO_BROWSER,
    FIREFOX_ADDONS_PAGE,
};
use ublock_installer::forcelist::{ubol_entry, FORCELIST_KEY};

type S = TaskState<String>;

fn feed(state: S, event: Event<String>) -> (S, Step<String>) {
    assert!(state.awaits_event(&event));
    state.advance(event)
}

fn strings(v: &[&str]) -> Vec<String> {
    v.iter().map(|s| s.to_string()).collect()
}

#[test]
fn tasklist_output_with_chrome() {
    assert!(chrome_is_running(Some(b"chrome.exe                   1234 Console    1   100,000 K")));
    assert!(chrome_is_running(Some(b"CHROME.EXE 1 Console")));
    assert!(!chrome_is_running(Some(
        b"INFO: No tasks are running which match the specified criteria."
    )));
    assert!(!chrome_is_running(Some(b"")));
    assert!(!chrome_is_running(None));
}

#[test]
fn process_command_lines() {
    assert_eq!(chrome_listing_args(), strings(&["/FI", "IMAGENAME eq chrome.exe", "/NH"]));
    assert_eq!(close_chrome_args(), strings(&["/IM", "chrome.exe", "/F", "/T"]));
}

#[test]
fn install_with_both_browsers_and_chrome_closed() {
    let (s, step) = run_install::<String>();
    assert!(step.progress.is_none());
    assert!(matches!(step.action, Action::LocateChrome));

    let (s, step) = feed(s, Event::ChromeLocated(Some("C:\\chrome.exe".to_string())));
    assert_eq!(
        step.progress.as_deref(),
        Some("Chrome found — writing extension policy (uBlock Origin Lite)")
    );
    match step.action {
        Action::QueryPolicy(args) => assert_eq!(args, strings(&["query", FORCELIST_KEY])),
        _ => panic!("expected a query"),
    }

    let (s, step) = feed(s, Event::PolicyQueried(Ok(Vec::new())));
    assert!(step.progress.is_none());
    let e = ubol_entry();
    match step.action {
        Action::WritePolicy(args) => assert_eq!(
            args,
            strings(&["add", FORCELIST_KEY, "/v", "1", "/t", "REG_SZ", "/d", &e, "/f"])
        ),
        _ => panic!("expected a write"),
    }

    let (s, step) = feed(s, Event::PolicyWritten(Ok(true)));
    assert_eq!(step.progress.as_deref(), Some("policy written — HKCU, no admin needed"));
    assert!(matches!(step.action, Action::ListChrome(_)));

    let (s, step) = feed(s, Event::ChromeListing(Some(b"INFO: No tasks".to_vec())));
    assert_eq!(step.progress.as_deref(), Some("Chrome closed — it installs on next launch"));
    assert!(matches!(step.action, Action::LocateFirefox));
    assert!(s.handled);

    let (s, step) = feed(s, Event::FirefoxLocated(Some("C:\\firefox.exe".to_string())));
    assert_eq!(
        step.progress.as_deref(),
        Some("Firefox found — opening the uBlock Origin add-on page")
    );
    match step.action {
        Action::LaunchFirefox(path, arg) => {
            assert_eq!(path, "C:\\firefox.exe");
            assert_eq!(arg, AMO_UBO_PAGE);
            assert_eq!(arg, "https://addons.mozilla.org/firefox/addon/ublock-origin/");
        }
        _ => panic!("expected a launch"),
    }

    let (s, step) = feed(s, Event::FirefoxLaunched(Ok(())));
    assert_eq!(
        step.progress.as_deref(),
        Some("in Firefox: click \u{201C}Add to Firefox\u{201D}, then \u{201C}Add\u{201D}")
    );
    assert!(matches!(step.action, Action::Finish(Ok(()))));
    assert!(matches!(s.phase, Phase::Finished));
    assert!(!s.awaits_event(&Event::ChromeRestarted));
}

#[test]
fn install_restarts_running_chrome() {
    let (s, _) = run_install::<String>();
    let (s, _) = feed(s, Event::ChromeLocated(Some("chrome".to_string())));
    let e = ubol_entry();
    let listing = format!("\r\nHKEY\r\n    1    REG_SZ    {}\r\n\r\n", e);
    let (s, step) = feed(s, Event::PolicyQueried(Ok(listing.into_bytes())));
    assert_eq!(step.progress.as_deref(), Some("policy written — HKCU, no admin needed"));
    assert!(matches!(step.action, Action::ListChrome(_)));
    let (s, step) = feed(s, Event::ChromeListing(Some(b"chrome.exe 42".to_vec())));
    assert_eq!(step.progress.as_deref(), Some("restarting Chrome so it installs now"));
    match step.action {
        Action::RestartChrome(path, args) => {
            assert_eq!(path, "chrome");
            assert_eq!(args, close_chrome_args());
        }
        _ => panic!("expected a restart"),
    }
    assert!(!s.handled);
    let (s, step) = feed(s, Event::ChromeRestarted);
    assert!(step.progress.is_none());
    assert!(s.handled);
    let (_, step) = feed(s, Event::FirefoxLocated(None));
    assert_eq!(step.progress.as_deref(), Some("Firefox not found — skipped"));
    assert!(matches!(step.action, Action::Finish(Ok(()))));
}

#[test]
fn install_without_any_browser_fails() {
    let (s, _) = run_install::<String>();
    let (s, step) = feed(s, Event::ChromeLocated(None));
    assert_eq!(step.progress.as_deref(), Some("Chrome not found — skipped"));
    let (s, step) = feed(s, Event::FirefoxLocated(None));
    assert_eq!(step.progress.as_deref(), Some("Firefox not found — skipped"));
    match step.action {
        Action::Finish(Err(e)) => {
            assert_eq!(e, ERR_NO_BROWSER);
            assert_eq!(e, "Neither Chrome nor Firefox was found on this PC.");
        }
        _ => panic!("expected a failure"),
    }
    assert!(!s.handled);
}

#[test]
fn install_reports_query_failure_with_context() {
    let (s, _) = run_install::<String>();
    let (s, _) = feed(s, Event::ChromeLocated(Some("c".to_string())));
    let (_, step) = feed(s, Event::PolicyQueried(Err("access is denied".to_string())));
    match step.action {
        Action::Finish(Err(e)) => {
            assert_eq!(e, "Failed to read Chrome's extension policy: access is denied")
        }
        _ => panic!("expected a failure"),
    }
}

#[test]
fn install_reports_refused_write() {
    let (s, _) = run_install::<String>();
    let (s, _) = feed(s, Event::ChromeLocated(Some("c".to_string())));
    let (s, _) = feed(s, Event::PolicyQueried(Ok(Vec::new())));
    let (_, step) = feed(s, Event::PolicyWritten(Ok(false)));
    match step.action {
        Action::Finish(Err(e)) => assert_eq!(
            e,
            "Writing the Chrome policy failed. Please try running the installer again."
        ),
        _ => panic!("expected a failure"),
    }
}

#[test]
fn install_reports_write_that_could_not_run() {
    let (s, _) = run_install::<String>();
    let (s, _) = feed(s, Event::ChromeLocated(Some("c".to_string())));
    let (s, _) = feed(s, Event::PolicyQueried(Ok(Vec::new())));
    let (_, step) = feed(s, Event::PolicyWritten(Err("not found".to_string())));
    match step.action {
        Action::Finish(Err(e)) => {
            assert_eq!(e, "Failed to write the Chrome extension policy: not found")
        }
        _ => panic!("expected a failure"),
    }
}

#[test]
fn install_reports_firefox_launch_failure() {
    let (s, _) = run_install::<String>();
    let (s, _) = feed(s, Event::ChromeLocated(None));
    let (s, _) = feed(s, Event::FirefoxLocated(Some("ff".to_string())));
    let (_, step) = feed(s, Event::FirefoxLaunched(Err("denied".to_string())));
    match step.action {
        Action::Finish(Err(e)) => assert_eq!(e, "Failed to launch Firefox: denied"),
        _ => panic!("expected a failure"),
    }
}

#[test]
fn uninstall_deletes_key_and_opens_addons() {
    let e = ubol_entry();
    let (s, step) = run_uninstall::<String>();
    assert!(matches!(step.action, Action::LocateChrome));
    assert_eq!(s.job, Job::Uninstall);
    let (s, step) = feed(s, Event::ChromeLocated(Some("c".to_string())));
    assert_eq!(step.progress.as_deref(), Some("removing the Chrome extension policy"));
    let listing = format!("\r\nHKEY\r\n    1    REG_SZ    {}\r\n\r\n", e);
    let (s, step) = feed(s, Event::PolicyQueried(Ok(listing.into_bytes())));
    match step.action {
        Action::DeletePolicy(args) => assert_eq!(args, strings(&["delete", FORCELIST_KEY, "/f"])),
        _ => panic!("expected a delete"),
    }
    let (s, step) = feed(s, Event::PolicyDeleted(Ok(true)));
    assert_eq!(step.progress.as_deref(), Some("policy removed"));
    let (s, step) = feed(s, Event::ChromeListing(None));
    assert_eq!(step.progress.as_deref(), Some("Chrome closed — uBlock is removed on next launch"));
    let (s, step) = feed(s, Event::FirefoxLocated(Some("ff".to_string())));
    assert_eq!(
        step.progress.as_deref(),
        Some("opening Firefox add-ons — click Remove on uBlock Origin")
    );
    match step.action {
        Action::LaunchFirefox(_, arg) => {
            assert_eq!(arg, FIREFOX_ADDONS_PAGE);
            assert_eq!(arg, "about:addons");
        }
        _ => panic!("expected a launch"),
    }
    let (_, step) = feed(s, Event::FirefoxLaunched(Ok(())));
    assert!(step.progress.is_none());
    assert!(matches!(step.action, Action::Finish(Ok(()))));
}

#[test]
fn uninstall_deletes_only_our_value_and_restarts_chrome() {
    let e = ubol_entry();
    let (s, _) = run_uninstall::<String>();
    let (s, _) = feed(s, Event::ChromeLocated(Some("c".to_string())));
    let listing = format!("    1    REG_SZ    other\r\n    2    REG_SZ    {}\r\n", e);
    let (s, step) = feed(s, Event::PolicyQueried(Ok(listing.into_bytes())));
    match step.action {
        Action::DeletePolicy(args) => {
            assert_eq!(args, strings(&["delete", FORCELIST_KEY, "/v", "2", "/f"]))
        }
        _ => panic!("expected a delete"),
    }
    let (s, _) = feed(s, Event::PolicyDeleted(Ok(true)));
    let (s, step) = feed(s, Event::ChromeListing(Some(b"chrome.exe".to_vec())));
    assert_eq!(step.progress.as_deref(), Some("restarting Chrome to remove uBlock"));
    let (s, _) = feed(s, Event::ChromeRestarted);
    let (_, step) = feed(s, Event::FirefoxLocated(None));
    assert!(matches!(step.action, Action::Finish(Ok(()))));
}

#[test]
fn uninstall_without_policy_skips_chrome() {
    let (s, _) = run_uninstall::<String>();
    let (s, _) = feed(s, Event::ChromeLocated(Some("c".to_string())));
    let (s, step) = feed(s, Event::PolicyQueried(Ok(b"    1    REG_SZ    x\r\n".to_vec())));
    assert_eq!(
        step.progress.as_deref(),
        Some("no uBlock policy set for Chrome — nothing to remove")
    );
    assert!(matches!(step.action, Action::LocateFirefox));
    assert!(s.handled);
    let (_, step) = feed(s, Event::FirefoxLocated(None));
    assert!(matches!(step.action, Action::Finish(Ok(()))));
}

#[test]
fn uninstall_reports_refused_and_failed_delete() {
    let e = ubol_entry();
    let listing = format!("    1    REG_SZ    {}\r\n", e);
    let (s, _) = run_uninstall::<String>();
    let (s, _) = feed(s, Event::ChromeLocated(Some("c".to_string())));
    let (s, _) = feed(s, Event::PolicyQueried(Ok(listing.clone().into_bytes())));
    let (_, step) = feed(s, Event::PolicyDeleted(Ok(false)));
    match step.action {
        Action::Finish(Err(m)) => assert_eq!(m, "Removing the Chrome policy failed."),
        _ => panic!("expected a failure"),
    }
    let (s, _) = run_uninstall::<String>();
    let (s, _) = feed(s, Event::ChromeLocated(Some("c".to_string())));
    let (s, _) = feed(s, Event::PolicyQueried(Ok(listing.into_bytes())));
    let (_, step) = feed(s, Event::PolicyDeleted(Err("gone".to_string())));
    match step.action {
        Action::Finish(Err(m)) => {
            assert_eq!(m, "Failed to remove the Chrome extension policy: gone")
        }
        _ => panic!("expected a failure"),
    }
}

#[test]
fn crash_message_text() {
    assert_eq!(ERR_CRASHED, "The operation crashed unexpectedly (internal error).");
}

#[test]
fn unexpected_event_is_not_awaited() {
    let (s, _) = run_install::<String>();
    assert!(s.awaits_event(&Event::ChromeLocated(None)));
    assert!(!s.awaits_event(&Event::FirefoxLocated(None)));
    assert!(!s.awaits_event(&Event::PolicyWritten(Ok(true))));
}

#[test]
fn listing_text_names_chrome() {
    assert!(lists_chrome_text("Chrome.Exe  99 Console"));
    assert!(lists_chrome_text("x\nchrome.exe"));
    assert!(!lists_chrome_text("chrome.ex"));
    assert!(!lists_chrome_text("firefox.exe 12"));
    assert!(!lists_chrome_text(""));
}
