use winget_automation::error::ParsePackageSourceError;
use winget_automation::error::ParseWingetError;
use winget_automation::error::WingetError;
use winget_automation::monitor::autostart_value;
use winget_automation::monitor::next_check;
use winget_automation::monitor::report_outcome;
use winget_automation::monitor::summarize_packages;
use winget_automation::monitor::update_count_label;
use winget_automation::monitor::update_window_body;
use winget_automation::monitor::AppAction;
use winget_automation::monitor::AppEvent;
use winget_automation::monitor::CheckReport;
use winget_automation::monitor::CheckTrigger;
use winget_automation::monitor::Monitor;
use winget_automation::monitor::WorkerCommand;
use winget_automation::monitor::WorkerWake;
use winget_automation::parser::PackageSource;
use winget_automation::parser::WingetUpdateOutput;
use winget_automation::text::decimal_i32;
use winget_automation::text::decimal_u64;
use winget_automation::text::to_wide;

fn package(name: &str, source: PackageSource) -> WingetUpdateOutput {
    WingetUpdateOutput {
        name: name.to_string(),
        id: format!("{name}.Id"),
        version: "1.0".to_string(),
        available: "2.0".to_string(),
        source,
    }
}

fn packages(n: usize) -> Vec<WingetUpdateOutput> {
    (0..n).map(|i| package(&format!("P{i}"), PackageSource::WinGet)).collect()
}

#[test]
fn update_count_labels_are_natural() {
    assert_eq!(update_count_label(1), "1 app update available");
    assert_eq!(update_count_label(4), "4 app updates available");
}

#[test]
fn update_count_label_zero_and_large() {
    assert_eq!(update_count_label(0), "0 app updates available");
    assert_eq!(update_count_label(1234), "1234 app updates available");
}

#[test]
fn decimal_texts() {
    assert_eq!(decimal_u64(0), "0");
    assert_eq!(decimal_u64(u64::MAX), u64::MAX.to_string());
    assert_eq!(decimal_i32(-7), "-7");
    assert_eq!(decimal_i32(i32::MIN), i32::MIN.to_string());
    assert_eq!(decimal_i32(42), "42");
}

#[test]
fn summary_lists_at_most_three_names() {
    assert_eq!(summarize_packages(&[]), "");
    assert_eq!(summarize_packages(&packages(1)), "P0");
    assert_eq!(summarize_packages(&packages(3)), "P0, P1, P2");
    assert_eq!(summarize_packages(&packages(5)), "P0, P1, P2");
}

#[test]
fn window_body_lists_each_update() {
    assert_eq!(
        update_window_body(&[]),
        "No package updates are currently available. Use Check for updates now to refresh."
    );
    let body = update_window_body(&[
        package("Git", PackageSource::WinGet),
        package("Posh", PackageSource::MsStore),
    ]);
    assert_eq!(
        body,
        "2 app updates available\n\nGit\n  Git.Id: 1.0 -> 2.0 (winget)\nPosh\n  Posh.Id: 1.0 -> 2.0 (msstore)\n\nRun winget upgrade in a terminal to install these updates."
    );
}

#[test]
fn wide_text_is_utf16_with_terminator() {
    assert_eq!(to_wide(""), vec![0u16]);
    assert_eq!(to_wide("Ab"), vec![0x41u16, 0x62, 0]);
    let s = "é😀";
    let mut expected: Vec<u16> = s.encode_utf16().collect();
    expected.push(0);
    assert_eq!(to_wide(s), expected);
    assert_eq!(to_wide(s), vec![0xE9u16, 0xD83D, 0xDE00, 0]);
}

#[test]
fn up_to_date_toast_only_when_asked() {
    let manual = report_outcome(&CheckReport { trigger: CheckTrigger::Manual, result: Ok(Vec::new()) });
    assert_eq!(manual.status, "Up to date");
    assert_eq!(manual.tooltip, "WinGet Update Monitor — you're up to date");
    let toast = manual.toast.expect("a manual check announces its result");
    assert_eq!(toast.title, "You're up to date");
    assert_eq!(toast.line1, "No package updates were found.");
    assert_eq!(toast.line2, "We'll check again automatically in 4 hours.");

    let scheduled = report_outcome(&CheckReport { trigger: CheckTrigger::Scheduled, result: Ok(Vec::new()) });
    assert!(scheduled.toast.is_none());
    assert_eq!(scheduled.status, "Up to date");
    let startup = report_outcome(&CheckReport { trigger: CheckTrigger::Startup, result: Ok(Vec::new()) });
    assert!(startup.toast.is_none());
}

#[test]
fn updates_are_always_announced() {
    let few = report_outcome(&CheckReport { trigger: CheckTrigger::Scheduled, result: Ok(packages(2)) });
    assert_eq!(few.status, "2 app updates available");
    assert_eq!(few.tooltip, "WinGet Update Monitor — 2 app updates available");
    let toast = few.toast.unwrap();
    assert_eq!(toast.title, "2 app updates available");
    assert_eq!(toast.line1, "P0, P1");
    assert_eq!(toast.line2, "Right-click the tray icon to view details.");

    let many = report_outcome(&CheckReport { trigger: CheckTrigger::Startup, result: Ok(packages(5)) });
    let toast = many.toast.unwrap();
    assert_eq!(toast.line1, "P0, P1, P2");
    assert_eq!(toast.line2, "Plus 2 more");

    let one = report_outcome(&CheckReport { trigger: CheckTrigger::Manual, result: Ok(packages(1)) });
    assert_eq!(one.status, "1 app update available");
}

#[test]
fn failed_check_toast_only_when_asked() {
    let error = WingetError::Parse(ParseWingetError::HeaderParseFailed);
    let manual = report_outcome(&CheckReport { trigger: CheckTrigger::Manual, result: Err(error) });
    assert_eq!(manual.status, "Last check failed");
    assert_eq!(manual.tooltip, "WinGet Update Monitor — last check failed");
    let toast = manual.toast.unwrap();
    assert_eq!(toast.title, "Update check failed");
    assert_eq!(
        toast.line1,
        "failed to parse winget output: could not determine column positions from header line"
    );
    assert_eq!(toast.line2, "Check your connection and try again.");

    let error = WingetError::CommandFailed { code: Some(7), stderr: "boom".to_string() };
    let scheduled = report_outcome(&CheckReport { trigger: CheckTrigger::Scheduled, result: Err(error) });
    assert!(scheduled.toast.is_none());
    assert_eq!(scheduled.status, "Last check failed");
}

#[test]
fn error_messages() {
    let e = ParsePackageSourceError { input: "bad".to_string() };
    assert_eq!(e.message(), "unexpected package source value: 'bad'");
    let p = ParseWingetError::InvalidSource(e);
    assert_eq!(p.message(), "invalid package source: unexpected package source value: 'bad'");
    let w = WingetError::Parse(p);
    assert_eq!(
        w.message(),
        "failed to parse winget output: invalid package source: unexpected package source value: 'bad'"
    );
    let c = WingetError::CommandFailed { code: Some(-2), stderr: "oops".to_string() };
    assert_eq!(c.message(), "winget exited unsuccessfully (code Some(-2)): oops");
    let c = WingetError::CommandFailed { code: None, stderr: String::new() };
    assert_eq!(c.message(), "winget exited unsuccessfully (code None): ");
    let io = WingetError::Process(std::io::Error::new(std::io::ErrorKind::NotFound, "gone"));
    assert_eq!(io.message(), "failed to run winget process: gone");
    let utf8 = String::from_utf8(vec![0xff]).unwrap_err();
    let u = WingetError::Utf8(utf8);
    assert!(u.message().starts_with("winget output is not valid UTF-8: "));
}

#[test]
fn monitor_keeps_the_last_report() {
    let mut monitor = Monitor::new();
    match monitor.handle_event(AppEvent::ShowUpdates) {
        AppAction::ShowUpdates { body } => assert!(body.starts_with("No package updates")),
        _ => panic!("expected a window"),
    }
    let found = packages(2);
    match monitor.handle_event(AppEvent::Report(CheckReport { trigger: CheckTrigger::Startup, result: Ok(found.clone()) })) {
        AppAction::ApplyReport(outcome) => assert_eq!(outcome.status, "2 app updates available"),
        _ => panic!("expected a report to apply"),
    }
    assert_eq!(monitor.latest_updates, found);
    match monitor.handle_event(AppEvent::CheckNow) {
        AppAction::StartCheck { label } => assert_eq!(label, "Checking for updates…"),
        _ => panic!("expected a check"),
    }
    assert_eq!(monitor.latest_updates, found);
    match monitor.handle_event(AppEvent::ShowUpdates) {
        AppAction::ShowUpdates { body } => assert_eq!(body, update_window_body(&found)),
        _ => panic!("expected a window"),
    }
    let failure = WingetError::Parse(ParseWingetError::HeaderParseFailed);
    match monitor.handle_event(AppEvent::Report(CheckReport { trigger: CheckTrigger::Scheduled, result: Err(failure) })) {
        AppAction::ApplyReport(outcome) => assert_eq!(outcome.status, "Last check failed"),
        _ => panic!("expected a report to apply"),
    }
    assert!(monitor.latest_updates.is_empty());
    assert!(matches!(monitor.handle_event(AppEvent::Quit), AppAction::Quit));
}

#[test]
fn worker_schedule() {
    assert!(matches!(next_check(WorkerWake::Command(WorkerCommand::CheckNow)), Some(CheckTrigger::Manual)));
    assert!(next_check(WorkerWake::Command(WorkerCommand::Quit)).is_none());
    assert!(matches!(next_check(WorkerWake::TimedOut), Some(CheckTrigger::Scheduled)));
    assert!(next_check(WorkerWake::Disconnected).is_none());
}

#[test]
fn autostart_value_quotes_the_path() {
    assert_eq!(autostart_value(r"C:\Program Files\app.exe"), "\"C:\\Program Files\\app.exe\"");
}
