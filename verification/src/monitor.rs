//! The decisions of the tray monitor: what each check report shows, what each
//! menu event does, when the background worker checks again, and the texts
//! that it puts on screen. Running winget, the tray, toasts and message boxes
//! is left to the caller, which performs the actions returned here.
use vstd::prelude::*;
use vstd::string::StringExecFns;

use crate::error::is_error_message;
use crate::error::WingetError;
use crate::parser::source_text;
use crate::parser::WingetUpdateOutput;
use crate::text::decimal_u64;
use crate::text::decimal_value;
use crate::text::is_decimal_digits;
use crate::text::lemma_decimal_denotes;
use crate::text::lemma_join_append;
use crate::text::join;
use crate::text::join_strings;
use crate::text::spec_decimal;
use crate::text::string_views;

verus! {

/// How many package names a toast lists.
pub const TOAST_PACKAGE_LIMIT: usize = 3;

/// "N app updates available", singular for one.
pub open spec fn count_label(n: nat) -> Seq<char> {
    if n == 1 {
        "1 app update available"@
    } else {
        spec_decimal(n) + " app updates available"@
    }
}

/// The label that counts available updates.
pub fn update_count_label(count: usize) -> (r: String)
    ensures
        r@ == count_label(count as nat),
{
    if count == 1 {
        "1 app update available".to_owned()
    } else {
        let mut r = decimal_u64(count as u64);
        r.append(" app updates available");
        r
    }
}

/// The names of the packages.
pub open spec fn names(packages: Seq<WingetUpdateOutput>) -> Seq<Seq<char>> {
    packages.map_values(|u: WingetUpdateOutput| u.name@)
}

/// The number of packages that a toast lists.
pub open spec fn listed_count(n: nat) -> nat {
    if n < TOAST_PACKAGE_LIMIT {
        n
    } else {
        TOAST_PACKAGE_LIMIT as nat
    }
}

/// The names of the first packages (at most `TOAST_PACKAGE_LIMIT`), joined by ", ".
pub open spec fn summary(packages: Seq<WingetUpdateOutput>) -> Seq<char> {
    join(names(packages.take(listed_count(packages.len()) as int)), ", "@)
}

/// The names of the first few packages, for a toast.
pub fn summarize_packages(packages: &[WingetUpdateOutput]) -> (r: String)
    ensures
        r@ == summary(packages@),
{
    let n = if packages.len() < TOAST_PACKAGE_LIMIT {
        packages.len()
    } else {
        TOAST_PACKAGE_LIMIT
    };
    let mut r = "".to_owned();
    proof {
        reveal_strlit("");
    }
    let mut i: usize = 0;
    while i < n
        invariant
            n == listed_count(packages@.len()),
            n <= packages@.len(),
            i <= n,
            r@ == join(names(packages@.take(i as int)), ", "@),
        decreases n - i,
    {
        assert(names(packages@.take(i + 1)).drop_last() =~= names(packages@.take(i as int)));
        if i > 0 {
            r.append(", ");
        }
        r.append(packages[i].name.as_str());
        assert(r@ =~= join(names(packages@.take(i + 1)), ", "@));
        i += 1;
    }
    r
}

/// How the window lists one package.
pub open spec fn entry_text(u: WingetUpdateOutput) -> Seq<char> {
    u.name@ + "\n  "@ + u.id@ + ": "@ + u.version@ + " -> "@ + u.available@ + " ("@ + source_text(
        u.source,
    ) + ")"@
}

/// The window text when nothing is to be updated.
pub open spec fn no_updates_text() -> Seq<char> {
    "No package updates are currently available. Use Check for updates now to refresh."@
}

/// The last line of the window text.
pub open spec fn closing_text() -> Seq<char> {
    "Run winget upgrade in a terminal to install these updates."@
}

/// The text of the window that lists the available updates.
pub open spec fn window_body(packages: Seq<WingetUpdateOutput>) -> Seq<char> {
    if packages.len() == 0 {
        no_updates_text()
    } else {
        join(
            seq![count_label(packages.len()), Seq::empty()] + packages.map_values(
                |u: WingetUpdateOutput| entry_text(u),
            ) + seq![Seq::empty(), closing_text()],
            "\n"@,
        )
    }
}

fn package_entry(u: &WingetUpdateOutput) -> (r: String)
    ensures
        r@ == entry_text(*u),
{
    let mut r = u.name.clone();
    r.append("\n  ");
    r.append(u.id.as_str());
    r.append(": ");
    r.append(u.version.as_str());
    r.append(" -> ");
    r.append(u.available.as_str());
    r.append(" (");
    r.append(u.source.as_str());
    r.append(")");
    r
}

/// The text of the window that lists the available updates.
pub fn update_window_body(packages: &[WingetUpdateOutput]) -> (r: String)
    ensures
        r@ == window_body(packages@),
{
    if packages.len() == 0 {
        return "No package updates are currently available. Use Check for updates now to refresh.".to_owned();
    }
    let mut lines: Vec<String> = Vec::new();
    lines.push(update_count_label(packages.len()));
    lines.push(String::new());
    let ghost head = seq![count_label(packages@.len()), Seq::<char>::empty()];
    assert(string_views(lines@) =~= head);
    let n = packages.len();
    let mut i: usize = 0;
    while i < n
        invariant
            n == packages@.len(),
            i <= n,
            head == seq![count_label(packages@.len()), Seq::<char>::empty()],
            string_views(lines@) == head + packages@.take(i as int).map_values(
                |u: WingetUpdateOutput| entry_text(u),
            ),
        decreases n - i,
    {
        let entry = package_entry(&packages[i]);
        let ghost before = lines@;
        lines.push(entry);
        assert(string_views(lines@) =~= string_views(before).push(entry_text(packages@[i as int])));
        assert(packages@.take(i + 1).map_values(|u: WingetUpdateOutput| entry_text(u))
            =~= packages@.take(i as int).map_values(|u: WingetUpdateOutput| entry_text(u)).push(
            entry_text(packages@[i as int]),
        ));
        assert(string_views(lines@) =~= head + packages@.take(i + 1).map_values(
            |u: WingetUpdateOutput| entry_text(u),
        ));
        i += 1;
    }
    assert(packages@.take(n as int) =~= packages@);
    lines.push(String::new());
    lines.push("Run winget upgrade in a terminal to install these updates.".to_owned());
    assert(string_views(lines@) =~= head + packages@.map_values(
        |u: WingetUpdateOutput| entry_text(u),
    ) + seq![Seq::empty(), closing_text()]);
    join_strings(&lines, "\n")
}

/// What started a check.
pub enum CheckTrigger {
    /// The first check, when the monitor starts.
    Startup,
    /// The user asked for it.
    Manual,
    /// The check interval passed.
    Scheduled,
}

/// The outcome of one check.
pub struct CheckReport {
    pub trigger: CheckTrigger,
    pub result: Result<Vec<WingetUpdateOutput>, WingetError>,
}

/// A toast notification to show.
pub struct ToastMessage {
    pub title: String,
    pub line1: String,
    pub line2: String,
}

/// What a check report puts on screen: the status label of the tray menu,
/// the tooltip of the tray icon, and a toast where one is due.
pub struct ReportOutcome {
    pub status: String,
    pub tooltip: String,
    pub toast: Option<ToastMessage>,
}

/// The second toast line when updates are found.
pub open spec fn more_line(n: nat) -> Seq<char> {
    if n > TOAST_PACKAGE_LIMIT {
        "Plus "@ + spec_decimal((n - TOAST_PACKAGE_LIMIT) as nat) + " more"@
    } else {
        "Right-click the tray icon to view details."@
    }
}

/// `t` shows the given title and lines.
pub open spec fn toast_shows(t: ToastMessage, title: Seq<char>, line1: Seq<char>, line2: Seq<char>) -> bool {
    &&& t.title@ == title
    &&& t.line1@ == line1
    &&& t.line2@ == line2
}

/// `o` is what `report` puts on screen. Updates found are always announced by
/// a toast; being up to date, and a failed check, only when the user asked.
pub open spec fn report_shows(report: CheckReport, o: ReportOutcome) -> bool {
    match report.result {
        Ok(packages) => if packages@.len() == 0 {
            &&& o.status@ == "Up to date"@
            &&& o.tooltip@ == "WinGet Update Monitor — you're up to date"@
            &&& (o.toast is Some <==> report.trigger is Manual)
            &&& (o.toast matches Some(t) ==> toast_shows(
                t,
                "You're up to date"@,
                "No package updates were found."@,
                "We'll check again automatically in 4 hours."@,
            ))
        } else {
            &&& o.status@ == count_label(packages@.len())
            &&& o.tooltip@ == "WinGet Update Monitor — "@ + count_label(packages@.len())
            &&& (o.toast matches Some(t) && toast_shows(
                t,
                count_label(packages@.len()),
                summary(packages@),
                more_line(packages@.len()),
            ))
        },
        Err(e) => {
            &&& o.status@ == "Last check failed"@
            &&& o.tooltip@ == "WinGet Update Monitor — last check failed"@
            &&& (o.toast is Some <==> report.trigger is Manual)
            &&& (o.toast matches Some(t) ==> {
                &&& t.title@ == "Update check failed"@
                &&& is_error_message(e, t.line1@)
                &&& t.line2@ == "Check your connection and try again."@
            })
        },
    }
}

fn is_manual(trigger: &CheckTrigger) -> (r: bool)
    ensures
        r == (*trigger is Manual),
{
    match trigger {
        CheckTrigger::Manual => true,
        _ => false,
    }
}

/// What a check report puts on screen.
pub fn report_outcome(report: &CheckReport) -> (r: ReportOutcome)
    ensures
        report_shows(*report, r),
{
    match &report.result {
        Ok(packages) => {
            if packages.len() == 0 {
                let toast = if is_manual(&report.trigger) {
                    Some(
                        ToastMessage {
                            title: "You're up to date".to_owned(),
                            line1: "No package updates were found.".to_owned(),
                            line2: "We'll check again automatically in 4 hours.".to_owned(),
                        },
                    )
                } else {
                    None
                };
                ReportOutcome {
                    status: "Up to date".to_owned(),
                    tooltip: "WinGet Update Monitor — you're up to date".to_owned(),
                    toast,
                }
            } else {
                let title = update_count_label(packages.len());
                let line1 = summarize_packages(packages.as_slice());
                let line2 = if packages.len() > TOAST_PACKAGE_LIMIT {
                    let mut more = "Plus ".to_owned();
                    let count = decimal_u64((packages.len() - TOAST_PACKAGE_LIMIT) as u64);
                    more.append(count.as_str());
                    more.append(" more");
                    more
                } else {
                    "Right-click the tray icon to view details.".to_owned()
                };
                let mut tooltip = "WinGet Update Monitor — ".to_owned();
                tooltip.append(title.as_str());
                let status = title.clone();
                ReportOutcome { status, tooltip, toast: Some(ToastMessage { title, line1, line2 }) }
            }
        },
        Err(error) => {
            let toast = if is_manual(&report.trigger) {
                Some(
                    ToastMessage {
                        title: "Update check failed".to_owned(),
                        line1: error.message(),
                        line2: "Check your connection and try again.".to_owned(),
                    },
                )
            } else {
                None
            };
            ReportOutcome {
                status: "Last check failed".to_owned(),
                tooltip: "WinGet Update Monitor — last check failed".to_owned(),
                toast,
            }
        },
    }
}

/// The label of the status line while a check runs.
pub open spec fn checking_text() -> Seq<char> {
    "Checking for updates…"@
}

/// The label of the status line while a check runs.
pub fn checking_label() -> (r: String)
    ensures
        r@ == checking_text(),
{
    "Checking for updates…".to_owned()
}

/// Something that happened to the monitor.
pub enum AppEvent {
    /// The user asked for a check.
    CheckNow,
    /// The user asked to see the available updates.
    ShowUpdates,
    /// The user asked to quit.
    Quit,
    /// The worker finished a check.
    Report(CheckReport),
}

/// What the caller is to do in answer to an event.
pub enum AppAction {
    /// Show `label` as the status, reset the icon, and tell the worker to check now.
    StartCheck { label: String },
    /// Show a window with `body`.
    ShowUpdates { body: String },
    /// Tell the worker to quit, wait for it, and exit.
    Quit,
    /// Put the outcome of a check on screen.
    ApplyReport(ReportOutcome),
}

/// The state of the monitor: the updates that the last check found.
pub struct Monitor {
    pub latest_updates: Vec<WingetUpdateOutput>,
}

/// The updates that the monitor holds after a report: those found, or none
/// when the check failed.
pub open spec fn updates_after(report: CheckReport) -> Seq<WingetUpdateOutput> {
    match report.result {
        Ok(packages) => packages@,
        Err(_) => Seq::empty(),
    }
}

impl Monitor {
    /// A monitor that knows of no updates.
    pub fn new() -> (m: Monitor)
        ensures
            m.latest_updates@.len() == 0,
    {
        Monitor { latest_updates: Vec::new() }
    }

    /// Answers one event: a report replaces the known updates and is put on
    /// screen, the window shows the known updates, and the other events leave
    /// them as they are.
    pub fn handle_event(&mut self, event: AppEvent) -> (action: AppAction)
        ensures
            match event {
                AppEvent::CheckNow => {
                    &&& action matches AppAction::StartCheck { label } && label@ == checking_text()
                    &&& final(self).latest_updates@ == old(self).latest_updates@
                },
                AppEvent::ShowUpdates => {
                    &&& action matches AppAction::ShowUpdates { body } && body@ == window_body(
                        old(self).latest_updates@,
                    )
                    &&& final(self).latest_updates@ == old(self).latest_updates@
                },
                AppEvent::Quit => {
                    &&& action is Quit
                    &&& final(self).latest_updates@ == old(self).latest_updates@
                },
                AppEvent::Report(report) => {
                    &&& action matches AppAction::ApplyReport(o) && report_shows(report, o)
                    &&& final(self).latest_updates@ == updates_after(report)
                },
            },
    {
        match event {
            AppEvent::CheckNow => AppAction::StartCheck { label: checking_label() },
            AppEvent::ShowUpdates => {
                AppAction::ShowUpdates { body: update_window_body(self.latest_updates.as_slice()) }
            },
            AppEvent::Quit => AppAction::Quit,
            AppEvent::Report(report) => {
                let outcome = report_outcome(&report);
                match report.result {
                    Ok(packages) => {
                        self.latest_updates = packages;
                    },
                    Err(_) => {
                        self.latest_updates = Vec::new();
                    },
                }
                AppAction::ApplyReport(outcome)
            },
        }
    }
}

/// A command from the monitor to its worker.
pub enum WorkerCommand {
    CheckNow,
    Quit,
}

/// Why the worker woke up while it waited for the next check.
pub enum WorkerWake {
    /// A command arrived.
    Command(WorkerCommand),
    /// The check interval passed.
    TimedOut,
    /// The monitor is gone.
    Disconnected,
}

/// The trigger of the worker's next check, or `None` when it is to stop.
pub fn next_check(wake: WorkerWake) -> (r: Option<CheckTrigger>)
    ensures
        match wake {
            WorkerWake::Command(WorkerCommand::CheckNow) => r == Some(CheckTrigger::Manual),
            WorkerWake::Command(WorkerCommand::Quit) => r is None,
            WorkerWake::TimedOut => r == Some(CheckTrigger::Scheduled),
            WorkerWake::Disconnected => r is None,
        },
{
    match wake {
        WorkerWake::Command(WorkerCommand::CheckNow) => Some(CheckTrigger::Manual),
        WorkerWake::Command(WorkerCommand::Quit) => None,
        WorkerWake::TimedOut => Some(CheckTrigger::Scheduled),
        WorkerWake::Disconnected => None,
    }
}

/// The value that registers `executable` to start with Windows: its path in
/// double quotes.
pub fn autostart_value(executable: &str) -> (r: String)
    ensures
        r@ == "\""@ + executable@ + "\""@,
{
    let mut r = "\"".to_owned();
    r.append(executable);
    r.append("\"");
    r
}


/// The label states the count itself: "1 app update available" for one, and
/// otherwise a run of digits denoting exactly the count, then
/// " app updates available".
pub proof fn lemma_count_label_counts(n: nat)
    ensures
        n == 1 ==> count_label(n) == "1 app update available"@,
        n != 1 ==> exists|d: Seq<char>|
            #![trigger decimal_value(d)]
            is_decimal_digits(d) && decimal_value(d) == n && count_label(n) == d
                + " app updates available"@,
{
    lemma_decimal_denotes(n);
    if n != 1 {
        let d = spec_decimal(n);
        assert(is_decimal_digits(d) && decimal_value(d) == n && count_label(n) == d
            + " app updates available"@);
    }
}

/// A toast accounts for every package: its first line names the first
/// min(n, 3) packages in order, and its second line counts the rest, which is
/// at least one whenever it is shown, or points to the menu when none is left.
pub proof fn lemma_toast_accounts_for_every_package(p: Seq<WingetUpdateOutput>)
    ensures
        ({
            let n = p.len();
            let m: nat = if n < 3 {
                n
            } else {
                3
            };
            &&& summary(p) == join(names(p.take(m as int)), ", "@)
            &&& n <= 3 ==> more_line(n) == "Right-click the tray icon to view details."@
            &&& n > 3 ==> exists|d: Seq<char>|
                #![trigger decimal_value(d)]
                is_decimal_digits(d) && decimal_value(d) == n - m && n - m >= 1 && more_line(n)
                    == "Plus "@ + d + " more"@
        }),
{
    let n = p.len();
    if n > 3 {
        lemma_decimal_denotes((n - 3) as nat);
        let d = spec_decimal((n - 3) as nat);
        assert(decimal_value(d) == n - 3);
    }
}

/// The entry of each package, in order.
pub open spec fn package_entries(p: Seq<WingetUpdateOutput>) -> Seq<Seq<char>> {
    Seq::new(p.len(), |i: int| entry_text(p[i]))
}

/// The window lists every package: after the count and a blank line come the
/// entries of all the packages, one for each, in order, then a blank line and
/// the closing line.
pub proof fn lemma_window_lists_every_package(p: Seq<WingetUpdateOutput>)
    ensures
        package_entries(p).len() == p.len(),
        p.len() > 0 ==> window_body(p) == count_label(p.len()) + "\n"@ + "\n"@ + join(
            package_entries(p),
            "\n"@,
        ) + "\n"@ + "\n"@ + closing_text(),
{
    if p.len() > 0 {
        let s = "\n"@;
        let e = Seq::<char>::empty();
        let a = count_label(p.len());
        let c = closing_text();
        let entries = p.map_values(|u: WingetUpdateOutput| entry_text(u));
        assert(entries =~= package_entries(p));
        let head = seq![a, e];
        let tail = seq![e, c];
        assert(head.drop_last() =~= seq![a]);
        assert(join(seq![a], s) == a);
        assert(head.last() == e);
        assert(join(head, s) == a + s + e);
        assert(tail.drop_last() =~= seq![e]);
        assert(join(seq![e], s) == e);
        assert(tail.last() == c);
        assert(join(tail, s) == e + s + c);
        lemma_join_append(head, entries, s);
        lemma_join_append(head + entries, tail, s);
        assert(join(head + entries + tail, s) =~= a + s + s + join(entries, s) + s + s + c);
    }
}

} // verus!
