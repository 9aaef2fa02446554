//! The polling agent: what it does next, and what it reports.

use vstd::prelude::*;
use vstd::string::StringExecFns;

use crate::providers::{is_credential_failure, Provider};
use crate::text::{begins_with, escape_applescript, escaped, escaped_char, same, starts_with};

verus! {

/// What the command line asks for.
#[derive(Clone, Copy, Debug, PartialEq, Eq, Structural)]
pub enum Command {
    /// Print the current status and exit.
    Status,
    /// Poll once and exit.
    Once,
    /// Poll for ever.
    Run,
}

/// Whether an argument is given.
pub open spec fn given(args: Seq<String>, flag: Seq<char>) -> bool {
    exists|i: int| 0 <= i < args.len() && (#[trigger] args[i])@ == flag
}

/// What the arguments ask for: the status before anything else, then a single
/// poll.
pub open spec fn command(args: Seq<String>) -> Command {
    if given(args, "--status"@) {
        Command::Status
    } else if given(args, "--once"@) || given(args, "--refresh"@) {
        Command::Once
    } else {
        Command::Run
    }
}

fn has_flag(args: &Vec<String>, flag: &str) -> (r: bool)
    ensures
        r == given(args@, flag@),
{
    let mut i: usize = 0;
    while i < args.len()
        invariant
            i <= args@.len(),
            forall|j: int| 0 <= j < i ==> (#[trigger] args@[j])@ != flag@,
        decreases args@.len() - i,
    {
        if same(args[i].as_str(), flag) {
            return true;
        }
        i = i + 1;
    }
    false
}

/// What the arguments ask for.
pub fn parse_args(args: &Vec<String>) -> (r: Command)
    ensures
        r == command(args@),
        r == Command::Status <==> exists|i: int|
            0 <= i < args@.len() && (#[trigger] args@[i])@ == "--status"@,
        r == Command::Once <==> (exists|i: int|
            0 <= i < args@.len() && ((#[trigger] args@[i])@ == "--once"@ || args@[i]@
                == "--refresh"@)) && !(exists|i: int|
            0 <= i < args@.len() && (#[trigger] args@[i])@ == "--status"@),
{
    if has_flag(args, "--status") {
        Command::Status
    } else if has_flag(args, "--once") || has_flag(args, "--refresh") {
        Command::Once
    } else {
        Command::Run
    }
}

/// What decides the course of a run.
#[derive(Clone, Copy, Debug)]
pub struct RunSettings {
    pub command: Command,
    pub show_startup_notification: bool,
    pub polling_interval_seconds: u64,
}

/// One step of a run.
#[derive(Clone, Copy, Debug, PartialEq, Eq, Structural)]
pub enum Step {
    /// Print the current status.
    PrintStatus,
    /// Make the client of the backend.
    CreateClient,
    /// Report that the client could not be made.
    ReportClientFailure,
    /// Resume a party that is live in the history.
    Backfill,
    /// Tell the user that the meter is running.
    Announce,
    /// Poll the backend once.
    Poll,
    /// Wait for so many seconds.
    Sleep(u64),
    /// Leave.
    Exit,
}

/// The seconds between two polls: as configured, a minute at least.
pub open spec fn interval(configured: u64) -> u64 {
    if configured < 60 {
        60
    } else {
        configured
    }
}

/// The seconds between two polls: as configured, a minute at least.
pub fn polling_interval(configured: u64) -> (r: u64)
    ensures
        r == interval(configured),
        r >= 60,
        configured >= 60 ==> r == configured,
        configured < 60 ==> r == 60,
{
    if configured < 60 {
        60
    } else {
        configured
    }
}

/// How a run begins.
pub open spec fn first(settings: RunSettings) -> Step {
    match settings.command {
        Command::Status => Step::PrintStatus,
        _ => Step::CreateClient,
    }
}

/// What follows a step, `ok` saying whether it succeeded. Only the making of
/// a client can stop a run by its failure.
pub open spec fn next(settings: RunSettings, step: Step, ok: bool) -> Step {
    match step {
        Step::PrintStatus => Step::Exit,
        Step::CreateClient => if ok {
            Step::Backfill
        } else {
            Step::ReportClientFailure
        },
        Step::ReportClientFailure => Step::Exit,
        Step::Backfill => if settings.command == Command::Run
            && settings.show_startup_notification {
            Step::Announce
        } else {
            Step::Poll
        },
        Step::Announce => Step::Poll,
        Step::Poll => if settings.command == Command::Run {
            Step::Sleep(interval(settings.polling_interval_seconds))
        } else {
            Step::Exit
        },
        Step::Sleep(_) => Step::Poll,
        Step::Exit => Step::Exit,
    }
}

/// How a run begins.
pub fn first_step(settings: RunSettings) -> (r: Step)
    ensures
        r == first(settings),
        r == Step::PrintStatus <==> settings.command == Command::Status,
        r == Step::CreateClient <==> settings.command != Command::Status,
{
    match settings.command {
        Command::Status => Step::PrintStatus,
        _ => Step::CreateClient,
    }
}

/// What follows a step, `ok` saying whether it succeeded.
pub fn next_step(settings: RunSettings, step: Step, ok: bool) -> (r: Step)
    ensures
        r == next(settings, step, ok),
        step == Step::CreateClient ==> r == (if ok {
            Step::Backfill
        } else {
            Step::ReportClientFailure
        }),
        step == Step::Backfill ==> r == Step::Poll || r == Step::Announce,
        step == Step::Backfill ==> (r == Step::Announce <==> settings.command == Command::Run
            && settings.show_startup_notification),
        step == Step::Announce || step is Sleep ==> r == Step::Poll,
        step == Step::Poll && settings.command != Command::Run ==> r == Step::Exit,
        step == Step::Poll && settings.command == Command::Run ==> r is Sleep && r->Sleep_0 >= 60
            && r->Sleep_0 >= settings.polling_interval_seconds && (r->Sleep_0 == 60 || r->Sleep_0
            == settings.polling_interval_seconds),
        step == Step::PrintStatus || step == Step::ReportClientFailure || step == Step::Exit ==> r
            == Step::Exit,
{
    match step {
        Step::PrintStatus => Step::Exit,
        Step::CreateClient => if ok {
            Step::Backfill
        } else {
            Step::ReportClientFailure
        },
        Step::ReportClientFailure => Step::Exit,
        Step::Backfill => if settings.command == Command::Run
            && settings.show_startup_notification {
            Step::Announce
        } else {
            Step::Poll
        },
        Step::Announce => Step::Poll,
        Step::Poll => if settings.command == Command::Run {
            Step::Sleep(polling_interval(settings.polling_interval_seconds))
        } else {
            Step::Exit
        },
        Step::Sleep(_) => Step::Poll,
        Step::Exit => Step::Exit,
    }
}

/// The step after so many steps, each of which succeeded or failed as `results`
/// says.
pub open spec fn step_after(settings: RunSettings, results: Seq<bool>) -> Step
    decreases results.len(),
{
    if results.len() == 0 {
        first(settings)
    } else {
        next(settings, step_after(settings, results.drop_last()), results.last())
    }
}

/// How many of the steps before this point were polls.
pub open spec fn polls_before(settings: RunSettings, results: Seq<bool>) -> nat
    decreases results.len(),
{
    if results.len() == 0 {
        0
    } else {
        let earlier = results.drop_last();
        polls_before(settings, earlier) + if step_after(settings, earlier) == Step::Poll {
            1nat
        } else {
            0nat
        }
    }
}

/// A run that polls once polls at most once, and a request for the status polls
/// not at all.
pub proof fn law_single_poll(settings: RunSettings, results: Seq<bool>)
    requires
        settings.command != Command::Run,
    ensures
        polls_before(settings, results) <= 1,
        settings.command == Command::Status ==> polls_before(settings, results) == 0,
        polls_before(settings, results) == 1 ==> step_after(settings, results) == Step::Exit,
    decreases results.len(),
{
    if results.len() > 0 {
        law_single_poll(settings, results.drop_last());
        lemma_single_run(settings, results.drop_last());
    }
}

/// The steps that a single run can be in, given how often it polled.
proof fn lemma_single_run(settings: RunSettings, results: Seq<bool>)
    requires
        settings.command != Command::Run,
    ensures
        settings.command == Command::Status ==> step_after(settings, results) == Step::PrintStatus
            || step_after(settings, results) == Step::Exit,
        step_after(settings, results) !is Sleep,
        step_after(settings, results) != Step::Announce,
        step_after(settings, results) == Step::Poll ==> polls_before(settings, results) == 0,
        step_after(settings, results) == Step::Backfill ==> polls_before(settings, results) == 0,
        step_after(settings, results) == Step::CreateClient ==> polls_before(settings, results)
            == 0,
        step_after(settings, results) == Step::ReportClientFailure ==> polls_before(
            settings,
            results,
        ) == 0,
        step_after(settings, results) == Step::PrintStatus ==> polls_before(settings, results) == 0,
    decreases results.len(),
{
    if results.len() > 0 {
        lemma_single_run(settings, results.drop_last());
    }
}

/// A run without end goes on for ever once it has a client, whatever fails: two
/// polls are always a minute or more apart, and it never exits.
pub proof fn law_run_goes_on(settings: RunSettings, step: Step, ok: bool)
    requires
        settings.command == Command::Run,
        step == Step::Poll || step is Sleep || step == Step::Backfill || step == Step::Announce,
    ensures
        ({
            let after = next(settings, step, ok);
            after == Step::Poll || after is Sleep || after == Step::Announce
        }),
        step == Step::Poll ==> (next(settings, step, ok) matches Step::Sleep(s) && s >= 60),
{
}

/// What follows each step: a client that was made leads to the backfill, one that
/// was not to its report and the end; the meter is announced before the first
/// poll of a run without end, where that is wanted; after a poll such a run waits
/// as long as configured, a minute at least, and polls again, and any other ends.
pub proof fn law_course_of_a_run(settings: RunSettings, seconds: u64, ok: bool)
    ensures
        next(settings, Step::CreateClient, true) == Step::Backfill,
        next(settings, Step::CreateClient, false) == Step::ReportClientFailure,
        next(settings, Step::ReportClientFailure, ok) == Step::Exit,
        next(settings, Step::PrintStatus, ok) == Step::Exit,
        next(settings, Step::Exit, ok) == Step::Exit,
        next(settings, Step::Announce, ok) == Step::Poll,
        next(settings, Step::Sleep(seconds), ok) == Step::Poll,
        settings.command == Command::Run && settings.show_startup_notification ==> next(
            settings,
            Step::Backfill,
            ok,
        ) == Step::Announce,
        settings.command != Command::Run || !settings.show_startup_notification ==> next(
            settings,
            Step::Backfill,
            ok,
        ) == Step::Poll,
        settings.command != Command::Run ==> next(settings, Step::Poll, ok) == Step::Exit,
        settings.command == Command::Run && settings.polling_interval_seconds >= 60 ==> next(
            settings,
            Step::Poll,
            ok,
        ) == Step::Sleep(settings.polling_interval_seconds),
        settings.command == Command::Run && settings.polling_interval_seconds < 60 ==> next(
            settings,
            Step::Poll,
            ok,
        ) == Step::Sleep(60),
        settings.command == Command::Status ==> first(settings) == Step::PrintStatus,
        settings.command != Command::Status ==> first(settings) == Step::CreateClient,
{
}

/// A request for the status counts before any other, wherever it stands among the
/// arguments; then a request for a single poll; and other arguments change
/// nothing.
pub proof fn law_arguments(args: Seq<String>, i: int)
    requires
        0 <= i < args.len(),
    ensures
        args[i]@ == "--status"@ ==> command(args) == Command::Status,
        args[i]@ == "--once"@ || args[i]@ == "--refresh"@ ==> command(args) != Command::Run,
        args[i]@ != "--status"@ && args[i]@ != "--once"@ && args[i]@ != "--refresh"@ ==> command(
            args,
        ) == command(args.remove(i)),
{
    let rest = args.remove(i);
    assert forall|flag: Seq<char>| args[i]@ != flag implies #[trigger] given(args, flag) == given(
        rest,
        flag,
    ) by {
        if given(args, flag) {
            let k = choose|k: int| 0 <= k < args.len() && (#[trigger] args[k])@ == flag;
            if k < i {
                assert(rest[k] == args[k]);
            } else {
                assert(rest[k - 1] == args[k]);
            }
        }
        if given(rest, flag) {
            let k = choose|k: int| 0 <= k < rest.len() && (#[trigger] rest[k])@ == flag;
            if k < i {
                assert(args[k] == rest[k]);
            } else {
                assert(args[k + 1] == rest[k]);
            }
        }
    }
}

/// Whether a client is to be made once the configuration was read anew: where
/// there is none, as the last one could not be made, or where the configuration
/// now names another backend.
pub fn after_reload(has_client: bool, current: &Provider, configured: &Provider) -> (r: bool)
    ensures
        r == (!has_client || current.id() != configured.id()),
{
    !has_client || !same(current.name(), configured.name())
}

/// A notification.
#[derive(Debug)]
pub struct Notification {
    pub title: String,
    pub message: String,
}

/// A notification by its contents.
pub ghost struct NotificationView {
    pub title: Seq<char>,
    pub message: Seq<char>,
}

impl View for Notification {
    type V = NotificationView;

    open spec fn view(&self) -> NotificationView {
        NotificationView { title: self.title@, message: self.message@ }
    }
}

/// The notification of an optional notification.
pub open spec fn notification_of(n: Option<Notification>) -> Option<NotificationView> {
    match n {
        Some(notification) => Some(notification@),
        None => None,
    }
}

/// The notification that the meter is running.
pub fn announcement() -> (r: Notification)
    ensures
        r.title@ == "ZaiMeter"@,
        r.message@ == "Running in the macOS menu bar."@,
{
    Notification {
        title: "ZaiMeter".to_owned(),
        message: "Running in the macOS menu bar.".to_owned(),
    }
}

/// What is done about a failed fetch: the line for the log, and the hint to
/// notify, where there is one.
#[derive(Debug)]
pub struct FetchFailure {
    pub log_line: String,
    pub hint: Option<Notification>,
}

/// Decides what is done about a failed fetch. A missing credential, as opposed to
/// a transport or API failure, gets the backend's login hint as a notification,
/// unless that is switched off.
pub fn fetch_failure(error: &str, login_warning_enabled: bool, provider: &Provider) -> (r:
    FetchFailure)
    ensures
        r.log_line@ == "Usage poll failed: "@ + error@,
        r.hint is Some <==> login_warning_enabled && is_credential_failure(error@),
        r.hint is Some <==> login_warning_enabled && begins_with(error@, "[cred]"@),
        r.hint matches Some(hint) ==> hint.title@ == "ZaiMeter"@ && hint.message@
            == provider.hint(),
{
    let mut log_line = "Usage poll failed: ".to_owned();
    log_line.append(error);
    let hint = if login_warning_enabled && starts_with(error, "[cred]") {
        Some(Notification { title: "ZaiMeter".to_owned(), message: provider.login_hint() })
    } else {
        None
    };
    FetchFailure { log_line, hint }
}

/// The AppleScript that shows a notification.
pub open spec fn script(title: Seq<char>, message: Seq<char>) -> Seq<char> {
    "display notification \""@ + escaped(message) + "\" with title \""@ + escaped(title) + "\""@
}

/// The AppleScript that shows a notification.
pub fn notification_script(title: &str, message: &str) -> (r: String)
    ensures
        r@ == script(title@, message@),
        r@ == "display notification \""@ + escaped(message@) + "\" with title \""@ + escaped(
            title@,
        ) + "\""@,
{
    let mut r = "display notification \"".to_owned();
    let quoted_message = escape_applescript(message);
    r.append(quoted_message.as_str());
    r.append("\" with title \"");
    let quoted_title = escape_applescript(title);
    r.append(quoted_title.as_str());
    r.append("\"");
    r
}

/// Reads a quoted text up to its closing quote, a backslash standing for the
/// character after it; gives the text and what follows the quote.
pub open spec fn read_quoted(s: Seq<char>) -> Option<(Seq<char>, Seq<char>)>
    decreases s.len(),
{
    if s.len() == 0 {
        None
    } else if s[0] == '"' {
        Some((Seq::empty(), s.skip(1)))
    } else if s[0] == '\\' {
        if s.len() < 2 {
            None
        } else {
            match read_quoted(s.skip(2)) {
                Some((text, rest)) => Some((seq![s[1]] + text, rest)),
                None => None,
            }
        }
    } else {
        match read_quoted(s.skip(1)) {
            Some((text, rest)) => Some((seq![s[0]] + text, rest)),
            None => None,
        }
    }
}

/// An escaped text followed by a quote reads back as the text, whatever it holds:
/// nothing in it can end the quotation early.
pub proof fn law_escaped_text_reads_back(text: Seq<char>, rest: Seq<char>)
    ensures
        read_quoted(escaped(text) + seq!['"'] + rest) == Some((text, rest)),
    decreases text.len(),
{
    let s = escaped(text) + seq!['"'] + rest;
    if text.len() == 0 {
        assert(s.skip(1) =~= rest);
        assert(text =~= Seq::<char>::empty());
    } else {
        lemma_escaped_front(text);
        let c = text[0];
        let tail = text.skip(1);
        law_escaped_text_reads_back(tail, rest);
        let t = escaped(tail) + seq!['"'] + rest;
        assert(s =~= escaped_char(c) + t);
        if c == '\\' || c == '"' {
            assert(s.skip(2) =~= t);
        } else {
            assert(s.skip(1) =~= t);
        }
        assert(seq![c] + tail =~= text);
    }
}

/// The escaped text begins with the first character escaped.
proof fn lemma_escaped_front(text: Seq<char>)
    requires
        text.len() > 0,
    ensures
        escaped(text) == escaped_char(text[0]) + escaped(text.skip(1)),
    decreases text.len(),
{
    if text.len() == 1 {
        assert(text.drop_last() =~= Seq::<char>::empty());
        assert(text.skip(1) =~= Seq::<char>::empty());
        assert(escaped(text) =~= escaped_char(text[0]) + escaped(text.skip(1)));
    } else {
        let body = text.drop_last();
        lemma_escaped_front(body);
        let tail = text.skip(1);
        assert(tail.drop_last() =~= body.skip(1));
        assert(escaped(text) =~= escaped_char(text[0]) + escaped(tail));
    }
}

/// The script shows exactly the message and the title that it was made of: read
/// as AppleScript reads it, it gives both back.
pub proof fn law_script_shows_message_and_title(title: Seq<char>, message: Seq<char>)
    ensures
        ({
            let after_opening = script(title, message).skip("display notification \""@.len() as int);
            match read_quoted(after_opening) {
                Some((shown, rest)) => shown == message && read_quoted(
                    rest.skip(" with title \""@.len() as int),
                ) == Some((title, Seq::<char>::empty())),
                None => false,
            }
        }),
{
    reveal_strlit("display notification \"");
    reveal_strlit("\" with title \"");
    reveal_strlit(" with title \"");
    reveal_strlit("\"");
    let head = "display notification \""@;
    let quote = seq!['"'];
    let rest = " with title \""@ + escaped(title) + quote;
    assert("\" with title \""@ =~= quote + " with title \""@);
    assert("\""@ =~= quote);
    assert(script(title, message).skip(head.len() as int) =~= escaped(message) + quote + rest);
    law_escaped_text_reads_back(message, rest);
    let last = escaped(title) + quote + Seq::<char>::empty();
    assert(rest.skip(" with title \""@.len() as int) =~= last);
    law_escaped_text_reads_back(title, Seq::empty());
}

} // verus!
