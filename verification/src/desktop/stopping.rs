//! How a daemon is stopped: what is done next, given what came of the last thing that was done.
//!
//! To stop the daemon by its control channel is what restores the hosts file. One that crashed
//! leaves the file redirected, so every way of stopping ends with a look at it.

use vstd::prelude::*;
use vstd::string::*;

use crate::desktop::supervisor::{
    age, stopped_report, text_in, Answer, DaemonStatus, Report, Supervisor, Watch,
    STARTUP_GRACE_MILLIS,
};
use crate::text::{contains, occurs_at};

verus! {

/// How long the channel is tried before stopping is given up. It covers the small window between
/// the launcher's return and the daemon's binding of its control port.
pub const STOP_ATTEMPTS_MILLIS: u64 = 5_000;

/// How long a daemon that was stopped is waited for.
pub const SILENCE_MILLIS: u64 = 20_000;

/// How often the hosts file is looked at before it is restored. A daemon that shuts down restores
/// it a moment after its channel goes quiet.
pub const STRANDED_CHECKS: u32 = 20;

/// The pause between two attempts to stop.
pub const ATTEMPT_PAUSE_MILLIS: u64 = 250;

/// The pause between two questions whether the daemon is gone.
pub const SILENCE_PAUSE_MILLIS: u64 = 150;

/// The pause after a look at the hosts file.
pub const STRANDED_PAUSE_MILLIS: u64 = 250;

// ── Steps ────────────────────────────────────────────────────────────────────

/// How far stopping has come: what was asked for last. `known` says whether there was a daemon that
/// was told to stop.
#[derive(Debug, Clone, Copy, PartialEq, Eq, Structural)]
pub enum StopPhase {
    /// Nothing is being stopped.
    Idle,
    /// The channel's client is being made.
    Connecting,
    /// The channel is asked whether there is anything to stop.
    Probing,
    /// The daemon is told to stop.
    Telling { began: u64 },
    /// It is told again after a pause.
    TellingAgain { began: u64 },
    /// The channel is asked whether the daemon is gone.
    Quieting { began: u64 },
    /// It is asked again after a pause.
    QuietingAgain { began: u64 },
    /// A prompt that still waits for authorization is cancelled.
    Cancelling,
    /// The channel is asked one last time.
    Parting,
    /// The pairing on disk is forgotten.
    Forgetting { known: bool },
    /// The hosts file is looked at, after so many looks.
    Looking { checks: u32, known: bool },
    /// It is looked at again after a pause.
    LookingAgain { checks: u32, known: bool },
    /// The hosts file is restored.
    Restoring { known: bool },
    /// The status is found out.
    Reporting,
}

/// What the hosts file was found to be.
#[derive(Debug)]
pub enum HostsLook {
    Clean,
    Redirected,
    /// It cannot be read, for this reason.
    Unreadable(String),
}

/// What came of restoring the hosts file.
#[derive(Debug)]
pub enum Restored {
    Done,
    /// There is no log to write to, so that it was not tried.
    Skipped,
    Failed(String),
}

/// What came of the last thing that was done.
#[derive(Debug)]
pub enum StopEvent {
    /// Stopping begins.
    Begin,
    /// The channel's client was made.
    Connected,
    /// It could not be made.
    NoClient,
    /// The channel answered.
    Answered(Answer),
    /// The daemon took the word to stop, or it did not, for this reason.
    Told { failure: Option<String> },
    /// The pause is over.
    Paused,
    /// The prompt was cancelled.
    Cancelled,
    /// The pairing on disk was forgotten.
    Forgotten,
    /// The hosts file was looked at.
    Looked(HostsLook),
    /// The hosts file was restored, or was not.
    Restored(Restored),
    /// The status was found out.
    Found(DaemonStatus),
}

/// What is to be done next.
#[derive(Debug)]
pub enum StopAction {
    /// Make a client for the channel on this port.
    Connect { port: u16, token: String },
    /// Ask the channel.
    Probe,
    /// Tell the daemon to stop.
    Tell,
    /// Let this many milliseconds pass.
    Pause { millis: u64 },
    /// Cancel a prompt that still waits for authorization, if any.
    Cancel,
    /// Forget the pairing on disk.
    Forget,
    /// Look at the hosts file.
    Look,
    /// Restore the hosts file.
    Restore,
    /// Find out the status.
    FindStatus,
    /// Show this. Stopping is over.
    Report(DaemonStatus),
    /// Fail. Stopping is over.
    Abandon,
}

/// What is worth telling on the way.
#[derive(Debug)]
pub enum Remark {
    /// To be noted in the daemon's log.
    Note(String),
    /// To be warned of.
    Warning(String),
}

/// What is to be done next, and what is to be told before.
#[derive(Debug)]
pub struct StopStep {
    pub remark: Option<Remark>,
    pub action: StopAction,
}

// ── Model ────────────────────────────────────────────────────────────────────

/// What is to be done next.
pub ghost enum Act {
    Connect { port: u16, token: Seq<char> },
    Probe,
    Tell,
    Pause { millis: u64 },
    Cancel,
    Forget,
    Look,
    Restore,
    FindStatus,
    Report { report: Report },
    Abandon,
}

/// What is worth telling on the way.
pub ghost enum Word {
    Note { text: Seq<char> },
    Warning { text: Seq<char> },
}

/// What is to be done next, and what is to be told before.
pub ghost struct Move {
    pub word: Option<Word>,
    pub act: Act,
}

impl View for StopAction {
    type V = Act;

    open spec fn view(&self) -> Act {
        match *self {
            StopAction::Connect { port, token } => Act::Connect { port, token: token@ },
            StopAction::Probe => Act::Probe,
            StopAction::Tell => Act::Tell,
            StopAction::Pause { millis } => Act::Pause { millis },
            StopAction::Cancel => Act::Cancel,
            StopAction::Forget => Act::Forget,
            StopAction::Look => Act::Look,
            StopAction::Restore => Act::Restore,
            StopAction::FindStatus => Act::FindStatus,
            StopAction::Report(status) => Act::Report { report: status@ },
            StopAction::Abandon => Act::Abandon,
        }
    }
}

impl View for Remark {
    type V = Word;

    open spec fn view(&self) -> Word {
        match *self {
            Remark::Note(text) => Word::Note { text: text@ },
            Remark::Warning(text) => Word::Warning { text: text@ },
        }
    }
}

impl View for StopStep {
    type V = Move;

    open spec fn view(&self) -> Move {
        Move {
            word: match self.remark {
                Some(remark) => Some(remark@),
                None => None,
            },
            act: self.action@,
        }
    }
}

/// The last thing that is shown where the hosts file could not be restored.
pub open spec fn stranded_text(error: Seq<char>) -> Seq<char> {
    "the proxy is stopped, but your hosts file is still redirected and could not be restored ("@
        + error + ") — the IDE will not reach its endpoints until it is"@
}

/// The time that has passed.
pub open spec fn since(began: u64, now: u64) -> int {
    if now >= began {
        now - began
    } else {
        0
    }
}

/// The daemon may not be listening yet.
pub open spec fn coming_up(w: Watch, now: u64) -> bool {
    w.started is Some && age(w, now) < STARTUP_GRACE_MILLIS
}

/// Stopping goes on.
pub open spec fn go_on(w: Watch, phase: StopPhase, act: Act) -> (Watch, Move) {
    (Watch { phase, ..w }, Move { word: None, act })
}

/// Stopping goes on, with a word on what came before.
pub open spec fn telling(word: Word, m: (Watch, Move)) -> (Watch, Move) {
    (m.0, Move { word: Some(word), ..m.1 })
}

/// Stopping begins. Where no daemon is known of, which is exactly the state that a crashed one
/// leaves behind, only the hosts file is seen to.
pub open spec fn begin(w: Watch) -> (Watch, Move) {
    match w.session {
        Some((port, token)) => go_on(w, StopPhase::Connecting, Act::Connect { port, token }),
        None => look(w, 0, false),
    }
}

/// The daemon is told to stop.
pub open spec fn tell(w: Watch, began: u64) -> (Watch, Move) {
    go_on(w, StopPhase::Telling { began }, Act::Tell)
}

/// The hosts file is looked at.
pub open spec fn look(w: Watch, checks: u32, known: bool) -> (Watch, Move) {
    go_on(w, StopPhase::Looking { checks, known }, Act::Look)
}

/// The hosts file is seen to: what is left is to report, with the last failure, which is then
/// forgotten. Where there was a daemon its status is found out first.
pub open spec fn conclude(w: Watch, known: bool) -> (Watch, Move) {
    if known {
        go_on(w, StopPhase::Reporting, Act::FindStatus)
    } else {
        go_on(
            Watch { sticky: None, ..w },
            StopPhase::Idle,
            Act::Report { report: Report { detail: w.sticky, ..stopped_report() } },
        )
    }
}

/// The session and the launcher are over.
pub open spec fn parted(w: Watch) -> Watch {
    Watch { launching: false, session: None, started: None, ..w }
}

/// What follows from the channel's answer. The pairing is forgotten only where nothing is
/// listening: a lost token would leave a running daemon impossible to stop.
pub open spec fn on_answer(w: Watch, silent: bool, now: u64) -> (Watch, Move) {
    match w.phase {
        StopPhase::Probing => if silent {
            // The pairing is left over from an earlier run: there is nothing to stop.
            go_on(
                Watch { session: None, ..w },
                StopPhase::Forgetting { known: false },
                Act::Forget,
            )
        } else {
            tell(w, now)
        },
        StopPhase::Quieting { began } => if silent {
            go_on(w, StopPhase::Cancelling, Act::Cancel)
        } else {
            go_on(
                w,
                StopPhase::QuietingAgain { began },
                Act::Pause { millis: SILENCE_PAUSE_MILLIS },
            )
        },
        StopPhase::Parting => if silent {
            go_on(parted(w), StopPhase::Forgetting { known: true }, Act::Forget)
        } else {
            look(parted(w), 0, true)
        },
        _ => go_on(w, StopPhase::Idle, Act::Abandon),
    }
}

/// What follows from a pause.
pub open spec fn on_pause(w: Watch, now: u64) -> (Watch, Move) {
    match w.phase {
        StopPhase::TellingAgain { began } => tell(w, began),
        StopPhase::QuietingAgain { began } => if since(began, now) < SILENCE_MILLIS {
            go_on(w, StopPhase::Quieting { began }, Act::Probe)
        } else {
            go_on(w, StopPhase::Cancelling, Act::Cancel)
        },
        StopPhase::LookingAgain { checks, known } => if checks + 1 < STRANDED_CHECKS {
            look(w, (checks + 1) as u32, known)
        } else {
            telling(
                Word::Note {
                    text:
                        "the daemon went away without restoring the hosts file; restoring it now"@,
                },
                go_on(w, StopPhase::Restoring { known }, Act::Restore),
            )
        },
        _ => go_on(w, StopPhase::Idle, Act::Abandon),
    }
}

/// What follows from an attempt to stop.
pub open spec fn on_told(w: Watch, began: u64, failure: Option<Seq<char>>, now: u64) -> (
    Watch,
    Move,
) {
    match failure {
        None => go_on(w, StopPhase::Quieting { began: now }, Act::Probe),
        Some(error) => if since(began, now) < STOP_ATTEMPTS_MILLIS {
            go_on(
                w,
                StopPhase::TellingAgain { began },
                Act::Pause { millis: ATTEMPT_PAUSE_MILLIS },
            )
        } else {
            telling(
                Word::Note { text: "stop failed: "@ + error },
                go_on(
                    Watch { sticky: Some(error), ..w },
                    StopPhase::Cancelling,
                    Act::Cancel,
                ),
            )
        },
    }
}

/// What follows from a look at the hosts file.
pub open spec fn on_look(w: Watch, checks: u32, known: bool, look: HostsLook) -> (Watch, Move) {
    match look {
        HostsLook::Clean => conclude(w, known),
        HostsLook::Redirected => go_on(
            w,
            StopPhase::LookingAgain { checks, known },
            Act::Pause { millis: STRANDED_PAUSE_MILLIS },
        ),
        HostsLook::Unreadable(error) => telling(
            Word::Warning { text: "cannot read the hosts file: "@ + error@ },
            conclude(w, known),
        ),
    }
}

/// What follows from restoring the hosts file.
pub open spec fn on_restored(w: Watch, known: bool, restored: Restored) -> (Watch, Move) {
    match restored {
        Restored::Done => telling(
            Word::Note { text: "hosts file restored"@ },
            conclude(w, known),
        ),
        Restored::Skipped => conclude(w, known),
        Restored::Failed(error) => telling(
            Word::Note { text: "failed to restore the hosts file: "@ + error@ },
            conclude(Watch { sticky: Some(stranded_text(error@)), ..w }, known),
        ),
    }
}

/// What follows from an event. One that does not answer what was asked for ends it all.
pub open spec fn after_stop(w: Watch, event: StopEvent, now: u64) -> (Watch, Move) {
    match (event, w.phase) {
        (StopEvent::Begin, _) => begin(w),
        (StopEvent::Connected, StopPhase::Connecting) => if coming_up(w, now) {
            tell(w, now)
        } else {
            go_on(w, StopPhase::Probing, Act::Probe)
        },
        (StopEvent::Answered(answer), _) => on_answer(w, answer is Silence, now),
        (StopEvent::Told { failure }, StopPhase::Telling { began }) => on_told(
            w,
            began,
            text_in(failure),
            now,
        ),
        (StopEvent::Paused, _) => on_pause(w, now),
        (StopEvent::Cancelled, StopPhase::Cancelling) => go_on(w, StopPhase::Parting, Act::Probe),
        (StopEvent::Forgotten, StopPhase::Forgetting { known }) => look(w, 0, known),
        (StopEvent::Looked(found), StopPhase::Looking { checks, known }) => on_look(
            w,
            checks,
            known,
            found,
        ),
        (StopEvent::Restored(restored), StopPhase::Restoring { known }) => on_restored(
            w,
            known,
            restored,
        ),
        (StopEvent::Found(status), StopPhase::Reporting) => go_on(
            Watch { sticky: None, ..w },
            StopPhase::Idle,
            Act::Report {
                report: match w.sticky {
                    Some(detail) => Report { detail: Some(detail), ..status@ },
                    None => status@,
                },
            },
        ),
        _ => go_on(w, StopPhase::Idle, Act::Abandon),
    }
}

// ── Laws ─────────────────────────────────────────────────────────────────────

/// One stop from its beginning on: the watch before each event, and the events with their times.
/// Between two events the watch may change in all but how far stopping has come.
pub open spec fn is_run(before: Seq<Watch>, events: Seq<(StopEvent, u64)>) -> bool {
    &&& before.len() == events.len()
    &&& events.len() > 0
    &&& events[0].0 is Begin
    &&& forall|i: int|
        0 < i < events.len() ==> !((#[trigger] events[i]).0 is Begin) && before[i].phase
            == moved(before, events, i - 1).0.phase
}

/// What follows from the event at `i`.
pub open spec fn moved(before: Seq<Watch>, events: Seq<(StopEvent, u64)>, i: int) -> (Watch, Move) {
    after_stop(before[i], events[i].0, events[i].1)
}

/// What is done after the event at `i`.
pub open spec fn act_at(before: Seq<Watch>, events: Seq<(StopEvent, u64)>, i: int) -> Act {
    moved(before, events, i).1.act
}

/// How often the hosts file is looked at after the first `n` events.
pub open spec fn looks(before: Seq<Watch>, events: Seq<(StopEvent, u64)>, n: nat) -> nat
    decreases n,
{
    if n == 0 {
        0
    } else if act_at(before, events, n - 1) is Look {
        looks(before, events, (n - 1) as nat) + 1
    } else {
        looks(before, events, (n - 1) as nat)
    }
}

/// The hosts file was seen to: it was found clean or cannot be read, or restoring it was tried.
pub open spec fn sees_to_hosts(event: StopEvent) -> bool {
    match event {
        StopEvent::Looked(found) => !(found is Redirected),
        StopEvent::Restored(_) => true,
        _ => false,
    }
}

/// What holds after the event at `i`.
spec fn on_track(before: Seq<Watch>, events: Seq<(StopEvent, u64)>, i: int) -> bool {
    let n = looks(before, events, (i + 1) as nat);
    match moved(before, events, i).0.phase {
        StopPhase::Looking { checks, .. } => n == checks + 1 && checks < STRANDED_CHECKS,
        StopPhase::LookingAgain { checks, .. } => n == checks + 1 && checks < STRANDED_CHECKS,
        StopPhase::Restoring { .. } => n == STRANDED_CHECKS,
        StopPhase::Reporting => 0 < n <= STRANDED_CHECKS && exists|j: int|
            0 < j <= i && sees_to_hosts(#[trigger] events[j].0),
        StopPhase::Idle => n <= STRANDED_CHECKS,
        _ => n == 0,
    }
}

proof fn lemma_on_track(before: Seq<Watch>, events: Seq<(StopEvent, u64)>, i: int)
    requires
        is_run(before, events),
        0 <= i < events.len(),
    ensures
        on_track(before, events, i),
    decreases i,
{
    reveal_with_fuel(looks, 2);
    if i > 0 {
        lemma_on_track(before, events, i - 1);
        let w = before[i];
        let e = events[i].0;
        assert(!(e is Begin));
        assert(w.phase == moved(before, events, i - 1).0.phase);
        if moved(before, events, i).0.phase is Reporting && !(e is Restored) {
            assert(sees_to_hosts(events[i].0));
        }
    }
}

/// Every stop looks at the hosts file before it reports, and sees to it: it finds the file clean or
/// unreadable, or tries to restore it.
pub proof fn law_stopping_sees_to_the_hosts_file(
    before: Seq<Watch>,
    events: Seq<(StopEvent, u64)>,
    i: int,
)
    requires
        is_run(before, events),
        0 <= i < events.len(),
        act_at(before, events, i) is Report,
    ensures
        looks(before, events, i as nat) > 0,
        exists|j: int| 0 < j <= i && sees_to_hosts(#[trigger] events[j].0),
{
    if i > 0 {
        lemma_on_track(before, events, i - 1);
        if !(before[i].phase is Reporting) {
            assert(sees_to_hosts(events[i].0));
        }
    }
}

/// The hosts file is never looked at more often than there is patience for, and is restored only
/// after it was looked at as often as that, and after the last of the pauses.
pub proof fn law_restoring_takes_patience(
    before: Seq<Watch>,
    events: Seq<(StopEvent, u64)>,
    i: int,
)
    requires
        is_run(before, events),
        0 <= i < events.len(),
    ensures
        looks(before, events, (i + 1) as nat) <= STRANDED_CHECKS,
        act_at(before, events, i) is Restore ==> looks(before, events, i as nat)
            == STRANDED_CHECKS && events[i].0 is Paused,
{
    lemma_on_track(before, events, i);
    reveal_with_fuel(looks, 2);
    if i > 0 {
        lemma_on_track(before, events, i - 1);
    }
}

/// The pairing on disk is forgotten only right after the channel was silent: a lost token would
/// leave a running daemon impossible to stop.
pub proof fn law_pairing_is_forgotten_only_after_silence(w: Watch, event: StopEvent, now: u64)
    requires
        after_stop(w, event, now).1.act is Forget,
    ensures
        match event {
            StopEvent::Answered(answer) => answer is Silence,
            _ => false,
        },
{
}

/// A daemon that did not take the word is told again after a pause, as long as time is not up.
pub proof fn law_the_daemon_is_told_until_time_is_up(
    w: Watch,
    began: u64,
    error: String,
    now: u64,
)
    requires
        w.phase == (StopPhase::Telling { began }),
        since(began, now) < STOP_ATTEMPTS_MILLIS,
    ensures
        ({
            let (w1, m) = after_stop(w, StopEvent::Told { failure: Some(error) }, now);
            &&& m.act is Pause
            &&& forall|later: u64|
                (#[trigger] after_stop(w1, StopEvent::Paused, later)) == (w, Move {
                    word: None,
                    act: Act::Tell,
                })
        }),
{
}

/// Stopping begins at the channel that is known of, with its own token; without one only the hosts
/// file is looked at. A channel that may still be coming up is told at once, any other is first asked.
pub proof fn law_stopping_begins_at_the_channel(
    beginning: &mut Supervisor,
    x: StopStep,
    connected: &mut Supervisor,
    now: u64,
    y: StopStep,
)
    requires
        call_ensures(Supervisor::stop_next, (beginning, StopEvent::Begin, now), x),
        old(connected)@.phase is Connecting,
        call_ensures(Supervisor::stop_next, (connected, StopEvent::Connected, now), y),
    ensures
        match old(beginning)@.session {
            Some((port, token)) => x.action@ == (Act::Connect { port, token }),
            None => x.action is Look,
        },
        final(beginning)@.session == old(beginning)@.session,
        final(beginning)@.sticky == old(beginning)@.sticky,
        old(connected)@.started is Some && now < old(connected)@.started->0 + 30_000
            ==> y.action is Tell,
        old(connected)@.started is None || now >= old(connected)@.started->0 + 30_000
            ==> y.action is Probe,
{
}

/// A daemon that took the word is watched until it is silent or twenty seconds have passed; one that
/// never took it within five seconds is given up on, for the reason that it gave.
pub proof fn law_a_daemon_is_watched_until_it_is_gone(
    taken: &mut Supervisor,
    a: StopStep,
    refused: &mut Supervisor,
    error: String,
    b: StopStep,
    asked: &mut Supervisor,
    answer: Answer,
    c: StopStep,
    waited: &mut Supervisor,
    d: StopStep,
    began: u64,
    now: u64,
)
    requires
        old(taken)@.phase == (StopPhase::Telling { began }),
        call_ensures(
            Supervisor::stop_next,
            (taken, StopEvent::Told { failure: None }, now),
            a,
        ),
        old(refused)@.phase == (StopPhase::Telling { began }),
        call_ensures(
            Supervisor::stop_next,
            (refused, StopEvent::Told { failure: Some(error) }, now),
            b,
        ),
        old(asked)@.phase == (StopPhase::Quieting { began }),
        call_ensures(Supervisor::stop_next, (asked, StopEvent::Answered(answer), now), c),
        old(waited)@.phase == (StopPhase::QuietingAgain { began }),
        call_ensures(Supervisor::stop_next, (waited, StopEvent::Paused, now), d),
    ensures
        a.action is Probe,
        final(taken)@.phase == (StopPhase::Quieting { began: now }),
        now >= began + 5_000 ==> b.action is Cancel && final(refused)@.sticky == Some(error@),
        now < began + 5_000 ==> b.action == (StopAction::Pause { millis: 250 })
            && final(refused)@.sticky == old(refused)@.sticky,
        answer is Silence ==> c.action is Cancel,
        !(answer is Silence) ==> c.action == (StopAction::Pause { millis: 150 })
            && final(asked)@.phase == (StopPhase::QuietingAgain { began }),
        now < began + 20_000 ==> d.action is Probe && final(waited)@.phase == (
        StopPhase::Quieting { began }),
        now >= began + 20_000 ==> d.action is Cancel,
{
}

/// After the prompt is cancelled the channel is asked one last time. The session is over either way;
/// the pairing is forgotten where nothing listens, and the hosts file is looked at.
pub proof fn law_parting_ends_the_session(
    cancelled: &mut Supervisor,
    a: StopStep,
    parting: &mut Supervisor,
    answer: Answer,
    b: StopStep,
    forgotten: &mut Supervisor,
    known: bool,
    c: StopStep,
    stale: &mut Supervisor,
    d: StopStep,
    now: u64,
)
    requires
        old(cancelled)@.phase is Cancelling,
        call_ensures(Supervisor::stop_next, (cancelled, StopEvent::Cancelled, now), a),
        old(parting)@.phase is Parting,
        call_ensures(Supervisor::stop_next, (parting, StopEvent::Answered(answer), now), b),
        old(forgotten)@.phase == (StopPhase::Forgetting { known }),
        call_ensures(Supervisor::stop_next, (forgotten, StopEvent::Forgotten, now), c),
        old(stale)@.phase is Probing,
        call_ensures(Supervisor::stop_next, (stale, StopEvent::Answered(answer), now), d),
    ensures
        a.action is Probe,
        final(cancelled)@.phase is Parting,
        final(parting)@.session is None,
        final(parting)@.started is None,
        !final(parting)@.launching,
        answer is Silence ==> b.action is Forget,
        !(answer is Silence) ==> b.action is Look,
        c.action is Look,
        final(forgotten)@.phase == (StopPhase::Looking { checks: 0, known }),
        answer is Silence ==> d.action is Forget && final(stale)@.session is None,
        !(answer is Silence) ==> d.action is Tell && final(stale)@.session == old(stale)@.session,
{
}

/// A hosts file that is clean, or cannot be read, ends the matter; one that is still redirected is
/// looked at again, twenty times in all, and is then restored. A failure to restore it is what is
/// shown in the end.
pub proof fn law_the_hosts_file_is_seen_to(
    looking: &mut Supervisor,
    found: HostsLook,
    a: StopStep,
    again: &mut Supervisor,
    b: StopStep,
    restoring: &mut Supervisor,
    restored: Restored,
    c: StopStep,
    checks: u32,
    known: bool,
    now: u64,
)
    requires
        old(looking)@.phase == (StopPhase::Looking { checks, known }),
        call_ensures(Supervisor::stop_next, (looking, StopEvent::Looked(found), now), a),
        old(again)@.phase == (StopPhase::LookingAgain { checks, known }),
        call_ensures(Supervisor::stop_next, (again, StopEvent::Paused, now), b),
        old(restoring)@.phase == (StopPhase::Restoring { known }),
        call_ensures(Supervisor::stop_next, (restoring, StopEvent::Restored(restored), now), c),
    ensures
        found is Redirected ==> a.action == (StopAction::Pause { millis: 250 })
            && final(looking)@.phase == (StopPhase::LookingAgain { checks, known }),
        !(found is Redirected) ==> if known {
            a.action is FindStatus
        } else {
            a.action is Report && a.action->Report_0@ == (Report {
                state: "stopped"@,
                pid: None,
                port: None,
                detail: old(looking)@.sticky,
            })
        },
        checks < 19 ==> b.action is Look && final(again)@.phase == (StopPhase::Looking {
            checks: (checks + 1) as u32,
            known,
        }),
        checks >= 19 ==> b.action is Restore,
        known ==> c.action is FindStatus,
        !known ==> c.action is Report,
        match restored {
            Restored::Failed(error) => {
                let shown = if known {
                    final(restoring)@.sticky
                } else {
                    c.action->Report_0@.detail
                };
                shown is Some && contains(shown->0, error@)
            },
            _ => if known {
                final(restoring)@.sticky == old(restoring)@.sticky
            } else {
                c.action->Report_0@.detail == old(restoring)@.sticky
            },
        },
{
    if let Restored::Failed(error) = restored {
        let front =
            "the proxy is stopped, but your hosts file is still redirected and could not be restored ("@;
        let back = ") — the IDE will not reach its endpoints until it is"@;
        let text = front + error@ + back;
        assert(text == stranded_text(error@));
        let end = (front.len() + error@.len()) as int;
        assert(text.subrange(front.len() as int, end) =~= error@);
        assert(occurs_at(text, error@, front.len() as int));
    }
}

/// What is shown in the end is the status that was found, with the last failure, which is shown only
/// once.
pub proof fn law_the_last_failure_is_shown_once(
    s: &mut Supervisor,
    status: DaemonStatus,
    r: StopStep,
    now: u64,
)
    requires
        old(s)@.phase is Reporting,
        call_ensures(Supervisor::stop_next, (s, StopEvent::Found(status), now), r),
    ensures
        r.action is Report,
        r.action->Report_0@.state == status@.state,
        r.action->Report_0@.pid == status@.pid,
        r.action->Report_0@.port == status@.port,
        r.action->Report_0@.detail == if old(s)@.sticky is Some {
            old(s)@.sticky
        } else {
            status@.detail
        },
        final(s)@.sticky is None,
        final(s)@.phase is Idle,
{
}

} // verus!
