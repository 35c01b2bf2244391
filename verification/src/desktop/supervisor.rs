//! Supervising the privileged daemon: what is known of it, and what to do next.
//!
//! The supervisor asks for one observation at a time (the launcher's exit, an answer of the control
//! channel, the end of the log) and says what follows from it. Times are milliseconds of a clock
//! that does not go back.

use vstd::prelude::*;
use vstd::string::*;

use crate::appconfig::AppConfig;
use crate::desktop::stopping::{
    after_stop, begin, conclude, go_on, look, on_answer, on_pause, on_told, since, tell, Act,
    HostsLook, Move, Remark, Restored, StopAction, StopEvent, StopPhase, StopStep,
    ATTEMPT_PAUSE_MILLIS, SILENCE_MILLIS, SILENCE_PAUSE_MILLIS, STOP_ATTEMPTS_MILLIS,
    STRANDED_CHECKS, STRANDED_PAUSE_MILLIS,
};
use crate::error::Error;
use crate::text::{contains, decimal, numeral, occurs_at, same};

verus! {

/// How long the daemon may take to come up before a silent channel is called a failure.
pub const STARTUP_GRACE_MILLIS: u64 = 30_000;

// ── Model ────────────────────────────────────────────────────────────────────

/// What is known of the daemon.
pub ghost struct Watch {
    /// The elevation prompt is still open.
    pub launching: bool,
    /// Port and token of the daemon's control channel.
    pub session: Option<(u16, Seq<char>)>,
    pub started: Option<u64>,
    /// The channel has answered since the last start.
    pub ready: bool,
    /// The last failure worth showing.
    pub sticky: Option<Seq<char>>,
    /// How far stopping has come.
    pub phase: StopPhase,
}

/// What is shown of the daemon.
pub ghost struct Report {
    pub state: Seq<char>,
    pub pid: Option<u32>,
    pub port: Option<u16>,
    pub detail: Option<Seq<char>>,
}

/// No daemon is up.
pub open spec fn stopped_report() -> Report {
    Report { state: "stopped"@, pid: None, port: None, detail: None }
}

/// The daemon failed.
pub open spec fn failed_report(port: Option<u16>, detail: Seq<char>) -> Report {
    Report { state: "failed"@, pid: None, port, detail: Some(detail) }
}

/// The daemon has yet to come up.
pub open spec fn starting_report(port: u16) -> Report {
    Report {
        state: "starting"@,
        pid: None,
        port: Some(port),
        detail: Some("waiting for the system authorization prompt and daemon startup…"@),
    }
}

/// The daemon is up.
pub open spec fn running_report(port: u16, pid: u32) -> Report {
    Report { state: "running"@, pid: Some(pid), port: Some(port), detail: None }
}

/// A text and, where there is any, the end of the log.
pub open spec fn with_tail(text: Seq<char>, between: Seq<char>, tail: Seq<char>) -> Seq<char> {
    if tail.len() == 0 {
        text
    } else {
        text + between + tail
    }
}

/// What is shown where there is no session.
pub open spec fn idle_report(w: Watch) -> Report {
    match w.sticky {
        Some(detail) => failed_report(None, detail),
        None => stopped_report(),
    }
}

/// What is to be done next.
pub ghost enum Next {
    /// Show this, and note that.
    Settled { report: Report, remark: Option<Seq<char>> },
    /// Ask the control channel.
    Probe { port: u16, token: Seq<char> },
    /// Note this, read the end of the log, and come back with it.
    Explain { note: Seq<char>, doubt: Question },
}

/// What has to be explained by the log.
pub ghost enum Question {
    Refused { exit: Seq<char> },
    Silent,
    Broken { error: Seq<char> },
}

/// What follows from the launcher's state.
pub open spec fn after_launcher(w: Watch, check: LauncherCheck) -> (Watch, Next) {
    let reaped = Watch { launching: false, ..w };
    match check {
        LauncherCheck::Exited { success, exit } => if w.launching && !success && !w.ready {
            (
                reaped,
                Next::Explain {
                    note: "start failed: the elevation launcher exited "@ + exit@
                        + " — the authorization prompt was refused, or the daemon died before it could serve its control channel"@,
                    doubt: Question::Refused { exit: exit@ },
                },
            )
        } else {
            (reaped, from_session(reaped))
        },
        LauncherCheck::Running => (w, from_session(w)),
        LauncherCheck::Unknown => (reaped, from_session(reaped)),
    }
}

/// The channel of the session is asked, if there is a session.
pub open spec fn from_session(w: Watch) -> Next {
    match w.session {
        Some((port, token)) => Next::Probe { port, token },
        None => Next::Settled { report: idle_report(w), remark: None },
    }
}

/// How long ago the daemon was started.
pub open spec fn age(w: Watch, now: u64) -> int {
    match w.started {
        Some(t) => if now >= t {
            now - t
        } else {
            0
        },
        None => 0,
    }
}

/// What follows from the answer of the control channel on this port.
pub open spec fn after_probe(w: Watch, port: u16, answer: Answer, now: u64) -> (Watch, Next) {
    match answer {
        Answer::Pid(pid) => (
            Watch { ready: true, ..w },
            Next::Settled {
                report: running_report(port, pid),
                remark: if w.ready {
                    None
                } else {
                    Some(
                        "daemon ready: pid "@ + decimal(pid as nat) + " answering on 127.0.0.1:"@
                            + decimal(port as nat),
                    )
                },
            },
        ),
        Answer::Silence => (
            w,
            if age(w, now) > STARTUP_GRACE_MILLIS && !w.ready {
                Next::Explain {
                    note: "start failed: nothing answered 127.0.0.1:"@ + decimal(port as nat)
                        + " within 30s — the daemon exited during startup (its own error is above) or never got past the authorization prompt"@,
                    doubt: Question::Silent,
                }
            } else {
                Next::Settled { report: starting_report(port), remark: None }
            },
        ),
        Answer::Failure(error) => (
            w,
            Next::Explain {
                note: "start failed: "@ + error@,
                doubt: Question::Broken { error: error@ },
            },
        ),
    }
}

/// What follows from the end of the log: what is known, what is shown, and whether the pairing on
/// disk is to be forgotten.
pub open spec fn after_log(w: Watch, question: Question, tail: Seq<char>) -> (Watch, Report, bool) {
    match question {
        Question::Refused { exit } => {
            let text = with_tail(
                "authorization was refused or the daemon failed to start (launcher exit "@ + exit
                    + ")"@,
                ":\n"@,
                tail,
            );
            (
                Watch { session: None, sticky: Some(text), ..w },
                failed_report(None, text),
                true,
            )
        },
        Question::Silent => (
            Watch { session: None, ..w },
            failed_report(
                None,
                with_tail("the daemon never answered its control channel"@, ":\n"@, tail),
            ),
            true,
        ),
        Question::Broken { error } => (
            Watch { sticky: Some(error), ..w },
            failed_report(
                match w.session {
                    Some((port, _)) => Some(port),
                    None => None,
                },
                with_tail(error, "\n"@, tail),
            ),
            false,
        ),
    }
}

// ── Observations and answers ─────────────────────────────────────────────────

/// What is shown of the daemon. A flat shape, so that a frontend stays a switch on `state`.
#[derive(Debug)]
pub struct DaemonStatus {
    /// `stopped` | `starting` | `running` | `failed`
    pub state: &'static str,
    pub pid: Option<u32>,
    pub control_port: Option<u16>,
    /// Human-readable explanation for `starting`/`failed`.
    pub detail: Option<String>,
}

/// The text that an option holds.
pub open spec fn text_in(o: Option<String>) -> Option<Seq<char>> {
    match o {
        Some(s) => Some(s@),
        None => None,
    }
}

impl View for DaemonStatus {
    type V = Report;

    open spec fn view(&self) -> Report {
        Report {
            state: self.state@,
            pid: self.pid,
            port: self.control_port,
            detail: text_in(self.detail),
        }
    }
}

impl DaemonStatus {
    /// No daemon is up.
    pub fn stopped() -> (r: Self)
        ensures
            r@ == stopped_report(),
    {
        DaemonStatus { state: "stopped", pid: None, control_port: None, detail: None }
    }

    /// The daemon failed.
    fn failed(control_port: Option<u16>, detail: String) -> (r: Self)
        ensures
            r@ == failed_report(control_port, detail@),
    {
        DaemonStatus { state: "failed", pid: None, control_port, detail: Some(detail) }
    }

    /// The channel's client could not be made.
    pub fn no_client(control_port: u16) -> (r: Self)
        ensures
            r@ == failed_report(
                Some(control_port),
                "cannot build the control-channel client"@,
            ),
    {
        DaemonStatus::failed(
            Some(control_port),
            "cannot build the control-channel client".to_string(),
        )
    }
}

/// What the launcher is found to be.
#[derive(Debug)]
pub enum LauncherCheck {
    /// It is still there, or there is none.
    Running,
    /// It exited; `exit` is its exit status in words.
    Exited { success: bool, exit: String },
    /// It could not be asked.
    Unknown,
}

/// What the control channel answered.
#[derive(Debug)]
pub enum Answer {
    /// The daemon is up, as this process.
    Pid(u32),
    /// Nothing is listening.
    Silence,
    /// Something else is listening, or the request failed.
    Failure(String),
}

/// What has to be explained by the log.
#[derive(Debug)]
pub enum Doubt {
    Refused { exit: String },
    Silent,
    Broken { error: String },
}

impl View for Doubt {
    type V = Question;

    open spec fn view(&self) -> Question {
        match *self {
            Doubt::Refused { exit } => Question::Refused { exit: exit@ },
            Doubt::Silent => Question::Silent,
            Doubt::Broken { error } => Question::Broken { error: error@ },
        }
    }
}

/// What is to be done next.
#[derive(Debug)]
pub enum Step {
    /// Show this, and note that.
    Settled { status: DaemonStatus, remark: Option<String> },
    /// Ask the control channel.
    Probe { port: u16, token: String },
    /// Note this, read the end of the log, and come back with it.
    Explain { note: String, doubt: Doubt },
}

impl View for Step {
    type V = Next;

    open spec fn view(&self) -> Next {
        match *self {
            Step::Settled { status, remark } => Next::Settled {
                report: status@,
                remark: text_in(remark),
            },
            Step::Probe { port, token } => Next::Probe { port, token: token@ },
            Step::Explain { note, doubt } => Next::Explain { note: note@, doubt: doubt@ },
        }
    }
}

/// Port and token of a daemon's control channel.
#[derive(Debug)]
pub struct Session {
    pub control_port: u16,
    pub token: String,
}

/// What an explanation comes to.
#[derive(Debug)]
pub struct Explained {
    pub status: DaemonStatus,
    /// The pairing on disk is to be forgotten.
    pub forget: bool,
}

// ── Supervisor ───────────────────────────────────────────────────────────────

#[derive(Debug)]
pub struct Supervisor {
    /// The elevation prompt is still open. Once it is closed, liveness is the control channel's
    /// answer.
    launching: bool,
    session: Option<Session>,
    started_at: Option<u64>,
    /// Set once the control channel has answered for the current session; distinguishes "still
    /// coming up" from "never came up".
    ever_ready: bool,
    /// Last failure worth showing the user, kept until the next start.
    sticky_error: Option<String>,
    phase: StopPhase,
}

impl View for Supervisor {
    type V = Watch;

    closed spec fn view(&self) -> Watch {
        Watch {
            launching: self.launching,
            session: match self.session {
                Some(s) => Some((s.control_port, s.token@)),
                None => None,
            },
            started: self.started_at,
            ready: self.ever_ready,
            sticky: text_in(self.sticky_error),
            phase: self.phase,
        }
    }
}

/// A text and, where there is any, the end of the log.
fn tailed(text: &str, between: &str, tail: &str) -> (r: String)
    ensures
        r@ == with_tail(text@, between@, tail@),
{
    let mut r = text.to_string();
    if !tail.is_empty() {
        r.push_str(between);
        r.push_str(tail);
    }
    r
}

impl Supervisor {
    /// Re-attach to a daemon recorded by an earlier run, if any.
    pub fn load(session: Option<Session>) -> (r: Self)
        ensures
            r@ == (Watch {
                launching: false,
                session: match session {
                    Some(s) => Some((s.control_port, s.token@)),
                    None => None,
                },
                started: None,
                ready: false,
                sticky: None,
                phase: StopPhase::Idle,
            }),
    {
        Supervisor {
            launching: false,
            session,
            started_at: None,
            ever_ready: false,
            sticky_error: None,
            phase: StopPhase::Idle,
        }
    }

    /// A daemon was launched.
    pub fn launched(&mut self, session: Session, now: u64)
        ensures
            final(self)@ == (Watch {
                launching: true,
                session: Some((session.control_port, session.token@)),
                started: Some(now),
                ready: false,
                sticky: None,
                phase: StopPhase::Idle,
            }),
    {
        self.launching = true;
        self.session = Some(session);
        self.started_at = Some(now);
        self.ever_ready = false;
        self.sticky_error = None;
        self.phase = StopPhase::Idle;
    }

    /// The channel of the session is asked, if there is a session.
    fn next(&self) -> (r: Step)
        ensures
            r@ == from_session(self@),
    {
        match &self.session {
            Some(s) => Step::Probe { port: s.control_port, token: s.token.clone() },
            None => {
                let status = match &self.sticky_error {
                    Some(detail) => DaemonStatus::failed(None, detail.clone()),
                    None => DaemonStatus::stopped(),
                };
                Step::Settled { status, remark: None }
            },
        }
    }

    /// Begin to find out the status, from the launcher's state.
    pub fn status(&mut self, launcher: &LauncherCheck) -> (r: Step)
        ensures
            (final(self)@, r@) == after_launcher(old(self)@, *launcher),
    {
        match launcher {
            LauncherCheck::Exited { success, exit } => {
                let was_launching = self.launching;
                self.launching = false;
                if was_launching && !*success && !self.ever_ready {
                    let mut note = "start failed: the elevation launcher exited ".to_string();
                    note.push_str(exit.as_str());
                    note.push_str(
                        " — the authorization prompt was refused, or the daemon died before it could serve its control channel",
                    );
                    return Step::Explain { note, doubt: Doubt::Refused { exit: exit.clone() } };
                }
            },
            LauncherCheck::Running => {},
            LauncherCheck::Unknown => {
                self.launching = false;
            },
        }
        self.next()
    }

    /// Go on from the answer of the control channel on this port.
    pub fn probed(&mut self, port: u16, answer: &Answer, now: u64) -> (r: Step)
        ensures
            (final(self)@, r@) == after_probe(old(self)@, port, *answer, now),
    {
        match answer {
            Answer::Pid(pid) => {
                let remark = if self.ever_ready {
                    None
                } else {
                    let mut text = "daemon ready: pid ".to_string();
                    text.push_str(numeral(*pid as u64).as_str());
                    text.push_str(" answering on 127.0.0.1:");
                    text.push_str(numeral(port as u64).as_str());
                    Some(text)
                };
                self.ever_ready = true;
                let status = DaemonStatus {
                    state: "running",
                    pid: Some(*pid),
                    control_port: Some(port),
                    detail: None,
                };
                Step::Settled { status, remark }
            },
            Answer::Silence => {
                let age: u64 = match self.started_at {
                    Some(t) => if now >= t {
                        now - t
                    } else {
                        0
                    },
                    None => 0,
                };
                if age > STARTUP_GRACE_MILLIS && !self.ever_ready {
                    // Silent past the grace window and nothing is listening: the pairing is stale.
                    let mut note = "start failed: nothing answered 127.0.0.1:".to_string();
                    note.push_str(numeral(port as u64).as_str());
                    note.push_str(
                        " within 30s — the daemon exited during startup (its own error is above) or never got past the authorization prompt",
                    );
                    Step::Explain { note, doubt: Doubt::Silent }
                } else {
                    let status = DaemonStatus {
                        state: "starting",
                        pid: None,
                        control_port: Some(port),
                        detail: Some(
                            "waiting for the system authorization prompt and daemon startup…".to_string(),
                        ),
                    };
                    Step::Settled { status, remark: None }
                }
            },
            Answer::Failure(error) => {
                let mut note = "start failed: ".to_string();
                note.push_str(error.as_str());
                Step::Explain { note, doubt: Doubt::Broken { error: error.clone() } }
            },
        }
    }

    /// Conclude from the end of the log, its last lines joined.
    pub fn explained(&mut self, doubt: &Doubt, tail: &str) -> (r: Explained)
        ensures
            (final(self)@, r.status@, r.forget) == after_log(old(self)@, doubt@, tail@),
    {
        match doubt {
            Doubt::Refused { exit } => {
                let mut text =
                    "authorization was refused or the daemon failed to start (launcher exit ".to_string();
                text.push_str(exit.as_str());
                text.push_str(")");
                let full = tailed(text.as_str(), ":\n", tail);
                self.session = None;
                self.sticky_error = Some(full.clone());
                Explained { status: DaemonStatus::failed(None, full), forget: true }
            },
            Doubt::Silent => {
                self.session = None;
                let full = tailed("the daemon never answered its control channel", ":\n", tail);
                Explained { status: DaemonStatus::failed(None, full), forget: true }
            },
            Doubt::Broken { error } => {
                let port = match &self.session {
                    Some(s) => Some(s.control_port),
                    None => None,
                };
                self.sticky_error = Some(error.clone());
                let full = tailed(error.as_str(), "\n", tail);
                Explained { status: DaemonStatus::failed(port, full), forget: false }
            },
        }
    }
}

// ── Starting ─────────────────────────────────────────────────────────────────

/// A daemon that is up is not started again.
pub fn already_running(status: &DaemonStatus) -> (b: bool)
    ensures
        b == (status@.state == "running"@),
{
    same(status.state, "running")
}

/// Refuse to start without a provider key, or with nothing mapped.
pub fn start_gate(config: &AppConfig) -> (r: Result<(), Error>)
    ensures
        match r {
            Ok(_) => config.provider.api_key@.len() > 0 && (config.mappings.models@.len() > 0
                || config.mappings.default is Some),
            Err(e) => e is Elevation && if config.provider.api_key@.len() == 0 {
                e->Elevation_0@
                    == "no provider configured — set the provider endpoint and API key first"@
            } else {
                config.mappings.models@.len() == 0 && config.mappings.default is None
                    && e->Elevation_0@
                    == "no model mappings — map at least one Kiro model (or set a fallback)"@
            },
        },
{
    if config.provider.api_key.as_str().is_empty() {
        return Err(
            Error::Elevation(
                "no provider configured — set the provider endpoint and API key first".to_string(),
            ),
        );
    }
    if config.mappings.is_empty() {
        return Err(
            Error::Elevation(
                "no model mappings — map at least one Kiro model (or set a fallback)".to_string(),
            ),
        );
    }
    Ok(())
}

/// The error for a launcher that could not be started.
pub fn launch_failure(program: &str, why: &str) -> (e: Error)
    ensures
        e is Elevation,
        e->Elevation_0@ == "launching `"@ + program@ + "` for elevation failed: "@ + why@,
{
    let mut text = "launching `".to_string();
    text.push_str(program);
    text.push_str("` for elevation failed: ");
    text.push_str(why);
    Error::Elevation(text)
}

// ── Stopping ─────────────────────────────────────────────────────────────────

/// A step without a remark.
fn plain(action: StopAction) -> (r: StopStep)
    ensures
        r@ == (Move { word: None, act: action@ }),
{
    StopStep { remark: None, action }
}

/// The time that has passed.
fn elapsed(began: u64, now: u64) -> (r: u64)
    ensures
        r == since(began, now),
{
    if now >= began {
        now - began
    } else {
        0
    }
}

impl Supervisor {
    /// Port and token of the session.
    pub fn session(&self) -> (r: Option<(u16, &str)>)
        ensures
            match r {
                Some((port, token)) => self@.session == Some((port, token@)),
                None => self@.session is None,
            },
    {
        match &self.session {
            Some(s) => Some((s.control_port, s.token.as_str())),
            None => None,
        }
    }

    /// What is to be done next to stop the daemon, given what came of the last thing that was done.
    pub fn stop_next(&mut self, event: StopEvent, now: u64) -> (r: StopStep)
        ensures
            (final(self)@, r@) == after_stop(old(self)@, event, now),
    {
        match (event, self.phase) {
            (StopEvent::Begin, _) => self.stop_begin(),
            (StopEvent::Connected, StopPhase::Connecting) => {
                // Inside the startup window a silent channel is expected; outside of it the pairing
                // may be left over from an earlier run.
                let starting = match self.started_at {
                    Some(t) => elapsed(t, now) < STARTUP_GRACE_MILLIS,
                    None => false,
                };
                if starting {
                    self.stop_tell(now)
                } else {
                    self.phase = StopPhase::Probing;
                    plain(StopAction::Probe)
                }
            },
            (StopEvent::Answered(answer), _) => {
                let silent = match answer {
                    Answer::Silence => true,
                    _ => false,
                };
                self.stop_answered(silent, now)
            },
            (StopEvent::Told { failure }, StopPhase::Telling { began }) => self.stop_told(
                began,
                failure,
                now,
            ),
            (StopEvent::Paused, _) => self.stop_paused(now),
            (StopEvent::Cancelled, StopPhase::Cancelling) => {
                self.phase = StopPhase::Parting;
                plain(StopAction::Probe)
            },
            (StopEvent::Forgotten, StopPhase::Forgetting { known }) => self.stop_look(0, known),
            (StopEvent::Looked(found), StopPhase::Looking { checks, known }) => match found {
                HostsLook::Clean => self.stop_conclude(known),
                HostsLook::Redirected => {
                    self.phase = StopPhase::LookingAgain { checks, known };
                    plain(StopAction::Pause { millis: STRANDED_PAUSE_MILLIS })
                },
                HostsLook::Unreadable(error) => {
                    let mut text = "cannot read the hosts file: ".to_string();
                    text.push_str(error.as_str());
                    let step = self.stop_conclude(known);
                    StopStep { remark: Some(Remark::Warning(text)), action: step.action }
                },
            },
            (StopEvent::Restored(restored), StopPhase::Restoring { known }) => match restored {
                Restored::Done => {
                    let step = self.stop_conclude(known);
                    StopStep {
                        remark: Some(Remark::Note("hosts file restored".to_string())),
                        action: step.action,
                    }
                },
                Restored::Skipped => self.stop_conclude(known),
                Restored::Failed(error) => {
                    let mut text =
                        "the proxy is stopped, but your hosts file is still redirected and could not be restored (".to_string();
                    text.push_str(error.as_str());
                    text.push_str(") — the IDE will not reach its endpoints until it is");
                    self.sticky_error = Some(text);
                    let mut note = "failed to restore the hosts file: ".to_string();
                    note.push_str(error.as_str());
                    let step = self.stop_conclude(known);
                    StopStep { remark: Some(Remark::Note(note)), action: step.action }
                },
            },
            (StopEvent::Found(found), StopPhase::Reporting) => {
                let mut status = found;
                self.phase = StopPhase::Idle;
                match self.sticky_error.take() {
                    Some(detail) => {
                        status.detail = Some(detail);
                    },
                    None => {},
                }
                plain(StopAction::Report(status))
            },
            _ => self.stop_abandon(),
        }
    }

    fn stop_abandon(&mut self) -> (r: StopStep)
        ensures
            (final(self)@, r@) == go_on(old(self)@, StopPhase::Idle, Act::Abandon),
    {
        self.phase = StopPhase::Idle;
        plain(StopAction::Abandon)
    }

    fn stop_begin(&mut self) -> (r: StopStep)
        ensures
            (final(self)@, r@) == begin(old(self)@),
    {
        let action = match &self.session {
            Some(s) => StopAction::Connect { port: s.control_port, token: s.token.clone() },
            None => {
                return self.stop_look(0, false);
            },
        };
        self.phase = StopPhase::Connecting;
        plain(action)
    }

    fn stop_tell(&mut self, began: u64) -> (r: StopStep)
        ensures
            (final(self)@, r@) == tell(old(self)@, began),
    {
        self.phase = StopPhase::Telling { began };
        plain(StopAction::Tell)
    }

    fn stop_look(&mut self, checks: u32, known: bool) -> (r: StopStep)
        ensures
            (final(self)@, r@) == look(old(self)@, checks, known),
    {
        self.phase = StopPhase::Looking { checks, known };
        plain(StopAction::Look)
    }

    fn stop_conclude(&mut self, known: bool) -> (r: StopStep)
        ensures
            (final(self)@, r@) == conclude(old(self)@, known),
    {
        if known {
            self.phase = StopPhase::Reporting;
            plain(StopAction::FindStatus)
        } else {
            self.phase = StopPhase::Idle;
            let mut status = DaemonStatus::stopped();
            status.detail = self.sticky_error.take();
            plain(StopAction::Report(status))
        }
    }

    fn stop_answered(&mut self, silent: bool, now: u64) -> (r: StopStep)
        ensures
            (final(self)@, r@) == on_answer(old(self)@, silent, now),
    {
        match self.phase {
            StopPhase::Probing => if silent {
                self.session = None;
                self.phase = StopPhase::Forgetting { known: false };
                plain(StopAction::Forget)
            } else {
                self.stop_tell(now)
            },
            StopPhase::Quieting { began } => if silent {
                self.phase = StopPhase::Cancelling;
                plain(StopAction::Cancel)
            } else {
                self.phase = StopPhase::QuietingAgain { began };
                plain(StopAction::Pause { millis: SILENCE_PAUSE_MILLIS })
            },
            StopPhase::Parting => {
                self.launching = false;
                self.session = None;
                self.started_at = None;
                if silent {
                    self.phase = StopPhase::Forgetting { known: true };
                    plain(StopAction::Forget)
                } else {
                    self.stop_look(0, true)
                }
            },
            _ => self.stop_abandon(),
        }
    }

    fn stop_told(&mut self, began: u64, failure: Option<String>, now: u64) -> (r: StopStep)
        ensures
            (final(self)@, r@) == on_told(old(self)@, began, text_in(failure), now),
    {
        match failure {
            None => {
                self.phase = StopPhase::Quieting { began: now };
                plain(StopAction::Probe)
            },
            Some(error) => if elapsed(began, now) < STOP_ATTEMPTS_MILLIS {
                self.phase = StopPhase::TellingAgain { began };
                plain(StopAction::Pause { millis: ATTEMPT_PAUSE_MILLIS })
            } else {
                let mut text = "stop failed: ".to_string();
                text.push_str(error.as_str());
                self.sticky_error = Some(error);
                self.phase = StopPhase::Cancelling;
                StopStep { remark: Some(Remark::Note(text)), action: StopAction::Cancel }
            },
        }
    }

    fn stop_paused(&mut self, now: u64) -> (r: StopStep)
        ensures
            (final(self)@, r@) == on_pause(old(self)@, now),
    {
        match self.phase {
            StopPhase::TellingAgain { began } => self.stop_tell(began),
            StopPhase::QuietingAgain { began } => if elapsed(began, now) < SILENCE_MILLIS {
                self.phase = StopPhase::Quieting { began };
                plain(StopAction::Probe)
            } else {
                self.phase = StopPhase::Cancelling;
                plain(StopAction::Cancel)
            },
            StopPhase::LookingAgain { checks, known } => if checks < STRANDED_CHECKS - 1 {
                self.stop_look(checks + 1, known)
            } else {
                self.phase = StopPhase::Restoring { known };
                StopStep {
                    remark: Some(
                        Remark::Note(
                            "the daemon went away without restoring the hosts file; restoring it now".to_string(),
                        ),
                    ),
                    action: StopAction::Restore,
                }
            },
            _ => self.stop_abandon(),
        }
    }
}

// ── Laws ─────────────────────────────────────────────────────────────────────

/// A refused authorization surfaces as a failure that explains itself, and the dead pairing is
/// dropped.
pub proof fn law_refused_authorization_is_a_failure(w: Watch, exit: String, tail: Seq<char>)
    requires
        w.launching,
        !w.ready,
    ensures
        ({
            let check = LauncherCheck::Exited { success: false, exit };
            let (w1, next) = after_launcher(w, check);
            &&& next is Explain
            &&& next->Explain_doubt == (Question::Refused { exit: exit@ })
            &&& ({
                let (w2, report, forget) = after_log(w1, next->Explain_doubt, tail);
                &&& report.state == "failed"@
                &&& report.detail == w2.sticky
                &&& report.detail is Some
                &&& "authorization was refused or the daemon failed to start (launcher exit "@.is_prefix_of(
                    report.detail->0,
                )
                &&& w2.session is None
                &&& forget
            })
        }),
{
    let a = "authorization was refused or the daemon failed to start (launcher exit "@;
    let b = a + exit@ + ")"@;
    let full = with_tail(b, ":\n"@, tail);
    assert(a =~= full.take(a.len() as int));
}

/// A daemon is said to run only where its control channel answered.
pub proof fn law_running_means_answered(w: Watch, port: u16, answer: Answer, now: u64)
    ensures
        ({
            let next = after_probe(w, port, answer, now).1;
            next is Settled && next->Settled_report.state == "running"@ ==> answer is Pid
        }),
        ({
            let next = from_session(w);
            next is Settled ==> next->Settled_report.state != "running"@
        }),
{
    reveal_strlit("running");
    reveal_strlit("starting");
    reveal_strlit("stopped");
    reveal_strlit("failed");
    assert("running"@.len() != "starting"@.len());
    assert("running"@[0] != "stopped"@[0]);
    assert("running"@.len() != "failed"@.len());
}

/// What is known of a daemon that was just launched: its channel, and that it has yet to come up; and
/// nothing of an earlier failure.
pub proof fn law_a_launch_starts_afresh(s: &mut Supervisor, session: Session, now: u64)
    requires
        call_ensures(Supervisor::launched, (s, session, now), ()),
    ensures
        final(s)@.session == Some((session.control_port, session.token@)),
        final(s)@.launching,
        !final(s)@.ready,
        final(s)@.sticky is None,
        final(s)@.started == Some(now),
{
}

/// A restarted window knows the channel that was written down, and nothing else.
pub proof fn law_a_window_attaches_to_what_was_written_down(session: Option<Session>, s: Supervisor)
    requires
        call_ensures(Supervisor::load, (session,), s),
    ensures
        session is Some <==> s@.session is Some,
        session is Some ==> s@.session == Some((session->0.control_port, session->0.token@)),
        !s@.launching && !s@.ready && s@.sticky is None && s@.started is None,
{
}

/// To find out the status the channel of the session is asked, with its own token. Without a session
/// nothing runs: what is shown is the last failure, if there was one. Only a launcher that failed
/// before the channel ever answered is a failed start.
pub proof fn law_the_status_is_asked_for_where_it_is_known(
    s: &mut Supervisor,
    launcher: &LauncherCheck,
    r: Step,
)
    requires
        call_ensures(Supervisor::status, (s, launcher), r),
    ensures
        ({
            let w = old(s)@;
            let refused = match *launcher {
                LauncherCheck::Exited { success, .. } => w.launching && !success && !w.ready,
                _ => false,
            };
            &&& refused ==> r@ is Explain
            &&& !refused && w.session is Some ==> {
                let (port, token) = w.session->0;
                r@ == (Next::Probe { port, token })
            }
            &&& !refused && w.session is None ==> r@ is Settled && r@->Settled_report.pid is None
                && r@->Settled_report.detail == w.sticky && r@->Settled_report.state
                == if w.sticky is Some {
                "failed"@
            } else {
                "stopped"@
            }
            &&& final(s)@.session == w.session
            &&& final(s)@.sticky == w.sticky
            &&& final(s)@.ready == w.ready
            &&& final(s)@.started == w.started
            &&& final(s)@.launching <==> w.launching && *launcher is Running
        }),
{
}

/// A channel that answers is a daemon that runs, as the process and on the port that it says. One
/// that is silent may still be coming up, for thirty seconds, or may have gone after it was up; only
/// one that was never up after that has failed. One that answers otherwise has failed at once. None
/// of this drops the pairing.
pub proof fn law_answers_are_taken_at_their_word(
    s: &mut Supervisor,
    port: u16,
    answer: &Answer,
    now: u64,
    r: Step,
)
    requires
        call_ensures(Supervisor::probed, (s, port, answer, now), r),
        old(s)@.started is Some ==> old(s)@.started->0 <= now,
    ensures
        ({
            let w = old(s)@;
            let age = if w.started is Some {
                now - w.started->0
            } else {
                0
            };
            &&& final(s)@.session == w.session
            &&& final(s)@.sticky == w.sticky
            &&& final(s)@.started == w.started
            &&& final(s)@.launching == w.launching
            &&& match *answer {
                Answer::Pid(pid) => {
                    &&& final(s)@.ready
                    &&& r@ is Settled
                    &&& r@->Settled_report == (Report {
                        state: "running"@,
                        pid: Some(pid),
                        port: Some(port),
                        detail: None,
                    })
                    &&& r@->Settled_remark is Some <==> !w.ready
                },
                Answer::Silence => {
                    &&& final(s)@.ready == w.ready
                    &&& r@ is Explain <==> age > 30_000 && !w.ready
                    &&& r@ is Settled ==> r@->Settled_report.state == "starting"@
                        && r@->Settled_report.port == Some(port) && r@->Settled_report.pid is None
                    &&& r@ is Explain ==> r@->Explain_doubt is Silent
                },
                Answer::Failure(error) => {
                    &&& r@ is Explain
                    &&& r@->Explain_doubt == (Question::Broken { error: error@ })
                    &&& r@->Explain_note == "start failed: "@ + error@
                },
            }
        }),
{
}

/// A failure is explained by the end of the log. A start that was refused, or never answered, leaves
/// nothing to attach to; a channel that is held by somebody else may still be the daemon's, so the
/// pairing stays.
pub proof fn law_failures_are_explained_by_the_log(
    s: &mut Supervisor,
    doubt: &Doubt,
    tail: &str,
    r: Explained,
)
    requires
        call_ensures(Supervisor::explained, (s, doubt, tail), r),
    ensures
        r.status@.state == "failed"@,
        r.status@.detail is Some,
        r.forget <==> !(*doubt is Broken),
        r.forget ==> final(s)@.session is None,
        !r.forget ==> final(s)@.session == old(s)@.session,
        tail@.len() > 0 ==> r.status@.detail->0.len() >= tail@.len() && r.status@.detail->0.skip(
            r.status@.detail->0.len() - tail@.len(),
        ) == tail@,
        match *doubt {
            Doubt::Broken { error } => {
                &&& error@.is_prefix_of(r.status@.detail->0)
                &&& tail@.len() == 0 ==> r.status@.detail->0 == error@
                &&& final(s)@.sticky == Some(error@)
                &&& match old(s)@.session {
                    Some((port, _)) => r.status@.port == Some(port),
                    None => r.status@.port is None,
                }
            },
            Doubt::Refused { .. } => final(s)@.sticky == r.status@.detail && r.status@.port is None,
            Doubt::Silent => final(s)@.sticky == old(s)@.sticky && r.status@.port is None,
        },
        r.status@.pid is None,
        final(s)@.started == old(s)@.started,
        final(s)@.ready == old(s)@.ready,
        final(s)@.launching == old(s)@.launching,
{
    let d = r.status@.detail->0;
    if tail@.len() > 0 {
        assert(d.skip(d.len() - tail@.len()) =~= tail@);
    }
    if let Doubt::Broken { error } = *doubt {
        assert(error@ =~= d.take(error@.len() as int));
    }
}

/// The window starts a daemon exactly where there is a key and something is mapped, and none where one
/// runs.
pub proof fn law_the_window_starts_what_is_configured(
    config: &AppConfig,
    r: Result<(), Error>,
    status: &DaemonStatus,
    running: bool,
)
    requires
        call_ensures(start_gate, (config,), r),
        call_ensures(already_running, (status,), running),
    ensures
        r is Ok <==> config.provider.api_key@.len() > 0 && (config.mappings.models@.len() > 0
            || config.mappings.default is Some),
        running <==> status.state@ == "running"@,
{
}

/// What is shown where there is nothing to ask: a daemon that is not there is stopped, and a channel
/// without a client is a failure that names the port; a launcher that failed is named with its reason.
pub proof fn law_what_cannot_be_asked_is_told(
    none: DaemonStatus,
    port: u16,
    cut: DaemonStatus,
    program: &str,
    why: &str,
    e: Error,
)
    requires
        call_ensures(DaemonStatus::stopped, (), none),
        call_ensures(DaemonStatus::no_client, (port,), cut),
        call_ensures(launch_failure, (program, why), e),
    ensures
        none@.state == "stopped"@,
        none@.pid is None && none@.port is None && none@.detail is None,
        cut@.state == "failed"@,
        cut@.pid is None && cut@.port == Some(port) && cut@.detail is Some,
        e is Elevation,
        why@.is_suffix_of(e->Elevation_0@),
        contains(e->Elevation_0@, program@),
{
    let text = e->Elevation_0@;
    let front = "launching `"@;
    assert(why@ =~= text.subrange(text.len() - why@.len(), text.len() as int));
    let end = (front.len() + program@.len()) as int;
    assert(text.subrange(front.len() as int, end) =~= program@);
    assert(occurs_at(text, program@, front.len() as int));
}

/// The channel that is known of is the one of the watch.
pub proof fn law_the_known_channel_is_shown(s: &Supervisor, r: Option<(u16, &str)>)
    requires
        call_ensures(Supervisor::session, (s,), r),
    ensures
        r is Some <==> s@.session is Some,
        match r {
            Some((port, token)) => s@.session == Some((port, token@)),
            None => true,
        },
{
}

} // verus!
