//! The account actor: when it connects, what it waits for, when it runs a
//! cycle, whom it answers and when it stops.
//!
//! The actor performs nothing itself. It is told what happened, and says what
//! to do next: the effects to perform in order, and through its stage what to
//! wait for.

use vstd::prelude::*;

verus! {

pub const CYCLE_SECS: u64 = 60;

/// Poll cadence when the server does not support IDLE (near-real-time push).
pub const IDLE_FALLBACK_SECS: u64 = 20;

/// Re-issue IDLE at least this often (RFC 2177 recommends < 29 min) to keep the
/// connection alive through NAT/firewall idle timeouts.
pub const IDLE_MAX_SECS: u64 = 300;

/// The longest wait between two attempts to connect.
pub const MAX_BACKOFF_SECS: u64 = 300;

/// What the rest of the program can ask of an account.
#[derive(Debug, Clone, Copy, PartialEq, Eq, Structural)]
pub enum SyncCmd {
    /// Run a cycle at once; `waits` says that the caller waits for the outcome.
    SyncNow { waits: bool },
    FetchBody { message_id: i64 },
    RunActions,
    Shutdown,
}

/// What the actor is waiting for.
#[derive(Debug, Clone, Copy, PartialEq, Eq, Structural)]
pub enum Stage {
    /// The outcome of connecting.
    Connect,
    /// A command, after the server refused the credentials.
    AwaitNudge,
    /// A command or the end of the backoff, after a failed connection.
    Backoff,
    /// The next command that is already there, or that there is none.
    Drain,
    /// The outcome of a cycle.
    Cycle,
    /// The outcome of selecting the inbox.
    SelectInbox,
    /// What ends an IMAP IDLE.
    Idle,
    /// The outcome of fetching a body that was asked for during IDLE.
    IdleBody,
    /// A command or the fallback interval, where there is no inbox yet.
    AwaitInbox,
    /// A command or the poll deadline.
    Poll,
    /// The outcome of fetching a body that was asked for while polling.
    PollBody,
    /// Nothing: the actor has ended.
    Stopped,
}

/// What happened.
#[derive(Debug, Clone, Copy, PartialEq, Eq, Structural)]
pub enum Event {
    Connected { idle: bool },
    AuthRejected,
    ConnectFailed,
    Received(SyncCmd),
    Closed,
    TimedOut,
    QueueEmpty,
    CycleDone { actions_remaining: bool, done: u64, total: u64 },
    CycleAuthFailed,
    CycleFailed,
    InboxSelected,
    SelectFailed,
    NoInbox,
    Activity,
    IdleFailed,
    BodyFetched { ok: bool },
}

/// The state of an account that the user sees.
#[derive(Debug, Clone, Copy, PartialEq, Eq, Structural)]
pub enum AccountState {
    Syncing,
    Idle,
    Offline,
    NeedsReauth,
}

impl AccountState {
    pub open spec fn name(self) -> Seq<char> {
        match self {
            AccountState::Syncing => "syncing"@,
            AccountState::Idle => "idle"@,
            AccountState::Offline => "offline"@,
            AccountState::NeedsReauth => "needs_reauth"@,
        }
    }

    pub fn as_str(&self) -> (r: &'static str)
        ensures
            r@ == self.name(),
    {
        match self {
            AccountState::Syncing => "syncing",
            AccountState::Idle => "idle",
            AccountState::Offline => "offline",
            AccountState::NeedsReauth => "needs_reauth",
        }
    }
}

/// What callers that wait for a cycle are told.
#[derive(Debug, Clone, Copy, PartialEq, Eq, Structural)]
pub enum Answer {
    Done,
    AuthenticationRequired,
    Failed,
}

/// What to do.
#[derive(Debug, Clone, Copy, PartialEq, Eq, Structural)]
pub enum Effect {
    Network { online: bool },
    SetState(AccountState),
    Logout,
    /// Wake the pool that downloads bodies.
    NudgePool,
    Progress { done: u64, total: u64 },
    /// Answer every caller that waits.
    AnswerAll(Answer),
    FetchBody { message_id: i64 },
}

/// An account actor between two events.
#[derive(Debug, Clone, Copy, PartialEq, Eq, Structural)]
pub struct Actor {
    pub stage: Stage,
    /// There is a live session.
    pub session: bool,
    /// Whether the current connection supports IMAP IDLE (push). Re-probed on
    /// every reconnect; `None` until the first successful connect.
    pub supports_idle: Option<bool>,
    /// How long the next backoff lasts.
    pub backoff_secs: u64,
    /// How long the backoff under way lasts.
    pub wait_secs: u64,
    pub cycle: u64,
    pub replaying_actions: bool,
    /// Some caller waits for the next cycle.
    pub callers: bool,
    /// The poll deadline has been brought forward to now.
    pub poll_now: bool,
}

pub open spec fn initial() -> Actor {
    Actor {
        stage: Stage::Connect,
        session: false,
        supports_idle: None,
        backoff_secs: 1,
        wait_secs: 0,
        cycle: 0,
        replaying_actions: false,
        callers: false,
        poll_now: false,
    }
}

/// The events that can happen in a stage.
pub open spec fn fits(stage: Stage, e: Event) -> bool {
    match stage {
        Stage::Connect => e is Connected || e is AuthRejected || e is ConnectFailed,
        Stage::AwaitNudge => e is Received || e is Closed,
        Stage::Backoff | Stage::AwaitInbox | Stage::Poll => e is Received || e is Closed
            || e is TimedOut,
        Stage::Drain => e is Received || e is QueueEmpty,
        Stage::Cycle => e is CycleDone || e is CycleAuthFailed || e is CycleFailed,
        Stage::SelectInbox => e is InboxSelected || e is SelectFailed || e is NoInbox,
        Stage::Idle => e is Activity || e is TimedOut || e is Received || e is Closed
            || e is IdleFailed,
        Stage::IdleBody | Stage::PollBody => e is BodyFetched,
        Stage::Stopped => false,
    }
}

/// The event ends the actor: it was told to, or nobody can tell it anything
/// any more.
pub open spec fn ends(e: Event) -> bool {
    e is Closed || e == Event::Received(SyncCmd::Shutdown)
}

/// The event is a caller that waits for the next cycle.
pub open spec fn brings_caller(e: Event) -> bool {
    e == Event::Received(SyncCmd::SyncNow { waits: true })
}

/// The next round: on the session that is there, or after connecting anew.
pub open spec fn next_round(a: Actor) -> Actor {
    Actor {
        stage: if a.session {
            Stage::Drain
        } else {
            Stage::Connect
        },
        ..a
    }
}

/// The end: a live session is logged out.
pub open spec fn stopped(a: Actor) -> (Actor, Seq<Effect>) {
    (
        Actor { stage: Stage::Stopped, session: false, ..a },
        if a.session {
            seq![Effect::Logout]
        } else {
            Seq::empty()
        },
    )
}

/// What a finished cycle leads to: another slice of actions at once, else a
/// wait in IDLE where the server has it, else a poll.
pub open spec fn after_cycle(a: Actor) -> Actor {
    Actor {
        stage: if a.replaying_actions && a.session {
            Stage::Drain
        } else if a.supports_idle == Some(true) && a.session {
            Stage::SelectInbox
        } else {
            Stage::Poll
        },
        poll_now: false,
        ..a
    }
}

/// One step of the actor.
pub open spec fn transition(a: Actor, e: Event) -> (Actor, Seq<Effect>) {
    let heard = Actor { callers: a.callers || brings_caller(e), ..a };
    match (a.stage, e) {
        (Stage::Connect, Event::Connected { idle }) => (
            Actor {
                stage: Stage::Drain,
                session: true,
                supports_idle: Some(idle),
                backoff_secs: 1,
                ..a
            },
            seq![Effect::Network { online: true }, Effect::SetState(AccountState::Syncing)],
        ),
        (Stage::Connect, Event::AuthRejected) => (
            Actor { stage: Stage::AwaitNudge, ..a },
            seq![Effect::SetState(AccountState::NeedsReauth)],
        ),
        (Stage::Connect, Event::ConnectFailed) => (
            Actor {
                stage: Stage::Backoff,
                wait_secs: a.backoff_secs,
                backoff_secs: if a.backoff_secs * 2 <= MAX_BACKOFF_SECS {
                    (a.backoff_secs * 2) as u64
                } else {
                    MAX_BACKOFF_SECS
                },
                ..a
            },
            seq![Effect::Network { online: false }, Effect::SetState(AccountState::Offline)],
        ),
        (Stage::AwaitNudge, _) | (Stage::Backoff, _) => if ends(e) {
            stopped(a)
        } else {
            (next_round(heard), Seq::empty())
        },
        (Stage::Drain, Event::QueueEmpty) => (
            Actor { stage: Stage::Cycle, ..a },
            seq![Effect::SetState(AccountState::Syncing)],
        ),
        (Stage::Drain, _) => if ends(e) {
            stopped(a)
        } else {
            (heard, Seq::empty())
        },
        (Stage::Cycle, Event::CycleDone { actions_remaining, done, total }) => (
            after_cycle(
                Actor {
                    cycle: (a.cycle + 1) as u64,
                    replaying_actions: actions_remaining,
                    callers: false,
                    ..a
                },
            ),
            (if done < total {
                seq![Effect::NudgePool]
            } else {
                Seq::empty()
            }) + seq![
                Effect::SetState(AccountState::Idle),
                Effect::Progress { done, total },
                Effect::AnswerAll(Answer::Done),
            ],
        ),
        (Stage::Cycle, Event::CycleAuthFailed) => (
            Actor { stage: Stage::Poll, session: false, callers: false, poll_now: false, ..a },
            seq![
                Effect::Logout,
                Effect::SetState(AccountState::NeedsReauth),
                Effect::AnswerAll(Answer::AuthenticationRequired),
            ],
        ),
        (Stage::Cycle, Event::CycleFailed) => (
            Actor { stage: Stage::Poll, session: false, callers: false, poll_now: false, ..a },
            seq![
                Effect::Logout,
                Effect::Network { online: false },
                Effect::SetState(AccountState::Offline),
                Effect::AnswerAll(Answer::Failed),
            ],
        ),
        (Stage::SelectInbox, Event::InboxSelected) => (
            Actor { stage: Stage::Idle, ..a },
            Seq::empty(),
        ),
        (Stage::SelectInbox, Event::SelectFailed) => (
            next_round(Actor { session: false, supports_idle: None, ..a }),
            seq![Effect::Logout],
        ),
        (Stage::SelectInbox, Event::NoInbox) => (
            Actor { stage: Stage::AwaitInbox, ..a },
            Seq::empty(),
        ),
        (Stage::Idle, Event::IdleFailed) => (
            next_round(Actor { session: false, supports_idle: None, ..a }),
            seq![Effect::Network { online: false }],
        ),
        (Stage::Idle, Event::Received(SyncCmd::FetchBody { message_id })) => (
            Actor { stage: Stage::IdleBody, ..a },
            seq![Effect::FetchBody { message_id }],
        ),
        (Stage::Idle, _) => if ends(e) {
            stopped(a)
        } else {
            (next_round(heard), Seq::empty())
        },
        (Stage::IdleBody, _) => (next_round(a), Seq::empty()),
        // A caller that asks before there is an inbox is not kept waiting.
        (Stage::AwaitInbox, _) => if ends(e) {
            stopped(a)
        } else {
            (next_round(a), Seq::empty())
        },
        (Stage::Poll, Event::Received(SyncCmd::FetchBody { message_id })) => if a.session {
            (Actor { stage: Stage::PollBody, ..a }, seq![Effect::FetchBody { message_id }])
        } else {
            (next_round(a), Seq::empty())
        },
        (Stage::Poll, _) => if ends(e) {
            stopped(a)
        } else {
            (next_round(heard), Seq::empty())
        },
        // After a failed fetch the next cycle is due at once.
        (Stage::PollBody, Event::BodyFetched { ok }) => (
            Actor { stage: Stage::Poll, poll_now: a.poll_now || !ok, ..a },
            Seq::empty(),
        ),
        _ => (a, Seq::empty()),
    }
}

/// What holds of an actor between two events.
pub open spec fn sound(a: Actor) -> bool {
    &&& 1 <= a.backoff_secs <= MAX_BACKOFF_SECS
    &&& a.stage is Backoff ==> 1 <= a.wait_secs <= MAX_BACKOFF_SECS
    &&& a.stage is Connect || a.stage is AwaitNudge || a.stage is Backoff || a.stage is Stopped
        ==> !a.session
    &&& a.stage is Drain || a.stage is Cycle || a.stage is PollBody ==> a.session
    &&& a.stage is SelectInbox || a.stage is Idle || a.stage is IdleBody || a.stage is AwaitInbox
        ==> a.session && a.supports_idle == Some(true)
    &&& a.session ==> a.supports_idle is Some
}

fn round(a: Actor) -> (r: Actor)
    ensures
        r == next_round(a),
{
    let mut b: Actor = a;
    b.stage = if a.session {
        Stage::Drain
    } else {
        Stage::Connect
    };
    b
}

fn stop(a: Actor, effects: &mut Vec<Effect>) -> (r: Actor)
    requires
        old(effects)@.len() == 0,
    ensures
        (r, final(effects)@) == stopped(a),
{
    if a.session {
        effects.push(Effect::Logout);
    }
    let mut b: Actor = a;
    b.stage = Stage::Stopped;
    b.session = false;
    b
}

impl Actor {
    pub fn new() -> (r: Actor)
        ensures
            r == initial(),
            sound(r),
    {
        Actor {
            stage: Stage::Connect,
            session: false,
            supports_idle: None,
            backoff_secs: 1,
            wait_secs: 0,
            cycle: 0,
            replaying_actions: false,
            callers: false,
            poll_now: false,
        }
    }

    /// Takes in what happened, and says what to do about it.
    pub fn step(&mut self, e: Event) -> (r: Vec<Effect>)
        requires
            sound(*old(self)),
            fits(old(self).stage, e),
            old(self).cycle < u64::MAX,
        ensures
            (*final(self), r@) == transition(*old(self), e),
            sound(*final(self)),
    {
        let a: Actor = *self;
        let mut effects: Vec<Effect> = Vec::new();
        let ending: bool = matches!(e, Event::Closed | Event::Received(SyncCmd::Shutdown));
        let caller: bool = matches!(e, Event::Received(SyncCmd::SyncNow { waits: true }));
        let mut heard: Actor = a;
        heard.callers = a.callers || caller;
        let mut b: Actor = a;
        match (a.stage, e) {
            (Stage::Connect, Event::Connected { idle }) => {
                b.stage = Stage::Drain;
                b.session = true;
                b.supports_idle = Some(idle);
                b.backoff_secs = 1;
                effects.push(Effect::Network { online: true });
                effects.push(Effect::SetState(AccountState::Syncing));
            },
            (Stage::Connect, Event::AuthRejected) => {
                b.stage = Stage::AwaitNudge;
                effects.push(Effect::SetState(AccountState::NeedsReauth));
            },
            (Stage::Connect, _) => {
                b.stage = Stage::Backoff;
                b.wait_secs = a.backoff_secs;
                b.backoff_secs = if a.backoff_secs * 2 <= MAX_BACKOFF_SECS {
                    a.backoff_secs * 2
                } else {
                    MAX_BACKOFF_SECS
                };
                effects.push(Effect::Network { online: false });
                effects.push(Effect::SetState(AccountState::Offline));
            },
            (Stage::AwaitNudge, _) | (Stage::Backoff, _) => {
                if ending {
                    b = stop(a, &mut effects);
                } else {
                    b = round(heard);
                }
            },
            (Stage::Drain, Event::QueueEmpty) => {
                b.stage = Stage::Cycle;
                effects.push(Effect::SetState(AccountState::Syncing));
            },
            (Stage::Drain, _) => {
                if ending {
                    b = stop(a, &mut effects);
                } else {
                    b = heard;
                }
            },
            (Stage::Cycle, Event::CycleDone { actions_remaining, done, total }) => {
                b.cycle = a.cycle + 1;
                b.replaying_actions = actions_remaining;
                b.callers = false;
                b.poll_now = false;
                b.stage = if actions_remaining && a.session {
                    Stage::Drain
                } else if matches!(a.supports_idle, Some(true)) && a.session {
                    Stage::SelectInbox
                } else {
                    Stage::Poll
                };
                if done < total {
                    effects.push(Effect::NudgePool);
                }
                effects.push(Effect::SetState(AccountState::Idle));
                effects.push(Effect::Progress { done, total });
                effects.push(Effect::AnswerAll(Answer::Done));
            },
            (Stage::Cycle, _) => {
                b.stage = Stage::Poll;
                b.session = false;
                b.callers = false;
                b.poll_now = false;
                effects.push(Effect::Logout);
                if matches!(e, Event::CycleAuthFailed) {
                    effects.push(Effect::SetState(AccountState::NeedsReauth));
                    effects.push(Effect::AnswerAll(Answer::AuthenticationRequired));
                } else {
                    effects.push(Effect::Network { online: false });
                    effects.push(Effect::SetState(AccountState::Offline));
                    effects.push(Effect::AnswerAll(Answer::Failed));
                }
            },
            (Stage::SelectInbox, Event::InboxSelected) => {
                b.stage = Stage::Idle;
            },
            (Stage::SelectInbox, Event::SelectFailed) => {
                b.session = false;
                b.supports_idle = None;
                b = round(b);
                effects.push(Effect::Logout);
            },
            (Stage::SelectInbox, _) => {
                b.stage = Stage::AwaitInbox;
            },
            (Stage::Idle, Event::IdleFailed) => {
                b.session = false;
                b.supports_idle = None;
                b = round(b);
                effects.push(Effect::Network { online: false });
            },
            (Stage::Idle, Event::Received(SyncCmd::FetchBody { message_id })) => {
                b.stage = Stage::IdleBody;
                effects.push(Effect::FetchBody { message_id });
            },
            (Stage::Idle, _) => {
                if ending {
                    b = stop(a, &mut effects);
                } else {
                    b = round(heard);
                }
            },
            (Stage::IdleBody, _) => {
                b = round(a);
            },
            (Stage::AwaitInbox, _) => {
                if ending {
                    b = stop(a, &mut effects);
                } else {
                    b = round(a);
                }
            },
            (Stage::Poll, Event::Received(SyncCmd::FetchBody { message_id })) => {
                if a.session {
                    b.stage = Stage::PollBody;
                    effects.push(Effect::FetchBody { message_id });
                } else {
                    b = round(a);
                }
            },
            (Stage::Poll, _) => {
                if ending {
                    b = stop(a, &mut effects);
                } else {
                    b = round(heard);
                }
            },
            (Stage::PollBody, Event::BodyFetched { ok }) => {
                b.stage = Stage::Poll;
                b.poll_now = a.poll_now || !ok;
            },
            _ => {},
        }
        *self = b;
        proof {
            assert(effects@ =~= transition(a, e).1);
        }
        effects
    }

    /// The next cycle is for callers that wait: it covers the inbox only.
    pub fn foreground_only(&self) -> (r: bool)
        ensures
            r == self.callers,
    {
        self.callers
    }

    /// How long a poll lasts: not at all once it was brought forward, the
    /// fallback interval where the server has no IDLE, else until the next
    /// cycle is due.
    pub fn poll_wait_ms(&self, until_cycle_due_ms: u64) -> (r: u64)
        ensures
            r == (if self.poll_now {
                0
            } else if self.supports_idle == Some(false) {
                20_000
            } else {
                until_cycle_due_ms as int
            }),
    {
        if self.poll_now {
            0
        } else if matches!(self.supports_idle, Some(false)) {
            IDLE_FALLBACK_SECS * 1_000
        } else {
            until_cycle_due_ms
        }
    }
}

/// How long to stay in IDLE. Capped at the next full cycle so the correctness
/// backstop is preserved (a message that slipped in just before IDLE started
/// is still caught by the timed-out cycle), clamped to `IDLE_MAX_SECS` as an
/// upper safety bound, and at least a second.
pub fn idle_wait_ms(until_cycle_due_ms: u64) -> (r: u64)
    ensures
        1_000 <= r <= 300_000,
        1_000 <= until_cycle_due_ms <= 300_000 ==> r == until_cycle_due_ms,
        until_cycle_due_ms < 1_000 ==> r == 1_000,
        until_cycle_due_ms > 300_000 ==> r == 300_000,
{
    let capped: u64 = if until_cycle_due_ms < IDLE_MAX_SECS * 1_000 {
        until_cycle_due_ms
    } else {
        IDLE_MAX_SECS * 1_000
    };
    if capped > 1_000 {
        capped
    } else {
        1_000
    }
}

// ---------------------------------------------------------------------------
// Laws
// ---------------------------------------------------------------------------

/// Being told to shut down, or losing the last sender, ends the actor wherever
/// it listens, and a live session is logged out first.
pub proof fn ending_stops_and_logs_out(a: Actor, e: Event)
    requires
        sound(a),
        fits(a.stage, e),
        ends(e),
    ensures
        transition(a, e).0.stage is Stopped,
        !transition(a, e).0.session,
        a.session ==> transition(a, e).1 == seq![Effect::Logout],
        !a.session ==> transition(a, e).1.len() == 0,
{
}

/// A cycle that ends, however it ends, answers every caller once; a failed one
/// gives its session up, and the next cycle comes only after connecting anew.
pub proof fn cycle_end_answers_callers(a: Actor, e: Event)
    requires
        sound(a),
        a.stage is Cycle,
        fits(a.stage, e),
    ensures
        !transition(a, e).0.callers,
        transition(a, e).1.last() is AnswerAll,
        e is CycleDone <==> transition(a, e).1.last() == Effect::AnswerAll(Answer::Done),
        e is CycleDone ==> transition(a, e).0.cycle == (a.cycle + 1) as u64,
        !(e is CycleDone) ==> !transition(a, e).0.session && transition(a, e).1[0] is Logout
            && transition(a, e).0.cycle == a.cycle,
        transition(a, e).0.session ==> e is CycleDone,
{
}

/// A caller that asks for a sync while the actor listens is remembered until a
/// cycle ends, except where the account has no inbox to sync yet.
pub proof fn callers_are_kept(a: Actor, e: Event)
    requires
        sound(a),
        fits(a.stage, e),
        a.callers || brings_caller(e),
        !(a.stage is Cycle),
        !(a.stage is AwaitInbox && !a.callers),
    ensures
        transition(a, e).0.callers,
{
}

/// Every wake-up but an end leads on: to the next round, to fetching a body
/// first, or to another look at the queue; nothing but an end stops the actor.
pub proof fn waking_leads_to_a_round(a: Actor, e: Event)
    requires
        sound(a),
        fits(a.stage, e),
        !ends(e),
    ensures
        !(transition(a, e).0.stage is Stopped),
        a.stage is AwaitNudge || a.stage is Backoff || a.stage is AwaitInbox ==> transition(
            a,
            e,
        ).0 == next_round(transition(a, e).0),
        a.stage is Idle ==> transition(a, e).0.stage is IdleBody || transition(a, e).0
            == next_round(transition(a, e).0),
        a.stage is Poll ==> transition(a, e).0.stage is PollBody || transition(a, e).0
            == next_round(transition(a, e).0),
{
}

/// While its server cannot be reached an account is shown as offline and runs
/// no cycle, so its queued actions are neither attempted nor given up: they
/// wait for a connection. Commands wake it to connect, and to nothing else.
pub proof fn offline_accounts_keep_their_actions(a: Actor, e: Event)
    requires
        sound(a),
        fits(a.stage, e),
    ensures
        e is ConnectFailed ==> transition(a, e).0.stage is Backoff && transition(a, e).1.contains(
            Effect::SetState(AccountState::Offline),
        ),
        transition(a, e).0.stage is Cycle ==> a.session && a.stage is Drain,
        !a.session && !(e is Connected) ==> !transition(a, e).0.session && !(transition(
            a,
            e,
        ).0.stage is Cycle),
        !a.session && (a.stage is Backoff || a.stage is Poll) && !ends(e) ==> transition(
            a,
            e,
        ).0.stage is Connect && transition(a, e).1.len() == 0,
{
    if e is ConnectFailed {
        assert(transition(a, e).1[1] == Effect::SetState(AccountState::Offline));
    }
}

/// The states that an account goes through while it has no connection: it
/// starts without one, and none of the events brings one.
pub open spec fn is_offline_run(actors: Seq<Actor>, events: Seq<Event>) -> bool {
    &&& actors.len() == events.len() + 1
    &&& sound(actors[0])
    &&& !actors[0].session
    &&& forall|k: int|
        0 <= k < events.len() ==> fits(actors[k].stage, #[trigger] events[k]) && !(
        events[k] is Connected) && actors[k + 1] == transition(actors[k], events[k]).0
}

proof fn lemma_step_is_sound(a: Actor, e: Event)
    requires
        sound(a),
        fits(a.stage, e),
    ensures
        sound(transition(a, e).0),
{
}

proof fn lemma_offline_at(actors: Seq<Actor>, events: Seq<Event>, n: int)
    requires
        is_offline_run(actors, events),
        0 <= n < actors.len(),
    ensures
        sound(actors[n]),
        !actors[n].session,
        !(actors[n].stage is Cycle),
    decreases n,
{
    if n > 0 {
        lemma_offline_at(actors, events, n - 1);
        let e = events[n - 1];
        assert(fits(actors[n - 1].stage, e));
        offline_accounts_keep_their_actions(actors[n - 1], e);
        lemma_step_is_sound(actors[n - 1], e);
    }
}

/// However long an account is offline, and whatever it is asked for, it runs no
/// cycle.
pub proof fn offline_runs_have_no_cycle(actors: Seq<Actor>, events: Seq<Event>)
    requires
        is_offline_run(actors, events),
    ensures
        forall|k: int| 0 <= k < actors.len() ==> !((#[trigger] actors[k]).stage is Cycle),
{
    assert forall|k: int| 0 <= k < actors.len() implies !((#[trigger] actors[k]).stage is Cycle) by {
        lemma_offline_at(actors, events, k);
    }
}

/// What the user sees follows the connection: syncing once it is there, idle after a
/// cycle, offline where it failed or was lost, and asked to sign in where the
/// server refused the account.
pub proof fn accounts_show_their_state(a: Actor, e: Event)
    requires
        sound(a),
        fits(a.stage, e),
    ensures
        e is Connected ==> transition(a, e).1.contains(Effect::SetState(AccountState::Syncing))
            && transition(a, e).1.contains(Effect::Network { online: true }) && transition(
            a,
            e,
        ).0.session && transition(a, e).0.stage is Drain,
        e is AuthRejected ==> transition(a, e).1.contains(
            Effect::SetState(AccountState::NeedsReauth),
        ) && transition(a, e).0.stage is AwaitNudge,
        e is CycleAuthFailed ==> transition(a, e).1.contains(
            Effect::SetState(AccountState::NeedsReauth),
        ) && transition(a, e).1.contains(Effect::AnswerAll(Answer::AuthenticationRequired)),
        e is CycleFailed ==> transition(a, e).1.contains(Effect::SetState(AccountState::Offline))
            && transition(a, e).1.contains(Effect::Network { online: false }) && transition(
            a,
            e,
        ).1.contains(Effect::AnswerAll(Answer::Failed)),
        e is CycleDone ==> transition(a, e).1.contains(Effect::SetState(AccountState::Idle)),
        e is QueueEmpty ==> transition(a, e).1.contains(Effect::SetState(AccountState::Syncing))
            && transition(a, e).0.stage is Cycle,
{
    let effects = transition(a, e).1;
    if effects.len() > 0 {
        assert(effects.contains(effects[0]));
    }
    if effects.len() > 1 {
        assert(effects.contains(effects[1]));
    }
    if effects.len() > 2 {
        assert(effects.contains(effects[2]));
    }
    if effects.len() > 3 {
        assert(effects.contains(effects[3]));
    }
}

/// After a cycle the account goes on at once where actions are left, waits for the
/// server to push where it can, and polls where it cannot. The pool is woken
/// exactly where bodies are missing. A body that is asked for meanwhile is fetched,
/// and where that fails while polling the next cycle comes at once.
pub proof fn finished_cycles_wait_for_mail(a: Actor, e: Event)
    requires
        sound(a),
        fits(a.stage, e),
    ensures
        e matches Event::CycleDone { actions_remaining, done, total } ==> {
            let next = transition(a, e).0;
            &&& actions_remaining ==> next.stage is Drain
            &&& !actions_remaining && a.supports_idle == Some(true) ==> next.stage is SelectInbox
            &&& !actions_remaining && a.supports_idle != Some(true) ==> next.stage is Poll
            &&& transition(a, e).1.contains(Effect::NudgePool) <==> done < total
            &&& next.replaying_actions == actions_remaining
        },
        a.stage is SelectInbox && e is InboxSelected ==> transition(a, e).0.stage is Idle,
        a.stage is Idle && (e is Activity || e is TimedOut) ==> transition(a, e).0.stage is Drain,
        a.stage is Idle && (e matches Event::Received(SyncCmd::FetchBody { .. })) ==> transition(
            a,
            e,
        ).1 == seq![Effect::FetchBody { message_id: e->Received_0->message_id }],
        a.stage is Poll && a.session && (e matches Event::Received(SyncCmd::FetchBody { .. }))
            ==> transition(a, e).1 == seq![
            Effect::FetchBody { message_id: e->Received_0->message_id },
        ],
        a.stage is PollBody && e == (Event::BodyFetched { ok: false }) ==> transition(
            a,
            e,
        ).0.poll_now && transition(a, e).0.stage is Poll,
{
    let effects = transition(a, e).1;
    if effects.len() > 0 {
        assert(effects.contains(effects[0]));
    }
}

/// A session that fails while the account waits is given up: the account connects
/// anew before anything else, and asks again what the server can do. Without an
/// inbox it waits for one. A round begins on the session where there is one.
pub proof fn lost_sessions_are_opened_anew(a: Actor, e: Event)
    requires
        sound(a),
        fits(a.stage, e),
    ensures
        e is SelectFailed || e is IdleFailed ==> transition(a, e).0.stage is Connect && !transition(
            a,
            e,
        ).0.session && transition(a, e).0.supports_idle is None,
        e is SelectFailed ==> transition(a, e).1 == seq![Effect::Logout],
        e is IdleFailed ==> transition(a, e).1 == seq![Effect::Network { online: false }],
        e is NoInbox ==> transition(a, e).0.stage is AwaitInbox && transition(a, e).1.len() == 0,
        a.stage is IdleBody ==> transition(a, e).0.stage is Drain,
        (a.stage is Poll || a.stage is AwaitInbox) && e is TimedOut ==> (if a.session {
            transition(a, e).0.stage is Drain
        } else {
            transition(a, e).0.stage is Connect
        }),
        (a.stage is AwaitNudge || a.stage is Backoff) && e is Received && e
            != Event::Received(SyncCmd::Shutdown) ==> transition(a, e).0.stage is Connect,
        e matches Event::Connected { idle } ==> transition(a, e).0.supports_idle == Some(idle),
        e matches Event::CycleDone { done, total, .. } ==> transition(a, e).1.contains(
            Effect::Progress { done, total },
        ),
{
    let effects = transition(a, e).1;
    if e is CycleDone {
        let k = effects.len() - 2;
        assert(effects.contains(effects[k]));
    }
}

/// A shutdown ends the actor wherever it listens, and so does the loss of the last
/// sender; a caller that waits for a sync is remembered, and one that does not wait
/// is not.
pub proof fn commands_mean_what_they_say(a: Actor, e: Event)
    requires
        sound(a),
        fits(a.stage, e),
    ensures
        e is Closed || e == Event::Received(SyncCmd::Shutdown) ==> transition(a, e).0.stage
            is Stopped,
        e == Event::Received(SyncCmd::SyncNow { waits: true }) && !(a.stage is AwaitInbox)
            ==> transition(a, e).0.callers,
        e == Event::Received(SyncCmd::SyncNow { waits: false }) ==> transition(a, e).0.callers
            == a.callers,
        e is TimedOut || e is Activity ==> transition(a, e).0.callers == a.callers,
{
}

/// Failed connections are retried after 1, 2, 4, ... seconds and never after
/// more than five minutes; a connection starts the count anew.
pub proof fn backoff_doubles(a: Actor)
    requires
        sound(a),
        a.stage is Connect,
    ensures
        ({
            let failed = transition(a, Event::ConnectFailed).0;
            &&& failed.wait_secs == a.backoff_secs
            &&& failed.backoff_secs == (if 2 * a.backoff_secs <= 300 {
                2 * a.backoff_secs
            } else {
                300
            })
            &&& transition(failed, Event::TimedOut).0.stage is Connect
            &&& transition(failed, Event::TimedOut).0.backoff_secs == failed.backoff_secs
        }),
        forall|idle: bool| #[trigger]
            transition(a, Event::Connected { idle }).0.backoff_secs == 1,
{
}

} // verus!
