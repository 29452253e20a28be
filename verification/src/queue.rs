//! Pending-action executor. Local mutations already happened optimistically
//! when the action was enqueued; this module decides what is replayed against
//! the server, in order, and what becomes of an action after each attempt.

use vstd::prelude::*;

use crate::actions::{
    all_steps, every_change_is_queued, label_ref, message_steps, move_target, revert_steps,
    thread_steps, LabelRef, NewAction, PendingAction, Step, ThreadMessage, ThreadRows,
};
use crate::error::{CoreError, ErrorView};
use crate::models::{ActionKind, ActionParams, Address, Label, Provider};
use crate::text::{
    before, chars_of, concat3, contains_str, decimal_int, find_char,
    find_char_in, has_text, i64_text, lemma_find_char, lower, lower_str, opt_text, owned,
    string_of, strip, strip_chars, texts, TrimSet,
};
use vstd::slice::slice_subrange;

pub mod outgoing;

verus! {

/// After this many attempts an action has failed.
pub const MAX_ATTEMPTS: i64 = 8;

/// The most actions that one slice takes from the queue.
pub const MAX_ACTIONS_PER_SLICE: i64 = 20;

/// A slice starts no further action once it has run this long.
pub const MAX_SLICE_MS: u64 = 2_000;

/// An action that cannot sign in is tried again after this time.
pub const REAUTH_RETRY_MS: i64 = 60_000;

/// Outcome of one fair pending-action execution slice.
#[derive(Debug, Clone, Copy, PartialEq, Eq, Structural)]
pub struct ActionSliceResult {
    /// Actions atomically claimed and attempted during this slice.
    pub processed: usize,
    /// More IMAP/SMTP actions are ready now; the caller should schedule another
    /// slice without waiting for the normal sync interval.
    pub due_remaining: bool,
}

// ---------------------------------------------------------------------------
// The slice
// ---------------------------------------------------------------------------

/// A slice under way: the actions that were due when it began, how many of
/// them have been offered, and how many of those were claimed.
#[derive(Debug)]
pub struct ActionSlice {
    due: Vec<PendingAction>,
    offered: usize,
    processed: usize,
}

impl ActionSlice {
    pub closed spec fn due(self) -> Seq<PendingAction> {
        self.due@
    }

    pub closed spec fn offered(self) -> nat {
        self.offered as nat
    }

    pub closed spec fn processed(self) -> nat {
        self.processed as nat
    }

    /// No action is offered twice, and only offered actions are processed.
    #[verifier::type_invariant]
    spec fn bounded(self) -> bool {
        self.processed <= self.offered <= self.due@.len()
    }

    pub fn begin(due: Vec<PendingAction>) -> (r: ActionSlice)
        ensures
            r.due() == due@,
            r.offered() == 0,
            r.processed() == 0,
    {
        ActionSlice { due, offered: 0, processed: 0 }
    }

    /// The position of the next action to claim, in the order in which they
    /// came due. This is a cooperative budget: never abandon an action midway
    /// through an IMAP/SMTP command, but do not start another after the slice
    /// expires.
    pub fn next(&mut self, elapsed_ms: u64) -> (r: Option<usize>)
        ensures
            final(self).due() == old(self).due(),
            final(self).processed() == old(self).processed(),
            match r {
                Some(i) => elapsed_ms < MAX_SLICE_MS && i == old(self).offered() && i < old(
                    self,
                ).due().len() && final(self).offered() == i + 1,
                None => (elapsed_ms >= MAX_SLICE_MS || old(self).offered() >= old(
                    self,
                ).due().len()) && final(self).offered() == old(self).offered(),
            },
    {
        proof {
            use_type_invariant(&*self);
        }
        if elapsed_ms >= MAX_SLICE_MS || self.offered >= self.due.len() {
            return None;
        }
        let i: usize = self.offered;
        self.offered = i + 1;
        Some(i)
    }

    /// The action at a position.
    pub fn action(&self, i: usize) -> (r: &PendingAction)
        requires
            i < self.due().len(),
        ensures
            *r == self.due()[i as int],
    {
        &self.due[i]
    }

    /// The action that was offered last could be claimed. Where undo or cancel
    /// got there first it is skipped, and this is not called.
    pub fn claimed(&mut self)
        requires
            old(self).processed() < old(self).offered(),
        ensures
            final(self).due() == old(self).due(),
            final(self).offered() == old(self).offered(),
            final(self).processed() == old(self).processed() + 1,
    {
        proof {
            use_type_invariant(&*self);
        }
        self.processed = self.processed + 1;
    }

    pub fn finish(&self, due_remaining: bool) -> (r: ActionSliceResult)
        ensures
            r == (ActionSliceResult { processed: r.processed, due_remaining }),
            r.processed == self.processed(),
            r.processed <= self.due().len(),
    {
        proof {
            use_type_invariant(self);
        }
        ActionSliceResult { processed: self.processed, due_remaining }
    }
}

// ---------------------------------------------------------------------------
// After an attempt
// ---------------------------------------------------------------------------

/// IMAP tagged NO responses and SMTP 5xx are not going to succeed on retry.
pub open spec fn permanent(msg: Seq<char>) -> bool {
    has_text(msg, "NO "@) || has_text(msg, "550"@) || has_text(msg, "553"@) || has_text(
        msg,
        "bad "@,
    )
}

/// The connection itself is gone, in any spelling of case.
pub open spec fn connection_failure(msg: Seq<char>) -> bool {
    let m = lower(msg);
    has_text(m, "connect"@) || has_text(m, "broken"@) || has_text(m, "closed"@) || has_text(
        m,
        "timed out"@,
    ) || has_text(m, "unexpected eof"@)
}

pub fn is_permanent(msg: &str) -> (r: bool)
    ensures
        r == permanent(msg@),
{
    contains_str(msg, "NO ") || contains_str(msg, "550") || contains_str(msg, "553")
        || contains_str(msg, "bad ")
}

pub fn is_connection_failure(msg: &str) -> (r: bool)
    ensures
        r == connection_failure(msg@),
{
    let low: String = lower_str(msg);
    let m: &str = low.as_str();
    contains_str(m, "connect") || contains_str(m, "broken") || contains_str(m, "closed")
        || contains_str(m, "timed out") || contains_str(m, "unexpected eof")
}

/// What remains of a number after dividing it by 997, with the sign of the
/// number.
pub open spec fn jitter(action_id: int) -> int {
    if action_id >= 0 {
        action_id % 997
    } else {
        -((-action_id) % 997)
    }
}

/// Two to the power of `n`.
pub open spec fn doubled(n: nat) -> nat
    decreases n,
{
    if n == 0 {
        1
    } else {
        2 * doubled((n - 1) as nat)
    }
}

/// Exponential backoff with jitter: 2, 4, 8, ... seconds after attempt 1, 2,
/// 3, ..., and at most 256.
pub open spec fn backoff_ms(attempts: nat, action_id: int) -> int {
    doubled(if attempts <= 8 {
        attempts
    } else {
        8
    }) * 1000 + jitter(action_id)
}

/// What becomes of an action after an attempt.
#[derive(Debug, Clone)]
pub enum Settlement {
    /// It ran.
    Done,
    /// It stays in the queue until the account is signed in again; the slice
    /// ends. `notify` holds what the user is told, for a send that did not go
    /// out.
    Paused { retry_ms: i64, message: String, notify: Option<String> },
    /// It is given up.
    Failed { message: String },
    /// It is tried again; after a lost connection the slice ends.
    Retry { delay_ms: i64, message: String, reconnect: bool },
}

/// The rule for what becomes of an action. `error` is `None` where the attempt
/// succeeded, and `text` is the failure in words.
pub open spec fn settled(
    action: PendingAction,
    error: Option<CoreError>,
    text: Seq<char>,
    s: Settlement,
) -> bool {
    match error {
        None => s is Done,
        Some(e) => if e.wants_sign_in() {
            s matches Settlement::Paused { retry_ms, message, notify } && retry_ms
                == REAUTH_RETRY_MS && message@ == "authentication required"@ && opt_text(notify)
                == (if action.kind@ == ActionKind::Send.name() {
                Some(text)
            } else {
                None
            })
        } else if action.attempts + 1 >= MAX_ATTEMPTS || permanent(text) {
            s matches Settlement::Failed { message } && message@ == text
        } else {
            s matches Settlement::Retry { delay_ms, message, reconnect } && delay_ms == backoff_ms(
                (action.attempts + 1) as nat,
                action.id as int,
            ) && message@ == text && reconnect == connection_failure(text)
        },
    }
}

proof fn lemma_doubled()
    ensures
        doubled(1) == 2,
        doubled(2) == 4,
        doubled(3) == 8,
        doubled(4) == 16,
        doubled(5) == 32,
        doubled(6) == 64,
        doubled(7) == 128,
        doubled(8) == 256,
{
    reveal_with_fuel(doubled, 9);
}

fn power_of_two(n: i64) -> (r: i64)
    requires
        0 <= n <= 8,
    ensures
        r == doubled(n as nat),
        1 <= r <= 256,
{
    let mut r: i64 = 1;
    let mut i: i64 = 0;
    proof {
        lemma_doubled();
    }
    while i < n
        invariant
            0 <= i <= n <= 8,
            r == doubled(i as nat),
            1 <= r,
            doubled(0) == 1,
            doubled(1) == 2,
            doubled(2) == 4,
            doubled(3) == 8,
            doubled(4) == 16,
            doubled(5) == 32,
            doubled(6) == 64,
            doubled(7) == 128,
            doubled(8) == 256,
        decreases n - i,
    {
        r = r * 2;
        i = i + 1;
    }
    r
}

fn jitter_of(action_id: i64) -> (r: i64)
    ensures
        r == jitter(action_id as int),
        -997 < r < 997,
{
    let wide: i128 = action_id as i128;
    if wide >= 0 {
        ((wide as u128) % 997) as i64
    } else {
        let m: i64 = (((-wide) as u128) % 997) as i64;
        -m
    }
}

/// The failure with which a slice ends after an action was settled; none where it
/// goes on. A sign-in that is needed ends it, and so does a lost connection.
pub fn ends_slice(settlement: &Settlement, error: Option<CoreError>) -> (r: Option<CoreError>)
    ensures
        r == (match *settlement {
            Settlement::Paused { .. } => Some(CoreError::NeedsReauth),
            Settlement::Retry { reconnect: true, .. } => error,
            _ => None,
        }),
        *settlement is Done || *settlement is Failed ==> r is None,
        *settlement is Paused ==> r == Some(CoreError::NeedsReauth),
        *settlement is Retry && !settlement->reconnect ==> r is None,
        *settlement is Retry && settlement->reconnect ==> r == error,
{
    match settlement {
        Settlement::Paused { .. } => Some(CoreError::NeedsReauth),
        Settlement::Retry { reconnect, .. } => if *reconnect {
            error
        } else {
            None
        },
        _ => None,
    }
}

/// Decide what becomes of an action after an attempt.
pub fn settle(action: &PendingAction, error: Option<&CoreError>, text: &str) -> (r: Settlement)
    requires
        -1 <= action.attempts < i64::MAX,
    ensures
        settled(*action, crate::actions::owned_ref(error), text@, r),
{
    match error {
        None => Settlement::Done,
        Some(e) => {
            if e.needs_sign_in() {
                let notify: Option<String> = if action.kind.as_str().eq("send") {
                    Some(owned(text))
                } else {
                    None
                };
                return Settlement::Paused {
                    retry_ms: REAUTH_RETRY_MS,
                    message: owned("authentication required"),
                    notify,
                };
            }
            let attempts: i64 = action.attempts + 1;
            if attempts >= MAX_ATTEMPTS || is_permanent(text) {
                Settlement::Failed { message: owned(text) }
            } else {
                let delay_ms: i64 = power_of_two(attempts) * 1000 + jitter_of(action.id);
                Settlement::Retry {
                    delay_ms,
                    message: owned(text),
                    reconnect: is_connection_failure(text),
                }
            }
        },
    }
}

/// What becomes of an action follows from how it failed, and from nothing else. One
/// that ran is done. One that could not sign in is never given up: it waits a
/// minute, and the user is told of a message that did not go out. What the server
/// refuses for good, and the eighth failure, end an action; any other failure
/// leads to another try, on a new connection where the old one is lost, after two
/// seconds, then four, and so on, but for the jitter.
pub proof fn failures_are_settled_by_their_kind(
    action: PendingAction,
    error: Option<CoreError>,
    text: Seq<char>,
    s: Settlement,
)
    requires
        settled(action, error, text, s),
        0 <= action.attempts,
    ensures
        s is Done <==> error is None,
        s is Paused <==> error is Some && error->0.wants_sign_in(),
        s is Paused ==> s->retry_ms == 60_000 && (s->notify is Some <==> action.kind@ == "send"@),
        error is Some && !error->0.wants_sign_in() && (action.attempts >= 7 || has_text(
            text,
            "550"@,
        ) || has_text(text, "553"@) || has_text(text, "NO "@) || has_text(text, "bad "@)) ==> s
            is Failed,
        error is Some && !error->0.wants_sign_in() && action.attempts < 7 && !has_text(text, "550"@)
            && !has_text(text, "553"@) && !has_text(text, "NO "@) && !has_text(text, "bad "@) ==> s
            is Retry,
        s is Retry && action.attempts == 0 ==> 2_000 - 997 < s->delay_ms < 2_000 + 997,
        s is Retry && action.attempts == 1 ==> 4_000 - 997 < s->delay_ms < 4_000 + 997,
        s is Retry && action.attempts == 6 ==> 128_000 - 997 < s->delay_ms < 128_000 + 997,
        s is Retry && 0 <= action.id < 997 ==> s->delay_ms == 1_000 * doubled(
            (action.attempts + 1) as nat,
        ) + action.id,
        s is Retry && (has_text(lower(text), "connect"@) || has_text(lower(text), "broken"@)
            || has_text(lower(text), "closed"@) || has_text(lower(text), "timed out"@) || has_text(
            lower(text),
            "unexpected eof"@,
        )) ==> s->reconnect,
        s is Retry && s->reconnect ==> has_text(lower(text), "connect"@) || has_text(
            lower(text),
            "broken"@,
        ) || has_text(lower(text), "closed"@) || has_text(lower(text), "timed out"@) || has_text(
            lower(text),
            "unexpected eof"@,
        ),
        s matches Settlement::Failed { message } ==> message@ == text,
        s matches Settlement::Retry { message, .. } ==> message@ == text,
        s matches Settlement::Paused { notify: Some(said), .. } ==> said@ == text,
{
    lemma_doubled();
    assert(-997 < jitter(action.id as int) < 997);
}

/// A failing action is retried with growing delays and then given up: each
/// delay lies between a second and five minutes, a later attempt of the same
/// action waits longer than an earlier one, and the last attempt is never
/// followed by another.
pub proof fn retries_grow_and_end(
    action: PendingAction,
    later: PendingAction,
    error: CoreError,
    text: Seq<char>,
    first: Settlement,
    second: Settlement,
)
    requires
        0 <= action.attempts < later.attempts,
        later.id == action.id,
        !error.wants_sign_in(),
        settled(action, Some(error), text, first),
        settled(later, Some(error), text, second),
    ensures
        first matches Settlement::Retry { delay_ms, .. } ==> 1_000 < delay_ms < 300_000,
        first is Retry && second is Retry ==> first->delay_ms < second->delay_ms,
        action.attempts + 1 >= MAX_ATTEMPTS ==> first is Failed,
        first is Failed ==> second is Failed,
{
    lemma_doubled();
    assert(-997 < jitter(action.id as int) < 997);
}

// ---------------------------------------------------------------------------
// What an action asks of the server
// ---------------------------------------------------------------------------

/// The flags that every server has.
#[derive(Debug, Clone, Copy, PartialEq, Eq, Structural)]
pub enum SystemFlag {
    Seen,
    Flagged,
}

impl SystemFlag {
    pub open spec fn name(self) -> Seq<char> {
        match self {
            SystemFlag::Seen => "\\Seen"@,
            SystemFlag::Flagged => "\\Flagged"@,
        }
    }

    pub fn as_str(&self) -> (r: &'static str)
        ensures
            r@ == self.name(),
    {
        match self {
            SystemFlag::Seen => "\\Seen",
            SystemFlag::Flagged => "\\Flagged",
        }
    }
}

/// What an action does on the server.
#[derive(Debug, Clone, Copy, PartialEq, Eq, Structural)]
pub enum RemoteEffect {
    StoreFlag { flag: SystemFlag, add: bool },
    MoveMessage,
    StoreKeyword { add: bool },
    SendDraft,
    /// Local-only kinds recorded for undo history, and kinds that are not known.
    Nothing,
}

pub open spec fn effect_of(kind: ActionKind) -> RemoteEffect {
    match kind {
        ActionKind::MarkRead => RemoteEffect::StoreFlag { flag: SystemFlag::Seen, add: true },
        ActionKind::MarkUnread => RemoteEffect::StoreFlag { flag: SystemFlag::Seen, add: false },
        ActionKind::Star => RemoteEffect::StoreFlag { flag: SystemFlag::Flagged, add: true },
        ActionKind::Unstar => RemoteEffect::StoreFlag { flag: SystemFlag::Flagged, add: false },
        ActionKind::Archive
        | ActionKind::Unarchive
        | ActionKind::Trash
        | ActionKind::Spam
        | ActionKind::NotSpam
        | ActionKind::Move => RemoteEffect::MoveMessage,
        ActionKind::AddLabel => RemoteEffect::StoreKeyword { add: true },
        ActionKind::RemoveLabel => RemoteEffect::StoreKeyword { add: false },
        ActionKind::Send => RemoteEffect::SendDraft,
        ActionKind::Snooze | ActionKind::Unsnooze => RemoteEffect::Nothing,
    }
}

/// What a queued action does on the server.
pub fn execute_one(kind: &str) -> (r: RemoteEffect)
    ensures
        forall|k: ActionKind| #[trigger] k.name() == kind@ ==> r == effect_of(k),
        (forall|k: ActionKind| #[trigger] k.name() != kind@) ==> r is Nothing,
{
    match ActionKind::from_str(kind) {
        None => RemoteEffect::Nothing,
        Some(k) => {
            proof {
                assert forall|o: ActionKind| #[trigger] o.name() == kind@ implies o == k by {
                    ActionKind::names_differ(o, k);
                }
                assert(k.name() == kind@);
            }
            match k {
                ActionKind::MarkRead => RemoteEffect::StoreFlag {
                    flag: SystemFlag::Seen,
                    add: true,
                },
                ActionKind::MarkUnread => RemoteEffect::StoreFlag {
                    flag: SystemFlag::Seen,
                    add: false,
                },
                ActionKind::Star => RemoteEffect::StoreFlag {
                    flag: SystemFlag::Flagged,
                    add: true,
                },
                ActionKind::Unstar => RemoteEffect::StoreFlag {
                    flag: SystemFlag::Flagged,
                    add: false,
                },
                ActionKind::Archive
                | ActionKind::Unarchive
                | ActionKind::Trash
                | ActionKind::Spam
                | ActionKind::NotSpam
                | ActionKind::Move => RemoteEffect::MoveMessage,
                ActionKind::AddLabel => RemoteEffect::StoreKeyword { add: true },
                ActionKind::RemoveLabel => RemoteEffect::StoreKeyword { add: false },
                ActionKind::Send => RemoteEffect::SendDraft,
                ActionKind::Snooze | ActionKind::Unsnooze => RemoteEffect::Nothing,
            }
        },
    }
}

/// Undoing an action that already ran asks the server for the opposite: the
/// same flag or keyword the other way round.
pub proof fn inverse_kinds_have_inverse_effects(kind: ActionKind)
    ensures
        effect_of(kind) matches RemoteEffect::StoreFlag { flag, add } ==> effect_of(
            crate::actions::inverse(kind),
        ) == (RemoteEffect::StoreFlag { flag, add: !add }),
        effect_of(kind) matches RemoteEffect::StoreKeyword { add } ==> effect_of(
            crate::actions::inverse(kind),
        ) == (RemoteEffect::StoreKeyword { add: !add }),
        crate::actions::inverse(crate::actions::inverse(kind)) == kind,
{
}

/// What is changed here is changed on the server too. Of the writes of an action
/// on a thread, `k` is any: a message that is put into a folder is moved, a mark
/// or a star is stored as the flag of the server, on or off as here, and a label
/// as its keyword; and what is queued moves, marks or labels only what was
/// changed here. Only snoozing has nothing to do on the server.
pub proof fn every_change_reaches_the_server(
    t: ThreadRows,
    kind: ActionKind,
    params: Option<ActionParams>,
    label: Option<Label>,
    steps: Seq<Step>,
    k: int,
)
    requires
        thread_steps(t, kind, params, label) == Ok::<Seq<Step>, ErrorView>(steps),
        0 <= k < steps.len(),
    ensures
        steps[k] matches Step::SetFolder { message_id, folder_id, .. } ==> k + 1 < steps.len() && (
        steps[k + 1] matches Step::Enqueue(a) && a.message_id == Some(message_id)
            && a.payload.target_folder_id == Some(folder_id) && effect_of(a.kind) is MoveMessage),
        steps[k] matches Step::SetRead { message_id, read } ==> k + 1 < steps.len() && (steps[k
            + 1] matches Step::Enqueue(a) && a.message_id == Some(message_id) && effect_of(a.kind)
            == (RemoteEffect::StoreFlag { flag: SystemFlag::Seen, add: read })),
        steps[k] matches Step::SetStarred { message_id, starred } ==> k + 1 < steps.len() && (
        steps[k + 1] matches Step::Enqueue(a) && a.message_id == Some(message_id) && effect_of(
            a.kind,
        ) == (RemoteEffect::StoreFlag { flag: SystemFlag::Flagged, add: starred })),
        steps[k] matches Step::AddLabel { message_id, label_id } ==> label->0.is_auto || (k + 1
            < steps.len() && (steps[k + 1] matches Step::Enqueue(a) && a.message_id == Some(
            message_id,
        ) && a.payload.label_id == Some(label_id) && effect_of(a.kind)
            == (RemoteEffect::StoreKeyword { add: true }))),
        steps[k] matches Step::RemoveLabel { message_id, label_id } ==> label->0.is_auto || (k + 1
            < steps.len() && (steps[k + 1] matches Step::Enqueue(a) && a.message_id == Some(
            message_id,
        ) && a.payload.label_id == Some(label_id) && effect_of(a.kind)
            == (RemoteEffect::StoreKeyword { add: false }))),
        steps[k] matches Step::Enqueue(a) ==> (effect_of(a.kind) is Nothing ==> kind is Snooze
            || kind is Unsnooze) && !(effect_of(a.kind) is SendDraft) && (effect_of(a.kind)
            is MoveMessage ==> k > 0 && steps[k - 1] is SetFolder) && (effect_of(a.kind)
            is StoreFlag ==> k > 0 && (steps[k - 1] is SetRead || steps[k - 1] is SetStarred)) && (
        effect_of(a.kind) is StoreKeyword ==> k > 0 && (steps[k - 1] is AddLabel || steps[k - 1]
            is RemoveLabel)),
{
    every_change_is_queued(t, kind, params, label, steps, k);
    if k > 0 {
        every_change_is_queued(t, kind, params, label, steps, k - 1);
    }
    if k + 1 < steps.len() {
        every_change_is_queued(t, kind, params, label, steps, k + 1);
    }
    lemma_moving_kind(t, kind, params, label, steps, k);
    if k > 0 {
        lemma_moving_kind(t, kind, params, label, steps, k - 1);
    }
}

/// Only a kind that moves mail writes a folder, and so on for the other writes.
proof fn lemma_moving_kind(
    t: ThreadRows,
    kind: ActionKind,
    params: Option<ActionParams>,
    label: Option<Label>,
    steps: Seq<Step>,
    k: int,
)
    requires
        thread_steps(t, kind, params, label) == Ok::<Seq<Step>, ErrorView>(steps),
        0 <= k < steps.len(),
    ensures
        steps[k] is SetFolder ==> effect_of(kind) is MoveMessage,
        steps[k] is SetRead ==> kind is MarkRead || kind is MarkUnread,
        steps[k] is SetStarred ==> kind is Star || kind is Unstar,
        steps[k] is AddLabel ==> kind is AddLabel,
        steps[k] is RemoveLabel ==> kind is RemoveLabel,
        steps[k] is SetSnooze ==> kind is Snooze,
{
    match kind {
        ActionKind::Star | ActionKind::Snooze | ActionKind::Unsnooze => {},
        _ => {
            let target = match kind {
                ActionKind::Move => params->0.target_folder_id->0,
                ActionKind::MarkRead
                | ActionKind::MarkUnread
                | ActionKind::Unstar
                | ActionKind::AddLabel
                | ActionKind::RemoveLabel => 0,
                _ => move_target(t.folders, kind)->0,
            };
            let l = match kind {
                ActionKind::AddLabel | ActionKind::RemoveLabel => Some(
                    label_ref(params->0.label_id->0, label->0),
                ),
                _ => None,
            };
            let all = all_steps(t, kind, target, l, t.messages@);
            if k < all.len() {
                assert(all[k] == steps[k]);
                lemma_moving_all(t, kind, target, l, t.messages@, k);
            }
        },
    }
}

proof fn lemma_moving_all(
    t: ThreadRows,
    kind: ActionKind,
    target: i64,
    l: Option<LabelRef>,
    messages: Seq<ThreadMessage>,
    k: int,
)
    requires
        0 <= k < all_steps(t, kind, target, l, messages).len(),
    ensures
        ({
            let step = all_steps(t, kind, target, l, messages)[k];
            &&& step is SetFolder ==> effect_of(kind) is MoveMessage
            &&& step is SetRead ==> kind is MarkRead || kind is MarkUnread
            &&& step is SetStarred ==> kind is Unstar
            &&& step is AddLabel ==> kind is AddLabel
            &&& step is RemoveLabel ==> kind is RemoveLabel
            &&& !(step is SetSnooze)
        }),
    decreases messages.len(),
{
    if messages.len() > 0 {
        let rest = messages.drop_last();
        let before = all_steps(t, kind, target, l, rest);
        let own = message_steps(t, kind, target, l, messages.last());
        if k < before.len() {
            lemma_moving_all(t, kind, target, l, rest, k);
        } else {
            assert(own.len() <= 2);
            assert(all_steps(t, kind, target, l, messages)[k] == own[k - before.len()]);
        }
    }
}

/// Undoing an action that still waits asks the server for nothing. Undoing one
/// that already ran asks it for the opposite: the flag or the keyword the other
/// way round, or the move back to where the message was.
pub proof fn undoing_reaches_the_server(a: NewAction, was_pending: bool, k: int)
    requires
        0 <= k < revert_steps(a, was_pending).len(),
    ensures
        was_pending ==> !(revert_steps(a, was_pending)[k] is Enqueue),
        revert_steps(a, was_pending)[k] matches Step::Enqueue(b) ==> k == 1 && b.account_id
            == a.account_id && b.message_id == a.message_id && b.thread_id == a.thread_id && (
        effect_of(a.kind) matches RemoteEffect::StoreFlag { flag, add } ==> effect_of(b.kind)
            == (RemoteEffect::StoreFlag { flag, add: !add })) && (effect_of(
            a.kind,
        ) matches RemoteEffect::StoreKeyword { add } ==> effect_of(b.kind)
            == (RemoteEffect::StoreKeyword { add: !add }) && b.payload.keyword == a.payload.keyword)
            && (effect_of(a.kind) is MoveMessage ==> effect_of(b.kind) is MoveMessage
            && b.payload.target_folder_id == a.payload.src_folder_id && b.payload.src_folder_id
            == a.payload.target_folder_id) && !(effect_of(a.kind) is SendDraft) && !(effect_of(
            a.kind,
        ) is Nothing),
        !was_pending && !(effect_of(a.kind) is Nothing) && !(effect_of(a.kind) is SendDraft)
            ==> revert_steps(a, was_pending).len() == 2 && revert_steps(a, was_pending)[1]
            is Enqueue,
        revert_steps(a, was_pending)[0] matches Step::SetRead { message_id, read } ==> a.message_id
            == Some(message_id) && effect_of(a.kind) == (RemoteEffect::StoreFlag {
            flag: SystemFlag::Seen,
            add: !read,
        }),
        revert_steps(a, was_pending)[0] matches Step::SetStarred { message_id, starred }
            ==> a.message_id == Some(message_id) && effect_of(a.kind) == (RemoteEffect::StoreFlag {
            flag: SystemFlag::Flagged,
            add: !starred,
        }),
        revert_steps(a, was_pending)[0] matches Step::SetFolder { message_id, folder_id, uid }
            ==> a.message_id == Some(message_id) && a.payload.src_folder_id == Some(folder_id)
            && effect_of(a.kind) is MoveMessage && (was_pending ==> uid == a.payload.src_uid),
{
}

/// What each name in the queue asks of the server.
pub proof fn queued_names_have_their_effects(kind: ActionKind)
    ensures
        effect_of(kind) is MoveMessage <==> kind.name() == "archive"@ || kind.name()
            == "unarchive"@ || kind.name() == "trash"@ || kind.name() == "spam"@ || kind.name()
            == "not_spam"@ || kind.name() == "move"@,
        effect_of(kind) is Nothing <==> kind.name() == "snooze"@ || kind.name() == "unsnooze"@,
        effect_of(kind) is SendDraft <==> kind.name() == "send"@,
        kind.name() == "mark_read"@ ==> effect_of(kind) == (RemoteEffect::StoreFlag {
            flag: SystemFlag::Seen,
            add: true,
        }),
        kind.name() == "star"@ ==> effect_of(kind) == (RemoteEffect::StoreFlag {
            flag: SystemFlag::Flagged,
            add: true,
        }),
        kind.name() == "add_label"@ ==> effect_of(kind) == (RemoteEffect::StoreKeyword {
            add: true,
        }),
{
    ActionKind::names_differ(kind, ActionKind::Archive);
    ActionKind::names_differ(kind, ActionKind::Unarchive);
    ActionKind::names_differ(kind, ActionKind::Trash);
    ActionKind::names_differ(kind, ActionKind::Spam);
    ActionKind::names_differ(kind, ActionKind::NotSpam);
    ActionKind::names_differ(kind, ActionKind::Move);
    ActionKind::names_differ(kind, ActionKind::Snooze);
    ActionKind::names_differ(kind, ActionKind::Unsnooze);
    ActionKind::names_differ(kind, ActionKind::Send);
    ActionKind::names_differ(kind, ActionKind::MarkRead);
    ActionKind::names_differ(kind, ActionKind::Star);
    ActionKind::names_differ(kind, ActionKind::AddLabel);
}

/// A message on the server: its folder here and its UID there.
#[derive(Debug, Clone, Copy, PartialEq, Eq, Structural)]
pub struct RemotePlace {
    pub folder_id: i64,
    pub uid: u32,
}

/// A folder and a UID make a place on the server. The store keeps UIDs in 64
/// bits, the server in 32.
pub open spec fn place(folder_id: Option<i64>, uid: Option<i64>) -> Option<RemotePlace> {
    match (folder_id, uid) {
        (Some(folder_id), Some(uid)) => Some(RemotePlace { folder_id, uid: uid as u32 }),
        _ => None,
    }
}

/// The message's current remote place; `row` is the folder and the UID of its
/// row, where there is one.
pub fn resolve_remote(row: Option<(Option<i64>, Option<i64>)>) -> (r: Option<RemotePlace>)
    ensures
        r == match row {
            Some((folder_id, uid)) => place(folder_id, uid),
            None => None,
        },
{
    match row {
        Some((Some(folder_id), Some(uid))) => Some(
            RemotePlace {
                folder_id,
                uid: #[verifier::truncate]
                (uid as u32),
            },
        ),
        _ => None,
    }
}

/// For moves the local row already points at the *target* folder; the remote
/// source place is stored in the payload.
pub fn resolve_source(action: &PendingAction) -> (r: Option<RemotePlace>)
    ensures
        r == place(action.payload.src_folder_id, action.payload.src_uid),
{
    resolve_remote(Some((action.payload.src_folder_id, action.payload.src_uid)))
}

/// A move on the server: the UID to move in the selected source folder, the
/// target folder, and the message whose row then points there without a UID.
#[derive(Debug, Clone, Copy, PartialEq, Eq, Structural)]
pub struct MoveOrder {
    pub message_id: i64,
    pub source: RemotePlace,
    pub target_folder_id: i64,
}

/// What a move action asks for, where it asks for anything: it has to name a
/// message, a source that still exists and a target.
pub open spec fn move_order(action: PendingAction, source_exists: bool) -> Option<MoveOrder> {
    match (
        action.message_id,
        place(action.payload.src_folder_id, action.payload.src_uid),
        action.payload.target_folder_id,
    ) {
        (Some(message_id), Some(source), Some(target_folder_id)) => if source_exists {
            Some(MoveOrder { message_id, source, target_folder_id })
        } else {
            None
        },
        _ => None,
    }
}

/// A move takes the message that the action names from where the action remembers
/// it to where the action wants it; and it is made wherever all of that is there.
pub proof fn moves_go_where_the_action_says(action: PendingAction, source_exists: bool)
    ensures
        move_order(action, source_exists) is Some <==> source_exists && action.message_id is Some
            && action.payload.src_folder_id is Some && action.payload.src_uid is Some
            && action.payload.target_folder_id is Some,
        move_order(action, source_exists) matches Some(o) ==> action.message_id == Some(
            o.message_id,
        ) && action.payload.src_folder_id == Some(o.source.folder_id)
            && action.payload.target_folder_id == Some(o.target_folder_id) && (0
            <= action.payload.src_uid->0 <= u32::MAX ==> o.source.uid == action.payload.src_uid->0),
{
}

/// Plan a move. A target that is gone is an error; anything else that is
/// missing makes the move moot.
pub fn move_action(action: &PendingAction, source_exists: bool, target_exists: bool) -> (r: Result<
    Option<MoveOrder>,
    CoreError,
>)
    ensures
        match move_order(*action, source_exists) {
            Some(o) => if target_exists {
                r == Ok::<Option<MoveOrder>, CoreError>(Some(o))
            } else {
                r is Err && r->Err_0@ == ErrorView::NotFound("target folder"@)
            },
            None => r == Ok::<Option<MoveOrder>, CoreError>(None),
        },
{
    let message_id: i64 = match action.message_id {
        Some(id) => id,
        None => return Ok(None),
    };
    let source: RemotePlace = match resolve_source(action) {
        Some(p) => p,
        None => return Ok(None),
    };
    if !source_exists {
        return Ok(None);
    }
    match action.payload.target_folder_id {
        Some(target_folder_id) => if target_exists {
            Ok(Some(MoveOrder { message_id, source, target_folder_id }))
        } else {
            Err(CoreError::NotFound(owned("target folder")))
        },
        None => Ok(None),
    }
}

// ---------------------------------------------------------------------------
// Sending
// ---------------------------------------------------------------------------

/// The draft that a send action sends.
pub fn draft_of(action: &PendingAction) -> (r: Result<i64, CoreError>)
    ensures
        match action.payload.draft_id {
            Some(id) => r == Ok::<i64, CoreError>(id),
            None => r is Err && r->Err_0@ == ErrorView::Other("send action without draftId"@),
        },
{
    match action.payload.draft_id {
        Some(id) => Ok(id),
        None => Err(CoreError::Other(owned("send action without draftId"))),
    }
}

/// The domain of a sender address: what stands between its first and its
/// second `@`.
pub open spec fn sender_domain(email: Seq<char>) -> Seq<char> {
    let at = find_char(email, '@');
    if at < email.len() {
        before(email.skip(at + 1), '@')
    } else {
        "localhost"@
    }
}

/// The domain of an ordinary address is what stands behind its `@`.
pub proof fn domains_stand_behind_the_at(local: Seq<char>, domain: Seq<char>)
    requires
        forall|i: int| 0 <= i < local.len() ==> local[i] != '@',
        forall|i: int| 0 <= i < domain.len() ==> domain[i] != '@',
    ensures
        sender_domain(local + seq!['@'] + domain) == domain,
        sender_domain(local) == "localhost"@,
{
    let email = local + seq!['@'] + domain;
    let at = local.len() as int;
    assert(email[at] == '@');
    lemma_find_char(email, '@');
    lemma_find_char(local, '@');
    assert(find_char(email, '@') == at) by {
        let f = find_char(email, '@');
        if f < at {
            assert(email[f] == local[f]);
        }
    }
    assert(email.skip(at + 1) =~= domain);
    lemma_find_char(domain, '@');
    assert(before(domain, '@') =~= domain);
}

/// The domain under which a message id is made.
pub fn message_id_domain(email: &str) -> (r: String)
    ensures
        r@ == sender_domain(email@),
{
    let cs: Vec<char> = chars_of(email);
    let at: usize = find_char_in(cs.as_slice(), '@');
    if at < cs.len() {
        let rest: &[char] = slice_subrange(cs.as_slice(), at + 1, cs.len());
        proof {
            assert(rest@ =~= email@.skip(at + 1));
            lemma_find_char(rest@, '@');
        }
        let end: usize = find_char_in(rest, '@');
        proof {
            assert(rest@.subrange(0, end as int) =~= rest@.take(end as int));
        }
        string_of(slice_subrange(rest, 0, end))
    } else {
        owned("localhost")
    }
}

/// The reference chain of a reply.
#[derive(Debug, Clone)]
pub struct ReplyChain {
    pub references: Vec<String>,
    pub in_reply_to: Option<String>,
}

/// The references of a reply: those of the message that it answers, then that
/// message itself. `parent` is the message id of that message, where it has one.
pub fn reply_chain(references: Vec<String>, parent: Option<String>) -> (r: ReplyChain)
    ensures
        texts(r.references@) == (match parent {
            Some(p) => texts(references@).push(p@),
            None => texts(references@),
        }),
        opt_text(r.in_reply_to) == opt_text(parent),
        parent is Some ==> r.references@.len() == references@.len() + 1 && r.references@.last()@
            == parent->0@,
        parent is None ==> r.references@.len() == references@.len() && r.in_reply_to is None,
        forall|i: int| 0 <= i < references@.len() ==> r.references@[i]@ == (#[trigger] references@[i])@,
{
    let mut refs: Vec<String> = references;
    match parent {
        Some(p) => {
            refs.push(p.clone());
            proof {
                assert(texts(refs@) =~= texts(references@).push(p@));
            }
            ReplyChain { references: refs, in_reply_to: Some(p) }
        },
        None => ReplyChain { references: refs, in_reply_to: None },
    }
}

/// The mail addresses of a list.
pub open spec fn emails(list: Seq<Address>) -> Seq<Seq<char>> {
    list.map_values(|a: Address| a.email@)
}

fn push_emails(out: &mut Vec<String>, list: &Vec<Address>)
    ensures
        texts(final(out)@) == texts(old(out)@) + emails(list@),
{
    let mut i: usize = 0;
    proof {
        assert(texts(out@) + emails(list@.take(0)) =~= texts(out@));
    }
    while i < list.len()
        invariant
            i <= list@.len(),
            texts(out@) == texts(old(out)@) + emails(list@.take(i as int)),
        decreases list@.len() - i,
    {
        let ghost before = out@;
        out.push(list[i].email.clone());
        i = i + 1;
        proof {
            assert(texts(out@) =~= texts(before).push(list@[i - 1].email@));
            assert(emails(list@.take(i as int)) =~= emails(list@.take(i - 1)).push(
                list@[i - 1].email@,
            ));
            assert(texts(old(out)@) + emails(list@.take(i as int)) =~= (texts(old(out)@) + emails(
                list@.take(i - 1),
            )).push(list@[i - 1].email@));
        }
    }
    proof {
        assert(list@.take(list@.len() as int) =~= list@);
    }
}

/// The envelope recipients of a message: To, Cc and Bcc in this order. There
/// has to be at least one.
pub fn envelope_recipients(to: &Vec<Address>, cc: &Vec<Address>, bcc: &Vec<Address>) -> (r: Result<
    Vec<String>,
    CoreError,
>)
    ensures
        match r {
            Ok(list) => texts(list@) == emails(to@) + emails(cc@) + emails(bcc@)
                && list@.len() > 0,
            Err(e) => e@ == ErrorView::Smtp("no recipients"@) && to@.len() == 0 && cc@.len() == 0
                && bcc@.len() == 0,
        },
        r is Ok <==> to@.len() + cc@.len() + bcc@.len() > 0,
        r matches Ok(list) ==> list@.len() == to@.len() + cc@.len() + bcc@.len() && (forall|i: int|
            0 <= i < to@.len() ==> list@[i]@ == (#[trigger] to@[i]).email@) && (forall|i: int|
            0 <= i < cc@.len() ==> list@[to@.len() + i]@ == (#[trigger] cc@[i]).email@) && (forall|
            i: int,
        |
            0 <= i < bcc@.len() ==> list@[to@.len() + cc@.len() + i]@ == (
            #[trigger] bcc@[i]).email@),
{
    let mut out: Vec<String> = Vec::new();
    proof {
        assert(texts(out@) + emails(to@) =~= emails(to@));
    }
    push_emails(&mut out, to);
    push_emails(&mut out, cc);
    push_emails(&mut out, bcc);
    proof {
        assert(texts(out@).len() == to@.len() + cc@.len() + bcc@.len());
    }
    if out.len() == 0 {
        return Err(CoreError::Smtp(owned("no recipients")));
    }
    proof {
        let all = texts(out@);
        assert(all.len() == out@.len());
        assert forall|i: int| 0 <= i < to@.len() implies out@[i]@ == (#[trigger] to@[i]).email@ by {
            assert(all[i] == emails(to@)[i]);
        }
        assert forall|i: int| 0 <= i < cc@.len() implies out@[to@.len() + i]@ == (
        #[trigger] cc@[i]).email@ by {
            assert(all[to@.len() + i] == emails(cc@)[i]);
        }
        assert forall|i: int| 0 <= i < bcc@.len() implies out@[to@.len() + cc@.len() + i]@ == (
        #[trigger] bcc@[i]).email@ by {
            assert(all[to@.len() + cc@.len() + i] == emails(bcc@)[i]);
        }
    }
    Ok(out)
}

/// Only ever read files inside our own staging root, so a stale/crafted row
/// can't turn dispatch into an arbitrary local-file read.
pub fn check_staged(within_staging: bool, filename: &str) -> (r: Result<(), CoreError>)
    ensures
        r is Ok <==> within_staging,
        r matches Err(e) ==> e@ == ErrorView::Other(
            "attachment "@ + filename@ + ": refusing to read file outside the staging area"@,
        ),
{
    if within_staging {
        Ok(())
    } else {
        Err(
            CoreError::Other(
                concat3(
                    "attachment ",
                    filename,
                    ": refusing to read file outside the staging area",
                ),
            ),
        )
    }
}

/// Append to Sent (Gmail does this automatically).
pub fn appends_to_sent(provider: Provider, has_sent_folder: bool) -> (r: bool)
    ensures
        r == (provider != Provider::Gmail && has_sent_folder),
        provider is Gmail || !has_sent_folder ==> !r,
        !(provider is Gmail) && has_sent_folder ==> r,
{
    !matches!(provider, Provider::Gmail) && has_sent_folder
}

/// The directory below the attachment cache for one attachment of a sent draft.
pub fn sent_attachment_dir(draft_id: i64, index: u64) -> (r: String)
    ensures
        r@ == "sent-"@ + decimal_int(draft_id as int) + "-"@ + decimal_int(index as int),
{
    let draft: String = i64_text(draft_id);
    let position: String = crate::text::u64_text(index);
    let mut out: String = concat3("sent-", draft.as_str(), "-");
    out.push_str(position.as_str());
    out
}

/// What becomes of the row of a draft once it is sent.
#[derive(Debug, Clone)]
pub struct SentRow {
    pub is_draft: bool,
    pub is_outgoing: bool,
    pub is_read: bool,
    pub message_id: String,
    pub folder_id: Option<i64>,
    pub uid: Option<i64>,
    pub date: i64,
}

/// Flip the local draft into a sent message. Message ids are stored without
/// angle brackets, so the Sent-folder sync dedupes against this row instead of
/// duplicating it. Where the account has no Sent folder the row stays where it
/// is.
pub fn sent_row(
    msg_id: &str,
    sent_folder_id: Option<i64>,
    current_folder_id: Option<i64>,
    now_ms: i64,
) -> (r: SentRow)
    ensures
        !r.is_draft,
        r.is_outgoing,
        r.is_read,
        r.message_id@ == strip(msg_id@, TrimSet::AngleBracket),
        r.folder_id == (if sent_folder_id is Some {
            sent_folder_id
        } else {
            current_folder_id
        }),
        r.uid is None,
        r.date == now_ms,
{
    let cs: Vec<char> = chars_of(msg_id);
    let bare: &[char] = strip_chars(cs.as_slice(), TrimSet::AngleBracket);
    SentRow {
        is_draft: false,
        is_outgoing: true,
        is_read: true,
        message_id: string_of(bare),
        folder_id: if sent_folder_id.is_some() {
            sent_folder_id
        } else {
            current_folder_id
        },
        uid: None,
        date: now_ms,
    }
}

} // verus!
