//! The mail of an account as it is stored here: what an action writes at once,
//! what waits in the queue, and what a start makes of both.

use vstd::prelude::*;

use crate::actions::{
    actions_do_what_they_say, actions_need_their_folders, after_step, after_steps, all_steps,
    apply_thread_action, archived_role, every_change_is_queued, ids_distinct, lemma_message_after,
    lemma_steps_bounded, message_steps, move_target, moved_messages_are_queued, new_folder,
    other_messages_are_left_alone, owned_ref, thread_steps, ActionPayload, MessageState, NewAction, RoleFolders, Step, ThreadMessage, ThreadRows,
};
use crate::error::{CoreError, ErrorView};
use crate::lists::{lemma_ends, lemma_picked, lemma_pushed, picked, push_new};
use crate::models::roles::{ALL, ARCHIVE, INBOX, SPAM, TRASH};
use crate::models::{ActionKind, ActionParams, Label};
use crate::startup::{recovered_body_state, recovered_state};
use crate::sync::actor::{is_offline_run, offline_runs_have_no_cycle, Actor, Event};
use crate::text::{clone_opt, owned};

verus! {

/// A folder; the role is empty where it has none.
#[derive(Debug, Clone)]
pub struct StoredFolder {
    pub id: i64,
    pub role: String,
}

/// A message as it is stored.
#[derive(Debug, Clone)]
pub struct StoredMessage {
    pub id: i64,
    pub thread_id: i64,
    pub is_draft: bool,
    pub folder_id: Option<i64>,
    pub uid: Option<i64>,
    pub is_read: bool,
    pub is_starred: bool,
    pub labels: Vec<i64>,
    pub body_state: String,
}

/// How far a queued action has come.
#[derive(Debug, Clone, Copy, PartialEq, Eq, Structural)]
pub enum QueueState {
    Pending,
    Inflight,
    Done,
    Failed,
    Cancelled,
}

/// An action in the queue.
#[derive(Debug, Clone)]
pub struct QueueRow {
    pub id: i64,
    pub action: NewAction,
    pub state: QueueState,
    pub attempts: i64,
}

/// The mail of an account: its folders, its messages in the order of their ids,
/// and the actions that were queued, oldest first.
#[derive(Debug, Clone)]
pub struct Store {
    pub account_id: i64,
    pub folders: Vec<StoredFolder>,
    pub messages: Vec<StoredMessage>,
    pub queue: Vec<QueueRow>,
    pub next_action_id: i64,
}

// ---------------------------------------------------------------------------
// Folders
// ---------------------------------------------------------------------------

/// The role of a folder; none where there is no such folder.
pub open spec fn role_in(folders: Seq<StoredFolder>, id: Option<i64>) -> Seq<char>
    decreases folders.len(),
{
    if folders.len() == 0 {
        ""@
    } else if id == Some(folders[0].id) {
        folders[0].role@
    } else {
        role_in(folders.drop_first(), id)
    }
}

/// The folder with a role: the first of them.
pub open spec fn folder_with(folders: Seq<StoredFolder>, role: Seq<char>) -> Option<i64>
    decreases folders.len(),
{
    if folders.len() == 0 {
        None
    } else if folders[0].role@ == role {
        Some(folders[0].id)
    } else {
        folder_with(folders.drop_first(), role)
    }
}

pub open spec fn role_folders(folders: Seq<StoredFolder>) -> RoleFolders {
    RoleFolders {
        inbox: folder_with(folders, INBOX@),
        archive: folder_with(folders, ARCHIVE@),
        all: folder_with(folders, ALL@),
        trash: folder_with(folders, TRASH@),
        spam: folder_with(folders, SPAM@),
    }
}

fn role_of(folders: &Vec<StoredFolder>, id: Option<i64>) -> (r: String)
    ensures
        r@ == role_in(folders@, id),
{
    if let Some(want) = id {
        let mut i: usize = 0;
        proof {
            assert(folders@.skip(0) =~= folders@);
        }
        while i < folders.len()
            invariant
                i <= folders@.len(),
                id == Some(want),
                role_in(folders@, id) == role_in(folders@.skip(i as int), id),
            decreases folders@.len() - i,
        {
            proof {
                assert(folders@.skip(i as int).drop_first() =~= folders@.skip(i + 1));
                assert(folders@.skip(i as int)[0] == folders@[i as int]);
            }
            if folders[i].id == want {
                return folders[i].role.clone();
            }
            i = i + 1;
        }
    } else {
        proof {
            lemma_no_folder(folders@);
        }
    }
    owned("")
}

proof fn lemma_no_folder(folders: Seq<StoredFolder>)
    ensures
        role_in(folders, None) == ""@,
    decreases folders.len(),
{
    if folders.len() > 0 {
        lemma_no_folder(folders.drop_first());
    }
}

fn folder_of(folders: &Vec<StoredFolder>, role: &str) -> (r: Option<i64>)
    ensures
        r == folder_with(folders@, role@),
{
    let mut i: usize = 0;
    proof {
        assert(folders@.skip(0) =~= folders@);
    }
    while i < folders.len()
        invariant
            i <= folders@.len(),
            folder_with(folders@, role@) == folder_with(folders@.skip(i as int), role@),
        decreases folders@.len() - i,
    {
        proof {
            assert(folders@.skip(i as int).drop_first() =~= folders@.skip(i + 1));
            assert(folders@.skip(i as int)[0] == folders@[i as int]);
        }
        if folders[i].role.as_str().eq(role) {
            return Some(folders[i].id);
        }
        i = i + 1;
    }
    None
}

// ---------------------------------------------------------------------------
// Threads
// ---------------------------------------------------------------------------

/// The message at `i` is one of the thread, and no draft.
pub open spec fn belongs(messages: Seq<StoredMessage>, thread_id: i64) -> spec_fn(int) -> bool {
    |i: int| messages[i].thread_id == thread_id && !messages[i].is_draft
}

/// What an action is shown of a message.
pub open spec fn is_shown(
    folders: Seq<StoredFolder>,
    m: StoredMessage,
    row: ThreadMessage,
) -> bool {
    &&& row.id == m.id
    &&& row.folder_id == m.folder_id
    &&& row.uid == m.uid
    &&& row.is_read == m.is_read
    &&& row.is_starred == m.is_starred
    &&& row.role@ == role_in(folders, m.folder_id)
}

/// What an action is shown of a thread: its messages without drafts, in their
/// order.
pub open spec fn is_thread(store: Store, thread_id: i64, t: ThreadRows) -> bool {
    let own = picked(belongs(store.messages@, thread_id), store.messages@.len() as int);
    &&& t.thread_id == thread_id
    &&& t.account_id == store.account_id
    &&& t.folders == role_folders(store.folders@)
    &&& t.messages@.len() == own.len()
    &&& forall|j: int|
        0 <= j < own.len() ==> is_shown(
            store.folders@,
            store.messages@[own[j]],
            #[trigger] t.messages@[j],
        )
}

/// The thread has mail in a folder of the role.
pub open spec fn has_mail(store: Store, thread_id: i64, role: Seq<char>) -> bool {
    exists|i: int|
        0 <= i < store.messages@.len() && belongs(store.messages@, thread_id)(i) && role_in(
            store.folders@,
            (#[trigger] store.messages@[i]).folder_id,
        ) == role
}

/// Every message of the thread is read.
pub open spec fn all_read(store: Store, thread_id: i64) -> bool {
    forall|i: int|
        0 <= i < store.messages@.len() && belongs(store.messages@, thread_id)(i)
            ==> (#[trigger] store.messages@[i]).is_read
}

// ---------------------------------------------------------------------------
// Writing
// ---------------------------------------------------------------------------

pub open spec fn state_of(m: StoredMessage) -> MessageState {
    MessageState {
        folder_id: m.folder_id,
        uid: m.uid,
        is_read: m.is_read,
        is_starred: m.is_starred,
        labels: m.labels@.to_set(),
    }
}

/// A write leaves alone what it is not about.
pub open spec fn same_mail(before: StoredMessage, after: StoredMessage) -> bool {
    &&& after.id == before.id
    &&& after.thread_id == before.thread_id
    &&& after.is_draft == before.is_draft
    &&& after.body_state == before.body_state
}

/// The messages after a run of writes.
pub open spec fn are_written(
    before: Seq<StoredMessage>,
    steps: Seq<Step>,
    after: Seq<StoredMessage>,
) -> bool {
    &&& after.len() == before.len()
    &&& forall|i: int|
        0 <= i < before.len() ==> same_mail(before[i], #[trigger] after[i]) && state_of(after[i])
            == after_steps(state_of(before[i]), steps, before[i].id)
}

/// The actions that a run of writes queues, in order.
pub open spec fn queued_by(steps: Seq<Step>) -> Seq<NewAction>
    decreases steps.len(),
{
    if steps.len() == 0 {
        Seq::empty()
    } else {
        let rest = queued_by(steps.drop_last());
        match steps.last() {
            Step::Enqueue(a) => rest.push(a),
            _ => rest,
        }
    }
}

/// A queued action that waits and was never tried.
pub open spec fn is_waiting(id: int, a: NewAction, row: QueueRow) -> bool {
    row.id == id && row.action == a && row.state is Pending && row.attempts == 0
}

/// The queue after actions were put at its end.
pub open spec fn are_queued(
    before: Seq<QueueRow>,
    first_id: int,
    actions: Seq<NewAction>,
    after: Seq<QueueRow>,
) -> bool {
    &&& after.len() == before.len() + actions.len()
    &&& after.take(before.len() as int) == before
    &&& forall|j: int|
        0 <= j < actions.len() ==> is_waiting(
            first_id + j,
            #[trigger] actions[j],
            after[before.len() + j],
        )
}

/// The store after a run of writes.
pub open spec fn is_written(before: Store, steps: Seq<Step>, after: Store) -> bool {
    &&& after.account_id == before.account_id
    &&& after.folders@ == before.folders@
    &&& are_written(before.messages@, steps, after.messages@)
    &&& are_queued(
        before.queue@,
        before.next_action_id as int,
        queued_by(steps),
        after.queue@,
    )
    &&& after.next_action_id == before.next_action_id + queued_by(steps).len()
}

fn copy_payload(p: &ActionPayload) -> (r: ActionPayload)
    ensures
        r == *p,
{
    ActionPayload {
        src_folder_id: p.src_folder_id,
        src_uid: p.src_uid,
        target_folder_id: p.target_folder_id,
        wake_at: p.wake_at,
        label_id: p.label_id,
        keyword: clone_opt(&p.keyword),
        draft_id: p.draft_id,
    }
}

fn copy_new_action(a: &NewAction) -> (r: NewAction)
    ensures
        r == *a,
{
    NewAction {
        account_id: a.account_id,
        kind: a.kind,
        message_id: a.message_id,
        thread_id: a.thread_id,
        payload: copy_payload(&a.payload),
    }
}

fn without(labels: &Vec<i64>, label: i64) -> (r: Vec<i64>)
    ensures
        r@.to_set() == labels@.to_set().remove(label),
{
    let mut out: Vec<i64> = Vec::new();
    let mut i: usize = 0;
    while i < labels.len()
        invariant
            i <= labels@.len(),
            forall|x: i64| #[trigger]
                out@.contains(x) <==> x != label && labels@.take(i as int).contains(x),
        decreases labels@.len() - i,
    {
        let ghost had = out@;
        let x: i64 = labels[i];
        if x != label {
            out.push(x);
        }
        proof {
            let now = labels@.take(i + 1);
            let was = labels@.take(i as int);
            assert(now =~= was.push(x));
            assert forall|y: i64| #[trigger] out@.contains(y) <==> y != label && now.contains(y) by {
                assert(had.contains(y) <==> y != label && was.contains(y));
                assert(now.contains(y) <==> was.contains(y) || y == x) by {
                    lemma_push_contains(was, x, y);
                }
                if x != label {
                    lemma_push_contains(had, x, y);
                }
            }
        }
        i = i + 1;
    }
    proof {
        assert(labels@.take(labels@.len() as int) =~= labels@);
        assert(out@.to_set() =~= labels@.to_set().remove(label));
    }
    out
}

proof fn lemma_push_contains(s: Seq<i64>, x: i64, y: i64)
    ensures
        s.push(x).contains(y) <==> s.contains(y) || y == x,
{
    if s.contains(y) {
        let i = choose|i: int| 0 <= i < s.len() && s[i] == y;
        assert(s.push(x)[i] == y);
    }
    assert(s.push(x)[s.len() as int] == x);
    if s.push(x).contains(y) && y != x {
        let i = choose|i: int| 0 <= i < s.push(x).len() && s.push(x)[i] == y;
        assert(s[i] == y);
    }
}

/// Makes one write to a message.
fn write_message(m: &mut StoredMessage, step: &Step)
    ensures
        same_mail(*old(m), *final(m)),
        state_of(*final(m)) == after_step(state_of(*old(m)), *step, old(m).id),
{
    let ghost before = *m;
    match step {
        Step::SetRead { message_id, read } => {
            if *message_id == m.id {
                m.is_read = *read;
            }
        },
        Step::SetStarred { message_id, starred } => {
            if *message_id == m.id {
                m.is_starred = *starred;
            }
        },
        Step::SetFolder { message_id, folder_id, uid } => {
            if *message_id == m.id {
                m.folder_id = Some(*folder_id);
                m.uid = *uid;
            }
        },
        Step::AddLabel { message_id, label_id } => {
            if *message_id == m.id {
                push_new(&mut m.labels, *label_id);
                proof {
                    let had = before.labels@;
                    assert forall|y: i64| m.labels@.contains(y) <==> had.contains(y) || y
                        == *label_id by {
                        lemma_push_contains(had, *label_id, y);
                    }
                    assert(m.labels@.to_set() =~= had.to_set().insert(*label_id));
                }
            }
        },
        Step::RemoveLabel { message_id, label_id } => {
            if *message_id == m.id {
                m.labels = without(&m.labels, *label_id);
            }
        },
        Step::SetSnooze { .. } | Step::ClearSnooze { .. } | Step::Enqueue(_) => {},
    }
}

fn write_messages(messages: &mut Vec<StoredMessage>, step: &Step)
    ensures
        final(messages)@.len() == old(messages)@.len(),
        forall|i: int|
            0 <= i < old(messages)@.len() ==> same_mail(
                old(messages)@[i],
                #[trigger] final(messages)@[i],
            ) && state_of(final(messages)@[i]) == after_step(
                state_of(old(messages)@[i]),
                *step,
                old(messages)@[i].id,
            ),
{
    let ghost before = messages@;
    let mut i: usize = 0;
    while i < messages.len()
        invariant
            i <= messages@.len() == before.len(),
            forall|k: int|
                0 <= k < i ==> same_mail(before[k], #[trigger] messages@[k]) && state_of(
                    messages@[k],
                ) == after_step(state_of(before[k]), *step, before[k].id),
            forall|k: int| i <= k < before.len() ==> #[trigger] messages@[k] == before[k],
        decreases before.len() - i,
    {
        write_message(&mut messages[i], step);
        i = i + 1;
    }
}

impl Store {
    /// Puts an action at the end of the queue, and says under which id.
    pub fn enqueue(&mut self, action: NewAction) -> (id: i64)
        requires
            old(self).next_action_id < i64::MAX,
        ensures
            id == old(self).next_action_id,
            final(self).account_id == old(self).account_id,
            final(self).folders@ == old(self).folders@,
            final(self).messages@ == old(self).messages@,
            final(self).next_action_id == old(self).next_action_id + 1,
            are_queued(old(self).queue@, id as int, seq![action], final(self).queue@),
    {
        let id: i64 = self.next_action_id;
        let ghost before = self.queue@;
        self.queue.push(QueueRow { id, action, state: QueueState::Pending, attempts: 0 });
        self.next_action_id = id + 1;
        proof {
            assert(self.queue@.take(before.len() as int) =~= before);
        }
        id
    }

    /// Makes the writes of an action, in order.
    pub fn apply(&mut self, steps: &Vec<Step>)
        requires
            0 <= old(self).next_action_id,
            old(self).next_action_id + steps@.len() <= i64::MAX,
        ensures
            is_written(*old(self), steps@, *final(self)),
    {
        let ghost before = *self;
        let mut k: usize = 0;
        proof {
            assert(self.queue@.take(before.queue@.len() as int) =~= before.queue@);
        }
        while k < steps.len()
            invariant
                k <= steps@.len(),
                0 <= before.next_action_id,
                before.next_action_id + steps@.len() <= i64::MAX,
                is_written(before, steps@.take(k as int), *self),
                queued_by(steps@.take(k as int)).len() <= k,
            decreases steps@.len() - k,
        {
            let ghost had = *self;
            let step: &Step = &steps[k];
            let ghost was = steps@.take(k as int);
            let ghost now = steps@.take(k + 1);
            proof {
                assert(now.drop_last() =~= was);
                assert(now.last() == *step);
            }
            write_messages(&mut self.messages, step);
            let ghost written = *self;
            if let Step::Enqueue(a) = step {
                self.enqueue(copy_new_action(a));
            }
            proof {
                assert forall|i: int| 0 <= i < before.messages@.len() implies same_mail(
                    before.messages@[i],
                    #[trigger] self.messages@[i],
                ) && state_of(self.messages@[i]) == after_steps(
                    state_of(before.messages@[i]),
                    now,
                    before.messages@[i].id,
                ) by {
                    assert(same_mail(before.messages@[i], had.messages@[i]));
                    assert(same_mail(had.messages@[i], written.messages@[i]));
                }
                assert(are_queued(
                    before.queue@,
                    before.next_action_id as int,
                    queued_by(now),
                    self.queue@,
                )) by {
                    if let Step::Enqueue(a) = *step {
                        let n = had.queue@.len() as int;
                        let b = before.queue@.len() as int;
                        let one = seq![a];
                        assert(is_waiting(had.next_action_id as int, one[0], self.queue@[n + 0]));
                        assert(self.queue@.take(b) =~= had.queue@.take(b)) by {
                            assert forall|j: int| 0 <= j < b implies self.queue@[j]
                                == had.queue@[j] by {
                                assert(self.queue@.take(n)[j] == had.queue@[j]);
                            }
                        }
                        assert forall|j: int| 0 <= j < queued_by(now).len() implies is_waiting(
                            before.next_action_id + j,
                            #[trigger] queued_by(now)[j],
                            self.queue@[b + j],
                        ) by {
                            if j < queued_by(was).len() {
                                assert(queued_by(now)[j] == queued_by(was)[j]);
                                assert(self.queue@.take(n)[b + j] == had.queue@[b + j]);
                            }
                        }
                    }
                }
            }
            k = k + 1;
        }
        proof {
            assert(steps@.take(steps@.len() as int) =~= steps@);
        }
    }

    /// The folders that actions move mail to and from.
    fn role_folders(&self) -> (r: RoleFolders)
        ensures
            r == role_folders(self.folders@),
    {
        RoleFolders {
            inbox: folder_of(&self.folders, INBOX),
            archive: folder_of(&self.folders, ARCHIVE),
            all: folder_of(&self.folders, ALL),
            trash: folder_of(&self.folders, TRASH),
            spam: folder_of(&self.folders, SPAM),
        }
    }

    /// A thread as an action finds it.
    pub fn thread(&self, thread_id: i64) -> (t: ThreadRows)
        ensures
            is_thread(*self, thread_id, t),
    {
        let mut rows: Vec<ThreadMessage> = Vec::new();
        let ghost own = belongs(self.messages@, thread_id);
        let mut i: usize = 0;
        while i < self.messages.len()
            invariant
                i <= self.messages@.len(),
                own == belongs(self.messages@, thread_id),
                rows@.len() == picked(own, i as int).len(),
                forall|j: int|
                    0 <= j < rows@.len() ==> is_shown(
                        self.folders@,
                        self.messages@[picked(own, i as int)[j]],
                        #[trigger] rows@[j],
                    ),
            decreases self.messages@.len() - i,
        {
            let ghost had = rows@;
            let m: &StoredMessage = &self.messages[i];
            if m.thread_id == thread_id && !m.is_draft {
                rows.push(
                    ThreadMessage {
                        id: m.id,
                        folder_id: m.folder_id,
                        uid: m.uid,
                        is_read: m.is_read,
                        is_starred: m.is_starred,
                        role: role_of(&self.folders, m.folder_id),
                    },
                );
            }
            proof {
                let was = picked(own, i as int);
                let now = picked(own, i + 1);
                assert(own(i as int) == (m.thread_id == thread_id && !m.is_draft));
                assert forall|j: int| 0 <= j < rows@.len() implies is_shown(
                    self.folders@,
                    self.messages@[now[j]],
                    #[trigger] rows@[j],
                ) by {
                    if j < had.len() {
                        assert(rows@[j] == had[j]);
                        assert(now[j] == was[j]);
                    }
                }
            }
            i = i + 1;
        }
        ThreadRows {
            thread_id,
            account_id: self.account_id,
            messages: rows,
            folders: self.role_folders(),
        }
    }

    /// Whether the thread has mail in a folder of the role.
    pub fn has_mail_in(&self, thread_id: i64, role: &str) -> (r: bool)
        ensures
            r == has_mail(*self, thread_id, role@),
    {
        let ghost own = belongs(self.messages@, thread_id);
        let mut i: usize = 0;
        while i < self.messages.len()
            invariant
                i <= self.messages@.len(),
                own == belongs(self.messages@, thread_id),
                forall|k: int|
                    0 <= k < i && own(k) ==> role_in(
                        self.folders@,
                        (#[trigger] self.messages@[k]).folder_id,
                    ) != role@,
            decreases self.messages@.len() - i,
        {
            let m: &StoredMessage = &self.messages[i];
            if m.thread_id == thread_id && !m.is_draft {
                let found: String = role_of(&self.folders, m.folder_id);
                if found.as_str().eq(role) {
                    proof {
                        assert(own(i as int));
                        assert(role_in(self.folders@, self.messages@[i as int].folder_id) == role@);
                    }
                    return true;
                }
            }
            i = i + 1;
        }
        false
    }

    /// Whether every message of the thread is read.
    pub fn is_read(&self, thread_id: i64) -> (r: bool)
        ensures
            r == all_read(*self, thread_id),
    {
        let ghost own = belongs(self.messages@, thread_id);
        let mut i: usize = 0;
        while i < self.messages.len()
            invariant
                i <= self.messages@.len(),
                own == belongs(self.messages@, thread_id),
                forall|k: int| 0 <= k < i && own(k) ==> (#[trigger] self.messages@[k]).is_read,
            decreases self.messages@.len() - i,
        {
            let m: &StoredMessage = &self.messages[i];
            if m.thread_id == thread_id && !m.is_draft && !m.is_read {
                proof {
                    assert(own(i as int));
                    assert(!self.messages@[i as int].is_read);
                }
                return false;
            }
            i = i + 1;
        }
        true
    }

    /// Performs an action on a thread: everything that it writes is written, or,
    /// where it cannot be done, nothing.
    pub fn perform(
        &mut self,
        thread_id: i64,
        kind: ActionKind,
        params: Option<&ActionParams>,
        label: Option<&Label>,
    ) -> (r: Result<(), CoreError>)
        requires
            0 <= old(self).next_action_id,
            old(self).next_action_id + 2 * old(self).messages@.len() + 2 <= i64::MAX,
        ensures
            exists|t: ThreadRows| #[trigger]
                is_thread(*old(self), thread_id, t) && match thread_steps(
                    t,
                    kind,
                    owned_ref(params),
                    owned_ref(label),
                ) {
                    Ok(steps) => r is Ok && is_written(*old(self), steps, *final(self)),
                    Err(e) => r is Err && r->Err_0@ == e && *final(self) == *old(self),
                },
    {
        let t: ThreadRows = self.thread(thread_id);
        match apply_thread_action(&t, kind, params, label) {
            Ok(steps) => {
                proof {
                    lemma_picked_len(
                        belongs(self.messages@, thread_id),
                        self.messages@.len() as int,
                    );
                    lemma_steps_bounded(t, kind, owned_ref(params), owned_ref(label));
                }
                self.apply(&steps);
                Ok(())
            },
            Err(e) => Err(e),
        }
    }
}

proof fn lemma_picked_len(test: spec_fn(int) -> bool, n: int)
    requires
        0 <= n,
    ensures
        picked(test, n).len() <= n,
    decreases n,
{
    if n > 0 {
        lemma_picked_len(test, n - 1);
    }
}

// ---------------------------------------------------------------------------
// Starting
// ---------------------------------------------------------------------------

/// A queued action once the client has started: one that was being carried out
/// when the client ended waits again.
pub open spec fn is_requeued_action(before: QueueRow, after: QueueRow) -> bool {
    &&& after.id == before.id
    &&& after.action == before.action
    &&& after.attempts == before.attempts
    &&& after.state == (if before.state is Inflight {
        QueueState::Pending
    } else {
        before.state
    })
}

/// A message once the client has started.
pub open spec fn is_started(before: StoredMessage, after: StoredMessage) -> bool {
    &&& after.id == before.id
    &&& after.thread_id == before.thread_id
    &&& after.is_draft == before.is_draft
    &&& after.folder_id == before.folder_id
    &&& after.uid == before.uid
    &&& after.is_read == before.is_read
    &&& after.is_starred == before.is_starred
    &&& after.labels == before.labels
    &&& after.body_state@ == recovered_state(before.body_state@)
}

/// The store once the client has started: what was under way when it ended is
/// begun anew, and everything else is as it was.
pub open spec fn is_restarted(before: Store, after: Store) -> bool {
    &&& after.account_id == before.account_id
    &&& after.folders@ == before.folders@
    &&& after.next_action_id == before.next_action_id
    &&& after.messages@.len() == before.messages@.len()
    &&& forall|i: int|
        0 <= i < before.messages@.len() ==> is_started(
            before.messages@[i],
            #[trigger] after.messages@[i],
        )
    &&& after.queue@.len() == before.queue@.len()
    &&& forall|i: int|
        0 <= i < before.queue@.len() ==> is_requeued_action(
            before.queue@[i],
            #[trigger] after.queue@[i],
        )
}

impl Store {
    /// Begins anew what was under way when the client ended.
    pub fn restart(&mut self)
        ensures
            is_restarted(*old(self), *final(self)),
    {
        let ghost before = *self;
        let mut i: usize = 0;
        while i < self.queue.len()
            invariant
                i <= self.queue@.len() == before.queue@.len(),
                self.account_id == before.account_id,
                self.folders == before.folders,
                self.messages == before.messages,
                self.next_action_id == before.next_action_id,
                forall|k: int|
                    0 <= k < i ==> is_requeued_action(before.queue@[k], #[trigger] self.queue@[k]),
                forall|k: int|
                    i <= k < before.queue@.len() ==> #[trigger] self.queue@[k] == before.queue@[k],
            decreases before.queue@.len() - i,
        {
            if let QueueState::Inflight = self.queue[i].state {
                let row: &mut QueueRow = &mut self.queue[i];
                row.state = QueueState::Pending;
            }
            i = i + 1;
        }
        let mut j: usize = 0;
        while j < self.messages.len()
            invariant
                j <= self.messages@.len() == before.messages@.len(),
                self.account_id == before.account_id,
                self.folders == before.folders,
                self.next_action_id == before.next_action_id,
                self.queue@.len() == before.queue@.len(),
                forall|k: int|
                    0 <= k < before.queue@.len() ==> is_requeued_action(
                        before.queue@[k],
                        #[trigger] self.queue@[k],
                    ),
                forall|k: int|
                    0 <= k < j ==> is_started(before.messages@[k], #[trigger] self.messages@[k]),
                forall|k: int|
                    j <= k < before.messages@.len() ==> #[trigger] self.messages@[k]
                        == before.messages@[k],
            decreases before.messages@.len() - j,
        {
            let state: String = recovered_body_state(self.messages[j].body_state.as_str());
            let m: &mut StoredMessage = &mut self.messages[j];
            m.body_state = state;
            j = j + 1;
        }
    }
}

// ---------------------------------------------------------------------------
// What holds of several writes
// ---------------------------------------------------------------------------

/// No two messages have the same id.
pub open spec fn message_ids_differ(messages: Seq<StoredMessage>) -> bool {
    forall|i: int, j: int|
        #![trigger messages[i], messages[j]]
        0 <= i < j < messages.len() ==> messages[i].id != messages[j].id
}

/// No two folders have the same id.
pub open spec fn folder_ids_differ(folders: Seq<StoredFolder>) -> bool {
    forall|i: int, j: int|
        #![trigger folders[i], folders[j]]
        0 <= i < j < folders.len() ==> folders[i].id != folders[j].id
}

proof fn lemma_role_at(folders: Seq<StoredFolder>, i: int)
    requires
        folder_ids_differ(folders),
        0 <= i < folders.len(),
    ensures
        role_in(folders, Some(folders[i].id)) == folders[i].role@,
    decreases folders.len(),
{
    if i > 0 {
        let rest = folders.drop_first();
        assert(folders[0].id != folders[i].id);
        assert forall|x: int, y: int|
            #![trigger rest[x], rest[y]]
            0 <= x < y < rest.len() implies rest[x].id != rest[y].id by {
            assert(folders[x + 1].id != folders[y + 1].id);
        }
        lemma_role_at(rest, i - 1);
        assert(rest[i - 1] == folders[i]);
    }
}

proof fn lemma_folder_with(folders: Seq<StoredFolder>, role: Seq<char>) -> (i: int)
    requires
        folder_with(folders, role) is Some,
    ensures
        0 <= i < folders.len(),
        folder_with(folders, role) == Some(folders[i].id),
        folders[i].role@ == role,
    decreases folders.len(),
{
    if folders[0].role@ == role {
        0
    } else {
        let i = lemma_folder_with(folders.drop_first(), role);
        i + 1
    }
}

/// The folder that mail is archived to has the role that it is looked for by.
proof fn lemma_archive_role(folders: Seq<StoredFolder>)
    requires
        folder_ids_differ(folders),
        move_target(role_folders(folders), ActionKind::Archive) is Some,
    ensures
        role_in(folders, move_target(role_folders(folders), ActionKind::Archive)) == archived_role(
            role_folders(folders),
        ),
        archived_role(role_folders(folders)) != INBOX@,
{
    let role = archived_role(role_folders(folders));
    let i = lemma_folder_with(folders, role);
    lemma_role_at(folders, i);
    reveal_strlit("inbox");
    reveal_strlit("archive");
    reveal_strlit("all");
    reveal_strlit("trash");
    assert(INBOX@[0] == 'i' && ARCHIVE@[0] == 'a' && ALL@[0] == 'a' && TRASH@[0] == 't');
}

/// Where the message at `i` stands in its thread.
proof fn lemma_in_thread(store: Store, thread_id: i64, t: ThreadRows, i: int) -> (j: int)
    requires
        is_thread(store, thread_id, t),
        0 <= i < store.messages@.len(),
        belongs(store.messages@, thread_id)(i),
    ensures
        0 <= j < t.messages@.len(),
        is_shown(store.folders@, store.messages@[i], t.messages@[j]),
{
    let test = belongs(store.messages@, thread_id);
    let own = picked(test, store.messages@.len() as int);
    lemma_picked(test, store.messages@.len() as int);
    assert(own.contains(i));
    let j = choose|j: int| 0 <= j < own.len() && own[j] == i;
    assert(is_shown(store.folders@, store.messages@[own[j]], t.messages@[j]));
    j
}

proof fn lemma_thread_ids(store: Store, thread_id: i64, t: ThreadRows)
    requires
        is_thread(store, thread_id, t),
        message_ids_differ(store.messages@),
    ensures
        ids_distinct(t.messages@),
{
    let test = belongs(store.messages@, thread_id);
    let own = picked(test, store.messages@.len() as int);
    lemma_picked(test, store.messages@.len() as int);
    assert forall|x: int, y: int|
        #![trigger t.messages@[x], t.messages@[y]]
        0 <= x < y < t.messages@.len() implies t.messages@[x].id != t.messages@[y].id by {
        assert(is_shown(store.folders@, store.messages@[own[x]], t.messages@[x]));
        assert(is_shown(store.folders@, store.messages@[own[y]], t.messages@[y]));
        assert(own[x] < own[y]);
        assert(store.messages@[own[x]].id != store.messages@[own[y]].id);
    }
}

/// What marking a thread read writes to its messages: that they are read.
proof fn lemma_marked_read(
    before: Store,
    thread_id: i64,
    t: ThreadRows,
    after: Store,
    i: int,
)
    requires
        is_thread(before, thread_id, t),
        message_ids_differ(before.messages@),
        is_written(before, thread_steps(t, ActionKind::MarkRead, None, None)->Ok_0, after),
        0 <= i < before.messages@.len(),
        belongs(before.messages@, thread_id)(i),
    ensures
        after.messages@[i].is_read,
        after.messages@[i].folder_id == before.messages@[i].folder_id,
        after.messages@[i].uid == before.messages@[i].uid,
{
    let j = lemma_in_thread(before, thread_id, t, i);
    lemma_thread_ids(before, thread_id, t);
    let s = state_of(before.messages@[i]);
    lemma_message_after(t, ActionKind::MarkRead, 0, j, s);
    assert(same_mail(before.messages@[i], after.messages@[i]));
}

/// What archiving a thread writes to its messages: those in the inbox are moved,
/// and all others stay.
proof fn lemma_archived(before: Store, thread_id: i64, t: ThreadRows, after: Store, i: int)
    requires
        is_thread(before, thread_id, t),
        message_ids_differ(before.messages@),
        move_target(t.folders, ActionKind::Archive) is Some,
        is_written(before, thread_steps(t, ActionKind::Archive, None, None)->Ok_0, after),
        0 <= i < before.messages@.len(),
        belongs(before.messages@, thread_id)(i),
    ensures
        after.messages@[i].is_read == before.messages@[i].is_read,
        after.messages@[i].folder_id == (if role_in(
            before.folders@,
            before.messages@[i].folder_id,
        ) == INBOX@ {
            move_target(t.folders, ActionKind::Archive)
        } else {
            before.messages@[i].folder_id
        }),
{
    let j = lemma_in_thread(before, thread_id, t, i);
    lemma_thread_ids(before, thread_id, t);
    let s = state_of(before.messages@[i]);
    let target = move_target(t.folders, ActionKind::Archive)->0;
    let steps = thread_steps(t, ActionKind::Archive, None, None)->Ok_0;
    lemma_message_after(t, ActionKind::Archive, target, j, s);
    assert(steps.drop_last() =~= all_steps(t, ActionKind::Archive, target, None, t.messages@));
    lemma_no_folder(before.folders@);
    reveal_strlit("");
    reveal_strlit("inbox");
    assert(""@.len() != INBOX@.len());
    assert(same_mail(before.messages@[i], after.messages@[i]));
}

/// What a run of writes to a thread queues for its messages, one after the other.
proof fn lemma_queued_by_all(
    t: ThreadRows,
    kind: ActionKind,
    target: i64,
    messages: Seq<ThreadMessage>,
)
    requires
        kind == ActionKind::MarkRead || kind == ActionKind::Archive,
    ensures
        forall|k: int|
            0 <= k < queued_by(all_steps(t, kind, target, None, messages)).len() ==> (
            #[trigger] queued_by(all_steps(t, kind, target, None, messages))[k]).kind == kind,
        messages.len() == 1 ==> queued_by(all_steps(t, kind, target, None, messages)).len()
            == message_steps(t, kind, target, None, messages[0]).len() / 2,
    decreases messages.len(),
{
    if messages.len() > 0 {
        let rest = messages.drop_last();
        let before = all_steps(t, kind, target, None, rest);
        let own = message_steps(t, kind, target, None, messages.last());
        let all = all_steps(t, kind, target, None, messages);
        lemma_queued_by_all(t, kind, target, rest);
        if own.len() == 0 {
            assert(all =~= before);
        } else {
            assert(own.len() == 2);
            assert(all.drop_last() =~= before.push(own[0]));
            assert(all.drop_last().drop_last() =~= before);
            assert(all.last() == own[1]);
            assert(own[1] is Enqueue);
            assert(!(own[0] is Enqueue));
            assert(queued_by(all.drop_last()) == queued_by(before));
            assert(queued_by(all) == queued_by(before).push(own[1]->Enqueue_0));
        }
        if messages.len() == 1 {
            assert(before =~= Seq::empty());
        }
    }
}

/// Mail that is read and archived is gone from the inbox at once and kept in the
/// archive, whether the server can be reached or not; what was asked for waits
/// in the queue in the order in which it was asked for, untried, and as long as
/// there is no connection no cycle runs that could try it.
pub proof fn triage_takes_effect_at_once(
    before: Store,
    thread_id: i64,
    t: ThreadRows,
    read: Store,
    u: ThreadRows,
    after: Store,
    actors: Seq<Actor>,
    events: Seq<Event>,
)
    requires
        message_ids_differ(before.messages@),
        folder_ids_differ(before.folders@),
        is_thread(before, thread_id, t),
        is_written(before, thread_steps(t, ActionKind::MarkRead, None, None)->Ok_0, read),
        is_thread(read, thread_id, u),
        move_target(role_folders(before.folders@), ActionKind::Archive) is Some,
        is_written(read, thread_steps(u, ActionKind::Archive, None, None)->Ok_0, after),
        is_offline_run(actors, events),
    ensures
        thread_steps(u, ActionKind::Archive, None, None) is Ok,
        !has_mail(after, thread_id, INBOX@),
        has_mail(before, thread_id, INBOX@) ==> has_mail(
            after,
            thread_id,
            archived_role(role_folders(before.folders@)),
        ),
        all_read(after, thread_id),
        after.queue@.take(before.queue@.len() as int) == before.queue@,
        forall|k: int|
            before.queue@.len() <= k < after.queue@.len() ==> (#[trigger] after.queue@[k]).state
                is Pending && after.queue@[k].attempts == 0 && after.queue@[k].action.kind == (if k
                < read.queue@.len() {
                ActionKind::MarkRead
            } else {
                ActionKind::Archive
            }),
        t.messages@.len() == 1 && !t.messages@[0].is_read && t.messages@[0].role@ == INBOX@
            ==> read.queue@.len() == before.queue@.len() + 1 && after.queue@.len()
            == before.queue@.len() + 2,
        forall|k: int| 0 <= k < actors.len() ==> !((#[trigger] actors[k]).stage is Cycle),
{
    let n = before.messages@.len() as int;
    let target = move_target(u.folders, ActionKind::Archive);
    lemma_archive_role(before.folders@);
    offline_runs_have_no_cycle(actors, events);
    assert(message_ids_differ(read.messages@)) by {
        assert forall|i: int, j: int|
            #![trigger read.messages@[i], read.messages@[j]]
            0 <= i < j < read.messages@.len() implies read.messages@[i].id
            != read.messages@[j].id by {
            assert(same_mail(before.messages@[i], read.messages@[i]));
            assert(same_mail(before.messages@[j], read.messages@[j]));
            assert(before.messages@[i].id != before.messages@[j].id);
        }
    }
    assert forall|i: int|
        0 <= i < n && #[trigger] belongs(after.messages@, thread_id)(i) implies belongs(
        before.messages@,
        thread_id,
    )(i) && after.messages@[i].is_read && role_in(
        after.folders@,
        after.messages@[i].folder_id,
    ) != INBOX@ by {
        lemma_triaged(before, thread_id, t, read, u, after, i);
    }
    if has_mail(before, thread_id, INBOX@) {
        let i = choose|i: int|
            0 <= i < n && belongs(before.messages@, thread_id)(i) && role_in(
                before.folders@,
                (#[trigger] before.messages@[i]).folder_id,
            ) == INBOX@;
        assert(same_mail(before.messages@[i], read.messages@[i]));
        assert(same_mail(read.messages@[i], after.messages@[i]));
        assert(belongs(after.messages@, thread_id)(i));
        lemma_triaged(before, thread_id, t, read, u, after, i);
        assert(role_in(after.folders@, after.messages@[i].folder_id) == archived_role(
            role_folders(before.folders@),
        ));
    }
    let s1 = thread_steps(t, ActionKind::MarkRead, None, None)->Ok_0;
    let s2 = thread_steps(u, ActionKind::Archive, None, None)->Ok_0;
    let q1 = queued_by(s1);
    let q2 = queued_by(s2);
    lemma_queued_by_all(t, ActionKind::MarkRead, 0, t.messages@);
    lemma_queued_by_all(u, ActionKind::Archive, target->0, u.messages@);
    assert(s2.drop_last() =~= all_steps(u, ActionKind::Archive, target->0, None, u.messages@));
    let b = before.queue@.len() as int;
    let r = read.queue@.len() as int;
    assert(after.queue@.take(b) =~= before.queue@) by {
        assert forall|k: int| 0 <= k < b implies after.queue@[k] == before.queue@[k] by {
            assert(after.queue@.take(r)[k] == read.queue@[k]);
            assert(read.queue@.take(b)[k] == before.queue@[k]);
        }
    }
    assert forall|k: int| b <= k < after.queue@.len() implies (#[trigger] after.queue@[k]).state
        is Pending && after.queue@[k].attempts == 0 && after.queue@[k].action.kind == (if k < r {
        ActionKind::MarkRead
    } else {
        ActionKind::Archive
    }) by {
        if k < r {
            assert(after.queue@.take(r)[k] == read.queue@[k]);
            assert(is_waiting(before.next_action_id + (k - b), q1[k - b], read.queue@[b + (k - b)]));
            assert(q1[k - b].kind == ActionKind::MarkRead);
        } else {
            assert(is_waiting(read.next_action_id + (k - r), q2[k - r], after.queue@[r + (k - r)]));
            assert(q2[k - r].kind == ActionKind::Archive);
        }
    }
    if t.messages@.len() == 1 && !t.messages@[0].is_read && t.messages@[0].role@ == INBOX@ {
        lemma_same_thread(before, thread_id, t, read, u);
        let test = belongs(before.messages@, thread_id);
        let own = picked(test, n);
        lemma_picked(test, n);
        let i = own[0];
        assert(is_shown(before.folders@, before.messages@[own[0]], t.messages@[0]));
        lemma_marked_read(before, thread_id, t, read, i);
        assert(is_shown(read.folders@, read.messages@[own[0]], u.messages@[0]));
        assert(u.messages@[0].role@ == INBOX@);
        lemma_no_folder(before.folders@);
        reveal_strlit("");
        reveal_strlit("inbox");
        assert(""@.len() != INBOX@.len());
        assert(u.messages@[0].folder_id is Some);
    }
}

/// What becomes of a message that was read and archived.
proof fn lemma_triaged(
    before: Store,
    thread_id: i64,
    t: ThreadRows,
    read: Store,
    u: ThreadRows,
    after: Store,
    i: int,
)
    requires
        message_ids_differ(before.messages@),
        message_ids_differ(read.messages@),
        folder_ids_differ(before.folders@),
        is_thread(before, thread_id, t),
        is_written(before, thread_steps(t, ActionKind::MarkRead, None, None)->Ok_0, read),
        is_thread(read, thread_id, u),
        move_target(role_folders(before.folders@), ActionKind::Archive) is Some,
        is_written(read, thread_steps(u, ActionKind::Archive, None, None)->Ok_0, after),
        0 <= i < before.messages@.len(),
        belongs(after.messages@, thread_id)(i),
    ensures
        belongs(before.messages@, thread_id)(i),
        after.messages@[i].is_read,
        role_in(after.folders@, after.messages@[i].folder_id) == (if role_in(
            before.folders@,
            before.messages@[i].folder_id,
        ) == INBOX@ {
            archived_role(role_folders(before.folders@))
        } else {
            role_in(before.folders@, before.messages@[i].folder_id)
        }),
{
    assert(same_mail(before.messages@[i], read.messages@[i]));
    assert(same_mail(read.messages@[i], after.messages@[i]));
    assert(belongs(read.messages@, thread_id)(i));
    assert(belongs(before.messages@, thread_id)(i));
    lemma_marked_read(before, thread_id, t, read, i);
    lemma_archived(read, thread_id, u, after, i);
    lemma_archive_role(before.folders@);
}

/// Writes leave the messages of a thread where they stand in it.
proof fn lemma_same_thread(
    before: Store,
    thread_id: i64,
    t: ThreadRows,
    after: Store,
    u: ThreadRows,
)
    requires
        is_thread(before, thread_id, t),
        is_thread(after, thread_id, u),
        after.messages@.len() == before.messages@.len(),
        forall|i: int|
            0 <= i < before.messages@.len() ==> same_mail(
                before.messages@[i],
                #[trigger] after.messages@[i],
            ),
    ensures
        picked(belongs(after.messages@, thread_id), after.messages@.len() as int) == picked(
            belongs(before.messages@, thread_id),
            before.messages@.len() as int,
        ),
        u.messages@.len() == t.messages@.len(),
{
    lemma_picked_same(
        belongs(before.messages@, thread_id),
        belongs(after.messages@, thread_id),
        before.messages@.len() as int,
    );
}

proof fn lemma_picked_same(a: spec_fn(int) -> bool, b: spec_fn(int) -> bool, n: int)
    requires
        forall|i: int| 0 <= i < n ==> #[trigger] a(i) == b(i),
    ensures
        picked(a, n) == picked(b, n),
    decreases n,
{
    if n > 0 {
        lemma_picked_same(a, b, n - 1);
        assert(a(n - 1) == b(n - 1));
    }
}

/// There is a folder of the role.
pub open spec fn has_folder(folders: Seq<StoredFolder>, role: Seq<char>) -> bool {
    exists|k: int| 0 <= k < folders.len() && (#[trigger] folders[k]).role@ == role
}

/// The folder is one of the role.
pub open spec fn lies_in(
    folders: Seq<StoredFolder>,
    folder_id: Option<i64>,
    role: Seq<char>,
) -> bool {
    exists|k: int|
        0 <= k < folders.len() && folder_id == Some((#[trigger] folders[k]).id) && folders[k].role@
            == role
}

proof fn lemma_has_folder(folders: Seq<StoredFolder>, role: Seq<char>)
    ensures
        folder_with(folders, role) is Some <==> has_folder(folders, role),
        folder_with(folders, role) is Some ==> lies_in(folders, folder_with(folders, role), role),
    decreases folders.len(),
{
    if folder_with(folders, role) is Some {
        let i = lemma_folder_with(folders, role);
        assert(folders[i].role@ == role);
    }
    if has_folder(folders, role) {
        let k = choose|k: int| 0 <= k < folders.len() && (#[trigger] folders[k]).role@ == role;
        if k > 0 {
            let rest = folders.drop_first();
            assert(rest[k - 1].role@ == role);
            lemma_has_folder(rest, role);
        }
    }
}

proof fn lemma_lies_in(folders: Seq<StoredFolder>, folder_id: Option<i64>, role: Seq<char>)
    requires
        folder_ids_differ(folders),
    ensures
        lies_in(folders, folder_id, role) ==> role_in(folders, folder_id) == role,
        role_in(folders, folder_id) == role && role != ""@ ==> lies_in(folders, folder_id, role),
    decreases folders.len(),
{
    if lies_in(folders, folder_id, role) {
        let k = choose|k: int|
            0 <= k < folders.len() && folder_id == Some((#[trigger] folders[k]).id)
                && folders[k].role@ == role;
        lemma_role_at(folders, k);
    }
    if folders.len() > 0 && role_in(folders, folder_id) == role && role != ""@ {
        if folder_id == Some(folders[0].id) {
            assert(folders[0].role@ == role);
        } else {
            let rest = folders.drop_first();
            assert forall|x: int, y: int|
                #![trigger rest[x], rest[y]]
                0 <= x < y < rest.len() implies rest[x].id != rest[y].id by {
                assert(folders[x + 1].id != folders[y + 1].id);
            }
            lemma_lies_in(rest, folder_id, role);
            let k = choose|k: int|
                0 <= k < rest.len() && folder_id == Some((#[trigger] rest[k]).id) && rest[k].role@
                    == role;
            assert(folders[k + 1].role@ == role);
        }
    }
}

/// The names of the roles differ, and none is empty.
proof fn lemma_roles_differ()
    ensures
        ""@.len() == 0,
        INBOX@.len() == 5 && INBOX@[0] == 'i',
        ARCHIVE@.len() == 7,
        ALL@.len() == 3,
        TRASH@.len() == 5 && TRASH@[0] == 't',
        SPAM@.len() == 4,
{
    reveal_strlit("");
    reveal_strlit("inbox");
    reveal_strlit("archive");
    reveal_strlit("all");
    reveal_strlit("trash");
    reveal_strlit("spam");
}

/// What an action has done to the mail once it was performed, message by message
/// (`i` is any message of the store).
///
/// Trashed mail lies in the trash, mail marked as spam in the spam folder: each
/// message of the thread that was in a folder with a role. Archived mail has left
/// the inbox for the archive, for All Mail where there is no archive, or else for
/// the trash; unarchiving and unmarking bring it back to the inbox; a move puts
/// it into the folder that was named. A message that is moved has no UID there
/// yet. No other action moves mail, and none touches drafts or other threads.
pub proof fn performed_actions_move_mail(
    before: Store,
    thread_id: i64,
    t: ThreadRows,
    kind: ActionKind,
    params: Option<ActionParams>,
    label: Option<Label>,
    steps: Seq<Step>,
    after: Store,
    i: int,
)
    requires
        message_ids_differ(before.messages@),
        folder_ids_differ(before.folders@),
        is_thread(before, thread_id, t),
        thread_steps(t, kind, params, label) == Ok::<Seq<Step>, ErrorView>(steps),
        is_written(before, steps, after),
        0 <= i < before.messages@.len(),
    ensures
        after.messages@.len() == before.messages@.len(),
        after.messages@[i].id == before.messages@[i].id,
        after.messages@[i].thread_id == before.messages@[i].thread_id,
        after.messages@[i].is_draft == before.messages@[i].is_draft,
        before.messages@[i].thread_id != thread_id || before.messages@[i].is_draft ==> state_of(
            after.messages@[i],
        ) == state_of(before.messages@[i]),
        before.messages@[i].thread_id == thread_id && !before.messages@[i].is_draft ==> {
            let f = before.folders@;
            let was = before.messages@[i].folder_id;
            let now = after.messages@[i].folder_id;
            let stays = now == was && after.messages@[i].uid == before.messages@[i].uid;
            &&& now != was ==> after.messages@[i].uid is None
            &&& kind is Trash && has_role(f, was) ==> lies_in(f, now, TRASH@)
            &&& kind is Spam && has_role(f, was) ==> lies_in(f, now, SPAM@)
            &&& (kind is Trash || kind is Spam) && !has_role(f, was) ==> stays
            &&& kind is Trash && lies_in(f, was, TRASH@) ==> stays
            &&& kind is Spam && lies_in(f, was, SPAM@) ==> stays
            &&& kind is Archive && lies_in(f, was, INBOX@) && has_folder(f, ARCHIVE@) ==> lies_in(
                f,
                now,
                ARCHIVE@,
            )
            &&& kind is Archive && lies_in(f, was, INBOX@) && !has_folder(f, ARCHIVE@)
                && has_folder(f, ALL@) ==> lies_in(f, now, ALL@)
            &&& kind is Archive && lies_in(f, was, INBOX@) && !has_folder(f, ARCHIVE@)
                && !has_folder(f, ALL@) ==> lies_in(f, now, TRASH@)
            &&& kind is Archive && !lies_in(f, was, INBOX@) ==> stays
            &&& kind is Unarchive && (lies_in(f, was, ARCHIVE@) || lies_in(f, was, ALL@))
                ==> lies_in(f, now, INBOX@)
            &&& kind is Unarchive && lies_in(f, was, TRASH@) && !has_folder(f, ARCHIVE@)
                && !has_folder(f, ALL@) ==> lies_in(f, now, INBOX@)
            &&& kind is Unarchive && !lies_in(f, was, ARCHIVE@) && !lies_in(f, was, ALL@)
                && !lies_in(f, was, TRASH@) ==> stays
            &&& kind is NotSpam && lies_in(f, was, SPAM@) ==> lies_in(f, now, INBOX@)
            &&& kind is NotSpam && !lies_in(f, was, SPAM@) ==> stays
            &&& kind is Move && was is Some ==> now == params->0.target_folder_id
            &&& kind is Move && was is None ==> stays
            &&& kind is MarkRead || kind is MarkUnread || kind is Star || kind is Unstar || kind
                is AddLabel || kind is RemoveLabel || kind is Snooze || kind is Unsnooze ==> stays
        },
{
    let f = before.folders@;
    let m = before.messages@[i];
    let s = state_of(m);
    lemma_thread_ids(before, thread_id, t);
    assert(same_mail(m, after.messages@[i]));
    assert(state_of(after.messages@[i]) == after_steps(s, steps, m.id));
    if m.thread_id == thread_id && !m.is_draft {
        assert(belongs(before.messages@, thread_id)(i));
        let j = lemma_in_thread(before, thread_id, t, i);
        actions_do_what_they_say(
            t,
            kind,
            params,
            label,
            steps,
            j,
            s,
            after_steps(s, steps, m.id),
        );
        actions_need_their_folders(t, kind, params, label);
        lemma_roles_differ();
        lemma_lies_in(f, m.folder_id, INBOX@);
        lemma_lies_in(f, m.folder_id, ARCHIVE@);
        lemma_lies_in(f, m.folder_id, ALL@);
        lemma_lies_in(f, m.folder_id, TRASH@);
        lemma_lies_in(f, m.folder_id, SPAM@);
        lemma_has_role(f, m.folder_id);
        lemma_has_folder(f, INBOX@);
        lemma_has_folder(f, ARCHIVE@);
        lemma_has_folder(f, ALL@);
        lemma_has_folder(f, TRASH@);
        lemma_has_folder(f, SPAM@);
        lemma_no_folder(f);
    } else {
        assert forall|k: int| 0 <= k < t.messages@.len() implies (#[trigger] t.messages@[k]).id
            != m.id by {
            lemma_not_in_thread(before, thread_id, t, i, k);
        }
        other_messages_are_left_alone(t, kind, params, label, steps, m.id, s);
    }
}

/// The folder is one that has a role.
pub open spec fn has_role(folders: Seq<StoredFolder>, folder_id: Option<i64>) -> bool {
    exists|k: int|
        0 <= k < folders.len() && folder_id == Some((#[trigger] folders[k]).id) && folders[k].role@
            != ""@
}

proof fn lemma_has_role(folders: Seq<StoredFolder>, folder_id: Option<i64>)
    requires
        folder_ids_differ(folders),
    ensures
        has_role(folders, folder_id) <==> role_in(folders, folder_id) != ""@,
{
    let role = role_in(folders, folder_id);
    if has_role(folders, folder_id) {
        let k = choose|k: int|
            0 <= k < folders.len() && folder_id == Some((#[trigger] folders[k]).id)
                && folders[k].role@ != ""@;
        lemma_role_at(folders, k);
    }
    if role != ""@ {
        lemma_lies_in(folders, folder_id, role);
        let k = choose|k: int|
            0 <= k < folders.len() && folder_id == Some((#[trigger] folders[k]).id)
                && folders[k].role@ == role;
        assert(folders[k].role@ != ""@);
    }
}

/// A message of another thread, or a draft, is none of the thread's messages.
proof fn lemma_not_in_thread(store: Store, thread_id: i64, t: ThreadRows, i: int, k: int)
    requires
        is_thread(store, thread_id, t),
        message_ids_differ(store.messages@),
        0 <= i < store.messages@.len(),
        store.messages@[i].thread_id != thread_id || store.messages@[i].is_draft,
        0 <= k < t.messages@.len(),
    ensures
        t.messages@[k].id != store.messages@[i].id,
{
    let test = belongs(store.messages@, thread_id);
    let own = picked(test, store.messages@.len() as int);
    lemma_picked(test, store.messages@.len() as int);
    assert(is_shown(store.folders@, store.messages@[own[k]], t.messages@[k]));
    assert(own.contains(own[k]));
    assert(test(own[k]));
    if own[k] < i {
        assert(store.messages@[own[k]].id != store.messages@[i].id);
    } else {
        assert(store.messages@[i].id != store.messages@[own[k]].id);
    }
}

/// A message that an action has moved here waits to be moved on the server: at the
/// end of the queue there is an action for it, untried, from where the server still
/// has it to where it lies here.
pub proof fn performed_moves_wait_in_the_queue(
    before: Store,
    thread_id: i64,
    t: ThreadRows,
    kind: ActionKind,
    params: Option<ActionParams>,
    label: Option<Label>,
    steps: Seq<Step>,
    after: Store,
    i: int,
)
    requires
        message_ids_differ(before.messages@),
        is_thread(before, thread_id, t),
        thread_steps(t, kind, params, label) == Ok::<Seq<Step>, ErrorView>(steps),
        is_written(before, steps, after),
        0 <= i < before.messages@.len(),
        after.messages@[i].folder_id != before.messages@[i].folder_id,
    ensures
        exists|k: int|
            before.queue@.len() <= k < after.queue@.len() && (#[trigger] after.queue@[k]).state
                is Pending && after.queue@[k].attempts == 0 && after.queue@[k].action.kind == kind
                && after.queue@[k].action.account_id == before.account_id
                && after.queue@[k].action.message_id == Some(before.messages@[i].id)
                && after.queue@[k].action.payload.src_folder_id == before.messages@[i].folder_id
                && after.queue@[k].action.payload.src_uid == before.messages@[i].uid
                && after.queue@[k].action.payload.target_folder_id == after.messages@[i].folder_id,
{
    let m = before.messages@[i];
    let s = state_of(m);
    lemma_thread_ids(before, thread_id, t);
    assert(same_mail(m, after.messages@[i]));
    assert(state_of(after.messages@[i]) == after_steps(s, steps, m.id));
    if m.thread_id != thread_id || m.is_draft {
        assert forall|k: int| 0 <= k < t.messages@.len() implies (#[trigger] t.messages@[k]).id
            != m.id by {
            lemma_not_in_thread(before, thread_id, t, i, k);
        }
        other_messages_are_left_alone(t, kind, params, label, steps, m.id, s);
    } else {
        assert(belongs(before.messages@, thread_id)(i));
        let j = lemma_in_thread(before, thread_id, t, i);
        actions_do_what_they_say(
            t,
            kind,
            params,
            label,
            steps,
            j,
            s,
            after_steps(s, steps, m.id),
        );
        moved_messages_are_queued(t, kind, params, label, steps, j);
        let a = NewAction {
            account_id: t.account_id,
            kind,
            message_id: Some(t.messages@[j].id),
            thread_id: Some(t.thread_id),
            payload: ActionPayload {
                src_folder_id: t.messages@[j].folder_id,
                src_uid: t.messages@[j].uid,
                target_folder_id: new_folder(t, kind, params, t.messages@[j]),
                wake_at: None,
                label_id: None,
                keyword: None,
                draft_id: None,
            },
        };
        lemma_queued_by_has(steps, a);
        let q = queued_by(steps);
        let k = q.index_of(a);
        let b = before.queue@.len() as int;
        assert(is_waiting(before.next_action_id + k, q[k], after.queue@[b + k]));
        assert(after.queue@[b + k].action == a);
    }
}

proof fn lemma_queued_by_has(steps: Seq<Step>, a: NewAction)
    ensures
        queued_by(steps).contains(a) <==> steps.contains(Step::Enqueue(a)),
    decreases steps.len(),
{
    if steps.len() > 0 {
        lemma_queued_by_has(steps.drop_last(), a);
        lemma_ends(steps);
        if let Step::Enqueue(b) = steps.last() {
            lemma_pushed(queued_by(steps.drop_last()), b);
        }
    }
}

/// Performing an action keeps what waits in the queue, and puts what it asks for
/// behind that: each under a new id, in order, untried, of its own kind, account
/// and thread.
pub proof fn performed_actions_wait_in_order(
    before: Store,
    thread_id: i64,
    t: ThreadRows,
    kind: ActionKind,
    params: Option<ActionParams>,
    label: Option<Label>,
    steps: Seq<Step>,
    after: Store,
    k: int,
)
    requires
        is_thread(before, thread_id, t),
        thread_steps(t, kind, params, label) == Ok::<Seq<Step>, ErrorView>(steps),
        is_written(before, steps, after),
        0 <= k < after.queue@.len(),
    ensures
        before.queue@.len() <= after.queue@.len(),
        k < before.queue@.len() ==> after.queue@[k] == before.queue@[k],
        k >= before.queue@.len() ==> after.queue@[k].state is Pending && after.queue@[k].attempts
            == 0 && after.queue@[k].id == before.next_action_id + (k - before.queue@.len())
            && after.queue@[k].action.kind == kind && after.queue@[k].action.account_id
            == before.account_id && after.queue@[k].action.thread_id == Some(thread_id),
        after.next_action_id == before.next_action_id + (after.queue@.len() - before.queue@.len()),
{
    let b = before.queue@.len() as int;
    let q = queued_by(steps);
    if k < b {
        assert(after.queue@.take(b)[k] == before.queue@[k]);
    } else {
        let j = k - b;
        assert(is_waiting(before.next_action_id + j, q[j], after.queue@[b + j]));
        assert(q.contains(q[j]));
        lemma_queued_by_has(steps, q[j]);
        let x = steps.index_of(Step::Enqueue(q[j]));
        every_change_is_queued(t, kind, params, label, steps, x);
    }
}

/// What an action has done to the marks, the star and the labels of a message
/// of the thread once it was performed: the thread is read after it was marked
/// read and unread after it was marked unread, only the newest message is
/// starred, none is after the star was taken away, and the label is on every
/// message or on none.
pub proof fn performed_actions_mark_mail(
    before: Store,
    thread_id: i64,
    t: ThreadRows,
    kind: ActionKind,
    params: Option<ActionParams>,
    label: Option<Label>,
    steps: Seq<Step>,
    after: Store,
    i: int,
)
    requires
        message_ids_differ(before.messages@),
        is_thread(before, thread_id, t),
        thread_steps(t, kind, params, label) == Ok::<Seq<Step>, ErrorView>(steps),
        is_written(before, steps, after),
        0 <= i < before.messages@.len(),
        before.messages@[i].thread_id == thread_id,
        !before.messages@[i].is_draft,
    ensures
        kind is MarkRead ==> after.messages@[i].is_read,
        kind is MarkUnread ==> !after.messages@[i].is_read,
        !(kind is MarkRead) && !(kind is MarkUnread) ==> after.messages@[i].is_read
            == before.messages@[i].is_read,
        kind is Unstar ==> !after.messages@[i].is_starred,
        kind is Star ==> after.messages@[i].is_starred == (before.messages@[i].is_starred || (
        forall|k: int|
            0 <= k < before.messages@.len() && (#[trigger] before.messages@[k]).thread_id
                == thread_id && !before.messages@[k].is_draft ==> before.messages@[k].id
                <= before.messages@[i].id)),
        !(kind is Star) && !(kind is Unstar) ==> after.messages@[i].is_starred
            == before.messages@[i].is_starred,
        forall|l: i64| #[trigger]
            after.messages@[i].labels@.contains(l) <==> (if kind is AddLabel && l
                == params->0.label_id->0 {
                true
            } else if kind is RemoveLabel && l == params->0.label_id->0 {
                false
            } else {
                before.messages@[i].labels@.contains(l)
            }),
{
    let m = before.messages@[i];
    let s = state_of(m);
    lemma_thread_ids(before, thread_id, t);
    assert(same_mail(m, after.messages@[i]));
    let now = state_of(after.messages@[i]);
    assert(now == after_steps(s, steps, m.id));
    assert(belongs(before.messages@, thread_id)(i));
    let j = lemma_in_thread(before, thread_id, t, i);
    actions_do_what_they_say(t, kind, params, label, steps, j, s, now);
    assert forall|l: i64| #[trigger] after.messages@[i].labels@.contains(l) <==> (if kind
        is AddLabel && l == params->0.label_id->0 {
        true
    } else if kind is RemoveLabel && l == params->0.label_id->0 {
        false
    } else {
        m.labels@.contains(l)
    }) by {
        assert(now.labels.contains(l) == after.messages@[i].labels@.contains(l));
        assert(s.labels.contains(l) == m.labels@.contains(l));
    }
    if kind is Star {
        let test = belongs(before.messages@, thread_id);
        let own = picked(test, before.messages@.len() as int);
        lemma_picked(test, before.messages@.len() as int);
        let newest = forall|k: int|
            0 <= k < before.messages@.len() && (#[trigger] before.messages@[k]).thread_id
                == thread_id && !before.messages@[k].is_draft ==> before.messages@[k].id <= m.id;
        let highest = forall|k: int|
            0 <= k < t.messages@.len() ==> (#[trigger] t.messages@[k]).id <= t.messages@[j].id;
        if newest {
            assert forall|k: int| 0 <= k < t.messages@.len() implies (#[trigger] t.messages@[k]).id
                <= t.messages@[j].id by {
                assert(is_shown(before.folders@, before.messages@[own[k]], t.messages@[k]));
                assert(own.contains(own[k]));
                assert(test(own[k]));
                assert(before.messages@[own[k]].id <= m.id);
            }
        }
        if highest {
            assert forall|k: int|
                0 <= k < before.messages@.len() && (#[trigger] before.messages@[k]).thread_id
                    == thread_id && !before.messages@[k].is_draft implies before.messages@[k].id
                <= m.id by {
                assert(test(k));
                let x = lemma_in_thread(before, thread_id, t, k);
                assert(t.messages@[x].id <= t.messages@[j].id);
            }
        }
        assert(newest == highest);
    }
}

/// Once a thread was trashed its mail is in the trash and in no other folder
/// with a role; the same with spam. Once it was archived, none of it is in the
/// inbox.
pub proof fn triaged_threads_leave_their_folders(
    before: Store,
    thread_id: i64,
    t: ThreadRows,
    kind: ActionKind,
    params: Option<ActionParams>,
    label: Option<Label>,
    steps: Seq<Step>,
    after: Store,
    role: Seq<char>,
)
    requires
        message_ids_differ(before.messages@),
        folder_ids_differ(before.folders@),
        is_thread(before, thread_id, t),
        thread_steps(t, kind, params, label) == Ok::<Seq<Step>, ErrorView>(steps),
        is_written(before, steps, after),
        role != ""@,
    ensures
        kind is Trash && role != TRASH@ ==> !has_mail(after, thread_id, role),
        kind is Trash && has_mail(before, thread_id, role) ==> has_mail(after, thread_id, TRASH@),
        kind is Spam && role != SPAM@ ==> !has_mail(after, thread_id, role),
        kind is Spam && has_mail(before, thread_id, role) ==> has_mail(after, thread_id, SPAM@),
        kind is Archive ==> !has_mail(after, thread_id, INBOX@),
        kind is NotSpam ==> !has_mail(after, thread_id, SPAM@),
        kind is NotSpam && has_mail(before, thread_id, SPAM@) ==> has_mail(
            after,
            thread_id,
            INBOX@,
        ),
{
    let f = before.folders@;
    lemma_roles_differ();
    assert forall|i: int|
        0 <= i < before.messages@.len() && #[trigger] belongs(before.messages@, thread_id)(
            i,
        ) implies belongs(after.messages@, thread_id)(i) && has_left(
        f,
        kind,
        role,
        before.messages@[i].folder_id,
        after.messages@[i].folder_id,
    ) by {
        performed_actions_move_mail(
            before,
            thread_id,
            t,
            kind,
            params,
            label,
            steps,
            after,
            i,
        );
        let was = before.messages@[i].folder_id;
        let now = after.messages@[i].folder_id;
        lemma_has_role(f, was);
        lemma_lies_in(f, was, role);
        lemma_lies_in(f, was, INBOX@);
        lemma_lies_in(f, was, SPAM@);
        lemma_lies_in(f, now, role);
        lemma_lies_in(f, now, TRASH@);
        lemma_lies_in(f, now, SPAM@);
        lemma_lies_in(f, now, INBOX@);
        lemma_lies_in(f, now, ARCHIVE@);
        lemma_lies_in(f, now, ALL@);
    }
    assert forall|i: int|
        0 <= i < after.messages@.len() && #[trigger] belongs(after.messages@, thread_id)(
            i,
        ) implies belongs(before.messages@, thread_id)(i) by {
        assert(same_mail(before.messages@[i], after.messages@[i]));
    }
    lemma_mail_moves(before, after, thread_id, kind, role);
}

/// What is shown of one message: where it was and where it is.
spec fn has_left(
    f: Seq<StoredFolder>,
    kind: ActionKind,
    role: Seq<char>,
    was: Option<i64>,
    now: Option<i64>,
) -> bool {
    &&& kind is Trash && role != TRASH@ ==> role_in(f, now) != role
    &&& kind is Trash && role_in(f, was) == role ==> role_in(f, now) == TRASH@
    &&& kind is Spam && role != SPAM@ ==> role_in(f, now) != role
    &&& kind is Spam && role_in(f, was) == role ==> role_in(f, now) == SPAM@
    &&& kind is Archive ==> role_in(f, now) != INBOX@
    &&& kind is NotSpam ==> role_in(f, now) != SPAM@
    &&& kind is NotSpam && role_in(f, was) == SPAM@ ==> role_in(f, now) == INBOX@
}

proof fn lemma_mail_moves(
    before: Store,
    after: Store,
    thread_id: i64,
    kind: ActionKind,
    role: Seq<char>,
)
    requires
        after.folders@ == before.folders@,
        after.messages@.len() == before.messages@.len(),
        forall|i: int|
            0 <= i < before.messages@.len() && #[trigger] belongs(before.messages@, thread_id)(i)
                ==> belongs(after.messages@, thread_id)(i) && has_left(
                before.folders@,
                kind,
                role,
                before.messages@[i].folder_id,
                after.messages@[i].folder_id,
            ),
        forall|i: int|
            0 <= i < after.messages@.len() && #[trigger] belongs(after.messages@, thread_id)(i)
                ==> belongs(before.messages@, thread_id)(i),
    ensures
        kind is Trash && role != TRASH@ ==> !has_mail(after, thread_id, role),
        kind is Trash && has_mail(before, thread_id, role) ==> has_mail(after, thread_id, TRASH@),
        kind is Spam && role != SPAM@ ==> !has_mail(after, thread_id, role),
        kind is Spam && has_mail(before, thread_id, role) ==> has_mail(after, thread_id, SPAM@),
        kind is Archive ==> !has_mail(after, thread_id, INBOX@),
        kind is NotSpam ==> !has_mail(after, thread_id, SPAM@),
        kind is NotSpam && has_mail(before, thread_id, SPAM@) ==> has_mail(
            after,
            thread_id,
            INBOX@,
        ),
{
    if has_mail(before, thread_id, role) {
        let i = choose|i: int|
            0 <= i < before.messages@.len() && belongs(before.messages@, thread_id)(i) && role_in(
                before.folders@,
                (#[trigger] before.messages@[i]).folder_id,
            ) == role;
        assert(belongs(after.messages@, thread_id)(i));
        assert(after.messages@[i].folder_id == after.messages@[i].folder_id);
    }
    if has_mail(before, thread_id, SPAM@) {
        let i = choose|i: int|
            0 <= i < before.messages@.len() && belongs(before.messages@, thread_id)(i) && role_in(
                before.folders@,
                (#[trigger] before.messages@[i]).folder_id,
            ) == SPAM@;
        assert(belongs(after.messages@, thread_id)(i));
        assert(after.messages@[i].folder_id == after.messages@[i].folder_id);
    }
}

/// An action on a thread can be done exactly where the account has the folder
/// that it needs.
pub proof fn actions_need_folders_of_their_role(
    store: Store,
    thread_id: i64,
    t: ThreadRows,
    kind: ActionKind,
    params: Option<ActionParams>,
    label: Option<Label>,
)
    requires
        is_thread(store, thread_id, t),
    ensures
        kind is Trash ==> (thread_steps(t, kind, params, label) is Ok <==> has_folder(
            store.folders@,
            TRASH@,
        )),
        kind is Spam ==> (thread_steps(t, kind, params, label) is Ok <==> has_folder(
            store.folders@,
            SPAM@,
        )),
        kind is Archive ==> (thread_steps(t, kind, params, label) is Ok <==> has_folder(
            store.folders@,
            ARCHIVE@,
        ) || has_folder(store.folders@, ALL@) || has_folder(store.folders@, TRASH@)),
        kind is Unarchive || kind is NotSpam ==> (thread_steps(t, kind, params, label) is Ok
            <==> has_folder(store.folders@, INBOX@)),
{
    actions_need_their_folders(t, kind, params, label);
    lemma_has_folder(store.folders@, INBOX@);
    lemma_has_folder(store.folders@, ARCHIVE@);
    lemma_has_folder(store.folders@, ALL@);
    lemma_has_folder(store.folders@, TRASH@);
    lemma_has_folder(store.folders@, SPAM@);
}

/// A start keeps the queue: every action is still there in its place with its
/// attempts, what waited still waits, and nothing is under way. It moves no
/// mail, and leaves no body being fetched.
pub proof fn starting_keeps_queue_and_mail(before: Store, after: Store, thread_id: i64)
    requires
        is_restarted(before, after),
    ensures
        after.queue@.len() == before.queue@.len(),
        forall|k: int|
            0 <= k < after.queue@.len() ==> (#[trigger] after.queue@[k]).id == before.queue@[k].id
                && after.queue@[k].action == before.queue@[k].action && after.queue@[k].attempts
                == before.queue@[k].attempts && !(after.queue@[k].state is Inflight) && (
            before.queue@[k].state is Pending ==> after.queue@[k].state is Pending),
        forall|role: Seq<char>| #[trigger]
            has_mail(after, thread_id, role) == has_mail(before, thread_id, role),
        all_read(after, thread_id) == all_read(before, thread_id),
        forall|i: int|
            0 <= i < after.messages@.len() ==> (#[trigger] after.messages@[i]).body_state@
                != "fetching"@,
{
    assert forall|k: int| 0 <= k < after.queue@.len() implies (#[trigger] after.queue@[k]).id
        == before.queue@[k].id && after.queue@[k].action == before.queue@[k].action
        && after.queue@[k].attempts == before.queue@[k].attempts && !(after.queue@[k].state
        is Inflight) && (before.queue@[k].state is Pending ==> after.queue@[k].state is Pending) by {
        assert(is_requeued_action(before.queue@[k], after.queue@[k]));
    }
    assert forall|i: int| 0 <= i < after.messages@.len() implies (
    #[trigger] after.messages@[i]).body_state@ != "fetching"@ by {
        assert(is_started(before.messages@[i], after.messages@[i]));
        reveal_strlit("none");
        reveal_strlit("fetching");
        assert("none"@.len() != "fetching"@.len());
    }
    assert forall|role: Seq<char>| #[trigger]
        has_mail(after, thread_id, role) == has_mail(before, thread_id, role) by {
        if has_mail(before, thread_id, role) {
            let i = choose|i: int|
                0 <= i < before.messages@.len() && belongs(before.messages@, thread_id)(i)
                    && role_in(before.folders@, (#[trigger] before.messages@[i]).folder_id) == role;
            assert(is_started(before.messages@[i], after.messages@[i]));
            assert(belongs(after.messages@, thread_id)(i));
        }
        if has_mail(after, thread_id, role) {
            let i = choose|i: int|
                0 <= i < after.messages@.len() && belongs(after.messages@, thread_id)(i)
                    && role_in(after.folders@, (#[trigger] after.messages@[i]).folder_id) == role;
            assert(is_started(before.messages@[i], after.messages@[i]));
            assert(belongs(before.messages@, thread_id)(i));
        }
    }
    assert(all_read(after, thread_id) == all_read(before, thread_id)) by {
        assert forall|i: int| 0 <= i < before.messages@.len() implies belongs(
            before.messages@,
            thread_id,
        )(i) == #[trigger] belongs(after.messages@, thread_id)(i) && before.messages@[i].is_read
            == after.messages@[i].is_read by {
            assert(is_started(before.messages@[i], after.messages@[i]));
        }
        if all_read(before, thread_id) {
            assert forall|i: int|
                0 <= i < after.messages@.len() && belongs(after.messages@, thread_id)(
                    i,
                ) implies (#[trigger] after.messages@[i]).is_read by {
                assert(before.messages@[i].is_read);
            }
        }
        if all_read(after, thread_id) {
            assert forall|i: int|
                0 <= i < before.messages@.len() && belongs(before.messages@, thread_id)(
                    i,
                ) implies (#[trigger] before.messages@[i]).is_read by {
                assert(belongs(after.messages@, thread_id)(i));
                assert(after.messages@[i].is_read);
            }
        }
    }
}

/// To start twice is to start once.
pub proof fn starting_twice_is_once(before: Store, once: Store, twice: Store)
    requires
        is_restarted(before, once),
        is_restarted(once, twice),
    ensures
        is_restarted(before, twice),
        forall|k: int|
            0 <= k < once.queue@.len() ==> #[trigger] twice.queue@[k] == once.queue@[k],
{
    assert forall|k: int| 0 <= k < once.queue@.len() implies #[trigger] twice.queue@[k]
        == once.queue@[k] by {
        assert(is_requeued_action(before.queue@[k], once.queue@[k]));
        assert(is_requeued_action(once.queue@[k], twice.queue@[k]));
    }
    assert forall|i: int| 0 <= i < before.messages@.len() implies is_started(
        before.messages@[i],
        #[trigger] twice.messages@[i],
    ) by {
        assert(is_started(before.messages@[i], once.messages@[i]));
        assert(is_started(once.messages@[i], twice.messages@[i]));
    }
}

} // verus!
