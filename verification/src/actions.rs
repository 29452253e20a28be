//! What a mailbox action changes here at once, what it asks of the server
//! later, and what undoing it does.

use vstd::prelude::*;

use crate::error::{CoreError, ErrorView};
use crate::json::{int_of_key, json_int, json_text, text_of_key};
use crate::lists::{
    lemma_ends, lemma_pushed, push_new, with_all_new, with_all_new_is_distinct,
};
use crate::models::roles::{ALL, ARCHIVE, INBOX, SPAM, TRASH};
use crate::models::{ActionKind, ActionParams, Label};
use crate::text::{concat2, concat3, decimal_int, i64_text, opt_text, owned};

verus! {

/// The value behind an optional reference.
pub open spec fn owned_ref<T>(o: Option<&T>) -> Option<T> {
    match o {
        Some(v) => Some(*v),
        None => None,
    }
}

// ---------------------------------------------------------------------------
// Rows
// ---------------------------------------------------------------------------

/// A message of a thread, drafts left out, with the role of its folder (empty
/// where the folder has none).
#[derive(Debug, Clone)]
pub struct ThreadMessage {
    pub id: i64,
    pub folder_id: Option<i64>,
    pub uid: Option<i64>,
    pub is_read: bool,
    pub is_starred: bool,
    pub role: String,
}

/// The folders of an account that actions move mail to and from.
#[derive(Debug, Clone, Copy, PartialEq, Eq)]
pub struct RoleFolders {
    pub inbox: Option<i64>,
    pub archive: Option<i64>,
    pub all: Option<i64>,
    pub trash: Option<i64>,
    pub spam: Option<i64>,
}

/// A thread as an action finds it.
#[derive(Debug, Clone)]
pub struct ThreadRows {
    pub thread_id: i64,
    pub account_id: i64,
    pub messages: Vec<ThreadMessage>,
    pub folders: RoleFolders,
}

/// What an action has to remember until it runs on the server or is undone.
#[derive(Debug, Clone)]
pub struct ActionPayload {
    pub src_folder_id: Option<i64>,
    pub src_uid: Option<i64>,
    pub target_folder_id: Option<i64>,
    pub wake_at: Option<i64>,
    pub label_id: Option<i64>,
    pub keyword: Option<String>,
    pub draft_id: Option<i64>,
}

/// An action to put into the queue.
#[derive(Debug, Clone)]
pub struct NewAction {
    pub account_id: i64,
    pub kind: ActionKind,
    pub message_id: Option<i64>,
    pub thread_id: Option<i64>,
    pub payload: ActionPayload,
}

/// An action as it stands in the queue.
#[derive(Debug, Clone)]
pub struct PendingAction {
    pub id: i64,
    pub account_id: i64,
    pub kind: String,
    pub message_id: Option<i64>,
    pub thread_id: Option<i64>,
    pub payload: ActionPayload,
    pub attempts: i64,
    pub created_at: i64,
}

/// One write of an action, in the order in which it is made.
#[derive(Debug, Clone)]
pub enum Step {
    SetRead { message_id: i64, read: bool },
    SetStarred { message_id: i64, starred: bool },
    SetFolder { message_id: i64, folder_id: i64, uid: Option<i64> },
    AddLabel { message_id: i64, label_id: i64 },
    RemoveLabel { message_id: i64, label_id: i64 },
    SetSnooze { thread_id: i64, account_id: i64, wake_at: i64, original_folder: Option<i64> },
    ClearSnooze { thread_id: i64 },
    Enqueue(NewAction),
}

// ---------------------------------------------------------------------------
// Applying
// ---------------------------------------------------------------------------

/// A payload with nothing to remember.
pub open spec fn no_payload() -> ActionPayload {
    ActionPayload {
        src_folder_id: None,
        src_uid: None,
        target_folder_id: None,
        wake_at: None,
        label_id: None,
        keyword: None,
        draft_id: None,
    }
}

impl ActionPayload {
    pub fn empty() -> (r: ActionPayload)
        ensures
            r == no_payload(),
    {
        ActionPayload {
            src_folder_id: None,
            src_uid: None,
            target_folder_id: None,
            wake_at: None,
            label_id: None,
            keyword: None,
            draft_id: None,
        }
    }
}

/// The payload that a stored text holds. A value that is missing or of another
/// kind counts as not there.
pub open spec fn is_payload(json: Seq<char>, p: ActionPayload) -> bool {
    &&& p.src_folder_id == json_int(json, "srcFolderId"@)
    &&& p.src_uid == json_int(json, "srcUid"@)
    &&& p.target_folder_id == json_int(json, "targetFolderId"@)
    &&& p.wake_at == json_int(json, "wakeAt"@)
    &&& p.label_id == json_int(json, "labelId"@)
    &&& opt_text(p.keyword) == json_text(json, "keyword"@)
    &&& p.draft_id == json_int(json, "draftId"@)
}

/// What an action remembers is read back from under its own name.
pub proof fn payloads_are_read_by_name(json: Seq<char>, p: ActionPayload)
    requires
        is_payload(json, p),
    ensures
        json_int(json, "srcFolderId"@) == p.src_folder_id,
        json_int(json, "srcUid"@) == p.src_uid,
        json_int(json, "targetFolderId"@) == p.target_folder_id,
        json_int(json, "wakeAt"@) == p.wake_at,
        json_int(json, "labelId"@) == p.label_id,
        json_text(json, "keyword"@) == opt_text(p.keyword),
        json_int(json, "draftId"@) == p.draft_id,
{
}

/// Reads the payload of a stored action.
pub fn read_payload(json: &str) -> (r: ActionPayload)
    ensures
        is_payload(json@, r),
{
    ActionPayload {
        src_folder_id: int_of_key(json, "srcFolderId"),
        src_uid: int_of_key(json, "srcUid"),
        target_folder_id: int_of_key(json, "targetFolderId"),
        wake_at: int_of_key(json, "wakeAt"),
        label_id: int_of_key(json, "labelId"),
        keyword: text_of_key(json, "keyword"),
        draft_id: int_of_key(json, "draftId"),
    }
}

pub open spec fn enqueued(
    t: ThreadRows,
    kind: ActionKind,
    message_id: Option<i64>,
    payload: ActionPayload,
) -> Step {
    Step::Enqueue(
        NewAction {
            account_id: t.account_id,
            kind,
            message_id,
            thread_id: Some(t.thread_id),
            payload,
        },
    )
}

/// A move: the row points at its new folder at once, with no UID there yet,
/// and the action remembers where the server still has the message.
pub open spec fn move_steps(
    t: ThreadRows,
    kind: ActionKind,
    m: ThreadMessage,
    target: i64,
) -> Seq<Step> {
    seq![
        Step::SetFolder { message_id: m.id, folder_id: target, uid: None },
        enqueued(
            t,
            kind,
            Some(m.id),
            ActionPayload {
                src_folder_id: m.folder_id,
                src_uid: m.uid,
                target_folder_id: Some(target),
                ..no_payload()
            },
        ),
    ]
}

/// An account with neither an archive nor an All Mail folder archives to the
/// trash.
pub open spec fn trash_is_archive(f: RoleFolders) -> bool {
    f.archive is None && f.all is None
}

/// The action takes this message out of the folder that it is in.
pub open spec fn leaves_folder(t: ThreadRows, kind: ActionKind, m: ThreadMessage) -> bool {
    match kind {
        ActionKind::Archive => m.role@ == INBOX@,
        ActionKind::Trash => m.role@ != TRASH@ && m.role@.len() != 0,
        ActionKind::Spam => m.role@ != SPAM@ && m.role@.len() != 0,
        ActionKind::Unarchive => m.role@ == ARCHIVE@ || m.role@ == ALL@ || (trash_is_archive(
            t.folders,
        ) && m.role@ == TRASH@),
        ActionKind::NotSpam => m.role@ == SPAM@,
        _ => false,
    }
}

/// The label that a label action is about: its id, its keyword on the server,
/// and whether it is kept on this device only.
pub struct LabelRef {
    pub id: i64,
    pub keyword: String,
    pub local_only: bool,
}

/// What an action writes for one message of the thread.
pub open spec fn message_steps(
    t: ThreadRows,
    kind: ActionKind,
    target: i64,
    label: Option<LabelRef>,
    m: ThreadMessage,
) -> Seq<Step> {
    match kind {
        ActionKind::MarkRead | ActionKind::MarkUnread => if m.is_read != (kind
            == ActionKind::MarkRead) {
            seq![
                Step::SetRead { message_id: m.id, read: kind == ActionKind::MarkRead },
                enqueued(t, kind, Some(m.id), no_payload()),
            ]
        } else {
            Seq::empty()
        },
        ActionKind::Unstar => if m.is_starred {
            seq![
                Step::SetStarred { message_id: m.id, starred: false },
                enqueued(t, kind, Some(m.id), no_payload()),
            ]
        } else {
            Seq::empty()
        },
        ActionKind::Archive
        | ActionKind::Trash
        | ActionKind::Spam
        | ActionKind::Unarchive
        | ActionKind::NotSpam => if leaves_folder(t, kind, m) && m.folder_id is Some {
            move_steps(t, kind, m, target)
        } else {
            Seq::empty()
        },
        ActionKind::Move => if m.folder_id is Some && m.folder_id != Some(target) {
            move_steps(t, kind, m, target)
        } else {
            Seq::empty()
        },
        ActionKind::AddLabel | ActionKind::RemoveLabel => if let Some(label) = label {
            let change = if kind == ActionKind::AddLabel {
                Step::AddLabel { message_id: m.id, label_id: label.id }
            } else {
                Step::RemoveLabel { message_id: m.id, label_id: label.id }
            };
            if label.local_only {
                seq![change]
            } else {
                seq![
                    change,
                    enqueued(
                        t,
                        kind,
                        Some(m.id),
                        ActionPayload {
                            label_id: Some(label.id),
                            keyword: Some(label.keyword),
                            ..no_payload()
                        },
                    ),
                ]
            }
        } else {
            Seq::empty()
        },
        _ => Seq::empty(),
    }
}

/// What an action writes for the messages of the thread, one after the other.
pub open spec fn all_steps(
    t: ThreadRows,
    kind: ActionKind,
    target: i64,
    label: Option<LabelRef>,
    messages: Seq<ThreadMessage>,
) -> Seq<Step>
    decreases messages.len(),
{
    if messages.len() == 0 {
        Seq::empty()
    } else {
        all_steps(t, kind, target, label, messages.drop_last()) + message_steps(
            t,
            kind,
            target,
            label,
            messages.last(),
        )
    }
}

/// The newest message of a thread: the one with the highest id.
pub open spec fn newest(messages: Seq<ThreadMessage>) -> Option<ThreadMessage>
    decreases messages.len(),
{
    if messages.len() == 0 {
        None
    } else {
        match newest(messages.drop_last()) {
            Some(m) if m.id > messages.last().id => Some(m),
            _ => Some(messages.last()),
        }
    }
}

/// The folder of the first message that is in one.
pub open spec fn first_folder(messages: Seq<ThreadMessage>) -> Option<i64>
    decreases messages.len(),
{
    if messages.len() == 0 {
        None
    } else if messages[0].folder_id is Some {
        messages[0].folder_id
    } else {
        first_folder(messages.drop_first())
    }
}

/// The folder that an action moves mail to. Archiving falls back to All Mail,
/// then to the trash.
pub open spec fn move_target(f: RoleFolders, kind: ActionKind) -> Option<i64> {
    match kind {
        ActionKind::Archive => if f.archive is Some {
            f.archive
        } else if f.all is Some {
            f.all
        } else {
            f.trash
        },
        ActionKind::Trash => f.trash,
        ActionKind::Spam => f.spam,
        ActionKind::Unarchive | ActionKind::NotSpam => f.inbox,
        _ => None,
    }
}

/// What is said where the folder that an action needs is missing.
pub open spec fn missing_folder(kind: ActionKind) -> ErrorView {
    ErrorView::NotFound(
        match kind {
            ActionKind::Archive => "no "@ + ARCHIVE@ + " folder"@,
            ActionKind::Trash => "no "@ + TRASH@ + " folder"@,
            ActionKind::Spam => "no "@ + SPAM@ + " folder"@,
            _ => "no inbox folder"@,
        },
    )
}

/// The label reference of a label row, under the id that the caller named.
pub open spec fn label_ref(id: i64, label: Label) -> LabelRef {
    LabelRef { id, keyword: label.keyword, local_only: label.is_auto }
}

/// Everything that an action writes, or why it cannot be done.
pub open spec fn thread_steps(
    t: ThreadRows,
    kind: ActionKind,
    params: Option<ActionParams>,
    label: Option<Label>,
) -> Result<Seq<Step>, ErrorView> {
    let messages = t.messages@;
    match kind {
        ActionKind::MarkRead | ActionKind::MarkUnread | ActionKind::Unstar => Ok(
            all_steps(t, kind, 0, None, messages),
        ),
        ActionKind::Star => Ok(
            match newest(messages) {
                Some(m) if !m.is_starred => seq![
                    Step::SetStarred { message_id: m.id, starred: true },
                    enqueued(t, kind, Some(m.id), no_payload()),
                ],
                _ => Seq::empty(),
            },
        ),
        ActionKind::Archive | ActionKind::Trash | ActionKind::Spam => match move_target(
            t.folders,
            kind,
        ) {
            Some(target) => Ok(
                all_steps(t, kind, target, None, messages).push(
                    Step::ClearSnooze { thread_id: t.thread_id },
                ),
            ),
            None => Err(missing_folder(kind)),
        },
        ActionKind::Unarchive | ActionKind::NotSpam => match move_target(t.folders, kind) {
            Some(target) => Ok(all_steps(t, kind, target, None, messages)),
            None => Err(missing_folder(kind)),
        },
        ActionKind::Move => match params {
            Some(ActionParams { target_folder_id: Some(target), .. }) => Ok(
                all_steps(t, kind, target, None, messages),
            ),
            _ => Err(ErrorView::Other("move requires targetFolderId"@)),
        },
        ActionKind::Snooze => match params {
            Some(ActionParams { wake_at: Some(wake_at), .. }) => Ok(
                seq![
                    Step::SetSnooze {
                        thread_id: t.thread_id,
                        account_id: t.account_id,
                        wake_at,
                        original_folder: first_folder(messages),
                    },
                    enqueued(
                        t,
                        kind,
                        None,
                        ActionPayload { wake_at: Some(wake_at), ..no_payload() },
                    ),
                ],
            ),
            _ => Err(ErrorView::Other("snooze requires wakeAt"@)),
        },
        ActionKind::Unsnooze => Ok(
            seq![
                Step::ClearSnooze { thread_id: t.thread_id },
                enqueued(t, kind, None, no_payload()),
            ],
        ),
        ActionKind::AddLabel | ActionKind::RemoveLabel => match params {
            Some(ActionParams { label_id: Some(id), .. }) => match label {
                Some(l) => Ok(all_steps(t, kind, 0, Some(label_ref(id, l)), messages)),
                None => Err(ErrorView::NotFound("label "@ + decimal_int(id as int))),
            },
            _ => Err(ErrorView::Other("label action requires labelId"@)),
        },
        ActionKind::Send => Err(ErrorView::Other("use queue_send for sending"@)),
    }
}

fn enqueue(
    t: &ThreadRows,
    kind: ActionKind,
    message_id: Option<i64>,
    payload: ActionPayload,
) -> (r: Step)
    ensures
        r == enqueued(*t, kind, message_id, payload),
{
    Step::Enqueue(
        NewAction {
            account_id: t.account_id,
            kind,
            message_id,
            thread_id: Some(t.thread_id),
            payload,
        },
    )
}

fn enqueue_move(
    steps: &mut Vec<Step>,
    t: &ThreadRows,
    kind: ActionKind,
    m: &ThreadMessage,
    target: i64,
)
    ensures
        final(steps)@ == old(steps)@ + move_steps(*t, kind, *m, target),
{
    steps.push(Step::SetFolder { message_id: m.id, folder_id: target, uid: None });
    steps.push(
        enqueue(
            t,
            kind,
            Some(m.id),
            ActionPayload {
                src_folder_id: m.folder_id,
                src_uid: m.uid,
                target_folder_id: Some(target),
                wake_at: None,
                label_id: None,
                keyword: None,
                draft_id: None,
            },
        ),
    );
    proof {
        assert(steps@ =~= old(steps)@ + move_steps(*t, kind, *m, target));
    }
}

fn moves_out(t: &ThreadRows, kind: ActionKind, m: &ThreadMessage) -> (r: bool)
    ensures
        r == leaves_folder(*t, kind, *m),
{
    let role: &str = m.role.as_str();
    match kind {
        ActionKind::Archive => role.eq(INBOX),
        ActionKind::Trash => !role.eq(TRASH) && role.unicode_len() != 0,
        ActionKind::Spam => !role.eq(SPAM) && role.unicode_len() != 0,
        ActionKind::Unarchive => role.eq(ARCHIVE) || role.eq(ALL) || (t.folders.archive.is_none()
            && t.folders.all.is_none() && role.eq(TRASH)),
        ActionKind::NotSpam => role.eq(SPAM),
        _ => false,
    }
}

fn push_message_steps(
    steps: &mut Vec<Step>,
    t: &ThreadRows,
    kind: ActionKind,
    target: i64,
    label: Option<&LabelRef>,
    m: &ThreadMessage,
)
    ensures
        final(steps)@ == old(steps)@ + message_steps(
            *t,
            kind,
            target,
            owned_ref(label),
            *m,
        ),
{
    let ghost l = owned_ref(label);
    let ghost before = steps@;
    match kind {
        ActionKind::MarkRead | ActionKind::MarkUnread => {
            let read: bool = matches!(kind, ActionKind::MarkRead);
            if m.is_read != read {
                steps.push(Step::SetRead { message_id: m.id, read });
                steps.push(enqueue(t, kind, Some(m.id), ActionPayload::empty()));
            }
        },
        ActionKind::Unstar => {
            if m.is_starred {
                steps.push(Step::SetStarred { message_id: m.id, starred: false });
                steps.push(enqueue(t, kind, Some(m.id), ActionPayload::empty()));
            }
        },
        ActionKind::Archive
        | ActionKind::Trash
        | ActionKind::Spam
        | ActionKind::Unarchive
        | ActionKind::NotSpam => {
            if m.folder_id.is_some() && moves_out(t, kind, m) {
                enqueue_move(steps, t, kind, m, target);
            }
        },
        ActionKind::Move => {
            if let Some(folder) = m.folder_id {
                if folder != target {
                    enqueue_move(steps, t, kind, m, target);
                }
            }
        },
        ActionKind::AddLabel | ActionKind::RemoveLabel => {
            if let Some(label) = label {
                if matches!(kind, ActionKind::AddLabel) {
                    steps.push(Step::AddLabel { message_id: m.id, label_id: label.id });
                } else {
                    steps.push(Step::RemoveLabel { message_id: m.id, label_id: label.id });
                }
                if !label.local_only {
                    steps.push(
                        enqueue(
                            t,
                            kind,
                            Some(m.id),
                            ActionPayload {
                                src_folder_id: None,
                                src_uid: None,
                                target_folder_id: None,
                                wake_at: None,
                                label_id: Some(label.id),
                                keyword: Some(label.keyword.clone()),
                                draft_id: None,
                            },
                        ),
                    );
                }
            }
        },
        _ => {},
    }
    proof {
        assert(steps@ =~= before + message_steps(*t, kind, target, l, *m));
    }
}

fn per_message(t: &ThreadRows, kind: ActionKind, target: i64, label: Option<&LabelRef>) -> (r: Vec<
    Step,
>)
    ensures
        r@ == all_steps(
            *t,
            kind,
            target,
            owned_ref(label),
            t.messages@,
        ),
{
    let ghost l = owned_ref(label);
    let mut steps: Vec<Step> = Vec::new();
    let mut i: usize = 0;
    while i < t.messages.len()
        invariant
            i <= t.messages@.len(),
            l == owned_ref(label),
            steps@ == all_steps(*t, kind, target, l, t.messages@.take(i as int)),
        decreases t.messages@.len() - i,
    {
        push_message_steps(&mut steps, t, kind, target, label, &t.messages[i]);
        i = i + 1;
        proof {
            assert(t.messages@.take(i as int).drop_last() =~= t.messages@.take(i - 1));
        }
    }
    proof {
        assert(t.messages@.take(t.messages@.len() as int) =~= t.messages@);
    }
    steps
}

fn newest_index(messages: &Vec<ThreadMessage>) -> (r: Option<usize>)
    ensures
        match r {
            Some(i) => i < messages@.len() && newest(messages@) == Some(messages@[i as int]),
            None => messages@.len() == 0,
        },
{
    let mut best: Option<usize> = None;
    let mut i: usize = 0;
    while i < messages.len()
        invariant
            i <= messages@.len(),
            match best {
                Some(b) => b < i && newest(messages@.take(i as int)) == Some(messages@[b as int]),
                None => i == 0,
            },
        decreases messages@.len() - i,
    {
        proof {
            assert(messages@.take(i + 1).drop_last() =~= messages@.take(i as int));
        }
        best = match best {
            Some(b) => if messages[b].id > messages[i].id {
                Some(b)
            } else {
                Some(i)
            },
            None => Some(i),
        };
        i = i + 1;
    }
    proof {
        assert(messages@.take(messages@.len() as int) =~= messages@);
    }
    best
}

fn folder_of_first(messages: &Vec<ThreadMessage>) -> (r: Option<i64>)
    ensures
        r == first_folder(messages@),
{
    let mut i: usize = 0;
    proof {
        assert(messages@.skip(0) =~= messages@);
    }
    while i < messages.len()
        invariant
            i <= messages@.len(),
            first_folder(messages@) == first_folder(messages@.skip(i as int)),
        decreases messages@.len() - i,
    {
        if messages[i].folder_id.is_some() {
            return messages[i].folder_id;
        }
        proof {
            assert(messages@.skip(i as int).drop_first() =~= messages@.skip(i + 1));
        }
        i = i + 1;
    }
    None
}

fn target_of(f: &RoleFolders, kind: ActionKind) -> (r: Option<i64>)
    ensures
        r == move_target(*f, kind),
{
    match kind {
        ActionKind::Archive => if f.archive.is_some() {
            f.archive
        } else if f.all.is_some() {
            f.all
        } else {
            f.trash
        },
        ActionKind::Trash => f.trash,
        ActionKind::Spam => f.spam,
        ActionKind::Unarchive | ActionKind::NotSpam => f.inbox,
        _ => None,
    }
}

fn no_folder(kind: ActionKind) -> (r: CoreError)
    ensures
        r@ == missing_folder(kind),
{
    CoreError::NotFound(
        match kind {
            ActionKind::Archive => concat3("no ", ARCHIVE, " folder"),
            ActionKind::Trash => concat3("no ", TRASH, " folder"),
            ActionKind::Spam => concat3("no ", SPAM, " folder"),
            _ => owned("no inbox folder"),
        },
    )
}

/// Optimistic local mutation + enqueue: the writes of an action, in order, to
/// be made in one transaction. `label` is the row of the label that `params`
/// names, where there is one.
pub fn apply_thread_action(
    t: &ThreadRows,
    kind: ActionKind,
    params: Option<&ActionParams>,
    label: Option<&Label>,
) -> (r: Result<Vec<Step>, CoreError>)
    ensures
        match thread_steps(
            *t,
            kind,
            owned_ref(params),
            owned_ref(label),
        ) {
            Ok(steps) => r is Ok && r->Ok_0@ == steps,
            Err(e) => r is Err && r->Err_0@ == e,
        },
{
    match kind {
        ActionKind::MarkRead | ActionKind::MarkUnread | ActionKind::Unstar => Ok(
            per_message(t, kind, 0, None),
        ),
        ActionKind::Star => {
            // Star the latest message only (thread-level star).
            let mut steps: Vec<Step> = Vec::new();
            if let Some(i) = newest_index(&t.messages) {
                let m: &ThreadMessage = &t.messages[i];
                if !m.is_starred {
                    steps.push(Step::SetStarred { message_id: m.id, starred: true });
                    steps.push(enqueue(t, kind, Some(m.id), ActionPayload::empty()));
                }
            }
            Ok(steps)
        },
        ActionKind::Archive | ActionKind::Trash | ActionKind::Spam => {
            match target_of(&t.folders, kind) {
                Some(target) => {
                    let mut steps: Vec<Step> = per_message(t, kind, target, None);
                    // Archiving also clears snooze.
                    steps.push(Step::ClearSnooze { thread_id: t.thread_id });
                    Ok(steps)
                },
                None => Err(no_folder(kind)),
            }
        },
        ActionKind::Unarchive | ActionKind::NotSpam => match target_of(&t.folders, kind) {
            Some(target) => Ok(per_message(t, kind, target, None)),
            None => Err(no_folder(kind)),
        },
        ActionKind::Move => match params {
            Some(ActionParams { target_folder_id: Some(target), .. }) => Ok(
                per_message(t, kind, *target, None),
            ),
            _ => Err(CoreError::Other(owned("move requires targetFolderId"))),
        },
        ActionKind::Snooze => match params {
            Some(ActionParams { wake_at: Some(wake_at), .. }) => {
                let mut steps: Vec<Step> = Vec::new();
                steps.push(
                    Step::SetSnooze {
                        thread_id: t.thread_id,
                        account_id: t.account_id,
                        wake_at: *wake_at,
                        original_folder: folder_of_first(&t.messages),
                    },
                );
                let mut payload: ActionPayload = ActionPayload::empty();
                payload.wake_at = Some(*wake_at);
                steps.push(enqueue(t, kind, None, payload));
                Ok(steps)
            },
            _ => Err(CoreError::Other(owned("snooze requires wakeAt"))),
        },
        ActionKind::Unsnooze => {
            let mut steps: Vec<Step> = Vec::new();
            steps.push(Step::ClearSnooze { thread_id: t.thread_id });
            steps.push(enqueue(t, kind, None, ActionPayload::empty()));
            Ok(steps)
        },
        ActionKind::AddLabel | ActionKind::RemoveLabel => match params {
            Some(ActionParams { label_id: Some(id), .. }) => match label {
                Some(l) => {
                    let named = LabelRef {
                        id: *id,
                        keyword: l.keyword.clone(),
                        local_only: l.is_auto,
                    };
                    Ok(per_message(t, kind, 0, Some(&named)))
                },
                None => {
                    let number: String = i64_text(*id);
                    Err(CoreError::NotFound(concat2("label ", number.as_str())))
                },
            },
            _ => Err(CoreError::Other(owned("label action requires labelId"))),
        },
        ActionKind::Send => Err(CoreError::Other(owned("use queue_send for sending"))),
    }
}

proof fn lemma_all_bounded(
    t: ThreadRows,
    kind: ActionKind,
    target: i64,
    label: Option<LabelRef>,
    messages: Seq<ThreadMessage>,
)
    ensures
        all_steps(t, kind, target, label, messages).len() <= 2 * messages.len(),
    decreases messages.len(),
{
    if messages.len() > 0 {
        lemma_all_bounded(t, kind, target, label, messages.drop_last());
    }
}

/// An action makes at most two writes for each message, and two for the thread.
pub proof fn lemma_steps_bounded(
    t: ThreadRows,
    kind: ActionKind,
    params: Option<ActionParams>,
    label: Option<Label>,
)
    ensures
        thread_steps(t, kind, params, label) matches Ok(steps) ==> steps.len() <= 2
            * t.messages@.len() + 2,
{
    let messages = t.messages@;
    if let Some(target) = move_target(t.folders, kind) {
        lemma_all_bounded(t, kind, target, None, messages);
    }
    lemma_all_bounded(t, kind, 0, None, messages);
    if let Some(p) = params {
        if let Some(target) = p.target_folder_id {
            lemma_all_bounded(t, kind, target, None, messages);
        }
        if let (Some(id), Some(l)) = (p.label_id, label) {
            lemma_all_bounded(t, kind, 0, Some(label_ref(id, l)), messages);
        }
    }
}

// ---------------------------------------------------------------------------
// Undoing
// ---------------------------------------------------------------------------

/// The action that takes back a mark, a star or a label.
pub open spec fn inverse(kind: ActionKind) -> ActionKind {
    match kind {
        ActionKind::MarkRead => ActionKind::MarkUnread,
        ActionKind::MarkUnread => ActionKind::MarkRead,
        ActionKind::Star => ActionKind::Unstar,
        ActionKind::Unstar => ActionKind::Star,
        ActionKind::AddLabel => ActionKind::RemoveLabel,
        ActionKind::RemoveLabel => ActionKind::AddLabel,
        k => k,
    }
}

/// The writes that undo an action. Where it was still waiting it has been
/// cancelled, and only the local change is taken back; where it already ran,
/// the server is asked to take it back too.
pub open spec fn revert_steps(a: NewAction, was_pending: bool) -> Seq<Step> {
    match a.kind {
        ActionKind::MarkRead | ActionKind::MarkUnread => match a.message_id {
            Some(id) => {
                let change = Step::SetRead {
                    message_id: id,
                    read: a.kind == ActionKind::MarkUnread,
                };
                if was_pending {
                    seq![change]
                } else {
                    seq![
                        change,
                        Step::Enqueue(
                            NewAction { kind: inverse(a.kind), payload: no_payload(), ..a },
                        ),
                    ]
                }
            },
            None => Seq::empty(),
        },
        ActionKind::Star | ActionKind::Unstar => match a.message_id {
            Some(id) => {
                let change = Step::SetStarred {
                    message_id: id,
                    starred: a.kind == ActionKind::Unstar,
                };
                if was_pending {
                    seq![change]
                } else {
                    seq![
                        change,
                        Step::Enqueue(
                            NewAction { kind: inverse(a.kind), payload: no_payload(), ..a },
                        ),
                    ]
                }
            },
            None => Seq::empty(),
        },
        ActionKind::Archive
        | ActionKind::Trash
        | ActionKind::Spam
        | ActionKind::Move
        | ActionKind::Unarchive
        | ActionKind::NotSpam => match (a.message_id, a.payload.src_folder_id) {
            (Some(id), Some(src)) => if was_pending {
                seq![Step::SetFolder { message_id: id, folder_id: src, uid: a.payload.src_uid }]
            } else {
                seq![
                    Step::SetFolder { message_id: id, folder_id: src, uid: None },
                    Step::Enqueue(
                        NewAction {
                            kind: ActionKind::Move,
                            payload: ActionPayload {
                                src_folder_id: a.payload.target_folder_id,
                                src_uid: None,
                                target_folder_id: Some(src),
                                ..no_payload()
                            },
                            ..a
                        },
                    ),
                ]
            },
            _ => Seq::empty(),
        },
        ActionKind::AddLabel | ActionKind::RemoveLabel => match (a.message_id, a.payload.label_id) {
            (Some(id), Some(label_id)) => {
                let change = if a.kind == ActionKind::AddLabel {
                    Step::RemoveLabel { message_id: id, label_id }
                } else {
                    Step::AddLabel { message_id: id, label_id }
                };
                if was_pending {
                    seq![change]
                } else {
                    seq![change, Step::Enqueue(NewAction { kind: inverse(a.kind), ..a })]
                }
            },
            _ => Seq::empty(),
        },
        ActionKind::Snooze => match a.thread_id {
            Some(thread_id) => seq![Step::ClearSnooze { thread_id }],
            None => Seq::empty(),
        },
        ActionKind::Unsnooze | ActionKind::Send => Seq::empty(),
    }
}

impl PendingAction {
    /// The queued action without its place in the queue, under a kind.
    pub open spec fn content(self, kind: ActionKind) -> NewAction {
        NewAction {
            account_id: self.account_id,
            kind,
            message_id: self.message_id,
            thread_id: self.thread_id,
            payload: self.payload,
        }
    }
}

fn clone_payload(p: &ActionPayload) -> (r: ActionPayload)
    ensures
        r == *p,
{
    ActionPayload {
        src_folder_id: p.src_folder_id,
        src_uid: p.src_uid,
        target_folder_id: p.target_folder_id,
        wake_at: p.wake_at,
        label_id: p.label_id,
        keyword: match &p.keyword {
            Some(k) => Some(k.clone()),
            None => None,
        },
        draft_id: p.draft_id,
    }
}

fn inverse_of(kind: ActionKind) -> (r: ActionKind)
    ensures
        r == inverse(kind),
{
    match kind {
        ActionKind::MarkRead => ActionKind::MarkUnread,
        ActionKind::MarkUnread => ActionKind::MarkRead,
        ActionKind::Star => ActionKind::Unstar,
        ActionKind::Unstar => ActionKind::Star,
        ActionKind::AddLabel => ActionKind::RemoveLabel,
        ActionKind::RemoveLabel => ActionKind::AddLabel,
        k => k,
    }
}

/// Inverse of an action: revert the local mutation, and enqueue a compensating
/// remote action when the original already ran. `was_pending` says that it was
/// still waiting and has been cancelled. A kind that is not known is left alone.
pub fn revert_action(action: &PendingAction, was_pending: bool) -> (r: Vec<Step>)
    ensures
        forall|k: ActionKind|
            #![trigger k.name()]
            action.kind@ == k.name() ==> r@ == revert_steps(action.content(k), was_pending),
        (forall|k: ActionKind| #[trigger] k.name() != action.kind@) ==> r@.len() == 0,
{
    let mut steps: Vec<Step> = Vec::new();
    let kind: ActionKind = match ActionKind::from_str(action.kind.as_str()) {
        Some(k) => k,
        None => return steps,
    };
    match kind {
        ActionKind::MarkRead | ActionKind::MarkUnread => {
            if let Some(id) = action.message_id {
                let read: bool = matches!(kind, ActionKind::MarkUnread);
                steps.push(Step::SetRead { message_id: id, read });
                if !was_pending {
                    steps.push(compensate(action, inverse_of(kind), ActionPayload::empty()));
                }
            }
        },
        ActionKind::Star | ActionKind::Unstar => {
            if let Some(id) = action.message_id {
                let starred: bool = matches!(kind, ActionKind::Unstar);
                steps.push(Step::SetStarred { message_id: id, starred });
                if !was_pending {
                    steps.push(compensate(action, inverse_of(kind), ActionPayload::empty()));
                }
            }
        },
        ActionKind::Archive
        | ActionKind::Trash
        | ActionKind::Spam
        | ActionKind::Move
        | ActionKind::Unarchive
        | ActionKind::NotSpam => {
            if let (Some(id), Some(src)) = (action.message_id, action.payload.src_folder_id) {
                if was_pending {
                    // Remote never changed; restore the original mapping.
                    steps.push(
                        Step::SetFolder {
                            message_id: id,
                            folder_id: src,
                            uid: action.payload.src_uid,
                        },
                    );
                } else {
                    // Remote moved; move it back.
                    steps.push(Step::SetFolder { message_id: id, folder_id: src, uid: None });
                    let mut payload: ActionPayload = ActionPayload::empty();
                    payload.src_folder_id = action.payload.target_folder_id;
                    payload.target_folder_id = Some(src);
                    steps.push(compensate(action, ActionKind::Move, payload));
                }
            }
        },
        ActionKind::AddLabel | ActionKind::RemoveLabel => {
            if let (Some(id), Some(label_id)) = (action.message_id, action.payload.label_id) {
                // Restore the local membership to its pre-action state.
                if matches!(kind, ActionKind::AddLabel) {
                    steps.push(Step::RemoveLabel { message_id: id, label_id });
                } else {
                    steps.push(Step::AddLabel { message_id: id, label_id });
                }
                if !was_pending {
                    // Remote already got the keyword; enqueue the inverse push.
                    steps.push(
                        compensate(action, inverse_of(kind), clone_payload(&action.payload)),
                    );
                }
            }
        },
        ActionKind::Snooze => {
            if let Some(thread_id) = action.thread_id {
                steps.push(Step::ClearSnooze { thread_id });
            }
        },
        ActionKind::Unsnooze | ActionKind::Send => {},
    }
    proof {
        assert(steps@ =~= revert_steps(action.content(kind), was_pending));
        assert forall|k: ActionKind|
            #![trigger k.name()]
            action.kind@ == k.name() implies k == kind by {
            ActionKind::names_differ(k, kind);
        }
        assert(kind.name() == action.kind@);
    }
    steps
}

fn compensate(action: &PendingAction, kind: ActionKind, payload: ActionPayload) -> (r: Step)
    ensures
        r == Step::Enqueue(NewAction { payload, ..action.content(kind) }),
{
    Step::Enqueue(
        NewAction {
            account_id: action.account_id,
            kind,
            message_id: action.message_id,
            thread_id: action.thread_id,
            payload,
        },
    )
}

// ---------------------------------------------------------------------------
// Gestures
// ---------------------------------------------------------------------------

/// How long after it was made a gesture can be undone, in milliseconds.
pub const UNDO_WINDOW_MS: i64 = 30_000;

/// Actions of one gesture are created within this many milliseconds.
pub const GESTURE_MS: i64 = 150;

/// The actions that were put into the queue, and the accounts to wake for
/// them, each account once.
#[derive(Debug, Clone)]
pub struct Performed {
    pub action_ids: Vec<i64>,
    pub accounts: Vec<i64>,
}

impl Performed {
    pub fn new() -> (r: Performed)
        ensures
            r.action_ids@.len() == 0,
            r.accounts@.len() == 0,
    {
        Performed { action_ids: Vec::new(), accounts: Vec::new() }
    }

    /// Adds the (action, account) pairs that one thread brought.
    pub fn record(&mut self, made: &Vec<(i64, i64)>)
        ensures
            final(self).action_ids@ == old(self).action_ids@ + made@.map_values(
                |p: (i64, i64)| p.0,
            ),
            final(self).accounts@ == with_all_new(
                old(self).accounts@,
                made@.map_values(|p: (i64, i64)| p.1),
            ),
    {
        let mut i: usize = 0;
        let ghost ids = made@.map_values(|p: (i64, i64)| p.0);
        let ghost accounts = made@.map_values(|p: (i64, i64)| p.1);
        proof {
            assert(self.action_ids@ + ids.take(0) =~= self.action_ids@);
        }
        while i < made.len()
            invariant
                i <= made@.len(),
                ids == made@.map_values(|p: (i64, i64)| p.0),
                accounts == made@.map_values(|p: (i64, i64)| p.1),
                self.action_ids@ == old(self).action_ids@ + ids.take(i as int),
                self.accounts@ == with_all_new(old(self).accounts@, accounts.take(i as int)),
            decreases made@.len() - i,
        {
            self.action_ids.push(made[i].0);
            push_new(&mut self.accounts, made[i].1);
            i = i + 1;
            proof {
                assert(ids.take(i as int) =~= ids.take(i - 1).push(ids[i - 1]));
                assert(old(self).action_ids@ + ids.take(i as int) =~= (old(self).action_ids@
                    + ids.take(i - 1)).push(ids[i - 1]));
                assert(accounts.take(i as int).drop_last() =~= accounts.take(i - 1));
            }
        }
        proof {
            assert(ids.take(made@.len() as int) =~= ids);
            assert(accounts.take(made@.len() as int) =~= accounts);
        }
    }
}

/// A queued action as the undo history lists it.
#[derive(Debug, Clone)]
pub struct QueuedAction {
    pub id: i64,
    pub kind: String,
    pub state: String,
    pub created_at: i64,
}

/// The action belongs to the gesture of `last`: same kind, made within
/// `GESTURE_MS` of it, and not yet failed or cancelled.
pub open spec fn in_gesture(last: QueuedAction, a: QueuedAction) -> bool {
    &&& a.kind@ == last.kind@
    &&& -GESTURE_MS <= a.created_at - last.created_at <= GESTURE_MS
    &&& a.state@ == "pending"@ || a.state@ == "inflight"@ || a.state@ == "done"@
}

/// The ids of the actions of a gesture, in the order of the queue.
pub open spec fn gesture_ids(last: QueuedAction, queue: Seq<QueuedAction>) -> Seq<i64>
    decreases queue.len(),
{
    if queue.len() == 0 {
        Seq::empty()
    } else {
        let rest = gesture_ids(last, queue.drop_last());
        if in_gesture(last, queue.last()) {
            rest.push(queue.last().id)
        } else {
            rest
        }
    }
}

/// Undo takes back the whole gesture and nothing else: the actions of the same
/// kind that were made within a hundred and fifty milliseconds of the last one,
/// before or after, and that wait, run or have run.
pub proof fn gestures_are_undone_whole(last: QueuedAction, queue: Seq<QueuedAction>, id: i64)
    ensures
        gesture_ids(last, queue).contains(id) <==> exists|i: int|
            0 <= i < queue.len() && (#[trigger] queue[i]).id == id && queue[i].kind@ == last.kind@
                && queue[i].created_at - last.created_at <= 150 && last.created_at
                - queue[i].created_at <= 150 && (queue[i].state@ == "pending"@ || queue[i].state@
                == "inflight"@ || queue[i].state@ == "done"@),
        gesture_ids(last, queue).len() <= queue.len(),
    decreases queue.len(),
{
    if queue.len() > 0 {
        let n = queue.len() - 1;
        let front = queue.drop_last();
        gestures_are_undone_whole(last, front, id);
        lemma_pushed(gesture_ids(last, front), queue[n].id);
        assert(forall|i: int| 0 <= i < n ==> front[i] == #[trigger] queue[i]);
        if exists|i: int|
            0 <= i < front.len() && (#[trigger] front[i]).id == id && in_gesture(last, front[i]) {
            let i = choose|i: int|
                0 <= i < front.len() && (#[trigger] front[i]).id == id && in_gesture(
                    last,
                    front[i],
                );
            assert(queue[i].id == id);
        }
        if gesture_ids(last, queue).contains(id) && !gesture_ids(last, front).contains(id) {
            assert(queue[n].id == id);
        }
    }
}

/// Undo the whole gesture: the actions that are undone together with the last.
pub fn undo_gesture(last: &QueuedAction, queue: &Vec<QueuedAction>) -> (r: Vec<i64>)
    ensures
        r@ == gesture_ids(*last, queue@),
{
    let mut out: Vec<i64> = Vec::new();
    let mut i: usize = 0;
    while i < queue.len()
        invariant
            i <= queue@.len(),
            out@ == gesture_ids(*last, queue@.take(i as int)),
        decreases queue@.len() - i,
    {
        let a: &QueuedAction = &queue[i];
        let gap: i128 = (a.created_at as i128) - (last.created_at as i128);
        let live: bool = a.state.as_str().eq("pending") || a.state.as_str().eq("inflight")
            || a.state.as_str().eq("done");
        proof {
            assert(queue@.take(i + 1).drop_last() =~= queue@.take(i as int));
        }
        if live && a.kind.as_str().eq(last.kind.as_str()) && -150 <= gap && gap <= 150 {
            out.push(a.id);
        }
        i = i + 1;
    }
    proof {
        assert(queue@.take(queue@.len() as int) =~= queue@);
    }
    out
}

/// The oldest creation time that can still be undone.
pub fn undo_cutoff(now_ms: i64) -> (r: i64)
    requires
        now_ms - UNDO_WINDOW_MS >= i64::MIN,
    ensures
        r == now_ms - UNDO_WINDOW_MS,
        r == now_ms - 30_000,
{
    now_ms - UNDO_WINDOW_MS
}

/// The threads that an undo touched, each once; `reverted` holds what undoing
/// each action of the gesture touched.
pub fn undone_threads(reverted: &Vec<Option<i64>>) -> (r: Vec<i64>)
    ensures
        r@ == with_all_new(Seq::<i64>::empty(), present(reverted@)),
        forall|t: i64| #[trigger] r@.contains(t) <==> reverted@.contains(Some(t)),
        r@.no_duplicates(),
{
    let mut out: Vec<i64> = Vec::new();
    let mut i: usize = 0;
    while i < reverted.len()
        invariant
            i <= reverted@.len(),
            out@ == with_all_new(Seq::<i64>::empty(), present(reverted@.take(i as int))),
        decreases reverted@.len() - i,
    {
        proof {
            assert(reverted@.take(i + 1).drop_last() =~= reverted@.take(i as int));
        }
        if let Some(t) = reverted[i] {
            push_new(&mut out, t);
            proof {
                let before = present(reverted@.take(i as int));
                assert(before.push(t).drop_last() =~= before);
            }
        }
        i = i + 1;
    }
    proof {
        assert(reverted@.take(reverted@.len() as int) =~= reverted@);
        with_all_new_is_distinct(Seq::<i64>::empty(), present(reverted@));
        lemma_present(reverted@);
    }
    out
}

proof fn lemma_present(s: Seq<Option<i64>>)
    ensures
        forall|v: i64| #[trigger] present(s).contains(v) <==> s.contains(Some(v)),
    decreases s.len(),
{
    if s.len() > 0 {
        let front = s.drop_last();
        lemma_present(front);
        lemma_ends(s);
        if let Some(v) = s.last() {
            lemma_pushed(present(front), v);
        }
        assert forall|v: i64| #[trigger] present(s).contains(v) <==> s.contains(Some(v)) by {
            assert(present(front).contains(v) <==> front.contains(Some(v)));
        }
    }
}

/// The values that are there, in order.
pub open spec fn present(s: Seq<Option<i64>>) -> Seq<i64>
    decreases s.len(),
{
    if s.len() == 0 {
        Seq::empty()
    } else {
        match s.last() {
            Some(v) => present(s.drop_last()).push(v),
            None => present(s.drop_last()),
        }
    }
}

// ---------------------------------------------------------------------------
// Queueing a send
// ---------------------------------------------------------------------------

/// Sends that come due within this many milliseconds get a timer of their own.
pub const SEND_TIMER_MS: i64 = 900_000;

/// When a send is dispatched: at the time that was asked for, else when the
/// undo window closes.
pub fn dispatch_time(send_at: Option<i64>, now_ms: i64, undo_send_seconds: i64) -> (r: i64)
    requires
        send_at is None ==> i64::MIN <= undo_send_seconds * 1000 <= i64::MAX,
        send_at is None ==> i64::MIN <= now_ms + undo_send_seconds * 1000 <= i64::MAX,
    ensures
        r == match send_at {
            Some(at) => at as int,
            None => now_ms + undo_send_seconds * 1000,
        },
        send_at is Some ==> r == send_at->0,
        send_at is None && undo_send_seconds >= 0 ==> r >= now_ms,
{
    match send_at {
        Some(at) => at,
        None => now_ms + undo_send_seconds * 1000,
    }
}

/// How long to sleep before waking the account for a send that was just
/// queued; `None` where the scheduler takes care of it.
pub fn send_timer(dispatch_at: i64, now_ms: i64) -> (r: Option<u64>)
    requires
        i64::MIN <= dispatch_at - now_ms <= i64::MAX,
    ensures
        match r {
            Some(ms) => ms <= SEND_TIMER_MS && (if dispatch_at <= now_ms {
                ms == 0
            } else {
                ms == dispatch_at - now_ms
            }),
            None => dispatch_at - now_ms > SEND_TIMER_MS,
        },
        dispatch_at <= now_ms ==> r == Some(0u64),
        now_ms <= dispatch_at <= now_ms + 900_000 ==> r is Some && r->0 == dispatch_at - now_ms,
        dispatch_at > now_ms + 900_000 ==> r is None,
{
    let gap: i64 = dispatch_at - now_ms;
    let delay: i64 = if gap > 0 {
        gap
    } else {
        0
    };
    if delay <= SEND_TIMER_MS {
        Some(delay as u64)
    } else {
        None
    }
}

/// The action that sends a draft. `draft` is the account and the thread of the
/// draft, where it exists.
pub fn queue_send(draft_id: i64, draft: Option<(i64, Option<i64>)>) -> (r: Result<
    NewAction,
    CoreError,
>)
    ensures
        match draft {
            Some((account_id, thread_id)) => r == Ok::<NewAction, CoreError>(
                NewAction {
                    account_id,
                    kind: ActionKind::Send,
                    message_id: Some(draft_id),
                    thread_id,
                    payload: ActionPayload { draft_id: Some(draft_id), ..no_payload() },
                },
            ),
            None => r is Err && r->Err_0@ == ErrorView::NotFound("draft"@),
        },
{
    match draft {
        Some((account_id, thread_id)) => {
            let mut payload: ActionPayload = ActionPayload::empty();
            payload.draft_id = Some(draft_id);
            Ok(
                NewAction {
                    account_id,
                    kind: ActionKind::Send,
                    message_id: Some(draft_id),
                    thread_id,
                    payload,
                },
            )
        },
        None => Err(CoreError::NotFound(owned("draft"))),
    }
}

// ---------------------------------------------------------------------------
// What the writes do to a message
// ---------------------------------------------------------------------------

/// What the store holds of a message that actions change.
pub struct MessageState {
    pub folder_id: Option<i64>,
    pub uid: Option<i64>,
    pub is_read: bool,
    pub is_starred: bool,
    pub labels: Set<i64>,
}

/// The state of the message `id` after one write.
pub open spec fn after_step(s: MessageState, step: Step, id: i64) -> MessageState {
    match step {
        Step::SetRead { message_id, read } if message_id == id => MessageState {
            is_read: read,
            ..s
        },
        Step::SetStarred { message_id, starred } if message_id == id => MessageState {
            is_starred: starred,
            ..s
        },
        Step::SetFolder { message_id, folder_id, uid } if message_id == id => MessageState {
            folder_id: Some(folder_id),
            uid,
            ..s
        },
        Step::AddLabel { message_id, label_id } if message_id == id => MessageState {
            labels: s.labels.insert(label_id),
            ..s
        },
        Step::RemoveLabel { message_id, label_id } if message_id == id => MessageState {
            labels: s.labels.remove(label_id),
            ..s
        },
        _ => s,
    }
}

/// The state of the message `id` after a run of writes.
pub open spec fn after_steps(s: MessageState, steps: Seq<Step>, id: i64) -> MessageState
    decreases steps.len(),
{
    if steps.len() == 0 {
        s
    } else {
        after_step(after_steps(s, steps.drop_last(), id), steps.last(), id)
    }
}

/// The writes that undo a run of writes: each of its actions is undone in turn.
pub open spec fn undo_steps(steps: Seq<Step>, was_pending: bool) -> Seq<Step>
    decreases steps.len(),
{
    if steps.len() == 0 {
        Seq::empty()
    } else {
        undo_steps(steps.drop_last(), was_pending) + match steps.last() {
            Step::Enqueue(a) => revert_steps(a, was_pending),
            _ => Seq::empty(),
        }
    }
}

/// The row shows the state that the store holds.
pub open spec fn shows(m: ThreadMessage, s: MessageState) -> bool {
    m.folder_id == s.folder_id && m.uid == s.uid && m.is_read == s.is_read && m.is_starred
        == s.is_starred
}

pub open spec fn ids_distinct(messages: Seq<ThreadMessage>) -> bool {
    forall|i: int, j: int|
        #![trigger messages[i], messages[j]]
        0 <= i < j < messages.len() ==> messages[i].id != messages[j].id
}

/// What undo gives back: the whole state while the action was waiting; where
/// it already ran, all but a UID, which a move on the server has spent.
pub open spec fn is_restored(s: MessageState, back: MessageState, was_pending: bool) -> bool {
    back == s || (!was_pending && back == (MessageState { uid: None, ..s }))
}

/// The role of the folder that archived mail is kept in.
pub open spec fn archived_role(f: RoleFolders) -> Seq<char> {
    if f.archive is Some {
        ARCHIVE@
    } else if f.all is Some {
        ALL@
    } else {
        TRASH@
    }
}

/// Whatever folder an account archives to, unarchiving brings the message back
/// to the inbox. `kept` is the message where archiving has put it.
pub proof fn archived_mail_comes_back(t: ThreadRows, m: ThreadMessage, kept: ThreadMessage)
    requires
        m.folder_id is Some,
        leaves_folder(t, ActionKind::Archive, m),
        move_target(t.folders, ActionKind::Archive) is Some,
        t.folders.inbox is Some,
        kept.id == m.id,
        kept.folder_id == move_target(t.folders, ActionKind::Archive),
        kept.role@ == archived_role(t.folders),
    ensures
        ({
            let there = move_target(t.folders, ActionKind::Archive)->0;
            let inbox = t.folders.inbox->0;
            &&& message_steps(t, ActionKind::Archive, there, None, m).contains(
                Step::SetFolder { message_id: m.id, folder_id: there, uid: None },
            )
            &&& move_target(t.folders, ActionKind::Unarchive) == Some(inbox)
            &&& message_steps(t, ActionKind::Unarchive, inbox, None, kept).contains(
                Step::SetFolder { message_id: m.id, folder_id: inbox, uid: None },
            )
        }),
{
    let there = move_target(t.folders, ActionKind::Archive)->0;
    let inbox = t.folders.inbox->0;
    assert(message_steps(t, ActionKind::Archive, there, None, m)[0] == (Step::SetFolder {
        message_id: m.id,
        folder_id: there,
        uid: None,
    }));
    assert(message_steps(t, ActionKind::Unarchive, inbox, None, kept)[0] == (Step::SetFolder {
        message_id: m.id,
        folder_id: inbox,
        uid: None,
    }));
}

/// Undo gives every message of the thread back the state that it had before
/// the action. Label actions are undone where they changed something and are
/// not local only.
pub proof fn undo_restores_messages(
    t: ThreadRows,
    kind: ActionKind,
    params: Option<ActionParams>,
    label: Option<Label>,
    i: int,
    s: MessageState,
    was_pending: bool,
)
    requires
        ids_distinct(t.messages@),
        0 <= i < t.messages@.len(),
        shows(t.messages@[i], s),
        thread_steps(t, kind, params, label) is Ok,
        kind == ActionKind::AddLabel ==> !label->0.is_auto && !s.labels.contains(
            params->0.label_id->0,
        ),
        kind == ActionKind::RemoveLabel ==> !label->0.is_auto && s.labels.contains(
            params->0.label_id->0,
        ),
    ensures
        ({
            let steps = thread_steps(t, kind, params, label)->Ok_0;
            let id = t.messages@[i].id;
            is_restored(
                s,
                after_steps(after_steps(s, steps, id), undo_steps(steps, was_pending), id),
                was_pending,
            )
        }),
{
    let steps = thread_steps(t, kind, params, label)->Ok_0;
    let messages = t.messages@;
    let id = messages[i].id;
    match kind {
        ActionKind::Star => {
            lemma_star_undone(t, i, s, steps, was_pending);
        },
        ActionKind::Snooze | ActionKind::Unsnooze => {
            lemma_pair(s, steps, id, was_pending);
            lemma_pair(s, undo_steps(steps, was_pending), id, was_pending);
        },
        _ => {
            let target = match kind {
                ActionKind::Move => params->0.target_folder_id->0,
                ActionKind::MarkRead
                | ActionKind::MarkUnread
                | ActionKind::Unstar
                | ActionKind::AddLabel
                | ActionKind::RemoveLabel => 0,
                _ => move_target(t.folders, kind)->0,
            };
            let l = match kind {
                ActionKind::AddLabel | ActionKind::RemoveLabel => Some(
                    label_ref(params->0.label_id->0, label->0),
                ),
                _ => None,
            };
            let all = all_steps(t, kind, target, l, messages);
            lemma_all_undone(t, kind, target, l, i, s, was_pending);
            if steps != all {
                assert(steps.drop_last() =~= all);
                assert(undo_steps(steps, was_pending) =~= undo_steps(all, was_pending));
            }
        },
    }
}

proof fn lemma_star_undone(
    t: ThreadRows,
    i: int,
    s: MessageState,
    steps: Seq<Step>,
    was_pending: bool,
)
    requires
        ids_distinct(t.messages@),
        0 <= i < t.messages@.len(),
        shows(t.messages@[i], s),
        steps == thread_steps(t, ActionKind::Star, None, None)->Ok_0,
    ensures
        is_restored(
            s,
            after_steps(
                after_steps(s, steps, t.messages@[i].id),
                undo_steps(steps, was_pending),
                t.messages@[i].id,
            ),
            was_pending,
        ),
{
    let messages = t.messages@;
    let id = messages[i].id;
    lemma_newest(messages);
    let n = newest(messages)->0;
    let j = choose|j: int| 0 <= j < messages.len() && messages[j] == n;
    lemma_pair(s, steps, id, was_pending);
    let undo = undo_steps(steps, was_pending);
    lemma_pair(after_steps(s, steps, id), undo, id, was_pending);
    if n.is_starred {
        assert(undo =~= Seq::empty());
    } else {
        assert(undo =~= undo_step(steps[1], was_pending));
        assert(n.id == id ==> i == j);
    }
}

proof fn lemma_all_undone(
    t: ThreadRows,
    kind: ActionKind,
    target: i64,
    l: Option<LabelRef>,
    i: int,
    s: MessageState,
    was_pending: bool,
)
    requires
        ids_distinct(t.messages@),
        0 <= i < t.messages@.len(),
        shows(t.messages@[i], s),
        kind == ActionKind::AddLabel ==> l is Some && !l->0.local_only && !s.labels.contains(
            l->0.id,
        ),
        kind == ActionKind::RemoveLabel ==> l is Some && !l->0.local_only && s.labels.contains(
            l->0.id,
        ),
    ensures
        ({
            let all = all_steps(t, kind, target, l, t.messages@);
            let id = t.messages@[i].id;
            is_restored(
                s,
                after_steps(after_steps(s, all, id), undo_steps(all, was_pending), id),
                was_pending,
            )
        }),
{
    let all = all_steps(t, kind, target, l, t.messages@);
    let id = t.messages@[i].id;
    lemma_only_own(t, kind, target, l, t.messages@, i, s, was_pending);
    lemma_only_own(t, kind, target, l, t.messages@, i, after_steps(s, all, id), was_pending);
    lemma_one_message(t, kind, target, l, t.messages@[i], s, was_pending);
}

/// A run of at most two writes, unfolded.
proof fn lemma_pair(s: MessageState, steps: Seq<Step>, id: i64, was_pending: bool)
    ensures
        steps.len() == 0 ==> after_steps(s, steps, id) == s,
        steps.len() == 1 ==> after_steps(s, steps, id) == after_step(s, steps[0], id),
        steps.len() == 2 ==> after_steps(s, steps, id) == after_step(
            after_step(s, steps[0], id),
            steps[1],
            id,
        ),
        steps.len() == 1 ==> undo_steps(steps, was_pending) == undo_step(steps[0], was_pending),
        steps.len() == 2 ==> undo_steps(steps, was_pending) == undo_step(steps[0], was_pending) + undo_step(steps[1], was_pending),
{
    reveal_with_fuel(after_steps, 3);
    reveal_with_fuel(undo_steps, 3);
    if steps.len() == 1 {
        assert(steps.drop_last().len() == 0);
        assert(undo_steps(steps, was_pending) =~= undo_step(steps[0], was_pending));
    }
    if steps.len() == 2 {
        assert(steps.drop_last().drop_last().len() == 0);
        assert(steps.drop_last().last() == steps[0]);
        assert(undo_steps(steps, was_pending) =~= undo_step(steps[0], was_pending) + undo_step(steps[1], was_pending));
    }
}

spec fn undo_step(step: Step, was_pending: bool) -> Seq<Step> {
    match step {
        Step::Enqueue(a) => revert_steps(a, was_pending),
        _ => Seq::empty(),
    }
}

/// What an action writes for one message, then the undoing of it.
proof fn lemma_one_message(
    t: ThreadRows,
    kind: ActionKind,
    target: i64,
    l: Option<LabelRef>,
    m: ThreadMessage,
    s: MessageState,
    was_pending: bool,
)
    requires
        shows(m, s),
        kind == ActionKind::AddLabel ==> l is Some && !l->0.local_only && !s.labels.contains(
            l->0.id,
        ),
        kind == ActionKind::RemoveLabel ==> l is Some && !l->0.local_only && s.labels.contains(
            l->0.id,
        ),
    ensures
        ({
            let own = message_steps(t, kind, target, l, m);
            is_restored(
                s,
                after_steps(after_steps(s, own, m.id), undo_steps(own, was_pending), m.id),
                was_pending,
            )
        }),
{
    let own = message_steps(t, kind, target, l, m);
    lemma_pair(s, own, m.id, was_pending);
    let undo = undo_steps(own, was_pending);
    lemma_pair(after_steps(s, own, m.id), undo, m.id, was_pending);
    if own.len() == 2 {
        assert(undo =~= undo_step(own[1], was_pending));
        assert(undo.len() == if was_pending {
            1int
        } else {
            2
        });
    }
    let back = after_steps(after_steps(s, own, m.id), undo, m.id);
    assert(back.labels =~= s.labels);
    assert(is_restored(s, back, was_pending));
}

/// A write to another message leaves this one alone.
proof fn lemma_foreign(s: MessageState, steps: Seq<Step>, id: i64)
    requires
        forall|k: int| 0 <= k < steps.len() ==> touches(#[trigger] steps[k]) != Some(id),
    ensures
        after_steps(s, steps, id) == s,
    decreases steps.len(),
{
    if steps.len() > 0 {
        assert forall|k: int| 0 <= k < steps.len() - 1 implies touches(
            #[trigger] steps.drop_last()[k],
        ) != Some(id) by {
            assert(touches(steps[k]) != Some(id));
        }
        lemma_foreign(s, steps.drop_last(), id);
        assert(touches(steps[steps.len() - 1]) != Some(id));
    }
}

spec fn touches(step: Step) -> Option<i64> {
    match step {
        Step::SetRead { message_id, .. } => Some(message_id),
        Step::SetStarred { message_id, .. } => Some(message_id),
        Step::SetFolder { message_id, .. } => Some(message_id),
        Step::AddLabel { message_id, .. } => Some(message_id),
        Step::RemoveLabel { message_id, .. } => Some(message_id),
        _ => None,
    }
}

proof fn lemma_after_concat(s: MessageState, a: Seq<Step>, b: Seq<Step>, id: i64)
    ensures
        after_steps(s, a + b, id) == after_steps(after_steps(s, a, id), b, id),
    decreases b.len(),
{
    if b.len() == 0 {
        assert(a + b =~= a);
    } else {
        assert((a + b).drop_last() =~= a + b.drop_last());
        lemma_after_concat(s, a, b.drop_last(), id);
    }
}

proof fn lemma_undo_concat(a: Seq<Step>, b: Seq<Step>, was_pending: bool)
    ensures
        undo_steps(a + b, was_pending) == undo_steps(a, was_pending) + undo_steps(b, was_pending),
    decreases b.len(),
{
    if b.len() == 0 {
        assert(a + b =~= a);
        assert(undo_steps(a, was_pending) + undo_steps(b, was_pending) =~= undo_steps(a, was_pending));
    } else {
        assert((a + b).drop_last() =~= a + b.drop_last());
        lemma_undo_concat(a, b.drop_last(), was_pending);
        assert(undo_steps(a + b, was_pending) =~= undo_steps(a, was_pending) + undo_steps(b, was_pending));
    }
}

/// The writes for one message, and their undoing, are about that message.
proof fn lemma_own_touches(
    t: ThreadRows,
    kind: ActionKind,
    target: i64,
    l: Option<LabelRef>,
    m: ThreadMessage,
    other: i64,
    was_pending: bool,
)
    requires
        m.id != other,
    ensures
        forall|k: int|
            0 <= k < message_steps(t, kind, target, l, m).len() ==> touches(
                #[trigger] message_steps(t, kind, target, l, m)[k],
            ) != Some(other),
        forall|k: int|
            0 <= k < undo_steps(message_steps(t, kind, target, l, m), was_pending).len() ==> touches(
                #[trigger] undo_steps(message_steps(t, kind, target, l, m), was_pending)[k],
            ) != Some(other),
{
    let own = message_steps(t, kind, target, l, m);
    lemma_pair(arbitrary(), own, other, was_pending);
    if own.len() == 0 {
        assert(undo_steps(own, was_pending) =~= Seq::empty());
    }
}

/// Of all that an action writes, the message `i` sees only what is about it.
proof fn lemma_only_own(
    t: ThreadRows,
    kind: ActionKind,
    target: i64,
    l: Option<LabelRef>,
    messages: Seq<ThreadMessage>,
    i: int,
    s: MessageState,
    was_pending: bool,
)
    requires
        ids_distinct(messages),
        0 <= i < messages.len(),
    ensures
        ({
            let id = messages[i].id;
            let all = all_steps(t, kind, target, l, messages);
            let own = message_steps(t, kind, target, l, messages[i]);
            &&& after_steps(s, all, id) == after_steps(s, own, id)
            &&& after_steps(s, undo_steps(all, was_pending), id) == after_steps(s, undo_steps(own, was_pending), id)
        }),
    decreases messages.len(),
{
    let id = messages[i].id;
    let rest = messages.drop_last();
    let before = all_steps(t, kind, target, l, rest);
    let last = message_steps(t, kind, target, l, messages.last());
    lemma_after_concat(s, before, last, id);
    lemma_undo_concat(before, last, was_pending);
    lemma_after_concat(s, undo_steps(before, was_pending), undo_steps(last, was_pending), id);
    if i < rest.len() {
        assert(ids_distinct(rest)) by {
            assert forall|x: int, y: int|
                #![trigger rest[x], rest[y]]
                0 <= x < y < rest.len() implies rest[x].id != rest[y].id by {
                assert(messages[x].id != messages[y].id);
            }
        }
        lemma_only_own(t, kind, target, l, rest, i, s, was_pending);
        assert(messages[i].id != messages[messages.len() - 1].id);
        lemma_own_touches(t, kind, target, l, messages.last(), id, was_pending);
        lemma_foreign(after_steps(s, before, id), last, id);
        lemma_foreign(after_steps(s, undo_steps(before, was_pending), id), undo_steps(last, was_pending), id);
    } else {
        assert forall|k: int| 0 <= k < rest.len() implies (#[trigger] rest[k]).id != id by {
            assert(messages[k].id != messages[i].id);
        }
        lemma_rest_foreign(t, kind, target, l, rest, id, s, was_pending);
    }
}

proof fn lemma_rest_foreign(
    t: ThreadRows,
    kind: ActionKind,
    target: i64,
    l: Option<LabelRef>,
    messages: Seq<ThreadMessage>,
    id: i64,
    s: MessageState,
    was_pending: bool,
)
    requires
        forall|k: int| 0 <= k < messages.len() ==> (#[trigger] messages[k]).id != id,
    ensures
        after_steps(s, all_steps(t, kind, target, l, messages), id) == s,
        after_steps(s, undo_steps(all_steps(t, kind, target, l, messages), was_pending), id) == s,
    decreases messages.len(),
{
    if messages.len() > 0 {
        let rest = messages.drop_last();
        let before = all_steps(t, kind, target, l, rest);
        let last = message_steps(t, kind, target, l, messages.last());
        assert forall|k: int| 0 <= k < rest.len() implies (#[trigger] rest[k]).id != id by {
            assert(messages[k].id != id);
        }
        lemma_rest_foreign(t, kind, target, l, rest, id, s, was_pending);
        lemma_after_concat(s, before, last, id);
        lemma_undo_concat(before, last, was_pending);
        lemma_after_concat(s, undo_steps(before, was_pending), undo_steps(last, was_pending), id);
        assert(messages[messages.len() - 1].id != id);
        lemma_own_touches(t, kind, target, l, messages.last(), id, was_pending);
        lemma_foreign(s, last, id);
        lemma_foreign(s, undo_steps(last, was_pending), id);
    }
}

/// The state of the message at `i` after an action on its thread: what the
/// action writes for that message.
pub proof fn lemma_message_after(
    t: ThreadRows,
    kind: ActionKind,
    target: i64,
    i: int,
    s: MessageState,
)
    requires
        ids_distinct(t.messages@),
        0 <= i < t.messages@.len(),
        kind == ActionKind::MarkRead || kind == ActionKind::Archive,
    ensures
        ({
            let m = t.messages@[i];
            let own = message_steps(t, kind, target, None, m);
            &&& own.len() == 0 || own.len() == 2
            &&& after_steps(s, all_steps(t, kind, target, None, t.messages@), m.id) == (
            if own.len() == 0 {
                s
            } else {
                after_step(s, own[0], m.id)
            })
        }),
{
    let m = t.messages@[i];
    let own = message_steps(t, kind, target, None, m);
    lemma_only_own(t, kind, target, None, t.messages@, i, s, true);
    lemma_pair(s, own, m.id, true);
}

/// The folder that a message is moved to, where the action moves it: to the
/// trash, to spam, out of the inbox to wherever the account archives, and back
/// to the inbox.
pub open spec fn new_folder(
    t: ThreadRows,
    kind: ActionKind,
    params: Option<ActionParams>,
    m: ThreadMessage,
) -> Option<i64> {
    let f = t.folders;
    if m.folder_id is None {
        None
    } else if kind is Trash && m.role@ != ""@ && m.role@ != TRASH@ {
        f.trash
    } else if kind is Spam && m.role@ != ""@ && m.role@ != SPAM@ {
        f.spam
    } else if kind is Archive && m.role@ == INBOX@ && f.archive is Some {
        f.archive
    } else if kind is Archive && m.role@ == INBOX@ && f.all is Some {
        f.all
    } else if kind is Archive && m.role@ == INBOX@ {
        f.trash
    } else if kind is Unarchive && (m.role@ == ARCHIVE@ || m.role@ == ALL@) {
        f.inbox
    } else if kind is Unarchive && m.role@ == TRASH@ && f.archive is None && f.all is None {
        f.inbox
    } else if kind is NotSpam && m.role@ == SPAM@ {
        f.inbox
    } else if kind is Move && m.folder_id != params->0.target_folder_id {
        params->0.target_folder_id
    } else {
        None
    }
}

/// An action does to a message of its thread what its name says, and nothing
/// else: reading and unreading set the one mark, starring the other one, and
/// only of the newest message; a move puts the message into the new folder,
/// where it has no UID yet; labels come and go; snoozing leaves messages alone.
pub proof fn actions_do_what_they_say(
    t: ThreadRows,
    kind: ActionKind,
    params: Option<ActionParams>,
    label: Option<Label>,
    steps: Seq<Step>,
    i: int,
    s: MessageState,
    after: MessageState,
)
    requires
        ids_distinct(t.messages@),
        0 <= i < t.messages@.len(),
        shows(t.messages@[i], s),
        thread_steps(t, kind, params, label) == Ok::<Seq<Step>, ErrorView>(steps),
        after == after_steps(s, steps, t.messages@[i].id),
    ensures
        after.is_read == (if kind is MarkRead {
            true
        } else if kind is MarkUnread {
            false
        } else {
            s.is_read
        }),
        after.is_starred == (if kind is Star && (forall|k: int|
            0 <= k < t.messages@.len() ==> (#[trigger] t.messages@[k]).id <= t.messages@[i].id) {
            true
        } else if kind is Unstar {
            false
        } else {
            s.is_starred
        }),
        new_folder(t, kind, params, t.messages@[i]) matches Some(f) ==> after.folder_id == Some(f)
            && after.uid is None,
        new_folder(t, kind, params, t.messages@[i]) is None ==> after.folder_id == s.folder_id
            && after.uid == s.uid,
        after.labels == (if kind is AddLabel {
            s.labels.insert(params->0.label_id->0)
        } else if kind is RemoveLabel {
            s.labels.remove(params->0.label_id->0)
        } else {
            s.labels
        }),
{
    let messages = t.messages@;
    let m = messages[i];
    reveal_strlit("");
    assert(m.role@.len() == 0 <==> m.role@ =~= ""@);
    match kind {
        ActionKind::Star => {
            lemma_newest(messages);
            let n = newest(messages)->0;
            let j = choose|j: int| 0 <= j < messages.len() && messages[j] == n;
            lemma_pair(s, steps, m.id, true);
            if i != j {
                assert(messages[j].id != messages[i].id);
                assert(messages[i].id <= n.id);
                assert(!(messages[j].id <= messages[i].id));
            } else {
                assert(forall|k: int| 0 <= k < messages.len() ==> (#[trigger] messages[k]).id <= m.id);
            }
        },
        ActionKind::Snooze | ActionKind::Unsnooze => {
            lemma_pair(s, steps, m.id, true);
        },
        _ => {
            let target = match kind {
                ActionKind::Move => params->0.target_folder_id->0,
                ActionKind::MarkRead
                | ActionKind::MarkUnread
                | ActionKind::Unstar
                | ActionKind::AddLabel
                | ActionKind::RemoveLabel => 0,
                _ => move_target(t.folders, kind)->0,
            };
            let l = match kind {
                ActionKind::AddLabel | ActionKind::RemoveLabel => Some(
                    label_ref(params->0.label_id->0, label->0),
                ),
                _ => None,
            };
            let all = all_steps(t, kind, target, l, messages);
            let own = message_steps(t, kind, target, l, m);
            lemma_only_own(t, kind, target, l, messages, i, s, true);
            lemma_pair(s, own, m.id, true);
            if steps != all {
                assert(steps.drop_last() =~= all);
            }
        },
    }
}

/// A message that is not of the thread stays as it is.
pub proof fn other_messages_are_left_alone(
    t: ThreadRows,
    kind: ActionKind,
    params: Option<ActionParams>,
    label: Option<Label>,
    steps: Seq<Step>,
    id: i64,
    s: MessageState,
)
    requires
        forall|k: int| 0 <= k < t.messages@.len() ==> (#[trigger] t.messages@[k]).id != id,
        thread_steps(t, kind, params, label) == Ok::<Seq<Step>, ErrorView>(steps),
    ensures
        after_steps(s, steps, id) == s,
{
    let messages = t.messages@;
    match kind {
        ActionKind::Star => {
            lemma_pair(s, steps, id, true);
            lemma_newest(messages);
        },
        ActionKind::Snooze | ActionKind::Unsnooze => {
            lemma_pair(s, steps, id, true);
        },
        _ => {
            let target = match kind {
                ActionKind::Move => params->0.target_folder_id->0,
                ActionKind::MarkRead
                | ActionKind::MarkUnread
                | ActionKind::Unstar
                | ActionKind::AddLabel
                | ActionKind::RemoveLabel => 0,
                _ => move_target(t.folders, kind)->0,
            };
            let l = match kind {
                ActionKind::AddLabel | ActionKind::RemoveLabel => Some(
                    label_ref(params->0.label_id->0, label->0),
                ),
                _ => None,
            };
            let all = all_steps(t, kind, target, l, messages);
            lemma_rest_foreign(t, kind, target, l, messages, id, s, true);
            if steps != all {
                assert(steps.drop_last() =~= all);
            }
        },
    }
}

/// An action can be done exactly where what it needs is there: the folder that
/// it moves mail to, the folder, the time or the label that the caller names.
/// A draft is not sent this way.
pub proof fn actions_need_their_folders(
    t: ThreadRows,
    kind: ActionKind,
    params: Option<ActionParams>,
    label: Option<Label>,
)
    ensures
        kind is Trash ==> (thread_steps(t, kind, params, label) is Ok <==> t.folders.trash is Some),
        kind is Spam ==> (thread_steps(t, kind, params, label) is Ok <==> t.folders.spam is Some),
        kind is Archive ==> (thread_steps(t, kind, params, label) is Ok <==> t.folders.archive
            is Some || t.folders.all is Some || t.folders.trash is Some),
        kind is Unarchive || kind is NotSpam ==> (thread_steps(t, kind, params, label) is Ok
            <==> t.folders.inbox is Some),
        kind is Move ==> (thread_steps(t, kind, params, label) is Ok <==> params is Some
            && params->0.target_folder_id is Some),
        kind is Snooze ==> (thread_steps(t, kind, params, label) is Ok <==> params is Some
            && params->0.wake_at is Some),
        kind is AddLabel || kind is RemoveLabel ==> (thread_steps(t, kind, params, label) is Ok
            <==> params is Some && params->0.label_id is Some && label is Some),
        kind is MarkRead || kind is MarkUnread || kind is Star || kind is Unstar || kind is Unsnooze
            ==> thread_steps(t, kind, params, label) is Ok,
        kind is Send ==> thread_steps(t, kind, params, label) is Err,
{
}

/// A message that an action moves is queued to be moved: from where the server has
/// it, to the folder that it is put into here.
pub proof fn moved_messages_are_queued(
    t: ThreadRows,
    kind: ActionKind,
    params: Option<ActionParams>,
    label: Option<Label>,
    steps: Seq<Step>,
    i: int,
)
    requires
        thread_steps(t, kind, params, label) == Ok::<Seq<Step>, ErrorView>(steps),
        0 <= i < t.messages@.len(),
        new_folder(t, kind, params, t.messages@[i]) is Some,
    ensures
        steps.contains(
            Step::Enqueue(
                NewAction {
                    account_id: t.account_id,
                    kind,
                    message_id: Some(t.messages@[i].id),
                    thread_id: Some(t.thread_id),
                    payload: ActionPayload {
                        src_folder_id: t.messages@[i].folder_id,
                        src_uid: t.messages@[i].uid,
                        target_folder_id: new_folder(t, kind, params, t.messages@[i]),
                        wake_at: None,
                        label_id: None,
                        keyword: None,
                        draft_id: None,
                    },
                },
            ),
        ),
{
    let m = t.messages@[i];
    reveal_strlit("");
    assert(m.role@.len() == 0 <==> m.role@ =~= ""@);
    let target = match kind {
        ActionKind::Move => params->0.target_folder_id->0,
        _ => move_target(t.folders, kind)->0,
    };
    let all = all_steps(t, kind, target, None, t.messages@);
    let own = message_steps(t, kind, target, None, m);
    assert(own == move_steps(t, kind, m, target));
    lemma_own_in_all(t, kind, target, None, t.messages@, i, own[1]);
    let k = all.index_of(own[1]);
    assert(steps[k] == own[1]);
}

proof fn lemma_own_in_all(
    t: ThreadRows,
    kind: ActionKind,
    target: i64,
    l: Option<LabelRef>,
    messages: Seq<ThreadMessage>,
    i: int,
    step: Step,
)
    requires
        0 <= i < messages.len(),
        message_steps(t, kind, target, l, messages[i]).contains(step),
    ensures
        all_steps(t, kind, target, l, messages).contains(step),
    decreases messages.len(),
{
    let rest = messages.drop_last();
    let before = all_steps(t, kind, target, l, rest);
    let last = message_steps(t, kind, target, l, messages.last());
    let all = all_steps(t, kind, target, l, messages);
    if i < rest.len() {
        lemma_own_in_all(t, kind, target, l, rest, i, step);
        let k = before.index_of(step);
        assert(all[k] == step);
    } else {
        let k = last.index_of(step);
        assert(all[before.len() + k] == step);
    }
}

/// Snoozing keeps the thread until the time that was asked for, and remembers where
/// its mail lay: the folder of the first message that is in one.
pub proof fn snoozes_remember_where_mail_lay(
    t: ThreadRows,
    params: Option<ActionParams>,
    label: Option<Label>,
    steps: Seq<Step>,
    i: int,
)
    requires
        thread_steps(t, ActionKind::Snooze, params, label) == Ok::<Seq<Step>, ErrorView>(steps),
        0 <= i < t.messages@.len(),
        t.messages@[i].folder_id is Some,
        forall|j: int| 0 <= j < i ==> (#[trigger] t.messages@[j]).folder_id is None,
    ensures
        steps[0] == (Step::SetSnooze {
            thread_id: t.thread_id,
            account_id: t.account_id,
            wake_at: params->0.wake_at->0,
            original_folder: t.messages@[i].folder_id,
        }),
{
    lemma_first_folder(t.messages@, i);
}

proof fn lemma_first_folder(messages: Seq<ThreadMessage>, i: int)
    requires
        0 <= i < messages.len(),
        messages[i].folder_id is Some,
        forall|j: int| 0 <= j < i ==> (#[trigger] messages[j]).folder_id is None,
    ensures
        first_folder(messages) == messages[i].folder_id,
    decreases i,
{
    if i > 0 {
        let rest = messages.drop_first();
        assert(messages[0].folder_id is None);
        assert forall|j: int| 0 <= j < i - 1 implies (#[trigger] rest[j]).folder_id is None by {
            assert(rest[j] == messages[j + 1]);
        }
        lemma_first_folder(rest, i - 1);
    }
}

/// A change to a message, and the action that carries it to the server.
pub open spec fn carries(change: Step, a: NewAction) -> bool {
    match change {
        Step::SetRead { message_id, read } => a.message_id == Some(message_id) && a.kind == (
        if read {
            ActionKind::MarkRead
        } else {
            ActionKind::MarkUnread
        }),
        Step::SetStarred { message_id, starred } => a.message_id == Some(message_id) && a.kind == (
        if starred {
            ActionKind::Star
        } else {
            ActionKind::Unstar
        }),
        Step::SetFolder { message_id, folder_id, uid } => a.message_id == Some(message_id)
            && a.payload.target_folder_id == Some(folder_id) && uid is None,
        Step::AddLabel { message_id, label_id } => a.message_id == Some(message_id) && a.kind
            is AddLabel && a.payload.label_id == Some(label_id) && a.payload.keyword is Some,
        Step::RemoveLabel { message_id, label_id } => a.message_id == Some(message_id) && a.kind
            is RemoveLabel && a.payload.label_id == Some(label_id) && a.payload.keyword is Some,
        Step::SetSnooze { thread_id, wake_at, .. } => a.thread_id == Some(thread_id) && a.kind
            is Snooze && a.payload.wake_at == Some(wake_at),
        _ => false,
    }
}

/// Behind the change at `k` stands the action that carries it.
pub open spec fn is_carried(steps: Seq<Step>, k: int) -> bool {
    k + 1 < steps.len() && (steps[k + 1] matches Step::Enqueue(a) && carries(steps[k], a))
}

/// The write at `k` queues an action of this kind, account and thread, for the
/// change before it.
pub open spec fn is_carrying(t: ThreadRows, kind: ActionKind, steps: Seq<Step>, k: int) -> bool {
    k > 0 && (steps[k] matches Step::Enqueue(a) && a.kind == kind && a.account_id == t.account_id
        && a.thread_id == Some(t.thread_id) && carries(steps[k - 1], a))
}

/// The action remembers where the server has the message that it is about.
pub open spec fn remembers(messages: Seq<ThreadMessage>, a: NewAction) -> bool {
    exists|i: int|
        0 <= i < messages.len() && a.message_id == Some((#[trigger] messages[i]).id)
            && a.payload.src_folder_id == messages[i].folder_id && a.payload.src_uid
            == messages[i].uid
}

/// Every change is queued for the server, except a label that is kept on this
/// device only: right behind each change stands the action that carries it,
/// under the action's own kind, account and thread. Nothing else is queued. A
/// move remembers where the server still has the message. Archiving, trashing,
/// marking as spam and unsnoozing end the snooze of the thread, and nothing
/// else does.
pub proof fn every_change_is_queued(
    t: ThreadRows,
    kind: ActionKind,
    params: Option<ActionParams>,
    label: Option<Label>,
    steps: Seq<Step>,
    k: int,
)
    requires
        thread_steps(t, kind, params, label) == Ok::<Seq<Step>, ErrorView>(steps),
        0 <= k < steps.len(),
    ensures
        !(steps[k] is Enqueue) && !(steps[k] is ClearSnooze) && (kind is AddLabel || kind
            is RemoveLabel ==> !label->0.is_auto) ==> is_carried(steps, k),
        steps[k] is Enqueue && !(kind is Unsnooze) ==> is_carrying(t, kind, steps, k),
        steps[k] is Enqueue && kind is Unsnooze ==> steps[k] == enqueued(
            t,
            kind,
            None,
            no_payload(),
        ),
        steps[k] matches Step::Enqueue(a) ==> (a.payload.target_folder_id is Some ==> remembers(
            t.messages@,
            a,
        )),
        steps[k] is Enqueue && (kind is AddLabel || kind is RemoveLabel) ==> !label->0.is_auto,
        steps[k] is ClearSnooze ==> kind is Archive || kind is Trash || kind is Spam || kind
            is Unsnooze,
        kind is Archive || kind is Trash || kind is Spam ==> steps.last() == (Step::ClearSnooze {
            thread_id: t.thread_id,
        }),
        kind is Unsnooze ==> steps[0] == (Step::ClearSnooze { thread_id: t.thread_id }),
{
    let messages = t.messages@;
    match kind {
        ActionKind::Star | ActionKind::Snooze | ActionKind::Unsnooze => {},
        _ => {
            let target = match kind {
                ActionKind::Move => params->0.target_folder_id->0,
                ActionKind::MarkRead
                | ActionKind::MarkUnread
                | ActionKind::Unstar
                | ActionKind::AddLabel
                | ActionKind::RemoveLabel => 0,
                _ => move_target(t.folders, kind)->0,
            };
            let l = match kind {
                ActionKind::AddLabel | ActionKind::RemoveLabel => Some(
                    label_ref(params->0.label_id->0, label->0),
                ),
                _ => None,
            };
            let all = all_steps(t, kind, target, l, messages);
            if k < all.len() {
                lemma_all_queued(t, kind, target, l, messages, k);
                assert(all[k] == steps[k]);
                if k > 0 {
                    assert(all[k - 1] == steps[k - 1]);
                }
                if k + 1 < all.len() {
                    assert(all[k + 1] == steps[k + 1]);
                }
            }
        },
    }
}

proof fn lemma_all_queued(
    t: ThreadRows,
    kind: ActionKind,
    target: i64,
    l: Option<LabelRef>,
    messages: Seq<ThreadMessage>,
    k: int,
)
    requires
        0 <= k < all_steps(t, kind, target, l, messages).len(),
    ensures
        ({
            let all = all_steps(t, kind, target, l, messages);
            let local = (kind is AddLabel || kind is RemoveLabel) && l is Some && l->0.local_only;
            &&& !(all[k] is ClearSnooze)
            &&& !(all[k] is Enqueue) && !local ==> is_carried(all, k)
            &&& all[k] is Enqueue ==> is_carrying(t, kind, all, k) && !local
            &&& all[k] matches Step::Enqueue(a) ==> (a.payload.target_folder_id is Some
                ==> remembers(messages, a))
        }),
    decreases messages.len(),
{
    if messages.len() > 0 {
        let rest = messages.drop_last();
        let m = messages.last();
        let before = all_steps(t, kind, target, l, rest);
        let own = message_steps(t, kind, target, l, m);
        let all = all_steps(t, kind, target, l, messages);
        let n = before.len() as int;
        assert(all == before + own);
        if k < n {
            lemma_all_queued(t, kind, target, l, rest, k);
            assert(all[k] == before[k]);
            if k > 0 {
                assert(all[k - 1] == before[k - 1]);
            }
            if k + 1 < n {
                assert(all[k + 1] == before[k + 1]);
            }
            if let Step::Enqueue(a) = all[k] {
                if a.payload.target_folder_id is Some {
                    let i = choose|i: int|
                        0 <= i < rest.len() && a.message_id == Some((#[trigger] rest[i]).id)
                            && a.payload.src_folder_id == rest[i].folder_id && a.payload.src_uid
                            == rest[i].uid;
                    assert(messages[i] == rest[i]);
                }
            }
        } else {
            assert(messages[messages.len() - 1] == m);
            assert(own.len() <= 2);
            assert(all[k] == own[k - n]);
            if k == n {
                if own.len() == 2 {
                    assert(all[k + 1] == own[1]);
                }
            } else {
                assert(all[k - 1] == own[0]);
            }
        }
    }
}

/// The newest message is one of the thread's, and none has a higher id.
pub proof fn lemma_newest(messages: Seq<ThreadMessage>)
    ensures
        newest(messages) is None <==> messages.len() == 0,
        newest(messages) matches Some(m) ==> messages.contains(m) && forall|i: int|
            0 <= i < messages.len() ==> (#[trigger] messages[i]).id <= m.id,
    decreases messages.len(),
{
    if messages.len() > 0 {
        let rest = messages.drop_last();
        lemma_newest(rest);
        let n = newest(messages)->0;
        if newest(rest) == Some(n) {
            let j = choose|j: int| 0 <= j < rest.len() && rest[j] == n;
            assert(messages[j] == n);
        } else {
            assert(messages[messages.len() - 1] == n);
        }
        assert forall|i: int| 0 <= i < messages.len() implies (#[trigger] messages[i]).id
            <= n.id by {
            if i < rest.len() {
                assert(rest[i] == messages[i]);
            }
        }
    }
}

} // verus!
