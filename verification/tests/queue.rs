use comail_core::actions::{
    apply_thread_action, dispatch_time, queue_send, read_payload, revert_action, send_timer,
    undo_cutoff, undo_gesture, undone_threads, ActionPayload, PendingAction, Performed,
    QueuedAction, RoleFolders, Step, ThreadMessage, ThreadRows,
};
use comail_core::compose::{
    lies_under, missing_attachment, save_draft, stage_draft_attachment, DraftContext, DraftRow,
};
use comail_core::error::CoreError;
use comail_core::models::{
    AccountConfig, ActionKind, ActionParams, Address, AuthKind, DraftAttachmentIn, Label,
    MessageDetail, Provider, SaveDraftArgs,
};
use comail_core::queue::outgoing::{
    kept_attachments, outgoing_attachments, outgoing_message, smtp_login, SmtpLogin, StagedFile,
};
use comail_core::queue::{
    appends_to_sent, check_staged, draft_of, ends_slice, envelope_recipients, execute_one,
    is_connection_failure, is_permanent, message_id_domain, move_action, reply_chain,
    resolve_remote, resolve_source, sent_attachment_dir, sent_row, settle, ActionSlice,
    RemoteEffect, RemotePlace, Settlement, SystemFlag,
};
use comail_core::store::{QueueState, Store, StoredFolder, StoredMessage};
use comail_core::sync::actor::{AccountState, Actor, Effect, Event, Stage, SyncCmd};

fn address(email: &str) -> Address {
    Address { name: None, email: email.to_string() }
}

fn message(id: i64, folder: Option<i64>, read: bool, starred: bool, role: &str) -> ThreadMessage {
    ThreadMessage {
        id,
        folder_id: folder,
        uid: Some(100 + id),
        is_read: read,
        is_starred: starred,
        role: role.to_string(),
    }
}

fn thread(messages: Vec<ThreadMessage>) -> ThreadRows {
    ThreadRows {
        thread_id: 5,
        account_id: 1,
        messages,
        folders: RoleFolders {
            inbox: Some(1),
            archive: Some(2),
            all: None,
            trash: Some(3),
            spam: Some(4),
        },
    }
}

fn pending(kind: ActionKind, message_id: Option<i64>, payload: ActionPayload) -> PendingAction {
    PendingAction {
        id: 1,
        account_id: 1,
        kind: kind.as_str().to_string(),
        message_id,
        thread_id: Some(5),
        payload,
        attempts: 0,
        created_at: 10,
    }
}

fn enqueued(steps: &Vec<Step>) -> usize {
    steps.iter().filter(|s| matches!(s, Step::Enqueue(_))).count()
}

// -- actions -----------------------------------------------------------------

#[test]
fn reading_a_thread_marks_what_is_unread() {
    let t = thread(vec![
        message(1, Some(1), true, false, "inbox"),
        message(2, Some(1), false, false, "inbox"),
    ]);
    let steps = apply_thread_action(&t, ActionKind::MarkRead, None, None).unwrap();
    assert_eq!(enqueued(&steps), 1);
    assert!(steps
        .iter()
        .any(|s| matches!(s, Step::SetRead { message_id: 2, read: true })));
}

#[test]
fn starring_takes_the_latest_message() {
    let t = thread(vec![
        message(1, Some(1), true, false, "inbox"),
        message(7, Some(1), true, false, "inbox"),
        message(3, Some(1), true, true, "inbox"),
    ]);
    let steps = apply_thread_action(&t, ActionKind::Star, None, None).unwrap();
    assert!(steps
        .iter()
        .any(|s| matches!(s, Step::SetStarred { message_id: 7, starred: true })));
    assert_eq!(enqueued(&steps), 1);
    let steps = apply_thread_action(&t, ActionKind::Unstar, None, None).unwrap();
    assert!(steps
        .iter()
        .any(|s| matches!(s, Step::SetStarred { message_id: 3, starred: false })));
}

#[test]
fn archiving_moves_the_inbox_and_clears_the_snooze() {
    let t = thread(vec![
        message(1, Some(1), true, false, "inbox"),
        message(2, Some(9), true, false, "sent"),
    ]);
    let steps = apply_thread_action(&t, ActionKind::Archive, None, None).unwrap();
    assert!(steps
        .iter()
        .any(|s| matches!(s, Step::SetFolder { message_id: 1, folder_id: 2, uid: None })));
    assert!(steps.iter().any(|s| matches!(s, Step::ClearSnooze { thread_id: 5 })));
    assert_eq!(enqueued(&steps), 1);

    let mut bare = thread(vec![message(1, Some(1), true, false, "inbox")]);
    bare.folders.archive = None;
    let steps = apply_thread_action(&bare, ActionKind::Archive, None, None).unwrap();
    assert!(steps
        .iter()
        .any(|s| matches!(s, Step::SetFolder { message_id: 1, folder_id: 3, .. })));
    bare.folders.trash = None;
    assert!(matches!(
        apply_thread_action(&bare, ActionKind::Archive, None, None),
        Err(CoreError::NotFound(_))
    ));
}

#[test]
fn a_pending_action_is_undone_where_it_was() {
    let t = thread(vec![message(1, Some(1), true, false, "inbox")]);
    let steps = apply_thread_action(&t, ActionKind::Archive, None, None).unwrap();
    let payload = steps
        .into_iter()
        .find_map(|s| match s {
            Step::Enqueue(a) => Some(a.payload),
            _ => None,
        })
        .unwrap();
    assert_eq!(payload.src_folder_id, Some(1));
    assert_eq!(payload.src_uid, Some(101));
    let back = revert_action(&pending(ActionKind::Archive, Some(1), payload), true);
    assert!(back
        .iter()
        .any(|s| matches!(s, Step::SetFolder { message_id: 1, folder_id: 1, uid: Some(101) })));
    assert_eq!(enqueued(&back), 0);
}

#[test]
fn what_was_archived_to_the_trash_comes_back() {
    let mut t = thread(vec![message(1, Some(3), true, false, "trash")]);
    assert!(apply_thread_action(&t, ActionKind::Unarchive, None, None).unwrap().is_empty());
    t.folders.archive = None;
    let steps = apply_thread_action(&t, ActionKind::Unarchive, None, None).unwrap();
    assert!(steps
        .iter()
        .any(|s| matches!(s, Step::SetFolder { message_id: 1, folder_id: 1, uid: None })));
}

#[test]
fn a_finished_action_is_undone_by_its_opposite() {
    let done = pending(ActionKind::MarkRead, Some(4), ActionPayload::empty());
    let back = revert_action(&done, false);
    assert!(back
        .iter()
        .any(|s| matches!(s, Step::SetRead { message_id: 4, read: false })));
    assert_eq!(enqueued(&back), 1);
}

#[test]
fn labels_and_snoozes_need_their_parameters() {
    let t = thread(vec![message(1, Some(1), true, false, "inbox")]);
    let none = ActionParams { wake_at: None, target_folder_id: None, label_id: None };
    assert!(apply_thread_action(&t, ActionKind::Snooze, Some(&none), None).is_err());
    let params = ActionParams { wake_at: Some(99), target_folder_id: None, label_id: Some(3) };
    let steps = apply_thread_action(&t, ActionKind::Snooze, Some(&params), None).unwrap();
    assert!(steps.iter().any(|s| matches!(s, Step::SetSnooze { wake_at: 99, .. })));
    let label = Label {
        id: 3,
        name: "Work".to_string(),
        color: "red".to_string(),
        keyword: "work".to_string(),
        position: 0,
        is_auto: false,
    };
    let steps = apply_thread_action(&t, ActionKind::AddLabel, Some(&params), Some(&label)).unwrap();
    assert!(steps
        .iter()
        .any(|s| matches!(s, Step::AddLabel { message_id: 1, label_id: 3 })));
}

#[test]
fn undo_takes_back_a_whole_gesture() {
    let queued = |id: i64, kind: &str, state: &str, at: i64| QueuedAction {
        id,
        kind: kind.to_string(),
        state: state.to_string(),
        created_at: at,
    };
    let queue = vec![
        queued(1, "archive", "pending", 1_000),
        queued(2, "archive", "done", 1_100),
        queued(3, "archive", "pending", 1_200),
        queued(4, "star", "pending", 1_000),
        queued(5, "archive", "failed", 1_000),
    ];
    assert_eq!(undo_gesture(&queue[0], &queue), vec![1, 2]);
    assert_eq!(undo_cutoff(100_000), 70_000);
    assert_eq!(undone_threads(&vec![Some(4), None, Some(4), Some(2)]), vec![4, 2]);
}

#[test]
fn what_was_done_is_reported_once_per_account() {
    let mut done = Performed::new();
    done.record(&vec![(1, 10), (2, 10)]);
    done.record(&vec![(3, 11)]);
    assert_eq!(done.action_ids, vec![1, 2, 3]);
    assert_eq!(done.accounts, vec![10, 11]);
}

#[test]
fn sending_waits_for_the_undo_window() {
    assert_eq!(dispatch_time(None, 1_000, 5), 6_000);
    assert_eq!(dispatch_time(Some(9), 1_000, 5), 9);
    assert_eq!(send_timer(6_000, 1_000), Some(5_000));
    assert_eq!(send_timer(500, 1_000), Some(0));
    assert_eq!(send_timer(10_000_000, 0), None);
    let action = queue_send(8, Some((1, Some(5)))).unwrap();
    assert_eq!(action.payload.draft_id, Some(8));
    assert!(matches!(queue_send(8, None), Err(CoreError::NotFound(_))));
}

// -- the executor ------------------------------------------------------------

#[test]
fn timed_out_action_forces_a_fresh_session() {
    assert!(is_connection_failure("UID MOVE timed out after 30s"));
    assert!(is_connection_failure("connection closed"));
    assert!(!is_connection_failure("temporary mailbox quota"));
}

#[test]
fn refusals_are_permanent() {
    assert!(is_permanent("A1 NO mailbox is gone"));
    assert!(is_permanent("550 5.1.1 unknown user"));
    assert!(!is_permanent("try again later"));
}

#[test]
fn a_slice_takes_actions_in_order_and_ends_in_time() {
    let due = vec![
        pending(ActionKind::Star, Some(1), ActionPayload::empty()),
        pending(ActionKind::Star, Some(2), ActionPayload::empty()),
    ];
    let mut slice = ActionSlice::begin(due);
    let first = slice.next(0).unwrap();
    assert_eq!(slice.action(first).message_id, Some(1));
    slice.claimed();
    assert!(slice.next(2_000).is_none());
    let result = slice.finish(true);
    assert_eq!(result.processed, 1);
    assert!(result.due_remaining);
}

#[test]
fn actions_settle_by_how_they_failed() {
    let action = pending(ActionKind::Star, Some(1), ActionPayload::empty());
    assert!(matches!(settle(&action, None, ""), Settlement::Done));
    assert!(matches!(
        settle(&action, Some(&CoreError::NeedsReauth), "sign in"),
        Settlement::Paused { retry_ms: 60_000, .. }
    ));
    assert!(matches!(
        settle(&action, Some(&CoreError::Smtp("550".to_string())), "550 no such user"),
        Settlement::Failed { .. }
    ));
    assert!(matches!(
        settle(&action, Some(&CoreError::Imap("x".to_string())), "connection closed"),
        Settlement::Retry { reconnect: true, .. }
    ));
    let mut tired = pending(ActionKind::Star, Some(1), ActionPayload::empty());
    tired.attempts = 7;
    assert!(matches!(
        settle(&tired, Some(&CoreError::Imap("x".to_string())), "try later"),
        Settlement::Failed { .. }
    ));
}

#[test]
fn kinds_have_their_effect_on_the_server() {
    assert_eq!(
        execute_one("mark_read"),
        RemoteEffect::StoreFlag { flag: SystemFlag::Seen, add: true }
    );
    assert_eq!(
        execute_one("unstar"),
        RemoteEffect::StoreFlag { flag: SystemFlag::Flagged, add: false }
    );
    assert_eq!(execute_one("archive"), RemoteEffect::MoveMessage);
    assert_eq!(execute_one("remove_label"), RemoteEffect::StoreKeyword { add: false });
    assert_eq!(execute_one("send"), RemoteEffect::SendDraft);
    assert_eq!(execute_one("snooze"), RemoteEffect::Nothing);
    assert_eq!(execute_one("bogus"), RemoteEffect::Nothing);
    assert_eq!(SystemFlag::Seen.as_str(), "\\Seen");
}

#[test]
fn moves_start_where_the_message_was() {
    let mut payload = ActionPayload::empty();
    payload.src_folder_id = Some(1);
    payload.src_uid = Some(42);
    payload.target_folder_id = Some(2);
    let action = pending(ActionKind::Move, Some(9), payload);
    assert_eq!(resolve_source(&action), Some(RemotePlace { folder_id: 1, uid: 42 }));
    let order = move_action(&action, true, true).unwrap().unwrap();
    assert_eq!((order.message_id, order.target_folder_id), (9, 2));
    assert_eq!(move_action(&action, false, true), Ok(None));
    assert_eq!(
        move_action(&action, true, false),
        Err(CoreError::NotFound("target folder".to_string()))
    );
    assert_eq!(resolve_remote(Some((Some(1), None))), None);
    assert_eq!(resolve_remote(None), None);
}

// -- sending -----------------------------------------------------------------

fn config() -> AccountConfig {
    AccountConfig {
        id: 1,
        email: "me@x.example".to_string(),
        display_name: Some("Me".to_string()),
        provider: Provider::Imap,
        auth_kind: AuthKind::Password,
        username: "me".to_string(),
        imap_host: "imap.x.example".to_string(),
        imap_port: 993,
        smtp_host: "smtp.x.example".to_string(),
        smtp_port: 587,
    }
}

fn draft() -> MessageDetail {
    MessageDetail {
        id: 8,
        thread_id: 5,
        account_id: 1,
        from: address("me@x.example"),
        to: vec![address("a@x.example")],
        cc: vec![address("b@x.example")],
        subject: "Plans".to_string(),
        date: 1,
        is_read: true,
        is_starred: false,
        is_draft: true,
        is_outgoing: true,
        snippet: String::new(),
        body_state: "cached".to_string(),
        text_body: None,
        html_body: Some("<p>hi</p>".to_string()),
        automation_note: None,
        attachments: Vec::new(),
        list_unsubscribe: None,
        list_unsubscribe_post: None,
        via: None,
        send_state: None,
        send_error: None,
    }
}

fn parts(path: &[&str]) -> Vec<String> {
    path.iter().map(|p| p.to_string()).collect()
}

fn staged(path: &[&str], name: &str) -> StagedFile {
    StagedFile { filename: name.to_string(), path: Ok(parts(path)), bytes: Ok(vec![1, 2, 3]) }
}

#[test]
fn a_send_builds_the_message_of_its_draft() {
    let root = Some(parts(&["data", "staging"]));
    let mut payload = ActionPayload::empty();
    payload.draft_id = Some(8);
    let action = pending(ActionKind::Send, Some(8), payload);
    let chain = reply_chain(vec!["r@x".to_string()], Some("p@x".to_string()));
    let out = outgoing_message(
        &action,
        &config(),
        &draft(),
        &vec![address("c@x.example")],
        &chain,
        vec![staged(&["data", "staging", "t", "a.pdf"], "a.pdf")],
        &root,
    )
    .unwrap();
    assert_eq!(out.from.name.as_deref(), Some("Me"));
    assert_eq!(out.body_text, "");
    assert_eq!(out.body_html.as_deref(), Some("<p>hi</p>"));
    assert_eq!(out.references, vec!["r@x", "p@x"]);
    assert_eq!(out.in_reply_to.as_deref(), Some("p@x"));
    assert_eq!(out.message_id_domain, "x.example");
    assert_eq!(out.attachments[0].mime_type, "application/pdf");
    let kept = kept_attachments(8, &out.attachments);
    assert_eq!(kept[0].dir, "sent-8-0");
    assert_eq!(kept[0].file_name, "a.pdf");
    assert_eq!(kept[0].size, 3);
    assert_eq!(
        envelope_recipients(&out.to, &out.cc, &out.bcc).unwrap(),
        vec!["a@x.example", "b@x.example", "c@x.example"]
    );
    let none = Vec::new();
    assert_eq!(
        envelope_recipients(&none, &none, &none),
        Err(CoreError::Smtp("no recipients".to_string()))
    );
    let unnamed = pending(ActionKind::Send, Some(8), ActionPayload::empty());
    assert_eq!(
        draft_of(&unnamed),
        Err(CoreError::Other("send action without draftId".to_string()))
    );
}

#[test]
fn only_staged_files_leave_the_machine() {
    let root = Some(parts(&["data", "staging"]));
    let outside = outgoing_attachments(vec![staged(&["etc", "passwd"], "passwd")], &root);
    assert_eq!(
        outside.unwrap_err(),
        CoreError::Other(
            "attachment passwd: refusing to read file outside the staging area".to_string()
        )
    );
    assert!(outgoing_attachments(vec![staged(&["data", "staging", "a"], "a")], &None).is_err());
    let gone = StagedFile {
        filename: "a".to_string(),
        path: Err("not found".to_string()),
        bytes: Ok(Vec::new()),
    };
    assert_eq!(
        outgoing_attachments(vec![gone], &root).unwrap_err(),
        CoreError::Other("attachment a: not found".to_string())
    );
    let unreadable = StagedFile {
        filename: "a".to_string(),
        path: Ok(parts(&["data", "staging", "a"])),
        bytes: Err("denied".to_string()),
    };
    assert_eq!(
        outgoing_attachments(vec![unreadable], &root).unwrap_err(),
        CoreError::Other("attachment a: denied".to_string())
    );
    assert!(check_staged(true, "a").is_ok());
}

#[test]
fn a_sent_draft_becomes_a_sent_message() {
    let row = sent_row("<id@x>", Some(4), Some(9), 77);
    assert_eq!(row.message_id, "id@x");
    assert_eq!(row.folder_id, Some(4));
    assert!(!row.is_draft && row.is_outgoing && row.is_read);
    assert_eq!(sent_row("id", None, Some(9), 77).folder_id, Some(9));
    assert!(appends_to_sent(Provider::Imap, true));
    assert!(!appends_to_sent(Provider::Gmail, true));
    assert!(!appends_to_sent(Provider::Imap, false));
    assert_eq!(sent_attachment_dir(-3, 12), "sent--3-12");
    assert_eq!(message_id_domain("nobody"), "localhost");
    assert_eq!(message_id_domain("a@b@c"), "b");
    assert_eq!(smtp_login(AuthKind::Oauth2), SmtpLogin::XOAuth2);
    assert_eq!(smtp_login(AuthKind::Password), SmtpLogin::Password);
}

// -- drafts ------------------------------------------------------------------

fn draft_args(draft_id: Option<i64>, reply_to: Option<i64>) -> SaveDraftArgs {
    SaveDraftArgs {
        draft_id,
        account_id: 1,
        to: vec![address("a@x.example")],
        cc: Vec::new(),
        bcc: Vec::new(),
        subject: "Plans".to_string(),
        body_text: "hello".to_string(),
        body_html: None,
        mode: "reply".to_string(),
        in_reply_to_message_id: reply_to,
        attachments: vec![DraftAttachmentIn {
            file_path: "/home/me/a.txt".to_string(),
            filename: "a.txt".to_string(),
        }],
    }
}

fn draft_context() -> DraftContext {
    DraftContext {
        parent_thread: Some(5),
        drafts_folder: None,
        account_email: "me@x.example".to_string(),
        snippet: "hello".to_string(),
        now: 77,
    }
}

#[test]
fn saving_a_draft_stores_it_once() {
    let paths = vec!["/data/staging/t/a.txt".to_string()];
    let saved = save_draft(&draft_args(None, Some(3)), &paths, &draft_context());
    match saved.row {
        DraftRow::Insert(new) => {
            assert_eq!(new.thread_id, Some(5));
            assert_eq!(new.message.folder_id, 0);
            assert_eq!(new.message.from.unwrap().email, "me@x.example");
            assert!(new.message.is_draft && new.message.is_outgoing && new.message.is_read);
        }
        DraftRow::Update(_) => panic!("a new draft is inserted"),
    }
    assert_eq!(saved.attachments[0].file_path, "/data/staging/t/a.txt");
    assert!(saved.has_attachments);

    let fresh = save_draft(&draft_args(None, None), &paths, &draft_context());
    assert!(matches!(fresh.row, DraftRow::Insert(n) if n.thread_id.is_none()));
    let again = save_draft(&draft_args(Some(8), Some(3)), &paths, &draft_context());
    assert!(matches!(again.row, DraftRow::Update(c) if c.id == 8 && c.date == 77));
}

#[test]
fn attachments_are_staged_under_a_benign_name() {
    let root = parts(&["data", "staging"]);
    let picked = stage_draft_attachment(&root, &parts(&["home", "a"]), "../x", "tok");
    assert!(picked.copies);
    assert_eq!(picked.path, parts(&["data", "staging", "tok", "_x"]));
    let known = stage_draft_attachment(&root, &parts(&["data", "staging", "t", "a"]), "a", "tok");
    assert!(!known.copies);
    assert_eq!(known.path, parts(&["data", "staging", "t", "a"]));
    assert!(!lies_under(&parts(&["data", "stagingx"]), &root));
    assert_eq!(
        missing_attachment("a", "gone"),
        CoreError::Other("attachment a: gone".to_string())
    );
}

fn mailbox() -> Store {
    let roles = ["inbox", "archive", "sent", "drafts", "trash"];
    Store {
        account_id: 1,
        folders: roles
            .iter()
            .enumerate()
            .map(|(i, role)| StoredFolder { id: i as i64 + 1, role: role.to_string() })
            .collect(),
        messages: vec![StoredMessage {
            id: 1,
            thread_id: 1,
            is_draft: false,
            folder_id: Some(1),
            uid: Some(7),
            is_read: false,
            is_starred: false,
            labels: Vec::new(),
            body_state: "none".to_string(),
        }],
        queue: Vec::new(),
        next_action_id: 1,
    }
}

fn queued(store: &Store) -> Vec<(&'static str, QueueState, i64)> {
    store.queue.iter().map(|row| (row.action.kind.as_str(), row.state, row.attempts)).collect()
}

#[test]
fn offline_actions_queue_locally_and_survive_restart() {
    let mut store = mailbox();
    let thread_id = 1;
    let mut actor = Actor::new();
    let effects = actor.step(Event::ConnectFailed);
    assert!(effects.contains(&Effect::SetState(AccountState::Offline)));

    store.perform(thread_id, ActionKind::MarkRead, None, None).expect("mark read offline");
    store.perform(thread_id, ActionKind::Archive, None, None).expect("archive offline");
    assert!(!store.has_mail_in(thread_id, "inbox"), "archive applied locally");
    assert!(store.has_mail_in(thread_id, "archive"), "thread visible in Done");
    assert!(store.is_read(thread_id), "mark_read applied locally");

    let draft_id = 2;
    store.messages.push(StoredMessage {
        id: draft_id,
        thread_id: 2,
        is_draft: true,
        folder_id: None,
        uid: None,
        is_read: true,
        is_starred: false,
        labels: Vec::new(),
        body_state: "cached".to_string(),
    });
    store.enqueue(queue_send(draft_id, Some((1, Some(2)))).expect("queue send offline"));
    for _ in 0..4 {
        actor.step(Event::Received(SyncCmd::RunActions));
        assert_eq!(actor.stage, Stage::Connect);
        actor.step(Event::ConnectFailed);
        assert_eq!(actor.stage, Stage::Backoff);
    }
    let waiting = vec![
        ("mark_read", QueueState::Pending, 0),
        ("archive", QueueState::Pending, 0),
        ("send", QueueState::Pending, 0),
    ];
    assert_eq!(queued(&store), waiting);

    store.restart();
    assert_eq!(queued(&store), waiting, "queue survives restart");
    assert!(!store.has_mail_in(thread_id, "inbox"), "archived state survives restart");
}

#[test]
fn a_start_begins_anew_what_was_under_way() {
    let mut store = mailbox();
    store.perform(1, ActionKind::MarkRead, None, None).unwrap();
    store.queue[0].state = QueueState::Inflight;
    store.queue[0].attempts = 2;
    store.messages[0].body_state = "fetching".to_string();
    store.restart();
    assert_eq!(queued(&store), vec![("mark_read", QueueState::Pending, 2)]);
    assert_eq!(store.messages[0].body_state, "none");
    assert!(store.has_mail_in(1, "inbox"));
    store.queue[0].state = QueueState::Failed;
    store.restart();
    assert_eq!(store.queue[0].state, QueueState::Failed);
}

#[test]
fn labels_are_written_to_the_store() {
    let mut store = mailbox();
    let label = Label {
        id: 5,
        name: "Work".to_string(),
        keyword: "$work".to_string(),
        color: "red".to_string(),
        position: 0,
        is_auto: false,
    };
    let params = ActionParams { wake_at: None, target_folder_id: None, label_id: Some(5) };
    for kind in [ActionKind::AddLabel, ActionKind::AddLabel, ActionKind::Star] {
        store.perform(1, kind, Some(&params), Some(&label)).unwrap();
    }
    assert_eq!(store.messages[0].labels, vec![5]);
    assert!(store.messages[0].is_starred);
    store.perform(1, ActionKind::RemoveLabel, Some(&params), Some(&label)).unwrap();
    assert!(store.messages[0].labels.is_empty());
    let before = store.queue.len();
    assert!(store.perform(1, ActionKind::Spam, None, None).is_err());
    assert_eq!(store.queue.len(), before);
    let rows = store.thread(1);
    assert_eq!(rows.messages.len(), 1);
    assert_eq!(rows.messages[0].role, "inbox");
}

#[test]
fn stored_payloads_are_read() {
    let moved = read_payload(r#"{"srcFolderId": 3, "srcUid": null, "targetFolderId": -4}"#);
    assert_eq!(moved.src_folder_id, Some(3));
    assert_eq!(moved.src_uid, None);
    assert_eq!(moved.target_folder_id, Some(-4));
    assert_eq!((moved.wake_at, moved.label_id, moved.draft_id), (None, None, None));
    let labelled = read_payload(r#"{"labelId": 5, "keyword": "$work", "wakeAt": 9}"#);
    assert_eq!(labelled.label_id, Some(5));
    assert_eq!(labelled.keyword.as_deref(), Some("$work"));
    assert_eq!(labelled.wake_at, Some(9));
    assert_eq!(read_payload(r#"{"draftId": 8}"#).draft_id, Some(8));
    assert_eq!(read_payload(r#"{"draftId": 8.5}"#).draft_id, None);
    assert_eq!(read_payload("not json").draft_id, None);
}

#[test]
fn a_slice_ends_where_the_server_cannot_be_used() {
    let action = pending(ActionKind::Archive, Some(4), ActionPayload::empty());
    let end = |e: CoreError, text: &str| ends_slice(&settle(&action, Some(&e), text), Some(e));
    assert_eq!(
        end(CoreError::Auth("no".to_string()), "authentication failed: no"),
        Some(CoreError::NeedsReauth)
    );
    let lost = CoreError::Network("connection reset".to_string());
    assert_eq!(end(lost.clone(), "network error: connection reset"), Some(lost));
    assert_eq!(end(CoreError::Other("busy".to_string()), "busy"), None);
    assert_eq!(ends_slice(&settle(&action, None, ""), None), None);
}
