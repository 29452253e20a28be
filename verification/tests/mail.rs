use comail_core::attachments::{
    attachment_by_imap_section, plan_replacement, replace_attachments,
    upsert_planned_attachments, AttachmentRow, NewAttachment,
};
use comail_core::dict::Dict;
use comail_core::error::CoreError;
use comail_core::files::{
    attachment_file_name, ext_for_mime, mime_guess_from_name, safe_filename,
    sanitize_attachment_filename,
};
use comail_core::messages::{
    attachments_of, body_progress, content_progress, filter_sent, list_sent_bodies, max_uid_in_folder,
    missing_bodies, missing_bodies_at, own_sent, repair_escaped_html_snippets,
    repairs_escaped_snippet,
    requeue_misdecoded_bodies, send_state, set_unsubscribe_header, shown_note, shown_subject,
    CachedBodyRow, ContentFolder, ContentProgress, ContentRetry, ContentRow, PreviewRow,
    SendAttempt, SentRow,
};
use comail_core::mime::{
    supported_plan, MimePlan, PlannedAttachment, PlannedTextSection, TextSectionKind,
    MIME_PLAN_VERSION,
};
use comail_core::models::{
    text_to_html, ActionKind, Address, AttachmentMeta, AuthKind, BuiltinModels, MessageDetail, Provider, Settings,
};
use comail_core::reading::{
    after_stored, attachment_source, backfill_unsubscribe, bodies_to_request, has_embedded_images,
    image_addresses, image_uri, list_limit, looks_for_unsubscribe, no_such_account,
    no_such_thread, shows_anew, tab_filter, too_large_to_preview, wants_body, AttachmentSource,
    InlineImage, TabFilter, UnsubscribeHeaders,
};

fn builtin() -> BuiltinModels {
    BuiltinModels {
        ai_base_url: "https://api.example/v1".to_string(),
        ai_model: "base".to_string(),
        embedding_model: "small".to_string(),
    }
}

fn plan(version: u32, kind: TextSectionKind, encoding: &str) -> MimePlan {
    MimePlan {
        version,
        text_sections: vec![PlannedTextSection {
            section: "1".to_string(),
            kind,
            mime_type: "text/html".to_string(),
            charset: Some("utf-8".to_string()),
            transfer_encoding: encoding.to_string(),
            size: 100,
        }],
        attachments: Vec::new(),
    }
}

fn content(id: i64, folder: Option<ContentFolder>, uid: Option<i64>, state: &str) -> ContentRow {
    ContentRow {
        id,
        account_id: 1,
        provider: Provider::Imap,
        folder,
        uid,
        body_state: state.to_string(),
        date: 1_000,
        failure: None,
    }
}

fn inbox() -> Option<ContentFolder> {
    Some(ContentFolder { id: 1, role: Some("inbox".to_string()) })
}

fn all_mail() -> Option<ContentFolder> {
    Some(ContentFolder { id: 2, role: Some("all".to_string()) })
}

fn detail(id: i64, state: &str) -> MessageDetail {
    MessageDetail {
        id,
        thread_id: 1,
        account_id: 3,
        from: Address { name: None, email: "a@x.example".to_string() },
        to: Vec::new(),
        cc: Vec::new(),
        subject: "s".to_string(),
        date: id,
        is_read: true,
        is_starred: false,
        is_draft: false,
        is_outgoing: false,
        snippet: String::new(),
        body_state: state.to_string(),
        text_body: None,
        html_body: None,
        automation_note: None,
        attachments: Vec::new(),
        list_unsubscribe: None,
        list_unsubscribe_post: None,
        via: None,
        send_state: None,
        send_error: None,
    }
}

// -- models ------------------------------------------------------------------

#[test]
fn action_kind_string_roundtrip() {
    let kinds = [
        ActionKind::MarkRead,
        ActionKind::MarkUnread,
        ActionKind::Star,
        ActionKind::Unstar,
        ActionKind::Archive,
        ActionKind::Unarchive,
        ActionKind::Trash,
        ActionKind::Spam,
        ActionKind::NotSpam,
        ActionKind::Move,
        ActionKind::Snooze,
        ActionKind::Unsnooze,
        ActionKind::AddLabel,
        ActionKind::RemoveLabel,
    ];
    for k in kinds {
        assert_eq!(ActionKind::from_str(k.as_str()), Some(k), "roundtrip {k:?}");
    }
    assert_eq!(ActionKind::from_str("bogus"), None);
}

#[test]
fn provider_string_roundtrip() {
    for p in [Provider::Imap, Provider::Gmail, Provider::Microsoft] {
        assert_eq!(Provider::from_str(p.as_str()), p);
    }
}

#[test]
fn auth_kinds_have_names() {
    for k in [AuthKind::Password, AuthKind::Oauth2] {
        assert_eq!(AuthKind::from_str(k.as_str()), k);
    }
}

#[test]
fn fresh_settings_have_their_defaults() {
    let s = Settings::with_builtin(&builtin());
    assert!(s.notifications_enabled);
    assert!(s.auto_advance);
    assert!(s.auto_labels_enabled);
    assert!(s.signatures.is_empty());
    assert_eq!(s.ai_base_url, "https://api.example/v1");
}

#[test]
fn plain_signatures_are_folded_once() {
    let mut s = Settings::with_builtin(&builtin());
    s.signatures.insert("4".to_string(), "Best,\nMe & co".to_string());
    s.signatures.insert("5".to_string(), "  ".to_string());
    s.migrate_signatures();
    assert!(s.signatures.is_empty());
    assert_eq!(s.signature_list.len(), 1);
    assert_eq!(s.signature_list[0].account_id, 4);
    assert!(s.signature_list[0].html.contains("&amp;"));
    let id = s.signature_list[0].id.clone();
    let defaults = s.signature_defaults.get("4").unwrap();
    assert_eq!(defaults.new_id.as_deref(), Some(id.as_str()));
    assert_eq!(defaults.reply_id.as_deref(), Some(id.as_str()));
    s.migrate_signatures();
    assert_eq!(s.signature_list.len(), 1);
    assert_eq!(s.signature_list[0].id, id);
    assert!(text_to_html("a<b").contains("a&lt;b"));
}

#[test]
fn dictionaries_keep_their_keys_in_order() {
    let mut d: Dict<i64> = Dict::new();
    assert!(d.is_empty());
    d.insert("b".to_string(), 2);
    d.insert("a".to_string(), 1);
    d.insert("b".to_string(), 3);
    assert_eq!(d.len(), 2);
    assert_eq!((d.key_at(0).as_str(), *d.value_at(0)), ("a", 1));
    assert_eq!(d.get("b"), Some(&3));
    assert_eq!(d.get("c"), None);
    let copy = d.clone();
    d.clear();
    assert!(d.is_empty());
    assert_eq!(copy.len(), 2);
}

// -- files -------------------------------------------------------------------

#[test]
fn calendar_mime_maps_to_ics() {
    assert_eq!(ext_for_mime("text/calendar"), Some("ics"));
    assert_eq!(ext_for_mime("text/calendar; method=REQUEST"), Some("ics"));
    assert_eq!(ext_for_mime("TEXT/CALENDAR"), Some("ics"));
}

#[test]
fn unknown_mime_has_no_extension() {
    assert_eq!(ext_for_mime("application/x-unknown"), None);
}

#[test]
fn file_names_are_benign() {
    assert_eq!(safe_filename("../../etc/passwd"), "_.._etc_passwd");
    assert_eq!(safe_filename("..."), "attachment");
    assert_eq!(safe_filename(" a\u{0}b.txt "), "a_b.txt");
    assert_eq!(safe_filename(&"x".repeat(300)).len(), 200);
    assert_eq!(sanitize_attachment_filename("a\\b"), "a_b");
}

#[test]
fn attachments_get_an_extension_from_their_type() {
    let ics = Some("text/calendar".to_string());
    assert_eq!(attachment_file_name(&None, &None, 3, &ics), "attachment-3.ics");
    assert_eq!(
        attachment_file_name(&Some("invite".to_string()), &None, 3, &ics),
        "invite.ics"
    );
    assert_eq!(
        attachment_file_name(&None, &Some("a.txt".to_string()), 3, &ics),
        "a.txt"
    );
    assert_eq!(mime_guess_from_name("report.PDF"), "application/pdf");
    assert_eq!(mime_guess_from_name("blob"), "application/octet-stream");
    assert_eq!(mime_guess_from_name("archive.tar.gz"), "application/gzip");
    for mime in ["text/calendar", "application/pdf", "image/jpeg", "message/rfc822"] {
        let ext = ext_for_mime(mime).unwrap();
        assert_eq!(mime_guess_from_name(&format!("a.b.{ext}")), mime);
        assert_eq!(mime_guess_from_name(&format!("a.{}", ext.to_uppercase())), mime);
    }
    assert_eq!(ext_for_mime("text/html"), Some("html"));
    assert_eq!(mime_guess_from_name("page.html"), "application/octet-stream");
}

// -- the store ---------------------------------------------------------------

#[test]
fn content_progress_counts_only_remotely_fetchable_messages() {
    let mut missing = content(2, inbox(), Some(2), "none");
    missing.failure = Some(ContentRetry { next_retry_at: None });
    let rows = vec![
        content(1, inbox(), Some(1), "cached"),
        missing,
        content(3, None, None, "none"),
        content(4, inbox(), None, "none"),
        content(5, all_mail(), Some(9), "none"),
    ];
    assert_eq!(
        content_progress(&rows, 1),
        ContentProgress { done: 1, total: 2, failed: 1 }
    );
    assert_eq!(body_progress(&rows, 1), (1, 2));
}

#[test]
fn missing_bodies_obeys_content_retry_deadlines_and_all_folder_policy() {
    const NOW: i64 = 1_000;
    let waits = |id: i64, at: Option<i64>| {
        let mut row = content(id, inbox(), Some(id), "none");
        row.failure = Some(ContentRetry { next_retry_at: at });
        row
    };
    let (no_failure, future, due, no_deadline) = (1, 2, 3, 4);
    let mut rows = vec![
        content(no_failure, inbox(), Some(1), "none"),
        waits(future, Some(NOW + 1)),
        waits(due, Some(NOW)),
        waits(no_deadline, None),
    ];
    let mut eligible: Vec<i64> =
        missing_bodies_at(&rows, 1, 20, NOW).into_iter().map(|(id, _)| id).collect();
    eligible.sort_unstable();
    assert_eq!(eligible, vec![no_failure, due, no_deadline]);
    assert!(!eligible.contains(&future));

    let mut copy = content(5, all_mail(), Some(99), "none");
    copy.date = 2;
    rows.push(copy);
    assert!(missing_bodies_at(&rows, 2, 20, NOW).is_empty());
    for row in rows.iter_mut() {
        row.provider = Provider::Gmail;
    }
    assert_eq!(missing_bodies_at(&rows, 2, 20, NOW).len(), 1);
}

#[test]
fn missing_bodies_are_newest_first_and_limited() {
    let mut rows = Vec::new();
    for id in 1..=5 {
        let mut row = content(id, inbox(), Some(100 + id), "none");
        row.date = id;
        rows.push(row);
    }
    assert_eq!(missing_bodies_at(&rows, 1, 2, 0), vec![(5, 105), (4, 104)]);
    rows[4].failure = Some(ContentRetry { next_retry_at: Some(1) });
    rows[3].failure = Some(ContentRetry { next_retry_at: Some(i64::MAX) });
    assert_eq!(missing_bodies(&rows, 1, 2), vec![(5, 105), (3, 103)]);
}

#[test]
fn requeues_only_misdecoded_selective_bodies() {
    let row = |id: i64, plan: MimePlan| CachedBodyRow {
        content: content(id, inbox(), Some(id), "cached"),
        has_raw_file: false,
        has_body: true,
        snippet: "old".to_string(),
        embedding_state: "done".to_string(),
        has_embeddings: true,
        plan: Some(plan),
        text_looks_quoted_printable: false,
        html_looks_quoted_printable: false,
        html_looks_base64: false,
    };
    let html = |encoding: &str| plan(MIME_PLAN_VERSION, TextSectionKind::Html, encoding);
    let (base64_id, qp_id, good_id, skipped_all_id, legacy_plain_id) = (1, 2, 3, 4, 5);
    let mut encoded = row(base64_id, html("base64"));
    encoded.html_looks_base64 = true;
    let mut quoted = row(qp_id, html("quoted-printable"));
    quoted.html_looks_quoted_printable = true;
    let good = row(good_id, html("base64"));
    let mut skipped = row(skipped_all_id, html("base64"));
    skipped.html_looks_base64 = true;
    skipped.content.folder = all_mail();
    let legacy = row(
        legacy_plain_id,
        plan(MIME_PLAN_VERSION - 1, TextSectionKind::Plain, "base64"),
    );
    let mut store = vec![encoded, quoted, good, skipped, legacy];
    for row in store.iter_mut() {
        row.content.failure = Some(ContentRetry { next_retry_at: Some(i64::MAX) });
    }
    let mut repaired = requeue_misdecoded_bodies(&mut store);
    repaired.sort_unstable();
    assert_eq!(repaired, vec![base64_id, qp_id, legacy_plain_id]);
    for row in &store {
        let state = (
            row.content.body_state.as_str(),
            row.embedding_state.as_str(),
            row.snippet.as_str(),
        );
        if repaired.contains(&row.content.id) {
            assert_eq!(state, ("none", "none", ""));
            assert!(!row.has_body && !row.has_embeddings);
            assert!(row.content.failure.is_none());
        } else {
            assert_eq!(state, ("cached", "done", "old"));
            assert!(row.has_body && row.has_embeddings);
            assert!(row.content.failure.is_some());
        }
    }
    assert!(requeue_misdecoded_bodies(&mut store).is_empty());
}

#[test]
fn repairs_escaped_html_snippets_and_derived_indexes() {
    let (message_id, plain_id) = (1, 2);
    let escaped = "&#10;&lt;div&#32;style&#61;&quot;font-weight:bold&quot;&gt;Dear";
    assert!(escaped.contains("&#10;"));
    assert!(escaped.contains("&lt;div"));
    let mut rows = vec![
        PreviewRow {
            id: message_id,
            thread_id: Some(1),
            body_state: "cached".to_string(),
            snippet: escaped.to_string(),
            text_body: None,
            has_html: true,
            fresh_snippet: "Dear Alice & Bob Welcome".to_string(),
            embedding_state: "done".to_string(),
            has_embeddings: true,
        },
        PreviewRow {
            id: plain_id,
            thread_id: Some(2),
            body_state: "cached".to_string(),
            snippet: "Keep &amp; exactly".to_string(),
            text_body: Some("Keep &amp; exactly".to_string()),
            has_html: true,
            fresh_snippet: "Do not use me".to_string(),
            embedding_state: "done".to_string(),
            has_embeddings: true,
        },
    ];
    assert!(repairs_escaped_snippet(&rows[0]));
    assert!(!repairs_escaped_snippet(&rows[1]));
    assert_eq!(repair_escaped_html_snippets(&mut rows), vec![message_id]);
    assert_eq!(rows[0].snippet, "Dear Alice & Bob Welcome");
    assert_eq!(rows[0].embedding_state, "pending");
    assert_eq!(rows[0].body_state, "cached");
    assert!(rows[0].has_html);
    assert!(!rows[0].has_embeddings);
    assert_eq!(rows[1].snippet, "Keep &amp; exactly");
    assert_eq!(rows[1].embedding_state, "done");
    assert!(rows[1].has_embeddings);
    assert!(repair_escaped_html_snippets(&mut rows).is_empty());
}

#[test]
fn a_thread_hands_each_message_its_attachments() {
    let meta = |id: i64, name: &str| AttachmentMeta {
        id,
        filename: Some(name.to_string()),
        mime_type: None,
        size: Some(10),
        is_inline: false,
    };
    let all = vec![(1, meta(10, "a.png")), (2, meta(11, "c.txt")), (1, meta(12, "b.pdf"))];
    let names: Vec<i64> = attachments_of(&all, 1).into_iter().map(|a| a.id).collect();
    assert_eq!(names, vec![10, 12]);
    assert!(attachments_of(&all, 3).is_empty());
}

#[test]
fn mime_plan_and_imap_section_roundtrip_without_replacing_legacy_ids() {
    let attachment_id = 17;
    let mut rows = vec![AttachmentRow {
        id: attachment_id,
        part_id: Some("legacy-2".to_string()),
        filename: Some("a.pdf".to_string()),
        mime_type: Some("application/pdf".to_string()),
        size: None,
        content_id: None,
        is_inline: false,
        imap_section: None,
        file_path: Some("/cache/a.pdf".to_string()),
    }];
    let planned = PlannedAttachment {
        section: "2".to_string(),
        filename: Some("a.pdf".to_string()),
        mime_type: "application/pdf".to_string(),
        size: 900,
        content_id: None,
        is_inline: false,
        transfer_encoding: "base64".to_string(),
    };
    assert_eq!(
        upsert_planned_attachments(&mut rows, &[planned.clone()], 100),
        vec![attachment_id]
    );
    assert_eq!(
        upsert_planned_attachments(&mut rows, &[planned], 100),
        vec![attachment_id]
    );
    assert_eq!(attachment_by_imap_section(&rows, "2"), Some(attachment_id));
    let replacement = replace_attachments(
        &mut rows,
        &[NewAttachment {
            message_id: 1,
            part_id: Some("0"),
            filename: Some("a.pdf"),
            mime_type: Some("application/pdf"),
            size: Some(900),
            content_id: None,
            is_inline: false,
        }],
        100,
    );
    assert_eq!(replacement.matched, vec![Some(0)]);
    assert!(replacement.deleted.is_empty());
    assert_eq!(rows[0].file_path.as_deref(), Some("/cache/a.pdf"));
    assert_eq!(rows[0].size, Some(900));
    assert_eq!(rows[0].part_id.as_deref(), Some("0"));
    assert_eq!(attachment_by_imap_section(&rows, "2"), Some(attachment_id));
    assert_eq!(rows.len(), 1);
}

#[test]
fn planned_attachments_are_taken_in_once() {
    let planned = |section: &str, name: &str| PlannedAttachment {
        section: section.to_string(),
        filename: Some(name.to_string()),
        mime_type: "text/plain".to_string(),
        size: 5,
        content_id: None,
        is_inline: false,
        transfer_encoding: "7bit".to_string(),
    };
    let list = [planned("2", "a.txt"), planned("3", "b.txt"), planned("4", "a.txt")];
    let mut rows = Vec::new();
    let ids = upsert_planned_attachments(&mut rows, &list, 10);
    assert_eq!(ids, vec![10, 11, 12]);
    assert_eq!(upsert_planned_attachments(&mut rows, &list, 50), ids);
    assert_eq!(rows.len(), 3);
    for (k, p) in list.iter().enumerate() {
        assert_eq!(attachment_by_imap_section(&rows, &p.section), Some(ids[k]));
    }
}

#[test]
fn replacing_attachments_keeps_files_and_sections() {
    let row = |id: i64, name: &str| AttachmentRow {
        id,
        part_id: None,
        filename: Some(name.to_string()),
        mime_type: None,
        size: None,
        content_id: None,
        is_inline: false,
        imap_section: None,
        file_path: None,
    };
    let mut rows = vec![row(1, "gone"), row(2, "kept"), row(3, "planned"), row(4, "matched")];
    rows[1].file_path = Some("/cache/kept".to_string());
    rows[2].imap_section = Some("5".to_string());
    let found = |name: &'static str, size: i64| NewAttachment {
        message_id: 1,
        part_id: Some("7"),
        filename: Some(name),
        mime_type: None,
        size: Some(size),
        content_id: Some("c"),
        is_inline: true,
    };
    let r = replace_attachments(&mut rows, &[found("fresh", 1), found("matched", 2)], 20);
    assert_eq!(r.matched, vec![None, Some(3)]);
    assert_eq!(r.deleted, vec![1]);
    let ids: Vec<i64> = rows.iter().map(|r| r.id).collect();
    assert_eq!(ids, vec![2, 3, 4, 20]);
    assert_eq!(rows[0].file_path.as_deref(), Some("/cache/kept"));
    assert_eq!(rows[1].imap_section.as_deref(), Some("5"));
    for (row, name, size) in [(&rows[2], "matched", 2), (&rows[3], "fresh", 1)] {
        assert_eq!(row.part_id.as_deref(), Some("7"));
        assert_eq!(row.filename.as_deref(), Some(name));
        assert_eq!(row.size, Some(size));
        assert_eq!(row.content_id.as_deref(), Some("c"));
        assert!(row.is_inline);
    }
    let plan = plan_replacement(&rows, &[]);
    assert_eq!(plan.deleted, vec![4, 20]);
}

#[test]
fn attachments_that_are_gone_are_deleted() {
    let row = |id: i64, name: &str| AttachmentRow {
        id,
        part_id: Some(id.to_string()),
        filename: Some(name.to_string()),
        mime_type: None,
        size: None,
        content_id: None,
        is_inline: false,
        imap_section: None,
        file_path: None,
    };
    let mut rows = vec![row(1, "a.txt"), row(2, "b.txt")];
    let replacement = replace_attachments(&mut rows, &[], 10);
    assert!(rows.is_empty());
    assert_eq!(replacement.deleted, vec![1, 2]);
    assert_eq!(attachment_by_imap_section(&rows, "2"), None);
}

#[test]
fn plans_of_other_versions_are_left_aside() {
    let old = plan(MIME_PLAN_VERSION - 1, TextSectionKind::Html, "base64");
    assert!(supported_plan(Some(old)).is_none());
    assert!(supported_plan(Some(plan(MIME_PLAN_VERSION, TextSectionKind::Html, "7bit"))).is_some());
    assert!(supported_plan(None).is_none());
}

#[test]
fn local_automation_annotations_are_exposed_without_rewriting_source_fields() {
    let stored = "July invoice".to_string();
    assert_eq!(shown_subject("[FINANCE] ", &stored), "[FINANCE] July invoice");
    assert_eq!(
        shown_note("Send to accounts payable.").as_deref(),
        Some("Send to accounts payable.")
    );
    assert_eq!(shown_note(""), None);
    assert_eq!(stored, "July invoice");
}

#[test]
fn a_failed_send_stays_visible() {
    let attempt = |id: i64, state: &str, error: Option<&str>| SendAttempt {
        id,
        state: state.to_string(),
        last_error: error.map(|e| e.to_string()),
    };
    assert_eq!(send_state(&Vec::new()), (None, None));
    let (state, error) = send_state(&vec![attempt(1, "failed", Some("550 no"))]);
    assert_eq!(state.as_deref(), Some("failed"));
    assert_eq!(error.as_deref(), Some("550 no"));
    let (state, _) = send_state(&vec![attempt(1, "failed", None), attempt(2, "pending", None)]);
    assert_eq!(state.as_deref(), Some("queued"));
}

#[test]
fn stored_headers_are_kept_where_none_was_found() {
    let known = Some("<https://a.example>".to_string());
    let found = Some("<https://b.example>".to_string());
    assert_eq!(set_unsubscribe_header(&known, &None), known);
    assert_eq!(set_unsubscribe_header(&known, &found), found);
    assert_eq!(set_unsubscribe_header(&None, &None), None);
    assert_eq!(max_uid_in_folder(&vec![Some(3), None, Some(9)]), 9);
    assert_eq!(max_uid_in_folder(&Vec::new()), 0);
}

#[test]
fn sent_mail_is_the_users_own() {
    assert_eq!(filter_sent(&vec![5, 3, 9], &vec![9, 5]), vec![5, 9]);
    let sent = |id: i64, date: i64, role: &str, text: Option<&str>| SentRow {
        id,
        account_id: 1,
        folder_role: Some(role.to_string()),
        is_draft: false,
        text_body: text.map(|t| t.to_string()),
        date,
    };
    assert!(own_sent(&sent(1, 1, "sent", Some("hello"))));
    assert!(!own_sent(&sent(1, 1, "inbox", Some("hello"))));
    let rows = vec![
        sent(1, 10, "sent", Some("one")),
        sent(2, 30, "sent", Some("two")),
        sent(3, 20, "inbox", Some("three")),
    ];
    assert_eq!(list_sent_bodies(&rows, None, 10), vec![2, 1]);
    assert_eq!(list_sent_bodies(&rows, Some(2), 10), Vec::<i64>::new());
}

// -- reading -----------------------------------------------------------------

#[test]
fn tabs_filter_by_label_then_by_split() {
    assert_eq!(tab_filter(Some(4), Some(true), Some(-1)), Some(TabFilter::AutoLabel(4)));
    assert_eq!(tab_filter(Some(4), None, None), Some(TabFilter::ManualLabel(4)));
    assert_eq!(tab_filter(None, None, Some(-1)), Some(TabFilter::Important));
    assert_eq!(tab_filter(None, None, Some(-2)), Some(TabFilter::Other));
    assert_eq!(tab_filter(None, None, Some(7)), Some(TabFilter::Split(7)));
    assert_eq!(tab_filter(None, None, Some(-3)), None);
    assert_eq!(tab_filter(None, None, None), None);
    assert_eq!(list_limit(0, 200), 1);
    assert_eq!(list_limit(500, 200), 200);
    assert_eq!(list_limit(50, 200), 50);
}

#[test]
fn bodies_are_asked_for_newest_first() {
    let messages = vec![detail(1, "none"), detail(2, "cached"), detail(3, "fetching")];
    assert_eq!(bodies_to_request(&messages), vec![(3, 3), (3, 1)]);
    assert!(wants_body("none") && wants_body("fetching") && !wants_body("cached"));
}

#[test]
fn unsubscribe_headers_are_filled_in() {
    let headers = |list: Option<&str>, post: Option<&str>| UnsubscribeHeaders {
        list: list.map(|s| s.to_string()),
        post: post.map(|s| s.to_string()),
    };
    let path = Some("/m/1.eml".to_string());
    assert!(looks_for_unsubscribe(&headers(Some("a"), None), &path));
    assert!(!looks_for_unsubscribe(&headers(Some("a"), Some("b")), &path));
    assert!(!looks_for_unsubscribe(&headers(None, None), &Some(String::new())));
    assert!(!looks_for_unsubscribe(&headers(None, None), &None));
    let merged =
        backfill_unsubscribe(&headers(Some("a"), None), &headers(Some("x"), Some("p"))).unwrap();
    assert_eq!(merged.list.as_deref(), Some("a"));
    assert_eq!(merged.post.as_deref(), Some("p"));
    assert!(backfill_unsubscribe(&headers(Some("a"), None), &headers(None, None)).is_none());
}

#[test]
fn embedded_images_become_data_addresses() {
    let image = |message_id: i64, cid: &str, mime: Option<&str>, bytes: &[u8]| InlineImage {
        message_id,
        content_id: cid.to_string(),
        mime_type: mime.map(|m| m.to_string()),
        bytes: bytes.to_vec(),
    };
    assert!(has_embedded_images("<img src=\"cid:x\">"));
    assert!(!has_embedded_images("<img src=\"x\">"));
    assert_eq!(
        image_uri(&image(1, "a", Some("image/png"), b"hello world~")),
        "data:image/png;base64,aGVsbG8gd29ybGR+"
    );
    assert_eq!(
        image_uri(&image(1, "a", None, &[0xff, 0xfe])),
        "data:application/octet-stream;base64,//4="
    );
    assert_eq!(image_uri(&image(1, "a", None, b"M")), "data:application/octet-stream;base64,TQ==");
    let images = vec![
        image(1, "a", Some("image/png"), b"one"),
        image(2, "b", Some("image/gif"), b"two"),
        image(1, "a", Some("image/png"), b"new"),
    ];
    let map = image_addresses(&images, 1).unwrap();
    assert_eq!(map.len(), 1);
    assert_eq!(map.get("a").unwrap(), "data:image/png;base64,bmV3");
    assert!(image_addresses(&images, 3).is_none());
    assert!(shows_anew(&vec![false, true]));
    assert!(!shows_anew(&vec![false]));
}

#[test]
fn attachments_come_from_the_stored_mail_or_the_server() {
    assert_eq!(attachment_source(true, true, false), Ok(AttachmentSource::Stored));
    assert_eq!(attachment_source(true, false, true), Ok(AttachmentSource::Remote));
    assert_eq!(attachment_source(false, false, false), Ok(AttachmentSource::Remote));
    assert_eq!(
        attachment_source(true, false, false),
        Err(CoreError::NotFound("attachment part".to_string()))
    );
    assert_eq!(after_stored(Ok(5), true), Ok(Some(5)));
    assert_eq!(after_stored::<i32>(Err(CoreError::Offline), true), Ok(None));
    assert_eq!(after_stored::<i32>(Err(CoreError::Offline), false), Err(CoreError::Offline));
    assert_eq!(no_such_account(9), CoreError::NotFound("account 9".to_string()));
    assert_eq!(no_such_thread(-4), CoreError::NotFound("thread -4".to_string()));
    assert!(too_large_to_preview(Some(11), 10));
    assert!(!too_large_to_preview(None, 10));
}

#[test]
fn inline_images_are_no_file_attachments() {
    let part = |is_inline: bool| PlannedAttachment {
        section: "2".to_string(),
        filename: None,
        mime_type: "image/png".to_string(),
        size: 10,
        content_id: Some("logo".to_string()),
        is_inline,
        transfer_encoding: "base64".to_string(),
    };
    let mut p = plan(MIME_PLAN_VERSION, TextSectionKind::Html, "8bit");
    assert!(!p.has_file_attachments());
    p.attachments.push(part(true));
    assert!(!p.has_file_attachments());
    p.attachments.push(part(false));
    assert!(p.has_file_attachments());
}
