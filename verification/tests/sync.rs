use comail_core::error::CoreError;
use comail_core::mime::{MimePlan, PlannedTextSection, TextSectionKind, MIME_PLAN_VERSION};
use comail_core::models::{Address, Provider};
use comail_core::sync::actor::{
    idle_wait_ms, AccountState, Actor, Answer, Effect, Event, Stage, SyncCmd,
};
use comail_core::sync::batches::{
    bisect, chunked, planned_text_bytes, selective_fetch_batches, PlannedBodyFetch,
    MAX_SELECTIVE_BATCH_BYTES,
};
use comail_core::sync::bodies::{
    can_persist_selective_content, classify_body_chunk_error, content_retry_delay_ms,
    decode_selective_content, is_current_background_row, is_unsupported_section_error, may_rescue,
    missing_plan_uids, prepare_body_fetches, raw_file_name, released_state,
    remote_location_is_current, rescue_failure, rescue_outcome, BodyChunkError, CurrentBodyRow,
    DecodedText, DiscoveredPlan, FetchedText, LoadedRow, MimeHeaderMode, PersistTally,
    RescueAnswer, RescueFailure, RescueOutcome, SectionCapability, SelectivePersistGuard,
};
use comail_core::sync::cycle::{
    history_visits, history_work, scanned_headers, selection_plan, visit_plan, Cycle, CycleEvent,
    CycleStage, HistoryEvent, HistoryPass, HistoryStage, HistoryWork,
};
use comail_core::sync::folders::{
    backfill_chunks, backfill_since, backfill_window, cycle_order, discovers_folders,
    ends_at_inbox, first_sync, flag_window, forward_scan, history_step, missing_uids,
    needs_history, next_baseline, notify_from, ordered_folders, range_set, reconcile_expunges,
    reconcile_flags, reconciles, same_validity, skips_folder, uidvalidity_changed, FlagOutcome,
    Flags, Folder, HistoryStep, MappedRow, Selected,
};
use comail_core::sync::headers::{
    account_lower, after_header_retry, arrival_eligible, chime_worthy, contacts_to_harvest,
    header_fate, header_row, is_outgoing, retry_one_header_failure, sender_lower, FetchedHeader,
    HeaderBatch, HeaderFailure, HeaderFate, HeaderRetry, HeaderSource, ParsedHeader, Stored,
    CHIME_RECENT_MS,
};
use comail_core::sync::pool::{
    after_chunk_error, chunk_is_current, drain_order, folder_chunks, group_by_layout,
    max_batch_bytes, round_chunks, round_outcome, worker_count, BodyChunk, WorkQueue, WorkerStep,
};
use comail_core::sync::fetch::{
    after_select, decode_batch, give_up, load_rows, recheck_rows, revalidate_background_fetches,
    start_chunk, take_discovered, ChunkStart, FetchedMessage, StoredRow,
};
use comail_core::sync::opening::{fetch_one_body, OpenEvent, OpenFetch, OpenStage};
use comail_core::sync::reader::{
    attachment_place, coalesce, fetch_bodies_batch, folder_unchanged,
    select_folder_for_remote_read, BodyRequest, PriorityFetchCmd, ReadEvent,
    ReadStage, ReadTry, RequestRow,
};
use comail_core::sync::status::{header_counts, status_for_account, SyncCounts};
use comail_core::messages::ContentProgress;

fn text(section: &str, kind: TextSectionKind, encoding: &str, size: u32) -> PlannedTextSection {
    PlannedTextSection {
        section: section.to_string(),
        kind,
        mime_type: "text/plain".to_string(),
        charset: Some("utf-8".to_string()),
        transfer_encoding: encoding.to_string(),
        size,
    }
}

fn item(id: i64, size: u32) -> PlannedBodyFetch {
    PlannedBodyFetch {
        message_id: id,
        uid: id as u32,
        plan: MimePlan {
            version: MIME_PLAN_VERSION,
            text_sections: vec![text("1", TextSectionKind::Plain, "8bit", size)],
            attachments: Vec::new(),
        },
    }
}

fn sizes(batches: &Vec<Vec<PlannedBodyFetch>>) -> Vec<usize> {
    batches.iter().map(|b| b.len()).collect()
}

fn folder(id: i64, role: Option<&str>) -> Folder {
    Folder {
        id,
        imap_name: format!("F{id}"),
        role: role.map(|r| r.to_string()),
        uidvalidity: Some(7),
        last_seen_uid: 10,
        backfill_cursor: None,
        backfill_done: false,
    }
}

fn person(email: &str) -> Address {
    Address { name: None, email: email.to_string() }
}

fn parsed(from: &str) -> ParsedHeader {
    ParsedHeader {
        message_id: Some("m1@x".to_string()),
        subject: "Hello".to_string(),
        from: Some(person(from)),
        to: vec![person("b@x.example")],
        cc: vec![person("c@x.example")],
        bcc: Vec::new(),
        date_ms: Some(5),
        is_automated: false,
        references: vec!["r1@x".to_string()],
        list_unsubscribe: None,
        list_unsubscribe_post: None,
        via: None,
    }
}

fn fetched(uid: u32) -> FetchedHeader {
    FetchedHeader {
        uid,
        internal_date_ms: Some(9),
        seen: false,
        flagged: true,
        draft: false,
        size: Some(77),
        has_attachments: true,
        has_plan: true,
    }
}

// -- batches -----------------------------------------------------------------

#[test]
fn batch_packing_uses_two_fetches_for_three_hundred_small_messages() {
    let items = (1..=300).map(|id| item(id, 1_000)).collect();
    let batches = selective_fetch_batches(items, MAX_SELECTIVE_BATCH_BYTES);
    assert_eq!(sizes(&batches), [200, 100]);
}

#[test]
fn batch_packing_honors_bytes_and_keeps_oversized_singletons() {
    let batches = selective_fetch_batches(vec![item(1, 40), item(2, 40), item(3, 40)], 100);
    assert_eq!(sizes(&batches), [2, 1]);

    let batches = selective_fetch_batches(vec![item(1, 120), item(2, 10)], 100);
    assert_eq!(sizes(&batches), [1, 1]);
}

#[test]
fn batches_keep_the_order_of_their_items() {
    let batches = selective_fetch_batches(vec![item(3, 60), item(1, 60), item(2, 40)], 100);
    let ids: Vec<Vec<i64>> =
        batches.iter().map(|b| b.iter().map(|i| i.message_id).collect()).collect();
    assert_eq!(ids, vec![vec![3], vec![1, 2]]);
    assert!(selective_fetch_batches(Vec::new(), 100).is_empty());
    assert_eq!(planned_text_bytes(&item(1, 40)), 40);
}

#[test]
fn lists_are_cut_into_chunks_and_halves() {
    assert_eq!(chunked(&vec![1, 2, 3, 4, 5], 2), vec![vec![1, 2], vec![3, 4], vec![5]]);
    let mut left = vec![1, 2, 3];
    let right = bisect(&mut left);
    assert_eq!(left.len() + right.len(), 3);
    assert!(!left.is_empty() && !right.is_empty());
    left.extend(right);
    assert_eq!(left, vec![1, 2, 3]);
}

// -- bodies ------------------------------------------------------------------

#[test]
fn background_row_guard_rejects_stale_location_and_state() {
    let current = CurrentBodyRow {
        folder_id: Some(7),
        uid: Some(42),
        body_state: "none".to_string(),
    };
    assert!(is_current_background_row(&current, 7, 42));

    for stale in [
        CurrentBodyRow { folder_id: Some(8), ..current_body_row_copy(&current) },
        CurrentBodyRow { uid: Some(43), ..current_body_row_copy(&current) },
        CurrentBodyRow { body_state: "fetching".to_string(), ..current_body_row_copy(&current) },
        CurrentBodyRow { body_state: "cached".to_string(), ..current_body_row_copy(&current) },
    ] {
        assert!(!is_current_background_row(&stale, 7, 42));
    }
}

fn current_body_row_copy(row: &CurrentBodyRow) -> CurrentBodyRow {
    CurrentBodyRow {
        folder_id: row.folder_id,
        uid: row.uid,
        body_state: row.body_state.clone(),
    }
}

#[test]
fn only_protocol_transport_errors_request_reconnect() {
    assert!(matches!(
        classify_body_chunk_error(CoreError::Imap("protocol".to_string())),
        BodyChunkError::Reconnect(_)
    ));
    assert!(matches!(
        classify_body_chunk_error(CoreError::Network("transport".to_string())),
        BodyChunkError::Reconnect(_)
    ));
    assert!(matches!(
        classify_body_chunk_error(CoreError::Offline),
        BodyChunkError::Reconnect(_)
    ));
    assert!(matches!(
        classify_body_chunk_error(CoreError::Other("join failure".to_string())),
        BodyChunkError::Fatal(_)
    ));
    assert!(matches!(
        classify_body_chunk_error(CoreError::Mime("decode failure".to_string())),
        BodyChunkError::Fatal(_)
    ));
}

#[test]
fn a_body_is_claimed_by_one_reader() {
    let row = |state: &str| CurrentBodyRow {
        folder_id: Some(1),
        uid: Some(5),
        body_state: state.to_string(),
    };
    let background = SelectivePersistGuard::Background { folder_id: 1 };
    let priority = SelectivePersistGuard::Priority { folder_id: 1 };
    assert!(can_persist_selective_content(&row("none"), background, 5));
    assert!(!can_persist_selective_content(&row("none"), priority, 5));
    assert!(can_persist_selective_content(&row("fetching"), priority, 5));
    assert!(!can_persist_selective_content(&row("fetching"), background, 5));
    assert!(!can_persist_selective_content(&row("fetching"), priority, 6));
    assert_eq!(released_state("fetching"), "none");
    assert_eq!(released_state("cached"), "cached");
    assert!(remote_location_is_current(Some(&row("cached")), 1, 5));
    assert!(!remote_location_is_current(None, 1, 5));
    let name = raw_file_name(1, 2, 3);
    assert!(name.ends_with(".eml"));
}

#[test]
fn content_retries_double_from_a_minute_to_eight_hours() {
    assert_eq!(content_retry_delay_ms(0), 60_000);
    assert!(content_retry_delay_ms(2) >= content_retry_delay_ms(1));
    assert_eq!(content_retry_delay_ms(4) / content_retry_delay_ms(3), 2);
    assert_eq!(content_retry_delay_ms(20), 28_800_000);
    assert_eq!(content_retry_delay_ms(u32::MAX), 28_800_000);
}

#[test]
fn sections_are_asked_for_without_headers_once_those_are_refused() {
    let mut capability = SectionCapability::new();
    assert!(matches!(capability.mode(), MimeHeaderMode::Include));
    let other = CoreError::Network("down".to_string());
    assert!(!is_unsupported_section_error(&other));
    assert!(!capability.retry_without_headers(MimeHeaderMode::Include, &other));
    assert!(matches!(capability.mode(), MimeHeaderMode::Include));
    let refused = CoreError::Imap("A12 BAD unknown section 1.MIME".to_string());
    assert!(is_unsupported_section_error(&refused));
    assert!(capability.retry_without_headers(MimeHeaderMode::Include, &refused));
    assert!(matches!(capability.mode(), MimeHeaderMode::Omit));
    assert!(!capability.retry_without_headers(MimeHeaderMode::Omit, &refused));
    assert!(matches!(capability.mode(), MimeHeaderMode::Omit));
    let inner = CoreError::Imap("badge 7 not found".to_string());
    assert!(!is_unsupported_section_error(&inner));
    assert!(is_unsupported_section_error(&CoreError::Imap("bad response: x".to_string())));
}

#[test]
fn a_rescue_counts_records_or_ends_the_chunk() {
    let lost = CoreError::Network("reset".to_string());
    assert!(matches!(
        rescue_outcome(RescueAnswer::FetchFailed(lost.clone())),
        RescueOutcome::Abort(e) if e == lost
    ));
    let own = CoreError::Mime("broken".to_string());
    assert!(matches!(
        rescue_outcome(RescueAnswer::FetchFailed(own.clone())),
        RescueOutcome::Record
    ));
    assert!(matches!(rescue_outcome(RescueAnswer::StoreFailed(own)), RescueOutcome::Record));
    assert!(matches!(rescue_outcome(RescueAnswer::NotAsked), RescueOutcome::Record));
    assert!(matches!(rescue_outcome(RescueAnswer::Gone), RescueOutcome::Record));
    for (written, n) in [(true, 1), (false, 0)] {
        assert!(matches!(
            rescue_outcome(RescueAnswer::Stored { written }),
            RescueOutcome::Count(k) if k == n
        ));
    }
}

#[test]
fn a_new_folder_starts_ninety_days_back() {
    assert_eq!(backfill_since(0), -90);
    assert_eq!(backfill_since(86_400_000 * 100 - 1), 9);
    assert_eq!(backfill_since(86_400_000 * 100), 10);
    assert_eq!(backfill_since(-1), -91);
    assert_eq!(backfill_since(i64::MIN), i64::MIN.div_euclid(86_400_000) - 90);
}

#[test]
fn large_messages_are_not_rescued_in_the_background() {
    assert!(may_rescue(Some(2_097_152)));
    assert!(!may_rescue(Some(2_097_153)));
    assert!(matches!(
        rescue_failure(CoreError::Network("down".to_string())),
        RescueFailure::AbortChunk(_)
    ));
    assert!(matches!(
        rescue_failure(CoreError::Mime("broken".to_string())),
        RescueFailure::Record(_)
    ));
}

#[test]
fn rows_without_a_plan_are_discovered_or_recorded() {
    let rows = vec![
        LoadedRow { message_id: 1, uid: 11, plan: None },
        LoadedRow { message_id: 2, uid: 12, plan: Some(item(2, 5).plan) },
    ];
    assert_eq!(missing_plan_uids(&rows), vec![11]);
    let (planned, failed) = prepare_body_fetches(rows);
    assert_eq!(planned.iter().map(|p| p.message_id).collect::<Vec<_>>(), vec![2]);
    assert_eq!(failed.iter().map(|f| f.0).collect::<Vec<_>>(), vec![1]);
}

#[test]
fn decoded_sections_make_the_body() {
    let mut body = item(4, 10);
    body.plan.text_sections.push(text("2", TextSectionKind::Html, "8bit", 3));
    let part = |section: &str, kind: TextSectionKind, content: &str| FetchedText {
        section: section.to_string(),
        decoded: Ok(DecodedText { kind, content: content.to_string() }),
    };
    let got = vec![
        part("1", TextSectionKind::Plain, "hi"),
        part("2", TextSectionKind::Html, "<p>hi</p>"),
    ];
    let decoded = decode_selective_content(body, &got).unwrap();
    assert_eq!(decoded.text_body.as_deref(), Some("hi"));
    assert_eq!(decoded.html_body.as_deref(), Some("<p>hi</p>"));
    assert!(decoded.calendar_parts.is_empty());

    assert!(decode_selective_content(item(5, 1), &Vec::new()).is_err());
}

#[test]
fn stored_bodies_are_counted_by_thread() {
    let mut tally = PersistTally::new();
    tally.written(Some(3));
    tally.written(Some(3));
    tally.written(None);
    assert_eq!(tally.count, 3);
    assert_eq!(tally.thread_ids, vec![3]);
}

// -- folders -----------------------------------------------------------------

#[test]
fn the_inbox_comes_first_and_every_folder_once() {
    let folders = vec![folder(1, Some("sent")), folder(2, Some("inbox")), folder(3, None)];
    let order = ordered_folders(&folders);
    assert_eq!(order[0], 1);
    let mut seen = order.clone();
    seen.sort_unstable();
    assert_eq!(seen, vec![0, 1, 2]);
    let cycle = cycle_order(&folders, Provider::Imap);
    assert_eq!(cycle.inbox, Some(1));
    assert_eq!(cycle.others.len(), 2);
}

#[test]
fn only_gmail_syncs_the_folder_of_all_mail() {
    assert!(skips_folder(&folder(1, Some("all")), Provider::Imap));
    assert!(!skips_folder(&folder(1, Some("all")), Provider::Gmail));
    assert!(!skips_folder(&folder(1, Some("inbox")), Provider::Imap));
    assert!(!needs_history(&folder(1, Some("all")), Provider::Imap));
}

#[test]
fn replaying_actions_leaves_housekeeping_out() {
    assert!(!discovers_folders(0, true));
    assert!(discovers_folders(0, false));
    assert!(!reconciles(1, true));
    assert!(ends_at_inbox(true, false));
    assert!(!ends_at_inbox(false, false));
}

#[test]
fn uid_validity_is_compared_where_both_are_known() {
    assert!(uidvalidity_changed(Some(1), Some(2)));
    assert!(!uidvalidity_changed(Some(1), Some(1)));
    assert!(!uidvalidity_changed(None, Some(1)));
    assert!(same_validity(Some(1), Some(1)));
}

#[test]
fn forward_scans_cover_every_new_uid() {
    let selected = Selected { uid_validity: Some(7), uid_next: Some(500) };
    let scan = forward_scan(10, selected).unwrap();
    assert_eq!(scan.last_seen, 10);
    assert_eq!(scan.range_end, 210);
    assert!(scan.remaining);
    assert!(scan.covers(11) && scan.covers(210) && !scan.covers(10) && !scan.covers(211));
    assert_eq!(scan.uid_set(), "11:210");
    let next = forward_scan(scan.range_end as i64, selected).unwrap();
    assert!(next.covers(211));
    assert!(forward_scan(499, selected).is_none());
    assert_eq!(range_set(3, 9), "3:9");
    let unbounded = forward_scan(10, Selected { uid_validity: None, uid_next: None }).unwrap();
    assert_eq!((unbounded.range_end, unbounded.remaining), (210, true));
    let wide = Selected { uid_validity: None, uid_next: Some(1 << 40) };
    assert_eq!(forward_scan(10, wide).unwrap().range_end, 210);
}

#[test]
fn history_goes_down_to_the_first_uid() {
    assert!(matches!(history_step(None), HistoryStep::NotStarted));
    assert!(matches!(history_step(Some(0)), HistoryStep::Finished));
    let mut cursor = 1_201i64;
    let mut low = u32::MAX;
    let mut rounds = 0;
    loop {
        match history_step(Some(cursor)) {
            HistoryStep::Window { lo, hi, done } => {
                assert_eq!(hi as i64, cursor - 1);
                low = lo;
                cursor = lo as i64;
                rounds += 1;
                if done {
                    break;
                }
            }
            _ => break,
        }
    }
    assert_eq!(low, 1);
    assert_eq!(rounds, 3);
}

#[test]
fn backfill_walks_from_the_newest_uid_down() {
    let missing: Vec<u32> = (1..=450).collect();
    let chunks = backfill_chunks(&missing);
    assert_eq!(chunks.iter().map(|c| c.uids.len()).sum::<usize>(), 450);
    assert!(chunks.last().unwrap().done);
    assert_eq!(missing_uids(&vec![1, 2, 3], &vec![2]).len(), 2);
    let first = first_sync(Selected { uid_validity: None, uid_next: Some(100) });
    assert_eq!(first.live_high, 99);
    let window = backfill_window(&vec![5, 9, 7]);
    assert!(window.0 <= 10);
}

#[test]
fn pending_changes_win_over_the_server() {
    let here = Flags { seen: true, flagged: false };
    let there = Flags { seen: false, flagged: false };
    assert_eq!(reconcile_flags(here, there, true), FlagOutcome::Keep);
    assert_eq!(reconcile_flags(here, there, false), FlagOutcome::Take(there));
    assert_eq!(reconcile_flags(here, here, false), FlagOutcome::Same);
    assert!(flag_window(0).is_none());
    assert_eq!(flag_window(1_500).unwrap().1, 1_500);
}

#[test]
fn vanished_messages_are_expunged_unless_they_wait_for_an_action() {
    let rows = vec![
        MappedRow { id: 1, uid: 100, thread_id: Some(11), has_pending: false },
        MappedRow { id: 2, uid: 101, thread_id: Some(12), has_pending: true },
        MappedRow { id: 3, uid: 102, thread_id: Some(13), has_pending: false },
    ];
    let (gone, _threads) = reconcile_expunges(&rows, &vec![102], None);
    assert!(!gone.contains(&2));
    assert!(!gone.contains(&3));
}

#[test]
fn the_baseline_is_set_by_the_first_selection_of_the_inbox() {
    let selected = Selected { uid_validity: Some(7), uid_next: Some(50) };
    let baseline = next_baseline(None, true, Some(7), selected);
    assert_eq!(notify_from(true, baseline), Some(50));
    assert_eq!(notify_from(false, baseline), None);
    assert_eq!(next_baseline(None, false, Some(7), selected), None);
    assert_eq!(next_baseline(baseline, true, Some(7), selected), baseline);
}

// -- headers -----------------------------------------------------------------

fn eligible(baseline: Option<u32>, uid: u32, read: bool, outgoing: bool, age_ms: i64) -> bool {
    let now = 2 * CHIME_RECENT_MS;
    arrival_eligible(baseline, uid, read, outgoing, now - age_ms, now)
}

#[test]
fn only_live_unread_incoming_mail_is_a_notification_candidate() {
    assert!(eligible(Some(100), 100, false, false, 1_000));
    assert!(!eligible(None, 100, false, false, 1_000));
    assert!(!eligible(Some(100), 99, false, false, 1_000));
    assert!(!eligible(Some(100), 100, true, false, 1_000));
    assert!(!eligible(Some(100), 100, false, true, 1_000));
    assert!(!eligible(Some(100), 100, false, false, CHIME_RECENT_MS));
}

fn robot_sender(email: &str) -> bool {
    email.starts_with("notifications@")
}

#[test]
fn chime_stays_human_only() {
    assert!(chime_worthy(false, robot_sender("alice@example.com")));
    assert!(!chime_worthy(true, robot_sender("digest@example.com")));
    assert!(!chime_worthy(false, robot_sender("notifications@example.com")));
}

#[test]
fn a_message_that_is_already_here_is_not_stored_again() {
    let p = parsed("a@x.example");
    assert!(matches!(
        header_fate(Some(4), None, Some(&p), true),
        HeaderFate::Refresh { message_id: 4, .. }
    ));
    assert!(matches!(
        header_fate(None, Some((5, None)), Some(&p), true),
        HeaderFate::Link { message_id: 5, set_location: true, .. }
    ));
    assert!(matches!(header_fate(None, None, Some(&p), true), HeaderFate::Insert));
    assert!(matches!(
        header_fate(None, None, None, true),
        HeaderFate::RetryLater { retry_ms: 60_000 }
    ));
}

#[test]
fn addresses_are_compared_in_lower_case() {
    assert_eq!(sender_lower(&Some(person("ALICE@X.example"))), "alice@x.example");
    assert_eq!(sender_lower(&Some(person("ÄGIR@x.example"))), "ägir@x.example");
    assert_eq!(sender_lower(&None), "");
    assert_eq!(account_lower("Me@X.example"), "me@x.example");
    assert!(is_outgoing("me@x.example", "me@x.example", &None));
    assert!(is_outgoing("other@x.example", "me@x.example", &Some("sent".to_string())));
    assert!(!is_outgoing("other@x.example", "me@x.example", &Some("inbox".to_string())));
}

#[test]
fn a_fetched_header_becomes_a_row() {
    let source = HeaderSource {
        account_id: 1,
        account_lower: "me@x.example".to_string(),
        folder_id: 2,
        folder_role: Some("inbox".to_string()),
    };
    let row = header_row(&source, fetched(42), parsed("a@x.example"), 1_000);
    assert_eq!(row.uid, Some(42));
    assert_eq!(row.subject, "Hello");
    assert!(!row.is_outgoing);
    assert!(row.is_starred && !row.is_read);
    let learnt: Vec<String> = contacts_to_harvest(&row).into_iter().map(|a| a.email).collect();
    assert_eq!(learnt, vec!["a@x.example"]);

    let sent = header_row(&source, fetched(43), parsed("Me@x.example"), 1_000);
    assert!(sent.is_outgoing);
    let learnt: Vec<String> = contacts_to_harvest(&sent).into_iter().map(|a| a.email).collect();
    assert_eq!(learnt, vec!["b@x.example", "c@x.example"]);
}

#[test]
fn fresh_mail_is_told_of_once_per_thread() {
    let mut batch = HeaderBatch::new();
    let now = 2 * CHIME_RECENT_MS;
    let arrival = |uid: u32, from: &str| Stored {
        thread_id: 9,
        uid,
        is_read: false,
        is_outgoing: false,
        is_automated: false,
        robot_sender: robot_sender(from),
        date: now,
        internal_date: None,
    };
    batch.saw(50);
    assert!(batch.stored(&arrival(50, "a@x.example"), Some(50), now));
    batch.saw(51);
    batch.stored(&arrival(51, "a@x.example"), Some(50), now);
    assert_eq!(batch.thread_ids, vec![9]);
    assert_eq!(batch.fresh_ids, vec![9]);
    assert_eq!(batch.max_uid, 51);
    assert_eq!(batch.inserted, 2);
    assert!(!batch.stored(&arrival(40, "a@x.example"), Some(50), now));
    let mut robots = HeaderBatch::new();
    assert!(robots.stored(&arrival(50, "notifications@x.example"), Some(50), now));
    assert!(robots.fresh_ids.is_empty());
}

#[test]
fn failed_headers_are_tried_again() {
    let whole = HeaderFailure { folder_id: Some(3), uid: Some(8) };
    assert_eq!(retry_one_header_failure(whole, true), Ok((3, 8)));
    assert_eq!(
        retry_one_header_failure(whole, false),
        Err(CoreError::NotFound("folder 3".to_string()))
    );
    assert_eq!(
        retry_one_header_failure(HeaderFailure { folder_id: None, uid: Some(8) }, true),
        Err(CoreError::Other("header retry missing folder".to_string()))
    );
    assert_eq!(
        retry_one_header_failure(HeaderFailure { folder_id: Some(3), uid: None }, true),
        Err(CoreError::Other("header retry missing UID".to_string()))
    );
    assert_eq!(after_header_retry(0, 1_000), HeaderRetry::WaitUntil(301_000));
    assert_eq!(after_header_retry(1, 1_000), HeaderRetry::Store);
}

// -- the actor ---------------------------------------------------------------

#[test]
fn a_cycle_answers_whoever_waits() {
    let mut actor = Actor::new();
    actor.step(Event::Connected { idle: true });
    assert_eq!(actor.stage, Stage::Drain);
    actor.step(Event::Received(SyncCmd::SyncNow { waits: true }));
    actor.step(Event::QueueEmpty);
    assert_eq!(actor.stage, Stage::Cycle);
    let effects = actor.step(Event::CycleDone { actions_remaining: false, done: 1, total: 2 });
    assert!(effects.contains(&Effect::AnswerAll(Answer::Done)));
    assert!(effects.contains(&Effect::Progress { done: 1, total: 2 }));
}

#[test]
fn failed_connections_back_off_and_double() {
    let mut actor = Actor::new();
    let effects = actor.step(Event::ConnectFailed);
    assert!(effects.contains(&Effect::SetState(AccountState::Offline)));
    assert_eq!(actor.stage, Stage::Backoff);
    let first = actor.wait_secs;
    actor.step(Event::TimedOut);
    actor.step(Event::ConnectFailed);
    assert_eq!(actor.wait_secs, 2 * first);
    assert_eq!(AccountState::Offline.as_str(), "offline");
}

#[test]
fn an_offline_account_runs_no_actions() {
    let mut actor = Actor::new();
    actor.step(Event::ConnectFailed);
    for _ in 0..3 {
        assert_eq!(actor.stage, Stage::Backoff);
        let effects = actor.step(Event::Received(SyncCmd::RunActions));
        assert!(effects.is_empty());
        assert_eq!(actor.stage, Stage::Connect);
        actor.step(Event::ConnectFailed);
    }
    actor.step(Event::TimedOut);
    actor.step(Event::Connected { idle: false });
    actor.step(Event::QueueEmpty);
    assert_eq!(actor.stage, Stage::Cycle);
}

#[test]
fn shutting_down_stops_the_actor() {
    let mut actor = Actor::new();
    actor.step(Event::AuthRejected);
    assert_eq!(actor.stage, Stage::AwaitNudge);
    actor.step(Event::Received(SyncCmd::Shutdown));
    assert_eq!(actor.stage, Stage::Stopped);
    assert_eq!(idle_wait_ms(10_000_000), 300_000);
}

// -- readers and the pool ----------------------------------------------------

#[test]
fn requests_for_bodies_are_taken_together() {
    let cmds = vec![
        PriorityFetchCmd::Body(2),
        PriorityFetchCmd::Attachment { attachment_id: 9 },
        PriorityFetchCmd::Body(1),
        PriorityFetchCmd::Body(3),
    ];
    let c = coalesce(1, &cmds);
    assert_eq!(c.ids, vec![1, 2, 3]);
    assert_eq!(c.deferred.len(), 1);
}

#[test]
fn requested_bodies_are_grouped_by_folder() {
    let request = |id: i64, state: &str, folder: Option<i64>, uid: Option<i64>| BodyRequest {
        message_id: id,
        row: Some(RequestRow { body_state: state.to_string(), folder_id: folder, uid }),
    };
    let plan = fetch_bodies_batch(&vec![
        request(1, "fetching", Some(7), Some(10)),
        request(2, "fetching", Some(8), Some(11)),
        request(3, "fetching", Some(7), Some(12)),
        request(4, "cached", Some(7), Some(13)),
        request(5, "fetching", None, None),
    ]);
    assert_eq!(plan.folders, vec![7, 8]);
    assert_eq!(plan.items[0].iter().map(|w| w.message_id).collect::<Vec<_>>(), vec![1, 3]);
    assert_eq!(plan.items[1].iter().map(|w| w.message_id).collect::<Vec<_>>(), vec![2]);
    assert!(plan.released.contains(&5));
    assert!(!plan.released.contains(&4));
}

#[test]
fn attachments_are_read_from_their_section() {
    let place = attachment_place(Some("2".to_string()), 5, Some((Some(7), Some(42)))).unwrap();
    assert_eq!((place.section.as_str(), place.folder_id, place.uid), ("2", 7, 42));
    assert!(attachment_place(None, 5, Some((Some(7), Some(42)))).is_err());
    assert!(attachment_place(Some("2".to_string()), 5, None).is_err());
    assert!(attachment_place(Some("2".to_string()), 5, Some((None, Some(42)))).is_err());
    assert!(attachment_place(Some("2".to_string()), 5, Some((Some(7), None))).is_err());
}

#[test]
fn a_folder_that_changed_is_not_read_from() {
    let f = folder(1, Some("inbox"));
    let same = Selected { uid_validity: Some(7), uid_next: None };
    assert!(folder_unchanged(&f, Some(&folder(1, Some("inbox")))));
    assert!(!folder_unchanged(&f, None));
    assert!(select_folder_for_remote_read(&f, same, Some(&folder(1, Some("inbox")))).is_ok());
    let other = Selected { uid_validity: Some(8), uid_next: None };
    let refused = select_folder_for_remote_read(&f, other, Some(&folder(1, Some("inbox"))));
    assert!(refused.unwrap_err().reset_uids);
}

#[test]
fn the_pool_takes_folders_and_chunks_in_order() {
    let folders = vec![folder(1, Some("sent")), folder(2, Some("inbox"))];
    assert_eq!(drain_order(&folders)[0], 1);
    let missing: Vec<(i64, i64)> = (1..=250).map(|i| (i, 1_000 + i)).collect();
    let chunks = folder_chunks(&folders[1], &missing, &vec![1]);
    assert_eq!(chunks.iter().map(|c| c.items.len()).sum::<usize>(), 249);
    assert!(chunk_is_current(&chunks[0], Some(("F2", Some(7)))));
    assert!(!chunk_is_current(&chunks[0], Some(("F2", Some(8)))));
    assert!(!chunk_is_current(&chunks[0], None));
    assert_eq!(worker_count(Provider::Imap, 5), 2);
    assert_eq!(worker_count(Provider::Imap, 1), 1);
    assert_eq!(max_batch_bytes(Provider::Microsoft), 4_194_304);
    assert_eq!(max_batch_bytes(Provider::Gmail), 8_388_608);
}

#[test]
fn a_chunk_that_fails_is_halved_or_given_back() {
    let fatal = || BodyChunkError::Fatal(CoreError::Mime("bad".to_string()));
    let lost = || BodyChunkError::Reconnect(CoreError::Offline);
    assert!(matches!(after_chunk_error(lost(), 4), WorkerStep::Halve(_)));
    assert!(!matches!(after_chunk_error(fatal(), 1), WorkerStep::Halve(_)));
    assert_eq!(round_outcome(None, 3), Ok(()));
    assert_eq!(
        round_outcome(None, 0),
        Err(CoreError::Imap("body backfill made no progress; will retry".to_string()))
    );
    assert_eq!(round_outcome(Some(CoreError::Offline), 0), Err(CoreError::Offline));
}

#[test]
fn messages_of_one_layout_are_fetched_together() {
    let mut other = item(3, 10);
    other.plan.text_sections.push(text("2", TextSectionKind::Html, "8bit", 4));
    let (groups, failures) = group_by_layout(vec![item(1, 10), other, item(2, 10)]);
    assert!(failures.is_empty());
    assert_eq!(groups.len(), 2);
    let one = groups.iter().find(|g| g.sections == vec!["1".to_string()]).unwrap();
    assert_eq!(one.items.iter().map(|i| i.message_id).collect::<Vec<_>>(), vec![1, 2]);
}

#[test]
fn the_status_tells_how_far_the_background_is() {
    let counts = SyncCounts {
        header_done: 1,
        header_total: 1,
        header_failed: 0,
        content: ContentProgress { done: 3, total: 9, failed: 1 },
        indexed: 0,
        index_total: 9,
    };
    let status = status_for_account(4, Some("idle"), counts).unwrap();
    assert_eq!(status.account_id, 4);
    assert_eq!(status.state, "idle");
    let background = status.background.unwrap();
    assert_eq!((background.done, background.total, background.failed), (3, 9, 1));
    assert!(status_for_account(4, None, counts_again()).is_err());
    let folders = vec![folder(1, Some("inbox")), folder(2, Some("all"))];
    assert_eq!(header_counts(&folders, Provider::Imap).1, 1);
}

fn counts_again() -> SyncCounts {
    SyncCounts {
        header_done: 0,
        header_total: 0,
        header_failed: 0,
        content: ContentProgress { done: 0, total: 0, failed: 0 },
        indexed: 0,
        index_total: 0,
    }
}

#[test]
fn a_cycle_syncs_the_inbox_before_it_replays_actions() {
    let mut sent = folder(2, Some("sent"));
    sent.backfill_cursor = Some(1);
    let folders = vec![sent, folder(1, Some("inbox")), folder(3, Some("all"))];
    let mut cycle = Cycle::begin(30, false, false);
    assert!(cycle.heavy);
    let mut seen = Vec::new();
    while !matches!(cycle.stage, CycleStage::Ended { .. }) {
        seen.push(cycle.stage);
        let event = match cycle.stage {
            CycleStage::List => CycleEvent::Listed(cycle_order(&folders, Provider::Imap)),
            CycleStage::Inbox(_) | CycleStage::Later(_) => CycleEvent::Synced { remaining: false },
            CycleStage::Actions => CycleEvent::ActionsRun { due_remaining: false },
            _ => CycleEvent::Done,
        };
        cycle.advance(event);
    }
    assert_eq!(
        seen,
        vec![
            CycleStage::Discover,
            CycleStage::List,
            CycleStage::Inbox(1),
            CycleStage::Announce,
            CycleStage::Actions,
            CycleStage::Later(0),
            CycleStage::Collect,
        ]
    );
    assert_eq!(cycle.later, vec![0]);
    assert_eq!(cycle.stage, CycleStage::Ended { again: false });
}

#[test]
fn a_cycle_stops_at_the_inbox_where_mail_remains() {
    let folders = vec![folder(1, Some("inbox"))];
    for (foreground, remaining, again) in [(true, false, true), (false, true, true)] {
        let mut cycle = Cycle::begin(1, false, foreground);
        assert_eq!(cycle.stage, CycleStage::List);
        assert!(!cycle.heavy);
        cycle.advance(CycleEvent::Listed(cycle_order(&folders, Provider::Gmail)));
        assert_eq!(cycle.stage, CycleStage::Inbox(0));
        cycle.advance(CycleEvent::Synced { remaining });
        assert_eq!(cycle.stage, CycleStage::Announce);
        cycle.advance(CycleEvent::Done);
        assert_eq!(cycle.stage, CycleStage::Ended { again });
    }
}

#[test]
fn a_cycle_comes_back_for_the_actions_that_are_left() {
    let mut cycle = Cycle::begin(5, true, false);
    assert_eq!(cycle.stage, CycleStage::List);
    assert!(!cycle.heavy);
    let none: Vec<Folder> = Vec::new();
    cycle.advance(CycleEvent::Listed(cycle_order(&none, Provider::Imap)));
    assert_eq!(cycle.stage, CycleStage::Announce);
    cycle.advance(CycleEvent::Done);
    cycle.advance(CycleEvent::ActionsRun { due_remaining: true });
    assert_eq!(cycle.stage, CycleStage::Ended { again: true });
}

#[test]
fn selecting_a_folder_anew_forgets_its_uids() {
    let mut inbox = folder(1, Some("inbox"));
    inbox.uidvalidity = Some(7);
    let selected = Selected { uid_validity: Some(8), uid_next: Some(40) };
    let plan = selection_plan(&inbox, selected, None);
    assert!(plan.reset_uids);
    assert_eq!(plan.baseline.unwrap().first_live_uid, 40);
    inbox.uidvalidity = Some(8);
    let later = Selected { uid_validity: Some(8), uid_next: Some(45) };
    let kept = selection_plan(&inbox, later, plan.baseline);
    assert!(!kept.reset_uids);
    assert_eq!(kept.baseline.unwrap().first_live_uid, 40);
    let other = selection_plan(&folder(2, Some("sent")), selected, None);
    assert!(other.baseline.is_none());
}

#[test]
fn a_new_folder_only_marks_where_its_history_starts() {
    let fresh = folder(1, Some("inbox"));
    let selected = Selected { uid_validity: Some(8), uid_next: Some(40) };
    let plan = visit_plan(&fresh, selected, None, true);
    let first = plan.first.unwrap();
    assert_eq!((first.live_high, first.history_cursor, first.history_done), (39, 40, false));
    assert!(plan.scan.is_none() && !plan.reconciles && plan.wakes_history && !plan.remaining);
}

#[test]
fn a_visit_scans_what_is_new_and_wakes_the_walk() {
    let mut fresh = folder(1, Some("inbox"));
    fresh.backfill_cursor = Some(10);
    fresh.backfill_done = false;
    fresh.last_seen_uid = 30;
    let selected = Selected { uid_validity: Some(8), uid_next: Some(400) };
    let baseline = next_baseline(None, true, Some(8), selected);
    let plan = visit_plan(&fresh, selected, baseline, true);
    let scan = plan.scan.unwrap();
    assert_eq!((scan.last_seen, scan.range_end), (30, 230));
    assert_eq!(plan.notify_from, Some(400));
    assert!(plan.first.is_none() && plan.reconciles && plan.wakes_history && plan.remaining);
    assert_eq!(scanned_headers(scan, &vec![30, 31, 230, 231]), vec![1, 2]);
    fresh.backfill_done = true;
    fresh.last_seen_uid = 399;
    let caught_up = visit_plan(&fresh, selected, baseline, false);
    assert!(caught_up.scan.is_none() && !caught_up.reconciles);
    assert!(!caught_up.wakes_history && !caught_up.remaining);
}

#[test]
fn the_walk_through_history_visits_what_is_unfinished() {
    let mut done = folder(1, Some("inbox"));
    done.backfill_cursor = Some(1);
    done.backfill_done = true;
    let mut open = folder(2, None);
    open.backfill_cursor = Some(900);
    open.backfill_done = false;
    let new = folder(3, Some("sent"));
    let all = folder(4, Some("all"));
    assert_eq!(history_work(&done), HistoryWork::Nothing);
    assert_eq!(history_work(&open), HistoryWork::Extend);
    assert_eq!(history_work(&new), HistoryWork::Window);
    let folders = vec![done, open, new, all];
    assert_eq!(history_visits(&folders, Provider::Imap), vec![2, 1]);
    assert_eq!(history_visits(&folders, Provider::Gmail), vec![2, 1, 3]);
}

#[test]
fn a_walk_that_is_caught_up_logs_out() {
    let mut pass = HistoryPass::begin();
    pass.advance(HistoryEvent::Done { progressed: false });
    pass.advance(HistoryEvent::Listed(Vec::new()));
    assert_eq!(pass.stage, HistoryStage::Ended { again: false, log_out: true });
}

#[test]
fn a_walk_that_progressed_goes_on() {
    let mut pass = HistoryPass::begin();
    pass.advance(HistoryEvent::Done { progressed: false });
    pass.advance(HistoryEvent::Listed(vec![2, 1]));
    assert_eq!(pass.stage, HistoryStage::Visit(0));
    pass.advance(HistoryEvent::Done { progressed: true });
    assert_eq!(pass.stage, HistoryStage::Visit(1));
    pass.advance(HistoryEvent::Done { progressed: true });
    assert_eq!(pass.stage, HistoryStage::Ended { again: true, log_out: false });
}

#[test]
fn a_step_that_fails_ends_the_walk() {
    let mut pass = HistoryPass::begin();
    pass.advance(HistoryEvent::Failed);
    assert_eq!(pass.stage, HistoryStage::Ended { again: false, log_out: true });
    let mut pass = HistoryPass::begin();
    pass.advance(HistoryEvent::Done { progressed: true });
    pass.advance(HistoryEvent::Failed);
    assert_eq!(pass.stage, HistoryStage::Ended { again: false, log_out: false });
}

fn chunk(items: Vec<(i64, i64)>) -> BodyChunk {
    BodyChunk { folder_id: 4, folder_name: "F4".to_string(), uid_validity: Some(7), items }
}

fn row_at(folder_id: i64, uid: i64, state: &str) -> Option<CurrentBodyRow> {
    Some(CurrentBodyRow {
        folder_id: Some(folder_id),
        uid: Some(uid),
        body_state: state.to_string(),
    })
}

fn plain(section: &str, content: &str) -> FetchedText {
    FetchedText {
        section: section.to_string(),
        decoded: Ok(DecodedText { kind: TextSectionKind::Plain, content: content.to_string() }),
    }
}

#[test]
fn a_round_takes_the_inbox_first_in_chunks() {
    let folders = vec![folder(1, Some("sent")), folder(2, Some("all")), folder(3, Some("inbox"))];
    let inbox: Vec<(i64, i64)> = (1..=201).map(|i| (i, i)).collect();
    let missing = vec![vec![(500, 5)], vec![(600, 6)], inbox];
    let queue = round_chunks(&folders, &missing, &vec![7], Provider::Imap);
    let shape: Vec<(i64, usize)> =
        queue.chunks.iter().map(|c| (c.folder_id, c.items.len())).collect();
    assert_eq!(shape, vec![(3, 200), (1, 1)]);
    let queue = round_chunks(&folders, &missing, &Vec::new(), Provider::Gmail);
    let shape: Vec<(i64, usize)> =
        queue.chunks.iter().map(|c| (c.folder_id, c.items.len())).collect();
    assert_eq!(shape, vec![(3, 200), (3, 1), (1, 1), (2, 1)]);
}

#[test]
fn a_chunk_on_a_broken_connection_is_halved_and_not_lost() {
    let mut queue = WorkQueue { chunks: vec![chunk(vec![(1, 1), (2, 2), (3, 3)]), chunk(vec![(4, 4)])] };
    let first = queue.take().unwrap();
    let step = queue.take_back(first, BodyChunkError::Reconnect(CoreError::Offline));
    assert!(matches!(step, WorkerStep::Halve(CoreError::Offline)));
    let ids: Vec<Vec<i64>> =
        queue.chunks.iter().map(|c| c.items.iter().map(|i| i.0).collect()).collect();
    assert_eq!(ids, vec![vec![1], vec![2, 3], vec![4]]);
    let single = queue.take().unwrap();
    let step = queue.take_back(single, BodyChunkError::Reconnect(CoreError::Offline));
    assert!(matches!(step, WorkerStep::Requeue(_)));
    assert_eq!(queue.chunks.len(), 3);
    let single = queue.take().unwrap();
    let step = queue.take_back(single, BodyChunkError::Fatal(CoreError::NeedsReauth));
    assert!(matches!(step, WorkerStep::Abort(_)));
    assert_eq!(queue.chunks.len(), 2);
    queue.chunks.clear();
    assert!(queue.take().is_none());
}

#[test]
fn a_chunk_of_a_folder_that_changed_is_given_up() {
    let c = chunk(vec![(1, 1), (2, 2)]);
    let here = Some(("F4", Some(7)));
    assert_eq!(start_chunk(&c, here, None), ChunkStart::Select);
    assert_eq!(start_chunk(&c, here, Some(("F5", Some(7)))), ChunkStart::Select);
    assert_eq!(start_chunk(&c, here, here), ChunkStart::Ready);
    assert_eq!(start_chunk(&c, Some(("F4", Some(8))), here), ChunkStart::GiveUp);
    assert_eq!(start_chunk(&c, None, here), ChunkStart::GiveUp);
    assert_eq!(after_select(&c, Some(7)), ChunkStart::Ready);
    assert_eq!(after_select(&c, None), ChunkStart::GiveUp);
    let mut skip = vec![2];
    give_up(&mut skip, &c);
    assert_eq!(skip, vec![2, 1]);
}

#[test]
fn rows_that_moved_on_are_left_out_of_a_chunk() {
    let mut old = item(3, 5).plan;
    old.version = MIME_PLAN_VERSION + 1;
    let stored = vec![
        StoredRow { row: row_at(4, 11, "none"), plan: Some(item(1, 5).plan) },
        StoredRow { row: row_at(4, 12, "fetching"), plan: None },
        StoredRow { row: row_at(4, 13, "none"), plan: Some(old) },
        StoredRow { row: None, plan: None },
    ];
    let mut rows = load_rows(4, &vec![(1, 11), (2, 12), (3, 13), (4, 14)], stored);
    assert_eq!(rows.iter().map(|r| r.message_id).collect::<Vec<_>>(), vec![1, 3]);
    assert!(rows[0].plan.is_some() && rows[1].plan.is_none());
    let found = vec![DiscoveredPlan { uid: 13, plan: item(3, 9).plan }];
    assert_eq!(take_discovered(&mut rows, &found), vec![1]);
    assert_eq!(rows[1].plan, Some(item(3, 9).plan));
    let rows = recheck_rows(4, rows, &vec![row_at(5, 11, "none"), row_at(4, 13, "none")]);
    assert_eq!(rows.iter().map(|r| r.message_id).collect::<Vec<_>>(), vec![3]);
    let batch = vec![item(1, 5), item(2, 5)];
    let left = revalidate_background_fetches(4, batch, &vec![row_at(4, 1, "cached"), row_at(4, 2, "none")]);
    assert_eq!(left.len(), 1);
    assert_eq!(left[0].message_id, 2);
}

#[test]
fn one_unreadable_message_does_not_hold_up_its_batch() {
    let batch = vec![item(1, 5), item(2, 5), item(3, 5)];
    let fetched = vec![
        FetchedMessage { uid: 3, sections: vec![plain("1", "three")] },
        FetchedMessage { uid: 1, sections: vec![plain("2", "elsewhere")] },
    ];
    let r = decode_batch(batch, &fetched);
    assert_eq!(r.contents.len(), 1);
    assert_eq!(r.contents[0].message_id, 3);
    assert_eq!(r.contents[0].text_body.as_deref(), Some("three"));
    assert_eq!(
        r.failures,
        vec![
            (1, CoreError::Imap("server omitted planned MIME section 1".to_string())),
            (2, CoreError::Imap("server omitted selective content for UID 2".to_string())),
        ]
    );
}

#[test]
fn a_message_is_read_from_where_its_row_says() {
    let row = |state: &str, folder_id, uid| RequestRow { body_state: state.to_string(), folder_id, uid };
    assert_eq!(fetch_one_body(None, true), Err(CoreError::NotFound("message".to_string())));
    assert_eq!(fetch_one_body(Some(&row("cached", Some(1), Some(2))), true), Ok(None));
    assert_eq!(fetch_one_body(Some(&row("none", None, Some(2))), true), Ok(None));
    assert_eq!(fetch_one_body(Some(&row("none", Some(1), Some(2))), true), Ok(Some((1, 2))));
    assert_eq!(
        fetch_one_body(Some(&row("none", Some(1), Some(2))), false),
        Err(CoreError::NotFound("folder".to_string()))
    );
}

#[test]
fn an_opened_message_is_read_by_its_sections() {
    let f = OpenFetch::begin(9, 40, None, true);
    assert!(matches!(f.stage, OpenStage::Plan));
    let f = f.step(OpenEvent::Plan(Some(item(9, 5).plan)));
    assert!(matches!(f.stage, OpenStage::Sections(_)));
    let f = f.step(OpenEvent::Sections(vec![plain("1", "hello")]));
    match f.stage {
        OpenStage::StoreContent(c) => assert_eq!(c.text_body.as_deref(), Some("hello")),
        _ => panic!("the content is there"),
    }
}

#[test]
fn an_opened_message_is_read_whole_where_its_sections_fail() {
    let f = OpenFetch::begin(9, 40, Some(item(9, 5).plan), true);
    let f = f.step(OpenEvent::Failed(CoreError::Imap("BAD".to_string())));
    assert!(matches!(f.stage, OpenStage::Whole));
    assert!(matches!(f.step(OpenEvent::Whole { found: true }).stage, OpenStage::StoreWhole));
    let f = OpenFetch::begin(9, 40, None, true).step(OpenEvent::Plan(None));
    match f.step(OpenEvent::Whole { found: false }).stage {
        OpenStage::Failed(e) => {
            assert_eq!(e, CoreError::NotFound("remote message UID 40".to_string()))
        }
        _ => panic!("the message is gone"),
    }
}

#[test]
fn background_reads_never_ask_for_a_whole_message() {
    let f = OpenFetch::begin(9, 40, None, false).step(OpenEvent::Plan(None));
    match f.stage {
        OpenStage::Failed(e) => assert_eq!(
            e,
            CoreError::Mime("server did not provide a usable BODYSTRUCTURE".to_string())
        ),
        _ => panic!("there is no plan"),
    }
    let f = OpenFetch::begin(9, 40, Some(item(9, 5).plan), false).step(OpenEvent::Moved);
    match f.stage {
        OpenStage::Failed(e) => assert_eq!(
            e,
            CoreError::NotFound("message remote location changed before content fetch".to_string())
        ),
        _ => panic!("the message has moved"),
    }
}

#[test]
fn a_read_is_tried_twice() {
    let mut t = ReadTry::begin(true);
    assert_eq!(t.stage, ReadStage::Read);
    t.step(ReadEvent::Failed);
    assert_eq!(t.stage, ReadStage::Connect);
    t.step(ReadEvent::Succeeded);
    t.step(ReadEvent::Failed);
    assert_eq!(t.stage, ReadStage::GaveUp);
    let mut t = ReadTry::begin(false);
    t.step(ReadEvent::Failed);
    assert_eq!(t.stage, ReadStage::GaveUp);
    let mut t = ReadTry::begin(true);
    t.step(ReadEvent::Succeeded);
    assert_eq!(t.stage, ReadStage::Done);
}
