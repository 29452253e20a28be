use comail_core::accounts::{
    account_found, add_account_password, apply_oauth_settings, check_consent_of,
    check_signed_in_as, connection_test, oauth_account, reauth_scopes, resume_after_reauth,
    sign_in_cancelled, sign_in_scopes, sync_outcome, sync_targets, ExtraScope, Resume, Servers,
    SyncReply,
};
use comail_core::calendar::connect::{
    after_token, check_found, check_google_account, check_microsoft_account, connection,
    default_to_set, queued_push, CalPush, DavLogin, QueuedPush, StoredCalendar, TokenStep,
};
use comail_core::calendar::meetings::{
    calendar_draft, calendar_send, cancel_notice, create_event, delete_event, ics_file_name,
    invite_body_text, invite_body_text_at, invite_text_between, outlook_body, rsvp_event,
    update_event, update_notice, Disposal, EventIdentity, Rsvp,
};
use comail_core::calendar::{
    attendees_of, check_event, list_events, occurrence_length_ms, Occurrence, RecurringMaster,
};
use comail_core::error::CoreError;
use comail_core::host::{
    choose_renderer, is_mailto, mailto_from_args, opens_outside, resolve_lang, rotates_log,
    tray_labels, Graphics, LinkGate, Renderer,
};
use comail_core::models::{
    Account, AddPasswordAccountArgs, Address, AuthKind, BuiltinModels, CalendarEvent,
    ConnectCalendarArgs, ConnectionTestResult, CreateEventArgs, EventAttendee, Provider,
    RsvpEventArgs, Settings, UpdateEventArgs,
};
use comail_core::startup::{
    forgets_failure, notification_retry_at, pending_migrations, recovered_body_state, routes_on,
    routing_backfill, Backfill,
};

fn address(email: &str) -> Address {
    Address { name: None, email: email.to_string() }
}

fn event(id: i64, starts_at: i64) -> CalendarEvent {
    CalendarEvent {
        id,
        account_id: 1,
        message_id: None,
        summary: Some(format!("E{id}")),
        location: None,
        organizer: Some("boss@x.example".to_string()),
        description: None,
        attendees: Vec::new(),
        join_url: None,
        rsvp_status: None,
        is_local: true,
        calendar_id: None,
        rrule: None,
        starts_at,
        ends_at: Some(starts_at + 10),
        all_day: false,
        status: None,
        method: None,
    }
}

fn account(provider: Provider) -> Account {
    Account {
        id: 1,
        email: "me@x.example".to_string(),
        display_name: Some("Me".to_string()),
        provider,
        auth_kind: AuthKind::Oauth2,
        sync_state: "idle".to_string(),
    }
}

fn meeting() -> CreateEventArgs {
    CreateEventArgs {
        account_id: 1,
        summary: " Review ".to_string(),
        description: Some("Agenda".to_string()),
        location: Some("Room 1".to_string()),
        join_url: Some(String::new()),
        starts_at: 1_000,
        ends_at: 2_000,
        all_day: false,
        attendees: vec![address("a@x.example")],
    }
}

fn change() -> UpdateEventArgs {
    UpdateEventArgs {
        event_id: 3,
        summary: "Review".to_string(),
        description: None,
        location: None,
        join_url: None,
        starts_at: 1_000,
        ends_at: 2_000,
        all_day: true,
        attendees: vec![address("A@x.example"), address("new@x.example")],
        notify: true,
    }
}

fn identity() -> EventIdentity {
    EventIdentity { uid: "u1".to_string(), sequence: 4 }
}

// -- the calendar ------------------------------------------------------------

#[test]
fn repeating_events_are_listed_by_their_occurrences() {
    let mut weekly = event(7, 5);
    weekly.rrule = Some("FREQ=WEEKLY".to_string());
    let mut odd = event(8, 6);
    odd.rrule = Some("FREQ=SOMETIMES".to_string());
    let rows = vec![event(1, 30), event(7, 5), event(8, 6), event(2, 10)];
    let masters = vec![
        RecurringMaster {
            event: weekly,
            occurrences: Some(vec![
                Occurrence { start: 40, end: 50 },
                Occurrence { start: 10, end: 20 },
            ]),
        },
        RecurringMaster { event: odd, occurrences: None },
    ];
    let listed = list_events(rows, &masters);
    let shown: Vec<(i64, i64)> = listed.iter().map(|e| (e.id, e.starts_at)).collect();
    assert_eq!(shown, vec![(8, 6), (2, 10), (7, 10), (1, 30), (7, 40)]);
    assert_eq!(listed[2].ends_at, Some(20));
    assert_eq!(occurrence_length_ms(&event(1, 30)), 10);
    let mut open = event(1, 30);
    open.ends_at = None;
    assert_eq!(occurrence_length_ms(&open), 1_800_000);
}

#[test]
fn events_need_a_title_and_an_end() {
    assert_eq!(
        check_event("  ", 1, 2),
        Err(CoreError::Other("event needs a title".to_string()))
    );
    assert_eq!(
        check_event("x", 2, 2),
        Err(CoreError::Other("event must end after it starts".to_string()))
    );
    assert_eq!(check_event("x", 1, 2), Ok(()));
}

#[test]
fn attendees_keep_their_answers() {
    let known = vec![EventAttendee {
        email: "a@x.example".to_string(),
        name: None,
        partstat: Some("ACCEPTED".to_string()),
    }];
    let invited = vec![address("A@X.example"), address("b@x.example")];
    let once = attendees_of(&invited, &known);
    assert_eq!(once[0].partstat.as_deref(), Some("ACCEPTED"));
    assert_eq!(once[0].email, "A@X.example");
    assert_eq!(once[1].partstat.as_deref(), Some("NEEDS-ACTION"));
    let twice = attendees_of(&invited, &once);
    assert_eq!(twice[0].partstat, once[0].partstat);
}

#[test]
fn a_meeting_with_attendees_is_announced() {
    let me = account(Provider::Microsoft);
    let made = create_event(&meeting(), Some(&me), 123, "tok", false).unwrap();
    assert_eq!(made.uid, "123-tok@comail");
    assert_eq!(made.summary, "Review");
    assert!(made.tell_outlook);
    let (mail, invite) = made.invite.unwrap();
    assert_eq!(mail.subject, "Invitation: Review");
    assert!(mail.body_text.starts_with("You are invited: Review\n\nWhen: "));
    assert_eq!(invite.sequence, 0);
    assert_eq!(invite.organizer.email, "me@x.example");
    assert!(!create_event(&meeting(), Some(&me), 1, "t", true).unwrap().tell_outlook);
    assert!(matches!(
        create_event(&meeting(), None, 1, "t", true),
        Err(CoreError::NotFound(w)) if w == "account"
    ));
    let mut alone = meeting();
    alone.attendees.clear();
    assert!(create_event(&alone, Some(&me), 1, "t", true).unwrap().invite.is_none());
}

#[test]
fn invitations_say_when_and_where() {
    assert_eq!(
        invite_text_between(&meeting(), "today", "tomorrow"),
        "You are invited: Review\n\nWhen: today - tomorrow\nWhere: Room 1\n\nAgenda\n"
    );
    let body = invite_body_text(&meeting());
    assert!(body.contains(" at "));
    assert!(body.contains(", 19"));
    let mut day = meeting();
    day.all_day = true;
    assert!(!invite_body_text(&day).contains(" at "));
}

#[test]
fn invitations_name_the_start_before_the_end() {
    let mut m = meeting();
    m.starts_at = 1_700_000_000_000;
    m.ends_at = 1_700_003_600_000;
    assert_eq!(
        invite_body_text_at(&m, 0, 3_600),
        "You are invited: Review\n\nWhen: Tue, Nov 14, 2023 at 22:13 - Wed, Nov 15, 2023 at \
         00:13\nWhere: Room 1\n\nAgenda\n"
    );
    let local = |ms: i64, format: &str| {
        chrono::TimeZone::timestamp_millis_opt(&chrono::Local, ms)
            .earliest()
            .unwrap()
            .format(format)
            .to_string()
    };
    let minute = "%a, %b %e, %Y at %H:%M";
    assert_eq!(
        invite_body_text(&m),
        invite_text_between(&m, &local(m.starts_at, minute), &local(m.ends_at, minute))
    );
    m.all_day = true;
    assert_eq!(
        invite_body_text_at(&m, -86_399, 0),
        "You are invited: Review\n\nWhen: Mon, Nov 13, 2023 - Tue, Nov 14, 2023\nWhere: Room 1\n\
         \nAgenda\n"
    );
    let day = "%a, %b %e, %Y";
    assert_eq!(
        invite_body_text(&m),
        invite_text_between(&m, &local(m.starts_at, day), &local(m.ends_at, day))
    );
    m.ends_at = i64::MAX;
    assert!(invite_body_text(&m).contains(" - \nWhere"));
}

#[test]
fn outlook_gets_the_link_to_join() {
    let some = |s: &str| Some(s.to_string());
    assert_eq!(
        outlook_body(&some("Agenda"), &some("https://j")).unwrap(),
        "Agenda<p><a href=\"https://j\">Join the meeting</a></p>"
    );
    assert_eq!(outlook_body(&some("Agenda"), &None).as_deref(), Some("Agenda"));
    assert_eq!(outlook_body(&some("  "), &None), None);
    assert_eq!(outlook_body(&None, &None), None);
}

#[test]
fn answers_go_to_the_organizer() {
    let me = account(Provider::Gmail);
    let answer = |word: &str| RsvpEventArgs { event_id: 3, response: word.to_string() };
    let plan = rsvp_event(&answer("tentative"), Some(&event(3, 1)), true, Some(&me)).unwrap();
    assert_eq!(plan.answer, Rsvp::Tentative);
    assert_eq!(plan.answer.as_partstat(), "TENTATIVE");
    let mail = plan.mail.unwrap();
    assert_eq!(mail.to, vec![address("boss@x.example")]);
    assert_eq!(mail.subject, "Tentative: E3");
    assert_eq!(mail.body_text, "me@x.example has responded tentative to: E3");
    let mut unnamed = event(3, 1);
    unnamed.organizer = Some(String::new());
    assert!(rsvp_event(&answer("accepted"), Some(&unnamed), true, Some(&me))
        .unwrap()
        .mail
        .is_none());
    let fails = |word: &str, e: Option<&CalendarEvent>, known: bool, a: Option<&Account>| {
        rsvp_event(&answer(word), e, known, a).unwrap_err()
    };
    let e = event(3, 1);
    assert_eq!(
        fails("maybe", Some(&e), true, Some(&me)),
        CoreError::Other("invalid RSVP response".to_string())
    );
    assert_eq!(
        fails("accepted", None, true, Some(&me)),
        CoreError::NotFound("event".to_string())
    );
    assert_eq!(
        fails("accepted", Some(&e), false, Some(&me)),
        CoreError::NotFound("event".to_string())
    );
    assert_eq!(
        fails("declined", Some(&e), true, None),
        CoreError::NotFound("account".to_string())
    );
}

#[test]
fn only_own_events_are_changed() {
    let mut stored = event(3, 1);
    stored.attendees = vec![EventAttendee {
        email: "a@x.example".to_string(),
        name: None,
        partstat: Some("DECLINED".to_string()),
    }];
    let update = update_event(&change(), Some(&stored)).unwrap();
    assert!(update.notifies);
    assert_eq!(update.attendees[0].partstat.as_deref(), Some("DECLINED"));
    stored.is_local = false;
    assert_eq!(
        update_event(&change(), Some(&stored)).unwrap_err(),
        CoreError::Other("only events you organize can be edited".to_string())
    );
    assert_eq!(
        update_event(&change(), None).unwrap_err(),
        CoreError::NotFound("event".to_string())
    );
    let me = account(Provider::Gmail);
    let (mail, invite) = update_notice(&change(), Some(&me), Some(&identity())).unwrap();
    assert_eq!(mail.subject, "Updated invitation: Review");
    assert_eq!((invite.uid.as_str(), invite.sequence), ("u1", 4));
    assert!(update_notice(&change(), None, Some(&identity())).is_err());
    assert!(update_notice(&change(), Some(&me), None).is_err());
}

#[test]
fn deleted_events_do_not_come_back() {
    let mut e = event(3, 100);
    assert_eq!(delete_event(Some(&e), true).unwrap().disposal, Disposal::Purge);
    e.message_id = Some(9);
    assert_eq!(delete_event(Some(&e), true).unwrap().disposal, Disposal::Tombstone);
    e.calendar_id = Some(2);
    e.attendees = vec![EventAttendee {
        email: "a@x.example".to_string(),
        name: None,
        partstat: None,
    }];
    let removal = delete_event(Some(&e), true).unwrap();
    assert_eq!(removal.disposal, Disposal::AwaitServer);
    assert_eq!(removal.disposal.push(), Some(CalPush::Delete));
    assert!(removal.notifies);
    assert!(!delete_event(Some(&e), false).unwrap().notifies);
    assert!(delete_event(None, true).is_err());
    e.ends_at = None;
    e.summary = None;
    let (mail, cancel) =
        cancel_notice(&e, Some(&account(Provider::Gmail)), Some(&identity())).unwrap();
    assert_eq!(mail.subject, "Cancelled: (no title)");
    assert_eq!(mail.body_text, "(no title) has been cancelled.");
    assert_eq!(cancel.sequence, 5);
    assert_eq!(cancel.ends_at_ms, 1_800_100);
    let draft = calendar_draft(1, mail, "/tmp/x.ics".to_string());
    assert_eq!(draft.mode, "new");
    assert_eq!(draft.attachments[0].filename, "invite.ics");
    assert_eq!(ics_file_name("t"), "invite-t.ics");
    assert!(calendar_send(5).send_at.is_none());
}

#[test]
fn calendars_are_connected_by_kind() {
    let args = |kind: &str, url: Option<&str>, password: Option<&str>| ConnectCalendarArgs {
        account_id: 1,
        kind: kind.to_string(),
        url: url.map(|s| s.to_string()),
        username: Some("me".to_string()),
        password: password.map(|s| s.to_string()),
    };
    let google = connection(&args("google", None, None), "https://g/").unwrap();
    assert_eq!((google.kind, google.base_url.as_str()), ("google", "https://g/"));
    assert_eq!(google.login, DavLogin::Bearer);
    let own = connection(&args("other", Some(" dav.x.example "), Some("pw")), "").unwrap();
    assert_eq!((own.kind, own.base_url.as_str()), ("generic", "https://dav.x.example"));
    assert_eq!(own.login, DavLogin::Basic("me".to_string(), "pw".to_string()));
    let plain = connection(&args("other", Some("http://dav"), Some("pw")), "").unwrap();
    assert_eq!(plain.base_url, "http://dav");
    assert_eq!(
        connection(&args("other", Some("  "), Some("pw")), "").unwrap_err(),
        CoreError::CalDav("server URL is required".to_string())
    );
    assert_eq!(
        connection(&args("other", Some("dav"), Some("")), "").unwrap_err(),
        CoreError::CalDav("password is required".to_string())
    );
}

#[test]
fn the_default_calendar_is_chosen_once() {
    let calendar = |id: i64, is_default: bool| StoredCalendar { id, is_default };
    let found = vec![calendar(1, false), calendar(2, true), calendar(3, true)];
    assert_eq!(default_to_set(&found, false), Some(2));
    assert_eq!(default_to_set(&found, true), None);
    assert_eq!(default_to_set(&vec![calendar(4, false), calendar(5, false)], false), Some(4));
    assert_eq!(default_to_set(&Vec::new(), false), None);
    assert!(check_google_account(Provider::Gmail).is_ok());
    assert!(check_google_account(Provider::Imap).is_err());
    assert!(check_microsoft_account(Provider::Microsoft).is_ok());
    assert!(check_microsoft_account(Provider::Gmail).is_err());
    assert!(check_found(1).is_ok() && check_found(0).is_err());
    assert!(matches!(after_token(Ok("t".to_string())), TokenStep::Use(t) if t == "t"));
    assert!(matches!(after_token(Err(CoreError::NeedsReauth)), TokenStep::WidenConsent));
    assert!(matches!(after_token(Err(CoreError::Offline)), TokenStep::Fail(CoreError::Offline)));
    assert_eq!(queued_push(CalPush::Put, false), None);
    assert_eq!(
        queued_push(CalPush::Put, true),
        Some(QueuedPush { kind: CalPush::Put, mark_dirty: true })
    );
    assert!(!queued_push(CalPush::Delete, true).unwrap().mark_dirty);
    assert_eq!(CalPush::Delete.as_str(), "cal_delete");
}

// -- accounts ----------------------------------------------------------------

#[test]
fn credentials_are_tried_before_they_are_stored() {
    let args = AddPasswordAccountArgs {
        email: "me@x.example".to_string(),
        display_name: None,
        username: "me".to_string(),
        password: "pw".to_string(),
        imap_host: "imap".to_string(),
        imap_port: 993,
        smtp_host: "smtp".to_string(),
        smtp_port: 587,
    };
    let probe = connection_test(Err("no route".to_string()));
    assert!(!probe.ok);
    assert_eq!(
        add_account_password(&args, probe).unwrap_err(),
        CoreError::Auth("no route".to_string())
    );
    assert_eq!(
        add_account_password(&args, ConnectionTestResult { ok: false, error: None }).unwrap_err(),
        CoreError::Auth("connection failed".to_string())
    );
    let row = add_account_password(&args, connection_test(Ok(()))).unwrap();
    assert_eq!(row.provider, Provider::Imap);
    assert_eq!((row.imap_port, row.smtp_port), (993, 587));
}

#[test]
fn signing_in_asks_for_what_the_provider_offers() {
    assert_eq!(
        sign_in_scopes(Provider::Microsoft),
        vec![ExtraScope::OnlineMeetings, ExtraScope::Calendars]
    );
    assert!(sign_in_scopes(Provider::Gmail).is_empty());
    assert_eq!(reauth_scopes(Provider::Microsoft), Ok(vec![ExtraScope::OnlineMeetings]));
    assert_eq!(reauth_scopes(Provider::Gmail), Ok(Vec::new()));
    assert_eq!(
        reauth_scopes(Provider::Imap),
        Err(CoreError::Auth("not an oauth provider".to_string()))
    );
    let servers = |host: &str| Servers {
        imap_host: host.to_string(),
        imap_port: 993,
        smtp_host: host.to_string(),
        smtp_port: 465,
    };
    let row = oauth_account(Provider::Microsoft, "m@x", servers("g"), servers("m")).unwrap();
    assert_eq!(row.imap_host, "m");
    assert_eq!(row.username, "m@x");
    assert!(oauth_account(Provider::Imap, "m@x", servers("g"), servers("m")).is_err());
    assert_eq!(sign_in_cancelled(), CoreError::Auth("sign-in cancelled".to_string()));
}

#[test]
fn tokens_stay_with_their_mailbox() {
    assert!(check_signed_in_as("ME@x.example", "me@x.example").is_ok());
    assert_eq!(
        check_signed_in_as("you@x.example", "me@x.example"),
        Err(CoreError::Auth(
            "signed in as you@x.example but this account is me@x.example".to_string()
        ))
    );
    assert_eq!(
        check_consent_of("you@x.example", "me@x.example"),
        Err(CoreError::Auth(
            "consent was granted for you@x.example - expected me@x.example".to_string()
        ))
    );
    assert_eq!(resume_after_reauth(true), Resume::SyncNow);
    assert_eq!(resume_after_reauth(false), Resume::Spawn);
    assert!(account_found(None).is_err());
    assert_eq!(account_found(Some(account(Provider::Gmail))).unwrap().id, 1);
}

#[test]
fn a_sync_fails_with_the_first_account_that_does() {
    assert_eq!(sync_targets(Some(2), &vec![1, 2]), Ok(vec![2]));
    assert_eq!(sync_targets(None, &vec![1, 2]), Ok(vec![1, 2]));
    assert_eq!(
        sync_targets(Some(9), &vec![1]),
        Err(CoreError::NotFound("account 9".to_string()))
    );
    assert_eq!(sync_outcome(&vec![SyncReply::Done, SyncReply::Done]), Ok(()));
    assert_eq!(
        sync_outcome(&vec![SyncReply::Done, SyncReply::TimedOut, SyncReply::ActorStopped]),
        Err(CoreError::Other("Inbox sync timed out".to_string()))
    );
    assert_eq!(
        sync_outcome(&vec![SyncReply::ActorStopped]),
        Err(CoreError::Other("sync actor stopped".to_string()))
    );
    assert_eq!(
        sync_outcome(&vec![SyncReply::Failed("boom".to_string())]),
        Err(CoreError::Other("boom".to_string()))
    );
}

#[test]
fn own_registrations_come_from_the_settings() {
    let mut s = Settings::with_builtin(&BuiltinModels {
        ai_base_url: String::new(),
        ai_model: String::new(),
        embedding_model: String::new(),
    });
    s.google_client_id = "g".to_string();
    s.ms_client_secret = "m".to_string();
    let (google, microsoft) = apply_oauth_settings(&s);
    assert_eq!((google.provider, google.client_id.as_str()), (Provider::Gmail, "g"));
    assert_eq!(microsoft.client_secret, "m");
}

// -- the host ----------------------------------------------------------------

#[test]
fn mail_links_are_recognised() {
    assert!(is_mailto("mailto:a@x"));
    assert!(is_mailto("  MailTo:a@x"));
    assert!(!is_mailto("https://mailto:"));
    assert!(!is_mailto("mailto"));
    let args = vec!["comail".to_string(), "MAILTO:a@x".to_string(), "mailto:b@x".to_string()];
    assert_eq!(mailto_from_args(&args).as_deref(), Some("MAILTO:a@x"));
    assert_eq!(mailto_from_args(&vec!["comail".to_string()]), None);
}

#[test]
fn a_link_is_handed_on_once() {
    let mut gate = LinkGate::new();
    assert!(!gate.forward_mailto("https://x", 0));
    assert!(gate.forward_mailto("mailto:a@x", 0));
    assert!(!gate.forward_mailto("mailto:a@x", 1_499));
    assert!(gate.forward_mailto("mailto:b@x", 1_499));
    assert!(gate.forward_mailto("mailto:a@x", 1_500));
    assert!(!gate.forward_mailto("mailto:a@x", 2_999));
    assert!(gate.forward_mailto("mailto:a@x", 3_000));
}

#[test]
fn outside_links_leave_the_app() {
    assert!(opens_outside("https", "example.com"));
    assert!(opens_outside("mailto", ""));
    assert!(!opens_outside("https", "localhost"));
    assert!(!opens_outside("http", "tauri.localhost"));
    assert!(!opens_outside("http", "a.localhost"));
    assert!(!opens_outside("https", ""));
    assert!(!opens_outside("tauri", "example.com"));
}

#[test]
fn languages_are_resolved() {
    assert_eq!(resolve_lang("fr", Some("de_DE")), "fr");
    assert_eq!(resolve_lang("system", Some("de_DE.UTF-8")), "de");
    assert_eq!(resolve_lang("", Some("vi")), "vi");
    assert_eq!(resolve_lang("", Some("_x")), "en");
    assert_eq!(resolve_lang("system", None), "en");
    assert_eq!(tray_labels("es"), ("Abrir Comail".to_string(), "Salir Comail".to_string()));
    assert_eq!(tray_labels("zh").0, "打开 Comail");
    assert_eq!(tray_labels("de"), ("Open Comail".to_string(), "Quit Comail".to_string()));
}

#[test]
fn the_renderer_suits_the_machine() {
    let machine = Graphics {
        chosen: false,
        wayland_display: true,
        wayland_session: false,
        nvidia_proprietary: true,
        gbm_backend_set: true,
        glx_vendor_set: false,
    };
    assert_eq!(
        choose_renderer(machine),
        Renderer::Nvidia { set_gbm_backend: false, set_glx_vendor: true }
    );
    assert_eq!(
        choose_renderer(Graphics { nvidia_proprietary: false, ..machine }),
        Renderer::WithoutDmabuf
    );
    assert_eq!(choose_renderer(Graphics { chosen: true, ..machine }), Renderer::AsSet);
    assert!(rotates_log(Some(5_242_881)));
    assert!(!rotates_log(Some(5_242_880)));
    assert!(!rotates_log(None));
}

// -- starting ----------------------------------------------------------------

#[test]
fn migrations_run_once_and_in_order() {
    assert_eq!(pending_migrations(17, 20), vec![18, 19, 20]);
    assert_eq!(pending_migrations(0, 3), vec![1, 2, 3]);
    assert!(pending_migrations(20, 20).is_empty());
    assert!(pending_migrations(25, 20).is_empty());
}

#[test]
fn migration_020_clears_only_the_selective_fetch_failures() {
    let failures = vec![
        ("content", Some(1), "imap error: server omitted selective content for UID 832"),
        ("content", Some(2), "mime error: invalid Base64 selective MIME section"),
        ("content", Some(3), "imap error: mailbox is locked by another session"),
        ("header", None, "imap error: server omitted selective content for UID 99"),
    ];
    let remaining: Vec<(&str, Option<i64>)> = failures
        .into_iter()
        .filter(|(stage, _, error)| !forgets_failure(stage, error))
        .map(|(stage, message, _)| (stage, message))
        .collect();
    assert_eq!(remaining, vec![("content", Some(3)), ("header", None)]);
}

#[test]
fn a_crash_leaves_nothing_stuck() {
    assert_eq!(recovered_body_state("fetching"), "none");
    assert_eq!(recovered_body_state("cached"), "cached");
    assert_eq!(routing_backfill(false, true, 3), Backfill { routes: true, marks: true });
    assert_eq!(routing_backfill(false, true, 0), Backfill { routes: false, marks: true });
    assert_eq!(routing_backfill(true, true, 3), Backfill { routes: false, marks: false });
    assert!(routes_on(Some(2)) && !routes_on(Some(0)) && !routes_on(None));
}

#[test]
fn notifications_wait_a_day_at_most() {
    assert_eq!(notification_retry_at(1_000, 500), 1_500);
    assert_eq!(notification_retry_at(1_000, -5), 1_000);
    assert_eq!(notification_retry_at(1_000, i64::MAX), 86_401_000);
    assert_eq!(notification_retry_at(i64::MAX - 1, 500), i64::MAX);
}
