use comail_core::ai::{
    add_sources, after_round, ai_status, api_key, ask_citations, build_example_pair,
    embedding_status, key_to_store, nothing_found, plan_without_request, reply_voice,
    resolve_ai_model, run_search_inbox, search_call, search_reply, searches_by_meaning,
    settled_answer, tool_call, uses_voice, voice_examples, voice_samples, Ask, AskStage, AskStep,
    RoundOutcome, Scenario, SearchCall,
};
use comail_core::automation::{
    actions_of_choice, any_takes_part, category_tab, classifies, local_outcome, mailbox_action,
    read_route, relabeled_threads, reorder_tabs, splits_moved, valid_automation_route, Annotation,
    Classifier, Question, Reply, RouteTarget, TabRow,
};
use comail_core::dict::Dict;
use comail_core::error::CoreError;
use comail_core::models::{
    ActionKind, Address, AiAutomationAction, AiAutomationRule, BuiltinModels, MessageDetail,
    Settings,
};
use comail_core::routing::{reset_routing, threads_to_route, RoutingState, BACKFILL_MARK};

fn defaults() -> Settings {
    Settings::with_builtin(&BuiltinModels {
        ai_base_url: "https://api.example/v1".to_string(),
        ai_model: "base".to_string(),
        embedding_model: "small".to_string(),
    })
}

fn detail(id: i64, subject: &str, text: Option<&str>) -> MessageDetail {
    MessageDetail {
        id,
        thread_id: 1,
        account_id: 1,
        from: Address { name: Some(format!("N{id}")), email: format!("a{id}@x.example") },
        to: Vec::new(),
        cc: Vec::new(),
        subject: subject.to_string(),
        date: id,
        is_read: true,
        is_starred: false,
        is_draft: false,
        is_outgoing: false,
        snippet: format!("snippet {id}"),
        body_state: "cached".to_string(),
        text_body: text.map(|t| t.to_string()),
        html_body: None,
        automation_note: None,
        attachments: Vec::new(),
        list_unsubscribe: None,
        list_unsubscribe_post: None,
        via: None,
        send_state: None,
        send_error: None,
    }
}

fn action(kind: &str, value: &str) -> AiAutomationAction {
    AiAutomationAction { kind: kind.to_string(), value: value.to_string() }
}

fn rule(id: &str, enabled: bool, actions: Vec<AiAutomationAction>) -> AiAutomationRule {
    AiAutomationRule {
        id: id.to_string(),
        name: id.to_string(),
        source_prompt: String::new(),
        instruction: String::new(),
        enabled,
        actions,
    }
}

// -- models ------------------------------------------------------------------

#[test]
fn blank_tier_falls_back_to_legacy_model() {
    let mut s = defaults();
    s.ai_model = "legacy".to_string();
    for sc in [Scenario::Ask, Scenario::Draft, Scenario::Summarize, Scenario::Voice] {
        assert_eq!(resolve_ai_model(&s, sc), "legacy");
    }
}

#[test]
fn each_scenario_uses_its_tier_model() {
    let mut s = defaults();
    s.ai_model = "legacy".to_string();
    s.ai_model_instant = "fast".to_string();
    s.ai_model_cheap = "mid".to_string();
    s.ai_model_intelligent = "smart".to_string();
    assert_eq!(resolve_ai_model(&s, Scenario::Ask), "smart");
    assert_eq!(resolve_ai_model(&s, Scenario::Draft), "smart");
    assert_eq!(resolve_ai_model(&s, Scenario::Summarize), "fast");
    assert_eq!(resolve_ai_model(&s, Scenario::Voice), "mid");
}

#[test]
fn scenario_can_be_repointed_to_another_tier() {
    let mut s = defaults();
    s.ai_model = "legacy".to_string();
    s.ai_model_instant = "fast".to_string();
    s.ai_tier_ask = "instant".to_string();
    assert_eq!(resolve_ai_model(&s, Scenario::Ask), "fast");
}

#[test]
fn commands_and_replies_take_the_fastest_model() {
    let mut s = defaults();
    s.ai_model_instant = "fast".to_string();
    assert_eq!(resolve_ai_model(&s, Scenario::Command), "fast");
    assert_eq!(resolve_ai_model(&s, Scenario::QuickReply), "fast");
    assert_eq!(Scenario::Categorize.as_str(), "automation");
    assert_eq!(Scenario::QuickReply.as_str(), "quick_reply");
}

#[test]
fn hosted_models_need_a_key() {
    assert_eq!(api_key(Some("k".to_string()), "https://x"), Ok("k".to_string()));
    assert_eq!(api_key(None, "http://localhost:1234"), Ok(String::new()));
    assert_eq!(api_key(None, "https://x"), Err(CoreError::AiNotConfigured));
    assert_eq!(key_to_store("  k "), Some("k".to_string()));
    assert_eq!(key_to_store("  "), None);
    let mut s = defaults();
    assert!(!ai_status(&s, false).configured);
    assert!(ai_status(&s, true).configured);
    s.ai_base_url = "http://localhost".to_string();
    assert!(ai_status(&s, false).configured);
    s.voice_profile = "terse".to_string();
    s.voice_drafting = true;
    assert_eq!(reply_voice(&s), "terse");
    assert!(uses_voice(None, &s) && !uses_voice(Some(false), &s));
    s.voice_drafting = false;
    assert_eq!(reply_voice(&s), "");
}

#[test]
fn an_empty_request_has_no_plan() {
    let plan = plan_without_request("  ").unwrap();
    assert!(!plan.supported);
    assert_eq!(plan.issues, vec!["Describe the emails to match and what Comail should do."]);
    assert!(plan_without_request("archive newsletters").is_none());
}

// -- the user's voice --------------------------------------------------------

#[test]
fn a_voice_is_learned_from_sent_mail() {
    assert!(voice_samples(&Vec::new()).is_err());
    let samples = voice_samples(&vec![(1, "Plans".to_string(), "See you".to_string())]).unwrap();
    assert_eq!(samples, vec!["Subject: Plans\nSee you"]);
}

#[test]
fn an_example_pairs_a_reply_with_what_came_before() {
    let thread = vec![
        detail(1, "Lunch?", Some("Are you free?")),
        detail(2, "Re: Lunch?", None),
        detail(3, "Re: Lunch?", Some("Yes!")),
    ];
    let (incoming, reply) = build_example_pair(&thread[2], &thread).unwrap();
    assert_eq!(incoming, "Subject: Re: Lunch?\nFrom: a2@x.example\nsnippet 2");
    assert_eq!(reply, "Yes!");
    let (incoming, _) = build_example_pair(&thread[0], &thread).unwrap();
    assert_eq!(incoming, "(Compose a new email. Subject: Lunch?)");
    assert!(build_example_pair(&thread[1], &thread).is_none());
    assert!(build_example_pair(&detail(9, "x", Some("  ")), &thread).is_none());
}

#[test]
fn examples_fall_back_to_recent_mail() {
    let pair = |a: &str| Some((a.to_string(), a.to_string()));
    let recent = vec![(1, "Hi".to_string(), "body".to_string())];
    let found = voice_examples(&vec![pair("a"), None, pair("b"), pair("c")], 2, &recent);
    assert_eq!(found.iter().map(|p| p.0.as_str()).collect::<Vec<_>>(), vec!["a", "b"]);
    let fallback = voice_examples(&vec![None], 2, &recent);
    assert_eq!(
        fallback,
        vec![("(Compose a new email. Subject: Hi)".to_string(), "body".to_string())]
    );
}

// -- asking ------------------------------------------------------------------

#[test]
fn the_model_may_search_four_rounds() {
    for round in 0..3 {
        assert!(matches!(after_round(round, RoundOutcome::Tools), AskStep::NextRound));
    }
    assert!(matches!(after_round(3, RoundOutcome::Tools), AskStep::PlainAnswer));
    assert!(matches!(after_round(0, RoundOutcome::Failed), AskStep::PlainAnswer));
    assert!(matches!(
        after_round(0, RoundOutcome::Content(" ".to_string())),
        AskStep::PlainAnswer
    ));
    assert!(matches!(
        after_round(0, RoundOutcome::Content("yes".to_string())),
        AskStep::Answer(t) if t == "yes"
    ));
}

#[test]
fn no_answer_is_blank() {
    assert_eq!(
        settled_answer(" \n".to_string()),
        "I couldn't find an answer to that in your mailbox."
    );
    assert_eq!(settled_answer("42".to_string()), "42");
    assert!(nothing_found().citations.is_empty());
    assert!(!searches_by_meaning("ab"));
    assert!(searches_by_meaning("äöü"));
}

#[test]
fn a_question_ends_with_an_answer_and_its_sources() {
    assert!(Ask::begin(Vec::new()).is_none());
    let mut ask = Ask::begin(vec![detail(1, "a", None)]).unwrap();
    add_sources(&mut ask.sources, vec![detail(2, "b", None)]);
    for _ in 0..4 {
        assert!(matches!(ask.stage, AskStage::Round(_)));
        ask.round(RoundOutcome::Tools);
    }
    assert!(matches!(ask.stage, AskStage::Plain));
    ask.plain("  ".to_string());
    let result = ask.finish();
    assert_eq!(result.answer, "I couldn't find an answer to that in your mailbox.");
    assert_eq!(result.citations.iter().map(|c| c.message_id).collect::<Vec<_>>(), vec![1, 2]);
    let mut ask = Ask::begin(vec![detail(1, "a", None)]).unwrap();
    ask.round(RoundOutcome::Content("It is 42 [1].".to_string()));
    assert_eq!(ask.finish().answer, "It is 42 [1].");
}

#[test]
fn searches_are_bounded() {
    assert!(matches!(
        search_call("  ", None, 0),
        SearchCall::Refused(t) if t == "(empty query - nothing searched)"
    ));
    assert!(matches!(
        search_call("x", None, 24),
        SearchCall::Refused(t) if t == "Source limit reached; answer with what you already have."
    ));
    let limit = |asked: Option<u64>| match search_call(" tax ", asked, 0) {
        SearchCall::Search { query, limit } => (query, limit),
        SearchCall::Refused(t) => panic!("{t}"),
    };
    assert_eq!(limit(None), ("tax".to_string(), 6));
    assert_eq!(limit(Some(0)).1, 1);
    assert_eq!(limit(Some(99)).1, 8);
    assert_eq!(search_reply("tax", 0, ""), "No new results for \"tax\".");
    assert_eq!(search_reply("tax", 1, "[1] x"), "Results for \"tax\":\n\n[1] x");
}

#[test]
fn sources_are_numbered_once() {
    let mut sources = vec![detail(1, "a", None), detail(2, "b", None)];
    let added = add_sources(
        &mut sources,
        vec![detail(2, "b", None), detail(3, "c", None), detail(3, "c", None)],
    );
    assert_eq!(added, 1);
    assert_eq!(sources.iter().map(|s| s.id).collect::<Vec<_>>(), vec![1, 2, 3]);
    let many = (10..60).map(|i| detail(i, "x", None)).collect();
    assert_eq!(add_sources(&mut sources, many), 21);
    assert_eq!(sources.len(), 24);
    let citations = ask_citations(&sources);
    assert_eq!(citations.len(), 24);
    assert_eq!(citations[2].message_id, 3);
    assert_eq!(citations[0].from, "N1");
}

// -- automation --------------------------------------------------------------

#[test]
fn rules_run_in_the_users_order() {
    let rules = vec![
        rule("a", true, vec![action("star", ""), action("mark_read", "")]),
        rule("b", false, vec![action("trash", "")]),
        rule("c", true, vec![action("archive", "")]),
    ];
    let ids = vec!["c".to_string(), "b".to_string(), "a".to_string(), "zz".to_string()];
    let kinds: Vec<String> =
        actions_of_choice(&rules, &ids).into_iter().map(|a| a.kind).collect();
    assert_eq!(kinds, vec!["star", "mark_read", "archive"]);
    assert!(any_takes_part(&rules));
    assert!(!any_takes_part(&vec![rule("x", true, Vec::new()), rule("y", false, Vec::new())]));
}

#[test]
fn a_sender_is_asked_about_once_per_pass() {
    let mut cache: Dict<Option<String>> = Dict::new();
    cache.insert("known.example".to_string(), Some("news".to_string()));
    let mut pass = Classifier::begin(Vec::new(), cache);
    assert_eq!(pass.question("known.example"), Question::Nothing);
    pass.settle(1, "known.example", Reply::Known);
    assert_eq!(pass.question("new.example"), Question::Category);
    pass.settle(2, "new.example", Reply::Failed);
    assert_eq!(pass.question("new.example"), Question::Category);
    pass.settle(3, "new.example", Reply::Category(None));
    assert_eq!(pass.question("new.example"), Question::Nothing);
    pass.settle(4, "new.example", Reply::Known);
    let ids: Vec<i64> = pass.resolved.iter().map(|r| r.thread_id).collect();
    assert_eq!(ids, vec![1, 3, 4]);
    assert_eq!(pass.resolved[0].category.as_deref(), Some("news"));
    assert_eq!(pass.cache_writes, vec![("new.example".to_string(), String::new())]);
}

#[test]
fn compound_rules_are_asked_for_every_message() {
    let rules = vec![rule("a", true, vec![action("add_label", "7")])];
    let mut cache: Dict<Option<String>> = Dict::new();
    cache.insert("known.example".to_string(), None);
    let mut pass = Classifier::begin(rules, cache);
    assert_eq!(pass.question("known.example"), Question::Rules);
    pass.settle(
        1,
        "known.example",
        Reply::Rules { category: Some("bills".to_string()), rule_ids: vec!["a".to_string()] },
    );
    assert_eq!(pass.resolved[0].actions.len(), 1);
    assert!(pass.cache_writes.is_empty());
    assert_eq!(relabeled_threads(&pass.resolved), vec![1]);
}

#[test]
fn automations_map_to_mailbox_actions() {
    assert_eq!(mailbox_action(&action("star", "")), Some((ActionKind::Star, None)));
    let (kind, params) = mailbox_action(&action("remove_label", "12")).unwrap();
    assert_eq!(kind, ActionKind::RemoveLabel);
    assert_eq!(params.unwrap().label_id, Some(12));
    assert_eq!(mailbox_action(&action("add_label", "x")), None);
    assert_eq!(mailbox_action(&action("delete_everything", "")), None);
}

#[test]
fn annotations_are_put_together() {
    let actions = vec![
        action("route_to", "important"),
        action("subject_prefix", "[A] "),
        action("subject_prefix", "[B] "),
        action("body_note", " first "),
        action("body_note", "second"),
        action("body_note", "  "),
        action("route_to", "label:9"),
    ];
    let valid = vec![true, false, false, false, false, false, false];
    let outcome = local_outcome(&actions, &valid);
    assert_eq!(outcome.routes, vec!["important"]);
    let a = outcome.annotation.unwrap();
    assert_eq!(a.subject_prefix, "[A] [B] ");
    assert_eq!(a.body_note, "first\n\nsecond");
    assert!(local_outcome(&vec![action("star", "")], &vec![false]).annotation.is_none());
}

#[test]
fn routes_lead_to_tabs_that_exist() {
    assert_eq!(read_route("important"), RouteTarget::Builtin);
    assert_eq!(read_route("split:4"), RouteTarget::Split(4));
    assert_eq!(read_route("label:-2"), RouteTarget::Label(-2));
    assert_eq!(read_route("label:x"), RouteTarget::Nowhere);
    assert_eq!(read_route("trash"), RouteTarget::Nowhere);
    assert!(valid_automation_route("other", false));
    assert!(valid_automation_route("split:4", true));
    assert!(!valid_automation_route("split:4", false));
    assert!(!valid_automation_route("nowhere", true));
    assert_eq!(category_tab(Some(4)).as_deref(), Some("label:4"));
    assert_eq!(category_tab(None), None);
}

#[test]
fn tabs_share_one_order() {
    let order = vec![
        ("split".to_string(), 5),
        ("other".to_string(), 1),
        ("label".to_string(), 7),
    ];
    assert_eq!(reorder_tabs(&order), vec![(TabRow::Split(5), 0), (TabRow::Label(7), 2)]);
    assert!(splits_moved(&vec![1, 2], &vec![2, 1]));
    assert!(splits_moved(&vec![1], &vec![]));
    assert!(!splits_moved(&vec![1, 2], &vec![1, 2]));
}

#[test]
fn rerouting_forgets_decisions_and_keeps_the_users_labels() {
    let state = RoutingState {
        decisions: vec![
            ("shop.example".to_string(), "news".to_string()),
            (BACKFILL_MARK.to_string(), "1".to_string()),
        ],
        labels: vec![(1, 10), (1, 20), (2, 10)],
        tabs: vec![(7, Some("label:10".to_string())), (8, None)],
        notes: vec![(
            1,
            Annotation { subject_prefix: "[x] ".to_string(), body_note: "note".to_string() },
        )],
    };
    let reset = reset_routing(&state, &vec![10]);
    assert_eq!(reset.decisions, vec![("__routing_backfill__".to_string(), "1".to_string())]);
    assert_eq!(reset.labels, vec![(1, 20)]);
    assert_eq!(reset.tabs, vec![(7, None), (8, None)]);
    assert_eq!(reset.notes.len(), 1);
    assert_eq!(reset.notes[0].0, 1);
    assert_eq!(reset.notes[0].1.subject_prefix, "");
    assert_eq!(reset.notes[0].1.body_note, "");
    let again = reset_routing(&reset, &vec![10]);
    assert_eq!(again.decisions, reset.decisions);
    assert_eq!(again.labels, reset.labels);
    assert_eq!(again.tabs, reset.tabs);
    assert_eq!(threads_to_route(true, vec![3, 1]), vec![3, 1]);
    assert!(threads_to_route(false, vec![3, 1]).is_empty());
}

#[test]
fn the_index_is_ready_with_the_model_that_is_set() {
    let mut settings = defaults();
    settings.embedding_backend = "local".to_string();
    let s = embedding_status(&settings, "small".to_string(), (9, 4, 5), Some("small"));
    assert!(s.enabled && s.ready);
    assert_eq!((s.total, s.embedded, s.pending), (9, 4, 5));
    assert_eq!(s.model, "small");
    assert!(!embedding_status(&settings, "small".to_string(), (9, 4, 5), Some("big")).ready);
    assert!(!embedding_status(&settings, "small".to_string(), (9, 4, 5), None).ready);
    settings.embedding_backend = "off".to_string();
    assert!(!embedding_status(&settings, "small".to_string(), (0, 0, 0), None).enabled);
}

#[test]
fn tools_that_are_not_there_are_refused_by_name() {
    assert!(matches!(
        tool_call("send_mail", "x", None, 0),
        SearchCall::Refused(text) if text == "Unknown tool: send_mail"
    ));
    assert!(matches!(
        tool_call("search_inbox", " x ", None, 0),
        SearchCall::Search { query, limit: 6 } if query == "x"
    ));
    assert!(matches!(tool_call("search_inbox", "  ", None, 0), SearchCall::Refused(_)));
}

#[test]
fn searches_are_read_from_what_the_model_wrote() {
    let asked = |arguments: &str| match run_search_inbox("search_inbox", arguments, 0) {
        SearchCall::Search { query, limit } => Ok((query, limit)),
        SearchCall::Refused(text) => Err(text),
    };
    let found = |query: &str, limit: u64| Ok((query.to_string(), limit));
    let empty = Err("(empty query - nothing searched)".to_string());
    assert_eq!(asked(r#"{"query": " invoice\u0020May ", "limit": 3}"#), found("invoice May", 3));
    assert_eq!(asked(r#"{"query": "x"}"#), found("x", 6));
    assert_eq!(asked(r#"{"query": "x", "limit": 0}"#), found("x", 1));
    assert_eq!(asked(r#"{"query": "x", "limit": 99}"#), found("x", 8));
    assert_eq!(asked(r#"{"query": "x", "limit": -2}"#), found("x", 6));
    assert_eq!(asked(r#"{"query": "x", "limit": "3"}"#), found("x", 6));
    assert_eq!(asked(r#"{"query": "x", "query": "y"}"#), found("y", 6));
    assert_eq!(asked("{}"), empty);
    assert_eq!(asked(r#"{"query": 7}"#), empty);
    assert_eq!(asked(r#"["query"]"#), empty);
    assert_eq!(asked("query: x"), empty);
    assert!(matches!(
        run_search_inbox("search_inbox", r#"{"query": "x"}"#, 24),
        SearchCall::Refused(text) if text.starts_with("Source limit reached")
    ));
    assert!(matches!(
        run_search_inbox("delete_all", "{}", 0),
        SearchCall::Refused(text) if text == "Unknown tool: delete_all"
    ));
}

#[test]
fn mail_is_sorted_only_where_that_is_wanted_and_possible() {
    let mut settings = defaults();
    settings.ai_categorize = false;
    assert!(!classifies(&settings, true));
    settings.ai_categorize = true;
    assert!(classifies(&settings, true));
    assert!(!classifies(&settings, false));
    settings.ai_base_url = "http://localhost:1234/v1".to_string();
    assert!(classifies(&settings, false));
}
