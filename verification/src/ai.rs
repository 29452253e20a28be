//! The model's part: which one is asked for what, and how answers are put
//! together from the mailbox.

use vstd::prelude::*;

use crate::error::{CoreError, ErrorView};
use crate::lists::{lemma_ends, lemma_pushed};
use crate::json::{number_of_key, json_number, json_text, text_of_key};
use crate::models::{
    AiAutomationPlan, AiStatus, AskCitation, AskResult, EmbeddingStatus, MessageDetail, Settings,
};
use crate::text::{
    blank, concat2, concat3, is_blank, opt_text, owned, starts_with, starts_with_str,
    texts, trim, trim_str,
};

verus! {

// ---------------------------------------------------------------------------
// Models
// ---------------------------------------------------------------------------

/// An AI feature, each routed to a configurable model tier.
#[derive(Debug, Clone, Copy, PartialEq, Eq, Structural)]
pub enum Scenario {
    /// Ask-your-inbox agentic Q&A.
    Ask,
    /// Drafting / rewriting replies.
    Draft,
    /// Thread summaries.
    Summarize,
    /// Learning the user's writing voice.
    Voice,
    /// Palette natural-language commands (tiny prompt, latency-sensitive).
    Command,
    /// One-tap quick-reply chips (tiny output, latency-sensitive).
    QuickReply,
    /// Sorting incoming mail into categories at sync (short prompt, per-email).
    Categorize,
}

impl Scenario {
    /// The name under which the use of the model is recorded.
    pub open spec fn name(self) -> Seq<char> {
        match self {
            Scenario::Ask => "ask"@,
            Scenario::Draft => "draft"@,
            Scenario::Summarize => "summarize"@,
            Scenario::Voice => "voice"@,
            Scenario::Command => "command"@,
            Scenario::QuickReply => "quick_reply"@,
            Scenario::Categorize => "automation"@,
        }
    }

    pub fn as_str(self) -> (r: &'static str)
        ensures
            r@ == self.name(),
    {
        match self {
            Scenario::Ask => "ask",
            Scenario::Draft => "draft",
            Scenario::Summarize => "summarize",
            Scenario::Voice => "voice",
            Scenario::Command => "command",
            Scenario::QuickReply => "quick_reply",
            Scenario::Categorize => "automation",
        }
    }

    /// The tier of the feature. Parsing commands and offering replies want the
    /// fastest model there is; the others are configured.
    pub open spec fn tier(self, settings: Settings) -> Seq<char> {
        match self {
            Scenario::Ask => settings.ai_tier_ask@,
            Scenario::Draft => settings.ai_tier_draft@,
            Scenario::Summarize => settings.ai_tier_summarize@,
            Scenario::Voice => settings.ai_tier_voice@,
            Scenario::Categorize => settings.ai_tier_categorize@,
            Scenario::Command => "instant"@,
            Scenario::QuickReply => "instant"@,
        }
    }
}

/// The model of a tier as configured; that of no tier is the one model of
/// older settings.
pub open spec fn tier_model(settings: Settings, tier: Seq<char>) -> Seq<char> {
    if tier == "instant"@ {
        settings.ai_model_instant@
    } else if tier == "cheap"@ {
        settings.ai_model_cheap@
    } else if tier == "intelligent"@ {
        settings.ai_model_intelligent@
    } else {
        settings.ai_model@
    }
}

/// The model that a feature uses.
pub open spec fn model_of(settings: Settings, scenario: Scenario) -> Seq<char> {
    let picked = tier_model(settings, scenario.tier(settings));
    if is_blank(picked) {
        settings.ai_model@
    } else {
        picked
    }
}

/// The model is that of the tier, where one is set for it, and the one model of
/// older settings where not.
pub open spec fn follows_tier(settings: Settings, tier: Seq<char>, model: Seq<char>) -> bool {
    &&& tier == "instant"@ && !is_blank(settings.ai_model_instant@) ==> model
        == settings.ai_model_instant@
    &&& tier == "cheap"@ && !is_blank(settings.ai_model_cheap@) ==> model == settings.ai_model_cheap@
    &&& tier == "intelligent"@ && !is_blank(settings.ai_model_intelligent@) ==> model
        == settings.ai_model_intelligent@
    &&& tier == "instant"@ && is_blank(settings.ai_model_instant@) ==> model == settings.ai_model@
    &&& tier == "cheap"@ && is_blank(settings.ai_model_cheap@) ==> model == settings.ai_model@
    &&& tier == "intelligent"@ && is_blank(settings.ai_model_intelligent@) ==> model
        == settings.ai_model@
    &&& tier != "instant"@ && tier != "cheap"@ && tier != "intelligent"@ ==> model
        == settings.ai_model@
}

/// Each feature uses the tier that the user has set for it; commands and quick
/// replies use the fastest. A tier without a model falls back to the one model of
/// older settings.
pub proof fn features_use_their_own_tier(settings: Settings, scenario: Scenario)
    ensures
        ({
            let model = model_of(settings, scenario);
            &&& scenario is Ask ==> follows_tier(settings, settings.ai_tier_ask@, model)
            &&& scenario is Draft ==> follows_tier(settings, settings.ai_tier_draft@, model)
            &&& scenario is Summarize ==> follows_tier(settings, settings.ai_tier_summarize@, model)
            &&& scenario is Voice ==> follows_tier(settings, settings.ai_tier_voice@, model)
            &&& scenario is Categorize ==> follows_tier(
                settings,
                settings.ai_tier_categorize@,
                model,
            )
            &&& scenario is Command || scenario is QuickReply ==> follows_tier(
                settings,
                "instant"@,
                model,
            )
        }),
{
    reveal_strlit("instant");
    reveal_strlit("cheap");
    reveal_strlit("intelligent");
    assert("instant"@.len() == 7 && "cheap"@.len() == 5 && "intelligent"@.len() == 11);
}

/// Resolve the model id a scenario should use: its configured tier's model, or
/// the legacy single `ai_model` when that tier is left blank.
pub fn resolve_ai_model(settings: &Settings, scenario: Scenario) -> (r: String)
    ensures
        r@ == model_of(*settings, scenario),
{
    let tier: &str = match scenario {
        Scenario::Ask => settings.ai_tier_ask.as_str(),
        Scenario::Draft => settings.ai_tier_draft.as_str(),
        Scenario::Summarize => settings.ai_tier_summarize.as_str(),
        Scenario::Voice => settings.ai_tier_voice.as_str(),
        Scenario::Categorize => settings.ai_tier_categorize.as_str(),
        Scenario::Command => "instant",
        Scenario::QuickReply => "instant",
    };
    let picked: &String = if tier.eq("instant") {
        &settings.ai_model_instant
    } else if tier.eq("cheap") {
        &settings.ai_model_cheap
    } else if tier.eq("intelligent") {
        &settings.ai_model_intelligent
    } else {
        &settings.ai_model
    };
    if blank(picked.as_str()) {
        settings.ai_model.clone()
    } else {
        picked.clone()
    }
}

/// A model on this machine, which needs no key.
pub open spec fn is_local_endpoint(base_url: Seq<char>) -> bool {
    starts_with(base_url, "http://"@)
}

/// The key that the endpoint is called with. Local endpoints need none; hosted
/// ones do.
pub fn api_key(stored: Option<String>, base_url: &str) -> (r: Result<String, CoreError>)
    ensures
        r is Err <==> stored is None && !is_local_endpoint(base_url@),
        r is Err ==> (r->Err_0)@ == ErrorView::AiNotConfigured,
        r matches Ok(k) ==> k@ == (match stored {
            Some(s) => s@,
            None => Seq::<char>::empty(),
        }),
        stored is Some ==> r is Ok && r->Ok_0@ == stored->0@,
        stored is None ==> (r is Ok <==> starts_with(base_url@, "http://"@)),
{
    match stored {
        Some(k) => Ok(k),
        None => {
            if starts_with_str(base_url, "http://") {
                Ok(String::new())
            } else {
                Err(CoreError::AiNotConfigured)
            }
        },
    }
}

/// What is stored of an entered key; none where the key is taken away.
pub fn key_to_store(entered: &str) -> (r: Option<String>)
    ensures
        opt_text(r) == (if is_blank(entered@) {
            None
        } else {
            Some(trim(entered@))
        }),
{
    if blank(entered) {
        None
    } else {
        Some(trim_str(entered))
    }
}

pub fn ai_status(settings: &Settings, has_key: bool) -> (r: AiStatus)
    ensures
        r.configured == (has_key || is_local_endpoint(settings.ai_base_url@)),
        r.configured <==> has_key || starts_with(settings.ai_base_url@, "http://"@),
        r.model@ == settings.ai_model@,
        r.base_url@ == settings.ai_base_url@,
{
    AiStatus {
        configured: has_key || starts_with_str(settings.ai_base_url.as_str(), "http://"),
        model: settings.ai_model.clone(),
        base_url: settings.ai_base_url.clone(),
    }
}

/// The plan for a request that says nothing; none where the model is to be
/// asked.
pub fn plan_without_request(prompt: &str) -> (r: Option<AiAutomationPlan>)
    ensures
        r is Some <==> is_blank(prompt@),
        r matches Some(p) ==> {
            &&& !p.supported
            &&& p.name@.len() == 0
            &&& p.instruction@.len() == 0
            &&& p.actions@.len() == 0
            &&& p.summary@.len() == 0
            &&& texts(p.issues@) == seq![
                "Describe the emails to match and what Comail should do."@,
            ]
        },
{
    if !blank(prompt) {
        return None;
    }
    let mut issues: Vec<String> = Vec::new();
    issues.push(owned("Describe the emails to match and what Comail should do."));
    proof {
        assert(texts(issues@) =~= seq![
            "Describe the emails to match and what Comail should do."@,
        ]);
    }
    Some(
        AiAutomationPlan {
            supported: false,
            name: String::new(),
            instruction: String::new(),
            actions: Vec::new(),
            summary: String::new(),
            issues,
        },
    )
}

/// Whether a draft is written in the user's own voice: as asked, else as set.
pub fn uses_voice(asked: Option<bool>, settings: &Settings) -> (r: bool)
    ensures
        r == (match asked {
            Some(v) => v,
            None => settings.voice_drafting,
        }),
        asked is Some ==> r == asked->0,
        asked is None ==> r == settings.voice_drafting,
{
    match asked {
        Some(v) => v,
        None => settings.voice_drafting,
    }
}

/// The voice that short replies imitate; none where drafting in it is off.
pub fn reply_voice(settings: &Settings) -> (r: String)
    ensures
        r@ == (if settings.voice_drafting {
            settings.voice_profile@
        } else {
            Seq::empty()
        }),
        !settings.voice_drafting ==> r@.len() == 0,
        settings.voice_drafting ==> r@ == settings.voice_profile@,
{
    if settings.voice_drafting {
        settings.voice_profile.clone()
    } else {
        String::new()
    }
}

// ---------------------------------------------------------------------------
// The user's voice
// ---------------------------------------------------------------------------

/// A sent message: its id, subject and text.
pub open spec fn voice_sample(sent: (i64, String, String)) -> Seq<char> {
    "Subject: "@ + sent.1@ + "\n"@ + sent.2@
}

/// The samples that a voice is learned from. There have to be some.
pub fn voice_samples(sent: &Vec<(i64, String, String)>) -> (r: Result<Vec<String>, CoreError>)
    ensures
        r is Err <==> sent@.len() == 0,
        r is Err ==> (r->Err_0)@ == ErrorView::Other(
            "No sent emails to learn from yet. Send or sync some mail first."@,
        ),
        r matches Ok(v) ==> texts(v@) == sent@.map_values(
            |s: (i64, String, String)| voice_sample(s),
        ),
        r matches Ok(v) ==> v@.len() == sent@.len() && forall|i: int|
            0 <= i < sent@.len() ==> (#[trigger] v@[i])@ == "Subject: "@ + sent@[i].1@ + "\n"@
                + sent@[i].2@,
{
    let ghost want = sent@.map_values(|s: (i64, String, String)| voice_sample(s));
    if sent.len() == 0 {
        return Err(
            CoreError::Other(
                owned("No sent emails to learn from yet. Send or sync some mail first."),
            ),
        );
    }
    let mut out: Vec<String> = Vec::new();
    let mut i: usize = 0;
    while i < sent.len()
        invariant
            i <= sent@.len(),
            want == sent@.map_values(|s: (i64, String, String)| voice_sample(s)),
            texts(out@) == want.take(i as int),
        decreases sent@.len() - i,
    {
        let ghost before = out@;
        let mut sample: String = concat3("Subject: ", sent[i].1.as_str(), "\n");
        sample.push_str(sent[i].2.as_str());
        out.push(sample);
        i = i + 1;
        proof {
            assert(texts(out@) =~= texts(before).push(want[i - 1]));
            assert(want.take(i as int) =~= want.take(i - 1).push(want[i - 1]));
        }
    }
    proof {
        assert(want.take(i as int) =~= want);
        assert forall|k: int| 0 <= k < sent@.len() implies (#[trigger] out@[k])@ == "Subject: "@
            + sent@[k].1@ + "\n"@ + sent@[k].2@ by {
            assert(texts(out@)[k] == want[k]);
        }
    }
    Ok(out)
}

/// The message that stands just before one of the thread; the last one where
/// that one is not among them.
pub open spec fn message_before(thread: Seq<MessageDetail>, id: i64) -> Option<MessageDetail>
    decreases thread.len(),
{
    if thread.len() == 0 || thread[0].id == id {
        None
    } else {
        match message_before(thread.skip(1), id) {
            Some(m) => Some(m),
            None => Some(thread[0]),
        }
    }
}

/// What the user answered to is what stands right before their message: nothing
/// where it began the thread, and the end of the thread where it is not in it.
pub proof fn replies_answer_what_stands_before(thread: Seq<MessageDetail>, id: i64, k: int)
    requires
        0 <= k <= thread.len(),
        forall|j: int| 0 <= j < k ==> (#[trigger] thread[j]).id != id,
        k < thread.len() ==> thread[k].id == id,
    ensures
        k == 0 ==> message_before(thread, id) is None,
        k > 0 ==> message_before(thread, id) == Some(thread[k - 1]),
    decreases thread.len(),
{
    if k > 0 {
        let rest = thread.skip(1);
        assert(thread[0].id != id);
        assert forall|j: int| 0 <= j < k - 1 implies (#[trigger] rest[j]).id != id by {
            assert(rest[j] == thread[j + 1]);
        }
        replies_answer_what_stands_before(rest, id, k - 1);
    }
}

/// The request to which a message that began a thread answers.
pub open spec fn fresh_request(subject: Seq<char>) -> Seq<char> {
    "(Compose a new email. Subject: "@ + subject + ")"@
}

/// What the user answered to.
pub open spec fn answered_text(before: Option<MessageDetail>, subject: Seq<char>) -> Seq<char> {
    match before {
        Some(m) => "Subject: "@ + m.subject@ + "\nFrom: "@ + m.from.email@ + "\n"@ + (
        match m.text_body {
            Some(t) => t@,
            None => m.snippet@,
        }),
        None => fresh_request(subject),
    }
}

/// What the user answered to is shown with its subject, its sender and its text, or
/// its preview where the text is not there; a message that began a thread answers
/// to a request with its own subject.
pub proof fn examples_show_what_was_answered(before: MessageDetail, subject: Seq<char>)
    ensures
        before.text_body matches Some(t) ==> answered_text(Some(before), subject) == "Subject: "@
            + before.subject@ + "\nFrom: "@ + before.from.email@ + "\n"@ + t@,
        before.text_body is None ==> answered_text(Some(before), subject) == "Subject: "@
            + before.subject@ + "\nFrom: "@ + before.from.email@ + "\n"@ + before.snippet@,
        answered_text(None, subject) == "(Compose a new email. Subject: "@ + subject + ")"@,
{
}

fn position_before(thread: &Vec<MessageDetail>, id: i64) -> (r: Option<usize>)
    ensures
        match r {
            Some(k) => k < thread@.len() && message_before(thread@, id) == Some(thread@[k as int]),
            None => message_before(thread@, id) is None,
        },
{
    let mut k: usize = 0;
    proof {
        assert(thread@.skip(0) =~= thread@);
    }
    let mut last: Option<usize> = None;
    while k < thread.len() && thread[k].id != id
        invariant
            k <= thread@.len(),
            last == (if k == 0 {
                None
            } else {
                Some((k - 1) as usize)
            }),
            message_before(thread@, id) == (match message_before(thread@.skip(k as int), id) {
                Some(m) => Some(m),
                None => if k == 0 {
                    None
                } else {
                    Some(thread@[k - 1])
                },
            }),
        decreases thread@.len() - k,
    {
        proof {
            assert(thread@.skip(k as int).skip(1) =~= thread@.skip(k + 1));
            assert(thread@.skip(k as int)[0] == thread@[k as int]);
        }
        last = Some(k);
        k = k + 1;
    }
    proof {
        if k < thread@.len() {
            assert(thread@.skip(k as int)[0] == thread@[k as int]);
        }
    }
    last
}

/// An example of how the user answers: what came in and what they replied. A
/// sent message without text is no example.
pub fn build_example_pair(sent: &MessageDetail, thread: &Vec<MessageDetail>) -> (r: Option<
    (String, String),
>)
    ensures
        r is None <==> sent.text_body is None || is_blank(sent.text_body->0@),
        r matches Some(p) ==> {
            &&& p.0@ == answered_text(message_before(thread@, sent.id), sent.subject@)
            &&& p.1@ == sent.text_body->0@
        },
{
    let reply: String = match &sent.text_body {
        Some(t) => t.clone(),
        None => {
            return None;
        },
    };
    if blank(reply.as_str()) {
        return None;
    }
    let incoming: String = match position_before(thread, sent.id) {
        Some(k) => {
            let m: &MessageDetail = &thread[k];
            let mut out: String = concat2("Subject: ", m.subject.as_str());
            out.push_str("\nFrom: ");
            out.push_str(m.from.email.as_str());
            out.push_str("\n");
            match &m.text_body {
                Some(t) => out.push_str(t.as_str()),
                None => out.push_str(m.snippet.as_str()),
            }
            out
        },
        None => concat3("(Compose a new email. Subject: ", sent.subject.as_str(), ")"),
    };
    Some((incoming, reply))
}

pub open spec fn pair_texts(pairs: Seq<(String, String)>) -> Seq<(Seq<char>, Seq<char>)> {
    pairs.map_values(|p: (String, String)| (p.0@, p.1@))
}

/// Recent mail as examples.
pub open spec fn recent_examples(recent: Seq<(i64, String, String)>) -> Seq<
    (Seq<char>, Seq<char>),
> {
    recent.map_values(|s: (i64, String, String)| (fresh_request(s.1@), s.2@))
}

/// The first examples that there are, `k` at most.
pub open spec fn first_examples(found: Seq<Option<(String, String)>>, k: nat) -> Seq<
    (Seq<char>, Seq<char>),
>
    decreases found.len(),
{
    if found.len() == 0 {
        Seq::empty()
    } else {
        let before = first_examples(found.drop_last(), k);
        match found.last() {
            Some(p) => if before.len() < k {
                before.push((p.0@, p.1@))
            } else {
                before
            },
            None => before,
        }
    }
}

/// The examples are the first that were found, no more than were asked for, and no
/// fewer where that many were found.
pub proof fn first_examples_are_taken(found: Seq<Option<(String, String)>>, k: nat)
    ensures
        first_examples(found, k).len() <= k,
        first_examples(found, k).len() <= found.len(),
        forall|p: (Seq<char>, Seq<char>)| #[trigger]
            first_examples(found, k).contains(p) ==> exists|i: int|
                0 <= i < found.len() && (#[trigger] found[i]) is Some && (found[i]->0).0@ == p.0 && (
                found[i]->0).1@ == p.1,
        (forall|i: int| 0 <= i < found.len() ==> (#[trigger] found[i]) is Some) && found.len() <= k
            ==> first_examples(found, k).len() == found.len(),
    decreases found.len(),
{
    if found.len() > 0 {
        let n = found.len() - 1;
        let front = found.drop_last();
        first_examples_are_taken(front, k);
        assert(forall|i: int| 0 <= i < n ==> front[i] == #[trigger] found[i]);
        let rest = first_examples(front, k);
        let all = first_examples(found, k);
        if found[n] is Some {
            lemma_pushed(rest, ((found[n]->0).0@, (found[n]->0).1@));
        }
        assert forall|p: (Seq<char>, Seq<char>)| #[trigger] all.contains(p) implies exists|i: int|
            0 <= i < found.len() && (#[trigger] found[i]) is Some && (found[i]->0).0@ == p.0 && (
            found[i]->0).1@ == p.1 by {
            if rest.contains(p) {
                let i = choose|i: int|
                    0 <= i < front.len() && (#[trigger] front[i]) is Some && (front[i]->0).0@
                        == p.0 && (front[i]->0).1@ == p.1;
                assert(found[i] is Some);
            } else {
                assert(found[n] is Some);
            }
        }
    }
}

/// The examples that a draft imitates: the most similar sent mail, `k` at most;
/// where there is none, recent sent mail.
pub fn voice_examples(
    found: &Vec<Option<(String, String)>>,
    k: usize,
    recent: &Vec<(i64, String, String)>,
) -> (r: Vec<(String, String)>)
    ensures
        pair_texts(r@) == (if first_examples(found@, k as nat).len() > 0 {
            first_examples(found@, k as nat)
        } else {
            recent_examples(recent@)
        }),
{
    let mut out: Vec<(String, String)> = Vec::new();
    let mut i: usize = 0;
    proof {
        assert(pair_texts(out@) =~= first_examples(found@.take(0), k as nat));
    }
    while i < found.len()
        invariant
            i <= found@.len(),
            pair_texts(out@) == first_examples(found@.take(i as int), k as nat),
        decreases found@.len() - i,
    {
        let ghost before = out@;
        proof {
            assert(found@.take(i + 1).drop_last() =~= found@.take(i as int));
            assert(found@.take(i + 1).last() == found@[i as int]);
            assert(pair_texts(before).len() == before.len());
        }
        if let Some(p) = &found[i] {
            if out.len() < k {
                out.push((p.0.clone(), p.1.clone()));
                proof {
                    assert(pair_texts(out@) =~= pair_texts(before).push((p.0@, p.1@)));
                }
            }
        }
        i = i + 1;
    }
    proof {
        assert(found@.take(found@.len() as int) =~= found@);
        assert(pair_texts(out@).len() == out@.len());
    }
    if out.len() > 0 {
        return out;
    }
    let ghost want = recent_examples(recent@);
    let mut n: usize = 0;
    proof {
        assert(pair_texts(out@) =~= want.take(0));
    }
    while n < recent.len()
        invariant
            n <= recent@.len(),
            want == recent_examples(recent@),
            pair_texts(out@) == want.take(n as int),
        decreases recent@.len() - n,
    {
        let ghost before = out@;
        let request: String = concat3("(Compose a new email. Subject: ", recent[n].1.as_str(), ")");
        out.push((request, recent[n].2.clone()));
        n = n + 1;
        proof {
            assert(pair_texts(out@) =~= pair_texts(before).push(want[n - 1]));
            assert(want.take(n as int) =~= want.take(n - 1).push(want[n - 1]));
        }
    }
    proof {
        assert(want.take(n as int) =~= want);
    }
    out
}

// ---------------------------------------------------------------------------
// Asking the mailbox
// ---------------------------------------------------------------------------

/// How often the model may search before it has to answer.
pub const MAX_ROUNDS: usize = 4;

/// How many messages an answer may rest on.
pub const MAX_SOURCES: usize = 24;

/// Fewer letters carry no meaning to search by.
pub const MIN_SEMANTIC_CHARS: usize = 3;

pub fn searches_by_meaning(text: &str) -> (r: bool)
    ensures
        r == (text@.len() >= MIN_SEMANTIC_CHARS),
{
    let cs: Vec<char> = crate::text::chars_of(text);
    cs.len() >= MIN_SEMANTIC_CHARS
}

/// How far the index of meanings has come. `model_id` is the model that is set,
/// `loaded` the one that is serving, where one is; `counts` are the messages in
/// all, those that are indexed and those that wait.
pub fn embedding_status(
    settings: &Settings,
    model_id: String,
    counts: (i64, i64, i64),
    loaded: Option<&str>,
) -> (r: EmbeddingStatus)
    ensures
        r.enabled == (settings.embedding_backend@ == "local"@),
        r.model == model_id,
        (r.total, r.embedded, r.pending) == counts,
        r.ready == (loaded matches Some(m) && m@ == model_id@),
{
    let ready: bool = match loaded {
        Some(m) => m.eq(model_id.as_str()),
        None => false,
    };
    EmbeddingStatus {
        enabled: settings.embedding_backend.as_str().eq("local"),
        model: model_id,
        total: counts.0,
        embedded: counts.1,
        pending: counts.2,
        ready,
    }
}

/// The answer where nothing in the mailbox bears on the question.
pub fn nothing_found() -> (r: AskResult)
    ensures
        r.answer@
            == "I couldn't find anything relevant in your mailbox. Make sure semantic search is enabled and indexing has finished."@,
        r.citations@.len() == 0,
{
    AskResult {
        answer: owned(
            "I couldn't find anything relevant in your mailbox. Make sure semantic search is enabled and indexing has finished.",
        ),
        citations: Vec::new(),
    }
}

/// What a round with the model brought.
#[derive(Debug)]
pub enum RoundOutcome {
    Content(String),
    /// The model wants to search.
    Tools,
    Failed,
}

#[derive(Debug)]
pub enum AskStep {
    /// The model has answered.
    Answer(String),
    /// The searches are run and the model is asked again.
    NextRound,
    /// The model is asked once more, without tools, over what was gathered.
    PlainAnswer,
}

/// What follows round number `round`, counted from zero. No failure of a round
/// sinks the question: there are sources to answer from.
pub fn after_round(round: usize, outcome: RoundOutcome) -> (r: AskStep)
    requires
        round < MAX_ROUNDS,
    ensures
        match outcome {
            RoundOutcome::Content(text) => if is_blank(text@) {
                r is PlainAnswer
            } else {
                r == AskStep::Answer(text)
            },
            RoundOutcome::Tools => if round + 1 < MAX_ROUNDS {
                r is NextRound
            } else {
                r is PlainAnswer
            },
            RoundOutcome::Failed => r is PlainAnswer,
        },
        r is Answer ==> outcome is Content,
        r is NextRound <==> outcome is Tools && round < 3,
        outcome is Content && !is_blank(outcome->Content_0@) ==> r is Answer,
{
    match outcome {
        RoundOutcome::Content(text) => {
            if blank(text.as_str()) {
                AskStep::PlainAnswer
            } else {
                AskStep::Answer(text)
            }
        },
        RoundOutcome::Tools => {
            if round + 1 < MAX_ROUNDS {
                AskStep::NextRound
            } else {
                AskStep::PlainAnswer
            }
        },
        RoundOutcome::Failed => AskStep::PlainAnswer,
    }
}

/// The answer that is shown.
pub open spec fn shown(answer: Seq<char>) -> Seq<char> {
    if is_blank(answer) {
        "I couldn't find an answer to that in your mailbox."@
    } else {
        answer
    }
}

pub fn settled_answer(answer: String) -> (r: String)
    ensures
        r@ == shown(answer@),
{
    if blank(answer.as_str()) {
        owned("I couldn't find an answer to that in your mailbox.")
    } else {
        answer
    }
}

/// A question never ends with a blank answer, even where the model thought but
/// produced no user-facing text.
pub proof fn answers_are_never_blank(answer: Seq<char>)
    ensures
        !is_blank(shown(answer)),
{
    reveal_strlit("I couldn't find an answer to that in your mailbox.");
    if is_blank(answer) {
        let text = "I couldn't find an answer to that in your mailbox."@;
        assert(text[0] == 'I');
        assert(!crate::text::is_space(text[0]));
    }
}

/// What a search that the model asks for does.
#[derive(Debug)]
pub enum SearchCall {
    /// Nothing is searched; the model is told why.
    Refused(String),
    Search {
        query: String,
        limit: u64,
    },
}

/// How many results the model gets: six unless it asks, one to eight.
pub open spec fn search_limit(asked: Option<u64>) -> u64 {
    match asked {
        Some(n) => if n < 1 {
            1
        } else if n > 8 {
            8
        } else {
            n
        },
        None => 6,
    }
}

pub fn search_call(query: &str, limit: Option<u64>, sources: usize) -> (r: SearchCall)
    ensures
        r matches SearchCall::Refused(text) ==> {
            &&& is_blank(query@) || sources >= MAX_SOURCES
            &&& text@ == (if is_blank(query@) {
                "(empty query - nothing searched)"@
            } else {
                "Source limit reached; answer with what you already have."@
            })
        },
        r matches SearchCall::Search { query: q, limit: n } ==> {
            &&& !is_blank(query@) && sources < MAX_SOURCES
            &&& q@ == trim(query@)
            &&& n == search_limit(limit)
        },
{
    if blank(query) {
        return SearchCall::Refused(owned("(empty query - nothing searched)"));
    }
    if sources >= MAX_SOURCES {
        return SearchCall::Refused(
            owned("Source limit reached; answer with what you already have."),
        );
    }
    let limit: u64 = match limit {
        Some(n) => {
            if n < 1 {
                1
            } else if n > 8 {
                8
            } else {
                n
            }
        },
        None => 6,
    };
    SearchCall::Search { query: trim_str(query), limit }
}

/// The tool that searches the mailbox.
pub const SEARCH_TOOL: &'static str = "search_inbox";

/// What a call of a tool asks for. There is one tool; any other is refused by its
/// name.
pub fn tool_call(name: &str, query: &str, limit: Option<u64>, sources: usize) -> (r: SearchCall)
    ensures
        name@ != SEARCH_TOOL@ ==> (r matches SearchCall::Refused(text) && text@
            == "Unknown tool: "@ + name@),
        name@ == SEARCH_TOOL@ && is_blank(query@) ==> (r matches SearchCall::Refused(text)
            && text@ == "(empty query - nothing searched)"@),
        name@ == SEARCH_TOOL@ && !is_blank(query@) && sources >= MAX_SOURCES ==> (
        r matches SearchCall::Refused(text) && text@
            == "Source limit reached; answer with what you already have."@),
        name@ == SEARCH_TOOL@ && !is_blank(query@) && sources < MAX_SOURCES ==> (
        r matches SearchCall::Search { query: q, limit: n } && q@ == trim(query@) && n
            == search_limit(limit)),
{
    if name.eq(SEARCH_TOOL) {
        search_call(query, limit, sources)
    } else {
        SearchCall::Refused(concat2("Unknown tool: ", name))
    }
}

/// What the model asks a search for: the text under `query` of the arguments
/// that it wrote, nothing where there is none.
pub open spec fn asked_query(arguments: Seq<char>) -> Seq<char> {
    match json_text(arguments, "query"@) {
        Some(q) => q,
        None => Seq::empty(),
    }
}

/// What a call of a tool asks for, with its arguments as the model wrote them.
pub fn run_search_inbox(name: &str, arguments: &str, sources: usize) -> (r: SearchCall)
    ensures
        name@ != SEARCH_TOOL@ ==> (r matches SearchCall::Refused(text) && text@
            == "Unknown tool: "@ + name@),
        name@ == SEARCH_TOOL@ && is_blank(asked_query(arguments@)) ==> (
        r matches SearchCall::Refused(text) && text@ == "(empty query - nothing searched)"@),
        name@ == SEARCH_TOOL@ && !is_blank(asked_query(arguments@)) && sources >= MAX_SOURCES ==> (
        r matches SearchCall::Refused(text) && text@
            == "Source limit reached; answer with what you already have."@),
        name@ == SEARCH_TOOL@ && !is_blank(asked_query(arguments@)) && sources < MAX_SOURCES ==> (
        r matches SearchCall::Search { query: q, limit: n } && q@ == trim(asked_query(arguments@))
            && n == search_limit(json_number(arguments@, "limit"@))),
{
    let query: String = match text_of_key(arguments, "query") {
        Some(q) => q,
        None => String::new(),
    };
    let limit: Option<u64> = number_of_key(arguments, "limit");
    tool_call(name, query.as_str(), limit, sources)
}

pub open spec fn has_source(sources: Seq<MessageDetail>, id: i64) -> bool {
    exists|k: int| 0 <= k < sources.len() && (#[trigger] sources[k]).id == id
}

/// The sources with what a search found: what is new is put behind, until
/// there are enough.
pub open spec fn with_found(sources: Seq<MessageDetail>, found: Seq<MessageDetail>) -> Seq<
    MessageDetail,
>
    decreases found.len(),
{
    if found.len() == 0 {
        sources
    } else {
        let before = with_found(sources, found.drop_last());
        if before.len() < MAX_SOURCES && !has_source(before, found.last().id) {
            before.push(found.last())
        } else {
            before
        }
    }
}

fn is_source(sources: &Vec<MessageDetail>, id: i64) -> (r: bool)
    ensures
        r == has_source(sources@, id),
{
    let mut k: usize = 0;
    while k < sources.len()
        invariant
            k <= sources@.len(),
            forall|j: int| 0 <= j < k ==> (#[trigger] sources@[j]).id != id,
        decreases sources@.len() - k,
    {
        if sources[k].id == id {
            proof {
                assert(sources@[k as int].id == id);
            }
            return true;
        }
        k = k + 1;
    }
    false
}

/// Takes in what a search found, and says how many messages were new.
pub fn add_sources(sources: &mut Vec<MessageDetail>, found: Vec<MessageDetail>) -> (r: usize)
    ensures
        final(sources)@ == with_found(old(sources)@, found@),
        r == final(sources)@.len() - old(sources)@.len(),
{
    let ghost start = sources@;
    let ghost all = found@;
    let had: usize = sources.len();
    let mut rest: Vec<MessageDetail> = found;
    let ghost mut done: int = 0;
    while rest.len() > 0
        invariant
            0 <= done <= all.len(),
            rest@ == all.skip(done),
            sources@ == with_found(start, all.take(done)),
            sources@.len() >= start.len(),
            had == start.len(),
        decreases rest@.len(),
    {
        proof {
            assert(all.take(done + 1).drop_last() =~= all.take(done));
            assert(all.take(done + 1).last() == rest@[0]);
            assert(rest@.remove(0) =~= all.skip(done + 1));
        }
        let d: MessageDetail = rest.remove(0);
        if sources.len() < MAX_SOURCES && !is_source(sources, d.id) {
            sources.push(d);
        }
        proof {
            done = done + 1;
        }
    }
    proof {
        assert(all.take(done) =~= all);
    }
    sources.len() - had
}

/// What a search found, told to the model. `block` holds the new excerpts.
pub fn search_reply(query: &str, added: usize, block: &str) -> (r: String)
    ensures
        r@ == (if added == 0 {
            "No new results for \""@ + query@ + "\"."@
        } else {
            "Results for \""@ + query@ + "\":\n\n"@ + block@
        }),
{
    if added == 0 {
        concat3("No new results for \"", query, "\".")
    } else {
        let head: String = concat3("Results for \"", query, "\":\n\n");
        concat2(head.as_str(), block)
    }
}

/// A source keeps its number however often the model searches, no message is
/// counted twice, and there are never too many.
pub proof fn sources_keep_their_numbers(sources: Seq<MessageDetail>, found: Seq<MessageDetail>)
    ensures
        sources.len() <= with_found(sources, found).len(),
        with_found(sources, found).take(sources.len() as int) == sources,
        sources.len() <= MAX_SOURCES ==> with_found(sources, found).len() <= MAX_SOURCES,
        (forall|i: int, j: int|
            #![trigger sources[i], sources[j]]
            0 <= i < j < sources.len() ==> sources[i].id != sources[j].id) ==> (forall|
            i: int,
            j: int,
        |
            #![trigger with_found(sources, found)[i], with_found(sources, found)[j]]
            0 <= i < j < with_found(sources, found).len() ==> with_found(sources, found)[i].id
                != with_found(sources, found)[j].id),
    decreases found.len(),
{
    if found.len() > 0 {
        let before = with_found(sources, found.drop_last());
        let after = with_found(sources, found);
        sources_keep_their_numbers(sources, found.drop_last());
        assert(after.take(sources.len() as int) =~= before.take(sources.len() as int));
    } else {
        assert(sources.take(sources.len() as int) =~= sources);
    }
}

/// What a search finds is taken in, as long as there is room for it: every message
/// that was found is among the sources then, and a source is one that was there or
/// was found.
pub proof fn what_is_found_is_taken_in(
    sources: Seq<MessageDetail>,
    found: Seq<MessageDetail>,
    i: int,
)
    requires
        0 <= i < found.len(),
    ensures
        with_found(sources, found).len() < 24 ==> has_source(
            with_found(sources, found),
            found[i].id,
        ),
        forall|m: MessageDetail| #[trigger]
            with_found(sources, found).contains(m) ==> sources.contains(m) || found.contains(m),
    decreases found.len(),
{
    let n = found.len() - 1;
    let front = found.drop_last();
    let rest = with_found(sources, front);
    let all = with_found(sources, found);
    lemma_pushed(rest, found.last());
    lemma_ends(found);
    if front.len() > 0 {
        what_is_found_is_taken_in(sources, front, if i < n {
            i
        } else {
            0
        });
    }
    if all.len() < 24 {
        if i < n {
            assert(front[i] == found[i]);
            let k = choose|k: int| 0 <= k < rest.len() && (#[trigger] rest[k]).id == found[i].id;
            assert(all[k] == rest[k]);
        } else if !has_source(rest, found[n].id) {
            assert(all[rest.len() as int].id == found[n].id);
        }
    }
}

/// The model gets one to eight results, as many as it asks for, and six where it
/// does not say.
pub proof fn searches_are_bounded(asked: Option<u64>)
    ensures
        1 <= search_limit(asked) <= 8,
        asked matches Some(n) ==> 1 <= n <= 8 ==> search_limit(asked) == n,
        asked is None ==> search_limit(asked) == 6,
{
}

/// Where a question stands.
#[derive(Debug)]
pub enum AskStage {
    /// The model is asked, and may search: the round, counted from zero.
    Round(usize),
    /// The model is asked without tools.
    Plain,
    Answered(String),
}

/// A question to the mailbox: it starts from the best matches, the model may
/// search for more in a few rounds, and it ends with an answer.
#[derive(Debug)]
pub struct Ask {
    pub stage: AskStage,
    pub sources: Vec<MessageDetail>,
}

impl Ask {
    pub open spec fn sound(self) -> bool {
        &&& self.stage matches AskStage::Round(n) ==> n < MAX_ROUNDS
        &&& self.stage matches AskStage::Answered(text) ==> !is_blank(text@)
    }

    /// How often the model is still asked, at most.
    pub open spec fn requests_left(self) -> int {
        match self.stage {
            AskStage::Round(n) => MAX_ROUNDS - n + 1,
            AskStage::Plain => 1,
            AskStage::Answered(_) => 0,
        }
    }

    /// Without a match there is nothing to ask about.
    pub fn begin(matches: Vec<MessageDetail>) -> (r: Option<Ask>)
        ensures
            r is None <==> matches@.len() == 0,
            r matches Some(a) ==> a.sound() && a.sources@ == matches@ && a.stage
                == AskStage::Round(0),
    {
        if matches.len() == 0 {
            None
        } else {
            Some(Ask { stage: AskStage::Round(0), sources: matches })
        }
    }

    /// Takes in what a round with the model brought.
    pub fn round(&mut self, outcome: RoundOutcome)
        requires
            old(self).sound(),
            old(self).stage is Round,
        ensures
            final(self).sound(),
            final(self).sources == old(self).sources,
            final(self).stage == (match outcome {
                RoundOutcome::Content(text) => if is_blank(text@) {
                    AskStage::Plain
                } else {
                    AskStage::Answered(text)
                },
                RoundOutcome::Tools => if old(self).stage->Round_0 + 1 < MAX_ROUNDS {
                    AskStage::Round((old(self).stage->Round_0 + 1) as usize)
                } else {
                    AskStage::Plain
                },
                RoundOutcome::Failed => AskStage::Plain,
            }),
            final(self).requests_left() < old(self).requests_left(),
    {
        if let AskStage::Round(n) = self.stage {
            self.stage = match after_round(n, outcome) {
                AskStep::Answer(text) => AskStage::Answered(text),
                AskStep::NextRound => AskStage::Round(n + 1),
                AskStep::PlainAnswer => AskStage::Plain,
            };
        }
    }

    /// Takes in the answer that the model gave without tools.
    pub fn plain(&mut self, answer: String)
        requires
            old(self).sound(),
            old(self).stage is Plain,
        ensures
            final(self).sound(),
            final(self).sources == old(self).sources,
            final(self).stage is Answered,
            final(self).stage->Answered_0@ == shown(answer@),
    {
        proof {
            answers_are_never_blank(answer@);
        }
        self.stage = AskStage::Answered(settled_answer(answer));
    }

    /// The answer with its sources.
    pub fn finish(self) -> (r: AskResult)
        requires
            self.sound(),
            self.stage is Answered,
        ensures
            r.answer == self.stage->Answered_0,
            r.citations@.len() == self.sources@.len(),
            forall|i: int|
                0 <= i < r.citations@.len() ==> cites(#[trigger] r.citations@[i], self.sources@[i]),
    {
        let citations: Vec<AskCitation> = ask_citations(&self.sources);
        let answer: String = match self.stage {
            AskStage::Answered(text) => text,
            _ => String::new(),
        };
        AskResult { answer, citations }
    }
}

/// That the citation stands for the source.
pub open spec fn cites(c: AskCitation, d: MessageDetail) -> bool {
    &&& c.message_id == d.id
    &&& c.thread_id == d.thread_id
    &&& c.subject == d.subject
    &&& c.from == (match d.from.name {
        Some(n) => n,
        None => d.from.email,
    })
    &&& c.date == d.date
    &&& c.snippet == d.snippet
}

/// The sources as the answer cites them, in the order of their numbers.
pub fn ask_citations(sources: &Vec<MessageDetail>) -> (r: Vec<AskCitation>)
    ensures
        r@.len() == sources@.len(),
        forall|i: int| 0 <= i < r@.len() ==> cites(#[trigger] r@[i], sources@[i]),
        forall|i: int|
            0 <= i < r@.len() ==> (#[trigger] r@[i]).message_id == sources@[i].id && r@[i].thread_id
                == sources@[i].thread_id && r@[i].subject@ == sources@[i].subject@ && r@[i].snippet@
                == sources@[i].snippet@ && r@[i].date == sources@[i].date && (
            sources@[i].from.name is None ==> r@[i].from@ == sources@[i].from.email@) && (
            sources@[i].from.name matches Some(n) ==> r@[i].from@ == n@),
{
    let mut out: Vec<AskCitation> = Vec::new();
    let mut i: usize = 0;
    while i < sources.len()
        invariant
            i <= sources@.len(),
            out@.len() == i,
            forall|k: int| 0 <= k < i ==> cites(#[trigger] out@[k], sources@[k]),
        decreases sources@.len() - i,
    {
        let d: &MessageDetail = &sources[i];
        out.push(
            AskCitation {
                message_id: d.id,
                thread_id: d.thread_id,
                subject: d.subject.clone(),
                from: match &d.from.name {
                    Some(n) => n.clone(),
                    None => d.from.email.clone(),
                },
                date: d.date,
                snippet: d.snippet.clone(),
            },
        );
        i = i + 1;
    }
    out
}

} // verus!
