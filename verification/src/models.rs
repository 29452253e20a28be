//! The data that the client shows, stores and is asked to change.

use vstd::prelude::*;

use crate::dict::{keys_ascend, Dict};
use crate::lists::lemma_pushed;
use crate::text::{
    blank, concat2, is_blank, opt_text, owned, parse_i64, parsed_i64,
};

pub mod addresses;
pub mod roles;

verus! {

#[derive(Debug, Clone, Copy, PartialEq, Eq, Structural)]
pub enum Provider {
    Imap,
    Gmail,
    Microsoft,
}

#[derive(Debug, Clone, Copy, PartialEq, Eq, Structural)]
pub enum AuthKind {
    Password,
    Oauth2,
}

#[derive(Debug, Clone)]
pub struct Account {
    pub id: i64,
    pub email: String,
    pub display_name: Option<String>,
    pub provider: Provider,
    pub auth_kind: AuthKind,
    pub sync_state: String,
}

/// Full account row including server config - internal, never sent to frontend.
#[derive(Debug, Clone)]
pub struct AccountConfig {
    pub id: i64,
    pub email: String,
    pub display_name: Option<String>,
    pub provider: Provider,
    pub auth_kind: AuthKind,
    pub username: String,
    pub imap_host: String,
    pub imap_port: u16,
    pub smtp_host: String,
    pub smtp_port: u16,
}

#[derive(Debug, Clone, PartialEq, Eq)]
pub struct Address {
    pub name: Option<String>,
    pub email: String,
}

/// A contact matched by search suggestions, with its interaction affinity
/// (send_count*3 + recv_count) so the UI can show how well-known it is.
#[derive(Debug, Clone)]
pub struct ContactSuggestion {
    pub name: Option<String>,
    pub email: String,
    pub interactions: i64,
}

/// The mailboxes that the thread list can show.
#[derive(Debug, Clone, Copy, PartialEq, Eq, Structural)]
pub enum MailView {
    Inbox,
    Starred,
    Snoozed,
    Sent,
    Drafts,
    Done,
    Trash,
    Spam,
    All,
}

#[derive(Debug, Clone)]
pub struct ThreadSummary {
    pub id: i64,
    pub account_id: i64,
    pub account_email: String,
    pub subject: String,
    pub snippet: String,
    pub participants: Vec<Address>,
    pub last_message_at: i64,
    pub message_count: i64,
    pub unread_count: i64,
    pub is_starred: bool,
    pub has_attachments: bool,
    pub snoozed_until: Option<i64>,
    /// Ids of labels present on any message in the thread.
    pub labels: Vec<i64>,
}

#[derive(Debug, Clone)]
pub struct Label {
    pub id: i64,
    pub name: String,
    /// Hex swatch shown on chips, e.g. "#6b7280".
    pub color: String,
    /// IMAP keyword atom this label maps to on the server.
    pub keyword: String,
    pub position: i64,
    /// System auto-category (Marketing/News/Social/Pitch): classified locally
    /// at sync time, never pushed to IMAP, not deletable.
    pub is_auto: bool,
}

#[derive(Debug, Clone)]
pub struct AttachmentMeta {
    pub id: i64,
    pub filename: Option<String>,
    pub mime_type: Option<String>,
    pub size: Option<i64>,
    pub is_inline: bool,
}

#[derive(Debug, Clone)]
pub struct MessageDetail {
    pub id: i64,
    pub thread_id: i64,
    pub account_id: i64,
    pub from: Address,
    pub to: Vec<Address>,
    pub cc: Vec<Address>,
    pub subject: String,
    pub date: i64,
    pub is_read: bool,
    pub is_starred: bool,
    pub is_draft: bool,
    pub is_outgoing: bool,
    pub snippet: String,
    pub body_state: String,
    pub text_body: Option<String>,
    pub html_body: Option<String>,
    /// Local-only note appended by an AI automation. It is displayed after the
    /// immutable received body and is never written back to the IMAP message.
    pub automation_note: Option<String>,
    pub attachments: Vec<AttachmentMeta>,
    pub list_unsubscribe: Option<String>,
    /// Raw List-Unsubscribe-Post (RFC 8058); `List-Unsubscribe=One-Click`
    /// means the HTTPS List-Unsubscribe URL accepts a one-click POST.
    pub list_unsubscribe_post: Option<String>,
    /// Transmitting party (Sender:, Return-Path or DKIM d=) when its domain
    /// doesn't align with `from` - mailing lists, ESPs, spoofed From:.
    /// Email address or bare domain; the UI shows it as "via <domain>".
    pub via: Option<String>,
    /// Delivery state for a local draft that has been queued to send:
    /// `"queued"` while its send is still in flight, `"failed"` once a dispatch
    /// attempt errored (e.g. the account needs re-authentication, or SMTP
    /// rejected it). `None` for received mail and for drafts never sent. Lets the
    /// UI keep a failed send visible with an error instead of it silently
    /// reverting to a plain draft.
    pub send_state: Option<String>,
    /// The last delivery error when `send_state` is `"failed"`.
    pub send_error: Option<String>,
}

#[derive(Debug, Clone)]
pub struct ThreadDetail {
    pub thread: ThreadSummary,
    pub messages: Vec<MessageDetail>,
}

#[derive(Debug, Clone)]
pub struct ThreadPage {
    pub threads: Vec<ThreadSummary>,
    pub next_cursor: Option<i64>,
}

#[derive(Debug, Clone)]
pub struct AddPasswordAccountArgs {
    pub email: String,
    pub display_name: Option<String>,
    pub username: String,
    pub password: String,
    pub imap_host: String,
    pub imap_port: u16,
    pub smtp_host: String,
    pub smtp_port: u16,
}

#[derive(Debug, Clone)]
pub struct ConnectionTestResult {
    pub ok: bool,
    pub error: Option<String>,
}

#[derive(Debug, Clone, Copy, PartialEq, Eq, Structural)]
pub enum ActionKind {
    MarkRead,
    MarkUnread,
    Star,
    Unstar,
    Archive,
    Unarchive,
    Trash,
    Spam,
    NotSpam,
    Move,
    Snooze,
    Unsnooze,
    AddLabel,
    RemoveLabel,
    Send,
}

#[derive(Debug, Clone, Copy, PartialEq, Eq)]
pub struct ActionParams {
    pub wake_at: Option<i64>,
    pub target_folder_id: Option<i64>,
    pub label_id: Option<i64>,
}

#[derive(Debug, Clone)]
pub struct PerformActionArgs {
    pub kind: ActionKind,
    pub thread_ids: Vec<i64>,
    pub params: Option<ActionParams>,
}

#[derive(Debug, Clone)]
pub struct ActionResult {
    pub action_ids: Vec<i64>,
}

#[derive(Debug, Clone)]
pub struct DraftAttachmentIn {
    pub file_path: String,
    pub filename: String,
}

#[derive(Debug, Clone)]
pub struct SaveDraftArgs {
    pub draft_id: Option<i64>,
    pub account_id: i64,
    pub to: Vec<Address>,
    pub cc: Vec<Address>,
    pub bcc: Vec<Address>,
    pub subject: String,
    pub body_text: String,
    /// Rich body; goes out as text/html alongside the body_text fallback.
    pub body_html: Option<String>,
    pub mode: String,
    pub in_reply_to_message_id: Option<i64>,
    pub attachments: Vec<DraftAttachmentIn>,
}

#[derive(Debug, Clone, Copy, PartialEq, Eq)]
pub struct QueueSendArgs {
    pub draft_id: i64,
    pub send_at: Option<i64>,
}

#[derive(Debug, Clone, Copy, PartialEq, Eq)]
pub struct QueueSendResult {
    pub action_id: i64,
    pub dispatch_at: i64,
}

#[derive(Debug, Clone)]
pub struct Snippet {
    pub id: i64,
    pub name: String,
    pub shortcut: Option<String>,
    pub subject: Option<String>,
    pub body_text: String,
    pub usage_count: i64,
}

#[derive(Debug, Clone)]
pub struct SplitRuleQuery {
    pub senders: Option<Vec<String>>,
    /// Match a recipient (To or Cc) address/domain.
    pub recipients: Option<Vec<String>>,
    pub subject_contains: Option<Vec<String>>,
    /// Match threads carrying any of these user (non-auto) label ids. Lets an
    /// AI-applied label like "INVOICE" route mail into a tab even when the
    /// subject holds no keyword.
    pub labels: Option<Vec<i64>>,
    pub is_automated: Option<bool>,
    /// Match threads that have (true) or lack (false) an attachment.
    pub has_attachment: Option<bool>,
}

#[derive(Debug, Clone)]
pub struct SplitRule {
    pub id: i64,
    pub name: String,
    pub position: i64,
    pub query: SplitRuleQuery,
    /// Where matching mail is routed. `None` = the rule is its own tab (legacy,
    /// route key `"split:<id>"`); otherwise a route key: `"important"`,
    /// `"other"`, or `"label:<id>"` to drop matches into an existing tab.
    pub target: Option<String>,
}

#[derive(Debug, Clone)]
pub struct FolderInfo {
    pub id: i64,
    pub account_id: i64,
    pub imap_name: String,
    /// IMAP hierarchy delimiter (e.g. "/" or "."), for nesting user folders.
    pub delimiter: Option<String>,
    pub role: Option<String>,
}

#[derive(Debug, Clone)]
pub struct SyncBackgroundProgress {
    pub phase: String,
    pub done: u64,
    pub total: u64,
    pub failed: u64,
}

#[derive(Debug, Clone)]
pub struct SyncStatus {
    pub account_id: i64,
    pub state: String,
    pub foreground_phase: String,
    pub background: Option<SyncBackgroundProgress>,
}

/// Structured action parsed by AI from a natural-language palette query.
#[derive(Debug, Clone)]
pub struct AiIntent {
    /// "create_event" | "compose" | "search" | "go_to" | "none"
    pub kind: String,
    pub summary: Option<String>,
    pub location: Option<String>,
    pub starts_at: Option<i64>,
    pub ends_at: Option<i64>,
    pub all_day: Option<bool>,
    pub to: Option<Vec<String>>,
    pub subject: Option<String>,
    pub body: Option<String>,
    pub query: Option<String>,
    pub view: Option<String>,
}

/// One chronological beat of a thread: who acted, and what they did.
#[derive(Debug, Clone)]
pub struct TimelineEntry {
    /// The person who acted ("Ana Moreau", or "You" for the account owner).
    pub actor: String,
    /// A terse, past-tense description of what they said or did.
    pub event: String,
}

/// A concrete dated item found in a thread that the user may choose to add to
/// their calendar. ISO-8601 strings preserve any timezone stated by the mail.
#[derive(Debug, Clone)]
pub struct AiCalendarSuggestion {
    pub title: String,
    pub start: String,
    pub end: Option<String>,
    pub all_day: bool,
    pub location: Option<String>,
    pub description: Option<String>,
}

/// A structured, sidebar-ready read of a whole thread: how it unfolded, what
/// matters, what the user must do next, and a ready-to-send draft reply.
/// (Distinct from [`ThreadSummary`], which is a thread-list *row*.)
#[derive(Debug, Clone)]
pub struct AiThreadSummary {
    /// Chronological beats, oldest first.
    pub timeline: Vec<TimelineEntry>,
    /// The essential facts and decisions, as short bullet lines.
    pub key_points: Vec<String>,
    /// The single next thing the user should do, or `None` if nothing is owed.
    pub next_action: Option<String>,
    /// A short draft reply the user could send, or `None` if no reply is needed.
    pub proposed_reply: Option<String>,
    /// A reliable, explicitly dated event/deadline the user may add after review.
    pub calendar_suggestion: Option<AiCalendarSuggestion>,
}

#[derive(Debug, Clone)]
pub struct AiUsageDay {
    pub date: String,
    pub total_tokens: i64,
    pub requests: i64,
}

#[derive(Debug, Clone)]
pub struct AiUsageStats {
    pub total_tokens: i64,
    pub total_requests: i64,
    pub today_tokens: i64,
    pub yesterday_tokens: i64,
    pub last_7_days_tokens: i64,
    pub last_30_days_tokens: i64,
    pub days: Vec<AiUsageDay>,
}

#[derive(Debug, Clone)]
pub struct EmailActivityDay {
    pub date: String,
    pub sent: i64,
    pub received: i64,
}

#[derive(Debug, Clone)]
pub struct EmailStats {
    pub total_sent: i64,
    pub total_received: i64,
    pub today_sent: i64,
    pub today_received: i64,
    pub last_7_days_sent: i64,
    pub last_7_days_received: i64,
    pub last_30_days_sent: i64,
    pub last_30_days_received: i64,
    pub days: Vec<EmailActivityDay>,
}

/// Exact unread badge counts for split tabs and sidebar rows.
/// Map keys are stringified ids (JSON object keys must be strings).
#[derive(Debug, Clone)]
pub struct UnreadCounts {
    pub inbox: i64,
    pub important: i64,
    pub other: i64,
    pub splits: Dict<i64>,
    pub labels: Dict<i64>,
    /// "starred" | "snoozed" | "drafts" (drafts counts all drafts, not unread)
    pub views: Dict<i64>,
}

/// One deterministic action attached to an AI-matched automation. `value` is
/// a route key, label id, or local annotation text depending on `kind`.
#[derive(Debug, Clone, PartialEq, Eq)]
pub struct AiAutomationAction {
    pub kind: String,
    pub value: String,
}

#[derive(Debug, Clone, PartialEq, Eq)]
pub struct AiAutomationRule {
    pub id: String,
    pub name: String,
    /// The user's original natural-language request. `instruction` is the
    /// planner's normalized match condition used at classification time.
    pub source_prompt: String,
    pub instruction: String,
    pub enabled: bool,
    pub actions: Vec<AiAutomationAction>,
}

/// Safe, structured interpretation of a natural-language automation request.
/// The AI proposes this shape, then the core validates every action and target
/// against the local allow-list before returning it to the UI.
#[derive(Debug, Clone, PartialEq, Eq)]
pub struct AiAutomationPlan {
    pub supported: bool,
    pub name: String,
    pub instruction: String,
    pub actions: Vec<AiAutomationAction>,
    pub summary: String,
    pub issues: Vec<String>,
}

#[derive(Debug, Clone)]
pub struct Settings {
    pub theme: String,
    /// UI language: "system" follows the OS locale, otherwise a code like "en".
    pub language: String,
    pub undo_send_seconds: i64,
    pub load_remote_images: bool,
    pub ai_base_url: String,
    pub ai_model: String,
    /// Per-tier model ids, all sharing `ai_base_url` + the stored API key. An
    /// empty tier falls back to `ai_model`, so existing single-model setups keep
    /// working until tiers are configured.
    pub ai_model_instant: String,
    pub ai_model_cheap: String,
    pub ai_model_intelligent: String,
    /// Which tier each AI scenario uses: "instant" | "cheap" | "intelligent".
    pub ai_tier_ask: String,
    pub ai_tier_draft: String,
    pub ai_tier_summarize: String,
    pub ai_tier_voice: String,
    /// OAuth app registrations supplied by the user. Env vars
    /// (COMAIL_GOOGLE_CLIENT_ID etc.) override these when set.
    pub google_client_id: String,
    pub google_client_secret: String,
    pub ms_client_id: String,
    /// Only for Web-type Entra registrations; public (desktop) clients must
    /// leave this empty or Microsoft rejects the token request.
    pub ms_client_secret: String,
    /// Semantic-search embedding backend: "local" | "off". Local runs a small
    /// model on-device; off disables vector indexing (keyword search only).
    pub embedding_backend: String,
    /// Registry key of the local embedding model (see `embed::registry`).
    pub embedding_model: String,
    /// When true, AI drafts are written in the user's learned voice.
    pub voice_drafting: bool,
    /// Distilled style profile learned from the user's sent mail (plain text).
    pub voice_profile: String,
    /// When the voice profile was last learned (ms epoch; 0 = never).
    pub voice_learned_at: i64,
    /// Minutes before a meeting to fire a desktop reminder; 0 disables.
    pub meeting_notify_lead_minutes: i64,
    /// Your FaceTime / WhatsApp number (E.164 or digits) for one-click Meeting
    /// link presets when creating events. Empty disables the presets.
    pub meeting_call_phone: String,
    /// Desktop notification on new mail.
    pub notifications_enabled: bool,
    /// Play a sound on new mail and when sending.
    pub sound_enabled: bool,
    /// After archiving from a conversation, open the next thread (vs. back to list).
    pub auto_advance: bool,
    /// After selecting a thread with `x`, move the cursor to the next row. Off
    /// makes `x` toggle in place (Gmail-style), leaving the cursor put.
    pub select_advance: bool,
    /// Automatic Marketing/News/Social/Pitch categorization at sync time.
    pub auto_labels_enabled: bool,
    /// When true, mail that no routing rule catches is sorted into a category by
    /// the AI classifier (using `ai_category_prompt`) instead of the built-in
    /// heuristic. Off, or with no API key, falls back to the heuristic.
    pub ai_categorize: bool,
    /// Natural-language description of the categories, fed to the AI classifier.
    /// Empty uses a built-in default prompt.
    pub ai_category_prompt: String,
    /// Compound workflows matched by the AI. The model only returns rule ids;
    /// every mailbox mutation comes from this explicit, user-owned allow-list.
    pub ai_automation_rules: Vec<AiAutomationRule>,
    /// Which model tier the AI classifier uses: "instant" | "cheap" | "intelligent".
    pub ai_tier_categorize: String,
    /// Group the thread list under date headers (Today / Yesterday / …).
    pub group_by_date: bool,
    /// When true, compose "To" autocomplete suggests contacts from every account;
    /// off (default) scopes suggestions to the account you're sending from.
    pub contact_suggest_all_accounts: bool,
    /// Show the unread count on the app icon (macOS Dock badge).
    pub dock_badge_enabled: bool,
    /// Which count the badge shows: "inbox" (all unread) | "important".
    pub dock_badge_source: String,
    /// Which incoming mail raises a desktop notification: "important" (mail that
    /// lands in the Important tab, the default and historical behavior), "all"
    /// (every incoming inbox message), or "tabs" (only the tabs named in
    /// `notification_tabs`). The master `notifications_enabled` toggle gates all
    /// three.
    pub notification_scope: String,
    /// Route keys whose mail notifies when `notification_scope` is "tabs":
    /// "important", "other", "split:<id>", or "label:<id>" (the same keys stored
    /// in `threads.routed_tab`).
    pub notification_tabs: Vec<String>,
    /// Legacy plain-text signature map, keyed by stringified account id.
    /// Superseded by `signature_list`/`signature_defaults`; retained only so old
    /// blobs deserialize and are folded in by `migrate_signatures`.
    pub signatures: Dict<String>,
    /// Rich signatures. An account may own several; the composer picks one by
    /// mode via `signature_defaults` (or a manual override).
    pub signature_list: Vec<Signature>,
    /// Which signature each account defaults to, keyed by stringified account id.
    pub signature_defaults: Dict<SignatureDefaults>,
    /// Per-account theme override ("snow" | "carbon" | "system"), keyed by
    /// stringified account id. Missing = follow the global `theme`.
    pub account_themes: Dict<String>,
}

/// A named, rich-HTML signature belonging to one account.
#[derive(Debug, Clone)]
pub struct Signature {
    pub id: String,
    pub account_id: i64,
    pub name: String,
    /// Rich body (sanitized HTML; same markup the composer emits).
    pub html: String,
}

/// Per-account default signature choice, Gmail-style: one for new mail, one for
/// replies/forwards. `None` means "no signature".
#[derive(Debug, Clone)]
pub struct SignatureDefaults {
    pub new_id: Option<String>,
    pub reply_id: Option<String>,
}

#[derive(Debug, Clone)]
pub struct EmbeddingStatus {
    /// Whether the local embedding backend is enabled.
    pub enabled: bool,
    /// Active model registry key.
    pub model: String,
    /// Messages with a cached body (embedding candidates).
    pub total: i64,
    /// Messages embedded for the active model.
    pub embedded: i64,
    /// Messages queued for embedding.
    pub pending: i64,
    /// Whether the model is loaded and the index is serving.
    pub ready: bool,
}

/// One retrieved source behind a RAG answer.
#[derive(Debug, Clone)]
pub struct AskCitation {
    pub message_id: i64,
    pub thread_id: i64,
    pub subject: String,
    pub from: String,
    pub date: i64,
    pub snippet: String,
}

#[derive(Debug, Clone)]
pub struct AskResult {
    pub answer: String,
    pub citations: Vec<AskCitation>,
}

#[derive(Debug, Clone)]
pub struct AiStatus {
    pub configured: bool,
    pub model: String,
    pub base_url: String,
}

#[derive(Debug, Clone)]
pub struct CalendarEvent {
    pub id: i64,
    pub account_id: i64,
    pub message_id: Option<i64>,
    pub summary: Option<String>,
    pub location: Option<String>,
    pub organizer: Option<String>,
    pub description: Option<String>,
    pub attendees: Vec<EventAttendee>,
    pub join_url: Option<String>,
    /// Our response to the invite: ACCEPTED | TENTATIVE | DECLINED.
    pub rsvp_status: Option<String>,
    /// Created in Comail (vs. parsed from an incoming invite).
    pub is_local: bool,
    /// CalDAV collection this event syncs with; None = local-only.
    pub calendar_id: Option<i64>,
    /// Raw RRULE when the event repeats (UI badges "repeats").
    pub rrule: Option<String>,
    pub starts_at: i64,
    pub ends_at: Option<i64>,
    pub all_day: bool,
    pub status: Option<String>,
    pub method: Option<String>,
}

/// A discovered CalDAV calendar collection.
#[derive(Debug, Clone)]
pub struct Calendar {
    pub id: i64,
    pub account_id: i64,
    pub url: String,
    pub display_name: Option<String>,
    pub color: Option<String>,
    pub read_only: bool,
    pub enabled: bool,
    pub is_default: bool,
    pub last_synced_at: Option<i64>,
}

#[derive(Debug, Clone)]
pub struct EventAttendee {
    pub email: String,
    pub name: Option<String>,
    /// NEEDS-ACTION | ACCEPTED | TENTATIVE | DECLINED
    pub partstat: Option<String>,
}

#[derive(Debug, Clone)]
pub struct CreateEventArgs {
    pub account_id: i64,
    pub summary: String,
    pub description: Option<String>,
    pub location: Option<String>,
    pub join_url: Option<String>,
    pub starts_at: i64,
    pub ends_at: i64,
    pub all_day: bool,
    /// Invites are emailed (ICS METHOD:REQUEST) to every attendee.
    pub attendees: Vec<Address>,
}

#[derive(Debug, Clone)]
pub struct RsvpEventArgs {
    pub event_id: i64,
    /// accepted | tentative | declined
    pub response: String,
}

#[derive(Debug, Clone)]
pub struct UpdateEventArgs {
    pub event_id: i64,
    pub summary: String,
    pub description: Option<String>,
    pub location: Option<String>,
    pub join_url: Option<String>,
    pub starts_at: i64,
    pub ends_at: i64,
    pub all_day: bool,
    pub attendees: Vec<Address>,
    /// Email an updated REQUEST ICS to attendees (organizer only).
    pub notify: bool,
}

#[derive(Debug, Clone)]
pub struct ConnectCalendarArgs {
    pub account_id: i64,
    /// "google" | "generic"
    pub kind: String,
    pub url: Option<String>,
    pub username: Option<String>,
    pub password: Option<String>,
}

// ---------------------------------------------------------------------------
// Names
// ---------------------------------------------------------------------------

impl Provider {
    /// The stored name of the provider.
    pub open spec fn name(self) -> Seq<char> {
        match self {
            Provider::Imap => "imap"@,
            Provider::Gmail => "gmail"@,
            Provider::Microsoft => "microsoft"@,
        }
    }

    pub fn as_str(&self) -> (r: &'static str)
        ensures
            r@ == self.name(),
    {
        match self {
            Provider::Imap => "imap",
            Provider::Gmail => "gmail",
            Provider::Microsoft => "microsoft",
        }
    }

    /// The provider of a stored name; a name that is not known is plain IMAP.
    pub fn from_str(s: &str) -> (r: Self)
        ensures
            r == Provider::Gmail <==> s@ == Provider::Gmail.name(),
            r == Provider::Microsoft <==> s@ == Provider::Microsoft.name(),
    {
        proof {
            Provider::names_differ(Provider::Gmail, Provider::Microsoft);
        }
        if s.eq("gmail") {
            Provider::Gmail
        } else if s.eq("microsoft") {
            Provider::Microsoft
        } else {
            Provider::Imap
        }
    }

    /// No two providers share a name, so reading back a stored name gives the
    /// provider that it was written for.
    pub proof fn names_differ(a: Provider, b: Provider)
        ensures
            a.name() == b.name() ==> a == b,
    {
        reveal_strlit("imap");
        reveal_strlit("gmail");
        reveal_strlit("microsoft");
        assert("imap"@.len() == 4 && "imap"@[0] == 'i' && "imap"@[1] == 'm');
        assert("gmail"@.len() == 5 && "gmail"@[0] == 'g' && "gmail"@[1] == 'm');
        assert("microsoft"@.len() == 9 && "microsoft"@[0] == 'm' && "microsoft"@[1] == 'i');
    }
}

impl AuthKind {
    /// The stored name of the kind of sign-in.
    pub open spec fn name(self) -> Seq<char> {
        match self {
            AuthKind::Password => "password"@,
            AuthKind::Oauth2 => "oauth2"@,
        }
    }

    pub fn as_str(&self) -> (r: &'static str)
        ensures
            r@ == self.name(),
    {
        match self {
            AuthKind::Password => "password",
            AuthKind::Oauth2 => "oauth2",
        }
    }

    /// The sign-in of a stored name; a name that is not known is a password.
    pub fn from_str(s: &str) -> (r: Self)
        ensures
            r == AuthKind::Oauth2 <==> s@ == AuthKind::Oauth2.name(),
    {
        if s.eq("oauth2") {
            AuthKind::Oauth2
        } else {
            AuthKind::Password
        }
    }

    /// The two kinds have different names.
    pub proof fn names_differ(a: AuthKind, b: AuthKind)
        ensures
            a.name() == b.name() ==> a == b,
    {
        reveal_strlit("password");
        reveal_strlit("oauth2");
        assert("password"@.len() == 8);
        assert("oauth2"@.len() == 6);
    }
}

impl ActionKind {
    /// The stored name of the action.
    pub open spec fn name(self) -> Seq<char> {
        match self {
            ActionKind::MarkRead => "mark_read"@,
            ActionKind::MarkUnread => "mark_unread"@,
            ActionKind::Star => "star"@,
            ActionKind::Unstar => "unstar"@,
            ActionKind::Archive => "archive"@,
            ActionKind::Unarchive => "unarchive"@,
            ActionKind::Trash => "trash"@,
            ActionKind::Spam => "spam"@,
            ActionKind::NotSpam => "not_spam"@,
            ActionKind::Move => "move"@,
            ActionKind::Snooze => "snooze"@,
            ActionKind::Unsnooze => "unsnooze"@,
            ActionKind::AddLabel => "add_label"@,
            ActionKind::RemoveLabel => "remove_label"@,
            ActionKind::Send => "send"@,
        }
    }

    pub fn as_str(&self) -> (r: &'static str)
        ensures
            r@ == self.name(),
    {
        match self {
            ActionKind::MarkRead => "mark_read",
            ActionKind::MarkUnread => "mark_unread",
            ActionKind::Star => "star",
            ActionKind::Unstar => "unstar",
            ActionKind::Archive => "archive",
            ActionKind::Unarchive => "unarchive",
            ActionKind::Trash => "trash",
            ActionKind::Spam => "spam",
            ActionKind::NotSpam => "not_spam",
            ActionKind::Move => "move",
            ActionKind::Snooze => "snooze",
            ActionKind::Unsnooze => "unsnooze",
            ActionKind::AddLabel => "add_label",
            ActionKind::RemoveLabel => "remove_label",
            ActionKind::Send => "send",
        }
    }

    /// The action of a stored name.
    pub fn from_str(s: &str) -> (r: Option<Self>)
        ensures
            match r {
                Some(k) => k.name() == s@,
                None => forall|k: ActionKind| #[trigger] k.name() != s@,
            },
    {
        if s.eq("mark_read") {
            Some(ActionKind::MarkRead)
        } else if s.eq("mark_unread") {
            Some(ActionKind::MarkUnread)
        } else if s.eq("star") {
            Some(ActionKind::Star)
        } else if s.eq("unstar") {
            Some(ActionKind::Unstar)
        } else if s.eq("archive") {
            Some(ActionKind::Archive)
        } else if s.eq("unarchive") {
            Some(ActionKind::Unarchive)
        } else if s.eq("trash") {
            Some(ActionKind::Trash)
        } else if s.eq("spam") {
            Some(ActionKind::Spam)
        } else if s.eq("not_spam") {
            Some(ActionKind::NotSpam)
        } else if s.eq("move") {
            Some(ActionKind::Move)
        } else if s.eq("snooze") {
            Some(ActionKind::Snooze)
        } else if s.eq("unsnooze") {
            Some(ActionKind::Unsnooze)
        } else if s.eq("add_label") {
            Some(ActionKind::AddLabel)
        } else if s.eq("remove_label") {
            Some(ActionKind::RemoveLabel)
        } else if s.eq("send") {
            Some(ActionKind::Send)
        } else {
            None
        }
    }

    /// No two actions share a name, so reading back a stored name gives the
    /// action that it was written for.
    pub proof fn names_differ(a: ActionKind, b: ActionKind)
        ensures
            a.name() == b.name() ==> a == b,
    {
        reveal_strlit("mark_read");
        reveal_strlit("mark_unread");
        reveal_strlit("star");
        reveal_strlit("unstar");
        reveal_strlit("archive");
        reveal_strlit("unarchive");
        reveal_strlit("trash");
        reveal_strlit("spam");
        reveal_strlit("not_spam");
        reveal_strlit("move");
        reveal_strlit("snooze");
        reveal_strlit("unsnooze");
        reveal_strlit("add_label");
        reveal_strlit("remove_label");
        reveal_strlit("send");
        assert("mark_read"@.len() == 9 && "mark_read"@[0] == 'm' && "mark_read"@[1] == 'a');
        assert("mark_unread"@.len() == 11 && "mark_unread"@[0] == 'm' && "mark_unread"@[1] == 'a');
        assert("star"@.len() == 4 && "star"@[0] == 's' && "star"@[1] == 't');
        assert("unstar"@.len() == 6 && "unstar"@[0] == 'u' && "unstar"@[1] == 'n');
        assert("archive"@.len() == 7 && "archive"@[0] == 'a' && "archive"@[1] == 'r');
        assert("unarchive"@.len() == 9 && "unarchive"@[0] == 'u' && "unarchive"@[1] == 'n');
        assert("trash"@.len() == 5 && "trash"@[0] == 't' && "trash"@[1] == 'r');
        assert("spam"@.len() == 4 && "spam"@[0] == 's' && "spam"@[1] == 'p');
        assert("not_spam"@.len() == 8 && "not_spam"@[0] == 'n' && "not_spam"@[1] == 'o');
        assert("move"@.len() == 4 && "move"@[0] == 'm' && "move"@[1] == 'o');
        assert("snooze"@.len() == 6 && "snooze"@[0] == 's' && "snooze"@[1] == 'n');
        assert("unsnooze"@.len() == 8 && "unsnooze"@[0] == 'u' && "unsnooze"@[1] == 'n');
        assert("add_label"@.len() == 9 && "add_label"@[0] == 'a' && "add_label"@[1] == 'd');
        assert("remove_label"@.len() == 12 && "remove_label"@[0] == 'r' && "remove_label"@[1] == 'e');
        assert("send"@.len() == 4 && "send"@[0] == 's' && "send"@[1] == 'e');
    }
}

// ---------------------------------------------------------------------------
// Signatures
// ---------------------------------------------------------------------------

/// The HTML of one character of plain text.
pub open spec fn html_char(c: char) -> Seq<char> {
    if c == '&' {
        "&amp;"@
    } else if c == '<' {
        "&lt;"@
    } else if c == '>' {
        "&gt;"@
    } else if c == '"' {
        "&quot;"@
    } else if c == '\n' {
        "<br>"@
    } else {
        seq![c]
    }
}

/// The HTML of plain text: its characters one by one.
pub open spec fn html_text(s: Seq<char>) -> Seq<char>
    decreases s.len(),
{
    if s.len() == 0 {
        Seq::empty()
    } else {
        html_text(s.drop_last()) + html_char(s.last())
    }
}

/// Plain text becomes HTML character by character: what stands for markup is
/// escaped, a new line becomes a break, and every other character stays.
pub proof fn text_becomes_html_piece_by_piece(a: Seq<char>, c: char, b: Seq<char>)
    ensures
        html_text(a + seq![c] + b) == html_text(a) + html_text(seq![c]) + html_text(b),
        c == '<' ==> html_text(seq![c]) == "&lt;"@,
        c == '>' ==> html_text(seq![c]) == "&gt;"@,
        c == '&' ==> html_text(seq![c]) == "&amp;"@,
        c == '"' ==> html_text(seq![c]) == "&quot;"@,
        c == '\n' ==> html_text(seq![c]) == "<br>"@,
        c != '<' && c != '>' && c != '&' && c != '"' && c != '\n' ==> html_text(seq![c])
            == seq![c],
        html_text(Seq::empty()).len() == 0,
{
    lemma_html_joins(a, seq![c]);
    lemma_html_joins(a + seq![c], b);
    reveal_with_fuel(html_text, 2);
    assert(seq![c].drop_last() =~= Seq::<char>::empty());
    assert(html_text(seq![c]) =~= html_char(c));
}

proof fn lemma_html_joins(a: Seq<char>, b: Seq<char>)
    ensures
        html_text(a + b) == html_text(a) + html_text(b),
    decreases b.len(),
{
    if b.len() == 0 {
        assert(a + b =~= a);
        assert(html_text(a) + html_text(b) =~= html_text(a));
    } else {
        assert((a + b).drop_last() =~= a + b.drop_last());
        lemma_html_joins(a, b.drop_last());
        assert(html_text(a + b) =~= html_text(a) + html_text(b));
    }
}

/// Plain text -> minimal HTML: escape, newlines to `<br>`.
pub fn text_to_html(text: &str) -> (r: String)
    ensures
        r@ == html_text(text@),
{
    let cs: Vec<char> = crate::text::chars_of(text);
    let mut out: String = String::new();
    let mut i: usize = 0;
    while i < cs.len()
        invariant
            i <= cs@.len(),
            out@ == html_text(cs@.take(i as int)),
        decreases cs@.len() - i,
    {
        proof {
            assert(cs@.take(i + 1).drop_last() =~= cs@.take(i as int));
        }
        let c: char = cs[i];
        if c == '&' {
            out.push_str("&amp;");
        } else if c == '<' {
            out.push_str("&lt;");
        } else if c == '>' {
            out.push_str("&gt;");
        } else if c == '"' {
            out.push_str("&quot;");
        } else if c == '\n' {
            out.push_str("<br>");
        } else {
            proof {
                assert(out@.push(c) =~= out@ + seq![c]);
            }
            out.push(c);
        }
        i = i + 1;
    }
    proof {
        assert(cs@.take(cs@.len() as int) =~= cs@);
    }
    out
}

/// A signature by what its fields hold.
pub struct SignatureView {
    pub id: Seq<char>,
    pub account_id: i64,
    pub name: Seq<char>,
    pub html: Seq<char>,
}

impl View for Signature {
    type V = SignatureView;

    open spec fn view(&self) -> SignatureView {
        SignatureView {
            id: self.id@,
            account_id: self.account_id,
            name: self.name@,
            html: self.html@,
        }
    }
}

/// The id of the signature that a plain-text entry becomes.
pub open spec fn folded_id(key: Seq<char>) -> Seq<char> {
    "sig-"@ + key
}

/// The signature that a plain-text entry becomes. A key that is not a number
/// stands for account 0.
pub open spec fn folded_signature(key: Seq<char>, text: Seq<char>) -> SignatureView {
    SignatureView {
        id: folded_id(key),
        account_id: match parsed_i64(key) {
            Some(n) => n,
            None => 0,
        },
        name: "Signature"@,
        html: html_text(text),
    }
}

/// The signatures that plain-text entries become, in their order; blank ones
/// become none.
pub open spec fn folded_list(entries: Seq<(Seq<char>, String)>) -> Seq<SignatureView>
    decreases entries.len(),
{
    if entries.len() == 0 {
        Seq::empty()
    } else {
        let rest = folded_list(entries.drop_last());
        let (key, text) = entries.last();
        if is_blank(text@) {
            rest
        } else {
            rest.push(folded_signature(key, text@))
        }
    }
}

/// Every plain-text signature that says something becomes one signature: that of
/// its account, with its text as HTML. A blank one becomes none.
pub proof fn every_signature_is_folded(entries: Seq<(Seq<char>, String)>)
    ensures
        forall|v: SignatureView| #[trigger]
            folded_list(entries).contains(v) <==> exists|i: int|
                0 <= i < entries.len() && !is_blank((#[trigger] entries[i]).1@) && v.id == "sig-"@
                    + entries[i].0 && v.html == html_text(entries[i].1@) && v.name
                    == "Signature"@ && v.account_id == (match parsed_i64(entries[i].0) {
                    Some(n) => n,
                    None => 0,
                }),
        folded_list(entries).len() <= entries.len(),
    decreases entries.len(),
{
    if entries.len() > 0 {
        let n = entries.len() - 1;
        let front = entries.drop_last();
        every_signature_is_folded(front);
        let rest = folded_list(front);
        let all = folded_list(entries);
        lemma_pushed(rest, folded_signature(entries[n].0, entries[n].1@));
        assert(forall|i: int| 0 <= i < n ==> front[i] == #[trigger] entries[i]);
        assert forall|v: SignatureView| #[trigger] all.contains(v) <==> exists|i: int|
            0 <= i < entries.len() && !is_blank((#[trigger] entries[i]).1@) && v
                == folded_signature(entries[i].0, entries[i].1@) by {
            if rest.contains(v) {
                let i = choose|i: int|
                    0 <= i < front.len() && !is_blank((#[trigger] front[i]).1@) && v
                        == folded_signature(front[i].0, front[i].1@);
                assert(!is_blank(entries[i].1@));
            }
            if exists|i: int|
                0 <= i < entries.len() && !is_blank((#[trigger] entries[i]).1@) && v
                    == folded_signature(entries[i].0, entries[i].1@) {
                let i = choose|i: int|
                    0 <= i < entries.len() && !is_blank((#[trigger] entries[i]).1@) && v
                        == folded_signature(entries[i].0, entries[i].1@);
                if i < n {
                    assert(!is_blank(front[i].1@));
                }
            }
            if all.contains(v) && !rest.contains(v) {
                assert(!is_blank(entries[n].1@));
            }
        }
        assert forall|v: SignatureView, i: int| 0 <= i < entries.len() implies (v
            == folded_signature((#[trigger] entries[i]).0, entries[i].1@) <==> #[trigger] v.id
            == "sig-"@ + entries[i].0 && v.html == html_text(entries[i].1@) && v.name
            == "Signature"@ && v.account_id == (match parsed_i64(entries[i].0) {
            Some(n) => n,
            None => 0,
        })) by {}
    }
}

/// Some entry with this key has text in it.
pub open spec fn is_folded(entries: Seq<(Seq<char>, String)>, key: Seq<char>) -> bool {
    exists|i: int|
        0 <= i < entries.len() && (#[trigger] entries[i]).0 == key && !is_blank(entries[i].1@)
}

/// The default choices after plain-text entries were folded in: an account
/// with a signature uses it for new mail and for replies, every other account
/// keeps its choice.
pub open spec fn defaults_folded(
    before: Map<Seq<char>, SignatureDefaults>,
    entries: Seq<(Seq<char>, String)>,
    after: Map<Seq<char>, SignatureDefaults>,
) -> bool {
    forall|k: Seq<char>|
        #![trigger after.dom().contains(k)]
        if is_folded(entries, k) {
            after.dom().contains(k) && opt_text(after[k].new_id) == Some(folded_id(k)) && opt_text(
                after[k].reply_id,
            ) == Some(folded_id(k))
        } else {
            after.dom().contains(k) == before.dom().contains(k) && (before.dom().contains(k)
                ==> after[k] == before[k])
        }
}

/// An account whose plain-text signature says something uses what it became, for
/// new mail and for replies; every other account keeps its choice, or has none.
pub proof fn folded_signatures_are_used(
    before: Map<Seq<char>, SignatureDefaults>,
    entries: Seq<(Seq<char>, String)>,
    after: Map<Seq<char>, SignatureDefaults>,
    key: Seq<char>,
)
    requires
        defaults_folded(before, entries, after),
    ensures
        (exists|i: int|
            0 <= i < entries.len() && (#[trigger] entries[i]).0 == key && !is_blank(entries[i].1@))
            ==> after.dom().contains(key) && opt_text(after[key].new_id) == Some("sig-"@ + key)
            && opt_text(after[key].reply_id) == Some("sig-"@ + key),
        (forall|i: int|
            0 <= i < entries.len() && (#[trigger] entries[i]).0 == key ==> is_blank(entries[i].1@))
            ==> after.dom().contains(key) == before.dom().contains(key) && (before.dom().contains(
            key,
        ) ==> after[key] == before[key]),
{
    assert(is_folded(entries, key) || !is_folded(entries, key));
    assert(after.dom().contains(key) || !after.dom().contains(key));
}

/// The signatures of a list by what their fields hold.
pub open spec fn signature_views(list: Seq<Signature>) -> Seq<SignatureView> {
    list.map_values(|s: Signature| s@)
}

impl Settings {
    /// What folding the plain-text signatures makes of the settings.
    pub open spec fn signatures_migrated(before: Settings, after: Settings) -> bool {
        &&& after.signatures.entries().len() == 0
        &&& before.signature_list@.len() > 0 || before.signatures.entries().len() == 0 ==> after
            == (Settings { signatures: after.signatures, ..before })
        &&& before.signature_list@.len() == 0 ==> {
            &&& signature_views(after.signature_list@) == folded_list(before.signatures.entries())
            &&& defaults_folded(
                before.signature_defaults@,
                before.signatures.entries(),
                after.signature_defaults@,
            )
            &&& after == (Settings {
                signatures: after.signatures,
                signature_list: after.signature_list,
                signature_defaults: after.signature_defaults,
                ..before
            })
        }
    }

    /// Folding twice is folding once: the second time nothing but the emptied
    /// map is written.
    pub proof fn migrating_twice_is_once(first: Settings, second: Settings, third: Settings)
        requires
            Settings::signatures_migrated(first, second),
            Settings::signatures_migrated(second, third),
        ensures
            third == (Settings { signatures: third.signatures, ..second }),
            third.signatures.entries() =~= second.signatures.entries(),
    {
    }

    /// The folded signatures have different ids, one per account key.
    pub proof fn folded_ids_differ(entries: Seq<(Seq<char>, String)>, i: int, j: int)
        requires
            keys_ascend(entries),
            0 <= i < j < folded_list(entries).len(),
        ensures
            folded_list(entries)[i].id != folded_list(entries)[j].id,
    {
        let x = lemma_folded_from(entries, i);
        let y = lemma_folded_from(entries, j);
        if folded_list(entries)[i].id == folded_list(entries)[j].id {
            let a = folded_id(entries[x].0);
            let b = folded_id(entries[y].0);
            assert(entries[x].0 =~= a.skip("sig-"@.len() as int));
            assert(entries[y].0 =~= b.skip("sig-"@.len() as int));
            lemma_folded_order(entries, i, j, x, y);
        }
    }

    /// Fold a plain-text `signatures` map into the rich `signature_list`
    /// on first read: one named signature per account, set as both the new-mail
    /// and reply default. Idempotent - only runs while `signature_list` is empty
    /// and plain-text entries exist; clears `signatures` once folded so it never
    /// runs twice.
    pub fn migrate_signatures(&mut self)
        ensures
            Settings::signatures_migrated(*old(self), *final(self)),
    {
        let ghost entries = self.signatures.entries();
        let ghost before = self.signature_defaults@;
        if self.signature_list.len() != 0 || self.signatures.is_empty() {
            self.signatures.clear();
            proof {
                if self.signature_list@.len() == 0 {
                    assert(signature_views(self.signature_list@) =~= folded_list(entries));
                    assert forall|k: Seq<char>| !is_folded(entries, k) by {}
                }
            }
            return ;
        }
        let n: usize = self.signatures.len();
        let mut i: usize = 0;
        proof {
            assert(entries.take(0) =~= Seq::<(Seq<char>, String)>::empty());
            assert(signature_views(self.signature_list@) =~= folded_list(entries.take(0)));
        }
        while i < n
            invariant
                i <= n,
                n == entries.len(),
                entries == self.signatures.entries(),
                signature_views(self.signature_list@) == folded_list(entries.take(i as int)),
                defaults_folded(before, entries.take(i as int), self.signature_defaults@),
                *self == (Settings {
                    signature_list: self.signature_list,
                    signature_defaults: self.signature_defaults,
                    ..*old(self)
                }),
            decreases n - i,
        {
            let ghost done = entries.take(i as int);
            let ghost next = entries.take(i + 1);
            let ghost list = self.signature_list@;
            let ghost defaults = self.signature_defaults@;
            let key: String = self.signatures.key_at(i).clone();
            let text: String = self.signatures.value_at(i).clone();
            proof {
                assert(next.drop_last() =~= done);
                assert(next.last() == entries[i as int]);
                assert(next =~= done.push(entries[i as int]));
            }
            if !blank(text.as_str()) {
                let account_id: i64 = match parse_i64(key.as_str()) {
                    Some(v) => v,
                    None => 0,
                };
                let id: String = concat2("sig-", key.as_str());
                self.signature_list.push(
                    Signature {
                        id: id.clone(),
                        account_id,
                        name: owned("Signature"),
                        html: text_to_html(text.as_str()),
                    },
                );
                let ghost signed = self.signature_list@.last()@;
                self.signature_defaults.insert(
                    key,
                    SignatureDefaults { new_id: Some(id.clone()), reply_id: Some(id) },
                );
                proof {
                    assert(signature_views(self.signature_list@) =~= signature_views(list).push(
                        signed,
                    ));
                    let after = self.signature_defaults@;
                    assert forall|k: Seq<char>|
                        #![trigger after.dom().contains(k)]
                        is_folded(next, k) == (k == key@ || is_folded(done, k)) by {
                        lemma_folded_push(done, entries[i as int], k);
                    }
                    assert(forall|k: Seq<char>|
                        defaults.dom().contains(k) == #[trigger] defaults.dom().contains(k));
                    assert forall|k: Seq<char>| #![trigger after.dom().contains(k)]
                        k != key@ implies after.dom().contains(k) == defaults.dom().contains(k) by {
                    }
                }
            } else {
                proof {
                    let after = self.signature_defaults@;
                    assert forall|k: Seq<char>|
                        #![trigger after.dom().contains(k)]
                        is_folded(next, k) == is_folded(done, k) by {
                        lemma_folded_push(done, entries[i as int], k);
                    }
                }
            }
            i = i + 1;
        }
        proof {
            assert(entries.take(n as int) =~= entries);
        }
        self.signatures.clear();
    }
}

/// Each folded signature comes from an entry.
proof fn lemma_folded_from(entries: Seq<(Seq<char>, String)>, i: int) -> (x: int)
    requires
        0 <= i < folded_list(entries).len(),
    ensures
        0 <= x < entries.len(),
        folded_list(entries)[i] == folded_signature(entries[x].0, entries[x].1@),
        x == folded_source(entries, i),
    decreases entries.len(),
{
    let rest = entries.drop_last();
    if i < folded_list(rest).len() {
        lemma_folded_from(rest, i)
    } else {
        entries.len() - 1
    }
}

/// The entry that a folded signature comes from.
spec fn folded_source(entries: Seq<(Seq<char>, String)>, i: int) -> int
    decreases entries.len(),
{
    if entries.len() == 0 || i >= folded_list(entries.drop_last()).len() {
        entries.len() - 1
    } else {
        folded_source(entries.drop_last(), i)
    }
}

/// Two folded signatures come from two entries.
proof fn lemma_folded_order(entries: Seq<(Seq<char>, String)>, i: int, j: int, x: int, y: int)
    requires
        0 <= i < j < folded_list(entries).len(),
        x == folded_source(entries, i),
        y == folded_source(entries, j),
    ensures
        0 <= x < y < entries.len(),
    decreases entries.len(),
{
    let rest = entries.drop_last();
    if j < folded_list(rest).len() {
        lemma_folded_order(rest, i, j, x, y);
    } else {
        let z = lemma_folded_from(rest, i);
    }
}

proof fn lemma_folded_push(done: Seq<(Seq<char>, String)>, e: (Seq<char>, String), k: Seq<char>)
    ensures
        is_folded(done.push(e), k) == (is_folded(done, k) || (e.0 == k && !is_blank(e.1@))),
{
    let next = done.push(e);
    if is_folded(done, k) {
        let i = choose|i: int|
            0 <= i < done.len() && (#[trigger] done[i]).0 == k && !is_blank(done[i].1@);
        assert(next[i] == done[i]);
    }
    if e.0 == k && !is_blank(e.1@) {
        assert(next[done.len() as int] == e);
    }
    if is_folded(next, k) {
        let i = choose|i: int|
            0 <= i < next.len() && (#[trigger] next[i]).0 == k && !is_blank(next[i].1@);
        if i < done.len() {
            assert(done[i] == next[i]);
        }
    }
}

/// The model names and the endpoint that a fresh profile starts with.
#[derive(Debug, Clone)]
pub struct BuiltinModels {
    pub ai_base_url: String,
    pub ai_model: String,
    pub embedding_model: String,
}

pub fn default_language() -> (r: String)
    ensures
        r@ == "system"@,
{
    owned("system")
}

pub fn default_tier_intelligent() -> (r: String)
    ensures
        r@ == "intelligent"@,
{
    owned("intelligent")
}

pub fn default_tier_instant() -> (r: String)
    ensures
        r@ == "instant"@,
{
    owned("instant")
}

pub fn default_tier_cheap() -> (r: String)
    ensures
        r@ == "cheap"@,
{
    owned("cheap")
}

pub fn default_embedding_backend() -> (r: String)
    ensures
        r@ == "local"@,
{
    owned("local")
}

pub fn default_badge_source() -> (r: String)
    ensures
        r@ == "inbox"@,
{
    owned("inbox")
}

pub fn default_notification_scope() -> (r: String)
    ensures
        r@ == "important"@,
{
    owned("important")
}

pub fn default_true() -> (r: bool)
    ensures
        r,
{
    true
}

pub fn default_notify_lead() -> (r: i64)
    ensures
        r == 10,
{
    10
}

pub fn default_ai_base_url(builtin: &BuiltinModels) -> (r: String)
    ensures
        r@ == builtin.ai_base_url@,
{
    builtin.ai_base_url.clone()
}

pub fn default_ai_model(builtin: &BuiltinModels) -> (r: String)
    ensures
        r@ == builtin.ai_model@,
{
    builtin.ai_model.clone()
}

pub fn default_embedding_model(builtin: &BuiltinModels) -> (r: String)
    ensures
        r@ == builtin.embedding_model@,
{
    builtin.embedding_model.clone()
}

impl Settings {
    /// The settings of a fresh profile.
    pub open spec fn is_default(self, builtin: BuiltinModels) -> bool {
        &&& self.theme@ == "system"@
        &&& self.language@ == "system"@
        &&& self.undo_send_seconds == 10
        &&& self.load_remote_images
        &&& self.ai_base_url@ == builtin.ai_base_url@
        &&& self.ai_model@ == builtin.ai_model@
        &&& self.ai_model_instant@.len() == 0
        &&& self.ai_model_cheap@.len() == 0
        &&& self.ai_model_intelligent@.len() == 0
        &&& self.ai_tier_ask@ == "intelligent"@
        &&& self.ai_tier_draft@ == "intelligent"@
        &&& self.ai_tier_summarize@ == "instant"@
        &&& self.ai_tier_voice@ == "cheap"@
        &&& self.google_client_id@.len() == 0
        &&& self.google_client_secret@.len() == 0
        &&& self.ms_client_id@.len() == 0
        &&& self.ms_client_secret@.len() == 0
        &&& self.embedding_backend@ == "local"@
        &&& self.embedding_model@ == builtin.embedding_model@
        &&& !self.voice_drafting
        &&& self.voice_profile@.len() == 0
        &&& self.voice_learned_at == 0
        &&& self.meeting_notify_lead_minutes == 10
        &&& self.meeting_call_phone@.len() == 0
        &&& self.notifications_enabled
        &&& self.sound_enabled
        &&& self.auto_advance
        &&& self.select_advance
        &&& self.auto_labels_enabled
        &&& !self.ai_categorize
        &&& self.ai_category_prompt@.len() == 0
        &&& self.ai_automation_rules@.len() == 0
        &&& self.ai_tier_categorize@ == "instant"@
        &&& self.group_by_date
        &&& !self.contact_suggest_all_accounts
        &&& self.dock_badge_enabled
        &&& self.dock_badge_source@ == "inbox"@
        &&& self.notification_scope@ == "important"@
        &&& self.notification_tabs@.len() == 0
        &&& self.signatures.entries().len() == 0
        &&& self.signature_list@.len() == 0
        &&& self.signature_defaults.entries().len() == 0
        &&& self.account_themes.entries().len() == 0
    }

    /// The settings of a fresh profile; the endpoint and the model names come
    /// from the build.
    pub fn with_builtin(builtin: &BuiltinModels) -> (r: Settings)
        ensures
            r.is_default(*builtin),
    {
        Settings {
            theme: owned("system"),
            language: default_language(),
            undo_send_seconds: 10,
            load_remote_images: true,
            ai_base_url: default_ai_base_url(builtin),
            ai_model: default_ai_model(builtin),
            ai_model_instant: String::new(),
            ai_model_cheap: String::new(),
            ai_model_intelligent: String::new(),
            ai_tier_ask: default_tier_intelligent(),
            ai_tier_draft: default_tier_intelligent(),
            ai_tier_summarize: default_tier_instant(),
            ai_tier_voice: default_tier_cheap(),
            google_client_id: String::new(),
            google_client_secret: String::new(),
            ms_client_id: String::new(),
            ms_client_secret: String::new(),
            embedding_backend: default_embedding_backend(),
            embedding_model: default_embedding_model(builtin),
            voice_drafting: false,
            voice_profile: String::new(),
            voice_learned_at: 0,
            meeting_notify_lead_minutes: default_notify_lead(),
            meeting_call_phone: String::new(),
            notifications_enabled: default_true(),
            sound_enabled: default_true(),
            auto_advance: default_true(),
            select_advance: default_true(),
            auto_labels_enabled: default_true(),
            ai_categorize: false,
            ai_category_prompt: String::new(),
            ai_automation_rules: Vec::new(),
            ai_tier_categorize: default_tier_instant(),
            group_by_date: default_true(),
            contact_suggest_all_accounts: false,
            dock_badge_enabled: default_true(),
            dock_badge_source: default_badge_source(),
            notification_scope: default_notification_scope(),
            notification_tabs: Vec::new(),
            signatures: Dict::new(),
            signature_list: Vec::new(),
            signature_defaults: Dict::new(),
            account_themes: Dict::new(),
        }
    }
}

/// The time of day in milliseconds since 1970: `chrono::Utc::now` with
/// `timestamp_millis`. Nothing is claimed of the clock.
#[verifier::external_body]
pub fn now_ms() -> i64 {
    chrono::Utc::now().timestamp_millis()
}

} // verus!
