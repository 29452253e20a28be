//! Adding accounts, signing in again, and asking accounts to sync.

use vstd::prelude::*;

use crate::error::{CoreError, ErrorView};
use crate::models::{
    Account, AddPasswordAccountArgs, AuthKind, ConnectionTestResult, Provider, Settings,
};
use crate::text::{
    clone_opt, concat2, concat3, decimal_int, eq_ignore_case, i64_text, lower, opt_text, owned,
};

verus! {

/// How long a caller waits for an account to finish its sync.
pub const SYNC_NOW_TIMEOUT_MS: u64 = 45_000;

/// An account row to insert.
#[derive(Debug, Clone)]
pub struct NewAccount {
    pub email: String,
    pub display_name: Option<String>,
    pub provider: Provider,
    pub auth_kind: AuthKind,
    pub username: String,
    pub imap_host: String,
    pub imap_port: u16,
    pub smtp_host: String,
    pub smtp_port: u16,
}

/// The servers of a provider.
#[derive(Debug, Clone)]
pub struct Servers {
    pub imap_host: String,
    pub imap_port: u16,
    pub smtp_host: String,
    pub smtp_port: u16,
}

/// The answer to a connection test. A failure is reported by its text.
pub fn connection_test(attempt: Result<(), String>) -> (r: ConnectionTestResult)
    ensures
        r.ok == attempt is Ok,
        r.error == (match attempt {
            Ok(_) => None,
            Err(e) => Some(e),
        }),
{
    match attempt {
        Ok(_) => ConnectionTestResult { ok: true, error: None },
        Err(e) => ConnectionTestResult { ok: false, error: Some(e) },
    }
}

/// The row of an account with a password. Nothing is stored unless the servers
/// took the credentials.
pub fn add_account_password(args: &AddPasswordAccountArgs, probe: ConnectionTestResult) -> (r:
    Result<NewAccount, CoreError>)
    ensures
        r is Ok <==> probe.ok,
        r matches Err(e) ==> e@ == ErrorView::Auth(
            match probe.error {
                Some(text) => text@,
                None => "connection failed"@,
            },
        ),
        r matches Ok(a) ==> {
            &&& a.email@ == args.email@
            &&& opt_text(a.display_name) == opt_text(args.display_name)
            &&& a.provider == Provider::Imap
            &&& a.auth_kind == AuthKind::Password
            &&& a.username@ == args.username@
            &&& a.imap_host@ == args.imap_host@
            &&& a.imap_port == args.imap_port
            &&& a.smtp_host@ == args.smtp_host@
            &&& a.smtp_port == args.smtp_port
        },
{
    if !probe.ok {
        return Err(
            CoreError::Auth(
                match probe.error {
                    Some(text) => text,
                    None => owned("connection failed"),
                },
            ),
        );
    }
    Ok(
        NewAccount {
            email: args.email.clone(),
            display_name: clone_opt(&args.display_name),
            provider: Provider::Imap,
            auth_kind: AuthKind::Password,
            username: args.username.clone(),
            imap_host: args.imap_host.clone(),
            imap_port: args.imap_port,
            smtp_host: args.smtp_host.clone(),
            smtp_port: args.smtp_port,
        },
    )
}

/// A permission beyond mail that a sign-in asks for.
#[derive(Debug, Clone, Copy, PartialEq, Eq, Structural)]
pub enum ExtraScope {
    OnlineMeetings,
    Calendars,
}

/// What the first sign-in asks for. Microsoft: the permissions for meetings and
/// calendars are folded in, so that no second prompt is needed.
pub fn sign_in_scopes(provider: Provider) -> (r: Vec<ExtraScope>)
    ensures
        r@ == (if provider == Provider::Microsoft {
            seq![ExtraScope::OnlineMeetings, ExtraScope::Calendars]
        } else {
            Seq::empty()
        }),
{
    let mut out: Vec<ExtraScope> = Vec::new();
    match provider {
        Provider::Microsoft => {
            out.push(ExtraScope::OnlineMeetings);
            out.push(ExtraScope::Calendars);
        },
        _ => {},
    }
    out
}

/// What signing in again asks for. Only OAuth mailboxes sign in again in the
/// browser.
pub fn reauth_scopes(provider: Provider) -> (r: Result<Vec<ExtraScope>, CoreError>)
    ensures
        r is Ok <==> provider != Provider::Imap,
        r is Err ==> (r->Err_0)@ == ErrorView::Auth("not an oauth provider"@),
        r matches Ok(v) ==> v@ == (if provider == Provider::Microsoft {
            seq![ExtraScope::OnlineMeetings]
        } else {
            Seq::empty()
        }),
{
    let mut out: Vec<ExtraScope> = Vec::new();
    match provider {
        Provider::Microsoft => {
            out.push(ExtraScope::OnlineMeetings);
            Ok(out)
        },
        Provider::Gmail => Ok(out),
        Provider::Imap => Err(CoreError::Auth(owned("not an oauth provider"))),
    }
}

/// The failure of a sign-in that the user gave up.
pub fn sign_in_cancelled() -> (r: CoreError)
    ensures
        r@ == ErrorView::Auth("sign-in cancelled"@),
{
    CoreError::Auth(owned("sign-in cancelled"))
}

/// The row of an account that signed in by OAuth.
pub fn oauth_account(provider: Provider, email: &str, gmail: Servers, microsoft: Servers) -> (r:
    Result<NewAccount, CoreError>)
    ensures
        r is Ok <==> provider != Provider::Imap,
        r is Err ==> (r->Err_0)@ == ErrorView::Auth("not an oauth provider"@),
        r matches Ok(a) ==> {
            let servers = if provider == Provider::Gmail {
                gmail
            } else {
                microsoft
            };
            &&& a.email@ == email@
            &&& a.display_name is None
            &&& a.provider == provider
            &&& a.auth_kind == AuthKind::Oauth2
            &&& a.username@ == email@
            &&& a.imap_host == servers.imap_host
            &&& a.imap_port == servers.imap_port
            &&& a.smtp_host == servers.smtp_host
            &&& a.smtp_port == servers.smtp_port
        },
{
    let servers: Servers = match provider {
        Provider::Gmail => gmail,
        Provider::Microsoft => microsoft,
        Provider::Imap => {
            return Err(CoreError::Auth(owned("not an oauth provider")));
        },
    };
    Ok(
        NewAccount {
            email: owned(email),
            display_name: None,
            provider,
            auth_kind: AuthKind::Oauth2,
            username: owned(email),
            imap_host: servers.imap_host,
            imap_port: servers.imap_port,
            smtp_host: servers.smtp_host,
            smtp_port: servers.smtp_port,
        },
    )
}

/// Refuses to graft the tokens of another mailbox onto an account: signing in
/// as a different address adds an account.
pub fn check_signed_in_as(signed_in: &str, account_email: &str) -> (r: Result<(), CoreError>)
    ensures
        r is Ok <==> lower(signed_in@) == lower(account_email@),
        r is Err ==> (r->Err_0)@ == ErrorView::Auth(
            "signed in as "@ + signed_in@ + " but this account is "@ + account_email@,
        ),
{
    if eq_ignore_case(signed_in, account_email) {
        return Ok(());
    }
    let head: String = concat3("signed in as ", signed_in, " but this account is ");
    Err(CoreError::Auth(concat2(head.as_str(), account_email)))
}

/// Refuses a wider consent that was given for another mailbox.
pub fn check_consent_of(granted: &str, account_email: &str) -> (r: Result<(), CoreError>)
    ensures
        r is Ok <==> lower(granted@) == lower(account_email@),
        r is Err ==> (r->Err_0)@ == ErrorView::Auth(
            "consent was granted for "@ + granted@ + " - expected "@ + account_email@,
        ),
{
    if eq_ignore_case(granted, account_email) {
        return Ok(());
    }
    let head: String = concat3("consent was granted for ", granted, " - expected ");
    Err(CoreError::Auth(concat2(head.as_str(), account_email)))
}

/// How an account takes up fresh tokens.
#[derive(Debug, Clone, Copy, PartialEq, Eq, Structural)]
pub enum Resume {
    /// Its actor is paused and retries on the next sync.
    SyncNow,
    /// No actor lives: one is started.
    Spawn,
}

pub fn resume_after_reauth(actor_lives: bool) -> (r: Resume)
    ensures
        r == (if actor_lives {
            Resume::SyncNow
        } else {
            Resume::Spawn
        }),
{
    if actor_lives {
        Resume::SyncNow
    } else {
        Resume::Spawn
    }
}

/// The accounts that a sync is asked of: the one named, else all that run.
pub fn sync_targets(account_id: Option<i64>, running: &Vec<i64>) -> (r: Result<
    Vec<i64>,
    CoreError,
>)
    ensures
        r is Err <==> account_id is Some && !running@.contains(account_id->0),
        r is Err ==> (r->Err_0)@ == ErrorView::NotFound(
            "account "@ + decimal_int(account_id->0 as int),
        ),
        r matches Ok(v) ==> v@ == (match account_id {
            Some(id) => seq![id],
            None => running@,
        }),
{
    match account_id {
        Some(id) => {
            if crate::lists::contains_id(running, id) {
                let mut out: Vec<i64> = Vec::new();
                out.push(id);
                Ok(out)
            } else {
                let number: String = i64_text(id);
                Err(CoreError::NotFound(concat2("account ", number.as_str())))
            }
        },
        None => Ok(running.clone()),
    }
}

/// What an account answered to a sync request.
#[derive(Debug)]
pub enum SyncReply {
    TimedOut,
    ActorStopped,
    Done,
    Failed(String),
}

/// Why the request as a whole fails: the first account that did not finish.
pub open spec fn sync_fault(replies: Seq<SyncReply>) -> Option<ErrorView>
    decreases replies.len(),
{
    if replies.len() == 0 {
        None
    } else {
        match replies[0] {
            SyncReply::TimedOut => Some(ErrorView::Other("Inbox sync timed out"@)),
            SyncReply::ActorStopped => Some(ErrorView::Other("sync actor stopped"@)),
            SyncReply::Failed(e) => Some(ErrorView::Other(e@)),
            SyncReply::Done => sync_fault(replies.skip(1)),
        }
    }
}

/// A sync has succeeded exactly when every account that was asked has finished;
/// otherwise the first that has not says why.
pub proof fn every_account_has_to_finish(replies: Seq<SyncReply>, i: int)
    requires
        0 <= i < replies.len(),
        forall|j: int| 0 <= j < i ==> (#[trigger] replies[j]) is Done,
    ensures
        (forall|j: int| 0 <= j < replies.len() ==> (#[trigger] replies[j]) is Done) ==> sync_fault(
            replies,
        ) is None,
        replies[i] is TimedOut ==> sync_fault(replies) == Some(
            ErrorView::Other("Inbox sync timed out"@),
        ),
        replies[i] is ActorStopped ==> sync_fault(replies) == Some(
            ErrorView::Other("sync actor stopped"@),
        ),
        replies[i] matches SyncReply::Failed(e) ==> sync_fault(replies) == Some(
            ErrorView::Other(e@),
        ),
    decreases replies.len(),
{
    if replies[0] is Done {
        let rest = replies.skip(1);
        assert(forall|j: int| 0 <= j < rest.len() ==> rest[j] == #[trigger] replies[j + 1]);
        if forall|j: int| 0 <= j < replies.len() ==> (#[trigger] replies[j]) is Done {
            assert(forall|j: int| 0 <= j < rest.len() ==> (#[trigger] rest[j]) is Done);
            if rest.len() > 0 {
                every_account_has_to_finish(rest, 0);
            }
        }
        if i > 0 {
            assert forall|j: int| 0 <= j < i - 1 implies (#[trigger] rest[j]) is Done by {
                assert(replies[j + 1] is Done);
            }
            every_account_has_to_finish(rest, i - 1);
        }
    }
}

pub fn sync_outcome(replies: &Vec<SyncReply>) -> (r: Result<(), CoreError>)
    ensures
        r is Ok <==> sync_fault(replies@) is None,
        r is Err ==> sync_fault(replies@) == Some((r->Err_0)@),
{
    let mut i: usize = 0;
    proof {
        assert(replies@.skip(0) =~= replies@);
    }
    while i < replies.len()
        invariant
            i <= replies@.len(),
            sync_fault(replies@.skip(i as int)) == sync_fault(replies@),
        decreases replies@.len() - i,
    {
        proof {
            assert(replies@.skip(i as int).skip(1) =~= replies@.skip(i + 1));
        }
        match &replies[i] {
            SyncReply::TimedOut => {
                return Err(CoreError::Other(owned("Inbox sync timed out")));
            },
            SyncReply::ActorStopped => {
                return Err(CoreError::Other(owned("sync actor stopped")));
            },
            SyncReply::Failed(e) => {
                return Err(CoreError::Other(e.clone()));
            },
            SyncReply::Done => {},
        }
        i = i + 1;
    }
    Ok(())
}

/// An OAuth application that the user has registered themselves.
#[derive(Debug, Clone)]
pub struct OauthApp {
    pub provider: Provider,
    pub client_id: String,
    pub client_secret: String,
}

/// The registrations that the settings hold.
pub fn apply_oauth_settings(settings: &Settings) -> (r: (OauthApp, OauthApp))
    ensures
        r.0.provider == Provider::Gmail,
        r.0.client_id@ == settings.google_client_id@,
        r.0.client_secret@ == settings.google_client_secret@,
        r.1.provider == Provider::Microsoft,
        r.1.client_id@ == settings.ms_client_id@,
        r.1.client_secret@ == settings.ms_client_secret@,
{
    (
        OauthApp {
            provider: Provider::Gmail,
            client_id: settings.google_client_id.clone(),
            client_secret: settings.google_client_secret.clone(),
        },
        OauthApp {
            provider: Provider::Microsoft,
            client_id: settings.ms_client_id.clone(),
            client_secret: settings.ms_client_secret.clone(),
        },
    )
}

/// Finds an account row that has to be there.
pub fn account_found(account: Option<Account>) -> (r: Result<Account, CoreError>)
    ensures
        account matches Some(a) ==> r == Ok::<Account, CoreError>(a),
        account is None ==> r is Err && (r->Err_0)@ == ErrorView::NotFound("account"@),
{
    match account {
        Some(a) => Ok(a),
        None => Err(CoreError::NotFound(owned("account"))),
    }
}

} // verus!
