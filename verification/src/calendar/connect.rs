//! Connecting a calendar server to an account.

use vstd::prelude::*;

use crate::error::{CoreError, ErrorView};
use crate::models::{ConnectCalendarArgs, Provider};
use crate::text::{
    blank, clone_opt, concat2, contains_str, has_text, is_blank, opt_text, owned, trim, trim_str,
};

verus! {

/// How the server is signed in to.
#[derive(Debug, Clone, PartialEq, Eq)]
pub enum DavLogin {
    /// With the account's OAuth token.
    Bearer,
    Basic(String, String),
}

/// Where and how a calendar is connected.
#[derive(Debug, Clone)]
pub struct Connection {
    pub kind: &'static str,
    pub base_url: String,
    pub username: Option<String>,
    pub login: DavLogin,
    /// The password to keep in the keyring once the server has answered.
    pub keep_password: Option<String>,
}

pub open spec fn is_google(kind: Seq<char>) -> bool {
    kind == "google"@
}

/// The address as it is called: `https` unless a scheme is given.
pub open spec fn server_url(url: Seq<char>) -> Seq<char> {
    if has_text(trim(url), "://"@) {
        trim(url)
    } else {
        "https://"@ + trim(url)
    }
}

/// Why a connection cannot be tried.
pub open spec fn connection_fault(args: ConnectCalendarArgs) -> Option<ErrorView> {
    if is_google(args.kind@) {
        None
    } else if args.url is None || is_blank(args.url->0@) {
        Some(ErrorView::CalDav("server URL is required"@))
    } else if args.password is None || args.password->0@.len() == 0 {
        Some(ErrorView::CalDav("password is required"@))
    } else {
        None
    }
}

/// A Google calendar needs nothing entered; any other needs a server and a
/// password, and nothing else stops it.
pub proof fn servers_need_an_address_and_a_password(args: ConnectCalendarArgs)
    ensures
        connection_fault(args) is None <==> args.kind@ == "google"@ || (args.url is Some
            && !is_blank(args.url->0@) && args.password is Some && args.password->0@.len() > 0),
{
}

/// An address with a scheme is called as it is; one without is called over https.
pub proof fn servers_are_called_over_https(url: Seq<char>)
    ensures
        has_text(trim(url), "://"@) ==> server_url(url) == trim(url),
        !has_text(trim(url), "://"@) ==> server_url(url) == "https://"@ + trim(url),
{
}

/// Reads what the user entered. Nothing is stored yet: discovery is the
/// connection test.
pub fn connection(args: &ConnectCalendarArgs, google_base: &str) -> (r: Result<
    Connection,
    CoreError,
>)
    ensures
        r is Ok <==> connection_fault(*args) is None,
        r is Err ==> connection_fault(*args) == Some((r->Err_0)@),
        r matches Ok(c) ==> {
            &&& opt_text(c.username) == opt_text(args.username)
            &&& is_google(args.kind@) ==> {
                &&& c.kind@ == "google"@
                &&& c.base_url@ == google_base@
                &&& c.login is Bearer
                &&& c.keep_password is None
            }
            &&& !is_google(args.kind@) ==> {
                &&& c.kind@ == "generic"@
                &&& c.base_url@ == server_url(args.url->0@)
                &&& c.login matches DavLogin::Basic(user, password) && {
                    &&& user@ == (match args.username {
                        Some(u) => u@,
                        None => Seq::<char>::empty(),
                    })
                    &&& password@ == args.password->0@
                }
                &&& opt_text(c.keep_password) == opt_text(args.password)
            }
        },
{
    if args.kind.as_str().eq("google") {
        return Ok(
            Connection {
                kind: "google",
                base_url: owned(google_base),
                username: clone_opt(&args.username),
                login: DavLogin::Bearer,
                keep_password: None,
            },
        );
    }
    let url: String = match &args.url {
        Some(u) => {
            if blank(u.as_str()) {
                return Err(CoreError::CalDav(owned("server URL is required")));
            }
            trim_str(u.as_str())
        },
        None => {
            return Err(CoreError::CalDav(owned("server URL is required")));
        },
    };
    let base_url: String = if contains_str(url.as_str(), "://") {
        url
    } else {
        concat2("https://", url.as_str())
    };
    let password: String = match &args.password {
        Some(p) => {
            if p.as_str().eq("") {
                proof {
                    reveal_strlit("");
                }
                return Err(CoreError::CalDav(owned("password is required")));
            }
            p.clone()
        },
        None => {
            return Err(CoreError::CalDav(owned("password is required")));
        },
    };
    proof {
        reveal_strlit("");
        assert(password@.len() == 0 ==> password@ =~= ""@);
    }
    let user: String = match &args.username {
        Some(u) => u.clone(),
        None => String::new(),
    };
    Ok(
        Connection {
            kind: "generic",
            base_url,
            username: clone_opt(&args.username),
            login: DavLogin::Basic(user, password),
            keep_password: clone_opt(&args.password),
        },
    )
}

/// A calendar that discovery found and stored.
#[derive(Debug, Clone, Copy, PartialEq, Eq, Structural)]
pub struct StoredCalendar {
    pub id: i64,
    /// The server calls it the default.
    pub is_default: bool,
}

/// The position of the first calendar that the server calls the default; the
/// number of calendars if it names none.
pub open spec fn named_default(found: Seq<StoredCalendar>) -> int
    decreases found.len(),
{
    if found.len() == 0 || found[0].is_default {
        0
    } else {
        1 + named_default(found.skip(1))
    }
}

/// The calendar that new events go to: the one already chosen, else the
/// server's default, else the first.
pub open spec fn default_choice(found: Seq<StoredCalendar>, has_default: bool) -> Option<i64> {
    if has_default || found.len() == 0 {
        None
    } else if named_default(found) < found.len() {
        Some(found[named_default(found)].id)
    } else {
        Some(found[0].id)
    }
}

proof fn lemma_named_default(found: Seq<StoredCalendar>, k: int)
    requires
        0 <= k <= found.len(),
        forall|j: int| 0 <= j < k ==> !(#[trigger] found[j]).is_default,
        k < found.len() ==> found[k].is_default,
    ensures
        named_default(found) == k,
    decreases k,
{
    if k > 0 {
        assert(!found[0].is_default);
        assert forall|j: int| 0 <= j < k - 1 implies !(#[trigger] found.skip(1)[j]).is_default by {
            assert(found.skip(1)[j] == found[j + 1]);
        }
        lemma_named_default(found.skip(1), k - 1);
    }
}

/// New events go to the calendar that was chosen before; where none was, to the
/// first that the server calls its default; where it names none, to the first.
pub proof fn new_events_go_to_the_default(found: Seq<StoredCalendar>, has_default: bool, k: int)
    requires
        0 <= k <= found.len(),
        forall|j: int| 0 <= j < k ==> !(#[trigger] found[j]).is_default,
        k < found.len() ==> found[k].is_default,
    ensures
        has_default ==> default_choice(found, has_default) is None,
        !has_default && k < found.len() ==> default_choice(found, has_default) == Some(found[k].id),
        !has_default && k == found.len() && k > 0 ==> default_choice(found, has_default) == Some(
            found[0].id,
        ),
        found.len() == 0 ==> default_choice(found, has_default) is None,
{
    lemma_named_default(found, k);
}

/// The calendar to make the default, if one is to be set.
pub fn default_to_set(found: &Vec<StoredCalendar>, has_default: bool) -> (r: Option<i64>)
    ensures
        r == default_choice(found@, has_default),
{
    if has_default || found.len() == 0 {
        return None;
    }
    let mut k: usize = 0;
    while k < found.len()
        invariant
            k <= found@.len(),
            !has_default,
            found@.len() > 0,
            forall|j: int| 0 <= j < k ==> !(#[trigger] found@[j]).is_default,
        decreases found@.len() - k,
    {
        if found[k].is_default {
            proof {
                lemma_named_default(found@, k as int);
            }
            return Some(found[k].id);
        }
        k = k + 1;
    }
    proof {
        lemma_named_default(found@, k as int);
    }
    Some(found[0].id)
}

/// Refuses an account whose provider has no such calendar.
pub fn check_google_account(provider: Provider) -> (r: Result<(), CoreError>)
    ensures
        r is Ok <==> provider == Provider::Gmail,
        r is Err ==> (r->Err_0)@ == ErrorView::CalDav("google calendar needs a Gmail account"@),
{
    match provider {
        Provider::Gmail => Ok(()),
        _ => Err(CoreError::CalDav(owned("google calendar needs a Gmail account"))),
    }
}

pub fn check_microsoft_account(provider: Provider) -> (r: Result<(), CoreError>)
    ensures
        r is Ok <==> provider == Provider::Microsoft,
        r is Err ==> (r->Err_0)@ == ErrorView::Auth("needs a Microsoft account"@),
{
    match provider {
        Provider::Microsoft => Ok(()),
        _ => Err(CoreError::Auth(owned("needs a Microsoft account"))),
    }
}

/// Refuses a listing of no calendars at all.
pub fn check_found(count: usize) -> (r: Result<(), CoreError>)
    ensures
        r is Ok <==> count > 0,
        r is Err ==> (r->Err_0)@ == ErrorView::CalDav("no calendars found"@),
{
    if count == 0 {
        Err(CoreError::CalDav(owned("no calendars found")))
    } else {
        Ok(())
    }
}

/// What follows an attempt to mint a token for one more scope.
#[derive(Debug)]
pub enum TokenStep {
    Use(String),
    /// The scope was never granted, or the refresh token is stale: consent is
    /// asked for in the browser, then the token is minted again.
    WidenConsent,
    Fail(CoreError),
}

pub fn after_token(attempt: Result<String, CoreError>) -> (r: TokenStep)
    ensures
        attempt matches Ok(t) ==> r == TokenStep::Use(t),
        attempt matches Err(e) ==> if e is NeedsReauth {
            r is WidenConsent
        } else {
            r == TokenStep::Fail(e)
        },
{
    match attempt {
        Ok(t) => TokenStep::Use(t),
        Err(CoreError::NeedsReauth) => TokenStep::WidenConsent,
        Err(e) => TokenStep::Fail(e),
    }
}

/// What the calendar task is asked to do on the server.
#[derive(Debug, Clone, Copy, PartialEq, Eq, Structural)]
pub enum CalPush {
    Put,
    Delete,
}

impl CalPush {
    /// The stored name of the action.
    pub open spec fn name(self) -> Seq<char> {
        match self {
            CalPush::Put => "cal_put"@,
            CalPush::Delete => "cal_delete"@,
        }
    }

    pub fn as_str(self) -> (r: &'static str)
        ensures
            r@ == self.name(),
    {
        match self {
            CalPush::Put => "cal_put",
            CalPush::Delete => "cal_delete",
        }
    }
}

/// A queued write to the calendar server.
#[derive(Debug, Clone, Copy, PartialEq, Eq, Structural)]
pub struct QueuedPush {
    pub kind: CalPush,
    /// Guards the row against a pull that runs before the push.
    pub mark_dirty: bool,
}

/// The write that a change of an event queues; none for an account without a
/// calendar server.
pub fn queued_push(kind: CalPush, connected: bool) -> (r: Option<QueuedPush>)
    ensures
        r == (if connected {
            Some(QueuedPush { kind, mark_dirty: kind == CalPush::Put })
        } else {
            None
        }),
        r is Some <==> connected,
        r is Some ==> r->0.kind == kind && (r->0.mark_dirty <==> kind is Put),
{
    if connected {
        let mark_dirty: bool = match kind {
            CalPush::Put => true,
            CalPush::Delete => false,
        };
        Some(QueuedPush { kind, mark_dirty })
    } else {
        None
    }
}

} // verus!
