//! RFC 8058 one-click unsubscribe (and RFC 2369 mailto / HTTPS fallbacks).
//!
//! Clients that advertise `List-Unsubscribe-Post: List-Unsubscribe=One-Click`
//! must be unsubscribed with an HTTPS POST body `List-Unsubscribe=One-Click`
//! (no cookies, no credentials, no redirect-following on POST). Opening the
//! URL in a browser is a fallback only when One-Click is not advertised.

use vstd::prelude::*;
use vstd::slice::slice_subrange;
use vstd::utf8::encode_utf8;

use crate::bytes::{lossy_text, text_of};
use crate::error::{CoreError, ErrorView};
use crate::text::{
    before, chars_match_at, chars_of, concat3, decimal, eq_ignore_case, find_char, find_char_in,
    lemma_blank, lemma_find_char, lemma_find_char_is, lower, lower_chars, opt_str, opt_text, owned,
    pieces, split, split_chars,
    split_once, splitting_loses_nothing, starts_with, starts_with_ignore_case, string_of, strip,
    strip_chars, strip_end, strip_start, texts, texts_are_split_at_the_first, trim, trim_chars, u64_text, TrimSet,
};

verus! {

pub const ONE_CLICK_BODY: &'static str = "List-Unsubscribe=One-Click";

#[derive(Debug, Clone, PartialEq, Eq)]
pub struct MailtoUnsubscribe {
    pub to: String,
    pub subject: Option<String>,
    pub body: Option<String>,
}

#[derive(Debug, Clone, PartialEq, Eq)]
pub struct UnsubscribeResult {
    pub ok: bool,
    /// `"one_click"` | `"needs_browser"` | `"mailto"`
    pub method: String,
    pub status: Option<u16>,
    /// HTTPS URL for `needs_browser` (or the URL that was POSTed on success).
    pub url: Option<String>,
    pub mailto: Option<MailtoUnsubscribe>,
    pub error: Option<String>,
}

/// A mailto target by what its fields hold.
pub struct MailtoView {
    pub to: Seq<char>,
    pub subject: Option<Seq<char>>,
    pub body: Option<Seq<char>>,
}

impl View for MailtoUnsubscribe {
    type V = MailtoView;

    open spec fn view(&self) -> MailtoView {
        MailtoView {
            to: self.to@,
            subject: opt_text(self.subject),
            body: opt_text(self.body),
        }
    }
}

/// An unsubscribe result by what its fields hold.
pub struct UnsubscribeView {
    pub ok: bool,
    pub method: Seq<char>,
    pub status: Option<u16>,
    pub url: Option<Seq<char>>,
    pub mailto: Option<MailtoView>,
    pub error: Option<Seq<char>>,
}

impl View for UnsubscribeResult {
    type V = UnsubscribeView;

    open spec fn view(&self) -> UnsubscribeView {
        UnsubscribeView {
            ok: self.ok,
            method: self.method@,
            status: self.status,
            url: opt_text(self.url),
            mailto: match self.mailto {
                Some(m) => Some(m@),
                None => None,
            },
            error: opt_text(self.error),
        }
    }
}

// ---------------------------------------------------------------------------
// Headers
// ---------------------------------------------------------------------------

/// The header advertises One-Click.
pub open spec fn one_click_advertised(post: Option<Seq<char>>) -> bool {
    match post {
        Some(p) => lower(trim(p)) == lower(ONE_CLICK_BODY@),
        None => false,
    }
}

/// True when `List-Unsubscribe-Post` advertises RFC 8058 One-Click.
pub fn advertises_one_click(post: Option<&str>) -> (r: bool)
    ensures
        r == one_click_advertised(opt_str(post)),
        post matches Some(p) ==> (r <==> lower(trim(p@)) == lower("List-Unsubscribe=One-Click"@)),
        post is None ==> !r,
{
    match post {
        Some(p) => {
            let t: String = crate::text::trim_str(p);
            eq_ignore_case(t.as_str(), ONE_CLICK_BODY)
        },
        None => false,
    }
}

/// The URI that stands between the `<` at `i` and the next `>`, where there is
/// one and it is not blank.
pub open spec fn bracketed_at(raw: Seq<char>, i: int) -> Option<Seq<char>> {
    let rest = raw.skip(i + 1);
    let end = find_char(rest, '>');
    let uri = trim(rest.take(end));
    if raw[i] == '<' && end < rest.len() && uri.len() > 0 {
        Some(uri)
    } else {
        None
    }
}

/// The URIs in angle brackets that open before position `n`, in order.
pub open spec fn bracketed_before(raw: Seq<char>, n: int) -> Seq<Seq<char>>
    decreases n,
{
    if n <= 0 {
        Seq::empty()
    } else {
        match bracketed_at(raw, n - 1) {
            Some(uri) => bracketed_before(raw, n - 1).push(uri),
            None => bracketed_before(raw, n - 1),
        }
    }
}

/// The pieces without white space and then angle brackets around them; those
/// of which nothing is left are dropped.
pub open spec fn bare_uris(parts: Seq<Seq<char>>) -> Seq<Seq<char>>
    decreases parts.len(),
{
    if parts.len() == 0 {
        Seq::empty()
    } else {
        let uri = strip(trim(parts.last()), TrimSet::AngleBracket);
        let rest = bare_uris(parts.drop_last());
        if uri.len() > 0 {
            rest.push(uri)
        } else {
            rest
        }
    }
}

/// The URIs of a `List-Unsubscribe` header.
pub open spec fn header_uris(raw: Seq<char>) -> Seq<Seq<char>> {
    let bracketed = bracketed_before(raw, raw.len() as int);
    if bracketed.len() > 0 {
        bracketed
    } else {
        bare_uris(split(raw, ','))
    }
}

/// Extract URI entries from a raw `List-Unsubscribe` header value.
/// Prefers angle-bracket form (`<https://…>, <mailto:…>`); falls back to
/// comma-split bare URIs (some ESPs omit brackets).
pub fn parse_unsubscribe_uris(raw: &str) -> (r: Vec<String>)
    ensures
        texts(r@) == header_uris(raw@),
{
    let cs: Vec<char> = chars_of(raw);
    let mut out: Vec<String> = Vec::new();
    let mut i: usize = 0;
    while i < cs.len()
        invariant
            i <= cs@.len(),
            texts(out@) == bracketed_before(cs@, i as int),
        decreases cs@.len() - i,
    {
        if cs[i] == '<' {
            let rest: &[char] = slice_subrange(cs.as_slice(), i + 1, cs.len());
            proof {
                assert(rest@ =~= cs@.skip(i + 1));
                lemma_find_char(rest@, '>');
            }
            let end: usize = find_char_in(rest, '>');
            if end < rest.len() {
                let inner: &[char] = slice_subrange(rest, 0, end);
                proof {
                    assert(inner@ =~= rest@.take(end as int));
                }
                let uri: &[char] = trim_chars(inner);
                if uri.len() != 0 {
                    let ghost before = out@;
                    out.push(string_of(uri));
                    proof {
                        assert(texts(out@) =~= texts(before).push(uri@));
                    }
                }
            }
        }
        i = i + 1;
    }
    if out.len() != 0 {
        proof {
            assert(texts(out@).len() == out@.len());
        }
        return out;
    }
    proof {
        assert(texts(out@).len() == 0);
    }
    let parts: Vec<Vec<char>> = split_chars(cs.as_slice(), ',');
    let mut bare: Vec<String> = Vec::new();
    let mut k: usize = 0;
    while k < parts.len()
        invariant
            k <= parts@.len(),
            texts(bare@) == bare_uris(pieces(parts@).take(k as int)),
        decreases parts@.len() - k,
    {
        let piece: &[char] = trim_chars(parts[k].as_slice());
        let uri: &[char] = strip_chars(piece, TrimSet::AngleBracket);
        proof {
            assert(pieces(parts@).take(k + 1).drop_last() =~= pieces(parts@).take(k as int));
        }
        if uri.len() != 0 {
            let ghost before = bare@;
            bare.push(string_of(uri));
            proof {
                assert(texts(bare@) =~= texts(before).push(uri@));
            }
        }
        k = k + 1;
    }
    proof {
        assert(pieces(parts@).take(parts@.len() as int) =~= pieces(parts@));
    }
    bare
}

/// The first text that starts with `scheme` in any spelling of case.
pub open spec fn first_with(uris: Seq<Seq<char>>, scheme: Seq<char>) -> Option<Seq<char>>
    decreases uris.len(),
{
    if uris.len() == 0 {
        None
    } else if starts_with(lower(uris[0]), scheme) {
        Some(uris[0])
    } else {
        first_with(uris.drop_first(), scheme)
    }
}

fn find_scheme<'a>(uris: &'a [String], scheme: &str) -> (r: Option<&'a str>)
    ensures
        opt_str(r) == first_with(texts(uris@), scheme@),
{
    let mut i: usize = 0;
    proof {
        assert(texts(uris@).skip(0) =~= texts(uris@));
    }
    while i < uris.len()
        invariant
            i <= uris@.len(),
            first_with(texts(uris@), scheme@) == first_with(texts(uris@).skip(i as int), scheme@),
        decreases uris@.len() - i,
    {
        if starts_with_ignore_case(uris[i].as_str(), scheme) {
            return Some(uris[i].as_str());
        }
        proof {
            assert(texts(uris@).skip(i as int).drop_first() =~= texts(uris@).skip(i + 1));
        }
        i = i + 1;
    }
    None
}

pub fn first_https_uri(uris: &[String]) -> (r: Option<&str>)
    ensures
        opt_str(r) == first_with(texts(uris@), "https://"@),
{
    find_scheme(uris, "https://")
}

pub fn first_mailto_uri(uris: &[String]) -> (r: Option<&str>)
    ensures
        opt_str(r) == first_with(texts(uris@), "mailto:"@),
{
    find_scheme(uris, "mailto:")
}

// ---------------------------------------------------------------------------
// mailto
// ---------------------------------------------------------------------------

/// The value of a hexadecimal digit.
pub open spec fn hex_digit(b: u8) -> Option<int> {
    if 48 <= b <= 57 {
        Some(b - 48)
    } else if 97 <= b <= 102 {
        Some(b - 87)
    } else if 65 <= b <= 70 {
        Some(b - 55)
    } else {
        None
    }
}

/// The bytes with `+` read as a space and `%xy` as the byte `xy`; a `%` that
/// two hexadecimal digits do not follow stands for itself.
pub open spec fn percent_decoded(b: Seq<u8>) -> Seq<u8>
    decreases b.len(),
{
    if b.len() == 0 {
        Seq::empty()
    } else if b[0] == 43 {
        seq![32u8] + percent_decoded(b.skip(1))
    } else if b[0] == 37 && b.len() > 2 && hex_digit(b[1]) is Some && hex_digit(b[2]) is Some {
        seq![(hex_digit(b[1])->0 * 16 + hex_digit(b[2])->0) as u8] + percent_decoded(b.skip(3))
    } else {
        seq![b[0]] + percent_decoded(b.skip(1))
    }
}

fn hex_value(b: u8) -> (r: Option<u8>)
    ensures
        match r {
            Some(v) => hex_digit(b) == Some(v as int) && v < 16,
            None => hex_digit(b) is None,
        },
{
    if 48 <= b && b <= 57 {
        Some(b - 48)
    } else if 97 <= b && b <= 102 {
        Some(b - 87)
    } else if 65 <= b && b <= 70 {
        Some(b - 55)
    } else {
        None
    }
}

/// Percent-decoding of a query value, on bytes.
pub fn percent_decode(bytes: &[u8]) -> (r: Vec<u8>)
    ensures
        r@ == percent_decoded(bytes@),
{
    let mut out: Vec<u8> = Vec::new();
    let mut i: usize = 0;
    let n: usize = bytes.len();
    proof {
        assert(bytes@.skip(0) =~= bytes@);
        assert(out@ + percent_decoded(bytes@) =~= percent_decoded(bytes@));
    }
    while i < n
        invariant
            n == bytes@.len(),
            i <= n,
            out@ + percent_decoded(bytes@.skip(i as int)) == percent_decoded(bytes@),
        decreases n - i,
    {
        let ghost rest = bytes@.skip(i as int);
        let ghost before = out@;
        let b: u8 = bytes[i];
        proof {
            assert(rest.skip(1) =~= bytes@.skip(i + 1));
        }
        if b == 43 {
            out.push(32);
            i = i + 1;
            proof {
                assert(out@ + percent_decoded(bytes@.skip(i as int)) =~= before
                    + percent_decoded(rest));
            }
        } else {
            let pair: Option<(u8, u8)> = if b == 37 && n - i > 2 {
                match (hex_value(bytes[i + 1]), hex_value(bytes[i + 2])) {
                    (Some(hi), Some(lo)) => Some((hi, lo)),
                    _ => None,
                }
            } else {
                None
            };
            match pair {
                Some((hi, lo)) => {
                    out.push(hi * 16 + lo);
                    i = i + 3;
                    proof {
                        assert(rest.skip(3) =~= bytes@.skip(i as int));
                        assert(out@ + percent_decoded(bytes@.skip(i as int)) =~= before
                            + percent_decoded(rest));
                    }
                },
                None => {
                    out.push(b);
                    i = i + 1;
                    proof {
                        assert(out@ + percent_decoded(bytes@.skip(i as int)) =~= before
                            + percent_decoded(rest));
                    }
                },
            }
        }
    }
    proof {
        assert(bytes@.skip(n as int) =~= Seq::empty());
        assert(out@ + Seq::<u8>::empty() =~= out@);
    }
    out
}

/// The text of a query value: what its bytes encode, with what cannot be read
/// replaced.
pub open spec fn query_text(v: Seq<char>) -> Seq<char> {
    text_of(percent_decoded(encode_utf8(v)))
}

pub fn urlencoding_decode(s: &str) -> (r: String)
    ensures
        r@ == query_text(s@),
{
    let out: Vec<u8> = percent_decode(s.as_bytes());
    lossy_text(out.as_slice())
}

/// The value of the last `name=value` pair with this name, in any spelling of
/// case.
pub open spec fn last_value(pairs: Seq<Seq<char>>, name: Seq<char>) -> Option<Seq<char>>
    decreases pairs.len(),
{
    if pairs.len() == 0 {
        None
    } else {
        match split_once(pairs.last(), '=') {
            Some((k, v)) if lower(k) == name => Some(query_text(v)),
            _ => last_value(pairs.drop_last(), name),
        }
    }
}

/// The mailto target of a URI.
pub open spec fn mailto_target(uri: Seq<char>) -> Option<MailtoView> {
    let rest = uri.skip(7);
    let (addr, query) = match split_once(rest, '?') {
        Some((a, q)) => (a, Some(q)),
        None => (rest, None),
    };
    let to = trim(addr);
    if !starts_with(lower(uri), "mailto:"@) || to.len() == 0 {
        None
    } else {
        Some(
            MailtoView {
                to,
                subject: match query {
                    Some(q) => last_value(split(q, '&'), "subject"@),
                    None => None,
                },
                body: match query {
                    Some(q) => last_value(split(q, '&'), "body"@),
                    None => None,
                },
            },
        )
    }
}

fn last_param(pairs: &Vec<Vec<char>>, name: &str) -> (r: Option<String>)
    ensures
        opt_text(r) == last_value(pieces(pairs@), name@),
{
    let mut k: usize = pairs.len();
    let wanted: Vec<char> = chars_of(name);
    proof {
        assert(pieces(pairs@).take(k as int) =~= pieces(pairs@));
    }
    while k > 0
        invariant
            k <= pairs@.len(),
            wanted@ == name@,
            last_value(pieces(pairs@), name@) == last_value(
                pieces(pairs@).take(k as int),
                name@,
            ),
        decreases k,
    {
        let pair: &Vec<char> = &pairs[k - 1];
        let ghost upto = pieces(pairs@).take(k as int);
        proof {
            assert(upto.last() == pair@);
            assert(upto.drop_last() =~= pieces(pairs@).take(k - 1));
            lemma_find_char(pair@, '=');
        }
        let eq: usize = find_char_in(pair.as_slice(), '=');
        if eq < pair.len() {
            let key: &[char] = slice_subrange(pair.as_slice(), 0, eq);
            let low: Vec<char> = lower_chars(key);
            proof {
                assert(key@ =~= pair@.take(eq as int));
            }
            if crate::text::chars_eq(low.as_slice(), wanted.as_slice()) {
                let value: &[char] = slice_subrange(pair.as_slice(), eq + 1, pair.len());
                proof {
                    assert(value@ =~= pair@.skip(eq + 1));
                }
                let v: String = string_of(value);
                return Some(urlencoding_decode(v.as_str()));
            }
        }
        k = k - 1;
    }
    None
}

/// Parse `mailto:addr?subject=…&body=…` (query values are percent-decoded).
pub fn parse_mailto(uri: &str) -> (r: Option<MailtoUnsubscribe>)
    ensures
        match r {
            Some(m) => mailto_target(uri@) == Some(m@),
            None => mailto_target(uri@) is None,
        },
{
    let cs: Vec<char> = chars_of(uri);
    let prefix: Vec<char> = chars_of("mailto:");
    let low: Vec<char> = lower_chars(cs.as_slice());
    proof {
        reveal_strlit("mailto:");
    }
    if !chars_match_at(low.as_slice(), prefix.as_slice(), 0) {
        return None;
    }
    let rest: &[char] = slice_subrange(cs.as_slice(), 7, cs.len());
    proof {
        assert(rest@ =~= uri@.skip(7));
        lemma_find_char(rest@, '?');
    }
    let q: usize = find_char_in(rest, '?');
    let addr: &[char] = slice_subrange(rest, 0, q);
    proof {
        assert(addr@ =~= rest@.take(q as int));
        assert(rest@.take(rest@.len() as int) =~= rest@);
    }
    let to: &[char] = trim_chars(addr);
    if to.len() == 0 {
        return None;
    }
    if q < rest.len() {
        let query: &[char] = slice_subrange(rest, q + 1, rest.len());
        proof {
            assert(query@ =~= rest@.skip(q + 1));
        }
        let pairs: Vec<Vec<char>> = split_chars(query, '&');
        Some(
            MailtoUnsubscribe {
                to: string_of(to),
                subject: last_param(&pairs, "subject"),
                body: last_param(&pairs, "body"),
            },
        )
    } else {
        Some(MailtoUnsubscribe { to: string_of(to), subject: None, body: None })
    }
}

// ---------------------------------------------------------------------------
// The plan
// ---------------------------------------------------------------------------

pub open spec fn nothing_to_do(why: Seq<char>) -> UnsubscribeView {
    UnsubscribeView {
        ok: false,
        method: "one_click"@,
        status: None,
        url: None,
        mailto: None,
        error: Some(why),
    }
}

/// What to do about a message with these headers.
pub open spec fn unsubscribe_plan(
    list: Option<Seq<char>>,
    post: Option<Seq<char>>,
) -> UnsubscribeView {
    if list is None || trim(list->0).len() == 0 {
        nothing_to_do("no List-Unsubscribe header"@)
    } else {
        let uris = header_uris(trim(list->0));
        let mailto = match first_with(uris, "mailto:"@) {
            Some(u) => mailto_target(u),
            None => None,
        };
        match (first_with(uris, "https://"@), mailto) {
            (Some(url), _) => UnsubscribeView {
                ok: false,
                method: if one_click_advertised(post) {
                    "one_click"@
                } else {
                    "needs_browser"@
                },
                status: None,
                url: Some(url),
                mailto: None,
                error: None,
            },
            (None, Some(m)) => UnsubscribeView {
                ok: false,
                method: "mailto"@,
                status: None,
                url: None,
                mailto: Some(m),
                error: None,
            },
            (None, None) => nothing_to_do("no usable https or mailto unsubscribe target"@),
        }
    }
}

fn nothing(why: &str) -> (r: UnsubscribeResult)
    ensures
        r@ == nothing_to_do(why@),
{
    UnsubscribeResult {
        ok: false,
        method: owned("one_click"),
        status: None,
        url: None,
        mailto: None,
        error: Some(owned(why)),
    }
}

/// Decide the unsubscribe action without performing the HTTP POST.
pub fn plan_unsubscribe(list_unsubscribe: Option<&str>, list_unsubscribe_post: Option<&str>) -> (r:
    UnsubscribeResult)
    ensures
        r@ == unsubscribe_plan(opt_str(list_unsubscribe), opt_str(list_unsubscribe_post)),
{
    let raw: String = match list_unsubscribe {
        Some(s) => crate::text::trim_str(s),
        None => return nothing("no List-Unsubscribe header"),
    };
    if raw.as_str().unicode_len() == 0 {
        return nothing("no List-Unsubscribe header");
    }
    let uris: Vec<String> = parse_unsubscribe_uris(raw.as_str());
    if let Some(url) = first_https_uri(uris.as_slice()) {
        let method: String = if advertises_one_click(list_unsubscribe_post) {
            owned("one_click")
        } else {
            owned("needs_browser")
        };
        return UnsubscribeResult {
            ok: false,
            method,
            status: None,
            url: Some(owned(url)),
            mailto: None,
            error: None,
        };
    }
    let mailto: Option<MailtoUnsubscribe> = match first_mailto_uri(uris.as_slice()) {
        Some(u) => parse_mailto(u),
        None => None,
    };
    match mailto {
        Some(m) => UnsubscribeResult {
            ok: false,
            method: owned("mailto"),
            status: None,
            url: None,
            mailto: Some(m),
            error: None,
        },
        None => nothing("no usable https or mailto unsubscribe target"),
    }
}

// ---------------------------------------------------------------------------
// The request
// ---------------------------------------------------------------------------

/// The URL to POST to at once: a one-click plan with a URL.
pub open spec fn post_url(plan: UnsubscribeView) -> Option<Seq<char>> {
    if plan.method == "one_click"@ {
        plan.url
    } else {
        None
    }
}

/// One-Click POST when advertised; otherwise the plan is for the UI to finish.
pub fn post_target(plan: &UnsubscribeResult) -> (r: Option<&String>)
    ensures
        match r {
            Some(u) => post_url(plan@) == Some(u@),
            None => post_url(plan@) is None,
        },
{
    if plan.method.as_str().eq("one_click") {
        match &plan.url {
            Some(u) => Some(u),
            None => None,
        }
    } else {
        None
    }
}

/// A URL may be POSTed to.
pub open spec fn is_https(url: Seq<char>) -> bool {
    starts_with(lower(url), "https://"@)
}

pub open spec fn one_click_result(
    ok: bool,
    method: Seq<char>,
    status: Option<u16>,
    url: Seq<char>,
    error: Option<Seq<char>>,
) -> UnsubscribeView {
    UnsubscribeView { ok, method, status, url: Some(url), mailto: None, error }
}

/// What came of a POST.
#[derive(Debug, Clone)]
pub enum PostReply {
    /// No client could be built.
    NoClient(String),
    /// The server answered with this status.
    Status(u16),
    /// The request did not get an answer.
    Failed(String),
}

/// What a reply means: only a 2xx status is success, a redirect is for the
/// user to follow, and anything else is a failure.
pub open spec fn reply_result(url: Seq<char>, reply: PostReply) -> UnsubscribeView {
    match reply {
        PostReply::NoClient(e) => one_click_result(
            false,
            "one_click"@,
            None,
            url,
            Some("http client: "@ + e@),
        ),
        PostReply::Status(code) => if 200 <= code < 300 {
            one_click_result(true, "one_click"@, Some(code), url, None)
        } else if 300 <= code < 400 {
            one_click_result(
                false,
                "needs_browser"@,
                Some(code),
                url,
                Some(
                    "sender redirected POST ("@ + decimal(code as nat)
                        + "); open in browser to confirm"@,
                ),
            )
        } else {
            one_click_result(
                false,
                "one_click"@,
                Some(code),
                url,
                Some("unsubscribe POST returned "@ + decimal(code as nat)),
            )
        },
        PostReply::Failed(e) => one_click_result(false, "one_click"@, None, url, Some(e@)),
    }
}

fn one_click(ok: bool, method: &str, status: Option<u16>, url: &str, error: Option<String>) -> (r:
    UnsubscribeResult)
    ensures
        r@ == one_click_result(ok, method@, status, url@, opt_text(error)),
{
    UnsubscribeResult {
        ok,
        method: owned(method),
        status,
        url: Some(owned(url)),
        mailto: None,
        error,
    }
}

/// Refuse a one-click URL that is not https, before anything is sent.
pub fn refuse_one_click(url: &str) -> (r: Option<UnsubscribeResult>)
    ensures
        match r {
            Some(u) => !is_https(url@) && u@ == one_click_result(
                false,
                "one_click"@,
                None,
                url@,
                Some("one-click URL must be https"@),
            ),
            None => is_https(url@),
        },
{
    if starts_with_ignore_case(url, "https://") {
        None
    } else {
        Some(one_click(false, "one_click", None, url, Some(owned("one-click URL must be https"))))
    }
}

/// What the reply to an RFC 8058 One-Click POST means.
pub fn one_click_outcome(url: &str, reply: &PostReply) -> (r: UnsubscribeResult)
    ensures
        r@ == reply_result(url@, *reply),
{
    match reply {
        PostReply::NoClient(e) => one_click(
            false,
            "one_click",
            None,
            url,
            Some(crate::text::concat2("http client: ", e.as_str())),
        ),
        PostReply::Status(code) => {
            let code: u16 = *code;
            let number: String = u64_text(code as u64);
            if 200 <= code && code < 300 {
                one_click(true, "one_click", Some(code), url, None)
            } else if 300 <= code && code < 400 {
                one_click(
                    false,
                    "needs_browser",
                    Some(code),
                    url,
                    Some(
                        concat3(
                            "sender redirected POST (",
                            number.as_str(),
                            "); open in browser to confirm",
                        ),
                    ),
                )
            } else {
                one_click(
                    false,
                    "one_click",
                    Some(code),
                    url,
                    Some(crate::text::concat2("unsubscribe POST returned ", number.as_str())),
                )
            }
        },
        PostReply::Failed(e) => one_click(false, "one_click", None, url, Some(e.clone())),
    }
}

pub fn one_click_body() -> (r: &'static str)
    ensures
        r@ == ONE_CLICK_BODY@,
        r@ == "List-Unsubscribe=One-Click"@,
{
    ONE_CLICK_BODY
}

/// Planning performs nothing, and names a URL to POST to only where the sender
/// advertises One-Click and the URL is an https one.
pub proof fn posts_only_where_advertised(list: Option<Seq<char>>, post: Option<Seq<char>>)
    ensures
        !unsubscribe_plan(list, post).ok,
        post_url(unsubscribe_plan(list, post)) matches Some(url) ==> one_click_advertised(post)
            && is_https(url) && unsubscribe_plan(list, post).method == "one_click"@,
        unsubscribe_plan(list, post).url matches Some(url) ==> is_https(url),
{
    reveal_strlit("one_click");
    reveal_strlit("needs_browser");
    assert("one_click"@.len() != "needs_browser"@.len());
    if list is Some && trim(list->0).len() > 0 {
        lemma_first_with(header_uris(trim(list->0)), "https://"@);
    }
}

/// An https address is what a plan names wherever there is one in the header, the
/// first of them, whatever stands before it: for a POST where the sender
/// advertises One-Click, and for the browser where not. Mail is written only
/// where no address of the header is an https one.
pub proof fn https_comes_before_mail(list: Seq<char>, post: Option<Seq<char>>, k: int)
    requires
        0 <= k < header_uris(trim(list)).len(),
        starts_with(lower(header_uris(trim(list))[k]), "https://"@),
        forall|j: int|
            0 <= j < k ==> !starts_with(
                lower(#[trigger] header_uris(trim(list))[j]),
                "https://"@,
            ),
    ensures
        unsubscribe_plan(Some(list), post).url == Some(header_uris(trim(list))[k]),
        unsubscribe_plan(Some(list), post).mailto is None,
        unsubscribe_plan(Some(list), post).error is None,
        one_click_advertised(post) ==> post_url(unsubscribe_plan(Some(list), post)) == Some(
            header_uris(trim(list))[k],
        ) && unsubscribe_plan(Some(list), post).method == "one_click"@,
        !one_click_advertised(post) ==> post_url(unsubscribe_plan(Some(list), post)) is None
            && unsubscribe_plan(Some(list), post).method == "needs_browser"@,
{
    reveal_strlit("one_click");
    reveal_strlit("needs_browser");
    assert("one_click"@.len() != "needs_browser"@.len());
    let uris = header_uris(trim(list));
    lemma_first_is(uris, "https://"@, k);
    lemma_uris_need_text(trim(list));
}

/// Mail is the last resort: it is written where no address of the header is an
/// https one and the first mailto address names somebody, and then always. Where
/// neither is there, nothing is planned and a reason is given.
pub proof fn mail_is_the_last_resort(list: Seq<char>, post: Option<Seq<char>>)
    requires
        forall|j: int|
            0 <= j < header_uris(trim(list)).len() ==> !starts_with(
                lower(#[trigger] header_uris(trim(list))[j]),
                "https://"@,
            ),
    ensures
        unsubscribe_plan(Some(list), post).url is None,
        post_url(unsubscribe_plan(Some(list), post)) is None,
        forall|k: int|
            0 <= k < header_uris(trim(list)).len() && starts_with(
                lower(#[trigger] header_uris(trim(list))[k]),
                "mailto:"@,
            ) && (forall|j: int|
                0 <= j < k ==> !starts_with(
                    lower(#[trigger] header_uris(trim(list))[j]),
                    "mailto:"@,
                )) ==> unsubscribe_plan(Some(list), post).mailto == mailto_target(
                header_uris(trim(list))[k],
            ),
        (forall|j: int|
            0 <= j < header_uris(trim(list)).len() ==> !starts_with(
                lower(#[trigger] header_uris(trim(list))[j]),
                "mailto:"@,
            )) ==> unsubscribe_plan(Some(list), post).mailto is None,
        unsubscribe_plan(Some(list), post).mailto is Some <==> unsubscribe_plan(
            Some(list),
            post,
        ).method == "mailto"@,
        unsubscribe_plan(Some(list), post).mailto is None <==> unsubscribe_plan(
            Some(list),
            post,
        ).error is Some,
{
    reveal_strlit("one_click");
    reveal_strlit("mailto");
    assert("one_click"@.len() != "mailto"@.len());
    let uris = header_uris(trim(list));
    lemma_none_with(uris, "https://"@);
    lemma_uris_need_text(trim(list));
    lemma_none_with(uris, "mailto:"@);
    assert forall|k: int|
        0 <= k < uris.len() && starts_with(lower(#[trigger] uris[k]), "mailto:"@) && (forall|j: int|
            0 <= j < k ==> !starts_with(
                lower(#[trigger] uris[j]),
                "mailto:"@,
            )) implies unsubscribe_plan(Some(list), post).mailto == mailto_target(uris[k]) by {
        lemma_first_is(uris, "mailto:"@, k);
    }
}

proof fn lemma_first_is(uris: Seq<Seq<char>>, scheme: Seq<char>, k: int)
    requires
        0 <= k < uris.len(),
        starts_with(lower(uris[k]), scheme),
        forall|j: int| 0 <= j < k ==> !starts_with(lower(#[trigger] uris[j]), scheme),
    ensures
        first_with(uris, scheme) == Some(uris[k]),
    decreases k,
{
    if k > 0 {
        let rest = uris.drop_first();
        assert forall|j: int| 0 <= j < k - 1 implies !starts_with(
            lower(#[trigger] rest[j]),
            scheme,
        ) by {
            assert(rest[j] == uris[j + 1]);
        }
        assert(!starts_with(lower(uris[0]), scheme));
        lemma_first_is(rest, scheme, k - 1);
    }
}

proof fn lemma_none_with(uris: Seq<Seq<char>>, scheme: Seq<char>)
    ensures
        (forall|j: int| 0 <= j < uris.len() ==> !starts_with(lower(#[trigger] uris[j]), scheme))
            ==> first_with(uris, scheme) is None,
    decreases uris.len(),
{
    if uris.len() > 0 {
        let rest = uris.drop_first();
        if forall|j: int| 0 <= j < uris.len() ==> !starts_with(lower(#[trigger] uris[j]), scheme) {
            assert(!starts_with(lower(uris[0]), scheme));
            assert forall|j: int| 0 <= j < rest.len() implies !starts_with(
                lower(#[trigger] rest[j]),
                scheme,
            ) by {
                assert(rest[j] == uris[j + 1]);
            }
        }
        lemma_none_with(rest, scheme);
    }
}

/// A blank header has no addresses.
proof fn lemma_uris_need_text(raw: Seq<char>)
    ensures
        raw.len() == 0 ==> header_uris(raw).len() == 0,
{
    if raw.len() == 0 {
        reveal_with_fuel(split, 2);
        reveal_with_fuel(bare_uris, 2);
        lemma_blank(raw);
        assert(bracketed_before(raw, 0).len() == 0);
        let parts = split(raw, ',');
        assert(parts.len() == 1 && parts[0].len() == 0);
        assert(parts.drop_last().len() == 0);
    }
}

/// Every address in angle brackets is found: where a `<` stands at `i` and the
/// next `>` at `j`, what stands between them is among the addresses, without the
/// white space around it, unless it is blank; and where there are addresses in
/// brackets, each of the addresses is one of them.
pub proof fn every_bracketed_address_is_found(raw: Seq<char>, i: int, j: int)
    requires
        0 <= i < j < raw.len(),
        raw[i] == '<',
        raw[j] == '>',
        forall|k: int| i < k < j ==> raw[k] != '>',
        trim(raw.subrange(i + 1, j)).len() > 0,
    ensures
        header_uris(raw).contains(trim(raw.subrange(i + 1, j))),
        forall|u: Seq<char>| #[trigger]
            header_uris(raw).contains(u) ==> exists|a: int, b: int|
                0 <= a < b < raw.len() && raw[a] == '<' && raw[b] == '>' && u == trim(
                    #[trigger] raw.subrange(a + 1, b),
                ),
{
    let uri = trim(raw.subrange(i + 1, j));
    let rest = raw.skip(i + 1);
    lemma_find_char_is(rest, '>', j - i - 1);
    assert(rest.take(j - i - 1) =~= raw.subrange(i + 1, j));
    assert(bracketed_at(raw, i) == Some(uri));
    lemma_bracketed_has(raw, raw.len() as int, i);
    let all = bracketed_before(raw, raw.len() as int);
    assert forall|u: Seq<char>| #[trigger] all.contains(u) implies exists|a: int, b: int|
        0 <= a < b < raw.len() && raw[a] == '<' && raw[b] == '>' && u == trim(
            #[trigger] raw.subrange(a + 1, b),
        ) by {
        lemma_bracketed_from(raw, raw.len() as int, u);
    }
}

proof fn lemma_bracketed_has(raw: Seq<char>, n: int, i: int)
    requires
        0 <= i < n,
        bracketed_at(raw, i) is Some,
    ensures
        bracketed_before(raw, n).contains(bracketed_at(raw, i)->0),
    decreases n,
{
    let all = bracketed_before(raw, n);
    if i == n - 1 {
        assert(all[all.len() - 1] == bracketed_at(raw, i)->0);
    } else {
        lemma_bracketed_has(raw, n - 1, i);
        let before = bracketed_before(raw, n - 1);
        let k = before.index_of(bracketed_at(raw, i)->0);
        assert(all[k] == before[k]);
    }
}

proof fn lemma_bracketed_from(raw: Seq<char>, n: int, u: Seq<char>)
    requires
        0 <= n <= raw.len(),
        bracketed_before(raw, n).contains(u),
    ensures
        exists|a: int, b: int|
            0 <= a < b < raw.len() && raw[a] == '<' && raw[b] == '>' && u == trim(
                #[trigger] raw.subrange(a + 1, b),
            ),
    decreases n,
{
    if n > 0 {
        let before = bracketed_before(raw, n - 1);
        if before.contains(u) {
            lemma_bracketed_from(raw, n - 1, u);
        } else {
            let all = bracketed_before(raw, n);
            let k = all.index_of(u);
            if k < before.len() {
                assert(before[k] == u);
            }
            let rest = raw.skip(n);
            lemma_find_char(rest, '>');
            let end = find_char(rest, '>');
            assert(rest.take(end) =~= raw.subrange(n, n + end));
            assert(raw[n + end] == rest[end]);
            assert(u == trim(raw.subrange(n - 1 + 1, n + end)));
        }
    }
}

/// Where nothing stands in angle brackets, the header is read as a list with
/// commas: every item is an address, without the white space around it, unless it
/// is blank.
pub proof fn every_bare_address_is_found(raw: Seq<char>, k: int)
    requires
        !raw.contains('<'),
        0 <= k < split(raw, ',').len(),
        !split(raw, ',')[k].contains('>'),
        trim(split(raw, ',')[k]).len() > 0,
    ensures
        header_uris(raw).contains(trim(split(raw, ',')[k])),
{
    let parts = split(raw, ',');
    splitting_loses_nothing(raw, ',');
    lemma_nothing_bracketed(raw, raw.len() as int);
    lemma_no_bracket(raw, ',', k, '<');
    lemma_bare_has(parts, k);
}

proof fn lemma_nothing_bracketed(raw: Seq<char>, n: int)
    requires
        !raw.contains('<'),
        0 <= n <= raw.len(),
    ensures
        bracketed_before(raw, n).len() == 0,
    decreases n,
{
    if n > 0 {
        assert(raw.contains(raw[n - 1]));
        lemma_nothing_bracketed(raw, n - 1);
    }
}

/// A piece holds only what the text holds.
proof fn lemma_no_bracket(s: Seq<char>, c: char, k: int, x: char)
    requires
        !s.contains(x),
        0 <= k < split(s, c).len(),
    ensures
        !split(s, c)[k].contains(x),
    decreases s.len(),
{
    lemma_find_char(s, c);
    let i = find_char(s, c);
    if i < s.len() {
        let rest = s.skip(i + 1);
        assert(!rest.contains(x)) by {
            if rest.contains(x) {
                let j = rest.index_of(x);
                assert(s[i + 1 + j] == x);
            }
        }
        if k == 0 {
            let head = s.take(i);
            if head.contains(x) {
                let j = head.index_of(x);
                assert(s[j] == x);
            }
        } else {
            lemma_no_bracket(rest, c, k - 1, x);
        }
    }
}

proof fn lemma_bare_has(parts: Seq<Seq<char>>, k: int)
    requires
        0 <= k < parts.len(),
        !parts[k].contains('<'),
        !parts[k].contains('>'),
        trim(parts[k]).len() > 0,
    ensures
        bare_uris(parts).contains(trim(parts[k])),
    decreases parts.len(),
{
    let all = bare_uris(parts);
    let front = bare_uris(parts.drop_last());
    if k == parts.len() - 1 {
        let t = trim(parts[k]);
        lemma_trim_inside(parts[k]);
        assert(t.contains(t[0]));
        assert(t.contains(t.last()));
        assert(!TrimSet::AngleBracket.has(t[0]));
        assert(!TrimSet::AngleBracket.has(t.last()));
        assert(strip(t, TrimSet::AngleBracket) == t);
        assert(all.last() == t);
        assert(all[all.len() - 1] == t);
    } else {
        lemma_bare_has(parts.drop_last(), k);
        let i = front.index_of(trim(parts[k]));
        assert(all[i] == front[i]);
    }
}

/// Trimming adds no character.
proof fn lemma_trim_inside(s: Seq<char>)
    ensures
        forall|c: char| #[trigger] trim(s).contains(c) ==> s.contains(c),
{
    lemma_start_inside(s);
    lemma_end_inside(strip_start(s, TrimSet::Whitespace));
}

proof fn lemma_start_inside(s: Seq<char>)
    ensures
        forall|c: char| #[trigger]
            strip_start(s, TrimSet::Whitespace).contains(c) ==> s.contains(c),
    decreases s.len(),
{
    if s.len() > 0 && TrimSet::Whitespace.has(s[0]) {
        let d = s.drop_first();
        lemma_start_inside(d);
        assert forall|c: char| #[trigger] strip_start(s, TrimSet::Whitespace).contains(
            c,
        ) implies s.contains(c) by {
            assert(strip_start(d, TrimSet::Whitespace).contains(c));
            let i = d.index_of(c);
            assert(s[i + 1] == c);
        }
    }
}

proof fn lemma_end_inside(s: Seq<char>)
    ensures
        forall|c: char| #[trigger] strip_end(s, TrimSet::Whitespace).contains(c) ==> s.contains(c),
    decreases s.len(),
{
    if s.len() > 0 && TrimSet::Whitespace.has(s.last()) {
        let d = s.drop_last();
        lemma_end_inside(d);
        assert forall|c: char| #[trigger] strip_end(s, TrimSet::Whitespace).contains(
            c,
        ) implies s.contains(c) by {
            assert(strip_end(d, TrimSet::Whitespace).contains(c));
            let i = d.index_of(c);
            assert(s[i] == c);
        }
    }
}

/// A mail address is read back from its link, with and without a query behind it:
/// the link begins with the scheme, in any spelling of case, and the address ends
/// at the question mark. A link of another scheme is none.
pub proof fn mail_links_name_their_address(scheme: Seq<char>, to: Seq<char>, query: Seq<char>)
    requires
        scheme.len() == 7,
        forall|i: int| 0 <= i < to.len() ==> to[i] != '?',
    ensures
        lower(scheme) == "mailto:"@ && trim(to).len() > 0 ==> mailto_target(scheme + to) == Some(
            MailtoView { to: trim(to), subject: None, body: None },
        ),
        lower(scheme) == "mailto:"@ && trim(to).len() > 0 ==> (mailto_target(
            scheme + (to + seq!['?'] + query),
        ) matches Some(m) && m.to == trim(to)),
        lower(scheme) != "mailto:"@ || trim(to).len() == 0 ==> mailto_target(scheme + to) is None
            && mailto_target(scheme + (to + seq!['?'] + query)) is None,
{
    reveal_strlit("mailto:");
    let long = to + seq!['?'] + query;
    texts_are_split_at_the_first(to, '?', query);
    assert((scheme + to).skip(7) =~= to);
    assert((scheme + long).skip(7) =~= long);
    assert(lower(scheme + to).subrange(0, 7) =~= lower(scheme));
    assert(lower(scheme + long).subrange(0, 7) =~= lower(scheme));
}

/// Of the pairs of a query that have a name, in any spelling of case, the last one
/// counts; the subject and the body of a mail are read that way.
pub proof fn the_last_value_counts(
    scheme: Seq<char>,
    to: Seq<char>,
    query: Seq<char>,
    key: Seq<char>,
    value: Seq<char>,
    k: int,
)
    requires
        lower(scheme) == "mailto:"@,
        forall|i: int| 0 <= i < to.len() ==> to[i] != '?',
        trim(to).len() > 0,
        0 <= k < split(query, '&').len(),
        split(query, '&')[k] == key + seq!['='] + value,
        forall|i: int| 0 <= i < key.len() ==> key[i] != '=',
        forall|j: int|
            k < j < split(query, '&').len() ==> lower(
                before(#[trigger] split(query, '&')[j], '='),
            ) != lower(key),
    ensures
        lower(key) == "subject"@ ==> mailto_target(scheme + (to + seq!['?'] + query))->0.subject
            == Some(query_text(value)),
        lower(key) == "body"@ ==> mailto_target(scheme + (to + seq!['?'] + query))->0.body == Some(
            query_text(value),
        ),
{
    reveal_strlit("mailto:");
    assert(scheme.len() == lower(scheme).len());
    mail_links_name_their_address(scheme, to, query);
    texts_are_split_at_the_first(to, '?', query);
    let long = to + seq!['?'] + query;
    assert((scheme + long).skip(7) =~= long);
    lemma_last_value(split(query, '&'), key, value, k);
}

proof fn lemma_last_value(pairs: Seq<Seq<char>>, key: Seq<char>, value: Seq<char>, k: int)
    requires
        0 <= k < pairs.len(),
        pairs[k] == key + seq!['='] + value,
        forall|i: int| 0 <= i < key.len() ==> key[i] != '=',
        forall|j: int| k < j < pairs.len() ==> lower(before(#[trigger] pairs[j], '=')) != lower(key),
    ensures
        last_value(pairs, lower(key)) == Some(query_text(value)),
    decreases pairs.len(),
{
    if k == pairs.len() - 1 {
        texts_are_split_at_the_first(key, '=', value);
    } else {
        let front = pairs.drop_last();
        assert forall|j: int| k < j < front.len() implies lower(before(#[trigger] front[j], '='))
            != lower(key) by {
            assert(front[j] == pairs[j]);
        }
        assert(lower(before(pairs[pairs.len() - 1], '=')) != lower(key));
        lemma_last_value(front, key, value, k);
    }
}

/// The digit of a value below sixteen, in capitals.
pub open spec fn hex_of(n: int) -> u8 {
    if n < 10 {
        (48 + n) as u8
    } else {
        (55 + n) as u8
    }
}

/// Decoding takes every escape back, one byte for its three, reads a plus as a
/// space, and leaves all other bytes as they are.
pub proof fn escapes_are_taken_back(x: u8, rest: Seq<u8>, plain: Seq<u8>)
    requires
        forall|k: int| 0 <= k < plain.len() ==> #[trigger] plain[k] != 37 && plain[k] != 43,
    ensures
        percent_decoded(seq![37u8, hex_of(x as int / 16), hex_of(x as int % 16)] + rest)
            == seq![x] + percent_decoded(rest),
        percent_decoded(seq![43u8] + rest) == seq![32u8] + percent_decoded(rest),
        percent_decoded(plain) == plain,
    decreases plain.len(),
{
    let b = seq![37u8, hex_of(x as int / 16), hex_of(x as int % 16)] + rest;
    assert(b.skip(3) =~= rest);
    assert((seq![43u8] + rest).skip(1) =~= rest);
    if plain.len() > 0 {
        let next = plain.skip(1);
        assert forall|k: int| 0 <= k < next.len() implies #[trigger] next[k] != 37 && next[k]
            != 43 by {
            assert(next[k] == plain[k + 1]);
        }
        escapes_are_taken_back(x, rest, next);
        assert(plain[0] != 37 && plain[0] != 43);
        assert(percent_decoded(plain) =~= seq![plain[0]] + next);
        assert(seq![plain[0]] + next =~= plain);
    }
}

/// Only a 2xx reply unsubscribes.
pub proof fn only_success_unsubscribes(url: Seq<char>, reply: PostReply)
    ensures
        reply_result(url, reply).ok <==> (reply matches PostReply::Status(code) && 200 <= code
            < 300),
        reply_result(url, reply).url == Some(url),
        reply_result(url, reply).ok <==> reply_result(url, reply).error is None,
        reply matches PostReply::Status(code) ==> reply_result(url, reply).status == Some(code),
        reply !is Status ==> reply_result(url, reply).status is None,
        reply_result(url, reply).method == "needs_browser"@ <==> (reply matches PostReply::Status(
            code,
        ) && 300 <= code < 400),
        reply_result(url, reply).method == "one_click"@ || reply_result(url, reply).method
            == "needs_browser"@,
        reply_result(url, reply).mailto is None,
{
    reveal_strlit("one_click");
    reveal_strlit("needs_browser");
    assert("one_click"@.len() != "needs_browser"@.len());
}

proof fn lemma_first_with(uris: Seq<Seq<char>>, scheme: Seq<char>)
    ensures
        first_with(uris, scheme) matches Some(u) ==> starts_with(lower(u), scheme),
    decreases uris.len(),
{
    if uris.len() > 0 {
        lemma_first_with(uris.drop_first(), scheme);
    }
}

// ---------------------------------------------------------------------------
// Raw headers
// ---------------------------------------------------------------------------

/// A line without the carriage return at its end.
pub open spec fn without_cr(line: Seq<char>) -> Seq<char> {
    if line.len() > 0 && line.last() == '\r' {
        line.drop_last()
    } else {
        line
    }
}

/// The logical lines of a header block: the lines up to the first empty one,
/// with continuation lines joined to the line that they continue.
pub open spec fn logical_lines(lines: Seq<Seq<char>>, done: Seq<Seq<char>>) -> Seq<Seq<char>>
    decreases lines.len(),
{
    if lines.len() == 0 || without_cr(lines[0]).len() == 0 {
        done
    } else {
        let line = without_cr(lines[0]);
        let folded = line[0] == ' ' || line[0] == '\t';
        let next = if folded && done.len() > 0 {
            done.drop_last().push(done.last() + line)
        } else {
            done.push(line)
        };
        logical_lines(lines.drop_first(), next)
    }
}

/// The value of the first field with this name, in any spelling of case.
pub open spec fn field_value(lines: Seq<Seq<char>>, name: Seq<char>) -> Option<Seq<char>>
    decreases lines.len(),
{
    if lines.len() == 0 {
        None
    } else {
        match split_once(lines[0], ':') {
            Some((n, v)) if lower(trim(n)) == name => Some(trim(v)),
            _ => field_value(lines.drop_first(), name),
        }
    }
}

/// Of the fields that have a name, in any spelling of case, the first one counts,
/// without the white space around its value.
pub proof fn the_first_field_counts(
    lines: Seq<Seq<char>>,
    name: Seq<char>,
    value: Seq<char>,
    k: int,
)
    requires
        0 <= k < lines.len(),
        lines[k] == name + seq![':'] + value,
        forall|i: int| 0 <= i < name.len() ==> name[i] != ':',
        forall|j: int|
            0 <= j < k ==> lower(trim(before(#[trigger] lines[j], ':'))) != lower(trim(name)),
    ensures
        field_value(lines, lower(trim(name))) == Some(trim(value)),
    decreases k,
{
    if k == 0 {
        texts_are_split_at_the_first(name, ':', value);
    } else {
        let rest = lines.drop_first();
        assert forall|j: int| 0 <= j < k - 1 implies lower(trim(before(#[trigger] rest[j], ':')))
            != lower(trim(name)) by {
            assert(rest[j] == lines[j + 1]);
        }
        assert(lower(trim(before(lines[0], ':'))) != lower(trim(name)));
        the_first_field_counts(rest, name, value, k - 1);
    }
}

/// The header block ends with the first empty line: what stands behind it is not
/// read.
pub proof fn bodies_are_not_read(header: Seq<Seq<char>>, end: Seq<char>, body: Seq<Seq<char>>)
    requires
        end.len() == 0 || end == seq!['\r'],
    ensures
        logical_lines(header + seq![end] + body, Seq::empty()) == logical_lines(
            header,
            Seq::empty(),
        ),
{
    lemma_ends_at(header, end, body, Seq::empty());
}

proof fn lemma_ends_at(
    header: Seq<Seq<char>>,
    end: Seq<char>,
    body: Seq<Seq<char>>,
    done: Seq<Seq<char>>,
)
    requires
        end.len() == 0 || end == seq!['\r'],
    ensures
        logical_lines(header + seq![end] + body, done) == logical_lines(header, done),
    decreases header.len(),
{
    let all = header + seq![end] + body;
    if header.len() == 0 {
        assert(all[0] == end);
    } else {
        assert(all[0] == header[0]);
        let rest = header.drop_first();
        assert(all.drop_first() =~= rest + seq![end] + body);
        let line = without_cr(header[0]);
        let next = if (line[0] == ' ' || line[0] == '\t') && done.len() > 0 {
            done.drop_last().push(done.last() + line)
        } else {
            done.push(line)
        };
        lemma_ends_at(rest, end, body, next);
    }
}

/// A line that begins with a space or a tab belongs to the line before it, and any
/// other begins a line of its own; the carriage return at its end belongs to
/// neither.
pub proof fn folded_lines_are_joined(header: Seq<Seq<char>>, line: Seq<char>)
    requires
        forall|i: int|
            0 <= i < header.len() ==> (#[trigger] header[i]).len() > 0 && header[i] != seq!['\r'],
        line.len() > 0,
        line.last() != '\r',
    ensures
        header.len() > 0 && (line[0] == ' ' || line[0] == '\t') ==> ({
            let lines = logical_lines(header, Seq::empty());
            lines.len() > 0 && logical_lines(header.push(line), Seq::empty())
                == lines.drop_last().push(lines.last() + line)
        }),
        header.len() == 0 || (line[0] != ' ' && line[0] != '\t') ==> logical_lines(
            header.push(line),
            Seq::empty(),
        ) == logical_lines(header, Seq::empty()).push(line),
        logical_lines(header.push(line.push('\r')), Seq::empty()) == logical_lines(
            header.push(line),
            Seq::empty(),
        ),
{
    lemma_one_more(header, line, line, Seq::empty());
    assert(line.push('\r').drop_last() =~= line);
    lemma_one_more(header, line.push('\r'), line, Seq::empty());
}

proof fn lemma_one_more(
    header: Seq<Seq<char>>,
    raw: Seq<char>,
    line: Seq<char>,
    done: Seq<Seq<char>>,
)
    requires
        forall|i: int|
            0 <= i < header.len() ==> (#[trigger] header[i]).len() > 0 && header[i] != seq!['\r'],
        without_cr(raw) == line,
        line.len() > 0,
    ensures
        logical_lines(header, done).len() >= done.len(),
        header.len() > 0 ==> logical_lines(header, done).len() > 0,
        ({
            let lines = logical_lines(header, done);
            logical_lines(header.push(raw), done) == if (line[0] == ' ' || line[0] == '\t')
                && lines.len() > 0 {
                lines.drop_last().push(lines.last() + line)
            } else {
                lines.push(line)
            }
        }),
    decreases header.len(),
{
    let all = header.push(raw);
    if header.len() == 0 {
        reveal_with_fuel(logical_lines, 2);
        assert(all[0] == raw);
        assert(all.drop_first().len() == 0);
    } else {
        assert(all[0] == header[0]);
        let rest = header.drop_first();
        assert(all.drop_first() =~= rest.push(raw));
        let first = without_cr(header[0]);
        assert(first.len() > 0) by {
            if first.len() == 0 {
                assert(header[0] =~= seq!['\r']);
            }
        }
        let next = if (first[0] == ' ' || first[0] == '\t') && done.len() > 0 {
            done.drop_last().push(done.last() + first)
        } else {
            done.push(first)
        };
        assert forall|i: int| 0 <= i < rest.len() implies (#[trigger] rest[i]).len() > 0
            && rest[i] != seq!['\r'] by {
            assert(rest[i] == header[i + 1]);
        }
        lemma_one_more(rest, raw, line, next);
    }
}

/// Some line is a field.
pub open spec fn has_field(lines: Seq<Seq<char>>) -> bool {
    exists|i: int| 0 <= i < lines.len() && split_once(#[trigger] lines[i], ':') is Some
}

/// The logical lines of the header block of a raw message.
pub open spec fn raw_lines(raw: Seq<u8>) -> Seq<Seq<char>> {
    logical_lines(split(text_of(raw), '\n'), Seq::empty())
}

fn push_logical(done: &mut Vec<Vec<char>>, line: &[char])
    requires
        line@.len() > 0,
    ensures
        pieces(final(done)@) == (if (line@[0] == ' ' || line@[0] == '\t') && old(done)@.len() > 0 {
            pieces(old(done)@).drop_last().push(pieces(old(done)@).last() + line@)
        } else {
            pieces(old(done)@).push(line@)
        }),
{
    let ghost before = done@;
    let folded: bool = line[0] == ' ' || line[0] == '\t';
    if folded && done.len() > 0 {
        let last: Vec<char> = match done.pop() {
            Some(l) => l,
            None => Vec::new(),
        };
        let mut joined: Vec<char> = last;
        let mut tail: Vec<char> = vstd::slice::slice_to_vec(line);
        joined.append(&mut tail);
        done.push(joined);
        proof {
            assert(pieces(done@) =~= pieces(before).drop_last().push(
                pieces(before).last() + line@,
            ));
        }
    } else {
        done.push(vstd::slice::slice_to_vec(line));
        proof {
            assert(pieces(done@) =~= pieces(before).push(line@));
        }
    }
}

fn read_logical(text: &[char]) -> (r: Vec<Vec<char>>)
    ensures
        pieces(r@) == logical_lines(split(text@, '\n'), Seq::empty()),
{
    let lines: Vec<Vec<char>> = split_chars(text, '\n');
    let mut done: Vec<Vec<char>> = Vec::new();
    let mut i: usize = 0;
    let ghost all = pieces(lines@);
    proof {
        assert(all.skip(0) =~= all);
        assert(pieces(done@) =~= Seq::empty());
    }
    while i < lines.len()
        invariant
            i <= lines@.len(),
            all == pieces(lines@),
            all == split(text@, '\n'),
            logical_lines(all, Seq::empty()) == logical_lines(all.skip(i as int), pieces(done@)),
        decreases lines@.len() - i,
    {
        let raw: &[char] = lines[i].as_slice();
        let n: usize = raw.len();
        let line: &[char] = if n > 0 && raw[n - 1] == '\r' {
            proof {
                assert(raw@.subrange(0, n - 1) =~= raw@.drop_last());
            }
            slice_subrange(raw, 0, n - 1)
        } else {
            raw
        };
        proof {
            assert(all.skip(i as int)[0] == raw@);
            assert(line@ == without_cr(raw@));
            assert(all.skip(i as int).drop_first() =~= all.skip(i + 1));
        }
        if line.len() == 0 {
            return done;
        }
        push_logical(&mut done, line);
        i = i + 1;
    }
    done
}

fn find_field(lines: &Vec<Vec<char>>, name: &str) -> (r: Option<String>)
    ensures
        opt_text(r) == field_value(pieces(lines@), name@),
{
    let wanted: Vec<char> = chars_of(name);
    let mut i: usize = 0;
    let ghost all = pieces(lines@);
    proof {
        assert(all.skip(0) =~= all);
    }
    while i < lines.len()
        invariant
            i <= lines@.len(),
            all == pieces(lines@),
            wanted@ == name@,
            field_value(all, name@) == field_value(all.skip(i as int), name@),
        decreases lines@.len() - i,
    {
        let line: &[char] = lines[i].as_slice();
        proof {
            lemma_find_char(line@, ':');
            assert(all.skip(i as int)[0] == line@);
            assert(all.skip(i as int).drop_first() =~= all.skip(i + 1));
        }
        let colon: usize = find_char_in(line, ':');
        if colon < line.len() {
            let head: &[char] = slice_subrange(line, 0, colon);
            let tail: &[char] = slice_subrange(line, colon + 1, line.len());
            proof {
                assert(head@ =~= line@.take(colon as int));
                assert(tail@ =~= line@.skip(colon + 1));
            }
            let low: Vec<char> = lower_chars(trim_chars(head));
            if crate::text::chars_eq(low.as_slice(), wanted.as_slice()) {
                return Some(string_of(trim_chars(tail)));
            }
        }
        i = i + 1;
    }
    None
}

fn any_field(lines: &Vec<Vec<char>>) -> (r: bool)
    ensures
        r == has_field(pieces(lines@)),
{
    let mut i: usize = 0;
    let ghost all = pieces(lines@);
    while i < lines.len()
        invariant
            i <= lines@.len(),
            all == pieces(lines@),
            forall|j: int| 0 <= j < i ==> split_once(#[trigger] all[j], ':') is None,
        decreases lines@.len() - i,
    {
        let line: &[char] = lines[i].as_slice();
        proof {
            assert(all[i as int] == line@);
        }
        if find_char_in(line, ':') < line.len() {
            return true;
        }
        i = i + 1;
    }
    false
}

/// Pull unsubscribe headers from a cached raw `.eml` (header block or full message).
pub fn headers_from_raw(raw: &[u8]) -> (r: Result<(Option<String>, Option<String>), CoreError>)
    ensures
        ({
            let lines = raw_lines(raw@);
            match r {
                Ok((list, post)) => has_field(lines) && opt_text(list) == field_value(
                    lines,
                    "list-unsubscribe"@,
                ) && opt_text(post) == field_value(lines, "list-unsubscribe-post"@),
                Err(e) => !has_field(lines) && e@ == ErrorView::Mime("no header fields"@),
            }
        }),
{
    let text: String = lossy_text(raw);
    headers_from_text(text.as_str())
}

/// The unsubscribe headers of a header block or full message in text.
pub fn headers_from_text(text: &str) -> (r: Result<(Option<String>, Option<String>), CoreError>)
    ensures
        ({
            let lines = logical_lines(split(text@, '\n'), Seq::empty());
            match r {
                Ok((list, post)) => has_field(lines) && opt_text(list) == field_value(
                    lines,
                    "list-unsubscribe"@,
                ) && opt_text(post) == field_value(lines, "list-unsubscribe-post"@),
                Err(e) => !has_field(lines) && e@ == ErrorView::Mime("no header fields"@),
            }
        }),
{
    let cs: Vec<char> = chars_of(text);
    let lines: Vec<Vec<char>> = read_logical(cs.as_slice());
    if !any_field(&lines) {
        return Err(CoreError::Mime(owned("no header fields")));
    }
    let list: Option<String> = find_field(&lines, "list-unsubscribe");
    let post: Option<String> = find_field(&lines, "list-unsubscribe-post");
    Ok((list, post))
}

// ---------------------------------------------------------------------------
// Logs
// ---------------------------------------------------------------------------

/// The scheme, the host and the path of a URL, where it is one.
pub uninterp spec fn url_parts(url: Seq<char>) -> Option<
    (Seq<char>, Option<Seq<char>>, Seq<char>),
>;

/// A URL without its query, its fragment and its credentials.
#[derive(Debug, Clone)]
pub struct UrlParts {
    pub scheme: String,
    pub host: Option<String>,
    pub path: String,
}

pub open spec fn parts_view(p: UrlParts) -> (Seq<char>, Option<Seq<char>>, Seq<char>) {
    (p.scheme@, opt_text(p.host), p.path@)
}

/// `url::Url::parse`, with `scheme`, `host_str` and `path` of what it returns:
/// the parts depend on the text of the URL alone, and a path ends before the
/// query and the fragment, so it holds neither a `?` nor a `#`.
#[verifier::external_body]
fn parse_url(url: &str) -> (r: Option<UrlParts>)
    ensures
        match r {
            Some(p) => url_parts(url@) == Some(parts_view(p)),
            None => url_parts(url@) is None,
        },
        r matches Some(p) ==> !p.path@.contains('?') && !p.path@.contains('#'),
{
    match url::Url::parse(url) {
        Ok(u) => Some(
            UrlParts {
                scheme: u.scheme().to_owned(),
                host: u.host_str().map(|h| h.to_owned()),
                path: u.path().to_owned(),
            },
        ),
        Err(_) => None,
    }
}

/// What is logged of a URL, given its parts.
pub open spec fn redacted(
    parts: Option<(Seq<char>, Option<Seq<char>>, Seq<char>)>,
) -> Seq<char> {
    match parts {
        Some((scheme, host, path)) => scheme + "://"@ + (match host {
            Some(h) => h,
            None => "?"@,
        }) + path,
        None => "<unparseable-url>"@,
    }
}

/// The log line of a URL that has been taken apart.
pub fn redact_parts(parts: Option<&UrlParts>) -> (r: String)
    ensures
        r@ == redacted(
            match parts {
                Some(p) => Some(parts_view(*p)),
                None => None,
            },
        ),
        parts matches Some(p) ==> p.host matches Some(h) ==> r@ == p.scheme@ + "://"@ + h@
            + p.path@,
        parts matches Some(p) ==> p.host is None ==> r@ == p.scheme@ + "://"@ + "?"@ + p.path@,
        parts is None ==> r@ == "<unparseable-url>"@,
{
    match parts {
        Some(p) => {
            let mut out: String = match &p.host {
                Some(h) => concat3(p.scheme.as_str(), "://", h.as_str()),
                None => concat3(p.scheme.as_str(), "://", "?"),
            };
            out.push_str(p.path.as_str());
            out
        },
        None => owned("<unparseable-url>"),
    }
}

/// Host-only redaction for logs / proof (never log query tokens): what is
/// logged ends with the path, in which there is no query.
pub fn redact_url_for_log(url: &str) -> (r: String)
    ensures
        r@ == redacted(url_parts(url@)),
        url_parts(url@) matches Some((_, _, path)) ==> !path.contains('?') && !path.contains('#'),
{
    let parts: Option<UrlParts> = parse_url(url);
    match &parts {
        Some(p) => redact_parts(Some(p)),
        None => redact_parts(None),
    }
}

} // verus!
