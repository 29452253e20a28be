//! What the desktop host decides: links from outside, languages, windows and
//! the renderer.

use vstd::prelude::*;

use crate::text::{
    chars_eq, chars_of, concat2, ends_with, ends_with_str, lemma_strip_start, lower, lower_chars,
    opt_str, opt_text, owned, string_of, strip_start, strip_start_chars, TrimSet,
};

verus! {

// ---------------------------------------------------------------------------
// Links
// ---------------------------------------------------------------------------

/// A link to write a mail, whatever the case of its scheme and whatever blanks
/// stand before it.
pub open spec fn is_mail_link(s: Seq<char>) -> bool {
    let rest = strip_start(s, TrimSet::Whitespace);
    7 <= rest.len() && lower(rest).take(7) == "mailto:"@
}

/// True for a `mailto:` deep link (case-insensitive, tolerant of leading space).
pub fn is_mailto(s: &str) -> (r: bool)
    ensures
        r == is_mail_link(s@),
{
    let cs: Vec<char> = chars_of(s);
    let rest: &[char] = strip_start_chars(cs.as_slice(), TrimSet::Whitespace);
    if rest.len() < 7 {
        return false;
    }
    let small: Vec<char> = lower_chars(rest);
    let scheme: Vec<char> = chars_of("mailto:");
    proof {
        assert(small@.subrange(0, 7) =~= lower(rest@).take(7));
    }
    chars_eq(vstd::slice::slice_subrange(small.as_slice(), 0, 7), scheme.as_slice())
}

/// The position of the first mail link; the number of arguments if there is
/// none.
pub open spec fn first_mail_link(args: Seq<String>) -> int
    decreases args.len(),
{
    if args.len() == 0 || is_mail_link(args[0]@) {
        0
    } else {
        1 + first_mail_link(args.skip(1))
    }
}

proof fn lemma_first_mail_link(args: Seq<String>, k: int)
    requires
        0 <= k <= args.len(),
        forall|j: int| 0 <= j < k ==> !is_mail_link((#[trigger] args[j])@),
        k < args.len() ==> is_mail_link(args[k]@),
    ensures
        first_mail_link(args) == k,
    decreases k,
{
    if k > 0 {
        assert(!is_mail_link(args[0]@));
        assert forall|j: int| 0 <= j < k - 1 implies !is_mail_link(
            (#[trigger] args.skip(1)[j])@,
        ) by {
            assert(args.skip(1)[j] == args[j + 1]);
        }
        lemma_first_mail_link(args.skip(1), k - 1);
    }
}

/// Of the arguments the first mail link is taken, wherever it stands.
pub proof fn the_first_mail_link_is_taken(args: Seq<String>)
    ensures
        0 <= first_mail_link(args) <= args.len(),
        first_mail_link(args) < args.len() ==> is_mail_link(args[first_mail_link(args)]@),
        forall|j: int| 0 <= j < first_mail_link(args) ==> !is_mail_link((#[trigger] args[j])@),
    decreases args.len(),
{
    if args.len() > 0 && !is_mail_link(args[0]@) {
        let rest = args.skip(1);
        the_first_mail_link_is_taken(rest);
        assert forall|j: int| 0 <= j < first_mail_link(args) implies !is_mail_link(
            (#[trigger] args[j])@,
        ) by {
            if j > 0 {
                assert(rest[j - 1] == args[j]);
            }
        }
    }
}

/// A mail link is one in any spelling of case and behind any white space; a text
/// that does not begin with the scheme is none.
pub proof fn mail_links_begin_with_their_scheme(space: Seq<char>, link: Seq<char>)
    requires
        forall|i: int| 0 <= i < space.len() ==> TrimSet::Whitespace.has(#[trigger] space[i]),
        link.len() >= 7,
        !TrimSet::Whitespace.has(link[0]),
    ensures
        is_mail_link(space + link) <==> lower(link.take(7)) == "mailto:"@,
{
    let s = space + link;
    let n = space.len() as int;
    assert forall|j: int| 0 <= j < n implies TrimSet::Whitespace.has(#[trigger] s[j]) by {
        assert(s[j] == space[j]);
    }
    assert(s[n] == link[0]);
    lemma_strip_start(s, TrimSet::Whitespace, n);
    assert(s.skip(n) =~= link);
    assert(lower(link).take(7) =~= lower(link.take(7)));
}

/// First `mailto:` argument in a process arg list, if any.
pub fn mailto_from_args(args: &Vec<String>) -> (r: Option<String>)
    ensures
        opt_text(r) == (if first_mail_link(args@) < args@.len() {
            Some(args@[first_mail_link(args@)]@)
        } else {
            None
        }),
{
    let mut k: usize = 0;
    while k < args.len()
        invariant
            k <= args@.len(),
            forall|j: int| 0 <= j < k ==> !is_mail_link((#[trigger] args@[j])@),
        decreases args@.len() - k,
    {
        if is_mailto(args[k].as_str()) {
            proof {
                lemma_first_mail_link(args@, k as int);
            }
            return Some(args[k].clone());
        }
        k = k + 1;
    }
    proof {
        lemma_first_mail_link(args@, k as int);
    }
    None
}

/// The same link within this time is the same click.
pub const SAME_LINK_MS: u64 = 1_500;

/// The link that was last handed on, and when.
#[derive(Debug, Clone)]
pub struct LinkGate {
    pub last: Option<(String, u64)>,
}

impl LinkGate {
    /// Whether a link is handed on: one to write a mail, unless the same one
    /// was handed on a moment ago. On a cold start a link arrives twice.
    pub open spec fn admits(self, url: Seq<char>, now_ms: u64) -> bool {
        is_mail_link(url) && (match self.last {
            Some((u, at)) => !(u@ == url && now_ms - at < SAME_LINK_MS),
            None => true,
        })
    }

    pub fn new() -> (r: LinkGate)
        ensures
            r.last is None,
    {
        LinkGate { last: None }
    }

    /// Decides over a link that arrives at `now_ms`.
    pub fn forward_mailto(&mut self, url: &str, now_ms: u64) -> (r: bool)
        ensures
            r == old(self).admits(url@, now_ms),
            r ==> final(self).last is Some,
            r ==> (final(self).last->0).0@ == url@,
            r ==> (final(self).last->0).1 == now_ms,
            !r ==> *final(self) == *old(self),
    {
        if !is_mailto(url) {
            return false;
        }
        if let Some(last) = &self.last {
            let soon: bool = now_ms < last.1 || now_ms - last.1 < SAME_LINK_MS;
            if last.0.as_str().eq(url) && soon {
                return false;
            }
        }
        self.last = Some((owned(url), now_ms));
        true
    }
}

/// A link that is handed on is not handed on once more a moment later.
pub proof fn no_link_is_handed_on_twice(
    gate: LinkGate,
    after: LinkGate,
    url: Seq<char>,
    at: u64,
    again: u64,
)
    requires
        gate.admits(url, at),
        after.last is Some,
        (after.last->0).0@ == url,
        (after.last->0).1 == at,
        at <= again < at + SAME_LINK_MS,
    ensures
        !after.admits(url, again),
{
}

/// A link is handed on exactly where it is a mail link and not the one that was
/// handed on less than a second and a half ago.
pub proof fn other_links_are_handed_on(gate: LinkGate, url: Seq<char>, now_ms: u64)
    ensures
        !is_mail_link(url) ==> !gate.admits(url, now_ms),
        is_mail_link(url) && gate.last is None ==> gate.admits(url, now_ms),
        is_mail_link(url) && gate.last is Some && (gate.last->0).0@ != url ==> gate.admits(
            url,
            now_ms,
        ),
        is_mail_link(url) && gate.last is Some && now_ms >= (gate.last->0).1 + 1_500
            ==> gate.admits(url, now_ms),
        gate.last is Some && (gate.last->0).0@ == url && now_ms < (gate.last->0).1 + 1_500
            ==> !gate.admits(url, now_ms),
{
}

/// The host is the app's own.
pub open spec fn is_app_host(host: Seq<char>) -> bool {
    host.len() == 0 || host == "localhost"@ || host == "tauri.localhost"@ || ends_with(
        host,
        ".localhost"@,
    )
}

/// Whether a link leaves the app: a mail link, or a page on a host that is not
/// the app's own. It is opened by the system, and the app stays where it is.
pub fn opens_outside(scheme: &str, host: &str) -> (r: bool)
    ensures
        r == (scheme@ == "mailto"@ || ((scheme@ == "http"@ || scheme@ == "https"@) && !is_app_host(
            host@,
        ))),
        scheme@ == "mailto"@ ==> r,
        scheme@ != "mailto"@ && (host@.len() == 0 || host@ == "localhost"@ || host@
            == "tauri.localhost"@) ==> !r,
        scheme@ != "mailto"@ && scheme@ != "http"@ && scheme@ != "https"@ ==> !r,
{
    if scheme.eq("mailto") {
        return true;
    }
    if !(scheme.eq("http") || scheme.eq("https")) {
        return false;
    }
    proof {
        reveal_strlit("");
        assert(host@.len() == 0 ==> host@ =~= ""@);
    }
    !(host.eq("") || host.eq("localhost") || host.eq("tauri.localhost") || ends_with_str(
        host,
        ".localhost",
    ))
}

// ---------------------------------------------------------------------------
// Languages
// ---------------------------------------------------------------------------

pub open spec fn ends_language(c: char) -> bool {
    c == '_' || c == '.' || c == '-'
}

/// What stands before the first `_`, `.` or `-`.
pub open spec fn language_part(s: Seq<char>) -> Seq<char>
    decreases s.len(),
{
    if s.len() == 0 || ends_language(s[0]) {
        Seq::empty()
    } else {
        seq![s[0]] + language_part(s.skip(1))
    }
}

/// The language that a setting stands for. That of the system is what the
/// environment names, else English.
pub open spec fn language_of(setting: Seq<char>, system: Option<Seq<char>>) -> Seq<char> {
    if setting.len() > 0 && setting != "system"@ {
        setting
    } else {
        match system {
            Some(l) => if language_part(l).len() > 0 {
                language_part(l)
            } else {
                "en"@
            },
            None => "en"@,
        }
    }
}

proof fn lemma_language_part(s: Seq<char>, k: int)
    requires
        0 <= k <= s.len(),
        forall|j: int| 0 <= j < k ==> !ends_language(#[trigger] s[j]),
        k < s.len() ==> ends_language(s[k]),
    ensures
        language_part(s) == s.take(k),
    decreases k,
{
    if k > 0 {
        assert(!ends_language(s[0]));
        assert forall|j: int| 0 <= j < k - 1 implies !ends_language(#[trigger] s.skip(1)[j]) by {
            assert(s.skip(1)[j] == s[j + 1]);
        }
        lemma_language_part(s.skip(1), k - 1);
        assert(seq![s[0]] + s.skip(1).take(k - 1) =~= s.take(k));
    } else {
        assert(s.take(0) =~= Seq::<char>::empty());
    }
}

/// A language that is set is used. That of the system is what its variable names
/// before the country or the encoding, and English where it names none.
pub proof fn languages_follow_the_setting(setting: Seq<char>, lang: Seq<char>, rest: Seq<char>)
    requires
        forall|i: int|
            0 <= i < lang.len() ==> lang[i] != '_' && lang[i] != '.' && #[trigger] lang[i] != '-',
        rest.len() > 0 ==> rest[0] == '_' || rest[0] == '.' || rest[0] == '-',
    ensures
        setting.len() > 0 && setting != "system"@ ==> language_of(setting, Some(lang + rest))
            == setting,
        lang.len() > 0 ==> language_of("system"@, Some(lang + rest)) == lang,
        lang.len() == 0 ==> language_of("system"@, Some(lang + rest)) == "en"@,
        language_of("system"@, None) == "en"@,
{
    let s = lang + rest;
    assert forall|j: int| 0 <= j < lang.len() implies !ends_language(#[trigger] s[j]) by {
        assert(s[j] == lang[j]);
    }
    if rest.len() > 0 {
        assert(s[lang.len() as int] == rest[0]);
    }
    lemma_language_part(s, lang.len() as int);
    assert(s.take(lang.len() as int) =~= lang);
}

/// Resolve a persisted language setting ("system" | a code) to a concrete code.
/// `system` is the language variable of the environment.
pub fn resolve_lang(setting: &str, system: Option<&str>) -> (r: String)
    ensures
        r@ == language_of(setting@, opt_str(system)),
{
    proof {
        reveal_strlit("");
        assert(setting@.len() == 0 ==> setting@ =~= ""@);
    }
    if !setting.eq("") && !setting.eq("system") {
        return owned(setting);
    }
    match system {
        Some(l) => {
            let cs: Vec<char> = chars_of(l);
            let mut k: usize = 0;
            while k < cs.len() && cs[k] != '_' && cs[k] != '.' && cs[k] != '-'
                invariant
                    k <= cs@.len(),
                    forall|j: int| 0 <= j < k ==> !ends_language(#[trigger] cs@[j]),
                decreases cs@.len() - k,
            {
                k = k + 1;
            }
            proof {
                lemma_language_part(l@, k as int);
                assert(cs@.subrange(0, k as int) =~= l@.take(k as int));
            }
            if k > 0 {
                string_of(vstd::slice::slice_subrange(cs.as_slice(), 0, k))
            } else {
                owned("en")
            }
        },
        None => owned("en"),
    }
}

/// The two words of the tray menu in a language.
pub open spec fn tray_words(lang: Seq<char>) -> (Seq<char>, Seq<char>) {
    if lang == "es"@ {
        ("Abrir"@, "Salir"@)
    } else if lang == "fr"@ {
        ("Ouvrir"@, "Quitter"@)
    } else if lang == "zh"@ {
        ("打开"@, "退出"@)
    } else if lang == "vi"@ {
        ("Mở"@, "Thoát"@)
    } else {
        ("Open"@, "Quit"@)
    }
}

/// Localized tray menu labels: (open, quit). "Comail" is a proper noun and stays.
pub fn tray_labels(lang: &str) -> (r: (String, String))
    ensures
        r.0@ == tray_words(lang@).0 + " Comail"@,
        r.1@ == tray_words(lang@).1 + " Comail"@,
        lang@ == "es"@ ==> r.0@ == "Abrir"@ + " Comail"@ && r.1@ == "Salir"@ + " Comail"@,
        lang@ == "fr"@ ==> r.0@ == "Ouvrir"@ + " Comail"@ && r.1@ == "Quitter"@ + " Comail"@,
        lang@ == "zh"@ ==> r.0@ == "打开"@ + " Comail"@ && r.1@ == "退出"@ + " Comail"@,
        lang@ == "vi"@ ==> r.0@ == "Mở"@ + " Comail"@ && r.1@ == "Thoát"@ + " Comail"@,
        lang@ != "es"@ && lang@ != "fr"@ && lang@ != "zh"@ && lang@ != "vi"@ ==> r.0@ == "Open"@
            + " Comail"@ && r.1@ == "Quit"@ + " Comail"@,
{
    proof {
        reveal_strlit("es");
        reveal_strlit("fr");
        reveal_strlit("zh");
        reveal_strlit("vi");
        assert("es"@[0] == 'e' && "fr"@[0] == 'f' && "zh"@[0] == 'z' && "vi"@[0] == 'v');
    }
    let (open, quit): (&str, &str) = if lang.eq("es") {
        ("Abrir", "Salir")
    } else if lang.eq("fr") {
        ("Ouvrir", "Quitter")
    } else if lang.eq("zh") {
        ("打开", "退出")
    } else if lang.eq("vi") {
        ("Mở", "Thoát")
    } else {
        ("Open", "Quit")
    };
    (concat2(open, " Comail"), concat2(quit, " Comail"))
}

// ---------------------------------------------------------------------------
// The machine
// ---------------------------------------------------------------------------

/// What is known of the machine before the first window.
#[derive(Debug, Clone, Copy, PartialEq, Eq, Structural)]
pub struct Graphics {
    /// The user has already chosen whether the DMABUF renderer is used.
    pub chosen: bool,
    pub wayland_display: bool,
    pub wayland_session: bool,
    pub nvidia_proprietary: bool,
    pub gbm_backend_set: bool,
    pub glx_vendor_set: bool,
}

#[derive(Debug, Clone, Copy, PartialEq, Eq, Structural)]
pub enum Renderer {
    /// Everything is left as the user set it.
    AsSet,
    /// The proprietary NVIDIA driver under Wayland: DMABUF through its own
    /// backend. What the user set is kept.
    Nvidia {
        set_gbm_backend: bool,
        set_glx_vendor: bool,
    },
    /// Everywhere else DMABUF is not to be relied on.
    WithoutDmabuf,
}

pub fn choose_renderer(g: Graphics) -> (r: Renderer)
    ensures
        r == (if g.chosen {
            Renderer::AsSet
        } else if (g.wayland_display || g.wayland_session) && g.nvidia_proprietary {
            Renderer::Nvidia {
                set_gbm_backend: !g.gbm_backend_set,
                set_glx_vendor: !g.glx_vendor_set,
            }
        } else {
            Renderer::WithoutDmabuf
        }),
        g.chosen <==> r is AsSet,
        r is Nvidia ==> g.nvidia_proprietary && (g.wayland_display || g.wayland_session),
        r is Nvidia ==> r->set_gbm_backend == !g.gbm_backend_set && r->set_glx_vendor
            == !g.glx_vendor_set,
{
    if g.chosen {
        Renderer::AsSet
    } else if (g.wayland_display || g.wayland_session) && g.nvidia_proprietary {
        Renderer::Nvidia {
            set_gbm_backend: !g.gbm_backend_set,
            set_glx_vendor: !g.glx_vendor_set,
        }
    } else {
        Renderer::WithoutDmabuf
    }
}

/// A log above this size is set aside before it is written on.
pub const MAX_LOG_BYTES: u64 = 5_242_880;

pub fn rotates_log(size: Option<u64>) -> (r: bool)
    ensures
        r == (size is Some && size->0 > MAX_LOG_BYTES),
        size is None ==> !r,
{
    match size {
        Some(n) => n > MAX_LOG_BYTES,
        None => false,
    }
}

} // verus!
