//! Names of files on disk, and what their extensions and MIME types say.

use vstd::prelude::*;
use vstd::slice::slice_subrange;

use crate::text::{
    before, before_char, char_is_control, chars_of, concat2, decimal_int, i64_text,
    is_control, lemma_strip_end, lemma_strip_end_parts, lemma_strip_start, lemma_strip_start_parts, lower, lower_str, opt_text, owned,
    string_of, strip, strip_chars, strip_start, trim, trim_str, TrimSet,
};

verus! {

/// The longest name that a file is given, in characters.
pub const MAX_NAME_CHARS: usize = 200;

/// Separators and control characters become underscores.
pub open spec fn benign_char(c: char) -> char {
    if c == '/' || c == '\\' || is_control(c) {
        '_'
    } else {
        c
    }
}

pub open spec fn benign_text(s: Seq<char>) -> Seq<char> {
    s.map_values(|c: char| benign_char(c))
}

/// A single, benign path component made of an untrusted name: separators and
/// control characters replaced, dots and spaces stripped from both ends, never
/// empty, and not longer than `MAX_NAME_CHARS`.
pub open spec fn benign_name(s: Seq<char>) -> Seq<char> {
    let stripped = strip(benign_text(s), TrimSet::DotOrSpace);
    let base = if stripped.len() == 0 {
        "attachment"@
    } else {
        stripped
    };
    if base.len() <= MAX_NAME_CHARS {
        base
    } else {
        base.take(MAX_NAME_CHARS as int)
    }
}

/// A name that is one path component and neither hidden nor a reference to a
/// directory: it has at least one character and at most `MAX_NAME_CHARS`, no
/// separator and no control character, and it starts with neither a dot nor a
/// space.
pub open spec fn is_benign(name: Seq<char>) -> bool {
    &&& 0 < name.len() <= MAX_NAME_CHARS
    &&& name[0] != '.' && name[0] != ' '
    &&& forall|i: int|
        0 <= i < name.len() ==> #[trigger] name[i] != '/' && name[i] != '\\' && !is_control(
            name[i],
        )
}

/// Whatever a message calls its attachment, the file on disk has a benign
/// name; so it cannot leave the directory that it is put in.
pub proof fn names_are_benign(s: Seq<char>)
    ensures
        is_benign(benign_name(s)),
{
    let text = benign_text(s);
    let start = strip_start(text, TrimSet::DotOrSpace);
    let stripped = strip(text, TrimSet::DotOrSpace);
    lemma_strip_start_parts(text, TrimSet::DotOrSpace);
    lemma_strip_end_parts(start, TrimSet::DotOrSpace);
    reveal_strlit("attachment");
    let name = benign_name(s);
    assert forall|i: int| 0 <= i < name.len() implies #[trigger] name[i] != '/' && name[i] != '\\'
        && !is_control(name[i]) by {
        if stripped.len() > 0 {
            assert(name[i] == stripped[i]);
            assert(stripped[i] == start[i]);
            assert(start[i] == text[text.len() - start.len() + i]);
        }
    }
    if stripped.len() > 0 {
        assert(name[0] == start[0]);
    }
}

/// Reduce an untrusted filename to a single, benign path component: strip
/// separators/NUL/control chars, leading dots and spaces, and cap the length.
pub fn safe_filename(name: &str) -> (r: String)
    ensures
        r@ == benign_name(name@),
        is_benign(r@),
{
    let cs: Vec<char> = chars_of(name);
    let mut cleaned: Vec<char> = Vec::new();
    let mut i: usize = 0;
    while i < cs.len()
        invariant
            i <= cs@.len(),
            cleaned@ == benign_text(cs@.take(i as int)),
        decreases cs@.len() - i,
    {
        let c: char = cs[i];
        if c == '/' || c == '\\' || char_is_control(c) {
            cleaned.push('_');
        } else {
            cleaned.push(c);
        }
        i = i + 1;
        proof {
            assert(benign_text(cs@.take(i as int)) =~= benign_text(cs@.take(i - 1)).push(
                benign_char(cs@[i - 1]),
            ));
        }
    }
    proof {
        assert(cs@.take(cs@.len() as int) =~= cs@);
        names_are_benign(name@);
    }
    let stripped: &[char] = strip_chars(cleaned.as_slice(), TrimSet::DotOrSpace);
    if stripped.len() == 0 {
        proof {
            reveal_strlit("attachment");
        }
        return owned("attachment");
    }
    if stripped.len() <= MAX_NAME_CHARS {
        string_of(stripped)
    } else {
        proof {
            assert(stripped@.take(MAX_NAME_CHARS as int) =~= stripped@.subrange(
                0,
                MAX_NAME_CHARS as int,
            ));
        }
        string_of(slice_subrange(stripped, 0, MAX_NAME_CHARS))
    }
}

/// Filename safe for a local cache path (no path separators / control chars).
pub fn sanitize_attachment_filename(name: &str) -> (r: String)
    ensures
        r@ == benign_name(name@),
        is_benign(r@),
{
    safe_filename(name)
}

/// The MIME type without its parameters, in lower case.
pub open spec fn bare_mime(mime: Seq<char>) -> Seq<char> {
    lower(trim(before(mime, ';')))
}

/// The extension of the files of a bare MIME type.
pub open spec fn mime_extension(mime: Seq<char>) -> Option<Seq<char>> {
    if mime == "text/calendar"@ {
        Some("ics"@)
    } else if mime == "application/pdf"@ {
        Some("pdf"@)
    } else if mime == "text/plain"@ {
        Some("txt"@)
    } else if mime == "text/html"@ {
        Some("html"@)
    } else if mime == "text/csv"@ {
        Some("csv"@)
    } else if mime == "application/json"@ {
        Some("json"@)
    } else if mime == "application/zip"@ {
        Some("zip"@)
    } else if mime == "image/png"@ {
        Some("png"@)
    } else if mime == "image/jpeg"@ {
        Some("jpg"@)
    } else if mime == "image/gif"@ {
        Some("gif"@)
    } else if mime == "image/webp"@ {
        Some("webp"@)
    } else if mime == "image/svg+xml"@ {
        Some("svg"@)
    } else if mime == "message/rfc822"@ {
        Some("eml"@)
    } else {
        None
    }
}

/// A file extension for a MIME type, used to name an on-disk attachment when
/// the message gave it no filename. Without a recognizable extension the OS
/// can't route "Open in app" to the right handler (e.g. a `text/calendar`
/// invite written as a bare `attachment-3` never reaches the calendar app).
pub fn ext_for_mime(mime: &str) -> (r: Option<&'static str>)
    ensures
        match r {
            Some(e) => mime_extension(bare_mime(mime@)) == Some(e@),
            None => mime_extension(bare_mime(mime@)) is None,
        },
{
    let head: String = before_char(mime, ';');
    let trimmed: String = trim_str(head.as_str());
    let bare: String = lower_str(trimmed.as_str());
    let m: &str = bare.as_str();
    if m.eq("text/calendar") {
        Some("ics")
    } else if m.eq("application/pdf") {
        Some("pdf")
    } else if m.eq("text/plain") {
        Some("txt")
    } else if m.eq("text/html") {
        Some("html")
    } else if m.eq("text/csv") {
        Some("csv")
    } else if m.eq("application/json") {
        Some("json")
    } else if m.eq("application/zip") {
        Some("zip")
    } else if m.eq("image/png") {
        Some("png")
    } else if m.eq("image/jpeg") {
        Some("jpg")
    } else if m.eq("image/gif") {
        Some("gif")
    } else if m.eq("image/webp") {
        Some("webp")
    } else if m.eq("image/svg+xml") {
        Some("svg")
    } else if m.eq("message/rfc822") {
        Some("eml")
    } else {
        None
    }
}

/// The text behind the last `c`; the whole text where there is none.
pub open spec fn after_last(s: Seq<char>, c: char) -> Seq<char>
    decreases s.len(),
{
    if s.len() == 0 || s.last() == c {
        Seq::empty()
    } else {
        after_last(s.drop_last(), c).push(s.last())
    }
}

/// The MIME type of files with an extension in lower case.
pub open spec fn extension_mime(ext: Seq<char>) -> Seq<char> {
    if ext == "pdf"@ {
        "application/pdf"@
    } else if ext == "png"@ {
        "image/png"@
    } else if ext == "jpg"@ || ext == "jpeg"@ {
        "image/jpeg"@
    } else if ext == "gif"@ {
        "image/gif"@
    } else if ext == "webp"@ {
        "image/webp"@
    } else if ext == "svg"@ {
        "image/svg+xml"@
    } else if ext == "txt"@ || ext == "log"@ || ext == "md"@ {
        "text/plain"@
    } else if ext == "csv"@ {
        "text/csv"@
    } else if ext == "json"@ {
        "application/json"@
    } else if ext == "zip"@ {
        "application/zip"@
    } else if ext == "gz"@ {
        "application/gzip"@
    } else if ext == "doc"@ {
        "application/msword"@
    } else if ext == "docx"@ {
        "application/vnd.openxmlformats-officedocument.wordprocessingml.document"@
    } else if ext == "xls"@ {
        "application/vnd.ms-excel"@
    } else if ext == "xlsx"@ {
        "application/vnd.openxmlformats-officedocument.spreadsheetml.sheet"@
    } else if ext == "ppt"@ {
        "application/vnd.ms-powerpoint"@
    } else if ext == "pptx"@ {
        "application/vnd.openxmlformats-officedocument.presentationml.presentation"@
    } else if ext == "mp4"@ {
        "video/mp4"@
    } else if ext == "mp3"@ {
        "audio/mpeg"@
    } else if ext == "eml"@ {
        "message/rfc822"@
    } else if ext == "ics"@ {
        "text/calendar"@
    } else {
        "application/octet-stream"@
    }
}

proof fn lemma_after_last(s: Seq<char>, c: char, k: int)
    requires
        0 <= k <= s.len(),
        forall|j: int| k <= j < s.len() ==> #[trigger] s[j] != c,
        k > 0 ==> s[k - 1] == c,
    ensures
        after_last(s, c) == s.skip(k),
    decreases s.len(),
{
    if s.len() == k {
        assert(s.skip(k) =~= Seq::empty());
    } else {
        assert(s[s.len() - 1] != c);
        lemma_after_last(s.drop_last(), c, k);
        assert(s.skip(k) =~= s.drop_last().skip(k).push(s.last()));
    }
}

/// Tiny extension-based MIME guess for outgoing attachments.
pub fn mime_guess_from_name(name: &str) -> (r: String)
    ensures
        r@ == extension_mime(lower(after_last(name@, '.'))),
{
    let cs: Vec<char> = chars_of(name);
    let mut k: usize = cs.len();
    while k > 0 && cs[k - 1] != '.'
        invariant
            k <= cs@.len(),
            forall|j: int| k <= j < cs@.len() ==> #[trigger] cs@[j] != '.',
        decreases k,
    {
        k = k - 1;
    }
    proof {
        lemma_after_last(cs@, '.', k as int);
        assert(cs@.skip(k as int) =~= cs@.subrange(k as int, cs@.len() as int));
    }
    let raw: String = string_of(slice_subrange(cs.as_slice(), k, cs.len()));
    let low: String = lower_str(raw.as_str());
    let ext: &str = low.as_str();
    if ext.eq("pdf") {
        owned("application/pdf")
    } else if ext.eq("png") {
        owned("image/png")
    } else if ext.eq("jpg") || ext.eq("jpeg") {
        owned("image/jpeg")
    } else if ext.eq("gif") {
        owned("image/gif")
    } else if ext.eq("webp") {
        owned("image/webp")
    } else if ext.eq("svg") {
        owned("image/svg+xml")
    } else if ext.eq("txt") || ext.eq("log") || ext.eq("md") {
        owned("text/plain")
    } else if ext.eq("csv") {
        owned("text/csv")
    } else if ext.eq("json") {
        owned("application/json")
    } else if ext.eq("zip") {
        owned("application/zip")
    } else if ext.eq("gz") {
        owned("application/gzip")
    } else if ext.eq("doc") {
        owned("application/msword")
    } else if ext.eq("docx") {
        owned("application/vnd.openxmlformats-officedocument.wordprocessingml.document")
    } else if ext.eq("xls") {
        owned("application/vnd.ms-excel")
    } else if ext.eq("xlsx") {
        owned("application/vnd.openxmlformats-officedocument.spreadsheetml.sheet")
    } else if ext.eq("ppt") {
        owned("application/vnd.ms-powerpoint")
    } else if ext.eq("pptx") {
        owned("application/vnd.openxmlformats-officedocument.presentationml.presentation")
    } else if ext.eq("mp4") {
        owned("video/mp4")
    } else if ext.eq("mp3") {
        owned("audio/mpeg")
    } else if ext.eq("eml") {
        owned("message/rfc822")
    } else if ext.eq("ics") {
        owned("text/calendar")
    } else {
        owned("application/octet-stream")
    }
}

proof fn lemma_extension(base: Seq<char>, ext: Seq<char>)
    requires
        !lower(ext).contains('.'),
    ensures
        after_last(base + "."@ + ext, '.') == ext,
{
    reveal_strlit(".");
    let name = base + "."@ + ext;
    let k: int = base.len() as int + 1;
    assert(name.skip(k) =~= ext);
    assert forall|j: int| k <= j < name.len() implies #[trigger] name[j] != '.' by {
        let c = ext[j - k];
        assert(name[j] == c);
        if c == '.' {
            assert(lower(ext)[j - k] == '.');
        }
    }
    assert(name[k - 1] == '.');
    lemma_after_last(name, '.', k);
}

/// How a name with one of the extensions of MIME types is read again.
proof fn lemma_extension_read(mime: Seq<char>)
    requires
        mime_extension(mime) is Some,
    ensures
        !(mime_extension(mime)->0).contains('.'),
        mime_extension(mime)->0 != "html"@ ==> extension_mime(mime_extension(mime)->0) == mime,
        extension_mime("html"@) == "application/octet-stream"@,
{
    reveal_strlit("pdf");
    reveal_strlit("png");
    reveal_strlit("jpg");
    reveal_strlit("jpeg");
    reveal_strlit("gif");
    reveal_strlit("webp");
    reveal_strlit("svg");
    reveal_strlit("txt");
    reveal_strlit("log");
    reveal_strlit("md");
    reveal_strlit("csv");
    reveal_strlit("json");
    reveal_strlit("zip");
    reveal_strlit("gz");
    reveal_strlit("doc");
    reveal_strlit("docx");
    reveal_strlit("xls");
    reveal_strlit("xlsx");
    reveal_strlit("ppt");
    reveal_strlit("pptx");
    reveal_strlit("mp4");
    reveal_strlit("mp3");
    reveal_strlit("eml");
    reveal_strlit("ics");
    reveal_strlit("html");
    assert("pdf"@[0] == 'p' && "pdf"@[1] == 'd' && "pdf"@[2] == 'f');
    assert("png"@[0] == 'p' && "png"@[1] == 'n' && "png"@[2] == 'g');
    assert("jpg"@[0] == 'j' && "jpg"@[1] == 'p' && "jpg"@[2] == 'g');
    assert("jpeg"@[0] == 'j' && "jpeg"@[1] == 'p' && "jpeg"@[2] == 'e' && "jpeg"@[3] == 'g');
    assert("gif"@[0] == 'g' && "gif"@[1] == 'i' && "gif"@[2] == 'f');
    assert("webp"@[0] == 'w' && "webp"@[1] == 'e' && "webp"@[2] == 'b' && "webp"@[3] == 'p');
    assert("svg"@[0] == 's' && "svg"@[1] == 'v' && "svg"@[2] == 'g');
    assert("txt"@[0] == 't' && "txt"@[1] == 'x' && "txt"@[2] == 't');
    assert("log"@[0] == 'l' && "log"@[1] == 'o' && "log"@[2] == 'g');
    assert("md"@[0] == 'm' && "md"@[1] == 'd');
    assert("csv"@[0] == 'c' && "csv"@[1] == 's' && "csv"@[2] == 'v');
    assert("json"@[0] == 'j' && "json"@[1] == 's' && "json"@[2] == 'o' && "json"@[3] == 'n');
    assert("zip"@[0] == 'z' && "zip"@[1] == 'i' && "zip"@[2] == 'p');
    assert("gz"@[0] == 'g' && "gz"@[1] == 'z');
    assert("doc"@[0] == 'd' && "doc"@[1] == 'o' && "doc"@[2] == 'c');
    assert("docx"@[0] == 'd' && "docx"@[1] == 'o' && "docx"@[2] == 'c' && "docx"@[3] == 'x');
    assert("xls"@[0] == 'x' && "xls"@[1] == 'l' && "xls"@[2] == 's');
    assert("xlsx"@[0] == 'x' && "xlsx"@[1] == 'l' && "xlsx"@[2] == 's' && "xlsx"@[3] == 'x');
    assert("ppt"@[0] == 'p' && "ppt"@[1] == 'p' && "ppt"@[2] == 't');
    assert("pptx"@[0] == 'p' && "pptx"@[1] == 'p' && "pptx"@[2] == 't' && "pptx"@[3] == 'x');
    assert("mp4"@[0] == 'm' && "mp4"@[1] == 'p' && "mp4"@[2] == '4');
    assert("mp3"@[0] == 'm' && "mp3"@[1] == 'p' && "mp3"@[2] == '3');
    assert("eml"@[0] == 'e' && "eml"@[1] == 'm' && "eml"@[2] == 'l');
    assert("ics"@[0] == 'i' && "ics"@[1] == 'c' && "ics"@[2] == 's');
    assert("html"@[0] == 'h' && "html"@[1] == 't' && "html"@[2] == 'm' && "html"@[3] == 'l');
}

/// Only what stands behind the last dot of a name counts: a name that ends in
/// the extension of a MIME type, in either case, is guessed to be of that type.
/// The one exception is HTML, which is sent as plain bytes.
pub proof fn extensions_give_their_types_back(mime: Seq<char>, base: Seq<char>, ext: Seq<char>)
    requires
        mime_extension(bare_mime(mime)) == Some(lower(ext)),
    ensures
        extension_mime(lower(after_last(base + "."@ + ext, '.'))) == (if lower(ext) == "html"@ {
            "application/octet-stream"@
        } else {
            bare_mime(mime)
        }),
{
    lemma_extension_read(bare_mime(mime));
    lemma_extension(base, ext);
}

/// What stands before the last dot of a name does not count.
pub proof fn only_the_last_extension_counts(base: Seq<char>, ext: Seq<char>)
    requires
        !lower(ext).contains('.'),
    ensures
        extension_mime(lower(after_last(base + "."@ + ext, '.'))) == extension_mime(lower(ext)),
{
    lemma_extension(base, ext);
}

/// The name under which a downloaded attachment is stored: what the message
/// calls it, else what its own part calls it, else its number; made benign; and
/// with an extension from the MIME type where the name has none. A benign name
/// starts with no dot, so it has an extension exactly where it has a dot.
pub open spec fn stored_name(
    filename: Option<Seq<char>>,
    parsed_name: Option<Seq<char>>,
    attachment_id: i64,
    mime_type: Option<Seq<char>>,
) -> Seq<char> {
    let given = match (filename, parsed_name) {
        (Some(f), _) => f,
        (None, Some(p)) => p,
        (None, None) => "attachment-"@ + decimal_int(attachment_id as int),
    };
    let safe = benign_name(given);
    let ext = match mime_type {
        Some(m) => mime_extension(bare_mime(m)),
        None => None,
    };
    match ext {
        Some(e) if !safe.contains('.') => safe + "."@ + e,
        _ => safe,
    }
}

/// A name that is benign already is kept as it is.
pub proof fn benign_names_are_kept(name: Seq<char>)
    requires
        is_benign(name),
        name.last() != '.' && name.last() != ' ',
    ensures
        benign_name(name) == name,
{
    assert(benign_text(name) =~= name) by {
        assert forall|i: int| 0 <= i < name.len() implies benign_char(#[trigger] name[i])
            == name[i] by {}
    }
    lemma_strip_start(name, TrimSet::DotOrSpace, 0);
    assert(name.skip(0) =~= name);
    lemma_strip_end(name, TrimSet::DotOrSpace, name.len() as int);
    assert(name.take(name.len() as int) =~= name);
}

/// An attachment is stored under the name that the message gives it, else under
/// that of its own part, else under its number. A name with a dot stays; one
/// without gets the extension of its type, where that has one.
pub proof fn attachments_keep_their_names(
    filename: Option<Seq<char>>,
    parsed_name: Option<Seq<char>>,
    attachment_id: i64,
    mime_type: Option<Seq<char>>,
    given: Seq<char>,
)
    requires
        filename is Some ==> given == filename->0,
        filename is None && parsed_name is Some ==> given == parsed_name->0,
        filename is None && parsed_name is None ==> given == "attachment-"@ + decimal_int(
            attachment_id as int,
        ),
    ensures
        ({
            let stored = stored_name(filename, parsed_name, attachment_id, mime_type);
            &&& benign_name(given).contains('.') ==> stored == benign_name(given)
            &&& mime_type is None ==> stored == benign_name(given)
            &&& stored.take(benign_name(given).len() as int) == benign_name(given)
            &&& !benign_name(given).contains('.') && mime_type is Some && bare_mime(mime_type->0)
                == "application/pdf"@ ==> stored == benign_name(given) + ".pdf"@
            &&& !benign_name(given).contains('.') && mime_type is Some && bare_mime(mime_type->0)
                == "text/calendar"@ ==> stored == benign_name(given) + ".ics"@
        }),
{
    let safe = benign_name(given);
    let stored = stored_name(filename, parsed_name, attachment_id, mime_type);
    assert(stored.take(safe.len() as int) =~= safe);
    reveal_strlit(".");
    reveal_strlit("pdf");
    reveal_strlit(".pdf");
    reveal_strlit("ics");
    reveal_strlit(".ics");
    reveal_strlit("text/calendar");
    reveal_strlit("application/pdf");
    assert("text/calendar"@.len() == 13 && "application/pdf"@.len() == 15);
    assert("."@ + "pdf"@ =~= ".pdf"@);
    assert("."@ + "ics"@ =~= ".ics"@);
    assert(safe + "."@ + "pdf"@ =~= safe + ("."@ + "pdf"@));
    assert(safe + "."@ + "ics"@ =~= safe + ("."@ + "ics"@));
}

/// The file name of a cached attachment.
pub fn attachment_file_name(
    filename: &Option<String>,
    parsed_name: &Option<String>,
    attachment_id: i64,
    mime_type: &Option<String>,
) -> (r: String)
    ensures
        r@ == stored_name(
            opt_text(*filename),
            opt_text(*parsed_name),
            attachment_id,
            opt_text(*mime_type),
        ),
{
    let mut safe: String = match (filename, parsed_name) {
        (Some(f), _) => safe_filename(f.as_str()),
        (None, Some(p)) => safe_filename(p.as_str()),
        (None, None) => {
            let number: String = i64_text(attachment_id);
            let given: String = concat2("attachment-", number.as_str());
            safe_filename(given.as_str())
        },
    };
    let ext: Option<&'static str> = match mime_type {
        Some(m) => ext_for_mime(m.as_str()),
        None => None,
    };
    if let Some(e) = ext {
        let cs: Vec<char> = chars_of(safe.as_str());
        let dot: usize = crate::text::find_char_in(cs.as_slice(), '.');
        proof {
            crate::text::lemma_find_char(cs@, '.');
            if dot < cs@.len() {
                assert(cs@.contains(cs@[dot as int]));
            }
        }
        if dot == cs.len() {
            safe.push_str(".");
            safe.push_str(e);
        }
    }
    safe
}

} // verus!
