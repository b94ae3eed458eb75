use vstd::prelude::*;
use vstd::utf8::*;
use base64::Engine;
use crate::errors::ReeknoteError;
use crate::models::Resource;
use crate::text::{
    CharClass, ascii_lower, chars_eq, chars_of, contains_spec, find, find_from, find_spec, matches_at, nonws_len, push_all, push_str,
    repeat_spec, replace_spec, replace_str, rfind_spec, run_len, slice_to_vec, starts_with_spec, ends_with_spec, string_of,
    trim_end_spec, trim_spec, trim_start_spec, trim_ws, views, words_spec,
};

verus! {

/// The formats that notes are written and read in.
#[derive(Clone, Copy, Debug, PartialEq, Eq, Structural)]
pub enum TextFormat {
    Markdown,
    Html,
    Plain,
    Pre,
}

pub const HORIZONTAL_RULE: &'static str = "------------------------";

pub const ENML_HEAD: &'static str = "<?xml version=\"1.0\" encoding=\"UTF-8\"?>\n<!DOCTYPE en-note SYSTEM \"http://xml.evernote.com/pub/enml2.dtd\">\n<en-note>";

impl TextFormat {
    /// The format of a note file with the given extension.
    pub fn from_extension(extension: &str) -> (res: Option<TextFormat>)
        ensures
            res == (if extension@ == ".md"@ || extension@ == ".markdown"@ {
                Some(TextFormat::Markdown)
            } else if extension@ == ".html"@ || extension@ == ".org"@ {
                Some(TextFormat::Html)
            } else {
                None
            }),
    {
        let e = chars_of(extension);
        if chars_eq(e.as_slice(), chars_of(".md").as_slice()) || chars_eq(e.as_slice(), chars_of(".markdown").as_slice()) {
            Some(TextFormat::Markdown)
        } else if chars_eq(e.as_slice(), chars_of(".html").as_slice()) || chars_eq(e.as_slice(), chars_of(".org").as_slice()) {
            Some(TextFormat::Html)
        } else {
            None
        }
    }
}

/// An image that a note shows: the hash of its data and its file extension.
#[derive(Clone, Debug, PartialEq, Eq)]
pub struct ImageInfo {
    pub hash: String,
    pub extension: String,
}

/// How images are handled when a note is written out.
#[derive(Clone, Debug, PartialEq, Eq)]
pub struct ImageOptions {
    pub save_images: bool,
    pub images_in_subdir: bool,
    pub base_filename: Option<String>,
}

impl Default for ImageOptions {
    fn default() -> (r: Self)
        ensures
            !r.save_images,
            !r.images_in_subdir,
            r.base_filename is None,
    {
        ImageOptions { save_images: false, images_in_subdir: false, base_filename: None }
    }
}

impl Default for ImageInfo {
    fn default() -> (r: Self)
        ensures
            r.hash@.len() == 0,
            r.extension@.len() == 0,
    {
        ImageInfo { hash: String::new(), extension: String::new() }
    }
}

// ---------------------------------------------------------------------------
// Escaping
// ---------------------------------------------------------------------------

fn rep(s: Vec<char>, p: &str, r: &str) -> (res: Vec<char>)
    requires
        p@.len() > 0,
    ensures
        res@ == replace_spec(s@, p@, r@),
{
    replace_str(s.as_slice(), p, r)
}

/// `&`, `<`, `>`, quotes and line breaks as HTML writes them.
pub open spec fn html_escape_spec(t: Seq<char>) -> Seq<char> {
    replace_spec(
        replace_spec(
            replace_spec(
                replace_spec(replace_spec(replace_spec(t, "&"@, "&amp;"@), "<"@, "&lt;"@), ">"@, "&gt;"@),
                "\""@,
                "&quot;"@,
            ),
            "'"@,
            "&apos;"@,
        ),
        "\n"@,
        "<br />"@,
    )
}

/// `&`, `<` and `>` as HTML writes them.
pub open spec fn html_escape_tag_spec(t: Seq<char>) -> Seq<char> {
    replace_spec(replace_spec(replace_spec(t, "&"@, "&amp;"@), "<"@, "&lt;"@), ">"@, "&gt;"@)
}

/// The characters that the HTML entities of `t` stand for.
pub open spec fn html_unescape_spec(t: Seq<char>) -> Seq<char> {
    replace_spec(
        replace_spec(
            replace_spec(
                replace_spec(replace_spec(replace_spec(t, "&quot;"@, "\""@), "&apos;"@, "'"@), "&lt;"@, "<"@),
                "&gt;"@,
                ">"@,
            ),
            "&amp;"@,
            "&"@,
        ),
        "&nbsp;"@,
        " "@,
    )
}

fn html_escape_chars(t: &[char]) -> (res: Vec<char>)
    ensures
        res@ == html_escape_spec(t@),
{
    proof {
        reveal_strlit("&");
        reveal_strlit("<");
        reveal_strlit(">");
        reveal_strlit("\"");
        reveal_strlit("'");
        reveal_strlit("\n");
    }
    let s = slice_to_vec(t, 0, t.len());
    assert(t@.subrange(0, t@.len() as int) =~= t@);
    let s = rep(s, "&", "&amp;");
    let s = rep(s, "<", "&lt;");
    let s = rep(s, ">", "&gt;");
    let s = rep(s, "\"", "&quot;");
    let s = rep(s, "'", "&apos;");
    rep(s, "\n", "<br />")
}

fn html_escape_tag_chars(t: &[char]) -> (res: Vec<char>)
    ensures
        res@ == html_escape_tag_spec(t@),
{
    proof {
        reveal_strlit("&");
        reveal_strlit("<");
        reveal_strlit(">");
    }
    let s = slice_to_vec(t, 0, t.len());
    assert(t@.subrange(0, t@.len() as int) =~= t@);
    let s = rep(s, "&", "&amp;");
    let s = rep(s, "<", "&lt;");
    rep(s, ">", "&gt;")
}

fn html_unescape_chars(t: &[char]) -> (res: Vec<char>)
    ensures
        res@ == html_unescape_spec(t@),
{
    proof {
        reveal_strlit("&quot;");
        reveal_strlit("&apos;");
        reveal_strlit("&lt;");
        reveal_strlit("&gt;");
        reveal_strlit("&amp;");
        reveal_strlit("&nbsp;");
    }
    let s = slice_to_vec(t, 0, t.len());
    assert(t@.subrange(0, t@.len() as int) =~= t@);
    let s = rep(s, "&quot;", "\"");
    let s = rep(s, "&apos;", "'");
    let s = rep(s, "&lt;", "<");
    let s = rep(s, "&gt;", ">");
    let s = rep(s, "&amp;", "&");
    rep(s, "&nbsp;", " ")
}

/// Escapes text for HTML; line breaks become `<br />`.
pub fn html_escape(text: &str) -> (res: String)
    ensures
        res@ == html_escape_spec(text@),
{
    let t = chars_of(text);
    let r = html_escape_chars(t.as_slice());
    string_of(r.as_slice())
}

/// Escapes `&`, `<` and `>` for HTML.
pub fn html_escape_tag(text: &str) -> (res: String)
    ensures
        res@ == html_escape_tag_spec(text@),
{
    let t = chars_of(text);
    let r = html_escape_tag_chars(t.as_slice());
    string_of(r.as_slice())
}

/// Replaces the HTML entities that notes use by their characters.
pub fn html_unescape(text: &str) -> (res: String)
    ensures
        res@ == html_unescape_spec(text@),
{
    let t = chars_of(text);
    let r = html_unescape_chars(t.as_slice());
    string_of(r.as_slice())
}

/// A note body made of `content_html`.
pub open spec fn wrap_enml_spec(content_html: Seq<char>) -> Seq<char> {
    ENML_HEAD@ + content_html + "</en-note>"@
}

/// Wraps HTML in the ENML document frame.
pub fn wrap_enml(content_html: &str) -> (res: String)
    ensures
        res@ == wrap_enml_spec(content_html@),
{
    let mut out = chars_of(ENML_HEAD);
    push_str(&mut out, content_html);
    push_str(&mut out, "</en-note>");
    string_of(out.as_slice())
}

fn wrap_enml_chars(content_html: &[char]) -> (res: Vec<char>)
    ensures
        res@ == wrap_enml_spec(content_html@),
{
    let mut out = chars_of(ENML_HEAD);
    push_all(&mut out, content_html);
    push_str(&mut out, "</en-note>");
    out
}

/// Whether an edit changed the file: its checksums differ.
pub fn read_edit_result(original_checksum: &str, new_checksum: &str) -> (res: bool)
    ensures
        res == (original_checksum@ != new_checksum@),
{
    !chars_eq(chars_of(original_checksum).as_slice(), chars_of(new_checksum).as_slice())
}

/// A path quoted for `sh`: inside single quotes, each quote written `'\''`.
pub open spec fn shell_quote_spec(path: Seq<char>) -> Seq<char> {
    "'"@ + replace_spec(path, "'"@, "'\\''"@) + "'"@
}

/// Quotes a path for the shell.
pub fn shell_quote(path: &str) -> (res: String)
    ensures
        res@ == shell_quote_spec(path@),
{
    proof {
        reveal_strlit("'");
    }
    let p = chars_of(path);
    let q = replace_str(p.as_slice(), "'", "'\\''");
    let mut out = chars_of("'");
    push_all(&mut out, q.as_slice());
    push_str(&mut out, "'");
    string_of(out.as_slice())
}

/// The content of a note, which must be there.
pub fn ensure_string_content(content: Option<&str>) -> (res: Result<&str, ReeknoteError>)
    ensures
        match content {
            Some(c) => res == Ok::<&str, ReeknoteError>(c),
            None => crate::errors::fails_invalid(res, "note content is required"@),
        },
{
    match content {
        Some(c) => Ok(c),
        None => Err(ReeknoteError::InvalidInput("note content is required".to_string())),
    }
}

// ---------------------------------------------------------------------------
// Pieces of ENML
// ---------------------------------------------------------------------------

/// The body of a note: between the first `<en-note>` and the last `</en-note>`.
pub open spec fn en_note_body_spec(c: Seq<char>) -> Option<Seq<char>> {
    match (find_spec(c, "<en-note>"@), rfind_spec(c, "</en-note>"@)) {
        (Some(s), Some(e)) => Some(c.subrange(s + "<en-note>"@.len(), e)),
        _ => None,
    }
}

/// The last `</en-note>` does not start before the first `<en-note>` ends
/// (else the body cannot be cut out).
pub open spec fn en_note_ok(c: Seq<char>) -> bool {
    match (find_spec(c, "<en-note>"@), rfind_spec(c, "</en-note>"@)) {
        (Some(s), Some(e)) => s + "<en-note>"@.len() <= e,
        _ => true,
    }
}

/// What is inside the note's `<en-note>` element, if it has one.
fn en_note_body(content: &[char]) -> (res: Option<Vec<char>>)
    requires
        en_note_ok(content@),
    ensures
        match en_note_body_spec(content@) {
            Some(b) => res matches Some(r) && r@ == b,
            None => res is None,
        },
{
    let open = chars_of("<en-note>");
    let close = chars_of("</en-note>");
    match find(content, open.as_slice()) {
        Some(s) => match crate::text::rfind(content, close.as_slice()) {
            Some(e) => {
                proof {
                    crate::text::lemma_find_from(content@, open@, 0);
                    reveal_strlit("<en-note>");
                    reveal_strlit("</en-note>");
                    lemma_rfind_bound(content@, close@);
                }
                Some(slice_to_vec(content, s + open.len(), e))
            },
            None => None,
        },
        None => None,
    }
}

proof fn lemma_rfind_bound(s: Seq<char>, p: Seq<char>)
    ensures
        rfind_spec(s, p) matches Some(e) ==> 0 <= e && e + p.len() <= s.len(),
{
    lemma_rfind_before_bound(s, p, s.len() - p.len());
}

proof fn lemma_rfind_before_bound(s: Seq<char>, p: Seq<char>, i: int)
    ensures
        crate::text::rfind_before(s, p, i) matches Some(e) ==> 0 <= e && e + p.len() <= s.len(),
    decreases i + 1,
{
    if i >= 0 && !matches_at(s, i, p) {
        lemma_rfind_before_bound(s, p, i - 1);
    }
}

/// The text between the first `<tag>` and the next `</tag>`.
pub open spec fn extract_tag_body_spec(c: Seq<char>, tag: Seq<char>) -> Option<Seq<char>> {
    let st = "<"@ + tag + ">"@;
    let et = "</"@ + tag + ">"@;
    match find_spec(c, st) {
        Some(s) => match find_spec(c.skip(s + st.len()), et) {
            Some(e) => Some(c.subrange(s + st.len(), s + st.len() + e)),
            None => None,
        },
        None => None,
    }
}

fn tag_chars(prefix: &str, tag: &str) -> (r: Vec<char>)
    ensures
        r@ == prefix@ + tag@ + ">"@,
{
    let mut v = chars_of(prefix);
    push_str(&mut v, tag);
    push_str(&mut v, ">");
    v
}

fn extract_tag_body(content: &[char], tag: &str) -> (res: Option<Vec<char>>)
    ensures
        match extract_tag_body_spec(content@, tag@) {
            Some(b) => res matches Some(r) && r@ == b,
            None => res is None,
        },
{
    let st = tag_chars("<", tag);
    let et = tag_chars("</", tag);
    match find(content, st.as_slice()) {
        Some(s) => {
            proof {
                crate::text::lemma_find_from(content@, st@, 0);
                assert(crate::text::find_from(content@, st@, 0) == Some(s as int));
                assert(s + st@.len() <= content@.len());
                assert(content@.len() == content.len());
            }
            let start = s + st.len();
            let rest = slice_to_vec(content, start, content.len());
            assert(rest@ =~= content@.skip(start as int));
            match find(rest.as_slice(), et.as_slice()) {
                Some(e) => {
                    proof {
                        crate::text::lemma_find_from(rest@, et@, 0);
                    }
                    Some(slice_to_vec(content, start, start + e))
                },
                None => None,
            }
        },
        None => None,
    }
}

/// The value of the attribute `key` in a tag, in double or else single quotes.
pub open spec fn attr_value_spec(tag: Seq<char>, key: Seq<char>) -> Option<Seq<char>> {
    let dq = key + "=\""@;
    let sq = key + "='"@;
    match find_spec(tag, dq) {
        Some(s) => match find_spec(tag.skip(s + dq.len()), "\""@) {
            Some(e) => Some(tag.subrange(s + dq.len(), s + dq.len() + e)),
            None => None,
        },
        None => match find_spec(tag, sq) {
            Some(s) => match find_spec(tag.skip(s + sq.len()), "'"@) {
                Some(e) => Some(tag.subrange(s + sq.len(), s + sq.len() + e)),
                None => None,
            },
            None => None,
        },
    }
}

fn attr_in(tag: &[char], key: &[char], quote: &str) -> (res: Option<Option<Vec<char>>>)
    ensures
        match find_spec(tag@, key@ + "="@ + quote@) {
            Some(s) => res matches Some(o) && match find_spec(tag@.skip(s + key@.len() + 1 + quote@.len()), quote@) {
                Some(e) => o matches Some(v) && v@ == tag@.subrange(
                    s + key@.len() + 1 + quote@.len(),
                    s + key@.len() + 1 + quote@.len() + e,
                ),
                None => o is None,
            },
            None => res is None,
        },
{
    let mut needle = slice_to_vec(key, 0, key.len());
    assert(key@.subrange(0, key@.len() as int) =~= key@);
    needle.push('=');
    push_str(&mut needle, quote);
    assert(needle@ =~= key@ + "="@ + quote@) by {
        reveal_strlit("=");
    }
    match find(tag, needle.as_slice()) {
        Some(s) => {
            proof {
                crate::text::lemma_find_from(tag@, needle@, 0);
                assert(crate::text::find_from(tag@, needle@, 0) == Some(s as int));
                assert(s + needle@.len() <= tag@.len());
                assert(tag@.len() == tag.len());
                reveal_strlit("=");
            }
            let vs = s + needle.len();
            let rest = slice_to_vec(tag, vs, tag.len());
            assert(rest@ =~= tag@.skip(vs as int));
            let q = chars_of(quote);
            match find(rest.as_slice(), q.as_slice()) {
                Some(e) => {
                    proof {
                        crate::text::lemma_find_from(rest@, q@, 0);
                    }
                    Some(Some(slice_to_vec(tag, vs, vs + e)))
                },
                None => Some(None),
            }
        },
        None => None,
    }
}

fn attr_value(tag: &[char], key: &str) -> (res: Option<Vec<char>>)
    ensures
        match attr_value_spec(tag@, key@) {
            Some(v) => res matches Some(r) && r@ == v,
            None => res is None,
        },
{
    let k = chars_of(key);
    proof {
        reveal_strlit("=");
        reveal_strlit("=\"");
        reveal_strlit("='");
        reveal_strlit("\"");
        reveal_strlit("'");
        assert(key@ + "=\""@ =~= key@ + "="@ + "\""@);
        assert(key@ + "='"@ =~= key@ + "="@ + "'"@);
    }
    match attr_in(tag, k.as_slice(), "\"") {
        Some(o) => o,
        None => match attr_in(tag, k.as_slice(), "'") {
            Some(o) => o,
            None => None,
        },
    }
}

/// The text outside tags, from a point where we are (or are not) inside a tag.
pub open spec fn strip_tags_from(s: Seq<char>, in_tag: bool) -> Seq<char>
    decreases s.len(),
{
    if s.len() == 0 {
        Seq::empty()
    } else if s[0] == '<' {
        strip_tags_from(s.skip(1), true)
    } else if s[0] == '>' && in_tag {
        strip_tags_from(s.skip(1), false)
    } else if !in_tag {
        seq![s[0]] + strip_tags_from(s.skip(1), false)
    } else {
        strip_tags_from(s.skip(1), true)
    }
}

/// `content` without its tags.
fn strip_tags(content: &[char]) -> (res: Vec<char>)
    ensures
        res@ == strip_tags_from(content@, false),
{
    let mut out: Vec<char> = Vec::new();
    let mut in_tag = false;
    let mut i: usize = 0;
    assert(content@.skip(0) =~= content@);
    assert(out@ + strip_tags_from(content@, false) =~= strip_tags_from(content@, false));
    while i < content.len()
        invariant
            i <= content@.len(),
            strip_tags_from(content@, false) == out@ + strip_tags_from(content@.skip(i as int), in_tag),
        decreases content.len() - i,
    {
        let c = content[i];
        assert(content@.skip(i as int)[0] == c);
        assert(content@.skip(i as int).skip(1) =~= content@.skip(i + 1));
        let ghost before = out@;
        if c == '<' {
            in_tag = true;
        } else if c == '>' && in_tag {
            in_tag = false;
        } else if !in_tag {
            out.push(c);
            assert(out@ + strip_tags_from(content@.skip(i + 1), false) =~= before + (seq![c] + strip_tags_from(
                content@.skip(i + 1),
                false,
            )));
        }
        i += 1;
    }
    assert(content@.skip(i as int) =~= Seq::<char>::empty());
    assert(out@ + Seq::<char>::empty() =~= out@);
    out
}

/// Blank lines folded: each line trimmed at its end, runs of blank lines
/// kept as one empty line; the text and whether its last line was blank.
pub open spec fn blank_fold(lines: Seq<Seq<char>>) -> (Seq<char>, bool)
    decreases lines.len(),
{
    if lines.len() == 0 {
        (Seq::empty(), false)
    } else {
        let (o, prev) = blank_fold(lines.drop_last());
        let line = lines.last();
        if crate::text::is_blank(line) {
            (if prev { o } else { o.push('\n') }, true)
        } else {
            (o + trim_end_spec(line, CharClass::Whitespace) + seq!['\n'], false)
        }
    }
}

/// The text with `\r\n` as `\n`, blank lines folded, ending with a newline.
pub open spec fn normalize_blank_lines_spec(c: Seq<char>) -> Seq<char> {
    let o = blank_fold(crate::text::lines_spec(replace_spec(c, "\r\n"@, "\n"@))).0;
    if o.len() > 0 && o.last() == '\n' {
        o
    } else {
        o.push('\n')
    }
}

fn normalize_blank_lines(content: &[char]) -> (res: Vec<char>)
    ensures
        res@ == normalize_blank_lines_spec(content@),
{
    proof {
        reveal_strlit("\r\n");
    }
    let c = replace_str(content, "\r\n", "\n");
    let lines = crate::text::lines(c.as_slice());
    let ghost ls = views(lines@);
    let mut out: Vec<char> = Vec::new();
    let mut previous_blank = false;
    let mut i: usize = 0;
    assert(ls.take(0) =~= Seq::<Seq<char>>::empty());
    while i < lines.len()
        invariant
            i <= lines@.len(),
            ls == views(lines@),
            blank_fold(ls.take(i as int)) == (out@, previous_blank),
        decreases lines.len() - i,
    {
        let line = lines[i].as_slice();
        assert(ls.take(i + 1).drop_last() =~= ls.take(i as int));
        assert(ls.take(i + 1).last() == line@);
        let blank = crate::text::blank(line);
        if blank {
            if !previous_blank {
                out.push('\n');
            }
        } else {
            let t = crate::text::trim_end_class(line, CharClass::Whitespace);
            push_all(&mut out, t.as_slice());
            out.push('\n');
        }
        previous_blank = blank;
        i += 1;
    }
    assert(ls.take(i as int) =~= ls);
    if !(out.len() > 0 && out[out.len() - 1] == '\n') {
        out.push('\n');
    }
    out
}

/// Evernote's checkboxes as Markdown task markers.
pub open spec fn convert_todos_spec(c: Seq<char>) -> Seq<char> {
    replace_spec(
        replace_spec(
            replace_spec(
                replace_spec(
                    replace_spec(
                        replace_spec(c, "<en-todo checked=\"true\"></en-todo>"@, "* [x]"@),
                        "<en-todo checked=\"true\"/>"@,
                        "* [x]"@,
                    ),
                    "<en-todo checked=\"true\" />"@,
                    "* [x]"@,
                ),
                "<en-todo></en-todo>"@,
                "* [ ]"@,
            ),
            "<en-todo/>"@,
            "* [ ]"@,
        ),
        "<en-todo />"@,
        "* [ ]"@,
    )
}

fn convert_todos_to_markdown(content: Vec<char>) -> (res: Vec<char>)
    ensures
        res@ == convert_todos_spec(content@),
{
    proof {
        reveal_strlit("<en-todo checked=\"true\"></en-todo>");
        reveal_strlit("<en-todo checked=\"true\"/>");
        reveal_strlit("<en-todo checked=\"true\" />");
        reveal_strlit("<en-todo></en-todo>");
        reveal_strlit("<en-todo/>");
        reveal_strlit("<en-todo />");
    }
    let s = rep(content, "<en-todo checked=\"true\"></en-todo>", "* [x]");
    let s = rep(s, "<en-todo checked=\"true\"/>", "* [x]");
    let s = rep(s, "<en-todo checked=\"true\" />", "* [x]");
    let s = rep(s, "<en-todo></en-todo>", "* [ ]");
    let s = rep(s, "<en-todo/>", "* [ ]");
    rep(s, "<en-todo />", "* [ ]")
}

/// Horizontal rules as a line of dashes between blank lines.
pub open spec fn horizontal_rules_spec(c: Seq<char>) -> Seq<char> {
    replace_spec(c, "<hr/>"@, "\n"@ + HORIZONTAL_RULE@ + "\n\n"@)
}

fn replace_horizontal_rules(content: Vec<char>) -> (res: Vec<char>)
    ensures
        res@ == horizontal_rules_spec(content@),
{
    proof {
        reveal_strlit("<hr/>");
    }
    let mut sep = chars_of("\n");
    push_str(&mut sep, HORIZONTAL_RULE);
    push_str(&mut sep, "\n\n");
    let p = chars_of("<hr/>");
    crate::text::replace_all(content.as_slice(), p.as_slice(), sep.as_slice())
}

/// Text that starts with a task marker.
pub open spec fn is_compact_div_text_spec(t: Seq<char>) -> bool {
    starts_with_spec(t, "* [ ]"@) || starts_with_spec(t, "* [x]"@)
}

fn is_compact_div_text(t: &[char]) -> (b: bool)
    ensures
        b == is_compact_div_text_spec(t@),
{
    crate::text::starts_with(t, chars_of("* [ ]").as_slice()) || crate::text::starts_with(
        t,
        chars_of("* [x]").as_slice(),
    )
}

/// A task line: whether it is checked, and the text after its marker.
pub open spec fn parse_task_spec(block: Seq<char>) -> Option<(bool, Seq<char>)> {
    let t = trim_ws(block);
    if starts_with_spec(t, "* [ ]"@) {
        Some((false, t.skip("* [ ]"@.len() as int)))
    } else if starts_with_spec(t, "* [x]"@) {
        Some((true, t.skip("* [x]"@.len() as int)))
    } else {
        None
    }
}

fn parse_task(block: &[char]) -> (res: Option<(bool, Vec<char>)>)
    ensures
        match parse_task_spec(block@) {
            Some((c, r)) => res matches Some((rc, rr)) && rc == c && rr@ == r,
            None => res is None,
        },
{
    let t = crate::text::trim(block);
    let open = chars_of("* [ ]");
    let done = chars_of("* [x]");
    if crate::text::starts_with(t.as_slice(), open.as_slice()) {
        Some((false, slice_to_vec(t.as_slice(), open.len(), t.len())))
    } else if crate::text::starts_with(t.as_slice(), done.as_slice()) {
        Some((true, slice_to_vec(t.as_slice(), done.len(), t.len())))
    } else {
        None
    }
}

/// A Markdown text block as it goes into HTML: as it is in raw mode, else escaped.
pub open spec fn markdown_text_spec(text: Seq<char>, rawmd: bool) -> Seq<char> {
    if rawmd {
        text
    } else {
        html_escape_tag_spec(text)
    }
}

fn markdown_text(text: &[char], rawmd: bool) -> (res: Vec<char>)
    ensures
        res@ == markdown_text_spec(text@, rawmd),
{
    if rawmd {
        let r = slice_to_vec(text, 0, text.len());
        assert(text@.subrange(0, text@.len() as int) =~= text@);
        r
    } else {
        html_escape_tag_chars(text)
    }
}

/// The name Evernote knows a code fence's language by.
pub open spec fn markdown_code_language_spec(language: Seq<char>) -> Option<Seq<char>> {
    let l = ascii_lower(trim_spec(trim_ws(language), CharClass::FenceLanguage));
    if l == "sh"@ || l == "shell"@ || l == "zsh"@ {
        Some("bash"@)
    } else if l == "py"@ || l == "python3"@ {
        Some("python"@)
    } else if l == "js"@ || l == "node"@ || l == "nodejs"@ {
        Some("javascript"@)
    } else if l == "ts"@ {
        Some("typescript"@)
    } else if l == "c++"@ {
        Some("cpp"@)
    } else if l == "c#"@ {
        Some("csharp"@)
    } else if l == "ps1"@ || l == "pwsh"@ {
        Some("powershell"@)
    } else if l == "plain"@ || l == "text"@ {
        Some("plaintext"@)
    } else if l.len() == 0 {
        None
    } else {
        Some(l)
    }
}

fn is_one_of(l: &[char], a: &str, b: &str, c: &str) -> (r: bool)
    ensures
        r == (l@ == a@ || l@ == b@ || l@ == c@),
{
    chars_eq(l, chars_of(a).as_slice()) || chars_eq(l, chars_of(b).as_slice()) || chars_eq(l, chars_of(c).as_slice())
}

fn markdown_code_language(language: &[char]) -> (res: Option<Vec<char>>)
    ensures
        match markdown_code_language_spec(language@) {
            Some(l) => res matches Some(r) && r@ == l,
            None => res is None,
        },
{
    let t = crate::text::trim(language);
    let t = crate::text::trim_class(t.as_slice(), CharClass::FenceLanguage);
    let l = crate::text::to_ascii_lower(t.as_slice());
    let l = l.as_slice();
    if is_one_of(l, "sh", "shell", "zsh") {
        Some(chars_of("bash"))
    } else if is_one_of(l, "py", "python3", "python3") {
        Some(chars_of("python"))
    } else if is_one_of(l, "js", "node", "nodejs") {
        Some(chars_of("javascript"))
    } else if is_one_of(l, "ts", "ts", "ts") {
        Some(chars_of("typescript"))
    } else if is_one_of(l, "c++", "c++", "c++") {
        Some(chars_of("cpp"))
    } else if is_one_of(l, "c#", "c#", "c#") {
        Some(chars_of("csharp"))
    } else if is_one_of(l, "ps1", "pwsh", "pwsh") {
        Some(chars_of("powershell"))
    } else if is_one_of(l, "plain", "text", "text") {
        Some(chars_of("plaintext"))
    } else if l.len() == 0 {
        None
    } else {
        Some(slice_to_vec(l, 0, l.len()))
    }
}

/// The first word of `s`, if it has one.
pub open spec fn first_word(s: Seq<char>) -> Option<Seq<char>> {
    let w = trim_start_spec(s, CharClass::Whitespace);
    if w.len() == 0 {
        None
    } else {
        Some(w.take(nonws_len(w) as int))
    }
}

/// The opening line of a fenced code block: the length of its fence and its language.
pub open spec fn code_fence_start_spec(line: Seq<char>) -> Option<(nat, Option<Seq<char>>)> {
    let t = trim_start_spec(line, CharClass::Whitespace);
    let n = run_len(t, CharClass::Single('`'));
    if n < 3 {
        None
    } else {
        Some(
            (
                n,
                match first_word(t.skip(n as int)) {
                    Some(w) => markdown_code_language_spec(w),
                    None => None,
                },
            ),
        )
    }
}

fn code_fence_start(line: &[char]) -> (res: Option<(usize, Option<Vec<char>>)>)
    ensures
        match code_fence_start_spec(line@) {
            Some((n, l)) => res matches Some((rn, rl)) && rn == n && match l {
                Some(x) => rl matches Some(y) && y@ == x,
                None => rl is None,
            },
            None => res is None,
        },
{
    let t = crate::text::trim_start_class(line, CharClass::Whitespace);
    assert(t@.skip(0) =~= t@);
    let n = crate::text::run_end(t.as_slice(), 0, CharClass::Single('`'));
    if n < 3 {
        return None;
    }
    let rest = slice_to_vec(t.as_slice(), n, t.len());
    assert(rest@ =~= t@.skip(n as int));
    let start = crate::text::trim_start_index(rest.as_slice(), 0, CharClass::Whitespace);
    assert(rest@.skip(0) =~= rest@);
    if start == rest.len() {
        assert(rest@.skip(start as int) =~= Seq::<char>::empty());
        return Some((n, None));
    }
    let end = crate::text::nonws_end(rest.as_slice(), start);
    let word = slice_to_vec(rest.as_slice(), start, end);
    assert(word@ =~= rest@.skip(start as int).take(nonws_len(rest@.skip(start as int)) as int));
    Some((n, markdown_code_language(word.as_slice())))
}

/// The closing line of a fenced code block opened by a fence of `n` backticks.
pub open spec fn is_code_fence_close_spec(line: Seq<char>, n: nat) -> bool {
    let t = trim_ws(line);
    let k = run_len(t, CharClass::Single('`'));
    k >= n && trim_ws(t.skip(k as int)).len() == 0
}

fn is_code_fence_close(line: &[char], opening_fence_len: usize) -> (b: bool)
    ensures
        b == is_code_fence_close_spec(line@, opening_fence_len as nat),
{
    let t = crate::text::trim(line);
    assert(t@.skip(0) =~= t@);
    let k = crate::text::run_end(t.as_slice(), 0, CharClass::Single('`'));
    let rest = slice_to_vec(t.as_slice(), k, t.len());
    assert(rest@ =~= t@.skip(k as int));
    k >= opening_fence_len && crate::text::trim(rest.as_slice()).len() == 0
}

/// The file extension of an image media type.
pub open spec fn media_extension_spec(media_type: Seq<char>) -> Option<Seq<char>> {
    if media_type == "image/jpeg"@ {
        Some("jpg"@)
    } else if media_type == "image/svg+xml"@ {
        Some("svg"@)
    } else if starts_with_spec(media_type, "image/"@) {
        Some(media_type.skip("image/"@.len() as int))
    } else {
        None
    }
}

fn media_extension(media_type: &[char]) -> (res: Option<Vec<char>>)
    ensures
        match media_extension_spec(media_type@) {
            Some(e) => res matches Some(r) && r@ == e,
            None => res is None,
        },
{
    let image = chars_of("image/");
    if chars_eq(media_type, chars_of("image/jpeg").as_slice()) {
        Some(chars_of("jpg"))
    } else if chars_eq(media_type, chars_of("image/svg+xml").as_slice()) {
        Some(chars_of("svg"))
    } else if crate::text::starts_with(media_type, image.as_slice()) {
        Some(slice_to_vec(media_type, image.len(), media_type.len()))
    } else {
        None
    }
}

/// Blue terminal text; resets inside it switch back to blue.
pub open spec fn blue_terminal_text_spec(t: Seq<char>) -> Seq<char> {
    "\x1b[34m"@ + replace_spec(t, "\x1b[0m"@, "\x1b[0m\x1b[34m"@) + "\x1b[0m"@
}

fn blue_terminal_text(t: &[char]) -> (res: Vec<char>)
    ensures
        res@ == blue_terminal_text_spec(t@),
{
    proof {
        reveal_strlit("\x1b[0m");
    }
    let r = replace_str(t, "\x1b[0m", "\x1b[0m\x1b[34m");
    let mut out = chars_of("\x1b[34m");
    push_all(&mut out, r.as_slice());
    push_str(&mut out, "\x1b[0m");
    out
}

// ---------------------------------------------------------------------------
// Media
// ---------------------------------------------------------------------------

/// The first resource whose data has the hash `h`.
pub open spec fn resource_with_hash(rs: Seq<Resource>, h: Seq<char>) -> Option<int>
    decreases rs.len(),
{
    if rs.len() == 0 {
        None
    } else if rs[0].data.body_hash@ == h {
        Some(0)
    } else {
        match resource_with_hash(rs.skip(1), h) {
            Some(i) => Some(i + 1),
            None => None,
        }
    }
}

proof fn lemma_resource_with_hash(rs: Seq<Resource>, h: Seq<char>)
    ensures
        match resource_with_hash(rs, h) {
            Some(i) => 0 <= i < rs.len() && rs[i].data.body_hash@ == h && forall|j: int|
                0 <= j < i ==> rs[j].data.body_hash@ != h,
            None => forall|j: int| 0 <= j < rs.len() ==> rs[j].data.body_hash@ != h,
        },
    decreases rs.len(),
{
    if rs.len() > 0 && rs[0].data.body_hash@ != h {
        lemma_resource_with_hash(rs.skip(1), h);
        assert forall|j: int| 1 <= j < rs.len() implies rs[j] == rs.skip(1)[j - 1] by {}
    }
}

fn find_resource(resources: &[Resource], h: &[char]) -> (r: Option<usize>)
    ensures
        match resource_with_hash(resources@, h@) {
            Some(i) => r == Some(i as usize) && 0 <= i < resources.len(),
            None => r is None,
        },
{
    proof {
        lemma_resource_with_hash(resources@, h@);
    }
    let mut i: usize = 0;
    while i < resources.len()
        invariant
            i <= resources@.len(),
            forall|j: int| 0 <= j < i ==> resources@[j].data.body_hash@ != h@,
            match resource_with_hash(resources@, h@) {
                Some(k) => 0 <= k < resources@.len() && resources@[k].data.body_hash@ == h@ && forall|j: int|
                    0 <= j < k ==> resources@[j].data.body_hash@ != h@,
                None => forall|j: int| 0 <= j < resources@.len() ==> resources@[j].data.body_hash@ != h@,
            },
        decreases resources.len() - i,
    {
        if chars_eq(chars_of(resources[i].data.body_hash.as_str()).as_slice(), h) {
            return Some(i);
        }
        i += 1;
    }
    None
}

/// The file name that a media element is shown by: its resource's own name,
/// else one made of its kind, hash and extension.
pub open spec fn media_filename_spec(media_type: Option<Seq<char>>, hash: Option<Seq<char>>, rs: Seq<Resource>) -> Seq<char> {
    let own = match hash {
        Some(h) => match resource_with_hash(rs, h) {
            Some(i) => if rs[i].filename@.len() == 0 {
                None
            } else {
                Some(rs[i].filename@)
            },
            None => None,
        },
        None => None,
    };
    match own {
        Some(f) => f,
        None => {
            let prefix = if media_type matches Some(t) && starts_with_spec(t, "image/"@) {
                "image"@
            } else {
                "attachment"@
            };
            let ext = match media_type {
                Some(t) => media_extension_spec(t),
                None => None,
            };
            match (hash, ext) {
                (Some(h), Some(e)) => prefix + "-"@ + h + "."@ + e,
                (Some(h), None) => prefix + "-"@ + h,
                (None, Some(e)) => prefix + "."@ + e,
                (None, None) => prefix,
            }
        },
    }
}

pub open spec fn opt_chars(o: Option<Vec<char>>) -> Option<Seq<char>> {
    match o {
        Some(v) => Some(v@),
        None => None,
    }
}

fn media_filename(media_type: &Option<Vec<char>>, hash: &Option<Vec<char>>, resources: &[Resource]) -> (res: Vec<char>)
    ensures
        res@ == media_filename_spec(opt_chars(*media_type), opt_chars(*hash), resources@),
{
    match hash {
        Some(h) => match find_resource(resources, h.as_slice()) {
            Some(i) => {
                if !resources[i].filename.as_str().is_empty() {
                    return chars_of(resources[i].filename.as_str());
                }
            },
            None => {},
        },
        None => {},
    }
    let image = chars_of("image/");
    let is_image = match media_type {
        Some(t) => crate::text::starts_with(t.as_slice(), image.as_slice()),
        None => false,
    };
    let mut out = if is_image { chars_of("image") } else { chars_of("attachment") };
    let ext = match media_type {
        Some(t) => media_extension(t.as_slice()),
        None => None,
    };
    match hash {
        Some(h) => {
            out.push('-');
            push_all(&mut out, h.as_slice());
        },
        None => {},
    }
    match ext {
        Some(e) => {
            out.push('.');
            push_all(&mut out, e.as_slice());
        },
        None => {},
    }
    proof {
        reveal_strlit("-");
        reveal_strlit(".");
    }
    out
}

/// The text that stands for a media element: its kind and file name, with
/// headphones before audio.
pub open spec fn media_placeholder_spec(tag: Seq<char>, rs: Seq<Resource>) -> Seq<char> {
    let mt = attr_value_spec(tag, "type"@);
    let h = attr_value_spec(tag, "hash"@);
    let label = if mt matches Some(t) && starts_with_spec(t, "image/"@) {
        "Image"@
    } else {
        "Attachment"@
    };
    let prefix = if mt matches Some(t) && starts_with_spec(ascii_lower(t), "audio/"@) {
        "\u{1f3a7} "@
    } else {
        Seq::empty()
    };
    prefix + "["@ + label + ": "@ + media_filename_spec(mt, h, rs) + "]"@
}

fn media_placeholder(tag: &[char], resources: &[Resource]) -> (res: Vec<char>)
    ensures
        res@ == media_placeholder_spec(tag@, resources@),
{
    let mt = attr_value(tag, "type");
    let h = attr_value(tag, "hash");
    let image = chars_of("image/");
    let audio = chars_of("audio/");
    let (is_image, is_audio) = match &mt {
        Some(t) => {
            let lower = crate::text::to_ascii_lower(t.as_slice());
            (crate::text::starts_with(t.as_slice(), image.as_slice()), crate::text::starts_with(lower.as_slice(), audio.as_slice()))
        },
        None => (false, false),
    };
    let filename = media_filename(&mt, &h, resources);
    let mut out: Vec<char> = if is_audio { chars_of("\u{1f3a7} ") } else { Vec::new() };
    out.push('[');
    if is_image {
        push_str(&mut out, "Image");
    } else {
        push_str(&mut out, "Attachment");
    }
    push_str(&mut out, ": ");
    push_all(&mut out, filename.as_slice());
    out.push(']');
    proof {
        reveal_strlit("[");
        reveal_strlit("]");
    }
    assert(out@ =~= media_placeholder_spec(tag@, resources@));
    out
}

/// Every media element replaced by its placeholder and a blank line.
pub open spec fn media_placeholders_spec(rest: Seq<char>, rs: Seq<Resource>) -> Seq<char>
    decreases rest.len(),
{
    match find_spec(rest, "<en-media"@) {
        None => rest,
        Some(i) => if 0 <= i && i + "<en-media"@.len() <= rest.len() {
            let r1 = rest.skip(i + "<en-media"@.len());
            rest.take(i) + match find_spec(r1, ">"@) {
                None => "<en-media"@ + r1,
                Some(e) => if 0 <= e < r1.len() {
                    media_placeholder_spec(r1.take(e), rs) + "\n\n"@ + media_placeholders_spec(r1.skip(e + 1), rs)
                } else {
                    "<en-media"@ + r1
                },
            }
        } else {
            rest
        },
    }
}

#[verifier::rlimit(40)]
fn replace_media_with_placeholders(content: &[char], resources: &[Resource]) -> (res: Vec<char>)
    ensures
        res@ == media_placeholders_spec(content@, resources@),
{
    let open = chars_of("<en-media");
    let gt = chars_of(">");
    proof {
        reveal_strlit(">");
        reveal_strlit("<en-media");
    }
    assert(gt@ =~= seq!['>']);
    let mut out: Vec<char> = Vec::new();
    let mut rest = slice_to_vec(content, 0, content.len());
    assert(content@.subrange(0, content@.len() as int) =~= content@);
    assert(out@ + media_placeholders_spec(rest@, resources@) =~= media_placeholders_spec(content@, resources@));
    loop
        invariant
            open@ == "<en-media"@,
            gt@ == ">"@,
            gt@ == seq!['>'],
            media_placeholders_spec(content@, resources@) == out@ + media_placeholders_spec(rest@, resources@),
        decreases rest@.len(),
    {
        match find(rest.as_slice(), open.as_slice()) {
            None => {
                push_all(&mut out, rest.as_slice());
                return out;
            },
            Some(i) => {
                proof {
                    crate::text::lemma_find_from(rest@, open@, 0);
                }
                let ghost before = out@;
                let ghost r0 = rest@;
                push_all(&mut out, slice_to_vec(rest.as_slice(), 0, i).as_slice());
                let r1 = slice_to_vec(rest.as_slice(), i + open.len(), rest.len());
                assert(r1@ =~= r0.skip(i + open@.len()));
                match find(r1.as_slice(), gt.as_slice()) {
                    None => {
                        push_all(&mut out, open.as_slice());
                        push_all(&mut out, r1.as_slice());
                        assert(out@ =~= before + (r0.take(i as int) + ("<en-media"@ + r1@)));
                        return out;
                    },
                    Some(e) => {
                        proof {
                            crate::text::lemma_find_from(r1@, gt@, 0);
                        }
                        let tag = slice_to_vec(r1.as_slice(), 0, e);
                        let p = media_placeholder(tag.as_slice(), resources);
                        push_all(&mut out, p.as_slice());
                        push_str(&mut out, "\n\n");
                        let r2 = slice_to_vec(r1.as_slice(), e + 1, r1.len());
                        assert(tag@ =~= r1@.take(e as int));
                        assert(r2@ =~= r1@.skip(e + 1));
                        assert(out@ + media_placeholders_spec(r2@, resources@) =~= before + (r0.take(i as int) + (
                        media_placeholder_spec(r1@.take(e as int), resources@) + "\n\n"@ + media_placeholders_spec(
                            r1@.skip(e + 1),
                            resources@,
                        ))));
                        rest = r2;
                    },
                }
            },
        }
    }
}

/// The file extension of an image's media subtype.
pub open spec fn image_file_extension(subtype: Seq<char>) -> Seq<char> {
    if subtype == "svg+xml"@ {
        "svg"@
    } else if subtype == "jpeg"@ {
        "jpg"@
    } else {
        subtype
    }
}

/// How a media element refers to the image file saved for it, if it is an
/// image and there is a base file name.
pub open spec fn media_image_ref(tag: Seq<char>, base: Option<Seq<char>>, html: bool) -> Option<Seq<char>> {
    match (attr_value_spec(tag, "type"@), attr_value_spec(tag, "hash"@), base) {
        (Some(t), Some(h), Some(b)) => if starts_with_spec(t, "image/"@) {
            let source = b + "-"@ + h + "."@ + image_file_extension(t.skip("image/"@.len() as int));
            Some(
                if html {
                    "<img src=\""@ + source + "\">"@
                } else {
                    "![image]("@ + source + ")"@
                },
            )
        } else {
            None
        },
        _ => None,
    }
}

/// What one media element becomes: a reference to its image file, or itself.
pub open spec fn media_piece(tag: Seq<char>, base: Option<Seq<char>>, html: bool) -> Seq<char> {
    match media_image_ref(tag, base, html) {
        Some(x) => x,
        None => "<en-media"@ + tag + ">"@,
    }
}

/// Every image element replaced by a reference to its saved file; other
/// media elements kept.
pub open spec fn media_images_spec(rest: Seq<char>, base: Option<Seq<char>>, html: bool) -> Seq<char>
    decreases rest.len(),
{
    match find_spec(rest, "<en-media"@) {
        None => rest,
        Some(i) => if 0 <= i && i + "<en-media"@.len() <= rest.len() {
            let r1 = rest.skip(i + "<en-media"@.len());
            rest.take(i) + match find_spec(r1, ">"@) {
                None => "<en-media"@ + r1,
                Some(e) => if 0 <= e < r1.len() {
                    media_piece(r1.take(e), base, html) + media_images_spec(r1.skip(e + 1), base, html)
                } else {
                    "<en-media"@ + r1
                },
            }
        } else {
            rest
        },
    }
}

fn media_image_ref_exec(tag: &[char], base: &Option<String>, html: bool) -> (res: Option<Vec<char>>)
    ensures
        match media_image_ref(tag@, crate::models::opt_str(*base), html) {
            Some(x) => res matches Some(r) && r@ == x,
            None => res is None,
        },
{
    let t = match attr_value(tag, "type") {
        Some(t) => t,
        None => return None,
    };
    let h = match attr_value(tag, "hash") {
        Some(h) => h,
        None => return None,
    };
    let b = match base {
        Some(b) => b,
        None => return None,
    };
    let image = chars_of("image/");
    if !crate::text::starts_with(t.as_slice(), image.as_slice()) {
        return None;
    }
    let sub = slice_to_vec(t.as_slice(), image.len(), t.len());
    let ext = if chars_eq(sub.as_slice(), chars_of("svg+xml").as_slice()) {
        chars_of("svg")
    } else if chars_eq(sub.as_slice(), chars_of("jpeg").as_slice()) {
        chars_of("jpg")
    } else {
        sub
    };
    let mut source = chars_of(b.as_str());
    source.push('-');
    push_all(&mut source, h.as_slice());
    source.push('.');
    push_all(&mut source, ext.as_slice());
    proof {
        reveal_strlit("-");
        reveal_strlit(".");
    }
    let mut out = if html { chars_of("<img src=\"") } else { chars_of("![image](") };
    push_all(&mut out, source.as_slice());
    if html {
        push_str(&mut out, "\">");
    } else {
        push_str(&mut out, ")");
    }
    Some(out)
}

#[verifier::rlimit(40)]
fn replace_media_with_images(content: &[char], image_options: &ImageOptions, html: bool) -> (res: Vec<char>)
    ensures
        res@ == media_images_spec(content@, crate::models::opt_str(image_options.base_filename), html),
{
    let ghost base = crate::models::opt_str(image_options.base_filename);
    let open = chars_of("<en-media");
    let gt = chars_of(">");
    proof {
        reveal_strlit(">");
        reveal_strlit("<en-media");
    }
    assert(gt@ =~= seq!['>']);
    let mut out: Vec<char> = Vec::new();
    let mut rest = slice_to_vec(content, 0, content.len());
    assert(content@.subrange(0, content@.len() as int) =~= content@);
    assert(out@ + media_images_spec(rest@, base, html) =~= media_images_spec(content@, base, html));
    loop
        invariant
            open@ == "<en-media"@,
            gt@ == ">"@,
            gt@ == seq!['>'],
            base == crate::models::opt_str(image_options.base_filename),
            media_images_spec(content@, base, html) == out@ + media_images_spec(rest@, base, html),
        decreases rest@.len(),
    {
        match find(rest.as_slice(), open.as_slice()) {
            None => {
                push_all(&mut out, rest.as_slice());
                return out;
            },
            Some(i) => {
                proof {
                    crate::text::lemma_find_from(rest@, open@, 0);
                }
                let ghost before = out@;
                let ghost r0 = rest@;
                push_all(&mut out, slice_to_vec(rest.as_slice(), 0, i).as_slice());
                let r1 = slice_to_vec(rest.as_slice(), i + open.len(), rest.len());
                assert(r1@ =~= r0.skip(i + open@.len()));
                match find(r1.as_slice(), gt.as_slice()) {
                    None => {
                        push_all(&mut out, open.as_slice());
                        push_all(&mut out, r1.as_slice());
                        assert(out@ =~= before + (r0.take(i as int) + ("<en-media"@ + r1@)));
                        return out;
                    },
                    Some(e) => {
                        proof {
                            crate::text::lemma_find_from(r1@, gt@, 0);
                        }
                        let tag = slice_to_vec(r1.as_slice(), 0, e);
                        assert(tag@ =~= r1@.take(e as int));
                        let ghost piece = media_piece(tag@, base, html);
                        let ghost mid = out@;
                        assert(mid =~= before + r0.take(i as int));
                        match media_image_ref_exec(tag.as_slice(), &image_options.base_filename, html) {
                            Some(x) => {
                                push_all(&mut out, x.as_slice());
                                assert(out@ =~= mid + piece);
                            },
                            None => {
                                push_all(&mut out, open.as_slice());
                                push_all(&mut out, tag.as_slice());
                                out.push('>');
                                assert(out@ =~= mid + piece);
                            },
                        }
                        let r2 = slice_to_vec(r1.as_slice(), e + 1, r1.len());
                        assert(r2@ =~= r1@.skip(e + 1));
                        assert(out@ =~= before + r0.take(i as int) + piece);
                        assert(out@ + media_images_spec(r2@, base, html) =~= before + (r0.take(i as int) + (piece
                            + media_images_spec(r1@.skip(e + 1), base, html))));
                        rest = r2;
                    },
                }
            },
        }
    }
}

/// The resource that a media element shows as a terminal image: the first
/// resource with the element's hash, when the element is an image and the
/// resource has data.
pub open spec fn terminal_image_resource(tag: Seq<char>, rs: Seq<Resource>) -> Option<int> {
    match attr_value_spec(tag, "type"@) {
        Some(t) => if starts_with_spec(t, "image/"@) {
            match attr_value_spec(tag, "hash"@) {
                Some(h) => match resource_with_hash(rs, h) {
                    Some(i) => if rs[i].data.body@.len() > 0 {
                        Some(i)
                    } else {
                        None
                    },
                    None => None,
                },
                None => None,
            }
        } else {
            None
        },
        None => None,
    }
}

fn terminal_image_resource_exec(tag: &[char], resources: &[Resource]) -> (r: Option<usize>)
    ensures
        match terminal_image_resource(tag@, resources@) {
            Some(i) => r == Some(i as usize) && 0 <= i < resources.len(),
            None => r is None,
        },
{
    let t = match attr_value(tag, "type") {
        Some(t) => t,
        None => return None,
    };
    if !crate::text::starts_with(t.as_slice(), chars_of("image/").as_slice()) {
        return None;
    }
    let h = match attr_value(tag, "hash") {
        Some(h) => h,
        None => return None,
    };
    match find_resource(resources, h.as_slice()) {
        Some(i) => {
            if resources[i].data.body.len() > 0 {
                Some(i)
            } else {
                None
            }
        },
        None => None,
    }
}

pub open spec fn opt_to_seq(o: Option<int>) -> Seq<int> {
    match o {
        Some(k) => seq![k],
        None => Seq::empty(),
    }
}

/// The resources of the media elements that are shown as terminal images, in order.
pub open spec fn terminal_candidates(rest: Seq<char>, rs: Seq<Resource>) -> Seq<int>
    decreases rest.len(),
{
    match find_spec(rest, "<en-media"@) {
        None => Seq::empty(),
        Some(i) => if 0 <= i && i + "<en-media"@.len() <= rest.len() {
            let r1 = rest.skip(i + "<en-media"@.len());
            match find_spec(r1, ">"@) {
                None => Seq::empty(),
                Some(e) => if 0 <= e < r1.len() {
                    opt_to_seq(terminal_image_resource(r1.take(e), rs)) + terminal_candidates(r1.skip(e + 1), rs)
                } else {
                    Seq::empty()
                },
            }
        } else {
            Seq::empty()
        },
    }
}

/// The character of the standard Base64 alphabet for the six bits `v`.
pub open spec fn base64_digit(v: int) -> char {
    if v < 26 {
        ('A' as int + v) as char
    } else if v < 52 {
        ('a' as int + (v - 26)) as char
    } else if v < 62 {
        ('0' as int + (v - 52)) as char
    } else if v == 62 {
        '+'
    } else {
        '/'
    }
}

/// The standard Base64 encoding of `data`: each three bytes as four
/// characters, the last one or two bytes padded with `=`.
pub open spec fn base64_standard(data: Seq<u8>) -> Seq<char>
    decreases data.len(),
{
    let b0 = if data.len() > 0 { data[0] as int } else { 0 };
    let b1 = if data.len() > 1 { data[1] as int } else { 0 };
    let b2 = if data.len() > 2 { data[2] as int } else { 0 };
    if data.len() == 0 {
        Seq::empty()
    } else if data.len() == 1 {
        seq![base64_digit(b0 / 4), base64_digit((b0 % 4) * 16), '=', '=']
    } else if data.len() == 2 {
        seq![base64_digit(b0 / 4), base64_digit((b0 % 4) * 16 + b1 / 16), base64_digit((b1 % 16) * 4), '=']
    } else {
        seq![
            base64_digit(b0 / 4),
            base64_digit((b0 % 4) * 16 + b1 / 16),
            base64_digit((b1 % 16) * 4 + b2 / 64),
            base64_digit(b2 % 64),
        ] + base64_standard(data.skip(3))
    }
}

/// `base64::engine::general_purpose::STANDARD.encode`: the padded standard
/// Base64 text of `data`.
#[verifier::external_body]
fn base64_encode(data: &[u8]) -> (r: String)
    requires
        data@.len() <= usize::MAX / 2,
    ensures
        r@ == base64_standard(data@),
{
    base64::engine::general_purpose::STANDARD.encode(data)
}

/// The image that `body` holds, written out as PNG; `None` where `body` is
/// no image that can be read, or the image cannot be written as PNG.
pub uninterp spec fn png_of(body: Seq<u8>) -> Option<Seq<u8>>;

/// `image::load_from_memory` on `body`, then `DynamicImage::write_to` in
/// PNG format: the PNG bytes, named by `png_of`; `None` where either call
/// fails.
#[verifier::external_body]
pub(crate) fn image_as_png(body: &[u8]) -> (res: Option<Vec<u8>>)
    ensures
        match res {
            Some(p) => png_of(body@) == Some(p@),
            None => png_of(body@) is None,
        },
{
    let image = image::load_from_memory(body).ok()?;
    let mut png = std::io::Cursor::new(Vec::new());
    image.write_to(&mut png, image::ImageFormat::Png).ok()?;
    Some(png.into_inner())
}

/// The PNG file contents that show `resource` as a terminal image: nothing
/// for a resource without data, else its image written out as PNG, if it
/// can be read.
pub fn terminal_image_png(resource: &Resource) -> (res: Option<Vec<u8>>)
    ensures
        resource.data.body@.len() == 0 ==> res is None,
        resource.data.body@.len() > 0 ==> match res {
            Some(p) => png_of(resource.data.body@) == Some(p@),
            None => png_of(resource.data.body@) is None,
        },
{
    if resource.data.body.len() == 0 {
        return None;
    }
    image_as_png(resource.data.body.as_slice())
}

/// The kitty graphics command that shows the PNG file at `path`.
pub open spec fn kitty_image_command_spec(path: Seq<char>) -> Seq<char> {
    "\x1b_Ga=T,t=f,f=100,q=2;"@ + base64_standard(encode_utf8(path)) + "\x1b\\"@
}

/// The kitty graphics command that shows the PNG file at `path`.
pub fn kitty_image_command(path: &str) -> (res: String)
    requires
        path@.len() <= usize::MAX / 8,
    ensures
        res@ == kitty_image_command_spec(path@),
{
    let bytes = path.as_bytes();
    proof {
        lemma_encode_utf8_len(path@);
    }
    let b = base64_encode(bytes);
    let mut out = chars_of("\x1b_Ga=T,t=f,f=100,q=2;");
    push_str(&mut out, b.as_str());
    push_str(&mut out, "\x1b\\");
    string_of(out.as_slice())
}

proof fn lemma_encode_utf8_len(s: Seq<char>)
    ensures
        encode_utf8(s).len() <= 4 * s.len(),
    decreases s.len(),
{
    if s.len() > 0 {
        lemma_encode_utf8_len(s.drop_first());
    }
}

/// What a media element becomes in terminal output; `path` is where its image
/// was rendered, if it was: the image, then its file name.
pub open spec fn terminal_piece(tag: Seq<char>, rs: Seq<Resource>, path: Option<Seq<char>>) -> Seq<char> {
    match path {
        Some(p) => kitty_image_command_spec(p) + media_filename_spec(
            attr_value_spec(tag, "type"@),
            attr_value_spec(tag, "hash"@),
            rs,
        ) + "\n\n"@,
        None => media_placeholder_spec(tag, rs) + "\n\n"@,
    }
}

/// The rendered path of the `k`-th terminal image, if it was rendered.
pub open spec fn rendered_at(rendered: Seq<Option<String>>, k: int) -> Option<Seq<char>> {
    if 0 <= k < rendered.len() {
        crate::models::opt_str(rendered[k])
    } else {
        None
    }
}

/// Media elements as terminal images where they were rendered, else as
/// placeholders; `k` counts the terminal images before `rest`.
pub open spec fn terminal_images_spec(rest: Seq<char>, rs: Seq<Resource>, rendered: Seq<Option<String>>, k: int) -> Seq<char>
    decreases rest.len(),
{
    match find_spec(rest, "<en-media"@) {
        None => rest,
        Some(i) => if 0 <= i && i + "<en-media"@.len() <= rest.len() {
            let r1 = rest.skip(i + "<en-media"@.len());
            rest.take(i) + match find_spec(r1, ">"@) {
                None => "<en-media"@ + r1,
                Some(e) => if 0 <= e < r1.len() {
                    let tag = r1.take(e);
                    if terminal_image_resource(tag, rs) is Some {
                        terminal_piece(tag, rs, rendered_at(rendered, k)) + terminal_images_spec(
                            r1.skip(e + 1),
                            rs,
                            rendered,
                            k + 1,
                        )
                    } else {
                        terminal_piece(tag, rs, None) + terminal_images_spec(r1.skip(e + 1), rs, rendered, k)
                    }
                } else {
                    "<en-media"@ + r1
                },
            }
        } else {
            rest
        },
    }
}

/// Paths that the base64 of the kitty command can be written for.
pub open spec fn paths_ok(rendered: Seq<Option<String>>) -> bool {
    forall|k: int| 0 <= k < rendered.len() ==> (#[trigger] rendered[k] matches Some(p) ==> p@.len() <= usize::MAX / 8)
}

fn terminal_piece_exec(tag: &[char], resources: &[Resource], path: Option<&String>) -> (res: Vec<char>)
    requires
        path matches Some(p) ==> p@.len() <= usize::MAX / 8,
    ensures
        res@ == terminal_piece(tag@, resources@, match path {
            Some(p) => Some(p@),
            None => None,
        }),
{
    match path {
        Some(p) => {
            let cmd = kitty_image_command(p.as_str());
            let mut out = chars_of(cmd.as_str());
            let filename = media_filename(&attr_value(tag, "type"), &attr_value(tag, "hash"), resources);
            push_all(&mut out, filename.as_slice());
            push_str(&mut out, "\n\n");
            out
        },
        None => {
            let mut out = media_placeholder(tag, resources);
            push_str(&mut out, "\n\n");
            out
        },
    }
}

#[verifier::rlimit(80)]
fn replace_media_with_terminal_images(content: &[char], resources: &[Resource], rendered: &Vec<Option<String>>) -> (res: Vec<char>)
    requires
        paths_ok(rendered@),
    ensures
        res@ == terminal_images_spec(content@, resources@, rendered@, 0),
{
    let open = chars_of("<en-media");
    let gt = chars_of(">");
    proof {
        reveal_strlit(">");
        reveal_strlit("<en-media");
    }
    assert(gt@ =~= seq!['>']);
    let mut out: Vec<char> = Vec::new();
    let mut k: usize = 0;
    let mut rest = slice_to_vec(content, 0, content.len());
    assert(content@.subrange(0, content@.len() as int) =~= content@);
    assert(out@ + terminal_images_spec(rest@, resources@, rendered@, 0) =~= terminal_images_spec(content@, resources@, rendered@, 0));
    loop
        invariant
            open@ == "<en-media"@,
            gt@ == ">"@,
            gt@ == seq!['>'],
            paths_ok(rendered@),
            k + rest@.len() <= content@.len(),
            content@.len() == content.len(),
            terminal_images_spec(content@, resources@, rendered@, 0) == out@ + terminal_images_spec(rest@, resources@, rendered@, k as int),
        decreases rest@.len(),
    {
        match find(rest.as_slice(), open.as_slice()) {
            None => {
                push_all(&mut out, rest.as_slice());
                return out;
            },
            Some(i) => {
                let ghost before = out@;
                let ghost r0 = rest@;
                push_all(&mut out, slice_to_vec(rest.as_slice(), 0, i).as_slice());
                let r1 = slice_to_vec(rest.as_slice(), i + open.len(), rest.len());
                assert(r1@ =~= r0.skip(i + open@.len()));
                match find(r1.as_slice(), gt.as_slice()) {
                    None => {
                        push_all(&mut out, open.as_slice());
                        push_all(&mut out, r1.as_slice());
                        assert(out@ =~= before + (r0.take(i as int) + ("<en-media"@ + r1@)));
                        return out;
                    },
                    Some(e) => {
                        let tag = slice_to_vec(r1.as_slice(), 0, e);
                        assert(tag@ =~= r1@.take(e as int));
                        let r2 = slice_to_vec(r1.as_slice(), e + 1, r1.len());
                        assert(r2@ =~= r1@.skip(e + 1));
                        let ghost mid = out@;
                        assert(mid =~= before + r0.take(i as int));
                        match terminal_image_resource_exec(tag.as_slice(), resources) {
                            Some(_) => {
                                let path: Option<&String> = if k < rendered.len() {
                                    match &rendered[k] {
                                        Some(p) => Some(p),
                                        None => None,
                                    }
                                } else {
                                    None
                                };
                                proof {
                                    if k < rendered@.len() {
                                        assert(rendered@[k as int] matches Some(p) ==> p@.len() <= usize::MAX / 8);
                                    }
                                }
                                let piece = terminal_piece_exec(tag.as_slice(), resources, path);
                                assert(piece@ == terminal_piece(tag@, resources@, rendered_at(rendered@, k as int)));
                                push_all(&mut out, piece.as_slice());
                                assert(out@ + terminal_images_spec(r2@, resources@, rendered@, k + 1) =~= before + (
                                r0.take(i as int) + (piece@ + terminal_images_spec(r1@.skip(e + 1), resources@, rendered@, k + 1))));
                                k += 1;
                            },
                            None => {
                                let piece = terminal_piece_exec(tag.as_slice(), resources, None);
                                push_all(&mut out, piece.as_slice());
                                assert(out@ + terminal_images_spec(r2@, resources@, rendered@, k as int) =~= before + (
                                r0.take(i as int) + (piece@ + terminal_images_spec(r1@.skip(e + 1), resources@, rendered@, k as int))));
                            },
                        }
                        rest = r2;
                    },
                }
            },
        }
    }
}

/// The resources shown as terminal images by a note, in the order of its media
/// elements; the images to render before `enml_to_terminal_text_with_options`.
pub fn terminal_image_resources(content_enml: &str, resources: &[Resource]) -> (res: Vec<usize>)
    requires
        en_note_ok(content_enml@),
    ensures
        res@.map_values(|i: usize| i as int) == terminal_candidates(note_body(content_enml@), resources@),
        forall|j: int| 0 <= j < res@.len() ==> (#[trigger] res@[j]) < resources@.len(),
{
    let c = chars_of(content_enml);
    let body = match en_note_body(c.as_slice()) {
        Some(b) => b,
        None => c,
    };
    let content = body.as_slice();
    assert(content@ == note_body(content_enml@));
    let open = chars_of("<en-media");
    let gt = chars_of(">");
    proof {
        reveal_strlit(">");
        reveal_strlit("<en-media");
    }
    assert(gt@ =~= seq!['>']);
    let mut out: Vec<usize> = Vec::new();
    let mut rest = slice_to_vec(content, 0, content.len());
    assert(content@.subrange(0, content@.len() as int) =~= content@);
    assert(out@.map_values(|i: usize| i as int) + terminal_candidates(rest@, resources@) =~= terminal_candidates(content@, resources@));
    loop
        invariant
            open@ == "<en-media"@,
            gt@ == ">"@,
            gt@ == seq!['>'],
            forall|j: int| 0 <= j < out@.len() ==> (#[trigger] out@[j]) < resources@.len(),
            content@ == note_body(content_enml@),
            terminal_candidates(content@, resources@) == out@.map_values(|i: usize| i as int) + terminal_candidates(rest@, resources@),
        decreases rest@.len(),
    {
        let ghost before = out@.map_values(|i: usize| i as int);
        match find(rest.as_slice(), open.as_slice()) {
            None => {
                assert(before + Seq::<int>::empty() =~= before);
                return out;
            },
            Some(i) => {
                let ghost r0 = rest@;
                let r1 = slice_to_vec(rest.as_slice(), i + open.len(), rest.len());
                assert(r1@ =~= r0.skip(i + open@.len()));
                match find(r1.as_slice(), gt.as_slice()) {
                    None => {
                        assert(before + Seq::<int>::empty() =~= before);
                        return out;
                    },
                    Some(e) => {
                        let tag = slice_to_vec(r1.as_slice(), 0, e);
                        assert(tag@ =~= r1@.take(e as int));
                        let r2 = slice_to_vec(r1.as_slice(), e + 1, r1.len());
                        assert(r2@ =~= r1@.skip(e + 1));
                        match terminal_image_resource_exec(tag.as_slice(), resources) {
                            Some(k) => {
                                assert(terminal_image_resource(tag@, resources@) == Some(k as int));
                                out.push(k);
                                assert(out@.map_values(|i: usize| i as int) =~= before + seq![k as int]);
                                assert(out@.map_values(|i: usize| i as int) =~= before + opt_to_seq(terminal_image_resource(tag@, resources@)));
                            },
                            None => {
                                assert(out@.map_values(|i: usize| i as int) =~= before + opt_to_seq(terminal_image_resource(tag@, resources@)));
                            },
                        }
                        assert(out@.map_values(|i: usize| i as int) + terminal_candidates(r2@, resources@) =~= before + (
                        opt_to_seq(terminal_image_resource(tag@, resources@)) + terminal_candidates(r2@, resources@)));
                        rest = r2;
                    },
                }
            },
        }
    }
}

/// The body of a note, or the whole text when it has no `<en-note>` element.
pub open spec fn note_body(c: Seq<char>) -> Seq<char> {
    match en_note_body_spec(c) {
        Some(b) => b,
        None => c,
    }
}

/// The image that a media element shows: its hash and file extension.
pub open spec fn image_of_tag(tag: Seq<char>) -> Seq<(Seq<char>, Seq<char>)> {
    match (attr_value_spec(tag, "type"@), attr_value_spec(tag, "hash"@)) {
        (Some(t), Some(h)) => if starts_with_spec(t, "image/"@) {
            seq![(h, t.skip("image/"@.len() as int))]
        } else {
            Seq::empty()
        },
        _ => Seq::empty(),
    }
}

/// The images of the media elements in `rest`, in order.
pub open spec fn images_spec(rest: Seq<char>) -> Seq<(Seq<char>, Seq<char>)>
    decreases rest.len(),
{
    match find_spec(rest, "<en-media"@) {
        None => Seq::empty(),
        Some(i) => if 0 <= i && i + "<en-media"@.len() <= rest.len() {
            let r1 = rest.skip(i + "<en-media"@.len());
            match find_spec(r1, ">"@) {
                None => Seq::empty(),
                Some(e) => if 0 <= e < r1.len() {
                    image_of_tag(r1.take(e)) + images_spec(r1.skip(e + 1))
                } else {
                    Seq::empty()
                },
            }
        } else {
            Seq::empty()
        },
    }
}

pub open spec fn image_views(v: Seq<ImageInfo>) -> Seq<(Seq<char>, Seq<char>)> {
    v.map_values(|i: ImageInfo| (i.hash@, i.extension@))
}

/// The images that a note shows, in order.
#[verifier::rlimit(40)]
pub fn get_images(content_enml: &str) -> (res: Vec<ImageInfo>)
    ensures
        image_views(res@) == images_spec(content_enml@),
{
    let c = chars_of(content_enml);
    let content = c.as_slice();
    let open = chars_of("<en-media");
    let gt = chars_of(">");
    proof {
        reveal_strlit(">");
        reveal_strlit("<en-media");
    }
    assert(gt@ =~= seq!['>']);
    let mut out: Vec<ImageInfo> = Vec::new();
    let mut rest = slice_to_vec(content, 0, content.len());
    assert(content@.subrange(0, content@.len() as int) =~= content@);
    assert(image_views(out@) + images_spec(rest@) =~= images_spec(content@));
    loop
        invariant
            open@ == "<en-media"@,
            gt@ == ">"@,
            gt@ == seq!['>'],
            c@ == content_enml@,
            content@ == c@,
            images_spec(content@) == image_views(out@) + images_spec(rest@),
        decreases rest@.len(),
    {
        let ghost before = image_views(out@);
        match find(rest.as_slice(), open.as_slice()) {
            None => {
                assert(before + Seq::<(Seq<char>, Seq<char>)>::empty() =~= before);
                return out;
            },
            Some(i) => {
                let ghost r0 = rest@;
                let r1 = slice_to_vec(rest.as_slice(), i + open.len(), rest.len());
                assert(r1@ =~= r0.skip(i + open@.len()));
                match find(r1.as_slice(), gt.as_slice()) {
                    None => {
                        assert(before + Seq::<(Seq<char>, Seq<char>)>::empty() =~= before);
                        return out;
                    },
                    Some(e) => {
                        let tag = slice_to_vec(r1.as_slice(), 0, e);
                        assert(tag@ =~= r1@.take(e as int));
                        let r2 = slice_to_vec(r1.as_slice(), e + 1, r1.len());
                        assert(r2@ =~= r1@.skip(e + 1));
                        let t = attr_value(tag.as_slice(), "type");
                        let h = attr_value(tag.as_slice(), "hash");
                        match (t, h) {
                            (Some(t), Some(h)) => {
                                let image = chars_of("image/");
                                if crate::text::starts_with(t.as_slice(), image.as_slice()) {
                                    let ext = slice_to_vec(t.as_slice(), image.len(), t.len());
                                    out.push(ImageInfo { hash: string_of(h.as_slice()), extension: string_of(ext.as_slice()) });
                                    assert(image_views(out@) =~= before + image_of_tag(tag@));
                                } else {
                                    assert(image_views(out@) =~= before + image_of_tag(tag@));
                                }
                            },
                            _ => {
                                assert(image_views(out@) =~= before + image_of_tag(tag@));
                            },
                        }
                        assert(image_views(out@) + images_spec(r2@) =~= before + (image_of_tag(tag@) + images_spec(r2@)));
                        rest = r2;
                    },
                }
            },
        }
    }
}

// ---------------------------------------------------------------------------
// Plain text and HTML into ENML
// ---------------------------------------------------------------------------

/// One line of plain text as a `div`; `[x]` and `[ ]` as checkboxes.
pub open spec fn plain_line_html(l: Seq<char>) -> Seq<char> {
    if l.len() == 0 {
        "<div><br/></div>"@
    } else {
        "<div>"@ + replace_spec(
            replace_spec(l, "[x]"@, "<en-todo checked=\"true\"></en-todo>"@),
            "[ ]"@,
            "<en-todo></en-todo>"@,
        ) + "</div>"@
    }
}

pub open spec fn plain_lines_html(ls: Seq<Seq<char>>) -> Seq<char>
    decreases ls.len(),
{
    if ls.len() == 0 {
        Seq::empty()
    } else {
        plain_lines_html(ls.drop_last()) + plain_line_html(ls.last())
    }
}

/// Plain text as ENML: escaped, one `div` per line.
pub open spec fn plain_to_html_spec(content: Seq<char>) -> Seq<char> {
    plain_lines_html(crate::text::split_spec(html_escape_spec(content), "<br />"@))
}

fn plain_to_html(content: &[char]) -> (res: Vec<char>)
    ensures
        res@ == plain_to_html_spec(content@),
{
    let escaped = html_escape_chars(content);
    let sep = chars_of("<br />");
    proof {
        reveal_strlit("<br />");
        reveal_strlit("[x]");
        reveal_strlit("[ ]");
    }
    let lines = crate::text::split(escaped.as_slice(), sep.as_slice());
    let ghost ls = views(lines@);
    let mut out: Vec<char> = Vec::new();
    let mut i: usize = 0;
    assert(ls.take(0) =~= Seq::<Seq<char>>::empty());
    while i < lines.len()
        invariant
            i <= lines@.len(),
            ls == views(lines@),
            out@ == plain_lines_html(ls.take(i as int)),
        decreases lines.len() - i,
    {
        let line = lines[i].as_slice();
        assert(ls.take(i + 1).drop_last() =~= ls.take(i as int));
        assert(ls.take(i + 1).last() == line@);
        if line.len() == 0 {
            push_str(&mut out, "<div><br/></div>");
        } else {
            proof {
                reveal_strlit("[x]");
                reveal_strlit("[ ]");
            }
            let a = replace_str(line, "[x]", "<en-todo checked=\"true\"></en-todo>");
            let b = replace_str(a.as_slice(), "[ ]", "<en-todo></en-todo>");
            push_str(&mut out, "<div>");
            push_all(&mut out, b.as_slice());
            push_str(&mut out, "</div>");
        }
        i += 1;
    }
    assert(ls.take(i as int) =~= ls);
    out
}

/// The name of an attribute: what comes before its first `=`.
pub open spec fn attr_key(attr: Seq<char>) -> Seq<char> {
    match find_spec(attr, "="@) {
        Some(i) => attr.take(i),
        None => attr,
    }
}

/// Attributes that do not go into a note: identifiers, classes, data and
/// event handlers.
pub open spec fn dropped_attr(attr: Seq<char>) -> bool {
    let k = attr_key(attr);
    k == "id"@ || k == "class"@ || k == "accesskey"@ || k == "data"@ || k == "dynsrc"@ || k == "tabindex"@
        || starts_with_spec(k, "on"@)
}

/// The attributes that are kept, each after a space.
pub open spec fn kept_attrs(attrs: Seq<Seq<char>>) -> Seq<char>
    decreases attrs.len(),
{
    if attrs.len() == 0 {
        Seq::empty()
    } else {
        kept_attrs(attrs.drop_last()) + if dropped_attr(attrs.last()) {
            Seq::empty()
        } else {
            " "@ + attrs.last()
        }
    }
}

/// One tag as it goes into a note: closing tags, comments and declarations as
/// they are; other tags without their dropped attributes.
pub open spec fn sanitize_tag_spec(tag: Seq<char>) -> Seq<char> {
    if starts_with_spec(tag, "</"@) || starts_with_spec(tag, "<!"@) || starts_with_spec(tag, "<?"@) {
        tag
    } else {
        let inner0 = trim_end_spec(trim_start_spec(tag, CharClass::Single('<')), CharClass::Single('>'));
        let self_close = inner0.len() > 0 && inner0.last() == '/';
        let inner = trim_ws(trim_end_spec(inner0, CharClass::Single('/')));
        let parts = words_spec(inner);
        if parts.len() == 0 {
            tag
        } else {
            "<"@ + parts[0] + kept_attrs(parts.skip(1)) + (if self_close {
                " /"@
            } else {
                Seq::empty()
            }) + ">"@
        }
    }
}

fn is_dropped_attr(attr: &[char]) -> (b: bool)
    ensures
        b == dropped_attr(attr@),
{
    let eq = chars_of("=");
    let key = match find(attr, eq.as_slice()) {
        Some(i) => slice_to_vec(attr, 0, i),
        None => slice_to_vec(attr, 0, attr.len()),
    };
    assert(attr@.subrange(0, attr@.len() as int) =~= attr@);
    let k = key.as_slice();
    is_one_of(k, "id", "class", "accesskey") || is_one_of(k, "data", "dynsrc", "tabindex")
        || crate::text::starts_with(k, chars_of("on").as_slice())
}

fn sanitize_tag(tag: &[char]) -> (res: Vec<char>)
    ensures
        res@ == sanitize_tag_spec(tag@),
{
    if crate::text::starts_with(tag, chars_of("</").as_slice()) || crate::text::starts_with(tag, chars_of("<!").as_slice())
        || crate::text::starts_with(tag, chars_of("<?").as_slice()) {
        let r = slice_to_vec(tag, 0, tag.len());
        assert(tag@.subrange(0, tag@.len() as int) =~= tag@);
        return r;
    }
    let a = crate::text::trim_start_class(tag, CharClass::Single('<'));
    let inner0 = crate::text::trim_end_class(a.as_slice(), CharClass::Single('>'));
    let self_close = inner0.len() > 0 && inner0[inner0.len() - 1] == '/';
    let b = crate::text::trim_end_class(inner0.as_slice(), CharClass::Single('/'));
    let inner = crate::text::trim(b.as_slice());
    let parts = crate::text::words(inner.as_slice());
    let ghost ps = views(parts@);
    if parts.len() == 0 {
        let r = slice_to_vec(tag, 0, tag.len());
        assert(tag@.subrange(0, tag@.len() as int) =~= tag@);
        return r;
    }
    let mut out = chars_of("<");
    push_all(&mut out, parts[0].as_slice());
    let ghost head = out@;
    let mut i: usize = 1;
    assert(ps.skip(1).take(0) =~= Seq::<Seq<char>>::empty());
    while i < parts.len()
        invariant
            1 <= i <= parts@.len(),
            ps == views(parts@),
            out@ == head + kept_attrs(ps.skip(1).take(i - 1)),
        decreases parts.len() - i,
    {
        let attr = parts[i].as_slice();
        assert(ps.skip(1).take(i as int).drop_last() =~= ps.skip(1).take(i - 1));
        assert(ps.skip(1).take(i as int).last() == attr@);
        if !is_dropped_attr(attr) {
            out.push(' ');
            push_all(&mut out, attr);
            proof {
                reveal_strlit(" ");
            }
            assert(out@ =~= head + kept_attrs(ps.skip(1).take(i - 1)) + (" "@ + attr@));
        } else {
            assert(out@ =~= head + kept_attrs(ps.skip(1).take(i - 1)) + Seq::<char>::empty());
        }
        i += 1;
    }
    assert(ps.skip(1).take(i - 1) =~= ps.skip(1));
    if self_close {
        push_str(&mut out, " /");
    }
    out.push('>');
    proof {
        reveal_strlit(">");
        reveal_strlit("<");
    }
    assert(out@ =~= sanitize_tag_spec(tag@));
    out
}

/// HTML with every tag sanitised.
pub open spec fn sanitize_html_spec(rest: Seq<char>) -> Seq<char>
    decreases rest.len(),
{
    match find_spec(rest, "<"@) {
        None => rest,
        Some(s) => if 0 <= s < rest.len() {
            let r = rest.skip(s);
            rest.take(s) + match find_spec(r, ">"@) {
                None => r,
                Some(e) => if 0 <= e < r.len() {
                    sanitize_tag_spec(r.take(e + 1)) + sanitize_html_spec(r.skip(e + 1))
                } else {
                    r
                },
            }
        } else {
            rest
        },
    }
}

#[verifier::rlimit(40)]
fn sanitize_html(content: &[char]) -> (res: Vec<char>)
    ensures
        res@ == sanitize_html_spec(content@),
{
    let lt = chars_of("<");
    let gt = chars_of(">");
    proof {
        reveal_strlit("<");
        reveal_strlit(">");
    }
    assert(lt@ =~= seq!['<']);
    assert(gt@ =~= seq!['>']);
    let mut out: Vec<char> = Vec::new();
    let mut rest = slice_to_vec(content, 0, content.len());
    assert(content@.subrange(0, content@.len() as int) =~= content@);
    assert(out@ + sanitize_html_spec(rest@) =~= sanitize_html_spec(content@));
    loop
        invariant
            lt@ == "<"@,
            lt@ == seq!['<'],
            gt@ == ">"@,
            gt@ == seq!['>'],
            sanitize_html_spec(content@) == out@ + sanitize_html_spec(rest@),
        decreases rest@.len(),
    {
        match find(rest.as_slice(), lt.as_slice()) {
            None => {
                push_all(&mut out, rest.as_slice());
                return out;
            },
            Some(s) => {
                let ghost before = out@;
                let ghost r0 = rest@;
                push_all(&mut out, slice_to_vec(rest.as_slice(), 0, s).as_slice());
                let r = slice_to_vec(rest.as_slice(), s, rest.len());
                assert(r@ =~= r0.skip(s as int));
                match find(r.as_slice(), gt.as_slice()) {
                    None => {
                        push_all(&mut out, r.as_slice());
                        assert(out@ =~= before + (r0.take(s as int) + r@));
                        return out;
                    },
                    Some(e) => {
                        let tag = slice_to_vec(r.as_slice(), 0, e + 1);
                        assert(tag@ =~= r@.take(e + 1));
                        let st = sanitize_tag(tag.as_slice());
                        push_all(&mut out, st.as_slice());
                        let r2 = slice_to_vec(r.as_slice(), e + 1, r.len());
                        assert(r2@ =~= r@.skip(e + 1));
                        assert(out@ + sanitize_html_spec(r2@) =~= before + (r0.take(s as int) + (sanitize_tag_spec(r@.take(e + 1))
                            + sanitize_html_spec(r@.skip(e + 1)))));
                        rest = r2;
                    },
                }
            },
        }
    }
}

// ---------------------------------------------------------------------------
// Markdown into ENML
// ---------------------------------------------------------------------------

pub const CODE_BLOCK_STYLE: &'static str = " --en-lineWrapping:false;box-sizing: border-box; padding: 8px; font-family: &quot;Fira Code&quot;,&quot;Consolas&quot;,&quot;Monaco&quot;,&quot;Andale Mono&quot;,&quot;Ubuntu Mono&quot;,&quot;Courier New&quot;,monospace font-size: 12px; color: rgb(51, 51, 51); border-top-left-radius: 4px; border-top-right-radius: 4px; border-bottom-right-radius: 4px; border-bottom-left-radius: 4px; background-color: rgb(251, 250, 248); border: 1px solid rgba(0, 0, 0, 0.14902); background-position: initial initial; background-repeat: initial initial;";

/// A block of a Markdown note: text, or fenced code with its language.
#[derive(Clone, Debug, PartialEq, Eq)]
pub enum MarkdownBlock {
    Text(String),
    Code { language: Option<String>, code: String },
}

pub ghost enum MdBlock {
    Text(Seq<char>),
    Code(Option<Seq<char>>, Seq<char>),
}

impl View for MarkdownBlock {
    type V = MdBlock;

    open spec fn view(&self) -> MdBlock {
        match self {
            MarkdownBlock::Text(t) => MdBlock::Text(t@),
            MarkdownBlock::Code { language, code } => MdBlock::Code(crate::models::opt_str(*language), code@),
        }
    }
}

pub open spec fn block_views(v: Seq<MarkdownBlock>) -> Seq<MdBlock> {
    v.map_values(|b: MarkdownBlock| b@)
}

/// The text blocks of a run of text: its paragraphs (split at blank lines),
/// without surrounding newlines, blank ones left out.
pub open spec fn text_blocks(pieces: Seq<Seq<char>>) -> Seq<MdBlock>
    decreases pieces.len(),
{
    if pieces.len() == 0 {
        Seq::empty()
    } else {
        let t = trim_spec(pieces.last(), CharClass::Single('\n'));
        text_blocks(pieces.drop_last()) + if crate::text::is_blank(t) {
            Seq::empty()
        } else {
            seq![MdBlock::Text(t)]
        }
    }
}

pub open spec fn text_blocks_of(content: Seq<char>) -> Seq<MdBlock> {
    text_blocks(crate::text::split_spec(content, "\n\n"@))
}

fn push_markdown_text_blocks(blocks: &mut Vec<MarkdownBlock>, content: &[char])
    ensures
        block_views(final(blocks)@) == block_views(old(blocks)@) + text_blocks_of(content@),
{
    proof {
        reveal_strlit("\n\n");
    }
    let sep = chars_of("\n\n");
    let pieces = crate::text::split(content, sep.as_slice());
    let ghost ps = views(pieces@);
    let ghost head = block_views(blocks@);
    let mut i: usize = 0;
    assert(ps.take(0) =~= Seq::<Seq<char>>::empty());
    assert(head + Seq::<MdBlock>::empty() =~= head);
    while i < pieces.len()
        invariant
            i <= pieces@.len(),
            ps == views(pieces@),
            block_views(blocks@) == head + text_blocks(ps.take(i as int)),
        decreases pieces.len() - i,
    {
        assert(ps.take(i + 1).drop_last() =~= ps.take(i as int));
        assert(ps.take(i + 1).last() == pieces@[i as int]@);
        let t = crate::text::trim_class(pieces[i].as_slice(), CharClass::Single('\n'));
        let ghost before = block_views(blocks@);
        if !crate::text::blank(t.as_slice()) {
            blocks.push(MarkdownBlock::Text(string_of(t.as_slice())));
            assert(block_views(blocks@) =~= before + seq![MdBlock::Text(t@)]);
        } else {
            assert(block_views(blocks@) =~= before + Seq::<MdBlock>::empty());
        }
        i += 1;
    }
    assert(ps.take(i as int) =~= ps);
}

/// The state of the block splitter: blocks so far, the pending text and code
/// lines, and the open fence (its length and language), if any.
pub ghost struct MdState {
    pub blocks: Seq<MdBlock>,
    pub text: Seq<Seq<char>>,
    pub code: Seq<Seq<char>>,
    pub fence: Option<(nat, Option<Seq<char>>)>,
}

pub open spec fn md_step(st: MdState, line: Seq<char>) -> MdState {
    match st.fence {
        Some((n, lang)) => if is_code_fence_close_spec(line, n) {
            MdState {
                blocks: st.blocks.push(MdBlock::Code(lang, crate::text::join_spec(st.code, "\n"@))),
                code: Seq::empty(),
                fence: None,
                ..st
            }
        } else {
            MdState { code: st.code.push(line), ..st }
        },
        None => match code_fence_start_spec(line) {
            Some((n, lang)) => MdState {
                blocks: st.blocks + text_blocks_of(crate::text::join_spec(st.text, "\n"@)),
                text: Seq::empty(),
                fence: Some((n, lang)),
                ..st
            },
            None => MdState { text: st.text.push(line), ..st },
        },
    }
}

pub open spec fn md_fold(lines: Seq<Seq<char>>) -> MdState
    decreases lines.len(),
{
    if lines.len() == 0 {
        MdState { blocks: Seq::empty(), text: Seq::empty(), code: Seq::empty(), fence: None }
    } else {
        md_step(md_fold(lines.drop_last()), lines.last())
    }
}

/// The blocks of a Markdown text: text paragraphs and fenced code blocks; a
/// fence left open runs to the end.
pub open spec fn markdown_blocks_spec(content: Seq<char>) -> Seq<MdBlock> {
    let st = md_fold(crate::text::lines_spec(content));
    match st.fence {
        Some((_, lang)) => st.blocks.push(MdBlock::Code(lang, crate::text::join_spec(st.code, "\n"@))),
        None => st.blocks + text_blocks_of(crate::text::join_spec(st.text, "\n"@)),
    }
}

fn join_lines(lines: &Vec<Vec<char>>) -> (r: Vec<char>)
    ensures
        r@ == crate::text::join_spec(views(lines@), "\n"@),
{
    let nl = chars_of("\n");
    crate::text::join(lines, nl.as_slice())
}

fn opt_vec_string(o: &Option<Vec<char>>) -> (r: Option<String>)
    ensures
        crate::models::opt_str(r) == opt_chars(*o),
{
    match o {
        Some(v) => Some(string_of(v.as_slice())),
        None => None,
    }
}

#[verifier::rlimit(40)]
fn markdown_blocks(content: &[char]) -> (res: Vec<MarkdownBlock>)
    ensures
        block_views(res@) == markdown_blocks_spec(content@),
{
    let lines = crate::text::lines(content);
    let ghost ls = views(lines@);
    let mut blocks: Vec<MarkdownBlock> = Vec::new();
    let mut text_lines: Vec<Vec<char>> = Vec::new();
    let mut code_lines: Vec<Vec<char>> = Vec::new();
    let mut fence: Option<(usize, Option<Vec<char>>)> = None;
    let mut i: usize = 0;
    assert(ls.take(0) =~= Seq::<Seq<char>>::empty());
    assert(block_views(blocks@) =~= Seq::<MdBlock>::empty());
    assert(views(text_lines@) =~= Seq::<Seq<char>>::empty());
    assert(views(code_lines@) =~= Seq::<Seq<char>>::empty());
    while i < lines.len()
        invariant
            i <= lines@.len(),
            ls == views(lines@),
            md_fold(ls.take(i as int)) == (MdState {
                blocks: block_views(blocks@),
                text: views(text_lines@),
                code: views(code_lines@),
                fence: match fence {
                    Some((n, l)) => Some((n as nat, opt_chars(l))),
                    None => None,
                },
            }),
        decreases lines.len() - i,
    {
        let line = lines[i].as_slice();
        assert(ls.take(i + 1).drop_last() =~= ls.take(i as int));
        assert(ls.take(i + 1).last() == line@);
        let ghost before_text = views(text_lines@);
        let ghost before_code = views(code_lines@);
        let ghost before_blocks = block_views(blocks@);
        match fence {
            Some((n, lang)) => {
                if is_code_fence_close(line, n) {
                    let code = join_lines(&code_lines);
                    let l = opt_vec_string(&lang);
                    blocks.push(MarkdownBlock::Code { language: l, code: string_of(code.as_slice()) });
                    assert(block_views(blocks@) =~= before_blocks.push(MdBlock::Code(opt_chars(lang), code@)));
                    code_lines = Vec::new();
                    assert(views(code_lines@) =~= Seq::<Seq<char>>::empty());
                    fence = None;
                } else {
                    code_lines.push(slice_to_vec(line, 0, line.len()));
                    assert(line@.subrange(0, line@.len() as int) =~= line@);
                    assert(views(code_lines@) =~= before_code.push(line@));
                    fence = Some((n, lang));
                }
            },
            None => {
                match code_fence_start(line) {
                    Some((n, lang)) => {
                        let t = join_lines(&text_lines);
                        push_markdown_text_blocks(&mut blocks, t.as_slice());
                        text_lines = Vec::new();
                        assert(views(text_lines@) =~= Seq::<Seq<char>>::empty());
                        fence = Some((n, lang));
                    },
                    None => {
                        text_lines.push(slice_to_vec(line, 0, line.len()));
                        assert(line@.subrange(0, line@.len() as int) =~= line@);
                        assert(views(text_lines@) =~= before_text.push(line@));
                    },
                }
            },
        }
        i += 1;
    }
    assert(ls.take(i as int) =~= ls);
    match fence {
        Some((_, lang)) => {
            let code = join_lines(&code_lines);
            let ghost before_blocks = block_views(blocks@);
            blocks.push(MarkdownBlock::Code { language: opt_vec_string(&lang), code: string_of(code.as_slice()) });
            assert(block_views(blocks@) =~= before_blocks.push(MdBlock::Code(opt_chars(lang), code@)));
        },
        None => {
            let t = join_lines(&text_lines);
            push_markdown_text_blocks(&mut blocks, t.as_slice());
        },
    }
    blocks
}

/// The lines of a code block, each in a `div`; empty lines as line breaks.
pub open spec fn code_lines_html(ls: Seq<Seq<char>>) -> Seq<char>
    decreases ls.len(),
{
    if ls.len() == 0 {
        Seq::empty()
    } else {
        code_lines_html(ls.drop_last()) + if ls.last().len() == 0 {
            "<div><br/></div>"@
        } else {
            "<div>"@ + html_escape_tag_spec(ls.last()) + "</div>"@
        }
    }
}

pub open spec fn markdown_code_lines_html_spec(code: Seq<char>) -> Seq<char> {
    code_lines_html(crate::text::lines_spec(code)) + if code.len() == 0 {
        "<div><br/></div>"@
    } else {
        Seq::empty()
    }
}

fn markdown_code_lines_html(code: &[char]) -> (res: Vec<char>)
    ensures
        res@ == markdown_code_lines_html_spec(code@),
{
    let lines = crate::text::lines(code);
    let ghost ls = views(lines@);
    let mut out: Vec<char> = Vec::new();
    let mut i: usize = 0;
    assert(ls.take(0) =~= Seq::<Seq<char>>::empty());
    while i < lines.len()
        invariant
            i <= lines@.len(),
            ls == views(lines@),
            out@ == code_lines_html(ls.take(i as int)),
        decreases lines.len() - i,
    {
        let line = lines[i].as_slice();
        assert(ls.take(i + 1).drop_last() =~= ls.take(i as int));
        assert(ls.take(i + 1).last() == line@);
        if line.len() == 0 {
            push_str(&mut out, "<div><br/></div>");
        } else {
            push_str(&mut out, "<div>");
            let e = html_escape_tag_chars(line);
            push_all(&mut out, e.as_slice());
            push_str(&mut out, "</div>");
        }
        i += 1;
    }
    assert(ls.take(i as int) =~= ls);
    if code.len() == 0 {
        push_str(&mut out, "<div><br/></div>");
    } else {
        assert(out@ + Seq::<char>::empty() =~= out@);
    }
    out
}

/// A fenced code block as an Evernote code block.
pub open spec fn markdown_code_block_html_spec(code: Seq<char>, language: Option<Seq<char>>, suffix: Seq<char>) -> Seq<char> {
    "<div style=\"--en-codeblock:true;"@ + match language {
        Some(l) => " --en-syntaxLanguage:"@ + l + ";"@,
        None => Seq::empty(),
    } + CODE_BLOCK_STYLE@ + "\">"@ + markdown_code_lines_html_spec(code) + "</div>"@ + suffix
}

fn markdown_code_block_html(code: &[char], language: &Option<String>, suffix: &str) -> (res: Vec<char>)
    ensures
        res@ == markdown_code_block_html_spec(code@, crate::models::opt_str(*language), suffix@),
{
    let mut out = chars_of("<div style=\"--en-codeblock:true;");
    match language {
        Some(l) => {
            push_str(&mut out, " --en-syntaxLanguage:");
            push_str(&mut out, l.as_str());
            push_str(&mut out, ";");
        },
        None => {},
    }
    push_str(&mut out, CODE_BLOCK_STYLE);
    push_str(&mut out, "\">");
    let lines = markdown_code_lines_html(code);
    push_all(&mut out, lines.as_slice());
    push_str(&mut out, "</div>");
    push_str(&mut out, suffix);
    assert(out@ =~= markdown_code_block_html_spec(code@, crate::models::opt_str(*language), suffix@));
    out
}

/// A Markdown text block as HTML: a heading, a bold or italic paragraph, or a
/// paragraph whose line breaks are kept.
pub open spec fn text_block_html_spec(block: Seq<char>, rawmd: bool, ptag: Seq<char>, suffix: Seq<char>) -> Seq<char> {
    let ts = trim_start_spec(markdown_text_spec(block, rawmd), CharClass::Whitespace);
    if starts_with_spec(ts, "### "@) {
        "<h3>"@ + trim_ws(ts.skip(4)) + "</h3>"@ + suffix
    } else if starts_with_spec(ts, "## "@) {
        "<h2>"@ + trim_ws(ts.skip(3)) + "</h2>"@ + suffix
    } else if starts_with_spec(ts, "# "@) {
        "<h1>"@ + trim_ws(ts.skip(2)) + "</h1>"@ + suffix
    } else if starts_with_spec(ts, "**"@) && ends_with_spec(ts, "**"@) && ts.len() >= 4 {
        "<"@ + ptag + "><strong>"@ + ts.subrange(2, ts.len() - 2) + "</strong></"@ + ptag + ">"@ + suffix
    } else if starts_with_spec(ts, "_"@) && ends_with_spec(ts, "_"@) && ts.len() >= 2 {
        "<"@ + ptag + "><em>"@ + ts.subrange(1, ts.len() - 1) + "</em></"@ + ptag + ">"@ + suffix
    } else {
        "<"@ + ptag + ">"@ + replace_spec(ts, "\n"@, "  \n"@) + "</"@ + ptag + ">"@ + suffix
    }
}

/// Written back as ENML, a Markdown heading of level `k` (1 to 3) becomes the
/// heading element of that level: a block whose Markdown text starts, after
/// white space, with `k` `#` characters and a space is `<hk>`, the rest of
/// the text trimmed, and `</hk>`.
pub proof fn lemma_heading_html(k: int, block: Seq<char>, rawmd: bool, ptag: Seq<char>, suffix: Seq<char>, u: Seq<char>)
    requires
        1 <= k <= 3,
        trim_start_spec(markdown_text_spec(block, rawmd), CharClass::Whitespace) == repeat_spec('#', k) + seq![' '] + u,
    ensures
        text_block_html_spec(block, rawmd, ptag, suffix) == seq!['<'] + heading_name(k) + seq!['>'] + trim_ws(u)
            + seq!['<', '/'] + heading_name(k) + seq!['>'] + suffix,
{
    reveal_strlit("### ");
    reveal_strlit("## ");
    reveal_strlit("# ");
    reveal_strlit("<h1>");
    reveal_strlit("<h2>");
    reveal_strlit("<h3>");
    reveal_strlit("</h1>");
    reveal_strlit("</h2>");
    reveal_strlit("</h3>");
    let ts = repeat_spec('#', k) + seq![' '] + u;
    assert(ts[k] == ' ');
    if k == 3 {
        assert(ts.subrange(0, 4) =~= "### "@);
        assert(ts.skip(4) =~= u);
    } else if k == 2 {
        if ts.len() >= 4 {
            assert(ts.subrange(0, 4) != "### "@) by {
                assert(ts[2] == ' ');
                assert(ts.subrange(0, 4)[2] == ts[2]);
            }
        }
        assert(ts.subrange(0, 3) =~= "## "@);
        assert(ts.skip(3) =~= u);
    } else {
        if ts.len() >= 4 {
            assert(ts.subrange(0, 4) != "### "@) by {
                assert(ts.subrange(0, 4)[1] == ts[1]);
            }
        }
        if ts.len() >= 3 {
            assert(ts.subrange(0, 3) != "## "@) by {
                assert(ts.subrange(0, 3)[1] == ts[1]);
            }
        }
        assert(ts.subrange(0, 2) =~= "# "@);
        assert(ts.skip(2) =~= u);
    }
    assert("<h1>"@ =~= seq!['<'] + heading_name(1) + seq!['>']);
    assert("<h2>"@ =~= seq!['<'] + heading_name(2) + seq!['>']);
    assert("<h3>"@ =~= seq!['<'] + heading_name(3) + seq!['>']);
    assert("</h1>"@ =~= seq!['<', '/'] + heading_name(1) + seq!['>']);
    assert("</h2>"@ =~= seq!['<', '/'] + heading_name(2) + seq!['>']);
    assert("</h3>"@ =~= seq!['<', '/'] + heading_name(3) + seq!['>']);
}

fn write_markdown_text_block(out: &mut Vec<char>, block: &[char], rawmd: bool, ptag: &str, suffix: &str)
    ensures
        final(out)@ == old(out)@ + text_block_html_spec(block@, rawmd, ptag@, suffix@),
{
    proof {
        reveal_strlit("### ");
        reveal_strlit("## ");
        reveal_strlit("# ");
        reveal_strlit("**");
        reveal_strlit("_");
        reveal_strlit("\n");
    }
    let b = markdown_text(block, rawmd);
    let ts = crate::text::trim_start_class(b.as_slice(), CharClass::Whitespace);
    let t = ts.as_slice();
    let n = t.len();
    let mut piece: Vec<char>;
    if crate::text::starts_with(t, chars_of("### ").as_slice()) {
        piece = chars_of("<h3>");
        let rest = slice_to_vec(t, 4, n);
        assert(rest@ =~= t@.skip(4));
        push_all(&mut piece, crate::text::trim(rest.as_slice()).as_slice());
        push_str(&mut piece, "</h3>");
    } else if crate::text::starts_with(t, chars_of("## ").as_slice()) {
        piece = chars_of("<h2>");
        let rest = slice_to_vec(t, 3, n);
        assert(rest@ =~= t@.skip(3));
        push_all(&mut piece, crate::text::trim(rest.as_slice()).as_slice());
        push_str(&mut piece, "</h2>");
    } else if crate::text::starts_with(t, chars_of("# ").as_slice()) {
        piece = chars_of("<h1>");
        let rest = slice_to_vec(t, 2, n);
        assert(rest@ =~= t@.skip(2));
        push_all(&mut piece, crate::text::trim(rest.as_slice()).as_slice());
        push_str(&mut piece, "</h1>");
    } else if crate::text::starts_with(t, chars_of("**").as_slice()) && crate::text::ends_with(t, chars_of("**").as_slice())
        && n >= 4 {
        piece = chars_of("<");
        push_str(&mut piece, ptag);
        push_str(&mut piece, "><strong>");
        push_all(&mut piece, slice_to_vec(t, 2, n - 2).as_slice());
        push_str(&mut piece, "</strong></");
        push_str(&mut piece, ptag);
        push_str(&mut piece, ">");
    } else if crate::text::starts_with(t, chars_of("_").as_slice()) && crate::text::ends_with(t, chars_of("_").as_slice())
        && n >= 2 {
        piece = chars_of("<");
        push_str(&mut piece, ptag);
        push_str(&mut piece, "><em>");
        push_all(&mut piece, slice_to_vec(t, 1, n - 1).as_slice());
        push_str(&mut piece, "</em></");
        push_str(&mut piece, ptag);
        push_str(&mut piece, ">");
    } else {
        piece = chars_of("<");
        push_str(&mut piece, ptag);
        push_str(&mut piece, ">");
        let r = replace_str(t, "\n", "  \n");
        push_all(&mut piece, r.as_slice());
        push_str(&mut piece, "</");
        push_str(&mut piece, ptag);
        push_str(&mut piece, ">");
    }
    push_all(out, piece.as_slice());
    push_str(out, suffix);
    assert(piece@ + suffix@ =~= text_block_html_spec(block@, rawmd, ptag@, suffix@));
    assert(final(out)@ =~= old(out)@ + text_block_html_spec(block@, rawmd, ptag@, suffix@));
}

/// A text block that is a task line.
pub open spec fn is_task_block(b: MdBlock, rawmd: bool) -> bool {
    match b {
        MdBlock::Text(t) => parse_task_spec(markdown_text_spec(t, rawmd)) is Some,
        MdBlock::Code(_, _) => false,
    }
}

/// A task line as an Evernote checkbox line.
pub open spec fn task_html(b: MdBlock, rawmd: bool) -> Seq<char> {
    match b {
        MdBlock::Text(t) => match parse_task_spec(markdown_text_spec(t, rawmd)) {
            Some((checked, rest)) => if checked {
                "<div><en-todo checked=\"true\"></en-todo>"@ + trim_ws(rest) + "</div>"@
            } else {
                "<div><en-todo></en-todo>"@ + trim_ws(rest) + "</div>"@
            },
            None => Seq::empty(),
        },
        MdBlock::Code(_, _) => Seq::empty(),
    }
}

pub open spec fn tasks_html(bs: Seq<MdBlock>, rawmd: bool) -> Seq<char>
    decreases bs.len(),
{
    if bs.len() == 0 {
        Seq::empty()
    } else {
        tasks_html(bs.drop_last(), rawmd) + task_html(bs.last(), rawmd)
    }
}

/// One block as HTML; paragraphs are `div`s, with nothing after them, when
/// the note has code, else `p`s followed by a newline.
pub open spec fn block_html(b: MdBlock, rawmd: bool, has_code: bool) -> Seq<char> {
    let suffix = if has_code { Seq::empty() } else { "\n"@ };
    match b {
        MdBlock::Text(t) => text_block_html_spec(t, rawmd, if has_code { "div"@ } else { "p"@ }, suffix),
        MdBlock::Code(l, c) => markdown_code_block_html_spec(c, l, suffix),
    }
}

pub open spec fn blocks_html(bs: Seq<MdBlock>, rawmd: bool, has_code: bool) -> Seq<char>
    decreases bs.len(),
{
    if bs.len() == 0 {
        Seq::empty()
    } else {
        blocks_html(bs.drop_last(), rawmd, has_code) + block_html(bs.last(), rawmd, has_code)
    }
}

/// A Markdown note as HTML: a list of tasks as checkbox lines, otherwise its
/// blocks one after the other.
pub open spec fn markdown_to_html_spec(content: Seq<char>, rawmd: bool) -> Seq<char> {
    let bs = markdown_blocks_spec(content);
    if bs.len() > 0 && forall|i: int| 0 <= i < bs.len() ==> is_task_block(#[trigger] bs[i], rawmd) {
        tasks_html(bs, rawmd) + "\n"@
    } else {
        let hc = exists|i: int| 0 <= i < bs.len() && #[trigger] bs[i] is Code;
        blocks_html(bs, rawmd, hc) + if hc {
            "<div><br/></div>"@
        } else {
            Seq::empty()
        }
    }
}

#[verifier::rlimit(40)]
fn markdown_to_html(content: &[char], rawmd: bool) -> (res: Vec<char>)
    ensures
        res@ == markdown_to_html_spec(content@, rawmd),
{
    let blocks = markdown_blocks(content);
    let ghost bs = block_views(blocks@);
    // all blocks are task lines?
    let mut all_tasks = blocks.len() > 0;
    let mut i: usize = 0;
    while i < blocks.len()
        invariant
            i <= blocks@.len(),
            bs == block_views(blocks@),
            all_tasks == (bs.len() > 0 && forall|j: int| 0 <= j < i ==> is_task_block(#[trigger] bs[j], rawmd)),
        decreases blocks.len() - i,
    {
        assert(bs[i as int] == blocks@[i as int]@);
        let is_task = match &blocks[i] {
            MarkdownBlock::Text(t) => {
                let m = markdown_text(chars_of(t.as_str()).as_slice(), rawmd);
                parse_task(m.as_slice()).is_some()
            },
            MarkdownBlock::Code { .. } => false,
        };
        all_tasks = all_tasks && is_task;
        i += 1;
    }
    if all_tasks {
        let mut out: Vec<char> = Vec::new();
        let mut j: usize = 0;
        assert(bs.take(0) =~= Seq::<MdBlock>::empty());
        while j < blocks.len()
            invariant
                j <= blocks@.len(),
                bs == block_views(blocks@),
                out@ == tasks_html(bs.take(j as int), rawmd),
            decreases blocks.len() - j,
        {
            assert(bs.take(j + 1).drop_last() =~= bs.take(j as int));
            assert(bs.take(j + 1).last() == blocks@[j as int]@);
            match &blocks[j] {
                MarkdownBlock::Text(t) => {
                    let m = markdown_text(chars_of(t.as_str()).as_slice(), rawmd);
                    match parse_task(m.as_slice()) {
                        Some((checked, rest)) => {
                            if checked {
                                push_str(&mut out, "<div><en-todo checked=\"true\"></en-todo>");
                            } else {
                                push_str(&mut out, "<div><en-todo></en-todo>");
                            }
                            push_all(&mut out, crate::text::trim(rest.as_slice()).as_slice());
                            push_str(&mut out, "</div>");
                        },
                        None => {
                            assert(out@ + Seq::<char>::empty() =~= out@);
                        },
                    }
                },
                MarkdownBlock::Code { .. } => {
                    assert(out@ + Seq::<char>::empty() =~= out@);
                },
            }
            j += 1;
        }
        assert(bs.take(j as int) =~= bs);
        out.push('\n');
        proof {
            reveal_strlit("\n");
        }
        assert(out@ =~= tasks_html(bs, rawmd) + "\n"@);
        return out;
    }
    // has code?
    let mut has_code = false;
    let mut k: usize = 0;
    while k < blocks.len()
        invariant
            k <= blocks@.len(),
            bs == block_views(blocks@),
            has_code == exists|j: int| 0 <= j < k && #[trigger] bs[j] is Code,
        decreases blocks.len() - k,
    {
        assert(bs[k as int] == blocks@[k as int]@);
        match &blocks[k] {
            MarkdownBlock::Code { .. } => {
                has_code = true;
            },
            MarkdownBlock::Text(_) => {},
        }
        k += 1;
    }
    let ptag = if has_code { "div" } else { "p" };
    let suffix = if has_code { "" } else { "\n" };
    proof {
        reveal_strlit("");
    }
    let mut out: Vec<char> = Vec::new();
    let mut j: usize = 0;
    assert(bs.take(0) =~= Seq::<MdBlock>::empty());
    while j < blocks.len()
        invariant
            j <= blocks@.len(),
            bs == block_views(blocks@),
            ptag@ == (if has_code { "div"@ } else { "p"@ }),
            suffix@ == (if has_code { Seq::<char>::empty() } else { "\n"@ }),
            out@ == blocks_html(bs.take(j as int), rawmd, has_code),
        decreases blocks.len() - j,
    {
        assert(bs.take(j + 1).drop_last() =~= bs.take(j as int));
        assert(bs.take(j + 1).last() == blocks@[j as int]@);
        match &blocks[j] {
            MarkdownBlock::Text(t) => {
                write_markdown_text_block(&mut out, chars_of(t.as_str()).as_slice(), rawmd, ptag, suffix);
            },
            MarkdownBlock::Code { language, code } => {
                let h = markdown_code_block_html(chars_of(code.as_str()).as_slice(), language, suffix);
                push_all(&mut out, h.as_slice());
            },
        }
        j += 1;
    }
    assert(bs.take(j as int) =~= bs);
    if has_code {
        push_str(&mut out, "<div><br/></div>");
    } else {
        assert(out@ + Seq::<char>::empty() =~= out@);
    }
    out
}

/// A note's text in the given format as an ENML document.
pub open spec fn text_to_enml_spec(content: Seq<char>, format: TextFormat, rawmd: bool) -> Seq<char> {
    wrap_enml_spec(
        match format {
            TextFormat::Pre => "<pre>"@ + html_escape_spec(content) + "</pre>"@,
            TextFormat::Markdown => markdown_to_html_spec(content, rawmd),
            TextFormat::Html => sanitize_html_spec(content),
            TextFormat::Plain => plain_to_html_spec(content),
        },
    )
}

/// Every ENML document that the library writes can be read back: its
/// `<en-note>` opens before its last `</en-note>` closes.
pub proof fn lemma_written_enml_readable(content: Seq<char>, format: TextFormat, rawmd: bool)
    ensures
        en_note_ok(text_to_enml_spec(content, format, rawmd)),
{
    let html = match format {
        TextFormat::Pre => "<pre>"@ + html_escape_spec(content) + "</pre>"@,
        TextFormat::Markdown => markdown_to_html_spec(content, rawmd),
        TextFormat::Html => sanitize_html_spec(content),
        TextFormat::Plain => plain_to_html_spec(content),
    };
    lemma_wrapped_enml_readable(html);
}

proof fn lemma_wrapped_enml_readable(html: Seq<char>)
    ensures
        en_note_ok(wrap_enml_spec(html)),
{
    let open = "<en-note>"@;
    let close = "</en-note>"@;
    reveal_strlit("<en-note>");
    reveal_strlit("</en-note>");
    reveal_strlit("<?xml version=\"1.0\" encoding=\"UTF-8\"?>\n<!DOCTYPE en-note SYSTEM \"http://xml.evernote.com/pub/enml2.dtd\">\n<en-note>");
    let h = ENML_HEAD@;
    let c = wrap_enml_spec(html);
    assert(h.len() >= 9);
    assert(h.subrange(h.len() - 9, h.len() as int) =~= open);
    assert(c.subrange(h.len() - 9, h.len() as int) =~= open);
    assert(matches_at(c, h.len() - 9, open));
    crate::text::lemma_find_from(c, open, 0);
    let e = c.len() - close.len();
    assert(c.subrange(e, c.len() as int) =~= close);
    assert(matches_at(c, e, close));
    assert(rfind_spec(c, close) == Some(e));
}

/// A note's text in the given format as an ENML document; `rawmd` keeps HTML
/// in Markdown as it is.
pub fn text_to_enml_with_options(content: &str, format: TextFormat, rawmd: bool) -> (res: String)
    ensures
        res@ == text_to_enml_spec(content@, format, rawmd),
{
    let c = chars_of(content);
    let html = match format {
        TextFormat::Pre => {
            let mut h = chars_of("<pre>");
            push_all(&mut h, html_escape_chars(c.as_slice()).as_slice());
            push_str(&mut h, "</pre>");
            h
        },
        TextFormat::Markdown => markdown_to_html(c.as_slice(), rawmd),
        TextFormat::Html => sanitize_html(c.as_slice()),
        TextFormat::Plain => plain_to_html(c.as_slice()),
    };
    let w = wrap_enml_chars(html.as_slice());
    string_of(w.as_slice())
}

/// A Markdown note as an ENML document.
pub fn text_to_enml(content: &str) -> (res: String)
    ensures
        res@ == text_to_enml_spec(content@, TextFormat::Markdown, false),
{
    text_to_enml_with_options(content, TextFormat::Markdown, false)
}

// ---------------------------------------------------------------------------
// Finding elements
// ---------------------------------------------------------------------------

/// A character that can end a tag's name.
pub open spec fn ends_tag_name(c: char) -> bool {
    c == '>' || c == '/' || c == ' ' || c == '\t' || c == '\n'
}

/// The first opening tag named by `needle` (`<` and the tag name) at or
/// after `off`: where it starts and where it ends, after its `>`.
pub open spec fn find_open_from(c: Seq<char>, needle: Seq<char>, off: int) -> Option<(int, int)>
    decreases c.len() + 1 - off,
{
    if off < 0 || needle.len() == 0 {
        None
    } else {
        match find_from(c, needle, off) {
            None => None,
            Some(st) => {
                let ne = st + needle.len();
                if off <= st && ne <= c.len() {
                    if ne < c.len() && ends_tag_name(c[ne]) {
                        match find_from(c, ">"@, ne) {
                            None => None,
                            Some(g) => Some((st, g + 1)),
                        }
                    } else {
                        find_open_from(c, needle, ne)
                    }
                } else {
                    None
                }
            },
        }
    }
}

proof fn lemma_find_open_from(c: Seq<char>, needle: Seq<char>, off: int)
    ensures
        find_open_from(c, needle, off) matches Some((s, e)) ==> 0 <= off <= s && s + needle.len() < e <= c.len()
            && e > s,
    decreases c.len() + 1 - off,
{
    if off >= 0 && needle.len() > 0 {
        crate::text::lemma_find_from(c, needle, off);
        match find_from(c, needle, off) {
            None => {},
            Some(st) => {
                let ne = st + needle.len();
                if off <= st && ne <= c.len() {
                    if ne < c.len() && ends_tag_name(c[ne]) {
                        crate::text::lemma_find_from(c, ">"@, ne);
                        reveal_strlit(">");
                    } else {
                        lemma_find_open_from(c, needle, ne);
                    }
                }
            },
        }
    }
}

fn find_open_tag(content: &[char], needle: &[char], from: usize) -> (r: Option<(usize, usize)>)
    requires
        from <= content.len(),
    ensures
        match find_open_from(content@, needle@, from as int) {
            Some((s, e)) => r == Some((s as usize, e as usize)) && from <= s && s + needle@.len() < e <= content.len(),
            None => r is None,
        },
{
    if needle.len() == 0 {
        return None;
    }
    let gt = chars_of(">");
    let mut off = from;
    proof {
        lemma_find_open_from(content@, needle@, from as int);
    }
    loop
        invariant
            from <= off <= content.len(),
            needle@.len() > 0,
            gt@ == ">"@,
            find_open_from(content@, needle@, from as int) == find_open_from(content@, needle@, off as int),
            find_open_from(content@, needle@, off as int) matches Some((s, e)) ==> off <= s && s + needle@.len() < e
                <= content.len(),
        decreases content.len() + 1 - off,
    {
        match crate::text::find_at(content, needle, off) {
            None => {
                return None;
            },
            Some(st) => {
                let ne = st + needle.len();
                if ne < content.len() && (content[ne] == '>' || content[ne] == '/' || content[ne] == ' ' || content[ne]
                    == '\t' || content[ne] == '\n') {
                    match crate::text::find_at(content, gt.as_slice(), ne) {
                        None => {
                            return None;
                        },
                        Some(g) => {
                            proof {
                                reveal_strlit(">");
                            }
                            return Some((st, g + 1));
                        },
                    }
                } else {
                    proof {
                        lemma_find_open_from(content@, needle@, ne as int);
                    }
                    off = ne;
                }
            },
        }
    }
}

/// The element closed at the matching `</tag>`, counting nested elements of
/// the same name (self-closing ones do not count) from `cursor` at `depth`:
/// where the closing tag starts and ends.
pub open spec fn match_close_from(c: Seq<char>, tag: Seq<char>, cursor: int, depth: int) -> Option<(int, int)>
    decreases c.len() - cursor,
{
    let close = "</"@ + tag + ">"@;
    if cursor < 0 || cursor >= c.len() {
        None
    } else {
        let no = find_open_from(c, "<"@ + tag, cursor);
        let nc = find_from(c, close, cursor);
        match (no, nc) {
            (Some((os, oe)), Some(cs)) => if os < cs {
                if cursor < oe <= c.len() {
                    match_close_from(
                        c,
                        tag,
                        oe,
                        if ends_with_spec(c.subrange(os, oe), "/>"@) { depth } else { depth + 1 },
                    )
                } else {
                    None
                }
            } else if depth - 1 == 0 {
                Some((cs, cs + close.len()))
            } else if cursor < cs + close.len() <= c.len() {
                match_close_from(c, tag, cs + close.len(), depth - 1)
            } else {
                None
            },
            (None, Some(cs)) => if depth - 1 == 0 {
                Some((cs, cs + close.len()))
            } else if cursor < cs + close.len() <= c.len() {
                match_close_from(c, tag, cs + close.len(), depth - 1)
            } else {
                None
            },
            (Some((os, oe)), None) => if cursor < oe <= c.len() {
                match_close_from(
                    c,
                    tag,
                    oe,
                    if ends_with_spec(c.subrange(os, oe), "/>"@) { depth } else { depth + 1 },
                )
            } else {
                None
            },
            (None, None) => None,
        }
    }
}

proof fn lemma_match_close_from(c: Seq<char>, tag: Seq<char>, cursor: int, depth: int)
    ensures
        match_close_from(c, tag, cursor, depth) matches Some((b, e)) ==> cursor <= b && b + ("</"@ + tag + ">"@).len() == e
            && e <= c.len(),
    decreases c.len() - cursor,
{
    let close = "</"@ + tag + ">"@;
    if 0 <= cursor < c.len() {
        let no = find_open_from(c, "<"@ + tag, cursor);
        let nc = find_from(c, close, cursor);
        crate::text::lemma_find_from(c, close, cursor);
        lemma_find_open_from(c, "<"@ + tag, cursor);
        match (no, nc) {
            (Some((os, oe)), Some(cs)) => {
                if os < cs {
                    if cursor < oe <= c.len() {
                        lemma_match_close_from(c, tag, oe, if ends_with_spec(c.subrange(os, oe), "/>"@) { depth } else { depth + 1 });
                    }
                } else if depth - 1 != 0 && cursor < cs + close.len() <= c.len() {
                    lemma_match_close_from(c, tag, cs + close.len(), depth - 1);
                }
            },
            (None, Some(cs)) => {
                if depth - 1 != 0 && cursor < cs + close.len() <= c.len() {
                    lemma_match_close_from(c, tag, cs + close.len(), depth - 1);
                }
            },
            (Some((os, oe)), None) => {
                if cursor < oe <= c.len() {
                    lemma_match_close_from(c, tag, oe, if ends_with_spec(c.subrange(os, oe), "/>"@) { depth } else { depth + 1 });
                }
            },
            (None, None) => {},
        }
    }
}

fn find_matching_close_tag(content: &[char], tag: &str, body_start: usize) -> (r: Option<(usize, usize)>)
    requires
        body_start <= content.len(),
    ensures
        match match_close_from(content@, tag@, body_start as int, 1) {
            Some((b, e)) => r == Some((b as usize, e as usize)) && body_start <= b && b <= e && e <= content.len(),
            None => r is None,
        },
{
    let open_needle = tag_open_needle(tag);
    let close = tag_chars("</", tag);
    let ghost close_v = "</"@ + tag@ + ">"@;
    let slash_gt = chars_of("/>");
    let mut depth: usize = 1;
    let mut cursor = body_start;
    proof {
        lemma_match_close_from(content@, tag@, body_start as int, 1);
    }
    while cursor < content.len()
        invariant
            body_start <= cursor <= content.len(),
            1 <= depth <= 1 + cursor - body_start,
            open_needle@ == "<"@ + tag@,
            close@ == close_v,
            close_v == "</"@ + tag@ + ">"@,
            slash_gt@ == "/>"@,
            match_close_from(content@, tag@, body_start as int, 1) == match_close_from(content@, tag@, cursor as int, depth as int),
        decreases content.len() - cursor,
    {
        let next_open = find_open_tag(content, open_needle.as_slice(), cursor);
        let next_close = crate::text::find_at(content, close.as_slice(), cursor);
        proof {
            reveal_strlit("</");
            reveal_strlit(">");
            reveal_strlit("<");
            assert(close@.len() >= 3);
            lemma_match_close_from(content@, tag@, cursor as int, depth as int);
        }
        match (next_open, next_close) {
            (Some((os, oe)), Some(cs)) => {
                if os < cs {
                    let t = slice_to_vec(content, os, oe);
                    if !crate::text::ends_with(t.as_slice(), slash_gt.as_slice()) {
                        depth += 1;
                    }
                    cursor = oe;
                } else {
                    depth -= 1;
                    let ce = cs + close.len();
                    if depth == 0 {
                        return Some((cs, ce));
                    }
                    cursor = ce;
                }
            },
            (None, Some(cs)) => {
                depth -= 1;
                let ce = cs + close.len();
                if depth == 0 {
                    return Some((cs, ce));
                }
                cursor = ce;
            },
            (Some((os, oe)), None) => {
                let t = slice_to_vec(content, os, oe);
                if !crate::text::ends_with(t.as_slice(), slash_gt.as_slice()) {
                    depth += 1;
                }
                cursor = oe;
            },
            (None, None) => {
                return None;
            },
        }
    }
    None
}

fn tag_open_needle(tag: &str) -> (r: Vec<char>)
    ensures
        r@ == "<"@ + tag@,
{
    let mut v = chars_of("<");
    push_str(&mut v, tag);
    v
}

// ---------------------------------------------------------------------------
// Text inside elements
// ---------------------------------------------------------------------------

/// The text with white space between tags taken out.
pub open spec fn siw_spec(rest: Seq<char>) -> Seq<char>
    decreases rest.len(),
{
    match find_spec(rest, ">"@) {
        None => rest,
        Some(g) => if 0 <= g < rest.len() {
            let r = rest.skip(g + 1);
            rest.take(g + 1) + match find_spec(r, "<"@) {
                None => r,
                Some(n) => if 0 <= n <= r.len() {
                    (if crate::text::is_blank(r.take(n)) {
                        Seq::empty()
                    } else {
                        r.take(n)
                    }) + siw_spec(r.skip(n))
                } else {
                    r
                },
            }
        } else {
            rest
        },
    }
}

#[verifier::rlimit(40)]
fn strip_intertag_whitespace(content: &[char]) -> (res: Vec<char>)
    ensures
        res@ == siw_spec(content@),
{
    let gt = chars_of(">");
    let lt = chars_of("<");
    proof {
        reveal_strlit(">");
        reveal_strlit("<");
    }
    assert(gt@ =~= seq!['>']);
    assert(lt@ =~= seq!['<']);
    let mut out: Vec<char> = Vec::new();
    let mut rest = slice_to_vec(content, 0, content.len());
    assert(content@.subrange(0, content@.len() as int) =~= content@);
    assert(out@ + siw_spec(rest@) =~= siw_spec(content@));
    loop
        invariant
            gt@ == ">"@,
            gt@ == seq!['>'],
            lt@ == "<"@,
            lt@ == seq!['<'],
            siw_spec(content@) == out@ + siw_spec(rest@),
        decreases rest@.len(),
    {
        match find(rest.as_slice(), gt.as_slice()) {
            None => {
                push_all(&mut out, rest.as_slice());
                return out;
            },
            Some(g) => {
                let ghost before = out@;
                let ghost r0 = rest@;
                push_all(&mut out, slice_to_vec(rest.as_slice(), 0, g + 1).as_slice());
                let r = slice_to_vec(rest.as_slice(), g + 1, rest.len());
                assert(r@ =~= r0.skip(g + 1));
                match find(r.as_slice(), lt.as_slice()) {
                    None => {
                        push_all(&mut out, r.as_slice());
                        assert(out@ =~= before + (r0.take(g + 1) + r@));
                        return out;
                    },
                    Some(n) => {
                        let between = slice_to_vec(r.as_slice(), 0, n);
                        assert(between@ =~= r@.take(n as int));
                        let ghost mid = out@;
                        if !crate::text::blank(between.as_slice()) {
                            push_all(&mut out, between.as_slice());
                        }
                        let r2 = slice_to_vec(r.as_slice(), n, r.len());
                        assert(r2@ =~= r@.skip(n as int));
                        assert(out@ + siw_spec(r2@) =~= before + (r0.take(g + 1) + ((if crate::text::is_blank(r@.take(n as int)) {
                            Seq::empty()
                        } else {
                            r@.take(n as int)
                        }) + siw_spec(r@.skip(n as int)))));
                        rest = r2;
                    },
                }
            },
        }
    }
}

/// A line break for a `<br>`, `</div>` or `</p>` tag.
pub open spec fn code_tag_spacing(tag: Seq<char>) -> Seq<char> {
    let t = trim_ws(ascii_lower(tag));
    if starts_with_spec(t, "<br"@) || starts_with_spec(t, "</div"@) || starts_with_spec(t, "</p"@) {
        "\n"@
    } else {
        Seq::empty()
    }
}

/// The text of HTML with its tags removed, line-breaking tags as newlines;
/// `tag` holds the tag being read, if `in_tag`.
pub open spec fn code_walk(s: Seq<char>, in_tag: bool, tag: Seq<char>) -> Seq<char>
    decreases s.len(),
{
    if s.len() == 0 {
        tag
    } else if in_tag {
        let t2 = tag.push(s[0]);
        if s[0] == '>' {
            code_tag_spacing(t2) + code_walk(s.skip(1), false, Seq::empty())
        } else {
            code_walk(s.skip(1), true, t2)
        }
    } else if s[0] == '<' {
        code_walk(s.skip(1), true, seq!['<'])
    } else {
        seq![s[0]] + code_walk(s.skip(1), false, Seq::empty())
    }
}

/// The text inside an element: tags out, line breaks kept, entities decoded.
pub open spec fn code_text_spec(content: Seq<char>) -> Seq<char> {
    html_unescape_spec(code_walk(siw_spec(content), false, Seq::empty()))
}

fn code_text_from_html(content: &[char]) -> (res: Vec<char>)
    ensures
        res@ == code_text_spec(content@),
{
    let c = strip_intertag_whitespace(content);
    let mut out: Vec<char> = Vec::new();
    let mut tag: Vec<char> = Vec::new();
    let mut in_tag = false;
    let mut i: usize = 0;
    assert(c@.skip(0) =~= c@);
    assert(out@ + code_walk(c@, false, tag@) =~= code_walk(c@, false, Seq::empty()));
    while i < c.len()
        invariant
            i <= c@.len(),
            !in_tag ==> tag@.len() == 0,
            code_walk(c@, false, Seq::empty()) == out@ + code_walk(c@.skip(i as int), in_tag, tag@),
        decreases c.len() - i,
    {
        let ch = c[i];
        let ghost rest = c@.skip(i as int);
        assert(rest[0] == ch);
        assert(rest.skip(1) =~= c@.skip(i + 1));
        let ghost before = out@;
        if in_tag {
            let ghost t0 = tag@;
            tag.push(ch);
            assert(tag@ == t0.push(ch));
            if ch == '>' {
                let t = crate::text::trim(crate::text::to_ascii_lower(tag.as_slice()).as_slice());
                if crate::text::starts_with(t.as_slice(), chars_of("<br").as_slice()) || crate::text::starts_with(
                    t.as_slice(),
                    chars_of("</div").as_slice(),
                ) || crate::text::starts_with(t.as_slice(), chars_of("</p").as_slice()) {
                    out.push('\n');
                    proof {
                        reveal_strlit("\n");
                    }
                }
                assert(out@ =~= before + code_tag_spacing(t0.push(ch)));
                tag = Vec::new();
                in_tag = false;
                assert(out@ + code_walk(c@.skip(i + 1), false, Seq::empty()) =~= before + (code_tag_spacing(t0.push(ch))
                    + code_walk(c@.skip(i + 1), false, Seq::empty())));
                assert(tag@ =~= Seq::<char>::empty());
            }
        } else if ch == '<' {
            tag.push(ch);
            in_tag = true;
            assert(tag@ =~= seq!['<']);
        } else {
            out.push(ch);
            assert(out@ + code_walk(c@.skip(i + 1), false, Seq::empty()) =~= before + (seq![ch] + code_walk(
                c@.skip(i + 1),
                false,
                Seq::empty(),
            )));
        }
        i += 1;
    }
    assert(c@.skip(i as int) =~= Seq::<char>::empty());
    push_all(&mut out, tag.as_slice());
    html_unescape_chars(out.as_slice())
}

// ---------------------------------------------------------------------------
// Formatting elements as text
// ---------------------------------------------------------------------------

pub open spec fn code_lines_plain(ls: Seq<Seq<char>>, width: int) -> Seq<char>
    decreases ls.len(),
{
    if ls.len() == 0 {
        Seq::empty()
    } else {
        code_lines_plain(ls.drop_last(), width) + "\x1b[48;5;236;38;5;252m "@ + html_escape_tag_spec(ls.last())
            + crate::text::spaces(width - ls.last().len() + 1) + "\x1b[0m\n"@
    }
}

/// The length of the longest line.
pub open spec fn max_line_len(ls: Seq<Seq<char>>) -> int
    decreases ls.len(),
{
    if ls.len() == 0 {
        0
    } else {
        let prev = max_line_len(ls.drop_last());
        if ls.last().len() > prev {
            ls.last().len() as int
        } else {
            prev
        }
    }
}

proof fn lemma_max_line_len(ls: Seq<Seq<char>>)
    ensures
        forall|i: int| 0 <= i < ls.len() ==> (#[trigger] ls[i]).len() <= max_line_len(ls),
        0 <= max_line_len(ls),
    decreases ls.len(),
{
    if ls.len() > 0 {
        lemma_max_line_len(ls.drop_last());
        assert forall|i: int| 0 <= i < ls.len() implies (#[trigger] ls[i]).len() <= max_line_len(ls) by {
            if i < ls.len() - 1 {
                assert(ls[i] == ls.drop_last()[i]);
            }
        }
    }
}

/// Code on a dark background, every line padded to the longest one.
pub open spec fn highlighted_code_block_spec(code: Seq<char>) -> Seq<char> {
    let ls = crate::text::lines_spec(code);
    code_lines_plain(ls, max_line_len(ls)) + "\n"@
}

fn highlighted_code_block(code: &[char]) -> (res: Vec<char>)
    ensures
        res@ == highlighted_code_block_spec(code@),
{
    let lines = crate::text::lines(code);
    let ghost ls = views(lines@);
    let mut width: usize = 0;
    let mut i: usize = 0;
    assert(ls.take(0) =~= Seq::<Seq<char>>::empty());
    while i < lines.len()
        invariant
            i <= lines@.len(),
            ls == views(lines@),
            width as int == max_line_len(ls.take(i as int)),
        decreases lines.len() - i,
    {
        assert(ls.take(i + 1).drop_last() =~= ls.take(i as int));
        assert(ls.take(i + 1).last() == lines@[i as int]@);
        if lines[i].len() > width {
            width = lines[i].len();
        }
        i += 1;
    }
    assert(ls.take(i as int) =~= ls);
    proof {
        lemma_max_line_len(ls);
    }
    let mut out: Vec<char> = Vec::new();
    let mut j: usize = 0;
    assert(ls.take(0) =~= Seq::<Seq<char>>::empty());
    while j < lines.len()
        invariant
            j <= lines@.len(),
            ls == views(lines@),
            width as int == max_line_len(ls),
            forall|k: int| 0 <= k < ls.len() ==> (#[trigger] ls[k]).len() <= max_line_len(ls),
            out@ == code_lines_plain(ls.take(j as int), width as int),
        decreases lines.len() - j,
    {
        let line = lines[j].as_slice();
        assert(ls.take(j + 1).drop_last() =~= ls.take(j as int));
        assert(ls.take(j + 1).last() == line@);
        assert(ls[j as int] == line@);
        push_str(&mut out, "\x1b[48;5;236;38;5;252m ");
        push_all(&mut out, html_escape_tag_chars(line).as_slice());
        crate::text::push_spaces(&mut out, width - line.len());
        out.push(' ');
        assert(crate::text::spaces(width - line@.len()) + seq![' '] =~= crate::text::spaces(width - line@.len() + 1));
        push_str(&mut out, "\x1b[0m\n");
        j += 1;
    }
    assert(ls.take(j as int) =~= ls);
    push_str(&mut out, "\n");
    out
}

/// A code block as a Markdown fence, or highlighted; nothing when it is blank.
pub open spec fn format_code_block_spec(inner: Seq<char>, highlight: bool) -> Seq<char> {
    let code = trim_spec(code_text_spec(inner), CharClass::Single('\n'));
    if crate::text::is_blank(code) {
        Seq::empty()
    } else if highlight {
        highlighted_code_block_spec(code)
    } else {
        "```\n"@ + html_escape_tag_spec(code) + "\n```\n\n"@
    }
}

fn format_code_block(inner: &[char], highlight: bool) -> (res: Vec<char>)
    ensures
        res@ == format_code_block_spec(inner@, highlight),
{
    let t = code_text_from_html(inner);
    let code = crate::text::trim_class(t.as_slice(), CharClass::Single('\n'));
    if crate::text::blank(code.as_slice()) {
        return Vec::new();
    }
    if highlight {
        return highlighted_code_block(code.as_slice());
    }
    let mut out = chars_of("```\n");
    push_all(&mut out, html_escape_tag_chars(code.as_slice()).as_slice());
    push_str(&mut out, "\n```\n\n");
    out
}

pub open spec fn quote_lines_md(ls: Seq<Seq<char>>) -> Seq<char>
    decreases ls.len(),
{
    if ls.len() == 0 {
        Seq::empty()
    } else {
        quote_lines_md(ls.drop_last()) + if crate::text::is_blank(ls.last()) {
            ">\n"@
        } else {
            "> "@ + html_escape_tag_spec(ls.last()) + "\n"@
        }
    }
}

pub open spec fn quote_lines_term(ls: Seq<Seq<char>>) -> Seq<char>
    decreases ls.len(),
{
    if ls.len() == 0 {
        Seq::empty()
    } else {
        quote_lines_term(ls.drop_last()) + "\x1b[38;5;39m|\x1b[0m "@ + if crate::text::is_blank(ls.last()) {
            "\n"@
        } else {
            "\x1b[3;38;5;245m"@ + html_escape_tag_spec(ls.last()) + "\x1b[0m\n"@
        }
    }
}

/// A quotation as Markdown `>` lines, or highlighted; nothing when it is blank.
pub open spec fn format_quote_block_spec(inner: Seq<char>, terminal: bool) -> Seq<char> {
    let q = trim_spec(code_text_spec(inner), CharClass::Single('\n'));
    if crate::text::is_blank(q) {
        Seq::empty()
    } else if terminal {
        quote_lines_term(crate::text::lines_spec(q)) + "\n"@
    } else {
        quote_lines_md(crate::text::lines_spec(q)) + "\n"@
    }
}

fn format_quote_block(inner: &[char], terminal: bool) -> (res: Vec<char>)
    ensures
        res@ == format_quote_block_spec(inner@, terminal),
{
    let t = code_text_from_html(inner);
    let q = crate::text::trim_class(t.as_slice(), CharClass::Single('\n'));
    if crate::text::blank(q.as_slice()) {
        return Vec::new();
    }
    let lines = crate::text::lines(q.as_slice());
    let ghost ls = views(lines@);
    let mut out: Vec<char> = Vec::new();
    let mut i: usize = 0;
    assert(ls.take(0) =~= Seq::<Seq<char>>::empty());
    while i < lines.len()
        invariant
            i <= lines@.len(),
            ls == views(lines@),
            out@ == (if terminal { quote_lines_term(ls.take(i as int)) } else { quote_lines_md(ls.take(i as int)) }),
        decreases lines.len() - i,
    {
        let line = lines[i].as_slice();
        assert(ls.take(i + 1).drop_last() =~= ls.take(i as int));
        assert(ls.take(i + 1).last() == line@);
        let blank = crate::text::blank(line);
        if terminal {
            push_str(&mut out, "\x1b[38;5;39m|\x1b[0m ");
            if blank {
                push_str(&mut out, "\n");
            } else {
                push_str(&mut out, "\x1b[3;38;5;245m");
                push_all(&mut out, html_escape_tag_chars(line).as_slice());
                push_str(&mut out, "\x1b[0m\n");
            }
        } else {
            if blank {
                push_str(&mut out, ">\n");
            } else {
                push_str(&mut out, "> ");
                push_all(&mut out, html_escape_tag_chars(line).as_slice());
                push_str(&mut out, "\n");
            }
        }
        i += 1;
    }
    assert(ls.take(i as int) =~= ls);
    push_str(&mut out, "\n");
    out
}

/// Which style a span of text gets.
#[derive(Clone, Copy, Debug, PartialEq, Eq)]
pub enum Emphasis {
    Italic,
    Bold,
}

/// Italic or bold text, as Markdown or highlighted; nothing when it is blank.
pub open spec fn format_emphasis_spec(inner: Seq<char>, terminal: bool, kind: Emphasis) -> Seq<char> {
    let t = trim_ws(code_text_spec(inner));
    if t.len() == 0 {
        Seq::empty()
    } else {
        let e = html_escape_tag_spec(t);
        match (kind, terminal) {
            (Emphasis::Italic, true) => "\x1b[3m"@ + e + "\x1b[0m"@,
            (Emphasis::Italic, false) => "_"@ + e + "_"@,
            (Emphasis::Bold, true) => "\x1b[1m"@ + e + "\x1b[0m"@,
            (Emphasis::Bold, false) => "**"@ + e + "**"@,
        }
    }
}

fn format_emphasis(inner: &[char], terminal: bool, kind: Emphasis) -> (res: Vec<char>)
    ensures
        res@ == format_emphasis_spec(inner@, terminal, kind),
{
    let c = code_text_from_html(inner);
    let t = crate::text::trim(c.as_slice());
    if t.len() == 0 {
        return Vec::new();
    }
    let e = html_escape_tag_chars(t.as_slice());
    let (open, close) = match (kind, terminal) {
        (Emphasis::Italic, true) => ("\x1b[3m", "\x1b[0m"),
        (Emphasis::Italic, false) => ("_", "_"),
        (Emphasis::Bold, true) => ("\x1b[1m", "\x1b[0m"),
        (Emphasis::Bold, false) => ("**", "**"),
    };
    let mut out = chars_of(open);
    push_all(&mut out, e.as_slice());
    push_str(&mut out, close);
    out
}

/// Inline code as Markdown code, or highlighted.
pub open spec fn format_inline_code_spec(inner: Seq<char>, highlight: bool) -> Seq<char> {
    let code = html_escape_tag_spec(trim_ws(code_text_spec(inner)));
    if highlight {
        "\x1b[38;5;81m"@ + code + "\x1b[0m"@
    } else {
        "`"@ + code + "`"@
    }
}

fn format_inline_code(inner: &[char], highlight: bool) -> (res: Vec<char>)
    ensures
        res@ == format_inline_code_spec(inner@, highlight),
{
    let c = code_text_from_html(inner);
    let t = crate::text::trim(c.as_slice());
    let code = html_escape_tag_chars(t.as_slice());
    let mut out = if highlight { chars_of("\x1b[38;5;81m") } else { chars_of("`") };
    push_all(&mut out, code.as_slice());
    if highlight {
        push_str(&mut out, "\x1b[0m");
    } else {
        push_str(&mut out, "`");
    }
    out
}

/// A link as Markdown `[label](href)`; the bare address when there is no label
/// (or, in the terminal, when the label is the address); the label alone when
/// there is no address. Links are blue in the terminal.
pub open spec fn format_link_spec(open_tag: Seq<char>, inner: Seq<char>, terminal: bool) -> Seq<char> {
    let label = html_escape_tag_spec(trim_ws(code_text_spec(inner)));
    match attr_value_spec(open_tag, "href"@) {
        None => label,
        Some(h0) => {
            let href = html_escape_tag_spec(html_unescape_spec(h0));
            let link = if label.len() == 0 {
                href
            } else if terminal && label == href {
                href
            } else {
                "["@ + label + "]("@ + href + ")"@
            };
            if terminal {
                blue_terminal_text_spec(link)
            } else {
                link
            }
        },
    }
}

fn format_link(open_tag: &[char], inner: &[char], terminal: bool) -> (res: Vec<char>)
    ensures
        res@ == format_link_spec(open_tag@, inner@, terminal),
{
    let c = code_text_from_html(inner);
    let t = crate::text::trim(c.as_slice());
    let label = html_escape_tag_chars(t.as_slice());
    let href = match attr_value(open_tag, "href") {
        Some(h0) => {
            let u = html_unescape_chars(h0.as_slice());
            html_escape_tag_chars(u.as_slice())
        },
        None => {
            return label;
        },
    };
    let link = if label.len() == 0 {
        href
    } else if terminal && chars_eq(label.as_slice(), href.as_slice()) {
        href
    } else {
        let mut l = chars_of("[");
        push_all(&mut l, label.as_slice());
        push_str(&mut l, "](");
        push_all(&mut l, href.as_slice());
        push_str(&mut l, ")");
        l
    };
    if terminal {
        blue_terminal_text(link.as_slice())
    } else {
        link
    }
}

/// An Evernote code block `div`.
pub open spec fn is_codeblock_tag_spec(open_tag: Seq<char>) -> bool {
    let t = ascii_lower(open_tag);
    contains_spec(t, "-en-codeblock"@) || (contains_spec(t, "font-family"@) && contains_spec(t, "monospace"@)
        && contains_spec(t, "background-color"@))
}

/// An Evernote quotation `div`: a left border and left padding or margin, not a code block.
pub open spec fn is_quote_tag_spec(open_tag: Seq<char>) -> bool {
    let t = ascii_lower(open_tag);
    !contains_spec(t, "-en-codeblock"@) && contains_spec(t, "border-left"@) && (contains_spec(t, "padding-left"@)
        || contains_spec(t, "margin-left"@))
}

/// The style of a tag, lower case and without spaces.
pub open spec fn compact_style(open_tag: Seq<char>) -> Seq<char> {
    replace_spec(ascii_lower(open_tag), " "@, Seq::empty())
}

pub open spec fn is_italic_tag_spec(open_tag: Seq<char>) -> bool {
    contains_spec(compact_style(open_tag), "font-style:italic"@)
}

pub open spec fn is_bold_tag_spec(open_tag: Seq<char>) -> bool {
    let t = compact_style(open_tag);
    contains_spec(t, "font-weight:bold"@) || contains_spec(t, "font-weight:bolder"@) || contains_spec(
        t,
        "font-weight:600"@,
    ) || contains_spec(t, "font-weight:700"@) || contains_spec(t, "font-weight:800"@) || contains_spec(
        t,
        "font-weight:900"@,
    )
}

fn has(t: &[char], needle: &str) -> (b: bool)
    ensures
        b == contains_spec(t@, needle@),
{
    crate::text::contains(t, chars_of(needle).as_slice())
}

fn is_evernote_codeblock_tag(open_tag: &[char]) -> (b: bool)
    ensures
        b == is_codeblock_tag_spec(open_tag@),
{
    let t = crate::text::to_ascii_lower(open_tag);
    let t = t.as_slice();
    has(t, "-en-codeblock") || (has(t, "font-family") && has(t, "monospace") && has(t, "background-color"))
}

fn is_evernote_quote_tag(open_tag: &[char]) -> (b: bool)
    ensures
        b == is_quote_tag_spec(open_tag@),
{
    let t = crate::text::to_ascii_lower(open_tag);
    let t = t.as_slice();
    if has(t, "-en-codeblock") {
        return false;
    }
    has(t, "border-left") && (has(t, "padding-left") || has(t, "margin-left"))
}

fn compact_style_exec(open_tag: &[char]) -> (r: Vec<char>)
    ensures
        r@ == compact_style(open_tag@),
{
    proof {
        reveal_strlit(" ");
        reveal_strlit("");
    }
    let t = crate::text::to_ascii_lower(open_tag);
    assert(""@ =~= Seq::<char>::empty());
    replace_str(t.as_slice(), " ", "")
}

fn is_italic_tag(open_tag: &[char]) -> (b: bool)
    ensures
        b == is_italic_tag_spec(open_tag@),
{
    let t = compact_style_exec(open_tag);
    has(t.as_slice(), "font-style:italic")
}

fn is_bold_tag(open_tag: &[char]) -> (b: bool)
    ensures
        b == is_bold_tag_spec(open_tag@),
{
    let t = compact_style_exec(open_tag);
    let t = t.as_slice();
    has(t, "font-weight:bold") || has(t, "font-weight:bolder") || has(t, "font-weight:600") || has(t, "font-weight:700")
        || has(t, "font-weight:800") || has(t, "font-weight:900")
}

/// The elements that become Markdown (or terminal styles): each with the tag
/// it matches, which of those tags it takes, and how it is written.
#[derive(Clone, Copy, Debug, PartialEq, Eq)]
pub enum Rule {
    CodeDiv,
    Pre,
    InlineCode,
    Blockquote,
    QuoteDiv,
    Em,
    I,
    ItalicSpan,
    Strong,
    B,
    BoldSpan,
    Link,
}

pub open spec fn rule_tag(r: Rule) -> Seq<char> {
    match r {
        Rule::CodeDiv => "div"@,
        Rule::Pre => "pre"@,
        Rule::InlineCode => "code"@,
        Rule::Blockquote => "blockquote"@,
        Rule::QuoteDiv => "div"@,
        Rule::Em => "em"@,
        Rule::I => "i"@,
        Rule::ItalicSpan => "span"@,
        Rule::Strong => "strong"@,
        Rule::B => "b"@,
        Rule::BoldSpan => "span"@,
        Rule::Link => "a"@,
    }
}

fn rule_tag_exec(r: Rule) -> (t: &'static str)
    ensures
        t@ == rule_tag(r),
{
    match r {
        Rule::CodeDiv => "div",
        Rule::Pre => "pre",
        Rule::InlineCode => "code",
        Rule::Blockquote => "blockquote",
        Rule::QuoteDiv => "div",
        Rule::Em => "em",
        Rule::I => "i",
        Rule::ItalicSpan => "span",
        Rule::Strong => "strong",
        Rule::B => "b",
        Rule::BoldSpan => "span",
        Rule::Link => "a",
    }
}

pub open spec fn rule_accepts(r: Rule, open_tag: Seq<char>) -> bool {
    match r {
        Rule::CodeDiv => is_codeblock_tag_spec(open_tag),
        Rule::QuoteDiv => is_quote_tag_spec(open_tag),
        Rule::ItalicSpan => is_italic_tag_spec(open_tag),
        Rule::BoldSpan => is_bold_tag_spec(open_tag),
        _ => true,
    }
}

fn rule_accepts_exec(r: Rule, open_tag: &[char]) -> (b: bool)
    ensures
        b == rule_accepts(r, open_tag@),
{
    match r {
        Rule::CodeDiv => is_evernote_codeblock_tag(open_tag),
        Rule::QuoteDiv => is_evernote_quote_tag(open_tag),
        Rule::ItalicSpan => is_italic_tag(open_tag),
        Rule::BoldSpan => is_bold_tag(open_tag),
        _ => true,
    }
}

pub open spec fn rule_format(r: Rule, open_tag: Seq<char>, inner: Seq<char>, styled: bool) -> Seq<char> {
    match r {
        Rule::CodeDiv | Rule::Pre => format_code_block_spec(inner, styled),
        Rule::InlineCode => format_inline_code_spec(inner, styled),
        Rule::Blockquote | Rule::QuoteDiv => format_quote_block_spec(inner, styled),
        Rule::Em | Rule::I | Rule::ItalicSpan => format_emphasis_spec(inner, styled, Emphasis::Italic),
        Rule::Strong | Rule::B | Rule::BoldSpan => format_emphasis_spec(inner, styled, Emphasis::Bold),
        Rule::Link => format_link_spec(open_tag, inner, styled),
    }
}

fn rule_format_exec(r: Rule, open_tag: &[char], inner: &[char], styled: bool) -> (res: Vec<char>)
    ensures
        res@ == rule_format(r, open_tag@, inner@, styled),
{
    match r {
        Rule::CodeDiv | Rule::Pre => format_code_block(inner, styled),
        Rule::InlineCode => format_inline_code(inner, styled),
        Rule::Blockquote | Rule::QuoteDiv => format_quote_block(inner, styled),
        Rule::Em | Rule::I | Rule::ItalicSpan => format_emphasis(inner, styled, Emphasis::Italic),
        Rule::Strong | Rule::B | Rule::BoldSpan => format_emphasis(inner, styled, Emphasis::Bold),
        Rule::Link => format_link(open_tag, inner, styled),
    }
}

/// The elements of `rest` that rule `r` takes, written as it writes them;
/// an element that is not closed ends the replacing.
pub open spec fn replace_blocks_spec(rest: Seq<char>, r: Rule, styled: bool) -> Seq<char>
    decreases rest.len(),
{
    let tag = rule_tag(r);
    match find_open_from(rest, "<"@ + tag, 0) {
        None => rest,
        Some((os, oe)) => if 0 <= os < oe <= rest.len() {
            let open_tag = rest.subrange(os, oe);
            rest.take(os) + if rule_accepts(r, open_tag) {
                match match_close_from(rest, tag, oe, 1) {
                    None => rest.skip(os),
                    Some((be, ce)) => if oe <= be && be < ce <= rest.len() {
                        rule_format(r, open_tag, rest.subrange(oe, be), styled) + replace_blocks_spec(rest.skip(ce), r, styled)
                    } else {
                        rest.skip(os)
                    },
                }
            } else {
                open_tag + replace_blocks_spec(rest.skip(oe), r, styled)
            }
        } else {
            rest
        },
    }
}

/// One step of replacing: the text up to and including the next element that
/// is taken or passed over, and the rest; no rest when the text is done.
#[verifier::rlimit(60)]
fn replace_step(rest: &[char], r: Rule, styled: bool, tag: &str, needle: &[char]) -> (res: (Vec<char>, Option<Vec<char>>))
    requires
        tag@ == rule_tag(r),
        needle@ == "<"@ + tag@,
    ensures
        match res.1 {
            None => res.0@ == replace_blocks_spec(rest@, r, styled),
            Some(r2) => res.0@ + replace_blocks_spec(r2@, r, styled) == replace_blocks_spec(rest@, r, styled) && r2@.len()
                < rest@.len(),
        },
{
    let mut out: Vec<char> = Vec::new();
    let ghost r0 = rest@;
    match find_open_tag(rest, needle, 0) {
        None => {
            push_all(&mut out, rest);
            (out, None)
        },
        Some((os, oe)) => {
            let open_tag = slice_to_vec(rest, os, oe);
            push_all(&mut out, slice_to_vec(rest, 0, os).as_slice());
            if rule_accepts_exec(r, open_tag.as_slice()) {
                proof {
                    lemma_match_close_from(rest@, tag@, oe as int, 1);
                    reveal_strlit("</");
                    reveal_strlit(">");
                }
                match find_matching_close_tag(rest, tag, oe) {
                    None => {
                        push_all(&mut out, slice_to_vec(rest, os, rest.len()).as_slice());
                        assert(out@ =~= r0.take(os as int) + r0.skip(os as int));
                        (out, None)
                    },
                    Some((be, ce)) => {
                        let inner = slice_to_vec(rest, oe, be);
                        let f = rule_format_exec(r, open_tag.as_slice(), inner.as_slice(), styled);
                        push_all(&mut out, f.as_slice());
                        let r2 = slice_to_vec(rest, ce, rest.len());
                        assert(r2@ =~= r0.skip(ce as int));
                        assert(out@ + replace_blocks_spec(r2@, r, styled) =~= r0.take(os as int) + (rule_format(
                            r,
                            open_tag@,
                            r0.subrange(oe as int, be as int),
                            styled,
                        ) + replace_blocks_spec(r0.skip(ce as int), r, styled)));
                        (out, Some(r2))
                    },
                }
            } else {
                push_all(&mut out, open_tag.as_slice());
                let r2 = slice_to_vec(rest, oe, rest.len());
                assert(r2@ =~= r0.skip(oe as int));
                assert(out@ + replace_blocks_spec(r2@, r, styled) =~= r0.take(os as int) + (open_tag@
                    + replace_blocks_spec(r0.skip(oe as int), r, styled)));
                (out, Some(r2))
            }
        },
    }
}

fn replace_tag_blocks(content: &[char], r: Rule, styled: bool) -> (res: Vec<char>)
    ensures
        res@ == replace_blocks_spec(content@, r, styled),
{
    let tag = rule_tag_exec(r);
    let needle = tag_open_needle(tag);
    let mut out: Vec<char> = Vec::new();
    let mut rest = slice_to_vec(content, 0, content.len());
    assert(content@.subrange(0, content@.len() as int) =~= content@);
    assert(out@ + replace_blocks_spec(rest@, r, styled) =~= replace_blocks_spec(content@, r, styled));
    loop
        invariant
            tag@ == rule_tag(r),
            needle@ == "<"@ + tag@,
            replace_blocks_spec(content@, r, styled) == out@ + replace_blocks_spec(rest@, r, styled),
        decreases rest@.len(),
    {
        let (piece, next) = replace_step(rest.as_slice(), r, styled, tag, needle.as_slice());
        let ghost before = out@;
        push_all(&mut out, piece.as_slice());
        match next {
            None => {
                return out;
            },
            Some(r2) => {
                assert(out@ + replace_blocks_spec(r2@, r, styled) =~= before + (piece@ + replace_blocks_spec(r2@, r, styled)));
                rest = r2;
            },
        }
    }
}

// ---------------------------------------------------------------------------
// ENML into text
// ---------------------------------------------------------------------------

/// The plain elements that become text: headings, paragraphs and `div`s.
#[derive(Clone, Copy, Debug, PartialEq, Eq)]
pub enum SimpleTag {
    H1,
    H2,
    H3,
    P,
    Div,
}

pub open spec fn simple_tag_name(k: SimpleTag) -> Seq<char> {
    match k {
        SimpleTag::H1 => "h1"@,
        SimpleTag::H2 => "h2"@,
        SimpleTag::H3 => "h3"@,
        SimpleTag::P => "p"@,
        SimpleTag::Div => "div"@,
    }
}

/// How a plain element's content is written: headings with `#` marks,
/// paragraphs followed by a blank line, a `div` with a line break as an empty
/// line and a task `div` as a single line.
pub open spec fn simple_fmt(k: SimpleTag, inner: Seq<char>) -> Seq<char> {
    let t = trim_ws(inner);
    match k {
        SimpleTag::H1 => "# "@ + t + "\n\n"@,
        SimpleTag::H2 => "## "@ + t + "\n\n"@,
        SimpleTag::H3 => "### "@ + t + "\n\n"@,
        SimpleTag::P => if t.len() == 0 {
            "\n"@
        } else {
            t + "\n\n"@
        },
        SimpleTag::Div => if t == "<br/>"@ || t == "<br />"@ {
            "\n"@
        } else if is_compact_div_text_spec(t) {
            t + "\n"@
        } else {
            t + "\n\n"@
        },
    }
}

/// Every `<tag>..</tag>` of `rest` (not nested) written as `simple_fmt` says;
/// an element that is not closed ends the replacing.
pub open spec fn simple_spec(rest: Seq<char>, k: SimpleTag) -> Seq<char>
    decreases rest.len(),
{
    let st = "<"@ + simple_tag_name(k) + ">"@;
    let et = "</"@ + simple_tag_name(k) + ">"@;
    match find_spec(rest, st) {
        None => rest,
        Some(s) => if 0 <= s && s + st.len() <= rest.len() {
            let is = s + st.len();
            rest.take(s) + match find_spec(rest.skip(is), et) {
                None => rest.skip(s),
                Some(rel) => if 0 <= rel && is + rel + et.len() <= rest.len() && et.len() > 0 {
                    simple_fmt(k, rest.subrange(is, is + rel)) + simple_spec(rest.skip(is + rel + et.len()), k)
                } else {
                    rest.skip(s)
                },
            }
        } else {
            rest
        },
    }
}

/// The heading element of level `k` (1 to 3).
pub open spec fn heading_tag(k: int) -> SimpleTag {
    if k == 1 {
        SimpleTag::H1
    } else if k == 2 {
        SimpleTag::H2
    } else {
        SimpleTag::H3
    }
}

/// The name `h1`, `h2` or `h3` of the heading element of level `k`.
pub open spec fn heading_name(k: int) -> Seq<char> {
    seq!['h', (('0' as int) + k) as char]
}

/// An `<hk>` element (`k` from 1 to 3) whose text holds no tag becomes a
/// Markdown heading of the same level: `k` `#` characters, a space, the text
/// trimmed and a blank line; what follows the element is converted in turn.
pub proof fn lemma_heading_markdown(k: int, t: Seq<char>, rest: Seq<char>)
    requires
        1 <= k <= 3,
        forall|i: int| 0 <= i < t.len() ==> t[i] != '<',
    ensures
        simple_spec(seq!['<'] + heading_name(k) + seq!['>'] + t + seq!['<', '/'] + heading_name(k) + seq!['>'] + rest, heading_tag(k))
            == repeat_spec('#', k) + seq![' '] + trim_ws(t) + seq!['\n', '\n'] + simple_spec(rest, heading_tag(k)),
{
    reveal_strlit("h1");
    reveal_strlit("h2");
    reveal_strlit("h3");
    reveal_strlit("<");
    reveal_strlit("</");
    reveal_strlit(">");
    reveal_strlit("# ");
    reveal_strlit("## ");
    reveal_strlit("### ");
    reveal_strlit("\n\n");
    let tag = heading_tag(k);
    assert(simple_tag_name(tag) =~= heading_name(k));
    let st = "<"@ + simple_tag_name(tag) + ">"@;
    let et = "</"@ + simple_tag_name(tag) + ">"@;
    assert(st =~= seq!['<'] + heading_name(k) + seq!['>']);
    assert(et =~= seq!['<', '/'] + heading_name(k) + seq!['>']);
    let s = st + t + et + rest;
    assert(seq!['<'] + heading_name(k) + seq!['>'] + t + seq!['<', '/'] + heading_name(k) + seq!['>'] + rest =~= s);
    crate::text::lemma_find_after_free(Seq::<char>::empty(), st, t + et + rest);
    assert(Seq::<char>::empty() + st + (t + et + rest) =~= s);
    let is = st.len() as int;
    assert(s.skip(is) =~= t + et + rest);
    crate::text::lemma_find_after_free(t, et, rest);
    let rel = t.len() as int;
    assert(s.subrange(is, is + rel) =~= t);
    assert(s.skip(is + rel + et.len()) =~= rest);
    assert(s.take(0) =~= Seq::<char>::empty());
    if k == 1 {
        assert("# "@ =~= repeat_spec('#', k) + seq![' ']);
    } else if k == 2 {
        assert("## "@ =~= repeat_spec('#', k) + seq![' ']);
    } else {
        assert("### "@ =~= repeat_spec('#', k) + seq![' ']);
    }
    assert("\n\n"@ =~= seq!['\n', '\n']);
}

fn simple_tag_exec(k: SimpleTag) -> (t: &'static str)
    ensures
        t@ == simple_tag_name(k),
{
    match k {
        SimpleTag::H1 => "h1",
        SimpleTag::H2 => "h2",
        SimpleTag::H3 => "h3",
        SimpleTag::P => "p",
        SimpleTag::Div => "div",
    }
}

fn simple_fmt_exec(k: SimpleTag, inner: &[char]) -> (res: Vec<char>)
    ensures
        res@ == simple_fmt(k, inner@),
{
    let t = crate::text::trim(inner);
    match k {
        SimpleTag::H1 | SimpleTag::H2 | SimpleTag::H3 => {
            let mut out = match k {
                SimpleTag::H1 => chars_of("# "),
                SimpleTag::H2 => chars_of("## "),
                _ => chars_of("### "),
            };
            push_all(&mut out, t.as_slice());
            push_str(&mut out, "\n\n");
            out
        },
        SimpleTag::P => {
            if t.len() == 0 {
                chars_of("\n")
            } else {
                let mut out = t;
                push_str(&mut out, "\n\n");
                out
            }
        },
        SimpleTag::Div => {
            if chars_eq(t.as_slice(), chars_of("<br/>").as_slice()) || chars_eq(t.as_slice(), chars_of("<br />").as_slice()) {
                chars_of("\n")
            } else if is_compact_div_text(t.as_slice()) {
                let mut out = t;
                push_str(&mut out, "\n");
                out
            } else {
                let mut out = t;
                push_str(&mut out, "\n\n");
                out
            }
        },
    }
}

#[verifier::rlimit(60)]
fn replace_simple_tag(content: &[char], k: SimpleTag) -> (res: Vec<char>)
    ensures
        res@ == simple_spec(content@, k),
{
    let name = simple_tag_exec(k);
    let st = tag_chars("<", name);
    let et = tag_chars("</", name);
    let mut out: Vec<char> = Vec::new();
    let mut rest = slice_to_vec(content, 0, content.len());
    assert(content@.subrange(0, content@.len() as int) =~= content@);
    assert(out@ + simple_spec(rest@, k) =~= simple_spec(content@, k));
    loop
        invariant
            st@ == "<"@ + simple_tag_name(k) + ">"@,
            et@ == "</"@ + simple_tag_name(k) + ">"@,
            simple_spec(content@, k) == out@ + simple_spec(rest@, k),
        decreases rest@.len(),
    {
        proof {
            reveal_strlit("<");
            reveal_strlit("</");
            reveal_strlit(">");
        }
        let ghost before = out@;
        let ghost r0 = rest@;
        match find(rest.as_slice(), st.as_slice()) {
            None => {
                push_all(&mut out, rest.as_slice());
                return out;
            },
            Some(s) => {
                let is = s + st.len();
                push_all(&mut out, slice_to_vec(rest.as_slice(), 0, s).as_slice());
                let tail = slice_to_vec(rest.as_slice(), is, rest.len());
                assert(tail@ =~= r0.skip(is as int));
                match find(tail.as_slice(), et.as_slice()) {
                    None => {
                        push_all(&mut out, slice_to_vec(rest.as_slice(), s, rest.len()).as_slice());
                        assert(out@ =~= before + (r0.take(s as int) + r0.skip(s as int)));
                        return out;
                    },
                    Some(rel) => {
                        let inner = slice_to_vec(rest.as_slice(), is, is + rel);
                        let f = simple_fmt_exec(k, inner.as_slice());
                        push_all(&mut out, f.as_slice());
                        let r2 = slice_to_vec(rest.as_slice(), is + rel + et.len(), rest.len());
                        assert(r2@ =~= r0.skip(is + rel + et@.len()));
                        assert(out@ + simple_spec(r2@, k) =~= before + (r0.take(s as int) + (simple_fmt(
                            k,
                            r0.subrange(is as int, is + rel),
                        ) + simple_spec(r0.skip(is + rel + et@.len()), k))));
                        rest = r2;
                    },
                }
            },
        }
    }
}

/// The Markdown steps: code, inline code, quotations, italic, bold, links,
/// tasks, headings, paragraphs, `div`s, line breaks, rules; then the tags go,
/// entities are decoded and blank lines folded.
pub open spec fn markdown_pipeline(b: Seq<char>, styled: bool) -> Seq<char> {
    let b1 = replace_blocks_spec(replace_blocks_spec(b, Rule::CodeDiv, styled), Rule::Pre, styled);
    let b2 = replace_blocks_spec(b1, Rule::InlineCode, styled);
    let b3 = replace_blocks_spec(replace_blocks_spec(b2, Rule::Blockquote, styled), Rule::QuoteDiv, styled);
    let b4 = replace_blocks_spec(
        replace_blocks_spec(replace_blocks_spec(b3, Rule::Em, styled), Rule::I, styled),
        Rule::ItalicSpan,
        styled,
    );
    let b5 = replace_blocks_spec(
        replace_blocks_spec(replace_blocks_spec(b4, Rule::Strong, styled), Rule::B, styled),
        Rule::BoldSpan,
        styled,
    );
    let b6 = convert_todos_spec(replace_blocks_spec(b5, Rule::Link, styled));
    let b7 = simple_spec(
        simple_spec(simple_spec(simple_spec(simple_spec(b6, SimpleTag::H1), SimpleTag::H2), SimpleTag::H3), SimpleTag::P),
        SimpleTag::Div,
    );
    let b8 = replace_spec(replace_spec(replace_spec(b7, "<br/>"@, "\n"@), "<br />"@, "\n"@), "<br>"@, "\n"@);
    normalize_blank_lines_spec(html_unescape_spec(strip_tags_from(horizontal_rules_spec(b8), false)))
}

#[verifier::rlimit(40)]
fn markdown_pipeline_exec(b: Vec<char>, styled: bool) -> (res: Vec<char>)
    ensures
        res@ == markdown_pipeline(b@, styled),
{
    let b = replace_tag_blocks(b.as_slice(), Rule::CodeDiv, styled);
    let b = replace_tag_blocks(b.as_slice(), Rule::Pre, styled);
    let b = replace_tag_blocks(b.as_slice(), Rule::InlineCode, styled);
    let b = replace_tag_blocks(b.as_slice(), Rule::Blockquote, styled);
    let b = replace_tag_blocks(b.as_slice(), Rule::QuoteDiv, styled);
    let b = replace_tag_blocks(b.as_slice(), Rule::Em, styled);
    let b = replace_tag_blocks(b.as_slice(), Rule::I, styled);
    let b = replace_tag_blocks(b.as_slice(), Rule::ItalicSpan, styled);
    let b = replace_tag_blocks(b.as_slice(), Rule::Strong, styled);
    let b = replace_tag_blocks(b.as_slice(), Rule::B, styled);
    let b = replace_tag_blocks(b.as_slice(), Rule::BoldSpan, styled);
    let b = replace_tag_blocks(b.as_slice(), Rule::Link, styled);
    let b = convert_todos_to_markdown(b);
    let b = replace_simple_tag(b.as_slice(), SimpleTag::H1);
    let b = replace_simple_tag(b.as_slice(), SimpleTag::H2);
    let b = replace_simple_tag(b.as_slice(), SimpleTag::H3);
    let b = replace_simple_tag(b.as_slice(), SimpleTag::P);
    let b = replace_simple_tag(b.as_slice(), SimpleTag::Div);
    proof {
        reveal_strlit("<br/>");
        reveal_strlit("<br />");
        reveal_strlit("<br>");
    }
    let b = rep(b, "<br/>", "\n");
    let b = rep(b, "<br />", "\n");
    let b = rep(b, "<br>", "\n");
    let b = replace_horizontal_rules(b);
    let b = strip_tags(b.as_slice());
    let b = html_unescape_chars(b.as_slice());
    normalize_blank_lines(b.as_slice())
}

/// A note's ENML as text in `format`: the `pre` text of a `Pre` note; media
/// as saved image references (when images are saved), terminal images (when
/// `rendered` gives the rendered images) or placeholders; HTML as it is;
/// otherwise Markdown (or styled terminal text).
pub open spec fn enml_to_text_spec(
    content: Seq<char>,
    format: TextFormat,
    save_images: bool,
    base: Option<Seq<char>>,
    rs: Seq<Resource>,
    styled: bool,
    rendered: Option<Seq<Option<String>>>,
) -> Seq<char> {
    let body = note_body(content);
    if format == TextFormat::Pre && extract_tag_body_spec(body, "pre"@) is Some {
        html_unescape_spec(extract_tag_body_spec(body, "pre"@)->0)
    } else {
        let b1 = if save_images {
            media_images_spec(body, base, format == TextFormat::Html)
        } else if rendered is Some && format != TextFormat::Html {
            terminal_images_spec(body, rs, rendered->0, 0)
        } else if format != TextFormat::Html {
            media_placeholders_spec(body, rs)
        } else {
            body
        };
        if format == TextFormat::Html {
            b1
        } else {
            markdown_pipeline(b1, styled)
        }
    }
}

fn enml_to_text_internal(
    content_enml: &str,
    format: TextFormat,
    image_options: &ImageOptions,
    resources: &[Resource],
    styled: bool,
    rendered: Option<&Vec<Option<String>>>,
) -> (res: String)
    requires
        en_note_ok(content_enml@),
        rendered matches Some(r) ==> paths_ok(r@),
    ensures
        res@ == enml_to_text_spec(
            content_enml@,
            format,
            image_options.save_images,
            crate::models::opt_str(image_options.base_filename),
            resources@,
            styled,
            match rendered {
                Some(r) => Some(r@),
                None => None,
            },
        ),
{
    let c = chars_of(content_enml);
    let body = match en_note_body(c.as_slice()) {
        Some(b) => b,
        None => c,
    };
    if format == TextFormat::Pre {
        match extract_tag_body(body.as_slice(), "pre") {
            Some(pre) => {
                let u = html_unescape_chars(pre.as_slice());
                return string_of(u.as_slice());
            },
            None => {},
        }
    }
    let is_html = format == TextFormat::Html;
    let b1 = if image_options.save_images {
        replace_media_with_images(body.as_slice(), image_options, is_html)
    } else if rendered.is_some() && !is_html {
        match rendered {
            Some(r) => replace_media_with_terminal_images(body.as_slice(), resources, r),
            None => body,
        }
    } else if !is_html {
        replace_media_with_placeholders(body.as_slice(), resources)
    } else {
        body
    };
    if is_html {
        return string_of(b1.as_slice());
    }
    let out = markdown_pipeline_exec(b1, styled);
    string_of(out.as_slice())
}

/// A note as Markdown.
pub fn enml_to_text(content_enml: &str) -> (res: String)
    requires
        en_note_ok(content_enml@),
    ensures
        res@ == enml_to_text_spec(content_enml@, TextFormat::Markdown, false, None, Seq::empty(), false, None),
{
    let opts = ImageOptions::default();
    let rs: Vec<Resource> = Vec::new();
    enml_to_text_internal(content_enml, TextFormat::Markdown, &opts, rs.as_slice(), false, None)
}

/// A note as Markdown, media named after the given resources.
pub fn enml_to_text_with_resources(content_enml: &str, resources: &[Resource]) -> (res: String)
    requires
        en_note_ok(content_enml@),
    ensures
        res@ == enml_to_text_spec(content_enml@, TextFormat::Markdown, false, None, resources@, false, None),
{
    let opts = ImageOptions::default();
    enml_to_text_internal(content_enml, TextFormat::Markdown, &opts, resources, false, None)
}

/// A note as styled terminal text.
pub fn enml_to_terminal_text(content_enml: &str) -> (res: String)
    requires
        en_note_ok(content_enml@),
    ensures
        res@ == enml_to_text_spec(content_enml@, TextFormat::Markdown, false, None, Seq::empty(), true, None),
{
    let opts = ImageOptions::default();
    let rs: Vec<Resource> = Vec::new();
    enml_to_text_internal(content_enml, TextFormat::Markdown, &opts, rs.as_slice(), true, None)
}

/// A note as styled terminal text, media named after the given resources.
pub fn enml_to_terminal_text_with_resources(content_enml: &str, resources: &[Resource]) -> (res: String)
    requires
        en_note_ok(content_enml@),
    ensures
        res@ == enml_to_text_spec(content_enml@, TextFormat::Markdown, false, None, resources@, true, None),
{
    let opts = ImageOptions::default();
    enml_to_text_internal(content_enml, TextFormat::Markdown, &opts, resources, true, None)
}

/// A note as styled terminal text; with `rendered`, the images that were
/// rendered (the `k`-th entry for the `k`-th of `terminal_image_resources`)
/// are shown in the terminal.
pub fn enml_to_terminal_text_with_options(
    content_enml: &str,
    resources: &[Resource],
    rendered: Option<&Vec<Option<String>>>,
) -> (res: String)
    requires
        en_note_ok(content_enml@),
        rendered matches Some(r) ==> paths_ok(r@),
    ensures
        res@ == enml_to_text_spec(
            content_enml@,
            TextFormat::Markdown,
            false,
            None,
            resources@,
            true,
            match rendered {
                Some(r) => Some(r@),
                None => None,
            },
        ),
{
    let opts = ImageOptions::default();
    enml_to_text_internal(content_enml, TextFormat::Markdown, &opts, resources, true, rendered)
}

/// A note as text in `format`, images handled as `image_options` says.
pub fn enml_to_text_with_options(content_enml: &str, format: TextFormat, image_options: &ImageOptions) -> (res: String)
    requires
        en_note_ok(content_enml@),
    ensures
        res@ == enml_to_text_spec(
            content_enml@,
            format,
            image_options.save_images,
            crate::models::opt_str(image_options.base_filename),
            Seq::empty(),
            false,
            None,
        ),
{
    let rs: Vec<Resource> = Vec::new();
    enml_to_text_internal(content_enml, format, image_options, rs.as_slice(), false, None)
}

} // verus!
