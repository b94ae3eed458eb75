use vstd::prelude::*;
use crate::reeknote::{civil_from_days, civil_from_days_spec, DuplicateGroup};
use crate::text::{chars_of, find_spec, join_spec, parse_usize_spec, CharClass, replace_spec, string_views, views, dec_int, dec_nat, pad_right_spec, push_all, push_repeat, push_str, repeat_spec, string_of, zero_padded};
use crate::config::Config;
use crate::editor::{en_note_ok, enml_to_terminal_text_with_options, enml_to_text_spec, paths_ok, TextFormat};
use crate::models::{note_views, opt_str, ListItem, Note, NoteView, UserInfo, UserInfoView};

verus! {

/// What a listing shows besides the titles.
#[derive(Clone, Copy, Debug, Default, PartialEq, Eq)]
pub struct ListOptions {
    pub show_selector: bool,
    pub show_url: bool,
    pub show_tags: bool,
    pub show_notebook: bool,
    pub show_guid: bool,
}

/// The text of `about`.
pub open spec fn about_spec() -> Seq<char> {
    "Version: "@ + crate::VERSION@ + "\nReeknote - a command line client for Evernote.\nUse reeknote --help to read documentation.\n"@
}

pub fn about() -> (res: String)
    ensures
        res@ == about_spec(),
{
    let mut out = chars_of("Version: ");
    push_str(&mut out, crate::VERSION);
    push_str(&mut out, "\nReeknote - a command line client for Evernote.\nUse reeknote --help to read documentation.\n");
    string_of(out.as_slice())
}

/// `a - b`, or 0 where `b` is larger.
pub open spec fn sat_sub(a: int, b: int) -> int {
    if a > b { a - b } else { 0 }
}

/// A line of 40 `symbol`s with `title` in its middle (two blank lines
/// instead when there is no title).
pub open spec fn separator_spec(symbol: char, title: Seq<char>) -> Seq<char> {
    if title.len() == 0 {
        repeat_spec(symbol, 40) + "\n\n"@
    } else {
        let left = (sat_sub(40, title.len() as int) + 2) / 2;
        let right = sat_sub(left, ((title.len() + 1) % 2) as int);
        repeat_spec(symbol, left) + " "@ + title + " "@ + repeat_spec(symbol, right) + "\n"@
    }
}

pub fn separator(symbol: char, title: &str) -> (res: String)
    ensures
        res@ == separator_spec(symbol, title@),
{
    let t = chars_of(title);
    let mut out: Vec<char> = Vec::new();
    if t.len() == 0 {
        push_repeat(&mut out, symbol, 40);
        push_str(&mut out, "\n\n");
        return string_of(out.as_slice());
    }
    let n = t.len();
    let rest: usize = if n < 40 { 40 - n } else { 0 };
    let left = (rest + 2) / 2;
    let odd = (n % 2 + 1) % 2;
    let right: usize = if left > odd { left - odd } else { 0 };
    assert((n + 1) % 2 == odd) by (nonlinear_arith)
        requires
            odd == (n % 2 + 1) % 2,
    ;
    push_repeat(&mut out, symbol, left);
    out.push(' ');
    push_all(&mut out, t.as_slice());
    out.push(' ');
    push_repeat(&mut out, symbol, right);
    out.push('\n');
    proof {
        reveal_strlit(" ");
        reveal_strlit("\n");
    }
    assert(out@ =~= separator_spec(symbol, title@));
    string_of(out.as_slice())
}

/// A separator with a title shorter than the line is always as wide: 43
/// characters and the newline; without a title, 40 symbols and two newlines.
pub proof fn lemma_separator_width(symbol: char, title: Seq<char>)
    requires
        title.len() < 40,
    ensures
        separator_spec(symbol, title).len() == (if title.len() == 0 { 42int } else { 44int }),
{
    reveal_strlit(" ");
    reveal_strlit("\n");
    reveal_strlit("\n\n");
}

/// The shift of local time in seconds for the time zone named by `TZ`:
/// a day for `PST-0800`, none otherwise.
pub fn tz_offset_for(tz: Option<&str>) -> (res: i64)
    ensures
        res == (if tz matches Some(z) && z@ == "PST-0800"@ { 86_400i64 } else { 0i64 }),
{
    match tz {
        Some(z) => {
            if crate::text::chars_eq(chars_of(z).as_slice(), chars_of("PST-0800").as_slice()) {
                86_400
            } else {
                0
            }
        },
        None => 0,
    }
}

/// The local day of a time in milliseconds, `YYYY-MM-DD`, or `None`.
pub open spec fn print_date_spec(timestamp: Option<i64>, tz_offset: int) -> Seq<char> {
    match timestamp {
        None => "None"@,
        Some(t) => {
            let days = (t as int / 1000 + tz_offset) / 86400;
            let (y, m, d) = civil_from_days_spec(days);
            zero_padded(y, 4) + "-"@ + zero_padded(m, 2) + "-"@ + zero_padded(d, 2)
        },
    }
}

/// The local time in seconds of `timestamp` fits in an `i64`.
pub open spec fn date_fits(timestamp: Option<i64>, tz_offset: int) -> bool {
    timestamp matches Some(t) ==> i64::MIN <= t as int / 1000 + tz_offset <= i64::MAX
}

/// Whether the local time in seconds of `timestamp` fits in an `i64`.
pub fn timestamp_in_range(timestamp: Option<i64>, tz_offset: i64) -> (b: bool)
    ensures
        b == date_fits(timestamp, tz_offset as int),
{
    match timestamp {
        Some(t) => {
            let q: i128 = if t >= 0 {
                t as i128 / 1000
            } else {
                let m: i128 = -(t as i128);
                let c: i128 = (m + 999) / 1000;
                assert(-c == (t as int) / 1000) by (nonlinear_arith)
                    requires
                        t < 0,
                        m == -(t as int),
                        c == (m + 999) / 1000,
                ;
                -c
            };
            let u: i128 = q + tz_offset as i128;
            -9_223_372_036_854_775_808i128 <= u && u <= 9_223_372_036_854_775_807i128
        },
        None => true,
    }
}

/// The date of `timestamp`, `tz_offset` seconds away from UTC.
pub fn print_date(timestamp: Option<i64>, tz_offset: i64) -> (res: String)
    requires
        date_fits(timestamp, tz_offset as int),
    ensures
        res@ == print_date_spec(timestamp, tz_offset as int),
{
    match timestamp {
        None => "None".to_string(),
        Some(t) => {
            let seconds = t.checked_div_euclid(1000).unwrap() + tz_offset;
            let days = seconds.checked_div_euclid(86_400).unwrap();
            let (y, m, d) = civil_from_days(days);
            let mut out: Vec<char> = Vec::new();
            crate::text::push_zero_padded(&mut out, y, 4);
            out.push('-');
            crate::text::push_zero_padded(&mut out, m, 2);
            out.push('-');
            crate::text::push_zero_padded(&mut out, d, 2);
            proof {
                reveal_strlit("-");
            }
            assert(out@ =~= print_date_spec(timestamp, tz_offset as int));
            string_of(out.as_slice())
        },
    }
}

/// An optional number, or `None`.
pub open spec fn option_i64_spec(value: Option<i64>) -> Seq<char> {
    match value {
        Some(v) => dec_int(v as int),
        None => "None"@,
    }
}

fn option_i64(value: Option<i64>) -> (res: String)
    ensures
        res@ == option_i64_spec(value),
{
    match value {
        Some(v) => string_of(crate::text::i64_dec(v).as_slice()),
        None => "None".to_string(),
    }
}

// ---------------------------------------------------------------------------
// Sizes in megabytes
// ---------------------------------------------------------------------------

/// The power of two that `u` is divided by to fit in 53 bits.
pub open spec fn f64_scale(u: nat) -> nat
    decreases u,
{
    if u < 0x20_0000_0000_0000 {
        1
    } else {
        2 * f64_scale(u / 2)
    }
}

/// `q` rounded up by a remainder `r` out of `2 * half`: above half up,
/// exactly half to even.
pub open spec fn round_half_even(q: nat, r: nat, half: nat) -> nat {
    if r > half || (r == half && q % 2 == 1) {
        q + 1
    } else {
        q
    }
}

/// `u` as the nearest `f64` holds it (53 significant bits, ties to even).
pub open spec fn as_f64(u: nat) -> nat {
    let p = f64_scale(u);
    if p == 1 {
        u
    } else {
        round_half_even(u / p, u % p, p / 2) * p
    }
}

/// Hundredths of a mebibyte in `bytes`, rounded as `{:.2}` rounds the
/// `f64` quotient `bytes / 1024 / 1024` (exact halves to even).
pub open spec fn mib_hundredths(bytes: u64) -> nat {
    let f = as_f64(bytes as nat) * 100;
    round_half_even(f / 0x10_0000, f % 0x10_0000, 0x8_0000)
}

/// `{:.2}` of `bytes / 1024 / 1024` as an `f64`.
pub open spec fn mib_text(bytes: u64) -> Seq<char> {
    let h = mib_hundredths(bytes);
    dec_nat(h / 100) + "."@ + zero_padded((h % 100) as int, 2)
}

fn round_half_even_exec(q: u128, r: u128, half: u128) -> (res: u128)
    requires
        q < u128::MAX,
    ensures
        res == round_half_even(q as nat, r as nat, half as nat),
{
    if r > half || (r == half && q % 2 == 1) {
        q + 1
    } else {
        q
    }
}

fn mib_hundredths_exec(bytes: u64) -> (res: u128)
    ensures
        res == mib_hundredths(bytes),
        res <= 0x1_0000_0000_0000_0000,
{
    let u: u128 = bytes as u128;
    let mut q: u128 = u;
    let mut p: u128 = 1;
    while q >= 0x20_0000_0000_0000
        invariant
            1 <= p <= u + 1,
            q == u / p,
            u == bytes,
            f64_scale(u as nat) == p * f64_scale(q as nat),
        decreases q,
    {
        proof {
            vstd::arithmetic::div_mod::lemma_div_denominator(u as int, p as int, 2);
            assert(f64_scale(q as nat) == 2 * f64_scale((q / 2) as nat));
            assert(p * f64_scale(q as nat) == (p * 2) * f64_scale((q / 2) as nat)) by (nonlinear_arith)
                requires
                    f64_scale(q as nat) == 2 * f64_scale((q / 2) as nat),
            ;
            assert(p * 2 <= u) by (nonlinear_arith)
                requires
                    q == u / p,
                    q >= 2,
                    p >= 1,
            ;
        }
        q = q / 2;
        p = p * 2;
    }
    assert(f64_scale(q as nat) == 1);
    assert(p == f64_scale(u as nat)) by (nonlinear_arith)
        requires
            f64_scale(q as nat) == 1,
            f64_scale(u as nat) == p * f64_scale(q as nat),
    ;
    let f: u128 = if p == 1 {
        u
    } else {
        assert(q == u / p);
        assert(q < 0x20_0000_0000_0000);
        let r = round_half_even_exec(q, u % p, p / 2);
        assert(r * p <= u + p) by (nonlinear_arith)
            requires
                r <= q + 1,
                q == u / p,
                p >= 1,
        ;
        r * p
    };
    assert(f == as_f64(u as nat));
    assert(f <= 2 * 0x1_0000_0000_0000_0000);
    let g = f * 100;
    round_half_even_exec(g / 0x10_0000, g % 0x10_0000, 0x8_0000)
}

/// `{:.2}` of `bytes / 1024 / 1024`.
fn mib(bytes: u64) -> (res: Vec<char>)
    ensures
        res@ == mib_text(bytes),
{
    let h = mib_hundredths_exec(bytes);
    let whole = h / 100;
    let part = h % 100;
    let mut out = crate::text::u64_dec(whole as u64);
    out.push('.');
    crate::text::push_zero_padded(&mut out, part as i64, 2);
    proof {
        reveal_strlit(".");
    }
    assert(out@ =~= mib_text(bytes));
    out
}

// ---------------------------------------------------------------------------
// Users and notes
// ---------------------------------------------------------------------------

/// A line `label: value`, the label left-aligned in 17 characters.
pub open spec fn field_line(label: Seq<char>, value: Seq<char>) -> Seq<char> {
    pad_right_spec(label, 17) + ": "@ + value + "\n"@
}

fn push_field(out: &mut Vec<char>, label: &str, value: &[char])
    ensures
        final(out)@ == old(out)@ + field_line(label@, value@),
{
    let l = chars_of(label);
    push_all(out, crate::text::pad_right(l.as_slice(), 17).as_slice());
    push_str(out, ": ");
    push_all(out, value);
    out.push('\n');
    proof {
        reveal_strlit("\n");
    }
    assert(out@ =~= old(out)@ + field_line(label@, value@));
}

/// The text of `user`: name and email, and with `full_info` the upload
/// limit in megabytes, its end and the time zone.
pub open spec fn show_user_spec(user: UserInfoView, full_info: bool, tz_offset: int) -> Seq<char> {
    let head = separator_spec('#', "USER INFO"@) + field_line("Username"@, user.username) + field_line(
        "Name"@,
        user.name,
    ) + field_line("Email"@, user.email);
    if full_info {
        head + field_line("Upload limit"@, mib_text(user.accounting.upload_limit) + " MB"@) + field_line(
            "Upload limit end"@,
            print_date_spec(user.accounting.upload_limit_end, tz_offset),
        ) + field_line(
            "Timezone"@,
            match user.timezone {
                Some(z) => z,
                None => "None"@,
            },
        )
    } else {
        head
    }
}

pub fn show_user(user: &UserInfo, full_info: bool, tz_offset: i64) -> (res: String)
    requires
        full_info ==> date_fits(user.accounting.upload_limit_end, tz_offset as int),
    ensures
        res@ == show_user_spec(user@, full_info, tz_offset as int),
{
    let mut out = chars_of(separator('#', "USER INFO").as_str());
    push_field(&mut out, "Username", chars_of(user.username.as_str()).as_slice());
    push_field(&mut out, "Name", chars_of(user.name.as_str()).as_slice());
    push_field(&mut out, "Email", chars_of(user.email.as_str()).as_slice());
    if full_info {
        let mut limit = mib(user.accounting.upload_limit);
        push_str(&mut limit, " MB");
        push_field(&mut out, "Upload limit", limit.as_slice());
        let end = print_date(user.accounting.upload_limit_end, tz_offset);
        push_field(&mut out, "Upload limit end", chars_of(end.as_str()).as_slice());
        let tz = match &user.timezone {
            Some(z) => chars_of(z.as_str()),
            None => chars_of("None"),
        };
        push_field(&mut out, "Timezone", tz.as_slice());
    }
    string_of(out.as_slice())
}

/// `s` with its first `p` replaced by `r`.
pub open spec fn replace_first_spec(s: Seq<char>, p: Seq<char>, r: Seq<char>) -> Seq<char> {
    match find_spec(s, p) {
        Some(i) => s.take(i) + r + s.skip(i + p.len()),
        None => s,
    }
}

fn replace_first(s: &[char], p: &str, r: &[char]) -> (res: Vec<char>)
    ensures
        res@ == replace_first_spec(s@, p@, r@),
{
    let pv = chars_of(p);
    match crate::text::find(s, pv.as_slice()) {
        Some(i) => {
            let mut out = crate::text::slice_to_vec(s, 0, i);
            push_all(&mut out, r);
            push_all(&mut out, crate::text::slice_to_vec(s, i + pv.len(), s.len()).as_slice());
            assert(out@ =~= replace_first_spec(s@, p@, r@));
            out
        },
        None => crate::text::slice_to_vec(s, 0, s.len()),
    }
}

/// The note's link: the first three `%s` of the link pattern filled with
/// the shard, the user id and the note's GUID.
pub open spec fn note_link_spec(link: Seq<char>, shard_id: Seq<char>, user_id: i64, guid: Seq<char>) -> Seq<char> {
    replace_first_spec(
        replace_first_spec(replace_first_spec(link, "%s"@, shard_id), "%s"@, dec_int(user_id as int)),
        "%s"@,
        guid,
    )
}

/// The app link of a note: `evernote:///view/<user>/<shard>/<guid>/<guid>/`.
pub open spec fn app_link_spec(user_id: i64, shard_id: Seq<char>, guid: Seq<char>) -> Seq<char> {
    "evernote:///view/"@ + dec_int(user_id as int) + "/"@ + shard_id + "/"@ + guid + "/"@ + guid + "/"@
}

/// The links of a note in `note show`: the app link, then the shard link of
/// the web client (the link pattern filled in).
pub open spec fn links_section(note: NoteView, user_id: i64, shard_id: Seq<char>, link: Seq<char>) -> Seq<char> {
    separator_spec('#', "URL"@) + "NoteLink: "@ + app_link_spec(user_id, shard_id, note.guid) + "\n"@
        + "WebClientURL: "@ + note_link_spec(link, shard_id, user_id, note.guid) + "\n"@
}

pub open spec fn head_lines(title: Seq<char>, notebook: Option<Seq<char>>) -> Seq<char> {
    separator_spec('#', "TITLE"@) + title + "\n"@ + separator_spec('=', "META"@) + "Notebook: "@ + (
    match notebook {
        Some(n) => n,
        None => Seq::empty(),
    }) + "\n"@
}

pub open spec fn tags_line(tags: Seq<Seq<char>>) -> Seq<char> {
    if tags.len() > 0 {
        "Tags: "@ + join_spec(tags, ", "@) + "\n"@
    } else {
        Seq::empty()
    }
}

pub open spec fn dates_lines(created: Option<i64>, updated: Option<i64>, tz_offset: int) -> Seq<char> {
    "Created: "@ + print_date_spec(created, tz_offset) + "\n"@ + "Updated: "@ + print_date_spec(updated, tz_offset)
        + "\n"@
}

pub open spec fn url_line(url: Option<Seq<char>>) -> Seq<char> {
    match url {
        Some(u) => "sourceURL: "@ + u + "\n"@,
        None => Seq::empty(),
    }
}

/// The title and metadata lines of `note show`.
pub open spec fn meta_lines(
    title: Seq<char>,
    notebook: Option<Seq<char>>,
    tags: Seq<Seq<char>>,
    created: Option<i64>,
    updated: Option<i64>,
    url: Option<Seq<char>>,
    tz_offset: int,
) -> Seq<char> {
    head_lines(title, notebook) + tags_line(tags) + dates_lines(created, updated, tz_offset) + url_line(url)
}

/// The title and metadata of a note in `note show`.
pub open spec fn meta_section(note: NoteView, tz_offset: int) -> Seq<char> {
    meta_lines(
        note.title,
        note.notebook_name,
        note.tag_names,
        note.created,
        note.updated,
        note.attributes.source_url,
        tz_offset,
    )
}

/// The heading above the reminders in `note show`: fifteen bars, the word,
/// seventeen bars.
pub open spec fn reminders_heading() -> Seq<char> {
    repeat_spec('|', 15) + " REMINDERS "@ + repeat_spec('|', 17) + "\n"@
}

/// The heading above the content in `note show`: sixteen dashes, the word,
/// seventeen dashes.
pub open spec fn content_heading() -> Seq<char> {
    repeat_spec('-', 16) + " CONTENT "@ + repeat_spec('-', 17) + "\n"@
}

/// The reminder of a note in `note show`.
pub open spec fn reminders_section(note: NoteView, tz_offset: int) -> Seq<char> {
    reminders_heading() + "Order: "@ + option_i64_spec(note.attributes.reminder_order) + "\n"@
        + "Time: "@ + print_date_spec(note.attributes.reminder_time, tz_offset) + "\n"@ + "Done: "@
        + print_date_spec(note.attributes.reminder_done_time, tz_offset) + "\n"@
}

/// The text of `note show`: links, title, metadata, reminders, then the
/// content as Markdown.
pub open spec fn show_note_spec(
    note: NoteView,
    user_id: i64,
    shard_id: Seq<char>,
    link: Seq<char>,
    tz_offset: int,
) -> Seq<char> {
    links_section(note, user_id, shard_id, link) + meta_section(note, tz_offset) + reminders_section(
        note,
        tz_offset,
    ) + content_heading() + enml_to_text_spec(
        note.content,
        TextFormat::Markdown,
        false,
        None,
        Seq::empty(),
        false,
        None,
    )
}

/// The dates of a note can be shown.
pub open spec fn note_dates_fit(note: NoteView, tz_offset: int) -> bool {
    &&& date_fits(note.created, tz_offset)
    &&& date_fits(note.updated, tz_offset)
    &&& date_fits(note.attributes.reminder_time, tz_offset)
    &&& date_fits(note.attributes.reminder_done_time, tz_offset)
}

/// Whether every date of `note` can be shown.
pub fn note_dates_in_range(note: &Note, tz_offset: i64) -> (b: bool)
    ensures
        b == note_dates_fit(note@, tz_offset as int),
{
    timestamp_in_range(note.created, tz_offset) && timestamp_in_range(note.updated, tz_offset)
        && timestamp_in_range(note.attributes.reminder_time, tz_offset) && timestamp_in_range(
        note.attributes.reminder_done_time,
        tz_offset,
    )
}

fn push_line(out: &mut Vec<char>, label: &str, value: &str)
    ensures
        final(out)@ == old(out)@ + label@ + value@ + "\n"@,
{
    push_str(out, label);
    push_str(out, value);
    out.push('\n');
    proof {
        reveal_strlit("\n");
    }
    assert(out@ =~= old(out)@ + label@ + value@ + "\n"@);
}

/// `items` joined with `sep`.
pub fn join_strings(items: &[String], sep: &str) -> (res: String)
    ensures
        res@ == join_spec(string_views(items@), sep@),
{
    let mut parts: Vec<Vec<char>> = Vec::new();
    let mut i: usize = 0;
    while i < items.len()
        invariant
            i <= items.len(),
            parts@.len() == i,
            views(parts@) == string_views(items@).take(i as int),
        decreases items.len() - i,
    {
        let ghost prev = parts@;
        parts.push(chars_of(items[i].as_str()));
        assert(views(parts@) =~= string_views(items@).take(i + 1)) by {
            assert forall|q: int| 0 <= q < i implies parts@[q] == prev[q] by {}
        }
        i += 1;
    }
    assert(string_views(items@).take(i as int) =~= string_views(items@));
    string_of(crate::text::join(&parts, chars_of(sep).as_slice()).as_slice())
}

fn push_links(out: &mut Vec<char>, note: &Note, user_id: i64, shard_id: &str, config: &Config)
    ensures
        final(out)@ == old(out)@ + links_section(note@, user_id, shard_id@, config.note_link@),
{
    let user = crate::text::i64_dec(user_id);
    let shard = chars_of(shard_id);
    let guid = chars_of(note.guid.as_str());
    let link0 = chars_of(config.note_link.as_str());
    let link1 = replace_first(link0.as_slice(), "%s", shard.as_slice());
    let link2 = replace_first(link1.as_slice(), "%s", user.as_slice());
    let link3 = replace_first(link2.as_slice(), "%s", guid.as_slice());
    proof {
        reveal_strlit("%s");
    }
    let mut app: Vec<char> = chars_of("evernote:///view/");
    push_all(&mut app, user.as_slice());
    push_str(&mut app, "/");
    push_all(&mut app, shard.as_slice());
    push_str(&mut app, "/");
    push_all(&mut app, guid.as_slice());
    push_str(&mut app, "/");
    push_all(&mut app, guid.as_slice());
    push_str(&mut app, "/");
    assert(app@ =~= app_link_spec(user_id, shard_id@, note.guid@));
    push_str(out, separator('#', "URL").as_str());
    push_line(out, "NoteLink: ", string_of(app.as_slice()).as_str());
    push_line(out, "WebClientURL: ", string_of(link3.as_slice()).as_str());
    assert(out@ =~= old(out)@ + links_section(note@, user_id, shard_id@, config.note_link@));
}

fn push_meta_head(out: &mut Vec<char>, title: &str, notebook: &Option<String>)
    ensures
        final(out)@ == old(out)@ + head_lines(title@, opt_str(*notebook)),
{
    push_str(out, separator('#', "TITLE").as_str());
    push_line(out, "", title);
    push_str(out, separator('=', "META").as_str());
    let nb = match notebook {
        Some(x) => x.clone(),
        None => String::new(),
    };
    push_line(out, "Notebook: ", nb.as_str());
    proof {
        reveal_strlit("");
    }
    assert(out@ =~= old(out)@ + head_lines(title@, opt_str(*notebook)));
}

fn push_tags(out: &mut Vec<char>, tags: &Vec<String>)
    ensures
        final(out)@ == old(out)@ + tags_line(string_views(tags@)),
{
    if tags.len() > 0 {
        push_line(out, "Tags: ", join_strings(tags.as_slice(), ", ").as_str());
    }
    assert(out@ =~= old(out)@ + tags_line(string_views(tags@)));
}

fn push_url(out: &mut Vec<char>, url: &Option<String>)
    ensures
        final(out)@ == old(out)@ + url_line(opt_str(*url)),
{
    if let Some(u) = url {
        push_line(out, "sourceURL: ", u.as_str());
    }
    assert(out@ =~= old(out)@ + url_line(opt_str(*url)));
}

fn push_meta(
    out: &mut Vec<char>,
    title: &str,
    notebook: &Option<String>,
    tags: &Vec<String>,
    created: Option<i64>,
    updated: Option<i64>,
    url: &Option<String>,
    tz_offset: i64,
)
    requires
        date_fits(created, tz_offset as int),
        date_fits(updated, tz_offset as int),
    ensures
        final(out)@ == old(out)@ + meta_lines(
            title@,
            opt_str(*notebook),
            string_views(tags@),
            created,
            updated,
            opt_str(*url),
            tz_offset as int,
        ),
{
    let ghost o = old(out)@;
    let ghost h = head_lines(title@, opt_str(*notebook));
    let ghost t = tags_line(string_views(tags@));
    let ghost d = dates_lines(created, updated, tz_offset as int);
    push_meta_head(out, title, notebook);
    push_tags(out, tags);
    let c = print_date(created, tz_offset);
    let u = print_date(updated, tz_offset);
    let ghost before_dates = out@;
    push_line(out, "Created: ", c.as_str());
    push_line(out, "Updated: ", u.as_str());
    assert(out@ =~= before_dates + d);
    push_url(out, url);
    assert(out@ =~= old(out)@ + meta_lines(
        title@,
        opt_str(*notebook),
        string_views(tags@),
        created,
        updated,
        opt_str(*url),
        tz_offset as int,
    ));
}

fn push_reminders(out: &mut Vec<char>, note: &Note, tz_offset: i64)
    requires
        note_dates_fit(note@, tz_offset as int),
    ensures
        final(out)@ == old(out)@ + reminders_section(note@, tz_offset as int),
{
    push_repeat(out, '|', 15);
    push_str(out, " REMINDERS ");
    push_repeat(out, '|', 17);
    push_str(out, "\n");
    assert(out@ =~= old(out)@ + reminders_heading());
    push_line(out, "Order: ", option_i64(note.attributes.reminder_order).as_str());
    push_line(out, "Time: ", print_date(note.attributes.reminder_time, tz_offset).as_str());
    push_line(out, "Done: ", print_date(note.attributes.reminder_done_time, tz_offset).as_str());
    assert(out@ =~= old(out)@ + reminders_section(note@, tz_offset as int));
}

fn push_content_heading(out: &mut Vec<char>)
    ensures
        final(out)@ == old(out)@ + content_heading(),
{
    push_repeat(out, '-', 16);
    push_str(out, " CONTENT ");
    push_repeat(out, '-', 17);
    push_str(out, "\n");
    assert(out@ =~= old(out)@ + content_heading());
}

pub fn show_note(note: &Note, user_id: i64, shard_id: &str, config: &Config, tz_offset: i64) -> (res: String)
    requires
        en_note_ok(note.content@),
        note_dates_fit(note@, tz_offset as int),
    ensures
        res@ == show_note_spec(
            note@,
            user_id,
            shard_id@,
            config.note_link@,
            tz_offset as int,
        ),
{
    let ghost n = note@;
    let ghost l = links_section(n, user_id, shard_id@, config.note_link@);
    let ghost m = meta_section(n, tz_offset as int);
    let ghost r = reminders_section(n, tz_offset as int);
    let ghost c = content_heading() + enml_to_text_spec(
        n.content,
        TextFormat::Markdown,
        false,
        None,
        Seq::empty(),
        false,
        None,
    );
    let mut out: Vec<char> = Vec::new();
    push_links(&mut out, note, user_id, shard_id, config);
    assert(out@ =~= l);
    push_meta(
        &mut out,
        note.title.as_str(),
        &note.notebook_name,
        &note.tag_names,
        note.created,
        note.updated,
        &note.attributes.source_url,
        tz_offset,
    );
    assert(out@ == l + m);
    push_reminders(&mut out, note, tz_offset);
    assert(out@ == l + m + r);
    let body = crate::editor::enml_to_text(note.content.as_str());
    push_content_heading(&mut out);
    push_str(&mut out, body.as_str());
    assert(out@ =~= l + m + r + c);
    string_of(out.as_slice())
}

/// The text of `note show` in a terminal: the links, title, metadata and
/// reminders of the note (its content left out), then its content as styled
/// terminal text, showing the images that were `rendered`.
pub open spec fn show_note_terminal_spec(
    note: NoteView,
    user_id: i64,
    shard_id: Seq<char>,
    link: Seq<char>,
    tz_offset: int,
    resources: Seq<crate::models::Resource>,
    rendered: Option<Seq<Option<String>>>,
) -> Seq<char> {
    show_note_spec(NoteView { content: Seq::empty(), ..note }, user_id, shard_id, link, tz_offset)
        + enml_to_text_spec(note.content, TextFormat::Markdown, false, None, resources, true, rendered)
}

/// `note show` in a terminal.
pub fn show_note_terminal(
    note: &Note,
    user_id: i64,
    shard_id: &str,
    config: &Config,
    tz_offset: i64,
    rendered: Option<&Vec<Option<String>>>,
) -> (res: String)
    requires
        en_note_ok(note.content@),
        note_dates_fit(note@, tz_offset as int),
        rendered matches Some(r) ==> paths_ok(r@),
    ensures
        res@ == show_note_terminal_spec(
            note@,
            user_id,
            shard_id@,
            config.note_link@,
            tz_offset as int,
            note.resources@,
            match rendered {
                Some(r) => Some(r@),
                None => None,
            },
        ),
{
    let mut header = note.duplicate();
    header.content = String::new();
    assert(header@ == NoteView { content: Seq::empty(), ..note@ });
    proof {
        reveal_strlit("<en-note>");
    }
    assert(crate::text::find_spec(header.content@, "<en-note>"@) is None);
    let head = show_note(&header, user_id, shard_id, config, tz_offset);
    let body = enml_to_terminal_text_with_options(note.content.as_str(), note.resources.as_slice(), rendered);
    let mut out = chars_of(head.as_str());
    push_str(&mut out, body.as_str());
    string_of(out.as_slice())
}

// ---------------------------------------------------------------------------
// Listings
// ---------------------------------------------------------------------------

pub open spec fn item_created(item: ListItem) -> Option<i64> {
    match item {
        ListItem::Note(n) => n.created,
        _ => None,
    }
}

pub open spec fn item_updated(item: ListItem) -> Option<i64> {
    match item {
        ListItem::Note(n) => n.updated,
        _ => None,
    }
}

pub open spec fn item_notebook(item: ListItem) -> Option<Seq<char>> {
    match item {
        ListItem::Note(n) => opt_str(n.notebook_name),
        _ => None,
    }
}

/// ` #tag` for each tag.
pub open spec fn hash_tags(tags: Seq<Seq<char>>) -> Seq<char>
    decreases tags.len(),
{
    if tags.len() == 0 {
        Seq::empty()
    } else {
        hash_tags(tags.drop_last()) + " #"@ + tags.last()
    }
}

/// The number of a line, right-aligned in three places, or the GUID.
pub open spec fn marker_cell(index: int, item: ListItem, options: ListOptions) -> Seq<char> {
    if options.show_guid {
        item.guid_spec()
    } else {
        crate::text::pad_left_spec(dec_nat((index + 1) as nat), 3)
    }
}

/// A number below 1000 takes at most three digits.
proof fn lemma_dec_nat_short(n: nat)
    requires
        n < 1000,
    ensures
        dec_nat(n).len() <= 3,
{
    if n >= 10 {
        let m = n / 10;
        assert(dec_nat(n).len() == dec_nat(m).len() + 1);
        if m >= 10 {
            let q = m / 10;
            assert(q < 10);
            assert(dec_nat(m).len() == dec_nat(q).len() + 1);
            assert(dec_nat(q).len() == 1);
        } else {
            assert(dec_nat(m).len() == 1);
        }
    } else {
        assert(dec_nat(n).len() == 1);
    }
}

/// Without GUIDs, the line of the item at `index` (counting from 0) starts
/// with its number `index + 1`, right-aligned (in three places while it has
/// at most three digits) and followed by ` : `; so the numbers of a listing
/// run from 1, and none is the 0 of the cancel entry.
pub proof fn lemma_list_line_number(index: int, item: ListItem, options: ListOptions, webclient: Seq<char>, tz_offset: int)
    requires
        0 <= index < usize::MAX,
        !options.show_guid,
    ensures
        exists|k: int|
            0 < k && k + 3 <= list_line(index, item, options, webclient, tz_offset).len() && parse_usize_spec(
                crate::text::trim_ws(#[trigger] list_line(index, item, options, webclient, tz_offset).take(k)),
            ) == Some((index + 1) as usize) && list_line(index, item, options, webclient, tz_offset).subrange(k, k + 3)
                == " : "@ && (index + 1 < 1000 ==> k == 3),
{
    reveal_strlit(" : ");
    let line = list_line(index, item, options, webclient, tz_offset);
    let d = dec_nat((index + 1) as nat);
    crate::persistence::lemma_dec_nat_digits((index + 1) as nat);
    crate::persistence::lemma_parse_dec_usize((index + 1) as usize);
    let pad = crate::text::pad_left_spec(d, 3);
    let sp = pad.len() - d.len();
    assert(marker_cell(index, item, options) == pad);
    let k = pad.len() as int;
    assert(line.take(k) =~= pad);
    assert(line.subrange(k, k + 3) =~= " : "@);
    assert forall|q: int| 0 <= q < pad.len() implies (q < sp ==> crate::text::is_ws(#[trigger] pad[q])) && (q >= sp
        ==> !crate::text::is_ws(pad[q])) by {
        if q >= sp {
            assert(pad[q] == d[q - sp]);
            assert(crate::text::is_digit(d[q - sp]));
        }
    }
    let (i, j) = crate::text::lemma_trim_bounds(pad, CharClass::Whitespace);
    if j < pad.len() {
        assert(crate::text::in_class(pad[pad.len() - 1], CharClass::Whitespace));
    }
    assert(j == pad.len());
    if i > sp {
        assert(crate::text::in_class(pad[sp], CharClass::Whitespace));
    }
    assert(i == sp);
    assert(pad.subrange(i, j) =~= d);
    if index + 1 < 1000 {
        lemma_dec_nat_short((index + 1) as nat);
    }
}

/// A date in a column of 11 characters, if there is one.
pub open spec fn date_cell(t: Option<i64>, tz_offset: int) -> Seq<char> {
    match t {
        Some(x) => pad_right_spec(print_date_spec(Some(x), tz_offset), 11),
        None => Seq::empty(),
    }
}

pub open spec fn notebook_cell(item: ListItem, options: ListOptions) -> Seq<char> {
    if options.show_notebook {
        match item_notebook(item) {
            Some(n) => pad_right_spec(n, 18),
            None => Seq::empty(),
        }
    } else {
        Seq::empty()
    }
}

pub open spec fn tags_cell(item: ListItem, options: ListOptions) -> Seq<char> {
    if options.show_tags && item.tag_guids_spec().len() > 0 {
        hash_tags(string_views(item.tag_guids_spec()))
    } else {
        Seq::empty()
    }
}

pub open spec fn url_cell(item: ListItem, options: ListOptions, webclient: Seq<char>) -> Seq<char> {
    if options.show_url {
        " >>> "@ + replace_spec(webclient, "%s"@, item.guid_spec())
    } else {
        Seq::empty()
    }
}

/// The line of the `index`-th item of a listing.
pub open spec fn list_line(index: int, item: ListItem, options: ListOptions, webclient: Seq<char>, tz_offset: int) -> Seq<char> {
    marker_cell(index, item, options) + " : "@ + date_cell(item_created(item), tz_offset) + date_cell(
        item_updated(item),
        tz_offset,
    ) + notebook_cell(item, options) + item.title_spec() + tags_cell(item, options) + url_cell(item, options, webclient)
        + "\n"@
}

/// The lines of the items.
pub open spec fn list_lines(items: Seq<ListItem>, options: ListOptions, webclient: Seq<char>, tz_offset: int) -> Seq<char>
    decreases items.len(),
{
    if items.len() == 0 {
        Seq::empty()
    } else {
        list_lines(items.drop_last(), options, webclient, tz_offset) + list_line(
            items.len() - 1,
            items.last(),
            options,
            webclient,
            tz_offset,
        )
    }
}

/// `""` for one, `"s"` for any other number.
pub open spec fn plural(n: int) -> Seq<char> {
    if n == 1 { Seq::empty() } else { "s"@ }
}

/// A listing: the title as a separator, the count, a line per item, and the
/// line to cancel a selection.
pub open spec fn print_list_spec(
    items: Seq<ListItem>,
    title: Seq<char>,
    options: ListOptions,
    webclient: Seq<char>,
    tz_offset: int,
) -> Seq<char> {
    (if title.len() > 0 { separator_spec('=', title) } else { Seq::empty() }) + "Found "@ + dec_nat(items.len())
        + " item"@ + plural(items.len() as int) + "\n"@ + list_lines(items, options, webclient, tz_offset) + (
    if options.show_selector {
        "  0 : -Cancel-\n"@
    } else {
        Seq::empty()
    })
}

/// The dates of every item can be shown.
pub open spec fn items_dates_fit(items: Seq<ListItem>, tz_offset: int) -> bool {
    forall|i: int| 0 <= i < items.len() ==> date_fits(item_created(#[trigger] items[i]), tz_offset) && date_fits(
        item_updated(items[i]),
        tz_offset,
    )
}

/// Every date can be shown at a time-zone shift of at most 2^62 seconds
/// either way, and so at every shift that `tz_offset_for` gives.
pub proof fn lemma_dates_fit_small_offset(items: Seq<ListItem>, tz_offset: int)
    requires
        -0x4000_0000_0000_0000 <= tz_offset <= 0x4000_0000_0000_0000,
    ensures
        items_dates_fit(items, tz_offset),
{
    assert forall|o: Option<i64>| #[trigger] date_fits(o, tz_offset) by {
        if let Some(t) = o {
            assert(-0x4000_0000_0000_0000 <= (t as int) / 1000 <= 0x4000_0000_0000_0000) by (nonlinear_arith)
                requires
                    i64::MIN <= t <= i64::MAX,
            ;
        }
    }
}

/// Whether every date of `items` can be shown.
pub fn items_dates_in_range(items: &[ListItem], tz_offset: i64) -> (b: bool)
    ensures
        b == items_dates_fit(items@, tz_offset as int),
{
    let mut i: usize = 0;
    while i < items.len()
        invariant
            i <= items.len(),
            items_dates_fit(items@.take(i as int), tz_offset as int),
        decreases items.len() - i,
    {
        let (created, updated) = match &items[i] {
            ListItem::Note(n) => (n.created, n.updated),
            _ => (None, None),
        };
        assert(created == item_created(items@[i as int]) && updated == item_updated(items@[i as int]));
        if !timestamp_in_range(created, tz_offset) || !timestamp_in_range(updated, tz_offset) {
            assert(!date_fits(item_created(items@[i as int]), tz_offset as int) || !date_fits(
                item_updated(items@[i as int]),
                tz_offset as int,
            ));
            return false;
        }
        assert forall|j: int| 0 <= j < i + 1 implies date_fits(
            item_created(#[trigger] items@.take(i + 1)[j]),
            tz_offset as int,
        ) && date_fits(item_updated(items@.take(i + 1)[j]), tz_offset as int) by {
            if j < i {
                assert(items@.take(i + 1)[j] == items@.take(i as int)[j]);
            }
        }
        i += 1;
    }
    assert(items@.take(i as int) =~= items@);
    true
}

fn push_date_cell(out: &mut Vec<char>, t: Option<i64>, tz_offset: i64)
    requires
        date_fits(t, tz_offset as int),
    ensures
        final(out)@ == old(out)@ + date_cell(t, tz_offset as int),
{
    if let Some(x) = t {
        let d = print_date(Some(x), tz_offset);
        push_all(out, crate::text::pad_right(chars_of(d.as_str()).as_slice(), 11).as_slice());
    }
    assert(out@ =~= old(out)@ + date_cell(t, tz_offset as int));
}

fn push_tags_cell(out: &mut Vec<char>, item: &ListItem, options: ListOptions)
    ensures
        final(out)@ == old(out)@ + tags_cell(*item, options),
{
    let tags = item.tag_guids();
    if options.show_tags && tags.len() > 0 {
        let mut i: usize = 0;
        while i < tags.len()
            invariant
                i <= tags.len(),
                tags@ == item.tag_guids_spec(),
                out@ == old(out)@ + hash_tags(string_views(tags@).take(i as int)),
            decreases tags.len() - i,
        {
            push_str(out, " #");
            push_str(out, tags[i].as_str());
            assert(string_views(tags@).take(i + 1).drop_last() =~= string_views(tags@).take(i as int));
            i += 1;
        }
        assert(string_views(tags@).take(i as int) =~= string_views(tags@));
    }
    assert(out@ =~= old(out)@ + tags_cell(*item, options));
}

fn push_list_line(out: &mut Vec<char>, index: usize, item: &ListItem, options: ListOptions, config: &Config, tz_offset: i64)
    requires
        index < usize::MAX,
        date_fits(item_created(*item), tz_offset as int),
        date_fits(item_updated(*item), tz_offset as int),
    ensures
        final(out)@ == old(out)@ + list_line(index as int, *item, options, config.note_webclient_url@, tz_offset as int),
{
    let ghost o = old(out)@;
    let mut line: Vec<char> = Vec::new();
    if options.show_guid {
        let g = item.guid();
        push_str(&mut line, g.unwrap());
    } else {
        push_all(&mut line, crate::text::pad_left(crate::text::usize_dec(index + 1).as_slice(), 3).as_slice());
    }
    push_str(&mut line, " : ");
    let ghost l1 = line@;
    push_date_cell(&mut line, item.created(), tz_offset);
    push_date_cell(&mut line, item.updated(), tz_offset);
    if options.show_notebook {
        if let Some(n) = item.notebook_name() {
            push_all(&mut line, crate::text::pad_right(chars_of(n).as_slice(), 18).as_slice());
        }
    }
    let ghost l2 = line@;
    assert(l2 =~= l1 + date_cell(item_created(*item), tz_offset as int) + date_cell(item_updated(*item), tz_offset as int)
        + notebook_cell(*item, options));
    push_str(&mut line, item.title());
    push_tags_cell(&mut line, item, options);
    proof {
        reveal_strlit("%s");
        reveal_strlit("\n");
    }
    if options.show_url {
        let g = item.guid().unwrap();
        push_str(&mut line, " >>> ");
        let u = crate::text::replace_str(chars_of(config.note_webclient_url.as_str()).as_slice(), "%s", g);
        push_all(&mut line, u.as_slice());
    }
    line.push('\n');
    assert(line@ =~= list_line(index as int, *item, options, config.note_webclient_url@, tz_offset as int));
    push_all(out, line.as_slice());
}

fn push_list_lines(out: &mut Vec<char>, items: &[ListItem], options: ListOptions, config: &Config, tz_offset: i64)
    requires
        items_dates_fit(items@, tz_offset as int),
    ensures
        final(out)@ == old(out)@ + list_lines(items@, options, config.note_webclient_url@, tz_offset as int),
{
    let mut i: usize = 0;
    while i < items.len()
        invariant
            i <= items.len(),
            items_dates_fit(items@, tz_offset as int),
            out@ == old(out)@ + list_lines(items@.take(i as int), options, config.note_webclient_url@, tz_offset as int),
        decreases items.len() - i,
    {
        let ghost before = out@;
        assert(date_fits(item_created(items@[i as int]), tz_offset as int));
        push_list_line(out, i, &items[i], options, config, tz_offset);
        assert(items@.take(i + 1).drop_last() =~= items@.take(i as int));
        assert(out@ =~= old(out)@ + list_lines(items@.take(i + 1), options, config.note_webclient_url@, tz_offset as int));
        i += 1;
    }
    assert(items@.take(i as int) =~= items@);
}

pub fn print_list(items: &[ListItem], title: &str, options: ListOptions, config: &Config, tz_offset: i64) -> (res: String)
    requires
        items_dates_fit(items@, tz_offset as int),
    ensures
        res@ == print_list_spec(items@, title@, options, config.note_webclient_url@, tz_offset as int),
{
    let mut out: Vec<char> = Vec::new();
    if chars_of(title).len() > 0 {
        push_str(&mut out, separator('=', title).as_str());
    }
    push_str(&mut out, "Found ");
    push_all(&mut out, crate::text::usize_dec(items.len()).as_slice());
    push_str(&mut out, " item");
    if items.len() != 1 {
        out.push('s');
    }
    out.push('\n');
    proof {
        reveal_strlit("s");
        reveal_strlit("\n");
    }
    let ghost head = out@;
    assert(head =~= (if title@.len() > 0 { separator_spec('=', title@) } else { Seq::empty() }) + "Found "@ + dec_nat(
        items@.len(),
    ) + " item"@ + plural(items@.len() as int) + "\n"@);
    push_list_lines(&mut out, items, options, config, tz_offset);
    if options.show_selector {
        push_str(&mut out, "  0 : -Cancel-\n");
    }
    assert(out@ =~= print_list_spec(items@, title@, options, config.note_webclient_url@, tz_offset as int));
    string_of(out.as_slice())
}

/// The text of a search: the request, then the listing of what it found.
pub fn search_result(items: &[ListItem], request: &str, options: ListOptions, config: &Config, tz_offset: i64) -> (res: String)
    requires
        items_dates_fit(items@, tz_offset as int),
    ensures
        res@ == "Search request: "@ + request@ + "\n"@ + print_list_spec(
            items@,
            Seq::empty(),
            options,
            config.note_webclient_url@,
            tz_offset as int,
        ),
{
    let mut out = chars_of("Search request: ");
    push_str(&mut out, request);
    out.push('\n');
    push_str(&mut out, print_list(items, "", options, config, tz_offset).as_str());
    proof {
        reveal_strlit("\n");
        reveal_strlit("");
    }
    assert(out@ =~= "Search request: "@ + request@ + "\n"@ + print_list_spec(
        items@,
        Seq::empty(),
        options,
        config.note_webclient_url@,
        tz_offset as int,
    ));
    string_of(out.as_slice())
}

// ---------------------------------------------------------------------------
// Duplicates
// ---------------------------------------------------------------------------

/// The notes of each group.
pub open spec fn group_note_views(groups: Seq<DuplicateGroup>) -> Seq<Seq<NoteView>> {
    groups.map_values(|g: DuplicateGroup| note_views(g.notes@))
}

/// The number of notes in all the groups.
pub open spec fn total_len(groups: Seq<Seq<NoteView>>) -> nat
    decreases groups.len(),
{
    if groups.len() == 0 {
        0
    } else {
        total_len(groups.drop_last()) + groups.last().len()
    }
}

/// The line of a note in the preview of `dedup`.
pub open spec fn dedup_note_line(n: NoteView, tz_offset: int) -> Seq<char> {
    n.guid + " : created "@ + print_date_spec(n.created, tz_offset) + " updated "@ + print_date_spec(n.updated, tz_offset)
        + "\n"@
}

pub open spec fn dedup_note_lines(notes: Seq<NoteView>, tz_offset: int) -> Seq<char>
    decreases notes.len(),
{
    if notes.len() == 0 {
        Seq::empty()
    } else {
        dedup_note_lines(notes.drop_last(), tz_offset) + dedup_note_line(notes.last(), tz_offset)
    }
}

/// Each group under the title of its first note.
pub open spec fn dedup_groups_text(groups: Seq<Seq<NoteView>>, tz_offset: int) -> Seq<char>
    decreases groups.len(),
{
    if groups.len() == 0 {
        Seq::empty()
    } else {
        dedup_groups_text(groups.drop_last(), tz_offset) + separator_spec('=', groups.last()[0].title)
            + dedup_note_lines(groups.last(), tz_offset)
    }
}

/// The preview of `dedup`: the counts, that nothing was deleted, and each
/// group.
pub open spec fn dedup_preview_spec(groups: Seq<Seq<NoteView>>, total_notes: int, tz_offset: int) -> Seq<char> {
    let d = total_len(groups) as int;
    "Found "@ + dec_nat(groups.len()) + " duplicate group"@ + plural(groups.len() as int) + " containing "@ + dec_nat(
        d as nat,
    ) + " note"@ + plural(d) + " within "@ + dec_nat(total_notes as nat) + " total note"@ + plural(total_notes)
        + ".\n"@ + "No notes were deleted.\n"@ + dedup_groups_text(groups, tz_offset)
}

/// Every group has a note, and every note's dates can be shown.
pub open spec fn dedup_groups_ok(groups: Seq<Seq<NoteView>>, tz_offset: int) -> bool {
    forall|i: int| 0 <= i < groups.len() ==> (#[trigger] groups[i]).len() > 0 && forall|j: int|
        0 <= j < groups[i].len() ==> date_fits((#[trigger] groups[i][j]).created, tz_offset) && date_fits(
            groups[i][j].updated,
            tz_offset,
        )
}

proof fn lemma_total_len_prefix(groups: Seq<Seq<NoteView>>, i: int)
    requires
        0 <= i <= groups.len(),
    ensures
        total_len(groups.take(i)) <= total_len(groups),
    decreases groups.len(),
{
    if i < groups.len() {
        assert(groups.drop_last().take(i) =~= groups.take(i));
        lemma_total_len_prefix(groups.drop_last(), i);
    } else {
        assert(groups.take(i) =~= groups);
    }
}

fn push_dedup_notes(out: &mut Vec<char>, notes: &Vec<Note>, tz_offset: i64)
    requires
        forall|j: int| 0 <= j < notes@.len() ==> date_fits((#[trigger] notes@[j]).created, tz_offset as int) && date_fits(
            notes@[j].updated,
            tz_offset as int,
        ),
    ensures
        final(out)@ == old(out)@ + dedup_note_lines(note_views(notes@), tz_offset as int),
{
    let mut i: usize = 0;
    while i < notes.len()
        invariant
            i <= notes.len(),
            forall|j: int| 0 <= j < notes@.len() ==> date_fits((#[trigger] notes@[j]).created, tz_offset as int) && date_fits(
                notes@[j].updated,
                tz_offset as int,
            ),
            out@ == old(out)@ + dedup_note_lines(note_views(notes@).take(i as int), tz_offset as int),
        decreases notes.len() - i,
    {
        let n = &notes[i];
        let mut line = chars_of(n.guid.as_str());
        push_str(&mut line, " : created ");
        push_str(&mut line, print_date(n.created, tz_offset).as_str());
        push_str(&mut line, " updated ");
        push_str(&mut line, print_date(n.updated, tz_offset).as_str());
        line.push('\n');
        proof {
            reveal_strlit("\n");
        }
        assert(note_views(notes@)[i as int] == n@);
        assert(line@ =~= dedup_note_line(n@, tz_offset as int));
        push_all(out, line.as_slice());
        assert(note_views(notes@).take(i + 1).drop_last() =~= note_views(notes@).take(i as int));
        i += 1;
    }
    assert(note_views(notes@).take(i as int) =~= note_views(notes@));
}

pub fn dedup_preview(groups: &[DuplicateGroup], total_notes: usize, tz_offset: i64) -> (res: String)
    requires
        dedup_groups_ok(group_note_views(groups@), tz_offset as int),
        total_len(group_note_views(groups@)) <= usize::MAX,
    ensures
        res@ == dedup_preview_spec(group_note_views(groups@), total_notes as int, tz_offset as int),
{
    let ghost gv = group_note_views(groups@);
    let mut dup: usize = 0;
    let mut i: usize = 0;
    while i < groups.len()
        invariant
            i <= groups.len(),
            gv == group_note_views(groups@),
            total_len(gv) <= usize::MAX,
            dup == total_len(gv.take(i as int)),
        decreases groups.len() - i,
    {
        proof {
            assert(gv.take(i + 1).drop_last() =~= gv.take(i as int));
            assert(gv[i as int].len() == groups@[i as int].notes@.len());
            lemma_total_len_prefix(gv, i + 1);
        }
        dup = dup + groups[i].notes.len();
        i += 1;
    }
    assert(gv.take(i as int) =~= gv);
    let mut out = chars_of("Found ");
    push_all(&mut out, crate::text::usize_dec(groups.len()).as_slice());
    push_str(&mut out, " duplicate group");
    if groups.len() != 1 {
        out.push('s');
    }
    push_str(&mut out, " containing ");
    push_all(&mut out, crate::text::usize_dec(dup).as_slice());
    push_str(&mut out, " note");
    if dup != 1 {
        out.push('s');
    }
    push_str(&mut out, " within ");
    push_all(&mut out, crate::text::usize_dec(total_notes).as_slice());
    push_str(&mut out, " total note");
    if total_notes != 1 {
        out.push('s');
    }
    push_str(&mut out, ".\n");
    push_str(&mut out, "No notes were deleted.\n");
    proof {
        reveal_strlit("s");
    }
    let ghost head = out@;
    assert(head =~= "Found "@ + dec_nat(gv.len()) + " duplicate group"@ + plural(gv.len() as int) + " containing "@
        + dec_nat(total_len(gv)) + " note"@ + plural(total_len(gv) as int) + " within "@ + dec_nat(total_notes as nat)
        + " total note"@ + plural(total_notes as int) + ".\n"@ + "No notes were deleted.\n"@);
    let mut g: usize = 0;
    while g < groups.len()
        invariant
            g <= groups.len(),
            gv == group_note_views(groups@),
            dedup_groups_ok(gv, tz_offset as int),
            out@ == head + dedup_groups_text(gv.take(g as int), tz_offset as int),
        decreases groups.len() - g,
    {
        let notes = &groups[g].notes;
        assert(gv[g as int] == note_views(notes@));
        assert(gv[g as int].len() > 0);
        assert(note_views(notes@)[0] == notes@[0]@);
        push_str(&mut out, separator('=', notes[0].title.as_str()).as_str());
        proof {
            assert forall|j: int| 0 <= j < notes@.len() implies date_fits((#[trigger] notes@[j]).created, tz_offset as int)
                && date_fits(notes@[j].updated, tz_offset as int) by {
                assert(gv[g as int][j] == notes@[j]@);
            }
        }
        push_dedup_notes(&mut out, notes, tz_offset);
        assert(gv.take(g + 1).drop_last() =~= gv.take(g as int));
        assert(out@ =~= head + dedup_groups_text(gv.take(g + 1), tz_offset as int));
        g += 1;
    }
    assert(gv.take(g as int) =~= gv);
    string_of(out.as_slice())
}

} // verus!
