use vstd::prelude::*;
use vstd::utf8::*;

verus! {

pub assume_specification[ std::string::String::push ](s: &mut std::string::String, ch: char)
    ensures
        final(s)@ == old(s)@.push(ch),
;

// ---------------------------------------------------------------------------
// Conversions between strings and character vectors
// ---------------------------------------------------------------------------

/// The characters of `s`, in order.
pub fn chars_of(s: &str) -> (res: Vec<char>)
    ensures
        res@ == s@,
{
    let mut res: Vec<char> = Vec::new();
    for c in it: s.chars()
        invariant
            res@ == it.seq().take(it.index() as int),
    {
        res.push(c);
    }
    assert(res@ =~= s@);
    res
}

/// A string holding exactly the characters of `v`.
pub fn string_of(v: &[char]) -> (res: String)
    ensures
        res@ == v@,
{
    let mut res = String::new();
    let mut i: usize = 0;
    while i < v.len()
        invariant
            i <= v.len(),
            res@ == v@.take(i as int),
        decreases v.len() - i,
    {
        res.push(v[i]);
        i += 1;
        assert(res@ =~= v@.take(i as int));
    }
    assert(v@.take(v.len() as int) =~= v@);
    res
}

/// Appends all of `more` to `out`.
pub fn push_all(out: &mut Vec<char>, more: &[char])
    ensures
        final(out)@ == old(out)@ + more@,
{
    let mut i: usize = 0;
    while i < more.len()
        invariant
            i <= more.len(),
            out@ == old(out)@ + more@.take(i as int),
        decreases more.len() - i,
    {
        out.push(more[i]);
        i += 1;
        assert(out@ =~= old(out)@ + more@.take(i as int));
    }
    assert(more@.take(more.len() as int) =~= more@);
}

/// Appends the characters of a string slice to `out`.
pub fn push_str(out: &mut Vec<char>, more: &str)
    ensures
        final(out)@ == old(out)@ + more@,
{
    let v = chars_of(more);
    push_all(out, v.as_slice());
}

/// A copy of the characters in `v[from..to]`.
pub fn slice_to_vec(v: &[char], from: usize, to: usize) -> (res: Vec<char>)
    requires
        from <= to <= v.len(),
    ensures
        res@ == v@.subrange(from as int, to as int),
{
    let mut res: Vec<char> = Vec::new();
    let mut i = from;
    while i < to
        invariant
            from <= i <= to,
            to <= v.len(),
            res@ == v@.subrange(from as int, i as int),
        decreases to - i,
    {
        res.push(v[i]);
        i += 1;
        assert(res@ =~= v@.subrange(from as int, i as int));
    }
    res
}

/// Whether two character sequences are equal.
pub fn chars_eq(a: &[char], b: &[char]) -> (res: bool)
    ensures
        res == (a@ == b@),
{
    if a.len() != b.len() {
        return false;
    }
    let mut i: usize = 0;
    while i < a.len()
        invariant
            i <= a.len(),
            a.len() == b.len(),
            forall|j: int| 0 <= j < i ==> a@[j] == b@[j],
        decreases a.len() - i,
    {
        if a[i] != b[i] {
            return false;
        }
        i += 1;
    }
    assert(a@ =~= b@);
    true
}

// ---------------------------------------------------------------------------
// Searching
// ---------------------------------------------------------------------------

/// `p` occurs in `s` at position `i`.
pub open spec fn matches_at(s: Seq<char>, i: int, p: Seq<char>) -> bool {
    0 <= i && i + p.len() <= s.len() && s.subrange(i, i + p.len()) == p
}

/// The first position at or after `i` where `p` occurs in `s`.
pub open spec fn find_from(s: Seq<char>, p: Seq<char>, i: int) -> Option<int>
    decreases s.len() + 1 - i,
{
    if i < 0 || i + p.len() > s.len() {
        None
    } else if matches_at(s, i, p) {
        Some(i)
    } else {
        find_from(s, p, i + 1)
    }
}

/// The first position where `p` occurs in `s`.
pub open spec fn find_spec(s: Seq<char>, p: Seq<char>) -> Option<int> {
    find_from(s, p, 0)
}

pub open spec fn contains_spec(s: Seq<char>, p: Seq<char>) -> bool {
    find_spec(s, p) is Some
}

pub open spec fn starts_with_spec(s: Seq<char>, p: Seq<char>) -> bool {
    matches_at(s, 0, p)
}

pub open spec fn ends_with_spec(s: Seq<char>, p: Seq<char>) -> bool {
    matches_at(s, s.len() - p.len(), p)
}

pub open spec fn opt_int(o: Option<usize>) -> Option<int> {
    match o {
        Some(j) => Some(j as int),
        None => None,
    }
}

/// What `find_from` returns: the first match at or after `i`.
pub proof fn lemma_find_from(s: Seq<char>, p: Seq<char>, i: int)
    requires
        i >= 0,
    ensures
        match find_from(s, p, i) {
            Some(j) => i <= j && matches_at(s, j, p) && forall|k: int|
                i <= k < j ==> !matches_at(s, k, p),
            None => forall|k: int| i <= k ==> !matches_at(s, k, p),
        },
    decreases s.len() + 1 - i,
{
    if i + p.len() > s.len() {
    } else if matches_at(s, i, p) {
    } else {
        lemma_find_from(s, p, i + 1);
    }
}

/// `p` is first found at the end of a text that does not hold its first
/// character.
pub proof fn lemma_find_after_free(a: Seq<char>, p: Seq<char>, b: Seq<char>)
    requires
        p.len() > 0,
        forall|i: int| 0 <= i < a.len() ==> a[i] != p[0],
    ensures
        find_spec(a + p + b, p) == Some(a.len() as int),
{
    let s = a + p + b;
    lemma_find_from(s, p, 0);
    assert(matches_at(s, a.len() as int, p)) by {
        assert(s.subrange(a.len() as int, (a.len() + p.len()) as int) =~= p);
    }
    assert forall|k: int| 0 <= k < a.len() implies !matches_at(s, k, p) by {
        if matches_at(s, k, p) {
            assert(s.subrange(k, k + p.len())[0] == s[k]);
        }
    }
}

/// Whether `p` occurs in `s` at position `i`.
pub fn match_at(s: &[char], i: usize, p: &[char]) -> (b: bool)
    ensures
        b == matches_at(s@, i as int, p@),
{
    if i > s.len() || p.len() > s.len() - i {
        return false;
    }
    let mut k: usize = 0;
    while k < p.len()
        invariant
            k <= p.len(),
            i + p.len() <= s.len(),
            forall|j: int| 0 <= j < k ==> s@[i + j] == p@[j],
        decreases p.len() - k,
    {
        if s[i + k] != p[k] {
            assert(s@.subrange(i as int, i + p.len())[k as int] != p@[k as int]);
            return false;
        }
        k += 1;
    }
    assert(s@.subrange(i as int, i + p@.len()) =~= p@);
    true
}

/// The first position at or after `from` where `p` occurs in `s`.
pub fn find_at(s: &[char], p: &[char], from: usize) -> (r: Option<usize>)
    ensures
        opt_int(r) == find_from(s@, p@, from as int),
        r matches Some(i) ==> from <= i && i + p@.len() <= s.len() && matches_at(s@, i as int, p@),
{
    proof {
        lemma_find_from(s@, p@, from as int);
    }
    let mut i = from;
    while i <= s.len() && p.len() <= s.len() - i
        invariant
            from <= i,
            find_from(s@, p@, from as int) == find_from(s@, p@, i as int),
        decreases s.len() + 1 - i,
    {
        if match_at(s, i, p) {
            return Some(i);
        }
        if i == s.len() {
            assert(find_from(s@, p@, i as int + 1) is None);
            return None;
        }
        i += 1;
    }
    None
}

/// The first position of `p` in `s`.
pub fn find(s: &[char], p: &[char]) -> (r: Option<usize>)
    ensures
        opt_int(r) == find_spec(s@, p@),
        r matches Some(i) ==> i + p@.len() <= s.len() && matches_at(s@, i as int, p@),
{
    proof {
        lemma_find_from(s@, p@, 0);
    }
    find_at(s, p, 0)
}

/// Whether `p` occurs in `s`.
pub fn contains(s: &[char], p: &[char]) -> (b: bool)
    ensures
        b == contains_spec(s@, p@),
{
    find(s, p).is_some()
}

/// Whether `s` starts with `p`.
pub fn starts_with(s: &[char], p: &[char]) -> (b: bool)
    ensures
        b == starts_with_spec(s@, p@),
{
    match_at(s, 0, p)
}

/// Whether `s` ends with `p`.
pub fn ends_with(s: &[char], p: &[char]) -> (b: bool)
    ensures
        b == ends_with_spec(s@, p@),
{
    if p.len() > s.len() {
        false
    } else {
        match_at(s, s.len() - p.len(), p)
    }
}

/// The last position where `p` occurs in `s` (searching from the end).
pub open spec fn rfind_before(s: Seq<char>, p: Seq<char>, i: int) -> Option<int>
    decreases i + 1,
{
    if i < 0 {
        None
    } else if matches_at(s, i, p) {
        Some(i)
    } else {
        rfind_before(s, p, i - 1)
    }
}

pub open spec fn rfind_spec(s: Seq<char>, p: Seq<char>) -> Option<int> {
    rfind_before(s, p, s.len() - p.len())
}

/// The last position of `p` in `s`.
pub fn rfind(s: &[char], p: &[char]) -> (r: Option<usize>)
    ensures
        opt_int(r) == rfind_spec(s@, p@),
{
    if p.len() > s.len() {
        return None;
    }
    let mut i = s.len() - p.len();
    loop
        invariant
            i + p.len() <= s.len(),
            rfind_spec(s@, p@) == rfind_before(s@, p@, i as int),
        decreases i,
    {
        if match_at(s, i, p) {
            return Some(i);
        }
        if i == 0 {
            assert(rfind_before(s@, p@, -1) is None);
            return None;
        }
        i -= 1;
    }
}

// ---------------------------------------------------------------------------
// Replacing
// ---------------------------------------------------------------------------

/// `s` with every non-overlapping occurrence of `p`, scanned from the left,
/// replaced by `r`.
pub open spec fn replace_spec(s: Seq<char>, p: Seq<char>, r: Seq<char>) -> Seq<char>
    decreases s.len(),
{
    if s.len() == 0 {
        Seq::empty()
    } else if p.len() > 0 && matches_at(s, 0, p) {
        r + replace_spec(s.skip(p.len() as int), p, r)
    } else {
        seq![s[0]] + replace_spec(s.skip(1), p, r)
    }
}

pub proof fn lemma_matches_skip(s: Seq<char>, i: int, p: Seq<char>)
    requires
        0 <= i <= s.len(),
    ensures
        matches_at(s.skip(i), 0, p) == matches_at(s, i, p),
{
    if i + p.len() <= s.len() {
        assert(s.skip(i).subrange(0, p.len() as int) =~= s.subrange(i, i + p.len()));
    }
}

/// Replaces every occurrence of `p` in `s` by `r`.
pub fn replace_all(s: &[char], p: &[char], r: &[char]) -> (res: Vec<char>)
    requires
        p.len() > 0,
    ensures
        res@ == replace_spec(s@, p@, r@),
{
    let mut out: Vec<char> = Vec::new();
    let mut i: usize = 0;
    assert(s@.skip(0) =~= s@);
    while i < s.len()
        invariant
            i <= s.len(),
            p.len() > 0,
            replace_spec(s@, p@, r@) == out@ + replace_spec(s@.skip(i as int), p@, r@),
        decreases s.len() - i,
    {
        proof {
            lemma_matches_skip(s@, i as int, p@);
        }
        if match_at(s, i, p) {
            assert(s@.skip(i as int).skip(p.len() as int) =~= s@.skip(i + p.len()));
            push_all(&mut out, r);
            i += p.len();
        } else {
            assert(s@.skip(i as int).skip(1) =~= s@.skip(i + 1));
            assert(s@.skip(i as int)[0] == s@[i as int]);
            out.push(s[i]);
            i += 1;
        }
    }
    assert(s@.skip(i as int) =~= Seq::<char>::empty());
    assert(out@ + Seq::<char>::empty() =~= out@);
    out
}

/// Replaces every occurrence of the string `p` in `s` by the string `r`.
pub fn replace_str(s: &[char], p: &str, r: &str) -> (res: Vec<char>)
    requires
        p@.len() > 0,
    ensures
        res@ == replace_spec(s@, p@, r@),
{
    let pv = chars_of(p);
    let rv = chars_of(r);
    replace_all(s, pv.as_slice(), rv.as_slice())
}


// ---------------------------------------------------------------------------
// Character classes and trimming
// ---------------------------------------------------------------------------

/// Unicode `White_Space` characters, which `char::is_whitespace` accepts.
pub open spec fn is_ws(c: char) -> bool {
    ||| ('\t' <= c && c <= '\r')
    ||| c == ' '
    ||| c == '\u{85}'
    ||| c == '\u{a0}'
    ||| c == '\u{1680}'
    ||| ('\u{2000}' <= c && c <= '\u{200a}')
    ||| c == '\u{2028}'
    ||| c == '\u{2029}'
    ||| c == '\u{202f}'
    ||| c == '\u{205f}'
    ||| c == '\u{3000}'
}

pub fn is_whitespace(c: char) -> (b: bool)
    ensures
        b == is_ws(c),
{
    ('\t' <= c && c <= '\r') || c == ' ' || c == '\u{85}' || c == '\u{a0}' || c == '\u{1680}' || (
    '\u{2000}' <= c && c <= '\u{200a}') || c == '\u{2028}' || c == '\u{2029}' || c == '\u{202f}'
        || c == '\u{205f}' || c == '\u{3000}'
}

/// Sets of characters that the library trims from strings.
#[derive(Clone, Copy, Debug, PartialEq, Eq)]
pub enum CharClass {
    /// Unicode white space.
    Whitespace,
    /// Space, tab, newline, carriage return and both quote characters.
    Wrapping,
    /// Quotes, braces and dots around a code fence language.
    FenceLanguage,
    /// One given character.
    Single(char),
}

pub open spec fn in_class(c: char, cls: CharClass) -> bool {
    match cls {
        CharClass::Whitespace => is_ws(c),
        CharClass::Wrapping => c == ' ' || c == '\t' || c == '\n' || c == '\r' || c == '"' || c
            == '\'',
        CharClass::FenceLanguage => c == '"' || c == '\'' || c == '{' || c == '}' || c == '.',
        CharClass::Single(x) => c == x,
    }
}

pub fn is_in_class(c: char, cls: CharClass) -> (b: bool)
    ensures
        b == in_class(c, cls),
{
    match cls {
        CharClass::Whitespace => is_whitespace(c),
        CharClass::Wrapping => c == ' ' || c == '\t' || c == '\n' || c == '\r' || c == '"' || c
            == '\'',
        CharClass::FenceLanguage => c == '"' || c == '\'' || c == '{' || c == '}' || c == '.',
        CharClass::Single(x) => c == x,
    }
}

/// `s` without its leading characters of class `cls`.
pub open spec fn trim_start_spec(s: Seq<char>, cls: CharClass) -> Seq<char>
    decreases s.len(),
{
    if s.len() > 0 && in_class(s[0], cls) {
        trim_start_spec(s.skip(1), cls)
    } else {
        s
    }
}

/// `s` without its trailing characters of class `cls`.
pub open spec fn trim_end_spec(s: Seq<char>, cls: CharClass) -> Seq<char>
    decreases s.len(),
{
    if s.len() > 0 && in_class(s.last(), cls) {
        trim_end_spec(s.drop_last(), cls)
    } else {
        s
    }
}

/// `s` without leading and trailing characters of class `cls`.
pub open spec fn trim_spec(s: Seq<char>, cls: CharClass) -> Seq<char> {
    trim_end_spec(trim_start_spec(s, cls), cls)
}

/// `str::trim`: `s` without leading and trailing white space.
pub open spec fn trim_ws(s: Seq<char>) -> Seq<char> {
    trim_spec(s, CharClass::Whitespace)
}

/// Where the text that remains after trimming the start of `s[from..]` begins.
pub fn trim_start_index(s: &[char], from: usize, cls: CharClass) -> (r: usize)
    requires
        from <= s.len(),
    ensures
        from <= r <= s.len(),
        trim_start_spec(s@.skip(from as int), cls) == s@.skip(r as int),
{
    let mut i = from;
    while i < s.len() && is_in_class(s[i], cls)
        invariant
            from <= i <= s.len(),
            trim_start_spec(s@.skip(from as int), cls) == trim_start_spec(s@.skip(i as int), cls),
        decreases s.len() - i,
    {
        assert(s@.skip(i as int).skip(1) =~= s@.skip(i + 1));
        i += 1;
    }
    i
}

/// Where the text that remains after trimming the end of `s[..to]` ends.
pub fn trim_end_index(s: &[char], to: usize, cls: CharClass) -> (r: usize)
    requires
        to <= s.len(),
    ensures
        r <= to,
        trim_end_spec(s@.take(to as int), cls) == s@.take(r as int),
{
    let mut j = to;
    while j > 0 && is_in_class(s[j - 1], cls)
        invariant
            j <= to <= s.len(),
            trim_end_spec(s@.take(to as int), cls) == trim_end_spec(s@.take(j as int), cls),
        decreases j,
    {
        assert(s@.take(j as int).drop_last() =~= s@.take(j - 1));
        j -= 1;
    }
    j
}

pub proof fn lemma_trim_start_of_suffix_len(s: Seq<char>, cls: CharClass)
    ensures
        trim_start_spec(s, cls).len() <= s.len(),
    decreases s.len(),
{
    if s.len() > 0 && in_class(s[0], cls) {
        lemma_trim_start_of_suffix_len(s.skip(1), cls);
    }
}

/// Trimming the end keeps a prefix, whose last character (if any) is not of
/// the class.
pub proof fn lemma_trim_end_prefix(t: Seq<char>, cls: CharClass)
    ensures
        trim_end_spec(t, cls).len() <= t.len(),
        trim_end_spec(t, cls) == t.take(trim_end_spec(t, cls).len() as int),
        trim_end_spec(t, cls).len() > 0 ==> !in_class(trim_end_spec(t, cls).last(), cls),
    decreases t.len(),
{
    if t.len() > 0 && in_class(t.last(), cls) {
        lemma_trim_end_prefix(t.drop_last(), cls);
        let u = trim_end_spec(t.drop_last(), cls);
        assert(t.drop_last().take(u.len() as int) =~= t.take(u.len() as int));
    } else {
        assert(t.take(t.len() as int) =~= t);
    }
}

proof fn lemma_trim_start_at(s: Seq<char>, cls: CharClass) -> (i: int)
    ensures
        0 <= i <= s.len(),
        trim_start_spec(s, cls) == s.skip(i),
        forall|k: int| 0 <= k < i ==> in_class(#[trigger] s[k], cls),
        i < s.len() ==> !in_class(s[i], cls),
    decreases s.len(),
{
    if s.len() > 0 && in_class(s[0], cls) {
        let i = lemma_trim_start_at(s.skip(1), cls);
        assert(s.skip(1).skip(i) =~= s.skip(i + 1));
        assert forall|k: int| 0 <= k < i + 1 implies in_class(#[trigger] s[k], cls) by {
            if k > 0 {
                assert(s[k] == s.skip(1)[k - 1]);
            }
        }
        i + 1
    } else {
        assert(s.skip(0) =~= s);
        0
    }
}

proof fn lemma_trim_end_at(t: Seq<char>, cls: CharClass) -> (j: int)
    ensures
        0 <= j <= t.len(),
        trim_end_spec(t, cls) == t.take(j),
        forall|k: int| j <= k < t.len() ==> in_class(#[trigger] t[k], cls),
        j > 0 ==> !in_class(t[j - 1], cls),
    decreases t.len(),
{
    if t.len() > 0 && in_class(t.last(), cls) {
        let j = lemma_trim_end_at(t.drop_last(), cls);
        assert(t.drop_last().take(j) =~= t.take(j));
        assert forall|k: int| j <= k < t.len() implies in_class(#[trigger] t[k], cls) by {
            if k < t.len() - 1 {
                assert(t[k] == t.drop_last()[k]);
            }
        }
        j
    } else {
        assert(t.take(t.len() as int) =~= t);
        t.len() as int
    }
}

/// Trimming keeps the part of `s` from its first character not of the class
/// to its last such character (nothing where there is none): the characters
/// cut off at either end are all of the class, those kept inside are kept
/// whatever they are.
pub proof fn lemma_trim_bounds(s: Seq<char>, cls: CharClass) -> (r: (int, int))
    ensures
        0 <= r.0 <= r.1 <= s.len(),
        trim_spec(s, cls) == s.subrange(r.0, r.1),
        forall|k: int| 0 <= k < r.0 ==> in_class(#[trigger] s[k], cls),
        forall|k: int| r.1 <= k < s.len() ==> in_class(#[trigger] s[k], cls),
        r.0 < r.1 ==> !in_class(s[r.0], cls) && !in_class(s[r.1 - 1], cls),
{
    let i = lemma_trim_start_at(s, cls);
    let t = s.skip(i);
    let j = lemma_trim_end_at(t, cls);
    assert(t.take(j) =~= s.subrange(i, i + j));
    assert forall|k: int| i + j <= k < s.len() implies in_class(#[trigger] s[k], cls) by {
        assert(s[k] == t[k - i]);
    }
    if j > 0 {
        assert(t[0] == s[i]);
        assert(t[j - 1] == s[i + j - 1]);
    }
    (i, i + j)
}

/// Trimming what was trimmed changes nothing.
pub proof fn lemma_trim_idempotent(s: Seq<char>, cls: CharClass)
    ensures
        trim_spec(trim_spec(s, cls), cls) == trim_spec(s, cls),
{
    let t = trim_start_spec(s, cls);
    let u = trim_end_spec(t, cls);
    lemma_trim_start_first(s, cls);
    lemma_trim_end_prefix(t, cls);
    if u.len() > 0 {
        assert(u[0] == t[0]);
    }
    assert(trim_start_spec(u, cls) == u);
    assert(trim_end_spec(u, cls) == u);
}

/// Trims characters of class `cls` from both ends of `s`.
pub fn trim_class(s: &[char], cls: CharClass) -> (res: Vec<char>)
    ensures
        res@ == trim_spec(s@, cls),
{
    let start = trim_start_index(s, 0, cls);
    assert(s@.skip(0) =~= s@);
    let rest = slice_to_vec(s, start, s.len());
    assert(rest@ =~= s@.skip(start as int));
    let end = trim_end_index(rest.as_slice(), rest.len(), cls);
    assert(rest@.take(rest.len() as int) =~= rest@);
    slice_to_vec(rest.as_slice(), 0, end)
}

/// Trims characters of class `cls` from the start of `s`.
pub fn trim_start_class(s: &[char], cls: CharClass) -> (res: Vec<char>)
    ensures
        res@ == trim_start_spec(s@, cls),
{
    let start = trim_start_index(s, 0, cls);
    assert(s@.skip(0) =~= s@);
    let res = slice_to_vec(s, start, s.len());
    assert(res@ =~= s@.skip(start as int));
    res
}

/// Trims characters of class `cls` from the end of `s`.
pub fn trim_end_class(s: &[char], cls: CharClass) -> (res: Vec<char>)
    ensures
        res@ == trim_end_spec(s@, cls),
{
    let end = trim_end_index(s, s.len(), cls);
    assert(s@.take(s.len() as int) =~= s@);
    slice_to_vec(s, 0, end)
}

/// `str::trim`.
pub fn trim(s: &[char]) -> (res: Vec<char>)
    ensures
        res@ == trim_ws(s@),
{
    trim_class(s, CharClass::Whitespace)
}

/// Whether `s` holds only white space.
pub open spec fn is_blank(s: Seq<char>) -> bool {
    forall|i: int| 0 <= i < s.len() ==> is_ws(s[i])
}

pub proof fn lemma_blank_iff_trim_empty(s: Seq<char>)
    ensures
        is_blank(s) <==> trim_start_spec(s, CharClass::Whitespace).len() == 0,
    decreases s.len(),
{
    if s.len() > 0 {
        lemma_blank_iff_trim_empty(s.skip(1));
        if is_ws(s[0]) {
            assert(is_blank(s) ==> is_blank(s.skip(1)));
            assert(is_blank(s.skip(1)) ==> is_blank(s)) by {
                if is_blank(s.skip(1)) {
                    assert forall|i: int| 0 <= i < s.len() implies is_ws(s[i]) by {
                        if i > 0 {
                            assert(s[i] == s.skip(1)[i - 1]);
                        }
                    }
                }
            }
        }
    }
}

pub proof fn lemma_trim_empty_iff_blank(s: Seq<char>)
    ensures
        is_blank(s) <==> trim_ws(s).len() == 0,
{
    lemma_blank_iff_trim_empty(s);
    let t = trim_start_spec(s, CharClass::Whitespace);
    lemma_trim_start_first(s, CharClass::Whitespace);
    lemma_trim_end_empty(t);
}

pub proof fn lemma_trim_start_first(s: Seq<char>, cls: CharClass)
    ensures
        trim_start_spec(s, cls).len() > 0 ==> !in_class(trim_start_spec(s, cls)[0], cls),
    decreases s.len(),
{
    if s.len() > 0 && in_class(s[0], cls) {
        lemma_trim_start_first(s.skip(1), cls);
    }
}

proof fn lemma_trim_end_empty(t: Seq<char>)
    ensures
        (trim_end_spec(t, CharClass::Whitespace).len() == 0) <==> (t.len() == 0 || is_blank(t)),
        t.len() > 0 && !is_ws(t[0]) ==> trim_end_spec(t, CharClass::Whitespace).len() > 0,
    decreases t.len(),
{
    if t.len() > 0 && is_ws(t.last()) {
        lemma_trim_end_empty(t.drop_last());
        if is_blank(t.drop_last()) {
            assert forall|i: int| 0 <= i < t.len() implies is_ws(t[i]) by {
                if i < t.len() - 1 {
                    assert(t[i] == t.drop_last()[i]);
                }
            }
        }
        if is_blank(t) {
            assert forall|i: int| 0 <= i < t.drop_last().len() implies is_ws(t.drop_last()[i]) by {
                assert(t[i] == t.drop_last()[i]);
            }
        }
        if t.len() > 1 && !is_ws(t[0]) {
            assert(t.drop_last()[0] == t[0]);
        }
    } else if t.len() > 0 {
        assert(!is_ws(t[t.len() - 1]));
    }
}

/// Whether `s` holds only white space (`s.trim().is_empty()`).
pub fn blank(s: &[char]) -> (b: bool)
    ensures
        b == is_blank(s@),
        b == (trim_ws(s@).len() == 0),
{
    proof {
        lemma_trim_empty_iff_blank(s@);
    }
    let mut i: usize = 0;
    while i < s.len()
        invariant
            i <= s.len(),
            forall|j: int| 0 <= j < i ==> is_ws(s@[j]),
        decreases s.len() - i,
    {
        if !is_whitespace(s[i]) {
            assert(!is_ws(s@[i as int]));
            proof {
                lemma_trim_empty_iff_blank(s@);
            }
            return false;
        }
        i += 1;
    }
    true
}


// ---------------------------------------------------------------------------
// Splitting
// ---------------------------------------------------------------------------

/// The texts of a list of strings.
pub open spec fn string_views(v: Seq<String>) -> Seq<Seq<char>> {
    v.map_values(|x: String| x@)
}

pub open spec fn views(v: Seq<Vec<char>>) -> Seq<Seq<char>> {
    v.map_values(|x: Vec<char>| x@)
}

/// `str::split` with a non-empty pattern: the pieces between occurrences of `p`.
pub open spec fn split_spec(s: Seq<char>, p: Seq<char>) -> Seq<Seq<char>>
    decreases s.len(),
{
    if p.len() == 0 {
        seq![s]
    } else {
        match find_spec(s, p) {
            None => seq![s],
            Some(j) => if 0 <= j && j + p.len() <= s.len() {
                seq![s.take(j)] + split_spec(s.skip(j + p.len()), p)
            } else {
                seq![s]
            },
        }
    }
}

/// A split has at least one piece.
pub proof fn lemma_split_nonempty(s: Seq<char>, p: Seq<char>)
    ensures
        split_spec(s, p).len() >= 1,
{
}

/// Splits `s` at every occurrence of `p`.
pub fn split(s: &[char], p: &[char]) -> (res: Vec<Vec<char>>)
    requires
        p.len() > 0,
    ensures
        views(res@) == split_spec(s@, p@),
{
    let mut out: Vec<Vec<char>> = Vec::new();
    let mut start: usize = 0;
    assert(s@.skip(0) =~= s@);
    loop
        invariant
            start <= s.len(),
            p.len() > 0,
            split_spec(s@, p@) == views(out@) + split_spec(s@.skip(start as int), p@),
        decreases s.len() - start,
    {
        let rest = slice_to_vec(s, start, s.len());
        assert(rest@ =~= s@.skip(start as int));
        match find(rest.as_slice(), p) {
            None => {
                proof {
                    assert(views(out@.push(rest)) =~= views(out@) + seq![rest@]);
                }
                out.push(rest);
                return out;
            },
            Some(j) => {
                proof {
                    lemma_find_from(rest@, p@, 0);
                }
                let piece = slice_to_vec(rest.as_slice(), 0, j);
                assert(rest@.skip(j + p.len()) =~= s@.skip(start + j + p.len()));
                proof {
                    assert(views(out@.push(piece)) =~= views(out@) + seq![piece@]);
                }
                out.push(piece);
                start = start + j + p.len();
            },
        }
    }
}

/// Splits `s` at every occurrence of the string `p`.
pub fn split_str(s: &[char], p: &str) -> (res: Vec<Vec<char>>)
    requires
        p@.len() > 0,
    ensures
        views(res@) == split_spec(s@, p@),
{
    let pv = chars_of(p);
    split(s, pv.as_slice())
}

/// `str::split_once`: the text before and after the first occurrence of `p`.
pub open spec fn split_once_spec(s: Seq<char>, p: Seq<char>) -> Option<(Seq<char>, Seq<char>)> {
    match find_spec(s, p) {
        Some(j) => Some((s.take(j), s.skip(j + p.len()))),
        None => None,
    }
}

pub fn split_once(s: &[char], p: &[char]) -> (res: Option<(Vec<char>, Vec<char>)>)
    ensures
        match res {
            Some((a, b)) => split_once_spec(s@, p@) == Some((a@, b@)),
            None => split_once_spec(s@, p@) is None,
        },
{
    match find(s, p) {
        None => None,
        Some(j) => {
            proof {
                lemma_find_from(s@, p@, 0);
                assert(find_from(s@, p@, 0) == Some(j as int));
                assert(matches_at(s@, j as int, p@));
            }
            let a = slice_to_vec(s, 0, j);
            let b = slice_to_vec(s, j + p.len(), s.len());
            assert(a@ =~= s@.take(j as int));
            assert(b@ =~= s@.skip(j + p.len()));
            Some((a, b))
        },
    }
}

/// One line as `str::lines` yields it: a trailing carriage return is dropped.
pub open spec fn strip_cr(s: Seq<char>) -> Seq<char> {
    if s.len() > 0 && s.last() == '\r' {
        s.drop_last()
    } else {
        s
    }
}

/// `str::lines`: the lines of `s`, each without its `\n` or `\r\n` ending; a final
/// line ending does not start another line.
pub open spec fn lines_spec(s: Seq<char>) -> Seq<Seq<char>>
    decreases s.len(),
{
    if s.len() == 0 {
        Seq::empty()
    } else {
        match find_spec(s, seq!['\n']) {
            None => seq![s],
            Some(j) => if 0 <= j < s.len() {
                seq![strip_cr(s.take(j))] + lines_spec(s.skip(j + 1))
            } else {
                seq![s]
            },
        }
    }
}

/// Splits `s` into lines like `str::lines`.
pub fn lines(s: &[char]) -> (res: Vec<Vec<char>>)
    ensures
        views(res@) == lines_spec(s@),
{
    let nl = vec!['\n'];
    let mut out: Vec<Vec<char>> = Vec::new();
    let mut start: usize = 0;
    assert(s@.skip(0) =~= s@);
    while start < s.len()
        invariant
            start <= s.len(),
            nl@ == seq!['\n'],
            lines_spec(s@) == views(out@) + lines_spec(s@.skip(start as int)),
        decreases s.len() - start,
    {
        let rest = slice_to_vec(s, start, s.len());
        assert(rest@ =~= s@.skip(start as int));
        match find(rest.as_slice(), nl.as_slice()) {
            None => {
                proof {
                    assert(views(out@.push(rest)) =~= views(out@) + seq![rest@]);
                    assert(s@.skip(s.len() as int) =~= Seq::<char>::empty());
                }
                out.push(rest);
                start = s.len();
            },
            Some(j) => {
                proof {
                    lemma_find_from(rest@, nl@, 0);
                }
                let mut end = j;
                if end > 0 && rest[end - 1] == '\r' {
                    end = end - 1;
                }
                let piece = slice_to_vec(rest.as_slice(), 0, end);
                assert(piece@ =~= strip_cr(rest@.take(j as int)));
                assert(rest@.skip(j + 1) =~= s@.skip(start + j + 1));
                proof {
                    assert(views(out@.push(piece)) =~= views(out@) + seq![piece@]);
                }
                out.push(piece);
                start = start + j + 1;
            },
        }
    }
    assert(s@.skip(start as int) =~= Seq::<char>::empty());
    assert(views(out@) + Seq::<Seq<char>>::empty() =~= views(out@));
    out
}

/// Joins `parts` with `sep` between them.
pub open spec fn join_spec(parts: Seq<Seq<char>>, sep: Seq<char>) -> Seq<char>
    decreases parts.len(),
{
    if parts.len() == 0 {
        Seq::empty()
    } else if parts.len() == 1 {
        parts[0]
    } else {
        join_spec(parts.drop_last(), sep) + sep + parts.last()
    }
}

/// Joins `parts` with `sep` between them.
pub fn join(parts: &Vec<Vec<char>>, sep: &[char]) -> (res: Vec<char>)
    ensures
        res@ == join_spec(views(parts@), sep@),
{
    let mut out: Vec<char> = Vec::new();
    let mut i: usize = 0;
    while i < parts.len()
        invariant
            i <= parts.len(),
            out@ == join_spec(views(parts@).take(i as int), sep@),
        decreases parts.len() - i,
    {
        if i > 0 {
            push_all(&mut out, sep);
        }
        push_all(&mut out, parts[i].as_slice());
        proof {
            let t = views(parts@).take(i + 1);
            assert(t.drop_last() =~= views(parts@).take(i as int));
            if i == 0 {
                assert(out@ =~= t[0]);
            }
        }
        i += 1;
    }
    assert(views(parts@).take(parts.len() as int) =~= views(parts@));
    out
}

// ---------------------------------------------------------------------------
// Numbers
// ---------------------------------------------------------------------------

pub open spec fn digit_char(d: int) -> char {
    if 0 <= d <= 9 {
        ('0' as int + d) as char
    } else {
        '0'
    }
}

/// Decimal digits of a natural number, without leading zeros.
pub open spec fn dec_nat(n: nat) -> Seq<char>
    decreases n,
{
    if n < 10 {
        seq![digit_char(n as int)]
    } else {
        dec_nat(n / 10) + seq![digit_char((n % 10) as int)]
    }
}

/// Decimal form of an integer, as `Display` writes it.
pub open spec fn dec_int(i: int) -> Seq<char> {
    if i < 0 {
        seq!['-'] + dec_nat((-i) as nat)
    } else {
        dec_nat(i as nat)
    }
}

fn digit(d: u64) -> (c: char)
    requires
        d <= 9,
    ensures
        c == digit_char(d as int),
{
    if d == 0 { '0' }
    else if d == 1 { '1' }
    else if d == 2 { '2' }
    else if d == 3 { '3' }
    else if d == 4 { '4' }
    else if d == 5 { '5' }
    else if d == 6 { '6' }
    else if d == 7 { '7' }
    else if d == 8 { '8' }
    else { '9' }
}

/// Decimal digits of `n`.
pub fn u64_dec(n: u64) -> (res: Vec<char>)
    ensures
        res@ == dec_nat(n as nat),
    decreases n,
{
    if n < 10 {
        vec![digit(n)]
    } else {
        let mut res = u64_dec(n / 10);
        res.push(digit(n % 10));
        res
    }
}

/// Decimal form of `n`, as `to_string` writes it.
pub fn i64_dec(n: i64) -> (res: Vec<char>)
    ensures
        res@ == dec_int(n as int),
{
    if n < 0 {
        let m: i128 = -(n as i128);
        let mut res = vec!['-'];
        let d = u64_dec(m as u64);
        push_all(&mut res, d.as_slice());
        res
    } else {
        u64_dec(n as u64)
    }
}

/// Decimal form of `n`, as `to_string` writes it.
pub fn usize_dec(n: usize) -> (res: Vec<char>)
    ensures
        res@ == dec_nat(n as nat),
{
    u64_dec(n as u64)
}

pub open spec fn is_digit(c: char) -> bool {
    '0' <= c && c <= '9'
}

pub open spec fn digit_value(c: char) -> int {
    c as int - '0' as int
}

pub open spec fn all_digits(s: Seq<char>) -> bool {
    forall|i: int| 0 <= i < s.len() ==> is_digit(s[i])
}

/// The value of a string of decimal digits.
pub open spec fn digits_value(s: Seq<char>) -> int
    decreases s.len(),
{
    if s.len() == 0 {
        0
    } else {
        digits_value(s.drop_last()) * 10 + digit_value(s.last())
    }
}

/// The integer that `str::parse` reads from `s`, before the range check of
/// the target type: an optional `+` (or `-` where `signed`), then one or more
/// decimal digits, nothing else.
pub open spec fn parse_int_spec(s: Seq<char>, signed: bool) -> Option<int> {
    if s.len() == 0 {
        None
    } else {
        let neg = signed && s[0] == '-';
        let digits = if s[0] == '+' || neg {
            s.skip(1)
        } else {
            s
        };
        if digits.len() == 0 || !all_digits(digits) {
            None
        } else if neg {
            Some(-digits_value(digits))
        } else {
            Some(digits_value(digits))
        }
    }
}

/// `str::parse::<i64>`.
pub open spec fn parse_i64_spec(s: Seq<char>) -> Option<i64> {
    match parse_int_spec(s, true) {
        Some(v) => if i64::MIN <= v <= i64::MAX {
            Some(v as i64)
        } else {
            None
        },
        None => None,
    }
}

/// `str::parse::<usize>`.
pub open spec fn parse_usize_spec(s: Seq<char>) -> Option<usize> {
    match parse_int_spec(s, false) {
        Some(v) => if 0 <= v <= usize::MAX {
            Some(v as usize)
        } else {
            None
        },
        None => None,
    }
}

pub proof fn lemma_digits_nonneg(s: Seq<char>)
    requires
        all_digits(s),
    ensures
        digits_value(s) >= 0,
    decreases s.len(),
{
    if s.len() > 0 {
        assert(all_digits(s.drop_last())) by {
            assert forall|i: int| 0 <= i < s.drop_last().len() implies is_digit(s.drop_last()[i]) by {
                assert(s.drop_last()[i] == s[i]);
            }
        }
        lemma_digits_nonneg(s.drop_last());
    }
}

pub proof fn lemma_digits_monotone(s: Seq<char>, i: int, j: int)
    requires
        all_digits(s),
        0 <= i <= j <= s.len(),
    ensures
        digits_value(s.take(i)) <= digits_value(s.take(j)),
    decreases j - i,
{
    if i < j {
        lemma_digits_monotone(s, i, j - 1);
        let t = s.take(j);
        assert(t.drop_last() =~= s.take(j - 1));
        let u = s.take(j - 1);
        assert(all_digits(u)) by {
            assert forall|k: int| 0 <= k < u.len() implies is_digit(#[trigger] u[k]) by {
                assert(u[k] == s[k]);
            }
        }
        lemma_digits_nonneg(s.take(j - 1));
        assert(is_digit(s[j - 1]));
    }
}

/// The value of the decimal digits `d`, where every character is a digit, the
/// string is not empty and the value is at most `limit`.
pub fn parse_digits(d: &[char], limit: u64) -> (res: Option<u64>)
    ensures
        match res {
            Some(v) => d@.len() > 0 && all_digits(d@) && v as int == digits_value(d@) && v <= limit,
            None => d@.len() == 0 || !all_digits(d@) || digits_value(d@) > limit,
        },
{
    if d.len() == 0 {
        return None;
    }
    let mut acc: u64 = 0;
    let mut overflow = false;
    let mut i: usize = 0;
    assert(d@.take(0) =~= Seq::<char>::empty());
    while i < d.len()
        invariant
            i <= d.len(),
            forall|k: int| 0 <= k < i ==> is_digit(d@[k]),
            !overflow ==> acc as int == digits_value(d@.take(i as int)) && acc <= limit,
            overflow ==> digits_value(d@.take(i as int)) > limit,
        decreases d.len() - i,
    {
        let c = d[i];
        if !('0' <= c && c <= '9') {
            assert(!is_digit(d@[i as int]));
            return None;
        }
        let dv = (c as u32 - '0' as u32) as u64;
        assert(d@.take(i + 1).drop_last() =~= d@.take(i as int));
        assert(d@.take(i + 1).last() == c);
        proof {
            assert(all_digits(d@.take(i as int))) by {
                assert forall|k: int| 0 <= k < i implies is_digit(d@.take(i as int)[k]) by {
                    assert(d@.take(i as int)[k] == d@[k]);
                }
            }
            lemma_digits_nonneg(d@.take(i as int));
        }
        if !overflow {
            let next: u128 = acc as u128 * 10 + dv as u128;
            if next > limit as u128 {
                overflow = true;
            } else {
                acc = next as u64;
            }
        }
        i += 1;
    }
    assert(d@.take(d.len() as int) =~= d@);
    if overflow {
        None
    } else {
        Some(acc)
    }
}

/// `str::parse::<i64>`.
pub fn parse_i64(s: &[char]) -> (res: Option<i64>)
    ensures
        res == parse_i64_spec(s@),
{
    if s.len() == 0 {
        return None;
    }
    let neg = s[0] == '-';
    let start: usize = if s[0] == '+' || neg { 1 } else { 0 };
    let digits = slice_to_vec(s, start, s.len());
    assert(digits@ =~= (if s@[0] == '+' || neg { s@.skip(1) } else { s@ }));
    let limit: u64 = if neg { 0x8000_0000_0000_0000 } else { 0x7fff_ffff_ffff_ffff };
    match parse_digits(digits.as_slice(), limit) {
        None => {
            proof {
                if digits@.len() > 0 && all_digits(digits@) {
                    lemma_digits_nonneg(digits@);
                }
            }
            None
        },
        Some(v) => {
            if neg {
                if v == 0x8000_0000_0000_0000 {
                    Some(i64::MIN)
                } else {
                    Some(-(v as i64))
                }
            } else {
                Some(v as i64)
            }
        },
    }
}

/// `str::parse::<usize>`.
pub fn parse_usize(s: &[char]) -> (res: Option<usize>)
    ensures
        res == parse_usize_spec(s@),
{
    if s.len() == 0 {
        return None;
    }
    let start: usize = if s[0] == '+' { 1 } else { 0 };
    let digits = slice_to_vec(s, start, s.len());
    assert(digits@ =~= (if s@[0] == '+' { s@.skip(1) } else { s@ }));
    match parse_digits(digits.as_slice(), usize::MAX as u64) {
        None => {
            proof {
                if digits@.len() > 0 && all_digits(digits@) {
                    lemma_digits_nonneg(digits@);
                }
            }
            None
        },
        Some(v) => Some(v as usize),
    }
}

// ---------------------------------------------------------------------------
// Hexadecimal
// ---------------------------------------------------------------------------

pub open spec fn hex_digit(d: int, upper: bool) -> char {
    if 0 <= d <= 9 {
        digit_char(d)
    } else if upper {
        ('A' as int + (d - 10)) as char
    } else {
        ('a' as int + (d - 10)) as char
    }
}

/// Two hex digits of a byte, as `{:02x}` (or `{:02X}`) writes them.
pub open spec fn hex_byte(b: u8, upper: bool) -> Seq<char> {
    seq![hex_digit(b as int / 16, upper), hex_digit(b as int % 16, upper)]
}

/// Lower-case hex digits of every byte of `bytes`.
pub open spec fn hex_spec(bytes: Seq<u8>) -> Seq<char>
    decreases bytes.len(),
{
    if bytes.len() == 0 {
        Seq::empty()
    } else {
        hex_spec(bytes.drop_last()) + hex_byte(bytes.last(), false)
    }
}

pub fn hex_digit_char(d: u8, upper: bool) -> (c: char)
    requires
        d < 16,
    ensures
        c == hex_digit(d as int, upper),
{
    if d < 10 {
        digit(d as u64)
    } else if upper {
        if d == 10 { 'A' } else if d == 11 { 'B' } else if d == 12 { 'C' } else if d == 13 { 'D' }
        else if d == 14 { 'E' } else { 'F' }
    } else {
        if d == 10 { 'a' } else if d == 11 { 'b' } else if d == 12 { 'c' } else if d == 13 { 'd' }
        else if d == 14 { 'e' } else { 'f' }
    }
}

/// Appends the two hex digits of `b`.
pub fn push_hex_byte(out: &mut Vec<char>, b: u8, upper: bool)
    ensures
        final(out)@ == old(out)@ + hex_byte(b, upper),
{
    out.push(hex_digit_char(b / 16, upper));
    out.push(hex_digit_char(b % 16, upper));
    assert(out@ =~= old(out)@ + hex_byte(b, upper));
}

/// Lower-case hex digits of every byte of `bytes`.
pub fn hex_encode(bytes: &[u8]) -> (res: String)
    ensures
        res@ == hex_spec(bytes@),
{
    let mut out: Vec<char> = Vec::new();
    let mut i: usize = 0;
    while i < bytes.len()
        invariant
            i <= bytes.len(),
            out@ == hex_spec(bytes@.take(i as int)),
        decreases bytes.len() - i,
    {
        push_hex_byte(&mut out, bytes[i], false);
        assert(bytes@.take(i + 1).drop_last() =~= bytes@.take(i as int));
        i += 1;
    }
    assert(bytes@.take(bytes.len() as int) =~= bytes@);
    string_of(out.as_slice())
}

// ---------------------------------------------------------------------------
// Padding
// ---------------------------------------------------------------------------

pub open spec fn spaces(n: int) -> Seq<char> {
    Seq::new(if n > 0 { n as nat } else { 0 }, |i: int| ' ')
}

/// `format!("{:>width$}", s)`: `s` right-aligned in `width` characters.
pub open spec fn pad_left_spec(s: Seq<char>, width: int) -> Seq<char> {
    spaces(width - s.len()) + s
}

/// `format!("{:<width$}", s)`: `s` left-aligned in `width` characters.
pub open spec fn pad_right_spec(s: Seq<char>, width: int) -> Seq<char> {
    s + spaces(width - s.len())
}

pub fn push_spaces(out: &mut Vec<char>, n: usize)
    ensures
        final(out)@ == old(out)@ + spaces(n as int),
{
    let mut i: usize = 0;
    while i < n
        invariant
            i <= n,
            out@ == old(out)@ + spaces(i as int),
        decreases n - i,
    {
        out.push(' ');
        i += 1;
        assert(out@ =~= old(out)@ + spaces(i as int));
    }
}

pub fn pad_left(s: &[char], width: usize) -> (res: Vec<char>)
    ensures
        res@ == pad_left_spec(s@, width as int),
{
    let mut out: Vec<char> = Vec::new();
    if s.len() < width {
        push_spaces(&mut out, width - s.len());
    } else {
        assert(spaces(width - s@.len()) =~= Seq::<char>::empty());
    }
    push_all(&mut out, s);
    assert(out@ =~= pad_left_spec(s@, width as int));
    out
}

pub fn pad_right(s: &[char], width: usize) -> (res: Vec<char>)
    ensures
        res@ == pad_right_spec(s@, width as int),
{
    let mut out: Vec<char> = Vec::new();
    push_all(&mut out, s);
    if s.len() < width {
        push_spaces(&mut out, width - s.len());
    } else {
        assert(spaces(width - s@.len()) =~= Seq::<char>::empty());
    }
    assert(out@ =~= pad_right_spec(s@, width as int));
    out
}

/// `c` repeated `n` times.
pub open spec fn repeat_spec(c: char, n: int) -> Seq<char> {
    Seq::new(if n > 0 { n as nat } else { 0 }, |i: int| c)
}

pub fn push_repeat(out: &mut Vec<char>, c: char, n: usize)
    ensures
        final(out)@ == old(out)@ + repeat_spec(c, n as int),
{
    let mut i: usize = 0;
    while i < n
        invariant
            i <= n,
            out@ == old(out)@ + repeat_spec(c, i as int),
        decreases n - i,
    {
        out.push(c);
        i += 1;
        assert(out@ =~= old(out)@ + repeat_spec(c, i as int));
    }
}

// ---------------------------------------------------------------------------
// Escapes and UTF-8
// ---------------------------------------------------------------------------

/// The value of a hex digit, upper or lower case.
pub open spec fn hex_val(c: u8) -> Option<int> {
    if 0x30 <= c <= 0x39 {
        Some(c - 0x30)
    } else if 0x41 <= c <= 0x46 {
        Some(c - 0x37)
    } else if 0x61 <= c <= 0x66 {
        Some(c - 0x57)
    } else {
        None
    }
}

/// The byte that a two-character escape stands for, read as a base-16 `u8`
/// (which also takes a `+` sign before a single digit).
pub open spec fn hex_pair(hi: u8, lo: u8) -> Option<u8> {
    match (hex_val(hi), hex_val(lo)) {
        (Some(h), Some(l)) => Some((h * 16 + l) as u8),
        (None, Some(l)) => if hi == 0x2b {
            Some(l as u8)
        } else {
            None
        },
        _ => None,
    }
}

pub fn hex_val_exec(c: u8) -> (r: Option<u8>)
    ensures
        match hex_val(c) {
            Some(v) => r == Some(v as u8) && 0 <= v < 16,
            None => r is None,
        },
{
    if 0x30 <= c && c <= 0x39 {
        Some(c - 0x30)
    } else if 0x41 <= c && c <= 0x46 {
        Some(c - 0x37)
    } else if 0x61 <= c && c <= 0x66 {
        Some(c - 0x57)
    } else {
        None
    }
}

pub fn hex_pair_exec(hi: u8, lo: u8) -> (r: Option<u8>)
    ensures
        r == hex_pair(hi, lo),
{
    match (hex_val_exec(hi), hex_val_exec(lo)) {
        (Some(h), Some(l)) => Some(h * 16 + l),
        (None, Some(l)) => if hi == 0x2b {
            Some(l)
        } else {
            None
        },
        _ => None,
    }
}

/// `String::from_utf8`: the text whose UTF-8 encoding is `bytes`, or `None`
/// when they are not valid UTF-8.
#[verifier::external_body]
pub fn string_from_utf8(bytes: Vec<u8>) -> (r: Option<String>)
    ensures
        match r {
            Some(s) => valid_utf8(bytes@) && s@ == decode_utf8(bytes@),
            None => !valid_utf8(bytes@),
        },
{
    String::from_utf8(bytes).ok()
}

// ---------------------------------------------------------------------------
// Digests
// ---------------------------------------------------------------------------

/// The MD5 digest of `data`.
pub uninterp spec fn md5_digest(data: Seq<u8>) -> Seq<u8>;

/// `md5::compute`: the sixteen bytes of the MD5 digest of `data` (the field
/// of the `Digest` it returns).  The contract names the digest.
#[verifier::external_body]
pub(crate) fn md5_compute(data: &[u8]) -> (res: [u8; 16])
    ensures
        res@ == md5_digest(data@),
{
    md5::compute(data).0
}

/// The lower-case hex form of the MD5 digest of `data`, as `{:x}` writes a
/// `md5::Digest`.
pub fn md5_hex(data: &[u8]) -> (res: String)
    ensures
        res@ == hex_spec(md5_digest(data@)),
{
    let d = md5_compute(data);
    hex_encode(&d)
}

// ---------------------------------------------------------------------------
// UTF-8 lengths and paths
// ---------------------------------------------------------------------------

/// The encoding of two texts one after the other is the two encodings one
/// after the other.
pub proof fn lemma_encode_utf8_concat(a: Seq<char>, b: Seq<char>)
    ensures
        encode_utf8(a + b) == encode_utf8(a) + encode_utf8(b),
    decreases a.len(),
{
    if a.len() == 0 {
        assert(a + b =~= b);
        assert(encode_utf8(a) =~= Seq::<u8>::empty());
        assert(encode_utf8(a) + encode_utf8(b) =~= encode_utf8(b));
    } else {
        assert((a + b).drop_first() =~= a.drop_first() + b);
        assert((a + b)[0] == a[0]);
        lemma_encode_utf8_concat(a.drop_first(), b);
        assert(encode_utf8(a + b) =~= encode_utf8(a) + encode_utf8(b));
    }
}

/// The number of bytes that `c` takes in UTF-8.
pub fn char_utf8_len(c: char) -> (n: usize)
    ensures
        n == encode_utf8(seq![c]).len(),
        1 <= n <= 4,
{
    assert(seq![c].drop_first() =~= Seq::<char>::empty());
    proof {
        vstd::utf8::char_is_scalar(c);
    }
    assert(encode_utf8(seq![c]) == vstd::utf8::encode_scalar(c as u32) + encode_utf8(Seq::<char>::empty()));
    let v = c as u32;
    if v < 0x80 {
        1
    } else if v < 0x800 {
        2
    } else if v < 0x10000 {
        3
    } else {
        4
    }
}

/// The prefix of `s` whose encoding is exactly `n` bytes long, where there
/// is one.
pub open spec fn byte_prefix_at(s: Seq<char>, n: int, j: int) -> bool {
    0 <= j <= s.len() && encode_utf8(s.take(j)).len() == n
}

/// The number of characters in the first `n` bytes of `s`.
pub open spec fn prefix_index(s: Seq<char>, n: int) -> int {
    choose|j: int| byte_prefix_at(s, n, j)
}

/// At most one prefix of `s` is `n` bytes long.
pub proof fn lemma_byte_prefix_unique(s: Seq<char>, n: int, a: int, b: int)
    requires
        byte_prefix_at(s, n, a),
        byte_prefix_at(s, n, b),
    ensures
        a == b,
{
    if a < b {
        lemma_encode_utf8_prefix_monotone(s, a, b);
    } else if b < a {
        lemma_encode_utf8_prefix_monotone(s, b, a);
    }
}

/// The first `n` bytes of `s`, where they end between two characters, as
/// `&s[..n]` takes them.
pub fn byte_prefix(s: &str, n: usize) -> (res: String)
    requires
        exists|j: int| byte_prefix_at(s@, n as int, j),
    ensures
        res@ == s@.take(prefix_index(s@, n as int)),
{
    let v = chars_of(s);
    let mut out: Vec<char> = Vec::new();
    let mut bytes: usize = 0;
    let mut i: usize = 0;
    assert(v@.take(0) =~= Seq::<char>::empty());
    while i < v.len() && bytes < n
        invariant
            i <= v.len(),
            v@ == s@,
            out@ == v@.take(i as int),
            bytes == encode_utf8(v@.take(i as int)).len(),
            bytes <= n,
            exists|j: int| byte_prefix_at(s@, n as int, j),
            forall|j: int| 0 <= j < i ==> encode_utf8(#[trigger] v@.take(j)).len() < bytes,
        decreases v.len() - i,
    {
        let c = v[i];
        let w = char_utf8_len(c);
        proof {
            assert(v@.take(i + 1) =~= v@.take(i as int) + seq![c]);
            lemma_encode_utf8_concat(v@.take(i as int), seq![c]);
        }
        if w > n - bytes {
            proof {
                let j = choose|j: int| byte_prefix_at(s@, n as int, j);
                if j <= i {
                    lemma_encode_utf8_prefix_monotone(v@, j, i as int);
                } else {
                    lemma_encode_utf8_prefix_monotone(v@, i as int + 1, j);
                }
            }
            assert(false);
        }
        out.push(c);
        bytes = bytes + w;
        i += 1;
    }
    proof {
        if bytes < n {
            let j = choose|j: int| byte_prefix_at(s@, n as int, j);
            lemma_encode_utf8_prefix_monotone(v@, j, i as int);
            assert(v@.take(i as int) =~= v@);
            assert(false);
        }
        assert(byte_prefix_at(s@, n as int, i as int));
        lemma_byte_prefix_unique(s@, n as int, i as int, prefix_index(s@, n as int));
    }
    string_of(out.as_slice())
}

/// A longer prefix never encodes to fewer bytes.
proof fn lemma_encode_utf8_prefix_monotone(s: Seq<char>, a: int, b: int)
    requires
        0 <= a <= b <= s.len(),
    ensures
        encode_utf8(s.take(a)).len() <= encode_utf8(s.take(b)).len(),
        a < b ==> encode_utf8(s.take(a)).len() < encode_utf8(s.take(b)).len(),
{
    assert(s.take(b) =~= s.take(a) + s.subrange(a, b));
    lemma_encode_utf8_concat(s.take(a), s.subrange(a, b));
    if a < b {
        assert(s.subrange(a, b)[0] == s[a]);
    }
}

/// The last component of a path, as `Path::file_name` finds it.
pub uninterp spec fn path_file_name(path: Seq<char>) -> Option<Seq<char>>;

/// `std::path::Path::file_name`, where the name is text.  The contract names
/// the result.
#[verifier::external_body]
pub(crate) fn file_name_of(path: &str) -> (res: Option<String>)
    ensures
        match res {
            Some(n) => path_file_name(path@) == Some(n@),
            None => path_file_name(path@) is None,
        },
{
    std::path::Path::new(path).file_name().and_then(|n| n.to_str()).map(|n| n.to_string())
}

/// The extension of a path, as `Path::extension` documents it: nothing
/// without a file name, or where the name holds no `.`, or where its only
/// `.` is its first character; else what follows the name's last `.`.
pub open spec fn path_extension(path: Seq<char>) -> Option<Seq<char>> {
    match path_file_name(path) {
        None => None,
        Some(name) => if name == ".."@ {
            None
        } else {
            match rfind_spec(name, "."@) {
                Some(i) => if i == 0 {
                    None
                } else {
                    Some(name.skip(i + 1))
                },
                None => None,
            }
        },
    }
}

/// `std::path::Path::extension`, where the extension is text: what follows
/// the last `.` of the file name, as `path_extension` states.
#[verifier::external_body]
pub(crate) fn extension_of(path: &str) -> (res: Option<String>)
    ensures
        match res {
            Some(e) => path_extension(path@) == Some(e@),
            None => path_extension(path@) is None,
        },
{
    std::path::Path::new(path).extension().and_then(|e| e.to_str()).map(|e| e.to_string())
}

// ---------------------------------------------------------------------------
// Runs, words and case
// ---------------------------------------------------------------------------

/// The number of characters of class `cls` at the start of `s`.
pub open spec fn run_len(s: Seq<char>, cls: CharClass) -> nat
    decreases s.len(),
{
    if s.len() > 0 && in_class(s[0], cls) {
        1 + run_len(s.skip(1), cls)
    } else {
        0
    }
}

/// The number of characters that are not white space at the start of `s`.
pub open spec fn nonws_len(s: Seq<char>) -> nat
    decreases s.len(),
{
    if s.len() > 0 && !is_ws(s[0]) {
        1 + nonws_len(s.skip(1))
    } else {
        0
    }
}

pub proof fn lemma_run_len(s: Seq<char>, cls: CharClass)
    ensures
        run_len(s, cls) <= s.len(),
        forall|i: int| 0 <= i < run_len(s, cls) ==> in_class(#[trigger] s[i], cls),
        run_len(s, cls) < s.len() ==> !in_class(s[run_len(s, cls) as int], cls),
    decreases s.len(),
{
    if s.len() > 0 && in_class(s[0], cls) {
        lemma_run_len(s.skip(1), cls);
        assert forall|i: int| 0 <= i < run_len(s, cls) implies in_class(#[trigger] s[i], cls) by {
            if i > 0 {
                assert(s[i] == s.skip(1)[i - 1]);
            }
        }
        if run_len(s, cls) < s.len() {
            assert(s[run_len(s, cls) as int] == s.skip(1)[run_len(s.skip(1), cls) as int]);
        }
    }
}

pub proof fn lemma_nonws_len(s: Seq<char>)
    ensures
        nonws_len(s) <= s.len(),
        s.len() > 0 && !is_ws(s[0]) ==> nonws_len(s) >= 1,
    decreases s.len(),
{
    if s.len() > 0 && !is_ws(s[0]) {
        lemma_nonws_len(s.skip(1));
    }
}

pub proof fn lemma_trim_start_len(s: Seq<char>, cls: CharClass)
    ensures
        trim_start_spec(s, cls).len() <= s.len(),
        trim_start_spec(s, cls).len() > 0 ==> !in_class(trim_start_spec(s, cls)[0], cls),
    decreases s.len(),
{
    if s.len() > 0 && in_class(s[0], cls) {
        lemma_trim_start_len(s.skip(1), cls);
    }
}

/// The position after the run of characters of class `cls` that starts at `from`.
pub fn run_end(s: &[char], from: usize, cls: CharClass) -> (r: usize)
    requires
        from <= s.len(),
    ensures
        from <= r <= s.len(),
        r - from == run_len(s@.skip(from as int), cls),
{
    let mut i = from;
    while i < s.len() && is_in_class(s[i], cls)
        invariant
            from <= i <= s.len(),
            run_len(s@.skip(from as int), cls) == (i - from) + run_len(s@.skip(i as int), cls),
        decreases s.len() - i,
    {
        assert(s@.skip(i as int).skip(1) =~= s@.skip(i + 1));
        i += 1;
    }
    i
}

/// The position after the run of characters that are not white space that starts at `from`.
pub fn nonws_end(s: &[char], from: usize) -> (r: usize)
    requires
        from <= s.len(),
    ensures
        from <= r <= s.len(),
        r - from == nonws_len(s@.skip(from as int)),
{
    let mut i = from;
    while i < s.len() && !is_whitespace(s[i])
        invariant
            from <= i <= s.len(),
            nonws_len(s@.skip(from as int)) == (i - from) + nonws_len(s@.skip(i as int)),
        decreases s.len() - i,
    {
        assert(s@.skip(i as int).skip(1) =~= s@.skip(i + 1));
        i += 1;
    }
    i
}

/// `str::split_whitespace`: the maximal runs of characters that are not white space.
pub open spec fn words_spec(s: Seq<char>) -> Seq<Seq<char>>
    decreases s.len(),
{
    let w = trim_start_spec(s, CharClass::Whitespace);
    if w.len() == 0 {
        Seq::empty()
    } else {
        proof {
            lemma_trim_start_len(s, CharClass::Whitespace);
            lemma_nonws_len(w);
        }
        let n = nonws_len(w);
        seq![w.take(n as int)] + words_spec(w.skip(n as int))
    }
}

/// Splits `s` at white space, dropping the white space.
pub fn words(s: &[char]) -> (res: Vec<Vec<char>>)
    ensures
        views(res@) == words_spec(s@),
{
    let mut out: Vec<Vec<char>> = Vec::new();
    let mut i: usize = 0;
    assert(s@.skip(0) =~= s@);
    assert(views(out@) + words_spec(s@) =~= words_spec(s@));
    loop
        invariant
            i <= s.len(),
            words_spec(s@) == views(out@) + words_spec(s@.skip(i as int)),
        decreases s.len() - i,
    {
        let start = trim_start_index(s, i, CharClass::Whitespace);
        if start == s.len() {
            assert(s@.skip(start as int) =~= Seq::<char>::empty());
            assert(words_spec(s@.skip(i as int)) =~= Seq::<Seq<char>>::empty());
            assert(views(out@) + Seq::<Seq<char>>::empty() =~= views(out@));
            return out;
        }
        let end = nonws_end(s, start);
        proof {
            let w = s@.skip(start as int);
            lemma_trim_start_len(s@.skip(i as int), CharClass::Whitespace);
            lemma_nonws_len(w);
            assert(w.take((end - start) as int) =~= s@.subrange(start as int, end as int));
            assert(w.skip((end - start) as int) =~= s@.skip(end as int));
        }
        let word = slice_to_vec(s, start, end);
        let ghost before = out@;
        out.push(word);
        assert(views(out@) =~= views(before).push(word@));
        assert(views(out@) + words_spec(s@.skip(end as int)) =~= views(before) + words_spec(s@.skip(i as int)));
        i = end;
    }
}

/// The ASCII upper-case letters as lower case; other characters as they are.
pub open spec fn lower_char(c: char) -> char {
    if 'A' <= c <= 'Z' {
        ((c as int) + 32) as char
    } else {
        c
    }
}

/// `str::to_ascii_lowercase`.
pub open spec fn ascii_lower(s: Seq<char>) -> Seq<char> {
    s.map_values(|c: char| lower_char(c))
}

pub fn to_ascii_lower(s: &[char]) -> (res: Vec<char>)
    ensures
        res@ == ascii_lower(s@),
{
    let mut out: Vec<char> = Vec::new();
    let mut i: usize = 0;
    while i < s.len()
        invariant
            i <= s.len(),
            out@ == ascii_lower(s@.take(i as int)),
        decreases s.len() - i,
    {
        let c = s[i];
        let l = if 'A' <= c && c <= 'Z' {
            let b = c as u8;
            (b + 32) as char
        } else {
            c
        };
        assert(l == lower_char(c));
        out.push(l);
        assert(out@ =~= ascii_lower(s@.take(i + 1)));
        i += 1;
    }
    assert(s@.take(i as int) =~= s@);
    out
}

/// `format!("{:0w$}", v)`: the decimal form of `v`, zero-padded to `w`
/// characters after the sign.
pub open spec fn zero_padded(v: int, w: int) -> Seq<char> {
    if v < 0 {
        seq!['-'] + repeat_spec('0', w - 1 - dec_nat((-v) as nat).len()) + dec_nat((-v) as nat)
    } else {
        repeat_spec('0', w - dec_nat(v as nat).len()) + dec_nat(v as nat)
    }
}

/// Appends `v` zero-padded to `w` characters.
pub fn push_zero_padded(out: &mut Vec<char>, v: i64, w: usize)
    ensures
        final(out)@ == old(out)@ + zero_padded(v as int, w as int),
{
    if v < 0 {
        let m: i128 = -(v as i128);
        let d = u64_dec(m as u64);
        out.push('-');
        if w > 0 && d.len() < w - 1 {
            push_repeat(out, '0', w - 1 - d.len());
        } else {
            assert(repeat_spec('0', w - 1 - d@.len()) =~= Seq::<char>::empty());
        }
        push_all(out, d.as_slice());
        assert(final(out)@ =~= old(out)@ + zero_padded(v as int, w as int));
    } else {
        let d = u64_dec(v as u64);
        if d.len() < w {
            push_repeat(out, '0', w - d.len());
        } else {
            assert(repeat_spec('0', w - d@.len()) =~= Seq::<char>::empty());
        }
        push_all(out, d.as_slice());
        assert(final(out)@ =~= old(out)@ + zero_padded(v as int, w as int));
    }
}

} // verus!
