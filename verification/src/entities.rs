use vstd::prelude::*;
use crate::editor::{html_escape_spec, html_unescape_spec};
use crate::text::{contains_spec, find_from, lemma_find_from, lemma_matches_skip, matches_at, replace_spec};

verus! {

// ---------------------------------------------------------------------------
// Escaping and unescaping HTML entities
// ---------------------------------------------------------------------------

/// How `html_escape` writes one character other than a line break.
pub open spec fn escaped_char(c: char) -> Seq<char> {
    if c == '&' {
        "&amp;"@
    } else if c == '<' {
        "&lt;"@
    } else if c == '>' {
        "&gt;"@
    } else if c == '"' {
        "&quot;"@
    } else if c == '\'' {
        "&apos;"@
    } else {
        seq![c]
    }
}

/// A character once `html_unescape` has decoded the first `k` of the
/// entities for `"`, `'`, `<`, `>` and `&`, in that order.
pub open spec fn partly_escaped(c: char, k: int) -> Seq<char> {
    if (c == '"' && k >= 1) || (c == '\'' && k >= 2) || (c == '<' && k >= 3) || (c == '>' && k >= 4) || (c
        == '&' && k >= 5) {
        seq![c]
    } else {
        escaped_char(c)
    }
}

/// Each character of `s` as `partly_escaped` writes it.
pub open spec fn encoded(s: Seq<char>, k: int) -> Seq<char>
    decreases s.len(),
{
    if s.len() == 0 {
        Seq::empty()
    } else {
        partly_escaped(s[0], k) + encoded(s.skip(1), k)
    }
}

/// The entity that the `k`-th unescaping step decodes.
pub open spec fn step_entity(k: int) -> Seq<char> {
    if k == 0 {
        "&quot;"@
    } else if k == 1 {
        "&apos;"@
    } else if k == 2 {
        "&lt;"@
    } else if k == 3 {
        "&gt;"@
    } else {
        "&amp;"@
    }
}

/// The character that the `k`-th unescaping step writes.
pub open spec fn step_char(k: int) -> char {
    if k == 0 {
        '"'
    } else if k == 1 {
        '\''
    } else if k == 2 {
        '<'
    } else if k == 3 {
        '>'
    } else {
        '&'
    }
}

pub open spec fn no_amp(x: Seq<char>) -> bool {
    forall|i: int| 0 <= i < x.len() ==> x[i] != '&'
}

/// Replacing a pattern that starts with `&` leaves a text without `&` as it is.
proof fn lemma_replace_skips_plain(x: Seq<char>, y: Seq<char>, p: Seq<char>, r: Seq<char>)
    requires
        p.len() > 0,
        p[0] == '&',
        no_amp(x),
    ensures
        replace_spec(x + y, p, r) == x + replace_spec(y, p, r),
    decreases x.len(),
{
    if x.len() > 0 {
        let s = x + y;
        assert(!matches_at(s, 0, p)) by {
            if matches_at(s, 0, p) {
                assert(s.subrange(0, p.len() as int)[0] == s[0]);
            }
        }
        assert(s.skip(1) =~= x.skip(1) + y);
        lemma_replace_skips_plain(x.skip(1), y, p, r);
        assert(s =~= seq![s[0]] + s.skip(1));
        assert(x =~= seq![x[0]] + x.skip(1));
    } else {
        assert(x + y =~= y);
    }
}

/// Replacing a pattern leaves an entity that differs from it as it is.
proof fn lemma_replace_skips_entity(x: Seq<char>, y: Seq<char>, p: Seq<char>, r: Seq<char>, j: int)
    requires
        p.len() > 0,
        p[0] == '&',
        x.len() > 0,
        no_amp(x.skip(1)),
        0 <= j < x.len(),
        j < p.len(),
        x[j] != p[j],
    ensures
        replace_spec(x + y, p, r) == x + replace_spec(y, p, r),
{
    let s = x + y;
    assert(!matches_at(s, 0, p)) by {
        if matches_at(s, 0, p) {
            assert(s.subrange(0, p.len() as int)[j] == s[j]);
        }
    }
    assert(s.skip(1) =~= x.skip(1) + y);
    lemma_replace_skips_plain(x.skip(1), y, p, r);
    assert(s =~= seq![s[0]] + s.skip(1));
    assert(x =~= seq![x[0]] + x.skip(1));
}

/// One unescaping step turns the `k`-th entity back into its character.
proof fn lemma_unescape_step(s: Seq<char>, k: int)
    requires
        0 <= k < 5,
        forall|i: int| 0 <= i < s.len() ==> s[i] != '\n',
    ensures
        replace_spec(encoded(s, k), step_entity(k), seq![step_char(k)]) == encoded(s, k + 1),
    decreases s.len(),
{
    reveal_strlit("&amp;");
    reveal_strlit("&lt;");
    reveal_strlit("&gt;");
    reveal_strlit("&quot;");
    reveal_strlit("&apos;");
    if s.len() > 0 {
        let c = s[0];
        let p = step_entity(k);
        let r = seq![step_char(k)];
        let x = partly_escaped(c, k);
        let rest = encoded(s.skip(1), k);
        assert forall|i: int| 0 <= i < s.skip(1).len() implies s.skip(1)[i] != '\n' by {
            assert(s.skip(1)[i] == s[i + 1]);
        }
        lemma_unescape_step(s.skip(1), k);
        if c == step_char(k) {
            assert(x =~= p);
            assert(partly_escaped(c, k + 1) =~= r);
            assert(matches_at(x + rest, 0, p)) by {
                assert((x + rest).subrange(0, p.len() as int) =~= p);
            }
            assert((x + rest).skip(p.len() as int) =~= rest);
        } else {
            assert(partly_escaped(c, k + 1) == x);
            if x.len() == 1 {
                assert(x =~= seq![c]);
                assert(no_amp(x));
                lemma_replace_skips_plain(x, rest, p, r);
            } else {
                assert(no_amp(x.skip(1)));
                let j: int = if (x[1] != p[1]) {
                    1
                } else {
                    2
                };
                assert(x[j] != p[j]);
                lemma_replace_skips_entity(x, rest, p, r, j);
            }
        }
    }
}

/// Each character written as itself is the text itself.
proof fn lemma_fully_decoded(s: Seq<char>)
    ensures
        encoded(s, 5) == s,
    decreases s.len(),
{
    if s.len() > 0 {
        lemma_fully_decoded(s.skip(1));
        assert(s =~= seq![s[0]] + s.skip(1));
    }
}

/// Replacing a pattern that does not occur leaves the text as it is.
proof fn lemma_replace_absent(s: Seq<char>, p: Seq<char>, r: Seq<char>)
    requires
        forall|i: int| 0 <= i ==> !matches_at(s, i, p),
    ensures
        replace_spec(s, p, r) == s,
    decreases s.len(),
{
    if s.len() > 0 {
        assert forall|i: int| 0 <= i implies !matches_at(s.skip(1), i, p) by {
            if i + 1 <= s.len() {
                lemma_matches_skip(s, i + 1, p);
                assert(s.skip(1).skip(i) =~= s.skip(i + 1));
                lemma_matches_skip(s.skip(1), i, p);
            } else {
                assert(!matches_at(s.skip(1), i, p));
            }
        }
        lemma_replace_absent(s.skip(1), p, r);
        assert(!matches_at(s, 0, p));
        assert(s =~= seq![s[0]] + s.skip(1));
    }
}

/// Replacing a single character is done character by character.
proof fn lemma_replace_char_concat(x: Seq<char>, y: Seq<char>, a: char, r: Seq<char>)
    ensures
        replace_spec(x + y, seq![a], r) == replace_spec(x, seq![a], r) + replace_spec(y, seq![a], r),
    decreases x.len(),
{
    if x.len() > 0 {
        let s = x + y;
        assert(s.skip(1) =~= x.skip(1) + y);
        lemma_replace_char_concat(x.skip(1), y, a, r);
        assert(matches_at(s, 0, seq![a]) == matches_at(x, 0, seq![a])) by {
            assert(s.subrange(0, 1)[0] == s[0]);
            assert(x.subrange(0, 1)[0] == x[0]);
            if s[0] == a {
                assert(s.subrange(0, 1) =~= seq![a]);
                assert(x.subrange(0, 1) =~= seq![a]);
            }
        }
    } else {
        assert(x + y =~= y);
    }
}

/// `html_escape` of a text joined from two is the join of their escapes.
proof fn lemma_escape_concat(x: Seq<char>, y: Seq<char>)
    ensures
        html_escape_spec(x + y) == html_escape_spec(x) + html_escape_spec(y),
{
    reveal_strlit("&");
    reveal_strlit("<");
    reveal_strlit(">");
    reveal_strlit("\"");
    reveal_strlit("'");
    reveal_strlit("\n");
    assert("&"@ =~= seq!['&']);
    assert("<"@ =~= seq!['<']);
    assert(">"@ =~= seq!['>']);
    assert("\""@ =~= seq!['"']);
    assert("'"@ =~= seq!['\'']);
    assert("\n"@ =~= seq!['\n']);
    let x1 = replace_spec(x, "&"@, "&amp;"@);
    let y1 = replace_spec(y, "&"@, "&amp;"@);
    lemma_replace_char_concat(x, y, '&', "&amp;"@);
    let x2 = replace_spec(x1, "<"@, "&lt;"@);
    let y2 = replace_spec(y1, "<"@, "&lt;"@);
    lemma_replace_char_concat(x1, y1, '<', "&lt;"@);
    let x3 = replace_spec(x2, ">"@, "&gt;"@);
    let y3 = replace_spec(y2, ">"@, "&gt;"@);
    lemma_replace_char_concat(x2, y2, '>', "&gt;"@);
    let x4 = replace_spec(x3, "\""@, "&quot;"@);
    let y4 = replace_spec(y3, "\""@, "&quot;"@);
    lemma_replace_char_concat(x3, y3, '"', "&quot;"@);
    let x5 = replace_spec(x4, "'"@, "&apos;"@);
    let y5 = replace_spec(y4, "'"@, "&apos;"@);
    lemma_replace_char_concat(x4, y4, '\'', "&apos;"@);
    lemma_replace_char_concat(x5, y5, '\n', "<br />"@);
}

/// A character other than the replaced one stays as it is.
proof fn lemma_replace_one_other(c: char, a: char, r: Seq<char>)
    requires
        c != a,
    ensures
        replace_spec(seq![c], seq![a], r) == seq![c],
{
    let s = seq![c];
    assert(!matches_at(s, 0, seq![a])) by {
        if matches_at(s, 0, seq![a]) {
            assert(s.subrange(0, 1)[0] == c);
            assert(seq![a][0] == a);
        }
    }
    assert(s.skip(1) =~= Seq::<char>::empty());
    assert(replace_spec(s.skip(1), seq![a], r) == Seq::<char>::empty());
    assert(seq![c] + Seq::<char>::empty() =~= seq![c]);
}

/// A character that is one of the replaced ones becomes its replacement.
proof fn lemma_replace_one_same(a: char, r: Seq<char>)
    ensures
        replace_spec(seq![a], seq![a], r) == r,
{
    let s = seq![a];
    assert(matches_at(s, 0, seq![a])) by {
        assert(s.subrange(0, 1) =~= seq![a]);
    }
    assert(s.skip(1) =~= Seq::<char>::empty());
    assert(replace_spec(s.skip(1), seq![a], r) == Seq::<char>::empty());
    assert(r + Seq::<char>::empty() =~= r);
}

/// Replacing a single character leaves a text without it as it is.
proof fn lemma_replace_char_absent(s: Seq<char>, a: char, r: Seq<char>)
    requires
        forall|i: int| 0 <= i < s.len() ==> s[i] != a,
    ensures
        replace_spec(s, seq![a], r) == s,
{
    assert forall|i: int| 0 <= i implies !matches_at(s, i, seq![a]) by {
        if matches_at(s, i, seq![a]) {
            assert(s.subrange(i, i + 1)[0] == s[i]);
        }
    }
    lemma_replace_absent(s, seq![a], r);
}

/// `html_escape` writes a single character other than a line break as
/// `escaped_char` does.
proof fn lemma_escape_char(c: char)
    requires
        c != '\n',
    ensures
        html_escape_spec(seq![c]) == escaped_char(c),
{
    reveal_strlit("&");
    reveal_strlit("<");
    reveal_strlit(">");
    reveal_strlit("\"");
    reveal_strlit("'");
    reveal_strlit("\n");
    reveal_strlit("&amp;");
    reveal_strlit("&lt;");
    reveal_strlit("&gt;");
    reveal_strlit("&quot;");
    reveal_strlit("&apos;");
    assert("&"@ =~= seq!['&']);
    assert("<"@ =~= seq!['<']);
    assert(">"@ =~= seq!['>']);
    assert("\""@ =~= seq!['"']);
    assert("'"@ =~= seq!['\'']);
    assert("\n"@ =~= seq!['\n']);
    let e = escaped_char(c);
    let s0 = seq![c];
    let s1 = replace_spec(s0, seq!['&'], "&amp;"@);
    if c == '&' {
        lemma_replace_one_same('&', "&amp;"@);
    } else {
        lemma_replace_one_other(c, '&', "&amp;"@);
    }
    let s2 = replace_spec(s1, seq!['<'], "&lt;"@);
    if c == '<' {
        lemma_replace_one_same('<', "&lt;"@);
    } else {
        lemma_replace_char_absent(s1, '<', "&lt;"@);
    }
    let s3 = replace_spec(s2, seq!['>'], "&gt;"@);
    if c == '>' {
        lemma_replace_one_same('>', "&gt;"@);
    } else {
        lemma_replace_char_absent(s2, '>', "&gt;"@);
    }
    let s4 = replace_spec(s3, seq!['"'], "&quot;"@);
    if c == '"' {
        lemma_replace_one_same('"', "&quot;"@);
    } else {
        lemma_replace_char_absent(s3, '"', "&quot;"@);
    }
    let s5 = replace_spec(s4, seq!['\''], "&apos;"@);
    if c == '\'' {
        lemma_replace_one_same('\'', "&apos;"@);
    } else {
        lemma_replace_char_absent(s4, '\'', "&apos;"@);
    }
    assert(s5 == e);
    lemma_replace_char_absent(s5, '\n', "<br />"@);
}

/// `html_escape` of a text without line breaks writes each character as
/// `escaped_char` does.
proof fn lemma_escape_encoded(s: Seq<char>)
    requires
        forall|i: int| 0 <= i < s.len() ==> s[i] != '\n',
    ensures
        html_escape_spec(s) == encoded(s, 0),
    decreases s.len(),
{
    if s.len() == 0 {
        assert(html_escape_spec(s) =~= Seq::<char>::empty());
    } else {
        assert forall|i: int| 0 <= i < s.skip(1).len() implies s.skip(1)[i] != '\n' by {
            assert(s.skip(1)[i] == s[i + 1]);
        }
        lemma_escape_encoded(s.skip(1));
        assert(s =~= seq![s[0]] + s.skip(1));
        lemma_escape_concat(seq![s[0]], s.skip(1));
        lemma_escape_char(s[0]);
        assert(partly_escaped(s[0], 0) == escaped_char(s[0]));
    }
}

/// Unescaping an escaped text gives it back, where the text has no line
/// break (escaped as `<br />`, which unescaping keeps) and no `&nbsp;`
/// (which unescaping turns into a space).
pub proof fn lemma_unescape_escape(s: Seq<char>)
    requires
        forall|i: int| 0 <= i < s.len() ==> s[i] != '\n',
        !contains_spec(s, "&nbsp;"@),
    ensures
        html_unescape_spec(html_escape_spec(s)) == s,
{
    reveal_strlit("&amp;");
    reveal_strlit("&lt;");
    reveal_strlit("&gt;");
    reveal_strlit("&quot;");
    reveal_strlit("&apos;");
    reveal_strlit("\"");
    reveal_strlit("'");
    reveal_strlit("<");
    reveal_strlit(">");
    reveal_strlit("&");
    lemma_escape_encoded(s);
    lemma_unescape_step(s, 0);
    assert("\""@ =~= seq![step_char(0)]);
    lemma_unescape_step(s, 1);
    assert("'"@ =~= seq![step_char(1)]);
    lemma_unescape_step(s, 2);
    assert("<"@ =~= seq![step_char(2)]);
    lemma_unescape_step(s, 3);
    assert(">"@ =~= seq![step_char(3)]);
    lemma_unescape_step(s, 4);
    assert("&"@ =~= seq![step_char(4)]);
    lemma_fully_decoded(s);
    lemma_find_from(s, "&nbsp;"@, 0);
    assert(find_from(s, "&nbsp;"@, 0) is None);
    lemma_replace_absent(s, "&nbsp;"@, " "@);
}

} // verus!
