use vstd::prelude::*;
use crate::models::{NoteView, UserInfoView};
use crate::storage::{apply_line_spec, dec_all, dec_spec, enc_spec, kv_line, parse_lines, tab, user_line, StorageView, StoredVal, StoredValue};
use crate::strmap::{keys_of, lookup_in, sorted_keys};
use crate::text::{all_digits, dec_int, dec_nat, digit_char, digits_value, find_from, find_spec, join_spec, lines_spec, matches_at, parse_i64_spec, parse_usize_spec, split_spec, strip_cr};

verus! {

// ---------------------------------------------------------------------------
// Lines and fields
// ---------------------------------------------------------------------------

/// `c` does not occur in `s`.
pub open spec fn lacks(s: Seq<char>, c: char) -> bool {
    forall|i: int| 0 <= i < s.len() ==> s[i] != c
}

proof fn lemma_find_first(x: Seq<char>, c: char, rest: Seq<char>)
    requires
        lacks(x, c),
    ensures
        find_spec(x + seq![c] + rest, seq![c]) == Some(x.len() as int),
{
    let s = x + seq![c] + rest;
    crate::text::lemma_find_from(s, seq![c], 0);
    assert(s.subrange(x.len() as int, x.len() + 1int) =~= seq![c]);
    assert(matches_at(s, x.len() as int, seq![c]));
    match find_from(s, seq![c], 0) {
        Some(j) => {
            if j < x.len() {
                assert(s.subrange(j, j + 1)[0] == s[j]);
                assert(s[j] == x[j]);
            }
        },
        None => {},
    }
}

proof fn lemma_find_none(x: Seq<char>, c: char)
    requires
        lacks(x, c),
    ensures
        find_spec(x, seq![c]) is None,
{
    crate::text::lemma_find_from(x, seq![c], 0);
    match find_from(x, seq![c], 0) {
        Some(j) => {
            assert(x.subrange(j, j + 1)[0] == x[j]);
        },
        None => {},
    }
}

/// The first part of a join, then the rest.
proof fn lemma_join_front(parts: Seq<Seq<char>>, sep: Seq<char>)
    requires
        parts.len() >= 2,
    ensures
        join_spec(parts, sep) == parts[0] + sep + join_spec(parts.skip(1), sep),
    decreases parts.len(),
{
    if parts.len() == 2 {
        assert(parts.drop_last().len() == 1);
        assert(parts.drop_last()[0] == parts[0]);
        assert(join_spec(parts.drop_last(), sep) == parts[0]);
        assert(parts.skip(1).len() == 1);
        assert(parts.skip(1)[0] == parts[1]);
        assert(join_spec(parts.skip(1), sep) == parts[1]);
    } else {
        let d = parts.drop_last();
        lemma_join_front(d, sep);
        assert(parts.skip(1).drop_last() =~= d.skip(1));
        assert(parts.skip(1).last() == parts.last());
        assert(join_spec(parts, sep) =~= parts[0] + sep + join_spec(parts.skip(1), sep));
    }
}

/// Splitting a join of parts without the separator gives the parts back.
pub proof fn lemma_split_join(parts: Seq<Seq<char>>, c: char)
    requires
        parts.len() >= 1,
        forall|i: int| 0 <= i < parts.len() ==> lacks(#[trigger] parts[i], c),
    ensures
        split_spec(join_spec(parts, seq![c]), seq![c]) == parts,
    decreases parts.len(),
{
    if parts.len() == 1 {
        lemma_find_none(parts[0], c);
        assert(seq![parts[0]] =~= parts);
    } else {
        lemma_join_front(parts, seq![c]);
        let rest = join_spec(parts.skip(1), seq![c]);
        let s = parts[0] + seq![c] + rest;
        lemma_find_first(parts[0], c, rest);
        assert(s.take(parts[0].len() as int) =~= parts[0]);
        assert(s.skip(parts[0].len() + 1int) =~= rest);
        assert forall|i: int| 0 <= i < parts.skip(1).len() implies lacks(#[trigger] parts.skip(1)[i], c) by {
            assert(parts.skip(1)[i] == parts[i + 1]);
        }
        lemma_split_join(parts.skip(1), c);
        assert(seq![parts[0]] + parts.skip(1) =~= parts);
    }
}

/// Every line followed by a newline, the first line first.
proof fn lemma_terminated_front(ls: Seq<Seq<char>>)
    requires
        ls.len() >= 1,
    ensures
        crate::storage::terminated(ls) == ls[0] + seq!['\n'] + crate::storage::terminated(ls.skip(1)),
{
    crate::storage::lemma_terminated_concat(seq![ls[0]], ls.skip(1));
    assert(seq![ls[0]] + ls.skip(1) =~= ls);
    assert(seq![ls[0]].drop_last() =~= Seq::<Seq<char>>::empty());
    assert(crate::storage::terminated(Seq::<Seq<char>>::empty()) =~= Seq::<char>::empty());
    assert(seq![ls[0]].last() == ls[0]);
    assert(crate::storage::terminated(seq![ls[0]]) =~= ls[0] + seq!['\n']);
}

/// Reading the lines of text written line by line gives the lines back,
/// where no line holds a newline or ends with a carriage return.
pub proof fn lemma_lines_terminated(ls: Seq<Seq<char>>)
    requires
        forall|i: int| 0 <= i < ls.len() ==> lacks(#[trigger] ls[i], '\n') && !(ls[i].len() > 0
            && ls[i].last() == '\r'),
    ensures
        lines_spec(crate::storage::terminated(ls)) == ls,
    decreases ls.len(),
{
    if ls.len() == 0 {
        assert(crate::storage::terminated(ls) =~= Seq::<char>::empty());
    } else {
        lemma_terminated_front(ls);
        let rest = crate::storage::terminated(ls.skip(1));
        let s = ls[0] + seq!['\n'] + rest;
        lemma_find_first(ls[0], '\n', rest);
        assert(s.take(ls[0].len() as int) =~= ls[0]);
        assert(s.skip(ls[0].len() + 1int) =~= rest);
        assert(strip_cr(ls[0]) == ls[0]);
        assert forall|i: int| 0 <= i < ls.skip(1).len() implies lacks(#[trigger] ls.skip(1)[i], '\n') && !(
        ls.skip(1)[i].len() > 0 && ls.skip(1)[i].last() == '\r') by {
            assert(ls.skip(1)[i] == ls[i + 1]);
        }
        lemma_lines_terminated(ls.skip(1));
        assert(seq![ls[0]] + ls.skip(1) =~= ls);
    }
}

// ---------------------------------------------------------------------------
// Numbers
// ---------------------------------------------------------------------------

proof fn lemma_digit_char(d: int)
    requires
        0 <= d <= 9,
    ensures
        crate::text::is_digit(digit_char(d)),
        crate::text::digit_value(digit_char(d)) == d,
{
}

pub(crate) proof fn lemma_dec_nat_digits(n: nat)
    ensures
        dec_nat(n).len() > 0,
        all_digits(dec_nat(n)),
        digits_value(dec_nat(n)) == n,
        dec_nat(n)[0] != '+' && dec_nat(n)[0] != '-',
    decreases n,
{
    lemma_digit_char((n % 10) as int);
    let d = dec_nat(n);
    if n < 10 {
        assert(d.drop_last() =~= Seq::<char>::empty());
        assert(digits_value(d.drop_last()) == 0);
        assert(d.last() == digit_char(n as int));
    } else {
        lemma_dec_nat_digits(n / 10);
        let p = dec_nat(n / 10);
        assert(d.drop_last() =~= p);
        assert(d.last() == digit_char((n % 10) as int));
        assert(d[0] == p[0]);
        assert(digits_value(d) == digits_value(p) * 10 + crate::text::digit_value(d.last()));
    }
}

/// A count written in decimal reads back as itself.
pub proof fn lemma_parse_dec_usize(n: usize)
    ensures
        parse_usize_spec(dec_nat(n as nat)) == Some(n),
{
    lemma_dec_nat_digits(n as nat);
}

/// A number written in decimal reads back as itself.
pub proof fn lemma_parse_dec_i64(v: i64)
    ensures
        parse_i64_spec(dec_int(v as int)) == Some(v),
{
    if v < 0 {
        let m = (-(v as int)) as nat;
        lemma_dec_nat_digits(m);
        let s = dec_int(v as int);
        assert(s.skip(1) =~= dec_nat(m));
    } else {
        lemma_dec_nat_digits(v as nat);
    }
}

// ---------------------------------------------------------------------------
// Escaped fields
// ---------------------------------------------------------------------------

/// A character that escaping writes: an ASCII letter or digit, `-`, `_`,
/// `.` or `%`.
pub open spec fn enc_char(c: char) -> bool {
    ('0' <= c <= '9') || ('A' <= c <= 'Z') || ('a' <= c <= 'z') || c == '-' || c == '_' || c == '.' || c == '%'
}

/// Every character of `s` is one that escaping writes.
pub open spec fn all_enc(s: Seq<char>) -> bool {
    forall|i: int| 0 <= i < s.len() ==> enc_char(#[trigger] s[i])
}

proof fn lemma_enc_byte_chars(b: u8)
    ensures
        all_enc(crate::storage::enc_byte(b)),
{
    let d1 = b as int / 16;
    let d2 = b as int % 16;
    assert(0 <= d1 < 16 && 0 <= d2 < 16);
}

proof fn lemma_enc_bytes_chars(bs: Seq<u8>)
    ensures
        all_enc(crate::storage::enc_bytes(bs)),
    decreases bs.len(),
{
    if bs.len() > 0 {
        lemma_enc_byte_chars(bs[0]);
        lemma_enc_bytes_chars(bs.drop_first());
        let e = crate::storage::enc_bytes(bs);
        let f = crate::storage::enc_byte(bs[0]);
        assert forall|i: int| 0 <= i < e.len() implies enc_char(#[trigger] e[i]) by {
            if i < f.len() {
                assert(e[i] == f[i]);
            } else {
                assert(e[i] == crate::storage::enc_bytes(bs.drop_first())[i - f.len()]);
            }
        }
    }
}

/// Escaped text holds only characters that escaping writes.
pub proof fn lemma_enc_chars(s: Seq<char>)
    ensures
        all_enc(crate::storage::enc_spec(s)),
{
    lemma_enc_bytes_chars(vstd::utf8::encode_utf8(s));
}

proof fn lemma_dec_nat_chars(n: nat)
    ensures
        all_enc(dec_nat(n)),
{
    lemma_dec_nat_digits(n);
}

proof fn lemma_dec_int_chars(v: int)
    ensures
        all_enc(dec_int(v)),
{
    if v < 0 {
        lemma_dec_nat_chars((-v) as nat);
        let s = dec_int(v);
        assert forall|i: int| 0 <= i < s.len() implies enc_char(#[trigger] s[i]) by {
            if i > 0 {
                assert(s[i] == dec_nat((-v) as nat)[i - 1]);
            }
        }
    } else {
        lemma_dec_nat_chars(v as nat);
    }
}

/// No tab, newline, carriage return or comma: a field of the storage file.
pub open spec fn plain_field(s: Seq<char>) -> bool {
    lacks(s, '\t') && lacks(s, '\n') && lacks(s, '\r')
}

proof fn lemma_all_enc_plain(s: Seq<char>)
    requires
        all_enc(s),
    ensures
        plain_field(s),
        lacks(s, ','),
{
    assert forall|i: int| 0 <= i < s.len() implies s[i] != '\t' && s[i] != '\n' && s[i] != '\r' && s[i] != ',' by {
        assert(enc_char(s[i]));
    }
}

/// A join of parts without `c`, by a separator without `c`, has no `c`.
proof fn lemma_join_lacks(parts: Seq<Seq<char>>, sep: Seq<char>, c: char)
    requires
        lacks(sep, c),
        forall|i: int| 0 <= i < parts.len() ==> lacks(#[trigger] parts[i], c),
    ensures
        lacks(join_spec(parts, sep), c),
    decreases parts.len(),
{
    if parts.len() > 1 {
        lemma_join_lacks(parts.drop_last(), sep, c);
        let a = join_spec(parts.drop_last(), sep);
        let j = a + sep + parts.last();
        assert(lacks(parts.last(), c));
        assert forall|i: int| 0 <= i < j.len() implies j[i] != c by {
            if i < a.len() {
                assert(j[i] == a[i]);
            } else if i < a.len() + sep.len() {
                assert(j[i] == sep[i - a.len()]);
            } else {
                assert(j[i] == parts.last()[i - a.len() - sep.len()]);
            }
        }
    } else if parts.len() == 1 {
        assert(lacks(parts[0], c));
    }
}

/// A join of two runs of parts.
proof fn lemma_join_concat(a: Seq<Seq<char>>, b: Seq<Seq<char>>, sep: Seq<char>)
    requires
        a.len() >= 1,
        b.len() >= 1,
    ensures
        join_spec(a + b, sep) == join_spec(a, sep) + sep + join_spec(b, sep),
    decreases b.len(),
{
    assert((a + b).drop_last() =~= a + b.drop_last());
    assert((a + b).last() == b.last());
    if b.len() == 1 {
        assert(b.drop_last() =~= Seq::<Seq<char>>::empty());
        assert(a + b.drop_last() =~= a);
        assert(join_spec(b, sep) == b[0]);
    } else {
        lemma_join_concat(a, b.drop_last(), sep);
        assert(join_spec(a + b, sep) =~= join_spec(a, sep) + sep + join_spec(b, sep));
    }
}

/// The lines of the storage file, as the reader sees them: no newline or
/// carriage return in them, and not blank.
pub open spec fn good_line(l: Seq<char>) -> bool {
    lacks(l, '\n') && lacks(l, '\r') && !crate::text::is_blank(l)
}

/// A line of tab-separated fields, the first a word: the reader splits it
/// back into the fields.
proof fn lemma_field_line(parts: Seq<Seq<char>>)
    requires
        parts.len() >= 1,
        parts[0].len() > 0,
        !crate::text::is_ws(parts[0][0]),
        forall|i: int| 0 <= i < parts.len() ==> plain_field(#[trigger] parts[i]),
    ensures
        good_line(join_spec(parts, seq!['\t'])),
        split_spec(join_spec(parts, seq!['\t']), seq!['\t']) == parts,
{
    let line = join_spec(parts, seq!['\t']);
    assert forall|i: int| 0 <= i < parts.len() implies lacks(#[trigger] parts[i], '\t') by {
        assert(plain_field(parts[i]));
    }
    assert forall|i: int| 0 <= i < parts.len() implies lacks(#[trigger] parts[i], '\n') by {
        assert(plain_field(parts[i]));
    }
    assert forall|i: int| 0 <= i < parts.len() implies lacks(#[trigger] parts[i], '\r') by {
        assert(plain_field(parts[i]));
    }
    lemma_join_lacks(parts, seq!['\t'], '\n');
    lemma_join_lacks(parts, seq!['\t'], '\r');
    lemma_split_join(parts, '\t');
    if parts.len() >= 2 {
        lemma_join_front(parts, seq!['\t']);
        assert(line[0] == parts[0][0]);
    } else {
        assert(line == parts[0]);
    }
    assert(!crate::text::is_ws(line[0]));
}


// ---------------------------------------------------------------------------
// Escaping, field by field
// ---------------------------------------------------------------------------

proof fn lemma_enc_empty()
    ensures
        enc_spec(Seq::<char>::empty()) == Seq::<char>::empty(),
{
    assert(vstd::utf8::encode_utf8(Seq::<char>::empty()) =~= Seq::<u8>::empty());
}

/// An empty field decodes to empty text.
proof fn lemma_dec_empty()
    ensures
        dec_spec(Seq::<char>::empty()) == Ok::<Seq<char>, Seq<char>>(Seq::<char>::empty()),
{
    lemma_enc_empty();
    crate::storage::lemma_dec_enc(Seq::<char>::empty());
}

/// Only empty text escapes to empty text.
proof fn lemma_enc_nonempty(s: Seq<char>)
    ensures
        enc_spec(s).len() == 0 <==> s.len() == 0,
{
    lemma_enc_empty();
    crate::storage::lemma_dec_enc(s);
    if enc_spec(s).len() == 0 {
        assert(enc_spec(s) =~= Seq::<char>::empty());
        lemma_dec_empty();
    }
}

/// An escaped field has no tab, newline, carriage return or comma.
proof fn lemma_enc_plain(s: Seq<char>)
    ensures
        plain_field(enc_spec(s)),
        lacks(enc_spec(s), ','),
{
    lemma_enc_chars(s);
    lemma_all_enc_plain(enc_spec(s));
}

/// Decoding escaped items gives the items back.
proof fn lemma_dec_all_enc(items: Seq<Seq<char>>)
    ensures
        dec_all(crate::storage::enc_all(items)) == Ok::<Seq<Seq<char>>, Seq<char>>(items),
    decreases items.len(),
{
    if items.len() > 0 {
        let e = crate::storage::enc_all(items);
        assert(e.drop_last() =~= crate::storage::enc_all(items.drop_last()));
        assert(e.last() == enc_spec(items.last()));
        lemma_dec_all_enc(items.drop_last());
        crate::storage::lemma_dec_enc(items.last());
        assert(items.drop_last().push(items.last()) =~= items);
    } else {
        assert(crate::storage::enc_all(items) =~= Seq::<Seq<char>>::empty());
        assert(items =~= Seq::<Seq<char>>::empty());
    }
}

// ---------------------------------------------------------------------------
// Entries in key order
// ---------------------------------------------------------------------------

/// The map that storing the entries `es` one after the other builds, each
/// value taken by `f` of its key and view.
pub open spec fn fold_entries<V: View, T>(es: Seq<(String, V)>, f: spec_fn(Seq<char>, V::V) -> T) -> Map<
    Seq<char>,
    T,
>
    decreases es.len(),
{
    if es.len() == 0 {
        Map::empty()
    } else {
        fold_entries(es.drop_last(), f).insert(es.last().0@, f(es.last().0@, es.last().1@))
    }
}

proof fn lemma_lookup_push<V>(s: Seq<(String, V)>, e: (String, V), k: Seq<char>)
    ensures
        lookup_in(s.push(e), k) == (match lookup_in(s, k) {
            Some(v) => Some(v),
            None => if e.0@ == k {
                Some(e.1)
            } else {
                None
            },
        }),
    decreases s.len(),
{
    if s.len() == 0 {
        assert(s.push(e)[0] == e);
        assert(s.push(e).skip(1) =~= Seq::<(String, V)>::empty());
        assert(lookup_in(Seq::<(String, V)>::empty(), k) is None);
    } else {
        assert(s.push(e)[0] == s[0]);
        assert(s.push(e).skip(1) =~= s.skip(1).push(e));
        lemma_lookup_push(s.skip(1), e, k);
        if s[0].0@ != k {
            assert(lookup_in(s.push(e), k) == lookup_in(s.push(e).skip(1), k));
            assert(lookup_in(s, k) == lookup_in(s.skip(1), k));
        }
    }
}

/// Storing entries with distinct keys one after the other builds the map
/// that looking each key up gives.
proof fn lemma_fold_entries<V: View, T>(es: Seq<(String, V)>, f: spec_fn(Seq<char>, V::V) -> T)
    requires
        sorted_keys(keys_of(es)),
    ensures
        fold_entries(es, f) == Map::new(
            |k: Seq<char>| lookup_in(es, k) is Some,
            |k: Seq<char>| f(k, lookup_in(es, k)->0@),
        ),
    decreases es.len(),
{
    let m = Map::new(|k: Seq<char>| lookup_in(es, k) is Some, |k: Seq<char>| f(k, lookup_in(es, k)->0@));
    if es.len() == 0 {
        assert(fold_entries(es, f) =~= m);
    } else {
        let d = es.drop_last();
        let e = es.last();
        assert forall|i: int, j: int| 0 <= i < j < keys_of(d).len() implies crate::strmap::seq_lt(
            #[trigger] keys_of(d)[i],
            #[trigger] keys_of(d)[j],
        ) by {
            assert(keys_of(d)[i] == keys_of(es)[i]);
            assert(keys_of(d)[j] == keys_of(es)[j]);
        }
        lemma_fold_entries(d, f);
        assert(d.push(e) =~= es);
        assert forall|i: int| 0 <= i < d.len() implies d[i].0@ != e.0@ by {
            assert(keys_of(es)[i] == d[i].0@);
            assert(keys_of(es)[es.len() - 1] == e.0@);
            crate::strmap::lemma_lt_irreflexive(e.0@);
        }
        crate::strmap::lemma_lookup_absent(d, e.0@);
        assert forall|k: Seq<char>| #[trigger] lookup_in(es, k) == (match lookup_in(d, k) {
            Some(v) => Some(v),
            None => if e.0@ == k {
                Some(e.1)
            } else {
                None
            },
        }) by {
            lemma_lookup_push(d, e, k);
        }
        assert(fold_entries(es, f) =~= m);
    }
}


// ---------------------------------------------------------------------------
// The lines of the storage file
// ---------------------------------------------------------------------------

/// A heading of a storage line: a word of characters that escaping writes.
pub open spec fn kind_word(s: Seq<char>) -> bool {
    s.len() > 0 && all_enc(s) && !crate::text::is_ws(s[0])
}

proof fn lemma_kind_words()
    ensures
        kind_word("user.string"@),
        kind_word("user.list"@),
        kind_word("user.info"@),
        kind_word("setting"@),
        kind_word("tag"@),
        kind_word("notebook"@),
        kind_word("note"@),
        kind_word("search"@),
        "user.string"@.len() == 11,
        "user.list"@.len() == 9,
        "user.info"@.len() == 9,
        "setting"@.len() == 7,
        "tag"@.len() == 3,
        "notebook"@.len() == 8,
        "note"@.len() == 4,
        "search"@.len() == 6,
        "user.list"@ != "user.info"@,
{
    reveal_strlit("user.string");
    reveal_strlit("user.list");
    reveal_strlit("user.info");
    reveal_strlit("setting");
    reveal_strlit("tag");
    reveal_strlit("notebook");
    reveal_strlit("note");
    reveal_strlit("search");
    assert("user.list"@[5] != "user.info"@[5]);
}


proof fn lemma_join_push(parts: Seq<Seq<char>>, x: Seq<char>, sep: Seq<char>)
    requires
        parts.len() >= 1,
    ensures
        join_spec(parts.push(x), sep) == join_spec(parts, sep) + sep + x,
{
    assert(parts.push(x).drop_last() =~= parts);
}

/// The map of a store that lines headed `kind` fill.
pub open spec fn kv_field(st: StorageView, kind: Seq<char>) -> Map<Seq<char>, Seq<char>> {
    if kind == "setting"@ {
        st.settings
    } else if kind == "tag"@ {
        st.tags
    } else {
        st.notebooks
    }
}

/// The store with the map that lines headed `kind` fill replaced by `m`.
pub open spec fn set_kv_field(st: StorageView, kind: Seq<char>, m: Map<Seq<char>, Seq<char>>) -> StorageView {
    if kind == "setting"@ {
        StorageView { settings: m, ..st }
    } else if kind == "tag"@ {
        StorageView { tags: m, ..st }
    } else {
        StorageView { notebooks: m, ..st }
    }
}

pub open spec fn kv_kind(kind: Seq<char>) -> bool {
    kind == "setting"@ || kind == "tag"@ || kind == "notebook"@
}

/// A `setting`, `tag` or `notebook` line stores its key and value.
#[verifier::spinoff_prover]
proof fn lemma_apply_kv_line(st: StorageView, kind: Seq<char>, key: Seq<char>, value: Seq<char>)
    requires
        kv_kind(kind),
    ensures
        good_line(kv_line(kind, key, value)),
        crate::storage::apply_line_spec(st, kv_line(kind, key, value)) == Ok::<StorageView, Seq<char>>(
            set_kv_field(st, kind, kv_field(st, kind).insert(key, value)),
        ),
{
    lemma_kind_words();
    let parts = seq![kind, enc_spec(key), enc_spec(value)];
    lemma_join_push(seq![kind], enc_spec(key), tab());
    assert(seq![kind].push(enc_spec(key)) =~= seq![kind, enc_spec(key)]);
    lemma_join_push(seq![kind, enc_spec(key)], enc_spec(value), tab());
    assert(seq![kind, enc_spec(key)].push(enc_spec(value)) =~= parts);
    assert(join_spec(parts, tab()) =~= kv_line(kind, key, value));
    lemma_enc_plain(key);
    lemma_enc_plain(value);
    lemma_all_enc_plain(kind);
    assert forall|i: int| 0 <= i < parts.len() implies plain_field(#[trigger] parts[i]) by {
        if i == 0 {
        } else if i == 1 {
        } else {
        }
    }
    lemma_field_line(parts);
    crate::storage::lemma_dec_enc(key);
    crate::storage::lemma_dec_enc(value);
}

/// What a user property reads back as: an empty list as a list of one empty
/// item, user details without their accounting and time zone.
pub open spec fn norm_stored(v: StoredVal) -> StoredVal {
    match v {
        StoredVal::Str(s) => StoredVal::Str(s),
        StoredVal::List(items) => if items.len() == 0 {
            StoredVal::List(seq![Seq::<char>::empty()])
        } else {
            StoredVal::List(items)
        },
        StoredVal::Info(u) => StoredVal::Info(
            UserInfoView {
                accounting: crate::models::Accounting { upload_limit: 0, upload_limit_end: None },
                timezone: None,
                ..u
            },
        ),
    }
}

#[verifier::spinoff_prover]
proof fn lemma_apply_user_string(st: StorageView, key: Seq<char>, value: Seq<char>)
    ensures
        good_line(user_line(key, StoredVal::Str(value))),
        crate::storage::apply_line_spec(st, user_line(key, StoredVal::Str(value))) == Ok::<StorageView, Seq<char>>(
            StorageView { user_props: st.user_props.insert(key, StoredVal::Str(value)), ..st },
        ),
{
    lemma_kind_words();
    lemma_enc_plain(key);
    crate::storage::lemma_dec_enc(key);
    let kind = "user.string"@;
    let parts = seq![kind, enc_spec(key), enc_spec(value)];
    lemma_join_push(seq![kind], enc_spec(key), tab());
    assert(seq![kind].push(enc_spec(key)) =~= seq![kind, enc_spec(key)]);
    lemma_join_push(seq![kind, enc_spec(key)], enc_spec(value), tab());
    assert(seq![kind, enc_spec(key)].push(enc_spec(value)) =~= parts);
    assert(join_spec(parts, tab()) =~= user_line(key, StoredVal::Str(value)));
    lemma_enc_plain(value);
    lemma_all_enc_plain(kind);
    assert forall|i: int| 0 <= i < parts.len() implies plain_field(#[trigger] parts[i]) by {
        if i == 0 {
        } else if i == 1 {
        } else {
        }
    }
    lemma_field_line(parts);
    crate::storage::lemma_dec_enc(value);
}

/// The fields of a `user.list` line: an empty list writes one empty field.
spec fn user_list_parts(key: Seq<char>, items: Seq<Seq<char>>) -> Seq<Seq<char>> {
    if items.len() == 0 {
        seq!["user.list"@, enc_spec(key), Seq::<char>::empty()]
    } else {
        seq!["user.list"@, enc_spec(key)] + crate::storage::enc_all(items)
    }
}

#[verifier::spinoff_prover]
proof fn lemma_user_list_fields(key: Seq<char>, items: Seq<Seq<char>>)
    ensures
        good_line(user_line(key, StoredVal::List(items))),
        crate::text::split_spec(user_line(key, StoredVal::List(items)), tab()) == user_list_parts(key, items),
{
    let v = StoredVal::List(items);
    lemma_kind_words();
    lemma_enc_plain(key);
    let kind = "user.list"@;
    let head = seq![kind, enc_spec(key)];
    lemma_join_push(seq![kind], enc_spec(key), tab());
    assert(seq![kind].push(enc_spec(key)) =~= head);
    lemma_all_enc_plain(kind);
    let e = crate::storage::enc_all(items);
    let parts = user_list_parts(key, items);
    if items.len() == 0 {
        lemma_join_push(head, Seq::<char>::empty(), tab());
        assert(head.push(Seq::<char>::empty()) =~= parts);
        assert(e =~= Seq::<Seq<char>>::empty());
        assert(join_spec(parts, tab()) =~= user_line(key, v));
    } else {
        lemma_join_concat(head, e, tab());
        assert(join_spec(parts, tab()) =~= user_line(key, v));
    }
    assert forall|i: int| 0 <= i < parts.len() implies plain_field(#[trigger] parts[i]) by {
        if i >= 2 && items.len() > 0 {
            assert(parts[i] == enc_spec(items[i - 2]));
            lemma_enc_plain(items[i - 2]);
        }
    }
    lemma_field_line(parts);
}

proof fn lemma_user_list_values(key: Seq<char>, items: Seq<Seq<char>>)
    ensures
        user_list_parts(key, items).len() >= 2,
        dec_all(user_list_parts(key, items).skip(2)) == Ok::<Seq<Seq<char>>, Seq<char>>(
            match norm_stored(StoredVal::List(items)) {
                StoredVal::List(l) => l,
                _ => items,
            },
        ),
{
    let parts = user_list_parts(key, items);
    if items.len() == 0 {
        lemma_dec_empty();
        assert(parts.skip(2) =~= seq![Seq::<char>::empty()]);
        assert(seq![Seq::<char>::empty()].drop_last() =~= Seq::<Seq<char>>::empty());
        assert(Seq::<Seq<char>>::empty().push(Seq::<char>::empty()) =~= seq![Seq::<char>::empty()]);
        assert(dec_all(Seq::<Seq<char>>::empty()) == Ok::<Seq<Seq<char>>, Seq<char>>(Seq::empty()));
        assert(seq![Seq::<char>::empty()].last() == Seq::<char>::empty());
        assert(dec_all(seq![Seq::<char>::empty()]) == Ok::<Seq<Seq<char>>, Seq<char>>(seq![Seq::<char>::empty()]));
    } else {
        assert(parts.skip(2) =~= crate::storage::enc_all(items));
        lemma_dec_all_enc(items);
    }
}

#[verifier::spinoff_prover]
proof fn lemma_apply_user_list(st: StorageView, key: Seq<char>, items: Seq<Seq<char>>)
    ensures
        good_line(user_line(key, StoredVal::List(items))),
        crate::storage::apply_line_spec(st, user_line(key, StoredVal::List(items))) == Ok::<StorageView, Seq<char>>(
            StorageView { user_props: st.user_props.insert(key, norm_stored(StoredVal::List(items))), ..st },
        ),
{
    lemma_kind_words();
    lemma_user_list_fields(key, items);
    lemma_user_list_values(key, items);
    crate::storage::lemma_dec_enc(key);
    let parts = user_list_parts(key, items);
    assert(parts[0] == "user.list"@);
    assert(parts[1] == enc_spec(key));
}

#[verifier::spinoff_prover]
proof fn lemma_apply_user_info(st: StorageView, key: Seq<char>, u: UserInfoView)
    ensures
        good_line(user_line(key, StoredVal::Info(u))),
        crate::storage::apply_line_spec(st, user_line(key, StoredVal::Info(u))) == Ok::<StorageView, Seq<char>>(
            StorageView { user_props: st.user_props.insert(key, norm_stored(StoredVal::Info(u))), ..st },
        ),
{
    let v = StoredVal::Info(u);
    lemma_kind_words();
    lemma_enc_plain(key);
    crate::storage::lemma_dec_enc(key);
    let kind = "user.info"@;
    let p1 = seq![kind];
    let p2 = p1.push(enc_spec(key));
    let p3 = p2.push(enc_spec(u.username));
    let p4 = p3.push(enc_spec(u.name));
    let p5 = p4.push(enc_spec(u.email));
    let p6 = p5.push(crate::text::dec_int(u.id as int));
    let parts = p6.push(enc_spec(u.shard_id));
    lemma_join_push(p1, enc_spec(key), tab());
    lemma_join_push(p2, enc_spec(u.username), tab());
    lemma_join_push(p3, enc_spec(u.name), tab());
    lemma_join_push(p4, enc_spec(u.email), tab());
    lemma_join_push(p5, crate::text::dec_int(u.id as int), tab());
    lemma_join_push(p6, enc_spec(u.shard_id), tab());
    assert(join_spec(parts, tab()) =~= user_line(key, v));
    lemma_all_enc_plain(kind);
    lemma_enc_plain(u.username);
    lemma_enc_plain(u.name);
    lemma_enc_plain(u.email);
    lemma_enc_plain(u.shard_id);
    lemma_dec_int_chars(u.id as int);
    lemma_all_enc_plain(crate::text::dec_int(u.id as int));
    assert forall|i: int| 0 <= i < parts.len() implies plain_field(#[trigger] parts[i]) by {
        if i == 0 {
        } else if i == 1 {
        } else if i == 2 {
        } else if i == 3 {
        } else if i == 4 {
        } else if i == 5 {
        } else {
        }
    }
    lemma_field_line(parts);
    crate::storage::lemma_dec_enc(u.username);
    crate::storage::lemma_dec_enc(u.name);
    crate::storage::lemma_dec_enc(u.email);
    crate::storage::lemma_dec_enc(u.shard_id);
    lemma_parse_dec_i64(u.id);
}

/// A user property line stores the property, as `norm_stored` reads it.
proof fn lemma_apply_user_line(st: StorageView, key: Seq<char>, v: StoredVal)
    ensures
        good_line(user_line(key, v)),
        crate::storage::apply_line_spec(st, user_line(key, v)) == Ok::<StorageView, Seq<char>>(
            StorageView { user_props: st.user_props.insert(key, norm_stored(v)), ..st },
        ),
{
    match v {
        StoredVal::Str(value) => lemma_apply_user_string(st, key, value),
        StoredVal::List(items) => lemma_apply_user_list(st, key, items),
        StoredVal::Info(u) => lemma_apply_user_info(st, key, u),
    }
}

/// An optional text as it reads back: empty text as none.
pub open spec fn norm_opt(o: Option<Seq<char>>) -> Option<Seq<char>> {
    match o {
        Some(s) => if s.len() == 0 {
            None
        } else {
            Some(s)
        },
        None => None,
    }
}

/// Tag GUIDs as they read back: a single empty GUID as none.
pub open spec fn norm_tags(tags: Seq<Seq<char>>) -> Seq<Seq<char>> {
    if tags.len() == 1 && tags[0].len() == 0 {
        Seq::empty()
    } else {
        tags
    }
}

/// A cached note as it reads back from its line under `guid`: the GUID is
/// the key, the summary fields stay, the content, tag names, attributes and
/// resources are not kept.
pub open spec fn norm_note(guid: Seq<char>, n: NoteView) -> NoteView {
    NoteView {
        guid,
        title: n.title,
        content: Seq::empty(),
        created: n.created,
        updated: n.updated,
        notebook_guid: norm_opt(n.notebook_guid),
        notebook_name: norm_opt(n.notebook_name),
        tag_guids: norm_tags(n.tag_guids),
        tag_names: Seq::empty(),
        attributes: crate::storage::default_attributes(),
        resources: Seq::empty(),
        content_length: n.content_length,
        largest_resource_mime: norm_opt(n.largest_resource_mime),
        largest_resource_size: n.largest_resource_size,
    }
}

proof fn lemma_dec_int_nonempty(v: int)
    ensures
        crate::text::dec_int(v).len() > 0,
{
    if v < 0 {
        lemma_dec_nat_digits((-v) as nat);
    } else {
        lemma_dec_nat_digits(v as nat);
    }
}

proof fn lemma_opt_i64_field(o: Option<i64>)
    ensures
        all_enc(crate::storage::opt_dec_i64(o)),
        crate::storage::opt_i64_field(crate::storage::opt_dec_i64(o)) == o,
{
    if let Some(v) = o {
        lemma_dec_int_nonempty(v as int);
        lemma_dec_int_chars(v as int);
        lemma_parse_dec_i64(v);
    }
}

proof fn lemma_opt_usize_field(o: Option<usize>)
    ensures
        all_enc(crate::storage::opt_dec_usize(o)),
        crate::storage::opt_usize_field(crate::storage::opt_dec_usize(o)) == o,
{
    if let Some(v) = o {
        lemma_dec_nat_digits(v as nat);
        lemma_dec_nat_chars(v as nat);
        lemma_parse_dec_usize(v);
    }
}

proof fn lemma_opt_text_field(o: Option<Seq<char>>)
    ensures
        plain_field(enc_spec(crate::storage::or_empty(o))),
        crate::storage::dec_optional(enc_spec(crate::storage::or_empty(o))) == Ok::<Option<Seq<char>>, Seq<char>>(
            norm_opt(o),
        ),
{
    lemma_enc_plain(crate::storage::or_empty(o));
    crate::storage::lemma_dec_enc(crate::storage::or_empty(o));
}

#[verifier::spinoff_prover]
proof fn lemma_tags_field(tags: Seq<Seq<char>>)
    ensures
        plain_field(join_spec(crate::storage::enc_all(tags), seq![','])),
        crate::storage::tag_guids_field(join_spec(crate::storage::enc_all(tags), seq![',']))
            == Ok::<Seq<Seq<char>>, Seq<char>>(norm_tags(tags)),
{
    let e = crate::storage::enc_all(tags);
    let f = join_spec(e, seq![',']);
    assert forall|i: int| 0 <= i < e.len() implies plain_field(#[trigger] e[i]) && lacks(e[i], ',') by {
        lemma_enc_plain(tags[i]);
    }
    assert forall|i: int| 0 <= i < e.len() implies lacks(#[trigger] e[i], '\t') by {
        assert(plain_field(e[i]));
    }
    assert forall|i: int| 0 <= i < e.len() implies lacks(#[trigger] e[i], '\n') by {
        assert(plain_field(e[i]));
    }
    assert forall|i: int| 0 <= i < e.len() implies lacks(#[trigger] e[i], '\r') by {
        assert(plain_field(e[i]));
    }
    lemma_join_lacks(e, seq![','], '\t');
    lemma_join_lacks(e, seq![','], '\n');
    lemma_join_lacks(e, seq![','], '\r');
    if tags.len() == 0 {
        assert(e =~= Seq::<Seq<char>>::empty());
        assert(norm_tags(tags) =~= Seq::<Seq<char>>::empty());
    } else {
        assert forall|i: int| 0 <= i < e.len() implies lacks(#[trigger] e[i], ',') by {
            lemma_enc_plain(tags[i]);
        }
        lemma_split_join(e, ',');
        lemma_dec_all_enc(tags);
        if tags.len() == 1 {
            lemma_enc_nonempty(tags[0]);
            assert(f == e[0]);
            if tags[0].len() == 0 {
                assert(norm_tags(tags) =~= Seq::<Seq<char>>::empty());
            }
        } else {
            assert(f.len() > 0);
        }
    }
}

/// A cached note's line stores the note under its key, as `norm_note` reads it.
#[verifier::spinoff_prover]
proof fn lemma_apply_note_line(st: StorageView, guid: Seq<char>, n: NoteView)
    ensures
        good_line(crate::storage::note_line(guid, n)),
        crate::storage::apply_line_spec(st, crate::storage::note_line(guid, n)) == Ok::<StorageView, Seq<char>>(
            StorageView { notes: st.notes.insert(guid, norm_note(guid, n)), ..st },
        ),
{
    lemma_kind_words();
    let parts = crate::storage::note_fields(guid, n);
    lemma_all_enc_plain("note"@);
    lemma_enc_plain(guid);
    lemma_enc_plain(n.title);
    lemma_opt_i64_field(n.created);
    lemma_opt_i64_field(n.updated);
    lemma_all_enc_plain(crate::storage::opt_dec_i64(n.created));
    lemma_all_enc_plain(crate::storage::opt_dec_i64(n.updated));
    lemma_opt_text_field(n.notebook_guid);
    lemma_opt_text_field(n.notebook_name);
    lemma_opt_text_field(n.largest_resource_mime);
    lemma_opt_usize_field(n.content_length);
    lemma_opt_usize_field(n.largest_resource_size);
    lemma_all_enc_plain(crate::storage::opt_dec_usize(n.content_length));
    lemma_all_enc_plain(crate::storage::opt_dec_usize(n.largest_resource_size));
    lemma_tags_field(n.tag_guids);
    assert forall|i: int| 0 <= i < parts.len() implies plain_field(#[trigger] parts[i]) by {
        if i == 0 {
        } else if i == 1 {
        } else if i == 2 {
        } else if i == 3 {
        } else if i == 4 {
        } else if i == 5 {
        } else if i == 6 {
        } else if i == 7 {
        } else if i == 8 {
        } else if i == 9 {
        } else {
        }
    }
    lemma_field_line(parts);
    crate::storage::lemma_dec_enc(guid);
    crate::storage::lemma_dec_enc(n.title);
}


/// The GUIDs of the notes of a search, in order.
pub open spec fn note_guids(s: crate::models::SearchResultView) -> Seq<Seq<char>> {
    s.notes.map_values(|n: NoteView| n.guid)
}

/// The notes of `notes` that `guids` name, in order; GUIDs that name none
/// are left out.
pub open spec fn search_pick(notes: Map<Seq<char>, NoteView>, guids: Seq<Seq<char>>) -> Seq<NoteView>
    decreases guids.len(),
{
    if guids.len() == 0 {
        Seq::empty()
    } else {
        let prev = search_pick(notes, guids.drop_last());
        if notes.dom().contains(guids.last()) {
            prev.push(notes[guids.last()])
        } else {
            prev
        }
    }
}

proof fn lemma_search_notes_enc(notes: Map<Seq<char>, NoteView>, guids: Seq<Seq<char>>)
    ensures
        crate::storage::search_notes(notes, crate::storage::enc_all(guids)) == search_pick(notes, guids),
    decreases guids.len(),
{
    let e = crate::storage::enc_all(guids);
    if guids.len() > 0 {
        assert(e.drop_last() =~= crate::storage::enc_all(guids.drop_last()));
        assert(e.last() == enc_spec(guids.last()));
        crate::storage::lemma_dec_enc(guids.last());
        lemma_search_notes_enc(notes, guids.drop_last());
    } else {
        assert(e =~= Seq::<Seq<char>>::empty());
    }
}

/// The fields of the search line: a search without notes writes one empty
/// field.
spec fn search_parts(s: crate::models::SearchResultView) -> Seq<Seq<char>> {
    if s.notes.len() == 0 {
        seq!["search"@, Seq::<char>::empty()]
    } else {
        seq!["search"@] + crate::storage::enc_all(note_guids(s))
    }
}

#[verifier::spinoff_prover]
proof fn lemma_search_fields(s: crate::models::SearchResultView)
    ensures
        good_line(crate::storage::search_line(s)),
        crate::text::split_spec(crate::storage::search_line(s), tab()) == search_parts(s),
{
    lemma_kind_words();
    lemma_all_enc_plain("search"@);
    let g = note_guids(s);
    let e = crate::storage::enc_all(g);
    let parts = search_parts(s);
    if s.notes.len() == 0 {
        assert(e =~= Seq::<Seq<char>>::empty());
        lemma_join_push(seq!["search"@], Seq::<char>::empty(), tab());
        assert(seq!["search"@].push(Seq::<char>::empty()) =~= parts);
        assert(join_spec(parts, tab()) =~= crate::storage::search_line(s));
    } else {
        lemma_join_concat(seq!["search"@], e, tab());
        assert(join_spec(parts, tab()) =~= crate::storage::search_line(s));
    }
    assert forall|i: int| 0 <= i < parts.len() implies plain_field(#[trigger] parts[i]) by {
        if i >= 1 && s.notes.len() > 0 {
            assert(parts[i] == enc_spec(g[i - 1]));
            lemma_enc_plain(g[i - 1]);
        }
    }
    lemma_field_line(parts);
}

/// The search line stores the cached notes that the search's GUIDs name.
#[verifier::spinoff_prover]
proof fn lemma_apply_search_line(st: StorageView, s: crate::models::SearchResultView)
    requires
        s.notes.len() > 0 || !st.notes.dom().contains(Seq::<char>::empty()),
    ensures
        good_line(crate::storage::search_line(s)),
        crate::storage::apply_line_spec(st, crate::storage::search_line(s)) == Ok::<StorageView, Seq<char>>(
            StorageView {
                search: Some(
                    crate::models::SearchResultView {
                        total_notes: search_pick(st.notes, note_guids(s)).len() as usize,
                        notes: search_pick(st.notes, note_guids(s)),
                    },
                ),
                ..st
            },
        ),
{
    lemma_kind_words();
    lemma_search_fields(s);
    let parts = search_parts(s);
    assert(parts[0] == "search"@);
    if s.notes.len() == 0 {
        assert(parts.skip(1) =~= seq![Seq::<char>::empty()]);
        lemma_dec_empty();
        assert(seq![Seq::<char>::empty()].drop_last() =~= Seq::<Seq<char>>::empty());
        assert(note_guids(s) =~= Seq::<Seq<char>>::empty());
        assert(search_pick(st.notes, note_guids(s)) =~= Seq::<NoteView>::empty());
        assert(crate::storage::search_notes(st.notes, Seq::<Seq<char>>::empty()) =~= Seq::<NoteView>::empty());
        assert(crate::storage::search_notes(st.notes, seq![Seq::<char>::empty()]) =~= Seq::<NoteView>::empty());
    } else {
        assert(parts.skip(1) =~= crate::storage::enc_all(note_guids(s)));
        lemma_search_notes_enc(st.notes, note_guids(s));
    }
}


// ---------------------------------------------------------------------------
// Reading the lines back
// ---------------------------------------------------------------------------

proof fn lemma_parse_push(p: Seq<Seq<char>>, l: Seq<char>)
    requires
        good_line(l),
    ensures
        parse_lines(p.push(l)) == (match parse_lines(p) {
            Ok(st) => apply_line_spec(st, l),
            Err(e) => Err(e),
        }),
{
    assert(p.push(l).drop_last() =~= p);
}

pub open spec fn user_fold(es: Seq<(String, StoredValue)>) -> Map<Seq<char>, StoredVal> {
    fold_entries(es, |k: Seq<char>, v: StoredVal| norm_stored(v))
}

pub open spec fn kv_fold(es: Seq<(String, String)>) -> Map<Seq<char>, Seq<char>> {
    fold_entries(es, |k: Seq<char>, v: Seq<char>| v)
}

pub open spec fn note_fold(es: Seq<(String, crate::models::Note)>) -> Map<Seq<char>, NoteView> {
    fold_entries(es, |k: Seq<char>, n: NoteView| norm_note(k, n))
}

#[verifier::spinoff_prover]
proof fn lemma_parse_user_group(p: Seq<Seq<char>>, st: StorageView, es: Seq<(String, StoredValue)>)
    requires
        parse_lines(p) == Ok::<StorageView, Seq<char>>(st),
        st.user_props == Map::<Seq<char>, StoredVal>::empty(),
    ensures
        parse_lines(p + crate::storage::user_lines(es)) == Ok::<StorageView, Seq<char>>(
            StorageView { user_props: user_fold(es), ..st },
        ),
    decreases es.len(),
{
    if es.len() == 0 {
        assert(p + crate::storage::user_lines(es) =~= p);
    } else {
        let d = es.drop_last();
        let e = es.last();
        lemma_parse_user_group(p, st, d);
        let l = user_line(e.0@, e.1@);
        assert(crate::storage::user_lines(es) =~= crate::storage::user_lines(d).push(l));
        assert(p + crate::storage::user_lines(es) =~= (p + crate::storage::user_lines(d)).push(l));
        lemma_apply_user_line(StorageView { user_props: user_fold(d), ..st }, e.0@, e.1@);
        lemma_parse_push(p + crate::storage::user_lines(d), l);
    }
}

#[verifier::spinoff_prover]
proof fn lemma_parse_kv_group(p: Seq<Seq<char>>, st: StorageView, kind: Seq<char>, es: Seq<(String, String)>)
    requires
        kv_kind(kind),
        parse_lines(p) == Ok::<StorageView, Seq<char>>(st),
        kv_field(st, kind) == Map::<Seq<char>, Seq<char>>::empty(),
    ensures
        parse_lines(p + crate::storage::kv_lines(kind, es)) == Ok::<StorageView, Seq<char>>(
            set_kv_field(st, kind, kv_fold(es)),
        ),
    decreases es.len(),
{
    lemma_kind_words();
    if es.len() == 0 {
        assert(p + crate::storage::kv_lines(kind, es) =~= p);
        assert(set_kv_field(st, kind, kv_fold(es)) == st);
    } else {
        let d = es.drop_last();
        let e = es.last();
        lemma_parse_kv_group(p, st, kind, d);
        let l = kv_line(kind, e.0@, e.1@);
        assert(crate::storage::kv_lines(kind, es) =~= crate::storage::kv_lines(kind, d).push(l));
        assert(p + crate::storage::kv_lines(kind, es) =~= (p + crate::storage::kv_lines(kind, d)).push(l));
        let st1 = set_kv_field(st, kind, kv_fold(d));
        lemma_apply_kv_line(st1, kind, e.0@, e.1@);
        lemma_parse_push(p + crate::storage::kv_lines(kind, d), l);
        assert(kv_field(st1, kind) == kv_fold(d));
        assert(set_kv_field(st1, kind, kv_fold(d).insert(e.0@, e.1@)) == set_kv_field(st, kind, kv_fold(es)));
    }
}

proof fn lemma_note_fold_push(es: Seq<(String, crate::models::Note)>)
    requires
        es.len() > 0,
    ensures
        note_fold(es) == note_fold(es.drop_last()).insert(es.last().0@, norm_note(es.last().0@, es.last().1@)),
{
}

proof fn lemma_note_lines_push(p: Seq<Seq<char>>, es: Seq<(String, crate::models::Note)>)
    requires
        es.len() > 0,
    ensures
        p + crate::storage::note_lines(es) == (p + crate::storage::note_lines(es.drop_last())).push(
            crate::storage::note_line(es.last().0@, es.last().1@),
        ),
{
    let l = crate::storage::note_line(es.last().0@, es.last().1@);
    assert(crate::storage::note_lines(es) =~= crate::storage::note_lines(es.drop_last()).push(l));
    assert(p + crate::storage::note_lines(es) =~= (p + crate::storage::note_lines(es.drop_last())).push(l));
}

#[verifier::spinoff_prover]
proof fn lemma_parse_note_group(p: Seq<Seq<char>>, st: StorageView, es: Seq<(String, crate::models::Note)>)
    requires
        parse_lines(p) == Ok::<StorageView, Seq<char>>(st),
        st.notes == Map::<Seq<char>, NoteView>::empty(),
    ensures
        parse_lines(p + crate::storage::note_lines(es)) == Ok::<StorageView, Seq<char>>(
            StorageView { notes: note_fold(es), ..st },
        ),
    decreases es.len(),
{
    if es.len() == 0 {
        assert(p + crate::storage::note_lines(es) =~= p);
    } else {
        let d = es.drop_last();
        let e = es.last();
        lemma_parse_note_group(p, st, d);
        let l = crate::storage::note_line(e.0@, e.1@);
        lemma_note_lines_push(p, es);
        lemma_note_fold_push(es);
        lemma_apply_note_line(StorageView { notes: note_fold(d), ..st }, e.0@, e.1@);
        lemma_parse_push(p + crate::storage::note_lines(d), l);
    }
}


pub open spec fn good_lines(ls: Seq<Seq<char>>) -> bool {
    forall|i: int| 0 <= i < ls.len() ==> good_line(#[trigger] ls[i])
}

proof fn lemma_good_lines_concat(a: Seq<Seq<char>>, b: Seq<Seq<char>>)
    requires
        good_lines(a),
        good_lines(b),
    ensures
        good_lines(a + b),
{
    assert forall|i: int| 0 <= i < (a + b).len() implies good_line(#[trigger] (a + b)[i]) by {
        if i < a.len() {
            assert((a + b)[i] == a[i]);
        } else {
            assert((a + b)[i] == b[i - a.len()]);
        }
    }
}

#[verifier::spinoff_prover]
proof fn lemma_storage_lines_good(d: crate::storage::StorageData)
    ensures
        good_lines(crate::storage::storage_lines(d)),
{
    let st = crate::storage::empty_view();
    let u = crate::storage::user_lines(d.user_props.entry_seq());
    assert forall|i: int| 0 <= i < u.len() implies good_line(#[trigger] u[i]) by {
        let e = d.user_props.entry_seq()[i];
        lemma_apply_user_line(st, e.0@, e.1@);
    }
    lemma_kind_words();
    let s1 = crate::storage::kv_lines("setting"@, d.settings.entry_seq());
    assert forall|i: int| 0 <= i < s1.len() implies good_line(#[trigger] s1[i]) by {
        let e = d.settings.entry_seq()[i];
        lemma_apply_kv_line(st, "setting"@, e.0@, e.1@);
    }
    let s2 = crate::storage::kv_lines("tag"@, d.tags.entry_seq());
    assert forall|i: int| 0 <= i < s2.len() implies good_line(#[trigger] s2[i]) by {
        let e = d.tags.entry_seq()[i];
        lemma_apply_kv_line(st, "tag"@, e.0@, e.1@);
    }
    let s3 = crate::storage::kv_lines("notebook"@, d.notebooks.entry_seq());
    assert forall|i: int| 0 <= i < s3.len() implies good_line(#[trigger] s3[i]) by {
        let e = d.notebooks.entry_seq()[i];
        lemma_apply_kv_line(st, "notebook"@, e.0@, e.1@);
    }
    let n = crate::storage::note_lines(d.notes.entry_seq());
    assert forall|i: int| 0 <= i < n.len() implies good_line(#[trigger] n[i]) by {
        let e = d.notes.entry_seq()[i];
        lemma_apply_note_line(st, e.0@, e.1@);
    }
    let sr = crate::storage::search_lines(d.search);
    if let Some(x) = d.search {
        lemma_search_fields(x@);
        assert(sr[0] == crate::storage::search_line(x@));
    }
    lemma_good_lines_concat(u, s1);
    lemma_good_lines_concat(u + s1, s2);
    lemma_good_lines_concat(u + s1 + s2, s3);
    lemma_good_lines_concat(u + s1 + s2 + s3, n);
    lemma_good_lines_concat(u + s1 + s2 + s3 + n, sr);
}

/// What a store reads back as from its file: user details lose their
/// accounting and time zone and an empty list reads as one empty item;
/// cached notes keep their summary fields, under their keys, with empty
/// optional texts read as none; the last search keeps the cached notes that
/// its GUIDs name.
pub open spec fn stored_view(v: StorageView) -> StorageView {
    let notes = Map::new(|k: Seq<char>| v.notes.dom().contains(k), |k: Seq<char>| norm_note(k, v.notes[k]));
    StorageView {
        user_props: Map::new(
            |k: Seq<char>| v.user_props.dom().contains(k),
            |k: Seq<char>| norm_stored(v.user_props[k]),
        ),
        settings: v.settings,
        tags: v.tags,
        notebooks: v.notebooks,
        notes,
        search: match v.search {
            Some(s) => Some(
                crate::models::SearchResultView {
                    total_notes: search_pick(notes, note_guids(s)).len() as usize,
                    notes: search_pick(notes, note_guids(s)),
                },
            ),
            None => None,
        },
    }
}

/// Reading the file that a store writes gives the store back, as
/// `stored_view` describes, save where a search without notes meets a note
/// cached under an empty GUID.
#[verifier::spinoff_prover]
pub proof fn lemma_storage_roundtrip(d: crate::storage::StorageData)
    requires
        d.wf(),
        d@.search matches Some(s) && s.notes.len() == 0 ==> !d@.notes.dom().contains(Seq::<char>::empty()),
    ensures
        crate::storage::parse_storage_spec(crate::storage::serialize_spec(d)) == Ok::<StorageView, Seq<char>>(
            stored_view(d@),
        ),
{
    let ls = crate::storage::storage_lines(d);
    lemma_storage_lines_good(d);
    assert forall|i: int| 0 <= i < ls.len() implies lacks(#[trigger] ls[i], '\n') && !(ls[i].len() > 0
        && ls[i].last() == '\r') by {
        assert(good_line(ls[i]));
    }
    lemma_lines_terminated(ls);
    lemma_kind_words();
    let ue = d.user_props.entry_seq();
    let se = d.settings.entry_seq();
    let te = d.tags.entry_seq();
    let be = d.notebooks.entry_seq();
    let ne = d.notes.entry_seq();
    let u = crate::storage::user_lines(ue);
    let s1 = crate::storage::kv_lines("setting"@, se);
    let s2 = crate::storage::kv_lines("tag"@, te);
    let s3 = crate::storage::kv_lines("notebook"@, be);
    let n = crate::storage::note_lines(ne);
    let st0 = crate::storage::empty_view();
    assert(parse_lines(Seq::<Seq<char>>::empty()) == Ok::<StorageView, Seq<char>>(st0));
    lemma_parse_user_group(Seq::<Seq<char>>::empty(), st0, ue);
    assert(Seq::<Seq<char>>::empty() + u =~= u);
    let st1 = StorageView { user_props: user_fold(ue), ..st0 };
    lemma_parse_kv_group(u, st1, "setting"@, se);
    let st2 = set_kv_field(st1, "setting"@, kv_fold(se));
    lemma_parse_kv_group(u + s1, st2, "tag"@, te);
    let st3 = set_kv_field(st2, "tag"@, kv_fold(te));
    lemma_parse_kv_group(u + s1 + s2, st3, "notebook"@, be);
    let st4 = set_kv_field(st3, "notebook"@, kv_fold(be));
    lemma_parse_note_group(u + s1 + s2 + s3, st4, ne);
    let st5 = StorageView { notes: note_fold(ne), ..st4 };
    let p5 = u + s1 + s2 + s3 + n;
    // the maps that the groups build are the maps of the store
    lemma_fold_entries(ue, |k: Seq<char>, v: StoredVal| norm_stored(v));
    lemma_fold_entries(se, |k: Seq<char>, v: Seq<char>| v);
    lemma_fold_entries(te, |k: Seq<char>, v: Seq<char>| v);
    lemma_fold_entries(be, |k: Seq<char>, v: Seq<char>| v);
    lemma_fold_entries(ne, |k: Seq<char>, n: NoteView| norm_note(k, n));
    let sv = stored_view(d@);
    assert(user_fold(ue) =~= sv.user_props);
    assert(kv_fold(se) =~= sv.settings);
    assert(kv_fold(te) =~= sv.tags);
    assert(kv_fold(be) =~= sv.notebooks);
    assert(note_fold(ne) =~= sv.notes);
    match d.search {
        None => {
            assert(ls =~= p5);
            assert(st5 == sv);
        },
        Some(x) => {
            assert(ls =~= p5.push(crate::storage::search_line(x@)));
            lemma_apply_search_line(st5, x@);
            lemma_parse_push(p5, crate::storage::search_line(x@));
            assert(d@.search == Some(x@));
        },
    }
}


/// A store reopened from the text that `snapshot` gives it holds what
/// `stored_view` says of the store's contents.
pub proof fn lemma_reopen(s: crate::storage::Storage)
    requires
        s.wf(),
        s@.search matches Some(r) && r.notes.len() == 0 ==> !s@.notes.dom().contains(Seq::<char>::empty()),
    ensures
        crate::storage::parse_storage_spec(crate::storage::serialize_spec(s.data_spec())) == Ok::<
            StorageView,
            Seq<char>,
        >(stored_view(s@)),
{
    s.lemma_data_spec();
    lemma_storage_roundtrip(s.data_spec());
}

} // verus!
