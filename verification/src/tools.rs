use vstd::prelude::*;
use crate::strmap::StrMap;
use crate::text::{chars_of, in_class, string_of, trim, trim_class, CharClass, parse_i64};

verus! {

/// `value`, once trimmed of white space, reads as an `i64`.
pub fn check_is_int(value: &str) -> (b: bool)
    ensures
        b == crate::text::parse_i64_spec(crate::text::trim_ws(value@)) is Some,
{
    let v = chars_of(value);
    let t = trim(v.as_slice());
    parse_i64(t.as_slice()).is_some()
}

/// `value` without the spaces, tabs, newlines, carriage returns and quotes
/// around it.
pub open spec fn strip_spec(value: Seq<char>) -> Seq<char> {
    crate::text::trim_spec(value, CharClass::Wrapping)
}

/// Stripping a stripped value leaves it as it is.
pub proof fn lemma_strip_idempotent(value: Seq<char>)
    ensures
        strip_spec(strip_spec(value)) == strip_spec(value),
{
    crate::text::lemma_trim_idempotent(value, CharClass::Wrapping);
}

/// Stripping keeps the part of `value` from its first character that is not
/// a space, tab, line break, carriage return or quote to its last such
/// character; what is cut off at either end is all of those characters, and
/// what lies inside is kept as it is.
pub proof fn lemma_strip_bounds(value: Seq<char>) -> (r: (int, int))
    ensures
        0 <= r.0 <= r.1 <= value.len(),
        strip_spec(value) == value.subrange(r.0, r.1),
        forall|k: int| 0 <= k < r.0 ==> #[trigger] in_class(value[k], CharClass::Wrapping),
        forall|k: int| r.1 <= k < value.len() ==> #[trigger] in_class(value[k], CharClass::Wrapping),
        r.0 < r.1 ==> !in_class(value[r.0], CharClass::Wrapping) && !in_class(value[r.1 - 1], CharClass::Wrapping),
{
    crate::text::lemma_trim_bounds(value, CharClass::Wrapping)
}

pub fn strip_string(value: &str) -> (res: String)
    ensures
        res@ == strip_spec(value@),
{
    let v = chars_of(value);
    let t = trim_class(v.as_slice(), CharClass::Wrapping);
    string_of(t.as_slice())
}

pub fn strip_option(value: Option<String>) -> (res: Option<String>)
    ensures
        match value {
            Some(v) => res matches Some(r) && r@ == strip_spec(v@),
            None => res is None,
        },
{
    match value {
        Some(item) => Some(strip_string(item.as_str())),
        None => None,
    }
}

pub fn strip_vec(values: &[String]) -> (res: Vec<String>)
    ensures
        res@.len() == values@.len(),
        forall|i: int| 0 <= i < values@.len() ==> #[trigger] res@[i]@ == strip_spec(values@[i]@),
{
    let mut out: Vec<String> = Vec::new();
    let mut i: usize = 0;
    while i < values.len()
        invariant
            i <= values.len(),
            out@.len() == i,
            forall|j: int| 0 <= j < i ==> #[trigger] out@[j]@ == strip_spec(values@[j]@),
        decreases values.len() - i,
    {
        out.push(strip_string(values[i].as_str()));
        i += 1;
    }
    out
}

/// Some entry among the first `n` of `values` has a key that strips to `k`.
pub open spec fn strips_to(values: StrMap<String>, n: int, k: Seq<char>) -> bool {
    exists|i: int| 0 <= i < n && #[trigger] strip_spec(values.key_seq()[i]) == k
}

/// No entry after the `i`-th, among the first `n`, has a key that strips as
/// the `i`-th does.
pub open spec fn last_to_strip(values: StrMap<String>, n: int, i: int) -> bool {
    forall|j: int| i < j < n ==> #[trigger] strip_spec(values.key_seq()[j]) != strip_spec(values.key_seq()[i])
}

/// The map with every key stripped; where two stripped keys coincide, the
/// value of the later key (in key order) wins.
pub fn strip_map(values: &StrMap<String>) -> (res: StrMap<String>)
    requires
        values.wf(),
    ensures
        res.wf(),
        forall|k: Seq<char>| #[trigger] res.map_view().contains_key(k) <==> strips_to(*values, values.len_spec() as int, k),
        forall|i: int|
            0 <= i < values.len_spec() && last_to_strip(*values, values.len_spec() as int, i)
                ==> res.map_view()[#[trigger] strip_spec(values.key_seq()[i])] == values.value_seq()[i]@,
{
    let mut out: StrMap<String> = StrMap::new();
    let mut i: usize = 0;
    while i < values.len()
        invariant
            i <= values.len_spec(),
            values.wf(),
            out.wf(),
            forall|k: Seq<char>| #[trigger] out.lookup(k) is Some <==> strips_to(*values, i as int, k),
            forall|j: int|
                0 <= j < i && last_to_strip(*values, i as int, j)
                    ==> out.lookup(#[trigger] strip_spec(values.key_seq()[j])) == Some(values.value_seq()[j]),
        decreases values.len_spec() - i,
    {
        let key = strip_string(values.key_at(i).as_str());
        let value = values.value_at(i).clone();
        assert(value == values.value_seq()[i as int]);
        let ghost before = out;
        out.insert(key, value);
        proof {
            assert forall|k: Seq<char>| #[trigger] out.lookup(k) is Some <==> strips_to(*values, i + 1, k) by {
                if k == key@ {
                    assert(strip_spec(values.key_seq()[i as int]) == k);
                } else {
                    if strips_to(*values, i + 1, k) {
                        let w = choose|w: int| 0 <= w < i + 1 && #[trigger] strip_spec(values.key_seq()[w]) == k;
                        assert(w != i);
                    }
                }
            }
            assert forall|j: int|
                0 <= j < i + 1 && last_to_strip(*values, i + 1, j) implies out.lookup(
                #[trigger] strip_spec(values.key_seq()[j]),
            ) == Some(values.value_seq()[j]) by {
                if j < i {
                    assert(strip_spec(values.key_seq()[i as int]) != strip_spec(values.key_seq()[j]));
                    assert(last_to_strip(*values, i as int, j));
                }
            }
        }
        i += 1;
    }
    proof {
        assert forall|k: Seq<char>| #[trigger] out.map_view().contains_key(k) <==> strips_to(
            *values,
            values.len_spec() as int,
            k,
        ) by {
            assert(out.lookup(k) is Some <==> strips_to(*values, i as int, k));
        }
    }
    out
}

/// The arguments as they are.
pub fn decode_args(args: &[String]) -> (res: Vec<String>)
    ensures
        res@ == args@,
{
    let mut out: Vec<String> = Vec::new();
    let mut i: usize = 0;
    while i < args.len()
        invariant
            i <= args.len(),
            out@ == args@.take(i as int),
        decreases args.len() - i,
    {
        out.push(args[i].clone());
        i += 1;
        assert(out@ =~= args@.take(i as int));
    }
    assert(args@.take(args.len() as int) =~= args@);
    out
}

/// A record of string entries.
#[derive(Clone, Debug, PartialEq, Eq)]
pub struct Struct {
    pub entries: StrMap<String>,
}

impl Struct {
    pub fn new(entries: StrMap<String>) -> (res: Self)
        ensures
            res.entries == entries,
    {
        Struct { entries }
    }
}

} // verus!
