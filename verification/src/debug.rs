use vstd::prelude::*;
use crate::text::{chars_of, dec_nat, join_spec, push_all, push_str, string_of, string_views, usize_dec};

verus! {

/// What `format!("{:?}", s)` writes for a string `s`: `s` in double quotes,
/// each character as `char::escape_debug` escapes it.
pub uninterp spec fn str_debug(s: Seq<char>) -> Seq<char>;

/// `<str as Debug>::fmt`, through `format!("{:?}", s)`.  The contract names
/// the result and says nothing of the escaping itself.
#[verifier::external_body]
pub(crate) fn debug_str(s: &str) -> (res: String)
    ensures
        res@ == str_debug(s@),
{
    format!("{:?}", s)
}

/// The `Debug` form of a list of strings (a slice, a `Vec` or an array):
/// the strings' forms between brackets, separated by `, `.
pub open spec fn debug_list_spec(items: Seq<Seq<char>>) -> Seq<char> {
    "["@ + join_spec(items.map_values(|s: Seq<char>| str_debug(s)), ", "@) + "]"@
}

/// The `Debug` form of an optional value whose own form is `inner`.
pub open spec fn debug_some(inner: Seq<char>) -> Seq<char> {
    "Some("@ + inner + ")"@
}

pub open spec fn debug_opt_list_spec(o: Option<Seq<Seq<char>>>) -> Seq<char> {
    match o {
        Some(v) => debug_some(debug_list_spec(v)),
        None => "None"@,
    }
}

pub open spec fn debug_opt_str_spec(o: Option<Seq<char>>) -> Seq<char> {
    match o {
        Some(s) => debug_some(str_debug(s)),
        None => "None"@,
    }
}

pub open spec fn debug_opt_usize_spec(o: Option<usize>) -> Seq<char> {
    match o {
        Some(n) => debug_some(dec_nat(n as nat)),
        None => "None"@,
    }
}

/// `format!("{:?}", items)` for a list of strings.
pub fn debug_string_list(items: &[String]) -> (res: String)
    ensures
        res@ == debug_list_spec(string_views(items@)),
{
    let ghost forms = string_views(items@).map_values(|s: Seq<char>| str_debug(s));
    let mut out: Vec<char> = vec!['['];
    let mut i: usize = 0;
    while i < items.len()
        invariant
            i <= items.len(),
            forms == string_views(items@).map_values(|s: Seq<char>| str_debug(s)),
            out@ == seq!['['] + join_spec(forms.take(i as int), ", "@),
        decreases items.len() - i,
    {
        if i > 0 {
            push_str(&mut out, ", ");
        }
        let d = debug_str(items[i].as_str());
        push_str(&mut out, d.as_str());
        assert(forms.take(i + 1).drop_last() =~= forms.take(i as int));
        assert(forms.take(i + 1).last() == d@);
        i += 1;
    }
    out.push(']');
    assert(forms.take(items.len() as int) =~= forms);
    proof {
        reveal_strlit("[");
        reveal_strlit("]");
    }
    assert(out@ =~= debug_list_spec(string_views(items@)));
    string_of(out.as_slice())
}

/// `format!("{:?}", items)` for an optional list of strings.
pub fn debug_opt_string_list(items: &Option<Vec<String>>) -> (res: String)
    ensures
        res@ == debug_opt_list_spec(match items {
            Some(v) => Some(string_views(v@)),
            None => None,
        }),
{
    match items {
        Some(v) => {
            let mut out = chars_of("Some(");
            push_str(&mut out, debug_string_list(v.as_slice()).as_str());
            out.push(')');
            proof {
                reveal_strlit(")");
            }
            string_of(out.as_slice())
        },
        None => "None".to_string(),
    }
}

/// `format!("{:?}", o)` for an optional string.
pub fn debug_opt_string(o: &Option<String>) -> (res: String)
    ensures
        res@ == debug_opt_str_spec(crate::models::opt_str(*o)),
{
    match o {
        Some(s) => {
            let mut out = chars_of("Some(");
            push_str(&mut out, debug_str(s.as_str()).as_str());
            out.push(')');
            proof {
                reveal_strlit(")");
            }
            string_of(out.as_slice())
        },
        None => "None".to_string(),
    }
}

/// `format!("{:?}", o)` for an optional count.
pub fn debug_opt_usize(o: Option<usize>) -> (res: String)
    ensures
        res@ == debug_opt_usize_spec(o),
{
    match o {
        Some(n) => {
            let mut out = chars_of("Some(");
            push_all(&mut out, usize_dec(n).as_slice());
            out.push(')');
            proof {
                reveal_strlit(")");
            }
            string_of(out.as_slice())
        },
        None => "None".to_string(),
    }
}

} // verus!
