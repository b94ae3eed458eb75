use vstd::prelude::*;
use vstd::utf8::*;
use crate::config::{Config, CONSUMER_KEY, CONSUMER_SECRET};
use crate::errors::{ErrorView, ReeknoteError, text_outcome};
use crate::strmap::StrMap;
use crate::text::{chars_of, hex_byte, hex_digit, hex_pair, hex_pair_exec, hex_val, push_all, push_hex_byte, push_str, string_from_utf8, string_of};

verus! {

/// An OAuth token and its secret.
#[derive(Clone, Debug, PartialEq, Eq)]
pub struct OAuthToken {
    pub token: String,
    pub secret: String,
}

/// The OAuth side of logging in to Evernote.
#[derive(Clone, Debug, PartialEq, Eq)]
pub struct OAuthClient {
    base_url: String,
    consumer_key: String,
    consumer_secret: String,
}

// ---------------------------------------------------------------------------
// Percent encoding
// ---------------------------------------------------------------------------

/// A byte that is written as it is: an ASCII letter or digit, `-`, `.`, `_` or `~`.
pub open spec fn url_unreserved(b: u8) -> bool {
    ||| 0x30 <= b <= 0x39
    ||| 0x41 <= b <= 0x5a
    ||| 0x61 <= b <= 0x7a
    ||| b == 0x2d
    ||| b == 0x2e
    ||| b == 0x5f
    ||| b == 0x7e
}

pub open spec fn pct_byte(b: u8) -> Seq<char> {
    if url_unreserved(b) {
        seq![b as char]
    } else {
        seq!['%'] + hex_byte(b, true)
    }
}

pub open spec fn pct_bytes(bs: Seq<u8>) -> Seq<char>
    decreases bs.len(),
{
    if bs.len() == 0 {
        Seq::empty()
    } else {
        pct_byte(bs[0]) + pct_bytes(bs.drop_first())
    }
}

/// The percent-encoded form of a text: its UTF-8 bytes, each escaped.
pub open spec fn percent_encode_spec(s: Seq<char>) -> Seq<char> {
    pct_bytes(encode_utf8(s))
}

/// The bytes that a percent-encoded byte sequence stands for, `+` being a
/// space; `None` for a broken escape.
pub open spec fn pct_dec_bytes(s: Seq<u8>) -> Option<Seq<u8>>
    decreases s.len(),
{
    if s.len() == 0 {
        Some(Seq::empty())
    } else if s[0] == 0x2b {
        match pct_dec_bytes(s.skip(1)) {
            Some(r) => Some(seq![0x20u8] + r),
            None => None,
        }
    } else if s[0] == 0x25 {
        if s.len() < 3 {
            None
        } else {
            match hex_pair(s[1], s[2]) {
                Some(v) => match pct_dec_bytes(s.skip(3)) {
                    Some(r) => Some(seq![v] + r),
                    None => None,
                },
                None => None,
            }
        }
    } else {
        match pct_dec_bytes(s.skip(1)) {
            Some(r) => Some(seq![s[0]] + r),
            None => None,
        }
    }
}

/// What `percent_decode` gives for `s`.
pub open spec fn percent_decode_spec(s: Seq<char>) -> Result<Seq<char>, ErrorView> {
    match pct_dec_bytes(encode_utf8(s)) {
        None => Err(ErrorView::Parse("invalid percent escape in OAuth value: "@ + s)),
        Some(b) => if valid_utf8(b) {
            Ok(decode_utf8(b))
        } else {
            Err(ErrorView::Parse("OAuth value is not valid UTF-8: "@ + s))
        },
    }
}

proof fn lemma_pct_bytes_push(bs: Seq<u8>, b: u8)
    ensures
        pct_bytes(bs.push(b)) == pct_bytes(bs) + pct_byte(b),
    decreases bs.len(),
{
    if bs.len() == 0 {
        assert(bs.push(b).drop_first() =~= Seq::<u8>::empty());
        assert(bs.push(b)[0] == b);
        assert(pct_bytes(Seq::<u8>::empty()) == Seq::<char>::empty());
        assert(pct_bytes(bs) == Seq::<char>::empty());
        assert(pct_bytes(bs.push(b)) =~= pct_byte(b) + Seq::<char>::empty());
    } else {
        assert(bs.push(b).drop_first() =~= bs.drop_first().push(b));
        lemma_pct_bytes_push(bs.drop_first(), b);
        assert(pct_bytes(bs.push(b)) =~= pct_bytes(bs) + pct_byte(b));
    }
}

fn is_url_unreserved(b: u8) -> (r: bool)
    ensures
        r == url_unreserved(b),
{
    (0x30 <= b && b <= 0x39) || (0x41 <= b && b <= 0x5a) || (0x61 <= b && b <= 0x7a) || b == 0x2d
        || b == 0x2e || b == 0x5f || b == 0x7e
}

/// Percent-encodes a text as OAuth asks: every byte but the unreserved ones as `%XX`.
pub fn percent_encode(value: &str) -> (res: String)
    ensures
        res@ == percent_encode_spec(value@),
{
    let bytes = value.as_bytes();
    let mut out: Vec<char> = Vec::new();
    let mut i: usize = 0;
    assert(bytes@.take(0) =~= Seq::<u8>::empty());
    while i < bytes.len()
        invariant
            i <= bytes@.len(),
            out@ == pct_bytes(bytes@.take(i as int)),
        decreases bytes.len() - i,
    {
        let b = bytes[i];
        proof {
            assert(bytes@.take(i + 1) =~= bytes@.take(i as int).push(b));
            lemma_pct_bytes_push(bytes@.take(i as int), b);
        }
        if is_url_unreserved(b) {
            out.push(b as char);
            assert(out@ =~= pct_bytes(bytes@.take(i as int)) + pct_byte(b));
        } else {
            out.push('%');
            push_hex_byte(&mut out, b, true);
            assert(out@ =~= pct_bytes(bytes@.take(i as int)) + pct_byte(b));
        }
        i += 1;
    }
    assert(bytes@.take(i as int) =~= bytes@);
    string_of(out.as_slice())
}

fn oauth_parse_error(prefix: &str, value: &str) -> (e: ReeknoteError)
    ensures
        e@ == ErrorView::Parse(prefix@ + value@),
{
    let mut m = chars_of(prefix);
    push_str(&mut m, value);
    ReeknoteError::Parse(string_of(m.as_slice()))
}

/// Undoes percent encoding: `%XX` becomes the byte `XX` and `+` a space; the
/// bytes are read as UTF-8.
pub fn percent_decode(value: &str) -> (res: Result<String, ReeknoteError>)
    ensures
        text_outcome(res, percent_decode_spec(value@)),
{
    let bytes = value.as_bytes();
    let ghost s = bytes@;
    assert(s == encode_utf8(value@));
    let mut out: Vec<u8> = Vec::new();
    let mut i: usize = 0;
    assert(s.skip(0) =~= s);
    assert(out@ + Seq::<u8>::empty() =~= out@);
    while i < bytes.len()
        invariant
            i <= s.len(),
            s == bytes@,
            s == encode_utf8(value@),
            pct_dec_bytes(s) == match pct_dec_bytes(s.skip(i as int)) {
                Some(r) => Some(out@ + r),
                None => None,
            },
        decreases bytes.len() - i,
    {
        let b = bytes[i];
        let ghost t = s.skip(i as int);
        assert(t[0] == b);
        if b == 0x2b {
            assert(t.skip(1) =~= s.skip(i + 1));
            let ghost before = out@;
            out.push(0x20);
            proof {
                match pct_dec_bytes(s.skip(i + 1)) {
                    Some(r) => {
                        assert(before + (seq![0x20u8] + r) =~= out@ + r);
                    },
                    None => {},
                }
            }
            i += 1;
        } else if b == 0x25 {
            if bytes.len() - i < 3 {
                assert(pct_dec_bytes(t) is None);
                return Err(oauth_parse_error("invalid percent escape in OAuth value: ", value));
            }
            assert(t[1] == s[i + 1] && t[2] == s[i + 2]);
            match hex_pair_exec(bytes[i + 1], bytes[i + 2]) {
                Some(v) => {
                    assert(t.skip(3) =~= s.skip(i + 3));
                    let ghost before = out@;
                    out.push(v);
                    proof {
                        match pct_dec_bytes(s.skip(i + 3)) {
                            Some(r) => {
                                assert(before + (seq![v] + r) =~= out@ + r);
                            },
                            None => {},
                        }
                    }
                    i += 3;
                },
                None => {
                    assert(pct_dec_bytes(t) is None);
                    return Err(oauth_parse_error("invalid percent escape in OAuth value: ", value));
                },
            }
        } else {
            assert(t.skip(1) =~= s.skip(i + 1));
            let ghost before = out@;
            out.push(b);
            proof {
                match pct_dec_bytes(s.skip(i + 1)) {
                    Some(r) => {
                        assert(before + (seq![b] + r) =~= out@ + r);
                    },
                    None => {},
                }
            }
            i += 1;
        }
    }
    assert(s.skip(i as int) =~= Seq::<u8>::empty());
    assert(out@ + Seq::<u8>::empty() =~= out@);
    match string_from_utf8(out) {
        Some(t) => Ok(t),
        None => Err(oauth_parse_error("OAuth value is not valid UTF-8: ", value)),
    }
}

// ---------------------------------------------------------------------------
// The law: decoding undoes encoding
// ---------------------------------------------------------------------------

pub open spec fn ascii_bytes(cs: Seq<char>) -> Seq<u8> {
    cs.map_values(|c: char| c as u8)
}

proof fn lemma_pct_bytes_ascii(bs: Seq<u8>)
    ensures
        is_ascii_chars(pct_bytes(bs)),
    decreases bs.len(),
{
    if bs.len() > 0 {
        let d1 = bs[0] as int / 16;
        let d2 = bs[0] as int % 16;
        assert(0 <= d1 < 16 && 0 <= d2 < 16);
        lemma_pct_bytes_ascii(bs.drop_first());
        let e = pct_bytes(bs);
        assert forall|i: int| 0 <= i < e.len() implies '\0' <= #[trigger] e[i] <= '\u{7f}' by {
            let f = pct_byte(bs[0]);
            if i < f.len() {
                assert(e[i] == f[i]);
            } else {
                assert(e[i] == pct_bytes(bs.drop_first())[i - f.len()]);
            }
        }
    }
}

proof fn lemma_hex_digit_val(d: int)
    requires
        0 <= d < 16,
    ensures
        hex_val(hex_digit(d, true) as u8) == Some(d),
{
}

proof fn lemma_pct_dec_bytes(bs: Seq<u8>)
    ensures
        pct_dec_bytes(ascii_bytes(pct_bytes(bs))) == Some(bs),
    decreases bs.len(),
{
    let a = ascii_bytes(pct_bytes(bs));
    if bs.len() == 0 {
        assert(a =~= Seq::<u8>::empty());
        assert(bs =~= Seq::<u8>::empty());
    } else {
        let x = bs[0];
        let rest = bs.drop_first();
        let f = pct_byte(x);
        let ar = ascii_bytes(pct_bytes(rest));
        assert(a =~= ascii_bytes(f) + ar);
        lemma_pct_dec_bytes(rest);
        if url_unreserved(x) {
            assert(a[0] == x);
            assert(a.skip(1) =~= ar);
            assert(bs =~= seq![x] + rest);
        } else {
            let d1 = x as int / 16;
            let d2 = x as int % 16;
            assert(d1 * 16 + d2 == x as int);
            lemma_hex_digit_val(d1);
            lemma_hex_digit_val(d2);
            assert(a[0] == 0x25u8);
            assert(a[1] == hex_digit(d1, true) as u8);
            assert(a[2] == hex_digit(d2, true) as u8);
            assert(hex_pair(a[1], a[2]) == Some(x));
            assert(a.skip(3) =~= ar);
            assert(bs =~= seq![x] + rest);
        }
    }
}

/// Decoding a percent-encoded text gives back the text:
/// `percent_decode(percent_encode(s)) == Ok(s)`.
pub proof fn lemma_percent_decode_encode(s: Seq<char>)
    ensures
        percent_decode_spec(percent_encode_spec(s)) == Ok::<Seq<char>, ErrorView>(s),
{
    let e = percent_encode_spec(s);
    lemma_pct_bytes_ascii(encode_utf8(s));
    is_ascii_chars_encode_utf8(e);
    assert(encode_utf8(e) =~= ascii_bytes(e));
    lemma_pct_dec_bytes(encode_utf8(s));
    encode_utf8_valid_utf8(s);
    encode_utf8_decode_utf8(s);
}

// ---------------------------------------------------------------------------
// Responses and requests
// ---------------------------------------------------------------------------

/// The query part of an OAuth response: what follows the first `?`, if any, trimmed.
pub open spec fn oauth_query(r: Seq<char>) -> Seq<char> {
    crate::text::trim_ws(
        match crate::text::split_once_spec(r, seq!['?']) {
            Some((_, q)) => q,
            None => r,
        },
    )
}

/// The pairs of the `&`-separated items, decoded, a later key winning; or the first failure.
pub open spec fn oauth_items(items: Seq<Seq<char>>) -> Result<Map<Seq<char>, Seq<char>>, ErrorView>
    decreases items.len(),
{
    if items.len() == 0 {
        Ok(Map::empty())
    } else {
        match oauth_items(items.drop_last()) {
            Err(e) => Err(e),
            Ok(m) => {
                let item = items.last();
                match crate::text::split_once_spec(item, seq!['=']) {
                    None => Err(ErrorView::Parse("invalid OAuth response item: "@ + item)),
                    Some((k, v)) => match percent_decode_spec(k) {
                        Err(e) => Err(e),
                        Ok(dk) => match percent_decode_spec(v) {
                            Err(e) => Err(e),
                            Ok(dv) => Ok(m.insert(dk, dv)),
                        },
                    },
                }
            },
        }
    }
}

/// What `parse_oauth_response` gives for the response `r`.
pub open spec fn parse_oauth_response_spec(r: Seq<char>) -> Result<Map<Seq<char>, Seq<char>>, ErrorView> {
    let q = oauth_query(r);
    if q.len() == 0 {
        Ok(Map::empty())
    } else {
        oauth_items(crate::text::split_spec(q, seq!['&']))
    }
}

/// `res` is the map outcome `r`.
pub open spec fn map_outcome(
    res: Result<StrMap<String>, ReeknoteError>,
    r: Result<Map<Seq<char>, Seq<char>>, ErrorView>,
) -> bool {
    match (res, r) {
        (Ok(d), Ok(m)) => d.wf() && d.map_view() == m,
        (Err(e), Err(x)) => e@ == x,
        _ => false,
    }
}

/// The key and value pairs of an OAuth response body, or of the query of a URL.
pub fn parse_oauth_response(response: &str) -> (res: Result<StrMap<String>, ReeknoteError>)
    ensures
        map_outcome(res, parse_oauth_response_spec(response@)),
{
    let r = chars_of(response);
    let qmark = vec!['?'];
    assert(qmark@ =~= seq!['?']);
    let q = match crate::text::split_once(r.as_slice(), qmark.as_slice()) {
        Some((_, q)) => crate::text::trim(q.as_slice()),
        None => crate::text::trim(r.as_slice()),
    };
    let mut values: StrMap<String> = StrMap::new();
    if q.len() == 0 {
        assert(values.map_view() =~= Map::<Seq<char>, Seq<char>>::empty());
        return Ok(values);
    }
    let amp = vec!['&'];
    assert(amp@ =~= seq!['&']);
    let eq = vec!['='];
    assert(eq@ =~= seq!['=']);
    let items = crate::text::split(q.as_slice(), amp.as_slice());
    let ghost its = crate::text::views(items@);
    assert(q@ == oauth_query(response@));
    let mut i: usize = 0;
    assert(its.take(0) =~= Seq::<Seq<char>>::empty());
    assert(values.map_view() =~= Map::<Seq<char>, Seq<char>>::empty());
    while i < items.len()
        invariant
            i <= items@.len(),
            its == crate::text::views(items@),
            its == crate::text::split_spec(oauth_query(response@), seq!['&']),
            oauth_query(response@).len() > 0,
            eq@ == seq!['='],
            values.wf(),
            oauth_items(its.take(i as int)) == Ok::<Map<Seq<char>, Seq<char>>, ErrorView>(values.map_view()),
        decreases items.len() - i,
    {
        let ghost t = its.take(i + 1);
        assert(t.drop_last() =~= its.take(i as int));
        assert(t.last() == items@[i as int]@);
        match crate::text::split_once(items[i].as_slice(), eq.as_slice()) {
            None => {
                let e = oauth_parse_error("invalid OAuth response item: ", string_of(items[i].as_slice()).as_str());
                proof {
                    lemma_oauth_items_err_prefix(its, i + 1);
                }
                return Err(e);
            },
            Some((k, v)) => {
                let dk = match percent_decode(string_of(k.as_slice()).as_str()) {
                    Ok(x) => x,
                    Err(e) => {
                        proof {
                            lemma_oauth_items_err_prefix(its, i + 1);
                        }
                        return Err(e);
                    },
                };
                let dv = match percent_decode(string_of(v.as_slice()).as_str()) {
                    Ok(x) => x,
                    Err(e) => {
                        proof {
                            lemma_oauth_items_err_prefix(its, i + 1);
                        }
                        return Err(e);
                    },
                };
                let ghost before = values.map_view();
                let ghost kk = dk@;
                let ghost vv = dv@;
                values.insert(dk, dv);
                assert(values.map_view() =~= before.insert(kk, vv));
            },
        }
        i += 1;
    }
    assert(its.take(i as int) =~= its);
    Ok(values)
}

proof fn lemma_oauth_items_err_prefix(items: Seq<Seq<char>>, i: int)
    requires
        0 <= i <= items.len(),
        oauth_items(items.take(i)) is Err,
    ensures
        oauth_items(items) == oauth_items(items.take(i)),
    decreases items.len() - i,
{
    if i < items.len() {
        assert(items.take(i + 1).drop_last() =~= items.take(i));
        lemma_oauth_items_err_prefix(items, i + 1);
    } else {
        assert(items.take(i) =~= items);
    }
}

/// The non-empty value of `key`, or the failure that names it.
pub open spec fn required_spec(m: Map<Seq<char>, Seq<char>>, key: Seq<char>) -> Result<Seq<char>, ErrorView> {
    if m.dom().contains(key) && m[key].len() > 0 {
        Ok(m[key])
    } else {
        Err(ErrorView::External("OAuth response did not contain "@ + key))
    }
}

/// The value of `key` in an OAuth response, which must not be empty.
pub fn required_response_value(values: &StrMap<String>, key: &str) -> (res: Result<String, ReeknoteError>)
    requires
        values.wf(),
    ensures
        text_outcome(res, required_spec(values.map_view(), key@)),
{
    match values.get(key) {
        Some(v) => {
            if !v.as_str().is_empty() {
                return Ok(v.clone());
            }
        },
        None => {},
    }
    let mut m = chars_of("OAuth response did not contain ");
    push_str(&mut m, key);
    Err(ReeknoteError::External(string_of(m.as_slice())))
}

/// What `parse_verifier` gives for `input`.
pub open spec fn parse_verifier_spec(input: Seq<char>) -> Result<Seq<char>, ErrorView> {
    let t = crate::text::trim_ws(input);
    if crate::text::contains_spec(t, "oauth_verifier="@) {
        match parse_oauth_response_spec(t) {
            Err(e) => Err(e),
            Ok(m) => required_spec(m, "oauth_verifier"@),
        }
    } else if t.len() == 0 {
        Err(ErrorView::InvalidInput("OAuth verifier is required"@))
    } else {
        Ok(t)
    }
}

/// The OAuth verifier: typed in as it is, or taken from the URL the browser ended on.
pub fn parse_verifier(input: &str) -> (res: Result<String, ReeknoteError>)
    ensures
        text_outcome(res, parse_verifier_spec(input@)),
{
    let v = chars_of(input);
    let t = crate::text::trim(v.as_slice());
    let ts = string_of(t.as_slice());
    let marker = chars_of("oauth_verifier=");
    if crate::text::contains(t.as_slice(), marker.as_slice()) {
        let values = match parse_oauth_response(ts.as_str()) {
            Ok(m) => m,
            Err(e) => return Err(e),
        };
        return required_response_value(&values, "oauth_verifier");
    }
    if t.len() == 0 {
        return Err(ReeknoteError::InvalidInput("OAuth verifier is required".to_string()));
    }
    Ok(ts)
}

/// The PLAINTEXT signature: both secrets percent-encoded, joined by `&`.
pub open spec fn plaintext_signature_spec(consumer_secret: Seq<char>, token_secret: Seq<char>) -> Seq<char> {
    percent_encode_spec(consumer_secret) + seq!['&'] + percent_encode_spec(token_secret)
}

/// The PLAINTEXT signature of a request.
pub fn plaintext_signature(consumer_secret: &str, token_secret: &str) -> (res: String)
    ensures
        res@ == plaintext_signature_spec(consumer_secret@, token_secret@),
{
    let a = percent_encode(consumer_secret);
    let b = percent_encode(token_secret);
    let mut out = chars_of(a.as_str());
    out.push('&');
    push_str(&mut out, b.as_str());
    string_of(out.as_slice())
}

/// The token of an OAuth response: `oauth_token` must be there, the secret may be missing.
pub open spec fn token_spec(r: Seq<char>) -> Result<(Seq<char>, Seq<char>), ErrorView> {
    match parse_oauth_response_spec(r) {
        Err(e) => Err(e),
        Ok(m) => match required_spec(m, "oauth_token"@) {
            Err(e) => Err(e),
            Ok(t) => Ok((t, if m.dom().contains("oauth_token_secret"@) { m["oauth_token_secret"@] } else { Seq::empty() })),
        },
    }
}

/// The token that an OAuth token request was answered with.
pub fn token_from_response(response: &str) -> (res: Result<OAuthToken, ReeknoteError>)
    ensures
        match token_spec(response@) {
            Ok((t, s)) => res matches Ok(k) && k.token@ == t && k.secret@ == s,
            Err(e) => res matches Err(x) && x@ == e,
        },
{
    let parsed = match parse_oauth_response(response) {
        Ok(m) => m,
        Err(e) => return Err(e),
    };
    let token = match required_response_value(&parsed, "oauth_token") {
        Ok(t) => t,
        Err(e) => return Err(e),
    };
    let secret = match parsed.get("oauth_token_secret") {
        Some(s) => s.clone(),
        None => String::new(),
    };
    Ok(OAuthToken { token, secret })
}

/// The parameters of a signed OAuth request, in the order they are sent.
pub open spec fn oauth_params_spec(
    consumer_key: Seq<char>,
    consumer_secret: Seq<char>,
    token_secret: Seq<char>,
    timestamp: u64,
    nonce: Seq<char>,
    extra: Seq<(Seq<char>, Seq<char>)>,
) -> Seq<(Seq<char>, Seq<char>)> {
    seq![
        ("oauth_consumer_key"@, consumer_key),
        ("oauth_signature"@, plaintext_signature_spec(consumer_secret, token_secret)),
        ("oauth_signature_method"@, "PLAINTEXT"@),
        ("oauth_timestamp"@, crate::text::dec_nat(timestamp as nat)),
        ("oauth_nonce"@, nonce),
    ] + extra
}

pub open spec fn pair_views(v: Seq<(String, String)>) -> Seq<(Seq<char>, Seq<char>)> {
    v.map_values(|p: (String, String)| (p.0@, p.1@))
}

pub open spec fn str_pair_views(v: Seq<(&str, &str)>) -> Seq<(Seq<char>, Seq<char>)> {
    v.map_values(|p: (&str, &str)| (p.0@, p.1@))
}

impl OAuthClient {
    pub closed spec fn base_url_spec(&self) -> Seq<char> {
        self.base_url@
    }

    pub closed spec fn consumer_key_spec(&self) -> Seq<char> {
        self.consumer_key@
    }

    pub closed spec fn consumer_secret_spec(&self) -> Seq<char> {
        self.consumer_secret@
    }

    /// The client of reeknote for the service that `config` names.
    pub fn new(config: &Config) -> (res: Self)
        ensures
            res.base_url_spec() == config.user_base_url@,
            res.consumer_key_spec() == CONSUMER_KEY@,
            res.consumer_secret_spec() == CONSUMER_SECRET@,
    {
        OAuthClient {
            base_url: config.user_base_url.clone(),
            consumer_key: CONSUMER_KEY.to_string(),
            consumer_secret: CONSUMER_SECRET.to_string(),
        }
    }

    /// A client with the given service host and consumer credentials.
    pub fn with_credentials(base_url: String, consumer_key: String, consumer_secret: String) -> (res: Self)
        ensures
            res.base_url_spec() == base_url@,
            res.consumer_key_spec() == consumer_key@,
            res.consumer_secret_spec() == consumer_secret@,
    {
        OAuthClient { base_url, consumer_key, consumer_secret }
    }

    /// The page where the user authorises the request token.
    pub fn authorization_url(&self, request_token: &str) -> (res: String)
        ensures
            res@ == "https://"@ + self.base_url_spec() + "/OAuth.action?oauth_token="@ + percent_encode_spec(
                request_token@,
            ),
    {
        let mut out = chars_of("https://");
        push_str(&mut out, self.base_url.as_str());
        push_str(&mut out, "/OAuth.action?oauth_token=");
        let t = percent_encode(request_token);
        push_str(&mut out, t.as_str());
        string_of(out.as_slice())
    }

    /// The address that OAuth requests go to.
    pub fn oauth_url(&self) -> (res: String)
        ensures
            res@ == "https://"@ + self.base_url_spec() + "/oauth"@,
    {
        let mut out = chars_of("https://");
        push_str(&mut out, self.base_url.as_str());
        push_str(&mut out, "/oauth");
        string_of(out.as_slice())
    }

    /// The parameters of a request signed with the token's secret (none
    /// without a token), made at `timestamp` with the one-time `nonce`.
    pub fn oauth_params(
        &self,
        token: Option<&OAuthToken>,
        extra: &[(&str, &str)],
        timestamp: u64,
        nonce: &str,
    ) -> (res: Vec<(String, String)>)
        ensures
            pair_views(res@) == oauth_params_spec(
                self.consumer_key_spec(),
                self.consumer_secret_spec(),
                match token {
                    Some(t) => t.secret@,
                    None => Seq::empty(),
                },
                timestamp,
                nonce@,
                str_pair_views(extra@),
            ),
    {
        let token_secret: &str = match token {
            Some(t) => t.secret.as_str(),
            None => "",
        };
        proof {
            reveal_strlit("");
        }
        let mut params: Vec<(String, String)> = Vec::new();
        params.push(("oauth_consumer_key".to_string(), self.consumer_key.clone()));
        params.push(("oauth_signature".to_string(), plaintext_signature(self.consumer_secret.as_str(), token_secret)));
        params.push(("oauth_signature_method".to_string(), "PLAINTEXT".to_string()));
        let ts = crate::text::u64_dec(timestamp);
        params.push(("oauth_timestamp".to_string(), string_of(ts.as_slice())));
        params.push(("oauth_nonce".to_string(), nonce.to_string()));
        let ghost head = pair_views(params@);
        let mut i: usize = 0;
        while i < extra.len()
            invariant
                i <= extra@.len(),
                pair_views(params@) == head + str_pair_views(extra@).take(i as int),
            decreases extra.len() - i,
        {
            let (k, v) = extra[i];
            let ghost before = params@;
            params.push((k.to_string(), v.to_string()));
            assert(pair_views(params@) =~= pair_views(before).push((k@, v@)));
            assert(str_pair_views(extra@).take(i + 1) =~= str_pair_views(extra@).take(i as int).push((k@, v@)));
            i += 1;
        }
        assert(str_pair_views(extra@).take(i as int) =~= str_pair_views(extra@));
        params
    }

    /// The parameters of the request for a temporary token.
    pub fn request_token_params(&self, callback: &str, timestamp: u64, nonce: &str) -> (res: Vec<(String, String)>)
        ensures
            pair_views(res@) == oauth_params_spec(
                self.consumer_key_spec(),
                self.consumer_secret_spec(),
                Seq::empty(),
                timestamp,
                nonce@,
                seq![("oauth_callback"@, callback@)],
            ),
    {
        let extra = [("oauth_callback", callback)];
        let r = self.oauth_params(None, &extra, timestamp, nonce);
        assert(str_pair_views(extra@) =~= seq![("oauth_callback"@, callback@)]);
        r
    }

    /// The parameters of the request that trades the temporary token and the
    /// user's verifier for the access token; fails as `parse_verifier` does.
    pub fn access_token_params(
        &self,
        request_token: &OAuthToken,
        verifier_or_url: &str,
        timestamp: u64,
        nonce: &str,
    ) -> (res: Result<Vec<(String, String)>, ReeknoteError>)
        ensures
            match parse_verifier_spec(verifier_or_url@) {
                Ok(v) => res matches Ok(p) && pair_views(p@) == oauth_params_spec(
                    self.consumer_key_spec(),
                    self.consumer_secret_spec(),
                    request_token.secret@,
                    timestamp,
                    nonce@,
                    seq![("oauth_token"@, request_token.token@), ("oauth_verifier"@, v)],
                ),
                Err(e) => res matches Err(x) && x@ == e,
            },
    {
        let verifier = match parse_verifier(verifier_or_url) {
            Ok(v) => v,
            Err(e) => return Err(e),
        };
        let extra = [("oauth_token", request_token.token.as_str()), ("oauth_verifier", verifier.as_str())];
        let r = self.oauth_params(Some(request_token), &extra, timestamp, nonce);
        assert(str_pair_views(extra@) =~= seq![("oauth_token"@, request_token.token@), ("oauth_verifier"@, verifier@)]);
        Ok(r)
    }
}

} // verus!
