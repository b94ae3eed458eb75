use vstd::prelude::*;
use vstd::utf8::*;
use crate::errors::{ReeknoteError, invalid_input, fails_invalid, fails_parse};
use crate::models::{Accounting, Note, NoteAttributes, NoteView, SearchResult, SearchResultView, UserInfo, UserInfoView, AttributesView};
use crate::strmap::{keys_of, seq_lt, sorted_keys, StrMap};
use crate::text::{hex_byte, hex_digit, push_hex_byte, string_views, hex_val, hex_pair, hex_pair_exec, string_from_utf8};

verus! {

// ---------------------------------------------------------------------------
// Field escaping
// ---------------------------------------------------------------------------

/// A byte that is written as it is: an ASCII letter or digit, `-`, `_` or `.`.
pub open spec fn unreserved(b: u8) -> bool {
    ||| 0x30 <= b <= 0x39
    ||| 0x41 <= b <= 0x5a
    ||| 0x61 <= b <= 0x7a
    ||| b == 0x2d
    ||| b == 0x5f
    ||| b == 0x2e
}

/// One byte, escaped: itself when unreserved, else `%` and two upper-case hex digits.
pub open spec fn enc_byte(b: u8) -> Seq<char> {
    if unreserved(b) {
        seq![b as char]
    } else {
        seq!['%'] + hex_byte(b, true)
    }
}

/// The escaped form of a byte sequence.
pub open spec fn enc_bytes(bs: Seq<u8>) -> Seq<char>
    decreases bs.len(),
{
    if bs.len() == 0 {
        Seq::empty()
    } else {
        enc_byte(bs[0]) + enc_bytes(bs.drop_first())
    }
}

/// The escaped form of a text: its UTF-8 bytes, each escaped.
pub open spec fn enc_spec(s: Seq<char>) -> Seq<char> {
    enc_bytes(encode_utf8(s))
}

/// The bytes that an escaped byte sequence stands for; `None` for a broken escape.
pub open spec fn dec_bytes(s: Seq<u8>) -> Option<Seq<u8>>
    decreases s.len(),
{
    if s.len() == 0 {
        Some(Seq::empty())
    } else if s[0] == 0x25 {
        if s.len() < 3 {
            None
        } else {
            match hex_pair(s[1], s[2]) {
                Some(v) => match dec_bytes(s.skip(3)) {
                    Some(r) => Some(seq![v] + r),
                    None => None,
                },
                None => None,
            }
        }
    } else {
        match dec_bytes(s.skip(1)) {
            Some(r) => Some(seq![s[0]] + r),
            None => None,
        }
    }
}

/// The text that an escaped field stands for, or the message of the failure.
pub open spec fn dec_spec(s: Seq<char>) -> Result<Seq<char>, Seq<char>> {
    match dec_bytes(encode_utf8(s)) {
        None => Err("bad percent escape"@),
        Some(b) => if valid_utf8(b) {
            Ok(decode_utf8(b))
        } else {
            Err("invalid UTF-8 in storage"@)
        },
    }
}

/// `res` is the outcome `r`, a failure being a parse error with that message.
pub open spec fn parse_outcome(res: Result<String, ReeknoteError>, r: Result<Seq<char>, Seq<char>>) -> bool {
    match (res, r) {
        (Ok(t), Ok(x)) => t@ == x,
        (Err(ReeknoteError::Parse(m)), Err(x)) => m@ == x,
        _ => false,
    }
}

pub proof fn lemma_enc_bytes_push(bs: Seq<u8>, b: u8)
    ensures
        enc_bytes(bs.push(b)) == enc_bytes(bs) + enc_byte(b),
    decreases bs.len(),
{
    if bs.len() == 0 {
        assert(bs.push(b).drop_first() =~= Seq::<u8>::empty());
        assert(bs.push(b)[0] == b);
        assert(enc_bytes(Seq::<u8>::empty()) == Seq::<char>::empty());
        assert(enc_bytes(bs) == Seq::<char>::empty());
        assert(enc_bytes(bs.push(b)) =~= enc_byte(b) + Seq::<char>::empty());
    } else {
        assert(bs.push(b).drop_first() =~= bs.drop_first().push(b));
        lemma_enc_bytes_push(bs.drop_first(), b);
        assert(enc_bytes(bs.push(b)) =~= enc_bytes(bs) + enc_byte(b));
    }
}

/// The bytes of a text made of ASCII characters only.
pub open spec fn ascii_bytes(cs: Seq<char>) -> Seq<u8> {
    cs.map_values(|c: char| c as u8)
}

proof fn lemma_enc_byte_ascii(b: u8)
    ensures
        is_ascii_chars(enc_byte(b)),
{
    let d1 = b as int / 16;
    let d2 = b as int % 16;
    assert(0 <= d1 < 16 && 0 <= d2 < 16);
}

proof fn lemma_enc_bytes_ascii(bs: Seq<u8>)
    ensures
        is_ascii_chars(enc_bytes(bs)),
    decreases bs.len(),
{
    if bs.len() > 0 {
        lemma_enc_byte_ascii(bs[0]);
        lemma_enc_bytes_ascii(bs.drop_first());
        let e = enc_bytes(bs);
        assert forall|i: int| 0 <= i < e.len() implies '\0' <= #[trigger] e[i] <= '\u{7f}' by {
            let f = enc_byte(bs[0]);
            if i < f.len() {
                assert(e[i] == f[i]);
            } else {
                assert(e[i] == enc_bytes(bs.drop_first())[i - f.len()]);
            }
        }
    }
}

proof fn lemma_hex_digit_val(d: int)
    requires
        0 <= d < 16,
    ensures
        hex_val(hex_digit(d, true) as u8) == Some(d),
{
}

proof fn lemma_dec_enc_bytes(bs: Seq<u8>)
    ensures
        dec_bytes(ascii_bytes(enc_bytes(bs))) == Some(bs),
    decreases bs.len(),
{
    let a = ascii_bytes(enc_bytes(bs));
    if bs.len() == 0 {
        assert(a =~= Seq::<u8>::empty());
        assert(bs =~= Seq::<u8>::empty());
    } else {
        let x = bs[0];
        let rest = bs.drop_first();
        let f = enc_byte(x);
        let ar = ascii_bytes(enc_bytes(rest));
        assert(a =~= ascii_bytes(f) + ar);
        lemma_dec_enc_bytes(rest);
        if unreserved(x) {
            assert(a[0] == x);
            assert(a.skip(1) =~= ar);
            assert(bs =~= seq![x] + rest);
        } else {
            let d1 = x as int / 16;
            let d2 = x as int % 16;
            assert(d1 * 16 + d2 == x as int);
            lemma_hex_digit_val(d1);
            lemma_hex_digit_val(d2);
            assert(a[0] == 0x25u8);
            assert(a[1] == hex_digit(d1, true) as u8);
            assert(a[2] == hex_digit(d2, true) as u8);
            assert(hex_pair(a[1], a[2]) == Some(x));
            assert(a.skip(3) =~= ar);
            assert(bs =~= seq![x] + rest);
        }
    }
}

/// Decoding an escaped field gives back the text: `dec(enc(s)) == Ok(s)`.
pub proof fn lemma_dec_enc(s: Seq<char>)
    ensures
        dec_spec(enc_spec(s)) == Ok::<Seq<char>, Seq<char>>(s),
{
    let e = enc_spec(s);
    lemma_enc_bytes_ascii(encode_utf8(s));
    is_ascii_chars_encode_utf8(e);
    assert(encode_utf8(e) =~= ascii_bytes(e));
    lemma_dec_enc_bytes(encode_utf8(s));
    encode_utf8_valid_utf8(s);
    encode_utf8_decode_utf8(s);
}

fn is_unreserved(b: u8) -> (r: bool)
    ensures
        r == unreserved(b),
{
    (0x30 <= b && b <= 0x39) || (0x41 <= b && b <= 0x5a) || (0x61 <= b && b <= 0x7a) || b == 0x2d
        || b == 0x5f || b == 0x2e
}

/// Escapes a field for the storage file.
pub fn enc(value: &str) -> (res: String)
    ensures
        res@ == enc_spec(value@),
{
    let bytes = value.as_bytes();
    let mut out: Vec<char> = Vec::new();
    let mut i: usize = 0;
    assert(bytes@.take(0) =~= Seq::<u8>::empty());
    while i < bytes.len()
        invariant
            i <= bytes@.len(),
            out@ == enc_bytes(bytes@.take(i as int)),
        decreases bytes.len() - i,
    {
        let b = bytes[i];
        proof {
            assert(bytes@.take(i + 1) =~= bytes@.take(i as int).push(b));
            lemma_enc_bytes_push(bytes@.take(i as int), b);
        }
        if is_unreserved(b) {
            out.push(b as char);
            assert(out@ =~= enc_bytes(bytes@.take(i as int)) + enc_byte(b));
        } else {
            out.push('%');
            push_hex_byte(&mut out, b, true);
            assert(out@ =~= enc_bytes(bytes@.take(i as int)) + enc_byte(b));
        }
        i += 1;
    }
    assert(bytes@.take(i as int) =~= bytes@);
    crate::text::string_of(out.as_slice())
}

fn parse_error(message: &str) -> (e: ReeknoteError)
    ensures
        e matches ReeknoteError::Parse(m) && m@ == message@,
{
    ReeknoteError::Parse(message.to_string())
}

/// Undoes `enc`: every `%XX` becomes the byte `XX`, and the bytes are read as UTF-8.
pub fn dec(value: &str) -> (res: Result<String, ReeknoteError>)
    ensures
        parse_outcome(res, dec_spec(value@)),
{
    let bytes = value.as_bytes();
    let ghost s = bytes@;
    assert(s == encode_utf8(value@));
    let mut out: Vec<u8> = Vec::new();
    let mut i: usize = 0;
    assert(s.skip(0) =~= s);
    assert(out@ + Seq::<u8>::empty() =~= out@);
    while i < bytes.len()
        invariant
            i <= s.len(),
            s == bytes@,
            s == encode_utf8(value@),
            dec_bytes(s) == match dec_bytes(s.skip(i as int)) {
                Some(r) => Some(out@ + r),
                None => None,
            },
        decreases bytes.len() - i,
    {
        let b = bytes[i];
        let ghost t = s.skip(i as int);
        assert(t[0] == b);
        if b == 0x25 {
            if bytes.len() - i < 3 {
                assert(dec_bytes(t) is None);
                return Err(parse_error("bad percent escape"));
            }
            assert(t[1] == s[i + 1] && t[2] == s[i + 2]);
            match hex_pair_exec(bytes[i + 1], bytes[i + 2]) {
                Some(v) => {
                    assert(t.skip(3) =~= s.skip(i + 3));
                    let ghost before = out@;
                    out.push(v);
                    proof {
                        match dec_bytes(s.skip(i + 3)) {
                            Some(r) => {
                                assert(before + (seq![v] + r) =~= out@ + r);
                            },
                            None => {},
                        }
                    }
                    i += 3;
                },
                None => {
                    assert(dec_bytes(t) is None);
                    return Err(parse_error("bad percent escape"));
                },
            }
        } else {
            assert(t.skip(1) =~= s.skip(i + 1));
            let ghost before = out@;
            out.push(b);
            proof {
                match dec_bytes(s.skip(i + 1)) {
                    Some(r) => {
                        assert(before + (seq![b] + r) =~= out@ + r);
                    },
                    None => {},
                }
            }
            i += 1;
        }
    }
    assert(s.skip(i as int) =~= Seq::<u8>::empty());
    assert(out@ + Seq::<u8>::empty() =~= out@);
    match string_from_utf8(out) {
        Some(t) => Ok(t),
        None => Err(parse_error("invalid UTF-8 in storage")),
    }
}

// ---------------------------------------------------------------------------
// What the store keeps
// ---------------------------------------------------------------------------

/// A value kept under a user property.
#[derive(Clone, Debug, PartialEq, Eq)]
pub enum StoredValue {
    String(String),
    StringList(Vec<String>),
    UserInfo(UserInfo),
}

pub ghost enum StoredVal {
    Str(Seq<char>),
    List(Seq<Seq<char>>),
    Info(UserInfoView),
}

impl View for StoredValue {
    type V = StoredVal;

    open spec fn view(&self) -> StoredVal {
        match self {
            StoredValue::String(s) => StoredVal::Str(s@),
            StoredValue::StringList(v) => StoredVal::List(string_views(v@)),
            StoredValue::UserInfo(u) => StoredVal::Info(u@),
        }
    }
}

impl StoredValue {
    /// The text of a single string value.
    pub fn as_string(&self) -> (res: Option<&str>)
        ensures
            match self {
                StoredValue::String(s) => res matches Some(r) && r@ == s@,
                _ => res is None,
            },
    {
        match self {
            StoredValue::String(value) => Some(value.as_str()),
            _ => None,
        }
    }

    /// The items of a list value.
    pub fn as_string_list(&self) -> (res: Option<&[String]>)
        ensures
            match self {
                StoredValue::StringList(v) => res matches Some(r) && r@ == v@,
                _ => res is None,
            },
    {
        match self {
            StoredValue::StringList(value) => Some(value.as_slice()),
            _ => None,
        }
    }

    /// The user details of a user value.
    pub fn as_user_info(&self) -> (res: Option<&UserInfo>)
        ensures
            match self {
                StoredValue::UserInfo(u) => res == Some(u),
                _ => res is None,
            },
    {
        match self {
            StoredValue::UserInfo(value) => Some(value),
            _ => None,
        }
    }

    /// A copy of the value.
    pub fn duplicate(&self) -> (r: StoredValue)
        ensures
            r@ == self@,
    {
        match self {
            StoredValue::String(s) => StoredValue::String(s.clone()),
            StoredValue::StringList(v) => StoredValue::StringList(crate::models::copy_strings(v)),
            StoredValue::UserInfo(u) => StoredValue::UserInfo(u.duplicate()),
        }
    }
}

/// Everything the store keeps, each map sorted by key.
pub struct StorageData {
    pub user_props: StrMap<StoredValue>,
    pub settings: StrMap<String>,
    pub tags: StrMap<String>,
    pub notebooks: StrMap<String>,
    pub notes: StrMap<Note>,
    pub search: Option<SearchResult>,
}

pub ghost struct StorageView {
    pub user_props: Map<Seq<char>, StoredVal>,
    pub settings: Map<Seq<char>, Seq<char>>,
    pub tags: Map<Seq<char>, Seq<char>>,
    pub notebooks: Map<Seq<char>, Seq<char>>,
    pub notes: Map<Seq<char>, NoteView>,
    pub search: Option<SearchResultView>,
}

/// The contents of an empty store.
pub open spec fn empty_view() -> StorageView {
    StorageView {
        user_props: Map::empty(),
        settings: Map::empty(),
        tags: Map::empty(),
        notebooks: Map::empty(),
        notes: Map::empty(),
        search: None,
    }
}

impl View for StorageData {
    type V = StorageView;

    open spec fn view(&self) -> StorageView {
        StorageView {
            user_props: self.user_props.map_view(),
            settings: self.settings.map_view(),
            tags: self.tags.map_view(),
            notebooks: self.notebooks.map_view(),
            notes: self.notes.map_view(),
            search: match self.search {
                Some(s) => Some(s@),
                None => None,
            },
        }
    }
}

impl StorageData {
    pub open spec fn wf(&self) -> bool {
        &&& self.user_props.wf()
        &&& self.settings.wf()
        &&& self.tags.wf()
        &&& self.notebooks.wf()
        &&& self.notes.wf()
    }

    /// Nothing stored.
    pub fn empty() -> (d: StorageData)
        ensures
            d.wf(),
            d@ == empty_view(),
    {
        let d = StorageData {
            user_props: StrMap::new(),
            settings: StrMap::new(),
            tags: StrMap::new(),
            notebooks: StrMap::new(),
            notes: StrMap::new(),
            search: None,
        };
        assert(d@.user_props =~= Map::<Seq<char>, StoredVal>::empty());
        assert(d@.settings =~= Map::<Seq<char>, Seq<char>>::empty());
        assert(d@.tags =~= Map::<Seq<char>, Seq<char>>::empty());
        assert(d@.notebooks =~= Map::<Seq<char>, Seq<char>>::empty());
        assert(d@.notes =~= Map::<Seq<char>, NoteView>::empty());
        d
    }
}

/// The value of `m` at `k`, if it has one.
pub open spec fn get_in<K, V>(m: Map<K, V>, k: K) -> Option<V> {
    if m.dom().contains(k) {
        Some(m[k])
    } else {
        None
    }
}

/// The position of the first entry with an empty key or value.
pub open spec fn first_empty_entry(es: Seq<(String, String)>) -> Option<int>
    decreases es.len(),
{
    if es.len() == 0 {
        None
    } else {
        match first_empty_entry(es.drop_last()) {
            Some(i) => Some(i),
            None => if es.last().0@.len() == 0 || es.last().1@.len() == 0 {
                Some(es.len() - 1)
            } else {
                None
            },
        }
    }
}

/// `m` with the entries `es` stored one after the other.
pub open spec fn insert_all(m: Map<Seq<char>, Seq<char>>, es: Seq<(String, String)>) -> Map<Seq<char>, Seq<char>>
    decreases es.len(),
{
    if es.len() == 0 {
        m
    } else {
        insert_all(m, es.drop_last()).insert(es.last().0@, es.last().1@)
    }
}

/// Some value of `m` is empty.
pub open spec fn has_empty_value(m: Map<Seq<char>, Seq<char>>) -> bool {
    exists|k: Seq<char>| m.dom().contains(k) && #[trigger] m[k].len() == 0
}

/// The store of reeknote: the user, settings, cached tags, notebooks and
/// notes, and the last search.  A store opened from a file is written back
/// after every change; `snapshot` says what to write where.
pub struct Storage {
    path: Option<String>,
    data: StorageData,
}

impl View for Storage {
    type V = StorageView;

    open spec fn view(&self) -> StorageView {
        self.contents()
    }
}

impl Storage {
    pub closed spec fn contents(&self) -> StorageView {
        self.data@
    }

    /// The file the store is kept in, if any.
    pub closed spec fn path_spec(&self) -> Option<Seq<char>> {
        match self.path {
            Some(p) => Some(p@),
            None => None,
        }
    }

    pub closed spec fn wf(&self) -> bool {
        self.data.wf()
    }

    /// The user properties in key order.
    pub closed spec fn user_prop_entries(&self) -> Seq<(String, StoredValue)> {
        self.data.user_props.entry_seq()
    }

    /// The entries that `get_userprops` lists are the user properties of the
    /// store, each once, in strictly increasing key order.
    pub proof fn lemma_user_prop_entries(&self)
        requires
            self.wf(),
        ensures
            sorted_keys(keys_of(self.user_prop_entries())),
            forall|i: int|
                0 <= i < self.user_prop_entries().len() ==> #[trigger] self@.user_props.contains_key(
                    self.user_prop_entries()[i].0@,
                ) && self@.user_props[self.user_prop_entries()[i].0@] == self.user_prop_entries()[i].1@,
            self@.user_props.dom() == keys_of(self.user_prop_entries()).to_set(),
            self.user_prop_entries().len() == self@.user_props.dom().len(),
    {
        let m = self.data.user_props;
        m.lemma_entries_view();
        assert forall|i: int| 0 <= i < self.user_prop_entries().len() implies #[trigger] self@.user_props.contains_key(
            self.user_prop_entries()[i].0@,
        ) && self@.user_props[self.user_prop_entries()[i].0@] == self.user_prop_entries()[i].1@ by {
            assert(m.key_seq()[i] == self.user_prop_entries()[i].0@);
            assert(m.value_seq()[i] == self.user_prop_entries()[i].1);
        }
    }

    /// A store that lives in memory only.
    pub fn memory() -> (res: Self)
        ensures
            res.wf(),
            res@ == empty_view(),
            res.path_spec() is None,
    {
        Storage { path: None, data: StorageData::empty() }
    }

    /// Logs the user in: the user properties become the token and the user's details.
    pub fn create_user(&mut self, oauth_token: String, info: UserInfo) -> (res: Result<(), ReeknoteError>)
        requires
            old(self).wf(),
        ensures
            final(self).wf(),
            final(self).path_spec() == old(self).path_spec(),
            oauth_token@.len() == 0 ==> fails_invalid(res, "empty OAuth token"@) && final(self)@ == old(self)@,
            oauth_token@.len() != 0 && info.email@.len() == 0 && info.username@.len() == 0 ==> fails_invalid(
                res,
                "empty user info"@,
            ) && final(self)@ == old(self)@,
            oauth_token@.len() != 0 && (info.email@.len() != 0 || info.username@.len() != 0) ==> res is Ok
                && final(self)@ == (StorageView { user_props: created_user_props(oauth_token@, info@), ..old(self)@ }),
    {
        if oauth_token.as_str().is_empty() {
            return Err(invalid_input("empty OAuth token"));
        }
        if info.email.as_str().is_empty() && info.username.as_str().is_empty() {
            return Err(invalid_input("empty user info"));
        }
        let ghost token = oauth_token@;
        let ghost iv = info@;
        self.data.user_props.clear();
        self.data.user_props.insert("oAuthToken".to_string(), StoredValue::String(oauth_token));
        self.data.user_props.insert("info".to_string(), StoredValue::UserInfo(info));
        assert(self.data.user_props.map_view() =~= Map::<Seq<char>, StoredVal>::empty().insert(
            "oAuthToken"@,
            StoredVal::Str(token),
        ).insert("info"@, StoredVal::Info(iv)));
        Ok(())
    }

    /// Logs the user out: no user properties are left.
    pub fn remove_user(&mut self) -> (res: Result<(), ReeknoteError>)
        requires
            old(self).wf(),
        ensures
            final(self).wf(),
            final(self).path_spec() == old(self).path_spec(),
            res is Ok,
            final(self)@ == (StorageView { user_props: Map::empty(), ..old(self)@ }),
    {
        self.data.user_props.clear();
        assert(self.data.user_props.map_view() =~= Map::<Seq<char>, StoredVal>::empty());
        Ok(())
    }

    /// The user's OAuth token.
    pub fn get_user_token(&self) -> (res: Option<String>)
        requires
            self.wf(),
        ensures
            match get_in(self@.user_props, "oAuthToken"@) {
                Some(StoredVal::Str(t)) => res matches Some(r) && r@ == t,
                _ => res is None,
            },
    {
        match self.data.user_props.get("oAuthToken") {
            Some(StoredValue::String(value)) => Some(value.clone()),
            _ => None,
        }
    }

    /// The user's details.
    pub fn get_user_info(&self) -> (res: Option<UserInfo>)
        requires
            self.wf(),
        ensures
            match get_in(self@.user_props, "info"@) {
                Some(StoredVal::Info(u)) => res matches Some(r) && r@ == u,
                _ => res is None,
            },
    {
        match self.data.user_props.get("info") {
            Some(StoredValue::UserInfo(value)) => Some(value.duplicate()),
            _ => None,
        }
    }

    /// Every user property, each as a map of its own, in key order.
    pub fn get_userprops(&self) -> (res: Vec<StrMap<StoredValue>>)
        requires
            self.wf(),
        ensures
            res@.len() == self.user_prop_entries().len(),
            forall|i: int| 0 <= i < res@.len() ==> (#[trigger] res@[i]).wf() && res@[i].map_view() == Map::<
                Seq<char>,
                StoredVal,
            >::empty().insert(self.user_prop_entries()[i].0@, self.user_prop_entries()[i].1@),
    {
        let mut out: Vec<StrMap<StoredValue>> = Vec::new();
        let mut i: usize = 0;
        while i < self.data.user_props.len()
            invariant
                i <= self.user_prop_entries().len(),
                self.user_prop_entries() == self.data.user_props.entry_seq(),
                out@.len() == i,
                forall|j: int| 0 <= j < i ==> (#[trigger] out@[j]).wf() && out@[j].map_view() == Map::<
                    Seq<char>,
                    StoredVal,
                >::empty().insert(self.user_prop_entries()[j].0@, self.user_prop_entries()[j].1@),
            decreases self.user_prop_entries().len() - i,
        {
            let mut single: StrMap<StoredValue> = StrMap::new();
            let key = self.data.user_props.key_at(i).clone();
            let value = self.data.user_props.value_at(i).duplicate();
            single.insert(key, value);
            assert(single.map_view() =~= Map::<Seq<char>, StoredVal>::empty().insert(
                self.user_prop_entries()[i as int].0@,
                self.user_prop_entries()[i as int].1@,
            ));
            out.push(single);
            i += 1;
        }
        out
    }

    /// The user property `key`.
    pub fn get_userprop(&self, key: &str) -> (res: Option<&StoredValue>)
        requires
            self.wf(),
        ensures
            match res {
                Some(v) => get_in(self@.user_props, key@) == Some(v@),
                None => get_in(self@.user_props, key@) is None,
            },
    {
        self.data.user_props.get(key)
    }

    /// Stores the user property `key`.
    pub fn set_userprop(&mut self, key: String, value: StoredValue) -> (res: Result<(), ReeknoteError>)
        requires
            old(self).wf(),
        ensures
            final(self).wf(),
            final(self).path_spec() == old(self).path_spec(),
            res is Ok,
            final(self)@ == (StorageView { user_props: old(self)@.user_props.insert(key@, value@), ..old(self)@ }),
    {
        let ghost k = key@;
        let ghost v = value@;
        self.data.user_props.insert(key, value);
        assert(self.data.user_props.map_view() =~= old(self)@.user_props.insert(k, v));
        Ok(())
    }

    /// Removes the user property `key`; says whether there was one.
    pub fn del_userprop(&mut self, key: &str) -> (res: Result<bool, ReeknoteError>)
        requires
            old(self).wf(),
        ensures
            final(self).wf(),
            final(self).path_spec() == old(self).path_spec(),
            res == Ok::<bool, ReeknoteError>(old(self)@.user_props.dom().contains(key@)),
            final(self)@ == (StorageView { user_props: old(self)@.user_props.remove(key@), ..old(self)@ }),
    {
        let removed = self.data.user_props.remove(key);
        assert(self.data.user_props.map_view() =~= old(self)@.user_props.remove(key@));
        Ok(removed.is_some())
    }

    /// Stores each of `settings`, in key order; an empty key or value stops
    /// with an error, the settings before it having been stored.
    pub fn set_settings(&mut self, settings: StrMap<String>) -> (res: Result<(), ReeknoteError>)
        requires
            old(self).wf(),
        ensures
            final(self).wf(),
            final(self).path_spec() == old(self).path_spec(),
            match first_empty_entry(settings.entry_seq()) {
                Some(i) => fails_invalid(res, "wrong setting item"@) && final(self)@ == (StorageView {
                    settings: insert_all(old(self)@.settings, settings.entry_seq().take(i)),
                    ..old(self)@
                }),
                None => res is Ok && final(self)@ == (StorageView {
                    settings: insert_all(old(self)@.settings, settings.entry_seq()),
                    ..old(self)@
                }),
            },
    {
        let ghost es = settings.entry_seq();
        let mut i: usize = 0;
        assert(es.take(0) =~= Seq::<(String, String)>::empty());
        while i < settings.len()
            invariant
                i <= es.len(),
                es == settings.entry_seq(),
                self.wf(),
                self.path_spec() == old(self).path_spec(),
                first_empty_entry(es.take(i as int)) is None,
                self@ == (StorageView { settings: insert_all(old(self)@.settings, es.take(i as int)), ..old(self)@ }),
            decreases es.len() - i,
        {
            let key = settings.key_at(i);
            let value = settings.value_at(i);
            assert(es.take(i + 1).drop_last() =~= es.take(i as int));
            if key.as_str().is_empty() || value.as_str().is_empty() {
                proof {
                    lemma_first_empty_prefix(es, i as int);
                }
                return Err(invalid_input("wrong setting item"));
            }
            let ghost before = self@;
            self.data.settings.insert(key.clone(), value.clone());
            assert(self.data.settings.map_view() =~= before.settings.insert(es[i as int].0@, es[i as int].1@));
            i += 1;
        }
        assert(es.take(i as int) =~= es);
        Ok(())
    }

    /// A copy of the settings.
    pub fn get_settings(&self) -> (res: StrMap<String>)
        requires
            self.wf(),
        ensures
            res.wf(),
            res.map_view() == self@.settings,
    {
        self.data.settings.duplicate()
    }

    /// Stores the setting `key`.
    pub fn set_setting(&mut self, key: String, value: String) -> (res: Result<(), ReeknoteError>)
        requires
            old(self).wf(),
        ensures
            final(self).wf(),
            final(self).path_spec() == old(self).path_spec(),
            res is Ok,
            final(self)@ == (StorageView { settings: old(self)@.settings.insert(key@, value@), ..old(self)@ }),
    {
        let ghost k = key@;
        let ghost v = value@;
        self.data.settings.insert(key, value);
        assert(self.data.settings.map_view() =~= old(self)@.settings.insert(k, v));
        Ok(())
    }

    /// The setting `key`.
    pub fn get_setting(&self, key: &str) -> (res: Option<String>)
        requires
            self.wf(),
        ensures
            match get_in(self@.settings, key@) {
                Some(v) => res matches Some(r) && r@ == v,
                None => res is None,
            },
    {
        match self.data.settings.get(key) {
            Some(v) => Some(v.clone()),
            None => None,
        }
    }

    /// Replaces the cached tags (GUID to name); an empty name is refused.
    pub fn set_tags(&mut self, tags: StrMap<String>) -> (res: Result<(), ReeknoteError>)
        requires
            old(self).wf(),
            tags.wf(),
        ensures
            final(self).wf(),
            final(self).path_spec() == old(self).path_spec(),
            has_empty_value(tags.map_view()) ==> fails_invalid(res, "wrong tag item"@) && final(self)@ == old(self)@,
            !has_empty_value(tags.map_view()) ==> res is Ok && final(self)@ == (StorageView {
                tags: tags.map_view(),
                ..old(self)@
            }),
    {
        if any_empty_value(&tags) {
            return Err(invalid_input("wrong tag item"));
        }
        self.data.tags = tags;
        Ok(())
    }

    /// A copy of the cached tags.
    pub fn get_tags(&self) -> (res: StrMap<String>)
        requires
            self.wf(),
        ensures
            res.wf(),
            res.map_view() == self@.tags,
    {
        self.data.tags.duplicate()
    }

    /// Replaces the cached notebooks (GUID to name); an empty name is refused.
    pub fn set_notebooks(&mut self, notebooks: StrMap<String>) -> (res: Result<(), ReeknoteError>)
        requires
            old(self).wf(),
            notebooks.wf(),
        ensures
            final(self).wf(),
            final(self).path_spec() == old(self).path_spec(),
            has_empty_value(notebooks.map_view()) ==> fails_invalid(res, "wrong notebook item"@) && final(self)@
                == old(self)@,
            !has_empty_value(notebooks.map_view()) ==> res is Ok && final(self)@ == (StorageView {
                notebooks: notebooks.map_view(),
                ..old(self)@
            }),
    {
        if any_empty_value(&notebooks) {
            return Err(invalid_input("wrong notebook item"));
        }
        self.data.notebooks = notebooks;
        Ok(())
    }

    /// A copy of the cached notebooks.
    pub fn get_notebooks(&self) -> (res: StrMap<String>)
        requires
            self.wf(),
        ensures
            res.wf(),
            res.map_view() == self@.notebooks,
    {
        self.data.notebooks.duplicate()
    }

    /// Caches `note` under its GUID.
    pub fn set_note(&mut self, note: Note) -> (res: Result<(), ReeknoteError>)
        requires
            old(self).wf(),
        ensures
            final(self).wf(),
            final(self).path_spec() == old(self).path_spec(),
            res is Ok,
            final(self)@ == (StorageView { notes: old(self)@.notes.insert(note.guid@, note@), ..old(self)@ }),
    {
        let ghost nv = note@;
        let guid = note.guid.clone();
        self.data.notes.insert(guid, note);
        assert(self.data.notes.map_view() =~= old(self)@.notes.insert(nv.guid, nv));
        Ok(())
    }

    /// A copy of the cached note with GUID `guid`.
    pub fn get_note(&self, guid: &str) -> (res: Option<Note>)
        requires
            self.wf(),
        ensures
            match get_in(self@.notes, guid@) {
                Some(n) => res matches Some(r) && r@ == n,
                None => res is None,
            },
    {
        match self.data.notes.get(guid) {
            Some(n) => Some(n.duplicate()),
            None => None,
        }
    }

    /// Keeps `search` as the last search.
    pub fn set_search(&mut self, search: SearchResult) -> (res: Result<(), ReeknoteError>)
        requires
            old(self).wf(),
        ensures
            final(self).wf(),
            final(self).path_spec() == old(self).path_spec(),
            res is Ok,
            final(self)@ == (StorageView { search: Some(search@), ..old(self)@ }),
    {
        self.data.search = Some(search);
        Ok(())
    }

    /// A copy of the last search.
    pub fn get_search(&self) -> (res: Option<SearchResult>)
        requires
            self.wf(),
        ensures
            match self@.search {
                Some(s) => res matches Some(r) && r@ == s,
                None => res is None,
            },
    {
        match &self.data.search {
            Some(s) => Some(s.duplicate()),
            None => None,
        }
    }
}

proof fn lemma_first_empty_prefix(es: Seq<(String, String)>, i: int)
    requires
        0 <= i < es.len(),
        first_empty_entry(es.take(i)) is None,
        es[i].0@.len() == 0 || es[i].1@.len() == 0,
    ensures
        first_empty_entry(es) == Some(i),
    decreases es.len(),
{
    if i == es.len() - 1 {
        assert(es.drop_last() =~= es.take(i));
    } else {
        assert(es.drop_last().take(i) =~= es.take(i));
        lemma_first_empty_prefix(es.drop_last(), i);
    }
}

/// Whether some value of `m` is empty.
fn any_empty_value(m: &StrMap<String>) -> (b: bool)
    requires
        m.wf(),
    ensures
        b == has_empty_value(m.map_view()),
{
    let ghost es = m.entry_seq();
    let mut i: usize = 0;
    while i < m.len()
        invariant
            i <= es.len(),
            es == m.entry_seq(),
            m.wf(),
            forall|j: int| 0 <= j < i ==> (#[trigger] es[j]).1@.len() != 0,
        decreases es.len() - i,
    {
        if m.value_at(i).as_str().is_empty() {
            proof {
                let k = es[i as int].0@;
                let ks = m.key_seq();
                assert forall|t: int| 0 <= t < i implies es[t].0@ != k by {
                    assert(ks[t] == es[t].0@ && ks[i as int] == k);
                    assert(crate::strmap::seq_lt(ks[t], ks[i as int]));
                    crate::strmap::lemma_lt_irreflexive(k);
                }
                crate::strmap::lemma_lookup_at(es, i as int, k);
                assert(m.map_view().dom().contains(k));
                assert(m.map_view()[k].len() == 0);
            }
            return true;
        }
        i += 1;
    }
    proof {
        assert forall|k: Seq<char>| m.map_view().dom().contains(k) implies #[trigger] m.map_view()[k].len() != 0 by {
            crate::strmap::lemma_lookup_found(es, k);
        }
    }
    false
}

// ---------------------------------------------------------------------------
// The storage file
// ---------------------------------------------------------------------------

/// Every line followed by a newline.
pub open spec fn terminated(lines: Seq<Seq<char>>) -> Seq<char>
    decreases lines.len(),
{
    if lines.len() == 0 {
        Seq::empty()
    } else {
        terminated(lines.drop_last()) + lines.last() + seq!['\n']
    }
}

/// The escaped forms of `v`.
pub open spec fn enc_all(v: Seq<Seq<char>>) -> Seq<Seq<char>> {
    v.map_values(|s: Seq<char>| enc_spec(s))
}

pub open spec fn tab() -> Seq<char> {
    seq!['\t']
}

/// The text of an optional string, empty when there is none.
pub open spec fn or_empty(o: Option<Seq<char>>) -> Seq<char> {
    match o {
        Some(s) => s,
        None => Seq::empty(),
    }
}

/// An optional integer in decimal, empty when there is none.
pub open spec fn opt_dec_i64(o: Option<i64>) -> Seq<char> {
    match o {
        Some(v) => crate::text::dec_int(v as int),
        None => Seq::empty(),
    }
}

/// An optional count in decimal, empty when there is none.
pub open spec fn opt_dec_usize(o: Option<usize>) -> Seq<char> {
    match o {
        Some(v) => crate::text::dec_nat(v as nat),
        None => Seq::empty(),
    }
}

/// The line of a user property.
pub open spec fn user_line(key: Seq<char>, v: StoredVal) -> Seq<char> {
    match v {
        StoredVal::Str(s) => "user.string"@ + tab() + enc_spec(key) + tab() + enc_spec(s),
        StoredVal::List(items) => "user.list"@ + tab() + enc_spec(key) + tab() + crate::text::join_spec(
            enc_all(items),
            tab(),
        ),
        StoredVal::Info(u) => "user.info"@ + tab() + enc_spec(key) + tab() + enc_spec(u.username) + tab()
            + enc_spec(u.name) + tab() + enc_spec(u.email) + tab() + crate::text::dec_int(u.id as int) + tab()
            + enc_spec(u.shard_id),
    }
}

/// The line of a key and its value under the heading `kind`.
pub open spec fn kv_line(kind: Seq<char>, key: Seq<char>, value: Seq<char>) -> Seq<char> {
    kind + tab() + enc_spec(key) + tab() + enc_spec(value)
}

/// The fields of the line of a cached note, stored under `guid`.
pub open spec fn note_fields(guid: Seq<char>, n: NoteView) -> Seq<Seq<char>> {
    seq![
        "note"@,
        enc_spec(guid),
        enc_spec(n.title),
        opt_dec_i64(n.created),
        opt_dec_i64(n.updated),
        enc_spec(or_empty(n.notebook_guid)),
        enc_spec(or_empty(n.notebook_name)),
        opt_dec_usize(n.content_length),
        enc_spec(or_empty(n.largest_resource_mime)),
        opt_dec_usize(n.largest_resource_size),
        crate::text::join_spec(enc_all(n.tag_guids), seq![',']),
    ]
}

/// The line of a cached note: its fields separated by tabs.
pub open spec fn note_line(guid: Seq<char>, n: NoteView) -> Seq<char> {
    crate::text::join_spec(note_fields(guid, n), tab())
}

/// The line of the last search: the GUIDs of its notes.
pub open spec fn search_line(s: SearchResultView) -> Seq<char> {
    "search"@ + tab() + crate::text::join_spec(
        enc_all(s.notes.map_values(|n: NoteView| n.guid)),
        tab(),
    )
}

pub open spec fn user_lines(es: Seq<(String, StoredValue)>) -> Seq<Seq<char>> {
    es.map_values(|e: (String, StoredValue)| user_line(e.0@, e.1@))
}

pub open spec fn kv_lines(kind: Seq<char>, es: Seq<(String, String)>) -> Seq<Seq<char>> {
    es.map_values(|e: (String, String)| kv_line(kind, e.0@, e.1@))
}

pub open spec fn note_lines(es: Seq<(String, Note)>) -> Seq<Seq<char>> {
    es.map_values(|e: (String, Note)| note_line(e.0@, e.1@))
}

/// The lines of the storage file, each map in key order.
pub open spec fn storage_lines(d: StorageData) -> Seq<Seq<char>> {
    user_lines(d.user_props.entry_seq()) + kv_lines("setting"@, d.settings.entry_seq()) + kv_lines(
        "tag"@,
        d.tags.entry_seq(),
    ) + kv_lines("notebook"@, d.notebooks.entry_seq()) + note_lines(d.notes.entry_seq()) + search_lines(d.search)
}

/// The search line, when there was a search.
pub open spec fn search_lines(s: Option<SearchResult>) -> Seq<Seq<char>> {
    match s {
        Some(s) => seq![search_line(s@)],
        None => Seq::empty(),
    }
}

/// The text of the storage file.
pub open spec fn serialize_spec(d: StorageData) -> Seq<char> {
    terminated(storage_lines(d))
}

pub proof fn lemma_terminated_concat(a: Seq<Seq<char>>, b: Seq<Seq<char>>)
    ensures
        terminated(a + b) == terminated(a) + terminated(b),
    decreases b.len(),
{
    if b.len() == 0 {
        assert(a + b =~= a);
        assert(terminated(b) == Seq::<char>::empty());
        assert(terminated(a) + terminated(b) =~= terminated(a));
    } else {
        assert((a + b).drop_last() =~= a + b.drop_last());
        assert((a + b).last() == b.last());
        lemma_terminated_concat(a, b.drop_last());
        assert(terminated(a + b) =~= terminated(a) + terminated(b));
    }
}

proof fn lemma_terminated_push(a: Seq<Seq<char>>, l: Seq<char>)
    ensures
        terminated(a.push(l)) == terminated(a) + l + seq!['\n'],
{
    assert(a.push(l).drop_last() =~= a);
}

/// Appends the escaped form of `s`.
fn push_enc(out: &mut Vec<char>, s: &str)
    ensures
        final(out)@ == old(out)@ + enc_spec(s@),
{
    let e = enc(s);
    crate::text::push_str(out, e.as_str());
}

/// Appends the escaped items of `v`, with `sep` between them.
fn push_enc_joined(out: &mut Vec<char>, v: &Vec<String>, sep: char)
    ensures
        final(out)@ == old(out)@ + crate::text::join_spec(enc_all(string_views(v@)), seq![sep]),
{
    let ghost head = out@;
    let ghost all = enc_all(string_views(v@));
    let mut i: usize = 0;
    while i < v.len()
        invariant
            i <= v@.len(),
            all == enc_all(string_views(v@)),
            out@ == head + crate::text::join_spec(all.take(i as int), seq![sep]),
        decreases v.len() - i,
    {
        if i > 0 {
            out.push(sep);
        }
        push_enc(out, v[i].as_str());
        proof {
            let t = all.take(i + 1);
            assert(t.drop_last() =~= all.take(i as int));
            assert(t.last() == enc_spec(v@[i as int]@));
            if i == 0 {
                assert(all.take(0) =~= Seq::<Seq<char>>::empty());
                assert(out@ =~= head + t[0]);
            } else {
                assert(out@ =~= head + crate::text::join_spec(all.take(i as int), seq![sep]) + seq![sep] + t.last());
            }
        }
        i += 1;
    }
    assert(all.take(i as int) =~= all);
}

fn push_opt_i64(out: &mut Vec<char>, o: Option<i64>)
    ensures
        final(out)@ == old(out)@ + opt_dec_i64(o),
{
    match o {
        Some(v) => {
            let d = crate::text::i64_dec(v);
            crate::text::push_all(out, d.as_slice());
        },
        None => {
            assert(old(out)@ + Seq::<char>::empty() =~= old(out)@);
        },
    }
}

fn push_opt_usize(out: &mut Vec<char>, o: Option<usize>)
    ensures
        final(out)@ == old(out)@ + opt_dec_usize(o),
{
    match o {
        Some(v) => {
            let d = crate::text::usize_dec(v);
            crate::text::push_all(out, d.as_slice());
        },
        None => {
            assert(old(out)@ + Seq::<char>::empty() =~= old(out)@);
        },
    }
}

fn push_enc_opt(out: &mut Vec<char>, o: &Option<String>)
    ensures
        final(out)@ == old(out)@ + enc_spec(or_empty(crate::models::opt_str(*o))),
{
    match o {
        Some(s) => {
            push_enc(out, s.as_str());
        },
        None => {
            push_enc(out, "");
            proof {
                reveal_strlit("");
            }
            assert(""@ =~= or_empty(crate::models::opt_str(*o)));
        },
    }
}

fn push_user_line(out: &mut Vec<char>, key: &String, v: &StoredValue)
    ensures
        final(out)@ == old(out)@ + user_line(key@, v@) + seq!['\n'],
{
    match v {
        StoredValue::String(s) => {
            crate::text::push_str(out, "user.string\t");
            push_enc(out, key.as_str());
            out.push('\t');
            push_enc(out, s.as_str());
        },
        StoredValue::StringList(items) => {
            crate::text::push_str(out, "user.list\t");
            push_enc(out, key.as_str());
            out.push('\t');
            push_enc_joined(out, items, '\t');
        },
        StoredValue::UserInfo(u) => {
            crate::text::push_str(out, "user.info\t");
            push_enc(out, key.as_str());
            out.push('\t');
            push_enc(out, u.username.as_str());
            out.push('\t');
            push_enc(out, u.name.as_str());
            out.push('\t');
            push_enc(out, u.email.as_str());
            out.push('\t');
            let d = crate::text::i64_dec(u.id);
            crate::text::push_all(out, d.as_slice());
            out.push('\t');
            push_enc(out, u.shard_id.as_str());
        },
    }
    out.push('\n');
    proof {
        reveal_strlit("user.string\t");
        reveal_strlit("user.list\t");
        reveal_strlit("user.info\t");
        reveal_strlit("user.string");
        reveal_strlit("user.list");
        reveal_strlit("user.info");
    }
    assert(final(out)@ =~= old(out)@ + user_line(key@, v@) + seq!['\n']);
}

fn push_kv_line(out: &mut Vec<char>, kind: &str, key: &String, value: &String)
    ensures
        final(out)@ == old(out)@ + kv_line(kind@, key@, value@) + seq!['\n'],
{
    crate::text::push_str(out, kind);
    out.push('\t');
    push_enc(out, key.as_str());
    out.push('\t');
    push_enc(out, value.as_str());
    out.push('\n');
    assert(final(out)@ =~= old(out)@ + kv_line(kind@, key@, value@) + seq!['\n']);
}

fn push_note_line(out: &mut Vec<char>, guid: &String, n: &Note)
    ensures
        final(out)@ == old(out)@ + note_line(guid@, n@) + seq!['\n'],
{
    let mut fields: Vec<Vec<char>> = Vec::new();
    fields.push(crate::text::chars_of("note"));
    fields.push(enc_chars(guid.as_str()));
    fields.push(enc_chars(n.title.as_str()));
    let mut f: Vec<char> = Vec::new();
    push_opt_i64(&mut f, n.created);
    fields.push(f);
    let mut f: Vec<char> = Vec::new();
    push_opt_i64(&mut f, n.updated);
    fields.push(f);
    let mut f: Vec<char> = Vec::new();
    push_enc_opt(&mut f, &n.notebook_guid);
    fields.push(f);
    let mut f: Vec<char> = Vec::new();
    push_enc_opt(&mut f, &n.notebook_name);
    fields.push(f);
    let mut f: Vec<char> = Vec::new();
    push_opt_usize(&mut f, n.content_length);
    fields.push(f);
    let mut f: Vec<char> = Vec::new();
    push_enc_opt(&mut f, &n.largest_resource_mime);
    fields.push(f);
    let mut f: Vec<char> = Vec::new();
    push_opt_usize(&mut f, n.largest_resource_size);
    fields.push(f);
    let mut f: Vec<char> = Vec::new();
    push_enc_joined(&mut f, &n.tag_guids, ',');
    fields.push(f);
    assert(crate::text::views(fields@) =~= note_fields(guid@, n@));
    let sep = vec!['\t'];
    assert(sep@ =~= tab());
    let line = crate::text::join(&fields, sep.as_slice());
    crate::text::push_all(out, line.as_slice());
    out.push('\n');
}

/// The escaped form of `s`, as characters.
fn enc_chars(s: &str) -> (r: Vec<char>)
    ensures
        r@ == enc_spec(s@),
{
    let e = enc(s);
    crate::text::chars_of(e.as_str())
}

fn push_search_line(out: &mut Vec<char>, s: &SearchResult)
    ensures
        final(out)@ == old(out)@ + search_line(s@) + seq!['\n'],
{
    crate::text::push_str(out, "search\t");
    let ghost head = out@;
    let ghost all = enc_all(s@.notes.map_values(|n: NoteView| n.guid));
    let mut i: usize = 0;
    while i < s.notes.len()
        invariant
            i <= s.notes@.len(),
            all == enc_all(s@.notes.map_values(|n: NoteView| n.guid)),
            all.len() == s.notes@.len(),
            out@ == head + crate::text::join_spec(all.take(i as int), tab()),
        decreases s.notes.len() - i,
    {
        if i > 0 {
            out.push('\t');
        }
        push_enc(out, s.notes[i].guid.as_str());
        proof {
            let t = all.take(i + 1);
            assert(t.drop_last() =~= all.take(i as int));
            assert(t.last() == enc_spec(s.notes@[i as int].guid@));
            if i == 0 {
                assert(all.take(0) =~= Seq::<Seq<char>>::empty());
                assert(out@ =~= head + t[0]);
            } else {
                assert(out@ =~= head + crate::text::join_spec(all.take(i as int), tab()) + tab() + t.last());
            }
        }
        i += 1;
    }
    assert(all.take(i as int) =~= all);
    out.push('\n');
    proof {
        reveal_strlit("search\t");
        reveal_strlit("search");
    }
    assert(final(out)@ =~= old(out)@ + search_line(s@) + seq!['\n']);
}

/// The text of the storage file for `data`.
pub fn serialize_storage(data: &StorageData) -> (res: String)
    ensures
        res@ == serialize_spec(*data),
{
    let mut out: Vec<char> = Vec::new();
    // user properties
    let ghost ues = data.user_props.entry_seq();
    let mut i: usize = 0;
    while i < data.user_props.len()
        invariant
            i <= ues.len(),
            ues == data.user_props.entry_seq(),
            out@ == terminated(user_lines(ues.take(i as int))),
        decreases ues.len() - i,
    {
        push_user_line(&mut out, data.user_props.key_at(i), data.user_props.value_at(i));
        proof {
            assert(user_lines(ues.take(i + 1)) =~= user_lines(ues.take(i as int)).push(
                user_line(ues[i as int].0@, ues[i as int].1@),
            ));
            lemma_terminated_push(user_lines(ues.take(i as int)), user_line(ues[i as int].0@, ues[i as int].1@));
        }
        i += 1;
    }
    assert(ues.take(i as int) =~= ues);
    let ghost l1 = user_lines(ues);
    push_kv_lines(&mut out, "setting", &data.settings);
    let ghost l2 = kv_lines("setting"@, data.settings.entry_seq());
    push_kv_lines(&mut out, "tag", &data.tags);
    let ghost l3 = kv_lines("tag"@, data.tags.entry_seq());
    push_kv_lines(&mut out, "notebook", &data.notebooks);
    let ghost l4 = kv_lines("notebook"@, data.notebooks.entry_seq());
    // notes
    let ghost nes = data.notes.entry_seq();
    let ghost head = out@;
    let mut j: usize = 0;
    while j < data.notes.len()
        invariant
            j <= nes.len(),
            nes == data.notes.entry_seq(),
            out@ == head + terminated(note_lines(nes.take(j as int))),
        decreases nes.len() - j,
    {
        push_note_line(&mut out, data.notes.key_at(j), data.notes.value_at(j));
        proof {
            assert(note_lines(nes.take(j + 1)) =~= note_lines(nes.take(j as int)).push(
                note_line(nes[j as int].0@, nes[j as int].1@),
            ));
            lemma_terminated_push(note_lines(nes.take(j as int)), note_line(nes[j as int].0@, nes[j as int].1@));
        }
        j += 1;
    }
    assert(nes.take(j as int) =~= nes);
    let ghost l5 = note_lines(nes);
    let ghost before_search = out@;
    match &data.search {
        Some(s) => {
            push_search_line(&mut out, s);
            proof {
                lemma_terminated_push(Seq::<Seq<char>>::empty(), search_line(s@));
                assert(Seq::<Seq<char>>::empty().push(search_line(s@)) =~= seq![search_line(s@)]);
            }
        },
        None => {},
    }
    let ghost l6 = search_lines(data.search);
    proof {
        assert(out@ == before_search + terminated(l6));
        lemma_terminated_concat(l1, l2);
        lemma_terminated_concat(l1 + l2, l3);
        lemma_terminated_concat(l1 + l2 + l3, l4);
        lemma_terminated_concat(l1 + l2 + l3 + l4, l5);
        lemma_terminated_concat(l1 + l2 + l3 + l4 + l5, l6);
        assert(storage_lines(*data) == l1 + l2 + l3 + l4 + l5 + l6);
        assert(out@ =~= serialize_spec(*data));
    }
    crate::text::string_of(out.as_slice())
}

/// Appends the lines of the entries of `m` under the heading `kind`.
fn push_kv_lines(out: &mut Vec<char>, kind: &str, m: &StrMap<String>)
    ensures
        final(out)@ == old(out)@ + terminated(kv_lines(kind@, m.entry_seq())),
{
    let ghost es = m.entry_seq();
    let ghost head = out@;
    let mut i: usize = 0;
    while i < m.len()
        invariant
            i <= es.len(),
            es == m.entry_seq(),
            out@ == head + terminated(kv_lines(kind@, es.take(i as int))),
        decreases es.len() - i,
    {
        push_kv_line(out, kind, m.key_at(i), m.value_at(i));
        proof {
            assert(kv_lines(kind@, es.take(i + 1)) =~= kv_lines(kind@, es.take(i as int)).push(
                kv_line(kind@, es[i as int].0@, es[i as int].1@),
            ));
            lemma_terminated_push(kv_lines(kind@, es.take(i as int)), kv_line(kind@, es[i as int].0@, es[i as int].1@));
        }
        i += 1;
    }
    assert(es.take(i as int) =~= es);
}

// ---------------------------------------------------------------------------
// Reading the storage file
// ---------------------------------------------------------------------------

/// Each field decoded, or the failure of the first that cannot be.
pub open spec fn dec_all(fields: Seq<Seq<char>>) -> Result<Seq<Seq<char>>, Seq<char>>
    decreases fields.len(),
{
    if fields.len() == 0 {
        Ok(Seq::empty())
    } else {
        match dec_all(fields.drop_last()) {
            Err(e) => Err(e),
            Ok(prev) => match dec_spec(fields.last()) {
                Ok(x) => Ok(prev.push(x)),
                Err(e) => Err(e),
            },
        }
    }
}

/// A decoded field, `None` when it is empty.
pub open spec fn dec_optional(f: Seq<char>) -> Result<Option<Seq<char>>, Seq<char>> {
    match dec_spec(f) {
        Ok(x) => Ok(if x.len() == 0 { None } else { Some(x) }),
        Err(e) => Err(e),
    }
}

/// An optional integer field: none when empty or not a number.
pub open spec fn opt_i64_field(f: Seq<char>) -> Option<i64> {
    if f.len() == 0 {
        None
    } else {
        crate::text::parse_i64_spec(f)
    }
}

/// An optional count field: none when empty or not a number.
pub open spec fn opt_usize_field(f: Seq<char>) -> Option<usize> {
    if f.len() == 0 {
        None
    } else {
        crate::text::parse_usize_spec(f)
    }
}

/// The tag GUIDs of a note line: none when the field is empty, else the
/// decoded comma-separated items.
pub open spec fn tag_guids_field(f: Seq<char>) -> Result<Seq<Seq<char>>, Seq<char>> {
    if f.len() == 0 {
        Ok(Seq::empty())
    } else {
        dec_all(crate::text::split_spec(f, seq![',']))
    }
}

/// The cached notes that the GUID fields of a search line name, in order;
/// a field that does not decode or names no cached note is skipped.
pub open spec fn search_notes(notes: Map<Seq<char>, NoteView>, guids: Seq<Seq<char>>) -> Seq<NoteView>
    decreases guids.len(),
{
    if guids.len() == 0 {
        Seq::empty()
    } else {
        let prev = search_notes(notes, guids.drop_last());
        match dec_spec(guids.last()) {
            Ok(g) => if notes.dom().contains(g) {
                prev.push(notes[g])
            } else {
                prev
            },
            Err(_) => prev,
        }
    }
}

pub open spec fn default_attributes() -> AttributesView {
    AttributesView { source_url: None, reminder_order: None, reminder_time: None, reminder_done_time: None }
}

/// What a `note` line with fields `p` stores, or the failure.
pub open spec fn note_from_fields(p: Seq<Seq<char>>) -> Result<NoteView, Seq<char>> {
    match dec_spec(p[1]) {
        Err(e) => Err(e),
        Ok(guid) => match tag_guids_field(p[10]) {
            Err(e) => Err(e),
            Ok(tags) => match dec_spec(p[2]) {
                Err(e) => Err(e),
                Ok(title) => match dec_optional(p[5]) {
                    Err(e) => Err(e),
                    Ok(nb_guid) => match dec_optional(p[6]) {
                        Err(e) => Err(e),
                        Ok(nb_name) => match dec_optional(p[8]) {
                            Err(e) => Err(e),
                            Ok(mime) => Ok(
                                NoteView {
                                    guid,
                                    title,
                                    content: Seq::empty(),
                                    created: opt_i64_field(p[3]),
                                    updated: opt_i64_field(p[4]),
                                    notebook_guid: nb_guid,
                                    notebook_name: nb_name,
                                    tag_guids: tags,
                                    tag_names: Seq::empty(),
                                    attributes: default_attributes(),
                                    resources: Seq::empty(),
                                    content_length: opt_usize_field(p[7]),
                                    largest_resource_mime: mime,
                                    largest_resource_size: opt_usize_field(p[9]),
                                },
                            ),
                        },
                    },
                },
            },
        },
    }
}

/// The user details of a `user.info` line with fields `p`, or the failure.
pub open spec fn info_from_fields(p: Seq<Seq<char>>) -> Result<UserInfoView, Seq<char>> {
    match dec_spec(p[2]) {
        Err(e) => Err(e),
        Ok(username) => match dec_spec(p[3]) {
            Err(e) => Err(e),
            Ok(name) => match dec_spec(p[4]) {
                Err(e) => Err(e),
                Ok(email) => match dec_spec(p[6]) {
                    Err(e) => Err(e),
                    Ok(shard_id) => Ok(
                        UserInfoView {
                            username,
                            name,
                            email,
                            id: match crate::text::parse_i64_spec(p[5]) {
                                Some(v) => v,
                                None => 0,
                            },
                            shard_id,
                            accounting: Accounting { upload_limit: 0, upload_limit_end: None },
                            timezone: None,
                        },
                    ),
                },
            },
        },
    }
}

/// A key and value line (`setting`, `tag`, `notebook`): both fields decoded.
pub open spec fn kv_from_fields(p: Seq<Seq<char>>) -> Result<(Seq<char>, Seq<char>), Seq<char>> {
    match dec_spec(p[1]) {
        Err(e) => Err(e),
        Ok(k) => match dec_spec(p[2]) {
            Err(e) => Err(e),
            Ok(v) => Ok((k, v)),
        },
    }
}

/// What one non-blank line of the storage file does to the store, or the failure.
pub open spec fn apply_line_spec(st: StorageView, line: Seq<char>) -> Result<StorageView, Seq<char>> {
    let p = crate::text::split_spec(line, tab());
    let n = p.len();
    if p[0] == "user.string"@ && n == 3 {
        match kv_from_fields(p) {
            Err(e) => Err(e),
            Ok((k, v)) => Ok(StorageView { user_props: st.user_props.insert(k, StoredVal::Str(v)), ..st }),
        }
    } else if p[0] == "user.list"@ && n >= 2 {
        match dec_all(p.skip(2)) {
            Err(e) => Err(e),
            Ok(values) => match dec_spec(p[1]) {
                Err(e) => Err(e),
                Ok(k) => Ok(StorageView { user_props: st.user_props.insert(k, StoredVal::List(values)), ..st }),
            },
        }
    } else if p[0] == "user.info"@ && n == 7 {
        match dec_spec(p[1]) {
            Err(e) => Err(e),
            Ok(k) => match info_from_fields(p) {
                Err(e) => Err(e),
                Ok(info) => Ok(StorageView { user_props: st.user_props.insert(k, StoredVal::Info(info)), ..st }),
            },
        }
    } else if p[0] == "setting"@ && n == 3 {
        match kv_from_fields(p) {
            Err(e) => Err(e),
            Ok((k, v)) => Ok(StorageView { settings: st.settings.insert(k, v), ..st }),
        }
    } else if p[0] == "tag"@ && n == 3 {
        match kv_from_fields(p) {
            Err(e) => Err(e),
            Ok((k, v)) => Ok(StorageView { tags: st.tags.insert(k, v), ..st }),
        }
    } else if p[0] == "notebook"@ && n == 3 {
        match kv_from_fields(p) {
            Err(e) => Err(e),
            Ok((k, v)) => Ok(StorageView { notebooks: st.notebooks.insert(k, v), ..st }),
        }
    } else if p[0] == "note"@ && n == 11 {
        match note_from_fields(p) {
            Err(e) => Err(e),
            Ok(note) => Ok(StorageView { notes: st.notes.insert(note.guid, note), ..st }),
        }
    } else if p[0] == "search"@ {
        let notes = search_notes(st.notes, p.skip(1));
        Ok(StorageView { search: Some(SearchResultView { total_notes: notes.len() as usize, notes }), ..st })
    } else {
        Err("invalid storage line: "@ + line)
    }
}

/// The store after the lines `lines`, blank lines skipped, or the first failure.
pub open spec fn parse_lines(lines: Seq<Seq<char>>) -> Result<StorageView, Seq<char>>
    decreases lines.len(),
{
    if lines.len() == 0 {
        Ok(empty_view())
    } else {
        match parse_lines(lines.drop_last()) {
            Err(e) => Err(e),
            Ok(st) => if crate::text::is_blank(lines.last()) {
                Ok(st)
            } else {
                apply_line_spec(st, lines.last())
            },
        }
    }
}

/// What the storage file `content` holds, or the failure.
pub open spec fn parse_storage_spec(content: Seq<char>) -> Result<StorageView, Seq<char>> {
    parse_lines(crate::text::lines_spec(content))
}

/// `dec` of a field given as characters.
fn dec_field(f: &Vec<char>) -> (res: Result<String, ReeknoteError>)
    ensures
        parse_outcome(res, dec_spec(f@)),
{
    let s = crate::text::string_of(f.as_slice());
    dec(s.as_str())
}

fn dec_fields(fields: &Vec<Vec<char>>, from: usize) -> (res: Result<Vec<String>, ReeknoteError>)
    requires
        from <= fields@.len(),
    ensures
        match dec_all(crate::text::views(fields@).skip(from as int)) {
            Ok(v) => res matches Ok(r) && string_views(r@) == v,
            Err(e) => fails_parse(res, e),
        },
{
    let ghost all = crate::text::views(fields@).skip(from as int);
    let mut out: Vec<String> = Vec::new();
    let mut i: usize = from;
    assert(all.take(0) =~= Seq::<Seq<char>>::empty());
    assert(string_views(out@) =~= Seq::<Seq<char>>::empty());
    assert(dec_all(Seq::<Seq<char>>::empty()) == Ok::<Seq<Seq<char>>, Seq<char>>(Seq::empty()));
    while i < fields.len()
        invariant
            from <= i <= fields@.len(),
            all == crate::text::views(fields@).skip(from as int),
            dec_all(all.take(i - from)) == Ok::<Seq<Seq<char>>, Seq<char>>(string_views(out@)),
        decreases fields.len() - i,
    {
        let ghost t = all.take(i - from + 1);
        assert(t.drop_last() =~= all.take(i - from));
        assert(t.last() == fields@[i as int]@);
        match dec_field(&fields[i]) {
            Ok(x) => {
                let ghost before = out@;
                out.push(x);
                assert(string_views(out@) =~= string_views(before).push(x@));
            },
            Err(e) => {
                proof {
                    lemma_dec_all_err_prefix(all, i - from + 1);
                }
                return Err(e);
            },
        }
        i += 1;
    }
    assert(all.take(i - from) =~= all);
    Ok(out)
}

proof fn lemma_dec_all_err_prefix(fields: Seq<Seq<char>>, i: int)
    requires
        0 <= i <= fields.len(),
        dec_all(fields.take(i)) is Err,
    ensures
        dec_all(fields) == dec_all(fields.take(i)),
    decreases fields.len() - i,
{
    if i < fields.len() {
        assert(fields.take(i + 1).drop_last() =~= fields.take(i));
        lemma_dec_all_err_prefix(fields, i + 1);
    } else {
        assert(fields.take(i) =~= fields);
    }
}

fn dec_optional_field(f: &Vec<char>) -> (res: Result<Option<String>, ReeknoteError>)
    ensures
        match dec_optional(f@) {
            Ok(o) => res matches Ok(r) && crate::models::opt_str(r) == o,
            Err(e) => fails_parse(res, e),
        },
{
    match dec_field(f) {
        Ok(x) => {
            if x.as_str().is_empty() {
                Ok(None)
            } else {
                Ok(Some(x))
            }
        },
        Err(e) => Err(e),
    }
}

fn opt_i64_exec(f: &Vec<char>) -> (r: Option<i64>)
    ensures
        r == opt_i64_field(f@),
{
    if f.len() == 0 {
        None
    } else {
        crate::text::parse_i64(f.as_slice())
    }
}

fn opt_usize_exec(f: &Vec<char>) -> (r: Option<usize>)
    ensures
        r == opt_usize_field(f@),
{
    if f.len() == 0 {
        None
    } else {
        crate::text::parse_usize(f.as_slice())
    }
}

fn is_word(f: &Vec<char>, w: &str) -> (b: bool)
    ensures
        b == (f@ == w@),
{
    let wc = crate::text::chars_of(w);
    crate::text::chars_eq(f.as_slice(), wc.as_slice())
}

fn note_from_parts(p: &Vec<Vec<char>>) -> (res: Result<Note, ReeknoteError>)
    requires
        p@.len() == 11,
    ensures
        match note_from_fields(crate::text::views(p@)) {
            Ok(n) => res matches Ok(r) && r@ == n,
            Err(e) => fails_parse(res, e),
        },
{
    let ghost pv = crate::text::views(p@);
    assert(forall|i: int| 0 <= i < 11 ==> pv[i] == #[trigger] p@[i]@);
    let guid = match dec_field(&p[1]) {
        Ok(g) => g,
        Err(e) => return Err(e),
    };
    let tag_guids = if p[10].len() == 0 {
        Vec::new()
    } else {
        let comma = vec![','];
        let items = crate::text::split(p[10].as_slice(), comma.as_slice());
        assert(comma@ =~= seq![',']);
        assert(crate::text::views(items@).skip(0) =~= crate::text::views(items@));
        match dec_fields(&items, 0) {
            Ok(v) => v,
            Err(e) => return Err(e),
        }
    };
    let title = match dec_field(&p[2]) {
        Ok(t) => t,
        Err(e) => return Err(e),
    };
    let notebook_guid = match dec_optional_field(&p[5]) {
        Ok(o) => o,
        Err(e) => return Err(e),
    };
    let notebook_name = match dec_optional_field(&p[6]) {
        Ok(o) => o,
        Err(e) => return Err(e),
    };
    let largest_resource_mime = match dec_optional_field(&p[8]) {
        Ok(o) => o,
        Err(e) => return Err(e),
    };
    let n = Note {
        guid,
        title,
        content: String::new(),
        created: opt_i64_exec(&p[3]),
        updated: opt_i64_exec(&p[4]),
        notebook_guid,
        notebook_name,
        tag_guids,
        tag_names: Vec::new(),
        attributes: NoteAttributes::default(),
        resources: Vec::new(),
        content_length: opt_usize_exec(&p[7]),
        largest_resource_mime,
        largest_resource_size: opt_usize_exec(&p[9]),
    };
    proof {
        if p@[10]@.len() == 0 {
            assert(string_views(n.tag_guids@) =~= Seq::<Seq<char>>::empty());
        }
        assert(crate::text::string_views(n.tag_names@) =~= Seq::<Seq<char>>::empty());
        assert(crate::models::resource_views(n.resources@) =~= Seq::<crate::models::ResourceView>::empty());
    }
    Ok(n)
}

fn info_from_parts(p: &Vec<Vec<char>>) -> (res: Result<UserInfo, ReeknoteError>)
    requires
        p@.len() == 7,
    ensures
        match info_from_fields(crate::text::views(p@)) {
            Ok(u) => res matches Ok(r) && r@ == u,
            Err(e) => fails_parse(res, e),
        },
{
    let ghost pv = crate::text::views(p@);
    assert(forall|i: int| 0 <= i < 7 ==> pv[i] == #[trigger] p@[i]@);
    let username = match dec_field(&p[2]) {
        Ok(x) => x,
        Err(e) => return Err(e),
    };
    let name = match dec_field(&p[3]) {
        Ok(x) => x,
        Err(e) => return Err(e),
    };
    let email = match dec_field(&p[4]) {
        Ok(x) => x,
        Err(e) => return Err(e),
    };
    let id = match crate::text::parse_i64(p[5].as_slice()) {
        Some(v) => v,
        None => 0,
    };
    let shard_id = match dec_field(&p[6]) {
        Ok(x) => x,
        Err(e) => return Err(e),
    };
    Ok(UserInfo {
        username,
        name,
        email,
        id,
        shard_id,
        accounting: Accounting { upload_limit: 0, upload_limit_end: None },
        timezone: None,
    })
}

fn kv_from_parts(p: &Vec<Vec<char>>) -> (res: Result<(String, String), ReeknoteError>)
    requires
        p@.len() == 3,
    ensures
        match kv_from_fields(crate::text::views(p@)) {
            Ok((k, v)) => res matches Ok(r) && r.0@ == k && r.1@ == v,
            Err(e) => fails_parse(res, e),
        },
{
    let ghost pv = crate::text::views(p@);
    assert(pv[1] == p@[1]@ && pv[2] == p@[2]@);
    let k = match dec_field(&p[1]) {
        Ok(x) => x,
        Err(e) => return Err(e),
    };
    let v = match dec_field(&p[2]) {
        Ok(x) => x,
        Err(e) => return Err(e),
    };
    Ok((k, v))
}

/// Applies one non-blank line of the storage file to `data`.
#[verifier::rlimit(40)]
fn apply_line(data: &mut StorageData, line: &Vec<char>) -> (res: Result<(), ReeknoteError>)
    requires
        old(data).wf(),
    ensures
        final(data).wf(),
        match apply_line_spec(old(data)@, line@) {
            Ok(v) => res is Ok && final(data)@ == v,
            Err(e) => fails_parse(res, e),
        },
{
    let ghost st = data@;
    let tabv = vec!['\t'];
    assert(tabv@ =~= tab());
    let p = crate::text::split(line.as_slice(), tabv.as_slice());
    let ghost pv = crate::text::views(p@);
    proof {
        crate::text::lemma_split_nonempty(line@, tab());
    }
    assert(pv.len() == p@.len() && pv[0] == p@[0]@);
    let n = p.len();
    if is_word(&p[0], "user.string") && n == 3 {
        match kv_from_parts(&p) {
            Ok((k, v)) => {
                let ghost kv = k@;
                let ghost vv = v@;
                data.user_props.insert(k, StoredValue::String(v));
                assert(data.user_props.map_view() =~= st.user_props.insert(kv, StoredVal::Str(vv)));
                Ok(())
            },
            Err(e) => Err(e),
        }
    } else if is_word(&p[0], "user.list") && n >= 2 {
        assert(pv.skip(2) =~= crate::text::views(p@).skip(2));
        let values = match dec_fields(&p, 2) {
            Ok(v) => v,
            Err(e) => return Err(e),
        };
        assert(pv[1] == p@[1]@);
        let k = match dec_field(&p[1]) {
            Ok(x) => x,
            Err(e) => return Err(e),
        };
        let ghost kv = k@;
        let ghost vv = string_views(values@);
        data.user_props.insert(k, StoredValue::StringList(values));
        assert(data.user_props.map_view() =~= st.user_props.insert(kv, StoredVal::List(vv)));
        Ok(())
    } else if is_word(&p[0], "user.info") && n == 7 {
        assert(pv[1] == p@[1]@);
        let k = match dec_field(&p[1]) {
            Ok(x) => x,
            Err(e) => return Err(e),
        };
        let info = match info_from_parts(&p) {
            Ok(i) => i,
            Err(e) => return Err(e),
        };
        let ghost kv = k@;
        let ghost iv = info@;
        data.user_props.insert(k, StoredValue::UserInfo(info));
        assert(data.user_props.map_view() =~= st.user_props.insert(kv, StoredVal::Info(iv)));
        Ok(())
    } else if is_word(&p[0], "setting") && n == 3 {
        match kv_from_parts(&p) {
            Ok((k, v)) => {
                let ghost kv = k@;
                let ghost vv = v@;
                data.settings.insert(k, v);
                assert(data.settings.map_view() =~= st.settings.insert(kv, vv));
                Ok(())
            },
            Err(e) => Err(e),
        }
    } else if is_word(&p[0], "tag") && n == 3 {
        match kv_from_parts(&p) {
            Ok((k, v)) => {
                let ghost kv = k@;
                let ghost vv = v@;
                data.tags.insert(k, v);
                assert(data.tags.map_view() =~= st.tags.insert(kv, vv));
                Ok(())
            },
            Err(e) => Err(e),
        }
    } else if is_word(&p[0], "notebook") && n == 3 {
        match kv_from_parts(&p) {
            Ok((k, v)) => {
                let ghost kv = k@;
                let ghost vv = v@;
                data.notebooks.insert(k, v);
                assert(data.notebooks.map_view() =~= st.notebooks.insert(kv, vv));
                Ok(())
            },
            Err(e) => Err(e),
        }
    } else if is_word(&p[0], "note") && n == 11 {
        match note_from_parts(&p) {
            Ok(note) => {
                let ghost nv = note@;
                let guid = note.guid.clone();
                data.notes.insert(guid, note);
                assert(data.notes.map_view() =~= st.notes.insert(nv.guid, nv));
                Ok(())
            },
            Err(e) => Err(e),
        }
    } else if is_word(&p[0], "search") {
        let notes = search_from_parts(&data.notes, &p);
        let total = notes.len();
        data.search = Some(SearchResult { total_notes: total, notes });
        Ok(())
    } else {
        let mut m = crate::text::chars_of("invalid storage line: ");
        crate::text::push_all(&mut m, line.as_slice());
        Err(ReeknoteError::Parse(crate::text::string_of(m.as_slice())))
    }
}

/// The cached notes that the fields of a search line name.
fn search_from_parts(notes: &StrMap<Note>, p: &Vec<Vec<char>>) -> (res: Vec<Note>)
    requires
        notes.wf(),
        p@.len() >= 1,
    ensures
        crate::models::note_views(res@) == search_notes(notes.map_view(), crate::text::views(p@).skip(1)),
{
    let ghost guids = crate::text::views(p@).skip(1);
    let mut out: Vec<Note> = Vec::new();
    let mut i: usize = 1;
    assert(guids.take(0) =~= Seq::<Seq<char>>::empty());
    while i < p.len()
        invariant
            1 <= i <= p@.len(),
            notes.wf(),
            guids == crate::text::views(p@).skip(1),
            crate::models::note_views(out@) == search_notes(notes.map_view(), guids.take(i - 1)),
        decreases p.len() - i,
    {
        let ghost t = guids.take(i as int);
        assert(t.drop_last() =~= guids.take(i - 1));
        assert(t.last() == p@[i as int]@);
        match dec_field(&p[i]) {
            Ok(g) => {
                match notes.get(g.as_str()) {
                    Some(n) => {
                        let ghost before = out@;
                        out.push(n.duplicate());
                        assert(crate::models::note_views(out@) =~= crate::models::note_views(before).push(n@));
                    },
                    None => {},
                }
            },
            Err(_) => {},
        }
        i += 1;
    }
    assert(guids.take(i - 1) =~= guids);
    out
}

/// Reads the storage file `content`.
pub fn parse_storage(content: &str) -> (res: Result<StorageData, ReeknoteError>)
    ensures
        match parse_storage_spec(content@) {
            Ok(v) => res matches Ok(d) && d.wf() && d@ == v,
            Err(e) => fails_parse(res, e),
        },
{
    let chars = crate::text::chars_of(content);
    let lines = crate::text::lines(chars.as_slice());
    let ghost ls = crate::text::views(lines@);
    let mut data = StorageData::empty();
    let mut i: usize = 0;
    assert(ls.take(0) =~= Seq::<Seq<char>>::empty());
    while i < lines.len()
        invariant
            i <= lines@.len(),
            ls == crate::text::views(lines@),
            ls == crate::text::lines_spec(content@),
            data.wf(),
            parse_lines(ls.take(i as int)) == Ok::<StorageView, Seq<char>>(data@),
        decreases lines.len() - i,
    {
        let ghost t = ls.take(i + 1);
        assert(t.drop_last() =~= ls.take(i as int));
        assert(t.last() == lines@[i as int]@);
        if !crate::text::blank(lines[i].as_slice()) {
            match apply_line(&mut data, &lines[i]) {
                Ok(()) => {},
                Err(e) => {
                    proof {
                        lemma_parse_lines_err_prefix(ls, i + 1);
                    }
                    return Err(e);
                },
            }
        }
        i += 1;
    }
    assert(ls.take(i as int) =~= ls);
    Ok(data)
}

proof fn lemma_parse_lines_err_prefix(lines: Seq<Seq<char>>, i: int)
    requires
        0 <= i <= lines.len(),
        parse_lines(lines.take(i)) is Err,
    ensures
        parse_lines(lines) == parse_lines(lines.take(i)),
    decreases lines.len() - i,
{
    if i < lines.len() {
        assert(lines.take(i + 1).drop_last() =~= lines.take(i));
        lemma_parse_lines_err_prefix(lines, i + 1);
    } else {
        assert(lines.take(i) =~= lines);
    }
}

impl Storage {
    /// The store kept in the file `path`, whose text is `content` when the
    /// file exists.
    pub fn open(path: &str, content: Option<&str>) -> (res: Result<Self, ReeknoteError>)
        ensures
            match content {
                None => res matches Ok(s) && s.wf() && s@ == empty_view() && s.path_spec() == Some(path@),
                Some(c) => match parse_storage_spec(c@) {
                    Ok(v) => res matches Ok(s) && s.wf() && s@ == v && s.path_spec() == Some(path@),
                    Err(e) => fails_parse(res, e),
                },
            },
    {
        let data = match content {
            Some(c) => match parse_storage(c) {
                Ok(d) => d,
                Err(e) => return Err(e),
            },
            None => StorageData::empty(),
        };
        Ok(Storage { path: Some(path.to_string()), data })
    }

    /// What to write where to keep the store: its file and the file's text;
    /// nothing for a store in memory.
    pub fn snapshot(&self) -> (res: Option<(String, String)>)
        ensures
            match self.path_spec() {
                Some(p) => res matches Some((f, t)) && f@ == p && t@ == serialize_spec(self.data_spec()),
                None => res is None,
            },
    {
        match &self.path {
            Some(p) => Some((p.clone(), serialize_storage(&self.data))),
            None => None,
        }
    }

    pub closed spec fn data_spec(&self) -> StorageData {
        self.data
    }

    /// The data of a well-formed store is well-formed and holds its contents.
    pub proof fn lemma_data_spec(&self)
        requires
            self.wf(),
        ensures
            self.data_spec().wf(),
            self.data_spec()@ == self@,
    {
    }
}


// ---------------------------------------------------------------------------
// Reading what was written
// ---------------------------------------------------------------------------

/// After `set_setting(key, value)`, `get_setting(key)` gives `value`, and
/// every other setting reads as before.
pub proof fn lemma_setting_read_after_write(st: StorageView, key: Seq<char>, value: Seq<char>, other: Seq<char>)
    ensures
        get_in(st.settings.insert(key, value), key) == Some(value),
        other != key ==> get_in(st.settings.insert(key, value), other) == get_in(st.settings, other),
{
}

/// The user properties that a successful `create_user(token, info)` leaves.
pub open spec fn created_user_props(token: Seq<char>, info: UserInfoView) -> Map<Seq<char>, StoredVal> {
    Map::<Seq<char>, StoredVal>::empty().insert("oAuthToken"@, StoredVal::Str(token)).insert(
        "info"@,
        StoredVal::Info(info),
    )
}

/// After a successful `create_user(token, info)`, `get_user_token` gives the
/// token and `get_user_info` the details; after `remove_user`, which leaves
/// no user properties, neither gives anything.
pub proof fn lemma_user_read_after_create(token: Seq<char>, info: UserInfoView)
    ensures
        get_in(created_user_props(token, info), "oAuthToken"@) == Some(StoredVal::Str(token)),
        get_in(created_user_props(token, info), "info"@) == Some(StoredVal::Info(info)),
        (get_in(Map::<Seq<char>, StoredVal>::empty(), "oAuthToken"@) is None),
        (get_in(Map::<Seq<char>, StoredVal>::empty(), "info"@) is None),
{
    reveal_strlit("oAuthToken");
    reveal_strlit("info");
    assert("oAuthToken"@.len() != "info"@.len());
}

/// After a successful `create_user(token, info)`, `get_userprops` lists two
/// properties: the user's details under `info`, then the token under
/// `oAuthToken`.
pub proof fn lemma_userprops_after_create(st: &Storage, token: Seq<char>, info: UserInfoView)
    requires
        st.wf(),
        st@.user_props == created_user_props(token, info),
    ensures
        st.user_prop_entries().len() == 2,
        st.user_prop_entries()[0].0@ == "info"@,
        st.user_prop_entries()[0].1@ == StoredVal::Info(info),
        st.user_prop_entries()[1].0@ == "oAuthToken"@,
        st.user_prop_entries()[1].1@ == StoredVal::Str(token),
{
    reveal_strlit("oAuthToken");
    reveal_strlit("info");
    st.lemma_user_prop_entries();
    let es = st.user_prop_entries();
    let ks = keys_of(es);
    let d = created_user_props(token, info).dom();
    assert("oAuthToken"@ != "info"@) by {
        assert("oAuthToken"@.len() != "info"@.len());
    }
    assert(d =~= set!["oAuthToken"@, "info"@]);
    assert(d.len() == 2);
    assert(es.len() == 2);
    assert(ks[0] == es[0].0@ && ks[1] == es[1].0@);
    assert(d.contains(ks[0]) && d.contains(ks[1]));
    assert(seq_lt(ks[0], ks[1]));
    assert(ks.to_set().contains("info"@));
    assert(ks.to_set().contains("oAuthToken"@));
    assert(!seq_lt("oAuthToken"@, "info"@));
    assert(ks[0] == "info"@);
    assert(ks[1] == "oAuthToken"@);
}

/// After `remove_user`, `get_userprops` lists nothing.
pub proof fn lemma_userprops_after_remove(st: &Storage)
    requires
        st.wf(),
        st@.user_props == Map::<Seq<char>, StoredVal>::empty(),
    ensures
        st.user_prop_entries().len() == 0,
{
    st.lemma_user_prop_entries();
    assert(st@.user_props.dom() =~= Set::<Seq<char>>::empty());
}

/// The entry has an empty key or value.
pub open spec fn empty_entry(e: (String, String)) -> bool {
    e.0@.len() == 0 || e.1@.len() == 0
}

/// Some entry of `es` has an empty key or value.
pub open spec fn has_empty_entry(es: Seq<(String, String)>) -> bool {
    exists|i: int| 0 <= i < es.len() && #[trigger] empty_entry(es[i])
}

proof fn lemma_first_empty_exists(es: Seq<(String, String)>)
    ensures
        first_empty_entry(es) is Some <==> has_empty_entry(es),
    decreases es.len(),
{
    if es.len() > 0 {
        let init = es.drop_last();
        lemma_first_empty_exists(init);
        if empty_entry(es.last()) {
            assert(empty_entry(es[es.len() - 1]));
        }
        if has_empty_entry(init) {
            let i = choose|i: int| 0 <= i < init.len() && #[trigger] empty_entry(init[i]);
            assert(init[i] == es[i]);
        }
        if has_empty_entry(es) {
            let i = choose|i: int| 0 <= i < es.len() && #[trigger] empty_entry(es[i]);
            if i < es.len() - 1 {
                assert(init[i] == es[i]);
            } else {
                assert(empty_entry(es.last()));
            }
        }
    }
}

proof fn lemma_settings_prefix(base: Map<Seq<char>, Seq<char>>, settings: &StrMap<String>, n: int)
    requires
        settings.wf(),
        0 <= n <= settings.len_spec(),
    ensures
        insert_all(base, settings.entry_seq().take(n)) == base.union_prefer_right(
            settings.map_view().restrict(keys_of(settings.entry_seq().take(n)).to_set()),
        ),
    decreases n,
{
    let es = settings.entry_seq();
    let m = settings.map_view();
    settings.lemma_entries_view();
    if n == 0 {
        assert(es.take(0) =~= Seq::<(String, String)>::empty());
        assert(keys_of(es.take(0)).to_set() =~= Set::<Seq<char>>::empty());
        assert(base.union_prefer_right(m.restrict(Set::<Seq<char>>::empty())) =~= base);
    } else {
        lemma_settings_prefix(base, settings, n - 1);
        assert(es.take(n).drop_last() =~= es.take(n - 1));
        assert(es.take(n).last() == es[n - 1]);
        assert(settings.key_seq()[n - 1] == es[n - 1].0@);
        assert(settings.value_seq()[n - 1] == es[n - 1].1);
        assert(keys_of(es.take(n)).to_set() =~= keys_of(es.take(n - 1)).to_set().insert(es[n - 1].0@)) by {
            assert(keys_of(es.take(n)) =~= keys_of(es.take(n - 1)).push(es[n - 1].0@));
            keys_of(es.take(n - 1)).lemma_push_to_set_commute(es[n - 1].0@);
        }
        assert(base.union_prefer_right(m.restrict(keys_of(es.take(n)).to_set())) =~= base.union_prefer_right(
            m.restrict(keys_of(es.take(n - 1)).to_set()),
        ).insert(es[n - 1].0@, es[n - 1].1@));
    }
}

/// `set_settings(m)` fails exactly when some setting of `m` has an empty
/// name or value. Storing the first `n` settings of `m`, in key order,
/// updates the stored settings with those `n` settings; storing them all
/// updates them with `m`.
pub proof fn lemma_settings_stored(base: Map<Seq<char>, Seq<char>>, settings: &StrMap<String>)
    requires
        settings.wf(),
    ensures
        first_empty_entry(settings.entry_seq()) is Some <==> exists|k: Seq<char>|
            #[trigger] settings.map_view().contains_key(k) && (k.len() == 0 || settings.map_view()[k].len() == 0),
        forall|n: int|
            0 <= n <= settings.len_spec() ==> #[trigger] insert_all(base, settings.entry_seq().take(n))
                == base.union_prefer_right(
                settings.map_view().restrict(keys_of(settings.entry_seq().take(n)).to_set()),
            ),
        insert_all(base, settings.entry_seq()) == base.union_prefer_right(settings.map_view()),
{
    let es = settings.entry_seq();
    let m = settings.map_view();
    settings.lemma_entries_view();
    lemma_first_empty_exists(es);
    if has_empty_entry(es) {
        let i = choose|i: int| 0 <= i < es.len() && #[trigger] empty_entry(es[i]);
        assert(settings.key_seq()[i] == es[i].0@);
        assert(settings.value_seq()[i] == es[i].1);
        assert(m.contains_key(es[i].0@));
    }
    if exists|k: Seq<char>| #[trigger] m.contains_key(k) && (k.len() == 0 || m[k].len() == 0) {
        let k = choose|k: Seq<char>| #[trigger] m.contains_key(k) && (k.len() == 0 || m[k].len() == 0);
        assert(settings.key_seq().to_set().contains(k));
        let i = choose|i: int| 0 <= i < settings.key_seq().len() && settings.key_seq()[i] == k;
        assert(settings.key_seq()[i] == es[i].0@);
        assert(settings.value_seq()[i] == es[i].1);
        assert(empty_entry(es[i]));
    }
    assert forall|n: int| 0 <= n <= settings.len_spec() implies #[trigger] insert_all(base, es.take(n))
        == base.union_prefer_right(m.restrict(keys_of(es.take(n)).to_set())) by {
        lemma_settings_prefix(base, settings, n);
    }
    lemma_settings_prefix(base, settings, es.len() as int);
    assert(es.take(es.len() as int) =~= es);
    assert(keys_of(es) == settings.key_seq());
    assert(m.restrict(settings.key_seq().to_set()) =~= m);
}

/// After `set_note(note)`, `get_note` with its GUID gives the note back.
pub proof fn lemma_note_read_after_write(notes: Map<Seq<char>, NoteView>, note: NoteView)
    ensures
        get_in(notes.insert(note.guid, note), note.guid) == Some(note),
{
}

} // verus!
