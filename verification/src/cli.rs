use vstd::prelude::*;
use vstd::utf8::encode_utf8;
use crate::argparser::{ArgVal, ArgValue, ParsedArgs};
use crate::errors::{fails_invalid, invalid_input, ErrorView, ReeknoteError};
use crate::models::{note_views, opt_str, resource_views, Note, NoteView, Notebook, Resource, ResourceView, Tag};
use crate::storage::{get_in, Storage, StorageView, StoredVal};
use crate::strmap::StrMap;
use crate::text::{md5_digest, ascii_lower, byte_prefix, byte_prefix_at, chars_of, dec_nat, extension_of, path_extension, prefix_index, starts_with_spec, dec_int, hex_spec, hex_val, hex_val_exec, parse_i64_spec, parse_usize_spec, push_str, string_of, string_views, trim_ws};

verus! {

/// How long cached tags and notebooks stay fresh, in seconds.
pub const METADATA_CACHE_TTL_SECONDS: i64 = 3600;

/// The setting that says when the notebooks were cached.
pub const NOTEBOOKS_CACHE_UPDATED_AT: &'static str = "notebooks_cache_updated_at";

/// The setting that says when the tags were cached.
pub const TAGS_CACHE_UPDATED_AT: &'static str = "tags_cache_updated_at";

// ---------------------------------------------------------------------------
// Choosing a note
// ---------------------------------------------------------------------------

/// The answer to "which note?": `0` or `q` (either case) cancels, a number
/// from 1 to `total` picks that note (counted from 0), anything else is
/// refused.
pub open spec fn note_selection_spec(input: Seq<char>, total: int) -> Result<Option<int>, ErrorView> {
    let t = trim_ws(input);
    if t == "0"@ || t == "q"@ || t == "Q"@ {
        Ok(None)
    } else {
        match parse_usize_spec(t) {
            Some(n) => if 1 <= n <= total {
                Ok(Some(n - 1))
            } else {
                Err(ErrorView::InvalidInput("incorrect number \""@ + t + "\""@))
            },
            None => Err(ErrorView::InvalidInput("incorrect number \""@ + t + "\""@)),
        }
    }
}

pub fn parse_note_selection(input: &str, total: usize) -> (res: Result<Option<usize>, ReeknoteError>)
    ensures
        match note_selection_spec(input@, total as int) {
            Ok(Some(i)) => res == Ok::<Option<usize>, ReeknoteError>(Some(i as usize)),
            Ok(None) => res == Ok::<Option<usize>, ReeknoteError>(None),
            Err(e) => res matches Err(x) && x@ == e,
        },
{
    let t = crate::text::trim(chars_of(input).as_slice());
    proof {
        reveal_strlit("0");
        reveal_strlit("q");
        reveal_strlit("Q");
        reveal_strlit("\"");
    }
    if crate::text::chars_eq(t.as_slice(), chars_of("0").as_slice()) || crate::text::chars_eq(
        t.as_slice(),
        chars_of("q").as_slice(),
    ) || crate::text::chars_eq(t.as_slice(), chars_of("Q").as_slice()) {
        return Ok(None);
    }
    let mut m = chars_of("incorrect number \"");
    crate::text::push_all(&mut m, t.as_slice());
    m.push('"');
    assert(m@ =~= "incorrect number \""@ + t@ + "\""@);
    match crate::text::parse_usize(t.as_slice()) {
        Some(n) => {
            if 1 <= n && n <= total {
                Ok(Some(n - 1))
            } else {
                Err(ReeknoteError::InvalidInput(string_of(m.as_slice())))
            }
        },
        None => Err(ReeknoteError::InvalidInput(string_of(m.as_slice()))),
    }
}

/// The number of `c` in `s`.
pub open spec fn count_char(s: Seq<char>, c: char) -> nat
    decreases s.len(),
{
    if s.len() == 0 {
        0
    } else {
        count_char(s.drop_last(), c) + if s.last() == c { 1nat } else { 0nat }
    }
}

/// 36 bytes with four dashes: the shape of an Evernote GUID.
pub open spec fn looks_like_guid_spec(value: Seq<char>) -> bool {
    encode_utf8(value).len() == 36 && count_char(value, '-') == 4
}

pub fn looks_like_guid(value: &str) -> (res: bool)
    ensures
        res == looks_like_guid_spec(value@),
{
    let v = chars_of(value);
    let mut n: usize = 0;
    let mut i: usize = 0;
    while i < v.len()
        invariant
            i <= v.len(),
            v@ == value@,
            n == count_char(v@.take(i as int), '-'),
            n <= i,
        decreases v.len() - i,
    {
        assert(v@.take(i + 1).drop_last() =~= v@.take(i as int));
        if v[i] == '-' {
            n += 1;
        }
        i += 1;
    }
    assert(v@.take(i as int) =~= v@);
    value.as_bytes().len() == 36 && n == 4
}

/// The GUID that a note reference names without a search: the key of a
/// cached note, else the number of an entry of the last search (counted
/// from one, `0` taken as `1`), else the reference itself when it looks like
/// a GUID; `None` when only a search can tell.
pub open spec fn note_reference_spec(st: StorageView, note_ref: Seq<char>) -> Option<Seq<char>> {
    match get_in(st.notes, note_ref) {
        Some(n) => Some(n.guid),
        None => {
            let from_search = match (crate::text::parse_usize_spec(note_ref), st.search) {
                (Some(i), Some(s)) => {
                    let k = if i == 0 { 0int } else { i - 1 };
                    if k < s.notes.len() {
                        Some(s.notes[k].guid)
                    } else {
                        None
                    }
                },
                _ => None,
            };
            match from_search {
                Some(g) => Some(g),
                None => if looks_like_guid_spec(note_ref) {
                    Some(note_ref)
                } else {
                    None
                },
            }
        },
    }
}

/// Resolves a note reference as far as the store can: see `note_reference_spec`.
pub fn note_reference(storage: &Storage, note_ref: &str) -> (res: Option<String>)
    requires
        storage.wf(),
    ensures
        opt_str(res) == note_reference_spec(storage@, note_ref@),
{
    if let Some(note) = storage.get_note(note_ref) {
        return Some(note.guid);
    }
    let number = crate::text::parse_usize(chars_of(note_ref).as_slice());
    if let Some(i) = number {
        if let Some(search) = storage.get_search() {
            let k: usize = if i == 0 { 0 } else { i - 1 };
            if k < search.notes.len() {
                proof {
                    assert(search.notes@[k as int]@ == crate::models::note_views(search.notes@)[k as int]);
                }
                return Some(search.notes[k].guid.clone());
            }
        }
    }
    if looks_like_guid(note_ref) {
        Some(note_ref.to_string())
    } else {
        None
    }
}

/// A note fetched from the service, completed from its cached copy: the
/// cached tag names where it has none and the tag cache is fresh, the cached
/// notebook name where it has none (or an empty one) and the notebook cache
/// is fresh.
pub open spec fn merge_cached(fetched: NoteView, cached: Option<NoteView>, fresh_tags: bool, fresh_notebooks: bool) -> NoteView {
    match cached {
        None => fetched,
        Some(c) => {
            let tagged = if fetched.tag_names.len() == 0 && fresh_tags {
                NoteView { tag_names: c.tag_names, ..fetched }
            } else {
                fetched
            };
            let unnamed = match tagged.notebook_name {
                Some(n) => n.len() == 0,
                None => true,
            };
            if unnamed && fresh_notebooks {
                NoteView { notebook_name: c.notebook_name, ..tagged }
            } else {
                tagged
            }
        },
    }
}

/// A note fetched from the service under `guid`, completed from its cached
/// copy as `merge_cached` says.
pub fn complete_from_cache(storage: &Storage, fetched: Note, guid: &str, now: i64) -> (res: Note)
    requires
        storage.wf(),
        cache_age_fits(storage@, TAGS_CACHE_UPDATED_AT@, now),
        cache_age_fits(storage@, NOTEBOOKS_CACHE_UPDATED_AT@, now),
    ensures
        res@ == merge_cached(
            fetched@,
            get_in(storage@.notes, guid@),
            cache_fresh_spec(storage@, TAGS_CACHE_UPDATED_AT@, now),
            cache_fresh_spec(storage@, NOTEBOOKS_CACHE_UPDATED_AT@, now),
        ),
{
    let cached = storage.get_note(guid);
    let mut note = fetched;
    let fresh_tags = cache_is_fresh(storage, TAGS_CACHE_UPDATED_AT, now);
    let fresh_notebooks = cache_is_fresh(storage, NOTEBOOKS_CACHE_UPDATED_AT, now);
    if let Some(c) = cached {
        if note.tag_names.len() == 0 && fresh_tags {
            note.tag_names = c.tag_names.clone();
        }
        let unnamed = match &note.notebook_name {
            Some(n) => n.as_str().is_empty(),
            None => true,
        };
        if unnamed && fresh_notebooks {
            note.notebook_name = c.notebook_name.clone();
        }
    }
    note
}

/// The note with GUID `guid` from the service, completed from the cache
/// as `merge_cached` says (see `complete_from_cache`), whatever the service
/// returns; the service's failure is passed on.
pub fn get_note_with_cached_metadata<C: crate::reeknote::EvernoteClient>(
    storage: &Storage,
    client: &mut C,
    guid: &str,
    now: i64,
) -> (res: Result<Note, ReeknoteError>)
    requires
        storage.wf(),
        cache_age_fits(storage@, TAGS_CACHE_UPDATED_AT@, now),
        cache_age_fits(storage@, NOTEBOOKS_CACHE_UPDATED_AT@, now),
    ensures
        res matches Ok(n) ==> exists|fetched: NoteView| #[trigger] merge_cached(
            fetched,
            get_in(storage@.notes, guid@),
            cache_fresh_spec(storage@, TAGS_CACHE_UPDATED_AT@, now),
            cache_fresh_spec(storage@, NOTEBOOKS_CACHE_UPDATED_AT@, now),
        ) == n@,
{
    let fetched = match client.get_note(guid) {
        Ok(n) => n,
        Err(e) => return Err(e),
    };
    let ghost fv = fetched@;
    let note = complete_from_cache(storage, fetched, guid, now);
    assert(merge_cached(
        fv,
        get_in(storage@.notes, guid@),
        cache_fresh_spec(storage@, TAGS_CACHE_UPDATED_AT@, now),
        cache_fresh_spec(storage@, NOTEBOOKS_CACHE_UPDATED_AT@, now),
    ) == note@);
    Ok(note)
}

/// Where resolving a note reference ends: at a note, or at search results
/// for the user to choose from.
pub enum NoteLookup {
    Found(Note),
    Choose(Vec<Note>),
}

/// `notes` with each of `found` cached under its GUID, in order.
pub open spec fn cache_found(notes: Map<Seq<char>, NoteView>, found: Seq<NoteView>) -> Map<Seq<char>, NoteView>
    decreases found.len(),
{
    if found.len() == 0 {
        notes
    } else {
        cache_found(notes, found.drop_last()).insert(found.last().guid, found.last())
    }
}

/// The store after caching the found note `found`.
pub open spec fn with_note_cached(st: StorageView, found: NoteView) -> StorageView {
    StorageView { notes: st.notes.insert(found.guid, found), ..st }
}

/// The store after caching the search results `found` and keeping them as
/// the last search, of `total` notes.
pub open spec fn with_search_choice(st: StorageView, found: Seq<NoteView>, total: usize) -> StorageView {
    StorageView {
        notes: cache_found(st.notes, found),
        search: Some(crate::models::SearchResultView { total_notes: total, notes: found }),
        ..st
    }
}

fn cache_all(storage: &mut Storage, notes: &Vec<Note>) -> (res: Result<(), ReeknoteError>)
    requires
        old(storage).wf(),
    ensures
        final(storage).wf(),
        final(storage).path_spec() == old(storage).path_spec(),
        res is Ok,
        final(storage)@ == (StorageView {
            notes: cache_found(old(storage)@.notes, note_views(notes@)),
            ..old(storage)@
        }),
{
    let mut i: usize = 0;
    while i < notes.len()
        invariant
            i <= notes.len(),
            storage.wf(),
            storage.path_spec() == old(storage).path_spec(),
            storage@ == (StorageView {
                notes: cache_found(old(storage)@.notes, note_views(notes@).take(i as int)),
                ..old(storage)@
            }),
        decreases notes.len() - i,
    {
        let _ = storage.set_note(notes[i].duplicate());
        assert(note_views(notes@).take(i + 1).drop_last() =~= note_views(notes@).take(i as int));
        assert(note_views(notes@).take(i + 1).last() == notes@[i as int]@);
        i += 1;
    }
    assert(note_views(notes@).take(i as int) =~= note_views(notes@));
    Ok(())
}

/// Where the notes that a title search found lead: the GUID of the one
/// note found, to fetch, or the notes to choose from.
pub enum SearchStep {
    Fetch(String),
    Choose(Vec<Note>),
}

/// Takes the notes that a title search found: none is the error that no
/// note was found, the store unchanged; one is cached and its GUID is
/// fetched next; several are cached, kept as the last search and handed
/// back to choose from.
pub fn resolve_from_search(storage: &mut Storage, result: crate::models::SearchResult) -> (res: Result<SearchStep, ReeknoteError>)
    requires
        old(storage).wf(),
    ensures
        final(storage).wf(),
        final(storage).path_spec() == old(storage).path_spec(),
        result.notes@.len() == 0 ==> fails_invalid(res, "notes have not been found"@) && final(storage)@ == old(
            storage,
        )@,
        result.notes@.len() == 1 ==> (res matches Ok(SearchStep::Fetch(g)) && g@ == result.notes@[0].guid@
            && final(storage)@ == with_note_cached(old(storage)@, result.notes@[0]@)),
        result.notes@.len() >= 2 ==> (res matches Ok(SearchStep::Choose(ns)) && note_views(ns@) == note_views(
            result.notes@,
        ) && final(storage)@ == with_search_choice(old(storage)@, note_views(result.notes@), result.total_notes)),
{
    if result.notes.len() == 0 {
        return Err(invalid_input("notes have not been found"));
    }
    if result.notes.len() == 1 {
        let found = result.notes[0].duplicate();
        let guid = found.guid.clone();
        let _ = storage.set_note(found);
        return Ok(SearchStep::Fetch(guid));
    }
    let _ = cache_all(storage, &result.notes);
    let notes = crate::models::copy_notes(&result.notes);
    let total = result.total_notes;
    let ghost found = note_views(result.notes@);
    let _ = storage.set_search(result);
    proof {
        assert(storage@ == with_search_choice(old(storage)@, found, total));
    }
    Ok(SearchStep::Choose(notes))
}

/// Resolves a note reference: a reference that the store resolves (see
/// `note_reference_spec`) is fetched; any other is searched for by title,
/// twenty notes at most.  No note found is an error; a single one is cached
/// and fetched; several are cached, kept as the last search and handed back
/// to choose from.  Whatever the service answers, that is all that changes.
pub fn resolve_note<C: crate::reeknote::EvernoteClient>(
    storage: &mut Storage,
    client: &mut C,
    note_ref: &str,
    now: i64,
) -> (res: Result<NoteLookup, ReeknoteError>)
    requires
        old(storage).wf(),
        cache_age_fits(old(storage)@, TAGS_CACHE_UPDATED_AT@, now),
        cache_age_fits(old(storage)@, NOTEBOOKS_CACHE_UPDATED_AT@, now),
    ensures
        final(storage).wf(),
        final(storage).path_spec() == old(storage).path_spec(),
        final(storage)@.settings == old(storage)@.settings,
        match note_reference_spec(old(storage)@, note_ref@) {
            Some(g) => final(storage)@ == old(storage)@ && !(res matches Ok(NoteLookup::Choose(_))) && (res matches Ok(
                NoteLookup::Found(n),
            ) ==> exists|fetched: NoteView| #[trigger] merge_cached(
                fetched,
                get_in(old(storage)@.notes, g),
                cache_fresh_spec(old(storage)@, TAGS_CACHE_UPDATED_AT@, now),
                cache_fresh_spec(old(storage)@, NOTEBOOKS_CACHE_UPDATED_AT@, now),
            ) == n@),
            None => {
                &&& res matches Ok(NoteLookup::Found(n)) ==> exists|found: NoteView, fetched: NoteView|
                    final(storage)@ == #[trigger] with_note_cached(old(storage)@, found) && #[trigger] merge_cached(
                    fetched,
                    Some(found),
                    cache_fresh_spec(old(storage)@, TAGS_CACHE_UPDATED_AT@, now),
                    cache_fresh_spec(old(storage)@, NOTEBOOKS_CACHE_UPDATED_AT@, now),
                ) == n@
                &&& res matches Ok(NoteLookup::Choose(ns)) ==> ns@.len() >= 2 && exists|total: usize|
                    final(storage)@ == #[trigger] with_search_choice(old(storage)@, note_views(ns@), total)
                &&& res is Err ==> final(storage)@ == old(storage)@ || exists|found: NoteView|
                    final(storage)@ == #[trigger] with_note_cached(old(storage)@, found)
            },
        },
{
    if let Some(guid) = note_reference(storage, note_ref) {
        return match get_note_with_cached_metadata(storage, client, guid.as_str(), now) {
            Ok(n) => Ok(NoteLookup::Found(n)),
            Err(e) => Err(e),
        };
    }
    let no_tags: Vec<String> = Vec::new();
    let request = match crate::reeknote::NotesService::create_search_request(
        Some(note_ref),
        no_tags.as_slice(),
        None,
        None,
        false,
        false,
        false,
        false,
    ) {
        Ok(r) => r,
        Err(e) => return Err(e),
    };
    let result = match client.find_notes(request.as_str(), 20, false) {
        Ok(r) => r,
        Err(e) => return Err(e),
    };
    let ghost rv = result;
    match resolve_from_search(storage, result) {
        Err(e) => Err(e),
        Ok(SearchStep::Choose(notes)) => {
            proof {
                assert(note_views(notes@).len() == notes@.len());
                assert(note_views(rv.notes@).len() == rv.notes@.len());
                assert(exists|t: usize| storage@ == #[trigger] with_search_choice(old(storage)@, note_views(notes@), t));
            }
            Ok(NoteLookup::Choose(notes))
        },
        Ok(SearchStep::Fetch(guid)) => {
            let ghost fv = rv.notes@[0]@;
            proof {
                assert(get_in(storage@.notes, guid@) == Some(fv));
                assert(cache_fresh_spec(storage@, TAGS_CACHE_UPDATED_AT@, now) == cache_fresh_spec(
                    old(storage)@,
                    TAGS_CACHE_UPDATED_AT@,
                    now,
                ));
                assert(cache_fresh_spec(storage@, NOTEBOOKS_CACHE_UPDATED_AT@, now) == cache_fresh_spec(
                    old(storage)@,
                    NOTEBOOKS_CACHE_UPDATED_AT@,
                    now,
                ));
            }
            let n = match get_note_with_cached_metadata(storage, client, guid.as_str(), now) {
                Ok(n) => n,
                Err(e) => return Err(e),
            };
            proof {
                let fetched = choose|f: NoteView|
                    #[trigger] merge_cached(
                        f,
                        get_in(storage@.notes, guid@),
                        cache_fresh_spec(storage@, TAGS_CACHE_UPDATED_AT@, now),
                        cache_fresh_spec(storage@, NOTEBOOKS_CACHE_UPDATED_AT@, now),
                    ) == n@;
                assert(merge_cached(
                    fetched,
                    Some(fv),
                    cache_fresh_spec(old(storage)@, TAGS_CACHE_UPDATED_AT@, now),
                    cache_fresh_spec(old(storage)@, NOTEBOOKS_CACHE_UPDATED_AT@, now),
                ) == n@);
            }
            Ok(NoteLookup::Found(n))
        },
    }
}

// ---------------------------------------------------------------------------
// Hex hashes
// ---------------------------------------------------------------------------

/// The value of an ASCII hex digit, either case.
pub fn hex_value(byte: u8) -> (res: Option<u8>)
    ensures
        match hex_val(byte) {
            Some(v) => res == Some(v as u8),
            None => res is None,
        },
{
    hex_val_exec(byte)
}

/// The bytes that pairs of hex digits stand for, the first digit of each
/// pair the high one; `None` at an odd length or a character that is not a
/// hex digit.
pub open spec fn decode_hex_spec(b: Seq<u8>) -> Option<Seq<u8>>
    decreases b.len(),
{
    if b.len() % 2 != 0 {
        None
    } else if b.len() == 0 {
        Some(Seq::empty())
    } else {
        match (decode_hex_spec(b.drop_last().drop_last()), hex_val(b[b.len() - 2]), hex_val(b[b.len() - 1])) {
            (Some(d), Some(h), Some(l)) => Some(d.push((h * 16 + l) as u8)),
            _ => None,
        }
    }
}

pub fn decode_hex_hash(hash: &str) -> (res: Option<Vec<u8>>)
    ensures
        match decode_hex_spec(encode_utf8(hash@)) {
            Some(d) => res matches Some(r) && r@ == d,
            None => res is None,
        },
{
    let b = hash.as_bytes();
    let ghost bs = encode_utf8(hash@);
    assert(b@ == bs);
    if b.len() % 2 != 0 {
        return None;
    }
    let mut out: Vec<u8> = Vec::new();
    let mut i: usize = 0;
    while i < b.len()
        invariant
            i <= b.len(),
            i % 2 == 0,
            b.len() % 2 == 0,
            b@ == bs,
            bs == encode_utf8(hash@),
            decode_hex_spec(bs.take(i as int)) == Some(out@),
        decreases b.len() - i,
    {
        assert(i + 2 <= b.len());
        assert(bs.take(i + 2).len() == i + 2);
        assert(bs.take(i + 2).drop_last().drop_last() =~= bs.take(i as int));
        assert(bs.take(i + 2)[i as int] == b[i as int]);
        assert(bs.take(i + 2)[i + 1] == b[i + 1]);
        let hi = match hex_value(b[i]) {
            Some(v) => v,
            None => {
                assert(decode_hex_spec(bs.take(i + 2)) is None);
                proof {
                    lemma_decode_hex_prefix_none(bs, i as int + 2);
                }
                return None;
            },
        };
        let lo = match hex_value(b[i + 1]) {
            Some(v) => v,
            None => {
                proof {
                    lemma_decode_hex_prefix_none(bs, i as int + 2);
                }
                return None;
            },
        };
        out.push(hi * 16 + lo);
        i += 2;
    }
    assert(bs.take(i as int) =~= bs);
    Some(out)
}

/// Where a prefix of even length does not decode, neither does the whole.
proof fn lemma_decode_hex_prefix_none(b: Seq<u8>, k: int)
    requires
        0 <= k <= b.len(),
        k % 2 == 0,
        b.len() % 2 == 0,
        decode_hex_spec(b.take(k)) is None,
    ensures
        decode_hex_spec(b) is None,
    decreases b.len() - k,
{
    if k < b.len() {
        assert(b.take(k + 2).drop_last().drop_last() =~= b.take(k));
        lemma_decode_hex_prefix_none(b, k + 2);
    } else {
        assert(b.take(k) =~= b);
    }
}

proof fn lemma_hex_digit_val(d: int)
    requires
        0 <= d < 16,
    ensures
        '\0' <= crate::text::hex_digit(d, false) <= '\u{7f}',
        hex_val(crate::text::hex_digit(d, false) as u8) == Some(d),
{
}

proof fn lemma_hex_ascii(bytes: Seq<u8>)
    ensures
        vstd::utf8::is_ascii_chars(hex_spec(bytes)),
        hex_spec(bytes).len() == 2 * bytes.len(),
    decreases bytes.len(),
{
    if bytes.len() > 0 {
        lemma_hex_ascii(bytes.drop_last());
        let b = bytes.last();
        lemma_hex_digit_val(b as int / 16);
        lemma_hex_digit_val(b as int % 16);
        let h = hex_spec(bytes);
        let p = hex_spec(bytes.drop_last());
        assert forall|i: int| 0 <= i < h.len() implies '\0' <= #[trigger] h[i] <= '\u{7f}' by {
            if i < p.len() {
                assert(h[i] == p[i]);
            }
        }
    }
}

/// The bytes of an ASCII text.
pub open spec fn ascii_of(cs: Seq<char>) -> Seq<u8> {
    cs.map_values(|c: char| c as u8)
}

proof fn lemma_decode_ascii_hex(bytes: Seq<u8>)
    ensures
        decode_hex_spec(ascii_of(hex_spec(bytes))) == Some(bytes),
    decreases bytes.len(),
{
    lemma_hex_ascii(bytes);
    let a = ascii_of(hex_spec(bytes));
    if bytes.len() == 0 {
        assert(a =~= Seq::<u8>::empty());
        assert(bytes =~= Seq::<u8>::empty());
    } else {
        let rest = bytes.drop_last();
        let b = bytes.last();
        lemma_hex_ascii(rest);
        lemma_decode_ascii_hex(rest);
        let d1 = b as int / 16;
        let d2 = b as int % 16;
        lemma_hex_digit_val(d1);
        lemma_hex_digit_val(d2);
        assert(a.drop_last().drop_last() =~= ascii_of(hex_spec(rest)));
        assert(a[a.len() - 2] == crate::text::hex_digit(d1, false) as u8);
        assert(a[a.len() - 1] == crate::text::hex_digit(d2, false) as u8);
        assert(d1 * 16 + d2 == b as int);
        assert(rest.push(b) =~= bytes);
    }
}

/// Decoding the lower-case hex form of bytes gives the bytes back.
pub proof fn lemma_decode_hex_of_encode(bytes: Seq<u8>)
    ensures
        decode_hex_spec(encode_utf8(hex_spec(bytes))) == Some(bytes),
{
    let h = hex_spec(bytes);
    lemma_hex_ascii(bytes);
    vstd::utf8::is_ascii_chars_encode_utf8(h);
    assert(encode_utf8(h) =~= ascii_of(h));
    lemma_decode_ascii_hex(bytes);
}

// ---------------------------------------------------------------------------
// Tag and notebook names
// ---------------------------------------------------------------------------

/// A note without tag names has them looked up.
pub fn should_fetch_note_tag_names(note: &Note) -> (res: bool)
    ensures
        res == (note.tag_names@.len() == 0),
{
    note.tag_names.len() == 0
}

/// A note without a notebook name, but with a notebook GUID, has the name
/// looked up.
pub fn should_fetch_note_notebook_name(note: &Note) -> (res: bool)
    ensures
        res == ((match opt_str(note.notebook_name) {
            Some(n) => n.len() == 0,
            None => true,
        }) && (opt_str(note.notebook_guid) matches Some(g) && g.len() > 0)),
{
    let no_name = match &note.notebook_name {
        Some(n) => n.as_str().is_empty(),
        None => true,
    };
    let has_guid = match &note.notebook_guid {
        Some(g) => !g.as_str().is_empty(),
        None => false,
    };
    no_name && has_guid
}

/// The name of the first notebook with the note's notebook GUID.
pub open spec fn find_notebook_name(guid: Seq<char>, notebooks: Seq<Notebook>) -> Option<Seq<char>>
    decreases notebooks.len(),
{
    if notebooks.len() == 0 {
        None
    } else if notebooks[0].guid@ == guid {
        Some(notebooks[0].name@)
    } else {
        find_notebook_name(guid, notebooks.skip(1))
    }
}

pub fn note_notebook_name(note: &Note, notebooks: &[Notebook]) -> (res: Option<String>)
    ensures
        opt_str(res) == (match opt_str(note.notebook_guid) {
            Some(g) => find_notebook_name(g, notebooks@),
            None => None,
        }),
{
    let guid = match &note.notebook_guid {
        Some(g) => g,
        None => return None,
    };
    let mut i: usize = 0;
    assert(notebooks@.skip(0) =~= notebooks@);
    while i < notebooks.len()
        invariant
            i <= notebooks.len(),
            find_notebook_name(guid@, notebooks@) == find_notebook_name(guid@, notebooks@.skip(i as int)),
            opt_str(note.notebook_guid) == Some(guid@),
        decreases notebooks.len() - i,
    {
        assert(notebooks@.skip(i as int)[0] == notebooks@[i as int]);
        assert(notebooks@.skip(i as int).skip(1) =~= notebooks@.skip(i + 1));
        if crate::text::chars_eq(chars_of(notebooks[i].guid.as_str()).as_slice(), chars_of(guid.as_str()).as_slice()) {
            let name = notebooks[i].name.clone();
            assert(find_notebook_name(guid@, notebooks@.skip(i as int)) == Some(notebooks@[i as int].name@));
            assert(name@ == notebooks@[i as int].name@);
            return Some(name);
        }
        i += 1;
    }
    None
}

/// Some note has more tag GUIDs than tag names.
pub fn notes_need_tag_name_lookup(notes: &[Note]) -> (res: bool)
    ensures
        res == exists|i: int| 0 <= i < notes@.len() && #[trigger] notes@[i].tag_guids@.len() > notes@[i].tag_names@.len(),
{
    let mut i: usize = 0;
    while i < notes.len()
        invariant
            i <= notes.len(),
            forall|j: int| 0 <= j < i ==> !(#[trigger] notes@[j].tag_guids@.len() > notes@[j].tag_names@.len()),
        decreases notes.len() - i,
    {
        if notes[i].tag_guids.len() > notes[i].tag_names.len() {
            return true;
        }
        i += 1;
    }
    false
}

/// The names of the GUIDs that `tags` knows, in order.
pub open spec fn known_names(guids: Seq<Seq<char>>, tags: Map<Seq<char>, Seq<char>>) -> Seq<Seq<char>>
    decreases guids.len(),
{
    if guids.len() == 0 {
        Seq::empty()
    } else {
        let prev = known_names(guids.drop_last(), tags);
        if tags.dom().contains(guids.last()) {
            prev.push(tags[guids.last()])
        } else {
            prev
        }
    }
}

/// A note with more tag GUIDs than names gets the names of its GUIDs that
/// are known, where there are any.
pub open spec fn with_tag_names(n: NoteView, tags: Map<Seq<char>, Seq<char>>) -> NoteView {
    if n.tag_guids.len() > n.tag_names.len() && known_names(n.tag_guids, tags).len() > 0 {
        NoteView { tag_names: known_names(n.tag_guids, tags), ..n }
    } else {
        n
    }
}

fn names_of(guids: &Vec<String>, tags: &StrMap<String>) -> (res: Vec<String>)
    requires
        tags.wf(),
    ensures
        string_views(res@) == known_names(string_views(guids@), tags.map_view()),
{
    let ghost gv = string_views(guids@);
    let mut out: Vec<String> = Vec::new();
    let mut i: usize = 0;
    while i < guids.len()
        invariant
            i <= guids.len(),
            tags.wf(),
            gv == string_views(guids@),
            string_views(out@) == known_names(gv.take(i as int), tags.map_view()),
        decreases guids.len() - i,
    {
        assert(gv.take(i + 1).drop_last() =~= gv.take(i as int));
        assert(gv.take(i + 1).last() == guids@[i as int]@);
        match tags.get(guids[i].as_str()) {
            Some(name) => {
                let ghost before = out@;
                out.push(name.clone());
                assert(string_views(out@) =~= string_views(before).push(name@));
            },
            None => {},
        }
        i += 1;
    }
    assert(gv.take(i as int) =~= gv);
    out
}

pub fn apply_tag_names_to_notes(notes: &mut Vec<Note>, tags: &StrMap<String>)
    requires
        tags.wf(),
    ensures
        final(notes)@.len() == old(notes)@.len(),
        forall|i: int| 0 <= i < old(notes)@.len() ==> (#[trigger] final(notes)@[i])@ == with_tag_names(
            old(notes)@[i]@,
            tags.map_view(),
        ),
{
    let mut i: usize = 0;
    while i < notes.len()
        invariant
            i <= notes.len(),
            tags.wf(),
            notes@.len() == old(notes)@.len(),
            forall|j: int| 0 <= j < i ==> (#[trigger] notes@[j])@ == with_tag_names(old(notes)@[j]@, tags.map_view()),
            forall|j: int| i <= j < notes@.len() ==> #[trigger] notes@[j] == old(notes)@[j],
        decreases notes.len() - i,
    {
        if notes[i].tag_guids.len() > notes[i].tag_names.len() {
            let names = names_of(&notes[i].tag_guids, tags);
            if names.len() > 0 {
                let mut n = notes[i].duplicate();
                n.tag_names = names;
                notes.set(i, n);
            }
        }
        i += 1;
    }
}

// ---------------------------------------------------------------------------
// The metadata cache
// ---------------------------------------------------------------------------

/// When the setting `key` says the cache was updated, if it holds a number.
pub open spec fn cache_stamp(st: StorageView, key: Seq<char>) -> Option<i64> {
    match get_in(st.settings, key) {
        Some(v) => parse_i64_spec(v),
        None => None,
    }
}

/// The age of the cache at `now` fits in an `i64`.
pub open spec fn cache_age_fits(st: StorageView, key: Seq<char>, now: i64) -> bool {
    cache_stamp(st, key) matches Some(t) ==> i64::MIN <= now - t <= i64::MAX
}

/// The cache under `key` was updated at most an hour before `now`.
pub open spec fn cache_fresh_spec(st: StorageView, key: Seq<char>, now: i64) -> bool {
    cache_stamp(st, key) matches Some(t) && now - t <= 3600
}

pub fn cache_is_fresh(storage: &Storage, key: &str, now: i64) -> (res: bool)
    requires
        storage.wf(),
        cache_age_fits(storage@, key@, now),
    ensures
        res == cache_fresh_spec(storage@, key@, now),
{
    match storage.get_setting(key) {
        Some(v) => match crate::text::parse_i64(chars_of(v.as_str()).as_slice()) {
            Some(t) => now - t <= METADATA_CACHE_TTL_SECONDS,
            None => false,
        },
        None => false,
    }
}

/// Records that the cache under `key` was updated at `now`.
pub fn mark_cache_updated(storage: &mut Storage, key: &str, now: i64) -> (res: Result<(), ReeknoteError>)
    requires
        old(storage).wf(),
    ensures
        final(storage).wf(),
        final(storage).path_spec() == old(storage).path_spec(),
        res is Ok,
        final(storage)@ == (StorageView {
            settings: old(storage)@.settings.insert(key@, dec_int(now as int)),
            ..old(storage)@
        }),
{
    storage.set_setting(key.to_string(), string_of(crate::text::i64_dec(now).as_slice()))
}

/// `tags` with each GUID of `guids` mapped to the name at the same place
/// of `names`, the first pair first.
pub open spec fn with_tag_pairs(tags: Map<Seq<char>, Seq<char>>, guids: Seq<Seq<char>>, names: Seq<Seq<char>>) -> Map<
    Seq<char>,
    Seq<char>,
>
    decreases guids.len(),
{
    if guids.len() == 0 {
        tags
    } else {
        with_tag_pairs(tags, guids.drop_last(), names.take(guids.len() - 1)).insert(
            guids.last(),
            names[guids.len() - 1],
        )
    }
}

/// The tag names fetched for a note are kept in the tag cache when there is
/// one for each of its tags.
pub open spec fn keeps_tag_names(guids: Seq<Seq<char>>, names: Seq<Seq<char>>) -> bool {
    guids.len() > 0 && guids.len() == names.len()
}

/// Keeps the tag names fetched for `note` in the tag cache (when there is
/// one name for each of its tags) and records the cache as updated at
/// `now`; an empty tag name is refused and nothing changes.
pub fn remember_note_tag_names(storage: &mut Storage, note: &Note, now: i64) -> (res: Result<(), ReeknoteError>)
    requires
        old(storage).wf(),
    ensures
        final(storage).wf(),
        final(storage).path_spec() == old(storage).path_spec(),
        ({
            let guids = string_views(note.tag_guids@);
            let names = string_views(note.tag_names@);
            let tags = if keeps_tag_names(guids, names) {
                with_tag_pairs(old(storage)@.tags, guids, names)
            } else {
                old(storage)@.tags
            };
            if keeps_tag_names(guids, names) && crate::storage::has_empty_value(tags) {
                fails_invalid(res, "wrong tag item"@) && final(storage)@ == old(storage)@
            } else {
                res is Ok && final(storage)@ == (StorageView {
                    tags,
                    settings: old(storage)@.settings.insert(TAGS_CACHE_UPDATED_AT@, dec_int(now as int)),
                    ..old(storage)@
                })
            }
        }),
{
    let ghost guids = string_views(note.tag_guids@);
    let ghost names = string_views(note.tag_names@);
    let n = note.tag_guids.len();
    if n > 0 && n == note.tag_names.len() {
        let mut tags = storage.get_tags();
        let mut i: usize = 0;
        while i < n
            invariant
                i <= n,
                n == note.tag_guids@.len(),
                n == note.tag_names@.len(),
                guids == string_views(note.tag_guids@),
                names == string_views(note.tag_names@),
                tags.wf(),
                tags.map_view() == with_tag_pairs(storage@.tags, guids.take(i as int), names.take(i as int)),
            decreases n - i,
        {
            let ghost before = tags.map_view();
            tags.insert(note.tag_guids[i].clone(), note.tag_names[i].clone());
            proof {
                let g = guids.take(i + 1);
                assert(g.drop_last() =~= guids.take(i as int));
                assert(names.take(i + 1).take(i as int) =~= names.take(i as int));
                assert(g.last() == note.tag_guids@[i as int]@);
                assert(names.take(i + 1)[i as int] == note.tag_names@[i as int]@);
                assert(tags.map_view() =~= before.insert(note.tag_guids@[i as int]@, note.tag_names@[i as int]@));
            }
            i += 1;
        }
        assert(guids.take(n as int) =~= guids);
        assert(names.take(n as int) =~= names);
        match storage.set_tags(tags) {
            Ok(()) => {},
            Err(e) => return Err(e),
        }
    }
    mark_cache_updated(storage, TAGS_CACHE_UPDATED_AT, now)
}

/// Some note has more tag GUIDs than tag names.
pub open spec fn lacking_names(notes: Seq<NoteView>) -> bool {
    exists|i: int| 0 <= i < notes.len() && #[trigger] notes[i].tag_guids.len() > notes[i].tag_names.len()
}

/// The notes, each given the names that `tags` knows for its GUIDs.
pub open spec fn named_notes(notes: Seq<NoteView>, tags: Map<Seq<char>, Seq<char>>) -> Seq<NoteView> {
    notes.map_values(|n: NoteView| with_tag_names(n, tags))
}

proof fn lemma_lacking_names(notes: Seq<Note>)
    ensures
        lacking_names(note_views(notes)) == exists|i: int|
            0 <= i < notes.len() && #[trigger] notes[i].tag_guids@.len() > notes[i].tag_names@.len(),
{
    let vs = note_views(notes);
    if lacking_names(vs) {
        let i = choose|i: int| 0 <= i < vs.len() && #[trigger] vs[i].tag_guids.len() > vs[i].tag_names.len();
        assert(vs[i] == notes[i]@);
        assert(notes[i].tag_guids@.len() > notes[i].tag_names@.len());
    }
    if exists|i: int| 0 <= i < notes.len() && #[trigger] notes[i].tag_guids@.len() > notes[i].tag_names@.len() {
        let i = choose|i: int| 0 <= i < notes.len() && #[trigger] notes[i].tag_guids@.len() > notes[i].tag_names@.len();
        assert(vs[i] == notes[i]@);
        assert(vs[i].tag_guids.len() > vs[i].tag_names.len());
    }
}

fn name_notes(notes: &mut Vec<Note>, tags: &StrMap<String>)
    requires
        tags.wf(),
    ensures
        note_views(final(notes)@) == named_notes(note_views(old(notes)@), tags.map_view()),
{
    apply_tag_names_to_notes(notes, tags);
    assert(note_views(notes@) =~= named_notes(note_views(old(notes)@), tags.map_view()));
}

fn notes_lack_names(notes: &Vec<Note>) -> (res: bool)
    ensures
        res == lacking_names(note_views(notes@)),
{
    proof {
        lemma_lacking_names(notes@);
    }
    notes_need_tag_name_lookup(notes.as_slice())
}

/// Names the tags of the listed notes: from the tag cache when it is fresh,
/// else (or where it leaves a note without names) from the service, whose
/// tags then replace the cache.  Whatever the service answers, the notes are
/// named from the cache as it ends.
pub fn hydrate_note_list_tag_names<C: crate::reeknote::EvernoteClient>(
    storage: &mut Storage,
    client: &mut C,
    notes: &mut Vec<Note>,
    now: i64,
) -> (res: Result<(), ReeknoteError>)
    requires
        old(storage).wf(),
        cache_age_fits(old(storage)@, TAGS_CACHE_UPDATED_AT@, now),
    ensures
        final(storage).wf(),
        final(storage).path_spec() == old(storage).path_spec(),
        ({
            let before = note_views(old(notes)@);
            let fresh = cache_fresh_spec(old(storage)@, TAGS_CACHE_UPDATED_AT@, now);
            let cached = if fresh {
                named_notes(before, old(storage)@.tags)
            } else {
                before
            };
            if !lacking_names(before) {
                res is Ok && final(notes)@ == old(notes)@ && final(storage)@ == old(storage)@
            } else if fresh && !lacking_names(cached) {
                res is Ok && note_views(final(notes)@) == cached && final(storage)@ == old(storage)@
            } else {
                &&& res is Err ==> final(storage)@ == old(storage)@ && note_views(final(notes)@) == cached
                &&& res is Ok ==> final(storage)@ == (StorageView {
                    tags: final(storage)@.tags,
                    settings: old(storage)@.settings.insert(TAGS_CACHE_UPDATED_AT@, dec_int(now as int)),
                    ..old(storage)@
                }) && !crate::storage::has_empty_value(final(storage)@.tags) && note_views(final(notes)@)
                    == named_notes(cached, final(storage)@.tags)
            }
        }),
{
    if !notes_lack_names(notes) {
        return Ok(());
    }
    if cache_is_fresh(storage, TAGS_CACHE_UPDATED_AT, now) {
        let tags = storage.get_tags();
        name_notes(notes, &tags);
        if !notes_lack_names(notes) {
            return Ok(());
        }
    }
    let fetched = match client.find_tags() {
        Ok(t) => t,
        Err(e) => return Err(e),
    };
    match cache_tags(storage, fetched.as_slice(), now) {
        Ok(()) => {},
        Err(e) => return Err(e),
    }
    let tags = storage.get_tags();
    name_notes(notes, &tags);
    Ok(())
}

/// The tag names of the note as stored with it, when the tag cache is fresh
/// and they are not empty.
pub open spec fn cached_note_tag_names_spec(st: StorageView, guid: Seq<char>, now: i64) -> Option<Seq<Seq<char>>> {
    if cache_fresh_spec(st, TAGS_CACHE_UPDATED_AT@, now) {
        match get_in(st.notes, guid) {
            Some(n) => if n.tag_names.len() > 0 { Some(n.tag_names) } else { None },
            None => None,
        }
    } else {
        None
    }
}

pub fn cached_note_tag_names(storage: &Storage, note: &Note, now: i64) -> (res: Option<Vec<String>>)
    requires
        storage.wf(),
        cache_age_fits(storage@, TAGS_CACHE_UPDATED_AT@, now),
    ensures
        match cached_note_tag_names_spec(storage@, note.guid@, now) {
            Some(v) => res matches Some(r) && string_views(r@) == v,
            None => res is None,
        },
{
    if cache_is_fresh(storage, TAGS_CACHE_UPDATED_AT, now) {
        if let Some(n) = storage.get_note(note.guid.as_str()) {
            if n.tag_names.len() > 0 {
                return Some(n.tag_names);
            }
        }
    }
    None
}

/// The names of all the note's tags from the tag cache, when it is fresh
/// and knows every one of them.
pub open spec fn cached_tag_names_spec(st: StorageView, guids: Seq<Seq<char>>, now: i64) -> Option<Seq<Seq<char>>> {
    if guids.len() == 0 || !cache_fresh_spec(st, TAGS_CACHE_UPDATED_AT@, now) {
        None
    } else if forall|i: int| 0 <= i < guids.len() ==> st.tags.dom().contains(#[trigger] guids[i]) {
        Some(known_names(guids, st.tags))
    } else {
        None
    }
}

pub fn cached_tag_names(storage: &Storage, note: &Note, now: i64) -> (res: Option<Vec<String>>)
    requires
        storage.wf(),
        cache_age_fits(storage@, TAGS_CACHE_UPDATED_AT@, now),
    ensures
        match cached_tag_names_spec(storage@, string_views(note.tag_guids@), now) {
            Some(v) => res matches Some(r) && string_views(r@) == v,
            None => res is None,
        },
{
    if note.tag_guids.len() == 0 || !cache_is_fresh(storage, TAGS_CACHE_UPDATED_AT, now) {
        return None;
    }
    let tags = storage.get_tags();
    let ghost gv = string_views(note.tag_guids@);
    let mut out: Vec<String> = Vec::new();
    let mut i: usize = 0;
    while i < note.tag_guids.len()
        invariant
            i <= note.tag_guids.len(),
            tags.wf(),
            tags.map_view() == storage@.tags,
            gv == string_views(note.tag_guids@),
            forall|j: int| 0 <= j < i ==> storage@.tags.dom().contains(#[trigger] gv[j]),
            string_views(out@) == known_names(gv.take(i as int), storage@.tags),
        decreases note.tag_guids.len() - i,
    {
        assert(gv.take(i + 1).drop_last() =~= gv.take(i as int));
        assert(gv[i as int] == note.tag_guids@[i as int]@);
        match tags.get(note.tag_guids[i].as_str()) {
            Some(name) => {
                let ghost before = out@;
                out.push(name.clone());
                assert(string_views(out@) =~= string_views(before).push(name@));
            },
            None => {
                assert(!storage@.tags.dom().contains(gv[i as int]));
                return None;
            },
        }
        i += 1;
    }
    assert(gv.take(i as int) =~= gv);
    Some(out)
}

/// The name of the note's notebook from the notebook cache, when it is fresh.
pub open spec fn cached_notebook_name_spec(st: StorageView, guid: Option<Seq<char>>, now: i64) -> Option<Seq<char>> {
    if cache_fresh_spec(st, NOTEBOOKS_CACHE_UPDATED_AT@, now) {
        match guid {
            Some(g) => get_in(st.notebooks, g),
            None => None,
        }
    } else {
        None
    }
}

pub fn cached_notebook_name(storage: &Storage, note: &Note, now: i64) -> (res: Option<String>)
    requires
        storage.wf(),
        cache_age_fits(storage@, NOTEBOOKS_CACHE_UPDATED_AT@, now),
    ensures
        opt_str(res) == cached_notebook_name_spec(storage@, opt_str(note.notebook_guid), now),
{
    if cache_is_fresh(storage, NOTEBOOKS_CACHE_UPDATED_AT, now) {
        if let Some(g) = &note.notebook_guid {
            let notebooks = storage.get_notebooks();
            return match notebooks.get(g.as_str()) {
                Some(n) => Some(n.clone()),
                None => None,
            };
        }
    }
    None
}

/// The map from each GUID to its name; a later entry wins.
pub open spec fn name_map(entries: Seq<(Seq<char>, Seq<char>)>) -> Map<Seq<char>, Seq<char>>
    decreases entries.len(),
{
    if entries.len() == 0 {
        Map::empty()
    } else {
        name_map(entries.drop_last()).insert(entries.last().0, entries.last().1)
    }
}

pub open spec fn tag_entries(tags: Seq<Tag>) -> Seq<(Seq<char>, Seq<char>)> {
    tags.map_values(|t: Tag| (t.guid@, t.name@))
}

pub open spec fn notebook_entries(notebooks: Seq<Notebook>) -> Seq<(Seq<char>, Seq<char>)> {
    notebooks.map_values(|n: Notebook| (n.guid@, n.name@))
}

fn name_map_of(entries: Vec<(String, String)>) -> (res: StrMap<String>)
    ensures
        res.wf(),
        res.map_view() == name_map(entries@.map_values(|e: (String, String)| (e.0@, e.1@))),
{
    let ghost ev = entries@.map_values(|e: (String, String)| (e.0@, e.1@));
    let mut m: StrMap<String> = StrMap::new();
    assert(m.map_view() =~= Map::<Seq<char>, Seq<char>>::empty());
    let mut i: usize = 0;
    while i < entries.len()
        invariant
            i <= entries.len(),
            m.wf(),
            ev == entries@.map_values(|e: (String, String)| (e.0@, e.1@)),
            m.map_view() == name_map(ev.take(i as int)),
        decreases entries.len() - i,
    {
        assert(ev.take(i + 1).drop_last() =~= ev.take(i as int));
        assert(ev[i as int] == (entries@[i as int].0@, entries@[i as int].1@));
        let ghost before = m.map_view();
        m.insert(entries[i].0.clone(), entries[i].1.clone());
        assert(m.map_view() =~= before.insert(ev[i as int].0, ev[i as int].1));
        i += 1;
    }
    assert(ev.take(i as int) =~= ev);
    m
}

/// Caches the tags, and when they were cached; a tag without a name is
/// refused and nothing stored.
pub fn cache_tags(storage: &mut Storage, tags: &[Tag], now: i64) -> (res: Result<(), ReeknoteError>)
    requires
        old(storage).wf(),
    ensures
        final(storage).wf(),
        final(storage).path_spec() == old(storage).path_spec(),
        crate::storage::has_empty_value(name_map(tag_entries(tags@))) ==> fails_invalid(res, "wrong tag item"@)
            && final(storage)@ == old(storage)@,
        !crate::storage::has_empty_value(name_map(tag_entries(tags@))) ==> res is Ok && final(storage)@ == (
        StorageView {
            tags: name_map(tag_entries(tags@)),
            settings: old(storage)@.settings.insert(TAGS_CACHE_UPDATED_AT@, dec_int(now as int)),
            ..old(storage)@
        }),
{
    let mut entries: Vec<(String, String)> = Vec::new();
    let mut i: usize = 0;
    while i < tags.len()
        invariant
            i <= tags.len(),
            entries@.len() == i,
            entries@.map_values(|e: (String, String)| (e.0@, e.1@)) == tag_entries(tags@).take(i as int),
        decreases tags.len() - i,
    {
        let ghost before = entries@;
        entries.push((tags[i].guid.clone(), tags[i].name.clone()));
        assert(entries@.map_values(|e: (String, String)| (e.0@, e.1@)) =~= tag_entries(tags@).take(i + 1)) by {
            assert forall|q: int| 0 <= q < i implies entries@[q] == before[q] by {}
        }
        i += 1;
    }
    assert(tag_entries(tags@).take(i as int) =~= tag_entries(tags@));
    let m = name_map_of(entries);
    match storage.set_tags(m) {
        Ok(()) => {},
        Err(e) => return Err(e),
    }
    mark_cache_updated(storage, TAGS_CACHE_UPDATED_AT, now)
}

/// Caches the notebooks, and when they were cached; a notebook without a
/// name is refused and nothing stored.
pub fn cache_notebooks(storage: &mut Storage, notebooks: &[Notebook], now: i64) -> (res: Result<(), ReeknoteError>)
    requires
        old(storage).wf(),
    ensures
        final(storage).wf(),
        final(storage).path_spec() == old(storage).path_spec(),
        crate::storage::has_empty_value(name_map(notebook_entries(notebooks@))) ==> fails_invalid(
            res,
            "wrong notebook item"@,
        ) && final(storage)@ == old(storage)@,
        !crate::storage::has_empty_value(name_map(notebook_entries(notebooks@))) ==> res is Ok && final(storage)@
            == (StorageView {
            notebooks: name_map(notebook_entries(notebooks@)),
            settings: old(storage)@.settings.insert(NOTEBOOKS_CACHE_UPDATED_AT@, dec_int(now as int)),
            ..old(storage)@
        }),
{
    let mut entries: Vec<(String, String)> = Vec::new();
    let mut i: usize = 0;
    while i < notebooks.len()
        invariant
            i <= notebooks.len(),
            entries@.len() == i,
            entries@.map_values(|e: (String, String)| (e.0@, e.1@)) == notebook_entries(notebooks@).take(i as int),
        decreases notebooks.len() - i,
    {
        let ghost before = entries@;
        entries.push((notebooks[i].guid.clone(), notebooks[i].name.clone()));
        assert(entries@.map_values(|e: (String, String)| (e.0@, e.1@)) =~= notebook_entries(notebooks@).take(i + 1)) by {
            assert forall|q: int| 0 <= q < i implies entries@[q] == before[q] by {}
        }
        i += 1;
    }
    assert(notebook_entries(notebooks@).take(i as int) =~= notebook_entries(notebooks@));
    let m = name_map_of(entries);
    match storage.set_notebooks(m) {
        Ok(()) => {},
        Err(e) => return Err(e),
    }
    mark_cache_updated(storage, NOTEBOOKS_CACHE_UPDATED_AT, now)
}

/// Names the note's notebook: from the notebook cache when it is fresh and
/// knows the note's notebook, else from the service's notebooks, which then
/// replace the cache.  Whatever the service answers, nothing but the
/// notebook name of the note changes, and the cache only as it is replaced.
pub fn hydrate_note_notebook_name<C: crate::reeknote::EvernoteClient>(
    storage: &mut Storage,
    client: &mut C,
    note: &mut Note,
    now: i64,
) -> (res: Result<(), ReeknoteError>)
    requires
        old(storage).wf(),
        cache_age_fits(old(storage)@, NOTEBOOKS_CACHE_UPDATED_AT@, now),
    ensures
        final(storage).wf(),
        final(storage).path_spec() == old(storage).path_spec(),
        final(note)@ == (NoteView { notebook_name: final(note)@.notebook_name, ..old(note)@ }),
        match cached_notebook_name_spec(old(storage)@, opt_str(old(note).notebook_guid), now) {
            Some(name) => res is Ok && final(note)@.notebook_name == Some(name) && final(storage)@ == old(storage)@,
            None => {
                &&& res is Err ==> final(storage)@ == old(storage)@ && final(note)@ == old(note)@
                &&& res is Ok ==> final(storage)@ == (StorageView {
                    notebooks: final(storage)@.notebooks,
                    settings: old(storage)@.settings.insert(NOTEBOOKS_CACHE_UPDATED_AT@, dec_int(now as int)),
                    ..old(storage)@
                }) && !crate::storage::has_empty_value(final(storage)@.notebooks) && (final(note)@.notebook_name
                    == old(note)@.notebook_name || final(note)@.notebook_name is Some)
            },
        },
{
    if let Some(name) = cached_notebook_name(storage, note, now) {
        note.notebook_name = Some(name);
        return Ok(());
    }
    let notebooks = match client.find_notebooks() {
        Ok(n) => n,
        Err(e) => return Err(e),
    };
    match cache_notebooks(storage, notebooks.as_slice(), now) {
        Ok(()) => {},
        Err(e) => return Err(e),
    }
    if let Some(name) = note_notebook_name(note, notebooks.as_slice()) {
        note.notebook_name = Some(name);
    }
    Ok(())
}

// ---------------------------------------------------------------------------
// Parsed arguments
// ---------------------------------------------------------------------------

/// The string value of `key`.
pub fn arg_string(values: &ParsedArgs, key: &str) -> (res: Option<String>)
    requires
        values.wf(),
    ensures
        opt_str(res) == (match values.lookup(key@) {
            Some(ArgValue::String(v)) => Some(v@),
            _ => None,
        }),
{
    match values.get(key) {
        Some(ArgValue::String(v)) => Some(v.clone()),
        _ => None,
    }
}

/// The non-empty string value of `key`, or the error that it is missing.
pub fn required_string(values: &ParsedArgs, key: &str) -> (res: Result<String, ReeknoteError>)
    requires
        values.wf(),
    ensures
        match values.lookup(key@) {
            Some(ArgValue::String(v)) if v@.len() > 0 => res matches Ok(r) && r@ == v@,
            _ => fails_invalid(res, "missing required argument: "@ + key@),
        },
{
    match arg_string(values, key) {
        Some(v) => {
            if !v.as_str().is_empty() {
                return Ok(v);
            }
        },
        None => {},
    }
    let mut m = chars_of("missing required argument: ");
    push_str(&mut m, key);
    Err(ReeknoteError::InvalidInput(string_of(m.as_slice())))
}

/// The values of `key`: a list, or a single string as a list of one;
/// nothing otherwise.
pub fn arg_list(values: &ParsedArgs, key: &str) -> (res: Vec<String>)
    requires
        values.wf(),
    ensures
        string_views(res@) == (match values.lookup(key@) {
            Some(ArgValue::List(v)) => string_views(v@),
            Some(ArgValue::String(s)) => seq![s@],
            _ => Seq::empty(),
        }),
{
    match values.get(key) {
        Some(ArgValue::List(v)) => crate::models::copy_strings(v),
        Some(ArgValue::String(s)) => {
            let r = vec![s.clone()];
            assert(string_views(r@) =~= seq![s@]);
            r
        },
        _ => {
            let r: Vec<String> = Vec::new();
            assert(string_views(r@) =~= Seq::<Seq<char>>::empty());
            r
        },
    }
}

/// The flag `key` is set.
pub fn arg_bool(values: &ParsedArgs, key: &str) -> (res: bool)
    requires
        values.wf(),
    ensures
        res == (values.lookup(key@) == Some(ArgValue::Bool(true))),
{
    match values.get(key) {
        Some(ArgValue::Bool(b)) => *b,
        _ => false,
    }
}

/// The number value of `key`.
pub fn arg_int(values: &ParsedArgs, key: &str) -> (res: Option<i64>)
    requires
        values.wf(),
    ensures
        res == (match values.lookup(key@) {
            Some(ArgValue::Int(v)) => Some(v),
            _ => None,
        }),
{
    match values.get(key) {
        Some(ArgValue::Int(v)) => Some(*v),
        _ => None,
    }
}

/// The number of notes that `find` asks for: `--count`, at least one,
/// twenty when not given.
pub open spec fn find_count_spec(values: ParsedArgs) -> usize {
    let n: i64 = match values.lookup("count"@) {
        Some(ArgValue::Int(v)) => v,
        _ => 20,
    };
    if n < 1 {
        1
    } else {
        n as usize
    }
}

pub fn find_count(values: &ParsedArgs) -> (res: usize)
    requires
        values.wf(),
    ensures
        res == find_count_spec(*values),
{
    proof {
        reveal_strlit("count");
    }
    let n = match arg_int(values, "count") {
        Some(v) => v,
        None => 20,
    };
    if n < 1 {
        1
    } else {
        #[verifier::truncate]
        (n as usize)
    }
}

/// What the listing of `find` shows: URLs, tags, notebooks and GUIDs as
/// their flags ask.
pub fn find_list_options(values: &ParsedArgs) -> (res: crate::out::ListOptions)
    requires
        values.wf(),
    ensures
        !res.show_selector,
        res.show_url == (values.lookup("with_url"@) == Some(ArgValue::Bool(true))),
        res.show_tags == (values.lookup("with_tags"@) == Some(ArgValue::Bool(true))),
        res.show_notebook == (values.lookup("with_notebook"@) == Some(ArgValue::Bool(true))),
        res.show_guid == (values.lookup("guid"@) == Some(ArgValue::Bool(true))),
{
    crate::out::ListOptions {
        show_selector: false,
        show_url: arg_bool(values, "with_url"),
        show_tags: arg_bool(values, "with_tags"),
        show_notebook: arg_bool(values, "with_notebook"),
        show_guid: arg_bool(values, "guid"),
    }
}

/// `edit` was given nothing to change (no content, title, tag, date,
/// notebook, resource, reminder or URL): the note is opened in the editor.
pub open spec fn edit_opens_editor_spec(values: ParsedArgs, notebook_given: bool) -> bool {
    &&& !(values.lookup("content"@) matches Some(ArgValue::String(_)))
    &&& !(values.lookup("title"@) matches Some(ArgValue::String(_)))
    &&& !(values.lookup("tag"@) matches Some(ArgValue::List(l)) && l@.len() > 0)
    &&& !(values.lookup("tag"@) matches Some(ArgValue::String(_)))
    &&& !(values.lookup("created"@) matches Some(ArgValue::String(_)))
    &&& !notebook_given
    &&& !(values.lookup("resource"@) matches Some(ArgValue::List(l)) && l@.len() > 0)
    &&& !(values.lookup("resource"@) matches Some(ArgValue::String(_)))
    &&& !(values.lookup("reminder"@) matches Some(ArgValue::String(_)))
    &&& !(values.lookup("url"@) matches Some(ArgValue::String(_)))
}

pub fn edit_opens_editor(values: &ParsedArgs, notebook_given: bool) -> (res: bool)
    requires
        values.wf(),
    ensures
        res == edit_opens_editor_spec(*values, notebook_given),
{
    let content = arg_string(values, "content");
    let title = arg_string(values, "title");
    let tags = arg_list(values, "tag");
    let created = arg_string(values, "created");
    let resources = arg_list(values, "resource");
    let reminder = arg_string(values, "reminder");
    let url = arg_string(values, "url");
    assert(string_views(tags@).len() == tags@.len());
    assert(string_views(resources@).len() == resources@.len());
    content.is_none() && title.is_none() && tags.len() == 0 && created.is_none() && !notebook_given
        && resources.len() == 0 && reminder.is_none() && url.is_none()
}

// ---------------------------------------------------------------------------
// Logging in
// ---------------------------------------------------------------------------

pub open spec fn login_required_message() -> Seq<char> {
    "not logged in; run `reeknote login` or set EVERNOTE_DEV_TOKEN"@
}

/// The error of a command that needs a logged-in user.
pub fn login_required() -> (e: ReeknoteError)
    ensures
        e@ == ErrorView::InvalidInput(login_required_message()),
{
    ReeknoteError::InvalidInput("not logged in; run `reeknote login` or set EVERNOTE_DEV_TOKEN".to_string())
}

/// The token to call Evernote with: a non-empty developer token (from
/// `EVERNOTE_DEV_TOKEN`), else the logged-in user's token.
pub fn auth_token(storage: &Storage, dev_token: Option<&str>) -> (res: Result<String, ReeknoteError>)
    requires
        storage.wf(),
    ensures
        (dev_token matches Some(t) && t@.len() > 0) ==> (res matches Ok(r) && r@ == dev_token->0@),
        !(dev_token matches Some(t) && t@.len() > 0) ==> match get_in(storage@.user_props, "oAuthToken"@) {
            Some(StoredVal::Str(t)) => res matches Ok(r) && r@ == t,
            _ => res matches Err(x) && x@ == ErrorView::InvalidInput(login_required_message()),
        },
{
    if let Some(t) = dev_token {
        if !t.is_empty() {
            return Ok(t.to_string());
        }
    }
    match storage.get_user_token() {
        Some(t) => Ok(t),
        None => Err(login_required()),
    }
}

// ---------------------------------------------------------------------------
// Images and audio attachments
// ---------------------------------------------------------------------------

/// A control character (Unicode category Cc), as `char::is_control` tests.
pub open spec fn is_cc(c: char) -> bool {
    (c as u32) <= 0x1f || (0x7f <= (c as u32) && (c as u32) <= 0x9f)
}

fn is_control_char(c: char) -> (b: bool)
    ensures
        b == is_cc(c),
{
    let v = c as u32;
    v <= 0x1f || (0x7f <= v && v <= 0x9f)
}

/// An attachment whose type is `audio/...`, in either case.
pub open spec fn is_audio_spec(r: ResourceView) -> bool {
    r.mime matches Some(m) && starts_with_spec(ascii_lower(m), "audio/"@)
}

/// The file extensions of images, in lower case.
pub open spec fn is_image_extension(e: Seq<char>) -> bool {
    e == "gif"@ || e == "jpg"@ || e == "jpeg"@ || e == "png"@ || e == "webp"@
}

/// An attachment whose type is `image/...`, or whose file name has an image
/// extension, in either case.
pub open spec fn is_image_spec(r: ResourceView) -> bool {
    (r.mime matches Some(m) && starts_with_spec(ascii_lower(m), "image/"@)) || (path_extension(r.filename) matches Some(
        e,
    ) && is_image_extension(ascii_lower(e)))
}

fn lower_starts_with(s: &str, prefix: &str) -> (b: bool)
    ensures
        b == starts_with_spec(ascii_lower(s@), prefix@),
{
    let l = crate::text::to_ascii_lower(chars_of(s).as_slice());
    crate::text::starts_with(l.as_slice(), chars_of(prefix).as_slice())
}

pub fn is_audio_resource(resource: &Resource) -> (res: bool)
    ensures
        res == is_audio_spec(resource@),
{
    match &resource.mime {
        Some(m) => lower_starts_with(m.as_str(), "audio/"),
        None => false,
    }
}

pub fn is_image_resource(resource: &Resource) -> (res: bool)
    ensures
        res == is_image_spec(resource@),
{
    let by_type = match &resource.mime {
        Some(m) => lower_starts_with(m.as_str(), "image/"),
        None => false,
    };
    if by_type {
        return true;
    }
    match extension_of(resource.filename.as_str()) {
        Some(e) => {
            let l = crate::text::to_ascii_lower(chars_of(e.as_str()).as_slice());
            let eq = |w: &str| -> (r: bool)
                ensures
                    r == (l@ == w@),
                { crate::text::chars_eq(l.as_slice(), chars_of(w).as_slice()) };
            eq("gif") || eq("jpg") || eq("jpeg") || eq("png") || eq("webp")
        },
        None => false,
    }
}

/// The audio attachments, in order.
pub open spec fn audio_only(rs: Seq<ResourceView>) -> Seq<ResourceView>
    decreases rs.len(),
{
    if rs.len() == 0 {
        Seq::empty()
    } else if is_audio_spec(rs.last()) {
        audio_only(rs.drop_last()).push(rs.last())
    } else {
        audio_only(rs.drop_last())
    }
}

/// The note's audio attachments.
pub fn audio_resources(note: &Note) -> (res: Vec<Resource>)
    ensures
        resource_views(res@) == audio_only(resource_views(note.resources@)),
{
    let ghost rv = resource_views(note.resources@);
    let mut out: Vec<Resource> = Vec::new();
    let mut i: usize = 0;
    while i < note.resources.len()
        invariant
            i <= note.resources.len(),
            rv == resource_views(note.resources@),
            resource_views(out@) == audio_only(rv.take(i as int)),
        decreases note.resources.len() - i,
    {
        assert(rv.take(i + 1).drop_last() =~= rv.take(i as int));
        assert(rv[i as int] == note.resources@[i as int]@);
        if is_audio_resource(&note.resources[i]) {
            let ghost before = out@;
            out.push(note.resources[i].duplicate());
            assert(resource_views(out@) =~= resource_views(before).push(rv[i as int]));
        }
        i += 1;
    }
    assert(rv.take(i as int) =~= rv);
    out
}

/// At most the first eight bytes of a hash, ending between characters.
pub open spec fn hash_prefix_len(hash: Seq<char>) -> int {
    let n = encode_utf8(hash).len() as int;
    if n < 8 { n } else { 8 }
}

/// The first eight bytes of `hash` end between two characters (else
/// cutting them out panics).
pub open spec fn hash_prefix_ok(hash: Seq<char>) -> bool {
    exists|j: int| byte_prefix_at(hash, hash_prefix_len(hash), j)
}

/// The first eight bytes of a hash, or all of a shorter one.
pub open spec fn hash8(hash: Seq<char>) -> Seq<char> {
    hash.take(prefix_index(hash, hash_prefix_len(hash)))
}

fn hash8_exec(hash: &str) -> (res: String)
    requires
        hash_prefix_ok(hash@),
    ensures
        res@ == hash8(hash@),
{
    let n = hash.as_bytes().len();
    let m = if n < 8 { n } else { 8 };
    byte_prefix(hash, m)
}

/// A name of an attachment can be made: where it comes from its hash, the
/// hash can be cut after eight bytes.
pub open spec fn audio_name_ok(r: ResourceView) -> bool {
    trim_ws(r.filename).len() == 0 && r.body_hash.len() > 0 ==> hash_prefix_ok(r.body_hash)
}

/// The name an audio attachment is shown by: its file name, else `audio-`
/// and the start of its hash, else its number.
pub open spec fn audio_name_spec(r: ResourceView, index: int) -> Seq<char> {
    if trim_ws(r.filename).len() > 0 {
        r.filename
    } else if r.body_hash.len() > 0 {
        "audio-"@ + hash8(r.body_hash)
    } else {
        "audio attachment "@ + dec_nat(index as nat)
    }
}

pub fn audio_attachment_name(resource: &Resource, index: usize) -> (res: String)
    requires
        audio_name_ok(resource@),
    ensures
        res@ == audio_name_spec(resource@, index as int),
{
    if crate::text::trim(chars_of(resource.filename.as_str()).as_slice()).len() > 0 {
        return resource.filename.clone();
    }
    if !resource.data.body_hash.as_str().is_empty() {
        let mut out = chars_of("audio-");
        push_str(&mut out, hash8_exec(resource.data.body_hash.as_str()).as_str());
        return string_of(out.as_slice());
    }
    let mut out = chars_of("audio attachment ");
    crate::text::push_all(&mut out, crate::text::usize_dec(index).as_slice());
    string_of(out.as_slice())
}

/// `- name` lines for the attachments from the `start`-th on.
pub open spec fn audio_lines(rs: Seq<ResourceView>) -> Seq<char>
    decreases rs.len(),
{
    if rs.len() == 0 {
        Seq::empty()
    } else {
        audio_lines(rs.drop_last()) + "\n- "@ + audio_name_spec(rs.last(), rs.len() as int)
    }
}

/// The question before playing audio attachments: the one attachment by
/// name, or the count and a line per attachment.
pub open spec fn audio_confirmation_spec(rs: Seq<ResourceView>) -> Seq<char> {
    if rs.len() == 1 {
        "Play audio attachment \""@ + audio_name_spec(rs[0], 1) + "\" with mpv?"@
    } else {
        "Play "@ + dec_nat(rs.len()) + " audio attachments with mpv?"@ + audio_lines(rs)
    }
}

pub fn audio_playback_confirmation_message(resources: &[Resource]) -> (res: String)
    requires
        forall|i: int| 0 <= i < resources@.len() ==> audio_name_ok(#[trigger] resources@[i]@),
    ensures
        res@ == audio_confirmation_spec(resource_views(resources@)),
{
    let ghost rv = resource_views(resources@);
    if resources.len() == 1 {
        let mut out = chars_of("Play audio attachment \"");
        push_str(&mut out, audio_attachment_name(&resources[0], 1).as_str());
        push_str(&mut out, "\" with mpv?");
        assert(rv[0] == resources@[0]@);
        return string_of(out.as_slice());
    }
    let mut out = chars_of("Play ");
    crate::text::push_all(&mut out, crate::text::usize_dec(resources.len()).as_slice());
    push_str(&mut out, " audio attachments with mpv?");
    let ghost head = out@;
    let mut i: usize = 0;
    while i < resources.len()
        invariant
            i <= resources.len(),
            rv == resource_views(resources@),
            forall|j: int| 0 <= j < resources@.len() ==> audio_name_ok(#[trigger] resources@[j]@),
            out@ == head + audio_lines(rv.take(i as int)),
        decreases resources.len() - i,
    {
        assert(rv.take(i + 1).drop_last() =~= rv.take(i as int));
        assert(rv[i as int] == resources@[i as int]@);
        push_str(&mut out, "\n- ");
        push_str(&mut out, audio_attachment_name(&resources[i], i + 1).as_str());
        i += 1;
    }
    assert(rv.take(i as int) =~= rv);
    string_of(out.as_slice())
}

/// Only the ASCII letters and digits of `s`.
pub open spec fn alnum_only(s: Seq<char>) -> Seq<char>
    decreases s.len(),
{
    if s.len() == 0 {
        Seq::empty()
    } else if is_ascii_alnum(s.last()) {
        alnum_only(s.drop_last()).push(s.last())
    } else {
        alnum_only(s.drop_last())
    }
}

pub open spec fn is_ascii_alnum(c: char) -> bool {
    ('0' <= c && c <= '9') || ('a' <= c && c <= 'z') || ('A' <= c && c <= 'Z')
}

/// An extension made safe: its ASCII letters and digits, at most 12; none
/// when nothing is left.
pub open spec fn safe_audio_extension_spec(e: Seq<char>) -> Option<Seq<char>> {
    let f = alnum_only(e);
    let t = if f.len() > 12 { f.take(12) } else { f };
    if t.len() == 0 { None } else { Some(t) }
}

pub fn safe_audio_extension(extension: &str) -> (res: Option<String>)
    ensures
        opt_str(res) == safe_audio_extension_spec(extension@),
{
    let e = chars_of(extension);
    let mut f: Vec<char> = Vec::new();
    let mut i: usize = 0;
    while i < e.len()
        invariant
            i <= e.len(),
            e@ == extension@,
            f@ == alnum_only(e@.take(i as int)),
        decreases e.len() - i,
    {
        assert(e@.take(i + 1).drop_last() =~= e@.take(i as int));
        let c = e[i];
        if ('0' <= c && c <= '9') || ('a' <= c && c <= 'z') || ('A' <= c && c <= 'Z') {
            f.push(c);
        }
        i += 1;
    }
    assert(e@.take(i as int) =~= e@);
    let t = if f.len() > 12 { crate::text::slice_to_vec(f.as_slice(), 0, 12) } else { f };
    if t.len() == 0 {
        None
    } else {
        Some(string_of(t.as_slice()))
    }
}

/// The extension that an audio type is saved with.
pub open spec fn audio_type_extension(mime: Seq<char>) -> Seq<char> {
    let m = ascii_lower(mime);
    if m == "audio/aac"@ {
        "aac"@
    } else if m == "audio/aiff"@ || m == "audio/x-aiff"@ {
        "aiff"@
    } else if m == "audio/amr"@ {
        "amr"@
    } else if m == "audio/flac"@ {
        "flac"@
    } else if m == "audio/midi"@ || m == "audio/x-midi"@ {
        "midi"@
    } else if m == "audio/mp4"@ || m == "audio/x-m4a"@ {
        "m4a"@
    } else if m == "audio/mpeg"@ || m == "audio/mp3"@ {
        "mp3"@
    } else if m == "audio/ogg"@ {
        "ogg"@
    } else if m == "audio/wav"@ || m == "audio/wave"@ || m == "audio/x-wav"@ || m == "audio/vnd.wave"@ {
        "wav"@
    } else if m == "audio/webm"@ {
        "webm"@
    } else {
        "audio"@
    }
}

/// The extension of an audio attachment's file: that of its file name made
/// safe, else the one of its type, else `audio`.
pub open spec fn audio_extension_spec(r: ResourceView) -> Seq<char> {
    match path_extension(r.filename) {
        Some(e) if safe_audio_extension_spec(e) is Some => safe_audio_extension_spec(e)->0,
        _ => match r.mime {
            Some(m) => audio_type_extension(m),
            None => "audio"@,
        },
    }
}

pub fn audio_extension(resource: &Resource) -> (res: String)
    ensures
        res@ == audio_extension_spec(resource@),
{
    if let Some(e) = extension_of(resource.filename.as_str()) {
        if let Some(x) = safe_audio_extension(e.as_str()) {
            return x;
        }
    }
    let mime = match &resource.mime {
        Some(m) => m,
        None => return "audio".to_string(),
    };
    let m = crate::text::to_ascii_lower(chars_of(mime.as_str()).as_slice());
    let is = |w: &str| -> (r: bool)
        ensures
            r == (m@ == w@),
        { crate::text::chars_eq(m.as_slice(), chars_of(w).as_slice()) };
    let e = if is("audio/aac") {
        "aac"
    } else if is("audio/aiff") || is("audio/x-aiff") {
        "aiff"
    } else if is("audio/amr") {
        "amr"
    } else if is("audio/flac") {
        "flac"
    } else if is("audio/midi") || is("audio/x-midi") {
        "midi"
    } else if is("audio/mp4") || is("audio/x-m4a") {
        "m4a"
    } else if is("audio/mpeg") || is("audio/mp3") {
        "mp3"
    } else if is("audio/ogg") {
        "ogg"
    } else if is("audio/wav") || is("audio/wave") || is("audio/x-wav") || is("audio/vnd.wave") {
        "wav"
    } else if is("audio/webm") {
        "webm"
    } else {
        "audio"
    };
    e.to_string()
}

/// A character of a file name made safe: separators and control characters
/// become `_`.
pub open spec fn safe_char(c: char) -> char {
    if c == '/' || c == '\\' || is_cc(c) { '_' } else { c }
}

/// The original name of an audio file, made safe: trimmed, its last path
/// component, separators and control characters replaced, trimmed again;
/// none where nothing (or `.` or `..`) is left.
pub open spec fn safe_original_audio_filename_spec(filename: Seq<char>) -> Option<Seq<char>> {
    let t = trim_ws(filename);
    if t.len() == 0 {
        None
    } else {
        let base = match crate::text::path_file_name(t) {
            Some(n) => n,
            None => t,
        };
        let cleaned = trim_ws(base.map_values(|c: char| safe_char(c)));
        if cleaned.len() == 0 || cleaned == "."@ || cleaned == ".."@ {
            None
        } else {
            Some(cleaned)
        }
    }
}

pub fn safe_original_audio_filename(filename: &str) -> (res: Option<String>)
    ensures
        opt_str(res) == safe_original_audio_filename_spec(filename@),
{
    let t = crate::text::trim(chars_of(filename).as_slice());
    if t.len() == 0 {
        return None;
    }
    let ts = string_of(t.as_slice());
    let base = match crate::text::file_name_of(ts.as_str()) {
        Some(n) => chars_of(n.as_str()),
        None => t,
    };
    let mut m: Vec<char> = Vec::new();
    let mut i: usize = 0;
    while i < base.len()
        invariant
            i <= base.len(),
            m@ == base@.take(i as int).map_values(|c: char| safe_char(c)),
        decreases base.len() - i,
    {
        let c = base[i];
        let d = if c == '/' || c == '\\' || is_control_char(c) { '_' } else { c };
        m.push(d);
        assert(m@ =~= base@.take(i + 1).map_values(|c: char| safe_char(c)));
        i += 1;
    }
    assert(base@.take(i as int) =~= base@);
    let cleaned = crate::text::trim(m.as_slice());
    proof {
        reveal_strlit(".");
        reveal_strlit("..");
    }
    if cleaned.len() == 0 || crate::text::chars_eq(cleaned.as_slice(), chars_of(".").as_slice())
        || crate::text::chars_eq(cleaned.as_slice(), chars_of("..").as_slice()) {
        None
    } else {
        Some(string_of(cleaned.as_slice()))
    }
}

/// The name of the temporary file an audio attachment is played from: its
/// safe original name, else `audio-` and the start of its hash, else its
/// number, with its extension.
pub open spec fn audio_temp_filename_spec(r: ResourceView, index: int) -> Seq<char> {
    match safe_original_audio_filename_spec(r.filename) {
        Some(f) => f,
        None => if r.body_hash.len() > 0 {
            "audio-"@ + hash8(r.body_hash) + "."@ + audio_extension_spec(r)
        } else {
            "audio-"@ + dec_nat((index + 1) as nat) + "."@ + audio_extension_spec(r)
        },
    }
}

pub fn audio_temp_filename(resource: &Resource, index: usize) -> (res: String)
    requires
        index < usize::MAX,
        safe_original_audio_filename_spec(resource@.filename) is None && resource@.body_hash.len() > 0
            ==> hash_prefix_ok(resource@.body_hash),
    ensures
        res@ == audio_temp_filename_spec(resource@, index as int),
{
    if let Some(f) = safe_original_audio_filename(resource.filename.as_str()) {
        return f;
    }
    let ext = audio_extension(resource);
    let mut out = chars_of("audio-");
    if !resource.data.body_hash.as_str().is_empty() {
        push_str(&mut out, hash8_exec(resource.data.body_hash.as_str()).as_str());
    } else {
        crate::text::push_all(&mut out, crate::text::usize_dec(index + 1).as_slice());
    }
    out.push('.');
    push_str(&mut out, ext.as_str());
    proof {
        reveal_strlit(".");
    }
    string_of(out.as_slice())
}

/// The last position of `c` in `s`.
pub open spec fn last_index_of(s: Seq<char>, c: char) -> Option<int>
    decreases s.len(),
{
    if s.len() == 0 {
        None
    } else if s.last() == c {
        Some(s.len() - 1)
    } else {
        last_index_of(s.drop_last(), c)
    }
}

/// A file name split at its last dot into stem and extension, when both
/// are not empty; else the whole name and no extension.
pub open spec fn split_extension_spec(f: Seq<char>) -> (Seq<char>, Seq<char>) {
    match last_index_of(f, '.') {
        Some(p) => if p > 0 && p + 1 < f.len() {
            (f.take(p), f.skip(p + 1))
        } else {
            (f, Seq::empty())
        },
        None => (f, Seq::empty()),
    }
}

pub fn split_filename_extension(filename: &str) -> (res: (String, String))
    ensures
        (res.0@, res.1@) == split_extension_spec(filename@),
{
    let f = chars_of(filename);
    let mut i: usize = f.len();
    assert(f@.take(i as int) =~= f@);
    while i > 0
        invariant
            i <= f.len(),
            f@ == filename@,
            last_index_of(f@, '.') == last_index_of(f@.take(i as int), '.'),
        decreases i,
    {
        assert(f@.take(i as int).drop_last() =~= f@.take(i - 1));
        if f[i - 1] == '.' {
            let p = i - 1;
            assert(last_index_of(f@, '.') == Some(p as int));
            if p > 0 && p + 1 < f.len() {
                let stem = crate::text::slice_to_vec(f.as_slice(), 0, p);
                let ext = crate::text::slice_to_vec(f.as_slice(), p + 1, f.len());
                assert(stem@ =~= f@.take(p as int));
                assert(ext@ =~= f@.skip(p + 1));
                return (string_of(stem.as_slice()), string_of(ext.as_slice()));
            } else {
                return (filename.to_string(), String::new());
            }
        }
        i -= 1;
    }
    assert(f@.take(0) =~= Seq::<char>::empty());
    (filename.to_string(), String::new())
}

/// A character escaped for a JSON string.
pub open spec fn json_char(c: char) -> Seq<char> {
    if c == '"' {
        "\\\""@
    } else if c == '\\' {
        "\\\\"@
    } else if c == '\n' {
        "\\n"@
    } else if c == '\r' {
        "\\r"@
    } else if c == '\t' {
        "\\t"@
    } else if is_cc(c) {
        "\\u00"@ + crate::text::hex_byte((c as u32) as u8, false)
    } else {
        seq![c]
    }
}

/// A text escaped for a JSON string.
pub open spec fn json_escape_spec(s: Seq<char>) -> Seq<char>
    decreases s.len(),
{
    if s.len() == 0 {
        Seq::empty()
    } else {
        json_escape_spec(s.drop_last()) + json_char(s.last())
    }
}

pub fn json_escape(value: &str) -> (res: String)
    ensures
        res@ == json_escape_spec(value@),
{
    let v = chars_of(value);
    let mut out: Vec<char> = Vec::new();
    let mut i: usize = 0;
    while i < v.len()
        invariant
            i <= v.len(),
            v@ == value@,
            out@ == json_escape_spec(v@.take(i as int)),
        decreases v.len() - i,
    {
        assert(v@.take(i + 1).drop_last() =~= v@.take(i as int));
        let c = v[i];
        let ghost before = out@;
        if c == '"' {
            push_str(&mut out, "\\\"");
        } else if c == '\\' {
            push_str(&mut out, "\\\\");
        } else if c == '\n' {
            push_str(&mut out, "\\n");
        } else if c == '\r' {
            push_str(&mut out, "\\r");
        } else if c == '\t' {
            push_str(&mut out, "\\t");
        } else if is_control_char(c) {
            push_str(&mut out, "\\u00");
            let code = c as u32;
            crate::text::push_hex_byte(&mut out, code as u8, false);
        } else {
            out.push(c);
        }
        assert(out@ =~= before + json_char(c));
        i += 1;
    }
    assert(v@.take(i as int) =~= v@);
    string_of(out.as_slice())
}

/// The mpv command that appends the file at `path` to the playlist.
pub open spec fn mpv_loadfile_spec(path: Seq<char>) -> Seq<char> {
    "{\"command\":[\"loadfile\",\""@ + json_escape_spec(path) + "\",\"append-play\"]}"@
}

pub fn mpv_loadfile_command(path: &str) -> (res: String)
    ensures
        res@ == mpv_loadfile_spec(path@),
{
    let mut out = chars_of("{\"command\":[\"loadfile\",\"");
    push_str(&mut out, json_escape(path).as_str());
    push_str(&mut out, "\",\"append-play\"]}");
    string_of(out.as_slice())
}

// ---------------------------------------------------------------------------
// Downloaded resources
// ---------------------------------------------------------------------------

/// A resource with a body but no hash gets the MD5 digest of its body, in hex.
pub fn fill_missing_resource_hash(resource: &mut Resource)
    ensures
        (old(resource)@.body_hash.len() == 0 && old(resource)@.body.len() > 0) ==> final(resource)@ == (ResourceView {
            body_hash: hex_spec(md5_digest(old(resource)@.body)),
            ..old(resource)@
        }),
        !(old(resource)@.body_hash.len() == 0 && old(resource)@.body.len() > 0) ==> final(resource)@ == old(resource)@,
{
    if resource.data.body_hash.as_str().is_empty() && resource.data.body.len() > 0 {
        resource.data.body_hash = crate::text::md5_hex(resource.data.body.as_slice());
    }
}

/// What a fetched copy adds to a resource: the GUID, type and file name it
/// lacks, a hash where it has none, and the fetched body with its size (the
/// body's length where the copy gives none).
pub open spec fn merge_spec(r: ResourceView, f: ResourceView) -> ResourceView {
    let body_given = f.body.len() > 0;
    ResourceView {
        guid: if r.guid.len() == 0 { f.guid } else { r.guid },
        mime: if r.mime is None { f.mime } else { r.mime },
        filename: if r.filename.len() == 0 { f.filename } else { r.filename },
        body_hash: if f.body_hash.len() > 0 && r.body_hash.len() == 0 { f.body_hash } else { r.body_hash },
        body: if body_given { f.body } else { r.body },
        size: if body_given { if f.size == 0 { f.body.len() as usize } else { f.size } } else { r.size },
    }
}

pub fn merge_hydrated_resource(resource: &mut Resource, fetched: Resource)
    ensures
        final(resource)@ == merge_spec(old(resource)@, fetched@),
{
    if resource.guid.as_str().is_empty() {
        resource.guid = fetched.guid;
    }
    if resource.mime.is_none() {
        resource.mime = fetched.mime;
    }
    if resource.filename.as_str().is_empty() {
        resource.filename = fetched.filename;
    }
    if !fetched.data.body_hash.as_str().is_empty() && resource.data.body_hash.as_str().is_empty() {
        resource.data.body_hash = fetched.data.body_hash;
    }
    if fetched.data.body.len() > 0 {
        let size = fetched.data.size;
        resource.data.body = fetched.data.body;
        resource.data.size = if size == 0 { resource.data.body.len() } else { size };
    }
}

/// Where the images of a note are fetched from.
pub trait ImageResourceSource {
    fn get_image_resource_data(&mut self, guid: &str) -> Result<Vec<u8>, ReeknoteError>;

    fn get_image_resource_by_hash(&mut self, note_guid: &str, content_hash: &[u8]) -> Result<Resource, ReeknoteError>;
}

/// What fetching never changes: a GUID, type, file name or hash that the
/// resource already has.
pub open spec fn keeps_known(old: ResourceView, new: ResourceView) -> bool {
    &&& (old.guid.len() > 0 ==> new.guid == old.guid)
    &&& (old.mime is Some ==> new.mime == old.mime)
    &&& (old.filename.len() > 0 ==> new.filename == old.filename)
    &&& (old.body_hash.len() > 0 ==> new.body_hash == old.body_hash)
}

/// A resource after `fill_missing_resource_hash`.
pub open spec fn filled_spec(r: ResourceView) -> ResourceView {
    if r.body_hash.len() == 0 && r.body.len() > 0 {
        ResourceView { body_hash: hex_spec(md5_digest(r.body)), ..r }
    } else {
        r
    }
}

/// A resource given the body that the source answered for its GUID.
pub open spec fn with_fetched_body(r: ResourceView, body: Seq<u8>) -> ResourceView {
    filled_spec(ResourceView { body, size: body.len() as usize, ..r })
}

/// A resource without a body whose hash is hex is fetched by that hash.
pub open spec fn needs_hash_fetch(r: ResourceView) -> bool {
    r.body.len() == 0 && decode_hex_spec(encode_utf8(r.body_hash)) is Some
}

/// Hydrating asks the source for something: the resource has a GUID, or no
/// body and a hex hash.
pub open spec fn calls_source(r: ResourceView) -> bool {
    !(r.guid.len() == 0 && (r.body.len() > 0 || decode_hex_spec(encode_utf8(r.body_hash)) is None))
}

/// What hydrating makes of `r` when the source answers `body` for its GUID
/// (asked where it has one) and `fetched` for its hash (asked where it then
/// still has no body and a hex hash).
pub open spec fn hydrated_spec(r: ResourceView, body: Seq<u8>, fetched: ResourceView) -> ResourceView {
    let r1 = if r.guid.len() > 0 {
        with_fetched_body(r, body)
    } else {
        r
    };
    if needs_hash_fetch(r1) {
        filled_spec(merge_spec(r1, fetched))
    } else {
        r1
    }
}

/// Fetches the body of an image resource: by its GUID where it has one;
/// then, while the body is still empty and the hash is hex, by the note and
/// the hash, merging what comes back.  Whatever the source answers, what the
/// resource knew stays; a resource without GUID and hex hash is left alone.
pub fn hydrate_note_image_resource<S: ImageResourceSource>(
    source: &mut S,
    note_guid: &str,
    resource: &mut Resource,
) -> (res: Result<(), ReeknoteError>)
    ensures
        keeps_known(old(resource)@, final(resource)@),
        !calls_source(old(resource)@) ==> res is Ok && final(resource)@ == old(resource)@,
        res is Ok ==> exists|body: Seq<u8>, fetched: ResourceView|
            final(resource)@ == #[trigger] hydrated_spec(old(resource)@, body, fetched),
        res is Err ==> final(resource)@ == old(resource)@ || (old(resource)@.guid.len() > 0 && exists|body: Seq<u8>|
            final(resource)@ == #[trigger] with_fetched_body(old(resource)@, body)),
{
    let ghost start = resource@;
    let ghost mut answered: Seq<u8> = Seq::empty();
    let ghost mut fetched_view: ResourceView = resource@;
    if !resource.guid.as_str().is_empty() {
        let body = match source.get_image_resource_data(resource.guid.as_str()) {
            Ok(b) => b,
            Err(e) => return Err(e),
        };
        proof {
            answered = body@;
        }
        resource.data.size = body.len();
        resource.data.body = body;
        fill_missing_resource_hash(resource);
        assert(resource@ == with_fetched_body(start, answered));
    }
    let ghost after_guid = resource@;
    if resource.data.body.len() == 0 {
        if let Some(content_hash) = decode_hex_hash(resource.data.body_hash.as_str()) {
            let fetched = match source.get_image_resource_by_hash(note_guid, content_hash.as_slice()) {
                Ok(f) => f,
                Err(e) => {
                    proof {
                        if start.guid.len() > 0 {
                            assert(resource@ == with_fetched_body(start, answered));
                        }
                    }
                    return Err(e);
                },
            };
            proof {
                fetched_view = fetched@;
            }
            merge_hydrated_resource(resource, fetched);
            fill_missing_resource_hash(resource);
        }
    }
    assert(resource@ == hydrated_spec(start, answered, fetched_view));
    Ok(())
}

/// An image resource without a body: one that hydrating a note fetches.
pub open spec fn wants_body(r: ResourceView) -> bool {
    is_image_spec(r) && r.body.len() == 0
}

/// `new` is `old` hydrated, for some answers of the source.
pub open spec fn is_hydration_of(new: ResourceView, old: ResourceView) -> bool {
    exists|body: Seq<u8>, fetched: ResourceView| new == #[trigger] hydrated_spec(old, body, fetched)
}

/// Fetches the bodies of the note's image resources that have none, in
/// order; the first failure stops, the resources before it fetched.
pub fn hydrate_note_image_resources<S: ImageResourceSource>(source: &mut S, note: &mut Note) -> (res: Result<
    (),
    ReeknoteError,
>)
    ensures
        final(note).resources@.len() == old(note).resources@.len(),
        final(note)@ == (NoteView { resources: final(note)@.resources, ..old(note)@ }),
        forall|i: int| 0 <= i < old(note).resources@.len() ==> keeps_known(
            #[trigger] old(note).resources@[i]@,
            final(note).resources@[i]@,
        ),
        forall|i: int|
            0 <= i < old(note).resources@.len() && !(is_image_spec(old(note).resources@[i]@) && old(
                note,
            ).resources@[i]@.body.len() == 0) ==> #[trigger] final(note).resources@[i]@ == old(note).resources@[i]@,
        (forall|i: int|
            0 <= i < old(note).resources@.len() && wants_body(#[trigger] old(note).resources@[i]@) ==> !calls_source(
                old(note).resources@[i]@,
            )) ==> res is Ok,
        res is Ok ==> forall|i: int|
            0 <= i < old(note).resources@.len() && wants_body(#[trigger] old(note).resources@[i]@) ==> is_hydration_of(
                final(note).resources@[i]@,
                old(note).resources@[i]@,
            ),
        res is Err ==> exists|k: int|
            0 <= k < old(note).resources@.len() && wants_body(#[trigger] old(note).resources@[k]@) && calls_source(
                old(note).resources@[k]@,
            ) && (forall|j: int| k < j < old(note).resources@.len() ==> #[trigger] final(note).resources@[j] == old(
                note,
            ).resources@[j]) && (forall|j: int|
                0 <= j < k && wants_body(#[trigger] old(note).resources@[j]@) ==> is_hydration_of(
                    final(note).resources@[j]@,
                    old(note).resources@[j]@,
                )),
{
    let note_guid = note.guid.clone();
    let mut i: usize = 0;
    while i < note.resources.len()
        invariant
            i <= note.resources.len(),
            note.resources@.len() == old(note).resources@.len(),
            note_guid@ == old(note).guid@,
            note@ == (NoteView { resources: note@.resources, ..old(note)@ }),
            forall|j: int| 0 <= j < old(note).resources@.len() ==> keeps_known(
                #[trigger] old(note).resources@[j]@,
                note.resources@[j]@,
            ),
            forall|j: int|
                0 <= j < old(note).resources@.len() && !(is_image_spec(old(note).resources@[j]@) && old(
                    note,
                ).resources@[j]@.body.len() == 0) ==> #[trigger] note.resources@[j]@ == old(note).resources@[j]@,
            forall|j: int| i <= j < note.resources@.len() ==> #[trigger] note.resources@[j] == old(note).resources@[j],
            forall|j: int|
                0 <= j < i && wants_body(#[trigger] old(note).resources@[j]@) ==> is_hydration_of(
                    note.resources@[j]@,
                    old(note).resources@[j]@,
                ),
        decreases note.resources.len() - i,
    {
        if is_image_resource(&note.resources[i]) && note.resources[i].data.body.len() == 0 {
            let mut r = note.resources[i].duplicate();
            let outcome = hydrate_note_image_resource(source, note_guid.as_str(), &mut r);
            let ghost before = note.resources@;
            note.resources.set(i, r);
            proof {
                assert forall|j: int| 0 <= j < note.resources@.len() && j != i implies note.resources@[j] == before[j] by {}
                assert(note@.resources =~= resource_views(note.resources@));
            }
            if let Err(e) = outcome {
                proof {
                    assert(wants_body(old(note).resources@[i as int]@));
                    assert(calls_source(old(note).resources@[i as int]@));
                    assert forall|j: int| i < j < old(note).resources@.len() implies #[trigger] note.resources@[j]
                        == old(note).resources@[j] by {}
                }
                return Err(e);
            }
            proof {
                let (b, f) = choose|b: Seq<u8>, f: ResourceView| r@ == #[trigger] hydrated_spec(old(note).resources@[i as int]@, b, f);
                assert(note.resources@[i as int]@ == hydrated_spec(old(note).resources@[i as int]@, b, f));
            }
        }
        i += 1;
    }
    Ok(())
}

} // verus!
