use vstd::prelude::*;
use crate::config::Config;
use crate::editor::text_to_enml_spec;
use crate::editor::TextFormat;
use crate::errors::{ErrorView, ReeknoteError};
use crate::models::{opt_str, AttributesView, LinkedNotebook, Note, NoteAttributes};
use crate::reeknote::{ParsedNoteInput, ReminderValue};
use crate::text::{chars_of, hex_spec, md5_digest, push_all, push_str, replace_spec, string_of, string_views};

verus! {

// ---------------------------------------------------------------------------
// The client's state
// ---------------------------------------------------------------------------

/// What the Evernote client keeps: the token it calls with, where the user
/// store is, and the note store's URL once the user store has told it.
#[derive(Clone, Debug)]
pub struct EdamClient {
    pub auth_token: String,
    pub user_store_url: String,
    pub note_store_url: Option<String>,
}

impl EdamClient {
    pub fn new(auth_token: String, config: &Config) -> (res: Self)
        ensures
            res.auth_token == auth_token,
            res.user_store_url@ == config.user_store_uri@,
            res.note_store_url is None,
    {
        EdamClient { auth_token, user_store_url: config.user_store_uri.clone(), note_store_url: None }
    }

    /// Keeps the note store's URL that the user store returned; an error
    /// where it returned none.
    pub fn remember_note_store_url(&mut self, returned: Option<String>) -> (res: Result<String, ReeknoteError>)
        ensures
            match returned {
                Some(u) => res == Ok::<String, ReeknoteError>(u) && final(self).note_store_url == Some(u)
                    && final(self).auth_token == old(self).auth_token && final(self).user_store_url
                    == old(self).user_store_url,
                None => res matches Err(ReeknoteError::External(m)) && m@
                    == "Evernote did not return a NoteStore URL"@ && *final(self) == *old(self),
            },
    {
        match returned {
            Some(u) => {
                self.note_store_url = Some(u.clone());
                Ok(u)
            },
            None => Err(ReeknoteError::External("Evernote did not return a NoteStore URL".to_string())),
        }
    }
}

// ---------------------------------------------------------------------------
// Requests
// ---------------------------------------------------------------------------

/// The words of a search filter: none for an empty query.
pub fn search_words(query: &str) -> (res: Option<String>)
    ensures
        opt_str(res) == (if query@.len() == 0 { None } else { Some(query@) }),
{
    if query.is_empty() {
        None
    } else {
        Some(query.to_string())
    }
}

/// The count of a request as Evernote's 32-bit number, cut to its low 32
/// bits as `as i32` cuts it.
pub fn request_count(count: usize) -> (res: i32)
    ensures
        res == count as i32,
{
    count as i32
}

/// A linked notebook can be downloaded only with a note store URL and a
/// share key.
pub open spec fn linked_notebook_check(share_name: Seq<char>, url: Seq<char>, key: Seq<char>) -> Option<ErrorView> {
    if url.len() == 0 {
        Some(ErrorView::InvalidInput("linked notebook has no NoteStore URL: "@ + share_name))
    } else if key.len() == 0 {
        Some(ErrorView::InvalidInput("linked notebook has no share key/global id: "@ + share_name))
    } else {
        None
    }
}

pub fn check_linked_notebook(notebook: &LinkedNotebook) -> (res: Result<(), ReeknoteError>)
    ensures
        match linked_notebook_check(notebook.share_name@, notebook.note_store_url@, notebook.share_key@) {
            Some(e) => res matches Err(x) && x@ == e,
            None => res is Ok,
        },
{
    if notebook.note_store_url.as_str().is_empty() {
        let mut m = chars_of("linked notebook has no NoteStore URL: ");
        push_str(&mut m, notebook.share_name.as_str());
        return Err(ReeknoteError::InvalidInput(string_of(m.as_slice())));
    }
    if notebook.share_key.as_str().is_empty() {
        let mut m = chars_of("linked notebook has no share key/global id: ");
        push_str(&mut m, notebook.share_name.as_str());
        return Err(ReeknoteError::InvalidInput(string_of(m.as_slice())));
    }
    Ok(())
}

/// The notebook of a shared notebook, or the error that Evernote did not
/// say which it is.
pub fn shared_notebook_guid(guid: Option<String>, share_name: &str) -> (res: Result<String, ReeknoteError>)
    ensures
        match guid {
            Some(g) => res == Ok::<String, ReeknoteError>(g),
            None => res matches Err(ReeknoteError::External(m)) && m@
                == "Evernote did not return a notebook GUID for linked notebook "@ + share_name@,
        },
{
    match guid {
        Some(g) => Ok(g),
        None => {
            let mut m = chars_of("Evernote did not return a notebook GUID for linked notebook ");
            push_str(&mut m, share_name);
            Err(ReeknoteError::External(string_of(m.as_slice())))
        },
    }
}

/// Marks each note downloaded from a linked notebook with the notebook's name.
pub fn label_linked_notes(notes: &mut Vec<Note>, share_name: &str)
    ensures
        final(notes)@.len() == old(notes)@.len(),
        forall|i: int| 0 <= i < old(notes)@.len() ==> (#[trigger] final(notes)@[i])@ == (crate::models::NoteView {
            notebook_name: Some(share_name@),
            ..old(notes)@[i]@
        }),
{
    let mut i: usize = 0;
    while i < notes.len()
        invariant
            i <= notes.len(),
            notes@.len() == old(notes)@.len(),
            forall|j: int| 0 <= j < i ==> (#[trigger] notes@[j])@ == (crate::models::NoteView {
                notebook_name: Some(share_name@),
                ..old(notes)@[j]@
            }),
            forall|j: int| i <= j < notes@.len() ==> #[trigger] notes@[j] == old(notes)@[j],
        decreases notes.len() - i,
    {
        let mut n = notes[i].duplicate();
        n.notebook_name = Some(share_name.to_string());
        notes.set(i, n);
        i += 1;
    }
}

// ---------------------------------------------------------------------------
// Outgoing notes
// ---------------------------------------------------------------------------

/// The MIME type that `mime_guess` guesses first for a path, by its extension.
pub uninterp spec fn guessed_mime(path: Seq<char>) -> Option<Seq<char>>;

/// `mime_guess::from_path(path).first()`, as the type's essence string.
/// The contract names the guess.
#[verifier::external_body]
fn guess_mime(path: &str) -> (res: Option<String>)
    ensures
        opt_str(res) == guessed_mime(path@),
{
    mime_guess::from_path(path).first().map(|m| m.essence_str().to_string())
}

/// A file to attach to a note: its bytes, their MD5 digest and size, its
/// guessed type and its name.
#[derive(Clone, Debug, PartialEq, Eq)]
pub struct ResourceDraft {
    pub hash: Vec<u8>,
    pub size: i32,
    pub body: Vec<u8>,
    pub mime: Option<String>,
    pub filename: String,
}

/// The attachment of the file at `path`, whose bytes are `body`.
pub fn resource_to_edam(path: &str, body: Vec<u8>) -> (res: ResourceDraft)
    ensures
        res.hash@ == md5_digest(body@),
        res.size == body@.len() as i32,
        res.body@ == body@,
        opt_str(res.mime) == guessed_mime(path@),
        res.filename@ == (match crate::text::path_file_name(path@) {
            Some(n) => n,
            None => path@,
        }),
{
    let digest = crate::text::md5_compute(body.as_slice());
    let mut hash: Vec<u8> = Vec::new();
    let mut i: usize = 0;
    while i < 16
        invariant
            i <= 16,
            digest@.len() == 16,
            hash@ == digest@.take(i as int),
        decreases 16 - i,
    {
        hash.push(digest[i]);
        assert(hash@ =~= digest@.take(i + 1));
        i += 1;
    }
    assert(digest@.take(16) =~= digest@);
    let size = body.len() as i32;
    let mime = guess_mime(path);
    let filename = match crate::text::file_name_of(path) {
        Some(n) => n,
        None => path.to_string(),
    };
    ResourceDraft { hash, size, body, mime, filename }
}

/// The note to send to Evernote, in plain values.
#[derive(Clone, Debug, PartialEq, Eq)]
pub struct EdamNoteDraft {
    pub guid: Option<String>,
    pub title: Option<String>,
    pub content: String,
    pub created: Option<i64>,
    pub notebook_guid: Option<String>,
    pub resources: Option<Vec<ResourceDraft>>,
    pub attributes: NoteAttributes,
    pub tag_names: Option<Vec<String>>,
}

/// The attributes of an outgoing note: its source URL, and the reminder at
/// `now_ms` (with its time, or done now; deleting sets nothing).
pub open spec fn draft_attributes(url: Option<Seq<char>>, reminder: Option<ReminderValue>, now_ms: i64) -> AttributesView {
    match reminder {
        Some(ReminderValue::Timestamp(t)) => AttributesView {
            source_url: url,
            reminder_order: Some(now_ms),
            reminder_time: Some(t),
            reminder_done_time: None,
        },
        Some(ReminderValue::NoTime) => AttributesView {
            source_url: url,
            reminder_order: Some(now_ms),
            reminder_time: None,
            reminder_done_time: None,
        },
        Some(ReminderValue::Done) => AttributesView {
            source_url: url,
            reminder_order: Some(now_ms),
            reminder_time: None,
            reminder_done_time: Some(now_ms),
        },
        _ => AttributesView { source_url: url, reminder_order: None, reminder_time: None, reminder_done_time: None },
    }
}

/// The `<en-media>` element of an attachment with a type.
pub open spec fn media_node(mime: Option<Seq<char>>, hash: Seq<u8>) -> Seq<char> {
    match mime {
        Some(m) => "<en-media type=\""@ + m + "\" hash=\""@ + hex_spec(hash) + "\" />"@,
        None => Seq::empty(),
    }
}

pub open spec fn media_nodes(rs: Seq<ResourceDraft>) -> Seq<char>
    decreases rs.len(),
{
    if rs.len() == 0 {
        Seq::empty()
    } else {
        media_nodes(rs.drop_last()) + media_node(opt_str(rs.last().mime), rs.last().hash@)
    }
}

/// The content of an outgoing note: the given ENML (an empty note without
/// one), with an element for each attachment before the closing tag.
pub open spec fn draft_content(content: Option<Seq<char>>, rs: Seq<ResourceDraft>) -> Seq<char> {
    let c = match content {
        Some(c) => c,
        None => text_to_enml_spec(" "@, TextFormat::Markdown, false),
    };
    if rs.len() > 0 {
        replace_spec(c, "</en-note>"@, media_nodes(rs) + "</en-note>"@)
    } else {
        c
    }
}

fn push_media_nodes(out: &mut Vec<char>, rs: &Vec<ResourceDraft>)
    ensures
        final(out)@ == old(out)@ + media_nodes(rs@),
{
    let mut i: usize = 0;
    while i < rs.len()
        invariant
            i <= rs.len(),
            out@ == old(out)@ + media_nodes(rs@.take(i as int)),
        decreases rs.len() - i,
    {
        let r = &rs[i];
        let ghost before = out@;
        if let Some(m) = &r.mime {
            push_str(out, "<en-media type=\"");
            push_str(out, m.as_str());
            push_str(out, "\" hash=\"");
            push_str(out, crate::text::hex_encode(r.hash.as_slice()).as_str());
            push_str(out, "\" />");
        }
        assert(rs@.take(i + 1).drop_last() =~= rs@.take(i as int));
        assert(out@ =~= before + media_node(opt_str(r.mime), r.hash@));
        i += 1;
    }
    assert(rs@.take(i as int) =~= rs@);
}

/// The note to send for `input` (with `guid` when it is an update), its
/// files attached as `resources`, reminders set at `now_ms`.
pub fn note_to_edam(input: ParsedNoteInput, guid: Option<String>, resources: Vec<ResourceDraft>, now_ms: i64) -> (res: EdamNoteDraft)
    ensures
        res.guid == guid,
        res.title == input.title,
        res.content@ == draft_content(opt_str(input.content), resources@),
        res.created == input.created,
        res.notebook_guid == input.notebook,
        res.resources == (if resources@.len() == 0 { None } else { Some(resources) }),
        res.attributes@ == draft_attributes(opt_str(input.url), input.reminder, now_ms),
        res.tag_names == (if input.tags@.len() == 0 { None } else { Some(input.tags) }),
{
    let mut attributes = NoteAttributes { source_url: None, reminder_order: None, reminder_time: None, reminder_done_time: None };
    attributes.source_url = input.url;
    match input.reminder {
        Some(ReminderValue::Timestamp(t)) => {
            attributes.reminder_order = Some(now_ms);
            attributes.reminder_time = Some(t);
        },
        Some(ReminderValue::NoTime) => {
            attributes.reminder_order = Some(now_ms);
        },
        Some(ReminderValue::Done) => {
            attributes.reminder_order = Some(now_ms);
            attributes.reminder_done_time = Some(now_ms);
        },
        _ => {},
    }
    let base = match input.content {
        Some(c) => c,
        None => crate::editor::text_to_enml(" "),
    };
    let content = if resources.len() > 0 {
        let mut nodes: Vec<char> = Vec::new();
        push_media_nodes(&mut nodes, &resources);
        push_str(&mut nodes, "</en-note>");
        proof {
            reveal_strlit("</en-note>");
        }
        string_of(crate::text::replace_all(chars_of(base.as_str()).as_slice(), chars_of("</en-note>").as_slice(), nodes.as_slice()).as_slice())
    } else {
        base
    };
    let tag_names = if input.tags.len() == 0 { None } else { Some(input.tags) };
    let res_list = if resources.len() == 0 { None } else { Some(resources) };
    EdamNoteDraft {
        guid,
        title: input.title,
        content,
        created: input.created,
        notebook_guid: input.notebook,
        resources: res_list,
        attributes,
        tag_names,
    }
}

} // verus!
