use vstd::prelude::*;

verus! {

#[derive(Clone, Debug, PartialEq, Eq)]
pub struct Accounting {
    pub upload_limit: u64,
    pub upload_limit_end: Option<i64>,
}

#[derive(Clone, Debug, PartialEq, Eq)]
pub struct UserInfo {
    pub username: String,
    pub name: String,
    pub email: String,
    pub id: i64,
    pub shard_id: String,
    pub accounting: Accounting,
    pub timezone: Option<String>,
}

#[derive(Clone, Debug, PartialEq, Eq)]
pub struct NoteAttributes {
    pub source_url: Option<String>,
    pub reminder_order: Option<i64>,
    pub reminder_time: Option<i64>,
    pub reminder_done_time: Option<i64>,
}

#[derive(Clone, Debug, PartialEq, Eq)]
pub struct Note {
    pub guid: String,
    pub title: String,
    pub content: String,
    pub created: Option<i64>,
    pub updated: Option<i64>,
    pub notebook_guid: Option<String>,
    pub notebook_name: Option<String>,
    pub tag_guids: Vec<String>,
    pub tag_names: Vec<String>,
    pub attributes: NoteAttributes,
    pub resources: Vec<Resource>,
    pub content_length: Option<usize>,
    pub largest_resource_mime: Option<String>,
    pub largest_resource_size: Option<usize>,
}

#[derive(Clone, Debug, PartialEq, Eq)]
pub struct Notebook {
    pub guid: String,
    pub name: String,
    pub stack: Option<String>,
}

#[derive(Clone, Debug, PartialEq, Eq)]
pub struct LinkedNotebook {
    pub guid: String,
    pub share_name: String,
    pub share_key: String,
    pub shard_id: String,
    pub note_store_url: String,
}

#[derive(Clone, Debug, PartialEq, Eq)]
pub struct Tag {
    pub guid: String,
    pub name: String,
}

#[derive(Clone, Debug, PartialEq, Eq)]
pub struct SearchResult {
    pub total_notes: usize,
    pub notes: Vec<Note>,
}

#[derive(Clone, Debug, PartialEq, Eq)]
pub struct ResourceData {
    pub body_hash: String,
    pub body: Vec<u8>,
    pub size: usize,
}

#[derive(Clone, Debug, PartialEq, Eq)]
pub struct Resource {
    pub guid: String,
    pub mime: Option<String>,
    pub filename: String,
    pub data: ResourceData,
}

impl Default for Accounting {
    fn default() -> (r: Self)
        ensures
            r.upload_limit == 0,
            r.upload_limit_end is None,
    {
        Accounting { upload_limit: 0, upload_limit_end: None }
    }
}

impl Default for UserInfo {
    fn default() -> (r: Self)
        ensures
            r.username@.len() == 0,
            r.name@.len() == 0,
            r.email@.len() == 0,
            r.id == 0,
            r.shard_id@.len() == 0,
            r.accounting.upload_limit == 0,
            r.accounting.upload_limit_end is None,
            r.timezone is None,
    {
        UserInfo {
            username: String::new(),
            name: String::new(),
            email: String::new(),
            id: 0,
            shard_id: String::new(),
            accounting: Accounting::default(),
            timezone: None,
        }
    }
}

impl Default for NoteAttributes {
    fn default() -> (r: Self)
        ensures
            r.source_url is None,
            r.reminder_order is None,
            r.reminder_time is None,
            r.reminder_done_time is None,
    {
        NoteAttributes {
            source_url: None,
            reminder_order: None,
            reminder_time: None,
            reminder_done_time: None,
        }
    }
}

impl Default for Note {
    fn default() -> (r: Self)
        ensures
            r.guid@.len() == 0,
            r.title@.len() == 0,
            r.content@.len() == 0,
            r.created is None,
            r.updated is None,
            r.notebook_guid is None,
            r.notebook_name is None,
            r.tag_guids@.len() == 0,
            r.tag_names@.len() == 0,
            r.attributes.source_url is None,
            r.attributes.reminder_order is None,
            r.attributes.reminder_time is None,
            r.attributes.reminder_done_time is None,
            r.resources@.len() == 0,
            r.content_length is None,
            r.largest_resource_mime is None,
            r.largest_resource_size is None,
    {
        Note {
            guid: String::new(),
            title: String::new(),
            content: String::new(),
            created: None,
            updated: None,
            notebook_guid: None,
            notebook_name: None,
            tag_guids: Vec::new(),
            tag_names: Vec::new(),
            attributes: NoteAttributes::default(),
            resources: Vec::new(),
            content_length: None,
            largest_resource_mime: None,
            largest_resource_size: None,
        }
    }
}

impl Default for Notebook {
    fn default() -> (r: Self)
        ensures
            r.guid@.len() == 0,
            r.name@.len() == 0,
            r.stack is None,
    {
        Notebook { guid: String::new(), name: String::new(), stack: None }
    }
}

impl Default for LinkedNotebook {
    fn default() -> (r: Self)
        ensures
            r.guid@.len() == 0,
            r.share_name@.len() == 0,
            r.share_key@.len() == 0,
            r.shard_id@.len() == 0,
            r.note_store_url@.len() == 0,
    {
        LinkedNotebook {
            guid: String::new(),
            share_name: String::new(),
            share_key: String::new(),
            shard_id: String::new(),
            note_store_url: String::new(),
        }
    }
}

impl Default for Tag {
    fn default() -> (r: Self)
        ensures
            r.guid@.len() == 0,
            r.name@.len() == 0,
    {
        Tag { guid: String::new(), name: String::new() }
    }
}

impl Default for SearchResult {
    fn default() -> (r: Self)
        ensures
            r.total_notes == 0,
            r.notes@.len() == 0,
    {
        SearchResult { total_notes: 0, notes: Vec::new() }
    }
}

impl Default for ResourceData {
    fn default() -> (r: Self)
        ensures
            r.body_hash@.len() == 0,
            r.body@.len() == 0,
            r.size == 0,
    {
        ResourceData { body_hash: String::new(), body: Vec::new(), size: 0 }
    }
}

impl Default for Resource {
    fn default() -> (r: Self)
        ensures
            r.guid@.len() == 0,
            r.mime is None,
            r.filename@.len() == 0,
            r.data.body_hash@.len() == 0,
            r.data.body@.len() == 0,
            r.data.size == 0,
    {
        Resource {
            guid: String::new(),
            mime: None,
            filename: String::new(),
            data: ResourceData::default(),
        }
    }
}

/// The text of an optional string.
pub open spec fn opt_str(o: Option<String>) -> Option<Seq<char>> {
    match o {
        Some(s) => Some(s@),
        None => None,
    }
}

pub ghost struct UserInfoView {
    pub username: Seq<char>,
    pub name: Seq<char>,
    pub email: Seq<char>,
    pub id: i64,
    pub shard_id: Seq<char>,
    pub accounting: Accounting,
    pub timezone: Option<Seq<char>>,
}

impl View for UserInfo {
    type V = UserInfoView;

    open spec fn view(&self) -> UserInfoView {
        UserInfoView {
            username: self.username@,
            name: self.name@,
            email: self.email@,
            id: self.id,
            shard_id: self.shard_id@,
            accounting: self.accounting,
            timezone: opt_str(self.timezone),
        }
    }
}

pub ghost struct AttributesView {
    pub source_url: Option<Seq<char>>,
    pub reminder_order: Option<i64>,
    pub reminder_time: Option<i64>,
    pub reminder_done_time: Option<i64>,
}

impl View for NoteAttributes {
    type V = AttributesView;

    open spec fn view(&self) -> AttributesView {
        AttributesView {
            source_url: opt_str(self.source_url),
            reminder_order: self.reminder_order,
            reminder_time: self.reminder_time,
            reminder_done_time: self.reminder_done_time,
        }
    }
}

pub ghost struct ResourceView {
    pub guid: Seq<char>,
    pub mime: Option<Seq<char>>,
    pub filename: Seq<char>,
    pub body_hash: Seq<char>,
    pub body: Seq<u8>,
    pub size: usize,
}

impl View for Resource {
    type V = ResourceView;

    open spec fn view(&self) -> ResourceView {
        ResourceView {
            guid: self.guid@,
            mime: opt_str(self.mime),
            filename: self.filename@,
            body_hash: self.data.body_hash@,
            body: self.data.body@,
            size: self.data.size,
        }
    }
}

pub open spec fn resource_views(v: Seq<Resource>) -> Seq<ResourceView> {
    v.map_values(|r: Resource| r@)
}

pub ghost struct NoteView {
    pub guid: Seq<char>,
    pub title: Seq<char>,
    pub content: Seq<char>,
    pub created: Option<i64>,
    pub updated: Option<i64>,
    pub notebook_guid: Option<Seq<char>>,
    pub notebook_name: Option<Seq<char>>,
    pub tag_guids: Seq<Seq<char>>,
    pub tag_names: Seq<Seq<char>>,
    pub attributes: AttributesView,
    pub resources: Seq<ResourceView>,
    pub content_length: Option<usize>,
    pub largest_resource_mime: Option<Seq<char>>,
    pub largest_resource_size: Option<usize>,
}

impl View for Note {
    type V = NoteView;

    open spec fn view(&self) -> NoteView {
        NoteView {
            guid: self.guid@,
            title: self.title@,
            content: self.content@,
            created: self.created,
            updated: self.updated,
            notebook_guid: opt_str(self.notebook_guid),
            notebook_name: opt_str(self.notebook_name),
            tag_guids: crate::text::string_views(self.tag_guids@),
            tag_names: crate::text::string_views(self.tag_names@),
            attributes: self.attributes@,
            resources: resource_views(self.resources@),
            content_length: self.content_length,
            largest_resource_mime: opt_str(self.largest_resource_mime),
            largest_resource_size: self.largest_resource_size,
        }
    }
}

pub open spec fn note_views(v: Seq<Note>) -> Seq<NoteView> {
    v.map_values(|n: Note| n@)
}

pub ghost struct SearchResultView {
    pub total_notes: usize,
    pub notes: Seq<NoteView>,
}

impl View for SearchResult {
    type V = SearchResultView;

    open spec fn view(&self) -> SearchResultView {
        SearchResultView { total_notes: self.total_notes, notes: note_views(self.notes@) }
    }
}

/// A copy of an optional text.
pub fn copy_opt_string(o: &Option<String>) -> (r: Option<String>)
    ensures
        r == *o,
{
    match o {
        Some(s) => Some(s.clone()),
        None => None,
    }
}

/// A copy of a list of texts.
pub fn copy_strings(v: &Vec<String>) -> (r: Vec<String>)
    ensures
        r@ == v@,
{
    let mut r: Vec<String> = Vec::new();
    let mut i: usize = 0;
    while i < v.len()
        invariant
            i <= v@.len(),
            r@ == v@.take(i as int),
        decreases v.len() - i,
    {
        r.push(v[i].clone());
        assert(r@ =~= v@.take(i + 1));
        i += 1;
    }
    assert(v@.take(i as int) =~= v@);
    r
}

/// A copy of a byte buffer.
pub fn copy_bytes(v: &Vec<u8>) -> (r: Vec<u8>)
    ensures
        r@ == v@,
{
    let mut r: Vec<u8> = Vec::new();
    let mut i: usize = 0;
    while i < v.len()
        invariant
            i <= v@.len(),
            r@ == v@.take(i as int),
        decreases v.len() - i,
    {
        r.push(v[i]);
        assert(r@ =~= v@.take(i + 1));
        i += 1;
    }
    assert(v@.take(i as int) =~= v@);
    r
}

impl UserInfo {
    /// A copy of the user's details.
    pub fn duplicate(&self) -> (r: UserInfo)
        ensures
            r == *self,
            r@ == self@,
    {
        UserInfo {
            username: self.username.clone(),
            name: self.name.clone(),
            email: self.email.clone(),
            id: self.id,
            shard_id: self.shard_id.clone(),
            accounting: Accounting {
                upload_limit: self.accounting.upload_limit,
                upload_limit_end: self.accounting.upload_limit_end,
            },
            timezone: copy_opt_string(&self.timezone),
        }
    }
}

impl Resource {
    /// A copy of the resource.
    pub fn duplicate(&self) -> (r: Resource)
        ensures
            r@ == self@,
    {
        Resource {
            guid: self.guid.clone(),
            mime: copy_opt_string(&self.mime),
            filename: self.filename.clone(),
            data: ResourceData {
                body_hash: self.data.body_hash.clone(),
                body: copy_bytes(&self.data.body),
                size: self.data.size,
            },
        }
    }
}

impl Note {
    /// A copy of the note.
    pub fn duplicate(&self) -> (r: Note)
        ensures
            r@ == self@,
    {
        let mut resources: Vec<Resource> = Vec::new();
        let mut i: usize = 0;
        while i < self.resources.len()
            invariant
                i <= self.resources@.len(),
                resource_views(resources@) == resource_views(self.resources@.take(i as int)),
            decreases self.resources.len() - i,
        {
            let ghost before = resources@;
            resources.push(self.resources[i].duplicate());
            assert(resource_views(resources@) =~= resource_views(before).push(self.resources@[i as int]@));
            assert(resource_views(self.resources@.take(i + 1)) =~= resource_views(self.resources@.take(i as int)).push(self.resources@[i as int]@));
            i += 1;
        }
        assert(self.resources@.take(i as int) =~= self.resources@);
        let r = Note {
            guid: self.guid.clone(),
            title: self.title.clone(),
            content: self.content.clone(),
            created: self.created,
            updated: self.updated,
            notebook_guid: copy_opt_string(&self.notebook_guid),
            notebook_name: copy_opt_string(&self.notebook_name),
            tag_guids: copy_strings(&self.tag_guids),
            tag_names: copy_strings(&self.tag_names),
            attributes: NoteAttributes {
                source_url: copy_opt_string(&self.attributes.source_url),
                reminder_order: self.attributes.reminder_order,
                reminder_time: self.attributes.reminder_time,
                reminder_done_time: self.attributes.reminder_done_time,
            },
            resources,
            content_length: self.content_length,
            largest_resource_mime: copy_opt_string(&self.largest_resource_mime),
            largest_resource_size: self.largest_resource_size,
        };
        assert(r@ =~= self@);
        r
    }
}

/// A copy of a list of notes.
pub fn copy_notes(v: &Vec<Note>) -> (r: Vec<Note>)
    ensures
        note_views(r@) == note_views(v@),
{
    let mut r: Vec<Note> = Vec::new();
    let mut i: usize = 0;
    while i < v.len()
        invariant
            i <= v@.len(),
            note_views(r@) == note_views(v@.take(i as int)),
        decreases v.len() - i,
    {
        let ghost before = r@;
        r.push(v[i].duplicate());
        assert(note_views(r@) =~= note_views(before).push(v@[i as int]@));
        assert(note_views(v@.take(i + 1)) =~= note_views(v@.take(i as int)).push(v@[i as int]@));
        i += 1;
    }
    assert(v@.take(i as int) =~= v@);
    r
}

impl SearchResult {
    /// A copy of the search result.
    pub fn duplicate(&self) -> (r: SearchResult)
        ensures
            r@ == self@,
    {
        SearchResult { total_notes: self.total_notes, notes: copy_notes(&self.notes) }
    }
}

/// One line of a listing: a note, a notebook, a linked notebook or a tag.
#[derive(Clone, Debug, PartialEq, Eq)]
pub enum ListItem {
    Note(Note),
    Notebook(Notebook),
    LinkedNotebook(LinkedNotebook),
    Tag(Tag),
}

impl ListItem {
    pub open spec fn guid_spec(&self) -> Seq<char> {
        match self {
            ListItem::Note(item) => item.guid@,
            ListItem::Notebook(item) => item.guid@,
            ListItem::LinkedNotebook(item) => item.guid@,
            ListItem::Tag(item) => item.guid@,
        }
    }

    pub open spec fn title_spec(&self) -> Seq<char> {
        match self {
            ListItem::Note(item) => item.title@,
            ListItem::Notebook(item) => item.name@,
            ListItem::LinkedNotebook(item) => item.share_name@,
            ListItem::Tag(item) => item.name@,
        }
    }

    pub open spec fn tag_guids_spec(&self) -> Seq<String> {
        match self {
            ListItem::Note(item) => item.tag_guids@,
            _ => Seq::empty(),
        }
    }

    /// The item's GUID; every kind of item has one.
    pub fn guid(&self) -> (res: Option<&str>)
        ensures
            res matches Some(g) && g@ == self.guid_spec(),
    {
        match self {
            ListItem::Note(item) => Some(item.guid.as_str()),
            ListItem::Notebook(item) => Some(item.guid.as_str()),
            ListItem::LinkedNotebook(item) => Some(item.guid.as_str()),
            ListItem::Tag(item) => Some(item.guid.as_str()),
        }
    }

    /// The creation time of a note; other items have none.
    pub fn created(&self) -> (res: Option<i64>)
        ensures
            res == (match self {
                ListItem::Note(item) => item.created,
                _ => None,
            }),
    {
        match self {
            ListItem::Note(item) => item.created,
            _ => None,
        }
    }

    /// The update time of a note; other items have none.
    pub fn updated(&self) -> (res: Option<i64>)
        ensures
            res == (match self {
                ListItem::Note(item) => item.updated,
                _ => None,
            }),
    {
        match self {
            ListItem::Note(item) => item.updated,
            _ => None,
        }
    }

    /// The notebook name of a note; other items have none.
    pub fn notebook_name(&self) -> (res: Option<&str>)
        ensures
            match self {
                ListItem::Note(item) => match item.notebook_name {
                    Some(n) => res matches Some(r) && r@ == n@,
                    None => res is None,
                },
                _ => res is None,
            },
    {
        match self {
            ListItem::Note(item) => match &item.notebook_name {
                Some(n) => Some(n.as_str()),
                None => None,
            },
            _ => None,
        }
    }

    /// The displayed name: a note's title, a notebook's or tag's name, a linked
    /// notebook's share name.
    pub fn title(&self) -> (res: &str)
        ensures
            res@ == self.title_spec(),
    {
        match self {
            ListItem::Note(item) => item.title.as_str(),
            ListItem::Notebook(item) => item.name.as_str(),
            ListItem::LinkedNotebook(item) => item.share_name.as_str(),
            ListItem::Tag(item) => item.name.as_str(),
        }
    }

    /// The tag GUIDs of a note; other items have none.
    pub fn tag_guids(&self) -> (res: &[String])
        ensures
            res@ == self.tag_guids_spec(),
    {
        match self {
            ListItem::Note(item) => item.tag_guids.as_slice(),
            _ => &[],
        }
    }
}

} // verus!
