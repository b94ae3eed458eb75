use reeknote::argparser::{ArgValue, ParsedArgs};
use reeknote::cli::{
    complete_from_cache, resolve_from_search, resolve_note, NoteLookup, SearchStep,
    hydrate_note_list_tag_names, hydrate_note_notebook_name, remember_note_tag_names, NOTEBOOKS_CACHE_UPDATED_AT,
    TAGS_CACHE_UPDATED_AT,
    audio_extension, decode_hex_hash, edit_opens_editor, find_count, find_list_options, note_reference,
};
use reeknote::config::Config;
use reeknote::debug::debug_string_list;
use reeknote::edam::{resource_to_edam, EdamClient};
use reeknote::editor::kitty_image_command;
use reeknote::errors::ReeknoteError;
use reeknote::models::{
    Accounting, LinkedNotebook, Note, Notebook, Resource, ResourceData, SearchResult, Tag, UserInfo,
};
use reeknote::reeknote::ParsedNoteInput;
use reeknote::out::{print_date, separator, tz_offset_for};
use reeknote::reeknote::{
    civil_from_days, days_from_civil, get_time_from_date, handle_settings, EvernoteClient, UnsupportedEvernoteClient,
};
use reeknote::editor::{text_to_enml, wrap_enml, ImageOptions};
use reeknote::rnsync::{note_export, remove_control_characters, SyncFormat};
use reeknote::storage::{dec, enc, parse_storage, Storage, StoredValue};
use reeknote::strmap::StrMap;
use reeknote::text::md5_hex;

fn user() -> UserInfo {
    UserInfo {
        username: "tester".to_string(),
        email: "test@mail.com".to_string(),
        ..UserInfo::default()
    }
}

fn reopen(storage: &Storage) -> Storage {
    let (path, text) = storage.snapshot().expect("a store kept in a file");
    Storage::open(&path, Some(&text)).expect("the written file reads back")
}

// ---------------------------------------------------------------------------
// The store's file
// ---------------------------------------------------------------------------

#[test]
fn reopened_store_keeps_user_and_settings() {
    let mut storage = Storage::open("/tmp/reeknote-own.db", None).unwrap();
    storage.create_user("token".to_string(), user()).unwrap();
    storage.set_setting("editor".to_string(), "nano".to_string()).unwrap();
    let loaded = reopen(&storage);
    assert_eq!(loaded.get_user_token(), Some("token".to_string()));
    assert_eq!(loaded.get_setting("editor"), Some("nano".to_string()));
    assert_eq!(loaded.get_user_info().unwrap().email, "test@mail.com");
}

#[test]
fn reopened_store_keeps_search_notes() {
    let mut storage = Storage::open("/tmp/reeknote-own-search.db", None).unwrap();
    let note = Note {
        guid: "guid".to_string(),
        title: "title".to_string(),
        created: Some(1),
        tag_guids: vec!["tag".to_string()],
        ..Note::default()
    };
    storage.set_note(note.clone()).unwrap();
    storage
        .set_search(SearchResult {
            total_notes: 1,
            notes: vec![note],
        })
        .unwrap();
    let loaded = reopen(&storage);
    let search = loaded.get_search().unwrap();
    assert_eq!(search.total_notes, 1);
    assert_eq!(search.notes[0].guid, "guid");
    assert_eq!(search.notes[0].title, "title");
    assert_eq!(search.notes[0].created, Some(1));
    assert_eq!(search.notes[0].tag_guids, vec!["tag"]);
}

#[test]
fn reopened_store_reads_back_as_stored() {
    let mut storage = Storage::open("/tmp/reeknote-own-forms.db", None).unwrap();
    let info = UserInfo {
        accounting: Accounting {
            upload_limit: 7,
            upload_limit_end: Some(9),
        },
        timezone: Some("Europe/Paris".to_string()),
        ..user()
    };
    storage.create_user("token".to_string(), info).unwrap();
    storage
        .set_userprop("list".to_string(), StoredValue::StringList(Vec::new()))
        .unwrap();
    storage
        .set_userprop("text".to_string(), StoredValue::String("a\tb\nc".to_string()))
        .unwrap();
    let note = Note {
        guid: "g".to_string(),
        title: "t".to_string(),
        content: "<en-note>body</en-note>".to_string(),
        notebook_guid: Some(String::new()),
        tag_guids: vec![String::new()],
        content_length: Some(12),
        ..Note::default()
    };
    storage.set_note(note).unwrap();
    let loaded = reopen(&storage);
    let info = loaded.get_user_info().unwrap();
    assert_eq!(info.accounting, Accounting::default());
    assert_eq!(info.timezone, None);
    assert_eq!(info.username, "tester");
    assert_eq!(
        loaded.get_userprop("list"),
        Some(&StoredValue::StringList(vec![String::new()]))
    );
    assert_eq!(
        loaded.get_userprop("text"),
        Some(&StoredValue::String("a\tb\nc".to_string()))
    );
    let cached = loaded.get_note("g").unwrap();
    assert_eq!(cached.content, "");
    assert_eq!(cached.notebook_guid, None);
    assert!(cached.tag_guids.is_empty());
    assert_eq!(cached.content_length, Some(12));
}

#[test]
fn escapes_fields_and_reads_them_back() {
    assert_eq!(enc("a b/c"), "a%20b%2Fc");
    assert_eq!(enc("é"), "%C3%A9");
    for text in ["", "plain", "tab\there", "line\nbreak", "é, ü"] {
        assert_eq!(dec(&enc(text)), Ok(text.to_string()));
    }
    assert!(matches!(dec("%4"), Err(ReeknoteError::Parse(_))));
}

#[test]
fn refuses_an_unknown_storage_line() {
    assert_eq!(
        parse_storage("garbage\n").err(),
        Some(ReeknoteError::Parse("invalid storage line: garbage".to_string()))
    );
    assert!(parse_storage("\n   \n").is_ok());
}

// ---------------------------------------------------------------------------
// Outside computations
// ---------------------------------------------------------------------------

#[test]
fn hashes_with_md5() {
    assert_eq!(md5_hex(b""), "d41d8cd98f00b204e9800998ecf8427e");
    assert_eq!(md5_hex(b"abc"), "900150983cd24fb0d6963f7d28e17f72");
}

#[test]
fn attaches_a_file_with_its_type_name_and_digest() {
    let draft = resource_to_edam("dir/photo.png", b"abc".to_vec());
    assert_eq!(draft.mime.as_deref(), Some("image/png"));
    assert_eq!(draft.filename, "photo.png");
    assert_eq!(
        draft.hash,
        vec![144, 1, 80, 152, 60, 210, 79, 176, 214, 150, 63, 125, 40, 225, 127, 114]
    );
    assert_eq!(draft.size, 3);
    assert_eq!(draft.body, b"abc".to_vec());
}

#[test]
fn shows_images_by_base64_path() {
    assert_eq!(
        kitty_image_command("/tmp/a.png"),
        "\x1b_Ga=T,t=f,f=100,q=2;L3RtcC9hLnBuZw==\x1b\\"
    );
}

#[test]
fn writes_lists_as_debug_text() {
    assert_eq!(
        debug_string_list(&["a\"b".to_string(), "c".to_string()]),
        "[\"a\\\"b\", \"c\"]"
    );
}

#[test]
fn names_audio_extensions_from_file_name_then_type() {
    let resource = |mime: Option<&str>, filename: &str| Resource {
        guid: String::new(),
        mime: mime.map(ToOwned::to_owned),
        filename: filename.to_string(),
        data: ResourceData::default(),
    };
    assert_eq!(audio_extension(&resource(Some("audio/mpeg"), "clip.OGG")), "OGG");
    assert_eq!(audio_extension(&resource(Some("audio/mpeg"), "clip")), "mp3");
    assert_eq!(audio_extension(&resource(None, "")), "audio");
    assert_eq!(audio_extension(&resource(Some("audio/mpeg"), "dir/.hidden")), "mp3");
    assert_eq!(audio_extension(&resource(Some("audio/mpeg"), "a.tar.wav")), "wav");
}

// ---------------------------------------------------------------------------
// Dates
// ---------------------------------------------------------------------------

#[test]
fn counts_days_of_the_calendar() {
    assert_eq!(days_from_civil(1970, 1, 1), 0);
    assert_eq!(days_from_civil(2000, 3, 1), 11017);
    assert_eq!(civil_from_days(0), (1970, 1, 1));
    assert_eq!(civil_from_days(19723), (2024, 1, 1));
    assert_eq!(civil_from_days(-1), (1969, 12, 31));
}

#[test]
fn reads_dates_and_times() {
    assert_eq!(get_time_from_date("1970-01-02"), Ok(86_401_000));
    assert_eq!(get_time_from_date("1970-01-01 10:30"), Ok(37_801_000));
    assert_eq!(
        get_time_from_date("2024/01/01"),
        Err(ReeknoteError::InvalidInput("incorrect date format: 2024/01/01".to_string()))
    );
}

#[test]
fn prints_dates_in_the_local_zone() {
    assert_eq!(print_date(None, 0), "None");
    assert_eq!(print_date(Some(86_400_000), 0), "1970-01-02");
    assert_eq!(print_date(Some(-1), 0), "1969-12-31");
    assert_eq!(print_date(Some(0), tz_offset_for(Some("PST-0800"))), "1970-01-02");
    assert_eq!(tz_offset_for(None), 0);
}

// ---------------------------------------------------------------------------
// Laws on examples
// ---------------------------------------------------------------------------

#[test]
fn removing_control_characters_twice_changes_nothing() {
    let once = remove_control_characters("a\u{7}b\tc\u{1b}[0m");
    assert_eq!(once, "ab\tc[0m");
    assert_eq!(remove_control_characters(&once), once);
}

#[test]
fn decodes_hex_digests() {
    assert_eq!(decode_hex_hash("00ff10"), Some(vec![0, 255, 16]));
    assert_eq!(decode_hex_hash("00FF10"), Some(vec![0, 255, 16]));
    assert_eq!(decode_hex_hash("abc"), None);
    assert_eq!(decode_hex_hash("zz"), None);
}

// ---------------------------------------------------------------------------
// Errors
// ---------------------------------------------------------------------------

#[test]
fn fails_without_a_note_store_url() {
    let config = reeknote::config::Config::for_app_dir("/tmp/reeknote-own", false);
    let mut client = EdamClient::new("token".to_string(), &config);
    assert_eq!(
        client.remember_note_store_url(None),
        Err(ReeknoteError::External("Evernote did not return a NoteStore URL".to_string()))
    );
    assert_eq!(
        client.remember_note_store_url(Some("https://x/notestore".to_string())),
        Ok("https://x/notestore".to_string())
    );
    assert_eq!(client.note_store_url.as_deref(), Some("https://x/notestore"));
}

#[test]
fn the_offline_client_refuses_every_call() {
    let mut client = UnsupportedEvernoteClient;
    assert!(matches!(client.get_user_info(), Err(ReeknoteError::Unsupported(_))));
    assert!(matches!(client.find_tags(), Err(ReeknoteError::Unsupported(_))));
}

// ---------------------------------------------------------------------------
// Settings
// ---------------------------------------------------------------------------

fn settings_values(pairs: &[(&str, &str)]) -> ParsedArgs {
    let mut values = StrMap::new();
    for (key, value) in pairs {
        values.insert(key.to_string(), ArgValue::String(value.to_string()));
    }
    values
}

fn settings(storage: &mut Storage, pairs: &[(&str, &str)]) -> Result<String, ReeknoteError> {
    let config = Config::for_app_dir("/tmp/reeknote-own", false);
    handle_settings(storage, &config, &settings_values(pairs), None, None, false)
}

#[test]
fn settings_store_and_show_values() {
    let mut storage = Storage::memory();
    assert_eq!(settings(&mut storage, &[("editor", "vim")]), Ok("Changes saved.\n".to_string()));
    assert_eq!(
        settings(&mut storage, &[("editor", "#GET#")]),
        Ok("Current editor is: vim\n".to_string())
    );
    assert_eq!(
        settings(&mut storage, &[("note_ext", "#GET#")]),
        Ok("Current note extension is: [\".markdown\", \".org\"]\n".to_string())
    );
    assert_eq!(settings(&mut storage, &[("extras", "a, b")]), Ok("Changes saved.\n".to_string()));
    assert_eq!(
        settings(&mut storage, &[("extras", "#GET#")]),
        Ok("Current markdown2 extras is : Some([\"a\", \"b\"])\n".to_string())
    );
    assert_eq!(
        settings(&mut storage, &[("note_ext", "only-one")]),
        Err(ReeknoteError::InvalidInput(
            "note extension format is '.markdown_extension, .raw_extension'".to_string()
        ))
    );
    let all = settings(&mut storage, &[]).unwrap();
    assert!(all.starts_with("Reeknote\n******************************\nVersion: 3.0.24\n"));
    assert!(all.contains("Editor: vim\n"));
}

#[test]
fn resolves_note_references_from_the_store() {
    let mut storage = Storage::memory();
    let note = |guid: &str| Note {
        guid: guid.to_string(),
        ..Note::default()
    };
    storage.set_note(note("cached")).unwrap();
    storage
        .set_search(SearchResult {
            total_notes: 2,
            notes: vec![note("g1"), note("g2")],
        })
        .unwrap();
    assert_eq!(note_reference(&storage, "cached"), Some("cached".to_string()));
    assert_eq!(note_reference(&storage, "1"), Some("g1".to_string()));
    assert_eq!(note_reference(&storage, "0"), Some("g1".to_string()));
    assert_eq!(note_reference(&storage, "2"), Some("g2".to_string()));
    assert_eq!(note_reference(&storage, "3"), None);
    let guid = "01234567-89ab-cdef-0123-456789abcdef";
    assert_eq!(note_reference(&storage, guid), Some(guid.to_string()));
    assert_eq!(note_reference(&storage, "some title"), None);
}

#[test]
fn reads_find_and_edit_options() {
    let mut values: ParsedArgs = StrMap::new();
    assert_eq!(find_count(&values), 20);
    values.insert("count".to_string(), ArgValue::Int(0));
    assert_eq!(find_count(&values), 1);
    values.insert("count".to_string(), ArgValue::Int(-3));
    assert_eq!(find_count(&values), 1);
    values.insert("count".to_string(), ArgValue::Int(5));
    assert_eq!(find_count(&values), 5);
    values.insert("with_tags".to_string(), ArgValue::Bool(true));
    let options = find_list_options(&values);
    assert!(options.show_tags && !options.show_url && !options.show_guid && !options.show_selector);

    let mut values: ParsedArgs = StrMap::new();
    values.insert("note".to_string(), ArgValue::String("n".to_string()));
    assert!(edit_opens_editor(&values, false));
    assert!(!edit_opens_editor(&values, true));
    values.insert("tag".to_string(), ArgValue::List(Vec::new()));
    assert!(edit_opens_editor(&values, false));
    values.insert("tag".to_string(), ArgValue::List(vec!["t".to_string()]));
    assert!(!edit_opens_editor(&values, false));
}

#[test]
fn keeps_fetched_tag_names_in_the_cache() {
    let mut storage = Storage::memory();
    let note = Note {
        guid: "n".to_string(),
        tag_guids: vec!["t1".to_string(), "t2".to_string()],
        tag_names: vec!["one".to_string(), "two".to_string()],
        ..Note::default()
    };
    remember_note_tag_names(&mut storage, &note, 1_000).unwrap();
    let tags = storage.get_tags();
    assert_eq!(tags.get("t1"), Some(&"one".to_string()));
    assert_eq!(tags.get("t2"), Some(&"two".to_string()));
    assert_eq!(storage.get_setting(TAGS_CACHE_UPDATED_AT), Some("1000".to_string()));

    let mismatched = Note {
        tag_names: vec!["only".to_string()],
        ..note.clone()
    };
    let mut other = Storage::memory();
    remember_note_tag_names(&mut other, &mismatched, 5).unwrap();
    assert!(other.get_tags().is_empty());
    assert_eq!(other.get_setting(TAGS_CACHE_UPDATED_AT), Some("5".to_string()));

    let empty_name = Note {
        tag_names: vec!["one".to_string(), String::new()],
        ..note
    };
    let mut refused = Storage::memory();
    assert_eq!(
        remember_note_tag_names(&mut refused, &empty_name, 5),
        Err(ReeknoteError::InvalidInput("wrong tag item".to_string()))
    );
    assert_eq!(refused.get_setting(TAGS_CACHE_UPDATED_AT), None);
}

#[test]
fn separators_share_one_width() {
    for title in ["CONTENT", "NOTE", "A", "thirty-nine characters long title here"] {
        assert_eq!(separator('-', title).chars().count(), 44);
    }
    assert_eq!(separator('#', "").chars().count(), 42);
}

// ---------------------------------------------------------------------------
// Naming tags and notebooks through the service
// ---------------------------------------------------------------------------

#[derive(Default)]
struct ListingClient {
    tags: Vec<Tag>,
    notebooks: Vec<Notebook>,
    calls: usize,
}

fn offline<T>() -> Result<T, ReeknoteError> {
    Err(ReeknoteError::Unsupported("offline".to_string()))
}

impl EvernoteClient for ListingClient {
    fn get_user_info(&mut self) -> Result<UserInfo, ReeknoteError> {
        offline()
    }
    fn get_note(&mut self, _guid: &str) -> Result<Note, ReeknoteError> {
        offline()
    }
    fn get_note_with_resources(&mut self, _guid: &str) -> Result<Note, ReeknoteError> {
        offline()
    }
    fn get_note_content(&mut self, _guid: &str) -> Result<String, ReeknoteError> {
        offline()
    }
    fn find_notes(&mut self, _query: &str, _count: usize, _deleted_only: bool) -> Result<SearchResult, ReeknoteError> {
        offline()
    }
    fn create_note(&mut self, _input: ParsedNoteInput) -> Result<Note, ReeknoteError> {
        offline()
    }
    fn update_note(&mut self, _guid: &str, _input: ParsedNoteInput) -> Result<(), ReeknoteError> {
        offline()
    }
    fn remove_note(&mut self, _guid: &str) -> Result<(), ReeknoteError> {
        offline()
    }
    fn find_notebooks(&mut self) -> Result<Vec<Notebook>, ReeknoteError> {
        self.calls += 1;
        Ok(self.notebooks.clone())
    }
    fn find_linked_notebooks(&mut self) -> Result<Vec<LinkedNotebook>, ReeknoteError> {
        offline()
    }
    fn create_notebook(&mut self, _name: &str, _stack: Option<&str>) -> Result<Notebook, ReeknoteError> {
        offline()
    }
    fn update_notebook(&mut self, _guid: &str, _name: &str) -> Result<(), ReeknoteError> {
        offline()
    }
    fn remove_notebook(&mut self, _guid: &str) -> Result<(), ReeknoteError> {
        offline()
    }
    fn find_tags(&mut self) -> Result<Vec<Tag>, ReeknoteError> {
        self.calls += 1;
        Ok(self.tags.clone())
    }
    fn create_tag(&mut self, _name: &str) -> Result<Tag, ReeknoteError> {
        offline()
    }
    fn update_tag(&mut self, _guid: &str, _name: &str) -> Result<(), ReeknoteError> {
        offline()
    }
    fn remove_tag(&mut self, _guid: &str) -> Result<(), ReeknoteError> {
        offline()
    }
}

fn tagged_note(guid: &str, tags: &[&str]) -> Note {
    Note {
        guid: guid.to_string(),
        tag_guids: tags.iter().map(|tag| tag.to_string()).collect(),
        ..Note::default()
    }
}

#[test]
fn names_listed_tags_from_a_fresh_cache_without_the_service() {
    let mut storage = Storage::memory();
    let mut cached = StrMap::new();
    cached.insert("t1".to_string(), "one".to_string());
    storage.set_tags(cached).unwrap();
    storage.set_setting(TAGS_CACHE_UPDATED_AT.to_string(), "1000".to_string()).unwrap();
    let mut client = ListingClient::default();
    let mut notes = vec![tagged_note("a", &["t1"])];
    hydrate_note_list_tag_names(&mut storage, &mut client, &mut notes, 1_100).unwrap();
    assert_eq!(notes[0].tag_names, vec!["one"]);
    assert_eq!(client.calls, 0);
}

#[test]
fn names_listed_tags_from_the_service_when_the_cache_is_stale() {
    let mut storage = Storage::memory();
    storage.set_setting(TAGS_CACHE_UPDATED_AT.to_string(), "0".to_string()).unwrap();
    let mut client = ListingClient {
        tags: vec![Tag {
            guid: "t1".to_string(),
            name: "uno".to_string(),
        }],
        ..ListingClient::default()
    };
    let mut notes = vec![tagged_note("a", &["t1"]), tagged_note("b", &[])];
    hydrate_note_list_tag_names(&mut storage, &mut client, &mut notes, 10_000).unwrap();
    assert_eq!(client.calls, 1);
    assert_eq!(notes[0].tag_names, vec!["uno"]);
    assert!(notes[1].tag_names.is_empty());
    assert_eq!(storage.get_tags().get("t1"), Some(&"uno".to_string()));
    assert_eq!(storage.get_setting(TAGS_CACHE_UPDATED_AT), Some("10000".to_string()));
}

#[test]
fn names_the_notebook_from_the_cache_or_the_service() {
    let mut storage = Storage::memory();
    let mut cached = StrMap::new();
    cached.insert("nb".to_string(), "Work".to_string());
    storage.set_notebooks(cached).unwrap();
    storage.set_setting(NOTEBOOKS_CACHE_UPDATED_AT.to_string(), "100".to_string()).unwrap();
    let mut client = ListingClient {
        notebooks: vec![Notebook {
            guid: "nb".to_string(),
            name: "Home".to_string(),
            stack: None,
        }],
        ..ListingClient::default()
    };
    let mut note = Note {
        notebook_guid: Some("nb".to_string()),
        ..Note::default()
    };
    hydrate_note_notebook_name(&mut storage, &mut client, &mut note, 200).unwrap();
    assert_eq!(note.notebook_name.as_deref(), Some("Work"));
    assert_eq!(client.calls, 0);

    let mut note = Note {
        notebook_guid: Some("nb".to_string()),
        ..Note::default()
    };
    hydrate_note_notebook_name(&mut storage, &mut client, &mut note, 100_000).unwrap();
    assert_eq!(note.notebook_name.as_deref(), Some("Home"));
    assert_eq!(client.calls, 1);
    assert_eq!(storage.get_notebooks().get("nb"), Some(&"Home".to_string()));
}

// ---------------------------------------------------------------------------
// Resolving note references through the service
// ---------------------------------------------------------------------------

struct NotesClient {
    search: SearchResult,
    notes: Vec<Note>,
}

impl EvernoteClient for NotesClient {
    fn get_user_info(&mut self) -> Result<UserInfo, ReeknoteError> {
        offline()
    }
    fn get_note(&mut self, guid: &str) -> Result<Note, ReeknoteError> {
        self.notes
            .iter()
            .find(|note| note.guid == guid)
            .cloned()
            .ok_or_else(|| ReeknoteError::External("no such note".to_string()))
    }
    fn get_note_with_resources(&mut self, guid: &str) -> Result<Note, ReeknoteError> {
        self.get_note(guid)
    }
    fn get_note_content(&mut self, _guid: &str) -> Result<String, ReeknoteError> {
        offline()
    }
    fn find_notes(&mut self, _query: &str, _count: usize, _deleted_only: bool) -> Result<SearchResult, ReeknoteError> {
        Ok(self.search.clone())
    }
    fn create_note(&mut self, _input: ParsedNoteInput) -> Result<Note, ReeknoteError> {
        offline()
    }
    fn update_note(&mut self, _guid: &str, _input: ParsedNoteInput) -> Result<(), ReeknoteError> {
        offline()
    }
    fn remove_note(&mut self, _guid: &str) -> Result<(), ReeknoteError> {
        offline()
    }
    fn find_notebooks(&mut self) -> Result<Vec<Notebook>, ReeknoteError> {
        offline()
    }
    fn find_linked_notebooks(&mut self) -> Result<Vec<LinkedNotebook>, ReeknoteError> {
        offline()
    }
    fn create_notebook(&mut self, _name: &str, _stack: Option<&str>) -> Result<Notebook, ReeknoteError> {
        offline()
    }
    fn update_notebook(&mut self, _guid: &str, _name: &str) -> Result<(), ReeknoteError> {
        offline()
    }
    fn remove_notebook(&mut self, _guid: &str) -> Result<(), ReeknoteError> {
        offline()
    }
    fn find_tags(&mut self) -> Result<Vec<Tag>, ReeknoteError> {
        offline()
    }
    fn create_tag(&mut self, _name: &str) -> Result<Tag, ReeknoteError> {
        offline()
    }
    fn update_tag(&mut self, _guid: &str, _name: &str) -> Result<(), ReeknoteError> {
        offline()
    }
    fn remove_tag(&mut self, _guid: &str) -> Result<(), ReeknoteError> {
        offline()
    }
}

fn titled(guid: &str, title: &str) -> Note {
    Note {
        guid: guid.to_string(),
        title: title.to_string(),
        ..Note::default()
    }
}

#[test]
fn resolves_a_cached_note_with_its_cached_tag_names() {
    let mut storage = Storage::memory();
    let cached = Note {
        tag_names: vec!["x".to_string()],
        ..titled("abc", "cached")
    };
    storage.set_note(cached).unwrap();
    storage.set_setting(TAGS_CACHE_UPDATED_AT.to_string(), "100".to_string()).unwrap();
    let mut client = NotesClient {
        search: SearchResult::default(),
        notes: vec![titled("abc", "fresh")],
    };
    match resolve_note(&mut storage, &mut client, "abc", 200).unwrap() {
        NoteLookup::Found(note) => {
            assert_eq!(note.title, "fresh");
            assert_eq!(note.tag_names, vec!["x"]);
        }
        NoteLookup::Choose(_) => panic!("a cached note needs no choice"),
    }
}

#[test]
fn resolves_note_references_by_searching() {
    let mut storage = Storage::memory();
    let mut client = NotesClient {
        search: SearchResult::default(),
        notes: vec![titled("one", "first"), titled("two", "second")],
    };
    assert!(matches!(
        resolve_note(&mut storage, &mut client, "nothing", 0),
        Err(ReeknoteError::InvalidInput(message)) if message == "notes have not been found"
    ));

    client.search = SearchResult {
        total_notes: 1,
        notes: vec![titled("one", "first")],
    };
    match resolve_note(&mut storage, &mut client, "first", 0).unwrap() {
        NoteLookup::Found(note) => assert_eq!(note.guid, "one"),
        NoteLookup::Choose(_) => panic!("a single match needs no choice"),
    }
    assert!(storage.get_note("one").is_some());

    client.search = SearchResult {
        total_notes: 2,
        notes: vec![titled("one", "first"), titled("two", "second")],
    };
    match resolve_note(&mut storage, &mut client, "s", 0).unwrap() {
        NoteLookup::Choose(notes) => assert_eq!(notes.len(), 2),
        NoteLookup::Found(_) => panic!("several matches are offered to choose from"),
    }
    assert_eq!(storage.get_search().unwrap().notes.len(), 2);
    assert!(storage.get_note("two").is_some());
}

// ---------------------------------------------------------------------------
// Exporting notes
// ---------------------------------------------------------------------------

#[test]
fn exports_non_ascii_content() {
    let note = Note {
        title: "Test Note".to_string(),
        content: text_to_enml("œ ž © µ ¶ å õ ý þ ß Ü"),
        ..Note::default()
    };
    let export = note_export(&note, SyncFormat::Plain, &ImageOptions::default());
    assert_eq!(export.file_name, "Test Note.txt");
    assert!(export.content.contains("œ ž © µ ¶ å õ ý þ ß Ü"));
    assert!(export.images.is_empty());
    assert_eq!(export.image_dir, None);
}

#[test]
fn exports_image_resources_next_to_the_note() {
    let body = b"fake png".to_vec();
    let hash = md5_hex(&body);
    let note = Note {
        title: "Image Note".to_string(),
        content: wrap_enml(&format!("<en-media type=\"image/png\" hash=\"{hash}\" />")),
        resources: vec![Resource {
            guid: String::new(),
            mime: Some("image/png".to_string()),
            filename: "image.png".to_string(),
            data: ResourceData {
                body_hash: hash.clone(),
                body: body.clone(),
                size: body.len(),
            },
        }],
        ..Note::default()
    };
    let options = ImageOptions {
        save_images: true,
        ..ImageOptions::default()
    };
    let export = note_export(&note, SyncFormat::Html, &options);
    assert!(export.content.contains(&format!("Image Note-{hash}.png")));
    assert_eq!(export.image_dir, None);
    assert_eq!(export.images.len(), 1);
    assert_eq!(export.images[0].name, format!("Image Note-{hash}.png"));
    assert_eq!(export.images[0].body, body);
}

#[test]
fn takes_search_results_one_by_one() {
    let mut storage = Storage::memory();
    assert_eq!(
        resolve_from_search(&mut storage, SearchResult::default()).err(),
        Some(ReeknoteError::InvalidInput("notes have not been found".to_string()))
    );
    let one = SearchResult {
        total_notes: 1,
        notes: vec![titled("one", "first")],
    };
    assert!(matches!(
        resolve_from_search(&mut storage, one),
        Ok(SearchStep::Fetch(guid)) if guid == "one"
    ));
    assert!(storage.get_note("one").is_some());
    assert!(storage.get_search().is_none());
    let two = SearchResult {
        total_notes: 5,
        notes: vec![titled("a", "x"), titled("b", "y")],
    };
    assert!(matches!(
        resolve_from_search(&mut storage, two),
        Ok(SearchStep::Choose(notes)) if notes.len() == 2
    ));
    assert_eq!(storage.get_search().unwrap().total_notes, 5);
}

#[test]
fn completes_a_fetched_note_from_the_cache() {
    let mut storage = Storage::memory();
    storage
        .set_note(Note {
            tag_names: vec!["cached".to_string()],
            notebook_name: Some("Work".to_string()),
            ..titled("g", "old")
        })
        .unwrap();
    storage.set_setting(TAGS_CACHE_UPDATED_AT.to_string(), "100".to_string()).unwrap();
    let note = complete_from_cache(&storage, titled("g", "new"), "g", 150);
    assert_eq!(note.title, "new");
    assert_eq!(note.tag_names, vec!["cached"]);
    assert_eq!(note.notebook_name, None);
}
