use reeknote::argparser::{ArgParser, ArgValue, CommandSpec, OptionSpec, ParseOutcome, ParsedArgs};
use reeknote::cli::{
    apply_tag_names_to_notes, cached_notebook_name, cached_tag_names, decode_hex_hash, mark_cache_updated,
    note_notebook_name, notes_need_tag_name_lookup, parse_note_selection, should_fetch_note_notebook_name,
    should_fetch_note_tag_names, METADATA_CACHE_TTL_SECONDS, NOTEBOOKS_CACHE_UPDATED_AT, TAGS_CACHE_UPDATED_AT,
};
use reeknote::config::Config;
use reeknote::edam::note_to_edam;
use reeknote::editor;
use reeknote::gnsync::parse_args;
use reeknote::models::{Accounting, ListItem, Note, NoteAttributes, Notebook, SearchResult, UserInfo};
use reeknote::oauth::{parse_oauth_response, parse_verifier, plaintext_signature, OAuthClient};
use reeknote::out::{about, dedup_preview, print_list, separator, show_note, show_user, ListOptions};
use reeknote::reeknote::{
    duplicate_content_groups, duplicate_metadata_groups, get_editor, get_note_ext, set_editor, set_note_ext,
    DuplicateGroup, NotesService, ParsedNoteInput,
};
use reeknote::rnsync::{parse_meta, remove_control_characters, SyncFormat};
use reeknote::storage::Storage;
use reeknote::strmap::StrMap;
use reeknote::tools::{check_is_int, strip_string, strip_vec};

fn strings(items: &[&str]) -> Vec<String> {
    items.iter().map(|item| item.to_string()).collect()
}

fn test_config() -> Config {
    Config::for_app_dir("/tmp/reeknote-tests", false)
}

fn now_seconds() -> i64 {
    std::time::SystemTime::now().duration_since(std::time::UNIX_EPOCH).unwrap().as_secs() as i64
}

// ---------------------------------------------------------------------------
// Command line
// ---------------------------------------------------------------------------

fn testing_parser() -> ArgParser {
    ArgParser::new(vec![CommandSpec::new("testing", "Create note")
        .first_arg("--test_req_arg")
        .argument(OptionSpec::argument("--test_req_arg", "Set note title").alt("-tra").required())
        .argument(OptionSpec::argument("--test_arg", "Add tag to note").alt("-ta").empty_value(ArgValue::Empty))
        .argument(OptionSpec::argument("--test_arg2", "Add tag to note").alt("-ta2"))
        .flag(OptionSpec::flag("--test_flag", "Add tag to note").alt("-tf"))])
}

fn parsed(args: &[&str]) -> ParsedArgs {
    match testing_parser().parse(strings(args)) {
        Ok(ParseOutcome::Parsed(values)) => values,
        other => panic!("unexpected parse result: {other:?}"),
    }
}

#[test]
fn empty_command_prints_about() {
    assert_eq!(testing_parser().parse(Vec::<String>::new()).unwrap(), ParseOutcome::About);
}

#[test]
fn rejects_unknown_command() {
    assert!(testing_parser().parse(strings(&["testing_err"])).is_err());
}

#[test]
fn parses_full_arguments() {
    let mut expected = ParsedArgs::new();
    expected.insert("test_req_arg".to_string(), ArgValue::String("test_req_val".to_string()));
    expected.insert("test_flag".to_string(), ArgValue::Bool(true));
    expected.insert("test_arg".to_string(), ArgValue::String("test_val".to_string()));
    assert_eq!(
        parsed(&["testing", "--test_req_arg", "test_req_val", "--test_flag", "--test_arg", "test_val"]),
        expected
    );
}

#[test]
fn inserts_default_first_arg() {
    let mut expected = ParsedArgs::new();
    expected.insert("test_req_arg".to_string(), ArgValue::String("test_def_val".to_string()));
    expected.insert("test_flag".to_string(), ArgValue::Bool(false));
    assert_eq!(parsed(&["testing", "test_def_val"]), expected);
}

#[test]
fn supports_empty_values_and_short_names() {
    let mut expected = ParsedArgs::new();
    expected.insert("test_req_arg".to_string(), ArgValue::String("test_def_val".to_string()));
    expected.insert("test_arg".to_string(), ArgValue::Empty);
    expected.insert("test_arg2".to_string(), ArgValue::String("test_arg2_val".to_string()));
    expected.insert("test_flag".to_string(), ArgValue::Bool(false));
    assert_eq!(parsed(&["testing", "test_def_val", "-ta", "-ta2", "test_arg2_val"]), expected);
}

#[test]
fn parses_builtin_find_count_as_integer() {
    let parser = ArgParser::default();
    let outcome = parser.parse(strings(&["find", "needle", "--count", "3"])).unwrap();
    let ParseOutcome::Parsed(values) = outcome else {
        panic!("expected parsed values");
    };
    assert_eq!(values.get("search"), Some(&ArgValue::String("needle".to_string())));
    assert_eq!(values.get("count"), Some(&ArgValue::Int(3)));
}

#[test]
fn parses_builtin_find_content_flag() {
    let parser = ArgParser::default();
    let outcome = parser.parse(strings(&["find", "needle", "--content"])).unwrap();
    let ParseOutcome::Parsed(values) = outcome else {
        panic!("expected parsed values");
    };
    assert_eq!(values.get("content"), Some(&ArgValue::Bool(true)));
}

// ---------------------------------------------------------------------------
// gnsync
// ---------------------------------------------------------------------------

#[test]
fn parses_download_args() {
    let args = parse_args(strings(&["--path", "/tmp/notes", "--notebook", "Work", "--format", "markdown", "--download-only"]))
        .unwrap();
    assert_eq!(args.path, "/tmp/notes");
    assert_eq!(args.notebook.as_deref(), Some("Work"));
    assert_eq!(args.format, SyncFormat::Markdown);
    assert!(!args.all);
    assert!(!args.all_linked);
}

#[test]
fn rejects_two_way_sync() {
    assert!(parse_args(strings(&["--two-way"])).is_err());
}

#[test]
fn parses_all_notebooks_and_image_options() {
    let args = parse_args(strings(&["--all", "--all-linked", "--mask", "*.md", "--save-images", "--images-in-subdir"]))
        .unwrap();
    assert!(args.all);
    assert!(args.all_linked);
    assert_eq!(args.mask.as_deref(), Some("*.md"));
    assert!(args.image_options.save_images);
    assert!(args.image_options.images_in_subdir);
}

// ---------------------------------------------------------------------------
// Notes service
// ---------------------------------------------------------------------------

#[test]
fn builds_search_request() {
    let tags = strings(&["tag1", "tag2"]);
    let request = NotesService::create_search_request(
        Some("test text"),
        &tags,
        Some("notebook1"),
        Some("1999-12-31/2000-12-31"),
        false,
        false,
        false,
        false,
    )
    .unwrap();
    assert_eq!(
        request,
        "notebook:notebook1 tag:tag1 tag:tag2 created:19991231T000000Z -created:20010101T000000Z intitle:test text"
    );
}

#[test]
fn parses_note_input() {
    let input = NotesService::parse_input(
        Some("title".to_string()),
        Some("test body".to_string()),
        strings(&["tag1"]),
        None,
        None,
        strings(&["res 1"]),
        None,
        None,
        None,
        false,
        None,
        0,
    )
    .unwrap();
    assert_eq!(input.title.as_deref(), Some("title"));
    assert_eq!(input.content.as_deref(), Some(editor::text_to_enml("test body").as_str()));
    assert_eq!(input.tags, vec!["tag1"]);
    assert_eq!(input.resources, vec!["res 1"]);
}

#[test]
fn handles_settings_helpers() {
    let mut storage = Storage::memory();
    assert!(!get_editor(Some(&storage), None, None, false).is_empty());
    set_editor(&mut storage, "vim").unwrap();
    assert_eq!(get_editor(Some(&storage), None, None, false), "vim");
    set_note_ext(&mut storage, ".md,.enml").unwrap();
    assert_eq!(get_note_ext(&mut storage), [".md".to_string(), ".enml".to_string()]);
}

#[test]
fn finds_duplicate_content_groups_from_metadata_candidates() {
    let notes = vec![
        Note {
            guid: "1".to_string(),
            title: "same".to_string(),
            content: "body".to_string(),
            content_length: Some(4),
            ..Note::default()
        },
        Note {
            guid: "2".to_string(),
            title: "same".to_string(),
            content: "body".to_string(),
            content_length: Some(4),
            ..Note::default()
        },
        Note {
            guid: "3".to_string(),
            title: "same".to_string(),
            content: "other".to_string(),
            content_length: Some(5),
            ..Note::default()
        },
    ];
    let candidates = duplicate_metadata_groups(&notes);
    assert_eq!(candidates.len(), 1);
    let groups = duplicate_content_groups(candidates.into_iter().flatten().collect());
    assert_eq!(groups.len(), 1);
    assert_eq!(groups[0].notes.len(), 2);
}

#[test]
fn creates_edam_note_from_input() {
    let input = ParsedNoteInput {
        title: Some("title".to_string()),
        content: Some(editor::text_to_enml("body")),
        tags: vec!["tag".to_string()],
        ..ParsedNoteInput::default()
    };
    let note = note_to_edam(input, None, Vec::new(), 0);
    assert_eq!(note.title.as_deref(), Some("title"));
    assert!(note.content.contains("body"));
    assert_eq!(note.tag_names.unwrap(), vec!["tag"]);
}

// ---------------------------------------------------------------------------
// OAuth
// ---------------------------------------------------------------------------

#[test]
fn parses_oauth_response_body_and_url() {
    let parsed = parse_oauth_response("oauth_token=tmp%20token&oauth_token_secret=secret%2Bvalue").unwrap();
    assert_eq!(parsed.get("oauth_token").map(|v| v.as_str()), Some("tmp token"));
    assert_eq!(parsed.get("oauth_token_secret").map(|v| v.as_str()), Some("secret+value"));

    let parsed = parse_oauth_response("https://www.evernote.com/?oauth_verifier=verifier%201").unwrap();
    assert_eq!(parsed.get("oauth_verifier").map(|v| v.as_str()), Some("verifier 1"));
}

#[test]
fn parses_plain_or_url_verifier() {
    assert_eq!(parse_verifier("abc").unwrap(), "abc");
    assert_eq!(parse_verifier("https://www.evernote.com/?oauth_token=t&oauth_verifier=v").unwrap(), "v");
}

#[test]
fn builds_authorization_url_and_plaintext_signature() {
    let client = OAuthClient::with_credentials(
        "www.evernote.com".to_string(),
        "key".to_string(),
        "secret value".to_string(),
    );
    assert_eq!(
        client.authorization_url("tmp token"),
        "https://www.evernote.com/OAuth.action?oauth_token=tmp%20token"
    );
    assert_eq!(plaintext_signature("secret value", "tok+sec"), "secret%20value&tok%2Bsec");
}

// ---------------------------------------------------------------------------
// Output
// ---------------------------------------------------------------------------

#[test]
fn formats_about() {
    assert!(about().contains("Version: 3.0.24"));
    assert!(about().contains("Use reeknote --help"));
}

#[test]
fn formats_separator() {
    assert_eq!(separator('-', "test"), "------------------- test ------------------\n");
    assert_eq!(separator('-', ""), "----------------------------------------\n\n");
}

#[test]
fn formats_user() {
    let user = UserInfo {
        username: "testusername".to_string(),
        name: "testname".to_string(),
        email: "testemail".to_string(),
        id: 111,
        shard_id: "222".to_string(),
        accounting: Accounting { upload_limit: 100, upload_limit_end: Some(1_095_292_800_000) },
        timezone: None,
    };
    let output = show_user(&user, true, 0);
    assert!(output.contains("Username         : testusername"));
    assert!(output.contains("Upload limit     : 0.00 MB"));
}

#[test]
fn formats_note_list() {
    let config = test_config();
    let note = Note {
        guid: "12345".to_string(),
        title: "testnote".to_string(),
        created: Some(1_095_292_800_000),
        updated: Some(1_095_292_800_000),
        attributes: NoteAttributes::default(),
        ..Note::default()
    };
    let output = print_list(
        &[ListItem::Note(note.clone()), ListItem::Note(note)],
        "",
        ListOptions::default(),
        &config,
        0,
    );
    assert!(output.contains("Found 2 items"));
    assert!(output.contains("testnote"));
}

#[test]
fn formats_note_tags() {
    let config = test_config();
    let note = Note {
        guid: "12345".to_string(),
        title: "testnote".to_string(),
        content: editor::text_to_enml("body"),
        tag_names: vec!["tag-one".to_string(), "tag-two".to_string()],
        attributes: NoteAttributes::default(),
        ..Note::default()
    };
    let output = show_note(&note, 111, "s1", &config, 0);
    assert!(output.contains("Tags: tag-one, tag-two"));
    assert!(output.find("Notebook:").unwrap() < output.find("Tags:").unwrap());
    assert!(output.find("Tags:").unwrap() < output.find("Created:").unwrap());
}

#[test]
fn formats_dedup_preview_without_deletion() {
    let group = DuplicateGroup {
        key: "hash title".to_string(),
        notes: vec![
            Note { guid: "guid-1".to_string(), title: "duplicate".to_string(), ..Note::default() },
            Note { guid: "guid-2".to_string(), title: "duplicate".to_string(), ..Note::default() },
        ],
    };
    let output = dedup_preview(&[group], 3, 0);
    assert!(output.contains("Found 1 duplicate group"));
    assert!(output.contains("No notes were deleted."));
    assert!(output.contains("guid-1"));
}

// ---------------------------------------------------------------------------
// Sync files
// ---------------------------------------------------------------------------

#[test]
fn strips_control_characters() {
    assert_eq!(remove_control_characters("\0This is an english\x01 sentence."), "This is an english sentence.");
    assert_eq!(remove_control_characters("한국\x02어입니\x03다"), "한국어입니다");
}

#[test]
fn parses_front_matter() {
    let parsed = parse_meta("---\ntitle: Hello\ntags: [a, b]\n---\nBody");
    assert_eq!(parsed.get("title").map(|v| v.as_str()), Some("Hello"));
    assert_eq!(parsed.get("content").map(|v| v.as_str()), Some("\nBody"));
}

// ---------------------------------------------------------------------------
// Storage
// ---------------------------------------------------------------------------

fn user() -> UserInfo {
    UserInfo { username: "tester".to_string(), email: "test@mail.com".to_string(), ..UserInfo::default() }
}

#[test]
fn stores_user() {
    let mut storage = Storage::memory();
    storage.create_user("token".to_string(), user()).unwrap();
    assert_eq!(storage.get_user_token(), Some("token".to_string()));
    assert_eq!(storage.get_user_info().unwrap().email, "test@mail.com");
}

#[test]
fn rejects_empty_user_values() {
    let mut storage = Storage::memory();
    assert!(storage.create_user("".to_string(), user()).is_err());
    assert!(storage.create_user("token".to_string(), UserInfo::default()).is_err());
}

fn single(key: &str, value: &str) -> StrMap<String> {
    let mut map = StrMap::new();
    map.insert(key.to_string(), value.to_string());
    map
}

#[test]
fn stores_settings_tags_notebooks_and_search() {
    let mut storage = Storage::memory();
    storage.set_setting("editor".to_string(), "vim".to_string()).unwrap();
    assert_eq!(storage.get_setting("editor"), Some("vim".to_string()));

    storage.set_tags(single("guid", "tag")).unwrap();
    assert_eq!(storage.get_tags().get("guid").map(|v| v.as_str()), Some("tag"));

    storage.set_notebooks(single("guid", "notebook")).unwrap();
    assert_eq!(storage.get_notebooks().get("guid").map(|v| v.as_str()), Some("notebook"));

    storage.set_search(SearchResult { total_notes: 0, notes: Vec::new() }).unwrap();
    assert_eq!(storage.get_search().unwrap().total_notes, 0);
}

// ---------------------------------------------------------------------------
// Tools
// ---------------------------------------------------------------------------

#[test]
fn check_integer_strings() {
    assert!(check_is_int("1"));
    assert!(check_is_int("-1"));
    assert!(!check_is_int("1.1"));
    assert!(!check_is_int("abc"));
}

#[test]
fn strips_known_wrapping_characters() {
    assert_eq!(strip_string("text text \t\n\r\"'"), "text text");
    assert_eq!(
        strip_vec(&["key \t\n\r\"'".to_string(), "value \t\n\r\"'".to_string()]),
        vec!["key".to_string(), "value".to_string()]
    );
}

// ---------------------------------------------------------------------------
// Command helpers
// ---------------------------------------------------------------------------

#[test]
fn parses_note_selection_numbers() {
    assert_eq!(parse_note_selection("1", 3).unwrap(), Some(0));
    assert_eq!(parse_note_selection("3", 3).unwrap(), Some(2));
}

#[test]
fn parses_note_selection_cancel() {
    assert_eq!(parse_note_selection("0", 3).unwrap(), None);
    assert_eq!(parse_note_selection("q", 3).unwrap(), None);
}

#[test]
fn rejects_invalid_note_selection() {
    assert!(parse_note_selection("4", 3).is_err());
    assert!(parse_note_selection("abc", 3).is_err());
}

#[test]
fn fetches_tag_names_even_without_cached_tag_guids() {
    let note = Note { tag_names: Vec::new(), tag_guids: Vec::new(), ..Note::default() };
    assert!(should_fetch_note_tag_names(&note));
}

#[test]
fn keeps_existing_tag_names() {
    let note = Note { tag_names: vec!["tag".to_string()], ..Note::default() };
    assert!(!should_fetch_note_tag_names(&note));
}

#[test]
fn fetches_notebook_name_when_guid_is_known() {
    let note = Note { notebook_guid: Some("nb-guid".to_string()), notebook_name: None, ..Note::default() };
    assert!(should_fetch_note_notebook_name(&note));
}

#[test]
fn keeps_existing_notebook_name() {
    let note = Note {
        notebook_guid: Some("nb-guid".to_string()),
        notebook_name: Some("Inbox".to_string()),
        ..Note::default()
    };
    assert!(!should_fetch_note_notebook_name(&note));
}

#[test]
fn resolves_notebook_name_from_guid() {
    let note = Note { notebook_guid: Some("work".to_string()), ..Note::default() };
    let notebooks = vec![Notebook { guid: "work".to_string(), name: "Work".to_string(), stack: None }];
    assert_eq!(note_notebook_name(&note, &notebooks).as_deref(), Some("Work"));
}

#[test]
fn uses_fresh_cached_notebook_name() {
    let now = now_seconds();
    let mut storage = Storage::memory();
    storage.set_notebooks(single("work", "Work")).unwrap();
    mark_cache_updated(&mut storage, NOTEBOOKS_CACHE_UPDATED_AT, now).unwrap();
    let note = Note { notebook_guid: Some("work".to_string()), ..Note::default() };
    assert_eq!(cached_notebook_name(&storage, &note, now).as_deref(), Some("Work"));
}

#[test]
fn ignores_stale_cached_notebook_name() {
    let now = now_seconds();
    let mut storage = Storage::memory();
    storage.set_notebooks(single("work", "Work")).unwrap();
    storage
        .set_setting(
            NOTEBOOKS_CACHE_UPDATED_AT.to_string(),
            (now - METADATA_CACHE_TTL_SECONDS - 1).to_string(),
        )
        .unwrap();
    let note = Note { notebook_guid: Some("work".to_string()), ..Note::default() };
    assert_eq!(cached_notebook_name(&storage, &note, now), None);
}

#[test]
fn uses_fresh_cached_tag_names() {
    let now = now_seconds();
    let mut storage = Storage::memory();
    storage.set_tags(single("tag-guid", "project")).unwrap();
    mark_cache_updated(&mut storage, TAGS_CACHE_UPDATED_AT, now).unwrap();
    let note = Note { tag_guids: vec!["tag-guid".to_string()], ..Note::default() };
    assert_eq!(cached_tag_names(&storage, &note, now).unwrap(), vec!["project".to_string()]);
}

#[test]
fn detects_notes_missing_tag_names() {
    let notes = vec![Note { tag_guids: vec!["tag-guid".to_string()], ..Note::default() }];
    assert!(notes_need_tag_name_lookup(&notes));
}

#[test]
fn keeps_notes_with_existing_tag_names() {
    let notes = vec![Note {
        tag_guids: vec!["tag-guid".to_string()],
        tag_names: vec!["project".to_string()],
        ..Note::default()
    }];
    assert!(!notes_need_tag_name_lookup(&notes));
}

#[test]
fn applies_tag_names_to_note_list() {
    let mut notes = vec![Note {
        tag_guids: vec!["tag-guid".to_string(), "other-guid".to_string()],
        ..Note::default()
    }];
    let mut tags = StrMap::new();
    tags.insert("tag-guid".to_string(), "project".to_string());
    tags.insert("other-guid".to_string(), "work".to_string());
    apply_tag_names_to_notes(&mut notes, &tags);
    assert_eq!(notes[0].tag_names, vec!["project".to_string(), "work".to_string()]);
}

#[test]
fn decodes_hex_hash_case_insensitively() {
    assert_eq!(decode_hex_hash("0a1Bff"), Some(vec![10, 27, 255]));
    assert_eq!(decode_hex_hash("abc"), None);
    assert_eq!(decode_hex_hash("zz"), None);
}

// ---------------------------------------------------------------------------
// Attachments
// ---------------------------------------------------------------------------

use reeknote::cli::{
    audio_playback_confirmation_message, audio_resources, audio_temp_filename, hydrate_note_image_resources,
    is_image_resource, ImageResourceSource,
};
use reeknote::errors::ReeknoteError;
use reeknote::models::{Resource, ResourceData};
use std::collections::BTreeMap;

fn test_resource(mime: &str, filename: &str, body_hash: &str, body: &[u8]) -> Resource {
    Resource {
        guid: body_hash.to_string(),
        mime: Some(mime.to_string()),
        filename: filename.to_string(),
        data: ResourceData { body_hash: body_hash.to_string(), body: body.to_vec(), size: body.len() },
    }
}

#[derive(Default)]
struct TestImageResourceSource {
    data_by_guid: BTreeMap<String, Vec<u8>>,
    resources_by_hash: BTreeMap<(String, Vec<u8>), Resource>,
    requested_guids: Vec<String>,
    requested_hashes: Vec<(String, Vec<u8>)>,
}

impl ImageResourceSource for TestImageResourceSource {
    fn get_image_resource_data(&mut self, guid: &str) -> Result<Vec<u8>, ReeknoteError> {
        self.requested_guids.push(guid.to_string());
        Ok(self.data_by_guid.remove(guid).unwrap_or_default())
    }

    fn get_image_resource_by_hash(&mut self, note_guid: &str, content_hash: &[u8]) -> Result<Resource, ReeknoteError> {
        let key = (note_guid.to_string(), content_hash.to_vec());
        self.requested_hashes.push(key.clone());
        Ok(self.resources_by_hash.remove(&key).unwrap_or_default())
    }
}

#[test]
fn detects_audio_resources() {
    let note = Note {
        resources: vec![
            test_resource("Audio/MPEG", "voice.mp3", "abc", b""),
            test_resource("image/png", "photo.png", "def", b""),
        ],
        ..Note::default()
    };
    let resources = audio_resources(&note);
    assert_eq!(resources.len(), 1);
    assert_eq!(resources[0].filename, "voice.mp3");
}

#[test]
fn detects_image_resources_by_filename() {
    let resource = test_resource("application/octet-stream", "photo.png", "abc", b"");
    assert!(is_image_resource(&resource));
    let resource = test_resource("application/octet-stream", "photo.webp", "abc", b"");
    assert!(is_image_resource(&resource));
}

#[test]
fn hydrates_image_resources_by_filename_and_fills_missing_hash() {
    let body = b"png bytes".to_vec();
    let expected_hash = format!("{:x}", md5::compute(&body));
    let mut source = TestImageResourceSource {
        data_by_guid: BTreeMap::from([("resource-guid".to_string(), body.clone())]),
        ..TestImageResourceSource::default()
    };
    let mut note = Note {
        resources: vec![Resource {
            guid: "resource-guid".to_string(),
            mime: Some("application/octet-stream".to_string()),
            filename: "photo.png".to_string(),
            data: ResourceData::default(),
        }],
        ..Note::default()
    };

    hydrate_note_image_resources(&mut source, &mut note).unwrap();

    assert_eq!(note.resources[0].data.body, body);
    assert_eq!(note.resources[0].data.body_hash, expected_hash);
    assert_eq!(note.resources[0].data.size, 9);
}

#[test]
fn hydrates_image_resources_by_hash_when_guid_is_missing() {
    let hash = "2df3d950b7a4275eb77e2ddda8c8676f";
    let hash_bytes = decode_hex_hash(hash).unwrap();
    let body = b"image bytes".to_vec();
    let mut source = TestImageResourceSource {
        resources_by_hash: BTreeMap::from([(
            ("note-guid".to_string(), hash_bytes.clone()),
            Resource {
                guid: "fetched-guid".to_string(),
                mime: Some("image/png".to_string()),
                filename: "fetched.png".to_string(),
                data: ResourceData { body_hash: hash.to_string(), body: body.clone(), size: body.len() },
            },
        )]),
        ..TestImageResourceSource::default()
    };
    let mut note = Note {
        guid: "note-guid".to_string(),
        resources: vec![Resource {
            guid: String::new(),
            mime: Some("image/png".to_string()),
            filename: "image.png".to_string(),
            data: ResourceData { body_hash: hash.to_string(), body: Vec::new(), size: 0 },
        }],
        ..Note::default()
    };

    hydrate_note_image_resources(&mut source, &mut note).unwrap();

    assert_eq!(source.requested_guids, Vec::<String>::new());
    assert_eq!(source.requested_hashes, vec![("note-guid".to_string(), hash_bytes)]);
    assert_eq!(note.resources[0].guid, "fetched-guid");
    assert_eq!(note.resources[0].filename, "image.png");
    assert_eq!(note.resources[0].data.body, body);
}

#[test]
fn formats_audio_playback_confirmation_for_multiple_resources() {
    let first = test_resource("audio/mpeg", "voice.mp3", "abc", b"");
    let second = test_resource("audio/ogg", "", "abcdef123456", b"");
    let resources = vec![first, second];
    assert_eq!(
        audio_playback_confirmation_message(&resources),
        "Play 2 audio attachments with mpv?\n- voice.mp3\n- audio-abcdef12"
    );
}

#[test]
fn formats_audio_playback_confirmation_for_single_resource() {
    let resource = test_resource("audio/mpeg", "voice.mp3", "abc", b"");
    assert_eq!(
        audio_playback_confirmation_message(&[resource]),
        "Play audio attachment \"voice.mp3\" with mpv?"
    );
}

#[test]
fn falls_back_to_generated_audio_temp_filename() {
    let resource = test_resource("audio/ogg", "", "abcdef123456", b"audio bytes");
    assert_eq!(audio_temp_filename(&resource, 0), "audio-abcdef12.ogg");
}
