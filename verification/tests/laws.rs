use reeknote::argparser::{default_commands, ValueKind};
use reeknote::config::Config;
use reeknote::editor::{html_escape, html_unescape, kitty_image_command, terminal_image_png, text_to_enml};
use reeknote::models::{ListItem, Note, NoteAttributes, Resource, ResourceData, UserInfo};
use reeknote::out::{items_dates_in_range, note_dates_in_range, show_note, show_note_terminal, timestamp_in_range};
use reeknote::reeknote::{date_in_range, get_time_from_date, reminder_in_range, time_in_range};
use reeknote::storage::{Storage, StoredValue};
use reeknote::strmap::StrMap;
use reeknote::tools::{strip_map, strip_string};

fn readme_note() -> Note {
    Note {
        guid: "note-guid".to_string(),
        title: "Gift Shopping List".to_string(),
        content: text_to_enml("Coffee"),
        notebook_name: Some("Personal".to_string()),
        tag_names: vec!["shopping".to_string(), "gifts".to_string()],
        created: Some(1_424_563_200_000),
        updated: Some(1_424_736_000_000),
        ..Note::default()
    }
}

#[test]
fn shows_a_note_with_its_app_link_and_headings() {
    let config = Config::for_app_dir("/tmp/reeknote-tests", false);
    let output = show_note(&readme_note(), 111, "s1", &config, 0);
    let expected = [
        "################### URL ###################\n",
        "NoteLink: evernote:///view/111/s1/note-guid/note-guid/\n",
        "WebClientURL: https://www.evernote.com/shard/s1/nl/111/note-guid\n",
        "################## TITLE ##################\n",
        "Gift Shopping List\n",
        "=================== META ==================\n",
        "Notebook: Personal\n",
        "Tags: shopping, gifts\n",
        "Created: 2015-02-22\n",
        "Updated: 2015-02-24\n",
        "||||||||||||||| REMINDERS |||||||||||||||||\n",
        "Order: None\n",
        "Time: None\n",
        "Done: None\n",
        "---------------- CONTENT -----------------\n",
    ]
    .concat();
    assert!(output.starts_with(&expected), "{output}");
    assert!(output[expected.len()..].contains("Coffee"));
}

#[test]
fn find_takes_its_search_first_and_counts_as_an_integer() {
    let commands = default_commands();
    let find = commands.iter().find(|c| c.name == "find").unwrap();
    assert_eq!(find.first_arg, Some("--search"));
    assert_eq!(find.help, "Search notes in Evernote.");
    assert!(find.flags.iter().any(|o| o.name == "--with-url" && o.help == "Show web URLs."));
    assert!(find.arguments.iter().any(|o| o.name == "--count" && o.value_kind == ValueKind::Int));
    assert!(find.arguments.iter().any(|o| o.name == "--tag" && o.repetitive));
    assert!(!find.arguments.iter().any(|o| o.name == "--notebook" && o.repetitive));
    let create = commands.iter().find(|c| c.name == "create").unwrap();
    assert!(create.arguments.iter().any(|o| o.name == "--title" && o.required && o.alt_name == Some("-t")));
    assert_eq!(commands.len(), 20);
}

#[test]
fn stripped_keys_keep_the_later_value() {
    let mut values: StrMap<String> = StrMap::new();
    values.insert(" a".to_string(), "1".to_string());
    values.insert("\"a\"".to_string(), "2".to_string());
    values.insert("a".to_string(), "3".to_string());
    values.insert("b ".to_string(), " 4 ".to_string());
    let stripped = strip_map(&values);
    assert_eq!(stripped.len(), 2);
    assert_eq!(stripped.get("a"), Some(&"3".to_string()));
    assert_eq!(stripped.get("b"), Some(&" 4 ".to_string()));
}

#[test]
fn stripping_twice_is_stripping_once() {
    for text in [" \"'a b' \" ", "plain", "\t\n", "' inner \" quote '"] {
        let once = strip_string(text);
        assert_eq!(strip_string(&once), once);
    }
    assert_eq!(strip_string(" \"'a b' \" "), "a b");
}

#[test]
fn unescaping_an_escaped_text_gives_it_back() {
    for text in ["a < b & \"c\" 'd' > e", "&amp; &lt; &quot;", "plain", ""] {
        assert_eq!(html_unescape(&html_escape(text)), text);
    }
    assert_eq!(html_escape("<a & b>"), "&lt;a &amp; b&gt;");
    assert_eq!(html_unescape("&nbsp;"), " ");
}

#[test]
fn a_time_of_day_adds_to_its_date() {
    assert_eq!(get_time_from_date("1970-01-01"), Ok(1000));
    assert_eq!(get_time_from_date("1970-01-01 01:02"), Ok(1000 + 3_720_000));
    let day = get_time_from_date("2015-02-22").unwrap();
    assert_eq!(get_time_from_date("2015-02-22 10:30"), Ok(day + (10 * 3600 + 30 * 60) * 1000));
    assert!(get_time_from_date("2015-13-22 10:30").is_err());
}

#[test]
fn tells_which_dates_fit_in_range() {
    assert!(time_in_range("1970-01-01", 0));
    assert!(time_in_range("not a date", 0));
    assert!(!time_in_range("300000000-01-01", 0));
    assert!(date_in_range("2015-01-01/2015-02-01"));
    assert!(!date_in_range("2015-01-01/300000000-01-01"));
    assert!(reminder_in_range("TOMORROW", 0));
    assert!(!reminder_in_range("TOMORROW", i64::MAX - 10));
    assert!(!reminder_in_range("300000000-01-01", 0));
    assert!(timestamp_in_range(Some(i64::MAX), 86_400));
    assert!(timestamp_in_range(Some(0), i64::MIN));
    assert!(!timestamp_in_range(Some(-1), i64::MIN));
    assert!(timestamp_in_range(None, i64::MIN));
    let mut note = readme_note();
    assert!(note_dates_in_range(&note, 0));
    note.attributes = NoteAttributes { reminder_time: Some(-1), ..NoteAttributes::default() };
    assert!(!note_dates_in_range(&note, i64::MIN));
    let items = vec![ListItem::Note(readme_note()), ListItem::Note(note)];
    assert!(items_dates_in_range(&items, 0));
    assert!(!items_dates_in_range(&items, i64::MAX));
}

#[test]
fn shows_images_as_png_only_when_they_decode() {
    let mut png = std::io::Cursor::new(Vec::new());
    image::DynamicImage::ImageRgb8(image::RgbImage::new(2, 2))
        .write_to(&mut png, image::ImageFormat::Png)
        .unwrap();
    let resource = |body: Vec<u8>| Resource {
        guid: "r".to_string(),
        mime: Some("image/png".to_string()),
        filename: "image.png".to_string(),
        data: ResourceData { body_hash: "h".to_string(), size: body.len(), body },
    };
    let shown = terminal_image_png(&resource(png.into_inner())).expect("a PNG decodes");
    assert_eq!(&shown[..8], b"\x89PNG\r\n\x1a\n");
    assert_eq!(terminal_image_png(&resource(b"not an image".to_vec())), None);
    assert_eq!(terminal_image_png(&resource(Vec::new())), None);
}

#[test]
fn user_properties_list_the_details_then_the_token() {
    let mut storage = Storage::memory();
    storage.create_user("tok".to_string(), UserInfo {
        username: "tester".to_string(),
        ..UserInfo::default()
    }).unwrap();
    let props = storage.get_userprops();
    assert_eq!(props.len(), 2);
    assert!(matches!(props[0].get("info"), Some(StoredValue::UserInfo(u)) if u.username == "tester"));
    assert_eq!(props[1].get("oAuthToken"), Some(&StoredValue::String("tok".to_string())));
    storage.remove_user().unwrap();
    assert!(storage.get_userprops().is_empty());
}

#[test]
fn encodes_paths_in_standard_base64() {
    assert_eq!(kitty_image_command("Man"), "\x1b_Ga=T,t=f,f=100,q=2;TWFu\x1b\\");
    assert_eq!(kitty_image_command("Ma"), "\x1b_Ga=T,t=f,f=100,q=2;TWE=\x1b\\");
    assert_eq!(kitty_image_command("M"), "\x1b_Ga=T,t=f,f=100,q=2;TQ==\x1b\\");
    assert_eq!(kitty_image_command("/tmp/é?"), "\x1b_Ga=T,t=f,f=100,q=2;L3RtcC/DqT8=\x1b\\");
}

#[test]
fn shows_a_note_in_the_terminal_as_header_then_body() {
    let config = Config::for_app_dir("/tmp/reeknote-tests", false);
    let note = readme_note();
    let output = show_note_terminal(&note, 111, "s1", &config, 0, None);
    let header = show_note(&Note { content: String::new(), ..note.clone() }, 111, "s1", &config, 0);
    assert!(output.starts_with(&header));
    assert_eq!(&output[header.len()..], reeknote::editor::enml_to_terminal_text_with_options(&note.content, &note.resources, None));
    assert!(output[header.len()..].contains("Coffee"));
}
