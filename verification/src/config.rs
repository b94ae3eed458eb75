use vstd::prelude::*;
use crate::text::{chars_of, string_of, push_str, push_all};

verus! {

pub const DEF_UNIX_EDITOR: &'static str = "nano";
pub const DEF_WIN_EDITOR: &'static str = "notepad.exe";
pub const EDITOR_OPEN: &'static str = "WRITE";

pub const REMINDER_NONE: &'static str = "NONE";
pub const REMINDER_DONE: &'static str = "DONE";
pub const REMINDER_DELETE: &'static str = "DELETE";

pub const DEF_DATE_FORMAT: &'static str = "%Y-%m-%d";
pub const DEF_DATE_AND_TIME_FORMAT: &'static str = "%Y-%m-%d %H:%M";
pub const DEF_DATE_RANGE_DELIMITER: char = '/';

pub const DEFAULT_NOTE_EXT_MARKDOWN: &'static str = ".markdown";
pub const DEFAULT_NOTE_EXT_RAW: &'static str = ".org";

pub const CONSUMER_KEY: &'static str = "skaizer-5314";
pub const CONSUMER_SECRET: &'static str = "6f4f9183b3120801";
pub const NOTE_SORT_ORDER: &'static str = "UPDATED";

/// Where the application keeps its files and which Evernote service it talks to.
#[derive(Clone, Debug, PartialEq, Eq)]
pub struct Config {
    pub app_dir: String,
    pub error_log: String,
    pub user_base_url: String,
    pub user_store_uri: String,
    pub note_webclient_url: String,
    pub note_link: String,
}

/// `Path::join` of a relative name onto a directory.
pub open spec fn path_join_spec(dir: Seq<char>, name: Seq<char>) -> Seq<char> {
    if dir.len() == 0 {
        name
    } else if dir.last() == '/' {
        dir + name
    } else {
        dir + seq!['/'] + name
    }
}

/// Joins a relative file name onto a directory path.
pub fn path_join(dir: &str, name: &str) -> (res: String)
    ensures
        res@ == path_join_spec(dir@, name@),
{
    let d = chars_of(dir);
    let mut out = d.clone();
    if d.len() > 0 && d[d.len() - 1] != '/' {
        out.push('/');
    }
    push_str(&mut out, name);
    string_of(out.as_slice())
}

pub open spec fn base_url_spec(yinxiang: bool) -> Seq<char> {
    if yinxiang {
        "app.yinxiang.com"@
    } else {
        "www.evernote.com"@
    }
}

impl Config {
    /// The configuration for the application directory `app_dir`; `yinxiang`
    /// selects the Yinxiang Biji service instead of Evernote.
    pub fn for_app_dir(app_dir: &str, yinxiang: bool) -> (res: Config)
        ensures
            res.app_dir@ == app_dir@,
            res.error_log@ == path_join_spec(app_dir@, "error.log"@),
            res.user_base_url@ == base_url_spec(yinxiang),
            res.user_store_uri@ == "https://"@ + base_url_spec(yinxiang) + "/edam/user"@,
            res.note_webclient_url@ == "https://"@ + base_url_spec(yinxiang)
                + "/Home.action?#n=%s"@,
            res.note_link@ == "https://"@ + base_url_spec(yinxiang) + "/shard/%s/nl/%s/%s"@,
    {
        let base = if yinxiang { "app.yinxiang.com" } else { "www.evernote.com" };
        let b = chars_of(base);
        let mut store = chars_of("https://");
        push_all(&mut store, b.as_slice());
        let mut web = store.clone();
        let mut link = store.clone();
        push_str(&mut store, "/edam/user");
        push_str(&mut web, "/Home.action?#n=%s");
        push_str(&mut link, "/shard/%s/nl/%s/%s");
        Config {
            app_dir: app_dir.to_string(),
            error_log: path_join(app_dir, "error.log"),
            user_base_url: base.to_string(),
            user_store_uri: string_of(store.as_slice()),
            note_webclient_url: string_of(web.as_slice()),
            note_link: string_of(link.as_slice()),
        }
    }
}

/// The offsets in milliseconds that the reminder words `TOMORROW` and `WEEK` stand for.
pub fn reminder_shortcut(value: &str) -> (res: Option<i64>)
    ensures
        res == (if value@ == "TOMORROW"@ {
            Some(86_400_000i64)
        } else if value@ == "WEEK"@ {
            Some(604_800_000i64)
        } else {
            None
        }),
{
    let v = chars_of(value);
    if crate::text::chars_eq(v.as_slice(), chars_of("TOMORROW").as_slice()) {
        Some(86_400_000)
    } else if crate::text::chars_eq(v.as_slice(), chars_of("WEEK").as_slice()) {
        Some(604_800_000)
    } else {
        None
    }
}

} // verus!
