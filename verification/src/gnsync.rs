use vstd::prelude::*;
use crate::editor::ImageOptions;
use crate::errors::{fails_invalid, ErrorView, ReeknoteError};
use crate::storage::{get_in, Storage, StoredVal};
use crate::models::opt_str;
use crate::rnsync::SyncFormat;
use crate::text::{chars_eq, chars_of, parse_usize_spec, push_str, string_of, string_views};

verus! {

/// What `gnsync` was asked to do.
#[derive(Clone, Debug, PartialEq, Eq)]
pub struct SyncArgs {
    pub path: String,
    pub notebook: Option<String>,
    pub format: SyncFormat,
    pub count: usize,
    pub mask: Option<String>,
    pub all: bool,
    pub all_linked: bool,
    pub image_options: ImageOptions,
}

pub ghost struct SyncState {
    pub path: Seq<char>,
    pub notebook: Option<Seq<char>>,
    pub format: SyncFormat,
    pub count: usize,
    pub mask: Option<Seq<char>>,
    pub all: bool,
    pub all_linked: bool,
    pub save_images: bool,
    pub images_in_subdir: bool,
}

/// Where parsing starts: the current directory, plain text, 100 notes.
pub open spec fn initial_sync_state() -> SyncState {
    SyncState {
        path: "."@,
        notebook: None,
        format: SyncFormat::Plain,
        count: 100,
        mask: None,
        all: false,
        all_linked: false,
        save_images: false,
        images_in_subdir: false,
    }
}

/// What one option does: go on past one or two arguments, or fail.
pub ghost enum SyncStep {
    One(SyncState),
    Two(SyncState),
    Fail(ErrorView),
}

/// The options that take a value.
pub open spec fn takes_value(a: Seq<char>) -> bool {
    a == "--path"@ || a == "-p"@ || a == "--mask"@ || a == "-m"@ || a == "--notebook"@ || a == "-n"@ || a
        == "--format"@ || a == "-f"@ || a == "--count"@ || a == "--logpath"@ || a == "-l"@
}

/// The format named `value`.
pub open spec fn sync_format_named(value: Seq<char>) -> Option<SyncFormat> {
    if value == "plain"@ {
        Some(SyncFormat::Plain)
    } else if value == "markdown"@ {
        Some(SyncFormat::Markdown)
    } else if value == "html"@ {
        Some(SyncFormat::Html)
    } else {
        None
    }
}

/// The option `a`, with `v` the argument after it.
pub open spec fn value_step(a: Seq<char>, v: Seq<char>, st: SyncState) -> SyncStep {
    if a == "--path"@ || a == "-p"@ {
        SyncStep::Two(SyncState { path: v, ..st })
    } else if a == "--mask"@ || a == "-m"@ {
        SyncStep::Two(SyncState { mask: Some(v), ..st })
    } else if a == "--notebook"@ || a == "-n"@ {
        SyncStep::Two(SyncState { notebook: Some(v), ..st })
    } else if a == "--format"@ || a == "-f"@ {
        match sync_format_named(v) {
            Some(f) => SyncStep::Two(SyncState { format: f, ..st }),
            None => SyncStep::Fail(ErrorView::InvalidInput("unsupported sync format: "@ + v)),
        }
    } else if a == "--count"@ {
        match parse_usize_spec(v) {
            Some(n) => SyncStep::Two(SyncState { count: n, ..st }),
            None => SyncStep::Fail(ErrorView::InvalidInput("--count must be an integer"@)),
        }
    } else {
        SyncStep::Two(st)
    }
}

/// The flag `a`.
pub open spec fn flag_step(a: Seq<char>, st: SyncState) -> SyncStep {
    if a == "--download-only"@ || a == "--sleep-on-ratelimit"@ {
        SyncStep::One(st)
    } else if a == "--all"@ || a == "-a"@ {
        SyncStep::One(SyncState { all: true, ..st })
    } else if a == "--save-images"@ {
        SyncStep::One(SyncState { save_images: true, ..st })
    } else if a == "--images-in-subdir"@ {
        SyncStep::One(SyncState { images_in_subdir: true, ..st })
    } else if a == "--all-linked"@ {
        SyncStep::One(SyncState { all_linked: true, ..st })
    } else if a == "--nodownsync"@ || a == "-d"@ {
        SyncStep::Fail(ErrorView::Unsupported("nodownsync is not useful in download-only mode yet"@))
    } else if a == "--two-way"@ {
        SyncStep::Fail(ErrorView::Unsupported("two-way sync is not implemented in the Rust client yet"@))
    } else {
        SyncStep::Fail(ErrorView::InvalidInput("unexpected argument: "@ + a))
    }
}

/// The argument at `i`.
pub open spec fn sync_step(args: Seq<Seq<char>>, i: int, st: SyncState) -> SyncStep {
    let a = args[i];
    if takes_value(a) {
        if i + 1 < args.len() {
            value_step(a, args[i + 1], st)
        } else {
            SyncStep::Fail(ErrorView::InvalidInput(a + " requires a value"@))
        }
    } else {
        flag_step(a, st)
    }
}

/// The arguments from `i` on, taken in turn; the first error stops.
pub open spec fn parse_sync_from(args: Seq<Seq<char>>, i: int, st: SyncState) -> Result<SyncState, ErrorView>
    decreases args.len() - i,
{
    if i < 0 || i >= args.len() {
        Ok(st)
    } else {
        match sync_step(args, i, st) {
            SyncStep::One(s) => parse_sync_from(args, i + 1, s),
            SyncStep::Two(s) => if i + 2 <= args.len() {
                parse_sync_from(args, i + 2, s)
            } else {
                Ok(s)
            },
            SyncStep::Fail(e) => Err(e),
        }
    }
}

impl View for SyncArgs {
    type V = SyncState;

    open spec fn view(&self) -> SyncState {
        SyncState {
            path: self.path@,
            notebook: opt_str(self.notebook),
            format: self.format,
            count: self.count,
            mask: opt_str(self.mask),
            all: self.all,
            all_linked: self.all_linked,
            save_images: self.image_options.save_images,
            images_in_subdir: self.image_options.images_in_subdir,
        }
    }
}

fn is(a: &[char], word: &str) -> (b: bool)
    ensures
        b == (a@ == word@),
{
    chars_eq(a, chars_of(word).as_slice())
}

fn invalid_with(prefix: &[char], suffix: &str) -> (e: ReeknoteError)
    ensures
        e@ == ErrorView::InvalidInput(prefix@ + suffix@),
{
    let mut m: Vec<char> = Vec::new();
    crate::text::push_all(&mut m, prefix);
    push_str(&mut m, suffix);
    ReeknoteError::InvalidInput(string_of(m.as_slice()))
}

/// The arguments of `gnsync`.
pub fn parse_args(args: Vec<String>) -> (res: Result<SyncArgs, ReeknoteError>)
    ensures
        match parse_sync_from(string_views(args@), 0, initial_sync_state()) {
            Ok(st) => res matches Ok(a) && a@ == st && a.image_options.base_filename is None,
            Err(e) => res matches Err(x) && x@ == e,
        },
{
    let ghost sv = string_views(args@);
    let mut out = SyncArgs {
        path: ".".to_string(),
        notebook: None,
        format: SyncFormat::Plain,
        count: 100,
        mask: None,
        all: false,
        all_linked: false,
        image_options: ImageOptions { save_images: false, images_in_subdir: false, base_filename: None },
    };
    let mut i: usize = 0;
    while i < args.len()
        invariant
            i <= args.len(),
            sv == string_views(args@),
            out.image_options.base_filename is None,
            parse_sync_from(sv, 0, initial_sync_state()) == parse_sync_from(sv, i as int, out@),
        decreases args.len() - i,
    {
        let a = chars_of(args[i].as_str());
        assert(sv[i as int] == a@);
        let ghost st = out@;
        let valued = is(a.as_slice(), "--path") || is(a.as_slice(), "-p") || is(a.as_slice(), "--mask") || is(
            a.as_slice(),
            "-m",
        ) || is(a.as_slice(), "--notebook") || is(a.as_slice(), "-n") || is(a.as_slice(), "--format") || is(
            a.as_slice(),
            "-f",
        ) || is(a.as_slice(), "--count") || is(a.as_slice(), "--logpath") || is(a.as_slice(), "-l");
        if valued {
            if i + 1 >= args.len() {
                return Err(invalid_with(a.as_slice(), " requires a value"));
            }
            let v = args[i + 1].clone();
            assert(sv[i + 1] == v@);
            if is(a.as_slice(), "--path") || is(a.as_slice(), "-p") {
                out.path = v;
            } else if is(a.as_slice(), "--mask") || is(a.as_slice(), "-m") {
                out.mask = Some(v);
            } else if is(a.as_slice(), "--notebook") || is(a.as_slice(), "-n") {
                out.notebook = Some(v);
            } else if is(a.as_slice(), "--format") || is(a.as_slice(), "-f") {
                let vc = chars_of(v.as_str());
                if is(vc.as_slice(), "plain") {
                    out.format = SyncFormat::Plain;
                } else if is(vc.as_slice(), "markdown") {
                    out.format = SyncFormat::Markdown;
                } else if is(vc.as_slice(), "html") {
                    out.format = SyncFormat::Html;
                } else {
                    return Err(invalid_with(chars_of("unsupported sync format: ").as_slice(), v.as_str()));
                }
            } else if is(a.as_slice(), "--count") {
                match crate::text::parse_usize(chars_of(v.as_str()).as_slice()) {
                    Some(n) => out.count = n,
                    None => return Err(ReeknoteError::InvalidInput("--count must be an integer".to_string())),
                }
            }
            assert(sync_step(sv, i as int, st) == SyncStep::Two(out@));
            i += 2;
        } else {
            if is(a.as_slice(), "--download-only") || is(a.as_slice(), "--sleep-on-ratelimit") {
            } else if is(a.as_slice(), "--all") || is(a.as_slice(), "-a") {
                out.all = true;
            } else if is(a.as_slice(), "--save-images") {
                out.image_options.save_images = true;
            } else if is(a.as_slice(), "--images-in-subdir") {
                out.image_options.images_in_subdir = true;
            } else if is(a.as_slice(), "--all-linked") {
                out.all_linked = true;
            } else if is(a.as_slice(), "--nodownsync") || is(a.as_slice(), "-d") {
                return Err(ReeknoteError::Unsupported("nodownsync is not useful in download-only mode yet".to_string()));
            } else if is(a.as_slice(), "--two-way") {
                return Err(ReeknoteError::Unsupported("two-way sync is not implemented in the Rust client yet".to_string()));
            } else {
                return Err(invalid_with(chars_of("unexpected argument: ").as_slice(), args[i].as_str()));
            }
            assert(sync_step(sv, i as int, st) == SyncStep::One(out@));
            i += 1;
        }
    }
    Ok(out)
}

/// The text of `gnsync --help`.
pub open spec fn help_spec() -> Seq<char> {
    "Usage: gnsync [--path PATH] [--notebook NOTEBOOK] [--all] [--all-linked] [--mask MASK] [--format plain|markdown|html] [--count N] [--download-only] [--save-images] [--images-in-subdir]\n\nThis Rust gnsync currently downloads notes to local files only. It does not create, update, or delete Evernote notes.\n"@
}

pub fn help() -> (res: String)
    ensures
        res@ == help_spec(),
{
    "Usage: gnsync [--path PATH] [--notebook NOTEBOOK] [--all] [--all-linked] [--mask MASK] [--format plain|markdown|html] [--count N] [--download-only] [--save-images] [--images-in-subdir]\n\nThis Rust gnsync currently downloads notes to local files only. It does not create, update, or delete Evernote notes.\n".to_string()
}

/// Some argument asks for help (`--help` or `-h`).
pub fn wants_help(args: &[String]) -> (res: bool)
    ensures
        res == exists|i: int| 0 <= i < args@.len() && (args@[i]@ == "--help"@ || args@[i]@ == "-h"@),
{
    let mut i: usize = 0;
    while i < args.len()
        invariant
            i <= args.len(),
            forall|j: int| 0 <= j < i ==> !(args@[j]@ == "--help"@ || args@[j]@ == "-h"@),
        decreases args.len() - i,
    {
        let a = chars_of(args[i].as_str());
        if is(a.as_slice(), "--help") || is(a.as_slice(), "-h") {
            return true;
        }
        i += 1;
    }
    false
}

/// The token to call Evernote with: a non-empty developer token (from
/// `EVERNOTE_DEV_TOKEN`), else the logged-in user's token.
pub fn auth_token(storage: &Storage, dev_token: Option<&str>) -> (res: Result<String, ReeknoteError>)
    requires
        storage.wf(),
    ensures
        (dev_token matches Some(t) && t@.len() > 0) ==> (res matches Ok(r) && r@ == dev_token->0@),
        !(dev_token matches Some(t) && t@.len() > 0) ==> match get_in(storage@.user_props, "oAuthToken"@) {
            Some(StoredVal::Str(t)) => res matches Ok(r) && r@ == t,
            _ => fails_invalid(res, "not logged in; run `geeknote login` or set EVERNOTE_DEV_TOKEN"@),
        },
{
    if let Some(t) = dev_token {
        if !t.is_empty() {
            return Ok(t.to_string());
        }
    }
    match storage.get_user_token() {
        Some(t) => Ok(t),
        None => Err(crate::errors::invalid_input("not logged in; run `geeknote login` or set EVERNOTE_DEV_TOKEN")),
    }
}

} // verus!
