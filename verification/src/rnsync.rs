use vstd::prelude::*;
use crate::editor::{en_note_ok, enml_to_text_spec, ImageOptions, TextFormat};
use crate::models::{opt_str, Note, Resource, ResourceView};
use crate::strmap::StrMap;
use crate::text::{chars_of, find_spec, hex_spec, lines_spec, md5_digest, push_all, push_str, replace_spec, split_once_spec, starts_with_spec, string_of, trim_ws, views};

verus! {

// ---------------------------------------------------------------------------
// Control characters
// ---------------------------------------------------------------------------

/// The C0 controls but tab, line feed, vertical tab, form feed and carriage
/// return; delete; and the C1 controls.
pub open spec fn is_control(c: char) -> bool {
    let n = c as u32;
    n <= 0x08 || (0x0e <= n && n <= 0x1f) || (0x7f <= n && n <= 0x9f)
}

pub open spec fn kept(c: char) -> bool {
    !is_control(c)
}

/// The characters that are kept.
pub open spec fn keep() -> spec_fn(char) -> bool {
    |c: char| kept(c)
}

/// `value` without its control characters.
pub open spec fn remove_control_spec(value: Seq<char>) -> Seq<char> {
    value.filter(keep())
}

pub fn remove_control_characters(value: &str) -> (res: String)
    ensures
        res@ == remove_control_spec(value@),
{
    let v = chars_of(value);
    let mut out: Vec<char> = Vec::new();
    let mut i: usize = 0;
    while i < v.len()
        invariant
            i <= v.len(),
            v@ == value@,
            out@ == v@.take(i as int).filter(keep()),
        decreases v.len() - i,
    {
        let c = v[i];
        let code = c as u32;
        if !(code <= 0x08 || (0x0e <= code && code <= 0x1f) || (0x7f <= code && code <= 0x9f)) {
            out.push(c);
        }
        assert(v@.take(i + 1).drop_last() =~= v@.take(i as int));
        proof {
            reveal(Seq::filter);
        }
        i += 1;
    }
    assert(v@.take(i as int) =~= v@);
    string_of(out.as_slice())
}

/// What `remove_control_characters` gives back holds no control character.
pub proof fn lemma_no_control_left(value: Seq<char>)
    ensures
        forall|i: int| 0 <= i < remove_control_spec(value).len() ==> !is_control(
            #[trigger] remove_control_spec(value)[i],
        ),
{
    broadcast use Seq::lemma_filter_pred;
    assert forall|i: int| 0 <= i < remove_control_spec(value).len() implies !is_control(
        #[trigger] remove_control_spec(value)[i],
    ) by {
        value.lemma_filter_pred(keep(), i);
    }
}

proof fn lemma_filter_kept_twice(s: Seq<char>)
    ensures
        s.filter(keep()).filter(keep()) == s.filter(keep()),
    decreases s.len(),
{
    reveal(Seq::filter);
    if s.len() > 0 {
        lemma_filter_kept_twice(s.drop_last());
        let f = s.drop_last().filter(keep());
        if kept(s.last()) {
            assert(f.push(s.last()).drop_last() =~= f);
        }
    }
}

/// Removing control characters a second time changes nothing.
pub proof fn lemma_remove_control_idempotent(value: Seq<char>)
    ensures
        remove_control_spec(remove_control_spec(value)) == remove_control_spec(value),
{
    lemma_filter_kept_twice(value);
}

/// Text without control characters is left as it is.
pub proof fn lemma_remove_control_keeps_clean(value: Seq<char>)
    requires
        forall|i: int| 0 <= i < value.len() ==> !is_control(#[trigger] value[i]),
    ensures
        remove_control_spec(value) == value,
    decreases value.len(),
{
    reveal(Seq::filter);
    if value.len() > 0 {
        assert forall|i: int| 0 <= i < value.drop_last().len() implies !is_control(#[trigger] value.drop_last()[i]) by {
            assert(value.drop_last()[i] == value[i]);
        }
        lemma_remove_control_keeps_clean(value.drop_last());
        assert(!is_control(value[value.len() - 1]));
        assert(value.drop_last().push(value.last()) =~= value);
    }
}

// ---------------------------------------------------------------------------
// Formats and files
// ---------------------------------------------------------------------------

/// The formats that notes are synchronised in.
#[derive(Clone, Copy, Debug, Default, PartialEq, Eq, Structural)]
pub enum SyncFormat {
    #[default]
    Plain,
    Markdown,
    Html,
}

impl SyncFormat {
    pub open spec fn extension_spec(&self) -> Seq<char> {
        match self {
            SyncFormat::Plain => ".txt"@,
            SyncFormat::Markdown => ".md"@,
            SyncFormat::Html => ".html"@,
        }
    }

    pub open spec fn text_format_spec(&self) -> TextFormat {
        match self {
            SyncFormat::Plain => TextFormat::Plain,
            SyncFormat::Markdown => TextFormat::Markdown,
            SyncFormat::Html => TextFormat::Html,
        }
    }

    /// The file extension of the format, with its dot.
    pub fn extension(&self) -> (res: &'static str)
        ensures
            res@ == self.extension_spec(),
    {
        match self {
            SyncFormat::Plain => ".txt",
            SyncFormat::Markdown => ".md",
            SyncFormat::Html => ".html",
        }
    }

    /// The text format that notes are written in.
    pub fn text_format(&self) -> (res: TextFormat)
        ensures
            res == self.text_format_spec(),
    {
        match self {
            SyncFormat::Plain => TextFormat::Plain,
            SyncFormat::Markdown => TextFormat::Markdown,
            SyncFormat::Html => TextFormat::Html,
        }
    }
}

/// A file of the synchronised directory: its path, its name without the
/// extension, and when it was last changed (milliseconds since 1970).
#[derive(Clone, Debug, PartialEq, Eq)]
pub struct SyncFile {
    pub path: String,
    pub name: String,
    pub mtime_ms: i64,
}

/// The extension, with its dot, that a mask `*.ext` asks for; any other mask
/// asks for none.
pub open spec fn extension_filter_spec(mask: Seq<char>) -> Option<Seq<char>> {
    if starts_with_spec(mask, "*."@) {
        Some("."@ + mask.skip(2))
    } else {
        None
    }
}

pub fn extension_filter(mask: &str) -> (res: Option<String>)
    ensures
        match extension_filter_spec(mask@) {
            Some(e) => res matches Some(r) && r@ == e,
            None => res is None,
        },
{
    let m = chars_of(mask);
    proof {
        reveal_strlit("*.");
    }
    if crate::text::starts_with(m.as_slice(), chars_of("*.").as_slice()) {
        let mut e = chars_of(".");
        push_all(&mut e, crate::text::slice_to_vec(m.as_slice(), 2, m.len()).as_slice());
        assert(e@ =~= "."@ + mask@.skip(2));
        Some(string_of(e.as_slice()))
    } else {
        None
    }
}

/// A file with the extension `extension` (without its dot) passes `filter`.
pub open spec fn passes_filter(filter: Option<Seq<char>>, extension: Option<Seq<char>>) -> bool {
    match filter {
        None => true,
        Some(f) => extension matches Some(e) && "."@ + e == f,
    }
}

pub fn matches_extension(filter: Option<&str>, extension: Option<&str>) -> (res: bool)
    ensures
        res == passes_filter(crate::reeknote::opt_seq(filter), crate::reeknote::opt_seq(extension)),
{
    match filter {
        None => true,
        Some(f) => match extension {
            Some(e) => {
                let mut d = chars_of(".");
                push_str(&mut d, e);
                crate::text::chars_eq(d.as_slice(), chars_of(f).as_slice())
            },
            None => false,
        },
    }
}

// ---------------------------------------------------------------------------
// Front matter
// ---------------------------------------------------------------------------

/// The `key: value` lines of front matter, each trimmed; a later key wins.
pub open spec fn meta_entries(lines: Seq<Seq<char>>) -> Map<Seq<char>, Seq<char>>
    decreases lines.len(),
{
    if lines.len() == 0 {
        Map::empty()
    } else {
        let m = meta_entries(lines.drop_last());
        match split_once_spec(lines.last(), ":"@) {
            Some((k, v)) => m.insert(trim_ws(k), trim_ws(v)),
            None => m,
        }
    }
}

/// The front matter of a file between `---` lines, and what follows it as
/// `content`; a file without front matter is all content.
pub open spec fn parse_meta_spec(content: Seq<char>) -> Map<Seq<char>, Seq<char>> {
    let rest = content.skip(3);
    if starts_with_spec(content, "---"@) && find_spec(rest, "---"@) is Some {
        let end = find_spec(rest, "---"@)->0;
        meta_entries(lines_spec(rest.take(end))).insert("content"@, rest.skip(end + 3))
    } else {
        Map::empty().insert("content"@, content)
    }
}

pub fn parse_meta(content: &str) -> (res: StrMap<String>)
    ensures
        res.wf(),
        res.map_view() == parse_meta_spec(content@),
{
    let c = chars_of(content);
    let dashes = chars_of("---");
    proof {
        reveal_strlit("---");
        reveal_strlit(":");
    }
    let mut result: StrMap<String> = StrMap::new();
    assert(result.map_view() =~= Map::<Seq<char>, Seq<char>>::empty());
    if crate::text::starts_with(c.as_slice(), dashes.as_slice()) {
        let rest = crate::text::slice_to_vec(c.as_slice(), 3, c.len());
        assert(rest@ =~= content@.skip(3));
        if let Some(end) = crate::text::find(rest.as_slice(), dashes.as_slice()) {
            let meta = crate::text::slice_to_vec(rest.as_slice(), 0, end);
            let ls = crate::text::lines(meta.as_slice());
            let colon = chars_of(":");
            let mut i: usize = 0;
            while i < ls.len()
                invariant
                    i <= ls.len(),
                    colon@ == ":"@,
                    result.wf(),
                    result.map_view() == meta_entries(views(ls@).take(i as int)),
                decreases ls.len() - i,
            {
                assert(views(ls@)[i as int] == ls@[i as int]@);
                let ghost before = result.map_view();
                match crate::text::split_once(ls[i].as_slice(), colon.as_slice()) {
                    Some((k, v)) => {
                        let kt = crate::text::trim(k.as_slice());
                        let vt = crate::text::trim(v.as_slice());
                        result.insert(string_of(kt.as_slice()), string_of(vt.as_slice()));
                        assert(result.map_view() =~= before.insert(kt@, vt@));
                    },
                    None => {},
                }
                assert(views(ls@).take(i + 1).drop_last() =~= views(ls@).take(i as int));
                i += 1;
            }
            assert(views(ls@).take(i as int) =~= views(ls@));
            let ghost before = result.map_view();
            let tail = crate::text::slice_to_vec(rest.as_slice(), end + 3, rest.len());
            result.insert("content".to_string(), string_of(tail.as_slice()));
            assert(result.map_view() =~= before.insert("content"@, tail@));
            return result;
        }
    }
    result.insert("content".to_string(), content.to_string());
    assert(result.map_view() =~= Map::<Seq<char>, Seq<char>>::empty().insert("content"@, content@));
    result
}

// ---------------------------------------------------------------------------
// Exporting notes
// ---------------------------------------------------------------------------

/// A name with the path separator `/` replaced by `-`.
pub open spec fn escape_spec(value: Seq<char>) -> Seq<char> {
    replace_spec(value, "/"@, "-"@)
}

/// An escaped title has no path separator, so the file named after it
/// stays in the directory it is written to; it is as long as the title.
pub proof fn lemma_escaped_title_has_no_separator(value: Seq<char>)
    ensures
        escape_spec(value).len() == value.len(),
        forall|i: int| 0 <= i < escape_spec(value).len() ==> escape_spec(value)[i] != '/',
    decreases value.len(),
{
    reveal_strlit("/");
    reveal_strlit("-");
    if value.len() > 0 {
        lemma_escaped_title_has_no_separator(value.skip(1));
        let rest = escape_spec(value.skip(1));
        if value[0] == '/' {
            assert(value.subrange(0, 1) =~= "/"@);
            assert(escape_spec(value) == "-"@ + rest);
        } else {
            assert(value.subrange(0, 1)[0] == value[0]);
            assert(!crate::text::matches_at(value, 0, "/"@));
            assert(escape_spec(value) == seq![value[0]] + rest);
        }
        assert forall|i: int| 0 <= i < escape_spec(value).len() implies escape_spec(value)[i] != '/' by {
            if i > 0 {
                assert(escape_spec(value)[i] == rest[i - 1]);
            }
        }
    }
}

pub fn escape_path_component(value: &str) -> (res: String)
    ensures
        res@ == escape_spec(value@),
{
    proof {
        reveal_strlit("/");
    }
    string_of(crate::text::replace_str(chars_of(value).as_slice(), "/", "-").as_slice())
}

/// The file extension of an image type: `svg` for `image/svg+xml`, `jpg`
/// for `image/jpeg`, the subtype of any other `image/...`; none for other types.
pub open spec fn image_extension_spec(mime: Seq<char>) -> Option<Seq<char>> {
    if starts_with_spec(mime, "image/"@) {
        let e = mime.skip(6);
        Some(if e == "svg+xml"@ {
            "svg"@
        } else if e == "jpeg"@ {
            "jpg"@
        } else {
            e
        })
    } else {
        None
    }
}

pub fn image_extension(mime: &str) -> (res: Option<String>)
    ensures
        match image_extension_spec(mime@) {
            Some(e) => res matches Some(r) && r@ == e,
            None => res is None,
        },
{
    let m = chars_of(mime);
    proof {
        reveal_strlit("image/");
    }
    if !crate::text::starts_with(m.as_slice(), chars_of("image/").as_slice()) {
        return None;
    }
    let e = crate::text::slice_to_vec(m.as_slice(), 6, m.len());
    assert(e@ =~= mime@.skip(6));
    if crate::text::chars_eq(e.as_slice(), chars_of("svg+xml").as_slice()) {
        Some("svg".to_string())
    } else if crate::text::chars_eq(e.as_slice(), chars_of("jpeg").as_slice()) {
        Some("jpg".to_string())
    } else {
        Some(string_of(e.as_slice()))
    }
}

/// The hash that names a resource's file: its body hash, or else the MD5
/// digest of its body in hex.
pub open spec fn resource_hash_spec(r: ResourceView) -> Seq<char> {
    if r.body_hash.len() > 0 {
        r.body_hash
    } else {
        hex_spec(md5_digest(r.body))
    }
}

pub fn resource_hash(resource: &Resource) -> (res: String)
    ensures
        res@ == resource_hash_spec(resource@),
{
    if !resource.data.body_hash.as_str().is_empty() {
        return resource.data.body_hash.clone();
    }
    crate::text::md5_hex(resource.data.body.as_slice())
}

/// A file to write: its name and its bytes.
#[derive(Clone, Debug, PartialEq, Eq)]
pub struct ImageFile {
    pub name: String,
    pub body: Vec<u8>,
}

/// What exporting a note writes: the note's file (name and text), the
/// directory of its images (relative to the export directory; none means
/// the export directory itself) and the image files.
#[derive(Clone, Debug, PartialEq, Eq)]
pub struct NoteExport {
    pub file_name: String,
    pub content: String,
    pub image_dir: Option<String>,
    pub images: Vec<ImageFile>,
}

/// The image files of the resources with an image type and a body: named
/// after the note, the resource's hash and the image extension.
pub open spec fn export_images(rs: Seq<ResourceView>, escaped: Seq<char>) -> Seq<(Seq<char>, Seq<u8>)>
    decreases rs.len(),
{
    if rs.len() == 0 {
        Seq::empty()
    } else {
        let prev = export_images(rs.drop_last(), escaped);
        let r = rs.last();
        match r.mime {
            Some(m) => match image_extension_spec(m) {
                Some(ext) => if r.body.len() > 0 {
                    prev.push((escaped + "-"@ + resource_hash_spec(r) + "."@ + ext, r.body))
                } else {
                    prev
                },
                None => prev,
            },
            None => prev,
        }
    }
}

/// An image type gets the same file extension where its file is written and
/// where the note's text refers to it: the extension that the reference to a
/// media element of type `mime` uses (and that `media_extension_spec` gives).
pub proof fn lemma_image_extension_as_referenced(mime: Seq<char>)
    requires
        starts_with_spec(mime, "image/"@),
    ensures
        image_extension_spec(mime) == Some(crate::editor::image_file_extension(mime.skip(6))),
        crate::editor::media_extension_spec(mime) == image_extension_spec(mime),
{
    reveal_strlit("image/");
    reveal_strlit("image/jpeg");
    reveal_strlit("image/svg+xml");
    reveal_strlit("jpeg");
    reveal_strlit("svg+xml");
    assert("image/"@ + "jpeg"@ =~= "image/jpeg"@);
    assert("image/"@ + "svg+xml"@ =~= "image/svg+xml"@);
    assert(mime.subrange(0, 6) =~= "image/"@);
    assert(mime =~= "image/"@ + mime.skip(6));
    if mime == "image/jpeg"@ {
        assert(mime.skip(6) =~= "jpeg"@);
    } else if mime == "image/svg+xml"@ {
        assert(mime.skip(6) =~= "svg+xml"@);
    } else {
        if mime.skip(6) == "jpeg"@ {
            assert(mime =~= "image/"@ + mime.skip(6));
        }
        if mime.skip(6) == "svg+xml"@ {
            assert(mime =~= "image/"@ + mime.skip(6));
        }
        assert(mime.subrange(0, 6) =~= "image/"@);
    }
}

/// The name by which a note's text refers to the saved image of `r`: the
/// base name, `-`, the resource's hash, `.` and the extension that the
/// reference uses for an image type.
pub open spec fn referenced_image_name(r: ResourceView, escaped: Seq<char>) -> Option<Seq<char>> {
    match r.mime {
        Some(m) => if starts_with_spec(m, "image/"@) {
            Some(escaped + "-"@ + resource_hash_spec(r) + "."@ + crate::editor::image_file_extension(m.skip(6)))
        } else {
            None
        },
        None => None,
    }
}

/// Every image file that an export writes is the body of one of the note's
/// resources, named as the note's text refers to that resource's image.
pub proof fn lemma_export_images_as_referenced(rs: Seq<ResourceView>, escaped: Seq<char>)
    ensures
        forall|k: int|
            #![trigger export_images(rs, escaped)[k]]
            0 <= k < export_images(rs, escaped).len() ==> exists|j: int|
                0 <= j < rs.len() && #[trigger] referenced_image_name(rs[j], escaped) == Some(
                    export_images(rs, escaped)[k].0,
                ) && export_images(rs, escaped)[k].1 == rs[j].body,
    decreases rs.len(),
{
    if rs.len() > 0 {
        let init = rs.drop_last();
        lemma_export_images_as_referenced(init, escaped);
        let prev = export_images(init, escaped);
        let cur = export_images(rs, escaped);
        let r = rs.last();
        assert forall|k: int| #![trigger cur[k]] 0 <= k < cur.len() implies exists|j: int|
            0 <= j < rs.len() && #[trigger] referenced_image_name(rs[j], escaped) == Some(cur[k].0) && cur[k].1
                == rs[j].body by {
            if k < prev.len() {
                let j = choose|j: int|
                    0 <= j < init.len() && #[trigger] referenced_image_name(init[j], escaped) == Some(prev[k].0)
                        && prev[k].1 == init[j].body;
                assert(init[j] == rs[j]);
                assert(cur[k] == prev[k]);
                assert(referenced_image_name(rs[j], escaped) == Some(cur[k].0));
            } else {
                let j = rs.len() - 1;
                assert(rs[j] == r);
                let m = r.mime->0;
                reveal_strlit("image/");
                assert(image_extension_spec(m) is Some);
                lemma_image_extension_as_referenced(m);
                assert(referenced_image_name(rs[j], escaped) == Some(cur[k].0));
            }
        }
    }
}

/// The base name that saved images are referred to by.
pub open spec fn image_base(options: ImageOptions, escaped: Seq<char>) -> Option<Seq<char>> {
    if options.save_images {
        Some(if options.images_in_subdir { escaped + "_images/"@ + escaped } else { escaped })
    } else {
        opt_str(options.base_filename)
    }
}

/// The text of an exported note, without control characters.
pub open spec fn export_text(note_content: Seq<char>, format: SyncFormat, options: ImageOptions, escaped: Seq<char>) -> Seq<char> {
    remove_control_spec(
        enml_to_text_spec(
            note_content,
            format.text_format_spec(),
            options.save_images,
            image_base(options, escaped),
            Seq::empty(),
            false,
            None,
        ),
    )
}

pub open spec fn image_file_views(v: Seq<ImageFile>) -> Seq<(Seq<char>, Seq<u8>)> {
    v.map_values(|f: ImageFile| (f.name@, f.body@))
}

fn push_image_files(out: &mut Vec<ImageFile>, resources: &Vec<Resource>, escaped: &str)
    ensures
        image_file_views(final(out)@) == image_file_views(old(out)@) + export_images(
            crate::models::resource_views(resources@),
            escaped@,
        ),
{
    let ghost rv = crate::models::resource_views(resources@);
    let mut i: usize = 0;
    while i < resources.len()
        invariant
            i <= resources.len(),
            rv == crate::models::resource_views(resources@),
            image_file_views(out@) == image_file_views(old(out)@) + export_images(rv.take(i as int), escaped@),
        decreases resources.len() - i,
    {
        let r = &resources[i];
        assert(rv[i as int] == r@);
        assert(rv.take(i + 1).drop_last() =~= rv.take(i as int));
        assert(rv.take(i + 1).last() == r@);
        let ghost before = out@;
        if let Some(m) = &r.mime {
            if let Some(ext) = image_extension(m.as_str()) {
                if r.data.body.len() > 0 {
                    let mut name = chars_of(escaped);
                    name.push('-');
                    push_str(&mut name, resource_hash(r).as_str());
                    name.push('.');
                    push_str(&mut name, ext.as_str());
                    proof {
                        reveal_strlit("-");
                        reveal_strlit(".");
                    }
                    assert(name@ =~= escaped@ + "-"@ + resource_hash_spec(r@) + "."@ + ext@);
                    let f = ImageFile { name: string_of(name.as_slice()), body: crate::models::copy_bytes(&r.data.body) };
                    out.push(f);
                    assert(image_file_views(out@) =~= image_file_views(before).push((f.name@, f.body@)));
                    assert(export_images(rv.take(i + 1), escaped@) == export_images(rv.take(i as int), escaped@).push((f.name@, f.body@)));
                } else {
                    assert(export_images(rv.take(i + 1), escaped@) == export_images(rv.take(i as int), escaped@));
                }
            } else {
                assert(export_images(rv.take(i + 1), escaped@) == export_images(rv.take(i as int), escaped@));
            }
        } else {
            assert(export_images(rv.take(i + 1), escaped@) == export_images(rv.take(i as int), escaped@));
        }
        assert(image_file_views(out@) =~= image_file_views(old(out)@) + export_images(rv.take(i + 1), escaped@));
        i += 1;
    }
    assert(rv.take(i as int) =~= rv);
}

/// What exporting `note` in `format` writes (see `NoteExport`).
pub fn note_export(note: &Note, format: SyncFormat, image_options: &ImageOptions) -> (res: NoteExport)
    requires
        en_note_ok(note.content@),
    ensures
        res.file_name@ == escape_spec(note.title@) + format.extension_spec(),
        res.content@ == export_text(note.content@, format, *image_options, escape_spec(note.title@)),
        opt_str(res.image_dir) == (if image_options.save_images && image_options.images_in_subdir {
            Some(escape_spec(note.title@) + "_images"@)
        } else {
            None
        }),
        image_file_views(res.images@) == (if image_options.save_images {
            export_images(crate::models::resource_views(note.resources@), escape_spec(note.title@))
        } else {
            Seq::empty()
        }),
{
    let escaped = escape_path_component(note.title.as_str());
    let mut options = image_options.clone();
    let mut image_dir: Option<String> = None;
    let mut images: Vec<ImageFile> = Vec::new();
    if image_options.save_images {
        let base = if image_options.images_in_subdir {
            let mut b = chars_of(escaped.as_str());
            push_str(&mut b, "_images/");
            push_str(&mut b, escaped.as_str());
            string_of(b.as_slice())
        } else {
            escaped.clone()
        };
        options = ImageOptions {
            save_images: image_options.save_images,
            images_in_subdir: image_options.images_in_subdir,
            base_filename: Some(base),
        };
        if image_options.images_in_subdir {
            let mut d = chars_of(escaped.as_str());
            push_str(&mut d, "_images");
            image_dir = Some(string_of(d.as_slice()));
        }
        push_image_files(&mut images, &note.resources, escaped.as_str());
    } else {
        options = ImageOptions {
            save_images: image_options.save_images,
            images_in_subdir: image_options.images_in_subdir,
            base_filename: crate::models::copy_opt_string(&image_options.base_filename),
        };
    }
    let text = crate::editor::enml_to_text_with_options(note.content.as_str(), format.text_format(), &options);
    let content = remove_control_characters(text.as_str());
    let mut file_name = chars_of(escaped.as_str());
    push_str(&mut file_name, format.extension());
    NoteExport { file_name: string_of(file_name.as_slice()), content, image_dir, images }
}

} // verus!
