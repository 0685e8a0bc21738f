//! Names of the files the program writes next to the input video, and the
//! check of the videos a user selects.
use vstd::prelude::*;
use crate::error::TrackforgeError;
use crate::ffmpeg::{slug_spec, TargetFormat};
use crate::text::{
    contains_exec, contains_spec, starts_with_exec, starts_with_spec,
    chars_of, concat2, eq_ignore_ascii_case, eq_ignore_ascii_case_spec, join_spec, join_strings,
    opt_view, strings_view, write_decimal, decimal, slice_to_vec, string_of,
};

verus! {

/// The parent directory that `Path::parent` gives for `path`, as text.
/// `Path` reads paths by syntax alone, by the rules of the platform the
/// program is built for, without looking at the disk; so for a build this
/// is a function of the text of `path`, as are the three names below.
pub uninterp spec fn path_parent_result(path: Seq<char>) -> Option<Seq<char>>;

/// The last component that `Path::file_name` gives for `path`, as text.
pub uninterp spec fn path_file_name_result(path: Seq<char>) -> Option<Seq<char>>;

/// The path that `Path::join` gives for `name` adjoined to `dir`, as text.
pub uninterp spec fn path_join_result(dir: Seq<char>, name: Seq<char>) -> Seq<char>;

/// A value that stands for `path` as `Path` compares paths: by their
/// components, so that repeated separators and an interior `.` make no
/// difference. Two texts name the same path when their values are equal.
pub uninterp spec fn path_components_result(path: Seq<char>) -> Seq<Seq<char>>;

/// Whether `a` and `b` are the same path by `Path`'s `==`, which compares
/// their components. The contract claims only that the answer is whether
/// `path_components_result` agrees on the two texts, that is, that `Path`
/// equality is an equivalence between texts.
#[verifier::external_body]
pub(crate) fn path_eq(a: &str, b: &str) -> (r: bool)
    ensures
        r == (path_components_result(a@) == path_components_result(b@)),
{
    std::path::Path::new(a) == std::path::Path::new(b)
}

/// The parent directory of `path` by `Path::parent`. The contract claims
/// only that the result is `path_parent_result` of the text of `path`:
/// the same text gives the same parent.
#[verifier::external_body]
pub(crate) fn path_parent(path: &str) -> (r: Option<String>)
    ensures
        opt_view(r) == path_parent_result(path@),
{
    std::path::Path::new(path).parent().map(|p| p.to_string_lossy().into_owned())
}

/// The position of the last `.` of `name` before position `end`, or -1.
pub open spec fn last_dot_before(name: Seq<char>, end: int) -> int
    decreases end,
{
    if end <= 0 {
        -1
    } else if name[end - 1] == '.' {
        end - 1
    } else {
        last_dot_before(name, end - 1)
    }
}

/// The position of the last `.` of `name`, or -1.
pub open spec fn last_dot(name: Seq<char>) -> int {
    last_dot_before(name, name.len() as int)
}

/// Whether a file name has no extension by `Path`'s rule: it is `..`, has
/// no `.`, or its only `.` is its first character.
pub open spec fn has_no_extension(name: Seq<char>) -> bool {
    name == ".."@ || last_dot(name) <= 0
}

/// The stem of a file name by `Path::file_stem`: the whole name when it has
/// no extension, else the part before its last `.`.
pub open spec fn stem_of_file_name(name: Seq<char>) -> Seq<char> {
    if has_no_extension(name) {
        name
    } else {
        name.subrange(0, last_dot(name))
    }
}

/// The extension of a file name by `Path::extension`: none when it has no
/// extension by that rule, else the part after its last `.`.
pub open spec fn extension_of_file_name(name: Seq<char>) -> Option<Seq<char>> {
    if has_no_extension(name) {
        None
    } else {
        Some(name.subrange(last_dot(name) + 1, name.len() as int))
    }
}

/// The stem that `Path::file_stem` gives for `path`: that of its file name.
pub open spec fn path_file_stem_result(path: Seq<char>) -> Option<Seq<char>> {
    match path_file_name_result(path) {
        Some(n) => Some(stem_of_file_name(n)),
        None => None,
    }
}

/// The extension that `Path::extension` gives for `path`: that of its file
/// name.
pub open spec fn path_extension_result(path: Seq<char>) -> Option<Seq<char>> {
    match path_file_name_result(path) {
        Some(n) => extension_of_file_name(n),
        None => None,
    }
}

fn last_dot_exec(v: &[char]) -> (r: usize)
    ensures
        r == last_dot(v@) + 1,
        r <= v@.len(),
{
    let mut k: usize = v.len();
    while k > 0
        invariant
            k <= v@.len(),
            last_dot(v@) == last_dot_before(v@, k as int),
        decreases k,
    {
        if v[k - 1] == '.' {
            return k;
        }
        k = k - 1;
    }
    0
}

/// The stem and the extension of a file name, by `Path`'s rule.
fn split_file_name(name: &str) -> (r: (String, Option<String>))
    ensures
        r.0@ == stem_of_file_name(name@),
        opt_view(r.1) == extension_of_file_name(name@),
{
    let v = chars_of(name);
    let d = last_dot_exec(v.as_slice());
    if crate::text::str_eq(name, "..") || d <= 1 {
        (String::from_str(name), None)
    } else {
        let stem = string_of(slice_to_vec(v.as_slice(), 0, d - 1).as_slice());
        let ext = string_of(slice_to_vec(v.as_slice(), d, v.len()).as_slice());
        (stem, Some(ext))
    }
}

/// The file name of `path` without its extension, as `Path::file_stem`
/// gives it.
pub(crate) fn path_file_stem(path: &str) -> (r: Option<String>)
    ensures
        opt_view(r) == path_file_stem_result(path@),
{
    match path_file_name(path) {
        Some(n) => Some(split_file_name(n.as_str()).0),
        None => None,
    }
}

/// The extension of `path`, as `Path::extension` gives it.
fn path_extension(path: &str) -> (r: Option<String>)
    ensures
        opt_view(r) == path_extension_result(path@),
{
    match path_file_name(path) {
        Some(n) => split_file_name(n.as_str()).1,
        None => None,
    }
}

/// The last component of `path` by `Path::file_name`, where it is valid
/// UTF-8. The contract claims only that the result is
/// `path_file_name_result` of the text of `path`.
#[verifier::external_body]
pub(crate) fn path_file_name(path: &str) -> (r: Option<String>)
    ensures
        opt_view(r) == path_file_name_result(path@),
{
    std::path::Path::new(path).file_name().and_then(|s| s.to_str()).map(|s| s.to_string())
}

/// `name` adjoined to the directory `dir` by `Path::join`, as text. The
/// contract claims only that the result is `path_join_result` of the two
/// texts.
#[verifier::external_body]
pub(crate) fn path_join(dir: &str, name: &str) -> (r: String)
    ensures
        r@ == path_join_result(dir@, name@),
{
    std::path::Path::new(dir).join(name).to_string_lossy().into_owned()
}

/// The text of an optional value, or `default` where there is none.
pub open spec fn or_default(o: Option<Seq<char>>, default: Seq<char>) -> Seq<char> {
    match o {
        Some(s) => s,
        None => default,
    }
}

fn unwrap_or_lit(o: Option<String>, default: &str) -> (r: String)
    ensures
        r@ == or_default(opt_view(o), default@),
{
    match o {
        Some(s) => s,
        None => String::from_str(default),
    }
}

/// The name of an output file: `<stem>_trackforge_<tag>.<extension>`, with
/// `output` for a missing stem and `mkv` for a missing extension.
pub open spec fn output_file_name_spec(
    stem: Option<Seq<char>>,
    tag: Seq<char>,
    extension: Option<Seq<char>>,
) -> Seq<char> {
    or_default(stem, "output"@) + "_trackforge_"@ + tag + "."@ + or_default(extension, "mkv"@)
}

/// The name of an output file made from the stem and extension of the
/// input and a tag that says what was done.
pub fn output_file_name(stem: Option<String>, tag: &str, extension: Option<String>) -> (r: String)
    ensures
        r@ == output_file_name_spec(opt_view(stem), tag@, opt_view(extension)),
{
    let mut r = unwrap_or_lit(stem, "output");
    r.append("_trackforge_");
    r.append(tag);
    r.append(".");
    let ext = unwrap_or_lit(extension, "mkv");
    r.append(ext.as_str());
    r
}

/// The tag of a combined operation: the parts that apply, joined with `_`,
/// or `process` where none applies.
pub open spec fn process_tag_spec(
    conversion_slug: Option<Seq<char>>,
    deletes_audio: bool,
    edits_metadata: bool,
) -> Seq<char> {
    let parts = match conversion_slug {
        Some(s) => seq![s],
        None => Seq::empty(),
    } + if deletes_audio {
        seq!["audio-delete"@]
    } else {
        Seq::empty()
    } + if edits_metadata {
        seq!["metadata"@]
    } else {
        Seq::empty()
    };
    if parts.len() == 0 {
        "process"@
    } else {
        join_spec(parts, "_"@)
    }
}

/// The tag of a combined operation.
pub fn process_tag(conversion_slug: Option<&str>, deletes_audio: bool, edits_metadata: bool) -> (r: String)
    ensures
        r@ == process_tag_spec(
            match conversion_slug {
                Some(s) => Some(s@),
                None => None,
            },
            deletes_audio,
            edits_metadata,
        ),
{
    let mut parts: Vec<String> = Vec::new();
    if let Some(slug) = conversion_slug {
        parts.push(String::from_str(slug));
    }
    if deletes_audio {
        parts.push(String::from_str("audio-delete"));
    }
    if edits_metadata {
        parts.push(String::from_str("metadata"));
    }
    let ghost expected = match conversion_slug {
        Some(s) => seq![s@],
        None => Seq::<Seq<char>>::empty(),
    } + if deletes_audio {
        seq!["audio-delete"@]
    } else {
        Seq::<Seq<char>>::empty()
    } + if edits_metadata {
        seq!["metadata"@]
    } else {
        Seq::<Seq<char>>::empty()
    };
    assert(strings_view(parts@) =~= expected);
    if parts.len() == 0 {
        return String::from_str("process");
    }
    join_strings(&parts, "_")
}

/// The directory of `input` by `Path::parent`, `.` where it has none.
pub open spec fn parent_or_dot_spec(input: Seq<char>) -> Seq<char> {
    or_default(path_parent_result(input), "."@)
}

/// The directory of `input`, `.` where it has none.
fn parent_or_dot(input: &str) -> (r: String)
    ensures
        r@ == parent_or_dot_spec(input@),
{
    unwrap_or_lit(path_parent(input), ".")
}

/// The path of a file named `name` in the directory of `input`.
pub open spec fn sibling_path(input: Seq<char>, name: Seq<char>) -> Seq<char> {
    path_join_result(parent_or_dot_spec(input), name)
}

/// The output named with `tag` next to `input`.
pub open spec fn tagged_output_path(input: Seq<char>, tag: Seq<char>) -> Seq<char> {
    sibling_path(
        input,
        output_file_name_spec(path_file_stem_result(input), tag, path_extension_result(input)),
    )
}

/// The default output of a conversion: `<stem>_trackforge_<slug>.<ext>`
/// next to the input.
pub fn default_output_path(input: &str, format: TargetFormat) -> (r: String)
    ensures
        r@ == tagged_output_path(input@, slug_spec(format)),
{
    let name = output_file_name(path_file_stem(input), format.slug(), path_extension(input));
    path_join(parent_or_dot(input).as_str(), name.as_str())
}

/// The default output of a removal of audio tracks:
/// `<stem>_trackforge_audio_removed.<ext>` next to the input.
pub fn default_delete_audio_output_path(input: &str) -> (r: String)
    ensures
        r@ == tagged_output_path(input@, "audio_removed"@),
{
    let name = output_file_name(path_file_stem(input), "audio_removed", path_extension(input));
    path_join(parent_or_dot(input).as_str(), name.as_str())
}

/// The default output of a change of audio metadata:
/// `<stem>_trackforge_audio_metadata.<ext>` next to the input.
pub fn default_audio_metadata_output_path(input: &str) -> (r: String)
    ensures
        r@ == tagged_output_path(input@, "audio_metadata"@),
{
    let name = output_file_name(path_file_stem(input), "audio_metadata", path_extension(input));
    path_join(parent_or_dot(input).as_str(), name.as_str())
}

/// The default output of a combined operation next to the input, named
/// with the tag of the operations that apply.
pub fn default_process_output_path(
    input: &str,
    conversion_slug: Option<&str>,
    deletes_audio: bool,
    edits_metadata: bool,
) -> (r: String)
    ensures
        r@ == tagged_output_path(
            input@,
            process_tag_spec(
                match conversion_slug {
                    Some(s) => Some(s@),
                    None => None,
                },
                deletes_audio,
                edits_metadata,
            ),
        ),
{
    let tag = process_tag(conversion_slug, deletes_audio, edits_metadata);
    let name = output_file_name(path_file_stem(input), tag.as_str(), path_extension(input));
    path_join(parent_or_dot(input).as_str(), name.as_str())
}

/// The name of the temporary output that later replaces the input:
/// `<stem>.trackforge-<process id>.<slug>.<extension>`, with a leading `.`
/// when the file is to be hidden.
pub open spec fn replacement_file_name_spec(
    stem: Option<Seq<char>>,
    process_id: u32,
    slug: Seq<char>,
    extension: Option<Seq<char>>,
    hidden: bool,
) -> Seq<char> {
    (if hidden {
        seq!['.']
    } else {
        Seq::empty()
    }) + or_default(stem, "output"@) + ".trackforge-"@ + decimal(process_id as nat) + "."@ + slug
        + "."@ + or_default(extension, "mkv"@)
}

/// The name of the temporary output that later replaces the input.
pub fn replacement_file_name(
    stem: Option<String>,
    process_id: u32,
    slug: &str,
    extension: Option<String>,
    hidden: bool,
) -> (r: String)
    ensures
        r@ == replacement_file_name_spec(
            opt_view(stem),
            process_id,
            slug@,
            opt_view(extension),
            hidden,
        ),
{
    let base = unwrap_or_lit(stem, "output");
    let mut r = if hidden {
        proof {
            reveal_strlit(".");
        }
        concat2(".", base.as_str())
    } else {
        let r = base;
        assert(r@ =~= Seq::<char>::empty() + r@);
        r
    };
    r.append(".trackforge-");
    write_decimal(&mut r, process_id as u64);
    r.append(".");
    r.append(slug);
    r.append(".");
    let ext = unwrap_or_lit(extension, "mkv");
    r.append(ext.as_str());
    r
}

/// The temporary output next to the input that replaces it once the work
/// has succeeded; the desktop application hides it with a leading `.`.
pub fn temporary_replacement_path(input: &str, process_id: u32, slug: &str, hidden: bool) -> (r:
    String)
    ensures
        r@ == sibling_path(
            input@,
            replacement_file_name_spec(
                path_file_stem_result(input@),
                process_id,
                slug@,
                path_extension_result(input@),
                hidden,
            ),
        ),
{
    let name = replacement_file_name(
        path_file_stem(input),
        process_id,
        slug,
        path_extension(input),
        hidden,
    );
    path_join(parent_or_dot(input).as_str(), name.as_str())
}

/// The name under which the original is kept while it is being replaced:
/// `<file name>.trackforge-backup`, with `video` for a missing file name.
pub open spec fn backup_file_name_spec(file_name: Option<Seq<char>>) -> Seq<char> {
    or_default(file_name, "video"@) + ".trackforge-backup"@
}

/// The name under which the original is kept while it is being replaced.
pub fn backup_file_name(file_name: Option<String>) -> (r: String)
    ensures
        r@ == backup_file_name_spec(opt_view(file_name)),
{
    let mut r = unwrap_or_lit(file_name, "video");
    r.append(".trackforge-backup");
    r
}

/// Where the original is kept while it is being replaced.
pub fn backup_path(input: &str) -> (r: String)
    ensures
        r@ == sibling_path(input@, backup_file_name_spec(path_file_name_result(input@))),
{
    let name = backup_file_name(path_file_name(input));
    path_join(parent_or_dot(input).as_str(), name.as_str())
}

/// A leftover temporary copy of an earlier job on the output with this
/// stem: named `.<stem>.trackforge-...` or `<stem>.trackforge-...`, with
/// `.local-copy.` in the name.
pub open spec fn is_stale_local_copy_spec(name: Seq<char>, stem: Seq<char>) -> bool {
    (starts_with_spec(name, seq!['.'] + stem + ".trackforge-"@) || starts_with_spec(
        name,
        stem + ".trackforge-"@,
    )) && contains_spec(name, ".local-copy."@)
}

/// Whether the file with this name is a leftover temporary copy of an
/// earlier job on the output with this stem.
pub fn is_stale_local_copy(name: &str, stem: &str) -> (b: bool)
    ensures
        b == is_stale_local_copy_spec(name@, stem@),
{
    let v = chars_of(name);
    let legacy = concat2(stem, ".trackforge-");
    proof {
        reveal_strlit(".");
    }
    let hidden = concat2(".", legacy.as_str());
    assert(hidden@ =~= seq!['.'] + stem@ + ".trackforge-"@);
    let h = chars_of(hidden.as_str());
    let l = chars_of(legacy.as_str());
    let marker = chars_of(".local-copy.");
    (starts_with_exec(v.as_slice(), h.as_slice()) || starts_with_exec(v.as_slice(), l.as_slice()))
        && contains_exec(v.as_slice(), marker.as_slice())
}

/// The extensions of the videos a user may select.
pub open spec fn video_extensions() -> Seq<Seq<char>> {
    seq!["mkv"@, "mp4"@, "mov"@, "avi"@, "webm"@, "m4v"@]
}

/// An extension of a supported video, without regard to ASCII case.
pub open spec fn is_video_extension(extension: Option<Seq<char>>) -> bool {
    match extension {
        Some(e) => exists|i: int|
            0 <= i < video_extensions().len() && eq_ignore_ascii_case_spec(
                e,
                #[trigger] video_extensions()[i],
            ),
        None => false,
    }
}

/// The views of a sequence of optional strings.
pub open spec fn opts_view(v: Seq<Option<String>>) -> Seq<Option<Seq<char>>> {
    v.map_values(|o: Option<String>| opt_view(o))
}

fn is_video_extension_exec(extension: &Option<String>) -> (b: bool)
    ensures
        b == is_video_extension(opt_view(*extension)),
{
    match extension {
        None => false,
        Some(e) => {
            let x = chars_of(e.as_str());
            let words = ["mkv", "mp4", "mov", "avi", "webm", "m4v"];
            let mut k: usize = 0;
            while k < 6
                invariant
                    x@ == e@,
                    opt_view(*extension) == Some(e@),
                    k <= 6,
                    forall|i: int| 0 <= i < 6 ==> (#[trigger] words@[i])@ == video_extensions()[i],
                    forall|i: int| 0 <= i < k ==> !eq_ignore_ascii_case_spec(x@, video_extensions()[i]),
                decreases 6 - k,
            {
                let w = chars_of(words[k]);
                assert(w@ == video_extensions()[k as int]);
                if eq_ignore_ascii_case(x.as_slice(), w.as_slice()) {
                    assert(eq_ignore_ascii_case_spec(e@, video_extensions()[k as int]));
                    assert(video_extensions().len() == 6);
                    assert(is_video_extension(Some(e@)));
                    return true;
                }
                k = k + 1;
            }
            false
        },
    }
}

/// Accepts the selected paths when each has the extension of a supported
/// video, given the extension of each path; otherwise refuses the first
/// path whose extension is missing or not supported.
pub fn check_video_extensions(paths: Vec<String>, extensions: &Vec<Option<String>>) -> (r: Result<
    Vec<String>,
    TrackforgeError,
>)
    requires
        paths@.len() == extensions@.len(),
    ensures
        (forall|i: int|
            0 <= i < extensions@.len() ==> is_video_extension(#[trigger] opts_view(extensions@)[i]))
            ==> r == Ok::<Vec<String>, TrackforgeError>(paths),
        forall|i: int|
            0 <= i < extensions@.len() && !is_video_extension(#[trigger] opts_view(extensions@)[i])
                && (forall|j: int| 0 <= j < i ==> is_video_extension(opts_view(extensions@)[j]))
                ==> (r matches Err(TrackforgeError::UnsupportedVideo(p)) && p@ == paths@[i]@),
{
    let mut i: usize = 0;
    while i < extensions.len()
        invariant
            paths@.len() == extensions@.len(),
            i <= extensions@.len(),
            forall|j: int| 0 <= j < i ==> is_video_extension(#[trigger] opts_view(extensions@)[j]),
        decreases extensions@.len() - i,
    {
        if !is_video_extension_exec(&extensions[i]) {
            let bad = paths[i].clone();
            assert(!is_video_extension(opts_view(extensions@)[i as int]));
            assert forall|k: int|
                0 <= k < extensions@.len() && !is_video_extension(#[trigger] opts_view(extensions@)[k])
                    && (forall|j: int| 0 <= j < k ==> is_video_extension(opts_view(extensions@)[j]))
                implies k == i by {
                if k < i {
                    assert(is_video_extension(opts_view(extensions@)[k]));
                } else if k > i {
                    assert(is_video_extension(opts_view(extensions@)[i as int]));
                }
            }
            return Err(TrackforgeError::UnsupportedVideo(bad));
        }
        i = i + 1;
    }
    Ok(paths)
}

/// A path whose extension is that of a supported video.
pub open spec fn is_video_path(path: Seq<char>) -> bool {
    is_video_extension(path_extension_result(path))
}

/// Accepts the selected paths when each is a supported video (by its
/// extension, without regard to ASCII case); otherwise refuses the first
/// path that is not.
pub fn validate_selected_video_paths(paths: Vec<String>) -> (r: Result<Vec<String>, TrackforgeError>)
    ensures
        match r {
            Ok(v) => v == paths,
            Err(TrackforgeError::UnsupportedVideo(p)) => exists|i: int|
                0 <= i < paths@.len() && (#[trigger] paths@[i])@ == p@,
            Err(_) => false,
        },
        (forall|i: int| 0 <= i < paths@.len() ==> is_video_path(#[trigger] paths@[i]@))
            ==> r == Ok::<Vec<String>, TrackforgeError>(paths),
        forall|i: int|
            0 <= i < paths@.len() && !is_video_path(#[trigger] paths@[i]@)
                && (forall|j: int| 0 <= j < i ==> is_video_path(paths@[j]@))
                ==> (r matches Err(TrackforgeError::UnsupportedVideo(p)) && p@ == paths@[i]@),
{
    let mut extensions: Vec<Option<String>> = Vec::new();
    let mut i: usize = 0;
    while i < paths.len()
        invariant
            i <= paths@.len(),
            extensions@.len() == i,
            forall|k: int|
                0 <= k < i ==> #[trigger] opts_view(extensions@)[k] == path_extension_result(
                    paths@[k]@,
                ),
        decreases paths@.len() - i,
    {
        let e = path_extension(paths[i].as_str());
        let ghost before = extensions@;
        extensions.push(e);
        proof {
            assert forall|k: int|
                0 <= k < i + 1 implies #[trigger] opts_view(extensions@)[k] == path_extension_result(
                    paths@[k]@,
                ) by {
                if k < i {
                    assert(extensions@[k] == before[k]);
                    assert(opts_view(before)[k] == path_extension_result(paths@[k]@));
                }
            }
        }
        i = i + 1;
    }
    let ghost original = paths@;
    let ghost ext = opts_view(extensions@);
    assert(forall|k: int| 0 <= k < ext.len() ==> #[trigger] is_video_extension(ext[k]) == is_video_path(original[k]@));
    let r = check_video_extensions(paths, &extensions);
    proof {
        if exists|k: int| 0 <= k < ext.len() && !is_video_extension(#[trigger] ext[k]) {
            let k = choose|k: int| 0 <= k < ext.len() && !is_video_extension(#[trigger] ext[k]);
            lemma_first_bad(ext, k);
            let f = choose|f: int|
                0 <= f < ext.len() && !is_video_extension(#[trigger] ext[f]) && (forall|j: int|
                    0 <= j < f ==> is_video_extension(ext[j]));
            // the refused path is the one at the first unsupported extension
            assert(r matches Err(TrackforgeError::UnsupportedVideo(p)) && p@ == original[f]@);
        }
        assert forall|i: int|
            0 <= i < original.len() && !is_video_path(#[trigger] original[i]@)
                && (forall|j: int| 0 <= j < i ==> is_video_path(original[j]@))
            implies (r matches Err(TrackforgeError::UnsupportedVideo(p)) && p@ == original[i]@) by {
            assert(!is_video_extension(ext[i]));
            assert forall|j: int| 0 <= j < i implies is_video_extension(ext[j]) by {
                assert(is_video_path(original[j]@));
                assert(is_video_extension(ext[j]) == is_video_path(original[j]@));
            }
        }
        if forall|i: int| 0 <= i < original.len() ==> is_video_path(#[trigger] original[i]@) {
            assert forall|i: int| 0 <= i < ext.len() implies is_video_extension(#[trigger] ext[i]) by {
                assert(is_video_path(original[i]@));
            }
        }
    }
    r
}

proof fn lemma_first_bad(v: Seq<Option<Seq<char>>>, k: int)
    requires
        0 <= k < v.len(),
        !is_video_extension(v[k]),
    ensures
        exists|f: int| 0 <= f < v.len() && !is_video_extension(#[trigger] v[f])
            && (forall|j: int| 0 <= j < f ==> is_video_extension(v[j])),
    decreases k,
{
    if exists|j: int| 0 <= j < k && !is_video_extension(#[trigger] v[j]) {
        let j = choose|j: int| 0 <= j < k && !is_video_extension(#[trigger] v[j]);
        lemma_first_bad(v, j);
    } else {
        assert(forall|j: int| 0 <= j < k ==> is_video_extension(v[j]));
    }
}

} // verus!
