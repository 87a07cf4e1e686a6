//! File names, extensions and the media kinds they stand for.
//!
//! How a path string splits into components is the platform's (`std::path`):
//! separators and prefixes differ between systems, so the library asks
//! `std::path::Path` for the final component and the extension, and decides
//! everything else itself.
use vstd::prelude::*;

use crate::models::MediaType;
use crate::text::{ascii_lower, ascii_lower_chars, chars_equal, chars_of};

verus! {

/// `Path::file_name` of a path given as a string: its final component, none
/// when the path ends in `..` or has no component after its prefix or root.
///
/// What holds on every platform, as the documentation of `std::path` gives it:
/// - `/` separates components everywhere except after a Windows verbatim
///   prefix (`\\?\`), so outside such paths the name holds no `/`.
/// - For a path of the form `is_slash_path` describes, trailing `/` are
///   dropped and the final component is what follows the last `/` that is
///   left (see `slash_file_name`); that is left unsaid only when it is `.`.
///
/// Which component of any other path is final depends on the platform's path
/// syntax and is left unsaid.
#[verifier::external_body]
fn path_file_name(path: &str) -> (r: Option<String>)
    ensures
        r matches Some(n) ==> (!may_be_verbatim(path@) ==> !n@.contains('/')),
        match r {
            Some(n) => file_name_known(path@) ==> slash_file_name(path@) == Some(n@),
            None => file_name_known(path@) ==> slash_file_name(path@) is None,
        },
{
    std::path::Path::new(path).file_name().and_then(|n| n.to_str()).map(|n| n.to_string())
}

/// `Path::extension` of a path given as a string: the part of the file name
/// after its last `.`, so it holds no `.`, and the path holds it right after a
/// `.`; outside Windows verbatim paths (`\\?\`) it holds no `/` either.
///
/// As the documentation of `Path::extension` gives it, the extension is what
/// follows the file name's last `.`, none when the name has no `.` or its only
/// `.` is its first character. The file name is known on every platform:
/// - for a path of the form `is_name_path` describes: what follows its last
///   `/`; its extension is then `extension_of_name` of that;
/// - for a path of the form `is_classified_path` describes whose final part
///   (after its last `/` or `\`) has a `.` after its first character: the file
///   name ends with that part on every platform, so the extension is what
///   follows the part's last `.`.
///
/// Which part of any other path is the file name depends on the platform's
/// path syntax and is left unsaid.
#[verifier::external_body]
fn path_extension(path: &str) -> (r: Option<String>)
    ensures
        r matches Some(e) ==> !e@.contains('.') && follows_dot(path@, e@),
        r matches Some(e) ==> (!may_be_verbatim(path@) ==> !e@.contains('/')),
        is_name_path(path@) ==> match r {
            Some(e) => extension_of_name(final_name(path@)) == Some(e@),
            None => extension_of_name(final_name(path@)) is None,
        },
        match r {
            Some(e) => has_dotted_final_part(path@) ==> extension_of_name(final_part(path@))
                == Some(e@),
            None => !has_dotted_final_part(path@),
        },
{
    std::path::Path::new(path).extension().and_then(|e| e.to_str()).map(|e| e.to_string())
}

/// A path that is one plain file name on every platform: not empty, not `.`
/// or `..`, and without `/`, `\` or `:` (so with no separator and no prefix).
pub open spec fn is_plain_name(p: Seq<char>) -> bool {
    &&& p.len() > 0
    &&& p != seq!['.']
    &&& p != seq!['.', '.']
    &&& !p.contains('/')
    &&& !p.contains('\\')
    &&& !p.contains(':')
}

/// A path that may carry a Windows verbatim prefix (`\\?\`, or a look-alike
/// with `/`): it starts with two separators and a `?`.
pub open spec fn may_be_verbatim(p: Seq<char>) -> bool {
    p.len() >= 3 && is_separator(p[0]) && is_separator(p[1]) && p[2] == '?'
}

/// `/` or `\`.
pub open spec fn is_separator(c: char) -> bool {
    c == '/' || c == '\\'
}

/// Position of the last `/` in `s`, or -1 when there is none.
pub open spec fn last_slash(s: Seq<char>) -> int
    decreases s.len(),
{
    if s.len() == 0 {
        -1
    } else if s.last() == '/' {
        s.len() - 1
    } else {
        last_slash(s.drop_last())
    }
}

/// What follows the last `/` of a path; the whole path when it has none.
pub open spec fn final_name(p: Seq<char>) -> Seq<char> {
    p.skip(last_slash(p) + 1)
}

/// A path whose separators are all `/` and that every platform reads alike:
/// it holds no `\` and no `:` (so no Windows prefix), and it does not begin
/// with `//` (a Windows share).
pub open spec fn is_slash_path(p: Seq<char>) -> bool {
    &&& !p.contains('\\')
    &&& !p.contains(':')
    &&& !(p.len() >= 2 && p[0] == '/' && p[1] == '/')
}

/// A path without its trailing `/`.
pub open spec fn trim_slashes(p: Seq<char>) -> Seq<char>
    decreases p.len(),
{
    if p.len() > 0 && p.last() == '/' {
        trim_slashes(p.drop_last())
    } else {
        p
    }
}

/// The final component of a path of the form `is_slash_path` describes: none
/// for an empty path, a root alone, or a path that ends in `..`; else what
/// follows the last `/` once trailing `/` are dropped.
pub open spec fn slash_file_name(p: Seq<char>) -> Option<Seq<char>> {
    let t = trim_slashes(p);
    if t.len() == 0 || final_name(t) == seq!['.', '.'] {
        None
    } else {
        Some(final_name(t))
    }
}

/// The paths whose final component `slash_file_name` gives on every
/// platform: those of the form `is_slash_path` describes, unless what follows
/// their last `/` (trailing `/` dropped) is `.`.
pub open spec fn file_name_known(p: Seq<char>) -> bool {
    is_slash_path(p) && final_name(trim_slashes(p)) != seq!['.']
}

/// A path whose components every platform reads alike and whose final one is
/// a plain name: one of the form `is_slash_path` describes in which what
/// follows the last `/` is a plain name. A plain name is such a path.
pub open spec fn is_name_path(p: Seq<char>) -> bool {
    &&& is_plain_name(final_name(p))
    &&& is_slash_path(p)
}

/// Position of the last `/` or `\` in `s`, or -1 when there is none.
pub open spec fn last_separator(s: Seq<char>) -> int
    decreases s.len(),
{
    if s.len() == 0 {
        -1
    } else if is_separator(s.last()) {
        s.len() - 1
    } else {
        last_separator(s.drop_last())
    }
}

/// What follows the last `/` or `\` of a path; the whole path when it has none.
pub open spec fn final_part(p: Seq<char>) -> Seq<char> {
    p.skip(last_separator(p) + 1)
}

/// An ASCII letter, as a Windows drive letter.
pub open spec fn is_drive_letter(c: char) -> bool {
    ('a' <= c && c <= 'z') || ('A' <= c && c <= 'Z')
}

/// A path in which the last component ends with the part after the last `/`
/// or `\` on every platform, that part being a plain name: a Windows verbatim
/// disk path (`\\?\C:\...`), a Windows disk path (`C:\...`), or a path with no
/// `:` that does not begin with two separators (so with no Windows prefix).
pub open spec fn is_classified_path(p: Seq<char>) -> bool {
    &&& is_plain_name(final_part(p))
    &&& {
        ||| (p.len() >= 7 && p[0] == '\\' && p[1] == '\\' && p[2] == '?' && p[3] == '\\'
            && is_drive_letter(p[4]) && p[5] == ':' && p[6] == '\\')
        ||| (p.len() >= 3 && is_drive_letter(p[0]) && p[1] == ':' && p[2] == '\\')
        ||| (!p.contains(':') && !(p.len() >= 2 && is_separator(p[0]) && is_separator(p[1])))
    }
}

/// A path of the form `is_classified_path` describes whose final part has a
/// `.` after its first character: its extension is the same on every platform.
pub open spec fn has_dotted_final_part(p: Seq<char>) -> bool {
    is_classified_path(p) && extension_of_name(final_part(p)) is Some
}

/// The name shown for a path, as far as it does not depend on the platform:
/// the whole path or a non-empty name, which holds no `/` unless the path may
/// be a Windows verbatim path; and for a path whose final component every
/// platform gives, that component, or the whole path when there is none.
pub open spec fn is_display_name(name: Seq<char>, path: Seq<char>) -> bool {
    &&& (name == path || (name.len() > 0 && (!may_be_verbatim(path) ==> !name.contains('/'))))
    &&& (file_name_known(path) ==> name == display_name_from_spec(path, slash_file_name(path)))
}

/// Position of the last `.` in `s`, or -1 when there is none.
pub open spec fn last_dot(s: Seq<char>) -> int
    decreases s.len(),
{
    if s.len() == 0 {
        -1
    } else if s.last() == '.' {
        s.len() - 1
    } else {
        last_dot(s.drop_last())
    }
}

/// The extension of a file name: what follows its last `.`; none when it has
/// no `.`, or when its only `.` is its first character.
pub open spec fn extension_of_name(s: Seq<char>) -> Option<Seq<char>> {
    if last_dot(s) <= 0 {
        None
    } else {
        Some(s.skip(last_dot(s) + 1))
    }
}

/// `path` holds `.` immediately followed by `e`.
pub open spec fn follows_dot(path: Seq<char>, e: Seq<char>) -> bool {
    exists|i: int| 0 <= i && i + e.len() + 1 <= path.len() && #[trigger] path.subrange(i, i + e.len() + 1) == seq!['.'] + e
}

/// The name shown for a path: its final component if that is present and not
/// empty, else the whole path.
pub open spec fn display_name_from_spec(path: Seq<char>, file_name: Option<Seq<char>>) -> Seq<char> {
    match file_name {
        Some(n) => if n.len() > 0 {
            n
        } else {
            path
        },
        None => path,
    }
}

/// The name shown for a path, given the path's final component as the
/// platform reads it.
pub fn display_name_from(path: &str, file_name: Option<String>) -> (r: String)
    ensures
        r@ == display_name_from_spec(path@, match file_name {
            Some(n) => Some(n@),
            None => None,
        }),
{
    match file_name {
        Some(n) => {
            let cs = chars_of(n.as_str());
            if cs.len() > 0 {
                n
            } else {
                path.to_owned()
            }
        },
        None => path.to_owned(),
    }
}

/// The name shown for a path: its final component, or the whole path when it
/// has none (see `is_display_name`).
pub fn display_name(path: &str) -> (r: String)
    ensures
        is_display_name(r@, path@),
{
    let file_name = path_file_name(path);
    display_name_from(path, file_name)
}

/// The image extensions the library recognises, in lowercase.
pub open spec fn image_extensions() -> Seq<Seq<char>> {
    seq![
        "jpg"@,
        "jpeg"@,
        "png"@,
        "webp"@,
        "gif"@,
        "bmp"@,
        "tif"@,
        "tiff"@,
        "heic"@,
        "heif"@,
        "avif"@,
    ]
}

/// The video extensions the library recognises, in lowercase.
pub open spec fn video_extensions() -> Seq<Seq<char>> {
    seq![
        "mp4"@,
        "mov"@,
        "m4v"@,
        "avi"@,
        "mkv"@,
        "webm"@,
        "wmv"@,
        "mpg"@,
        "mpeg"@,
        "3gp"@,
        "mts"@,
        "m2ts"@,
    ]
}

/// No extension is both an image and a video extension.
pub proof fn lemma_extension_kinds_disjoint(e: Seq<char>)
    ensures
        !(is_image_extension(e) && is_video_extension(e)),
{
    let l = ascii_lower(e);
    if image_extensions().contains(l) && video_extensions().contains(l) {
        reveal_strlit("jpg");
        reveal_strlit("jpeg");
        reveal_strlit("png");
        reveal_strlit("webp");
        reveal_strlit("gif");
        reveal_strlit("bmp");
        reveal_strlit("tif");
        reveal_strlit("tiff");
        reveal_strlit("heic");
        reveal_strlit("heif");
        reveal_strlit("avif");
        reveal_strlit("mp4");
        reveal_strlit("mov");
        reveal_strlit("m4v");
        reveal_strlit("avi");
        reveal_strlit("mkv");
        reveal_strlit("webm");
        reveal_strlit("wmv");
        reveal_strlit("mpg");
        reveal_strlit("mpeg");
        reveal_strlit("3gp");
        reveal_strlit("mts");
        reveal_strlit("m2ts");
        let i = choose|i: int| 0 <= i < image_extensions().len() && image_extensions()[i] == l;
        let j = choose|j: int| 0 <= j < video_extensions().len() && video_extensions()[j] == l;
        assert(l.len() >= 3);
        assert(l[0] != '3');
        if l[0] == 'w' {
            assert(l[l.len() - 1] != 'p');
        }
        if l[0] == 'a' {
            assert(l.len() == 3);
        }
        assert(false);
    }
}

/// An image extension, in any ASCII case.
pub open spec fn is_image_extension(e: Seq<char>) -> bool {
    image_extensions().contains(ascii_lower(e))
}

/// A video extension, in any ASCII case.
pub open spec fn is_video_extension(e: Seq<char>) -> bool {
    video_extensions().contains(ascii_lower(e))
}

/// The media kind an extension stands for.
pub open spec fn media_type_for_extension_spec(e: Option<Seq<char>>) -> Option<MediaType> {
    match e {
        Some(e) => if is_image_extension(e) {
            Some(MediaType::Photo)
        } else if is_video_extension(e) {
            Some(MediaType::Video)
        } else {
            None
        },
        None => None,
    }
}

/// Whether `key` is one of `names`.
fn one_of(key: &Vec<char>, names: &[&str]) -> (r: bool)
    ensures
        r == names@.map_values(|n: &str| n@).contains(key@),
{
    let ghost nv = names@.map_values(|n: &str| n@);
    let mut i: usize = 0;
    while i < names.len()
        invariant
            i <= names.len(),
            nv == names@.map_values(|n: &str| n@),
            forall|j: int| 0 <= j < i ==> nv[j] != key@,
        decreases names.len() - i,
    {
        let candidate = chars_of(names[i]);
        if chars_equal(&candidate, key) {
            assert(nv[i as int] == key@);
            return true;
        }
        i = i + 1;
    }
    false
}

/// Whether an extension names an image, in any ASCII case.
pub fn image_extension_supported(extension: &str) -> (r: bool)
    ensures
        r == is_image_extension(extension@),
{
    let key = ascii_lower_chars(extension);
    let names: [&str; 11] = [
        "jpg",
        "jpeg",
        "png",
        "webp",
        "gif",
        "bmp",
        "tif",
        "tiff",
        "heic",
        "heif",
        "avif",
    ];
    let r = one_of(&key, &names);
    assert(names@.map_values(|n: &str| n@) =~= image_extensions());
    r
}

/// Whether an extension names a video, in any ASCII case.
pub fn video_extension_supported(extension: &str) -> (r: bool)
    ensures
        r == is_video_extension(extension@),
{
    let key = ascii_lower_chars(extension);
    let names: [&str; 12] = [
        "mp4",
        "mov",
        "m4v",
        "avi",
        "mkv",
        "webm",
        "wmv",
        "mpg",
        "mpeg",
        "3gp",
        "mts",
        "m2ts",
    ];
    let r = one_of(&key, &names);
    assert(names@.map_values(|n: &str| n@) =~= video_extensions());
    r
}

/// The media kind of a file, given its extension as the platform reads it.
pub fn media_type_for_extension(extension: Option<&str>) -> (r: Option<MediaType>)
    ensures
        r == media_type_for_extension_spec(
            match extension {
                Some(e) => Some(e@),
                None => None,
            },
        ),
{
    match extension {
        Some(e) => {
            if image_extension_supported(e) {
                Some(MediaType::Photo)
            } else if video_extension_supported(e) {
                Some(MediaType::Video)
            } else {
                None
            }
        },
        None => None,
    }
}

/// Whether a path names a supported image: true only when the path holds a
/// `.` followed by an image extension; for a path of the form `is_name_path`
/// describes, exactly when the extension of its final name is an image
/// extension; likewise for a path of the form `has_dotted_final_part`
/// describes (Windows disk paths among them), by the extension of its final
/// part.
pub fn is_supported_image(path: &str) -> (r: bool)
    ensures
        r ==> exists|e: Seq<char>| is_image_extension(e) && follows_dot(path@, e),
        is_name_path(path@) ==> r == (extension_of_name(final_name(path@)) matches Some(e)
            && is_image_extension(e)),
        has_dotted_final_part(path@) ==> r == (extension_of_name(final_part(path@)) matches Some(
            e,
        ) && is_image_extension(e)),
{
    match path_extension(path) {
        Some(e) => image_extension_supported(e.as_str()),
        None => false,
    }
}

/// Whether a path names a supported video: true only when the path holds a
/// `.` followed by a video extension; for a path of the form `is_name_path`
/// describes, exactly when the extension of its final name is a video
/// extension; likewise for a path of the form `has_dotted_final_part`
/// describes (Windows disk paths among them), by the extension of its final
/// part.
pub fn is_supported_video(path: &str) -> (r: bool)
    ensures
        r ==> exists|e: Seq<char>| is_video_extension(e) && follows_dot(path@, e),
        is_name_path(path@) ==> r == (extension_of_name(final_name(path@)) matches Some(e)
            && is_video_extension(e)),
        has_dotted_final_part(path@) ==> r == (extension_of_name(final_part(path@)) matches Some(
            e,
        ) && is_video_extension(e)),
{
    match path_extension(path) {
        Some(e) => video_extension_supported(e.as_str()),
        None => false,
    }
}

/// The media kind of a path of the form `is_name_path` describes: the kind
/// of the extension of its final name.
pub open spec fn name_path_kind(path: Seq<char>) -> Option<MediaType> {
    media_type_for_extension_spec(extension_of_name(final_name(path)))
}

/// The media kind of a path of the form `has_dotted_final_part` describes:
/// the kind of the extension of its final part.
pub open spec fn final_part_kind(path: Seq<char>) -> Option<MediaType> {
    media_type_for_extension_spec(extension_of_name(final_part(path)))
}

/// The media kind of a path: a photo for an image extension, else a video for
/// a video extension, else none. For a path of the form `is_name_path`
/// describes, that is the kind of the extension of its final name; for one of
/// the form `has_dotted_final_part` describes, that of its final part.
pub fn media_type_for_path(path: &str) -> (r: Option<MediaType>)
    ensures
        exists|e: Option<Seq<char>>|
            r == media_type_for_extension_spec(e) && (e matches Some(x) ==> follows_dot(
                path@,
                x,
            )),
        is_name_path(path@) ==> r == name_path_kind(path@),
        has_dotted_final_part(path@) ==> r == final_part_kind(path@),
{
    let extension = path_extension(path);
    match extension {
        Some(e) => {
            let r = media_type_for_extension(Some(e.as_str()));
            assert(r == media_type_for_extension_spec(Some(e@)));
            r
        },
        None => {
            let r = media_type_for_extension(None);
            assert(r == media_type_for_extension_spec(None));
            r
        },
    }
}

} // verus!
