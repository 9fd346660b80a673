//! Media types by file extension.

use vstd::prelude::*;
use vstd::string::StringSliceAdditionalSpecFns;
use vstd::slice::slice_subrange;
use vstd::utf8::{encode_utf8, is_ascii_chars, is_ascii_chars_encode_utf8};
use crate::bytes::same_bytes;

verus! {

/// The media type that is served for files with the extension `ext`, given
/// without its dot. Files with any other extension are not served.
pub open spec fn media_type(ext: Seq<u8>) -> Option<Seq<char>> {
    if ext == "html".spec_bytes() || ext == "htm".spec_bytes() {
        Some("text/html"@)
    } else if ext == "css".spec_bytes() {
        Some("text/css"@)
    } else if ext == "mjs".spec_bytes() || ext == "js".spec_bytes() {
        Some("text/javascript"@)
    } else if ext == "ts".spec_bytes() {
        Some("application/typescript"@)
    } else if ext == "map".spec_bytes() {
        Some("application/json"@)
    } else if ext == "csv".spec_bytes() {
        Some("text/csv"@)
    } else if ext == "txt".spec_bytes() {
        Some("text/plain"@)
    } else if ext == "json".spec_bytes() {
        Some("application/json"@)
    } else if ext == "xhtml".spec_bytes() {
        Some("application/xhtml+xml"@)
    } else if ext == "xml".spec_bytes() {
        Some("application/xml"@)
    } else if ext == "rss".spec_bytes() {
        Some("application/atom+xml"@)
    } else if ext == "rs".spec_bytes() {
        Some("text/plain"@)
    } else if ext == "bmp".spec_bytes() {
        Some("image/bmp"@)
    } else if ext == "gif".spec_bytes() {
        Some("image/gif"@)
    } else if ext == "ico".spec_bytes() {
        Some("image/vnd.microsoft.icon"@)
    } else if ext == "jpg".spec_bytes() || ext == "jpeg".spec_bytes() {
        Some("image/jpeg"@)
    } else if ext == "png".spec_bytes() {
        Some("image/png"@)
    } else if ext == "svg".spec_bytes() {
        Some("image/svg+xml"@)
    } else if ext == "tif".spec_bytes() || ext == "tiff".spec_bytes() {
        Some("image/tiff"@)
    } else if ext == "otf".spec_bytes() {
        Some("font/otf"@)
    } else if ext == "sfnt".spec_bytes() {
        Some("font/sfnt"@)
    } else if ext == "ttf".spec_bytes() {
        Some("font/ttf"@)
    } else if ext == "woff".spec_bytes() {
        Some("font/woff"@)
    } else if ext == "woff2".spec_bytes() {
        Some("font/woff2"@)
    } else if ext == "mid".spec_bytes() || ext == "midi".spec_bytes() {
        Some("audio/midi"@)
    } else if ext == "mp3".spec_bytes() {
        Some("audio/mpeg"@)
    } else if ext == "mp4".spec_bytes() {
        Some("video/mp4"@)
    } else if ext == "mpeg".spec_bytes() {
        Some("video/mpeg"@)
    } else if ext == "oga".spec_bytes() {
        Some("audio/ogg"@)
    } else if ext == "ogv".spec_bytes() {
        Some("video/ogg"@)
    } else if ext == "opus".spec_bytes() {
        Some("audio/opus"@)
    } else if ext == "wav".spec_bytes() {
        Some("audio/wav"@)
    } else if ext == "weba".spec_bytes() {
        Some("audio/webm"@)
    } else if ext == "webm".spec_bytes() {
        Some("video/webm"@)
    } else if ext == "jar".spec_bytes() {
        Some("application/java-archive"@)
    } else if ext == "pdf".spec_bytes() {
        Some("application/pdf"@)
    } else if ext == "wasm".spec_bytes() {
        Some("application/wasm"@)
    } else if ext == "7z".spec_bytes() {
        Some("application/x-7z-compressed"@)
    } else if ext == "bz".spec_bytes() {
        Some("application/x-bzip"@)
    } else if ext == "bz2".spec_bytes() {
        Some("application/x-bzip2"@)
    } else if ext == "gz".spec_bytes() {
        Some("application/gzip"@)
    } else if ext == "tar".spec_bytes() {
        Some("application/x-tar"@)
    } else if ext == "rar".spec_bytes() {
        Some("application/vnd.rar"@)
    } else if ext == "zip".spec_bytes() {
        Some("application/zip"@)
    } else if ext == "bin".spec_bytes() {
        Some("application/octet-stream"@)
    } else {
        None
    }
}

/// An extension without the dot that may lead it.
pub open spec fn without_dot(ext: Seq<u8>) -> Seq<u8> {
    if ext.len() > 0 && ext[0] == 46u8 {
        ext.subrange(1, ext.len() as int)
    } else {
        ext
    }
}

/// `ext` follows a dot somewhere in `path`, and holds no dot itself.
pub open spec fn follows_dot(path: Seq<char>, ext: Seq<char>) -> bool {
    &&& !ext.contains('.')
    &&& exists|at: int|
        0 <= at && at + 1 + ext.len() <= path.len() && path[at] == '.' && #[trigger] path.subrange(
            at + 1,
            at + 1 + ext.len(),
        ) == ext
}

/// `mime` is the media type of an extension that `path` may have.
pub open spec fn may_type(path: Seq<char>, mime: Seq<char>) -> bool {
    exists|ext: Seq<char>|
        follows_dot(path, ext) && #[trigger] media_type(without_dot(encode_utf8(ext))) == Some(
            mime,
        )
}

/// A name that is one component of a path on every platform: it holds no
/// slash, no backslash and no colon, and is not the name `..` of the
/// parent directory.
pub open spec fn plain_name(name: Seq<char>) -> bool {
    &&& !name.contains('/')
    &&& !name.contains('\\')
    &&& !name.contains(':')
    &&& name != seq!['.', '.']
}

/// Where the last dot of `name` stands.
pub open spec fn last_dot(name: Seq<char>) -> Option<int>
    decreases name.len(),
{
    if name.len() == 0 {
        None
    } else if name.last() == '.' {
        Some(name.len() - 1)
    } else {
        last_dot(name.drop_last())
    }
}

/// The extension of a file name: what follows its last dot. A name
/// without a dot has none, and neither has a name whose only dot is its
/// first character.
pub open spec fn extension_of(name: Seq<char>) -> Option<Seq<char>> {
    match last_dot(name) {
        Some(at) => if at > 0 {
            Some(name.subrange(at + 1, name.len() as int))
        } else {
            None
        },
        None => None,
    }
}

/// The media type that a file of the name `name` is served with, by its extension.
pub open spec fn type_of(name: Seq<char>) -> Option<Seq<char>> {
    match extension_of(name) {
        Some(ext) => media_type(without_dot(encode_utf8(ext))),
        None => None,
    }
}

/// `Path::extension` gives, where it gives anything, what stands after the
/// last dot of the last component of the path: a part of the path that
/// follows a dot and holds none. Of a path that is one plain name it gives
/// the extension of that name: what follows its last dot, and nothing
/// where the name has no dot or only the dot that it begins with.
#[verifier::external_body]
fn extension(path: &str) -> (ext: Option<&str>)
    ensures
        ext matches Some(ext) ==> follows_dot(path@, ext@),
        plain_name(path@) ==> match ext {
            Some(ext) => extension_of(path@) == Some(ext@),
            None => extension_of(path@) is None,
        },
{
    match std::path::Path::new(path).extension() {
        Some(ext) => ext.to_str(),
        None => None,
    }
}

fn is_named(ext: &[u8], name: &str) -> (named: bool)
    ensures
        named == (ext@ == name.spec_bytes()),
{
    same_bytes(ext, name.as_bytes())
}

/// The media type of the file at `path`, by the extension that the path has
/// for the operating system: for a plain name, by what follows its last dot.
pub fn by_path(path: &str) -> (mime: Option<&'static str>)
    ensures
        mime matches Some(mime) ==> may_type(path@, mime@),
        plain_name(path@) ==> match mime {
            Some(mime) => type_of(path@) == Some(mime@),
            None => type_of(path@) is None,
        },
{
    let ext = extension(path)?;
    by_extension(ext)
}

/// The media type for the extension `ext`, with or without its dot.
pub fn by_extension(ext: &str) -> (mime: Option<&'static str>)
    ensures
        match mime {
            Some(mime) => media_type(without_dot(ext.spec_bytes())) == Some(mime@),
            None => media_type(without_dot(ext.spec_bytes())) is None,
        },
{
    let ext = ext.as_bytes();
    let ext = if ext.len() > 0 && ext[0] == 46 {
        slice_subrange(ext, 1, ext.len())
    } else {
        ext
    };
    if is_named(ext, "html") || is_named(ext, "htm") {
        Some("text/html")
    } else if is_named(ext, "css") {
        Some("text/css")
    } else if is_named(ext, "mjs") || is_named(ext, "js") {
        Some("text/javascript")
    } else if is_named(ext, "ts") {
        Some("application/typescript")
    } else if is_named(ext, "map") {
        Some("application/json")
    } else if is_named(ext, "csv") {
        Some("text/csv")
    } else if is_named(ext, "txt") {
        Some("text/plain")
    } else if is_named(ext, "json") {
        Some("application/json")
    } else if is_named(ext, "xhtml") {
        Some("application/xhtml+xml")
    } else if is_named(ext, "xml") {
        Some("application/xml")
    } else if is_named(ext, "rss") {
        Some("application/atom+xml")
    } else if is_named(ext, "rs") {
        Some("text/plain")
    } else if is_named(ext, "bmp") {
        Some("image/bmp")
    } else if is_named(ext, "gif") {
        Some("image/gif")
    } else if is_named(ext, "ico") {
        Some("image/vnd.microsoft.icon")
    } else if is_named(ext, "jpg") || is_named(ext, "jpeg") {
        Some("image/jpeg")
    } else if is_named(ext, "png") {
        Some("image/png")
    } else if is_named(ext, "svg") {
        Some("image/svg+xml")
    } else if is_named(ext, "tif") || is_named(ext, "tiff") {
        Some("image/tiff")
    } else if is_named(ext, "otf") {
        Some("font/otf")
    } else if is_named(ext, "sfnt") {
        Some("font/sfnt")
    } else if is_named(ext, "ttf") {
        Some("font/ttf")
    } else if is_named(ext, "woff") {
        Some("font/woff")
    } else if is_named(ext, "woff2") {
        Some("font/woff2")
    } else if is_named(ext, "mid") || is_named(ext, "midi") {
        Some("audio/midi")
    } else if is_named(ext, "mp3") {
        Some("audio/mpeg")
    } else if is_named(ext, "mp4") {
        Some("video/mp4")
    } else if is_named(ext, "mpeg") {
        Some("video/mpeg")
    } else if is_named(ext, "oga") {
        Some("audio/ogg")
    } else if is_named(ext, "ogv") {
        Some("video/ogg")
    } else if is_named(ext, "opus") {
        Some("audio/opus")
    } else if is_named(ext, "wav") {
        Some("audio/wav")
    } else if is_named(ext, "weba") {
        Some("audio/webm")
    } else if is_named(ext, "webm") {
        Some("video/webm")
    } else if is_named(ext, "jar") {
        Some("application/java-archive")
    } else if is_named(ext, "pdf") {
        Some("application/pdf")
    } else if is_named(ext, "wasm") {
        Some("application/wasm")
    } else if is_named(ext, "7z") {
        Some("application/x-7z-compressed")
    } else if is_named(ext, "bz") {
        Some("application/x-bzip")
    } else if is_named(ext, "bz2") {
        Some("application/x-bzip2")
    } else if is_named(ext, "gz") {
        Some("application/gzip")
    } else if is_named(ext, "tar") {
        Some("application/x-tar")
    } else if is_named(ext, "rar") {
        Some("application/vnd.rar")
    } else if is_named(ext, "zip") {
        Some("application/zip")
    } else if is_named(ext, "bin") {
        Some("application/octet-stream")
    } else {
        None
    }
}

/// `index.html` is a plain name, and its type is `text/html`.
pub proof fn lemma_index_html()
    ensures
        plain_name("index.html"@),
        extension_of("index.html"@) == Some("html"@),
        type_of("index.html"@) == Some("text/html"@),
{
    let name = "index.html"@;
    reveal_strlit("index.html");
    reveal_strlit("html");
    reveal_with_fuel(last_dot, 6);
    assert(name.len() == 10);
    assert(last_dot(name) == Some(5int));
    assert(name.subrange(6, 10) =~= "html"@);
    assert(is_ascii_chars("html"@));
    is_ascii_chars_encode_utf8("html"@);
    assert(encode_utf8("html"@)[0] == 104u8);
}

} // verus!
