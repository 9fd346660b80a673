use local_httpd::mime::{by_extension, by_path};

#[test]
fn extensions_have_their_types() {
    let table = [
        ("html", "text/html"), ("htm", "text/html"), ("css", "text/css"),
        ("mjs", "text/javascript"), ("js", "text/javascript"), ("ts", "application/typescript"),
        ("map", "application/json"), ("csv", "text/csv"), ("txt", "text/plain"),
        ("json", "application/json"), ("xhtml", "application/xhtml+xml"),
        ("xml", "application/xml"), ("rss", "application/atom+xml"), ("rs", "text/plain"),
        ("bmp", "image/bmp"), ("gif", "image/gif"), ("ico", "image/vnd.microsoft.icon"),
        ("jpg", "image/jpeg"), ("jpeg", "image/jpeg"), ("png", "image/png"),
        ("svg", "image/svg+xml"), ("tif", "image/tiff"), ("tiff", "image/tiff"),
        ("otf", "font/otf"), ("sfnt", "font/sfnt"), ("ttf", "font/ttf"), ("woff", "font/woff"),
        ("woff2", "font/woff2"), ("mid", "audio/midi"), ("midi", "audio/midi"),
        ("mp3", "audio/mpeg"), ("mp4", "video/mp4"), ("mpeg", "video/mpeg"),
        ("oga", "audio/ogg"), ("ogv", "video/ogg"), ("opus", "audio/opus"), ("wav", "audio/wav"),
        ("weba", "audio/webm"), ("webm", "video/webm"), ("jar", "application/java-archive"),
        ("pdf", "application/pdf"), ("wasm", "application/wasm"),
        ("7z", "application/x-7z-compressed"), ("bz", "application/x-bzip"),
        ("bz2", "application/x-bzip2"), ("gz", "application/gzip"), ("tar", "application/x-tar"),
        ("rar", "application/vnd.rar"), ("zip", "application/zip"),
        ("bin", "application/octet-stream"),
    ];
    for (ext, mime) in table {
        assert_eq!(Some(mime), by_extension(ext), "{}", ext);
        assert_eq!(Some(mime), by_extension(&format!(".{}", ext)), ".{}", ext);
        assert_eq!(Some(mime), by_path(&format!("file.{}", ext)), "file.{}", ext);
    }
}

#[test]
fn other_extensions_have_no_type() {
    for ext in ["", ".", "exe", "HTML", "Html", "html ", " html", "..html", "htmlx", "h", "docx", "\u{e9}"] {
        assert_eq!(None, by_extension(ext), "{:?}", ext);
    }
}

#[test]
fn paths_are_typed_by_their_last_extension() {
    assert_eq!(Some("application/gzip"), by_path("archive.tar.gz"));
    assert_eq!(Some("text/html"), by_path("index.html"));
    assert_eq!(Some("text/html"), by_path("dir.d/index.html"));
    assert_eq!(None, by_path("index"));
    assert_eq!(None, by_path("index.html.bak"));
    assert_eq!(None, by_path(".html"));
    assert_eq!(None, by_path("html"));
    assert_eq!(None, by_path("dir.html/readme"));
    assert_eq!(None, by_path(""));
    assert_eq!(None, by_path("index."));
}

fn after_last_dot(name: &str) -> Option<&str> {
    match name.rfind('.') {
        Some(at) if at > 0 => Some(&name[at + 1..]),
        _ => None,
    }
}

#[test]
fn plain_names_are_typed_by_what_follows_their_last_dot() {
    let names = [
        "", ".", "...", "a", "a.", ".a", ".a.b", "a.b", "a..b", "..a", "a.b.", "index.html",
        "index.html.bak", "a.html.bak", "notes.tsx", "notes.ts", ".html", ".hidden.html", "html",
        "a.tar.gz", "archive.7z", "x.HTML", "caf\u{e9}.png", "\u{e9}.\u{e9}", "a b.txt", " .txt",
        "a.txt ", "a\t.css", "a.js.", "....json", "a.b.c.d.e.wasm", "-.ico", "~.map", "a.woff2",
        "con.txt", "nul", "a.p d f", "a.pdf\u{0}", "*.zip", "?.rar", "a|b.svg", "a\"b.gif",
    ];
    for name in names {
        let expected = match after_last_dot(name) {
            Some(ext) => by_extension(ext),
            None => None,
        };
        assert_eq!(expected, by_path(name), "{:?}", name);
    }
    assert_eq!(Some("text/html"), by_path("index.html"));
    assert_eq!(Some("application/typescript"), by_path("notes.ts"));
    assert_eq!(None, by_path("notes.tsx"));
    assert_eq!(None, by_path("a.html.bak"));
    assert_eq!(Some("text/html"), by_path(".hidden.html"));
    assert_eq!(None, by_path(".html"));
    assert_eq!(None, by_path("..."));
}
