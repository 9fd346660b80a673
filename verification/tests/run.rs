use std::sync::Arc;

use local_httpd::calendar::Timestamp;
use local_httpd::fs::{Entry, FilePath, FileType, Snapshot};
use local_httpd::header::{Received, HEADER_CAPACITY};
use local_httpd::response::{Body, Response};
use local_httpd::run::{next_port, on_connection, Action, Connection, Event, FileOpen};
use local_httpd::webdav::FileMeta;

const FILE: Option<FileType> = Some(FileType { is_dir: false, is_file: true });
const DIR: Option<FileType> = Some(FileType { is_dir: true, is_file: false });

fn at(secs: u64) -> Timestamp {
    Timestamp { before_epoch: false, secs, nanos: 0 }
}

fn snapshot(path: &str, name: Option<&str>, entries: &[(&str, Option<FileType>)]) -> Arc<Snapshot> {
    let entries = entries
        .iter()
        .map(|(entry, kind)| {
            Entry::new(entry.as_bytes().to_vec(), format!("{}/{}", path, entry).into_bytes(), *kind)
        })
        .collect();
    let path = FilePath::new(path.as_bytes().to_vec(), name.map(|name| name.to_string()));
    Arc::new(Snapshot::new(at(1), path, entries))
}

fn root() -> Arc<Snapshot> {
    snapshot(
        "/srv",
        Some("srv"),
        &[("index.html", FILE), ("a.txt", FILE), ("notes", FILE), ("sock", None), ("sub", DIR)],
    )
}

fn sub() -> Arc<Snapshot> {
    snapshot("/srv/sub", Some("sub"), &[("deep", DIR), ("b.txt", FILE), ("index.html", FILE)])
}

fn deep() -> Arc<Snapshot> {
    snapshot("/srv/sub/deep", Some("deep"), &[("c.txt", FILE)])
}

fn begin(webdav: bool, header: &str) -> (Connection, Action) {
    let (mut conn, action) =
        Connection::new(webdav, FilePath::new(b"/srv".to_vec(), Some("srv".to_string())));
    assert!(matches!(action, Action::Read { max: HEADER_CAPACITY }));
    assert!(!conn.is_done());
    let action = on_connection(&mut conn, Event::Received(Received::Data(header.as_bytes().to_vec())));
    (conn, action)
}

fn respond(action: Action) -> Response {
    match action {
        Action::Respond(response) => response,
        other => panic!("{:?}", other),
    }
}

fn head_of(action: Action) -> String {
    let response = respond(action);
    assert!(matches!(response.body, Body::Empty));
    response.head
}

fn read_dir_of(action: Action) -> Vec<u8> {
    match action {
        Action::ReadDir(path) => path.as_bytes().to_vec(),
        other => panic!("{:?}", other),
    }
}

fn open_of(action: Action) -> Vec<u8> {
    match action {
        Action::OpenFile(path) => path.as_bytes().to_vec(),
        other => panic!("{:?}", other),
    }
}

fn stat_of(action: Action) -> Vec<u8> {
    match action {
        Action::Stat(path) => path.as_bytes().to_vec(),
        other => panic!("{:?}", other),
    }
}

const NOT_FOUND: &str = "HTTP/1.0 404 Not Found\r\n\r\n";
const BAD_REQUEST: &str = "HTTP/1.0 400 Bad Request\r\n\r\n";
const TOO_LARGE: &str = "HTTP/1.0 413 Request Too Large\r\n\r\n";
const SERVER_ERROR: &str = "HTTP/1.0 500 Internal Server Error\r\n\r\n";

#[test]
fn get_index_html_is_served_with_type_and_length() {
    let (mut conn, action) = begin(true, "GET /index.html HTTP/1.1\r\nHost: x\r\n\r\n");
    assert_eq!(b"/srv".to_vec(), read_dir_of(action));
    let action = on_connection(&mut conn, Event::Dir(Some(root())));
    assert_eq!(b"/srv/index.html".to_vec(), open_of(action));
    assert!(!conn.is_done());
    let response = respond(on_connection(&mut conn, Event::File(FileOpen::Ready { len: 1234 })));
    assert_eq!(
        "HTTP/1.0 200 OK\r\nContent-Length: 1234\r\nContent-Type: text/html\r\n\r\n",
        response.head
    );
    assert!(matches!(response.body, Body::File { len: 1234 }));
    assert!(conn.is_done());
}

#[test]
fn head_gets_the_head_alone() {
    let (mut conn, _) = begin(true, "HEAD /a.txt HTTP/1.0\r\n\r\n");
    let action = on_connection(&mut conn, Event::Dir(Some(root())));
    assert_eq!(b"/srv/a.txt".to_vec(), open_of(action));
    let head = head_of(on_connection(&mut conn, Event::File(FileOpen::Ready { len: 0 })));
    assert_eq!("HTTP/1.0 200 OK\r\nContent-Length: 0\r\nContent-Type: text/plain\r\n\r\n", head);
}

#[test]
fn file_without_a_known_extension_is_not_found() {
    let (mut conn, _) = begin(true, "GET /notes HTTP/1.1\r\n\r\n");
    let action = on_connection(&mut conn, Event::Dir(Some(root())));
    assert_eq!(b"/srv/notes".to_vec(), open_of(action));
    assert_eq!(NOT_FOUND, head_of(on_connection(&mut conn, Event::File(FileOpen::Ready { len: 9 }))));
    assert!(conn.is_done());
}

#[test]
fn other_methods_on_a_file_are_not_allowed() {
    for method in ["POST", "PUT", "DELETE", "get", "OPTIONS", "PROPFIND", ""] {
        let (mut conn, _) = begin(true, &format!("{} /a.txt HTTP/1.1\r\n\r\n", method));
        on_connection(&mut conn, Event::Dir(Some(root())));
        let head = head_of(on_connection(&mut conn, Event::File(FileOpen::Ready { len: 9 })));
        assert_eq!("HTTP/1.0 405 Method Not Allowed\r\n\r\n", head, "{}", method);
    }
}

#[test]
fn untyped_file_is_not_found_whatever_the_method() {
    let (mut conn, _) = begin(true, "POST /notes HTTP/1.1\r\n\r\n");
    on_connection(&mut conn, Event::Dir(Some(root())));
    assert_eq!(NOT_FOUND, head_of(on_connection(&mut conn, Event::File(FileOpen::Ready { len: 9 }))));
}

#[test]
fn only_the_text_after_the_last_dot_gives_the_type() {
    let names = [("notes.tsx", FILE), ("a.html.bak", FILE), (".html", FILE), ("x.tar.gz", FILE)];
    let dir = snapshot("/srv", Some("srv"), &names);
    for (name, head) in [
        ("notes.tsx", NOT_FOUND),
        ("a.html.bak", NOT_FOUND),
        ("x.tar.gz", "HTTP/1.0 200 OK\r\nContent-Length: 2\r\nContent-Type: application/gzip\r\n\r\n"),
    ] {
        let (mut conn, _) = begin(true, &format!("HEAD /{} HTTP/1.1\r\n\r\n", name));
        let action = on_connection(&mut conn, Event::Dir(Some(dir.clone())));
        assert_eq!(format!("/srv/{}", name).into_bytes(), open_of(action));
        let action = on_connection(&mut conn, Event::File(FileOpen::Ready { len: 2 }));
        assert_eq!(head, head_of(action), "{}", name);
    }
}

#[test]
fn file_that_cannot_be_opened_is_not_found() {
    let (mut conn, _) = begin(true, "GET /a.txt HTTP/1.1\r\n\r\n");
    on_connection(&mut conn, Event::Dir(Some(root())));
    assert_eq!(NOT_FOUND, head_of(on_connection(&mut conn, Event::File(FileOpen::Missing))));
}

#[test]
fn file_without_a_length_is_an_internal_error() {
    let (mut conn, _) = begin(true, "GET /a.txt HTTP/1.1\r\n\r\n");
    on_connection(&mut conn, Event::Dir(Some(root())));
    assert_eq!(SERVER_ERROR, head_of(on_connection(&mut conn, Event::File(FileOpen::NoMetadata))));
}

#[test]
fn missing_file_is_not_found_without_being_opened() {
    let (mut conn, _) = begin(true, "GET /nothing.html HTTP/1.1\r\n\r\n");
    assert_eq!(NOT_FOUND, head_of(on_connection(&mut conn, Event::Dir(Some(root())))));
    assert!(conn.is_done());
}

#[test]
fn names_are_case_exact() {
    let (mut conn, _) = begin(true, "GET /INDEX.HTML HTTP/1.1\r\n\r\n");
    assert_eq!(NOT_FOUND, head_of(on_connection(&mut conn, Event::Dir(Some(root())))));
}

#[test]
fn directories_are_descended_by_name() {
    let (mut conn, action) = begin(true, "GET /sub/deep/c.txt?x HTTP/1.1\r\n\r\n");
    assert_eq!(b"/srv".to_vec(), read_dir_of(action));
    let action = on_connection(&mut conn, Event::Dir(Some(root())));
    assert_eq!(b"/srv/sub".to_vec(), read_dir_of(action));
    let action = on_connection(&mut conn, Event::Dir(Some(sub())));
    assert_eq!(b"/srv/sub/deep".to_vec(), read_dir_of(action));
    let action = on_connection(&mut conn, Event::Dir(Some(deep())));
    assert_eq!(b"/srv/sub/deep/c.txt".to_vec(), open_of(action));
    let response = respond(on_connection(&mut conn, Event::File(FileOpen::Ready { len: 3 })));
    assert_eq!("HTTP/1.0 200 OK\r\nContent-Length: 3\r\nContent-Type: text/plain\r\n\r\n", response.head);
    assert!(matches!(response.body, Body::File { len: 3 }));
}

#[test]
fn missing_directory_is_not_found() {
    let (mut conn, _) = begin(true, "GET /nothing/a.txt HTTP/1.1\r\n\r\n");
    assert_eq!(NOT_FOUND, head_of(on_connection(&mut conn, Event::Dir(Some(root())))));
}

#[test]
fn unreadable_directory_below_the_root_is_not_found() {
    let (mut conn, _) = begin(true, "GET /sub/b.txt HTTP/1.1\r\n\r\n");
    let action = on_connection(&mut conn, Event::Dir(Some(root())));
    assert_eq!(b"/srv/sub".to_vec(), read_dir_of(action));
    assert_eq!(NOT_FOUND, head_of(on_connection(&mut conn, Event::Dir(None))));
}

#[test]
fn unreadable_root_is_an_internal_error() {
    let (mut conn, _) = begin(true, "GET /a.txt HTTP/1.1\r\n\r\n");
    assert_eq!(SERVER_ERROR, head_of(on_connection(&mut conn, Event::Dir(None))));
    let (mut conn, _) = begin(true, "GET /../a.txt HTTP/1.1\r\n\r\n");
    assert_eq!(SERVER_ERROR, head_of(on_connection(&mut conn, Event::Dir(None))));
}

#[test]
fn directory_path_serves_its_index() {
    let (mut conn, _) = begin(true, "GET /sub/ HTTP/1.1\r\n\r\n");
    on_connection(&mut conn, Event::Dir(Some(root())));
    let action = on_connection(&mut conn, Event::Dir(Some(sub())));
    assert_eq!(b"/srv/sub/index.html".to_vec(), open_of(action));
    let (mut conn, _) = begin(true, "GET / HTTP/1.1\r\n\r\n");
    let action = on_connection(&mut conn, Event::Dir(Some(root())));
    assert_eq!(b"/srv/index.html".to_vec(), open_of(action));
}

#[test]
fn directory_without_a_slash_is_looked_up_as_a_file() {
    let (mut conn, _) = begin(true, "GET /sub HTTP/1.1\r\n\r\n");
    let action = on_connection(&mut conn, Event::Dir(Some(root())));
    assert_eq!(b"/srv/sub".to_vec(), open_of(action));
}

#[test]
fn paths_refused_outright_read_nothing() {
    for path in ["index.html", "//", "/a//b", "/sub//", "/a\\b", "\\", "*", "/sub\\..\\x"] {
        let (conn, action) = begin(true, &format!("GET {} HTTP/1.1\r\n\r\n", path));
        assert_eq!(NOT_FOUND, head_of(action), "{}", path);
        assert!(conn.is_done());
    }
}

#[test]
fn dot_components_read_the_root_alone() {
    for path in [
        "/.", "/..", "/./", "/../", "/.git/config", "/sub/../a.txt", "/sub/./b.txt", "/sub/.hidden",
        "/sub/deep/..", "/.index.html", "/../../etc/passwd", "/sub/.git/",
    ] {
        let (mut conn, action) = begin(true, &format!("GET {} HTTP/1.1\r\n\r\n", path));
        assert_eq!(b"/srv".to_vec(), read_dir_of(action), "{}", path);
        assert_eq!(NOT_FOUND, head_of(on_connection(&mut conn, Event::Dir(Some(root())))), "{}", path);
        assert!(conn.is_done());
    }
}

#[test]
fn bad_requests_end_at_once() {
    let (conn, action) = begin(true, "GET /\r\n\r\n");
    assert_eq!(BAD_REQUEST, head_of(action));
    assert!(conn.is_done());
    let (_, action) = begin(true, "GET / HTTP/1.1\r\nDepth: many\r\n\r\n");
    assert_eq!(BAD_REQUEST, head_of(action));
    let (_, action) = begin(true, "GET / HTTP/9\r\n\r\n");
    assert_eq!("HTTP/1.0 505 HTTP Version Not Supported\r\n\r\n", head_of(action));
}

#[test]
fn oversized_header_block_is_too_large() {
    let (mut conn, mut action) =
        Connection::new(true, FilePath::new(b"/srv".to_vec(), None));
    let mut sent = 0;
    loop {
        let max = match action {
            Action::Read { max } => max,
            other => {
                assert_eq!(TOO_LARGE, head_of(other));
                break;
            }
        };
        assert_eq!(HEADER_CAPACITY - sent, max);
        let chunk = vec![b'a'; max.min(3000)];
        sent += chunk.len();
        action = on_connection(&mut conn, Event::Received(Received::Data(chunk)));
    }
    assert_eq!(HEADER_CAPACITY, sent);
    assert!(conn.is_done());
}

#[test]
fn closed_stream_is_a_bad_request() {
    let (mut conn, _) = Connection::new(true, FilePath::new(b"/srv".to_vec(), None));
    let action = on_connection(&mut conn, Event::Received(Received::Data(Vec::new())));
    assert_eq!(BAD_REQUEST, head_of(action));
    assert!(conn.is_done());
    let (mut conn, action) = begin(true, "GET / HTTP/1.1\r\n");
    assert!(matches!(action, Action::Read { .. }));
    let action = on_connection(&mut conn, Event::Received(Received::Data(Vec::new())));
    assert_eq!(BAD_REQUEST, head_of(action));
}

#[test]
fn failed_read_is_answered_as_too_large() {
    let (mut conn, _) = Connection::new(true, FilePath::new(b"/srv".to_vec(), None));
    let action = on_connection(&mut conn, Event::Received(Received::Failed));
    assert_eq!(TOO_LARGE, head_of(action));
}

#[test]
fn header_in_several_reads() {
    let (mut conn, action) = begin(true, "GET /a.txt HT");
    assert!(matches!(action, Action::Read { max } if max == HEADER_CAPACITY - 13));
    let action = on_connection(&mut conn, Event::Received(Received::Data(b"TP/1.1\r\n\r".to_vec())));
    assert!(matches!(action, Action::Read { .. }));
    let action = on_connection(&mut conn, Event::Received(Received::Data(b"\nbody".to_vec())));
    assert_eq!(b"/srv".to_vec(), read_dir_of(action));
}

#[test]
fn what_was_not_asked_for_is_an_internal_error() {
    let (mut conn, _) = begin(true, "GET /a.txt HTTP/1.1\r\n\r\n");
    assert_eq!(SERVER_ERROR, head_of(on_connection(&mut conn, Event::File(FileOpen::Missing))));
    assert!(conn.is_done());
    assert_eq!(SERVER_ERROR, head_of(on_connection(&mut conn, Event::Dir(Some(root())))));
    let (mut conn, _) = Connection::new(true, FilePath::new(b"/srv".to_vec(), None));
    assert_eq!(SERVER_ERROR, head_of(on_connection(&mut conn, Event::Meta(None))));
    let (mut conn, _) = begin(true, "GET /a.txt HTTP/1.1\r\n\r\n");
    on_connection(&mut conn, Event::Dir(Some(root())));
    let action = on_connection(&mut conn, Event::Received(Received::Data(b"x".to_vec())));
    assert_eq!(SERVER_ERROR, head_of(action));
}

#[test]
fn options_on_a_directory() {
    let (mut conn, _) = begin(true, "OPTIONS / HTTP/1.1\r\n\r\n");
    let head = head_of(on_connection(&mut conn, Event::Dir(Some(root()))));
    assert_eq!("HTTP/1.1 204 No Content\r\nAllow: OPTIONS, PROPFIND, GET, HEAD\r\n\r\n", head);
    assert!(conn.is_done());
}

#[test]
fn without_webdav_a_directory_is_its_index() {
    for method in ["OPTIONS", "PROPFIND"] {
        let (mut conn, _) = begin(false, &format!("{} / HTTP/1.1\r\n\r\n", method));
        let action = on_connection(&mut conn, Event::Dir(Some(root())));
        assert_eq!(b"/srv/index.html".to_vec(), open_of(action));
        let head = head_of(on_connection(&mut conn, Event::File(FileOpen::Ready { len: 1 })));
        assert_eq!("HTTP/1.0 405 Method Not Allowed\r\n\r\n", head);
    }
}

#[test]
fn webdav_methods_on_a_file_path_are_not_allowed() {
    let (mut conn, _) = begin(true, "PROPFIND /a.txt HTTP/1.1\r\nDepth: 0\r\n\r\n");
    let action = on_connection(&mut conn, Event::Dir(Some(root())));
    assert_eq!(b"/srv/a.txt".to_vec(), open_of(action));
}

fn dir_xml(href: &str, name: &str) -> String {
    format!(
        "  <response>\n    <href>{}</href>\n    <propstat>\n      <prop>\n        <displayname>{}</displayname>\n        <resourcetype><collection/></resourcetype>\n      </prop>\n      <status>HTTP/1.0 200 OK</status>\n    </propstat>\n  </response>\n",
        href, name
    )
}

fn file_xml(href: &str, name: &str, properties: &str) -> String {
    format!(
        "  <response>\n    <href>{}</href>\n    <propstat>\n      <prop>\n        <displayname>{}</displayname>\n        <resourcetype/>\n{}      </prop>\n      <status>HTTP/1.0 200 OK</status>\n    </propstat>\n  </response>\n",
        href, name, properties
    )
}

fn document(responses: &[String]) -> String {
    format!(
        "<?xml version=\"1.0\" encoding=\"utf-8\" ?>\n<multistatus xmlns=\"DAV:\"> \n{}</multistatus>\n",
        responses.concat()
    )
}

fn multistatus(action: Action) -> String {
    let response = respond(action);
    let xml = match response.body {
        Body::Text(xml) => xml,
        other => panic!("{:?}", other),
    };
    assert_eq!(
        format!(
            "HTTP/1.1 207 Multi-Status\r\nContent-Type: application/xml; charset=\"utf-8\"\r\nContent-Length: {}\r\n\r\n",
            xml.len()
        ),
        response.head
    );
    xml
}

#[test]
fn propfind_depth_0_lists_the_directory_alone() {
    let (mut conn, _) = begin(true, "PROPFIND / HTTP/1.1\r\nDepth: 0\r\n\r\n");
    let xml = multistatus(on_connection(&mut conn, Event::Dir(Some(root()))));
    assert_eq!(document(&[dir_xml("/", "srv")]), xml);
    assert_eq!(1, xml.matches("<response>").count());
    assert!(conn.is_done());
}

#[test]
fn propfind_depth_1_lists_the_children_too() {
    let (mut conn, _) = begin(true, "PROPFIND / HTTP/1.1\r\nDepth: 1\r\n\r\n");
    let action = on_connection(&mut conn, Event::Dir(Some(root())));
    assert_eq!(b"/srv/index.html".to_vec(), stat_of(action));
    let meta = FileMeta { len: 10, created: Some(at(0)), modified: Some(at(951782400)) };
    let action = on_connection(&mut conn, Event::Meta(Some(meta)));
    assert_eq!(b"/srv/a.txt".to_vec(), stat_of(action));
    let meta = FileMeta { len: 0, created: None, modified: None };
    let action = on_connection(&mut conn, Event::Meta(Some(meta)));
    assert_eq!(b"/srv/notes".to_vec(), stat_of(action));
    let before = Timestamp { before_epoch: true, secs: 1, nanos: 0 };
    let meta = FileMeta { len: 77, created: Some(before), modified: Some(at(86400)) };
    let action = on_connection(&mut conn, Event::Meta(Some(meta)));
    assert_eq!(b"/srv/sub".to_vec(), read_dir_of(action));
    let xml = multistatus(on_connection(&mut conn, Event::Dir(Some(sub()))));
    let expected = document(&[
        dir_xml("/", "srv"),
        file_xml(
            "/index.html",
            "index.html",
            "        <getcontentlength>10</getcontentlength>\n        <creationdate>1970-01-01T00:00:00-00:00</creationdate>\n        <getlastmodified>Tue, 29 Feb 2000 00:00:00 GMT</getlastmodified>\n",
        ),
        file_xml("/a.txt", "a.txt", "        <getcontentlength>0</getcontentlength>\n"),
        file_xml(
            "/notes",
            "notes",
            "        <getcontentlength>77</getcontentlength>\n        <getlastmodified>Fri, 2 Jan 1970 00:00:00 GMT</getlastmodified>\n",
        ),
        dir_xml("/sub/", "sub"),
    ]);
    assert_eq!(expected, xml);
    assert_eq!(5, xml.matches("<response>").count());
}

fn walk_all(conn: &mut Connection, mut action: Action) -> String {
    loop {
        action = match action {
            Action::Stat(path) => {
                let len = path.as_bytes().len() as u64;
                on_connection(conn, Event::Meta(Some(FileMeta { len, created: None, modified: None })))
            }
            Action::ReadDir(path) => {
                let dir = match path.as_bytes() {
                    b"/srv/sub" => sub(),
                    b"/srv/sub/deep" => deep(),
                    other => panic!("{:?}", other),
                };
                on_connection(conn, Event::Dir(Some(dir)))
            }
            other => return multistatus(other),
        };
    }
}

fn sized(href: &str, name: &str, len: usize) -> String {
    file_xml(href, name, &format!("        <getcontentlength>{}</getcontentlength>\n", len))
}

#[test]
fn propfind_without_depth_lists_the_whole_tree() {
    let (mut conn, _) = begin(true, "PROPFIND / HTTP/1.1\r\n\r\n");
    let action = on_connection(&mut conn, Event::Dir(Some(root())));
    let xml = walk_all(&mut conn, action);
    let expected = document(&[
        dir_xml("/", "srv"),
        sized("/index.html", "index.html", 15),
        sized("/a.txt", "a.txt", 10),
        sized("/notes", "notes", 10),
        dir_xml("/sub/", "sub"),
        dir_xml("/sub/deep/", "deep"),
        sized("/sub/deep/c.txt", "c.txt", 19),
        sized("/sub/b.txt", "b.txt", 14),
        sized("/sub/index.html", "index.html", 19),
    ]);
    assert_eq!(expected, xml);
}

#[test]
fn propfind_depth_2_stops_two_levels_down() {
    let (mut conn, _) = begin(true, "PROPFIND / HTTP/1.1\r\nDepth: 2\r\n\r\n");
    let action = on_connection(&mut conn, Event::Dir(Some(root())));
    let xml = walk_all(&mut conn, action);
    let expected = document(&[
        dir_xml("/", "srv"),
        sized("/index.html", "index.html", 15),
        sized("/a.txt", "a.txt", 10),
        sized("/notes", "notes", 10),
        dir_xml("/sub/", "sub"),
        dir_xml("/sub/deep/", "deep"),
        sized("/sub/b.txt", "b.txt", 14),
        sized("/sub/index.html", "index.html", 19),
    ]);
    assert_eq!(expected, xml);
}

#[test]
fn propfind_of_a_subdirectory_uses_the_request_path() {
    let (mut conn, _) = begin(true, "PROPFIND /sub/deep/ HTTP/1.1\r\nDepth: 1\r\n\r\n");
    on_connection(&mut conn, Event::Dir(Some(root())));
    on_connection(&mut conn, Event::Dir(Some(sub())));
    let action = on_connection(&mut conn, Event::Dir(Some(deep())));
    let xml = walk_all(&mut conn, action);
    assert_eq!(
        document(&[dir_xml("/sub/deep/", "deep"), sized("/sub/deep/c.txt", "c.txt", 19)]),
        xml
    );
}

#[test]
fn propfind_of_a_directory_without_a_name_is_untitled() {
    let (mut conn, _) = begin(true, "PROPFIND / HTTP/1.1\r\nDepth: 0\r\n\r\n");
    let dir = snapshot("/", None, &[]);
    let xml = multistatus(on_connection(&mut conn, Event::Dir(Some(dir))));
    assert_eq!(document(&[dir_xml("/", "Untitled")]), xml);
}

#[test]
fn propfind_of_an_empty_directory() {
    let (mut conn, _) = begin(true, "PROPFIND / HTTP/1.1\r\n\r\n");
    let dir = snapshot("/srv", Some("srv"), &[("x", None)]);
    let xml = multistatus(on_connection(&mut conn, Event::Dir(Some(dir))));
    assert_eq!(document(&[dir_xml("/", "srv")]), xml);
}

#[test]
fn propfind_fails_as_a_whole_when_a_directory_cannot_be_read() {
    let (mut conn, _) = begin(true, "PROPFIND / HTTP/1.1\r\n\r\n");
    let mut action = on_connection(&mut conn, Event::Dir(Some(root())));
    while let Action::Stat(_) = action {
        let meta = FileMeta { len: 1, created: None, modified: None };
        action = on_connection(&mut conn, Event::Meta(Some(meta)));
    }
    assert_eq!(b"/srv/sub".to_vec(), read_dir_of(action));
    assert_eq!(SERVER_ERROR, head_of(on_connection(&mut conn, Event::Dir(None))));
    assert!(conn.is_done());
}

#[test]
fn propfind_fails_as_a_whole_when_a_file_cannot_be_examined() {
    let (mut conn, _) = begin(true, "PROPFIND / HTTP/1.1\r\nDepth: 1\r\n\r\n");
    let action = on_connection(&mut conn, Event::Dir(Some(root())));
    assert_eq!(b"/srv/index.html".to_vec(), stat_of(action));
    let meta = FileMeta { len: 1, created: None, modified: None };
    let action = on_connection(&mut conn, Event::Meta(Some(meta)));
    assert_eq!(b"/srv/a.txt".to_vec(), stat_of(action));
    assert_eq!(SERVER_ERROR, head_of(on_connection(&mut conn, Event::Meta(None))));
    assert!(conn.is_done());
}

#[test]
fn propfind_counts_the_length_in_bytes() {
    let (mut conn, _) = begin(true, "PROPFIND /caf\u{e9}/ HTTP/1.1\r\nDepth: 0\r\n\r\n");
    let top = snapshot("/srv", Some("srv"), &[("caf\u{e9}", DIR)]);
    let action = on_connection(&mut conn, Event::Dir(Some(top)));
    assert_eq!("/srv/caf\u{e9}".as_bytes().to_vec(), read_dir_of(action));
    let dir = snapshot("/srv/caf\u{e9}", Some("caf\u{e9}"), &[]);
    let xml = multistatus(on_connection(&mut conn, Event::Dir(Some(dir))));
    assert_eq!(document(&[dir_xml("/caf\u{e9}/", "caf\u{e9}")]), xml);
    assert!(xml.len() > xml.chars().count());
}

#[test]
fn ports_are_tried_in_order_up_to_the_last() {
    assert_eq!(Some(9001), next_port(9000));
    assert_eq!(Some(9002), next_port(9001));
    assert_eq!(Some(9999), next_port(9998));
    assert_eq!(None, next_port(9999));
    assert_eq!(None, next_port(u16::MAX));
    let mut port = local_httpd::run::PORT_BASE;
    let mut tried = 0;
    while let Some(next) = next_port(port) {
        port = next;
        tried += 1;
    }
    assert_eq!(999, tried);
    assert_eq!(local_httpd::run::PORT_LAST, port);
}
