//! One connection from its first byte to its response, as a machine that
//! is told what each read of the outside world gave and says what to do next.

use std::sync::Arc;
use vstd::prelude::*;
use vstd::string::{StringExecFns, StringSliceAdditionalSpecFns};
use vstd::utf8::encode_utf8;
use crate::bytes::{contains, find, lemma_find_sound, occurs_at, same_bytes};
use crate::fs::{last_named, lemma_last_named, FilePath, FilePathView, Snapshot, SnapshotView};
use crate::header::{
    read_header_discard_body,
    taken,
    terminator,
    HeaderReader,
    HeaderStep,
    Received,
    HEADER_CAPACITY,
};
use crate::mime::{by_path, lemma_index_html, may_type, plain_name, type_of};
use crate::request::{parse_request, parsed, Request, RequestView};
use crate::resolve::{
    lemma_unsafe_path_refused,
    plan,
    planned,
    refused,
    refused_outright,
    Plan,
    PlanView,
};
use crate::response::{failure, Body, BodyView, Response, ResponseView, Status};
use crate::text::{decimal, push_decimal};
use crate::webdav::{
    begun,
    continued,
    lemma_begun_asks_entries,
    lemma_continued_asks_entries,
    listed_within,
    lists,
    respond_propfind_dir,
    FileMeta,
    Found,
    FoundView,
    Propfind,
    PropfindView,
    Walk,
    WalkView,
};

verus! {

/// The port before the first that is tried.
pub const PORT_BASE: u16 = 9000;

/// The last port that is tried.
pub const PORT_LAST: u16 = 9999;

/// The port to try after `port` could not be listened at, while any is left.
pub fn next_port(port: u16) -> (next: Option<u16>)
    ensures
        next == if port < PORT_LAST {
            Some((port + 1) as u16)
        } else {
            None
        },
{
    if port < PORT_LAST {
        Some(port + 1)
    } else {
        None
    }
}

/// What opening a file gave.
#[derive(Clone, Copy, Debug, PartialEq, Eq, Structural)]
pub enum FileOpen {
    /// The file could not be opened.
    Missing,
    /// The file is open, but its length could not be read.
    NoMetadata,
    /// The file is open and holds `len` bytes.
    Ready { len: u64 },
}

/// What the outside world gave when it was asked.
#[derive(Debug)]
pub enum Event {
    /// To `Action::Read`: what the read of the connection gave.
    Received(Received),
    /// To `Action::ReadDir`: the snapshot of the directory, unless it could not be read.
    Dir(Option<Arc<Snapshot>>),
    /// To `Action::OpenFile`: what opening the file gave.
    File(FileOpen),
    /// To `Action::Stat`: what the file system tells of the file, unless it told nothing.
    Meta(Option<FileMeta>),
}

/// An event as contracts see it.
pub enum EventView {
    Failed,
    Data(Seq<u8>),
    Dir(Option<SnapshotView>),
    File(FileOpen),
    Meta(Option<FileMeta>),
}

impl View for Event {
    type V = EventView;

    open spec fn view(&self) -> EventView {
        match self {
            Event::Received(Received::Failed) => EventView::Failed,
            Event::Received(Received::Data(chunk)) => EventView::Data(chunk@),
            Event::Dir(Some(dir)) => EventView::Dir(Some(dir@)),
            Event::Dir(None) => EventView::Dir(None),
            Event::File(open) => EventView::File(*open),
            Event::Meta(meta) => EventView::Meta(*meta),
        }
    }
}

/// What to do next.
#[derive(Debug)]
pub enum Action {
    /// Read at most `max` bytes from the connection.
    Read { max: usize },
    /// Read the directory at this path, through the cache.
    ReadDir(FilePath),
    /// Open the file at this path and read its length.
    OpenFile(FilePath),
    /// Ask the file system about the file at this path.
    Stat(FilePath),
    /// Send this response and close the connection.
    Respond(Response),
}

/// An action as contracts see it.
pub enum ActionView {
    Read { max: usize },
    ReadDir(FilePathView),
    OpenFile(FilePathView),
    Stat(FilePathView),
    Respond(ResponseView),
}

impl View for Action {
    type V = ActionView;

    open spec fn view(&self) -> ActionView {
        match self {
            Action::Read { max } => ActionView::Read { max: *max },
            Action::ReadDir(path) => ActionView::ReadDir(path@),
            Action::OpenFile(path) => ActionView::OpenFile(path@),
            Action::Stat(path) => ActionView::Stat(path@),
            Action::Respond(response) => ActionView::Respond(response@),
        }
    }
}

/// How far a connection has come.
enum Phase {
    Header(HeaderReader),
    Root(Request),
    Walk { request: Request, plan: Plan, done: usize },
    File { method: Vec<u8>, name: String },
    Listing(Propfind),
    Done,
}

/// How far a connection has come, as contracts see it.
pub enum PhaseView {
    /// The header block is being read; these bytes of it are held.
    Header(Seq<u8>),
    /// The request is decoded; the root directory is being read.
    Root(RequestView),
    /// The first `done` directories of the plan are found; the next is being read.
    Walk { request: RequestView, plan: PlanView, done: int },
    /// The file that is displayed as `name` is being opened.
    File { method: Seq<u8>, name: Seq<char> },
    /// A listing is under way.
    Listing(PropfindView),
    /// The response is given.
    Done,
}

impl Phase {
    /// While directories are being found, one of them is still to be found.
    spec fn sound(self) -> bool {
        match self {
            Phase::Walk { request, plan, done } => done < plan.dirs@.len(),
            _ => true,
        }
    }
}

impl View for Phase {
    type V = PhaseView;

    closed spec fn view(&self) -> PhaseView {
        match self {
            Phase::Header(reader) => PhaseView::Header(reader@),
            Phase::Root(request) => PhaseView::Root(request@),
            Phase::Walk { request, plan, done } => PhaseView::Walk {
                request: request@,
                plan: plan@,
                done: *done as int,
            },
            Phase::File { method, name } => PhaseView::File { method: method@, name: name@ },
            Phase::Listing(listing) => PhaseView::Listing(listing@),
            Phase::Done => PhaseView::Done,
        }
    }
}

/// One connection.
pub struct Connection {
    webdav: bool,
    root: FilePath,
    phase: Phase,
}

/// A connection as contracts see it.
pub struct ConnectionView {
    /// Whether `OPTIONS` and `PROPFIND` are answered.
    pub webdav: bool,
    /// The directory that is served.
    pub root: FilePathView,
    pub phase: PhaseView,
}

impl View for Connection {
    type V = ConnectionView;

    closed spec fn view(&self) -> ConnectionView {
        ConnectionView { webdav: self.webdav, root: self.root@, phase: self.phase@ }
    }
}

/// The end of a connection in the failure `status`.
pub open spec fn failed(status: Status) -> (PhaseView, ActionView) {
    (PhaseView::Done, ActionView::Respond(failure(status)))
}

/// The answer to `OPTIONS`.
pub open spec fn options_response() -> ResponseView {
    ResponseView {
        head: "HTTP/1.1 204 No Content\r\nAllow: OPTIONS, PROPFIND, GET, HEAD\r\n\r\n"@,
        body: BodyView::Empty,
    }
}

/// The answer to `PROPFIND`: the document `xml`, with its length in bytes.
pub open spec fn multistatus_response(xml: Seq<char>) -> ResponseView {
    ResponseView {
        head:
            "HTTP/1.1 207 Multi-Status\r\nContent-Type: application/xml; charset=\"utf-8\"\r\nContent-Length: "@
            + decimal(encode_utf8(xml).len()) + "\r\n\r\n"@,
        body: BodyView::Text(xml),
    }
}

/// The head of the answer that serves a file of `len` bytes and the type `mime`.
pub open spec fn file_head(len: u64, mime: Seq<char>) -> Seq<char> {
    "HTTP/1.0 200 OK\r\nContent-Length: "@ + decimal(len as nat) + "\r\nContent-Type: "@ + mime
        + "\r\n\r\n"@
}

/// What a listing that has come to `step` means for the connection.
pub open spec fn listing(step: (PropfindView, WalkView)) -> (PhaseView, ActionView) {
    match step.1 {
        WalkView::ReadDir(path) => (PhaseView::Listing(step.0), ActionView::ReadDir(path)),
        WalkView::Stat(path) => (PhaseView::Listing(step.0), ActionView::Stat(path)),
        WalkView::Done(xml) => (PhaseView::Done, ActionView::Respond(multistatus_response(xml))),
        WalkView::Failed => failed(Status::InternalServerError),
    }
}

/// The directory that the path leads to is `dir`. Where the path names a
/// directory and WebDAV is on, `OPTIONS` is answered and `PROPFIND` begins
/// a listing; in every other case the file of the plan is looked up by
/// its name and opened.
pub open spec fn arrived(
    conn: ConnectionView,
    request: RequestView,
    plan: PlanView,
    dir: SnapshotView,
) -> (PhaseView, ActionView) {
    if plan.is_dir && conn.webdav && request.method == "OPTIONS".spec_bytes() {
        (PhaseView::Done, ActionView::Respond(options_response()))
    } else if plan.is_dir && conn.webdav && request.method == "PROPFIND".spec_bytes() {
        listing(begun(request.path, dir, request.headers.depth))
    } else {
        match last_named(dir.entries, plan.file) {
            None => failed(Status::NotFound),
            Some(index) => (
                PhaseView::File { method: request.method, name: dir.entries[index].name_lossy },
                ActionView::OpenFile(dir.entries[index].path),
            ),
        }
    }
}

/// The first `done` directories of the plan are found, and the last of
/// them is `dir`. The next is looked up in it by its name, and read; a name
/// that the directory does not hold ends the connection as not found.
pub open spec fn descended(
    conn: ConnectionView,
    request: RequestView,
    plan: PlanView,
    done: int,
    dir: SnapshotView,
) -> (PhaseView, ActionView) {
    if 0 <= done < plan.dirs.len() {
        match last_named(dir.entries, plan.dirs[done]) {
            None => failed(Status::NotFound),
            Some(index) => (
                PhaseView::Walk { request, plan, done },
                ActionView::ReadDir(dir.entries[index].path),
            ),
        }
    } else {
        arrived(conn, request, plan, dir)
    }
}

/// The request is decoded. A path that is refused outright ends the
/// connection as not found before anything is read; for any other the root
/// directory is read.
pub open spec fn accepted(conn: ConnectionView, request: RequestView) -> (PhaseView, ActionView) {
    if refused_outright(encode_utf8(request.path)) {
        failed(Status::NotFound)
    } else {
        (PhaseView::Root(request), ActionView::ReadDir(conn.root))
    }
}

/// A read of the connection gave `chunk` after `held`.
pub open spec fn after_data(conn: ConnectionView, held: Seq<u8>, chunk: Seq<u8>) -> (
    PhaseView,
    ActionView,
) {
    if chunk.len() == 0 {
        failed(Status::BadRequest)
    } else {
        let all = taken(held, chunk);
        match find(all, terminator()) {
            Some(at) => match parsed(all.subrange(0, at)) {
                Ok(request) => accepted(conn, request),
                Err(status) => failed(status),
            },
            None => if all.len() == HEADER_CAPACITY {
                failed(Status::RequestTooLarge)
            } else {
                (
                    PhaseView::Header(all),
                    ActionView::Read { max: (HEADER_CAPACITY - all.len()) as usize },
                )
            },
        }
    }
}

/// The root directory was read. Without it the connection ends in an
/// internal error; with it, a path that is refused ends the connection as
/// not found, and any other is followed from the root.
pub open spec fn after_root(
    conn: ConnectionView,
    request: RequestView,
    dir: Option<SnapshotView>,
) -> (PhaseView, ActionView) {
    match dir {
        None => failed(Status::InternalServerError),
        Some(dir) => match planned(encode_utf8(request.path)) {
            None => failed(Status::NotFound),
            Some(plan) => descended(conn, request, plan, 0, dir),
        },
    }
}

/// The answer to `method` for a file of `len` bytes and the type `mime`:
/// to `HEAD` the head alone, to `GET` the head and the file, and to any
/// other method that it is not allowed.
pub open spec fn file_answer(method: Seq<u8>, len: u64, mime: Seq<char>) -> ResponseView {
    if method == "HEAD".spec_bytes() {
        ResponseView { head: file_head(len, mime), body: BodyView::Empty }
    } else if method == "GET".spec_bytes() {
        ResponseView { head: file_head(len, mime), body: BodyView::File { len } }
    } else {
        failure(Status::MethodNotAllowed)
    }
}

/// The file that is displayed as `name` was opened for the method
/// `method`, with the result `open`. A file that cannot be opened is not
/// found; one without a length is an internal error. A file with a plain
/// name is answered by the type of its extension, and is not found where
/// the extension has none. A file with any other name is answered with a
/// type that its name may have, or is not found.
pub open spec fn served(
    method: Seq<u8>,
    name: Seq<char>,
    open: FileOpen,
    action: ActionView,
) -> bool {
    match open {
        FileOpen::Missing => action == ActionView::Respond(failure(Status::NotFound)),
        FileOpen::NoMetadata => action == ActionView::Respond(
            failure(Status::InternalServerError),
        ),
        FileOpen::Ready { len } => if plain_name(name) {
            action == ActionView::Respond(
                match type_of(name) {
                    Some(mime) => file_answer(method, len, mime),
                    None => failure(Status::NotFound),
                },
            )
        } else {
            ||| action == ActionView::Respond(failure(Status::NotFound))
            ||| exists|mime: Seq<char>| #[trigger]
                may_type(name, mime) && action == ActionView::Respond(
                    file_answer(method, len, mime),
                )
        },
    }
}

/// How a connection goes on when the outside world gave `event`: from
/// `before` to `after`, with `action` to do next. What was not asked for
/// ends the connection in an internal error.
pub open spec fn steps(
    before: ConnectionView,
    event: EventView,
    after: ConnectionView,
    action: ActionView,
) -> bool {
    &&& after.webdav == before.webdav
    &&& after.root == before.root
    &&& match (before.phase, event) {
        (PhaseView::Header(held), EventView::Failed) => (after.phase, action) == failed(
            Status::RequestTooLarge,
        ),
        (PhaseView::Header(held), EventView::Data(chunk)) => (after.phase, action) == after_data(
            before,
            held,
            chunk,
        ),
        (PhaseView::Root(request), EventView::Dir(dir)) => (after.phase, action) == after_root(
            before,
            request,
            dir,
        ),
        (PhaseView::Walk { request, plan, done }, EventView::Dir(dir)) => (after.phase, action)
            == match dir {
            None => failed(Status::NotFound),
            Some(dir) => descended(before, request, plan, done + 1, dir),
        },
        (PhaseView::File { method, name }, EventView::File(open)) => after.phase
            == PhaseView::Done && served(method, name, open, action),
        (PhaseView::Listing(walk), EventView::Dir(dir)) => (after.phase, action) == listing(
            continued(walk, FoundView::Dir(dir)),
        ),
        (PhaseView::Listing(walk), EventView::Meta(meta)) => (after.phase, action) == listing(
            continued(walk, FoundView::Meta(meta)),
        ),
        _ => (after.phase, action) == failed(Status::InternalServerError),
    }
}

fn fail(status: Status) -> (end: (Phase, Action))
    ensures
        (end.0@, end.1@) == failed(status),
        end.0.sound(),
{
    (Phase::Done, Action::Respond(Response::failure(status)))
}

fn listing_step(listing: Propfind, next: Walk) -> (step: (Phase, Action))
    ensures
        (step.0@, step.1@) == self::listing((listing@, next@)),
        step.0.sound(),
{
    match next {
        Walk::ReadDir(path) => (Phase::Listing(listing), Action::ReadDir(path)),
        Walk::Stat(path) => (Phase::Listing(listing), Action::Stat(path)),
        Walk::Done(xml) => {
            let mut head = String::new();
            head.append(
                "HTTP/1.1 207 Multi-Status\r\nContent-Type: application/xml; charset=\"utf-8\"\r\nContent-Length: ",
            );
            push_decimal(&mut head, xml.as_str().as_bytes().len() as u64);
            head.append("\r\n\r\n");
            assert(head@ =~= multistatus_response(xml@).head);
            (Phase::Done, Action::Respond(Response { head, body: Body::Text(xml) }))
        },
        Walk::Failed => fail(Status::InternalServerError),
    }
}

impl Connection {
    #[verifier::type_invariant]
    spec fn sound(self) -> bool {
        self.phase.sound()
    }

    /// A connection on which nothing was read yet, and the first thing to do.
    pub fn new(webdav: bool, root: FilePath) -> (begin: (Connection, Action))
        ensures
            begin.0@ == (ConnectionView {
                webdav,
                root: root@,
                phase: PhaseView::Header(Seq::empty()),
            }),
            begin.1@ == (ActionView::Read { max: HEADER_CAPACITY }),
    {
        let reader = HeaderReader::new();
        let max = reader.remaining();
        (Connection { webdav, root, phase: Phase::Header(reader) }, Action::Read { max })
    }

    /// Whether the response is given.
    pub fn is_done(&self) -> (done: bool)
        ensures
            done == (self@.phase is Done),
    {
        match &self.phase {
            Phase::Done => true,
            _ => false,
        }
    }

    fn arrive(&self, request: Request, plan: Plan, dir: Arc<Snapshot>) -> (step: (Phase, Action))
        ensures
            (step.0@, step.1@) == arrived(self@, request@, plan@, dir@),
            step.0.sound(),
    {
        if plan.is_dir && self.webdav && same_bytes(
            request.method.as_slice(),
            "OPTIONS".as_bytes(),
        ) {
            let head = "HTTP/1.1 204 No Content\r\nAllow: OPTIONS, PROPFIND, GET, HEAD\r\n\r\n";
            return (
                Phase::Done,
                Action::Respond(Response { head: head.to_owned(), body: Body::Empty }),
            );
        }
        if plan.is_dir && self.webdav && same_bytes(
            request.method.as_slice(),
            "PROPFIND".as_bytes(),
        ) {
            let (listing, next) = respond_propfind_dir(
                request.path.as_str(),
                dir,
                request.headers.depth,
            );
            return listing_step(listing, next);
        }
        match dir.by_name(plan.file.as_slice()) {
            None => fail(Status::NotFound),
            Some(entry) => (
                Phase::File { method: request.method, name: entry.name_lossy().to_owned() },
                Action::OpenFile(entry.path().clone()),
            ),
        }
    }

    fn descend(&self, request: Request, plan: Plan, done: usize, dir: Arc<Snapshot>) -> (step: (
        Phase,
        Action,
    ))
        ensures
            (step.0@, step.1@) == descended(self@, request@, plan@, done as int, dir@),
            step.0.sound(),
    {
        if done < plan.dirs.len() {
            match dir.by_name(plan.dirs[done].as_slice()) {
                None => fail(Status::NotFound),
                Some(entry) => {
                    let path = entry.path().clone();
                    (Phase::Walk { request, plan, done }, Action::ReadDir(path))
                },
            }
        } else {
            self.arrive(request, plan, dir)
        }
    }

    fn accept(&self, request: Request) -> (step: (Phase, Action))
        ensures
            (step.0@, step.1@) == accepted(self@, request@),
            step.0.sound(),
    {
        if refused(request.path.as_str().as_bytes()) {
            fail(Status::NotFound)
        } else {
            let root = self.root.clone();
            (Phase::Root(request), Action::ReadDir(root))
        }
    }

    fn serve(method: Vec<u8>, name: String, open: FileOpen) -> (action: Action)
        ensures
            served(method@, name@, open, action@),
    {
        let len = match open {
            FileOpen::Missing => {
                return Action::Respond(Response::failure(Status::NotFound));
            },
            FileOpen::NoMetadata => {
                return Action::Respond(Response::failure(Status::InternalServerError));
            },
            FileOpen::Ready { len } => len,
        };
        let mime = match by_path(name.as_str()) {
            Some(mime) => mime,
            None => {
                return Action::Respond(Response::failure(Status::NotFound));
            },
        };
        let mut head = String::new();
        head.append("HTTP/1.0 200 OK\r\nContent-Length: ");
        push_decimal(&mut head, len);
        head.append("\r\nContent-Type: ");
        head.append(mime);
        head.append("\r\n\r\n");
        let response = if same_bytes(method.as_slice(), "HEAD".as_bytes()) {
            Response { head, body: Body::Empty }
        } else if same_bytes(method.as_slice(), "GET".as_bytes()) {
            Response { head, body: Body::File { len } }
        } else {
            Response::failure(Status::MethodNotAllowed)
        };
        assert(response@ == file_answer(method@, len, mime@));
        assert(may_type(name@, mime@));
        Action::Respond(response)
    }
}

/// Takes what the outside world gave to the last action, and says what to do next.
pub fn on_connection(conn: &mut Connection, event: Event) -> (action: Action)
    ensures
        steps(old(conn)@, event@, final(conn)@, action@),
{
    proof {
        use_type_invariant(&*conn);
    }
    let mut phase = Phase::Done;
    core::mem::swap(&mut conn.phase, &mut phase);
    let (next, action) = match (phase, event) {
        (Phase::Header(mut reader), Event::Received(received)) => {
            match read_header_discard_body(&mut reader, received) {
                HeaderStep::More { max } => (Phase::Header(reader), Action::Read { max }),
                HeaderStep::Failed(status) => fail(status),
                HeaderStep::Complete(header) => match parse_request(header.as_slice()) {
                    Ok(request) => conn.accept(request),
                    Err(status) => fail(status),
                },
            }
        },
        (Phase::Root(request), Event::Dir(dir)) => match dir {
            None => fail(Status::InternalServerError),
            Some(dir) => match plan(request.path.as_str().as_bytes()) {
                None => fail(Status::NotFound),
                Some(plan) => conn.descend(request, plan, 0, dir),
            },
        },
        (Phase::Walk { request, plan, done }, Event::Dir(dir)) => match dir {
            None => fail(Status::NotFound),
            Some(dir) => {
                assert(plan.dirs@.len() == plan.dirs.len());
                conn.descend(request, plan, done + 1, dir)
            },
        },
        (Phase::File { method, name }, Event::File(open)) => (
            Phase::Done,
            Connection::serve(method, name, open),
        ),
        (Phase::Listing(mut listing), Event::Dir(dir)) => {
            let next = listing.found(Found::Dir(dir));
            listing_step(listing, next)
        },
        (Phase::Listing(mut listing), Event::Meta(meta)) => {
            let next = listing.found(Found::Meta(meta));
            listing_step(listing, next)
        },
        _ => fail(Status::InternalServerError),
    };
    conn.phase = next;
    action
}

/// The bytes of `chunks`, one after the other.
pub open spec fn in_a_row(chunks: Seq<Seq<u8>>) -> Seq<u8>
    decreases chunks.len(),
{
    if chunks.len() == 0 {
        Seq::empty()
    } else {
        chunks[0] + in_a_row(chunks.drop_first())
    }
}

/// Where a connection stands after reads gave `chunks`, one after the
/// other, while it held `held` of its header block: at the first response,
/// if there is one, and else at the next read.
pub open spec fn after_reads(conn: ConnectionView, held: Seq<u8>, chunks: Seq<Seq<u8>>) -> (
    PhaseView,
    ActionView,
)
    decreases chunks.len(),
{
    if chunks.len() == 0 {
        (
            PhaseView::Header(held),
            ActionView::Read { max: (HEADER_CAPACITY - held.len()) as usize },
        )
    } else {
        let next = after_data(conn, held, chunks[0]);
        match next.0 {
            PhaseView::Header(all) => after_reads(conn, all, chunks.drop_first()),
            _ => next,
        }
    }
}

/// The end of the stream before the header block is complete is a bad
/// request. A read that fills the buffer without the terminator in it
/// makes the request too large.
pub proof fn lemma_header_limits(conn: ConnectionView, held: Seq<u8>, chunk: Seq<u8>)
    ensures
        chunk.len() == 0 ==> after_data(conn, held, chunk) == failed(Status::BadRequest),
        chunk.len() > 0 && held.len() + chunk.len() >= HEADER_CAPACITY && !contains(
            taken(held, chunk),
            terminator(),
        ) ==> after_data(conn, held, chunk) == failed(Status::RequestTooLarge),
{
    lemma_find_sound(taken(held, chunk), terminator());
}

proof fn lemma_contained_in_longer(text: Seq<u8>, upto: int, pattern: Seq<u8>)
    requires
        0 <= upto <= text.len(),
        contains(text.subrange(0, upto), pattern),
    ensures
        contains(text, pattern),
{
    let at = choose|at: int| occurs_at(text.subrange(0, upto), pattern, at);
    assert(text.subrange(at, at + pattern.len()) =~= text.subrange(0, upto).subrange(
        at,
        at + pattern.len(),
    ));
    assert(occurs_at(text, pattern, at));
}

/// A header block that fills the buffer without its terminator is too
/// large, however it arrives: in one read or in many, of any sizes.
pub proof fn lemma_oversized_header(conn: ConnectionView, held: Seq<u8>, chunks: Seq<Seq<u8>>)
    requires
        held.len() < HEADER_CAPACITY,
        forall|i: int| 0 <= i < chunks.len() ==> (#[trigger] chunks[i]).len() > 0,
        held.len() + in_a_row(chunks).len() >= HEADER_CAPACITY,
        !contains((held + in_a_row(chunks)).subrange(0, HEADER_CAPACITY as int), terminator()),
    ensures
        after_reads(conn, held, chunks) == failed(Status::RequestTooLarge),
    decreases chunks.len(),
{
    let whole = (held + in_a_row(chunks)).subrange(0, HEADER_CAPACITY as int);
    let chunk = chunks[0];
    let rest = chunks.drop_first();
    let all = taken(held, chunk);
    lemma_find_sound(all, terminator());
    assert(all =~= whole.subrange(0, all.len() as int));
    if contains(all, terminator()) {
        lemma_contained_in_longer(whole, all.len() as int, terminator());
    }
    if held.len() + chunk.len() < HEADER_CAPACITY {
        assert(all + in_a_row(rest) =~= held + in_a_row(chunks));
        assert forall|i: int| 0 <= i < rest.len() implies (#[trigger] rest[i]).len() > 0 by {
            assert(rest[i] == chunks[i + 1]);
        }
        lemma_oversized_header(conn, all, rest);
    }
}

/// A request for a path that does not begin with a slash, or holds two
/// slashes in a row or a backslash, is not found, and nothing is read for it.
pub proof fn lemma_refused_before_any_read(conn: ConnectionView, request: RequestView)
    requires
        ({
            let path = encode_utf8(request.path);
            ||| path.len() == 0
            ||| path[0] != 47
            ||| contains(path, seq![47u8, 47u8])
            ||| contains(path, seq![92u8])
        }),
    ensures
        accepted(conn, request) == failed(Status::NotFound),
{
}

/// A request for a path in which a component begins with a dot is not
/// found once the root directory has been read, whatever that directory
/// holds: no other directory is read for it, and no file is opened.
pub proof fn lemma_hidden_not_found(conn: ConnectionView, request: RequestView, dir: SnapshotView)
    requires
        contains(encode_utf8(request.path), seq![47u8, 46u8]),
    ensures
        after_root(conn, request, Some(dir)) == failed(Status::NotFound),
        accepted(conn, request) == failed(Status::NotFound) || accepted(conn, request) == (
            PhaseView::Root(request),
            ActionView::ReadDir(conn.root),
        ),
{
    lemma_unsafe_path_refused(encode_utf8(request.path));
}

/// The path that the outside world is asked about next, if it is asked
/// about the file system.
pub open spec fn asked_path(action: ActionView) -> Option<FilePathView> {
    match action {
        ActionView::ReadDir(path) => Some(path),
        ActionView::OpenFile(path) => Some(path),
        ActionView::Stat(path) => Some(path),
        _ => None,
    }
}

/// A connection asks about the root directory first, and then about
/// nothing but entries of directories that it was given, each by the path
/// that it was enumerated with: no path is ever made from what a request says.
pub proof fn lemma_only_enumerated_paths(
    before: ConnectionView,
    event: EventView,
    after: ConnectionView,
    action: ActionView,
)
    requires
        steps(before, event, after, action),
    ensures
        asked_path(action) matches Some(path) ==> {
            ||| before.phase is Header && path == before.root
            ||| event matches EventView::Dir(Some(dir)) && lists(dir, path)
            ||| before.phase matches PhaseView::Listing(walk) && listed_within(walk.stack, path)
        },
{
    match (before.phase, event) {
        (PhaseView::Root(request), EventView::Dir(Some(dir))) => {
            match planned(encode_utf8(request.path)) {
                Some(plan) => lemma_descended_asks_entries(before, request, plan, 0, dir),
                None => {},
            }
        },
        (PhaseView::Walk { request, plan, done }, EventView::Dir(Some(dir))) => {
            lemma_descended_asks_entries(before, request, plan, done + 1, dir);
        },
        (PhaseView::Listing(walk), EventView::Dir(dir)) => {
            lemma_continued_asks_entries(walk, FoundView::Dir(dir));
        },
        (PhaseView::Listing(walk), EventView::Meta(meta)) => {
            lemma_continued_asks_entries(walk, FoundView::Meta(meta));
        },
        _ => {},
    }
}

/// What is asked about in a directory that the path has led to is an entry of it.
proof fn lemma_descended_asks_entries(
    conn: ConnectionView,
    request: RequestView,
    plan: PlanView,
    done: int,
    dir: SnapshotView,
)
    ensures
        asked_path(descended(conn, request, plan, done, dir).1) matches Some(path) ==> lists(
            dir,
            path,
        ),
{
    if 0 <= done < plan.dirs.len() {
        lemma_last_named(dir.entries, plan.dirs[done]);
    } else {
        lemma_last_named(dir.entries, plan.file);
        lemma_begun_asks_entries(request.path, dir, request.headers.depth);
    }
}

/// A file with a plain name is answered by what follows the last dot of
/// its name alone: it is not found where that is no extension with a media
/// type, whether the file exists or not; and where it is one, the file is
/// sent to `GET` with that type and its own length, its head alone to
/// `HEAD`, and any other method is not allowed.
pub proof fn lemma_file_served_by_type(
    method: Seq<u8>,
    name: Seq<char>,
    len: u64,
    action: ActionView,
)
    requires
        served(method, name, FileOpen::Ready { len }, action),
        plain_name(name),
    ensures
        match type_of(name) {
            None => action == ActionView::Respond(failure(Status::NotFound)),
            Some(mime) => action == ActionView::Respond(
                if method == "GET".spec_bytes() {
                    ResponseView { head: file_head(len, mime), body: BodyView::File { len } }
                } else if method == "HEAD".spec_bytes() {
                    ResponseView { head: file_head(len, mime), body: BodyView::Empty }
                } else {
                    failure(Status::MethodNotAllowed)
                },
            ),
        },
{
    reveal_strlit("GET");
    reveal_strlit("HEAD");
    assert("GET"@.len() != "HEAD"@.len());
    vstd::utf8::encode_utf8_decode_utf8("GET"@);
    vstd::utf8::encode_utf8_decode_utf8("HEAD"@);
}

/// A file called `index.html` is sent to `GET` as `text/html`, with its own length.
pub proof fn lemma_index_html_served(len: u64, action: ActionView)
    requires
        served("GET".spec_bytes(), "index.html"@, FileOpen::Ready { len }, action),
    ensures
        action == ActionView::Respond(
            ResponseView { head: file_head(len, "text/html"@), body: BodyView::File { len } },
        ),
{
    lemma_index_html();
    lemma_file_served_by_type("GET".spec_bytes(), "index.html"@, len, action);
}

/// Whatever the name of a file, it is sent only to `GET`, with the type
/// of an extension that its name may have and with its own length.
pub proof fn lemma_file_sent_to_get(
    method: Seq<u8>,
    name: Seq<char>,
    len: u64,
    action: ActionView,
)
    requires
        served(method, name, FileOpen::Ready { len }, action),
    ensures
        action matches ActionView::Respond(response) ==> (response.body is File ==> {
            &&& method == "GET".spec_bytes()
            &&& response.body == (BodyView::File { len })
            &&& exists|mime: Seq<char>| response.head == #[trigger] file_head(len, mime)
        }),
{
    if plain_name(name) {
        match type_of(name) {
            Some(mime) => {
                assert(file_answer(method, len, mime).body is File ==> file_answer(
                    method,
                    len,
                    mime,
                ).head == file_head(len, mime));
            },
            None => {},
        }
    } else if action != ActionView::Respond(failure(Status::NotFound)) {
        let mime = choose|mime: Seq<char>| #[trigger]
            may_type(name, mime) && action == ActionView::Respond(file_answer(method, len, mime));
        assert(file_answer(method, len, mime).body is File ==> file_answer(
            method,
            len,
            mime,
        ).head == file_head(len, mime));
    }
}

} // verus!
