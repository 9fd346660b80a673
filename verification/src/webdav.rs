//! The multi-status document that answers `PROPFIND`: one response for the
//! directory itself and, as far as the depth allows, one for each file and
//! directory below it.

use std::sync::Arc;
use vstd::prelude::*;
use vstd::string::StringExecFns;
use crate::calendar::{civil_of, DateTimeUTC, Timestamp};
use crate::fs::{Entry, EntryView, FilePath, FilePathView, Snapshot, SnapshotView};
use crate::text::{decimal, push_decimal};

verus! {

/// What the file system tells of a file.
#[derive(Clone, Copy, Debug, PartialEq, Eq, Structural)]
pub struct FileMeta {
    pub len: u64,
    pub created: Option<Timestamp>,
    pub modified: Option<Timestamp>,
}

/// The lines that open the document.
pub open spec fn prologue() -> Seq<char> {
    "<?xml version=\"1.0\" encoding=\"utf-8\" ?>\n"@ + "<multistatus xmlns=\"DAV:\"> \n"@
}

/// The line that closes the document.
pub open spec fn epilogue() -> Seq<char> {
    "</multistatus>\n"@
}

/// The name that a directory is displayed by.
pub open spec fn title(path: FilePathView) -> Seq<char> {
    match path.file_name {
        Some(name) => name,
        None => "Untitled"@,
    }
}

/// The response for the directory at `href` that is displayed as `name`.
pub open spec fn dir_response(href: Seq<char>, name: Seq<char>) -> Seq<char> {
    "  <response>\n"@ + "    <href>"@ + href + "</href>\n"@ + "    <propstat>\n"@
        + "      <prop>\n"@ + "        <displayname>"@ + name + "</displayname>\n"@
        + "        <resourcetype><collection/></resourcetype>\n"@ + "      </prop>\n"@
        + "      <status>HTTP/1.0 200 OK</status>\n"@ + "    </propstat>\n"@ + "  </response>\n"@
}

/// The property that gives the length of a file.
pub open spec fn length_property(len: u64) -> Seq<char> {
    "        <getcontentlength>"@ + decimal(len as nat) + "</getcontentlength>\n"@
}

/// The property that gives the time at which a file was made, where that
/// time has a date.
pub open spec fn created_property(created: Option<Timestamp>) -> Seq<char> {
    match created {
        Some(time) => match civil_of(time) {
            Some(date) => "        <creationdate>"@ + date.creationdate_text()
                + "</creationdate>\n"@,
            None => Seq::empty(),
        },
        None => Seq::empty(),
    }
}

/// The property that gives the time at which a file was last changed, where
/// that time has a date.
pub open spec fn modified_property(modified: Option<Timestamp>) -> Seq<char> {
    match modified {
        Some(time) => match civil_of(time) {
            Some(date) => "        <getlastmodified>"@ + date.getlastmodified_text()
                + "</getlastmodified>\n"@,
            None => Seq::empty(),
        },
        None => Seq::empty(),
    }
}

/// The properties that the file system tells of a file: its length, and
/// the two times where they have a date.
pub open spec fn meta_properties(meta: FileMeta) -> Seq<char> {
    length_property(meta.len) + created_property(meta.created) + modified_property(meta.modified)
}

/// The response for the file that is displayed as `name` in the directory at `root`.
pub open spec fn file_response(root: Seq<char>, name: Seq<char>, meta: FileMeta) -> Seq<char> {
    "  <response>\n"@ + "    <href>"@ + root + name + "</href>\n"@ + "    <propstat>\n"@
        + "      <prop>\n"@ + "        <displayname>"@ + name + "</displayname>\n"@
        + "        <resourcetype/>\n"@ + meta_properties(meta) + "      </prop>\n"@
        + "      <status>HTTP/1.0 200 OK</status>\n"@ + "    </propstat>\n"@ + "  </response>\n"@
}

/// The address of the directory that is displayed as `name` in the directory at `root`.
pub open spec fn child_href(root: Seq<char>, name: Seq<char>) -> Seq<char> {
    root + name + "/"@
}

fn write_dir_response(xml: &mut String, href: &str, dir: &Snapshot)
    ensures
        final(xml)@ == old(xml)@ + dir_response(href@, title(dir@.path)),
{
    let name = match dir.path().file_name() {
        Some(name) => name,
        None => "Untitled",
    };
    let mut response = String::new();
    response.append("  <response>\n");
    response.append("    <href>");
    response.append(href);
    response.append("</href>\n");
    response.append("    <propstat>\n");
    response.append("      <prop>\n");
    response.append("        <displayname>");
    response.append(name);
    response.append("</displayname>\n");
    response.append("        <resourcetype><collection/></resourcetype>\n");
    response.append("      </prop>\n");
    response.append("      <status>HTTP/1.0 200 OK</status>\n");
    response.append("    </propstat>\n");
    response.append("  </response>\n");
    assert(response@ =~= dir_response(href@, title(dir@.path)));
    xml.append(response.as_str());
}

fn write_meta_properties(xml: &mut String, meta: FileMeta)
    ensures
        final(xml)@ == old(xml)@ + meta_properties(meta),
{
    let mut properties = String::new();
    properties.append("        <getcontentlength>");
    push_decimal(&mut properties, meta.len);
    properties.append("</getcontentlength>\n");
    assert(properties@ =~= length_property(meta.len));
    let ghost length = properties@;
    if let Some(created) = meta.created {
        if let Ok(created) = DateTimeUTC::try_from(created) {
            properties.append("        <creationdate>");
            properties.append(created.creationdate_style().as_str());
            properties.append("</creationdate>\n");
        }
    }
    assert(properties@ =~= length + created_property(meta.created));
    let ghost upto_created = properties@;
    if let Some(modified) = meta.modified {
        if let Ok(modified) = DateTimeUTC::try_from(modified) {
            properties.append("        <getlastmodified>");
            properties.append(modified.getlastmodified_style().as_str());
            properties.append("</getlastmodified>\n");
        }
    }
    assert(properties@ =~= upto_created + modified_property(meta.modified));
    xml.append(properties.as_str());
}

fn write_file_response(xml: &mut String, root: &str, name: &str, meta: FileMeta)
    ensures
        final(xml)@ == old(xml)@ + file_response(root@, name@, meta),
{
    let mut response = String::new();
    response.append("  <response>\n");
    response.append("    <href>");
    response.append(root);
    response.append(name);
    response.append("</href>\n");
    response.append("    <propstat>\n");
    response.append("      <prop>\n");
    response.append("        <displayname>");
    response.append(name);
    response.append("</displayname>\n");
    response.append("        <resourcetype/>\n");
    write_meta_properties(&mut response, meta);
    response.append("      </prop>\n");
    response.append("      <status>HTTP/1.0 200 OK</status>\n");
    response.append("    </propstat>\n");
    response.append("  </response>\n");
    assert(response@ =~= file_response(root@, name@, meta));
    xml.append(response.as_str());
}

/// A directory whose entries are being gone through.
struct Frame {
    dir: Arc<Snapshot>,
    /// The entry that is next.
    index: usize,
    /// The address of the directory.
    root: String,
    /// How many levels below the entries may still be gone through.
    depth: u8,
}

/// A directory that is being gone through, as contracts see it.
pub struct FrameView {
    pub dir: SnapshotView,
    pub index: int,
    pub root: Seq<char>,
    pub depth: u8,
}

impl View for Frame {
    type V = FrameView;

    closed spec fn view(&self) -> FrameView {
        FrameView { dir: self.dir@, index: self.index as int, root: self.root@, depth: self.depth }
    }
}

/// A listing under way: the document so far, and the directories that are
/// being gone through, the innermost last.
pub struct Propfind {
    xml: String,
    stack: Vec<Frame>,
}

/// A listing as contracts see it.
pub struct PropfindView {
    pub xml: Seq<char>,
    pub stack: Seq<FrameView>,
}

impl View for Propfind {
    type V = PropfindView;

    closed spec fn view(&self) -> PropfindView {
        PropfindView {
            xml: self.xml@,
            stack: Seq::new(self.stack@.len(), |i: int| self.stack@[i]@),
        }
    }
}

/// What a listing needs next, or how it ended.
#[derive(Debug)]
pub enum Walk {
    /// The snapshot of the directory at this path.
    ReadDir(FilePath),
    /// What the file system tells of the file at this path.
    Stat(FilePath),
    /// Nothing: this is the finished document.
    Done(String),
    /// Nothing: the listing failed, and what there was of the document is dropped.
    Failed,
}

/// The next step of a listing, as contracts see it.
pub enum WalkView {
    ReadDir(FilePathView),
    Stat(FilePathView),
    Done(Seq<char>),
    Failed,
}

impl View for Walk {
    type V = WalkView;

    open spec fn view(&self) -> WalkView {
        match self {
            Walk::ReadDir(path) => WalkView::ReadDir(path@),
            Walk::Stat(path) => WalkView::Stat(path@),
            Walk::Done(xml) => WalkView::Done(xml@),
            Walk::Failed => WalkView::Failed,
        }
    }
}

/// What was found of the entry that the listing asked about.
#[derive(Debug)]
pub enum Found {
    /// The snapshot of a directory, unless it could not be read.
    Dir(Option<Arc<Snapshot>>),
    /// What the file system tells of a file, unless it tells nothing.
    Meta(Option<FileMeta>),
}

/// What was found, as contracts see it.
pub enum FoundView {
    Dir(Option<SnapshotView>),
    Meta(Option<FileMeta>),
}

impl View for Found {
    type V = FoundView;

    open spec fn view(&self) -> FoundView {
        match self {
            Found::Dir(Some(dir)) => FoundView::Dir(Some(dir@)),
            Found::Dir(None) => FoundView::Dir(None),
            Found::Meta(meta) => FoundView::Meta(*meta),
        }
    }
}

/// The entry of a frame that is next, if any is left.
pub open spec fn current(frame: FrameView) -> Option<EntryView> {
    if 0 <= frame.index < frame.dir.entries.len() {
        Some(frame.dir.entries[frame.index])
    } else {
        None
    }
}

/// How many entries of a frame are left.
pub open spec fn left(frame: FrameView) -> nat {
    if 0 <= frame.index < frame.dir.entries.len() {
        (frame.dir.entries.len() - frame.index) as nat
    } else {
        0
    }
}

/// The stack with its innermost frame moved on to its next entry.
pub open spec fn moved_on(stack: Seq<FrameView>) -> Seq<FrameView> {
    stack.drop_last().push(FrameView { index: stack.last().index + 1, ..stack.last() })
}

/// Goes on from where the listing stands to the next entry that the file
/// system has to be asked about, or to the end of the document. Directories
/// whose entries are all done are left; entries that are neither a file nor
/// a directory are passed over.
pub open spec fn advance(walk: PropfindView) -> (PropfindView, WalkView)
    decreases
            walk.stack.len(),
            (if walk.stack.len() > 0 {
                left(walk.stack.last())
            } else {
                0
            }),
{
    if walk.stack.len() == 0 {
        let xml = walk.xml + epilogue();
        (PropfindView { xml, stack: walk.stack }, WalkView::Done(xml))
    } else {
        match current(walk.stack.last()) {
            None => advance(PropfindView { xml: walk.xml, stack: walk.stack.drop_last() }),
            Some(entry) => if entry.is_dir {
                (walk, WalkView::ReadDir(entry.path))
            } else if entry.is_file {
                (walk, WalkView::Stat(entry.path))
            } else {
                advance(PropfindView { xml: walk.xml, stack: moved_on(walk.stack) })
            },
        }
    }
}

/// The listing of the directory `dir` at the address `root`, begun: the
/// directory itself is in the document, and its entries are next if the
/// depth is not 0. No depth given means the greatest depth, 255.
pub open spec fn begun(root: Seq<char>, dir: SnapshotView, depth: Option<u8>) -> (
    PropfindView,
    WalkView,
) {
    let budget = match depth {
        Some(depth) => depth,
        None => 255u8,
    };
    let xml = prologue() + dir_response(root, title(dir.path));
    if budget >= 1 {
        advance(
            PropfindView {
                xml,
                stack: seq![FrameView { dir, index: 0, root, depth: (budget - 1) as u8 }],
            },
        )
    } else {
        advance(PropfindView { xml, stack: Seq::empty() })
    }
}

/// The listing after what was found of the entry it asked about.
///
/// A directory is put in the document, and its entries are next if the
/// depth allows one more level. A file is put in the document with what
/// the file system tells of it. A directory that cannot be read, and a file
/// of which the file system tells nothing, make the listing fail; and so
/// does anything found that was not asked for.
pub open spec fn continued(walk: PropfindView, found: FoundView) -> (PropfindView, WalkView) {
    if walk.stack.len() == 0 {
        (walk, WalkView::Failed)
    } else {
        let top = walk.stack.last();
        match (current(top), found) {
            (Some(entry), FoundView::Dir(Some(dir))) => if entry.is_dir {
                let href = child_href(top.root, entry.name_lossy);
                let xml = walk.xml + dir_response(href, title(dir.path));
                if top.depth >= 1 {
                    advance(
                        PropfindView {
                            xml,
                            stack: moved_on(walk.stack).push(
                                FrameView {
                                    dir,
                                    index: 0,
                                    root: href,
                                    depth: (top.depth - 1) as u8,
                                },
                            ),
                        },
                    )
                } else {
                    advance(PropfindView { xml, stack: moved_on(walk.stack) })
                }
            } else {
                (walk, WalkView::Failed)
            },
            (Some(entry), FoundView::Meta(Some(meta))) => if !entry.is_dir && entry.is_file {
                advance(
                    PropfindView {
                        xml: walk.xml + file_response(top.root, entry.name_lossy, meta),
                        stack: moved_on(walk.stack),
                    },
                )
            } else {
                (walk, WalkView::Failed)
            },
            _ => (walk, WalkView::Failed),
        }
    }
}

impl Frame {
    fn entry(&self) -> (entry: Option<&Entry>)
        ensures
            match entry {
                Some(entry) => current(self@) == Some(entry@) && self.index < usize::MAX,
                None => current(self@) is None,
            },
    {
        let entries = self.dir.entries();
        if self.index < entries.len() {
            Some(&entries[self.index])
        } else {
            None
        }
    }
}

impl Propfind {
    /// Goes on to the next entry that the file system has to be asked about.
    fn advance(&mut self) -> (next: Walk)
        ensures
            (final(self)@, next@) == advance(old(self)@),
    {
        loop
            invariant
                advance(self@) == advance(old(self)@),
            decreases
                    self@.stack.len(),
                    (if self@.stack.len() > 0 {
                        left(self@.stack.last())
                    } else {
                        0
                    }),
        {
            let ghost before = self@;
            let mut top = match self.stack.pop() {
                Some(top) => top,
                None => {
                    assert(self@.stack =~= before.stack);
                    self.xml.append("</multistatus>\n");
                    return Walk::Done(self.xml.clone());
                },
            };
            assert(top@ == before.stack.last());
            assert(self@.stack =~= before.stack.drop_last());
            match top.entry() {
                None => {},
                Some(entry) => {
                    if entry.is_dir() {
                        let path = entry.path().clone();
                        self.stack.push(top);
                        assert(self@.stack =~= before.stack);
                        return Walk::ReadDir(path);
                    } else if entry.is_file() {
                        let path = entry.path().clone();
                        self.stack.push(top);
                        assert(self@.stack =~= before.stack);
                        return Walk::Stat(path);
                    } else {
                        top.index = top.index + 1;
                        self.stack.push(top);
                        assert(self@.stack =~= moved_on(before.stack));
                    }
                },
            }
        }
    }

    /// Takes what was found of the entry that the listing asked about.
    pub fn found(&mut self, found: Found) -> (next: Walk)
        ensures
            (final(self)@, next@) == continued(old(self)@, found@),
    {
        let ghost before = self@;
        let mut top = match self.stack.pop() {
            Some(top) => top,
            None => {
                assert(self@.stack =~= before.stack);
                return Walk::Failed;
            },
        };
        assert(top@ == before.stack.last());
        assert(self@.stack =~= before.stack.drop_last());
        let entry = match top.entry() {
            Some(entry) => entry,
            None => {
                self.stack.push(top);
                assert(self@.stack =~= before.stack);
                return Walk::Failed;
            },
        };
        match found {
            Found::Dir(Some(dir)) => {
                if !entry.is_dir() {
                    self.stack.push(top);
                    assert(self@.stack =~= before.stack);
                    return Walk::Failed;
                }
                let mut href = top.root.clone();
                href.append(entry.name_lossy());
                href.append("/");
                write_dir_response(&mut self.xml, href.as_str(), &dir);
                let depth = top.depth;
                top.index = top.index + 1;
                self.stack.push(top);
                assert(self@.stack =~= moved_on(before.stack));
                if depth >= 1 {
                    self.stack.push(Frame { dir, index: 0, root: href, depth: depth - 1 });
                    assert(self@.stack =~= moved_on(before.stack).push(
                        FrameView {
                            dir: dir@,
                            index: 0,
                            root: child_href(before.stack.last().root, entry@.name_lossy),
                            depth: (depth - 1) as u8,
                        },
                    ));
                }
                self.advance()
            },
            Found::Meta(Some(meta)) => {
                if entry.is_dir() || !entry.is_file() {
                    self.stack.push(top);
                    assert(self@.stack =~= before.stack);
                    return Walk::Failed;
                }
                write_file_response(&mut self.xml, top.root.as_str(), entry.name_lossy(), meta);
                top.index = top.index + 1;
                self.stack.push(top);
                assert(self@.stack =~= moved_on(before.stack));
                self.advance()
            },
            Found::Dir(None) | Found::Meta(None) => {
                self.stack.push(top);
                assert(self@.stack =~= before.stack);
                Walk::Failed
            },
        }
    }
}

/// Begins the listing of the directory `dir` at the address `root`.
pub fn respond_propfind_dir(root: &str, dir: Arc<Snapshot>, depth: Option<u8>) -> (begun: (
    Propfind,
    Walk,
))
    ensures
        (begun.0@, begun.1@) == self::begun(root@, dir@, depth),
{
    let depth = match depth {
        Some(depth) => depth,
        None => 255,
    };
    let mut xml = String::new();
    xml.append("<?xml version=\"1.0\" encoding=\"utf-8\" ?>\n");
    xml.append("<multistatus xmlns=\"DAV:\"> \n");
    assert(xml@ =~= prologue());
    write_dir_response(&mut xml, root, &dir);
    let mut listing = Propfind { xml, stack: Vec::new() };
    if depth >= 1 {
        listing.stack.push(Frame { dir, index: 0, root: root.to_owned(), depth: depth - 1 });
        assert(listing@.stack =~= seq![
            FrameView { dir: dir@, index: 0, root: root@, depth: (depth - 1) as u8 },
        ]);
    } else {
        assert(listing@.stack =~= Seq::<FrameView>::empty());
    }
    let next = listing.advance();
    (listing, next)
}

/// `path` is where an entry of the directory `dir` is.
pub open spec fn lists(dir: SnapshotView, path: FilePathView) -> bool {
    exists|i: int| 0 <= i < dir.entries.len() && (#[trigger] dir.entries[i]).path == path
}

/// The path that the file system is asked about next, if it is asked.
pub open spec fn asked(next: WalkView) -> Option<FilePathView> {
    match next {
        WalkView::ReadDir(path) => Some(path),
        WalkView::Stat(path) => Some(path),
        _ => None,
    }
}

/// One of the directories that are being gone through lists `path`.
pub open spec fn listed_within(stack: Seq<FrameView>, path: FilePathView) -> bool {
    exists|k: int| 0 <= k < stack.len() && lists((#[trigger] stack[k]).dir, path)
}

/// A listing asks the file system about entries of the directories that
/// it is going through, as they were enumerated, and about nothing else.
pub proof fn lemma_advance_asks_entries(walk: PropfindView)
    ensures
        asked(advance(walk).1) matches Some(path) ==> listed_within(walk.stack, path),
    decreases
            walk.stack.len(),
            (if walk.stack.len() > 0 {
                left(walk.stack.last())
            } else {
                0
            }),
{
    if walk.stack.len() > 0 {
        let top = walk.stack.last();
        let last = walk.stack.len() - 1;
        match current(top) {
            None => {
                let popped = PropfindView { xml: walk.xml, stack: walk.stack.drop_last() };
                lemma_advance_asks_entries(popped);
                match asked(advance(walk).1) {
                    Some(path) => {
                        let k = choose|k: int|
                            0 <= k < popped.stack.len() && lists(
                                (#[trigger] popped.stack[k]).dir,
                                path,
                            );
                        assert(lists(walk.stack[k].dir, path));
                    },
                    None => {},
                }
            },
            Some(entry) => {
                if entry.is_dir || entry.is_file {
                    assert(top.dir.entries[top.index].path == entry.path);
                    assert(lists(walk.stack[last].dir, entry.path));
                } else {
                    let moved = PropfindView { xml: walk.xml, stack: moved_on(walk.stack) };
                    lemma_advance_asks_entries(moved);
                    match asked(advance(walk).1) {
                        Some(path) => {
                            let k = choose|k: int|
                                0 <= k < moved.stack.len() && lists(
                                    (#[trigger] moved.stack[k]).dir,
                                    path,
                                );
                            assert(moved.stack[k].dir == walk.stack[k].dir);
                            assert(lists(walk.stack[k].dir, path));
                        },
                        None => {},
                    }
                }
            },
        }
    }
}

/// A listing that has just begun asks about an entry of its directory.
pub proof fn lemma_begun_asks_entries(root: Seq<char>, dir: SnapshotView, depth: Option<u8>)
    ensures
        asked(begun(root, dir, depth).1) matches Some(path) ==> lists(dir, path),
{
    let budget = match depth {
        Some(depth) => depth,
        None => 255u8,
    };
    let xml = prologue() + dir_response(root, title(dir.path));
    if budget >= 1 {
        let frame = FrameView { dir, index: 0, root, depth: (budget - 1) as u8 };
        let start = PropfindView { xml, stack: seq![frame] };
        lemma_advance_asks_entries(start);
        match asked(advance(start).1) {
            Some(path) => {
                let k = choose|k: int|
                    0 <= k < start.stack.len() && lists((#[trigger] start.stack[k]).dir, path);
                assert(start.stack[k] == frame);
            },
            None => {},
        }
    } else {
        lemma_advance_asks_entries(PropfindView { xml, stack: Seq::<FrameView>::empty() });
    }
}

/// A listing that goes on asks about an entry of a directory that it was
/// going through already, or of the directory that it was just given.
pub proof fn lemma_continued_asks_entries(walk: PropfindView, found: FoundView)
    ensures
        asked(continued(walk, found).1) matches Some(path) ==> {
            ||| listed_within(walk.stack, path)
            ||| found matches FoundView::Dir(Some(dir)) && lists(dir, path)
        },
{
    if walk.stack.len() > 0 && current(walk.stack.last()) is Some {
        let top = walk.stack.last();
        let entry = current(top)->0;
        let moved = moved_on(walk.stack);
        let after = match found {
            FoundView::Dir(Some(dir)) => {
                let href = child_href(top.root, entry.name_lossy);
                let xml = walk.xml + dir_response(href, title(dir.path));
                if top.depth >= 1 {
                    PropfindView {
                        xml,
                        stack: moved.push(
                            FrameView { dir, index: 0, root: href, depth: (top.depth - 1) as u8 },
                        ),
                    }
                } else {
                    PropfindView { xml, stack: moved }
                }
            },
            FoundView::Meta(Some(meta)) => PropfindView {
                xml: walk.xml + file_response(top.root, entry.name_lossy, meta),
                stack: moved,
            },
            _ => walk,
        };
        match asked(continued(walk, found).1) {
            Some(path) => {
                assert(continued(walk, found) == advance(after));
                lemma_advance_asks_entries(after);
                let k = choose|k: int|
                    0 <= k < after.stack.len() && lists((#[trigger] after.stack[k]).dir, path);
                if k < walk.stack.len() {
                    assert(after.stack[k].dir == walk.stack[k].dir);
                    assert(lists(walk.stack[k].dir, path));
                }
            },
            None => {},
        }
    }
}

/// What a file system answers when it is asked about a path: the
/// snapshot of a directory, unless it cannot be read, and what it tells of
/// a file, unless it tells nothing.
pub struct FileSystem {
    pub dirs: spec_fn(FilePathView) -> Option<SnapshotView>,
    pub metas: spec_fn(FilePathView) -> Option<FileMeta>,
}

/// Two texts in a row, where both could be made.
pub open spec fn joined(first: Option<Seq<char>>, second: Option<Seq<char>>) -> Option<Seq<char>> {
    match (first, second) {
        (Some(first), Some(second)) => Some(first + second),
        _ => None,
    }
}

/// The responses for the directory `dir` at `href` and for what lies up to
/// `depth` levels below it, unless the file system fails to answer for one
/// of them: at depth 0 the response for the directory alone.
pub open spec fn subtree(fs: FileSystem, href: Seq<char>, dir: SnapshotView, depth: nat) -> Option<
    Seq<char>,
>
    decreases depth, 0nat, 0nat,
{
    if depth == 0 {
        Some(dir_response(href, title(dir.path)))
    } else {
        joined(
            Some(dir_response(href, title(dir.path))),
            entries_from(fs, href, dir.entries, 0, (depth - 1) as nat),
        )
    }
}

/// The responses for the entries of the directory at `root` from the one
/// at `from` on, each directory among them with what lies up to `depth`
/// levels below it. Entries that are neither a directory nor a file have
/// no response.
pub open spec fn entries_from(
    fs: FileSystem,
    root: Seq<char>,
    entries: Seq<EntryView>,
    from: int,
    depth: nat,
) -> Option<Seq<char>>
    decreases depth, 1nat, (if 0 <= from < entries.len() {
            entries.len() - from
        } else {
            0
        }),
{
    if !(0 <= from < entries.len()) {
        Some(Seq::empty())
    } else {
        let entry = entries[from];
        let rest = entries_from(fs, root, entries, from + 1, depth);
        if entry.is_dir {
            match (fs.dirs)(entry.path) {
                Some(dir) => joined(
                    subtree(fs, child_href(root, entry.name_lossy), dir, depth),
                    rest,
                ),
                None => None,
            }
        } else if entry.is_file {
            match (fs.metas)(entry.path) {
                Some(meta) => joined(Some(file_response(root, entry.name_lossy, meta)), rest),
                None => None,
            }
        } else {
            rest
        }
    }
}

/// The whole document for the directory `dir` at `root`: at depth 0 with
/// one response, for the directory; at depth 1 with the responses for its
/// entries too; with no depth given, down to 255 levels.
pub open spec fn document(
    fs: FileSystem,
    root: Seq<char>,
    dir: SnapshotView,
    depth: Option<u8>,
) -> Option<Seq<char>> {
    let budget = match depth {
        Some(depth) => depth,
        None => 255u8,
    };
    joined(joined(Some(prologue()), subtree(fs, root, dir, budget as nat)), Some(epilogue()))
}

/// The responses that are still to come from the directories that a
/// listing is going through.
pub open spec fn pending(fs: FileSystem, stack: Seq<FrameView>) -> Option<Seq<char>>
    decreases stack.len(),
{
    if stack.len() == 0 {
        Some(Seq::empty())
    } else {
        joined(
            entries_from(
                fs,
                stack.last().root,
                stack.last().dir.entries,
                stack.last().index,
                stack.last().depth as nat,
            ),
            pending(fs, stack.drop_last()),
        )
    }
}

/// The document that a listing is on its way to: what it holds, what is
/// still to come, and the closing line.
pub open spec fn finished(fs: FileSystem, walk: PropfindView) -> Option<Seq<char>> {
    joined(joined(Some(walk.xml), pending(fs, walk.stack)), Some(epilogue()))
}

/// The document that a listing ends in, if it stands at `walk` with `next` to do.
pub open spec fn outcome(fs: FileSystem, walk: PropfindView, next: WalkView) -> Option<Seq<char>> {
    match next {
        WalkView::Done(xml) => Some(xml),
        WalkView::Failed => None,
        _ => finished(fs, walk),
    }
}

/// The listing `walk` waits with `next` for what the file system tells of
/// the entry that is next in its innermost directory.
pub open spec fn waiting(walk: PropfindView, next: WalkView) -> bool {
    &&& walk.stack.len() > 0
    &&& current(walk.stack.last()) matches Some(entry)
    &&& if entry.is_dir {
        next == WalkView::ReadDir(entry.path)
    } else {
        entry.is_file && next == WalkView::Stat(entry.path)
    }
}

/// The listing `walk` waits with `next` for an answer of the file system,
/// and `found` is that answer.
pub open spec fn answers(
    fs: FileSystem,
    walk: PropfindView,
    next: WalkView,
    found: FoundView,
) -> bool {
    &&& waiting(walk, next)
    &&& match next {
        WalkView::ReadDir(path) => found == FoundView::Dir((fs.dirs)(path)),
        WalkView::Stat(path) => found == FoundView::Meta((fs.metas)(path)),
        _ => false,
    }
}

proof fn lemma_joined_associative(
    a: Option<Seq<char>>,
    b: Option<Seq<char>>,
    c: Option<Seq<char>>,
)
    ensures
        joined(joined(a, b), c) == joined(a, joined(b, c)),
{
    if a is Some && b is Some && c is Some {
        assert((a->0 + b->0) + c->0 =~= a->0 + (b->0 + c->0));
    }
}

proof fn lemma_joined_empty(a: Option<Seq<char>>)
    ensures
        joined(Some(Seq::empty()), a) == a,
        joined(a, Some(Seq::empty())) == a,
{
    if a is Some {
        assert(Seq::<char>::empty() + a->0 =~= a->0);
        assert(a->0 + Seq::<char>::empty() =~= a->0);
    }
}

/// Going on to the next entry to ask about changes nothing of the
/// document that a listing is on its way to.
pub proof fn lemma_advance_keeps_outcome(fs: FileSystem, walk: PropfindView)
    ensures
        outcome(fs, advance(walk).0, advance(walk).1) == finished(fs, walk),
    decreases
            walk.stack.len(),
            (if walk.stack.len() > 0 {
                left(walk.stack.last())
            } else {
                0
            }),
{
    if walk.stack.len() == 0 {
        lemma_joined_empty(Some(walk.xml));
    } else {
        let top = walk.stack.last();
        let below = pending(fs, walk.stack.drop_last());
        match current(top) {
            None => {
                let popped = PropfindView { xml: walk.xml, stack: walk.stack.drop_last() };
                lemma_advance_keeps_outcome(fs, popped);
                lemma_joined_empty(below);
            },
            Some(entry) => {
                if !entry.is_dir && !entry.is_file {
                    let moved = PropfindView { xml: walk.xml, stack: moved_on(walk.stack) };
                    lemma_advance_keeps_outcome(fs, moved);
                    assert(moved.stack.drop_last() =~= walk.stack.drop_last());
                }
            },
        }
    }
}

/// A listing that has just begun is on its way to the document of the
/// directory it was begun for.
pub proof fn lemma_begun_outcome(
    fs: FileSystem,
    root: Seq<char>,
    dir: SnapshotView,
    depth: Option<u8>,
)
    ensures
        outcome(fs, begun(root, dir, depth).0, begun(root, dir, depth).1) == document(
            fs,
            root,
            dir,
            depth,
        ),
{
    let budget = match depth {
        Some(depth) => depth,
        None => 255u8,
    };
    let xml = prologue() + dir_response(root, title(dir.path));
    let own = Some(dir_response(root, title(dir.path)));
    if budget >= 1 {
        let frame = FrameView { dir, index: 0, root, depth: (budget - 1) as u8 };
        let start = PropfindView { xml, stack: seq![frame] };
        lemma_advance_keeps_outcome(fs, start);
        let below = entries_from(fs, root, dir.entries, 0, (budget - 1) as nat);
        lemma_pending_pushed(fs, Seq::<FrameView>::empty(), frame);
        assert(Seq::<FrameView>::empty().push(frame) =~= start.stack);
        lemma_joined_empty(below);
        assert(pending(fs, start.stack) == below);
        lemma_joined_associative(Some(prologue()), own, below);
    } else {
        let start = PropfindView { xml, stack: Seq::<FrameView>::empty() };
        lemma_advance_keeps_outcome(fs, start);
        lemma_joined_empty(Some(xml));
    }
}

/// A listing that has not ended waits for what the file system tells of
/// the entry that is next.
pub proof fn lemma_advance_waits(walk: PropfindView)
    ensures
        advance(walk).1 is ReadDir || advance(walk).1 is Stat ==> waiting(
            advance(walk).0,
            advance(walk).1,
        ),
    decreases
            walk.stack.len(),
            (if walk.stack.len() > 0 {
                left(walk.stack.last())
            } else {
                0
            }),
{
    if walk.stack.len() > 0 {
        match current(walk.stack.last()) {
            None => {
                lemma_advance_waits(PropfindView { xml: walk.xml, stack: walk.stack.drop_last() });
            },
            Some(entry) => {
                if !entry.is_dir && !entry.is_file {
                    lemma_advance_waits(
                        PropfindView { xml: walk.xml, stack: moved_on(walk.stack) },
                    );
                }
            },
        }
    }
}

/// What is still to come once the entry that is next has been dealt with.
proof fn lemma_pending_moved_on(fs: FileSystem, stack: Seq<FrameView>)
    requires
        stack.len() > 0,
    ensures
        pending(fs, moved_on(stack)) == joined(
            entries_from(
                fs,
                stack.last().root,
                stack.last().dir.entries,
                stack.last().index + 1,
                stack.last().depth as nat,
            ),
            pending(fs, stack.drop_last()),
        ),
{
    assert(moved_on(stack).drop_last() =~= stack.drop_last());
}

proof fn lemma_pending_pushed(fs: FileSystem, stack: Seq<FrameView>, frame: FrameView)
    ensures
        pending(fs, stack.push(frame)) == joined(
            entries_from(fs, frame.root, frame.dir.entries, frame.index, frame.depth as nat),
            pending(fs, stack),
        ),
{
    assert(stack.push(frame).drop_last() =~= stack);
}

/// A listing that is given the answer of the file system that it waits for
/// stays on its way to the same document; where the file system fails to
/// answer, there is no document, and the listing fails.
pub proof fn lemma_continued_keeps_outcome(
    fs: FileSystem,
    walk: PropfindView,
    next: WalkView,
    found: FoundView,
)
    requires
        answers(fs, walk, next, found),
    ensures
        outcome(fs, continued(walk, found).0, continued(walk, found).1) == outcome(fs, walk, next),
{
    let top = walk.stack.last();
    let entry = current(top)->0;
    let below = pending(fs, walk.stack.drop_last());
    let rest = entries_from(fs, top.root, top.dir.entries, top.index + 1, top.depth as nat);
    let here = entries_from(fs, top.root, top.dir.entries, top.index, top.depth as nat);
    let moved = moved_on(walk.stack);
    lemma_pending_moved_on(fs, walk.stack);
    assert(pending(fs, walk.stack) == joined(here, below));
    match found {
        FoundView::Dir(Some(dir)) => {
            let href = child_href(top.root, entry.name_lossy);
            let own = Some(dir_response(href, title(dir.path)));
            let xml = walk.xml + dir_response(href, title(dir.path));
            assert(here == joined(subtree(fs, href, dir, top.depth as nat), rest));
            if top.depth >= 1 {
                let frame = FrameView { dir, index: 0, root: href, depth: (top.depth - 1) as u8 };
                let after = PropfindView { xml, stack: moved.push(frame) };
                assert(continued(walk, found) == advance(after));
                lemma_advance_keeps_outcome(fs, after);
                lemma_pending_pushed(fs, moved, frame);
                let inside = entries_from(fs, href, dir.entries, 0, (top.depth - 1) as nat);
                assert(subtree(fs, href, dir, top.depth as nat) == joined(own, inside));
                lemma_regroup_four(Some(walk.xml), own, inside, rest, below);
            } else {
                let after = PropfindView { xml, stack: moved };
                assert(continued(walk, found) == advance(after));
                lemma_advance_keeps_outcome(fs, after);
                assert(subtree(fs, href, dir, top.depth as nat) == own);
                lemma_regroup_three(Some(walk.xml), own, rest, below);
            }
        },
        FoundView::Dir(None) => {
            assert(here is None);
        },
        FoundView::Meta(None) => {
            assert(here is None);
        },
        FoundView::Meta(Some(meta)) => {
            let own = Some(file_response(top.root, entry.name_lossy, meta));
            let xml = walk.xml + file_response(top.root, entry.name_lossy, meta);
            let after = PropfindView { xml, stack: moved };
            assert(continued(walk, found) == advance(after));
            lemma_advance_keeps_outcome(fs, after);
            assert(here == joined(own, rest));
            lemma_regroup_three(Some(walk.xml), own, rest, below);
        },
    }
}

proof fn lemma_regroup_three(
    a: Option<Seq<char>>,
    b: Option<Seq<char>>,
    c: Option<Seq<char>>,
    d: Option<Seq<char>>,
)
    ensures
        joined(joined(a, b), joined(c, d)) == joined(a, joined(joined(b, c), d)),
{
    lemma_joined_associative(a, b, joined(c, d));
    lemma_joined_associative(b, c, d);
}

proof fn lemma_regroup_four(
    a: Option<Seq<char>>,
    b: Option<Seq<char>>,
    c: Option<Seq<char>>,
    d: Option<Seq<char>>,
    e: Option<Seq<char>>,
)
    ensures
        joined(joined(a, b), joined(c, joined(d, e))) == joined(
            a,
            joined(joined(joined(b, c), d), e),
        ),
{
    lemma_joined_associative(a, b, joined(c, joined(d, e)));
    lemma_joined_associative(b, c, joined(d, e));
    lemma_joined_associative(joined(b, c), d, e);
}

/// How many answers of the file system it takes to list the entries of a
/// directory from the one at `from` on, each directory among them with what
/// lies up to `depth` levels below it.
pub open spec fn asks_from(fs: FileSystem, entries: Seq<EntryView>, from: int, depth: nat) -> nat
    decreases depth, 1nat, (if 0 <= from < entries.len() {
            entries.len() - from
        } else {
            0
        }),
{
    if !(0 <= from < entries.len()) {
        0
    } else {
        let entry = entries[from];
        let rest = asks_from(fs, entries, from + 1, depth);
        if entry.is_dir {
            match (fs.dirs)(entry.path) {
                Some(dir) => 1 + asks_below(fs, dir, depth) + rest,
                None => 1 + rest,
            }
        } else if entry.is_file {
            1 + rest
        } else {
            rest
        }
    }
}

/// How many answers of the file system it takes to list what lies up to
/// `depth` levels below the directory `dir`.
pub open spec fn asks_below(fs: FileSystem, dir: SnapshotView, depth: nat) -> nat
    decreases depth, 0nat, 0nat,
{
    if depth == 0 {
        0
    } else {
        asks_from(fs, dir.entries, 0, (depth - 1) as nat)
    }
}

/// How many answers of the file system a listing still takes.
pub open spec fn asks(fs: FileSystem, stack: Seq<FrameView>) -> nat
    decreases stack.len(),
{
    if stack.len() == 0 {
        0
    } else {
        asks_from(fs, stack.last().dir.entries, stack.last().index, stack.last().depth as nat)
            + asks(fs, stack.drop_last())
    }
}

/// Going on to the next entry to ask about takes no answer, and a listing
/// that takes no more answers is done.
pub proof fn lemma_advance_asks(fs: FileSystem, walk: PropfindView)
    ensures
        asks(fs, advance(walk).0.stack) == asks(fs, walk.stack),
        advance(walk).1 is Done <==> asks(fs, walk.stack) == 0,
        !(advance(walk).1 is Failed),
    decreases
            walk.stack.len(),
            (if walk.stack.len() > 0 {
                left(walk.stack.last())
            } else {
                0
            }),
{
    if walk.stack.len() > 0 {
        match current(walk.stack.last()) {
            None => {
                let popped = PropfindView { xml: walk.xml, stack: walk.stack.drop_last() };
                lemma_advance_asks(fs, popped);
            },
            Some(entry) => {
                if !entry.is_dir && !entry.is_file {
                    let moved = PropfindView { xml: walk.xml, stack: moved_on(walk.stack) };
                    lemma_advance_asks(fs, moved);
                    assert(moved.stack.drop_last() =~= walk.stack.drop_last());
                }
            },
        }
    }
}

/// A listing that has just begun takes as many answers as there are files
/// and directories within the depth below its directory.
pub proof fn lemma_begun_asks(fs: FileSystem, root: Seq<char>, dir: SnapshotView, depth: Option<u8>)
    ensures
        asks(fs, begun(root, dir, depth).0.stack) == asks_below(
            fs,
            dir,
            match depth {
                Some(depth) => depth as nat,
                None => 255nat,
            },
        ),
{
    let budget = match depth {
        Some(depth) => depth,
        None => 255u8,
    };
    let xml = prologue() + dir_response(root, title(dir.path));
    if budget >= 1 {
        let frame = FrameView { dir, index: 0, root, depth: (budget - 1) as u8 };
        let start = PropfindView { xml, stack: seq![frame] };
        lemma_advance_asks(fs, start);
        assert(start.stack.drop_last() =~= Seq::<FrameView>::empty());
        assert(asks(fs, start.stack.drop_last()) == 0);
    } else {
        lemma_advance_asks(fs, PropfindView { xml, stack: Seq::<FrameView>::empty() });
    }
}

/// Each answer of the file system that a listing waits for brings it one
/// answer closer to its end, unless it makes the listing fail: a listing
/// ends after no more answers than it took when it began.
pub proof fn lemma_continued_asks(
    fs: FileSystem,
    walk: PropfindView,
    next: WalkView,
    found: FoundView,
)
    requires
        answers(fs, walk, next, found),
    ensures
        continued(walk, found).1 is Failed || asks(fs, continued(walk, found).0.stack) + 1 == asks(
            fs,
            walk.stack,
        ),
{
    let top = walk.stack.last();
    let entry = current(top)->0;
    let moved = moved_on(walk.stack);
    let below = asks(fs, walk.stack.drop_last());
    let rest = asks_from(fs, top.dir.entries, top.index + 1, top.depth as nat);
    let here = asks_from(fs, top.dir.entries, top.index, top.depth as nat);
    assert(moved.drop_last() =~= walk.stack.drop_last());
    assert(asks(fs, moved) == rest + below);
    assert(asks(fs, walk.stack) == here + below);
    match found {
        FoundView::Dir(Some(dir)) => {
            let href = child_href(top.root, entry.name_lossy);
            let xml = walk.xml + dir_response(href, title(dir.path));
            assert(here == 1 + asks_below(fs, dir, top.depth as nat) + rest);
            if top.depth >= 1 {
                let frame = FrameView { dir, index: 0, root: href, depth: (top.depth - 1) as u8 };
                let after = PropfindView { xml, stack: moved.push(frame) };
                assert(continued(walk, found) == advance(after));
                assert(after.stack.drop_last() =~= moved);
                assert(asks_below(fs, dir, top.depth as nat) == asks_from(
                    fs,
                    dir.entries,
                    0,
                    (top.depth - 1) as nat,
                ));
                assert(asks(fs, after.stack) == asks_below(fs, dir, top.depth as nat) + asks(
                    fs,
                    moved,
                ));
                lemma_advance_asks(fs, after);
            } else {
                let after = PropfindView { xml, stack: moved };
                assert(continued(walk, found) == advance(after));
                assert(asks_below(fs, dir, top.depth as nat) == 0);
                lemma_advance_asks(fs, after);
            }
        },
        FoundView::Dir(None) => {},
        FoundView::Meta(None) => {},
        FoundView::Meta(Some(meta)) => {
            let xml = walk.xml + file_response(top.root, entry.name_lossy, meta);
            let after = PropfindView { xml, stack: moved };
            assert(continued(walk, found) == advance(after));
            assert(here == 1 + rest);
            lemma_advance_asks(fs, after);
        },
    }
}

/// With depth 0 the document holds one response, that of the directory itself.
pub proof fn lemma_depth_zero(fs: FileSystem, root: Seq<char>, dir: SnapshotView)
    ensures
        document(fs, root, dir, Some(0u8)) == Some(
            prologue() + dir_response(root, title(dir.path)) + epilogue(),
        ),
        begun(root, dir, Some(0u8)).1 == WalkView::Done(
            prologue() + dir_response(root, title(dir.path)) + epilogue(),
        ),
{
}

/// Below the last level that the depth allows, a directory has its own
/// response and none for its entries, whatever they are.
pub proof fn lemma_entries_at_last_level(
    fs: FileSystem,
    root: Seq<char>,
    entries: Seq<EntryView>,
    from: int,
)
    requires
        0 <= from < entries.len(),
        entries[from].is_dir,
    ensures
        entries_from(fs, root, entries, from, 0) == match (fs.dirs)(entries[from].path) {
            Some(dir) => joined(
                Some(dir_response(child_href(root, entries[from].name_lossy), title(dir.path))),
                entries_from(fs, root, entries, from + 1, 0),
            ),
            None => None,
        },
{
    reveal_with_fuel(entries_from, 2);
}

} // verus!
