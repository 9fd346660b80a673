//! Accumulating the header block of a request in a bounded buffer.

use vstd::prelude::*;
use vstd::slice::slice_subrange;
use crate::bytes::{
    contains,
    find,
    find_bytes,
    first_at,
    lemma_find_is_first,
    lemma_find_sound,
    occurs_at,
};
use crate::response::Status;

verus! {

/// The most bytes of a request that are looked at.
pub const HEADER_CAPACITY: usize = 8192;

/// The empty line that ends a header block: CR LF CR LF.
pub open spec fn terminator() -> Seq<u8> {
    seq![13u8, 10u8, 13u8, 10u8]
}

/// What one read from the connection gave.
#[derive(Debug)]
pub enum Received {
    /// The read failed.
    Failed,
    /// The read gave these bytes; none at the end of the stream.
    Data(Vec<u8>),
}

/// What to do after a read.
#[derive(Debug)]
pub enum HeaderStep {
    /// Read again, at most `max` bytes.
    More { max: usize },
    /// The header block is complete: the bytes before its terminator.
    Complete(Vec<u8>),
    /// The request is refused.
    Failed(Status),
}

/// The bytes of a header block received so far.
pub struct HeaderReader {
    held: Vec<u8>,
}

/// The bytes held once `chunk` has arrived after `held`: no more than the capacity.
pub open spec fn taken(held: Seq<u8>, chunk: Seq<u8>) -> Seq<u8> {
    let all = held + chunk;
    if all.len() > HEADER_CAPACITY {
        all.subrange(0, HEADER_CAPACITY as int)
    } else {
        all
    }
}

/// A pattern that does not occur in the first `examined` bytes can only start
/// less than its own length before their end, or later.
proof fn lemma_search_tail(text: Seq<u8>, pattern: Seq<u8>, examined: int, start: int)
    requires
        pattern.len() > 0,
        0 <= start <= examined <= text.len(),
        start == 0 || start + pattern.len() - 1 <= examined,
        !contains(text.subrange(0, examined), pattern),
    ensures
        match find(text.subrange(start, text.len() as int), pattern) {
            Some(at) => find(text, pattern) == Some(start + at),
            None => find(text, pattern) is None,
        },
{
    let tail = text.subrange(start, text.len() as int);
    assert forall|k: int| occurs_at(text, pattern, k) implies k >= start && occurs_at(
        tail,
        pattern,
        k - start,
    ) by {
        if k < start {
            assert(text.subrange(0, examined).subrange(k, k + pattern.len()) =~= text.subrange(
                k,
                k + pattern.len(),
            ));
            assert(occurs_at(text.subrange(0, examined), pattern, k));
        }
        assert(tail.subrange(k - start, k - start + pattern.len()) =~= text.subrange(
            k,
            k + pattern.len(),
        ));
    }
    assert forall|k: int| occurs_at(tail, pattern, k) implies occurs_at(
        text,
        pattern,
        start + k,
    ) by {
        assert(tail.subrange(k, k + pattern.len()) =~= text.subrange(
            start + k,
            start + k + pattern.len(),
        ));
    }
    lemma_find_sound(tail, pattern);
    lemma_find_sound(text, pattern);
    match find(tail, pattern) {
        Some(at) => {
            assert(first_at(tail, pattern, at));
            assert forall|k: int| 0 <= k < start + at implies !occurs_at(text, pattern, k) by {
                if occurs_at(text, pattern, k) {
                    assert(occurs_at(tail, pattern, k - start));
                }
            }
            assert(first_at(text, pattern, start + at));
            lemma_find_is_first(text, pattern, start + at);
        },
        None => {
            if contains(text, pattern) {
                let k = choose|k: int| occurs_at(text, pattern, k);
                assert(occurs_at(tail, pattern, k - start));
            }
        },
    }
}

impl View for HeaderReader {
    type V = Seq<u8>;

    closed spec fn view(&self) -> Seq<u8> {
        self.held@
    }
}

impl HeaderReader {
    /// The buffer is never full, and holds no terminator: a block that is
    /// complete or too large is handed out at once.
    #[verifier::type_invariant]
    spec fn unfinished(self) -> bool {
        self.held@.len() < HEADER_CAPACITY && !contains(self.held@, terminator())
    }

    /// A reader that holds nothing yet.
    pub fn new() -> (reader: Self)
        ensures
            reader@ == Seq::<u8>::empty(),
    {
        let reader = HeaderReader { held: Vec::new() };
        proof {
            assert forall|k: int| !occurs_at(reader.held@, terminator(), k) by {}
        }
        reader
    }

    /// How many more bytes fit.
    pub fn remaining(&self) -> (max: usize)
        ensures
            max == HEADER_CAPACITY - self@.len(),
            max > 0,
    {
        proof {
            use_type_invariant(self);
        }
        HEADER_CAPACITY - self.held.len()
    }
}

/// Takes what one read of the connection gave.
///
/// The block ends before the leftmost terminator among the first
/// `HEADER_CAPACITY` bytes of the stream; what follows it belongs to the body
/// and is dropped. A failed read and a block that fills the buffer unfinished
/// are both reported as too large, the end of the stream as a bad request.
pub fn read_header_discard_body(reader: &mut HeaderReader, received: Received) -> (step:
    HeaderStep)
    ensures
        match received {
            Received::Failed => {
                &&& step == HeaderStep::Failed(Status::RequestTooLarge)
                &&& final(reader)@.len() == 0
            },
            Received::Data(chunk) => if chunk@.len() == 0 {
                step == HeaderStep::Failed(Status::BadRequest) && final(reader)@.len() == 0
            } else {
                let all = taken(old(reader)@, chunk@);
                match find(all, terminator()) {
                    Some(at) => {
                        &&& step matches HeaderStep::Complete(header)
                        &&& header@ == all.subrange(0, at)
                        &&& final(reader)@.len() == 0
                    },
                    None => if all.len() == HEADER_CAPACITY {
                        &&& step == HeaderStep::Failed(Status::RequestTooLarge)
                        &&& final(reader)@.len() == 0
                    } else {
                        step == (HeaderStep::More { max: (HEADER_CAPACITY - all.len()) as usize })
                            && final(reader)@ == all
                    },
                }
            },
        },
{
    proof {
        use_type_invariant(&*reader);
    }
    let mut all: Vec<u8> = Vec::new();
    proof {
        assert forall|k: int| !occurs_at(all@, terminator(), k) by {}
    }
    core::mem::swap(&mut reader.held, &mut all);
    let chunk = match received {
        Received::Failed => {
            return HeaderStep::Failed(Status::RequestTooLarge);
        },
        Received::Data(chunk) => chunk,
    };
    if chunk.len() == 0 {
        return HeaderStep::Failed(Status::BadRequest);
    }
    let examined = all.len();
    let room = HEADER_CAPACITY - examined;
    let take = if chunk.len() < room {
        chunk.len()
    } else {
        room
    };
    all.extend_from_slice(slice_subrange(chunk.as_slice(), 0, take));
    assert(all@ =~= taken(old(reader)@, chunk@));
    assert(all@.subrange(0, examined as int) =~= old(reader)@);

    let crlfcrlf: [u8; 4] = [13, 10, 13, 10];
    assert(crlfcrlf@ =~= terminator());
    let search_start = if examined >= 3 {
        examined - 3
    } else {
        0
    };
    proof {
        lemma_search_tail(all@, terminator(), examined as int, search_start as int);
        lemma_find_sound(all@, terminator());
    }
    match find_bytes(slice_subrange(all.as_slice(), search_start, all.len()), crlfcrlf.as_slice()) {
        Some(offset) => {
            all.truncate(search_start + offset);
            HeaderStep::Complete(all)
        },
        None => {
            if all.len() == HEADER_CAPACITY {
                HeaderStep::Failed(Status::RequestTooLarge)
            } else {
                let max = HEADER_CAPACITY - all.len();
                reader.held = all;
                HeaderStep::More { max }
            }
        },
    }
}

} // verus!
