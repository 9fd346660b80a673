use local_httpd::header::{
    read_header_discard_body, HeaderReader, HeaderStep, Received, HEADER_CAPACITY,
};
use local_httpd::response::Status;

fn feed(reader: &mut HeaderReader, bytes: &[u8]) -> HeaderStep {
    read_header_discard_body(reader, Received::Data(bytes.to_vec()))
}

#[test]
fn header_in_one_read_drops_what_follows_the_terminator() {
    let mut reader = HeaderReader::new();
    assert_eq!(HEADER_CAPACITY, reader.remaining());
    match feed(&mut reader, b"GET / HTTP/1.1\r\nHost: x\r\n\r\nbody\r\n\r\nmore") {
        HeaderStep::Complete(header) => assert_eq!(b"GET / HTTP/1.1\r\nHost: x".to_vec(), header),
        other => panic!("{:?}", other),
    }
}

#[test]
fn terminator_split_across_reads_is_found() {
    for cut in 1..4 {
        let request = b"GET / HTTP/1.0\r\n\r\n";
        let at = request.len() - cut;
        let mut reader = HeaderReader::new();
        match feed(&mut reader, &request[..at]) {
            HeaderStep::More { max } => assert_eq!(HEADER_CAPACITY - at, max),
            other => panic!("{:?}", other),
        }
        assert_eq!(HEADER_CAPACITY - at, reader.remaining());
        match feed(&mut reader, &request[at..]) {
            HeaderStep::Complete(header) => assert_eq!(b"GET / HTTP/1.0".to_vec(), header),
            other => panic!("{:?}", other),
        }
    }
}

#[test]
fn byte_by_byte_header_is_found() {
    let request = b"HEAD /a HTTP/1.1\r\nDepth: 1\r\n\r\n";
    let mut reader = HeaderReader::new();
    for (i, byte) in request.iter().enumerate() {
        match feed(&mut reader, &[*byte]) {
            HeaderStep::More { .. } => assert!(i + 1 < request.len()),
            HeaderStep::Complete(header) => {
                assert_eq!(i + 1, request.len());
                assert_eq!(b"HEAD /a HTTP/1.1\r\nDepth: 1".to_vec(), header);
            }
            other => panic!("{:?}", other),
        }
    }
}

#[test]
fn empty_header_block_is_complete() {
    let mut reader = HeaderReader::new();
    match feed(&mut reader, b"\r\n\r\n") {
        HeaderStep::Complete(header) => assert!(header.is_empty()),
        other => panic!("{:?}", other),
    }
}

#[test]
fn full_buffer_without_terminator_is_too_large() {
    let mut reader = HeaderReader::new();
    let chunk = vec![b'a'; 1000];
    for _ in 0..8 {
        assert!(matches!(feed(&mut reader, &chunk), HeaderStep::More { .. }));
    }
    assert_eq!(192, reader.remaining());
    match feed(&mut reader, &chunk[..192]) {
        HeaderStep::Failed(status) => assert_eq!(Status::RequestTooLarge, status),
        other => panic!("{:?}", other),
    }
}

#[test]
fn oversized_single_read_is_too_large() {
    let mut reader = HeaderReader::new();
    match feed(&mut reader, &vec![b'x'; HEADER_CAPACITY + 1]) {
        HeaderStep::Failed(status) => assert_eq!(Status::RequestTooLarge, status),
        other => panic!("{:?}", other),
    }
}

#[test]
fn terminator_that_ends_with_the_buffer_is_found() {
    let mut block = vec![b'a'; HEADER_CAPACITY - 4];
    block.extend_from_slice(b"\r\n\r\n");
    let mut reader = HeaderReader::new();
    match feed(&mut reader, &block) {
        HeaderStep::Complete(header) => assert_eq!(HEADER_CAPACITY - 4, header.len()),
        other => panic!("{:?}", other),
    }
}

#[test]
fn terminator_beyond_the_buffer_is_not_looked_for() {
    let mut block = vec![b'a'; HEADER_CAPACITY - 3];
    block.extend_from_slice(b"\r\n\r\n");
    let mut reader = HeaderReader::new();
    match feed(&mut reader, &block) {
        HeaderStep::Failed(status) => assert_eq!(Status::RequestTooLarge, status),
        other => panic!("{:?}", other),
    }
}

#[test]
fn end_of_stream_is_a_bad_request() {
    let mut reader = HeaderReader::new();
    match feed(&mut reader, b"") {
        HeaderStep::Failed(status) => assert_eq!(Status::BadRequest, status),
        other => panic!("{:?}", other),
    }
    let mut reader = HeaderReader::new();
    assert!(matches!(feed(&mut reader, b"GET / HTTP/1.1\r\n"), HeaderStep::More { .. }));
    match feed(&mut reader, b"") {
        HeaderStep::Failed(status) => assert_eq!(Status::BadRequest, status),
        other => panic!("{:?}", other),
    }
}

#[test]
fn failed_read_is_reported_as_too_large() {
    let mut reader = HeaderReader::new();
    assert!(matches!(feed(&mut reader, b"GET"), HeaderStep::More { .. }));
    match read_header_discard_body(&mut reader, Received::Failed) {
        HeaderStep::Failed(status) => assert_eq!(Status::RequestTooLarge, status),
        other => panic!("{:?}", other),
    }
}
