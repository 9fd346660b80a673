use local_httpd::response::{
    bad_method, bad_request, http_version_not_supported, internal_server_error, not_found,
    request_too_large, Body, Response, Status,
};

#[test]
fn failure_texts() {
    assert_eq!("HTTP/1.0 400 Bad Request\r\n\r\n", bad_request());
    assert_eq!("HTTP/1.0 404 Not Found\r\n\r\n", not_found());
    assert_eq!("HTTP/1.0 405 Method Not Allowed\r\n\r\n", bad_method());
    assert_eq!("HTTP/1.0 413 Request Too Large\r\n\r\n", request_too_large());
    assert_eq!("HTTP/1.0 505 HTTP Version Not Supported\r\n\r\n", http_version_not_supported());
    assert_eq!("HTTP/1.0 500 Internal Server Error\r\n\r\n", internal_server_error());
}

#[test]
fn each_status_has_its_own_text() {
    let all = [
        (Status::BadRequest, bad_request()),
        (Status::NotFound, not_found()),
        (Status::MethodNotAllowed, bad_method()),
        (Status::RequestTooLarge, request_too_large()),
        (Status::HttpVersionNotSupported, http_version_not_supported()),
        (Status::InternalServerError, internal_server_error()),
    ];
    for (status, text) in all {
        assert_eq!(text, status.response());
        let response = Response::failure(status);
        assert_eq!(text, response.head);
        assert!(matches!(response.body, Body::Empty));
        assert!(text.starts_with("HTTP/1.0 4") || text.starts_with("HTTP/1.0 5"));
        assert!(text.ends_with("\r\n\r\n"));
    }
}
