use http_server::http::ParseError;
use http_server::server::{after_read, reply_to, ReadStep, Reply, Server, MAX_MESSAGE_SIZE};

#[test]
fn server_keeps_its_address() {
    let server = Server::new("127.0.0.1:8081".to_string());
    assert_eq!(server.addr(), "127.0.0.1:8081");
}

#[test]
fn read_steps() {
    assert_eq!(after_read(0, 0), ReadStep::Close);
    assert_eq!(after_read(10, 0), ReadStep::ParseLast);
    assert_eq!(after_read(10, 5), ReadStep::Append);
    assert_eq!(after_read(MAX_MESSAGE_SIZE - 5, 5), ReadStep::Append);
    assert_eq!(
        after_read(MAX_MESSAGE_SIZE - 5, 6),
        ReadStep::Reject(ParseError::InvalidRequest)
    );
    assert_eq!(
        after_read(usize::MAX, 1),
        ReadStep::Reject(ParseError::InvalidRequest)
    );
}

#[test]
fn replies() {
    assert!(matches!(reply_to(b"GET / HTTP/1.1\r\n", false), Reply::Wait));
    assert!(matches!(
        reply_to(b"GET / HTTP/1.1\r\n", true),
        Reply::Reject(ParseError::Incomplete)
    ));
    assert!(matches!(
        reply_to(b"GET / HTTP/1.0\r\n\r\n", false),
        Reply::Reject(ParseError::InvalidProtocol)
    ));
    match reply_to(b"GET /x HTTP/1.1\r\n\r\n", false) {
        Reply::Handle(request) => assert_eq!(request.path(), "/x"),
        _ => panic!("expected a request"),
    }
}
