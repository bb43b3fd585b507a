use netconf_async::error::NetconfClientError;
use netconf_async::framer::AsyncFramer;
use netconf_async::host::{parse_address, Host};
use netconf_async::message::{Datastore, Filter, WithDefaultsValue};
use netconf_async::session::Connection;

const SERVER_HELLO_11: &str = "<hello xmlns=\"urn:ietf:params:xml:ns:netconf:base:1.0\"><capabilities><capability>urn:ietf:params:netconf:base:1.0</capability><capability>urn:ietf:params:netconf:base:1.1</capability></capabilities><session-id>69</session-id></hello>";

const SERVER_HELLO_10: &str = "<hello><capabilities><capability>urn:ietf:params:netconf:base:1.0</capability></capabilities></hello>";

fn chunk(text: &str) -> Vec<u8> {
    format!("\n#{}\n{}\n##\n", text.len(), text).into_bytes()
}

fn reply_ok() -> &'static str {
    "<rpc-reply message-id=\"1\" xmlns=\"urn:ietf:params:xml:ns:netconf:base:1.0\"><ok/></rpc-reply>"
}

#[test]
fn client_hello_is_single_line_eom_framed() {
    let bytes = Connection::client_hello();
    let text = String::from_utf8(bytes).unwrap();
    assert_eq!(
        text,
        "<hello xmlns=\"urn:ietf:params:xml:ns:netconf:base:1.0\"><capabilities><capability>urn:ietf:params:netconf:base:1.0</capability><capability>urn:ietf:params:netconf:base:1.1</capability></capabilities></hello>]]>]]>"
    );
}

#[test]
fn hello_negotiates_base_11() {
    let conn = Connection::new(AsyncFramer::new(), SERVER_HELLO_11).unwrap();
    assert!(conn.upgraded());
    assert_eq!(conn.session_id(), 69);
    let conn = Connection::new(AsyncFramer::new(), SERVER_HELLO_10).unwrap();
    assert!(!conn.upgraded());
    assert_eq!(conn.session_id(), 0);
    assert!(Connection::new(AsyncFramer::new(), "<rpc-reply/>").is_err());
}

#[test]
fn rpc_round_trip_and_single_outstanding() {
    let mut conn = Connection::new(AsyncFramer::new(), SERVER_HELLO_11).unwrap();
    let bytes = conn
        .get_config(Datastore::Running, None, Some(WithDefaultsValue::ReportAll))
        .unwrap();
    let text = String::from_utf8(bytes).unwrap();
    assert!(text.starts_with("\n#"));
    assert!(text.ends_with("</rpc>\n##\n"));
    assert!(text.contains("<source>\n      <running/>\n    </source>"));
    assert!(matches!(conn.commit(), Err(NetconfClientError::Protocol(_))));
    assert_eq!(conn.take_reply().unwrap(), None);
    let reply = chunk(reply_ok());
    conn.receive(&reply[..5]);
    assert_eq!(conn.take_reply().unwrap(), None);
    conn.receive(&reply[5..]);
    assert_eq!(conn.take_reply().unwrap().as_deref(), Some(reply_ok()));
    assert!(matches!(conn.take_reply(), Err(NetconfClientError::Protocol(_))));
    assert!(conn.validate(Datastore::Candidate).is_ok());
}

#[test]
fn rpc_error_reply_is_netconf_error() {
    let mut conn = Connection::new(AsyncFramer::new(), SERVER_HELLO_10).unwrap();
    let bytes = conn.get(Some(Filter::subtree("<top/>")), None).unwrap();
    assert!(String::from_utf8(bytes).unwrap().ends_with("</rpc>]]>]]>"));
    let reply = "<rpc-reply message-id=\"1\"><rpc-error><error-type>rpc</error-type><error-tag>in-use</error-tag><error-severity>error</error-severity></rpc-error></rpc-reply>";
    conn.receive(format!("{}]]>]]>", reply).as_bytes());
    match conn.take_reply() {
        Err(NetconfClientError::Netconf(r)) => assert!(r.has_errors()),
        other => panic!("unexpected {:?}", other),
    }
    assert!(conn.commit().is_ok());
}

#[test]
fn skip_parsing_returns_raw_reply() {
    let mut conn = Connection::new(AsyncFramer::new(), SERVER_HELLO_10).unwrap();
    conn.set_skip_serializing();
    conn.confirmed_commit(Some(120), None, None).unwrap();
    conn.receive(b"not xml]]>]]>");
    assert_eq!(conn.take_reply().unwrap().as_deref(), Some("not xml"));
}

#[test]
fn closed_session_takes_no_request() {
    let mut conn = Connection::new(AsyncFramer::new(), SERVER_HELLO_11).unwrap();
    let bytes = conn.close_session().unwrap();
    assert!(String::from_utf8(bytes).unwrap().contains("<close-session/>"));
    assert!(conn.is_closed());
    conn.receive(&chunk(reply_ok()));
    assert!(conn.take_reply().unwrap().is_some());
    assert!(matches!(conn.get(None, None), Err(NetconfClientError::Protocol(_))));
    let mut other = Connection::new(AsyncFramer::new(), SERVER_HELLO_11).unwrap();
    let bytes = other.kill_session(7).unwrap();
    assert!(String::from_utf8(bytes).unwrap().contains("<session-id>7</session-id>"));
    assert!(other.is_closed());
}

#[test]
fn notifications_stream_after_subscription() {
    let mut conn = Connection::new(AsyncFramer::new(), SERVER_HELLO_11).unwrap();
    assert!(matches!(conn.take_notification(), Err(NetconfClientError::Protocol(_))));
    let bytes = conn.notification(Some("NETCONF"), None).unwrap();
    assert!(String::from_utf8(bytes).unwrap().contains("<stream>NETCONF</stream>"));
    conn.receive(&chunk(reply_ok()));
    assert!(conn.take_reply().unwrap().is_some());
    conn.receive(&chunk("<notification>1</notification>"));
    conn.receive(&chunk("<notification>2</notification>"));
    assert_eq!(conn.take_notification().unwrap().as_deref(), Some("<notification>1</notification>"));
    assert_eq!(conn.take_notification().unwrap().as_deref(), Some("<notification>2</notification>"));
    assert_eq!(conn.take_notification().unwrap(), None);
    assert!(matches!(conn.commit(), Err(NetconfClientError::Protocol(_))));
}

#[test]
fn sessions_are_independent() {
    let mut a = Connection::new(AsyncFramer::new(), SERVER_HELLO_11).unwrap();
    let b = Connection::new(
        AsyncFramer::new(),
        "<hello><capabilities><capability>urn:ietf:params:netconf:base:1.1</capability></capabilities><session-id>70</session-id></hello>",
    )
    .unwrap();
    assert_eq!(a.session_id(), 69);
    assert_eq!(b.session_id(), 70);
    a.commit().unwrap();
    assert!(!b.is_closed());
    let mut b = b;
    assert!(b.commit().is_ok());
}

#[test]
fn host_address_parsing() {
    assert_eq!(parse_address("10.0.0.1").unwrap(), ("10.0.0.1".to_string(), 830));
    assert_eq!(parse_address("router:2022").unwrap(), ("router".to_string(), 2022));
    assert!(parse_address("router:x").is_err());
    assert!(parse_address("router:70000").is_err());
    assert!(parse_address("router:").is_err());
    let h = Host::new("r1", Some("admin".to_string()), Some("pw".to_string()), None, false, None, None).unwrap();
    assert_eq!((h.address.as_str(), h.port, h.auth_user.as_str()), ("r1", 830, "admin"));
    let h = Host::new("r1:22", None, None, Some("cfg".to_string()), true, None, Some(2022)).unwrap();
    assert_eq!((h.port, h.auth_user.as_str(), h.auth_password), (22, "cfg", None));
    assert!(Host::new("r1", None, Some("pw".to_string()), None, false, None, None).is_err());
    assert!(Host::new("r1", Some("u".to_string()), None, None, false, None, None).is_err());
    let h = Host::new(
        "alias",
        Some("u".to_string()),
        Some("pw".to_string()),
        None,
        false,
        Some("10.1.1.1".to_string()),
        Some(2022),
    )
    .unwrap();
    assert_eq!((h.address.as_str(), h.port), ("10.1.1.1", 2022));
}
