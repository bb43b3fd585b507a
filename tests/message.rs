use netconf_async::error::NetconfClientError;
use netconf_async::message::{
    Datastore, Filter, Hello, Rpc, RpcOperation, Source, WithDefaultsValue,
};
use time::format_description::well_known::Rfc3339;
use time::OffsetDateTime;

const ID: &str = "c1be0e7f-3cbc-413f-8aa8-18ed663221d4";

#[test]
fn message_test_serialize_hello() {
    let expected = r#"<hello xmlns="urn:ietf:params:xml:ns:netconf:base:1.0"><capabilities><capability>urn:ietf:params:netconf:base:1.0</capability><capability>urn:ietf:params:netconf:base:1.1</capability></capabilities></hello>"#;
    let hello = Hello::with_capabilities(
        vec![
            "urn:ietf:params:netconf:base:1.0".to_string(),
            "urn:ietf:params:netconf:base:1.1".to_string(),
        ],
        None,
    );
    assert_eq!(hello.to_xml(), expected.trim());
    assert_eq!(Hello::new().to_xml(), expected.trim());
}

#[test]
fn message_test_serialize_close_session() {
    let expected = r#"
<rpc message-id="c1be0e7f-3cbc-413f-8aa8-18ed663221d4" xmlns="urn:ietf:params:xml:ns:netconf:base:1.0">
  <close-session/>
</rpc>
"#;
    let close_session = Rpc::with_message_id(ID, RpcOperation::CloseSession);
    assert_eq!(close_session.to_xml(), expected.trim());
}

#[test]
fn message_test_serialize_kill_session() {
    let expected = r#"
<rpc message-id="c1be0e7f-3cbc-413f-8aa8-18ed663221d4" xmlns="urn:ietf:params:xml:ns:netconf:base:1.0">
  <kill-session>
    <session-id>69</session-id>
  </kill-session>
</rpc>
"#;
    let kill_session = Rpc::with_message_id(ID, RpcOperation::KillSession { session_id: 69 });
    assert_eq!(kill_session.to_xml(), expected.trim());
}

#[test]
fn message_test_serialize_get_config() {
    let expected = r#"
<rpc message-id="c1be0e7f-3cbc-413f-8aa8-18ed663221d4" xmlns="urn:ietf:params:xml:ns:netconf:base:1.0">
  <get-config>
    <source>
      <running/>
    </source>
    <with-defaults xmlns="urn:ietf:params:xml:ns:yang:ietf-netconf-with-defaults">
      report-all
    </with-defaults>
  </get-config>
</rpc>
"#;
    let get_config = Rpc::with_message_id(
        ID,
        RpcOperation::new_get_config(Datastore::Running, None, Some(WithDefaultsValue::ReportAll)),
    );
    assert_eq!(get_config.to_xml(), expected.trim());
}

#[test]
fn test_serialize_get() {
    let expected = r#"
<rpc message-id="c1be0e7f-3cbc-413f-8aa8-18ed663221d4" xmlns="urn:ietf:params:xml:ns:netconf:base:1.0">
  <get>
    <filter type="subtree">
      <top xmlns="https://example.com/schema/1.2/config"><users><user><name>fred</name></user></users></top>
    </filter>
  </get>
</rpc>
"#;
    let filter = r#"<top xmlns="https://example.com/schema/1.2/config"><users><user><name>fred</name></user></users></top>"#;
    let get = Rpc::with_message_id(ID, RpcOperation::new_get(Some(Filter::subtree(filter)), None));
    assert_eq!(get.to_xml(), expected.trim());
}

#[test]
fn test_serialize_commit() {
    let expected = r#"
<rpc message-id="c1be0e7f-3cbc-413f-8aa8-18ed663221d4" xmlns="urn:ietf:params:xml:ns:netconf:base:1.0">
  <commit/>
</rpc>
"#;
    let commit = Rpc::with_message_id(ID, RpcOperation::new_commit(None, None, None, None));
    assert_eq!(commit.to_xml(), expected.trim());

    let expected = r#"
<rpc message-id="c1be0e7f-3cbc-413f-8aa8-18ed663221d4" xmlns="urn:ietf:params:xml:ns:netconf:base:1.0">
  <commit>
    <confirmed/>
    <confirm-timeout>120</confirm-timeout>
    <persist>persis,qqSADD</persist>
  </commit>
</rpc>
"#;
    let commit = Rpc::with_message_id(
        ID,
        RpcOperation::new_commit(Some(()), Some(120), Some("persis,qqSADD".to_string()), None),
    );
    assert_eq!(commit.to_xml(), expected.trim());
}

#[test]
fn test_serialize_validate() {
    let expected = r#"
<rpc message-id="c1be0e7f-3cbc-413f-8aa8-18ed663221d4" xmlns="urn:ietf:params:xml:ns:netconf:base:1.0">
  <validate>
    <source>
      <candidate/>
    </source>
  </validate>
</rpc>
"#;
    let validate = Rpc::with_message_id(
        ID,
        RpcOperation::Validate { source: Source { datastore: Datastore::Candidate } },
    );
    assert_eq!(validate.to_xml(), expected.trim());
}

#[test]
fn test_serialize_create_subscription() {
    let expected = r#"
<rpc message-id="c1be0e7f-3cbc-413f-8aa8-18ed663221d4" xmlns="urn:ietf:params:xml:ns:netconf:base:1.0">
  <create-subscription xmlns="urn:ietf:params:xml:ns:netconf:notification:1.0">
    <stream>NETCONF</stream>
    <startTime>|start|</startTime>
    <stopTime>|stop|</stopTime>
  </create-subscription>
</rpc>
"#;
    let start_time = OffsetDateTime::now_utc();
    let stop_time = start_time
        .checked_add(time::Duration::checked_seconds_f32(60.0).unwrap())
        .unwrap();
    let (start, stop) = netconf_async::message::subscription_window(
        start_time.unix_timestamp_nanos(),
        (stop_time.unix_timestamp_nanos() - start_time.unix_timestamp_nanos()) as u128,
    )
    .unwrap();
    let subscription = Rpc::with_message_id(
        ID,
        RpcOperation::new_create_subscription_at(Some("NETCONF"), None, Some(start), Some(stop)),
    );
    let expected = expected
        .trim()
        .replace("|start|", start_time.format(&Rfc3339).unwrap().as_str())
        .replace("|stop|", stop_time.format(&Rfc3339).unwrap().as_str());
    assert_eq!(subscription.to_xml(), expected);
}

#[test]
fn create_subscription_without_duration_names_no_times() {
    let op = RpcOperation::new_create_subscription(None, None, None).unwrap();
    let rpc = Rpc::with_message_id(ID, op);
    assert_eq!(
        rpc.to_xml(),
        "<rpc message-id=\"c1be0e7f-3cbc-413f-8aa8-18ed663221d4\" xmlns=\"urn:ietf:params:xml:ns:netconf:base:1.0\">\n  <create-subscription xmlns=\"urn:ietf:params:xml:ns:netconf:notification:1.0\"/>\n</rpc>"
    );
    let op = RpcOperation::new_create_subscription(
        Some("NETCONF"),
        None,
        Some(60_000_000_000),
    )
    .unwrap();
    let xml = Rpc::with_message_id(ID, op).to_xml();
    assert!(xml.contains("<startTime>"));
    assert!(xml.contains("<stopTime>"));
}

#[test]
fn fresh_message_ids_differ() {
    let a = Rpc::new_with_operation(RpcOperation::CloseSession).to_xml();
    let b = Rpc::new_with_operation(RpcOperation::CloseSession).to_xml();
    assert_ne!(a, b);
    assert_eq!(a.find("\" xmlns=").unwrap() - "<rpc message-id=\"".len(), 36);
}

#[test]
fn text_is_escaped_but_filter_is_raw() {
    let rpc = Rpc::with_message_id(
        ID,
        RpcOperation::new_commit(None, Some(-5), Some("a<b&c".to_string()), Some("x>y".to_string())),
    );
    assert_eq!(
        rpc.to_xml(),
        "<rpc message-id=\"c1be0e7f-3cbc-413f-8aa8-18ed663221d4\" xmlns=\"urn:ietf:params:xml:ns:netconf:base:1.0\">\n  <commit>\n    <confirm-timeout>-5</confirm-timeout>\n    <persist>a&lt;b&amp;c</persist>\n    <persist-id>x&gt;y</persist-id>\n  </commit>\n</rpc>"
    );
    let get = Rpc::with_message_id(
        ID,
        RpcOperation::new_get_config(
            Datastore::Url("file://a&b".to_string()),
            Some(Filter::subtree("  <a x=\"1\">&amp;</a>\n")),
            Some(WithDefaultsValue::Trim),
        ),
    );
    assert_eq!(
        get.to_xml(),
        "<rpc message-id=\"c1be0e7f-3cbc-413f-8aa8-18ed663221d4\" xmlns=\"urn:ietf:params:xml:ns:netconf:base:1.0\">\n  <get-config>\n    <source>\n      <url>file://a&amp;b</url>\n    </source>\n    <filter type=\"subtree\">\n      <a x=\"1\">&amp;</a>\n    </filter>\n    <with-defaults xmlns=\"urn:ietf:params:xml:ns:yang:ietf-netconf-with-defaults\">\n      trim\n    </with-defaults>\n  </get-config>\n</rpc>"
    );
}

#[test]
fn filter_strips_backslashes_and_trims() {
    assert_eq!(Filter::subtree("  <a b=\\\"c\\\"/>  ").as_str(), "<a b=\"c\"/>");
    assert_eq!(Filter::strip_slashes(" a\\\\b\\"), "a\\b");
    assert_eq!(Filter::subtree("\n<x/>\t").as_str(), "<x/>");
    assert_eq!(Filter::strip_backslashes(" a\\\\b\\c\\"), " a\\bc");
}

#[test]
fn datastore_parse_is_case_insensitive() {
    assert!(matches!(Datastore::parse("RUNNING"), Ok(Datastore::Running)));
    assert!(matches!(Datastore::parse("Candidate"), Ok(Datastore::Candidate)));
    assert!(matches!(Datastore::parse("startup"), Ok(Datastore::Startup)));
    match Datastore::parse("https://x") {
        Ok(Datastore::Url(u)) => assert_eq!(u, "https://x"),
        other => panic!("unexpected {:?}", other),
    }
    match Datastore::parse("FTP://Host/F") {
        Ok(Datastore::Url(u)) => assert_eq!(u, "ftp://host/f"),
        other => panic!("unexpected {:?}", other),
    }
    match Datastore::parse("ZZZ") {
        Err(NetconfClientError::UnknownDatastore { unknown, .. }) => assert_eq!(unknown, "zzz"),
        other => panic!("unexpected {:?}", other),
    }
    match Datastore::parse("zzz") {
        Err(NetconfClientError::UnknownDatastore { expected, unknown }) => {
            assert_eq!(expected, vec!["running", "candidate", "startup", "ftp|http|file"]);
            assert_eq!(unknown, "zzz");
        }
        other => panic!("unexpected {:?}", other),
    }
}

#[test]
fn with_defaults_parse() {
    assert_eq!(WithDefaultsValue::parse("Report-All").unwrap(), WithDefaultsValue::ReportAll);
    assert_eq!(
        WithDefaultsValue::parse("report-all-tagged").unwrap(),
        WithDefaultsValue::ReportAllTagged
    );
    assert_eq!(WithDefaultsValue::parse("TRIM").unwrap(), WithDefaultsValue::Trim);
    assert_eq!(WithDefaultsValue::parse("explicit").unwrap(), WithDefaultsValue::Explicit);
    match WithDefaultsValue::parse("All") {
        Err(NetconfClientError::Protocol(m)) => assert_eq!(m, "unknown with-defaults value: All"),
        other => panic!("unexpected {:?}", other),
    }
}

#[test]
fn hello_capabilities() {
    let hello = Hello::new();
    assert_eq!(
        hello.capabilities(),
        vec!["urn:ietf:params:netconf:base:1.0", "urn:ietf:params:netconf:base:1.1"]
    );
    assert!(hello.has_capability("urn:ietf:params:netconf:base:1.1"));
    assert!(!hello.has_capability("urn:ietf:params:netconf:base:1.2"));
    assert_eq!(hello.session_id(), None);
    let hello = Hello::with_capabilities(vec!["a&b".to_string()], Some(7));
    assert_eq!(
        hello.to_xml(),
        "<hello xmlns=\"urn:ietf:params:xml:ns:netconf:base:1.0\"><capabilities><capability>a&amp;b</capability></capabilities><session-id>7</session-id></hello>"
    );
}

#[test]
fn subscription_window_renders_both_ends() {
    let (a, b) = netconf_async::message::subscription_window(0, 60_000_000_000).unwrap();
    assert_eq!(a, "1970-01-01T00:00:00Z");
    assert_eq!(b, "1970-01-01T00:01:00Z");
    assert!(netconf_async::message::subscription_window(i128::MAX, 1).is_none());
}
