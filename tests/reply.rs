use netconf_async::error::NetconfClientError;
use netconf_async::message::Hello;
use netconf_async::reply::{ErrorSeverity, ErrorTag, ErrorType, RpcReply};

const TWO_ERRORS: &str = r#"
<rpc-reply message-id="67d83d6b-1f0b-47fb-8fdf-2cfc3fb2a371" xmlns="urn:ietf:params:xml:ns:netconf:base:1.0">
  <rpc-error>
    <error-type>protocol</error-type>
    <error-tag>bad-element</error-tag>
    <error-severity>error</error-severity>
    <error-message>Element is not valid in the specified context.</error-message>
    <error-info>
      <bad-element>startu</bad-element>
    </error-info>
  </rpc-error>
  <rpc-error>
    <error-type>app</error-type>
    <error-tag>bad-element</error-tag>
    <error-severity>error</error-severity>
    <error-message>Element is not valid in the specified context.</error-message>
    <error-info>
      <bad-element>startu</bad-element>
    </error-info>
  </rpc-error>
</rpc-reply>
"#;

#[test]
fn test_deserialize_rpc_reply() {
    let reply = RpcReply::decode(TWO_ERRORS).unwrap();
    assert!(reply.has_errors(), "<rpc-error> element not found");
    assert_eq!(reply.rpc_error.len(), 2);

    let reply = r#"
<rpc-reply message-id="c60e637d-0f79-41ea-ad09-a5ee02f08434">
  <data>
    <configure xmlns="urn:nokia.com:sros:ns:yang:sr:conf" xmlns:nokia-attr="urn:nokia.com:sros:ns:yang:sr:attributes">
      <port>
        <port-id>1/1/2</port-id>
      </port>
      <port>
        <port-id>1/1/3</port-id>
      </port>
      <system>
        <time>
          <ntp>
            <admin-state>enable</admin-state>
            <server>
              <router-instance>Base</router-instance>
            </server>
          </ntp>
          <zone>
            <standard>
              <name>eet</name>
            </standard>
          </zone>
        </time>
      </system>
    </configure>
  </data>
</rpc-reply>
        "#;
    let reply = RpcReply::decode(reply).unwrap();
    assert!(!reply.has_errors());
    assert!(!reply.ok);

    let reply = r#"
<?xml version="1.0" encoding="UTF-8"?>
<rpc-reply message-id="938f1c28-e6e3-4641-a4d0-383d9ef1a280" xmlns="urn:ietf:params:xml:ns:netconf:base:1.0">
  <ok/>
</rpc-reply>
"#;
    let reply = RpcReply::decode(reply).unwrap();
    assert!(reply.ok);
    assert!(reply.is_ok());
    assert_eq!(reply.get_message_id(), "938f1c28-e6e3-4641-a4d0-383d9ef1a280");
}

#[test]
fn test_deserialize_reply_with_errors() {
    let reply = RpcReply::decode(TWO_ERRORS.trim()).unwrap();
    println!("{:?}", reply);
    let first = &reply.rpc_error[0];
    assert_eq!(first.error_type, ErrorType::Protocol);
    assert_eq!(first.error_tag, ErrorTag::BadElement);
    assert_eq!(first.error_severity, ErrorSeverity::Error);
    assert_eq!(
        first.error_message.as_deref(),
        Some("Element is not valid in the specified context.")
    );
    let info = first.error_info.as_ref().unwrap();
    assert_eq!(info.bad_element.as_deref(), Some("startu"));
    assert_eq!(info.session_id, None);
    assert_eq!(reply.rpc_error[1].error_type, ErrorType::App);
    assert!(!reply.is_ok());
}

#[test]
fn reply_error_fields_are_decoded() {
    let reply = RpcReply::decode(
        "<rpc-reply message-id=\"a&amp;b\"><rpc-error><error-severity> warning </error-severity><error-type>rpc</error-type><error-tag>lock-denied</error-tag><error-path>/a/b</error-path><error-app-tag>x&lt;y</error-app-tag><error-info><session-id>42</session-id></error-info></rpc-error><ok/></rpc-reply>",
    )
    .unwrap();
    assert_eq!(reply.get_message_id(), "a&b");
    assert!(reply.ok);
    assert!(!reply.is_ok());
    let e = &reply.rpc_error[0];
    assert_eq!(e.error_severity, ErrorSeverity::Warning);
    assert_eq!(e.error_type, ErrorType::Rpc);
    assert_eq!(e.error_tag, ErrorTag::LockDenied);
    assert_eq!(e.error_path.as_deref(), Some("/a/b"));
    assert_eq!(e.error_app_tag.as_deref(), Some("x<y"));
    assert_eq!(e.error_message, None);
    assert_eq!(e.error_info.as_ref().unwrap().session_id, Some(42));
}

#[test]
fn reply_decode_failures() {
    let unknown = "<rpc-reply message-id=\"1\"><rpc-error><error-severity>fatal</error-severity><error-type>rpc</error-type><error-tag>in-use</error-tag></rpc-error></rpc-reply>";
    assert!(matches!(RpcReply::decode(unknown), Err(NetconfClientError::SerializingFailure(_))));
    let missing_tag = "<rpc-reply message-id=\"1\"><rpc-error><error-severity>error</error-severity><error-type>rpc</error-type></rpc-error></rpc-reply>";
    assert!(matches!(RpcReply::decode(missing_tag), Err(NetconfClientError::SerializingFailure(_))));
    assert!(matches!(RpcReply::decode("<rpc-reply><ok/></rpc-reply>"), Err(NetconfClientError::SerializingFailure(_))));
    assert!(matches!(RpcReply::decode("<hello/>"), Err(NetconfClientError::SerializingFailure(_))));
    assert!(matches!(
        RpcReply::decode("<rpc-reply message-id=\"1\"><rpc-error><error-severity>error</error-severity></rpc-reply>"),
        Err(NetconfClientError::SerializingFailure(_))
    ));
}

#[test]
fn hello_decode_capability_only() {
    let hello = Hello::decode(
        r#"<hello xmlns="urn:ietf:params:xml:ns:netconf:base:1.0"><capabilities><capability>urn:ietf:params:netconf:base:1.1</capability></capabilities></hello>"#,
    )
    .unwrap();
    assert!(hello.has_capability("urn:ietf:params:netconf:base:1.1"));
    assert!(!hello.has_capability("urn:ietf:params:netconf:base:1.0"));
    assert_eq!(hello.session_id(), None);
}

#[test]
fn hello_decode_with_session_id() {
    let hello = Hello::decode(
        "<?xml version=\"1.0\" encoding=\"UTF-8\"?>\n<hello xmlns=\"urn:ietf:params:xml:ns:netconf:base:1.0\">\n  <capabilities>\n    <capability>\n      urn:ietf:params:netconf:base:1.0\n    </capability>\n    <capability>urn:x?a=1&amp;b=2</capability>\n  </capabilities>\n  <session-id>4711</session-id>\n</hello>",
    )
    .unwrap();
    assert_eq!(
        hello.capabilities(),
        vec!["urn:ietf:params:netconf:base:1.0", "urn:x?a=1&b=2"]
    );
    assert_eq!(hello.session_id(), Some(4711));
    assert!(matches!(
        Hello::decode("<hello><capabilities/><session-id>x</session-id></hello>"),
        Err(NetconfClientError::SerializingFailure(_))
    ));
    assert!(matches!(Hello::decode("<hello></hello>"), Err(NetconfClientError::SerializingFailure(_))));
    let empty = Hello::decode("<hello><capabilities/></hello>").unwrap();
    assert!(empty.capabilities().is_empty());
}

#[test]
fn only_children_of_the_reply_count() {
    let reply = RpcReply::decode("<rpc-reply message-id=\"a\"><d><ok/></d></rpc-reply>").unwrap();
    assert!(!reply.ok);
    assert!(!reply.is_ok());
    let reply = RpcReply::decode("<rpc-reply message-id=\"a\"><d><rpc-error/></d></rpc-reply>").unwrap();
    assert!(!reply.has_errors());
    let reply =
        RpcReply::decode("<rpc-reply message-id=\"a\"><ok/><d><rpc-error/></d></rpc-reply>").unwrap();
    assert!(reply.is_ok());
    let reply = RpcReply::decode(
        "<rpc-reply message-id=\"a\"><!-- note --><data><data><ok/></data></data><ok></ok></rpc-reply>",
    )
    .unwrap();
    assert!(reply.is_ok());
    assert!(matches!(
        RpcReply::decode("<rpc-reply message-id=\"a\"><data><x></data></rpc-reply>"),
        Err(NetconfClientError::SerializingFailure(_))
    ));
}

#[test]
fn reply_text_form() {
    let reply = RpcReply::decode(TWO_ERRORS).unwrap();
    assert_eq!(
        reply.to_xml(),
        "<rpc-reply message-id=\"67d83d6b-1f0b-47fb-8fdf-2cfc3fb2a371\">\n  <rpc-error>\n    <error-severity>error</error-severity>\n    <error-type>protocol</error-type>\n    <error-tag>bad-element</error-tag>\n    <error-message>Element is not valid in the specified context.</error-message>\n    <error-info>\n      <bad-element>startu</bad-element>\n    </error-info>\n  </rpc-error>\n  <rpc-error>\n    <error-severity>error</error-severity>\n    <error-type>app</error-type>\n    <error-tag>bad-element</error-tag>\n    <error-message>Element is not valid in the specified context.</error-message>\n    <error-info>\n      <bad-element>startu</bad-element>\n    </error-info>\n  </rpc-error>\n</rpc-reply>"
    );
    let ok = RpcReply::decode("<rpc-reply message-id=\"a\"><ok/></rpc-reply>").unwrap();
    assert_eq!(ok.to_xml(), "<rpc-reply message-id=\"a\">\n  <ok/>\n</rpc-reply>");
    let empty = RpcReply::decode("<rpc-reply message-id=\"a&amp;b\"><data/></rpc-reply>").unwrap();
    assert_eq!(empty.to_xml(), "<rpc-reply message-id=\"a&amp;b\"/>");
}

#[test]
fn character_references_decode() {
    let hello = Hello::decode(
        "<hello><capabilities><capability>a&#38;b</capability></capabilities></hello>",
    )
    .unwrap();
    assert_eq!(hello.capabilities(), vec!["a&b"]);
    assert!(Hello::decode("<hello><capabilities><capability>a&zz;</capability></capabilities></hello>").is_err());
}
