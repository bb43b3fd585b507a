use netconf_async::error::NetconfClientError;
use netconf_async::framer::AsyncFramer;

const CHUNKED_REPLY: &str = r#"
#38
<?xml version="1.0" encoding="UTF-8"?>
#1


#10
<rpc-reply
#50
 message-id="8ddd59e5-96fc-4a55-a75f-a3fae2d9f712"
#48
 xmlns="urn:ietf:params:xml:ns:netconf:base:1.0"
#1
>
#1


#14
    <rpc-error
#1
>
#1


#41
        <error-type>protocol</error-type>
#1


#42
        <error-tag>bad-element</error-tag>
#1


#46
        <error-severity>error</error-severity>
#1


#22
        <error-message
#1
>
#1


#58
            Element is not valid in the specified context.
#1


#24
        </error-message>
#1


#19
        <error-info
#1
>
#1


#45
            <bad-element>startu</bad-element>
#1


#21
        </error-info>
#1


#16
    </rpc-error>
#1


#12
</rpc-reply>
##

"#;

const EOM_REPLY: &str = r#"
<?xml version="1.0" encoding="UTF-8"?>
<rpc-reply message-id="8ddd59e5-96fc-4a55-a75f-a3fae2d9f712" xmlns="urn:ietf:params:xml:ns:netconf:base:1.0">
    <rpc-error>
        <error-type>protocol</error-type>
        <error-tag>bad-element</error-tag>
        <error-severity>error</error-severity>
        <error-message>
            Element is not valid in the specified context.
        </error-message>
        <error-info>
            <bad-element>startu</bad-element>
        </error-info>
    </rpc-error>
</rpc-reply>
]]>]]>"#;

const EXPECTED_REPLY: &str = r#"
<?xml version="1.0" encoding="UTF-8"?>
<rpc-reply message-id="8ddd59e5-96fc-4a55-a75f-a3fae2d9f712" xmlns="urn:ietf:params:xml:ns:netconf:base:1.0">
    <rpc-error>
        <error-type>protocol</error-type>
        <error-tag>bad-element</error-tag>
        <error-severity>error</error-severity>
        <error-message>
            Element is not valid in the specified context.
        </error-message>
        <error-info>
            <bad-element>startu</bad-element>
        </error-info>
    </rpc-error>
</rpc-reply>
"#;

fn read_all(framer: &mut AsyncFramer, bytes: &[u8]) -> String {
    framer.receive(bytes);
    framer.read_message().unwrap().unwrap()
}

#[test]
fn async_framer_test_chunked_framer() {
    let mut framer = AsyncFramer::new();
    framer.upgrade();
    let resp = read_all(&mut framer, CHUNKED_REPLY.as_bytes());
    assert_eq!(resp, EXPECTED_REPLY.trim());
}

#[test]
fn async_framer_test_eof_framer() {
    let mut framer = AsyncFramer::new();
    let resp = read_all(&mut framer, EOM_REPLY.trim().as_bytes());
    assert_eq!(resp, EXPECTED_REPLY.trim());
}

#[test]
fn mod_test_chunked_framer() {
    let mut framer = AsyncFramer::new();
    framer.upgrade();
    let resp = read_all(&mut framer, CHUNKED_REPLY.to_string().into_bytes().as_slice());
    assert_eq!(resp, EXPECTED_REPLY.trim());
}

fn round_trip(framer: &mut AsyncFramer, msg: &str) -> String {
    let bytes = framer.encode(msg);
    framer.receive(&bytes);
    framer.read_message().unwrap().unwrap()
}

#[test]
fn chunked_round_trip_lengths() {
    let mut framer = AsyncFramer::new();
    framer.upgrade();
    assert_eq!(round_trip(&mut framer, "x"), "x");
    let long = "a".repeat(4096);
    assert_eq!(round_trip(&mut framer, &long), long);
    assert_eq!(round_trip(&mut framer, "<ok/>  \n"), "<ok/>");
    assert_eq!(round_trip(&mut framer, "\u{e9}t\u{e9}"), "\u{e9}t\u{e9}");
    assert_eq!(framer.read_message().unwrap(), None);
}

#[test]
fn chunked_empty_message_has_zero_chunk() {
    let mut framer = AsyncFramer::new();
    framer.upgrade();
    assert_eq!(framer.encode(""), b"\n#0\n\n##\n".to_vec());
    assert_eq!(round_trip(&mut framer, ""), "");
    // The zero-size chunk ends the message; the end-of-chunks marker stays.
    assert_eq!(framer.read_message().unwrap(), Some(String::new()));
    assert_eq!(framer.read_message().unwrap(), None);
}

#[test]
fn chunked_encoding_is_one_chunk() {
    let mut framer = AsyncFramer::new();
    framer.upgrade();
    assert_eq!(framer.encode("<a/>"), b"\n#4\n<a/>\n##\n".to_vec());
}

#[test]
fn eom_encoding_appends_marker() {
    let framer = AsyncFramer::new();
    assert_eq!(framer.encode("<a/>"), b"<a/>]]>]]>".to_vec());
}

#[test]
fn chunked_single_byte_chunks() {
    let mut framer = AsyncFramer::new();
    framer.upgrade();
    framer.receive(b"\n#1\nh\n#1\ni\n##\n");
    assert_eq!(framer.read_message().unwrap(), Some("hi".to_string()));
}

#[test]
fn chunked_end_marker_after_payload() {
    let mut framer = AsyncFramer::new();
    framer.upgrade();
    framer.receive(b"\n#123\n");
    framer.receive("x".repeat(123).as_bytes());
    assert_eq!(framer.read_message().unwrap(), None);
    framer.receive(b"\n##\n");
    assert_eq!(framer.read_message().unwrap(), Some("x".repeat(123)));
    assert_eq!(framer.read_message().unwrap(), None);
}

#[test]
fn eom_marker_split_across_reads() {
    let mut framer = AsyncFramer::new();
    framer.receive(b"<hello/>]]>");
    assert_eq!(framer.read_message().unwrap(), None);
    framer.receive(b"]]><next");
    assert_eq!(framer.read_message().unwrap(), Some("<hello/>".to_string()));
    framer.receive(b"/>]]>]]>");
    assert_eq!(framer.read_message().unwrap(), Some("<next/>".to_string()));
}

#[test]
fn malformed_chunk_header() {
    let mut framer = AsyncFramer::new();
    framer.upgrade();
    framer.receive(b"\n#1x\n");
    match framer.read_message() {
        Err(NetconfClientError::MalformedChunk { expected, actual }) => {
            assert_eq!(expected, '0');
            assert_eq!(actual, 'x');
        }
        other => panic!("unexpected {:?}", other),
    }
    let mut framer = AsyncFramer::new();
    framer.upgrade();
    framer.receive(b"#1\n");
    assert!(matches!(
        framer.read_message(),
        Err(NetconfClientError::MalformedChunk { expected: '\n', actual: '#' })
    ));
}

#[test]
fn invalid_utf8_is_replaced() {
    let mut framer = AsyncFramer::new();
    framer.receive(&[0x61, 0xff, 0x62, 0x5d, 0x5d, 0x3e, 0x5d, 0x5d, 0x3e]);
    assert_eq!(framer.read_message().unwrap(), Some("a\u{fffd}b".to_string()));
}
