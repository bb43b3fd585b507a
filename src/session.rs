use crate::envelope::rpc_xml;
use crate::error::NetconfClientError;
use crate::framer::{chunked_frame, eom_frame, read_outcome, AsyncFramer, ReadOutcome};
use crate::message::{Datastore, Filter, Hello, Rpc, RpcOperation, Source, WithDefaultsValue};
use crate::reply::{
    capability_texts, decode_error, hello_decodes, hello_parts, hello_session, reply_children, reply_decodes_to, reply_plain, text_value, RpcReply,
    error_contents,
};
use vstd::prelude::*;
use vstd::string::{StringExecFns, StringSliceAdditionalSpecFns};

verus! {

/// The bytes that carry text `t` in the given framing.
pub open spec fn framed(upgraded: bool, t: Seq<char>) -> Seq<u8> {
    if upgraded {
        chunked_frame(vstd::utf8::encode_utf8(t))
    } else {
        eom_frame(vstd::utf8::encode_utf8(t))
    }
}

/// The hello a client sends: base 1.0 and base 1.1, no session identifier.
pub open spec fn is_client_hello(h: Hello) -> bool {
    h.capabilities.capability@.len() == 2 && h.capabilities.capability@[0]@
        == crate::NETCONF_BASE_10_CAP@ && h.capabilities.capability@[1]@
        == crate::NETCONF_BASE_11_CAP@ && h.session_id is None
}

/// Whether `op` ends the session.
pub open spec fn ends_session(op: RpcOperation) -> bool {
    op is CloseSession || op is KillSession
}

/// One NETCONF session over a transport that the caller drives: the session
/// hands out the bytes to write, is given the bytes read, and decides.
///
/// At most one request is outstanding at a time; once `close-session` or
/// `kill-session` is sent no further request is accepted; after a
/// subscription is confirmed the session only receives notifications.
pub struct Connection {
    framer: AsyncFramer,
    session_id: Option<u64>,
    skip_serializing: bool,
    is_closed: bool,
    awaiting_reply: bool,
    subscribing: bool,
    notifying: bool,
}

impl Connection {
    pub closed spec fn framer_state(&self) -> AsyncFramer {
        self.framer
    }

    pub closed spec fn peer_session_id(&self) -> Option<u64> {
        self.session_id
    }

    pub closed spec fn skips_parsing(&self) -> bool {
        self.skip_serializing
    }

    pub closed spec fn closed(&self) -> bool {
        self.is_closed
    }

    pub closed spec fn awaiting(&self) -> bool {
        self.awaiting_reply
    }

    pub closed spec fn subscription_pending(&self) -> bool {
        self.subscribing
    }

    pub closed spec fn streaming(&self) -> bool {
        self.notifying
    }

    /// Whether a new request may be sent.
    pub open spec fn accepts_requests(&self) -> bool {
        !self.closed() && !self.awaiting() && !self.streaming()
    }

    /// The bytes of the client's hello, framed for base 1.0.
    pub fn client_hello() -> (r: Vec<u8>)
        ensures
            exists|h: Hello|
                is_client_hello(h) && r@ == eom_frame(
                    vstd::utf8::encode_utf8(#[trigger] crate::envelope::hello_xml(h)),
                ),
    {
        let hello = Hello::new();
        let framer = AsyncFramer::new();
        let r = framer.encode(hello.to_xml().as_str());
        proof {
            assert(is_client_hello(hello));
        }
        r
    }

    /// The session that follows the peer's hello: base 1.1 framing is taken
    /// up iff the peer advertises it (the client always does), and the
    /// peer's session identifier is kept.
    pub fn from_hello(framer: AsyncFramer, hello: &Hello) -> (r: Connection)
        requires
            !framer.is_upgraded(),
        ensures
            r.framer_state().buffer() == framer.buffer(),
            r.framer_state().is_upgraded() == exists|i: int|
                0 <= i < hello.capabilities.capability@.len()
                    && #[trigger] hello.capabilities.capability@[i]@ == crate::NETCONF_BASE_11_CAP@,
            r.peer_session_id() == hello.session_id,
            !r.skips_parsing(),
            !r.closed(),
            !r.awaiting(),
            !r.subscription_pending(),
            !r.streaming(),
    {
        let mut framer = framer;
        if hello.has_capability(crate::NETCONF_BASE_11_CAP) {
            framer.upgrade();
        }
        Connection {
            framer,
            session_id: hello.session_id(),
            skip_serializing: false,
            is_closed: false,
            awaiting_reply: false,
            subscribing: false,
            notifying: false,
        }
    }

    /// Decodes the peer's hello and starts the session after it.
    pub fn new(framer: AsyncFramer, reply: &str) -> (r: Result<Connection, NetconfClientError>)
        requires
            !framer.is_upgraded(),
        ensures
            r matches Ok(c) ==> c.framer_state().buffer() == framer.buffer() && !c.closed()
                && !c.awaiting() && !c.streaming() && !c.skips_parsing(),
            r matches Ok(c) ==> hello_parts(reply@) matches Some((body, cb)) && c.peer_session_id()
                == hello_session(body) && (c.framer_state().is_upgraded() <==> exists|i: int|
                0 <= i < capability_texts(cb, 0).len() && text_value(
                    #[trigger] capability_texts(cb, 0)[i],
                ) == crate::NETCONF_BASE_11_CAP@),
            r is Ok <==> hello_decodes(reply@),
            r matches Err(e) ==> decode_error(e),
    {
        let hello = Hello::decode(reply)?;
        let c = Connection::from_hello(framer, &hello);
        proof {
            let caps = hello.capabilities.capability@;
            let (body, cb) = hello_parts(reply@).unwrap();
            let texts = capability_texts(cb, 0);
            if c.framer_state().is_upgraded() {
                let i = choose|i: int|
                    0 <= i < caps.len() && #[trigger] caps[i]@ == crate::NETCONF_BASE_11_CAP@;
                assert(caps[i]@ == text_value(texts[i]));
            }
            if exists|i: int|
                0 <= i < texts.len() && text_value(#[trigger] texts[i])
                    == crate::NETCONF_BASE_11_CAP@ {
                let i = choose|i: int|
                    0 <= i < texts.len() && text_value(#[trigger] texts[i])
                        == crate::NETCONF_BASE_11_CAP@;
                assert(caps[i]@ == text_value(texts[i]));
            }
        }
        Ok(c)
    }

    /// Replies are returned without being decoded for errors.
    pub fn set_skip_serializing(&mut self)
        ensures
            final(self).skips_parsing(),
            final(self).framer_state() == old(self).framer_state(),
            final(self).peer_session_id() == old(self).peer_session_id(),
            final(self).closed() == old(self).closed(),
            final(self).awaiting() == old(self).awaiting(),
            final(self).subscription_pending() == old(self).subscription_pending(),
            final(self).streaming() == old(self).streaming(),
    {
        self.skip_serializing = true;
    }

    /// The peer's session identifier, 0 when it gave none.
    pub fn session_id(&self) -> (r: u64)
        ensures
            r == match self.peer_session_id() {
                Some(id) => id,
                None => 0,
            },
    {
        match self.session_id {
            Some(id) => id,
            None => 0,
        }
    }

    /// Whether `close-session` or `kill-session` has been sent.
    pub fn is_closed(&self) -> (r: bool)
        ensures
            r == self.closed(),
    {
        self.is_closed
    }

    /// Whether base 1.1 framing is in effect.
    pub fn upgraded(&self) -> (r: bool)
        ensures
            r == self.framer_state().is_upgraded(),
    {
        self.framer.upgraded()
    }

    /// The bytes that send `rpc`, and the request becomes outstanding.
    /// Refused while a reply is outstanding, after the session was closed, and
    /// once notifications stream.
    pub fn request(&mut self, rpc: Rpc) -> (r: Result<Vec<u8>, NetconfClientError>)
        ensures
            r is Ok <==> old(self).accepts_requests(),
            r matches Ok(b) ==> b@ == framed(old(self).framer_state().is_upgraded(), rpc_xml(rpc))
                && final(self).awaiting() && final(self).closed() == ends_session(*rpc.op())
                && final(self).subscription_pending() == (rpc.op() is CreateSubscription),
            r is Err ==> *final(self) == *old(self),
            final(self).framer_state().buffer() == old(self).framer_state().buffer(),
            final(self).framer_state().is_upgraded() == old(self).framer_state().is_upgraded(),
            final(self).peer_session_id() == old(self).peer_session_id(),
            final(self).skips_parsing() == old(self).skips_parsing(),
            !final(self).streaming() || old(self).streaming(),
    {
        if self.is_closed {
            return Err(NetconfClientError::Protocol(String::from_str("session is closed")));
        }
        if self.awaiting_reply {
            return Err(NetconfClientError::Protocol(String::from_str("a reply is outstanding")));
        }
        if self.notifying {
            return Err(
                NetconfClientError::Protocol(String::from_str("session streams notifications")),
            );
        }
        let xml = rpc.to_xml();
        let bytes = self.framer.encode(xml.as_str());
        self.awaiting_reply = true;
        let ends = match rpc.operation {
            RpcOperation::CloseSession => true,
            RpcOperation::KillSession { .. } => true,
            _ => false,
        };
        self.is_closed = ends;
        self.subscribing = match rpc.operation {
            RpcOperation::CreateSubscription(_) => true,
            _ => false,
        };
        Ok(bytes)
    }

    /// Hands the session bytes read from the transport.
    pub fn receive(&mut self, data: &[u8])
        ensures
            final(self).framer_state().buffer() == old(self).framer_state().buffer() + data@,
            final(self).framer_state().is_upgraded() == old(self).framer_state().is_upgraded(),
            final(self).peer_session_id() == old(self).peer_session_id(),
            final(self).skips_parsing() == old(self).skips_parsing(),
            final(self).closed() == old(self).closed(),
            final(self).awaiting() == old(self).awaiting(),
            final(self).subscription_pending() == old(self).subscription_pending(),
            final(self).streaming() == old(self).streaming(),
    {
        self.framer.receive(data);
    }

    /// The reply to the outstanding request, once it has been received whole.
    ///
    /// `Ok(None)` means more bytes are needed. The reply text is returned as
    /// it came; unless parsing is skipped it is decoded first, and a reply
    /// with an `rpc-error` is returned as `NetconfClientError::Netconf`. A
    /// confirmed subscription turns the session to receiving notifications.
    pub fn take_reply(&mut self) -> (r: Result<Option<String>, NetconfClientError>)
        ensures
            final(self).framer_state().is_upgraded() == old(self).framer_state().is_upgraded(),
            final(self).peer_session_id() == old(self).peer_session_id(),
            final(self).skips_parsing() == old(self).skips_parsing(),
            final(self).closed() == old(self).closed(),
            !old(self).awaiting() ==> r is Err && *final(self) == *old(self),
            old(self).awaiting() ==> match read_outcome(
                old(self).framer_state().buffer(),
                old(self).framer_state().is_upgraded(),
            ) {
                ReadOutcome::Pending => r == Ok::<Option<String>, NetconfClientError>(None)
                    && final(self).framer_state().buffer() == old(self).framer_state().buffer()
                    && final(self).awaiting() && final(self).streaming() == old(self).streaming(),
                ReadOutcome::Malformed { expected, actual } => r == Err::<
                    Option<String>,
                    NetconfClientError,
                >(NetconfClientError::MalformedChunk { expected, actual }),
                ReadOutcome::Message { payload, text, rest } => {
                    &&& final(self).framer_state().buffer() == rest
                    &&& !final(self).awaiting()
                    &&& old(self).skips_parsing() ==> (r matches Ok(Some(t)) && t@ == text)
                    &&& r matches Ok(Some(t)) ==> t@ == text && (vstd::utf8::valid_utf8(payload)
                        ==> t@ == crate::scan::trimmed_end(vstd::utf8::decode_utf8(payload)))
                    &&& !old(self).skips_parsing() ==> (r matches Ok(Some(_)) ==> (reply_plain(text)
                        && (reply_children(text) matches Some(cs) && error_contents(cs).len() == 0)
                        && exists|rep: RpcReply|
                        #[trigger] reply_decodes_to(text, rep) && rep.rpc_error@.len() == 0))
                    &&& !old(self).skips_parsing() && !reply_plain(text) ==> (r matches Err(
                        NetconfClientError::SerializingFailure(_),
                    ))
                    &&& (r matches Err(e) ==> (e is SerializingFailure || e is Netconf))
                    &&& r matches Err(NetconfClientError::Netconf(reply)) ==> reply_decodes_to(
                        text,
                        reply,
                    ) && reply.rpc_error@.len() > 0
                    &&& !old(self).skips_parsing() && reply_plain(text) ==> (reply_children(text) matches Some(cs)
                        && (error_contents(cs).len() > 0 ==> r matches Err(
                        NetconfClientError::Netconf(_),
                    )) && (error_contents(cs).len() == 0 ==> (r matches Ok(Some(t)) && t@ == text)))
                    &&& final(self).streaming() == (old(self).streaming() || (
                    old(self).subscription_pending() && r is Ok))
                },
            },
    {
        if !self.awaiting_reply {
            return Err(NetconfClientError::Protocol(String::from_str("no request is outstanding")));
        }
        let text = match self.framer.read_message() {
            Ok(Some(text)) => text,
            Ok(None) => {
                return Ok(None);
            },
            Err(e) => {
                return Err(e);
            },
        };
        self.awaiting_reply = false;
        if !self.skip_serializing {
            let reply = match RpcReply::decode(text.as_str()) {
                Ok(reply) => reply,
                Err(e) => {
                    return Err(e);
                },
            };
            if reply.has_errors() {
                return Err(NetconfClientError::Netconf(reply));
            }
        }
        if self.subscribing {
            self.notifying = true;
        }
        Ok(Some(text))
    }

    /// The next notification, once the session streams them. `Ok(None)`
    /// means more bytes are needed.
    pub fn take_notification(&mut self) -> (r: Result<Option<String>, NetconfClientError>)
        ensures
            !old(self).streaming() ==> r is Err && *final(self) == *old(self),
            old(self).streaming() ==> final(self).streaming() && match read_outcome(
                old(self).framer_state().buffer(),
                old(self).framer_state().is_upgraded(),
            ) {
                ReadOutcome::Pending => r == Ok::<Option<String>, NetconfClientError>(None),
                ReadOutcome::Malformed { expected, actual } => r == Err::<
                    Option<String>,
                    NetconfClientError,
                >(NetconfClientError::MalformedChunk { expected, actual }),
                ReadOutcome::Message { payload, text, rest } => r matches Ok(Some(t)) && t@ == text
                    && (vstd::utf8::valid_utf8(payload) ==> t@ == crate::scan::trimmed_end(
                    vstd::utf8::decode_utf8(payload),
                ))
                    && final(self).framer_state().buffer() == rest,
            },
    {
        if !self.notifying {
            return Err(
                NetconfClientError::Protocol(String::from_str("no subscription is active")),
            );
        }
        self.framer.read_message()
    }

    /// Requests `<get-config>`.
    pub fn get_config(
        &mut self,
        datastore: Datastore,
        filter: Option<Filter>,
        defaults: Option<WithDefaultsValue>,
    ) -> (r: Result<Vec<u8>, NetconfClientError>)
        ensures
            r is Ok <==> old(self).accepts_requests(),
            r matches Ok(b) ==> exists|rpc: Rpc|
                b@ == framed(old(self).framer_state().is_upgraded(), #[trigger] rpc_xml(rpc))
                    && crate::message::is_uuid_v4_text(rpc.id()) && (rpc.op() matches RpcOperation::GetConfig(g)
                    && g.source.datastore == datastore && g.filter == filter
                    && crate::message::mode_of(g.with_defaults) == defaults),
            r is Ok ==> final(self).awaiting() && !final(self).closed(),
            r is Err ==> *final(self) == *old(self),
    {
        let rpc = Rpc::new_with_operation(RpcOperation::new_get_config(datastore, filter, defaults));
        let r = self.request(rpc);
        r
    }

    /// Requests `<get>`.
    pub fn get(&mut self, filter: Option<Filter>, defaults: Option<WithDefaultsValue>) -> (r:
        Result<Vec<u8>, NetconfClientError>)
        ensures
            r is Ok <==> old(self).accepts_requests(),
            r matches Ok(b) ==> exists|rpc: Rpc|
                b@ == framed(old(self).framer_state().is_upgraded(), #[trigger] rpc_xml(rpc))
                    && crate::message::is_uuid_v4_text(rpc.id()) && (rpc.op() matches RpcOperation::Get(g) && g.filter
                    == filter && crate::message::mode_of(g.with_defaults) == defaults),
            r is Ok ==> final(self).awaiting() && !final(self).closed(),
            r is Err ==> *final(self) == *old(self),
    {
        let rpc = Rpc::new_with_operation(RpcOperation::new_get(filter, defaults));
        let r = self.request(rpc);
        r
    }

    /// Requests `<validate>` of a datastore.
    pub fn validate(&mut self, datastore: Datastore) -> (r: Result<Vec<u8>, NetconfClientError>)
        ensures
            r is Ok <==> old(self).accepts_requests(),
            r matches Ok(b) ==> exists|rpc: Rpc|
                b@ == framed(old(self).framer_state().is_upgraded(), #[trigger] rpc_xml(rpc))
                    && crate::message::is_uuid_v4_text(rpc.id()) && (rpc.op() matches RpcOperation::Validate { source }
                    && source.datastore == datastore),
            r is Ok ==> final(self).awaiting() && !final(self).closed(),
            r is Err ==> *final(self) == *old(self),
    {
        let rpc = Rpc::new_with_operation(RpcOperation::Validate { source: Source { datastore } });
        let r = self.request(rpc);
        r
    }

    /// Requests a plain `<commit/>`.
    pub fn commit(&mut self) -> (r: Result<Vec<u8>, NetconfClientError>)
        ensures
            r is Ok <==> old(self).accepts_requests(),
            r matches Ok(b) ==> exists|rpc: Rpc|
                b@ == framed(old(self).framer_state().is_upgraded(), #[trigger] rpc_xml(rpc))
                    && crate::message::is_uuid_v4_text(rpc.id()) && (rpc.op() matches RpcOperation::Commit(c)
                    && c.confirmed is None && c.confirm_timeout is None && c.persist is None
                    && c.persist_id is None),
            r is Ok ==> final(self).awaiting() && !final(self).closed(),
            r is Err ==> *final(self) == *old(self),
    {
        let rpc = Rpc::new_with_operation(RpcOperation::new_commit(None, None, None, None));
        let r = self.request(rpc);
        r
    }

    /// Requests a confirmed `<commit>`.
    pub fn confirmed_commit(
        &mut self,
        confirm_timeout: Option<i32>,
        persist: Option<String>,
        persist_id: Option<String>,
    ) -> (r: Result<Vec<u8>, NetconfClientError>)
        ensures
            r is Ok <==> old(self).accepts_requests(),
            r matches Ok(b) ==> exists|rpc: Rpc|
                b@ == framed(old(self).framer_state().is_upgraded(), #[trigger] rpc_xml(rpc))
                    && crate::message::is_uuid_v4_text(rpc.id()) && (rpc.op() matches RpcOperation::Commit(c)
                    && c.confirmed is Some && c.confirm_timeout == confirm_timeout && c.persist
                    == persist && c.persist_id == persist_id),
            r is Ok ==> final(self).awaiting() && !final(self).closed(),
            r is Err ==> *final(self) == *old(self),
    {
        let rpc = Rpc::new_with_operation(
            RpcOperation::new_commit(Some(()), confirm_timeout, persist, persist_id),
        );
        let r = self.request(rpc);
        r
    }

    /// Requests `<close-session/>`; the session then takes no further request.
    pub fn close_session(&mut self) -> (r: Result<Vec<u8>, NetconfClientError>)
        ensures
            r is Ok <==> old(self).accepts_requests(),
            r matches Ok(b) ==> exists|rpc: Rpc|
                b@ == framed(old(self).framer_state().is_upgraded(), #[trigger] rpc_xml(rpc))
                    && crate::message::is_uuid_v4_text(rpc.id()) && rpc.op() is CloseSession,
            r is Ok ==> final(self).awaiting() && final(self).closed(),
            r is Err ==> *final(self) == *old(self),
    {
        let rpc = Rpc::new_with_operation(RpcOperation::CloseSession);
        let r = self.request(rpc);
        r
    }

    /// Requests `<kill-session>` of another session; this session then takes
    /// no further request.
    pub fn kill_session(&mut self, session_id: u64) -> (r: Result<Vec<u8>, NetconfClientError>)
        ensures
            r is Ok <==> old(self).accepts_requests(),
            r matches Ok(b) ==> exists|rpc: Rpc|
                b@ == framed(old(self).framer_state().is_upgraded(), #[trigger] rpc_xml(rpc))
                    && crate::message::is_uuid_v4_text(rpc.id()) && rpc.op() == (RpcOperation::KillSession {
                    session_id,
                }),
            r is Ok ==> final(self).awaiting() && final(self).closed(),
            r is Err ==> *final(self) == *old(self),
    {
        let rpc = Rpc::new_with_operation(RpcOperation::KillSession { session_id });
        let r = self.request(rpc);
        r
    }

    /// Requests `<create-subscription>`; once its reply confirms it, the
    /// session streams notifications. With a duration in nanoseconds
    /// the subscription starts now and stops that much later.
    pub fn notification(&mut self, stream: Option<&str>, duration: Option<u128>) -> (r:
        Result<Vec<u8>, NetconfClientError>)
        ensures
            r is Ok ==> old(self).accepts_requests() && final(self).awaiting()
                && final(self).subscription_pending() && !final(self).closed(),
            !old(self).accepts_requests() ==> r is Err,
            duration is None && old(self).accepts_requests() ==> r is Ok,
            r matches Ok(b) ==> exists|rpc: Rpc|
                b@ == framed(old(self).framer_state().is_upgraded(), #[trigger] rpc_xml(rpc))
                    && crate::message::is_uuid_v4_text(rpc.id()) && (rpc.op() matches RpcOperation::CreateSubscription(c)
                    && c.filter is None && crate::message::stream_matches(*c, stream)
                    && crate::message::subscription_times(*c, duration)),
            r is Err ==> *final(self) == *old(self),
    {
        if !(!self.is_closed && !self.awaiting_reply && !self.notifying) {
            return Err(NetconfClientError::Protocol(String::from_str("session takes no request")));
        }
        let op = RpcOperation::new_create_subscription(stream, None, duration)?;
        let rpc = Rpc::new_with_operation(op);
        let r = self.request(rpc);
        r
    }
}

} // verus!
