use crate::error::NetconfClientError;
use crate::scan::{chars_eq, chars_of, has_prefix, push_char, starts_with, trim, trimmed};
use time::format_description::well_known::Rfc3339;
use time::OffsetDateTime;
use vstd::prelude::*;
use vstd::string::StrSliceExecFns;

verus! {

/// A datastore: one of the three named ones, or a URL.
#[derive(Debug)]
pub enum Datastore {
    Candidate,
    Running,
    Startup,
    Url(String),
}

/// The `<source>` of an operation.
#[derive(Debug)]
pub struct Source {
    pub datastore: Datastore,
}

/// The with-defaults retrieval modes (RFC 6243).
#[derive(Debug, Clone, Copy, PartialEq, Eq)]
pub enum WithDefaultsValue {
    ReportAll,
    ReportAllTagged,
    Trim,
    Explicit,
}

/// A `<with-defaults>` element with the given mode.
#[derive(Debug)]
pub struct WithDefaults {
    pub value: WithDefaultsValue,
}

/// The text `str::to_lowercase` makes of a string.
pub uninterp spec fn lowercase_of(s: Seq<char>) -> Seq<char>;

/// Relies on `str::to_lowercase`: the lowercase form of `s`, a function of its
/// characters alone.
#[verifier::external_body]
fn to_lowercase(s: &str) -> (r: String)
    ensures
        r@ == lowercase_of(s@),
{
    s.to_lowercase()
}

/// A URL datastore is any name that starts with one of these schemes.
pub open spec fn is_url_name(l: Seq<char>) -> bool {
    has_prefix(l, "http"@) || has_prefix(l, "file"@) || has_prefix(l, "ftp"@)
}

/// The datastore that a lowercase name `l` stands for; a URL is kept in its
/// lowercase form.
pub open spec fn datastore_named(l: Seq<char>, d: Datastore) -> bool {
    if l == "running"@ {
        d is Running
    } else if l == "candidate"@ {
        d is Candidate
    } else if l == "startup"@ {
        d is Startup
    } else {
        is_url_name(l) && (d matches Datastore::Url(u) && u@ == l)
    }
}

pub open spec fn is_datastore_name(l: Seq<char>) -> bool {
    l == "running"@ || l == "candidate"@ || l == "startup"@ || is_url_name(l)
}

/// The with-defaults mode that a lowercase name stands for, if any.
pub open spec fn with_defaults_named(l: Seq<char>) -> Option<WithDefaultsValue> {
    if l == "report-all"@ {
        Some(WithDefaultsValue::ReportAll)
    } else if l == "report-all-tagged"@ {
        Some(WithDefaultsValue::ReportAllTagged)
    } else if l == "trim"@ {
        Some(WithDefaultsValue::Trim)
    } else if l == "explicit"@ {
        Some(WithDefaultsValue::Explicit)
    } else {
        None
    }
}

/// The datastore names a parse failure lists as expected.
pub open spec fn expected_datastores(v: Seq<String>) -> bool {
    v.len() == 4 && v[0]@ == "running"@ && v[1]@ == "candidate"@ && v[2]@ == "startup"@
        && v[3]@ == "ftp|http|file"@
}

impl Datastore {
    /// Parses a datastore from its lowercase name: `running`, `candidate`,
    /// `startup`, or a URL whose scheme is `http`, `file` or `ftp`.
    pub fn from_lowercase(lower: &str) -> (r: Result<Datastore, NetconfClientError>)
        ensures
            r matches Ok(d) ==> datastore_named(lower@, d),
            r is Ok <==> is_datastore_name(lower@),
            r matches Err(e) ==> e matches NetconfClientError::UnknownDatastore {
                expected,
                unknown,
            } && unknown@ == lower@ && expected_datastores(expected@),
    {
        let c = chars_of(lower);
        if chars_eq(c.as_slice(), "running") {
            Ok(Datastore::Running)
        } else if chars_eq(c.as_slice(), "candidate") {
            Ok(Datastore::Candidate)
        } else if chars_eq(c.as_slice(), "startup") {
            Ok(Datastore::Startup)
        } else if starts_with(c.as_slice(), "http") || starts_with(c.as_slice(), "file")
            || starts_with(c.as_slice(), "ftp") {
            Ok(Datastore::Url(String::from_str(lower)))
        } else {
            let expected = vec![
                String::from_str("running"),
                String::from_str("candidate"),
                String::from_str("startup"),
                String::from_str("ftp|http|file"),
            ];
            Err(NetconfClientError::UnknownDatastore { expected, unknown: String::from_str(lower) })
        }
    }

    /// Parses a datastore name, case-insensitively.
    pub fn parse(s: &str) -> (r: Result<Datastore, NetconfClientError>)
        ensures
            r matches Ok(d) ==> datastore_named(lowercase_of(s@), d),
            r is Ok <==> is_datastore_name(lowercase_of(s@)),
            r matches Err(e) ==> e matches NetconfClientError::UnknownDatastore {
                expected,
                unknown,
            } && unknown@ == lowercase_of(s@) && expected_datastores(expected@),
    {
        let lower = to_lowercase(s);
        Datastore::from_lowercase(lower.as_str())
    }
}

/// The error a with-defaults mode that is none of the known ones gives.
pub open spec fn unknown_mode_error(given: Seq<char>, e: NetconfClientError) -> bool {
    e matches NetconfClientError::Protocol(m) && m@ == "unknown with-defaults value: "@ + given
}

impl WithDefaultsValue {
    /// Parses a with-defaults mode from a name `given` and its lowercase form `lower`.
    pub fn from_lowercase(given: &str, lower: &str) -> (r: Result<
        WithDefaultsValue,
        NetconfClientError,
    >)
        ensures
            r matches Ok(v) ==> with_defaults_named(lower@) == Some(v),
            r is Err <==> with_defaults_named(lower@) is None,
            r matches Err(e) ==> unknown_mode_error(given@, e),
    {
        let c = chars_of(lower);
        if chars_eq(c.as_slice(), "report-all") {
            Ok(WithDefaultsValue::ReportAll)
        } else if chars_eq(c.as_slice(), "report-all-tagged") {
            Ok(WithDefaultsValue::ReportAllTagged)
        } else if chars_eq(c.as_slice(), "trim") {
            Ok(WithDefaultsValue::Trim)
        } else if chars_eq(c.as_slice(), "explicit") {
            Ok(WithDefaultsValue::Explicit)
        } else {
            let mut msg = String::from_str("unknown with-defaults value: ");
            msg.append(given);
            Err(NetconfClientError::Protocol(msg))
        }
    }

    /// Parses a with-defaults mode, case-insensitively; an unknown one gives
    /// an error that names it.
    pub fn parse(s: &str) -> (r: Result<WithDefaultsValue, NetconfClientError>)
        ensures
            r matches Ok(v) ==> with_defaults_named(lowercase_of(s@)) == Some(v),
            r is Err <==> with_defaults_named(lowercase_of(s@)) is None,
            r matches Err(e) ==> unknown_mode_error(s@, e),
    {
        let lower = to_lowercase(s);
        WithDefaultsValue::from_lowercase(s, lower.as_str())
    }
}

/// `s` with each backslash escape `\x` replaced by `x`; a backslash that
/// ends the text escapes nothing and is dropped.
pub open spec fn strip_escapes(s: Seq<char>) -> Seq<char>
    decreases s.len(),
{
    if s.len() == 0 {
        s
    } else if s[0] == '\\' {
        if s.len() == 1 {
            Seq::empty()
        } else {
            seq![s[1]] + strip_escapes(s.subrange(2, s.len() as int))
        }
    } else {
        seq![s[0]] + strip_escapes(s.drop_first())
    }
}

/// Text without backslashes has no escapes to strip.
pub proof fn lemma_strip_plain(s: Seq<char>)
    requires
        !s.contains('\\'),
    ensures
        strip_escapes(s) == s,
    decreases s.len(),
{
    if s.len() > 0 {
        assert(!s.drop_first().contains('\\')) by {
            if s.drop_first().contains('\\') {
                let k = choose|k: int| 0 <= k < s.drop_first().len() && s.drop_first()[k] == '\\';
                assert(s[k + 1] == '\\');
            }
        }
        assert(s[0] != '\\') by {
            if s[0] == '\\' {
                assert(s.contains('\\'));
            }
        }
        lemma_strip_plain(s.drop_first());
        assert(seq![s[0]] + s.drop_first() == s);
    }
}

/// A subtree filter: an XML fragment that selects a region of the datastore.
#[derive(Debug)]
pub struct Filter {
    filter: String,
}

impl Filter {
    /// The fragment, as it is emitted into an envelope.
    pub closed spec fn content(&self) -> Seq<char> {
        self.filter@
    }

    /// The fragment, as it is emitted into an envelope.
    pub fn as_str(&self) -> (r: &str)
        ensures
            r@ == self.content(),
    {
        self.filter.as_str()
    }

    /// A subtree filter from a fragment, trimmed and with backslash escapes stripped.
    pub fn subtree(filter: &str) -> (r: Filter)
        ensures
            r.content() == trimmed(strip_escapes(trimmed(filter@))),
            !filter@.contains('\\') ==> r.content() == trimmed(filter@),
    {
        let stripped = Filter::strip_slashes(filter);
        Filter { filter: trim(stripped.as_str()) }
    }

    /// `s` trimmed, then with backslash escapes stripped.
    pub fn strip_slashes(s: &str) -> (r: String)
        ensures
            r@ == strip_escapes(trimmed(s@)),
            !s@.contains('\\') ==> r@ == trimmed(s@) && trimmed(r@) == r@,
    {
        let t = trim(s);
        proof {
            crate::scan::lemma_trimmed(s@);
            if !s@.contains('\\') {
                let (i, j) = choose|i: int, j: int|
                    0 <= i <= j <= s@.len() && t@ == s@.subrange(i, j);
                assert(!t@.contains('\\')) by {
                    if t@.contains('\\') {
                        let k = choose|k: int| 0 <= k < t@.len() && t@[k] == '\\';
                        assert(s@[i + k] == '\\');
                    }
                }
                lemma_strip_plain(t@);
            }
        }
        Filter::strip_backslashes(t.as_str())
    }

    /// `t` with each backslash escape `\x` replaced by `x`.
    pub fn strip_backslashes(t: &str) -> (r: String)
        ensures
            r@ == strip_escapes(t@),
    {
        let c = chars_of(t);
        let mut n = String::new();
        let mut i: usize = 0;
        proof {
            assert(c@.subrange(0, c@.len() as int) =~= c@);
            assert(n@ + strip_escapes(c@) =~= strip_escapes(c@));
        }
        while i < c.len()
            invariant
                i <= c@.len(),
                n@ + strip_escapes(c@.subrange(i as int, c@.len() as int)) == strip_escapes(c@),
            decreases c.len() - i,
        {
            let ghost rest = c@.subrange(i as int, c@.len() as int);
            if c[i] == '\\' {
                if i + 1 < c.len() {
                    let ghost before = n@;
                    push_char(&mut n, c[i + 1]);
                    proof {
                        assert(rest.subrange(2, rest.len() as int) =~= c@.subrange(i + 2, c@.len() as int));
                        assert(n@ + strip_escapes(c@.subrange(i + 2, c@.len() as int)) =~= before + strip_escapes(rest)) by {
                            assert(strip_escapes(rest) == seq![c@[i + 1]] + strip_escapes(rest.subrange(2, rest.len() as int)));
                        }
                    }
                    i = i + 2;
                } else {
                    i = i + 1;
                }
            } else {
                push_char(&mut n, c[i]);
                proof {
                    assert(rest.drop_first() =~= c@.subrange(i + 1, c@.len() as int));
                }
                i = i + 1;
            }
        }
        proof {
            assert(c@.subrange(0, c@.len() as int) == c@);
        }
        n
    }
}

/// The `<commit>` operation; with `confirmed` it is a confirmed commit.
#[derive(Debug)]
pub struct Commit {
    pub confirmed: Option<()>,
    pub confirm_timeout: Option<i32>,
    pub persist: Option<String>,
    pub persist_id: Option<String>,
}

/// The `<get>` operation.
#[derive(Debug)]
pub struct Get {
    pub filter: Option<Filter>,
    pub with_defaults: Option<WithDefaults>,
}

/// The `<get-config>` operation.
#[derive(Debug)]
pub struct GetConfig {
    pub source: Source,
    pub filter: Option<Filter>,
    pub with_defaults: Option<WithDefaults>,
}

/// The `<create-subscription>` operation (RFC 5277); its times are RFC 3339 text.
#[derive(Debug)]
pub struct CreateSubscription {
    pub stream: Option<String>,
    pub filter: Option<Filter>,
    pub start_time: Option<String>,
    pub stop_time: Option<String>,
}

/// The operation an envelope carries.
#[derive(Debug)]
pub enum RpcOperation {
    CloseSession,
    KillSession { session_id: u64 },
    Validate { source: Source },
    GetConfig(GetConfig),
    Get(Get),
    Commit(Commit),
    CreateSubscription(CreateSubscription),
}

/// A request envelope: a message identifier and one operation.
#[derive(Debug)]
pub struct Rpc {
    pub message_id: String,
    pub operation: RpcOperation,
}

/// The capability URIs of a hello.
#[derive(Debug)]
pub struct Capabilities {
    pub capability: Vec<String>,
}

/// A hello message: the capabilities of its sender, and the session
/// identifier the server assigned, if any.
#[derive(Debug)]
pub struct Hello {
    pub capabilities: Capabilities,
    pub session_id: Option<u64>,
}

/// The RFC 3339 text of an instant given in nanoseconds since the Unix epoch (UTC).
pub uninterp spec fn rfc3339_of(unix_nanos: int) -> Seq<char>;

/// Relies on time's `OffsetDateTime::now_utc`: the current time, in
/// nanoseconds since the Unix epoch.
#[verifier::external_body]
fn now_unix_nanos() -> i128 {
    OffsetDateTime::now_utc().unix_timestamp_nanos()
}

/// The first instant, in nanoseconds since the Unix epoch, of the year 10000:
/// RFC 3339 renders the years 0 to 9999 only.
pub const RFC3339_END_NANOS: i128 = 253402300800000000000;

/// Relies on time's `OffsetDateTime::format` with `Rfc3339`, applied to
/// `OffsetDateTime::from_unix_timestamp_nanos`; `None` where time refuses the
/// instant or cannot render it, which is only outside the years 0 to 9999.
#[verifier::external_body]
fn format_rfc3339(unix_nanos: i128) -> (r: Option<String>)
    ensures
        r matches Some(t) ==> t@ == rfc3339_of(unix_nanos as int),
        0 <= unix_nanos < RFC3339_END_NANOS ==> r is Some,
{
    OffsetDateTime::from_unix_timestamp_nanos(unix_nanos).ok()?.format(&Rfc3339).ok()
}

pub open spec fn is_lower_hex(c: char) -> bool {
    ('0' <= c && c <= '9') || ('a' <= c && c <= 'f')
}

/// The hyphenated text of a random (version 4, RFC 4122 variant) UUID:
/// 8-4-4-4-12 lowercase hex digits, version digit `4`, variant digit
/// `8`, `9`, `a` or `b`.
pub open spec fn is_uuid_v4_text(t: Seq<char>) -> bool {
    &&& t.len() == 36
    &&& forall|i: int|
        0 <= i < 36 ==> if i == 8 || i == 13 || i == 18 || i == 23 {
            #[trigger] t[i] == '-'
        } else {
            is_lower_hex(t[i])
        }
    &&& t[14] == '4'
    &&& (t[19] == '8' || t[19] == '9' || t[19] == 'a' || t[19] == 'b')
}

/// Relies on uuid's `Uuid::new_v4` (which masks in version 4 and the RFC 4122
/// variant) and its `Display`, the lowercase hyphenated form.
#[verifier::external_body]
fn new_message_id() -> (r: String)
    ensures
        is_uuid_v4_text(r@),
{
    uuid::Uuid::new_v4().to_string()
}

/// The RFC 3339 texts of `start` and of `duration` nanoseconds later.
/// `None` where the end overflows or time cannot render either instant.
pub fn subscription_window(start: i128, duration: u128) -> (r: Option<(String, String)>)
    ensures
        r matches Some((a, b)) ==> a@ == rfc3339_of(start as int) && b@ == rfc3339_of(
            start + duration,
        ),
        start + duration > i128::MAX ==> r is None,
        0 <= start && start + duration < RFC3339_END_NANOS ==> r is Some,
{
    if duration > (i128::MAX as u128) {
        return None;
    }
    let d: i128 = duration as i128;
    if start > i128::MAX - d {
        return None;
    }
    match (format_rfc3339(start), format_rfc3339(start + d)) {
        (Some(a), Some(b)) => Some((a, b)),
        _ => None,
    }
}

/// The mode of an optional with-defaults element.
pub open spec fn mode_of(w: Option<WithDefaults>) -> Option<WithDefaultsValue> {
    match w {
        Some(w) => Some(w.value),
        None => None,
    }
}

/// The subscription names `stream`, if any.
pub open spec fn stream_matches(c: CreateSubscription, stream: Option<&str>) -> bool {
    match stream {
        Some(s) => c.stream matches Some(t) && t@ == s@,
        None => c.stream is None,
    }
}

/// The subscription names no times without a duration, and with one it
/// starts at some instant `n` and stops `duration` nanoseconds later.
pub open spec fn subscription_times(c: CreateSubscription, duration: Option<u128>) -> bool {
    match duration {
        None => c.start_time is None && c.stop_time is None,
        Some(d) => exists|n: int|
            c.start_time matches Some(a) && a@ == #[trigger] rfc3339_of(n) && (
            c.stop_time matches Some(b) && b@ == rfc3339_of(n + d)),
    }
}

/// The with-defaults element for an optional mode.
fn with_defaults_of(defaults: Option<WithDefaultsValue>) -> (r: Option<WithDefaults>)
    ensures
        r matches Some(w) ==> defaults == Some(w.value),
        r is None <==> defaults is None,
{
    match defaults {
        Some(value) => Some(WithDefaults { value }),
        None => None,
    }
}

impl RpcOperation {
    /// `<get-config>` of a datastore, with an optional filter and with-defaults mode.
    pub fn new_get_config(
        datastore: Datastore,
        filter: Option<Filter>,
        defaults: Option<WithDefaultsValue>,
    ) -> (r: RpcOperation)
        ensures
            r matches RpcOperation::GetConfig(g) && g.source.datastore == datastore && g.filter
                == filter && mode_of(g.with_defaults) == defaults,
    {
        RpcOperation::GetConfig(
            GetConfig { source: Source { datastore }, filter, with_defaults: with_defaults_of(defaults) },
        )
    }

    /// `<get>`, with an optional filter and with-defaults mode.
    pub fn new_get(filter: Option<Filter>, defaults: Option<WithDefaultsValue>) -> (r: RpcOperation)
        ensures
            r matches RpcOperation::Get(g) && g.filter == filter && mode_of(g.with_defaults) == defaults,
    {
        RpcOperation::Get(Get { filter, with_defaults: with_defaults_of(defaults) })
    }

    /// `<commit>` with its optional parameters.
    pub fn new_commit(
        confirmed: Option<()>,
        confirm_timeout: Option<i32>,
        persist: Option<String>,
        persist_id: Option<String>,
    ) -> (r: RpcOperation)
        ensures
            r == RpcOperation::Commit(Commit { confirmed, confirm_timeout, persist, persist_id }),
    {
        RpcOperation::Commit(Commit { confirmed, confirm_timeout, persist, persist_id })
    }

    /// `<create-subscription>` to an optional stream, with optional RFC 3339
    /// start and stop times.
    pub fn new_create_subscription_at(
        stream: Option<&str>,
        filter: Option<Filter>,
        start_time: Option<String>,
        stop_time: Option<String>,
    ) -> (r: RpcOperation)
        ensures
            r matches RpcOperation::CreateSubscription(c) && c.filter == filter && c.start_time
                == start_time && c.stop_time == stop_time && match stream {
                Some(s) => c.stream matches Some(t) && t@ == s@,
                None => c.stream is None,
            },
    {
        let stream = match stream {
            Some(s) => Some(String::from_str(s)),
            None => None,
        };
        RpcOperation::CreateSubscription(CreateSubscription { stream, filter, start_time, stop_time })
    }

    /// `<create-subscription>` to an optional stream. With a duration in
    /// nanoseconds, the subscription starts now and stops that much later;
    /// without one it names no times. Fails where the times cannot be rendered.
    pub fn new_create_subscription(
        stream: Option<&str>,
        filter: Option<Filter>,
        duration: Option<u128>,
    ) -> (r: Result<RpcOperation, NetconfClientError>)
        ensures
            r matches Ok(RpcOperation::CreateSubscription(c)) ==> c.filter == filter
                && stream_matches(c, stream) && subscription_times(c, duration),
            r is Ok ==> r matches Ok(RpcOperation::CreateSubscription(_)),
            duration is None ==> r is Ok,
    {
        match duration {
            None => Ok(RpcOperation::new_create_subscription_at(stream, filter, None, None)),
            Some(d) => {
                let start = now_unix_nanos();
                match subscription_window(start, d) {
                    Some((a, b)) => Ok(
                        RpcOperation::new_create_subscription_at(stream, filter, Some(a), Some(b)),
                    ),
                    None => Err(
                        NetconfClientError::Protocol(
                            String::from_str("subscription window out of range"),
                        ),
                    ),
                }
            },
        }
    }
}

impl Rpc {
    /// The message identifier.
    pub open spec fn id(&self) -> Seq<char> {
        self.message_id@
    }

    /// The operation carried.
    pub open spec fn op(&self) -> &RpcOperation {
        &self.operation
    }

    /// An envelope for `operation` with a fresh UUID v4 message identifier.
    pub fn new_with_operation(operation: RpcOperation) -> (r: Rpc)
        ensures
            is_uuid_v4_text(r.id()),
            r.op() == &operation,
    {
        Rpc { message_id: new_message_id(), operation }
    }

    /// An envelope for `operation` with the given message identifier.
    pub fn with_message_id(message_id: &str, operation: RpcOperation) -> (r: Rpc)
        ensures
            r.id() == message_id@,
            r.op() == &operation,
    {
        Rpc { message_id: String::from_str(message_id), operation }
    }
}

impl Hello {
    /// The client's hello: base 1.0 and base 1.1, no session identifier.
    pub fn new() -> (r: Hello)
        ensures
            r.capabilities.capability@.len() == 2,
            r.capabilities.capability@[0]@ == crate::NETCONF_BASE_10_CAP@,
            r.capabilities.capability@[1]@ == crate::NETCONF_BASE_11_CAP@,
            r.session_id is None,
    {
        let capability = vec![
            String::from_str(crate::NETCONF_BASE_10_CAP),
            String::from_str(crate::NETCONF_BASE_11_CAP),
        ];
        Hello { capabilities: Capabilities { capability }, session_id: None }
    }

    /// A hello with the given capabilities and session identifier.
    pub fn with_capabilities(capability: Vec<String>, session_id: Option<u64>) -> (r: Hello)
        ensures
            r.capabilities.capability == capability,
            r.session_id == session_id,
    {
        Hello { capabilities: Capabilities { capability }, session_id }
    }

    /// The advertised capability URIs, in order.
    pub fn capabilities(&self) -> (r: Vec<String>)
        ensures
            r@.len() == self.capabilities.capability@.len(),
            forall|i: int| 0 <= i < r@.len() ==> r@[i]@ == self.capabilities.capability@[i]@,
    {
        let mut r: Vec<String> = Vec::new();
        let mut i: usize = 0;
        while i < self.capabilities.capability.len()
            invariant
                i <= self.capabilities.capability@.len(),
                r@.len() == i,
                forall|j: int| 0 <= j < i ==> r@[j]@ == self.capabilities.capability@[j]@,
            decreases self.capabilities.capability.len() - i,
        {
            r.push(self.capabilities.capability[i].clone());
            i = i + 1;
        }
        r
    }

    /// Whether `capability` is among the advertised ones.
    pub fn has_capability(&self, capability: &str) -> (r: bool)
        ensures
            r == exists|i: int|
                0 <= i < self.capabilities.capability@.len()
                    && #[trigger] self.capabilities.capability@[i]@ == capability@,
    {
        let want = chars_of(capability);
        let mut i: usize = 0;
        while i < self.capabilities.capability.len()
            invariant
                want@ == capability@,
                i <= self.capabilities.capability@.len(),
                forall|j: int| 0 <= j < i ==> self.capabilities.capability@[j]@ != capability@,
            decreases self.capabilities.capability.len() - i,
        {
            let c = chars_of(self.capabilities.capability[i].as_str());
            if c.len() == want.len() && crate::scan::occurs_at_index(c.as_slice(), want.as_slice(), 0) {
                proof {
                    assert(c@.subrange(0, c@.len() as int) =~= c@);
                }
                return true;
            }
            proof {
                if c@ == want@ {
                    assert(c@.subrange(0, c@.len() as int) =~= c@);
                }
            }
            i = i + 1;
        }
        false
    }

    /// The session identifier the sender assigned, if any.
    pub fn session_id(&self) -> (r: Option<u64>)
        ensures
            r == self.session_id,
    {
        self.session_id
    }
}

} // verus!
