use crate::error::NetconfClientError;
use crate::message::{Capabilities, Hello};
use crate::scan::{chars_eq, chars_of, find_chars, find_from, occurs_at, push_chars};
use crate::xml::{
    children_from, element_from, element_text, find_element, next_child, span_ok, span_text,
    ChildStep, ChildView, ElementScan, Span,
};
use vstd::prelude::*;
use vstd::string::StringExecFns;

verus! {

/// Severity of an `rpc-error`.
#[derive(Debug, Clone, Copy, PartialEq, Eq)]
pub enum ErrorSeverity {
    Error,
    Warning,
}

/// The layer an `rpc-error` arose in.
#[derive(Debug, Clone, Copy, PartialEq, Eq)]
pub enum ErrorType {
    Transport,
    Rpc,
    Protocol,
    App,
}

/// The error tags of RFC 6241, appendix A.
#[derive(Debug, Clone, Copy, PartialEq, Eq)]
pub enum ErrorTag {
    InUse,
    InvalidValue,
    TooBig,
    MissingAttribute,
    BadAttribute,
    UnknownAttribute,
    MissingElement,
    BadElement,
    UnknownElement,
    UnknownNamespace,
    AccessDenied,
    LockDenied,
    ResourceDenied,
    RollbackFailed,
    DataExists,
    DataMissing,
    OperationNotSupported,
    OperationFailed,
    PartialOperation,
    MalformedMessage,
}

pub open spec fn severity_named(t: Seq<char>) -> Option<ErrorSeverity> {
    if t == "error"@ {
        Some(ErrorSeverity::Error)
    } else if t == "warning"@ {
        Some(ErrorSeverity::Warning)
    } else {
        None
    }
}

pub open spec fn type_named(t: Seq<char>) -> Option<ErrorType> {
    if t == "transport"@ {
        Some(ErrorType::Transport)
    } else if t == "rpc"@ {
        Some(ErrorType::Rpc)
    } else if t == "protocol"@ {
        Some(ErrorType::Protocol)
    } else if t == "app"@ {
        Some(ErrorType::App)
    } else {
        None
    }
}

pub open spec fn tag_named(t: Seq<char>) -> Option<ErrorTag> {
    if t == "in-use"@ {
        Some(ErrorTag::InUse)
    } else if t == "invalid-value"@ {
        Some(ErrorTag::InvalidValue)
    } else if t == "too-big"@ {
        Some(ErrorTag::TooBig)
    } else if t == "missing-attribute"@ {
        Some(ErrorTag::MissingAttribute)
    } else if t == "bad-attribute"@ {
        Some(ErrorTag::BadAttribute)
    } else if t == "unknown-attribute"@ {
        Some(ErrorTag::UnknownAttribute)
    } else if t == "missing-element"@ {
        Some(ErrorTag::MissingElement)
    } else if t == "bad-element"@ {
        Some(ErrorTag::BadElement)
    } else if t == "unknown-element"@ {
        Some(ErrorTag::UnknownElement)
    } else if t == "unknown-namespace"@ {
        Some(ErrorTag::UnknownNamespace)
    } else if t == "access-denied"@ {
        Some(ErrorTag::AccessDenied)
    } else if t == "lock-denied"@ {
        Some(ErrorTag::LockDenied)
    } else if t == "resource-denied"@ {
        Some(ErrorTag::ResourceDenied)
    } else if t == "rollback-failed"@ {
        Some(ErrorTag::RollbackFailed)
    } else if t == "data-exists"@ {
        Some(ErrorTag::DataExists)
    } else if t == "data-missing"@ {
        Some(ErrorTag::DataMissing)
    } else if t == "operation-not-supported"@ {
        Some(ErrorTag::OperationNotSupported)
    } else if t == "operation-failed"@ {
        Some(ErrorTag::OperationFailed)
    } else if t == "partial-operation"@ {
        Some(ErrorTag::PartialOperation)
    } else if t == "malformed-message"@ {
        Some(ErrorTag::MalformedMessage)
    } else {
        None
    }
}

fn severity_from(t: &[char]) -> (r: Option<ErrorSeverity>)
    ensures
        r == severity_named(t@),
{
    if chars_eq(t, "error") {
        Some(ErrorSeverity::Error)
    } else if chars_eq(t, "warning") {
        Some(ErrorSeverity::Warning)
    } else {
        None
    }
}

fn type_from(t: &[char]) -> (r: Option<ErrorType>)
    ensures
        r == type_named(t@),
{
    if chars_eq(t, "transport") {
        Some(ErrorType::Transport)
    } else if chars_eq(t, "rpc") {
        Some(ErrorType::Rpc)
    } else if chars_eq(t, "protocol") {
        Some(ErrorType::Protocol)
    } else if chars_eq(t, "app") {
        Some(ErrorType::App)
    } else {
        None
    }
}

fn tag_from(t: &[char]) -> (r: Option<ErrorTag>)
    ensures
        r == tag_named(t@),
{
    if chars_eq(t, "in-use") {
        Some(ErrorTag::InUse)
    } else if chars_eq(t, "invalid-value") {
        Some(ErrorTag::InvalidValue)
    } else if chars_eq(t, "too-big") {
        Some(ErrorTag::TooBig)
    } else if chars_eq(t, "missing-attribute") {
        Some(ErrorTag::MissingAttribute)
    } else if chars_eq(t, "bad-attribute") {
        Some(ErrorTag::BadAttribute)
    } else if chars_eq(t, "unknown-attribute") {
        Some(ErrorTag::UnknownAttribute)
    } else if chars_eq(t, "missing-element") {
        Some(ErrorTag::MissingElement)
    } else if chars_eq(t, "bad-element") {
        Some(ErrorTag::BadElement)
    } else if chars_eq(t, "unknown-element") {
        Some(ErrorTag::UnknownElement)
    } else if chars_eq(t, "unknown-namespace") {
        Some(ErrorTag::UnknownNamespace)
    } else if chars_eq(t, "access-denied") {
        Some(ErrorTag::AccessDenied)
    } else if chars_eq(t, "lock-denied") {
        Some(ErrorTag::LockDenied)
    } else if chars_eq(t, "resource-denied") {
        Some(ErrorTag::ResourceDenied)
    } else if chars_eq(t, "rollback-failed") {
        Some(ErrorTag::RollbackFailed)
    } else if chars_eq(t, "data-exists") {
        Some(ErrorTag::DataExists)
    } else if chars_eq(t, "data-missing") {
        Some(ErrorTag::DataMissing)
    } else if chars_eq(t, "operation-not-supported") {
        Some(ErrorTag::OperationNotSupported)
    } else if chars_eq(t, "operation-failed") {
        Some(ErrorTag::OperationFailed)
    } else if chars_eq(t, "partial-operation") {
        Some(ErrorTag::PartialOperation)
    } else if chars_eq(t, "malformed-message") {
        Some(ErrorTag::MalformedMessage)
    } else {
        None
    }
}

/// Value of the decimal digits `t[i..]`, with `acc` the value of those before;
/// `None` on a non-digit or past `u64::MAX`.
pub open spec fn digits_value(t: Seq<char>, i: int, acc: int) -> Option<u64>
    decreases t.len() - i,
{
    if i < 0 || i >= t.len() {
        Some(acc as u64)
    } else if !('0' <= t[i] <= '9') {
        None
    } else if acc * 10 + (t[i] as u32 - 48) > u64::MAX {
        None
    } else {
        digits_value(t, i + 1, acc * 10 + (t[i] as u32 - 48))
    }
}

/// A non-empty run of decimal digits that fits in `u64`.
pub open spec fn parse_u64(t: Seq<char>) -> Option<u64> {
    if t.len() == 0 {
        None
    } else {
        digits_value(t, 0, 0)
    }
}

/// Parses a non-empty run of decimal digits into a `u64`.
pub fn parse_decimal(t: &[char]) -> (r: Option<u64>)
    ensures
        r == parse_u64(t@),
{
    if t.len() == 0 {
        return None;
    }
    let mut acc: u64 = 0;
    let mut i: usize = 0;
    while i < t.len()
        invariant
            i <= t@.len(),
            t@.len() > 0,
            parse_u64(t@) == digits_value(t@, i as int, acc as int),
        decreases t.len() - i,
    {
        let c = t[i];
        if !('0' <= c && c <= '9') {
            return None;
        }
        let d: u64 = (c as u32 - 48) as u64;
        if acc > (u64::MAX - d) / 10 {
            return None;
        }
        acc = acc * 10 + d;
        i = i + 1;
    }
    Some(acc)
}

/// The text `quick_xml::escape::unescape` makes of a string.
pub uninterp spec fn unescaped_of(s: Seq<char>) -> Option<Seq<char>>;

/// Each `&` of `t` begins one of the five predefined entities of XML.
pub open spec fn entities_named(t: Seq<char>) -> bool {
    forall|i: int|
        0 <= i < t.len() && #[trigger] t[i] == '&' ==> occurs_at(t, "&amp;"@, i) || occurs_at(
            t,
            "&lt;"@,
            i,
        ) || occurs_at(t, "&gt;"@, i) || occurs_at(t, "&apos;"@, i) || occurs_at(t, "&quot;"@, i)
}

/// Relies on quick-xml's `escape::unescape`: resolves the XML entities and
/// character references of `s`; it fails only on an unknown or unterminated
/// entity, so never where every `&` begins a predefined entity, and hands
/// back text without `&` as it is.
#[verifier::external_body]
fn unescape(s: &str) -> (r: Option<String>)
    ensures
        match unescaped_of(s@) {
            Some(u) => r matches Some(t) && t@ == u,
            None => r is None,
        },
        r is None ==> s@.contains('&'),
        r is None ==> !entities_named(s@),
        r matches Some(t) ==> (!s@.contains('&') ==> t@ == s@),
{
    quick_xml::escape::unescape(s).ok().map(|t| t.into_owned())
}

/// The value of XML text `t`: its entities resolved; text without `&`
/// stands as it is.
pub open spec fn text_value(t: Seq<char>) -> Seq<char> {
    if t.contains('&') {
        match unescaped_of(t) {
            Some(u) => u,
            None => t,
        }
    } else {
        t
    }
}

/// XML text `t` decodes: it holds no `&`, or its entities resolve.
pub open spec fn text_decodes(t: Seq<char>) -> bool {
    !t.contains('&') || unescaped_of(t) is Some
}

/// The element of `name` in `s`, from index `from`.
fn find_named(s: &[char], name: &str, from: usize) -> (r: ElementScan)
    ensures
        r == element_from(s@, name@, from as int),
        r matches ElementScan::Found(sp) ==> span_ok(s@, from as int, sp),
{
    let n = chars_of(name);
    find_element(s, n.as_slice(), from)
}

pub open spec fn decode_error(e: NetconfClientError) -> bool {
    e is SerializingFailure
}

fn malformed(what: &str) -> (r: NetconfClientError)
    ensures
        decode_error(r),
{
    let mut msg = String::from_str("malformed message: ");
    msg.append(what);
    NetconfClientError::SerializingFailure(msg)
}

/// The unescaped text of an element found in `s`.
fn unescaped_text(s: &[char], sp: Span) -> (r: Result<String, NetconfClientError>)
    requires
        sp.start <= sp.end <= s@.len(),
    ensures
        r matches Ok(t) ==> t@ == text_value(span_text(s@, sp)),
        r is Ok <==> text_decodes(span_text(s@, sp)),
        r matches Err(e) ==> decode_error(e),
{
    let raw = element_text(s, sp);
    match unescape(raw.as_str()) {
        Some(t) => Ok(t),
        None => Err(malformed("bad entity")),
    }
}

/// An optional text element holds as it was decoded.
pub open spec fn optional_matches(s: Seq<char>, name: Seq<char>, o: Option<String>) -> bool {
    match element_from(s, name, 0) {
        ElementScan::Found(sp) => o matches Some(t) && t@ == text_value(span_text(s, sp)),
        _ => o is None,
    }
}

/// An optional text element, if present, is closed and its text decodes.
pub open spec fn optional_plain(s: Seq<char>, name: Seq<char>) -> bool {
    match element_from(s, name, 0) {
        ElementScan::Absent => true,
        ElementScan::Unclosed => false,
        ElementScan::Found(sp) => text_decodes(span_text(s, sp)),
    }
}

/// The optional text element of `name` in `s`.
fn optional_text(s: &[char], name: &str) -> (r: Result<Option<String>, NetconfClientError>)
    ensures
        r matches Ok(o) ==> optional_matches(s@, name@, o),
        element_from(s@, name@, 0) is Unclosed ==> r is Err,
        r is Ok <==> optional_plain(s@, name@),
        r matches Err(e) ==> decode_error(e),
{
    match find_named(s, name, 0) {
        ElementScan::Absent => Ok(None),
        ElementScan::Unclosed => Err(malformed("unclosed element")),
        ElementScan::Found(sp) => match unescaped_text(s, sp) {
            Ok(t) => Ok(Some(t)),
            Err(e) => Err(e),
        },
    }
}

/// The trimmed text of a required element of `name` in `s`.
pub open spec fn required_text(s: Seq<char>, name: Seq<char>) -> Option<Seq<char>> {
    match element_from(s, name, 0) {
        ElementScan::Found(sp) => Some(span_text(s, sp)),
        _ => None,
    }
}

fn required_chars(s: &[char], name: &str) -> (r: Option<Vec<char>>)
    ensures
        match r {
            Some(t) => required_text(s@, name@) == Some(t@),
            None => required_text(s@, name@) is None,
        },
{
    match find_named(s, name, 0) {
        ElementScan::Found(sp) => {
            let t = element_text(s, sp);
            Some(chars_of(t.as_str()))
        },
        _ => None,
    }
}

/// The `error-info` of an `rpc-error`.
#[derive(Debug)]
pub struct ErrorInfo {
    pub bad_element: Option<String>,
    pub bad_attribute: Option<String>,
    pub bad_namespace: Option<String>,
    pub ok_element: Option<String>,
    pub err_element: Option<String>,
    pub noop_element: Option<String>,
    pub session_id: Option<u64>,
}

/// One `rpc-error` of a reply.
#[derive(Debug)]
pub struct Error {
    pub error_severity: ErrorSeverity,
    pub error_type: ErrorType,
    pub error_tag: ErrorTag,
    pub error_app_tag: Option<String>,
    pub error_path: Option<String>,
    pub error_message: Option<String>,
    pub error_info: Option<ErrorInfo>,
}

/// The session identifier an `error-info` names, as decoded.
pub open spec fn info_session_matches(s: Seq<char>, id: Option<u64>) -> bool {
    match element_from(s, "session-id"@, 0) {
        ElementScan::Found(sp) => parse_u64(span_text(s, sp)) is Some && id == parse_u64(
            span_text(s, sp),
        ),
        _ => id is None,
    }
}

/// An `error-info` content `s` decodes to `i`.
pub open spec fn info_matches(s: Seq<char>, i: ErrorInfo) -> bool {
    optional_matches(s, "bad-element"@, i.bad_element) && optional_matches(
        s,
        "bad-attribute"@,
        i.bad_attribute,
    ) && optional_matches(s, "bad-namespace"@, i.bad_namespace) && optional_matches(
        s,
        "ok-element"@,
        i.ok_element,
    ) && optional_matches(s, "err-element"@, i.err_element) && optional_matches(
        s,
        "noop-element"@,
        i.noop_element,
    ) && info_session_matches(s, i.session_id)
}

/// An `error-info` content that decodes: its elements are closed, their
/// texts decode, and its `session-id`, if any, is a number.
pub open spec fn info_plain(s: Seq<char>) -> bool {
    optional_plain(s, "bad-element"@) && optional_plain(s, "bad-attribute"@) && optional_plain(
        s,
        "bad-namespace"@,
    ) && optional_plain(s, "ok-element"@) && optional_plain(s, "err-element"@) && optional_plain(
        s,
        "noop-element"@,
    ) && match element_from(s, "session-id"@, 0) {
        ElementScan::Absent => true,
        ElementScan::Unclosed => false,
        ElementScan::Found(sp) => parse_u64(span_text(s, sp)) is Some,
    }
}

/// An `rpc-error` content that decodes: known severity, type and tag,
/// optional elements closed with texts that decode, and an `error-info`
/// that decodes.
pub open spec fn error_plain(b: Seq<char>) -> bool {
    severity_of(b) is Some && type_of(b) is Some && tag_of(b) is Some && optional_plain(
        b,
        "error-app-tag"@,
    ) && optional_plain(b, "error-path"@) && optional_plain(b, "error-message"@) && match element_from(
        b,
        "error-info"@,
        0,
    ) {
        ElementScan::Absent => true,
        ElementScan::Unclosed => false,
        ElementScan::Found(sp) => info_plain(b.subrange(sp.start as int, sp.end as int)),
    }
}

pub open spec fn severity_of(b: Seq<char>) -> Option<ErrorSeverity> {
    match required_text(b, "error-severity"@) {
        Some(t) => severity_named(t),
        None => None,
    }
}

pub open spec fn type_of(b: Seq<char>) -> Option<ErrorType> {
    match required_text(b, "error-type"@) {
        Some(t) => type_named(t),
        None => None,
    }
}

pub open spec fn tag_of(b: Seq<char>) -> Option<ErrorTag> {
    match required_text(b, "error-tag"@) {
        Some(t) => tag_named(t),
        None => None,
    }
}

/// The content `b` of an `rpc-error` element decodes to `e`.
pub open spec fn error_matches(b: Seq<char>, e: Error) -> bool {
    severity_of(b) == Some(e.error_severity) && type_of(b) == Some(e.error_type) && tag_of(b)
        == Some(e.error_tag) && optional_matches(b, "error-app-tag"@, e.error_app_tag)
        && optional_matches(b, "error-path"@, e.error_path) && optional_matches(
        b,
        "error-message"@,
        e.error_message,
    ) && match element_from(b, "error-info"@, 0) {
        ElementScan::Found(sp) => e.error_info matches Some(i) && info_matches(
            b.subrange(sp.start as int, sp.end as int),
            i,
        ),
        _ => e.error_info is None,
    }
}

impl ErrorInfo {
    /// Decodes the content of an `error-info` element.
    pub fn decode(s: &[char]) -> (r: Result<ErrorInfo, NetconfClientError>)
        ensures
            r matches Ok(i) ==> info_matches(s@, i),
            r is Ok <==> info_plain(s@),
            r matches Err(e) ==> decode_error(e),
    {
        let bad_element = optional_text(s, "bad-element")?;
        let bad_attribute = optional_text(s, "bad-attribute")?;
        let bad_namespace = optional_text(s, "bad-namespace")?;
        let ok_element = optional_text(s, "ok-element")?;
        let err_element = optional_text(s, "err-element")?;
        let noop_element = optional_text(s, "noop-element")?;
        let session_id = match find_named(s, "session-id", 0) {
            ElementScan::Found(sp) => {
                let t = chars_of(element_text(s, sp).as_str());
                match parse_decimal(t.as_slice()) {
                    Some(n) => Some(n),
                    None => {
                        return Err(malformed("session-id is not a number"));
                    },
                }
            },
            ElementScan::Unclosed => {
                return Err(malformed("unclosed session-id"));
            },
            ElementScan::Absent => None,
        };
        Ok(
            ErrorInfo {
                bad_element,
                bad_attribute,
                bad_namespace,
                ok_element,
                err_element,
                noop_element,
                session_id,
            },
        )
    }
}

impl Error {
    /// Decodes the content of an `rpc-error` element. The severity, type and
    /// tag are required and must be among the known values.
    pub fn decode(b: &[char]) -> (r: Result<Error, NetconfClientError>)
        ensures
            r matches Ok(e) ==> error_matches(b@, e),
            severity_of(b@) is None || type_of(b@) is None || tag_of(b@) is None ==> r is Err,
            r is Ok <==> error_plain(b@),
            r matches Err(e) ==> decode_error(e),
    {
        let error_severity = match required_chars(b, "error-severity") {
            Some(t) => match severity_from(t.as_slice()) {
                Some(v) => v,
                None => {
                    return Err(malformed("unknown error-severity"));
                },
            },
            None => {
                return Err(malformed("missing error-severity"));
            },
        };
        let error_type = match required_chars(b, "error-type") {
            Some(t) => match type_from(t.as_slice()) {
                Some(v) => v,
                None => {
                    return Err(malformed("unknown error-type"));
                },
            },
            None => {
                return Err(malformed("missing error-type"));
            },
        };
        let error_tag = match required_chars(b, "error-tag") {
            Some(t) => match tag_from(t.as_slice()) {
                Some(v) => v,
                None => {
                    return Err(malformed("unknown error-tag"));
                },
            },
            None => {
                return Err(malformed("missing error-tag"));
            },
        };
        let error_app_tag = optional_text(b, "error-app-tag")?;
        let error_path = optional_text(b, "error-path")?;
        let error_message = optional_text(b, "error-message")?;
        let error_info = match find_named(b, "error-info", 0) {
            ElementScan::Found(sp) => Some(ErrorInfo::decode(&b[sp.start..sp.end])?),
            ElementScan::Unclosed => {
                return Err(malformed("unclosed error-info"));
            },
            ElementScan::Absent => None,
        };
        Ok(
            Error {
                error_severity,
                error_type,
                error_tag,
                error_app_tag,
                error_path,
                error_message,
                error_info,
            },
        )
    }
}

/// A decoded `rpc-reply`: the echoed message identifier, its `rpc-error`
/// records, and whether it carries `<ok/>`.
#[derive(Debug)]
pub struct RpcReply {
    pub message_id: String,
    pub rpc_error: Vec<Error>,
    pub ok: bool,
}

/// The bounds of the value of the attribute whose text up to the opening
/// quote is `pat`, inside the start tag `[tag, start)`.
pub open spec fn attribute_bounds(s: Seq<char>, pat: Seq<char>, tag: int, start: int) -> Option<
    (int, int),
> {
    match find_from(s, pat, tag) {
        Some(a) => if a + pat.len() <= start {
            match find_from(s, seq!['"'], a + pat.len()) {
                Some(q) => if q < start {
                    Some((a + pat.len(), q))
                } else {
                    None
                },
                None => None,
            }
        } else {
            None
        },
        None => None,
    }
}

/// The contents of the `rpc-error` elements among the children `cs`, in order.
pub open spec fn error_contents(cs: Seq<ChildView>) -> Seq<Seq<char>>
    decreases cs.len(),
{
    if cs.len() == 0 {
        seq![]
    } else {
        (if cs[0].name == "rpc-error"@ {
            seq![cs[0].content]
        } else {
            seq![]
        }) + error_contents(cs.drop_first())
    }
}

proof fn lemma_error_contents_concat(a: Seq<ChildView>, b: Seq<ChildView>)
    ensures
        error_contents(a + b) == error_contents(a) + error_contents(b),
    decreases a.len(),
{
    if a.len() == 0 {
        assert(a + b =~= b);
        assert(error_contents(a) + error_contents(b) =~= error_contents(b));
    } else {
        lemma_error_contents_concat(a.drop_first(), b);
        assert((a + b).drop_first() =~= a.drop_first() + b);
        assert((a + b)[0] == a[0]);
        let h: Seq<Seq<char>> = if a[0].name == "rpc-error"@ {
            seq![a[0].content]
        } else {
            seq![]
        };
        assert(error_contents(a + b) == h + error_contents(a.drop_first() + b));
        assert(h + (error_contents(a.drop_first()) + error_contents(b)) =~= (h
            + error_contents(a.drop_first())) + error_contents(b));
    }
}

/// One of the children `cs` is an `ok` element.
pub open spec fn has_ok(cs: Seq<ChildView>) -> bool {
    exists|i: int| 0 <= i < cs.len() && (#[trigger] cs[i]).name == "ok"@
}

/// `seen` in front of the children still to come, if those are well formed.
pub open spec fn prepend(seen: Seq<ChildView>, rest: Option<Seq<ChildView>>) -> Option<
    Seq<ChildView>,
> {
    match rest {
        Some(cs) => Some(seen + cs),
        None => None,
    }
}

/// The content of the `rpc-reply` element of `s`, and the raw text of its
/// `message-id` attribute.
pub open spec fn reply_parts(s: Seq<char>) -> Option<(Seq<char>, Seq<char>)> {
    match element_from(s, "rpc-reply"@, 0) {
        ElementScan::Found(sp) => match attribute_bounds(
            s,
            "message-id=\""@,
            sp.tag as int,
            sp.start as int,
        ) {
            Some((a, b)) => Some((s.subrange(sp.start as int, sp.end as int), s.subrange(a, b))),
            None => None,
        },
        _ => None,
    }
}

/// The children of the `rpc-reply` element of `s`, if it has one with a
/// message identifier and its content is well formed.
pub open spec fn reply_children(s: Seq<char>) -> Option<Seq<ChildView>> {
    match reply_parts(s) {
        Some((body, _)) => children_from(body, 0),
        None => None,
    }
}

pub open spec fn end_content(body: Seq<char>, start: usize, end: usize) -> Seq<char> {
    body.subrange(start as int, end as int)
}

/// `reply` is what `s` decodes to: the unescaped message identifier, an
/// `ok` flag set iff an `ok` child is there, and one record for each
/// `rpc-error` child, in order.
pub open spec fn reply_decodes_to(s: Seq<char>, reply: RpcReply) -> bool {
    reply_parts(s) matches Some((body, id)) && reply.message_id@ == text_value(id) && (
    children_from(body, 0) matches Some(cs) && reply.ok == has_ok(cs) && reply.rpc_error@.len()
        == error_contents(cs).len() && forall|i: int|
        0 <= i < reply.rpc_error@.len() ==> error_matches(
            #[trigger] error_contents(cs)[i],
            reply.rpc_error@[i],
        ))
}

/// A reply that decodes: its message identifier decodes, its content
/// is well formed, and each `rpc-error` child decodes.
pub open spec fn reply_plain(s: Seq<char>) -> bool {
    reply_parts(s) matches Some((body, id)) && text_decodes(id) && (children_from(body, 0) matches Some(
        cs,
    ) && forall|i: int|
        0 <= i < error_contents(cs).len() ==> error_plain(#[trigger] error_contents(cs)[i]))
}

impl RpcReply {
    /// Decodes a reply. Only the children of `rpc-reply` count: an `ok`
    /// child, and each `rpc-error` child, in order; other children (such as
    /// `<data>`) and whatever they hold are passed over.
    pub fn decode(s: &str) -> (r: Result<RpcReply, NetconfClientError>)
        ensures
            r matches Ok(reply) ==> reply_decodes_to(s@, reply),
            reply_children(s@) is None ==> r is Err,
            r is Ok <==> reply_plain(s@),
            r matches Err(e) ==> decode_error(e),
    {
        let c = chars_of(s);
        let sp = match find_named(c.as_slice(), "rpc-reply", 0) {
            ElementScan::Found(sp) => sp,
            _ => {
                return Err(malformed("no rpc-reply element"));
            },
        };
        let pat = chars_of("message-id=\"");
        let a = match find_chars(c.as_slice(), pat.as_slice(), sp.tag) {
            Some(a) => {
                if a > sp.start || pat.len() > sp.start - a {
                    return Err(malformed("missing message-id"));
                }
                a + pat.len()
            },
            None => {
                return Err(malformed("missing message-id"));
            },
        };
        let quote: [char; 1] = ['"'];
        proof {
            assert(quote@ =~= seq!['"']);
        }
        let q = match find_chars(c.as_slice(), quote.as_slice(), a) {
            Some(q) => {
                if q >= sp.start {
                    return Err(malformed("missing message-id"));
                }
                q
            },
            None => {
                return Err(malformed("missing message-id"));
            },
        };
        proof {
            crate::scan::lemma_find_from(c@, seq!['"'], a as int);
        }
        let mut raw = String::new();
        push_chars(&mut raw, c.as_slice(), a, q);
        let message_id = match unescape(raw.as_str()) {
            Some(t) => t,
            None => {
                return Err(malformed("bad entity in message-id"));
            },
        };
        let body = &c.as_slice()[sp.start..sp.end];
        proof {
            assert(raw@ =~= c@.subrange(a as int, q as int));
            assert(reply_parts(s@) == Some((body@, raw@)));
        }
        let ghost mut seen: Seq<ChildView> = Seq::empty();
        let mut rpc_error: Vec<Error> = Vec::new();
        let mut ok = false;
        let mut pos: usize = 0;
        let mut done = false;
        proof {
            if let Some(cs) = children_from(body@, 0) {
                assert(Seq::<ChildView>::empty() + cs =~= cs);
            }
        }
        while !done
            invariant
                reply_parts(s@) == Some((body@, raw@)),
                pos <= body@.len(),
                children_from(body@, 0) == prepend(
                    seen,
                    if done {
                        Some(Seq::<ChildView>::empty())
                    } else {
                        children_from(body@, pos as int)
                    },
                ),
                ok == has_ok(seen),
                rpc_error@.len() == error_contents(seen).len(),
                text_decodes(raw@),
                forall|i: int|
                    0 <= i < error_contents(seen).len() ==> error_plain(
                        #[trigger] error_contents(seen)[i],
                    ),
                forall|i: int|
                    0 <= i < rpc_error@.len() ==> error_matches(
                        #[trigger] error_contents(seen)[i],
                        rpc_error@[i],
                    ),
            decreases body@.len() - pos + (if done { 0int } else { 1int }),
        {
            match next_child(body, pos) {
                ChildStep::Done => {
                    done = true;
                    proof {
                        assert(seen + Seq::<ChildView>::empty() =~= seen);
                    }
                },
                ChildStep::Malformed => {
                    return Err(malformed("malformed reply content"));
                },
                ChildStep::Skip { next } => {
                    pos = next;
                },
                ChildStep::Child { name_start, name_end, start, end, next } => {
                    let ghost child = crate::xml::child_view(
                        body@,
                        name_start as int,
                        name_end as int,
                        start as int,
                        end as int,
                    );
                    let name = &body[name_start..name_end];
                    let is_error = chars_eq(name, "rpc-error");
                    let is_ok = chars_eq(name, "ok");
                    proof {
                        lemma_error_contents_concat(seen, seq![child]);
                        assert(error_contents(seq![child]) == (if child.name == "rpc-error"@ {
                            seq![child.content]
                        } else {
                            seq![]
                        }) + error_contents(seq![child].drop_first()));
                        assert(seq![child].drop_first() =~= Seq::<ChildView>::empty());
                        if let Some(cs) = children_from(body@, next as int) {
                            assert(children_from(body@, pos as int) == Some(seq![child] + cs));
                            assert(seen + (seq![child] + cs) =~= seen.push(child) + cs);
                            if reply_plain(s@) && is_error {
                                let all = seen + (seq![child] + cs);
                                assert(children_from(body@, 0) == Some(all));
                                lemma_error_contents_concat(seen.push(child), cs);
                                assert(seen.push(child) =~= seen + seq![child]);
                                assert(all =~= seen.push(child) + cs);
                                let k = error_contents(seen).len() as int;
                                assert(error_contents(seen.push(child)) == error_contents(seen) + seq![child.content]);
                                assert(error_contents(all) == error_contents(seen.push(child)) + error_contents(cs));
                                assert(error_contents(all).len() > k);
                                assert(error_contents(all)[k] == end_content(body@, start, end));
                                let (b2, id2) = reply_parts(s@).unwrap();
                                assert(b2 == body@);
                                let cs2 = children_from(b2, 0).unwrap();
                                assert(cs2 == all);
                                assert(error_plain(error_contents(cs2)[k]));
                            }
                        }
                    }
                    if is_error {
                        let e = Error::decode(&body[start..end])?;
                        rpc_error.push(e);
                    }
                    if is_ok {
                        ok = true;
                    }
                    proof {
                        let old_seen = seen;
                        seen = seen.push(child);
                        assert(seen =~= old_seen + seq![child]);
                        assert(error_contents(seen) =~= error_contents(old_seen) + (if child.name
                            == "rpc-error"@ {
                            seq![child.content]
                        } else {
                            seq![]
                        }));
                        if is_ok {
                            assert(seen[old_seen.len() as int].name == "ok"@);
                        } else {
                            assert forall|i: int| 0 <= i < seen.len() && (#[trigger] seen[i]).name == "ok"@ implies has_ok(old_seen) by {
                                assert(old_seen[i] == seen[i]);
                            }
                        }
                        if has_ok(old_seen) {
                            let j = choose|j: int| 0 <= j < old_seen.len() && (#[trigger] old_seen[j]).name == "ok"@;
                            assert(seen[j] == old_seen[j]);
                        }
                    }
                    pos = next;
                },
            }
        }
        Ok(RpcReply { message_id, rpc_error, ok })
    }

    /// Whether the reply carries `<ok/>` and no error.
    pub fn is_ok(&self) -> (r: bool)
        ensures
            r == (self.ok && self.rpc_error@.len() == 0),
    {
        self.ok && self.rpc_error.len() == 0
    }

    /// Whether the reply carries at least one `rpc-error`.
    pub fn has_errors(&self) -> (r: bool)
        ensures
            r == (self.rpc_error@.len() > 0),
    {
        self.rpc_error.len() > 0
    }

    /// The echoed message identifier.
    pub fn get_message_id(&self) -> (r: &str)
        ensures
            r@ == self.message_id@,
    {
        self.message_id.as_str()
    }
}

/// The trimmed texts of the `capability` elements of `cb`, from index `pos`.
pub open spec fn capability_texts(cb: Seq<char>, pos: int) -> Seq<Seq<char>>
    decreases cb.len() - pos,
{
    match element_from(cb, "capability"@, pos) {
        ElementScan::Found(sp) => if pos < sp.next <= cb.len() {
            seq![span_text(cb, sp)] + capability_texts(cb, sp.next as int)
        } else {
            seq![]
        },
        _ => seq![],
    }
}

/// Every `capability` element of `cb` from `pos` is closed and its text decodes.
pub open spec fn capabilities_plain(cb: Seq<char>, pos: int) -> bool
    decreases cb.len() - pos,
{
    match element_from(cb, "capability"@, pos) {
        ElementScan::Absent => true,
        ElementScan::Unclosed => false,
        ElementScan::Found(sp) => pos < sp.next <= cb.len() && text_decodes(span_text(cb, sp))
            && capabilities_plain(cb, sp.next as int),
    }
}

/// The content of the `hello` element of `s` and of its `capabilities`.
pub open spec fn hello_parts(s: Seq<char>) -> Option<(Seq<char>, Seq<char>)> {
    match element_from(s, "hello"@, 0) {
        ElementScan::Found(h) => {
            let body = s.subrange(h.start as int, h.end as int);
            match element_from(body, "capabilities"@, 0) {
                ElementScan::Found(c) => Some((body, body.subrange(c.start as int, c.end as int))),
                _ => None,
            }
        },
        _ => None,
    }
}

/// The `session-id` of a hello's content, if it has one.
pub open spec fn hello_session(body: Seq<char>) -> Option<u64> {
    match element_from(body, "session-id"@, 0) {
        ElementScan::Found(sp) => parse_u64(span_text(body, sp)),
        _ => None,
    }
}

/// A hello that decodes: it has `capabilities`, whose `capability`
/// elements are closed with texts that decode, and a `session-id`, if any,
/// that is a number.
pub open spec fn hello_decodes(s: Seq<char>) -> bool {
    hello_parts(s) matches Some((body, cb)) && capabilities_plain(cb, 0) && hello_session_ok(body)
}

/// A hello's `session-id` is absent or a well-formed number.
pub open spec fn hello_session_ok(body: Seq<char>) -> bool {
    match element_from(body, "session-id"@, 0) {
        ElementScan::Absent => true,
        ElementScan::Unclosed => false,
        ElementScan::Found(sp) => parse_u64(span_text(body, sp)) is Some,
    }
}

impl Hello {
    /// Decodes a hello: its capability URIs, in order, and its optional
    /// session identifier.
    pub fn decode(s: &str) -> (r: Result<Hello, NetconfClientError>)
        ensures
            r matches Ok(h) ==> hello_parts(s@) matches Some((body, cb)) && h.session_id
                == hello_session(body) && h.capabilities.capability@.len() == capability_texts(
                cb,
                0,
            ).len() && forall|i: int|
                0 <= i < h.capabilities.capability@.len() ==> #[trigger] h.capabilities.capability@[i]@
                    == text_value(capability_texts(cb, 0)[i]),
            hello_parts(s@) is None ==> r is Err,
            r is Ok <==> hello_decodes(s@),
            r matches Err(e) ==> decode_error(e),
    {
        let c = chars_of(s);
        let hsp = match find_named(c.as_slice(), "hello", 0) {
            ElementScan::Found(sp) => sp,
            _ => {
                return Err(malformed("no hello element"));
            },
        };
        let body = &c.as_slice()[hsp.start..hsp.end];
        let csp = match find_named(body, "capabilities", 0) {
            ElementScan::Found(sp) => sp,
            _ => {
                return Err(malformed("no capabilities element"));
            },
        };
        let cb = &body[csp.start..csp.end];
        proof {
            assert(hello_parts(s@) == Some((body@, cb@)));
        }
        let ghost texts = capability_texts(cb@, 0);
        let mut caps: Vec<String> = Vec::new();
        let mut pos: usize = 0;
        let mut done = false;
        while !done
            invariant
                hello_parts(s@) == Some((body@, cb@)),
                texts == capability_texts(cb@, 0),
                pos <= cb@.len(),
                caps@.len() <= texts.len(),
                texts == texts.subrange(0, caps@.len() as int) + (if done {
                    seq![]
                } else {
                    capability_texts(cb@, pos as int)
                }),
                forall|i: int| 0 <= i < caps@.len() ==> #[trigger] caps@[i]@ == text_value(texts[i]),
                !done ==> (capabilities_plain(cb@, 0) == capabilities_plain(cb@, pos as int)),
                done ==> capabilities_plain(cb@, 0),
            decreases cb@.len() - pos + (if done { 0int } else { 1int }),
        {
            match find_named(cb, "capability", pos) {
                ElementScan::Absent => {
                    done = true;
                    proof {
                        assert(texts.subrange(0, caps@.len() as int) + seq![] =~= texts);
                    }
                },
                ElementScan::Unclosed => {
                    return Err(malformed("unclosed capability"));
                },
                ElementScan::Found(sp) => {
                    let t = unescaped_text(cb, sp)?;
                    proof {
                        let rest = capability_texts(cb@, sp.next as int);
                        assert(capability_texts(cb@, pos as int) == seq![span_text(cb@, sp)] + rest);
                        assert(texts == texts.subrange(0, caps@.len() as int) + seq![span_text(cb@, sp)] + rest);
                        assert(texts[caps@.len() as int] == span_text(cb@, sp));
                        assert(texts.subrange(0, caps@.len() + 1int) =~= texts.subrange(0, caps@.len() as int).push(span_text(cb@, sp)));
                    }
                    caps.push(t);
                    pos = sp.next;
                    proof {
                        assert(texts =~= texts.subrange(0, caps@.len() as int) + capability_texts(cb@, pos as int));
                    }
                },
            }
        }
        let session_id = match find_named(body, "session-id", 0) {
            ElementScan::Found(sp) => {
                let t = chars_of(element_text(body, sp).as_str());
                match parse_decimal(t.as_slice()) {
                    Some(n) => Some(n),
                    None => {
                        return Err(malformed("session-id is not a number"));
                    },
                }
            },
            ElementScan::Unclosed => {
                return Err(malformed("unclosed session-id"));
            },
            ElementScan::Absent => None,
        };
        proof {
            assert(caps@.len() == texts.len());
        }
        Ok(Hello { capabilities: Capabilities { capability: caps }, session_id })
    }
}

} // verus!
