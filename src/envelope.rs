use crate::reply::{Error, ErrorInfo, ErrorSeverity, ErrorTag, ErrorType, RpcReply};
use crate::message::{
    Commit, CreateSubscription, Datastore, Filter, Get, GetConfig, Hello, Rpc, RpcOperation, Source,
    WithDefaults, WithDefaultsValue,
};
use crate::scan::{is_infix, push_char, trimmed};
use vstd::prelude::*;
use vstd::string::StringExecFns;

verus! {

/// `k` levels of two-space indentation.
pub open spec fn indent(k: nat) -> Seq<char>
    decreases k,
{
    if k == 0 {
        Seq::empty()
    } else {
        indent((k - 1) as nat) + "  "@
    }
}

/// Lines joined by line feeds.
pub open spec fn lines(ls: Seq<Seq<char>>) -> Seq<char>
    decreases ls.len(),
{
    if ls.len() == 0 {
        Seq::empty()
    } else if ls.len() == 1 {
        ls[0]
    } else {
        lines(ls.drop_last()) + "\n"@ + ls.last()
    }
}

/// An element at indentation `k`: self-closing without children, else its
/// start tag, each child on its own line, and its end tag.
pub open spec fn element(k: nat, open: Seq<char>, name: Seq<char>, children: Seq<Seq<char>>) -> Seq<
    char,
> {
    if children.len() == 0 {
        indent(k) + "<"@ + open + "/>"@
    } else {
        indent(k) + "<"@ + open + ">\n"@ + lines(children) + "\n"@ + indent(k) + "</"@ + name
            + ">"@
    }
}

/// An element at indentation `k` whose text stands on the same line.
pub open spec fn leaf(k: nat, name: Seq<char>, text: Seq<char>) -> Seq<char> {
    indent(k) + "<"@ + name + ">"@ + text + "</"@ + name + ">"@
}

/// The escape of one character in XML text.
pub open spec fn escaped_char(c: char) -> Seq<char> {
    if c == '<' {
        "&lt;"@
    } else if c == '>' {
        "&gt;"@
    } else if c == '&' {
        "&amp;"@
    } else {
        seq![c]
    }
}

/// Text with `<`, `>` and `&` escaped.
pub open spec fn escaped(s: Seq<char>) -> Seq<char>
    decreases s.len(),
{
    if s.len() == 0 {
        Seq::empty()
    } else {
        escaped(s.drop_last()) + escaped_char(s.last())
    }
}

/// Decimal digits of `n`.
pub open spec fn decimal_text(n: nat) -> Seq<char>
    decreases n,
{
    if n < 10 {
        seq![((48 + n) as u8) as char]
    } else {
        decimal_text(n / 10).push(((48 + n % 10) as u8) as char)
    }
}

/// Decimal text of a signed integer.
pub open spec fn integer_text(i: int) -> Seq<char> {
    if i < 0 {
        "-"@ + decimal_text((-i) as nat)
    } else {
        decimal_text(i as nat)
    }
}

pub open spec fn views(v: Seq<String>) -> Seq<Seq<char>> {
    v.map_values(|s: String| s@)
}

pub open spec fn datastore_xml(k: nat, d: Datastore) -> Seq<char> {
    match d {
        Datastore::Candidate => element(k, "candidate"@, "candidate"@, seq![]),
        Datastore::Running => element(k, "running"@, "running"@, seq![]),
        Datastore::Startup => element(k, "startup"@, "startup"@, seq![]),
        Datastore::Url(u) => leaf(k, "url"@, escaped(u@)),
    }
}

pub open spec fn source_xml(k: nat, s: Source) -> Seq<char> {
    element(k, "source"@, "source"@, seq![datastore_xml(k + 1, s.datastore)])
}

/// A subtree filter: its fragment stands raw, unescaped, on its own line.
pub open spec fn filter_xml(k: nat, f: Filter) -> Seq<char> {
    element(k, "filter type=\"subtree\""@, "filter"@, seq![indent(k + 1) + f.content()])
}

pub open spec fn mode_name(v: WithDefaultsValue) -> Seq<char> {
    match v {
        WithDefaultsValue::ReportAll => "report-all"@,
        WithDefaultsValue::ReportAllTagged => "report-all-tagged"@,
        WithDefaultsValue::Trim => "trim"@,
        WithDefaultsValue::Explicit => "explicit"@,
    }
}

pub open spec fn with_defaults_xml(k: nat, w: WithDefaults) -> Seq<char> {
    element(
        k,
        "with-defaults xmlns=\"urn:ietf:params:xml:ns:yang:ietf-netconf-with-defaults\""@,
        "with-defaults"@,
        seq![indent(k + 1) + mode_name(w.value)],
    )
}

pub open spec fn filter_lines(k: nat, f: Option<Filter>) -> Seq<Seq<char>> {
    match f {
        Some(f) => seq![filter_xml(k, f)],
        None => seq![],
    }
}

pub open spec fn with_defaults_lines(k: nat, w: Option<WithDefaults>) -> Seq<Seq<char>> {
    match w {
        Some(w) => seq![with_defaults_xml(k, w)],
        None => seq![],
    }
}

pub open spec fn text_lines(k: nat, name: Seq<char>, t: Option<String>) -> Seq<Seq<char>> {
    match t {
        Some(t) => seq![leaf(k, name, escaped(t@))],
        None => seq![],
    }
}

pub open spec fn commit_lines(c: Commit) -> Seq<Seq<char>> {
    (if c.confirmed is Some {
        seq![element(2, "confirmed"@, "confirmed"@, seq![])]
    } else {
        seq![]
    }) + (match c.confirm_timeout {
        Some(t) => seq![leaf(2, "confirm-timeout"@, integer_text(t as int))],
        None => seq![],
    }) + text_lines(2, "persist"@, c.persist) + text_lines(2, "persist-id"@, c.persist_id)
}

pub open spec fn subscription_lines(c: CreateSubscription) -> Seq<Seq<char>> {
    text_lines(2, "stream"@, c.stream) + filter_lines(2, c.filter) + text_lines(
        2,
        "startTime"@,
        c.start_time,
    ) + text_lines(2, "stopTime"@, c.stop_time)
}

/// An operation, at the first level of indentation inside `<rpc>`.
pub open spec fn operation_xml(op: RpcOperation) -> Seq<char> {
    match op {
        RpcOperation::CloseSession => element(1, "close-session"@, "close-session"@, seq![]),
        RpcOperation::KillSession { session_id } => element(
            1,
            "kill-session"@,
            "kill-session"@,
            seq![leaf(2, "session-id"@, decimal_text(session_id as nat))],
        ),
        RpcOperation::Validate { source } => element(
            1,
            "validate"@,
            "validate"@,
            seq![source_xml(2, source)],
        ),
        RpcOperation::GetConfig(g) => element(
            1,
            "get-config"@,
            "get-config"@,
            seq![source_xml(2, g.source)] + filter_lines(2, g.filter) + with_defaults_lines(
                2,
                g.with_defaults,
            ),
        ),
        RpcOperation::Get(g) => element(
            1,
            "get"@,
            "get"@,
            filter_lines(2, g.filter) + with_defaults_lines(2, g.with_defaults),
        ),
        RpcOperation::Commit(c) => element(1, "commit"@, "commit"@, commit_lines(c)),
        RpcOperation::CreateSubscription(c) => element(
            1,
            "create-subscription xmlns=\"urn:ietf:params:xml:ns:netconf:notification:1.0\""@,
            "create-subscription"@,
            subscription_lines(c),
        ),
    }
}

/// The pretty-printed envelope of a request.
pub open spec fn rpc_xml(r: Rpc) -> Seq<char> {
    element(
        0,
        "rpc message-id=\""@ + r.id() + "\" xmlns=\"urn:ietf:params:xml:ns:netconf:base:1.0\""@,
        "rpc"@,
        seq![operation_xml(*r.op())],
    )
}

/// Relies on quick-xml's `escape::partial_escape`: replaces `<`, `>` and `&`
/// by their entities and leaves every other character as it is.
#[verifier::external_body]
fn partial_escape(s: &str) -> (r: String)
    ensures
        r@ == escaped(s@),
{
    quick_xml::escape::partial_escape(s).into_owned()
}

fn push_indent(out: &mut String, k: usize)
    ensures
        final(out)@ == old(out)@ + indent(k as nat),
{
    let mut i: usize = 0;
    while i < k
        invariant
            i <= k,
            out@ == old(out)@ + indent(i as nat),
        decreases k - i,
    {
        out.append("  ");
        proof {
            assert(indent((i + 1) as nat) == indent(i as nat) + "  "@);
        }
        i = i + 1;
    }
}

fn push_lines(out: &mut String, children: &Vec<String>)
    ensures
        final(out)@ == old(out)@ + lines(views(children@)),
{
    let mut i: usize = 0;
    while i < children.len()
        invariant
            i <= children@.len(),
            out@ == old(out)@ + lines(views(children@.subrange(0, i as int))),
        decreases children.len() - i,
    {
        let ghost before = out@;
        if i > 0 {
            out.append("\n");
        }
        out.append(children[i].as_str());
        proof {
            let now = views(children@.subrange(0, i + 1));
            assert(now.drop_last() =~= views(children@.subrange(0, i as int)));
            assert(now.last() == children@[i as int]@);
            if i == 0 {
                assert(lines(views(children@.subrange(0, 0))) =~= Seq::<char>::empty());
                assert(out@ =~= old(out)@ + lines(now));
            } else {
                assert(out@ =~= old(out)@ + lines(now));
            }
        }
        i = i + 1;
    }
    proof {
        assert(children@.subrange(0, children@.len() as int) =~= children@);
    }
}

/// The text of an element at indentation `k` with the given children.
fn element_text(k: usize, open: &str, name: &str, children: &Vec<String>) -> (r: String)
    ensures
        r@ == element(k as nat, open@, name@, views(children@)),
{
    let mut out = String::new();
    push_indent(&mut out, k);
    out.append("<");
    out.append(open);
    if children.len() == 0 {
        out.append("/>");
    } else {
        out.append(">\n");
        push_lines(&mut out, children);
        out.append("\n");
        push_indent(&mut out, k);
        out.append("</");
        out.append(name);
        out.append(">");
    }
    proof {
        assert(out@ =~= element(k as nat, open@, name@, views(children@)));
    }
    out
}

/// The text of an element at indentation `k` holding `text` on the same line.
fn leaf_text(k: usize, name: &str, text: &str) -> (r: String)
    ensures
        r@ == leaf(k as nat, name@, text@),
{
    let mut out = String::new();
    push_indent(&mut out, k);
    out.append("<");
    out.append(name);
    out.append(">");
    out.append(text);
    out.append("</");
    out.append(name);
    out.append(">");
    proof {
        assert(out@ =~= leaf(k as nat, name@, text@));
    }
    out
}

fn push_decimal_text(out: &mut String, n: u64)
    ensures
        final(out)@ == old(out)@ + decimal_text(n as nat),
    decreases n,
{
    if n >= 10 {
        push_decimal_text(out, n / 10);
    }
    push_char(out, ((48 + n % 10) as u8) as char);
    proof {
        assert(old(out)@ + decimal_text(n as nat) =~= final(out)@);
    }
}

/// The decimal text of an unsigned integer.
pub fn decimal_string(n: u64) -> (r: String)
    ensures
        r@ == decimal_text(n as nat),
{
    let mut out = String::new();
    push_decimal_text(&mut out, n);
    proof {
        assert(out@ =~= decimal_text(n as nat));
    }
    out
}

/// The decimal text of a signed integer.
pub fn integer_string(i: i32) -> (r: String)
    ensures
        r@ == integer_text(i as int),
{
    if i < 0 {
        let mut out = String::from_str("-");
        let m: u64 = (-(i as i64)) as u64;
        push_decimal_text(&mut out, m);
        out
    } else {
        decimal_string(i as u64)
    }
}

fn datastore_string(k: usize, d: &Datastore) -> (r: String)
    ensures
        r@ == datastore_xml(k as nat, *d),
{
    let none: Vec<String> = Vec::new();
    proof {
        assert(views(none@) =~= seq![]);
    }
    match d {
        Datastore::Candidate => element_text(k, "candidate", "candidate", &none),
        Datastore::Running => element_text(k, "running", "running", &none),
        Datastore::Startup => element_text(k, "startup", "startup", &none),
        Datastore::Url(u) => {
            let t = partial_escape(u.as_str());
            leaf_text(k, "url", t.as_str())
        },
    }
}

fn source_string(k: usize, s: &Source) -> (r: String)
    requires
        k < usize::MAX,
    ensures
        r@ == source_xml(k as nat, *s),
{
    let mut ch: Vec<String> = Vec::new();
    ch.push(datastore_string(k + 1, &s.datastore));
    proof {
        assert(views(ch@) =~= seq![datastore_xml((k + 1) as nat, s.datastore)]);
    }
    element_text(k, "source", "source", &ch)
}

fn filter_string(k: usize, f: &Filter) -> (r: String)
    requires
        k < usize::MAX,
    ensures
        r@ == filter_xml(k as nat, *f),
{
    let mut line = String::new();
    push_indent(&mut line, k + 1);
    line.append(f.as_str());
    let mut ch: Vec<String> = Vec::new();
    ch.push(line);
    proof {
        assert(views(ch@) =~= seq![indent((k + 1) as nat) + f.content()]);
    }
    element_text(k, "filter type=\"subtree\"", "filter", &ch)
}

fn mode_str(v: WithDefaultsValue) -> (r: &'static str)
    ensures
        r@ == mode_name(v),
{
    match v {
        WithDefaultsValue::ReportAll => "report-all",
        WithDefaultsValue::ReportAllTagged => "report-all-tagged",
        WithDefaultsValue::Trim => "trim",
        WithDefaultsValue::Explicit => "explicit",
    }
}

fn with_defaults_string(k: usize, w: &WithDefaults) -> (r: String)
    requires
        k < usize::MAX,
    ensures
        r@ == with_defaults_xml(k as nat, *w),
{
    let mut line = String::new();
    push_indent(&mut line, k + 1);
    line.append(mode_str(w.value));
    let mut ch: Vec<String> = Vec::new();
    ch.push(line);
    proof {
        assert(views(ch@) =~= seq![indent((k + 1) as nat) + mode_name(w.value)]);
    }
    element_text(
        k,
        "with-defaults xmlns=\"urn:ietf:params:xml:ns:yang:ietf-netconf-with-defaults\"",
        "with-defaults",
        &ch,
    )
}

fn push_filter(ch: &mut Vec<String>, f: &Option<Filter>)
    ensures
        views(final(ch)@) == views(old(ch)@) + filter_lines(2, *f),
{
    if let Some(f) = f {
        ch.push(filter_string(2, f));
    }
    proof {
        assert(views(final(ch)@) =~= views(old(ch)@) + filter_lines(2, *f));
    }
}

fn push_with_defaults(ch: &mut Vec<String>, w: &Option<WithDefaults>)
    ensures
        views(final(ch)@) == views(old(ch)@) + with_defaults_lines(2, *w),
{
    if let Some(w) = w {
        ch.push(with_defaults_string(2, w));
    }
    proof {
        assert(views(final(ch)@) =~= views(old(ch)@) + with_defaults_lines(2, *w));
    }
}

fn push_text(ch: &mut Vec<String>, k: usize, name: &str, t: &Option<String>)
    ensures
        views(final(ch)@) == views(old(ch)@) + text_lines(k as nat, name@, *t),
{
    if let Some(t) = t {
        let e = partial_escape(t.as_str());
        ch.push(leaf_text(k, name, e.as_str()));
    }
    proof {
        assert(views(final(ch)@) =~= views(old(ch)@) + text_lines(k as nat, name@, *t));
    }
}

fn operation_string(op: &RpcOperation) -> (r: String)
    ensures
        r@ == operation_xml(*op),
{
    let mut ch: Vec<String> = Vec::new();
    proof {
        assert(views(ch@) =~= seq![]);
    }
    match op {
        RpcOperation::CloseSession => element_text(1, "close-session", "close-session", &ch),
        RpcOperation::KillSession { session_id } => {
            let id = decimal_string(*session_id);
            ch.push(leaf_text(2, "session-id", id.as_str()));
            proof {
                assert(views(ch@) =~= seq![leaf(2, "session-id"@, decimal_text(*session_id as nat))]);
            }
            element_text(1, "kill-session", "kill-session", &ch)
        },
        RpcOperation::Validate { source } => {
            ch.push(source_string(2, source));
            proof {
                assert(views(ch@) =~= seq![source_xml(2, *source)]);
            }
            element_text(1, "validate", "validate", &ch)
        },
        RpcOperation::GetConfig(g) => {
            ch.push(source_string(2, &g.source));
            proof {
                assert(views(ch@) =~= seq![source_xml(2, g.source)]);
            }
            push_filter(&mut ch, &g.filter);
            push_with_defaults(&mut ch, &g.with_defaults);
            element_text(1, "get-config", "get-config", &ch)
        },
        RpcOperation::Get(g) => {
            push_filter(&mut ch, &g.filter);
            push_with_defaults(&mut ch, &g.with_defaults);
            proof {
                assert(views(ch@) =~= filter_lines(2, g.filter) + with_defaults_lines(2, g.with_defaults));
            }
            element_text(1, "get", "get", &ch)
        },
        RpcOperation::Commit(c) => {
            if c.confirmed.is_some() {
                let none: Vec<String> = Vec::new();
                proof {
                    assert(views(none@) =~= seq![]);
                }
                ch.push(element_text(2, "confirmed", "confirmed", &none));
            }
            if let Some(t) = c.confirm_timeout {
                let txt = integer_string(t);
                ch.push(leaf_text(2, "confirm-timeout", txt.as_str()));
            }
            proof {
                assert(views(ch@) =~= (if c.confirmed is Some {
                    seq![element(2, "confirmed"@, "confirmed"@, seq![])]
                } else {
                    seq![]
                }) + (match c.confirm_timeout {
                    Some(t) => seq![leaf(2, "confirm-timeout"@, integer_text(t as int))],
                    None => seq![],
                }));
            }
            push_text(&mut ch, 2, "persist", &c.persist);
            push_text(&mut ch, 2, "persist-id", &c.persist_id);
            proof {
                assert(views(ch@) =~= commit_lines(*c));
            }
            element_text(1, "commit", "commit", &ch)
        },
        RpcOperation::CreateSubscription(c) => {
            push_text(&mut ch, 2, "stream", &c.stream);
            push_filter(&mut ch, &c.filter);
            push_text(&mut ch, 2, "startTime", &c.start_time);
            push_text(&mut ch, 2, "stopTime", &c.stop_time);
            proof {
                assert(views(ch@) =~= subscription_lines(*c));
            }
            element_text(
                1,
                "create-subscription xmlns=\"urn:ietf:params:xml:ns:netconf:notification:1.0\"",
                "create-subscription",
                &ch,
            )
        },
    }
}

impl Rpc {
    /// The envelope as XML, pretty-printed with two-space indentation; a
    /// subtree filter's fragment is emitted raw.
    pub fn to_xml(&self) -> (r: String)
        ensures
            r@ == rpc_xml(*self),
    {
        let mut open = String::from_str("rpc message-id=\"");
        open.append(self.message_id.as_str());
        open.append("\" xmlns=\"urn:ietf:params:xml:ns:netconf:base:1.0\"");
        let mut ch: Vec<String> = Vec::new();
        ch.push(operation_string(&self.operation));
        proof {
            assert(views(ch@) =~= seq![operation_xml(*self.op())]);
        }
        element_text(0, open.as_str(), "rpc", &ch)
    }
}

/// The capability elements of a hello, one after another.
pub open spec fn capability_items(caps: Seq<String>) -> Seq<char>
    decreases caps.len(),
{
    if caps.len() == 0 {
        Seq::empty()
    } else {
        capability_items(caps.drop_last()) + "<capability>"@ + escaped(caps.last()@)
            + "</capability>"@
    }
}

/// A hello on a single line, as servers expect it in the first exchange.
pub open spec fn hello_xml(h: Hello) -> Seq<char> {
    "<hello xmlns=\"urn:ietf:params:xml:ns:netconf:base:1.0\"><capabilities>"@ + capability_items(
        h.capabilities.capability@,
    ) + "</capabilities>"@ + (match h.session_id {
        Some(id) => "<session-id>"@ + decimal_text(id as nat) + "</session-id>"@,
        None => Seq::empty(),
    }) + "</hello>"@
}

impl Hello {
    /// The hello as XML on a single line.
    pub fn to_xml(&self) -> (r: String)
        ensures
            r@ == hello_xml(*self),
    {
        let caps = &self.capabilities.capability;
        let mut out = String::from_str(
            "<hello xmlns=\"urn:ietf:params:xml:ns:netconf:base:1.0\"><capabilities>",
        );
        let ghost head = out@;
        let mut i: usize = 0;
        while i < caps.len()
            invariant
                i <= caps@.len(),
                out@ == head + capability_items(caps@.subrange(0, i as int)),
            decreases caps.len() - i,
        {
            out.append("<capability>");
            let e = partial_escape(caps[i].as_str());
            out.append(e.as_str());
            out.append("</capability>");
            proof {
                assert(caps@.subrange(0, i + 1).drop_last() =~= caps@.subrange(0, i as int));
            }
            i = i + 1;
        }
        proof {
            assert(caps@.subrange(0, caps@.len() as int) =~= caps@);
        }
        out.append("</capabilities>");
        if let Some(id) = self.session_id {
            out.append("<session-id>");
            let t = decimal_string(id);
            out.append(t.as_str());
            out.append("</session-id>");
        }
        out.append("</hello>");
        proof {
            assert(out@ =~= hello_xml(*self));
        }
        out
    }
}

proof fn lemma_infix_middle(x: Seq<char>, a: Seq<char>, b: Seq<char>)
    ensures
        is_infix(x, a + x + b),
{
    assert((a + x + b).subrange(a.len() as int, a.len() + x.len() as int) =~= x);
}

proof fn lemma_infix_trans(x: Seq<char>, y: Seq<char>, z: Seq<char>)
    requires
        is_infix(x, y),
        is_infix(y, z),
    ensures
        is_infix(x, z),
{
    let (i, j) = choose|i: int, j: int| 0 <= i <= j <= y.len() && x == y.subrange(i, j);
    let (k, l) = choose|k: int, l: int| 0 <= k <= l <= z.len() && y == z.subrange(k, l);
    assert(z.subrange(k + i, k + j) =~= x);
}

/// The subtree filter element holds its fragment verbatim between the start
/// and end tags.
pub open spec fn filter_block(fragment: Seq<char>) -> Seq<char> {
    "<filter type=\"subtree\">\n"@ + indent(3) + fragment + "\n"@ + indent(2) + "</filter>"@
}

proof fn lemma_filter_element(f: Filter)
    ensures
        filter_xml(2, f) == indent(2) + filter_block(f.content()),
{
    reveal_strlit("<");
    reveal_strlit("filter type=\"subtree\"");
    reveal_strlit(">\n");
    reveal_strlit("<filter type=\"subtree\">\n");
    reveal_strlit("</");
    reveal_strlit("filter");
    reveal_strlit(">");
    reveal_strlit("</filter>");
    let line = indent(3) + f.content();
    assert(lines(seq![line]) == line);
    assert(filter_xml(2, f) =~= indent(2) + filter_block(f.content()));
}

proof fn lemma_lines_hold(ls: Seq<Seq<char>>, i: int)
    requires
        0 <= i < ls.len(),
    ensures
        is_infix(ls[i], lines(ls)),
    decreases ls.len(),
{
    if ls.len() == 1 {
        lemma_infix_middle(ls[0], Seq::empty(), Seq::empty());
        assert(Seq::<char>::empty() + ls[0] + Seq::<char>::empty() =~= ls[0]);
    } else if i == ls.len() - 1 {
        lemma_infix_middle(ls[i], lines(ls.drop_last()) + "\n"@, Seq::empty());
        assert(lines(ls.drop_last()) + "\n"@ + ls[i] + Seq::<char>::empty() =~= lines(ls));
    } else {
        lemma_lines_hold(ls.drop_last(), i);
        assert(ls.drop_last()[i] == ls[i]);
        lemma_infix_middle(lines(ls.drop_last()), Seq::empty(), "\n"@ + ls.last());
        assert(Seq::<char>::empty() + lines(ls.drop_last()) + ("\n"@ + ls.last()) =~= lines(ls));
        lemma_infix_trans(ls[i], lines(ls.drop_last()), lines(ls));
    }
}

proof fn lemma_element_holds(k: nat, open: Seq<char>, name: Seq<char>, ch: Seq<Seq<char>>, i: int)
    requires
        0 <= i < ch.len(),
    ensures
        is_infix(ch[i], element(k, open, name, ch)),
{
    lemma_lines_hold(ch, i);
    let a = indent(k) + "<"@ + open + ">\n"@;
    let b = "\n"@ + indent(k) + "</"@ + name + ">"@;
    lemma_infix_middle(lines(ch), a, b);
    assert(a + lines(ch) + b =~= element(k, open, name, ch));
    lemma_infix_trans(ch[i], lines(ch), element(k, open, name, ch));
}

/// A `get` or `get-config` envelope whose subtree filter was made from text
/// `s` without backslashes (so that its fragment is `s` trimmed) holds that
/// fragment verbatim between `<filter type="subtree">` and `</filter>`.
pub proof fn lemma_filter_verbatim(s: Seq<char>, rpc: Rpc)
    requires
        match *rpc.op() {
            RpcOperation::Get(g) => g.filter matches Some(f) && f.content() == trimmed(s),
            RpcOperation::GetConfig(g) => g.filter matches Some(f) && f.content() == trimmed(s),
            _ => false,
        },
    ensures
        is_infix(filter_block(trimmed(s)), rpc_xml(rpc)),
{
    let op = *rpc.op();
    let f = match op {
        RpcOperation::Get(g) => g.filter.unwrap(),
        RpcOperation::GetConfig(g) => g.filter.unwrap(),
        _ => arbitrary(),
    };
    lemma_filter_element(f);
    lemma_infix_middle(filter_block(trimmed(s)), indent(2), Seq::empty());
    assert(indent(2) + filter_block(trimmed(s)) + Seq::<char>::empty() =~= filter_xml(2, f));
    match op {
        RpcOperation::Get(g) => {
            let ch = filter_lines(2, g.filter) + with_defaults_lines(2, g.with_defaults);
            assert(ch[0] == filter_xml(2, f));
            lemma_element_holds(1, "get"@, "get"@, ch, 0);
        },
        RpcOperation::GetConfig(g) => {
            let ch = seq![source_xml(2, g.source)] + filter_lines(2, g.filter)
                + with_defaults_lines(2, g.with_defaults);
            assert(ch[1] == filter_xml(2, f));
            lemma_element_holds(1, "get-config"@, "get-config"@, ch, 1);
        },
        _ => {},
    }
    lemma_infix_trans(filter_block(trimmed(s)), filter_xml(2, f), operation_xml(op));
    let open = "rpc message-id=\""@ + rpc.id() + "\" xmlns=\"urn:ietf:params:xml:ns:netconf:base:1.0\""@;
    lemma_element_holds(0, open, "rpc"@, seq![operation_xml(op)], 0);
    lemma_infix_trans(filter_block(trimmed(s)), operation_xml(op), rpc_xml(rpc));
}

pub open spec fn severity_text(v: ErrorSeverity) -> Seq<char> {
    match v {
        ErrorSeverity::Error => "error"@,
        ErrorSeverity::Warning => "warning"@,
    }
}

pub open spec fn type_text(v: ErrorType) -> Seq<char> {
    match v {
        ErrorType::Transport => "transport"@,
        ErrorType::Rpc => "rpc"@,
        ErrorType::Protocol => "protocol"@,
        ErrorType::App => "app"@,
    }
}

pub open spec fn tag_text(v: ErrorTag) -> Seq<char> {
    match v {
        ErrorTag::InUse => "in-use"@,
        ErrorTag::InvalidValue => "invalid-value"@,
        ErrorTag::TooBig => "too-big"@,
        ErrorTag::MissingAttribute => "missing-attribute"@,
        ErrorTag::BadAttribute => "bad-attribute"@,
        ErrorTag::UnknownAttribute => "unknown-attribute"@,
        ErrorTag::MissingElement => "missing-element"@,
        ErrorTag::BadElement => "bad-element"@,
        ErrorTag::UnknownElement => "unknown-element"@,
        ErrorTag::UnknownNamespace => "unknown-namespace"@,
        ErrorTag::AccessDenied => "access-denied"@,
        ErrorTag::LockDenied => "lock-denied"@,
        ErrorTag::ResourceDenied => "resource-denied"@,
        ErrorTag::RollbackFailed => "rollback-failed"@,
        ErrorTag::DataExists => "data-exists"@,
        ErrorTag::DataMissing => "data-missing"@,
        ErrorTag::OperationNotSupported => "operation-not-supported"@,
        ErrorTag::OperationFailed => "operation-failed"@,
        ErrorTag::PartialOperation => "partial-operation"@,
        ErrorTag::MalformedMessage => "malformed-message"@,
    }
}

/// The children of an `error-info` element, at indentation 3.
pub open spec fn info_lines(i: ErrorInfo) -> Seq<Seq<char>> {
    text_lines(3, "bad-element"@, i.bad_element) + text_lines(3, "bad-attribute"@, i.bad_attribute)
        + text_lines(3, "bad-namespace"@, i.bad_namespace) + text_lines(
        3,
        "ok-element"@,
        i.ok_element,
    ) + text_lines(3, "err-element"@, i.err_element) + text_lines(
        3,
        "noop-element"@,
        i.noop_element,
    ) + match i.session_id {
        Some(n) => seq![leaf(3, "session-id"@, decimal_text(n as nat))],
        None => seq![],
    }
}

/// An `rpc-error` element at indentation 1.
pub open spec fn error_xml(e: Error) -> Seq<char> {
    element(
        1,
        "rpc-error"@,
        "rpc-error"@,
        seq![
            leaf(2, "error-severity"@, severity_text(e.error_severity)),
            leaf(2, "error-type"@, type_text(e.error_type)),
            leaf(2, "error-tag"@, tag_text(e.error_tag)),
        ] + text_lines(2, "error-app-tag"@, e.error_app_tag) + text_lines(
            2,
            "error-path"@,
            e.error_path,
        ) + text_lines(2, "error-message"@, e.error_message) + match e.error_info {
            Some(i) => seq![element(2, "error-info"@, "error-info"@, info_lines(i))],
            None => seq![],
        },
    )
}

/// A reply, pretty-printed: its message identifier, each error, and `<ok/>`.
pub open spec fn reply_xml(r: RpcReply) -> Seq<char> {
    element(
        0,
        "rpc-reply message-id=\""@ + escaped(r.message_id@) + "\""@,
        "rpc-reply"@,
        r.rpc_error@.map_values(|e: Error| error_xml(e)) + if r.ok {
            seq![element(1, "ok"@, "ok"@, seq![])]
        } else {
            seq![]
        },
    )
}

fn severity_str(v: ErrorSeverity) -> (r: &'static str)
    ensures
        r@ == severity_text(v),
{
    match v {
        ErrorSeverity::Error => "error",
        ErrorSeverity::Warning => "warning",
    }
}

fn type_str(v: ErrorType) -> (r: &'static str)
    ensures
        r@ == type_text(v),
{
    match v {
        ErrorType::Transport => "transport",
        ErrorType::Rpc => "rpc",
        ErrorType::Protocol => "protocol",
        ErrorType::App => "app",
    }
}

fn tag_str(v: ErrorTag) -> (r: &'static str)
    ensures
        r@ == tag_text(v),
{
    match v {
        ErrorTag::InUse => "in-use",
        ErrorTag::InvalidValue => "invalid-value",
        ErrorTag::TooBig => "too-big",
        ErrorTag::MissingAttribute => "missing-attribute",
        ErrorTag::BadAttribute => "bad-attribute",
        ErrorTag::UnknownAttribute => "unknown-attribute",
        ErrorTag::MissingElement => "missing-element",
        ErrorTag::BadElement => "bad-element",
        ErrorTag::UnknownElement => "unknown-element",
        ErrorTag::UnknownNamespace => "unknown-namespace",
        ErrorTag::AccessDenied => "access-denied",
        ErrorTag::LockDenied => "lock-denied",
        ErrorTag::ResourceDenied => "resource-denied",
        ErrorTag::RollbackFailed => "rollback-failed",
        ErrorTag::DataExists => "data-exists",
        ErrorTag::DataMissing => "data-missing",
        ErrorTag::OperationNotSupported => "operation-not-supported",
        ErrorTag::OperationFailed => "operation-failed",
        ErrorTag::PartialOperation => "partial-operation",
        ErrorTag::MalformedMessage => "malformed-message",
    }
}

fn error_string(e: &Error) -> (r: String)
    ensures
        r@ == error_xml(*e),
{
    let mut ch: Vec<String> = Vec::new();
    ch.push(leaf_text(2, "error-severity", severity_str(e.error_severity)));
    ch.push(leaf_text(2, "error-type", type_str(e.error_type)));
    ch.push(leaf_text(2, "error-tag", tag_str(e.error_tag)));
    proof {
        assert(views(ch@) =~= seq![
            leaf(2, "error-severity"@, severity_text(e.error_severity)),
            leaf(2, "error-type"@, type_text(e.error_type)),
            leaf(2, "error-tag"@, tag_text(e.error_tag)),
        ]);
    }
    push_text(&mut ch, 2, "error-app-tag", &e.error_app_tag);
    push_text(&mut ch, 2, "error-path", &e.error_path);
    push_text(&mut ch, 2, "error-message", &e.error_message);
    let ghost before = views(ch@);
    if let Some(i) = &e.error_info {
        let mut ich: Vec<String> = Vec::new();
        proof {
            assert(views(ich@) =~= seq![]);
        }
        push_text(&mut ich, 3, "bad-element", &i.bad_element);
        push_text(&mut ich, 3, "bad-attribute", &i.bad_attribute);
        push_text(&mut ich, 3, "bad-namespace", &i.bad_namespace);
        push_text(&mut ich, 3, "ok-element", &i.ok_element);
        push_text(&mut ich, 3, "err-element", &i.err_element);
        push_text(&mut ich, 3, "noop-element", &i.noop_element);
        if let Some(n) = i.session_id {
            let t = decimal_string(n);
            ich.push(leaf_text(3, "session-id", t.as_str()));
        }
        proof {
            assert(views(ich@) =~= info_lines(*i));
        }
        ch.push(element_text(2, "error-info", "error-info", &ich));
    }
    proof {
        assert(views(ch@) =~= before + match e.error_info {
            Some(i) => seq![element(2, "error-info"@, "error-info"@, info_lines(i))],
            None => seq![],
        });
    }
    element_text(1, "rpc-error", "rpc-error", &ch)
}

impl RpcReply {
    /// The reply as XML, pretty-printed with two-space indentation.
    pub fn to_xml(&self) -> (r: String)
        ensures
            r@ == reply_xml(*self),
    {
        let mut open = String::from_str("rpc-reply message-id=\"");
        let id = partial_escape(self.message_id.as_str());
        open.append(id.as_str());
        open.append("\"");
        let mut ch: Vec<String> = Vec::new();
        let mut i: usize = 0;
        while i < self.rpc_error.len()
            invariant
                i <= self.rpc_error@.len(),
                views(ch@) == self.rpc_error@.subrange(0, i as int).map_values(
                    |e: Error| error_xml(e),
                ),
            decreases self.rpc_error.len() - i,
        {
            ch.push(error_string(&self.rpc_error[i]));
            proof {
                assert(self.rpc_error@.subrange(0, i + 1).map_values(|e: Error| error_xml(e))
                    =~= self.rpc_error@.subrange(0, i as int).map_values(|e: Error| error_xml(e)).push(
                    error_xml(self.rpc_error@[i as int]),
                ));
            }
            i = i + 1;
        }
        proof {
            assert(self.rpc_error@.subrange(0, self.rpc_error@.len() as int) =~= self.rpc_error@);
        }
        let ghost before = views(ch@);
        if self.ok {
            let none: Vec<String> = Vec::new();
            proof {
                assert(views(none@) =~= seq![]);
            }
            ch.push(element_text(1, "ok", "ok", &none));
        }
        proof {
            assert(views(ch@) =~= before + if self.ok {
                seq![element(1, "ok"@, "ok"@, seq![])]
            } else {
                seq![]
            });
        }
        element_text(0, open.as_str(), "rpc-reply", &ch)
    }
}

} // verus!
