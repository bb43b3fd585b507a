use crate::scan::{find_chars, find_from, occurs_at, occurs_at_index, push_chars};
use vstd::prelude::*;

verus! {

/// XML whitespace.
pub open spec fn is_xml_space(c: char) -> bool {
    c == ' ' || c == '\t' || c == '\n' || c == '\r'
}

/// A character that may follow an element name in its tag.
pub open spec fn ends_name(c: char) -> bool {
    c == '>' || c == '/' || is_xml_space(c)
}

/// A start (or empty-element) tag of `name` begins at index `i` of `s`.
pub open spec fn tag_at(s: Seq<char>, name: Seq<char>, i: int) -> bool {
    0 <= i && i + 1 + name.len() < s.len() && s[i] == '<' && occurs_at(s, name, i + 1) && ends_name(
        s[i + 1 + name.len()],
    )
}

/// The first index at or after `i` where a tag of `name` begins.
pub open spec fn find_tag(s: Seq<char>, name: Seq<char>, i: int) -> Option<int>
    decreases s.len() - i,
{
    if i < 0 || i >= s.len() {
        None
    } else if tag_at(s, name, i) {
        Some(i)
    } else {
        find_tag(s, name, i + 1)
    }
}

proof fn lemma_find_tag(s: Seq<char>, name: Seq<char>, i: int)
    requires
        0 <= i,
    ensures
        find_tag(s, name, i) matches Some(j) ==> i <= j && tag_at(s, name, j),
    decreases s.len() - i,
{
    if i < s.len() && !tag_at(s, name, i) {
        lemma_find_tag(s, name, i + 1);
    }
}

/// Where an element lies: its tag starts at `tag`, its content is
/// `[start, end)`, and `next` is the index just past it.
#[derive(Debug, Clone, Copy, PartialEq, Eq)]
pub struct Span {
    pub tag: usize,
    pub start: usize,
    pub end: usize,
    pub next: usize,
}

/// Outcome of looking for an element.
#[derive(Debug, Clone, Copy, PartialEq, Eq)]
pub enum ElementScan {
    /// No tag of that name.
    Absent,
    /// A tag that is never closed.
    Unclosed,
    Found(Span),
}

/// The end tag of `name`.
pub open spec fn close_tag(name: Seq<char>) -> Seq<char> {
    "</"@ + name + ">"@
}

/// The element of `name` whose tag begins at `j`: an empty-element tag has
/// empty content; otherwise the content runs to the first end tag of `name`.
pub open spec fn element_at(s: Seq<char>, name: Seq<char>, j: int) -> ElementScan {
    match find_from(s, seq!['>'], j) {
        None => ElementScan::Unclosed,
        Some(g) => if s[g - 1] == '/' {
            ElementScan::Found(
                Span {
                    tag: j as usize,
                    start: (g + 1) as usize,
                    end: (g + 1) as usize,
                    next: (g + 1) as usize,
                },
            )
        } else {
            match find_from(s, close_tag(name), g + 1) {
                None => ElementScan::Unclosed,
                Some(e) => ElementScan::Found(
                    Span {
                        tag: j as usize,
                        start: (g + 1) as usize,
                        end: e as usize,
                        next: (e + close_tag(name).len()) as usize,
                    },
                ),
            }
        },
    }
}

/// The first element of `name` at or after index `from`.
pub open spec fn element_from(s: Seq<char>, name: Seq<char>, from: int) -> ElementScan {
    match find_tag(s, name, from) {
        None => ElementScan::Absent,
        Some(j) => element_at(s, name, j),
    }
}

pub open spec fn span_ok(s: Seq<char>, from: int, sp: Span) -> bool {
    from <= sp.tag < sp.start <= sp.end <= sp.next <= s.len()
}

/// `t` without leading XML whitespace.
pub open spec fn trim_left(t: Seq<char>) -> Seq<char>
    decreases t.len(),
{
    if t.len() > 0 && is_xml_space(t[0]) {
        trim_left(t.drop_first())
    } else {
        t
    }
}

/// `t` without trailing XML whitespace.
pub open spec fn trim_right(t: Seq<char>) -> Seq<char>
    decreases t.len(),
{
    if t.len() > 0 && is_xml_space(t.last()) {
        trim_right(t.drop_last())
    } else {
        t
    }
}

/// `t` without surrounding XML whitespace.
pub open spec fn xml_trim(t: Seq<char>) -> Seq<char> {
    trim_right(trim_left(t))
}

/// The trimmed text content of an element.
pub open spec fn span_text(s: Seq<char>, sp: Span) -> Seq<char> {
    xml_trim(s.subrange(sp.start as int, sp.end as int))
}

/// The first tag of `name` at or after `from`.
pub fn find_tag_index(s: &[char], name: &[char], from: usize) -> (r: Option<usize>)
    ensures
        r matches Some(j) ==> find_tag(s@, name@, from as int) == Some(j as int),
        r is None ==> find_tag(s@, name@, from as int) is None,
{
    let n = s.len();
    let mut i: usize = from;
    while i < n
        invariant
            n == s@.len(),
            from <= i,
            find_tag(s@, name@, from as int) == find_tag(s@, name@, i as int),
        decreases n - i,
    {
        if s[i] == '<' && name.len() < n - i - 1 && occurs_at_index(s, name, i + 1) {
            let c = s[i + 1 + name.len()];
            if c == '>' || c == '/' || c == ' ' || c == '\t' || c == '\n' || c == '\r' {
                return Some(i);
            }
        }
        i = i + 1;
    }
    None
}

/// The first element of `name` at or after `from`.
pub fn find_element(s: &[char], name: &[char], from: usize) -> (r: ElementScan)
    ensures
        r == element_from(s@, name@, from as int),
        r matches ElementScan::Found(sp) ==> span_ok(s@, from as int, sp),
{
    let j = match find_tag_index(s, name, from) {
        None => {
            return ElementScan::Absent;
        },
        Some(j) => j,
    };
    let gt: [char; 1] = ['>'];
    proof {
        assert(gt@ =~= seq!['>']);
    }
    let g = match find_chars(s, gt.as_slice(), j) {
        None => {
            return ElementScan::Unclosed;
        },
        Some(g) => g,
    };
    proof {
        lemma_find_tag(s@, name@, from as int);
        crate::scan::lemma_find_from(s@, seq!['>'], j as int);
        assert(s@[j as int] == '<');
        assert(s@.subrange(g as int, g + 1) == seq!['>']);
        assert(s@.subrange(g as int, g + 1)[0] == s@[g as int]);
        assert(g != j);
    }
    if s[g - 1] == '/' {
        return ElementScan::Found(Span { tag: j, start: g + 1, end: g + 1, next: g + 1 });
    }
    let mut close: Vec<char> = Vec::new();
    close.push('<');
    close.push('/');
    let mut k: usize = 0;
    while k < name.len()
        invariant
            k <= name@.len(),
            close@ == seq!['<', '/'] + name@.subrange(0, k as int),
        decreases name.len() - k,
    {
        close.push(name[k]);
        proof {
            assert(name@.subrange(0, k + 1) == name@.subrange(0, k as int).push(name@[k as int]));
        }
        k = k + 1;
    }
    close.push('>');
    proof {
        reveal_strlit("</");
        reveal_strlit(">");
        assert(name@.subrange(0, name@.len() as int) =~= name@);
        assert(close@ =~= close_tag(name@));
    }
    match find_chars(s, close.as_slice(), g + 1) {
        None => ElementScan::Unclosed,
        Some(e) => {
            proof {
                crate::scan::lemma_find_from(s@, close@, g + 1);
            }
            ElementScan::Found(Span { tag: j, start: g + 1, end: e, next: e + close.len() })
        },
    }
}

/// The bounds of `s[from..to]` without surrounding XML whitespace.
pub fn trim_bounds(s: &[char], from: usize, to: usize) -> (r: (usize, usize))
    requires
        from <= to <= s@.len(),
    ensures
        r.0 <= r.1 <= s@.len(),
        s@.subrange(r.0 as int, r.1 as int) == xml_trim(s@.subrange(from as int, to as int)),
{
    let mut a: usize = from;
    while a < to && (s[a] == ' ' || s[a] == '\t' || s[a] == '\n' || s[a] == '\r')
        invariant
            from <= a <= to <= s@.len(),
            trim_left(s@.subrange(from as int, to as int)) == trim_left(s@.subrange(a as int, to as int)),
        decreases to - a,
    {
        proof {
            assert(s@.subrange(a as int, to as int).drop_first() =~= s@.subrange(a + 1, to as int));
        }
        a = a + 1;
    }
    let mut b: usize = to;
    while b > a && (s[b - 1] == ' ' || s[b - 1] == '\t' || s[b - 1] == '\n' || s[b - 1] == '\r')
        invariant
            from <= a <= b <= to <= s@.len(),
            trim_right(s@.subrange(a as int, to as int)) == trim_right(s@.subrange(a as int, b as int)),
        decreases b - a,
    {
        proof {
            assert(s@.subrange(a as int, b as int).drop_last() =~= s@.subrange(a as int, b - 1));
        }
        b = b - 1;
    }
    (a, b)
}

/// The trimmed text content of an element found in `s`.
pub fn element_text(s: &[char], sp: Span) -> (r: String)
    requires
        sp.start <= sp.end <= s@.len(),
    ensures
        r@ == span_text(s@, sp),
{
    let (a, b) = trim_bounds(s, sp.start, sp.end);
    let mut out = String::new();
    push_chars(&mut out, s, a, b);
    proof {
        assert(out@ =~= s@.subrange(a as int, b as int));
    }
    out
}

/// Scanning an element's content from index `i` with `depth` elements open:
/// where the end tag that closes it begins, and the index just past that tag.
/// Processing instructions and comments (`<?`, `<!`) open nothing.
pub open spec fn content_end(s: Seq<char>, i: int, depth: nat) -> Option<(int, int)>
    decreases s.len() - i,
{
    if i < 0 || i >= s.len() {
        None
    } else {
        match find_from(s, seq!['<'], i) {
            None => None,
            Some(k) => match find_from(s, seq!['>'], k) {
                None => None,
                Some(g) => if k < i || g <= k || g >= s.len() {
                    None
                } else if s[k + 1] == '/' {
                    if depth <= 1 {
                        Some((k, g + 1))
                    } else {
                        content_end(s, g + 1, (depth - 1) as nat)
                    }
                } else if s[g - 1] == '/' || s[k + 1] == '?' || s[k + 1] == '!' {
                    content_end(s, g + 1, depth)
                } else {
                    content_end(s, g + 1, depth + 1)
                },
            },
        }
    }
}

/// The index at or after `i` where an element name that starts before it ends.
pub open spec fn name_end(s: Seq<char>, i: int) -> int
    decreases s.len() - i,
{
    if i < 0 || i >= s.len() || ends_name(s[i]) {
        i
    } else {
        name_end(s, i + 1)
    }
}

/// One step over the content of an element, from index `pos`.
#[derive(Debug, Clone, Copy, PartialEq, Eq)]
pub enum ChildStep {
    /// No further tag: the content ends.
    Done,
    /// A tag that is never closed, or an end tag that closes nothing.
    Malformed,
    /// A processing instruction or comment, up to `next`.
    Skip { next: usize },
    /// A child element: its name is `[name_start, name_end)`, its content
    /// `[start, end)`, and `next` is the index just past it.
    Child { name_start: usize, name_end: usize, start: usize, end: usize, next: usize },
}

pub open spec fn child_step(ns: int, ne: int, start: int, end: int, next: int) -> ChildStep {
    ChildStep::Child {
        name_start: ns as usize,
        name_end: ne as usize,
        start: start as usize,
        end: end as usize,
        next: next as usize,
    }
}

/// The next child element (or other markup) of a content `s`, from `pos`.
pub open spec fn child_at(s: Seq<char>, pos: int) -> ChildStep {
    match find_from(s, seq!['<'], pos) {
        None => ChildStep::Done,
        Some(k) => match find_from(s, seq!['>'], k) {
            None => ChildStep::Malformed,
            Some(g) => if g <= k || g >= s.len() {
                ChildStep::Malformed
            } else if s[k + 1] == '/' {
                ChildStep::Malformed
            } else if s[k + 1] == '?' || s[k + 1] == '!' {
                (ChildStep::Skip { next: (g + 1) as usize })
            } else if s[g - 1] == '/' {
                child_step(k + 1, name_end(s, k + 1), g + 1, g + 1, g + 1)
            } else {
                match content_end(s, g + 1, 1) {
                    None => ChildStep::Malformed,
                    Some((e, n)) => child_step(k + 1, name_end(s, k + 1), g + 1, e, n),
                }
            },
        },
    }
}

/// A child element, by name and content.
pub struct ChildView {
    pub name: Seq<char>,
    pub content: Seq<char>,
}

pub open spec fn child_view(s: Seq<char>, ns: int, ne: int, start: int, end: int) -> ChildView {
    ChildView { name: s.subrange(ns, ne), content: s.subrange(start, end) }
}

/// The child elements of a content `s` from index `pos`, in order; `None`
/// where the content is malformed.
pub open spec fn children_from(s: Seq<char>, pos: int) -> Option<Seq<ChildView>>
    decreases s.len() - pos,
{
    match child_at(s, pos) {
        ChildStep::Done => Some(Seq::empty()),
        ChildStep::Malformed => None,
        ChildStep::Skip { next } => if pos < next <= s.len() {
            children_from(s, next as int)
        } else {
            None
        },
        ChildStep::Child { name_start, name_end, start, end, next } => if pos < next <= s.len() {
            match children_from(s, next as int) {
                Some(cs) => Some(
                    seq![child_view(s, name_start as int, name_end as int, start as int, end as int)]
                        + cs,
                ),
                None => None,
            }
        } else {
            None
        },
    }
}

/// Where the content from `i`, with one element open, is closed.
pub fn find_content_end(s: &[char], i: usize) -> (r: Option<(usize, usize)>)
    requires
        1 <= i,
    ensures
        match r {
            Some((e, n)) => content_end(s@, i as int, 1) == Some((e as int, n as int)) && i <= e < n
                <= s@.len(),
            None => content_end(s@, i as int, 1) is None,
        },
{
    let lt: [char; 1] = ['<'];
    let gt: [char; 1] = ['>'];
    proof {
        assert(lt@ =~= seq!['<']);
        assert(gt@ =~= seq!['>']);
    }
    let n = s.len();
    let mut j: usize = i;
    let mut depth: usize = 1;
    while j < n
        invariant
            n == s@.len(),
            lt@ == seq!['<'],
            gt@ == seq!['>'],
            i <= j,
            1 <= depth <= j,
            content_end(s@, i as int, 1) == content_end(s@, j as int, depth as nat),
        decreases n - j,
    {
        let k = match find_chars(s, lt.as_slice(), j) {
            None => {
                return None;
            },
            Some(k) => k,
        };
        let g = match find_chars(s, gt.as_slice(), k) {
            None => {
                return None;
            },
            Some(g) => g,
        };
        proof {
            crate::scan::lemma_find_from(s@, seq!['<'], j as int);
            crate::scan::lemma_find_from(s@, seq!['>'], k as int);
        }
        if k < j || g <= k || g >= n {
            return None;
        }
        if s[k + 1] == '/' {
            if depth <= 1 {
                return Some((k, g + 1));
            }
            depth = depth - 1;
        } else if s[g - 1] == '/' || s[k + 1] == '?' || s[k + 1] == '!' {
        } else {
            depth = depth + 1;
        }
        j = g + 1;
    }
    None
}

/// The index where the element name starting at `i` ends.
pub fn find_name_end(s: &[char], i: usize) -> (r: usize)
    requires
        i <= s@.len(),
    ensures
        r == name_end(s@, i as int),
        i <= r <= s@.len(),
{
    let mut j = i;
    while j < s.len()
        invariant
            i <= j <= s@.len(),
            name_end(s@, i as int) == name_end(s@, j as int),
        decreases s@.len() - j,
    {
        let c = s[j];
        if c == '>' || c == '/' || c == ' ' || c == '\t' || c == '\n' || c == '\r' {
            return j;
        }
        j = j + 1;
    }
    j
}

/// The next child element (or other markup) of content `s`, from `pos`.
pub fn next_child(s: &[char], pos: usize) -> (r: ChildStep)
    ensures
        r == child_at(s@, pos as int),
        r matches ChildStep::Skip { next } ==> pos < next <= s@.len(),
        r matches ChildStep::Child { name_start, name_end, start, end, next } ==> pos < name_start
            <= name_end <= s@.len() && start <= end <= s@.len() && pos < next <= s@.len(),
{
    let lt: [char; 1] = ['<'];
    let gt: [char; 1] = ['>'];
    proof {
        assert(lt@ =~= seq!['<']);
        assert(gt@ =~= seq!['>']);
    }
    let n = s.len();
    let k = match find_chars(s, lt.as_slice(), pos) {
        None => {
            return ChildStep::Done;
        },
        Some(k) => k,
    };
    let g = match find_chars(s, gt.as_slice(), k) {
        None => {
            return ChildStep::Malformed;
        },
        Some(g) => g,
    };
    proof {
        crate::scan::lemma_find_from(s@, seq!['<'], pos as int);
        crate::scan::lemma_find_from(s@, seq!['>'], k as int);
    }
    if g <= k || g >= n {
        return ChildStep::Malformed;
    }
    if s[k + 1] == '/' {
        return ChildStep::Malformed;
    }
    if s[k + 1] == '?' || s[k + 1] == '!' {
        return ChildStep::Skip { next: g + 1 };
    }
    let ne = find_name_end(s, k + 1);
    if s[g - 1] == '/' {
        return ChildStep::Child { name_start: k + 1, name_end: ne, start: g + 1, end: g + 1, next: g + 1 };
    }
    match find_content_end(s, g + 1) {
        None => ChildStep::Malformed,
        Some((e, nx)) => ChildStep::Child { name_start: k + 1, name_end: ne, start: g + 1, end: e, next: nx },
    }
}

} // verus!
