use vstd::prelude::*;
use vstd::string::StrSliceExecFns;

verus! {

/// `p` occurs in `s` starting at index `i`.
pub open spec fn occurs_at<A>(s: Seq<A>, p: Seq<A>, i: int) -> bool {
    0 <= i && i + p.len() <= s.len() && s.subrange(i, i + p.len()) == p
}

/// The first index at or after `i` where `p` occurs in `s`.
pub open spec fn find_from<A>(s: Seq<A>, p: Seq<A>, i: int) -> Option<int>
    decreases s.len() + 1 - i,
{
    if i < 0 || i + p.len() > s.len() {
        None
    } else if s.subrange(i, i + p.len()) == p {
        Some(i)
    } else {
        find_from(s, p, i + 1)
    }
}

/// What `find_from` returns is the first occurrence.
pub proof fn lemma_find_from<A>(s: Seq<A>, p: Seq<A>, i: int)
    requires
        0 <= i,
    ensures
        match find_from(s, p, i) {
            Some(k) => i <= k && occurs_at(s, p, k) && forall|j: int|
                i <= j < k ==> !occurs_at(s, p, j),
            None => forall|j: int| i <= j ==> !occurs_at(s, p, j),
        },
    decreases s.len() + 1 - i,
{
    if i + p.len() <= s.len() && s.subrange(i, i + p.len()) != p {
        lemma_find_from(s, p, i + 1);
    }
}

/// An occurrence with none before it is what `find_from` returns.
pub proof fn lemma_find_from_first<A>(s: Seq<A>, p: Seq<A>, i: int, k: int)
    requires
        0 <= i <= k,
        occurs_at(s, p, k),
        forall|j: int| i <= j < k ==> !occurs_at(s, p, j),
    ensures
        find_from(s, p, i) == Some(k),
    decreases k - i,
{
    if i < k {
        assert(!occurs_at(s, p, i));
        lemma_find_from_first(s, p, i + 1, k);
    }
}

/// `p` is a prefix of `s`.
pub open spec fn has_prefix<A>(s: Seq<A>, p: Seq<A>) -> bool {
    p.len() <= s.len() && s.subrange(0, p.len() as int) == p
}

/// The characters of `s`, one by one.
pub fn chars_of(s: &str) -> (r: Vec<char>)
    ensures
        r@ == s@,
{
    let n = s.unicode_len();
    let mut r: Vec<char> = Vec::new();
    let mut i: usize = 0;
    while i < n
        invariant
            n == s@.len(),
            i <= n,
            r@ == s@.subrange(0, i as int),
        decreases n - i,
    {
        r.push(s.get_char(i));
        proof {
            assert(s@.subrange(0, i + 1) == s@.subrange(0, i as int).push(s@[i as int]));
        }
        i = i + 1;
    }
    proof {
        assert(s@.subrange(0, n as int) == s@);
    }
    r
}

/// Whether `p` occurs in `s` at index `i`.
pub fn occurs_at_index(s: &[char], p: &[char], i: usize) -> (r: bool)
    ensures
        r == occurs_at(s@, p@, i as int),
{
    if i > s.len() || p.len() > s.len() - i {
        return false;
    }
    let n = s.len();
    let mut k: usize = 0;
    while k < p.len()
        invariant
            n == s@.len(),
            i + p@.len() <= s@.len(),
            k <= p@.len(),
            s@.subrange(i as int, i + k) == p@.subrange(0, k as int),
        decreases p.len() - k,
    {
        if s[i + k] != p[k] {
            proof {
                assert(s@.subrange(i as int, i + p@.len())[k as int] == s@[i + k]);
            }
            return false;
        }
        proof {
            assert(s@.subrange(i as int, i + k + 1) == s@.subrange(i as int, i + k).push(s@[i + k]));
            assert(p@.subrange(0, k + 1) == p@.subrange(0, k as int).push(p@[k as int]));
        }
        k = k + 1;
    }
    proof {
        assert(p@.subrange(0, p@.len() as int) == p@);
    }
    true
}

/// The first index at or after `from` where `p` occurs in `s`.
pub fn find_chars(s: &[char], p: &[char], from: usize) -> (r: Option<usize>)
    ensures
        r matches Some(k) ==> find_from(s@, p@, from as int) == Some(k as int),
        r is None ==> find_from(s@, p@, from as int) is None,
{
    let mut i: usize = from;
    while i <= s.len()
        invariant
            from <= i,
            find_from(s@, p@, from as int) == find_from(s@, p@, i as int),
        decreases s.len() + 1 - i,
    {
        if p.len() > s.len() - i {
            return None;
        }
        if occurs_at_index(s, p, i) {
            return Some(i);
        }
        proof {
            if i == s@.len() {
                assert(s@.subrange(i as int, i as int) =~= p@);
            }
        }
        i = i + 1;
    }
    None
}

/// Whether the characters of `s` are exactly those of `p`.
pub fn chars_eq(s: &[char], p: &str) -> (r: bool)
    ensures
        r == (s@ == p@),
{
    let pc = chars_of(p);
    if s.len() != pc.len() {
        return false;
    }
    proof {
        assert(s@.subrange(0, s@.len() as int) =~= s@);
    }
    occurs_at_index(s, pc.as_slice(), 0)
}

/// Whether `s` starts with the characters of `p`.
pub fn starts_with(s: &[char], p: &str) -> (r: bool)
    ensures
        r == has_prefix(s@, p@),
{
    let pc = chars_of(p);
    occurs_at_index(s, pc.as_slice(), 0)
}

/// Relies on `String::push`: appends one character.
#[verifier::external_body]
pub(crate) fn push_char(s: &mut String, c: char)
    ensures
        final(s)@ == old(s)@.push(c),
{
    s.push(c)
}

/// Appends the characters `s[from..to]` to `out`.
pub fn push_chars(out: &mut String, s: &[char], from: usize, to: usize)
    requires
        from <= to <= s@.len(),
    ensures
        final(out)@ == old(out)@ + s@.subrange(from as int, to as int),
{
    let ghost start = out@;
    let mut i: usize = from;
    while i < to
        invariant
            from <= i <= to <= s@.len(),
            out@ == start + s@.subrange(from as int, i as int),
        decreases to - i,
    {
        push_char(out, s[i]);
        proof {
            assert(s@.subrange(from as int, i + 1) == s@.subrange(from as int, i as int).push(s@[i as int]));
        }
        i = i + 1;
    }
}

/// `t` is a contiguous part of `s`.
pub open spec fn is_infix<A>(t: Seq<A>, s: Seq<A>) -> bool {
    exists|i: int, j: int| 0 <= i <= j <= s.len() && t == s.subrange(i, j)
}

/// Whitespace as `char::is_whitespace` knows it: the Unicode White_Space
/// characters.
pub open spec fn is_space(c: char) -> bool {
    let n = c as u32;
    (9 <= n <= 13) || n == 32 || n == 0x85 || n == 0xA0 || n == 0x1680 || (0x2000 <= n <= 0x200A)
        || n == 0x2028 || n == 0x2029 || n == 0x202F || n == 0x205F || n == 0x3000
}

/// `s` without leading whitespace.
pub open spec fn trimmed_start(s: Seq<char>) -> Seq<char>
    decreases s.len(),
{
    if s.len() > 0 && is_space(s[0]) {
        trimmed_start(s.drop_first())
    } else {
        s
    }
}

/// `s` without trailing whitespace, as `str::trim_end` leaves it.
pub open spec fn trimmed_end(s: Seq<char>) -> Seq<char>
    decreases s.len(),
{
    if s.len() > 0 && is_space(s.last()) {
        trimmed_end(s.drop_last())
    } else {
        s
    }
}

/// `s` without leading and trailing whitespace, as `str::trim` leaves it.
pub open spec fn trimmed(s: Seq<char>) -> Seq<char> {
    trimmed_end(trimmed_start(s))
}

proof fn lemma_trimmed_start(s: Seq<char>)
    ensures
        exists|i: int| 0 <= i <= s.len() && trimmed_start(s) == s.subrange(i, s.len() as int),
        trimmed_start(s).len() > 0 ==> !is_space(trimmed_start(s)[0]),
    decreases s.len(),
{
    if s.len() > 0 && is_space(s[0]) {
        lemma_trimmed_start(s.drop_first());
        let i = choose|i: int|
            0 <= i <= s.drop_first().len() && trimmed_start(s.drop_first())
                == s.drop_first().subrange(i, s.drop_first().len() as int);
        assert(s.drop_first().subrange(i, s.drop_first().len() as int) =~= s.subrange(
            i + 1,
            s.len() as int,
        ));
    } else {
        assert(s.subrange(0, s.len() as int) =~= s);
    }
}

proof fn lemma_trimmed_end(s: Seq<char>)
    ensures
        exists|j: int| 0 <= j <= s.len() && trimmed_end(s) == s.subrange(0, j),
        trimmed_end(s).len() > 0 ==> !is_space(trimmed_end(s).last()),
        s.len() > 0 && !is_space(s[0]) && trimmed_end(s).len() > 0 ==> trimmed_end(s)[0] == s[0],
    decreases s.len(),
{
    if s.len() > 0 && is_space(s.last()) {
        lemma_trimmed_end(s.drop_last());
        let j = choose|j: int|
            0 <= j <= s.drop_last().len() && trimmed_end(s.drop_last()) == s.drop_last().subrange(
                0,
                j,
            );
        assert(s.drop_last().subrange(0, j) =~= s.subrange(0, j));
    } else {
        assert(s.subrange(0, s.len() as int) =~= s);
    }
}

/// What `str::trim` leaves is a part of the text, and trimming it again
/// changes nothing.
pub proof fn lemma_trimmed(s: Seq<char>)
    ensures
        is_infix(trimmed(s), s),
        trimmed(trimmed(s)) == trimmed(s),
{
    let a = trimmed_start(s);
    let t = trimmed(s);
    lemma_trimmed_start(s);
    lemma_trimmed_end(a);
    let i = choose|i: int| 0 <= i <= s.len() && a == s.subrange(i, s.len() as int);
    let j = choose|j: int| 0 <= j <= a.len() && t == a.subrange(0, j);
    assert(t =~= s.subrange(i, i + j));
    if t.len() > 0 {
        assert(t[0] == a[0]);
        assert(trimmed_start(t) == t);
        assert(trimmed_end(t) == t);
    } else {
        assert(trimmed_start(t) == t);
    }
}

/// Relies on `str::trim`: `s` without leading and trailing whitespace.
#[verifier::external_body]
pub(crate) fn trim(s: &str) -> (r: String)
    ensures
        r@ == trimmed(s@),
{
    s.trim().to_string()
}

} // verus!
