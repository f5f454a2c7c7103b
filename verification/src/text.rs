//! Character-level access to strings, with the contracts of the std
//! functions that provide it.
use vstd::prelude::*;

verus! {

/// The character at index `i` of `s`, if there is one.
pub fn peek_char(s: &str, i: usize) -> (res: Option<char>)
    ensures
        res == (if i < s@.len() {
            Some(s@[i as int])
        } else {
            None
        }),
{
    let mut it = s.chars();
    assert(vstd::std_specs::iter::IteratorSpec::remaining(&it) == s@);
    let mut k: usize = 0;
    loop
        invariant
            k <= i,
            k <= s@.len(),
            vstd::std_specs::iter::IteratorSpec::remaining(&it) == s@.skip(k as int),
        decreases i - k,
    {
        let c = it.next();
        if k == i {
            return c;
        }
        if c.is_none() {
            return None;
        }
        assert(s@.skip(k as int).drop_first() =~= s@.skip(k + 1));
        k = k + 1;
    }
}

/// The suffix of `s` that follows its first `n` characters.
pub fn skip_chars(s: &str, n: usize) -> (res: &str)
    requires
        n <= s@.len(),
    ensures
        res@ == s@.skip(n as int),
{
    let len = s.unicode_len();
    let res = s.substring_char(n, len);
    assert(res@ =~= s@.skip(n as int));
    res
}

/// The `len` characters of `s` that follow its first `start` characters.
pub fn substring(s: &str, start: usize, len: usize) -> (res: String)
    requires
        start + len <= s@.len(),
    ensures
        res@ == s@.subrange(start as int, start + len),
{
    let mut it = s.chars();
    assert(vstd::std_specs::iter::IteratorSpec::remaining(&it) == s@);
    assert(s@.skip(0) =~= s@);
    let mut k: usize = 0;
    while k < start
        invariant
            k <= start,
            start + len <= s@.len(),
            vstd::std_specs::iter::IteratorSpec::remaining(&it) == s@.skip(k as int),
        decreases start - k,
    {
        it.next();
        assert(s@.skip(k as int).drop_first() =~= s@.skip(k + 1));
        k = k + 1;
    }
    let mut out = String::new();
    let mut j: usize = 0;
    while j < len
        invariant
            j <= len,
            start + len <= s@.len(),
            vstd::std_specs::iter::IteratorSpec::remaining(&it) == s@.skip(start + j),
            out@ == s@.subrange(start as int, start + j),
        decreases len - j,
    {
        match it.next() {
            Some(c) => {
                push_char(&mut out, c);
                assert(s@.skip(start + j).drop_first() =~= s@.skip(start + j + 1));
                assert(out@ =~= s@.subrange(start as int, start + j + 1));
            },
            None => {
                assert(false);
            },
        }
        j = j + 1;
    }
    out
}

/// `String::push`: appends one character.
#[verifier::external_body]
pub fn push_char(s: &mut String, c: char)
    ensures
        final(s)@ == old(s)@.push(c),
{
    s.push(c)
}

/// A new string holding the characters of `v`.
pub fn string_from_chars(v: &[char]) -> (res: String)
    ensures
        res@ == v@,
{
    let mut out = String::new();
    let mut i: usize = 0;
    while i < v.len()
        invariant
            i <= v@.len(),
            out@ == v@.subrange(0, i as int),
        decreases v@.len() - i,
    {
        push_char(&mut out, v[i]);
        assert(out@ =~= v@.subrange(0, i + 1));
        i = i + 1;
    }
    assert(v@.subrange(0, v@.len() as int) =~= v@);
    out
}

/// The characters of `s`, in order.
pub fn chars_of(s: &str) -> (res: Vec<char>)
    ensures
        res@ == s@,
{
    let mut it = s.chars();
    assert(vstd::std_specs::iter::IteratorSpec::remaining(&it) == s@);
    assert(s@.skip(0) =~= s@);
    let mut out: Vec<char> = Vec::new();
    loop
        invariant
            out@.len() <= s@.len(),
            out@ == s@.subrange(0, out@.len() as int),
            vstd::std_specs::iter::IteratorSpec::remaining(&it) == s@.skip(out@.len() as int),
        ensures
            out@ == s@,
        decreases s@.len() - out@.len(),
    {
        let ghost k: int = out@.len() as int;
        match it.next() {
            Some(c) => {
                out.push(c);
                assert(s@.skip(k).drop_first() =~= s@.skip(k + 1));
                assert(out@ =~= s@.subrange(0, k + 1));
            },
            None => {
                assert(out@ =~= s@);
                break ;
            },
        }
    }
    out
}

/// Whether two strings hold the same characters.
pub fn same_text(a: &str, b: &str) -> (res: bool)
    ensures
        res == (a@ == b@),
{
    let x = String::from_str(a);
    let y = String::from_str(b);
    x == y
}


/// Whether `s` holds `::`.
pub open spec fn has_double_colon(s: Seq<char>) -> bool {
    exists|i: int| 0 <= i && i + 1 < s.len() && #[trigger] s[i] == ':' && s[i + 1] == ':'
}

/// Whether `s` holds `::`.
pub fn contains_double_colon(s: &str) -> (res: bool)
    ensures
        res == has_double_colon(s@),
{
    let cs = chars_of(s);
    let mut i: usize = 0;
    while i < cs.len() && i + 1 < cs.len()
        invariant
            cs@ == s@,
            i <= cs@.len(),
            forall|j: int| 0 <= j < i && j + 1 < cs@.len() ==> !(#[trigger] cs@[j] == ':' && cs@[j + 1] == ':'),
        decreases cs@.len() - i,
    {
        if cs[i] == ':' && cs[i + 1] == ':' {
            return true;
        }
        i = i + 1;
    }
    assert forall|j: int| 0 <= j && j + 1 < s@.len() implies !(#[trigger] s@[j] == ':' && s@[j + 1] == ':') by {
        assert(j < i);
    }
    false
}

/// Whether `s` begins with `p`.
pub fn starts_with_text(s: &str, p: &str) -> (res: bool)
    ensures
        res == (p@.len() <= s@.len() && s@.subrange(0, p@.len() as int) == p@),
{
    let cs = chars_of(s);
    let ps = chars_of(p);
    if ps.len() > cs.len() {
        return false;
    }
    let mut i: usize = 0;
    while i < ps.len()
        invariant
            cs@ == s@,
            ps@ == p@,
            ps@.len() <= cs@.len(),
            i <= ps@.len(),
            forall|j: int| 0 <= j < i ==> cs@[j] == ps@[j],
        decreases ps@.len() - i,
    {
        if cs[i] != ps[i] {
            assert(s@.subrange(0, p@.len() as int)[i as int] != p@[i as int]);
            return false;
        }
        i = i + 1;
    }
    assert(s@.subrange(0, p@.len() as int) =~= p@);
    true
}

/// Whether `c` is an ASCII letter or digit.
pub open spec fn is_alnum(c: char) -> bool {
    ('a' <= c && c <= 'z') || ('A' <= c && c <= 'Z') || ('0' <= c && c <= '9')
}

/// `s` with each character that is no letter or digit made a `.`.
pub open spec fn sanitized(s: Seq<char>) -> Seq<char> {
    s.map_values(|c: char| if is_alnum(c) { c } else { '.' })
}

/// `s` with each character that is no letter or digit made a `.`.
pub fn sanitize(s: &str) -> (res: String)
    ensures
        res@ == sanitized(s@),
{
    let cs = chars_of(s);
    let mut out = String::new();
    let mut i: usize = 0;
    while i < cs.len()
        invariant
            cs@ == s@,
            i <= cs@.len(),
            out@ == sanitized(s@.subrange(0, i as int)),
        decreases cs@.len() - i,
    {
        let c = cs[i];
        let keep = ('a' <= c && c <= 'z') || ('A' <= c && c <= 'Z') || ('0' <= c && c <= '9');
        push_char(&mut out, if keep { c } else { '.' });
        assert(sanitized(s@.subrange(0, i + 1)) =~= sanitized(s@.subrange(0, i as int)).push(
            if keep { c } else { '.' },
        ));
        i = i + 1;
    }
    assert(s@.subrange(0, cs@.len() as int) =~= s@);
    out
}

/// `a` followed by `b`.
pub fn concat(a: &str, b: &str) -> (res: String)
    ensures
        res@ == a@ + b@,
{
    let mut s = String::from_str(a);
    s.append(b);
    s
}

} // verus!
