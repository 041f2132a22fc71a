//! Character-level helpers shared by the log codec and the wire protocol.

use vstd::prelude::*;
use vstd::string::*;

verus! {

/// Relies on `String`'s `FromIterator<&char>` implementation: collecting
/// chars yields the string of exactly those characters, in order.
#[verifier::external_body]
pub(crate) fn chars_to_string(v: &Vec<char>) -> (r: String)
    ensures
        r@ == v@,
{
    v.iter().collect()
}

/// The characters of a string, in order.
pub(crate) fn str_to_chars(s: &str) -> (v: Vec<char>)
    ensures
        v@ == s@,
{
    let n = s.unicode_len();
    let mut v: Vec<char> = Vec::new();
    let mut i: usize = 0;
    while i < n
        invariant
            n == s@.len(),
            i <= n,
            v@ == s@.subrange(0, i as int),
        decreases n - i,
    {
        v.push(s.get_char(i));
        i = i + 1;
        proof {
            assert(v@ =~= s@.subrange(0, i as int));
        }
    }
    proof {
        assert(s@.subrange(0, n as int) =~= s@);
    }
    v
}

/// Whether two strings hold the same characters.
pub(crate) fn str_eq(a: &str, b: &str) -> (r: bool)
    ensures
        r == (a@ == b@),
{
    let na = a.unicode_len();
    let nb = b.unicode_len();
    if na != nb {
        return false;
    }
    let mut i: usize = 0;
    while i < na
        invariant
            na == a@.len(),
            na == b@.len(),
            i <= na,
            forall|j: int| 0 <= j < i ==> a@[j] == b@[j],
        decreases na - i,
    {
        if a.get_char(i) != b.get_char(i) {
            return false;
        }
        i = i + 1;
    }
    proof {
        assert(a@ =~= b@);
    }
    true
}

/// Whether `pat` stands in `line` at position `start`.
pub(crate) fn match_at(line: &Vec<char>, start: usize, pat: &Vec<char>) -> (r: bool)
    requires
        start <= line@.len(),
    ensures
        r == (start + pat@.len() <= line@.len()
            && line@.subrange(start as int, start as int + pat@.len() as int) == pat@),
{
    if line.len() - start < pat.len() {
        return false;
    }
    let n = pat.len();
    let mut j: usize = 0;
    while j < n
        invariant
            n == pat@.len(),
            line@.len() <= usize::MAX,
            start + n <= line@.len(),
            j <= n,
            forall|t: int| 0 <= t < j ==> line@[start + t] == pat@[t],
        decreases n - j,
    {
        if line[start + j] != pat[j] {
            proof {
                assert(line@.subrange(start as int, start as int + n as int)[j as int]
                    == line@[start + j]);
            }
            return false;
        }
        j = j + 1;
    }
    proof {
        assert(line@.subrange(start as int, start as int + n as int) =~= pat@);
    }
    true
}

/// Append the characters of a string.
pub(crate) fn push_chars(out: &mut Vec<char>, s: &str)
    ensures
        final(out)@ == old(out)@ + s@,
{
    let n = s.unicode_len();
    let mut i: usize = 0;
    proof {
        assert(out@ =~= out@ + s@.subrange(0, 0));
    }
    while i < n
        invariant
            n == s@.len(),
            i <= n,
            out@ == old(out)@ + s@.subrange(0, i as int),
        decreases n - i,
    {
        out.push(s.get_char(i));
        i = i + 1;
        proof {
            assert(out@ =~= old(out)@ + s@.subrange(0, i as int));
        }
    }
    proof {
        assert(s@.subrange(0, n as int) =~= s@);
    }
}

/// The string holding the given range of the characters.
pub(crate) fn chars_range_to_string(chars: &Vec<char>, from: usize, to: usize) -> (r: String)
    requires
        from <= to <= chars@.len(),
    ensures
        r@ == chars@.subrange(from as int, to as int),
{
    let mut part: Vec<char> = Vec::new();
    let mut i: usize = from;
    while i < to
        invariant
            from <= i <= to <= chars@.len(),
            part@ == chars@.subrange(from as int, i as int),
        decreases to - i,
    {
        part.push(chars[i]);
        i = i + 1;
        proof {
            assert(part@ =~= chars@.subrange(from as int, i as int));
        }
    }
    chars_to_string(&part)
}

/// The position of the first occurrence of `c` at or after `from`, if any.
pub(crate) fn find_char_from(chars: &Vec<char>, from: usize, c: char) -> (r: Option<usize>)
    requires
        from <= chars@.len(),
    ensures
        match r {
            Some(i) => from <= i < chars@.len() && chars@[i as int] == c && forall|j: int|
                from <= j < i ==> chars@[j] != c,
            None => forall|j: int| from <= j < chars@.len() ==> chars@[j] != c,
        },
{
    let n = chars.len();
    let mut i: usize = from;
    while i < n
        invariant
            n == chars@.len(),
            from <= i <= n,
            forall|j: int| from <= j < i ==> chars@[j] != c,
        decreases n - i,
    {
        if chars[i] == c {
            return Some(i);
        }
        i = i + 1;
    }
    None
}

} // verus!
