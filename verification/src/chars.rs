//! Character classes of the wire format: whitespace, quotes, and the
//! trimming applied to parameter values.

use vstd::prelude::*;
use vstd::string::StrSliceExecFns;

verus! {

/// The characters the tokenizer treats as whitespace: the Unicode
/// `White_Space` set, as `char::is_whitespace` documents it.
pub open spec fn spec_is_space(c: char) -> bool {
    c == ' ' || c == '\t' || c == '\n' || c == '\u{b}' || c == '\u{c}' || c == '\r'
        || c == '\u{85}' || c == '\u{a0}' || c == '\u{1680}' || c == '\u{2000}'
        || c == '\u{2001}' || c == '\u{2002}' || c == '\u{2003}' || c == '\u{2004}'
        || c == '\u{2005}' || c == '\u{2006}' || c == '\u{2007}' || c == '\u{2008}'
        || c == '\u{2009}' || c == '\u{200a}' || c == '\u{2028}' || c == '\u{2029}'
        || c == '\u{202f}' || c == '\u{205f}' || c == '\u{3000}'
}

/// Whether `c` separates tokens outside a quoted span.
pub fn is_space(c: char) -> (r: bool)
    ensures
        r == spec_is_space(c),
{
    c == ' ' || c == '\t' || c == '\n' || c == '\u{b}' || c == '\u{c}' || c == '\r'
        || c == '\u{85}' || c == '\u{a0}' || c == '\u{1680}' || c == '\u{2000}'
        || c == '\u{2001}' || c == '\u{2002}' || c == '\u{2003}' || c == '\u{2004}'
        || c == '\u{2005}' || c == '\u{2006}' || c == '\u{2007}' || c == '\u{2008}'
        || c == '\u{2009}' || c == '\u{200a}' || c == '\u{2028}' || c == '\u{2029}'
        || c == '\u{202f}' || c == '\u{205f}' || c == '\u{3000}'
}

/// Whether `c` opens (and closes) a quoted span.
pub open spec fn spec_is_quote(c: char) -> bool {
    c == '\'' || c == '"'
}

/// Whether `c` is one of the two quote characters.
pub fn is_quote(c: char) -> (r: bool)
    ensures
        r == spec_is_quote(c),
{
    c == '\'' || c == '"'
}

/// The characters stripped from both ends of a parameter value.
pub open spec fn spec_is_trimmed_char(c: char) -> bool {
    spec_is_space(c) || spec_is_quote(c)
}

/// Whether `c` is removed from the ends of a parameter value.
pub fn is_trimmed_char(c: char) -> (r: bool)
    ensures
        r == spec_is_trimmed_char(c),
{
    is_space(c) || is_quote(c)
}

/// `s` with whitespace and quote characters removed from both ends.
pub open spec fn spec_trim(s: Seq<char>) -> Seq<char>
    decreases s.len(),
{
    if s.len() == 0 {
        s
    } else if spec_is_trimmed_char(s[0]) {
        spec_trim(s.drop_first())
    } else if spec_is_trimmed_char(s[s.len() - 1]) {
        spec_trim(s.drop_last())
    } else {
        s
    }
}

/// Trimming a value whose ends are already clean changes nothing.
pub proof fn lemma_trim_clean(s: Seq<char>)
    requires
        s.len() == 0 || (!spec_is_trimmed_char(s[0]) && !spec_is_trimmed_char(s[s.len() - 1])),
    ensures
        spec_trim(s) == s,
{
}

/// A copy of a list of strings, text for text.
pub(crate) fn clone_strings(v: &Vec<String>) -> (r: Vec<String>)
    ensures
        r@.len() == v@.len(),
        forall|i: int| 0 <= i < v@.len() ==> r@[i]@ == v@[i]@,
{
    let mut r: Vec<String> = Vec::new();
    let mut i: usize = 0;
    while i < v.len()
        invariant
            i <= v@.len(),
            r@.len() == i,
            forall|j: int| 0 <= j < i ==> r@[j]@ == v@[j]@,
        decreases v@.len() - i,
    {
        r.push(v[i].clone());
        i += 1;
    }
    r
}

/// The characters of `s`, in order.
pub fn str_chars(s: &str) -> (r: Vec<char>)
    ensures
        r@ == s@,
{
    let n = s.unicode_len();
    let mut r: Vec<char> = Vec::new();
    let mut i: usize = 0;
    while i < n
        invariant
            n == s@.len(),
            i <= n,
            r@.len() == i,
            forall|j: int| 0 <= j < i ==> r@[j] == s@[j],
        decreases n - i,
    {
        r.push(s.get_char(i));
        i += 1;
    }
    proof {
        assert(r@ =~= s@);
    }
    r
}

/// The string holding exactly the characters of `cs`.
pub fn chars_string(cs: &[char]) -> (r: String)
    ensures
        r@ == cs@,
{
    let mut r = String::new();
    let mut i: usize = 0;
    while i < cs.len()
        invariant
            i <= cs@.len(),
            r@ == cs@.subrange(0, i as int),
        decreases cs@.len() - i,
    {
        r.push(cs[i]);
        proof {
            assert(cs@.subrange(0, i as int).push(cs@[i as int]) =~= cs@.subrange(0, i + 1));
        }
        i += 1;
    }
    proof {
        assert(cs@.subrange(0, cs@.len() as int) =~= cs@);
    }
    r
}

/// `cs` with whitespace and quote characters removed from both ends.
pub fn trim_chars(cs: &Vec<char>) -> (r: Vec<char>)
    ensures
        r@ == spec_trim(cs@),
{
    let mut lo: usize = 0;
    let mut hi: usize = cs.len();
    proof {
        assert(cs@.subrange(0, cs@.len() as int) =~= cs@);
    }
    while lo < hi && is_trimmed_char(cs[lo])
        invariant
            lo <= hi <= cs@.len(),
            spec_trim(cs@) == spec_trim(cs@.subrange(lo as int, hi as int)),
        decreases hi - lo,
    {
        proof {
            lemma_trim_drop_first(cs@.subrange(lo as int, hi as int));
            assert(cs@.subrange(lo as int, hi as int).drop_first() =~= cs@.subrange(
                lo + 1,
                hi as int,
            ));
        }
        lo += 1;
    }
    while lo < hi && is_trimmed_char(cs[hi - 1])
        invariant
            lo <= hi <= cs@.len(),
            spec_trim(cs@) == spec_trim(cs@.subrange(lo as int, hi as int)),
            lo < hi ==> !spec_is_trimmed_char(cs@[lo as int]),
        decreases hi - lo,
    {
        proof {
            lemma_trim_drop_last(cs@.subrange(lo as int, hi as int));
            assert(cs@.subrange(lo as int, hi as int).drop_last() =~= cs@.subrange(
                lo as int,
                hi - 1,
            ));
        }
        hi -= 1;
    }
    let mut r: Vec<char> = Vec::new();
    let mut i: usize = lo;
    while i < hi
        invariant
            lo <= i <= hi <= cs@.len(),
            r@ == cs@.subrange(lo as int, i as int),
        decreases hi - i,
    {
        r.push(cs[i]);
        proof {
            assert(cs@.subrange(lo as int, i as int).push(cs@[i as int]) =~= cs@.subrange(
                lo as int,
                i + 1,
            ));
        }
        i += 1;
    }
    proof {
        let rest = cs@.subrange(lo as int, hi as int);
        if rest.len() == 0 || (!spec_is_trimmed_char(rest[0]) && !spec_is_trimmed_char(
            rest[rest.len() - 1],
        )) {
            lemma_trim_clean(rest);
        } else {
            assert(rest.len() > 0 && !spec_is_trimmed_char(rest[0]));
        }
    }
    r
}

/// Trimming starts by dropping a leading trim character.
proof fn lemma_trim_drop_first(s: Seq<char>)
    requires
        s.len() > 0,
        spec_is_trimmed_char(s[0]),
    ensures
        spec_trim(s) == spec_trim(s.drop_first()),
{
}

/// With a clean head, trimming drops a trailing trim character.
proof fn lemma_trim_drop_last(s: Seq<char>)
    requires
        s.len() > 0,
        !spec_is_trimmed_char(s[0]),
        spec_is_trimmed_char(s[s.len() - 1]),
    ensures
        spec_trim(s) == spec_trim(s.drop_last()),
{
    assert(s.len() > 1);
}

} // verus!
