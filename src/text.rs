//! Character-level helpers on domain names.

use vstd::prelude::*;

verus! {

/// `p` is a prefix of `s`.
pub open spec fn has_prefix(s: Seq<char>, p: Seq<char>) -> bool {
    p.len() <= s.len() && s.subrange(0, p.len() as int) == p
}

/// The escape sequence a zone listing uses for a literal `*` in a name.
pub open spec fn wildcard_escape() -> Seq<char> {
    seq!['\\', '0', '5', '2']
}

/// `s` with every escaped wildcard, read left to right without overlap,
/// turned back into `*`.
pub open spec fn unescaped(s: Seq<char>) -> Seq<char>
    decreases s.len(),
{
    if s.len() == 0 {
        Seq::empty()
    } else if has_prefix(s, wildcard_escape()) {
        seq!['*'] + unescaped(s.skip(4))
    } else {
        seq![s[0]] + unescaped(s.skip(1))
    }
}

/// Whether `s` starts with `p`.
pub fn starts_with(s: &str, p: &str) -> (r: bool)
    ensures
        r == has_prefix(s@, p@),
{
    let n = s.unicode_len();
    let m = p.unicode_len();
    if m > n {
        return false;
    }
    let mut i: usize = 0;
    while i < m
        invariant
            m <= n,
            n == s@.len(),
            m == p@.len(),
            i <= m,
            forall|j: int| 0 <= j < i ==> s@[j] == p@[j],
        decreases m - i,
    {
        if s.get_char(i) != p.get_char(i) {
            assert(s@.subrange(0, m as int)[i as int] != p@[i as int]);
            return false;
        }
        i += 1;
    }
    assert(s@.subrange(0, m as int) =~= p@);
    true
}

/// Whether the escaped wildcard starts at position `i` of `s`.
fn escape_at(s: &str, n: usize, i: usize) -> (r: bool)
    requires
        n == s@.len(),
        i <= n,
    ensures
        r == has_prefix(s@.skip(i as int), wildcard_escape()),
{
    if n - i < 4 {
        return false;
    }
    let r = s.get_char(i) == '\\' && s.get_char(i + 1) == '0' && s.get_char(i + 2) == '5'
        && s.get_char(i + 3) == '2';
    assert(r == (s@.skip(i as int).subrange(0, 4) =~= wildcard_escape()));
    r
}

/// A name from a zone listing with its escaped wildcards turned back into `*`.
pub fn unescape_wildcards(name: &str) -> (r: String)
    ensures
        r@ == unescaped(name@),
{
    let n = name.unicode_len();
    let mut out = String::new();
    let mut i: usize = 0;
    proof {
        assert(name@.skip(0) =~= name@);
    }
    while i < n
        invariant
            n == name@.len(),
            i <= n,
            out@ + unescaped(name@.skip(i as int)) == unescaped(name@),
        decreases n - i,
    {
        let ghost rest = name@.skip(i as int);
        let ghost before = out@;
        if escape_at(name, n, i) {
            out.append("*");
            proof {
                reveal_strlit("*");
            }
            assert("*"@ =~= seq!['*']);
            assert(unescaped(rest) == seq!['*'] + unescaped(rest.skip(4)));
            assert(rest.skip(4) =~= name@.skip(i + 4));
            assert(out@ + unescaped(name@.skip(i + 4)) =~= unescaped(name@));
            i += 4;
        } else {
            let c = name.substring_char(i, i + 1);
            out.append(c);
            assert(c@ =~= seq![rest[0]]);
            assert(unescaped(rest) == seq![rest[0]] + unescaped(rest.skip(1)));
            assert(rest.skip(1) =~= name@.skip(i + 1));
            assert(out@ + unescaped(name@.skip(i + 1)) =~= unescaped(name@));
            i += 1;
        }
    }
    assert(out@ + Seq::<char>::empty() =~= out@);
    out
}

} // verus!
