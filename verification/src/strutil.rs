use vstd::prelude::*;
use vstd::string::*;

verus! {

/// Character-for-character equality of two string slices.
pub fn str_eq(a: &str, b: &str) -> (r: bool)
    ensures
        r == (a@ == b@),
{
    let alen = a.unicode_len();
    let blen = b.unicode_len();
    if alen != blen {
        return false;
    }
    let mut i: usize = 0;
    while i < alen
        invariant
            alen == a@.len(),
            blen == b@.len(),
            alen == blen,
            i <= alen,
            forall|j: int| 0 <= j < i ==> a@[j] == b@[j],
        decreases alen - i,
    {
        if a.get_char(i) != b.get_char(i) {
            return false;
        }
        i += 1;
    }
    proof {
        assert(a@ =~= b@);
    }
    true
}

/// Whether `p` is a prefix of `s`, character by character.
pub fn str_is_prefix(p: &str, s: &str) -> (r: bool)
    ensures
        r == p@.is_prefix_of(s@),
{
    let plen = p.unicode_len();
    let slen = s.unicode_len();
    if plen > slen {
        return false;
    }
    let mut i: usize = 0;
    while i < plen
        invariant
            plen == p@.len(),
            slen == s@.len(),
            plen <= slen,
            i <= plen,
            forall|j: int| 0 <= j < i ==> p@[j] == s@[j],
        decreases plen - i,
    {
        if p.get_char(i) != s.get_char(i) {
            proof {
                if p@.is_prefix_of(s@) {
                    assert(p@[i as int] == s@.subrange(0, p@.len() as int)[i as int]);
                }
            }
            return false;
        }
        i += 1;
    }
    proof {
        assert(p@ =~= s@.subrange(0, p@.len() as int));
    }
    true
}

/// Concatenation of two string slices into an owned string.
pub fn str_concat(a: &str, b: &str) -> (r: String)
    ensures
        r@ == a@ + b@,
{
    let mut r = a.to_owned();
    r.append(b);
    r
}

/// There is exactly one colon character in `s`.
pub open spec fn exactly_one_colon(s: Seq<char>) -> bool {
    exists|i: int|
        0 <= i < s.len() && s[i] == ':' && (forall|j: int|
            0 <= j < s.len() && s[j] == ':' ==> j == i)
}

/// Position of the sole colon in `s`, or `None` when `s` does not hold
/// exactly one colon.
pub fn find_sole_colon(s: &str) -> (r: Option<usize>)
    ensures
        match r {
            Some(i) => i < s@.len() && s@[i as int] == ':' && (forall|j: int|
                0 <= j < s@.len() && s@[j] == ':' ==> j == i as int),
            None => !exactly_one_colon(s@),
        },
{
    let len = s.unicode_len();
    let mut i: usize = 0;
    let mut first: Option<usize> = None;
    while i < len
        invariant
            len == s@.len(),
            i <= len,
            match first {
                Some(f) => f < i && s@[f as int] == ':' && (forall|j: int|
                    0 <= j < i && s@[j] == ':' ==> j == f as int),
                None => forall|j: int| 0 <= j < i ==> s@[j] != ':',
            },
        decreases len - i,
    {
        if s.get_char(i) == ':' {
            match first {
                Some(f) => {
                    proof {
                        if exactly_one_colon(s@) {
                            let w = choose|w: int|
                                0 <= w < s@.len() && s@[w] == ':' && (forall|j: int|
                                    0 <= j < s@.len() && s@[j] == ':' ==> j == w);
                            assert(f as int == w);
                            assert(i as int == w);
                        }
                    }
                    return None;
                },
                None => {
                    first = Some(i);
                },
            }
        }
        i += 1;
    }
    first
}

} // verus!
