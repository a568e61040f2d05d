//! Character-exact string comparison helpers used by the router and the
//! header filter: byte-for-byte equality and ASCII-case-insensitive equality.

use vstd::prelude::*;

verus! {

/// The unicode scalar of `c` with an ASCII upper-case letter folded to its
/// lower-case counterpart; any other character is left as it is.
pub open spec fn lower_scalar(c: char) -> u32 {
    if 65 <= c as u32 && c as u32 <= 90 {
        (c as u32 + 32) as u32
    } else {
        c as u32
    }
}

/// Two character sequences are equal up to ASCII case.
pub open spec fn eq_ignore_ascii_case(a: Seq<char>, b: Seq<char>) -> bool {
    &&& a.len() == b.len()
    &&& forall|i: int| 0 <= i < a.len() ==> lower_scalar(a[i]) == lower_scalar(b[i])
}

/// Byte-for-byte string equality (case-sensitive, no normalization).
pub fn str_eq(a: &str, b: &str) -> (r: bool)
    ensures
        r == (a@ == b@),
{
    let alen = a.unicode_len();
    let blen = b.unicode_len();
    if alen != blen {
        assert(a@ != b@) by {
            assert(a@.len() != b@.len());
        }
        return false;
    }
    let mut i: usize = 0;
    while i < alen
        invariant
            alen == a@.len(),
            alen == b@.len(),
            i <= alen,
            forall|j: int| 0 <= j < i ==> a@[j] == b@[j],
        decreases alen - i,
    {
        if a.get_char(i) != b.get_char(i) {
            return false;
        }
        i = i + 1;
    }
    proof {
        assert(a@ =~= b@);
    }
    true
}

/// ASCII-case-insensitive string equality, as the hop-by-hop header set
/// requires.
pub fn str_eq_ignore_ascii_case(a: &str, b: &str) -> (r: bool)
    ensures
        r == eq_ignore_ascii_case(a@, b@),
{
    let alen = a.unicode_len();
    let blen = b.unicode_len();
    if alen != blen {
        return false;
    }
    let mut i: usize = 0;
    while i < alen
        invariant
            alen == a@.len(),
            alen == b@.len(),
            i <= alen,
            forall|j: int| 0 <= j < i ==> lower_scalar(a@[j]) == lower_scalar(b@[j]),
        decreases alen - i,
    {
        let ca = a.get_char(i);
        let cb = b.get_char(i);
        let ua: u32 = ca as u32;
        let ub: u32 = cb as u32;
        let la: u32 = if 65 <= ua && ua <= 90 {
            ua + 32
        } else {
            ua
        };
        let lb: u32 = if 65 <= ub && ub <= 90 {
            ub + 32
        } else {
            ub
        };
        if la != lb {
            assert(lower_scalar(a@[i as int]) != lower_scalar(b@[i as int]));
            return false;
        }
        i = i + 1;
    }
    true
}

} // verus!
