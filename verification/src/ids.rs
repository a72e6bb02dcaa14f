//! Fresh correlation identifiers: 128-bit random values drawn through the
//! uuid crate and checked pairwise distinct in verified code.
use vstd::prelude::*;

verus! {

/// Relies on uuid::Uuid::new_v4 and Uuid::as_u128. A fresh version-4
/// identifier is random, so nothing relates two draws; its version and
/// variant bits are always set by construction, so the value is never the nil
/// identifier.
#[verifier::external_body]
fn fresh_id() -> (r: u128)
    ensures
        r != 0,
{
    uuid::Uuid::new_v4().as_u128()
}

/// Whether the identifiers are pairwise distinct and none is nil.
pub open spec fn distinct_non_nil(v: Seq<u128>) -> bool {
    (forall|a: int, b: int| 0 <= a < b < v.len() ==> v[a] != v[b]) && (forall|k: int|
        0 <= k < v.len() ==> v[k] != 0)
}

/// Decide whether the identifiers are pairwise distinct and non-nil.
pub fn all_distinct_non_nil(v: &Vec<u128>) -> (r: bool)
    ensures
        r == distinct_non_nil(v@),
{
    let n: usize = v.len();
    let mut a: usize = 0;
    while a < n
        invariant
            a <= n,
            n == v@.len(),
            forall|x: int, y: int| 0 <= x < y < v@.len() && x < a ==> v@[x] != v@[y],
            forall|k: int| 0 <= k < a ==> v@[k] != 0,
        decreases n - a,
    {
        if v[a] == 0 {
            return false;
        }
        let mut b: usize = a + 1;
        while b < n
            invariant
                a < b <= n,
                n == v@.len(),
                forall|y: int| a < y < b ==> v@[a as int] != v@[y],
            decreases n - b,
        {
            if v[a] == v[b] {
                return false;
            }
            b = b + 1;
        }
        a = a + 1;
    }
    true
}

/// Draw `n` fresh identifiers and check them pairwise distinct and non-nil;
/// `None` only if two random draws ever collided.
pub fn fresh_distinct_ids(n: usize) -> (r: Option<Vec<u128>>)
    ensures
        match r {
            Some(v) => v@.len() == n && distinct_non_nil(v@),
            None => true,
        },
{
    let mut v: Vec<u128> = Vec::new();
    let mut i: usize = 0;
    while i < n
        invariant
            i == v@.len(),
            i <= n,
        decreases n - i,
    {
        v.push(fresh_id());
        i = i + 1;
    }
    if all_distinct_non_nil(&v) {
        Some(v)
    } else {
        None
    }
}

} // verus!
