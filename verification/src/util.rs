//! Utilities over collections of byte strings: intersection of two
//! collections, and detection of duplicated entries, as used to vet a
//! classification table whose raw labels should be unique across groups.

use vstd::prelude::*;
use crate::bytestr::{contains_bytes, copy_bytes, count_of, views_of};

verus! {

/// The elements of `a`, in order, that also occur in `b`.
pub open spec fn intersection_of(a: Seq<Seq<u8>>, b: Seq<Seq<u8>>) -> Seq<Seq<u8>>
    decreases a.len(),
{
    if a.len() == 0 {
        Seq::empty()
    } else {
        let prefix = intersection_of(a.drop_last(), b);
        if b.contains(a.last()) {
            prefix.push(a.last())
        } else {
            prefix
        }
    }
}

/// Keeps the elements of `a`, in order, that also occur in `b`.
pub fn find_intersection(a: &Vec<Vec<u8>>, b: &Vec<Vec<u8>>) -> (r: Vec<Vec<u8>>)
    ensures
        views_of(r@) == intersection_of(views_of(a@), views_of(b@)),
{
    let ghost av: Seq<Seq<u8>> = views_of(a@);
    let mut r: Vec<Vec<u8>> = Vec::new();
    let n = a.len();
    let mut i: usize = 0;
    proof {
        assert(views_of(r@) =~= intersection_of(av.take(0), views_of(b@)));
    }
    while i < n
        invariant
            n == a@.len(),
            i <= n,
            av == views_of(a@),
            views_of(r@) == intersection_of(av.take(i as int), views_of(b@)),
        decreases n - i,
    {
        proof {
            assert(av.take(i + 1).drop_last() =~= av.take(i as int));
            assert(av.take(i + 1).last() == a@[i as int]@);
        }
        if contains_bytes(b, &a[i]) {
            let ghost r_before = views_of(r@);
            let x = copy_bytes(&a[i]);
            r.push(x);
            proof {
                assert(views_of(r@) =~= r_before.push(a@[i as int]@));
            }
        }
        i = i + 1;
    }
    proof {
        assert(av.take(n as int) =~= av);
    }
    r
}

/// The duplicated elements among the first `n` of `s`: each element that
/// occurs more than once in all of `s`, kept at its first occurrence, in
/// order.
pub open spec fn duplicates_upto(s: Seq<Seq<u8>>, n: int) -> Seq<Seq<u8>>
    decreases n,
{
    if n <= 0 {
        Seq::empty()
    } else {
        let prefix = duplicates_upto(s, n - 1);
        if count_of(s, s[n - 1]) >= 2 && !prefix.contains(s[n - 1]) {
            prefix.push(s[n - 1])
        } else {
            prefix
        }
    }
}

/// The duplicated elements of `s`, each at its first occurrence, in order.
pub open spec fn duplicates_of(s: Seq<Seq<u8>>) -> Seq<Seq<u8>> {
    duplicates_upto(s, s.len() as int)
}

/// How many times `x` occurs among the byte strings of `v`.
pub fn count_bytes(v: &Vec<Vec<u8>>, x: &Vec<u8>) -> (c: usize)
    ensures
        c == count_of(views_of(v@), x@),
{
    let ghost vv: Seq<Seq<u8>> = views_of(v@);
    let mut c: usize = 0;
    let n = v.len();
    let mut i: usize = 0;
    proof {
        assert(count_of(vv.take(0), x@) == 0);
    }
    while i < n
        invariant
            n == v@.len(),
            i <= n,
            c <= i,
            vv == views_of(v@),
            c == count_of(vv.take(i as int), x@),
        decreases n - i,
    {
        proof {
            assert(vv.take(i + 1).drop_last() =~= vv.take(i as int));
            assert(vv.take(i + 1).last() == v@[i as int]@);
        }
        if crate::bytestr::bytes_eq(&v[i], x) {
            c = c + 1;
        }
        i = i + 1;
    }
    proof {
        assert(vv.take(n as int) =~= vv);
    }
    c
}

/// The entries of `v` that occur more than once, each reported once at its
/// first occurrence, in order; `None` when every entry is distinct.
pub fn has_duplicates(v: &Vec<Vec<u8>>) -> (r: Option<Vec<Vec<u8>>>)
    ensures
        match r {
            Some(d) => views_of(d@) == duplicates_of(views_of(v@)) && d@.len() > 0,
            None => duplicates_of(views_of(v@)).len() == 0,
        },
{
    let ghost vv: Seq<Seq<u8>> = views_of(v@);
    let mut dups: Vec<Vec<u8>> = Vec::new();
    let n = v.len();
    let mut i: usize = 0;
    proof {
        assert(views_of(dups@) =~= duplicates_upto(vv, 0));
    }
    while i < n
        invariant
            n == v@.len(),
            i <= n,
            vv == views_of(v@),
            views_of(dups@) == duplicates_upto(vv, i as int),
        decreases n - i,
    {
        let c = count_bytes(v, &v[i]);
        if c >= 2 && !contains_bytes(&dups, &v[i]) {
            let ghost dups_before = views_of(dups@);
            let x = copy_bytes(&v[i]);
            dups.push(x);
            proof {
                assert(views_of(dups@) =~= dups_before.push(vv[i as int]));
            }
        }
        proof {
            assert(vv[i as int] == v@[i as int]@);
        }
        i = i + 1;
    }
    if dups.len() == 0 {
        None
    } else {
        Some(dups)
    }
}

} // verus!
