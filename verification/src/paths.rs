//! Path logic on byte strings: the last separator splits a path into its base
//! directory and file name, the extension is read from the file name, and the
//! supported image formats are recognised by extension, case-insensitively.

use vstd::prelude::*;
use crate::bytestr::{copy_bytes, views_of};

verus! {

/// Path separator byte, `/`.
pub const SEPARATOR: u8 = 47;

/// Extension separator byte, `.`.
pub const DOT: u8 = 46;

/// Index of the last occurrence of `c` in `s`, or `-1` when `s` has none.
pub open spec fn last_index_of(s: Seq<u8>, c: u8) -> int
    decreases s.len(),
{
    if s.len() == 0 {
        -1
    } else if s.last() == c {
        s.len() - 1
    } else {
        last_index_of(s.drop_last(), c)
    }
}

/// `last_index_of` names an index of `c` after which no `c` follows, and `-1`
/// exactly when `s` holds no `c`.
pub proof fn lemma_last_index_of(s: Seq<u8>, c: u8)
    ensures
        -1 <= last_index_of(s, c) < s.len(),
        last_index_of(s, c) >= 0 ==> s[last_index_of(s, c)] == c,
        forall|j: int| last_index_of(s, c) < j < s.len() ==> s[j] != c,
    decreases s.len(),
{
    if s.len() > 0 && s.last() != c {
        lemma_last_index_of(s.drop_last(), c);
        assert(forall|j: int| 0 <= j < s.len() - 1 ==> s[j] == s.drop_last()[j]);
    }
}

/// An index of `c` with no later occurrence is the last one.
proof fn lemma_last_index_of_at(s: Seq<u8>, c: u8, i: int)
    requires
        0 <= i < s.len(),
        s[i] == c,
        forall|j: int| i < j < s.len() ==> s[j] != c,
    ensures
        last_index_of(s, c) == i,
    decreases s.len(),
{
    if i < s.len() - 1 {
        assert(forall|j: int| 0 <= j < s.len() - 1 ==> s[j] == s.drop_last()[j]);
        lemma_last_index_of_at(s.drop_last(), c, i);
    }
}

/// When no byte of `s` is `c`, `last_index_of` is `-1`.
proof fn lemma_last_index_of_none(s: Seq<u8>, c: u8)
    requires
        forall|j: int| 0 <= j < s.len() ==> s[j] != c,
    ensures
        last_index_of(s, c) == -1,
    decreases s.len(),
{
    if s.len() > 0 {
        assert(forall|j: int| 0 <= j < s.len() - 1 ==> s[j] == s.drop_last()[j]);
        lemma_last_index_of_none(s.drop_last(), c);
    }
}

/// Index of the last occurrence of `c` in `v`, if any.
pub fn find_last(v: &Vec<u8>, c: u8) -> (r: Option<usize>)
    ensures
        match r {
            Some(i) => i == last_index_of(v@, c),
            None => last_index_of(v@, c) == -1,
        },
{
    let mut i = v.len();
    while i > 0
        invariant
            i <= v.len(),
            forall|j: int| i <= j < v@.len() ==> v@[j] != c,
        decreases i,
    {
        i = i - 1;
        if v[i] == c {
            proof {
                lemma_last_index_of_at(v@, c, i as int);
            }
            return Some(i);
        }
    }
    proof {
        lemma_last_index_of_none(v@, c);
    }
    None
}

/// The base directory of a path: everything before the last separator, or the
/// empty byte string when the path has no separator.
pub open spec fn base_dir_spec(s: Seq<u8>) -> Seq<u8> {
    let k = last_index_of(s, SEPARATOR);
    if k >= 0 {
        s.take(k)
    } else {
        Seq::empty()
    }
}

/// The file name of a path: everything after the last separator, or the whole
/// path when it has no separator.
pub open spec fn file_name_spec(s: Seq<u8>) -> Seq<u8> {
    s.skip(last_index_of(s, SEPARATOR) + 1)
}

/// The name of the directory that immediately contains the path's file: the
/// file name of the base directory. A path without a parent directory has
/// none.
pub open spec fn parent_dir_name_spec(s: Seq<u8>) -> Option<Seq<u8>> {
    let base = base_dir_spec(s);
    if base.len() > 0 {
        Some(file_name_spec(base))
    } else {
        None
    }
}

/// The extension of a path: everything after the last dot, provided that dot
/// lies in the file name and is not its first byte. Otherwise the path has no
/// extension.
pub open spec fn extension_spec(s: Seq<u8>) -> Option<Seq<u8>> {
    let k = last_index_of(s, SEPARATOR);
    let d = last_index_of(s, DOT);
    if d > k + 1 {
        Some(s.skip(d + 1))
    } else {
        None
    }
}

/// `s` with every ASCII upper-case letter lowered; other bytes are unchanged.
pub open spec fn ascii_lower(s: Seq<u8>) -> Seq<u8> {
    s.map_values(
        |b: u8|
            if 65 <= b <= 90 {
                (b + 32) as u8
            } else {
                b
            },
    )
}

/// Whether `e`, lowered, reads `jpg`, `jpeg`, `png` or `bmp`.
pub open spec fn supported_extension(e: Seq<u8>) -> bool {
    ||| ascii_lower(e) == seq![106u8, 112u8, 103u8]  // jpg
    ||| ascii_lower(e) == seq![106u8, 112u8, 101u8, 103u8]  // jpeg
    ||| ascii_lower(e) == seq![112u8, 110u8, 103u8]  // png
    ||| ascii_lower(e) == seq![98u8, 109u8, 112u8]  // bmp

}

/// Whether the path carries an extension of a supported image format.
pub open spec fn is_supported_image_spec(s: Seq<u8>) -> bool {
    match extension_spec(s) {
        Some(e) => supported_extension(e),
        None => false,
    }
}

/// The base directory of `path`: the prefix before the last separator, or
/// empty without one.
pub fn get_base_dir(path: &Vec<u8>) -> (r: Vec<u8>)
    ensures
        r@ == base_dir_spec(path@),
{
    proof {
        lemma_last_index_of(path@, SEPARATOR);
    }
    match find_last(path, SEPARATOR) {
        None => Vec::new(),
        Some(k) => {
            let mut r: Vec<u8> = Vec::new();
            let mut i: usize = 0;
            while i < k
                invariant
                    k < path@.len(),
                    i <= k,
                    r@ == path@.take(k as int).take(i as int),
                decreases k - i,
            {
                r.push(path[i]);
                proof {
                    assert(path@.take(k as int).take(i + 1 as int) =~= path@.take(k as int).take(
                        i as int,
                    ).push(path@[i as int]));
                }
                i = i + 1;
            }
            proof {
                assert(path@.take(k as int).take(k as int) =~= path@.take(k as int));
            }
            r
        },
    }
}

/// The suffix of `path` from byte `from` on.
fn suffix_from(path: &Vec<u8>, from: usize) -> (r: Vec<u8>)
    requires
        from <= path@.len(),
    ensures
        r@ == path@.skip(from as int),
{
    let mut r: Vec<u8> = Vec::new();
    let n = path.len();
    let mut i = from;
    while i < n
        invariant
            from <= i <= n,
            n == path@.len(),
            r@ == path@.skip(from as int).take(i - from),
        decreases n - i,
    {
        r.push(path[i]);
        proof {
            assert(path@.skip(from as int).take(i + 1 - from) =~= path@.skip(from as int).take(
                i - from,
            ).push(path@[i as int]));
        }
        i = i + 1;
    }
    proof {
        assert(path@.skip(from as int).take(n - from) =~= path@.skip(from as int));
    }
    r
}

/// The file name of `path`: the suffix after the last separator.
pub fn get_file_name(path: &Vec<u8>) -> (r: Vec<u8>)
    ensures
        r@ == file_name_spec(path@),
{
    proof {
        lemma_last_index_of(path@, SEPARATOR);
    }
    let n = path.len();
    match find_last(path, SEPARATOR) {
        None => suffix_from(path, 0),
        Some(k) => {
            assert(k < n);
            suffix_from(path, k + 1)
        },
    }
}

/// The name of the directory that immediately contains the path's file, when
/// the path has a parent directory.
pub fn extract_class(path: &Vec<u8>) -> (r: Option<Vec<u8>>)
    ensures
        match r {
            Some(label) => parent_dir_name_spec(path@) == Some(label@),
            None => parent_dir_name_spec(path@) is None,
        },
{
    let base = get_base_dir(path);
    if base.len() == 0 {
        None
    } else {
        Some(get_file_name(&base))
    }
}

/// `path` with the prefix `base_dir` and its separator removed; a path that
/// does not start with `base_dir` followed by a separator is returned whole,
/// as is any path when `base_dir` is empty.
pub open spec fn relative_spec(path: Seq<u8>, base_dir: Seq<u8>) -> Seq<u8> {
    if base_dir.len() == 0 {
        path
    } else if path.len() > base_dir.len() && path.take(base_dir.len() as int) == base_dir && path[
        base_dir.len() as int
    ] == SEPARATOR {
        path.skip(base_dir.len() as int + 1)
    } else {
        path
    }
}

/// The path relative to the scan root: the base directory of the path's label
/// directory, and its separator, stripped from the front, so that the result
/// reads as the path under the label directory.
pub open spec fn label_relative_spec(path: Seq<u8>) -> Seq<u8> {
    relative_spec(path, base_dir_spec(base_dir_spec(path)))
}

/// Strips `base_dir` and its separator from the front of `path`, returning
/// `path` unchanged when it does not lie under `base_dir`.
pub fn get_relative_filename(path: &Vec<u8>, base_dir: &Vec<u8>) -> (r: Vec<u8>)
    ensures
        r@ == relative_spec(path@, base_dir@),
{
    let bn = base_dir.len();
    if bn == 0 {
        return copy_bytes(path);
    }
    if path.len() <= bn {
        return copy_bytes(path);
    }
    if path[bn] != SEPARATOR {
        return copy_bytes(path);
    }
    let mut i: usize = 0;
    while i < bn
        invariant
            bn == base_dir@.len() < path@.len(),
            i <= bn,
            forall|j: int| 0 <= j < i ==> path@[j] == base_dir@[j],
        decreases bn - i,
    {
        if path[i] != base_dir[i] {
            assert(path@.take(bn as int) != base_dir@) by {
                assert(path@.take(bn as int)[i as int] != base_dir@[i as int]);
            }
            return copy_bytes(path);
        }
        i = i + 1;
    }
    proof {
        assert(path@.take(bn as int) =~= base_dir@);
    }
    suffix_from(path, bn + 1)
}

/// Whether the path carries a supported image extension (`jpg`, `jpeg`, `png`
/// or `bmp`, matched case-insensitively).
pub fn is_supported_image(path: &Vec<u8>) -> (r: bool)
    ensures
        r == is_supported_image_spec(path@),
{
    proof {
        lemma_last_index_of(path@, SEPARATOR);
        lemma_last_index_of(path@, DOT);
    }
    let n = path.len();
    let k: Option<usize> = find_last(path, SEPARATOR);
    let d: Option<usize> = find_last(path, DOT);
    match d {
        None => false,
        Some(di) => {
            assert(di < n);
            let in_name = match k {
                None => di > 0,
                Some(ki) => {
                    assert(ki < n);
                    di > ki + 1
                },
            };
            if !in_name {
                false
            } else {
                let ext = suffix_from(path, di + 1);
                supported_extension_exec(&ext)
            }
        },
    }
}

/// Lowers every ASCII upper-case letter of `e`.
fn to_ascii_lower(e: &Vec<u8>) -> (r: Vec<u8>)
    ensures
        r@ == ascii_lower(e@),
{
    let mut r: Vec<u8> = Vec::new();
    let n = e.len();
    let mut i: usize = 0;
    while i < n
        invariant
            n == e@.len(),
            i <= n,
            r@ == ascii_lower(e@.take(i as int)),
        decreases n - i,
    {
        let b = e[i];
        if 65 <= b && b <= 90 {
            r.push(b + 32);
        } else {
            r.push(b);
        }
        proof {
            assert(ascii_lower(e@.take(i + 1 as int)) =~= ascii_lower(e@.take(i as int)).push(
                if 65 <= e@[i as int] <= 90 {
                    (e@[i as int] + 32) as u8
                } else {
                    e@[i as int]
                },
            ));
        }
        i = i + 1;
    }
    proof {
        assert(ascii_lower(e@.take(n as int)) =~= ascii_lower(e@));
    }
    r
}

/// Whether `e` names a supported image format, case-insensitively.
fn supported_extension_exec(e: &Vec<u8>) -> (r: bool)
    ensures
        r == supported_extension(e@),
{
    let l = to_ascii_lower(e);
    let r = if l.len() == 3 {
        (l[0] == 106 && l[1] == 112 && l[2] == 103) || (l[0] == 112 && l[1] == 110 && l[2] == 103)
            || (l[0] == 98 && l[1] == 109 && l[2] == 112)
    } else if l.len() == 4 {
        l[0] == 106 && l[1] == 112 && l[2] == 101 && l[3] == 103
    } else {
        false
    };
    proof {
        if r {
            if l@.len() == 3 {
                assert(l@ =~= seq![l@[0], l@[1], l@[2]]);
            } else {
                assert(l@ =~= seq![l@[0], l@[1], l@[2], l@[3]]);
            }
        } else {
            assert(ascii_lower(e@) != seq![106u8, 112u8, 103u8] && ascii_lower(e@) != seq![
                106u8,
                112u8,
                101u8,
                103u8,
            ] && ascii_lower(e@) != seq![112u8, 110u8, 103u8] && ascii_lower(e@) != seq![
                98u8,
                109u8,
                112u8,
            ]) by {
                if l@.len() == 3 {
                    assert(l@ =~= seq![l@[0], l@[1], l@[2]]);
                } else if l@.len() == 4 {
                    assert(l@ =~= seq![l@[0], l@[1], l@[2], l@[3]]);
                }
            }
        }
    }
    r
}

/// The supported image files among `files`, in order.
pub open spec fn supported_of(files: Seq<Seq<u8>>) -> Seq<Seq<u8>>
    decreases files.len(),
{
    if files.len() == 0 {
        Seq::empty()
    } else {
        let prefix = supported_of(files.drop_last());
        if is_supported_image_spec(files.last()) {
            prefix.push(files.last())
        } else {
            prefix
        }
    }
}

/// Keeps exactly the paths with a supported image extension, in order.
pub fn supported_images(files: Vec<Vec<u8>>) -> (r: Vec<Vec<u8>>)
    ensures
        views_of(r@) == supported_of(views_of(files@)),
{
    let mut r: Vec<Vec<u8>> = Vec::new();
    let n = files.len();
    let mut i: usize = 0;
    while i < n
        invariant
            n == files@.len(),
            i <= n,
            views_of(r@) == supported_of(views_of(files@).take(i as int)),
        decreases n - i,
    {
        let keep = is_supported_image(&files[i]);
        if keep {
            let f = copy_bytes(&files[i]);
            r.push(f);
        }
        proof {
            assert(views_of(files@).take(i + 1 as int).drop_last() =~= views_of(files@).take(
                i as int,
            ));
            assert(views_of(files@).take(i + 1 as int).last() == files@[i as int]@);
            if keep {
                assert(views_of(r@) =~= supported_of(views_of(files@).take(i as int)).push(
                    files@[i as int]@,
                ));
            }
        }
        i = i + 1;
    }
    proof {
        assert(views_of(files@).take(n as int) =~= views_of(files@));
    }
    r
}

} // verus!
