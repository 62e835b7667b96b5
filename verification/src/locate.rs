use vstd::prelude::*;
use crate::error::Error;
use crate::fspath::{qif_suffix, qifs_name, qifs_name_vec, stem_bytes, stem_of, FsPath};

verus! {

// The test-vector locator: an encoded file's plaintext reference is
// `<ancestor>/qifs/<stem>.qif`, where `<ancestor>` is the nearest of
// the file's first four ancestor directories that has a direct child
// named "qifs". The caller gathers which directories have such a
// child and passes them in, so the search itself is pure.

/// The views of a list of paths.
pub open spec fn paths_view(dirs: Seq<FsPath>) -> Seq<Seq<Seq<u8>>> {
    dirs.map_values(|p: FsPath| p@)
}

/// True when `d` is one of the listed directories.
pub open spec fn dir_listed(dirs: Seq<Seq<Seq<u8>>>, d: Seq<Seq<u8>>) -> bool {
    exists|i: int| 0 <= i < dirs.len() && dirs[i] == d
}

/// The nearest-first search, started at ancestor depth `from`: the
/// smallest depth from there up to 4, no deeper than the path has
/// ancestors, whose ancestor is listed.
pub open spec fn hit_depth_from(p: Seq<Seq<u8>>, dirs: Seq<Seq<Seq<u8>>>, from: int) -> Option<
    int,
>
    decreases 5 - from,
{
    if from > 4 || from > p.len() {
        None
    } else if dir_listed(dirs, p.take(p.len() - from)) {
        Some(from)
    } else {
        hit_depth_from(p, dirs, from + 1)
    }
}

/// Where the reference directory for `p` stands: the nearest listed
/// ancestor within 4 levels, with "qifs" appended; `None` when no
/// ancestor in reach is listed.
pub open spec fn qif_dir_spec(p: Seq<Seq<u8>>, dirs: Seq<Seq<Seq<u8>>>) -> Option<Seq<Seq<u8>>> {
    match hit_depth_from(p, dirs, 1) {
        None => None,
        Some(k) => Some(p.take(p.len() - k).push(qifs_name())),
    }
}

/// The reference path for `p`: the found "qifs" directory joined with
/// the canonical stem of `p`'s file name plus ".qif".
pub open spec fn qif_ref_spec(p: Seq<Seq<u8>>, dirs: Seq<Seq<Seq<u8>>>) -> Option<Seq<Seq<u8>>> {
    match qif_dir_spec(p, dirs) {
        None => None,
        Some(d) => Some(d.push(stem_of(p.last()) + qif_suffix())),
    }
}

/// True exactly when `d` equals one of `dirs`.
pub fn dir_list_contains(dirs: &Vec<FsPath>, d: &FsPath) -> (r: bool)
    ensures
        r <==> dir_listed(paths_view(dirs@), d@),
{
    let mut i: usize = 0;
    while i < dirs.len()
        invariant
            i <= dirs@.len(),
            forall|j: int| 0 <= j < i ==> paths_view(dirs@)[j] != d@,
        decreases dirs@.len() - i,
    {
        let hit = dirs[i].path_eq(d);
        proof {
            assert(paths_view(dirs@)[i as int] == dirs@[i as int]@);
        }
        if hit {
            return true;
        }
        i = i + 1;
    }
    false
}

/// Walks up through at most 4 ancestor directories of `path`, nearest
/// first, and returns the first listed one with "qifs" appended. The
/// first hit wins: no further ancestor is consulted.
pub fn find_qif_dir(path: &FsPath, qifs_parents: &Vec<FsPath>) -> (r: Option<FsPath>)
    ensures
        match r {
            None => qif_dir_spec(path@, paths_view(qifs_parents@)) is None,
            Some(d) => qif_dir_spec(path@, paths_view(qifs_parents@)) == Some(d@),
        },
{
    let n: usize = path.parts.len();
    let mut k: usize = 1;
    while k <= 4 && k <= n
        invariant
            n == path@.len(),
            1 <= k <= 5,
            hit_depth_from(path@, paths_view(qifs_parents@), 1) == hit_depth_from(
                path@,
                paths_view(qifs_parents@),
                k as int,
            ),
        decreases 5 - k,
    {
        let anc = path.prefix(n - k);
        if dir_list_contains(qifs_parents, &anc) {
            let mut d = anc;
            d.push_part(qifs_name_vec());
            return Some(d);
        }
        k = k + 1;
    }
    None
}

/// Locates the plaintext reference for an encoded file: the file's
/// canonical stem plus ".qif" under the nearest ancestor's "qifs"
/// directory. A path with no file name is a `BadFilename` error; no
/// listed ancestor within 4 levels is `Ok(None)`, not an error.
pub fn find_qif(path: &FsPath, qifs_parents: &Vec<FsPath>) -> (r: Result<Option<FsPath>, Error>)
    ensures
        path@.len() == 0 ==> r matches Err(Error::BadFilename),
        path@.len() > 0 ==> match r {
            Ok(Some(q)) => qif_ref_spec(path@, paths_view(qifs_parents@)) == Some(q@),
            Ok(None) => qif_ref_spec(path@, paths_view(qifs_parents@)) is None,
            Err(_) => false,
        },
{
    let mut stem: Vec<u8> = match path.file_name() {
        None => {
            return Err(Error::BadFilename);
        },
        Some(n) => stem_bytes(n),
    };
    let ghost stem0 = stem@;
    stem.push(46u8);
    stem.push(113u8);
    stem.push(105u8);
    stem.push(102u8);
    proof {
        assert(stem@ =~= stem0 + qif_suffix());
    }
    match find_qif_dir(path, qifs_parents) {
        None => Ok(None),
        Some(d) => {
            let mut q = d;
            q.push_part(stem);
            Ok(Some(q))
        },
    }
}

} // verus!
