use vstd::prelude::*;
use crate::error::Error;
use crate::fspath::{
    bytes_eq, contains_bytes, copy_bytes, encoded_name, encoded_name_vec, ends_with,
    ends_with_bytes, has_sub, out_marker, out_marker_vec, qif_suffix, qif_suffix_vec,
    version_name, version_name_vec, FsPath,
};
use crate::locate::{find_qif, paths_view, qif_ref_spec};

verus! {

/// One test input: an encoded file and, when discovery found one, its
/// plaintext reference, resolved once and immutable afterwards.
pub struct EncodedFile {
    pub file: FsPath,
    pub qif: Option<FsPath>,
}

/// A directory of encoded results for one implementation under test:
/// the directory's path, and the label taken from its parent's name.
pub struct ImplEncodedDir(pub FsPath, pub Vec<u8>);

/// What the filesystem reports a path to be; the caller asks it and
/// passes the answer in.
pub enum NodeKind {
    File,
    Dir,
    Other,
}

/// One directory entry the caller enumerated: its path, and whether
/// it is a plain file.
pub struct DirEntry {
    pub path: FsPath,
    pub is_file: bool,
}

/// What kind of test input a path names.
pub enum InputType {
    /// A single encoded file, paired with its located reference.
    EncodedFile(EncodedFile),
    /// A directory of encoded results matching the fixed convention.
    ImplEncodedDir(ImplEncodedDir),
    /// A plaintext reference file.
    QifFile,
    /// None of the above.
    Unknown,
}

/// The view of an optional path.
pub open spec fn opt_path_view(o: Option<FsPath>) -> Option<Seq<Seq<u8>>> {
    match o {
        Some(p) => Some(p@),
        None => None,
    }
}

/// The reference attached to an encoded file: the located one, or
/// none when the lookup failed or found nothing.
pub open spec fn qif_of(p: Seq<Seq<u8>>, dirs: Seq<Seq<Seq<u8>>>) -> Option<Seq<Seq<u8>>> {
    if p.len() == 0 {
        None
    } else {
        qif_ref_spec(p, dirs)
    }
}

/// True when a directory path matches the fixed two-level results
/// convention: its parent named "qpack-05" under a grandparent named
/// "encoded".
pub open spec fn encoded_dir_spec(p: Seq<Seq<u8>>) -> bool {
    p.len() >= 3 && p[p.len() - 2] == version_name() && p[p.len() - 3] == encoded_name()
}

/// The view of one built `EncodedFile`.
pub open spec fn encoded_file_view(f: EncodedFile) -> (Seq<Seq<u8>>, Option<Seq<Seq<u8>>>) {
    (f.file@, opt_path_view(f.qif))
}

/// The encoded files that a directory's entries yield: one per plain
/// file, in order, each with its own reference lookup.
pub open spec fn files_of(entries: Seq<DirEntry>, dirs: Seq<Seq<Seq<u8>>>) -> Seq<
    (Seq<Seq<u8>>, Option<Seq<Seq<u8>>>),
>
    decreases entries.len(),
{
    if entries.len() == 0 {
        Seq::empty()
    } else {
        let rest = files_of(entries.drop_last(), dirs);
        if entries.last().is_file {
            rest + seq![(entries.last().path@, qif_of(entries.last().path@, dirs))]
        } else {
            rest
        }
    }
}

fn is_encoded_dir(path: &FsPath) -> (r: bool)
    ensures
        r == encoded_dir_spec(path@),
{
    let n: usize = path.parts.len();
    if n < 3 {
        return false;
    }
    let version = version_name_vec();
    let encoded = encoded_name_vec();
    let parent_hit = bytes_eq(&path.parts[n - 2], &version);
    let grand_hit = bytes_eq(&path.parts[n - 3], &encoded);
    proof {
        assert(path@[n - 2] == path.parts@[n - 2]@);
        assert(path@[n - 3] == path.parts@[n - 3]@);
    }
    parent_hit && grand_hit
}

impl ImplEncodedDir {
    /// Builds one `EncodedFile` per plain-file entry of the
    /// directory, in order, each resolving its own reference; entries
    /// that are not plain files are skipped. The caller enumerates
    /// the directory and passes its entries in.
    pub fn iter(&self, entries: &Vec<DirEntry>, qifs_parents: &Vec<FsPath>) -> (r: Vec<
        EncodedFile,
    >)
        ensures
            r@.map_values(|f: EncodedFile| encoded_file_view(f)) == files_of(
                entries@,
                paths_view(qifs_parents@),
            ),
    {
        let ghost dirs = paths_view(qifs_parents@);
        let mut r: Vec<EncodedFile> = Vec::new();
        let mut i: usize = 0;
        proof {
            assert(entries@.take(0) =~= Seq::<DirEntry>::empty());
            assert(r@.map_values(|f: EncodedFile| encoded_file_view(f)) =~= files_of(
                entries@.take(0),
                dirs,
            ));
        }
        while i < entries.len()
            invariant
                i <= entries@.len(),
                dirs == paths_view(qifs_parents@),
                r@.map_values(|f: EncodedFile| encoded_file_view(f)) == files_of(
                    entries@.take(i as int),
                    dirs,
                ),
            decreases entries@.len() - i,
        {
            let ghost before = r@.map_values(|f: EncodedFile| encoded_file_view(f));
            if entries[i].is_file {
                let qif = match find_qif(&entries[i].path, qifs_parents) {
                    Ok(q) => q,
                    Err(_) => None,
                };
                let f = EncodedFile { file: entries[i].path.duplicate(), qif };
                proof {
                    assert(encoded_file_view(f) == (
                        entries@[i as int].path@,
                        qif_of(entries@[i as int].path@, dirs),
                    ));
                }
                r.push(f);
                proof {
                    assert(r@.map_values(|g: EncodedFile| encoded_file_view(g)) =~= before.push(
                        encoded_file_view(f),
                    ));
                }
            }
            proof {
                assert(entries@.take(i + 1).drop_last() =~= entries@.take(i as int));
                assert(entries@.take(i + 1).last() == entries@[i as int]);
                assert(r@.map_values(|g: EncodedFile| encoded_file_view(g)) =~= files_of(
                    entries@.take(i + 1),
                    dirs,
                ));
            }
            i = i + 1;
        }
        proof {
            assert(entries@.take(entries@.len() as int) =~= entries@);
        }
        r
    }
}

impl InputType {
    /// Classifies a path as one of the input kinds: an encoded file
    /// (its name holds ".out"), a reference file (its name ends in
    /// ".qif"), an encoded results directory (the fixed two-level
    /// convention), or unknown. `kind` is what the filesystem reports
    /// the path to be, and `qifs_parents` the directories known to
    /// hold a "qifs" child (see `find_qif`).
    pub fn what_is(path: &FsPath, kind: NodeKind, qifs_parents: &Vec<FsPath>) -> (r: Result<
        InputType,
        Error,
    >)
        ensures
            ({
                let p = path@;
                let dirs = paths_view(qifs_parents@);
                match kind {
                    NodeKind::File => {
                        if p.len() == 0 {
                            r matches Err(Error::BadFilename)
                        } else if has_sub(p.last(), out_marker()) {
                            &&& r matches Ok(InputType::EncodedFile(f)) && f.file@ == p
                                && opt_path_view(f.qif) == qif_of(p, dirs)
                        } else if ends_with(p.last(), qif_suffix()) {
                            r matches Ok(InputType::QifFile)
                        } else {
                            r matches Ok(InputType::Unknown)
                        }
                    },
                    NodeKind::Dir => {
                        if encoded_dir_spec(p) {
                            &&& r matches Ok(InputType::ImplEncodedDir(d)) && d.0@ == p && d.1@
                                == p[p.len() - 2]
                        } else {
                            r matches Ok(InputType::Unknown)
                        }
                    },
                    NodeKind::Other => r matches Ok(InputType::Unknown),
                }
            }),
    {
        match kind {
            NodeKind::File => {
                let marked = {
                    let name = match path.file_name() {
                        None => {
                            return Err(Error::BadFilename);
                        },
                        Some(n) => n,
                    };
                    let marker = out_marker_vec();
                    contains_bytes(name, &marker)
                };
                if marked {
                    let qif = match find_qif(path, qifs_parents) {
                        Ok(q) => q,
                        Err(_) => None,
                    };
                    Ok(InputType::EncodedFile(EncodedFile { file: path.duplicate(), qif }))
                } else {
                    let name = match path.file_name() {
                        None => {
                            return Err(Error::BadFilename);
                        },
                        Some(n) => n,
                    };
                    let suffix = qif_suffix_vec();
                    if ends_with_bytes(name, &suffix) {
                        Ok(InputType::QifFile)
                    } else {
                        Ok(InputType::Unknown)
                    }
                }
            },
            NodeKind::Dir => {
                if is_encoded_dir(path) {
                    let n: usize = path.parts.len();
                    let label = copy_bytes(&path.parts[n - 2]);
                    proof {
                        assert(path@[n - 2] == path.parts@[n - 2]@);
                    }
                    Ok(InputType::ImplEncodedDir(ImplEncodedDir(path.duplicate(), label)))
                } else {
                    Ok(InputType::Unknown)
                }
            },
            NodeKind::Other => Ok(InputType::Unknown),
        }
    }
}

} // verus!
