//! Packaging of folder bundles: the files enumerated under a bundle's root
//! are written into one in-memory tar archive, each under its path relative
//! to that root. The archive's byte format belongs to the `tar` crate; the
//! library only states that the bytes are a function of the entries written,
//! in order.

use vstd::prelude::*;
use crate::paths::{has_dir_prefix, relative_part_spec, relative_to_root};

verus! {

/// A bundle source could not be packaged: a file lay outside the bundle
/// root, or the archive writer failed.
#[derive(Debug)]
pub struct ArchiveError;

/// One file found under a bundle's root: its path as enumerated on disk,
/// and its contents.
pub struct BundleFile {
    pub path: String,
    pub data: Vec<u8>,
}

/// An in-memory archive writer; it wraps `tar::Builder` over a byte buffer.
#[verifier::external_body]
pub struct ArchiveWriter {
    inner: tar::Builder<Vec<u8>>,
}

/// The entries appended so far to an in-memory archive writer: each entry's
/// name and contents, in order of appending.
pub uninterp spec fn archived(b: ArchiveWriter) -> Seq<(Seq<char>, Seq<u8>)>;

/// The bytes of a finished archive, as a function of its entries alone.
pub uninterp spec fn archive_encoding(entries: Seq<(Seq<char>, Seq<u8>)>) -> Seq<u8>;

/// Relies on `tar::Builder::new`: a fresh writer holds no entries.
#[verifier::external_body]
fn archive_new() -> (b: ArchiveWriter)
    ensures
        archived(b) == Seq::<(Seq<char>, Seq<u8>)>::empty(),
{
    ArchiveWriter { inner: tar::Builder::new(Vec::new()) }
}

/// Relies on `tar::Builder::append_data`: on success one entry with the
/// given name and contents stands after those already appended. Writing
/// into an in-memory buffer, the call refuses only a bad entry name
/// (absolute, empty, a nul character, or a `.` or `..` segment), so a
/// clean name always goes through.
#[verifier::external_body]
fn archive_append(b: &mut ArchiveWriter, name: &str, data: &Vec<u8>) -> (r: Result<
    (),
    ArchiveError,
>)
    ensures
        r is Ok ==> archived(*final(b)) == archived(*old(b)).push((name@, data@)),
        entry_name_ok(name@) ==> r is Ok,
{
    let mut header = tar::Header::new_gnu();
    header.set_size(data.len() as u64);
    match b.inner.append_data(&mut header, name, data.as_slice()) {
        Ok(()) => Ok(()),
        Err(_) => Err(ArchiveError),
    }
}

/// Relies on `tar::Builder::into_inner`: finishing the archive yields bytes
/// that are a function of the entries appended, in order. Into an
/// in-memory buffer the finishing writes cannot fail.
#[verifier::external_body]
fn archive_finish(b: ArchiveWriter) -> (r: Result<Vec<u8>, ArchiveError>)
    ensures
        r is Ok,
        r matches Ok(bytes) ==> bytes@ == archive_encoding(archived(b)),
{
    match b.inner.into_inner() {
        Ok(buf) => Ok(buf),
        Err(_) => Err(ArchiveError),
    }
}

/// Every enumerated file lies strictly below the bundle root.
pub open spec fn bundle_under_root(root: Seq<char>, files: Seq<BundleFile>) -> bool {
    forall|i: int| 0 <= i < files.len() ==> has_dir_prefix(#[trigger] files[i].path@, root)
}

/// An entry name the archive writer is sure to take: non-empty, relative,
/// free of nul characters, and with no `.` or `..` segment.
pub open spec fn entry_name_ok(s: Seq<char>) -> bool {
    &&& s.len() > 0
    &&& s[0] != '/'
    &&& forall|i: int| 0 <= i < s.len() ==> (#[trigger] s[i]) as u32 != 0
    &&& forall|i: int, j: int|
        0 <= i <= j <= s.len() && (i == 0 || s[i - 1] == '/') && (j == s.len() || s[j] == '/')
            ==> !(#[trigger] s.subrange(i, j) == seq!['.'] || s.subrange(i, j) == seq!['.', '.'])
}

/// A bundle that is sure to package: every file lies below the root and
/// its relative path is an entry name the writer takes.
pub open spec fn bundle_clean(root: Seq<char>, files: Seq<BundleFile>) -> bool {
    &&& bundle_under_root(root, files)
    &&& forall|k: int|
        0 <= k < files.len() ==> entry_name_ok(
            #[trigger] relative_part_spec(files[k].path@, root),
        )
}

/// The archive entries a bundle gives rise to: for each enumerated file its
/// path relative to the bundle root, and its contents, in enumeration order.
pub open spec fn bundle_entries(root: Seq<char>, files: Seq<BundleFile>) -> Seq<
    (Seq<char>, Seq<u8>),
> {
    Seq::new(files.len(), |i: int| (relative_part_spec(files[i].path@, root), files[i].data@))
}

/// Package one folder bundle: write every enumerated file into a single
/// archive under its path relative to `root`. A file outside `root` fails
/// the bundle; so does an entry name the archive writer refuses; a clean
/// bundle always packages.
pub fn package_bundle(root: &str, files: &Vec<BundleFile>) -> (r: Result<Vec<u8>, ArchiveError>)
    ensures
        r is Ok ==> bundle_under_root(root@, files@) && r->Ok_0@ == archive_encoding(
            bundle_entries(root@, files@),
        ),
        !bundle_under_root(root@, files@) ==> r is Err,
        bundle_clean(root@, files@) ==> r is Ok,
{
    let mut b = archive_new();
    let mut i: usize = 0;
    while i < files.len()
        invariant
            i <= files@.len(),
            forall|j: int| 0 <= j < i ==> has_dir_prefix(#[trigger] files@[j].path@, root@),
            archived(b) == bundle_entries(root@, files@).take(i as int),
        decreases files@.len() - i,
    {
        match relative_to_root(root, files[i].path.as_str()) {
            None => {
                return Err(ArchiveError);
            },
            Some(rel) => {
                match archive_append(&mut b, rel.as_str(), &files[i].data) {
                    Ok(_) => {
                        proof {
                            assert(bundle_entries(root@, files@).take(i + 1) =~= bundle_entries(
                                root@,
                                files@,
                            ).take(i as int).push(
                                (relative_part_spec(files@[i as int].path@, root@), files@[i as int].data@),
                            ));
                        }
                    },
                    Err(e) => {
                        return Err(e);
                    },
                }
            },
        }
        i += 1;
    }
    proof {
        assert(bundle_entries(root@, files@).take(files@.len() as int) =~= bundle_entries(
            root@,
            files@,
        ));
    }
    archive_finish(b)
}

} // verus!
