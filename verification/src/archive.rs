//! Packing a store directory into a package archive: a gzip-compressed tar
//! stream, built through the tar and flate2 crates.

use crate::errors::UhpmError;
use crate::installer::StoreFile;
use crate::text::contains_seq;
use crate::text::is_prefix;
use vstd::prelude::*;

verus! {

/// A tar stream under construction, compressed as it is written. The
/// builder types of tar and flate2 carry bounds Verus does not take in a
/// type declaration, so the pair lives behind this opaque holder.
#[verifier::external_body]
pub struct PackageWriter {
    inner: tar::Builder<flate2::write::GzEncoder<Vec<u8>>>,
}

/// A path tar's plain name field takes without error: printable ASCII
/// with no NUL, so its bytes are exactly its characters; short enough for
/// the hundred-byte field; relative; and free of parent-directory
/// components. A longer, non-ASCII or NUL-bearing path makes tar's
/// `set_path` fail, since the field holds the path's bytes.
pub open spec fn tar_name_ok(p: Seq<char>) -> bool {
    &&& 0 < p.len() <= 99
    &&& (forall|i: int|
        0 <= i < p.len() ==> ((#[trigger] p[i]) as u32 > 0 && (p[i] as u32) < 128))
    &&& p[0] != '/'
    &&& p != ".."@
    &&& !is_prefix(p, "../"@)
    &&& !contains_seq(p, "/../"@)
    &&& (p.len() < 3 || p.subrange(p.len() - 3, p.len() as int) != "/.."@)
}

/// What a package writer holds so far: each entry's path and bytes, in
/// order.
pub uninterp spec fn archive_entries(b: PackageWriter) -> Seq<(Seq<char>, Seq<u8>)>;

/// The finished archive of the given entries. Named only: the gzip and tar
/// encodings are the two crates' work.
pub uninterp spec fn packed_bytes(entries: Seq<(Seq<char>, Seq<u8>)>) -> Seq<u8>;

/// Relies on tar's Builder::new over flate2's write::GzEncoder: a fresh
/// writer holds no entries.
#[verifier::external_body]
fn new_package_writer() -> (b: PackageWriter)
    ensures
        archive_entries(b) == Seq::<(Seq<char>, Seq<u8>)>::empty(),
{
    PackageWriter {
        inner: tar::Builder::new(
            flate2::write::GzEncoder::new(Vec::new(), flate2::Compression::default()),
        ),
    }
}

/// Relies on tar's Header::set_path and Builder::append: on success the
/// archive has gained exactly this entry; a short ASCII relative path
/// without NUL bytes or parent components is always taken, and writing
/// into the in-memory buffer cannot fail.
#[verifier::external_body]
fn append_package_file(b: &mut PackageWriter, path: &String, data: &Vec<u8>) -> (r: Result<
    (),
    UhpmError,
>)
    ensures
        r is Ok ==> archive_entries(*final(b)) == archive_entries(*old(b)).push(
            (path@, data@),
        ),
        tar_name_ok(path@) ==> r is Ok,
{
    let mut header = tar::Header::new_gnu();
    if let Err(e) = header.set_path(path.as_str()) {
        return Err(UhpmError::SerializationError(e.to_string()));
    }
    header.set_size(data.len() as u64);
    header.set_cksum();
    match b.inner.append(&header, data.as_slice()) {
        Ok(()) => Ok(()),
        Err(e) => Err(UhpmError::SerializationError(e.to_string())),
    }
}

/// Relies on tar's Builder::into_inner and flate2's GzEncoder::finish:
/// the bytes are a function of the entries written, and finishing into
/// the in-memory buffer cannot fail.
#[verifier::external_body]
fn finish_package(b: PackageWriter) -> (r: Result<Vec<u8>, UhpmError>)
    ensures
        r matches Ok(v) ==> v@ == packed_bytes(archive_entries(b)),
        r is Ok,
{
    let encoder = match b.inner.into_inner() {
        Ok(e) => e,
        Err(e) => {
            return Err(UhpmError::SerializationError(e.to_string()));
        },
    };
    match encoder.finish() {
        Ok(v) => Ok(v),
        Err(e) => Err(UhpmError::SerializationError(e.to_string())),
    }
}

/// The views of a package's files, in order.
pub open spec fn file_views(files: Seq<StoreFile>) -> Seq<(Seq<char>, Seq<u8>)> {
    files.map_values(|f: StoreFile| (f.path@, f.data@))
}

/// Packs a package's files into a gzip-tar archive, in order. A set of
/// files whose paths the tar name field takes is always packed; a failure
/// means some path was refused.
pub fn pack_store_files(files: &Vec<StoreFile>) -> (r: Result<Vec<u8>, UhpmError>)
    ensures
        r matches Ok(v) ==> v@ == packed_bytes(file_views(files@)),
        (forall|k: int| 0 <= k < files@.len() ==> tar_name_ok((#[trigger] files@[k]).path@))
            ==> r is Ok,
        r matches Err(e) ==> (e matches UhpmError::SerializationError(_) && exists|k: int|
            0 <= k < files@.len() && !tar_name_ok((#[trigger] files@[k]).path@)),
{
    let mut writer = new_package_writer();
    let n = files.len();
    let mut i: usize = 0;
    proof {
        assert(files@.subrange(0, 0) =~= Seq::<StoreFile>::empty());
        assert(file_views(files@.subrange(0, 0)) =~= Seq::<(Seq<char>, Seq<u8>)>::empty());
    }
    while i < n
        invariant
            0 <= i <= n,
            n == files@.len(),
            archive_entries(writer) == file_views(files@.subrange(0, i as int)),
        decreases n - i,
    {
        match append_package_file(&mut writer, &files[i].path, &files[i].data) {
            Ok(()) => {},
            Err(_) => {
                proof {
                    assert(!tar_name_ok(files@[i as int].path@));
                }
                return Err(UhpmError::SerializationError(crate::text::str_to_string(
                    "could not add a file to the archive",
                )));
            },
        }
        proof {
            assert(file_views(files@.subrange(0, i + 1)) =~= file_views(
                files@.subrange(0, i as int),
            ).push((files@[i as int].path@, files@[i as int].data@)));
        }
        i = i + 1;
    }
    proof {
        assert(files@.subrange(0, n as int) =~= files@);
    }
    finish_package(writer)
}

} // verus!
