//! Archives of files.

use vstd::prelude::*;
use vstd::utf8::encode_utf8;
use std::io::Write;

use crate::error::AppError;

verus! {

/// An archive that is being written: the writer of the archive library.
#[verifier::external_body]
pub struct ZipFile {
    writer: zip::ZipWriter<std::io::Cursor<Vec<u8>>>,
}

/// The names and contents of the files in an archive that is being written.
pub uninterp spec fn zip_entries(z: ZipFile) -> Seq<(Seq<char>, Seq<u8>)>;

/// The names and contents of the files in the bytes of an archive.
pub uninterp spec fn archived(bytes: Seq<u8>) -> Seq<(Seq<char>, Seq<u8>)>;

/// `zip::ZipWriter::new`: an archive without files.
#[verifier::external_body]
fn new_zip() -> (r: ZipFile)
    ensures
        zip_entries(r) == Seq::<(Seq<char>, Seq<u8>)>::empty(),
{
    ZipFile { writer: zip::ZipWriter::new(std::io::Cursor::new(Vec::new())) }
}

/// The longest name that a file in an archive can have, in bytes.
pub const NAME_LIMIT: usize = 0xFFFF;

/// The room that an archive surely has.
pub const ARCHIVE_LIMIT: usize = 0x7FFF_FFFF;

/// The room that is set aside for a file besides its contents: more than its two headers
/// and names, and what deflation can add, take up.
pub const FILE_OVERHEAD: usize = 0x4_0000;

/// The room that files are given in an archive.
pub open spec fn archive_room(v: Seq<(Seq<char>, Seq<u8>)>) -> int
    decreases v.len(),
{
    if v.len() == 0 {
        0
    } else {
        archive_room(v.drop_last()) + v.last().1.len() + FILE_OVERHEAD
    }
}

/// Whether a file of a name is among files.
pub open spec fn has_file(v: Seq<(Seq<char>, Seq<u8>)>, name: Seq<char>) -> bool {
    exists|i: int| 0 <= i < v.len() && (#[trigger] v[i]).0 == name
}

/// `ZipWriter::start_file` and `write_all`, compressed by deflation: where both succeed
/// the archive has one more file, after the others. A name that is there already is
/// refused; a new name is taken while the files, which are given more room each than the
/// format gives them, are within half of what its 32-bit sizes and offsets can count. Whether
/// more than that is taken is left unsaid. A name whose length does not fit in 16 bits would
/// not be refused but panic.
#[verifier::external_body]
fn add_to_zip(z: ZipFile, name: &str, data: &[u8]) -> (r: Result<ZipFile, String>)
    requires
        encode_utf8(name@).len() <= NAME_LIMIT,
    ensures
        r matches Ok(y) ==> zip_entries(y) == zip_entries(z).push((name@, data@)),
        has_file(zip_entries(z), name@) ==> r is Err,
        !has_file(zip_entries(z), name@) && archive_room(zip_entries(z).push((name@, data@)))
            <= ARCHIVE_LIMIT ==> r is Ok,
{
    let mut z = z;
    let options = zip::write::SimpleFileOptions::default().compression_method(
        zip::CompressionMethod::Deflated,
    );
    match z.writer.start_file(name, options) {
        Ok(()) => match z.writer.write_all(data) {
            Ok(()) => Ok(z),
            Err(e) => Err(e.to_string()),
        },
        Err(e) => Err(e.to_string()),
    }
}

/// `ZipWriter::finish`: the bytes of an archive of the files. It succeeds while the files
/// are within the room that an archive surely has; whether it does beyond is left unsaid.
#[verifier::external_body]
fn finish_zip(z: ZipFile) -> (r: Result<Vec<u8>, String>)
    ensures
        r matches Ok(b) ==> archived(b@) == zip_entries(z),
        archive_room(zip_entries(z)) <= ARCHIVE_LIMIT ==> r is Ok,
{
    match z.writer.finish() {
        Ok(c) => Ok(c.into_inner()),
        Err(e) => Err(e.to_string()),
    }
}

/// A file of an archive.
#[derive(Debug)]
pub struct ArchiveFile {
    pub name: String,
    pub data: Vec<u8>,
}

/// The files of an archive.
pub open spec fn file_entries(v: Seq<ArchiveFile>) -> Seq<(Seq<char>, Seq<u8>)> {
    v.map_values(|f: ArchiveFile| (f.name@, f.data@))
}

/// Whether the names of files can stand in one archive: none is too long, and none is
/// there twice.
pub open spec fn names_fit(v: Seq<(Seq<char>, Seq<u8>)>) -> bool {
    &&& forall|i: int| 0 <= i < v.len() ==> encode_utf8((#[trigger] v[i]).0).len() <= NAME_LIMIT
    &&& forall|i: int, j: int| 0 <= i < j < v.len() ==> (#[trigger] v[i]).0 != (#[trigger] v[j]).0
}

/// Whether an archive of files can surely be written.
pub open spec fn packable(v: Seq<(Seq<char>, Seq<u8>)>) -> bool {
    names_fit(v) && archive_room(v) <= ARCHIVE_LIMIT
}

proof fn lemma_room_grows(v: Seq<(Seq<char>, Seq<u8>)>, n: int)
    requires
        0 <= n <= v.len(),
    ensures
        0 <= archive_room(v.take(n)) <= archive_room(v),
    decreases v.len(),
{
    if v.len() == 0 {
        assert(v.take(n) =~= v);
    } else if n == v.len() {
        assert(v.take(n) =~= v);
        lemma_room_grows(v.drop_last(), n - 1);
    } else {
        lemma_room_grows(v.drop_last(), n);
        assert(v.drop_last().take(n) =~= v.take(n));
    }
}

/// The bytes of an archive of files, in their order. An archive that cannot be written
/// is an internal error: names that do not fit are, and files that fit are not.
pub fn pack_files(files: &Vec<ArchiveFile>) -> (r: Result<Vec<u8>, AppError>)
    ensures
        match r {
            Ok(b) => archived(b@) == file_entries(files@),
            Err(e) => e@ is Internal,
        },
        packable(file_entries(files@)) ==> r is Ok,
        !names_fit(file_entries(files@)) ==> r is Err,
{
    let mut z = new_zip();
    let ghost all = file_entries(files@);
    assert(zip_entries(z) =~= all.take(0));
    for i in 0..files.len()
        invariant
            all == file_entries(files@),
            zip_entries(z) == all.take(i as int),
            names_fit(all.take(i as int)),
    {
        let name = files[i].name.as_str();
        assert(all[i as int] == (files@[i as int].name@, files@[i as int].data@));
        if name.as_bytes().len() > NAME_LIMIT {
            return Err(AppError::Internal(String::from_str("File name too long")));
        }
        let ghost before = all.take(i as int);
        assert(all.take(i + 1) =~= before.push(all[i as int]));
        proof {
            lemma_room_grows(all, i + 1);
            if has_file(before, name@) {
                let k = choose|k: int| 0 <= k < before.len() && (#[trigger] before[k]).0 == name@;
                assert(all[k].0 == all[i as int].0);
            }
        }
        z = match add_to_zip(z, name, files[i].data.as_slice()) {
            Ok(y) => y,
            Err(m) => {
                return Err(AppError::Internal(m));
            },
        };
        assert(names_fit(all.take(i + 1))) by {
            let next = all.take(i + 1);
            assert forall|a: int, b: int| 0 <= a < b < next.len() implies (#[trigger] next[a]).0
                != (#[trigger] next[b]).0 by {
                assert(next[a] == before[a]);
                if b < i {
                    assert(next[b] == before[b]);
                }
            }
            assert forall|a: int| 0 <= a < next.len() implies encode_utf8((#[trigger] next[a]).0).len()
                <= NAME_LIMIT by {
                if a < i {
                    assert(next[a] == before[a]);
                }
            }
        }
    }
    assert(all.take(all.len() as int) =~= all);
    match finish_zip(z) {
        Ok(b) => Ok(b),
        Err(m) => Err(AppError::Internal(m)),
    }
}

} // verus!
