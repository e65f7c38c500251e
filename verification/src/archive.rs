//! Packing the transformed files into a zip archive held in memory.

use vstd::prelude::*;
use std::io::Cursor;
use std::io::Write;
use zip::write::FileOptions;
use zip::ZipWriter;

use crate::transform::{file_models, ZippableFile};

verus! {

/// A zip writer over an in-memory buffer. Verus refuses a declaration of
/// `ZipWriter<W>`, whose parameter is bound by `std::io::Write + std::io::Seek`,
/// so the writer is held here, out of Verus's sight, and described by the
/// entries it holds.
#[verifier::external_body]
pub struct ArchiveWriter {
    writer: ZipWriter<Cursor<Vec<u8>>>,
}

/// Why the archive could not be written.
#[derive(Debug, Clone, Copy, PartialEq, Eq)]
pub enum ArchiveError {
    /// The zip writer refused an entry or could not finish the archive.
    Zip,
    /// Writing an entry's bytes failed.
    Write,
}

/// The entries, name and bytes, that `writer` holds so far.
pub uninterp spec fn zip_entries(writer: ArchiveWriter) -> Seq<(Seq<char>, Seq<u8>)>;

/// The bytes of the archive that `ZipWriter::finish` produces for
/// `entries`, each written with the default file options.
pub uninterp spec fn zip_archive(entries: Seq<(Seq<char>, Seq<u8>)>) -> Seq<u8>;

/// The most bytes of content an entry is written with for sure: 2 GiB.
/// The writer refuses an entry whose content, before or after deflate, is
/// above 4 GiB without the large-file option; deflate as written here grows
/// a block that would expand into a stored block with at most 5 bytes of
/// overhead, so content of at most 2 GiB stays well within that limit.
pub open spec fn max_entry_bytes() -> nat {
    0x8000_0000
}

/// Every entry's content is at most `max_entry_bytes`.
pub open spec fn entries_fit(entries: Seq<(Seq<char>, Seq<u8>)>) -> bool {
    forall|i: int| 0 <= i < entries.len() ==> #[trigger] entries[i].1.len() <= max_entry_bytes()
}

/// `ZipWriter::new` over an empty in-memory buffer: a writer with no entries.
#[verifier::external_body]
fn zip_writer_new() -> (r: ArchiveWriter)
    ensures
        zip_entries(r) == Seq::<(Seq<char>, Seq<u8>)>::empty(),
{
    ArchiveWriter { writer: ZipWriter::new(Cursor::new(Vec::new())) }
}

/// `ZipWriter::start_file` with the default options: on success the writer
/// holds one more entry, named `name` and empty so far. Starting an entry
/// first finishes the one before, which fails only when that entry is too
/// large; writing to the in-memory buffer does not fail. So it succeeds when
/// every entry fits. On failure nothing is claimed of the writer.
#[verifier::external_body]
fn zip_start_file(writer: &mut ArchiveWriter, name: &str) -> (r: Result<
    (),
    ArchiveError,
>)
    ensures
        entries_fit(zip_entries(*old(writer))) ==> r is Ok,
        r is Ok ==> zip_entries(*final(writer)) == zip_entries(*old(writer)).push(
            (name@, Seq::<u8>::empty()),
        ),
{
    match writer.writer.start_file(name, FileOptions::default()) {
        Ok(()) => Ok(()),
        Err(_) => Err(ArchiveError::Zip),
    }
}

/// `std::io::Write::write_all` on the writer: on success `data` is appended
/// to the entry that was started last. The writer refuses only content above
/// 4 GiB, so it succeeds when the entry stays within `max_entry_bytes`. On
/// failure nothing is claimed of the writer.
#[verifier::external_body]
fn zip_write_all(writer: &mut ArchiveWriter, data: &[u8]) -> (r: Result<
    (),
    ArchiveError,
>)
    requires
        zip_entries(*old(writer)).len() > 0,
    ensures
        zip_entries(*old(writer)).last().1.len() + data@.len() <= max_entry_bytes() ==> r is Ok,
        r is Ok ==> {
            let before = zip_entries(*old(writer));
            let last = before.last();
            zip_entries(*final(writer)) == before.drop_last().push((last.0, last.1 + data@))
        },
{
    match writer.writer.write_all(data) {
        Ok(()) => Ok(()),
        Err(_) => Err(ArchiveError::Write),
    }
}

/// `ZipWriter::finish`, then the bytes of the in-memory buffer: the archive
/// of the entries the writer holds. Finishing fails only when the last entry
/// is too large, so it succeeds when every entry fits.
#[verifier::external_body]
fn zip_finish(writer: ArchiveWriter) -> (r: Result<Vec<u8>, ArchiveError>)
    ensures
        entries_fit(zip_entries(writer)) ==> r is Ok,
        r matches Ok(bytes) ==> bytes@ == zip_archive(zip_entries(writer)),
{
    let mut writer = writer.writer;
    match writer.finish() {
        Ok(cursor) => Ok(cursor.into_inner()),
        Err(_) => Err(ArchiveError::Zip),
    }
}

/// A zip archive holding `files`, in order, each under its name. It is
/// made whenever every file's content is at most `max_entry_bytes`.
pub fn create_zip(files: &[ZippableFile]) -> (r: Result<Vec<u8>, ArchiveError>)
    ensures
        entries_fit(file_models(files@)) ==> r is Ok,
        r matches Ok(bytes) ==> bytes@ == zip_archive(file_models(files@)),
{
    let mut writer = zip_writer_new();
    let mut i: usize = 0;
    assert(file_models(files@.take(0)) =~= Seq::empty());
    while i < files.len()
        invariant
            i <= files@.len(),
            zip_entries(writer) == file_models(files@.take(i as int)),
            entries_fit(file_models(files@)) ==> entries_fit(zip_entries(writer)),
        decreases files@.len() - i,
    {
        let file = &files[i];
        zip_start_file(&mut writer, file.name.as_str())?;
        proof {
            if entries_fit(file_models(files@)) {
                assert(file_models(files@)[i as int].1.len() <= max_entry_bytes());
            }
        }
        zip_write_all(&mut writer, file.content.as_slice())?;
        i = i + 1;
        assert(file_models(files@.take(i as int)) =~= file_models(files@.take(i - 1)).push(
            (file.name@, Seq::<u8>::empty() + file.content@),
        ));
    }
    assert(files@.take(files@.len() as int) =~= files@);
    zip_finish(writer)
}

} // verus!
