//! The archive as a whole: records framed into one stream, then wrapped with
//! the compression flag; and the way back.

use vstd::prelude::*;
use crate::compression::{
    ff_runs_short,
    inflates_back,
    lemma_unwrap_inverts_wrap,
    lz4_compressed,
    unwrap_artifact,
    unwrapped,
    wrap_stream,
    wrapped,
};
use crate::error::ArchiveError;
use crate::framing::{
    all_fit,
    encode_records,
    entries,
    entry_fits,
    lemma_parse_inverts_encode,
    lemma_truncation_detected,
    parse_records,
    parse_stream,
    record_bytes,
    records_result,
    stream_of,
    Entry,
    FileRecord,
};

verus! {

/// What extracting artifact `a` gives: the records parsed from its
/// unwrapped stream, or the error that unwrapping gave.
pub open spec fn extracted(a: Seq<u8>) -> Result<Seq<Entry>, ArchiveError> {
    match unwrapped(a) {
        Ok(s) => parse_stream(s),
        Err(e) => Err(e),
    }
}

/// Builds the artifact for `records`, in their order, compressed if asked.
pub fn build_archive(records: &[FileRecord], compress: bool) -> (r: Vec<u8>)
    ensures
        r@ == wrapped(stream_of(entries(records@)), compress),
{
    let stream = encode_records(records);
    wrap_stream(stream, compress)
}

/// Reads back the records of an artifact, in the order in which they were
/// written.
pub fn extract_archive(artifact: &[u8]) -> (r: Result<Vec<FileRecord>, ArchiveError>)
    ensures
        records_result(r) == extracted(artifact@),
        inflates_back(artifact@),
{
    let stream = match unwrap_artifact(artifact) {
        Ok(s) => s,
        Err(e) => {
            return Err(e);
        },
    };
    parse_records(stream.as_slice())
}

/// Extracting the artifact built from some files gives back exactly those
/// files, names and contents, in order, with compression or without.
/// Compression needs the framed stream to fit LZ4's u32 size prefix and its
/// compressed form to hold no run of 0xFF bytes too long for the decoder.
pub proof fn lemma_extract_inverts_archive(es: Seq<Entry>, compress: bool)
    requires
        all_fit(es),
        compress ==> stream_of(es).len() <= u32::MAX && ff_runs_short(lz4_compressed(stream_of(es))),
    ensures
        inflates_back(wrapped(stream_of(es), compress)) ==> extracted(wrapped(stream_of(es), compress))
            == Ok::<Seq<Entry>, ArchiveError>(es),
{
    lemma_unwrap_inverts_wrap(stream_of(es), compress);
    lemma_parse_inverts_encode(es);
}

/// An artifact built from complete records followed by a nonempty part of
/// one more record, cut before that record ends, extracts to a truncation
/// error, compressed or not (under the conditions of
/// `lemma_extract_inverts_archive` on the cut stream).
pub proof fn lemma_truncated_artifact(es: Seq<Entry>, e: Entry, j: int, compress: bool)
    requires
        all_fit(es),
        entry_fits(e),
        0 < j < record_bytes(e).len(),
        compress ==> (stream_of(es) + record_bytes(e).take(j)).len() <= u32::MAX && ff_runs_short(
            lz4_compressed(stream_of(es) + record_bytes(e).take(j)),
        ),
    ensures
        inflates_back(wrapped(stream_of(es) + record_bytes(e).take(j), compress)) ==> extracted(
            wrapped(stream_of(es) + record_bytes(e).take(j), compress),
        ) == Err::<Seq<Entry>, ArchiveError>(ArchiveError::TruncatedStream),
{
    lemma_unwrap_inverts_wrap(stream_of(es) + record_bytes(e).take(j), compress);
    lemma_truncation_detected(es, e, j);
}

/// With no files, the uncompressed artifact is the flag byte alone, and it
/// extracts to no files without error.
pub proof fn lemma_empty_archive()
    ensures
        wrapped(stream_of(Seq::<Entry>::empty()), false) == seq![0u8],
        extracted(seq![0u8]) == Ok::<Seq<Entry>, ArchiveError>(Seq::empty()),
{
    let es = Seq::<Entry>::empty();
    assert(stream_of(es) == Seq::<u8>::empty());
    assert(wrapped(stream_of(es), false) =~= seq![0u8]);
    lemma_extract_inverts_archive(es, false);
}

} // verus!
