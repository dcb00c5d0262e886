//! Records laid end to end: `[8-byte big-endian blob length][metadata blob][data]`,
//! and the parser that walks such a stream from the front.

use vstd::prelude::*;
use vstd::slice::slice_to_vec;
use vstd::utf8::encode_utf8;
use crate::bytes::{be_bytes, be_value, lemma_be_round_trip, u64_from_be, u64_to_be};
use crate::error::ArchiveError;
use crate::metadata::{
    decode_info,
    encode_info,
    info_blob,
    info_of_blob,
    lemma_info_round_trip,
    FileInfo,
};

verus! {

/// A file to archive, or one read back from an archive.
#[derive(Debug)]
pub struct FileRecord {
    pub name: String,
    pub data: Vec<u8>,
}

/// A record as a name and its bytes.
pub type Entry = (Seq<char>, Seq<u8>);

impl View for FileRecord {
    type V = Entry;

    open spec fn view(&self) -> Entry {
        (self.name@, self.data@)
    }
}

impl FileRecord {
    /// A record of `data` under `name`.
    pub fn new(name: String, data: Vec<u8>) -> (r: FileRecord)
        ensures
            r.name == name,
            r.data == data,
    {
        FileRecord { name, data }
    }
}

/// The entries that a sequence of records holds, in order.
pub open spec fn entries(rs: Seq<FileRecord>) -> Seq<Entry> {
    rs.map_values(|r: FileRecord| r@)
}

/// The view of a parse result.
pub open spec fn records_result(r: Result<Vec<FileRecord>, ArchiveError>) -> Result<Seq<Entry>, ArchiveError> {
    match r {
        Ok(v) => Ok(entries(v@)),
        Err(e) => Err(e),
    }
}

/// The metadata blob of an entry.
pub open spec fn entry_blob(e: Entry) -> Seq<u8> {
    info_blob(e.0, e.1.len() as u64)
}

/// The framed bytes of one entry.
pub open spec fn record_bytes(e: Entry) -> Seq<u8> {
    be_bytes(entry_blob(e).len() as u64) + entry_blob(e) + e.1
}

/// The framed bytes of entries, in order.
pub open spec fn stream_of(es: Seq<Entry>) -> Seq<u8>
    decreases es.len(),
{
    if es.len() == 0 {
        Seq::empty()
    } else {
        record_bytes(es[0]) + stream_of(es.drop_first())
    }
}

/// Every length that the framing of `e` writes fits in 64 bits.
pub open spec fn entry_fits(e: Entry) -> bool {
    &&& encode_utf8(e.0).len() + 16 <= u64::MAX
    &&& e.1.len() <= u64::MAX
}

/// Every entry's lengths fit in 64 bits.
pub open spec fn all_fit(es: Seq<Entry>) -> bool {
    forall|i: int| 0 <= i < es.len() ==> #[trigger] entry_fits(es[i])
}

/// `pre` followed by what `r` parsed, or the error of `r`.
pub open spec fn prepend(pre: Seq<Entry>, r: Result<Seq<Entry>, ArchiveError>) -> Result<Seq<Entry>, ArchiveError> {
    match r {
        Ok(t) => Ok(pre + t),
        Err(e) => Err(e),
    }
}

/// What parsing a stream yields: records are read off the front until the
/// stream is empty; a field that runs past the end is a truncation.
pub open spec fn parse_stream(b: Seq<u8>) -> Result<Seq<Entry>, ArchiveError>
    decreases b.len(),
{
    if b.len() == 0 {
        Ok(Seq::empty())
    } else if b.len() < 8 {
        Err(ArchiveError::TruncatedStream)
    } else {
        let len = be_value(b) as int;
        if b.len() - 8 < len {
            Err(ArchiveError::TruncatedStream)
        } else {
            match info_of_blob(b.subrange(8, 8 + len)) {
                None => Err(ArchiveError::MalformedMetadata),
                Some(info) => {
                    let start = 8 + len;
                    let end = start + info.1;
                    if b.len() < end {
                        Err(ArchiveError::TruncatedStream)
                    } else {
                        prepend(
                            seq![(info.0, b.subrange(start, end))],
                            parse_stream(b.subrange(end, b.len() as int)),
                        )
                    }
                },
            }
        }
    }
}

proof fn lemma_stream_push(es: Seq<Entry>, e: Entry)
    ensures
        stream_of(es.push(e)) == stream_of(es) + record_bytes(e),
    decreases es.len(),
{
    if es.len() == 0 {
        assert(es.push(e).drop_first() =~= Seq::<Entry>::empty());
        assert(stream_of(es.push(e).drop_first()) == Seq::<u8>::empty());
        assert(stream_of(es.push(e)) =~= record_bytes(e));
        assert(stream_of(es) + record_bytes(e) =~= record_bytes(e));
    } else {
        lemma_stream_push(es.drop_first(), e);
        assert(es.push(e).drop_first() =~= es.drop_first().push(e));
        assert(stream_of(es.push(e)) =~= stream_of(es) + record_bytes(e));
    }
}

/// Frames `records` in order into one stream.
pub fn encode_records(records: &[FileRecord]) -> (r: Vec<u8>)
    ensures
        r@ == stream_of(entries(records@)),
{
    let mut out: Vec<u8> = Vec::new();
    let mut i: usize = 0;
    while i < records.len()
        invariant
            i <= records@.len(),
            out@ == stream_of(entries(records@.take(i as int))),
        decreases records@.len() - i,
    {
        let rec = &records[i];
        let info = FileInfo { file_name: rec.name.clone(), data_len: rec.data.len() as u64 };
        let mut blob = encode_info(&info);
        let mut prefix = u64_to_be(blob.len() as u64);
        let mut data = slice_to_vec(rec.data.as_slice());
        proof {
            lemma_stream_push(entries(records@.take(i as int)), rec@);
            assert(entries(records@.take(i + 1)) =~= entries(records@.take(i as int)).push(rec@));
        }
        out.append(&mut prefix);
        out.append(&mut blob);
        out.append(&mut data);
        i = i + 1;
    }
    assert(records@.take(records@.len() as int) =~= records@);
    out
}

/// Parses a whole stream of records.
pub fn parse_records(stream: &[u8]) -> (r: Result<Vec<FileRecord>, ArchiveError>)
    ensures
        records_result(r) == parse_stream(stream@),
{
    let mut out: Vec<FileRecord> = Vec::new();
    let mut pos: usize = 0;
    proof {
        assert(stream@.subrange(0, stream@.len() as int) =~= stream@);
        match parse_stream(stream@) {
            Ok(t) => assert(entries(out@) + t =~= t),
            Err(_) => {},
        }
    }
    while pos < stream.len()
        invariant
            pos <= stream@.len(),
            parse_stream(stream@) == prepend(
                entries(out@),
                parse_stream(stream@.subrange(pos as int, stream@.len() as int)),
            ),
        decreases stream@.len() - pos,
    {
        let ghost rest = stream@.subrange(pos as int, stream@.len() as int);
        let remaining = stream.len() - pos;
        if remaining < 8 {
            return Err(ArchiveError::TruncatedStream);
        }
        let len = u64_from_be(stream, pos);
        assert(be_value(rest) == len);
        if len > (remaining - 8) as u64 {
            return Err(ArchiveError::TruncatedStream);
        }
        let start = pos + 8;
        let blob_end = start + len as usize;
        assert(rest.subrange(8, 8 + len) =~= stream@.subrange(start as int, blob_end as int));
        let info = match decode_info(&stream[start..blob_end]) {
            Ok(info) => info,
            Err(e) => {
                return Err(e);
            },
        };
        if info.data_len > (stream.len() - blob_end) as u64 {
            return Err(ArchiveError::TruncatedStream);
        }
        let end = blob_end + info.data_len as usize;
        let data = slice_to_vec(&stream[blob_end..end]);
        proof {
            assert(rest.subrange(8 + len, end - pos) =~= data@);
            assert(rest.subrange(end - pos, rest.len() as int) =~= stream@.subrange(
                end as int,
                stream@.len() as int,
            ));
        }
        let ghost before = out@;
        out.push(FileRecord { name: info.file_name, data });
        proof {
            assert(entries(out@) =~= entries(before) + seq![(info.file_name@, data@)]);
            let tail = parse_stream(stream@.subrange(end as int, stream@.len() as int));
            match tail {
                Ok(t) => {
                    assert(entries(before) + (seq![(info.file_name@, data@)] + t) =~= entries(out@) + t);
                },
                Err(_) => {},
            }
        }
        pos = end;
    }
    assert(stream@.subrange(pos as int, stream@.len() as int) =~= Seq::<u8>::empty());
    assert(entries(out@) + Seq::<Entry>::empty() =~= entries(out@));
    Ok(out)
}

/// Parsing complete records followed by anything parses those records and
/// then goes on with what follows.
#[verifier::rlimit(40)]
pub proof fn lemma_parse_prefix(es: Seq<Entry>, tail: Seq<u8>)
    requires
        all_fit(es),
    ensures
        parse_stream(stream_of(es) + tail) == prepend(es, parse_stream(tail)),
    decreases es.len(),
{
    if es.len() == 0 {
        assert(stream_of(es) + tail =~= tail);
        match parse_stream(tail) {
            Ok(t) => assert(es + t =~= t),
            Err(_) => {},
        }
    } else {
        let e = es[0];
        let rest_es = es.drop_first();
        assert forall|i: int| 0 <= i < rest_es.len() implies #[trigger] entry_fits(rest_es[i]) by {
            assert(rest_es[i] == es[i + 1]);
            assert(entry_fits(es[i + 1]));
        }
        assert(entry_fits(es[0]));
        let mid = stream_of(rest_es) + tail;
        assert(stream_of(es) + tail =~= record_bytes(e) + mid);
        lemma_parse_prefix(rest_es, tail);
        lemma_one_record(e, mid);
        lemma_prepend_twice(e, rest_es, parse_stream(tail));
        assert(seq![e] + rest_es =~= es);
    }
}

proof fn lemma_prepend_twice(e: Entry, es: Seq<Entry>, r: Result<Seq<Entry>, ArchiveError>)
    ensures
        prepend(seq![e], prepend(es, r)) == prepend(seq![e] + es, r),
{
    match r {
        Ok(t) => assert(seq![e] + (es + t) =~= (seq![e] + es) + t),
        Err(_) => {},
    }
}

/// One framed record followed by `rest` parses as that record, then `rest`.
proof fn lemma_one_record(e: Entry, rest: Seq<u8>)
    requires
        entry_fits(e),
    ensures
        parse_stream(record_bytes(e) + rest) == prepend(seq![e], parse_stream(rest)),
{
    let blob = entry_blob(e);
    let n = blob.len() as int;
    let b = record_bytes(e) + rest;
    lemma_be_round_trip(n as u64);
    lemma_info_round_trip(e.0, e.1.len() as u64);
    assert(b.subrange(0, 8) =~= be_bytes(n as u64));
    assert(be_value(b) == be_value(b.subrange(0, 8)));
    assert(b.subrange(8, 8 + n) =~= blob);
    let end = 8 + n + e.1.len() as int;
    assert(b.subrange(8 + n, end) =~= e.1);
    assert(b.subrange(end, b.len() as int) =~= rest);
}

/// A part of one record, cut anywhere inside it, is a truncated stream.
proof fn lemma_partial_record(e: Entry, j: int)
    requires
        entry_fits(e),
        0 < j < record_bytes(e).len(),
    ensures
        parse_stream(record_bytes(e).take(j)) == Err::<Seq<Entry>, ArchiveError>(ArchiveError::TruncatedStream),
{
    let blob = entry_blob(e);
    let n = blob.len() as int;
    let b = record_bytes(e).take(j);
    assert(b.len() == j);
    if j >= 8 {
        lemma_be_round_trip(n as u64);
        assert(b.subrange(0, 8) =~= be_bytes(n as u64));
        assert(be_value(b) == be_value(b.subrange(0, 8)));
        assert(be_value(b) as int == n);
        if j >= 8 + n {
            lemma_info_round_trip(e.0, e.1.len() as u64);
            assert(b.subrange(8, 8 + n) =~= blob);
            assert(info_of_blob(b.subrange(8, 8 + n)) == Some((e.0, e.1.len() as u64)));
            assert(b.len() < 8 + n + e.1.len());
        }
    }
}

/// Encoding entries and parsing the stream gives back the same entries.
pub proof fn lemma_parse_inverts_encode(es: Seq<Entry>)
    requires
        all_fit(es),
    ensures
        parse_stream(stream_of(es)) == Ok::<Seq<Entry>, ArchiveError>(es),
{
    lemma_parse_prefix(es, Seq::empty());
    assert(stream_of(es) + Seq::<u8>::empty() =~= stream_of(es));
    assert(parse_stream(Seq::<u8>::empty()) == Ok::<Seq<Entry>, ArchiveError>(Seq::empty()));
    assert(es + Seq::<Entry>::empty() =~= es);
}

/// Records are parsed in the order in which they were framed: the i-th
/// record read back is the i-th record written.
pub proof fn lemma_records_in_order(es: Seq<Entry>, i: int)
    requires
        all_fit(es),
        0 <= i < es.len(),
    ensures
        parse_stream(stream_of(es)) matches Ok(out) && out.len() == es.len() && out[i] == es[i],
{
    lemma_parse_inverts_encode(es);
}

/// Complete records followed by a nonempty part of one more record, cut
/// before that record ends, fail as a truncated stream.
pub proof fn lemma_truncation_detected(es: Seq<Entry>, e: Entry, j: int)
    requires
        all_fit(es),
        entry_fits(e),
        0 < j < record_bytes(e).len(),
    ensures
        parse_stream(stream_of(es) + record_bytes(e).take(j)) == Err::<Seq<Entry>, ArchiveError>(
            ArchiveError::TruncatedStream,
        ),
{
    lemma_parse_prefix(es, record_bytes(e).take(j));
    lemma_partial_record(e, j);
}

} // verus!
