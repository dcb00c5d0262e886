//! Whole-stream compression behind a trailing flag byte: `0` means the bytes
//! before it are the raw stream, `1` that they are the stream compressed with
//! LZ4, its uncompressed size stored in front.

use vstd::prelude::*;
use vstd::slice::slice_to_vec;
use crate::error::ArchiveError;

verus! {

#[verifier::external_type_specification]
#[verifier::external_body]
pub struct ExDecompressError(lz4_flex::block::DecompressError);

/// What `lz4_flex::compress_prepend_size` makes of some bytes.
pub uninterp spec fn lz4_compressed(b: Seq<u8>) -> Seq<u8>;

/// What `lz4_flex::decompress_size_prepended` makes of some bytes: the
/// inflated bytes, or `None` where it reports an error.
pub uninterp spec fn lz4_decompressed(b: Seq<u8>) -> Option<Seq<u8>>;

/// The number of bytes of a run of 0xFF that the LZ4 decoder may sum into
/// its u32 length counter before it could overflow.
pub const FF_RUN_LIMIT: u64 = 0xFFFF_FFFF / 255;

/// The length of the run of 0xFF bytes that ends just before position `i`.
pub open spec fn ff_run_before(b: Seq<u8>, i: int) -> nat
    decreases i,
{
    if i <= 0 || i > b.len() {
        0
    } else if b[i - 1] == 0xFF {
        ff_run_before(b, i - 1) + 1
    } else {
        0
    }
}

/// No run of 0xFF bytes in `b` is `FF_RUN_LIMIT` long: every length that
/// the LZ4 decoder sums from `b` fits its u32 counter.
pub open spec fn ff_runs_short(b: Seq<u8>) -> bool {
    forall|i: int| 0 <= i <= b.len() ==> #[trigger] ff_run_before(b, i) < FF_RUN_LIMIT
}

/// Inflating `p` gives back every input of at most `u32::MAX` bytes that
/// LZ4 compresses to `p`.
pub open spec fn lz4_round_trips(p: Seq<u8>) -> bool {
    forall|x: Seq<u8>|
        x.len() <= u32::MAX && #[trigger] lz4_compressed(x) == p ==> lz4_decompressed(p) == Some(x)
}

/// Relies on lz4_flex::compress_prepend_size: LZ4 block compression with the
/// input length prepended; the result depends on the input bytes alone.
#[verifier::external_body]
fn lz4_compress(b: &[u8]) -> (r: Vec<u8>)
    ensures
        r@ == lz4_compressed(b@),
{
    lz4_flex::compress_prepend_size(b)
}

/// Relies on lz4_flex::decompress_size_prepended: what it returns depends on
/// the input alone, and it inverts compress_prepend_size on inputs whose
/// length fits the u32 size prefix. Its `read_integer` sums a run of 0xFF
/// bytes into a u32 and panics on overflow where overflow checks are on;
/// short runs keep that sum in range. The other sums it makes are in
/// `usize` and the output buffer it allocates holds at most `u32::MAX`
/// bytes, which stay in range on the 64-bit targets this library is built for.
#[verifier::external_body]
fn lz4_decompress(b: &[u8]) -> (r: Result<Vec<u8>, lz4_flex::block::DecompressError>)
    requires
        ff_runs_short(b@),
    ensures
        r is Ok <==> lz4_decompressed(b@) is Some,
        r matches Ok(v) ==> lz4_decompressed(b@) == Some(v@),
        forall|x: Seq<u8>| #[trigger] lz4_compressed(x) == b@ && x.len() <= u32::MAX ==> (r is Ok && r->Ok_0@ == x),
{
    lz4_flex::decompress_size_prepended(b)
}

/// The flag byte that marks a compressed or a raw stream.
pub open spec fn flag_of(compress: bool) -> u8 {
    if compress {
        1
    } else {
        0
    }
}

/// The artifact for `stream`: the stream, compressed or not, then the flag.
pub open spec fn wrapped(stream: Seq<u8>, compress: bool) -> Seq<u8> {
    if compress {
        lz4_compressed(stream).push(flag_of(compress))
    } else {
        stream.push(flag_of(compress))
    }
}

/// The view of an unwrap result.
pub open spec fn bytes_result(r: Result<Vec<u8>, ArchiveError>) -> Result<Seq<u8>, ArchiveError> {
    match r {
        Ok(v) => Ok(v@),
        Err(e) => Err(e),
    }
}

/// What unwrapping artifact `a` gives. The last byte alone decides: 1 means
/// the bytes before it are inflated; any other value means they are the raw
/// stream. A payload with a run of 0xFF too long for the decoder's counter
/// does not inflate.
pub open spec fn unwrapped(a: Seq<u8>) -> Result<Seq<u8>, ArchiveError> {
    if a.len() == 0 {
        Err(ArchiveError::TruncatedStream)
    } else if a.last() == 1 {
        if ff_runs_short(a.drop_last()) {
            match lz4_decompressed(a.drop_last()) {
                Some(s) => Ok(s),
                None => Err(ArchiveError::DecompressionError),
            }
        } else {
            Err(ArchiveError::DecompressionError)
        }
    } else {
        Ok(a.drop_last())
    }
}

/// An artifact marked compressed whose payload can be inflated: inflating
/// it gives back what LZ4 compressed into it.
pub open spec fn inflates_back(a: Seq<u8>) -> bool {
    a.len() > 0 && a.last() == 1 && ff_runs_short(a.drop_last()) ==> lz4_round_trips(a.drop_last())
}

/// Whether no run of 0xFF bytes in `b` reaches `FF_RUN_LIMIT`.
pub fn has_short_ff_runs(b: &[u8]) -> (r: bool)
    ensures
        r == ff_runs_short(b@),
{
    let mut run: u64 = 0;
    let mut i: usize = 0;
    while i < b.len()
        invariant
            i <= b@.len(),
            run == ff_run_before(b@, i as int),
            forall|j: int| 0 <= j <= i ==> #[trigger] ff_run_before(b@, j) < FF_RUN_LIMIT,
        decreases b@.len() - i,
    {
        if b[i] == 0xFF {
            run = run + 1;
            if run >= FF_RUN_LIMIT {
                assert(ff_run_before(b@, i + 1) >= FF_RUN_LIMIT);
                return false;
            }
        } else {
            run = 0;
        }
        i = i + 1;
    }
    true
}

/// Compresses `stream` if asked, and appends the flag byte.
pub fn wrap_stream(stream: Vec<u8>, compress: bool) -> (r: Vec<u8>)
    ensures
        r@ == wrapped(stream@, compress),
{
    if compress {
        let mut out = lz4_compress(stream.as_slice());
        out.push(1u8);
        out
    } else {
        let mut out = stream;
        out.push(0u8);
        out
    }
}

/// Takes the flag byte off an artifact and inflates what precedes it if the
/// flag asks for that.
pub fn unwrap_artifact(artifact: &[u8]) -> (r: Result<Vec<u8>, ArchiveError>)
    ensures
        bytes_result(r) == unwrapped(artifact@),
        inflates_back(artifact@),
{
    let n = artifact.len();
    if n == 0 {
        return Err(ArchiveError::TruncatedStream);
    }
    let flag = artifact[n - 1];
    let payload = &artifact[0..n - 1];
    assert(payload@ =~= artifact@.drop_last());
    if flag == 1 {
        if has_short_ff_runs(payload) {
            let r = lz4_decompress(payload);
            assert forall|x: Seq<u8>|
                x.len() <= u32::MAX && #[trigger] lz4_compressed(x) == payload@ implies lz4_decompressed(
                    payload@,
                ) == Some(x) by {
                assert(r is Ok && r->Ok_0@ == x);
            }
            match r {
                Ok(v) => Ok(v),
                Err(_) => Err(ArchiveError::DecompressionError),
            }
        } else {
            Err(ArchiveError::DecompressionError)
        }
    } else {
        Ok(slice_to_vec(payload))
    }
}

/// Unwrapping what wrapping made of a buffer gives the buffer back, with
/// compression or without. Compression needs the buffer to fit LZ4's u32
/// size prefix and its compressed form to hold no run of 0xFF bytes too long
/// for the decoder; the inflating is as `unwrap_artifact` finds it.
pub proof fn lemma_unwrap_inverts_wrap(stream: Seq<u8>, compress: bool)
    requires
        compress ==> stream.len() <= u32::MAX && ff_runs_short(lz4_compressed(stream)),
    ensures
        inflates_back(wrapped(stream, compress)) ==> unwrapped(wrapped(stream, compress)) == Ok::<
            Seq<u8>,
            ArchiveError,
        >(stream),
{
    let a = wrapped(stream, compress);
    if compress {
        assert(a.drop_last() =~= lz4_compressed(stream));
    } else {
        assert(a.drop_last() =~= stream);
    }
}

/// The last byte of an artifact is 1 when it was compressed and 0 when not;
/// unwrapping inflates exactly when the last byte is 1, and otherwise hands
/// back the bytes before it untouched.
pub proof fn lemma_flag_byte(stream: Seq<u8>, compress: bool, a: Seq<u8>)
    ensures
        wrapped(stream, compress).last() == flag_of(compress),
        flag_of(compress) == 0 || flag_of(compress) == 1,
        a.len() > 0 && a.last() != 1 ==> unwrapped(a) == Ok::<Seq<u8>, ArchiveError>(a.drop_last()),
        a.len() > 0 && a.last() == 1 && ff_runs_short(a.drop_last()) ==> unwrapped(a) == (match lz4_decompressed(a.drop_last()) {
            Some(s) => Ok::<Seq<u8>, ArchiveError>(s),
            None => Err(ArchiveError::DecompressionError),
        }),
{
}

} // verus!
