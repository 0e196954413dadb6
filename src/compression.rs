//! LZSS compression of dump payloads, through the `lzss` crate, with the
//! parameters that the device's dumper uses.

use crate::error::DumpError;
use vstd::prelude::*;

verus! {

/// The LZSS codec of dump payloads: 6 offset bits, 4 length bits, a dictionary
/// initially filled with spaces.
pub type DumpLzss = lzss::Lzss<6, 4, 0x20, 64, 128>;

/// Size of the buffer that a chunk is compressed in.
pub const COMPRESS_BUFFER_SIZE: usize = 1024;
/// Largest chunk that is compressed at once: half the buffer, less an eighth.
pub const CHUNK_SIZE: usize = 384;

/// What `DumpLzss` decompresses `input` to, in full.
pub uninterp spec fn lzss_expand(input: Seq<u8>) -> Seq<u8>;

/// What `DumpLzss::compress_in_place` leaves at the front of `io` when the input
/// starts at `offset`, or `None` when it runs out of room.
pub uninterp spec fn lzss_pack(io: Seq<u8>, offset: nat) -> Option<Seq<u8>>;

/// Relies on `lzss::Lzss::decompress_stack` writing through a `SliceWriter`: the
/// decompressed bytes come out one by one, and the writer fails once more than
/// `capacity` of them would be written; the reader never fails.
#[verifier::external_body]
fn lzss_decompress(input: &[u8], capacity: usize) -> (r: Option<Vec<u8>>)
    ensures
        match r {
            Some(v) => v@ == lzss_expand(input@) && v@.len() <= capacity,
            None => lzss_expand(input@).len() > capacity,
        },
{
    let mut out = vec![0u8; capacity];
    match DumpLzss::decompress_stack(lzss::SliceReader::new(input), lzss::SliceWriter::new(&mut out)) {
        Ok(n) => {
            out.truncate(n);
            Some(out)
        },
        Err(_) => None,
    }
}

/// Relies on `lzss::Lzss::compress_in_place`: with the input at `io[offset..]`,
/// `(n, None)` means that the compressed bytes are `io[..n]`, and `(n, Some(o))`
/// that room ran out, the input not yet compressed starting at `o`.
#[verifier::external_body]
fn lzss_compress_in_place(io: Vec<u8>, offset: usize) -> (r: Result<Vec<u8>, usize>)
    ensures
        match r {
            Ok(c) => lzss_pack(io@, offset as nat) == Some(c@),
            Err(_) => lzss_pack(io@, offset as nat) is None,
        },
{
    let mut io = io;
    let (n, rest) = DumpLzss::compress_in_place(&mut io, offset);
    match rest {
        None => {
            io.truncate(n);
            Ok(io)
        },
        Some(o) => Err(o),
    }
}

/// Decompresses `input`, which must expand to exactly `len` bytes; `None` if it
/// expands to anything else.
pub fn decompress_exact(input: &[u8], len: usize) -> (r: Option<Vec<u8>>)
    ensures
        match r {
            Some(v) => v@ == lzss_expand(input@) && v@.len() == len,
            None => lzss_expand(input@).len() != len,
        },
{
    match lzss_decompress(input, len) {
        Some(v) => {
            if v.len() == len {
                Some(v)
            } else {
                None
            }
        },
        None => None,
    }
}

/// The buffer that `chunk` is compressed in: zeros, then the chunk at its end.
pub open spec fn chunk_buffer(chunk: Seq<u8>) -> Seq<u8> {
    Seq::new((COMPRESS_BUFFER_SIZE - chunk.len()) as nat, |i: int| 0u8) + chunk
}

/// The outcome of compressing `chunk` and checking it, per the results that the
/// compressor and decompressor give.
pub open spec fn compress_checked_spec(chunk: Seq<u8>, address: u32) -> Result<Seq<u8>, DumpError> {
    match lzss_pack(chunk_buffer(chunk), (COMPRESS_BUFFER_SIZE - chunk.len()) as nat) {
        None => Err(DumpError::CompressionOverflow { address }),
        Some(c) => if lzss_expand(c) == chunk {
            Ok(c)
        } else {
            Err(DumpError::RoundTripMismatch { address })
        },
    }
}

/// Compresses a chunk of memory read at `address` as the dumper would, and
/// checks that it decompresses back to the same bytes. Returns the compressed
/// bytes.
pub fn compress_checked(chunk: &[u8], address: u32) -> (r: Result<Vec<u8>, DumpError>)
    requires
        chunk@.len() <= CHUNK_SIZE,
    ensures
        match r {
            Ok(c) => compress_checked_spec(chunk@, address) == Ok::<Seq<u8>, DumpError>(c@),
            Err(e) => compress_checked_spec(chunk@, address) == Err::<Seq<u8>, DumpError>(e),
        },
{
    let offs = COMPRESS_BUFFER_SIZE - chunk.len();
    let mut io: Vec<u8> = Vec::new();
    let mut i: usize = 0;
    while i < offs
        invariant
            i <= offs,
            io@ == Seq::new(i as nat, |j: int| 0u8),
        decreases offs - i,
    {
        io.push(0u8);
        i = i + 1;
        proof {
            assert(io@ =~= Seq::new(i as nat, |j: int| 0u8));
        }
    }
    let mut k: usize = 0;
    while k < chunk.len()
        invariant
            k <= chunk@.len(),
            offs == COMPRESS_BUFFER_SIZE - chunk@.len(),
            io@ == Seq::new(offs as nat, |j: int| 0u8) + chunk@.subrange(0, k as int),
        decreases chunk.len() - k,
    {
        io.push(chunk[k]);
        proof {
            assert(io@ =~= Seq::new(offs as nat, |j: int| 0u8) + chunk@.subrange(0, k + 1));
        }
        k = k + 1;
    }
    proof {
        assert(chunk@.subrange(0, chunk@.len() as int) =~= chunk@);
        assert(io@ == chunk_buffer(chunk@));
    }
    match lzss_compress_in_place(io, offs) {
        Err(_) => Err(DumpError::CompressionOverflow { address }),
        Ok(c) => {
            match decompress_exact(c.as_slice(), chunk.len()) {
                None => Err(DumpError::RoundTripMismatch { address }),
                Some(out) => {
                    if bytes_equal(out.as_slice(), chunk) {
                        Ok(c)
                    } else {
                        Err(DumpError::RoundTripMismatch { address })
                    }
                },
            }
        },
    }
}

/// Whether two byte strings are equal.
pub fn bytes_equal(a: &[u8], b: &[u8]) -> (r: bool)
    ensures
        r == (a@ == b@),
{
    if a.len() != b.len() {
        proof {
            assert(a@.len() != b@.len());
        }
        return false;
    }
    let mut i: usize = 0;
    while i < a.len()
        invariant
            a@.len() == b@.len(),
            i <= a@.len(),
            forall|j: int| 0 <= j < i ==> a@[j] == b@[j],
        decreases a.len() - i,
    {
        if a[i] != b[i] {
            return false;
        }
        i = i + 1;
    }
    proof {
        assert(a@ =~= b@);
    }
    true
}

} // verus!
