//! The chunked compression of a container's payload.
//!
//! A payload is cut into chunks of at most 0x8000 bytes. Each chunk is
//! compressed by itself and kept in whichever form is shorter. The stream
//! starts with a reserved 16-bit word and a 16-bit chunk count; a table with
//! the two sizes of each chunk follows, then the chunk bodies in order.

use crate::endian::{be_bytes_u16, be_u16, get_be_u16, overwrite, push_be_u16};
use crate::error::{bytes_result, Error};
use crate::zlib::{
    check_inflated, deflate, inflate_into, inflate_outcome, zlib_deflated, zlib_inflated,
    NON_WRAPPING_OUTPUT_BUF, PARSE_ZLIB_HEADER,
};
use vstd::prelude::*;
use vstd::slice::{slice_subrange, slice_to_vec};

verus! {

/// The largest chunk that [`compress`] makes.
pub const CHUNK_SIZE: usize = 0x8000;

/// The largest payload whose chunks can still be counted in 16 bits.
pub const MAX_PAYLOAD: usize = 0x7FFF_8000;

/// The effort that [`compress`] asks of the compressor: the highest of zlib.
pub const COMPRESSION_LEVEL: u8 = 9;

/// The value of the reserved word at the start of a chunked stream.
pub const RESERVED_WORD: u16 = 1;

/// One entry of the chunk table. A chunk whose two sizes are equal is stored
/// as it is; any other chunk is a zlib stream.
#[derive(Debug, Clone, Copy, PartialEq, Eq, Hash, Structural)]
pub struct Chunk {
    pub compressed_size: u16,
    pub decompressed_size: u16,
}

impl Chunk {
    /// Whether the chunk's body is the data itself.
    pub open spec fn spec_is_stored(self) -> bool {
        self.compressed_size == self.decompressed_size
    }

    /// Whether the chunk's body is the data itself.
    pub fn is_stored(&self) -> (stored: bool)
        ensures
            stored == self.spec_is_stored(),
    {
        self.compressed_size == self.decompressed_size
    }
}

/// The number of chunks that a payload of `len` bytes is cut into.
pub open spec fn chunk_count(len: nat) -> nat {
    (len + 0x7FFF) / 0x8000
}

/// The `i`-th chunk of `data`: 0x8000 bytes, or what is left for the last.
pub open spec fn chunk_of(data: Seq<u8>, i: int) -> Seq<u8> {
    data.subrange(
        i * 0x8000,
        if (i + 1) * 0x8000 <= data.len() {
            (i + 1) * 0x8000
        } else {
            data.len() as int
        },
    )
}

/// The body kept for a chunk: its compressed form when that is shorter than
/// the chunk, else the chunk itself.
pub open spec fn packed_body(raw: Seq<u8>, deflated: Seq<u8>) -> Seq<u8> {
    if deflated.len() < raw.len() {
        deflated
    } else {
        raw
    }
}

/// The table entry of a chunk whose body is [`packed_body`].
pub open spec fn packed_entry(raw: Seq<u8>, deflated: Seq<u8>) -> Chunk {
    Chunk {
        compressed_size: packed_body(raw, deflated).len() as u16,
        decompressed_size: raw.len() as u16,
    }
}

/// The chunk table that [`compress`] writes for `data`.
pub open spec fn chunk_entries(data: Seq<u8>) -> Seq<Chunk> {
    Seq::new(
        chunk_count(data.len()),
        |i: int| packed_entry(chunk_of(data, i), zlib_deflated(chunk_of(data, i), COMPRESSION_LEVEL)),
    )
}

/// The chunk bodies that [`compress`] writes for `data`.
pub open spec fn chunk_bodies(data: Seq<u8>) -> Seq<Seq<u8>> {
    Seq::new(
        chunk_count(data.len()),
        |i: int| packed_body(chunk_of(data, i), zlib_deflated(chunk_of(data, i), COMPRESSION_LEVEL)),
    )
}

/// The four bytes of a table entry.
pub open spec fn entry_bytes(chunk: Chunk) -> Seq<u8> {
    be_bytes_u16(chunk.compressed_size) + be_bytes_u16(chunk.decompressed_size)
}

/// The bytes of a chunk table, entry after entry.
pub open spec fn table_bytes(table: Seq<Chunk>) -> Seq<u8>
    decreases table.len(),
{
    if table.len() == 0 {
        Seq::empty()
    } else {
        table_bytes(table.drop_last()) + entry_bytes(table.last())
    }
}

/// The given pieces, one after the other.
pub open spec fn concat(parts: Seq<Seq<u8>>) -> Seq<u8>
    decreases parts.len(),
{
    if parts.len() == 0 {
        Seq::empty()
    } else {
        concat(parts.drop_last()) + parts.last()
    }
}

/// The chunked stream of `data`: reserved word, chunk count, table, bodies.
pub open spec fn chunked_stream(data: Seq<u8>) -> Seq<u8> {
    be_bytes_u16(RESERVED_WORD) + be_bytes_u16(chunk_count(data.len()) as u16) + table_bytes(
        chunk_entries(data),
    ) + concat(chunk_bodies(data))
}

/// What [`compress`] returns.
pub open spec fn spec_compress(data: Seq<u8>) -> Result<Seq<u8>, Error> {
    if data.len() > MAX_PAYLOAD {
        Err(Error::UnsupportedInput)
    } else {
        Ok(chunked_stream(data))
    }
}

/// What [`count_chunks`] returns.
pub open spec fn spec_count_chunks(len: nat) -> Result<u16, Error> {
    if len > MAX_PAYLOAD {
        Err(Error::UnsupportedInput)
    } else {
        Ok(chunk_count(len) as u16)
    }
}

/// Counts the chunks of a payload of `len` bytes: one for every 0x8000
/// bytes, and one more for what is left over.
///
/// Fails with [`Error::UnsupportedInput`] when there are more chunks than 16
/// bits can count.
pub fn count_chunks(len: usize) -> (r: Result<u16, Error>)
    ensures
        r == spec_count_chunks(len as nat),
{
    if len > MAX_PAYLOAD {
        return Err(Error::UnsupportedInput);
    }
    let mut count: usize = len / CHUNK_SIZE;
    if len % CHUNK_SIZE != 0 {
        count = count + 1;
    }
    Ok(count as u16)
}

/// Chooses the form in which a chunk is kept, given the chunk and its
/// compressed form: the compressed form if it is shorter, else the chunk
/// itself, marked as stored by two equal sizes.
pub fn pack_chunk(raw: &[u8], deflated: Vec<u8>) -> (r: (Chunk, Vec<u8>))
    requires
        raw@.len() <= 0xFFFF,
    ensures
        r.0 == packed_entry(raw@, deflated@),
        r.1@ == packed_body(raw@, deflated@),
{
    if deflated.len() < raw.len() {
        (Chunk { compressed_size: deflated.len() as u16, decompressed_size: raw.len() as u16 }, deflated)
    } else {
        (
            Chunk { compressed_size: raw.len() as u16, decompressed_size: raw.len() as u16 },
            slice_to_vec(raw),
        )
    }
}

/// Compresses a payload into a chunked stream.
///
/// Every chunk but the last holds 0x8000 bytes of the payload. Each is
/// compressed at the highest level and stored as it is when compression does
/// not make it shorter. Fails with [`Error::UnsupportedInput`] when the
/// payload has more chunks than the 16-bit count can say.
pub fn compress(data: &[u8]) -> (r: Result<Vec<u8>, Error>)
    ensures
        bytes_result(r) == spec_compress(data@),
{
    let count: usize = match count_chunks(data.len()) {
        Ok(count) => count as usize,
        Err(e) => {
            return Err(e);
        },
    };
    let mut out: Vec<u8> = Vec::new();
    push_be_u16(&mut out, RESERVED_WORD);
    push_be_u16(&mut out, count as u16);
    let mut bodies: Vec<u8> = Vec::new();
    let mut i: usize = 0;
    let ghost entries = chunk_entries(data@);
    let ghost parts = chunk_bodies(data@);
    proof {
        assert(entries.take(0) =~= Seq::<Chunk>::empty());
        assert(parts.take(0) =~= Seq::<Seq<u8>>::empty());
        assert(out@ =~= be_bytes_u16(RESERVED_WORD) + be_bytes_u16(count as u16) + table_bytes(
            entries.take(0),
        ));
    }
    while i < count
        invariant
            i <= count,
            count == chunk_count(data@.len()),
            data@.len() <= MAX_PAYLOAD,
            entries == chunk_entries(data@),
            parts == chunk_bodies(data@),
            out@ == be_bytes_u16(RESERVED_WORD) + be_bytes_u16(count as u16) + table_bytes(
                entries.take(i as int),
            ),
            bodies@ == concat(parts.take(i as int)),
        decreases count - i,
    {
        let start: usize = i * CHUNK_SIZE;
        let end: usize = if data.len() - start > CHUNK_SIZE {
            start + CHUNK_SIZE
        } else {
            data.len()
        };
        let raw = slice_subrange(data, start, end);
        assert(raw@ == chunk_of(data@, i as int));
        let deflated = deflate(raw, COMPRESSION_LEVEL);
        let (entry, body) = pack_chunk(raw, deflated);
        let mut body = body;
        proof {
            assert(entry == entries[i as int]);
            assert(body@ == parts[i as int]);
            assert(entries.take(i + 1).drop_last() =~= entries.take(i as int));
            assert(parts.take(i + 1).drop_last() =~= parts.take(i as int));
            assert(out@ + be_bytes_u16(entry.compressed_size) + be_bytes_u16(entry.decompressed_size)
                =~= be_bytes_u16(RESERVED_WORD) + be_bytes_u16(count as u16) + (table_bytes(
                entries.take(i as int),
            ) + entry_bytes(entry)));
        }
        push_be_u16(&mut out, entry.compressed_size);
        push_be_u16(&mut out, entry.decompressed_size);
        bodies.append(&mut body);
        i = i + 1;
    }
    proof {
        assert(entries.take(count as int) =~= entries);
        assert(parts.take(count as int) =~= parts);
    }
    out.append(&mut bodies);
    Ok(out)
}

/// The chunk table at the start of a chunked stream. The reserved word is
/// passed over without a look at its value.
pub open spec fn chunk_table(stream: Seq<u8>) -> Result<Seq<Chunk>, Error> {
    if stream.len() < 4 {
        Err(Error::Io)
    } else {
        let count = be_u16(stream.subrange(2, 4)) as int;
        if stream.len() < 4 + 4 * count {
            Err(Error::Io)
        } else {
            Ok(
                Seq::new(
                    count as nat,
                    |i: int|
                        Chunk {
                            compressed_size: be_u16(stream.subrange(4 + 4 * i, 6 + 4 * i)),
                            decompressed_size: be_u16(stream.subrange(6 + 4 * i, 8 + 4 * i)),
                        },
                ),
            )
        }
    }
}

/// The size of the payload that a chunk table describes.
pub open spec fn total_size(table: Seq<Chunk>) -> nat
    decreases table.len(),
{
    if table.len() == 0 {
        0
    } else {
        table[0].decompressed_size as nat + total_size(table.skip(1))
    }
}

/// The flags with which chunks are decompressed: a zlib header is expected,
/// and the output buffer is the whole payload.
pub open spec fn inflate_flags() -> u32 {
    (PARSE_ZLIB_HEADER + NON_WRAPPING_OUTPUT_BUF) as u32
}

/// The payload buffer after one chunk has been put at `dst`: a stored chunk
/// is copied byte for byte, any other is decompressed in place.
pub open spec fn unpack_chunk(chunk: Chunk, body: Seq<u8>, out: Seq<u8>, dst: nat) -> Result<
    Seq<u8>,
    Error,
> {
    if chunk.spec_is_stored() {
        Ok(overwrite(out, dst as int, body))
    } else {
        inflate_outcome(
            zlib_inflated(body, out, dst, inflate_flags()),
            chunk.decompressed_size as nat,
        )
    }
}

/// The payload buffer after the chunks of `table` have been put into `out`
/// from `dst` on, their bodies taken from the front of `bodies` in order.
pub open spec fn unpack_chunks(table: Seq<Chunk>, bodies: Seq<u8>, out: Seq<u8>, dst: nat) -> Result<
    Seq<u8>,
    Error,
>
    decreases table.len(),
{
    if table.len() == 0 {
        Ok(out)
    } else {
        let chunk = table[0];
        if bodies.len() < chunk.compressed_size {
            Err(Error::FormatCorruption)
        } else {
            match unpack_chunk(chunk, bodies.take(chunk.compressed_size as int), out, dst) {
                Err(e) => Err(e),
                Ok(next) => unpack_chunks(
                    table.skip(1),
                    bodies.skip(chunk.compressed_size as int),
                    next,
                    dst + chunk.decompressed_size as nat,
                ),
            }
        }
    }
}

/// What [`decompress`] returns.
pub open spec fn spec_decompress(stream: Seq<u8>) -> Result<Seq<u8>, Error> {
    match chunk_table(stream) {
        Err(e) => Err(e),
        Ok(table) => unpack_chunks(
            table,
            stream.skip(4 + 4 * table.len() as int),
            Seq::new(total_size(table), |i: int| 0u8),
            0,
        ),
    }
}

/// Copies `src` over the bytes of `out` that start at `dst`.
pub(crate) fn copy_into(out: &mut Vec<u8>, dst: usize, src: &[u8])
    requires
        dst + src@.len() <= old(out)@.len(),
    ensures
        final(out)@ == overwrite(old(out)@, dst as int, src@),
{
    let len: usize = out.len();
    let mut j: usize = 0;
    while j < src.len()
        invariant
            j <= src@.len(),
            dst + src@.len() <= len,
            out@.len() == len,
            len == old(out)@.len(),
            out@ == overwrite(old(out)@, dst as int, src@.take(j as int)),
        decreases src@.len() - j,
    {
        out.set(dst + j, src[j]);
        j = j + 1;
        assert(out@ =~= overwrite(old(out)@, dst as int, src@.take(j as int)));
    }
    assert(src@.take(src@.len() as int) =~= src@);
}

/// Adding an entry to a table adds its size to the total.
proof fn lemma_total_size_push(table: Seq<Chunk>, chunk: Chunk)
    ensures
        total_size(table.push(chunk)) == total_size(table) + chunk.decompressed_size,
    decreases table.len(),
{
    if table.len() == 0 {
        assert(table.push(chunk).skip(1) =~= Seq::<Chunk>::empty());
        assert(total_size(Seq::<Chunk>::empty()) == 0);
    } else {
        assert(table.push(chunk).skip(1) =~= table.skip(1).push(chunk));
        lemma_total_size_push(table.skip(1), chunk);
    }
}

/// No table describes more than 0xFFFF bytes per entry.
proof fn lemma_total_size_bound(table: Seq<Chunk>)
    ensures
        total_size(table) <= 0xFFFF * table.len(),
    decreases table.len(),
{
    if table.len() > 0 {
        lemma_total_size_bound(table.skip(1));
    }
}

/// Reads the chunk table at the start of a chunked stream.
///
/// Fails with [`Error::Io`] when the stream ends inside the count or the
/// table.
pub fn read_chunk_table(stream: &[u8]) -> (r: Result<Vec<Chunk>, Error>)
    ensures
        match r {
            Ok(table) => chunk_table(stream@) == Ok::<Seq<Chunk>, Error>(table@),
            Err(e) => chunk_table(stream@) == Err::<Seq<Chunk>, Error>(e),
        },
{
    if stream.len() < 4 {
        return Err(Error::Io);
    }
    let count: usize = get_be_u16(stream, 2) as usize;
    if (stream.len() - 4) / 4 < count {
        return Err(Error::Io);
    }
    let ghost expected = chunk_table(stream@)->Ok_0;
    let mut table: Vec<Chunk> = Vec::new();
    let mut i: usize = 0;
    while i < count
        invariant
            i <= count,
            count <= 0xFFFF,
            4 + 4 * count <= stream@.len(),
            chunk_table(stream@) == Ok::<Seq<Chunk>, Error>(expected),
            expected.len() == count,
            table@ == expected.take(i as int),
        decreases count - i,
    {
        let chunk = Chunk {
            compressed_size: get_be_u16(stream, 4 + 4 * i),
            decompressed_size: get_be_u16(stream, 6 + 4 * i),
        };
        table.push(chunk);
        i = i + 1;
        assert(table@ =~= expected.take(i as int));
    }
    assert(expected.take(count as int) =~= expected);
    Ok(table)
}

/// Decompresses a chunked stream into the payload it holds. Bytes that
/// follow the last chunk body are not looked at.
///
/// The payload buffer is laid out from the table's sizes first; each chunk is
/// then copied or decompressed into its place. Fails with [`Error::Io`] when
/// the stream ends inside the count or the table, with
/// [`Error::FormatCorruption`] when it ends inside a chunk body or a chunk
/// decompresses to another size than its entry says, and with
/// [`Error::Decompression`] when a chunk is not a valid zlib stream.
pub fn decompress(stream: &[u8]) -> (r: Result<Vec<u8>, Error>)
    ensures
        bytes_result(r) == spec_decompress(stream@),
{
    let table = match read_chunk_table(stream) {
        Ok(table) => table,
        Err(e) => {
            return Err(e);
        },
    };
    let count: usize = table.len();
    let mut total: usize = 0;
    let mut i: usize = 0;
    while i < count
        invariant
            i <= count,
            count == table@.len(),
            count <= 0xFFFF,
            total == total_size(table@.take(i as int)),
        decreases count - i,
    {
        proof {
            lemma_total_size_bound(table@.take(i as int));
            lemma_total_size_push(table@.take(i as int), table@[i as int]);
            assert(table@.take(i as int).push(table@[i as int]) =~= table@.take(i + 1));
            assert(0xFFFF * (i as int) + 0xFFFF <= 0xFFFF * 0xFFFF) by (nonlinear_arith)
                requires
                    i < 0xFFFF,
            ;
        }
        total = total + table[i].decompressed_size as usize;
        i = i + 1;
    }
    proof {
        assert(table@.take(count as int) =~= table@);
        assert(table@.skip(0) =~= table@);
    }
    let mut out: Vec<u8> = vec![0u8; total];
    let ghost zeros = Seq::new(total as nat, |i: int| 0u8);
    assert(out@ =~= zeros);
    let flags: u32 = PARSE_ZLIB_HEADER + NON_WRAPPING_OUTPUT_BUF;
    let mut src: usize = 4 + 4 * count;
    let mut dst: usize = 0;
    let mut k: usize = 0;
    while k < count
        invariant
            k <= count,
            count == table@.len(),
            src <= stream@.len(),
            out@.len() == total,
            dst + total_size(table@.skip(k as int)) == total,
            flags == inflate_flags(),
            unpack_chunks(table@.skip(k as int), stream@.skip(src as int), out@, dst as nat)
                == spec_decompress(stream@),
        decreases count - k,
    {
        let chunk = table[k];
        let ghost rest = table@.skip(k as int);
        proof {
            assert(rest[0] == chunk);
            assert(rest.skip(1) =~= table@.skip(k + 1));
        }
        let size: usize = chunk.compressed_size as usize;
        if stream.len() - src < size {
            return Err(Error::FormatCorruption);
        }
        let body = slice_subrange(stream, src, src + size);
        proof {
            assert(stream@.skip(src as int).take(size as int) =~= body@);
            assert(stream@.skip(src as int).skip(size as int) =~= stream@.skip(src + size));
        }
        if chunk.is_stored() {
            copy_into(&mut out, dst, body);
        } else {
            let (status, written) = inflate_into(body, &mut out, dst, flags);
            match check_inflated(status, written, chunk.decompressed_size as usize) {
                Ok(()) => {},
                Err(e) => {
                    return Err(e);
                },
            }
        }
        src = src + size;
        dst = dst + chunk.decompressed_size as usize;
        k = k + 1;
    }
    Ok(out)
}

/// A chunk table takes four bytes per entry.
pub proof fn lemma_table_bytes_len(table: Seq<Chunk>)
    ensures
        table_bytes(table).len() == 4 * table.len(),
    decreases table.len(),
{
    if table.len() > 0 {
        lemma_table_bytes_len(table.drop_last());
    }
}

/// The bodies of the first `i` chunks are together no longer than the part
/// of the payload that those chunks hold.
pub proof fn lemma_bodies_len(data: Seq<u8>, i: nat)
    requires
        i <= chunk_count(data.len()),
    ensures
        concat(chunk_bodies(data).take(i as int)).len() <= i * 0x8000,
        concat(chunk_bodies(data).take(i as int)).len() <= data.len(),
    decreases i,
{
    let parts = chunk_bodies(data);
    if i > 0 {
        lemma_bodies_len(data, (i - 1) as nat);
        assert(parts.take(i as int).drop_last() =~= parts.take(i - 1));
        assert(parts.take(i as int).last() == parts[i - 1]);
        assert(parts[i - 1].len() <= chunk_of(data, i - 1).len());
    }
}

/// A chunked stream is longer than its payload by at most its fixed words
/// and its table.
pub proof fn lemma_chunked_stream_len(data: Seq<u8>)
    ensures
        chunked_stream(data).len() <= 4 + 4 * chunk_count(data.len()) + data.len(),
        chunked_stream(data).len() >= 4 + 4 * chunk_count(data.len()),
{
    lemma_table_bytes_len(chunk_entries(data));
    lemma_bodies_len(data, chunk_count(data.len()));
    assert(chunk_bodies(data).take(chunk_count(data.len()) as int) =~= chunk_bodies(data));
}

/// How a payload is cut: into as many chunks as [`chunk_count`] says, each
/// of 0x8000 bytes but the last, which holds what is left; the table gives
/// each chunk's length as its decompressed size.
pub proof fn lemma_chunk_sizes(data: Seq<u8>, i: int)
    requires
        0 <= i < chunk_count(data.len()),
    ensures
        chunk_entries(data).len() == chunk_count(data.len()),
        chunk_entries(data)[i].decompressed_size == chunk_of(data, i).len(),
        chunk_of(data, i).len() == if i + 1 < chunk_count(data.len()) {
            0x8000
        } else {
            data.len() - i * 0x8000
        },
        1 <= chunk_of(data, i).len() <= 0x8000,
{
}

/// A chunk that compression does not make shorter is stored: its two sizes
/// are equal, its body is the chunk itself, and unpacking it copies that
/// body into the payload byte for byte. A chunk that compression makes
/// shorter is kept compressed, with two different sizes.
pub proof fn lemma_stored_chunk(raw: Seq<u8>, deflated: Seq<u8>, out: Seq<u8>, dst: nat)
    requires
        raw.len() <= 0xFFFF,
    ensures
        deflated.len() >= raw.len() ==> {
            &&& packed_entry(raw, deflated).spec_is_stored()
            &&& packed_body(raw, deflated) == raw
            &&& unpack_chunk(packed_entry(raw, deflated), packed_body(raw, deflated), out, dst)
                == Ok::<Seq<u8>, Error>(overwrite(out, dst as int, raw))
        },
        deflated.len() < raw.len() ==> {
            &&& !packed_entry(raw, deflated).spec_is_stored()
            &&& packed_body(raw, deflated) == deflated
        },
{
}

} // verus!
