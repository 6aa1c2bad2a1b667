//! What reading makes of what writing made.
//!
//! The compressor and the decompressor are not verified here, so nothing is
//! known of how they relate. Where a law needs the decompressor to restore
//! what the compressor made, it says so as a condition.

use crate::chunked::{
    chunk_bodies, chunk_count, chunk_entries, chunk_of, chunk_table, chunked_stream, concat,
    entry_bytes, inflate_flags, lemma_chunked_stream_len, lemma_table_bytes_len, spec_decompress,
    table_bytes, total_size, unpack_chunk, unpack_chunks, Chunk, COMPRESSION_LEVEL, MAX_PAYLOAD,
    RESERVED_WORD,
};
use crate::decoding::{parse_frame, parse_frames, parse_payload, spec_decode_resource};
use crate::encoding::{frame_bytes, frame_fits, frames_bytes, payload_bytes, spec_encode, spec_mux_frames};
use crate::endian::{
    be_bytes_u16, be_bytes_u32, lemma_be_u16_round_trip, lemma_be_u32_round_trip, overwrite,
};
use crate::error::Error;
use crate::frame::{flags_of, lemma_flags_name_submode, CodecFrameView, FrameView};
use crate::resource_parse::{
    envelope_payload, parse_envelope, parse_resource, Envelope, ResrcMethodView, ResrcRevision,
    ResrcView, METHOD_BINARY, REV_BRANCH, REV_COMPRESSION_MARKER,
};
use crate::resource_write::{dependency_table, envelope_header, header_len, resource_bytes, vop_type};
use crate::varint::{lemma_varint_bytes_len, lemma_varint_parse_bytes, varint_len};
use crate::zlib::{zlib_deflated, zlib_inflated, InflateStatus};
use vstd::prelude::*;

verus! {

/// Where the `i`-th chunk of a payload of `len` bytes starts; the length of
/// the payload for an `i` beyond the last chunk.
pub open spec fn chunk_start(len: nat, i: int) -> int {
    if i * 0x8000 <= len {
        i * 0x8000
    } else {
        len as int
    }
}

/// The decompressor restores the `i`-th chunk of `data` from its compressed
/// form: run on a payload buffer `out`, it ends without fault, reports the
/// chunk's length, and leaves the chunk in its place with all before it
/// untouched.
pub open spec fn chunk_restored(data: Seq<u8>, i: int, out: Seq<u8>) -> bool {
    let raw = chunk_of(data, i);
    let start = chunk_start(data.len(), i);
    let r = zlib_inflated(zlib_deflated(raw, COMPRESSION_LEVEL), out, start as nat, inflate_flags());
    &&& r.0 == InflateStatus::Done
    &&& r.1 == raw.len()
    &&& r.2.len() == out.len()
    &&& r.2.subrange(0, start + raw.len()) == out.subrange(0, start) + raw
}

/// The decompressor restores every chunk of `data` that is kept in
/// compressed form, on every payload buffer that already holds the chunks
/// before it.
pub open spec fn inflate_restores(data: Seq<u8>) -> bool {
    forall|i: int, out: Seq<u8>|
        {
            &&& 0 <= i < chunk_count(data.len())
            &&& zlib_deflated(chunk_of(data, i), COMPRESSION_LEVEL).len() < chunk_of(data, i).len()
            &&& out.len() == data.len()
            &&& out.subrange(0, chunk_start(data.len(), i)) == data.subrange(
                0,
                chunk_start(data.len(), i),
            )
        } ==> #[trigger] chunk_restored(data, i, out)
}

/// Three pieces in a row are the same row however they are grouped.
proof fn lemma_three_pieces(a: Seq<u8>, b: Seq<u8>, c: Seq<u8>)
    ensures
        a + b + c == a + (b + c),
{
    assert(a + b + c =~= a + (b + c));
}

/// Pieces in a row start with the first piece.
proof fn lemma_concat_first(parts: Seq<Seq<u8>>)
    requires
        parts.len() > 0,
    ensures
        concat(parts) == parts[0] + concat(parts.skip(1)),
    decreases parts.len(),
{
    if parts.len() == 1 {
        assert(parts.drop_last() =~= Seq::<Seq<u8>>::empty());
        assert(parts.skip(1) =~= Seq::<Seq<u8>>::empty());
        assert(concat(Seq::<Seq<u8>>::empty()) =~= Seq::<u8>::empty());
        assert(concat(parts) =~= parts[0] + concat(parts.skip(1)));
    } else {
        lemma_concat_first(parts.drop_last());
        assert(parts.skip(1).drop_last() =~= parts.drop_last().skip(1));
        assert(concat(parts) =~= parts[0] + concat(parts.skip(1)));
    }
}

/// The `i`-th entry of a table stands in its `i`-th four bytes.
proof fn lemma_table_entry_at(table: Seq<Chunk>, i: int)
    requires
        0 <= i < table.len(),
    ensures
        table_bytes(table).len() == 4 * table.len(),
        table_bytes(table).subrange(4 * i, 4 * i + 4) == entry_bytes(table[i]),
    decreases table.len(),
{
    lemma_table_bytes_len(table);
    lemma_table_bytes_len(table.drop_last());
    if i == table.len() - 1 {
        assert(table_bytes(table).subrange(4 * i, 4 * i + 4) =~= entry_bytes(table[i]));
    } else {
        lemma_table_entry_at(table.drop_last(), i);
        assert(table_bytes(table).subrange(4 * i, 4 * i + 4) =~= table_bytes(
            table.drop_last(),
        ).subrange(4 * i, 4 * i + 4));
    }
}

/// A table that was written is the table that is read, whatever the
/// reserved word is and whatever follows the table.
pub proof fn lemma_chunk_table_round_trip(reserved: u16, table: Seq<Chunk>, rest: Seq<u8>)
    requires
        table.len() <= 0xFFFF,
    ensures
        chunk_table(
            be_bytes_u16(reserved) + be_bytes_u16(table.len() as u16) + table_bytes(table) + rest,
        ) == Ok::<Seq<Chunk>, Error>(table),
{
    let count = table.len() as u16;
    let stream = be_bytes_u16(reserved) + be_bytes_u16(count) + table_bytes(table) + rest;
    lemma_table_bytes_len(table);
    assert(stream.subrange(2, 4) =~= be_bytes_u16(count));
    lemma_be_u16_round_trip(count, Seq::empty());
    assert(be_bytes_u16(count) + Seq::<u8>::empty() =~= be_bytes_u16(count));
    let read = chunk_table(stream)->Ok_0;
    assert(read.len() == table.len());
    assert forall|i: int| 0 <= i < table.len() implies read[i] == table[i] by {
        lemma_table_entry_at(table, i);
        let entry = entry_bytes(table[i]);
        assert(stream.subrange(4 + 4 * i, 8 + 4 * i) =~= table_bytes(table).subrange(
            4 * i,
            4 * i + 4,
        ));
        assert(stream.subrange(4 + 4 * i, 6 + 4 * i) =~= entry.subrange(0, 2));
        assert(stream.subrange(6 + 4 * i, 8 + 4 * i) =~= entry.subrange(2, 4));
        assert(entry.subrange(0, 2) =~= be_bytes_u16(table[i].compressed_size));
        assert(entry.subrange(2, 4) =~= be_bytes_u16(table[i].decompressed_size));
        lemma_be_u16_round_trip(table[i].compressed_size, Seq::empty());
        lemma_be_u16_round_trip(table[i].decompressed_size, Seq::empty());
        assert(be_bytes_u16(table[i].compressed_size) + Seq::<u8>::empty() =~= be_bytes_u16(
            table[i].compressed_size,
        ));
        assert(be_bytes_u16(table[i].decompressed_size) + Seq::<u8>::empty() =~= be_bytes_u16(
            table[i].decompressed_size,
        ));
    }
    assert(read =~= table);
}

/// The entries from the `i`-th on describe what is left of the payload from
/// the start of the `i`-th chunk on.
proof fn lemma_total_size_of_entries(data: Seq<u8>, i: int)
    requires
        0 <= i <= chunk_count(data.len()),
    ensures
        total_size(chunk_entries(data).skip(i)) == data.len() - chunk_start(data.len(), i),
    decreases chunk_count(data.len()) - i,
{
    let entries = chunk_entries(data);
    if i < chunk_count(data.len()) {
        lemma_total_size_of_entries(data, i + 1);
        assert(entries.skip(i).skip(1) =~= entries.skip(i + 1));
        assert(entries.skip(i)[0] == entries[i]);
    } else {
        assert(entries.skip(i) =~= Seq::<Chunk>::empty());
    }
}

/// Unpacking starts with the first chunk of the table, whose body stands at
/// the front of the bodies, and goes on behind both.
proof fn lemma_unpack_first(
    table: Seq<Chunk>,
    body: Seq<u8>,
    tail: Seq<u8>,
    out: Seq<u8>,
    dst: nat,
    next: Seq<u8>,
)
    requires
        table.len() > 0,
        body.len() == table[0].compressed_size,
        unpack_chunk(table[0], body, out, dst) == Ok::<Seq<u8>, Error>(next),
    ensures
        unpack_chunks(table, body + tail, out, dst) == unpack_chunks(
            table.skip(1),
            tail,
            next,
            dst + table[0].decompressed_size as nat,
        ),
{
    let bodies = body + tail;
    assert(bodies.take(body.len() as int) =~= body);
    assert(bodies.skip(body.len() as int) =~= tail);
}

/// The `i`-th chunk of a payload, unpacked into a buffer that holds the
/// chunks before it, leaves a buffer that holds the `i`-th chunk too.
proof fn lemma_unpack_one(data: Seq<u8>, i: int, out: Seq<u8>) -> (next: Seq<u8>)
    requires
        data.len() <= MAX_PAYLOAD,
        0 <= i < chunk_count(data.len()),
        inflate_restores(data),
        out.len() == data.len(),
        out.subrange(0, chunk_start(data.len(), i)) == data.subrange(0, chunk_start(data.len(), i)),
    ensures
        unpack_chunk(
            chunk_entries(data)[i],
            chunk_bodies(data)[i],
            out,
            chunk_start(data.len(), i) as nat,
        ) == Ok::<Seq<u8>, Error>(next),
        next.len() == data.len(),
        next.subrange(0, chunk_start(data.len(), i + 1)) == data.subrange(
            0,
            chunk_start(data.len(), i + 1),
        ),
        chunk_bodies(data)[i].len() == chunk_entries(data)[i].compressed_size,
        chunk_start(data.len(), i + 1) == chunk_start(data.len(), i) + chunk_entries(
            data,
        )[i].decompressed_size,
{
    let chunk = chunk_entries(data)[i];
    let body = chunk_bodies(data)[i];
    let raw = chunk_of(data, i);
    let deflated = zlib_deflated(raw, COMPRESSION_LEVEL);
    let start = chunk_start(data.len(), i);
    let end = chunk_start(data.len(), i + 1);
    assert(end == start + raw.len());
    assert(chunk.decompressed_size == raw.len());
    assert(data.subrange(0, end) =~= data.subrange(0, start) + raw);
    if deflated.len() < raw.len() {
        assert(chunk_restored(data, i, out));
        let r = zlib_inflated(deflated, out, start as nat, inflate_flags());
        assert(body == deflated);
        assert(!chunk.spec_is_stored());
        r.2
    } else {
        assert(body == raw);
        assert(chunk.spec_is_stored());
        let next = overwrite(out, start, raw);
        assert(next.subrange(0, end) =~= out.subrange(0, start) + raw);
        next
    }
}

/// From the `i`-th chunk on, unpacking what was packed fills the payload
/// buffer with the payload, if the buffer holds the chunks before the
/// `i`-th already.
proof fn lemma_unpack_packed(data: Seq<u8>, i: int, rest: Seq<u8>, out: Seq<u8>)
    requires
        data.len() <= MAX_PAYLOAD,
        0 <= i <= chunk_count(data.len()),
        inflate_restores(data),
        out.len() == data.len(),
        out.subrange(0, chunk_start(data.len(), i)) == data.subrange(0, chunk_start(data.len(), i)),
    ensures
        unpack_chunks(
            chunk_entries(data).skip(i),
            concat(chunk_bodies(data).skip(i)) + rest,
            out,
            chunk_start(data.len(), i) as nat,
        ) == Ok::<Seq<u8>, Error>(data),
    decreases chunk_count(data.len()) - i,
{
    let entries = chunk_entries(data);
    let parts = chunk_bodies(data);
    let start = chunk_start(data.len(), i);
    if i == chunk_count(data.len()) {
        assert(entries.skip(i) =~= Seq::<Chunk>::empty());
        assert(start == data.len());
        assert(out.subrange(0, start) =~= out);
        assert(data.subrange(0, start) =~= data);
    } else {
        let next = lemma_unpack_one(data, i, out);
        let tail = concat(parts.skip(i + 1)) + rest;
        assert(entries.skip(i)[0] == entries[i]);
        assert(entries.skip(i).skip(1) =~= entries.skip(i + 1));
        assert(parts.skip(i)[0] == parts[i]);
        assert(parts.skip(i).skip(1) =~= parts.skip(i + 1));
        lemma_concat_first(parts.skip(i));
        lemma_three_pieces(parts[i], concat(parts.skip(i + 1)), rest);
        lemma_unpack_first(entries.skip(i), parts[i], tail, out, start as nat, next);
        lemma_unpack_packed(data, i + 1, rest, next);
    }
}

/// The stream behind the two fixed words and the table.
proof fn lemma_stream_parts(data: Seq<u8>, rest: Seq<u8>)
    ensures
        chunked_stream(data) + rest == be_bytes_u16(RESERVED_WORD) + be_bytes_u16(
            chunk_entries(data).len() as u16,
        ) + table_bytes(chunk_entries(data)) + (concat(chunk_bodies(data)) + rest),
        (chunked_stream(data) + rest).skip(4 + 4 * chunk_entries(data).len() as int) == concat(
            chunk_bodies(data),
        ) + rest,
{
    let entries = chunk_entries(data);
    let tail = concat(chunk_bodies(data)) + rest;
    let stream = chunked_stream(data) + rest;
    lemma_table_bytes_len(entries);
    assert(stream =~= be_bytes_u16(RESERVED_WORD) + be_bytes_u16(entries.len() as u16) + table_bytes(
        entries,
    ) + tail);
    assert(stream.skip(4 + 4 * entries.len() as int) =~= tail);
}

/// Round trip of the chunked stream: if the decompressor restores the
/// compressed chunks, then decompressing the chunked stream of a payload
/// gives the payload back, whatever follows the stream. For a payload whose
/// chunks are all stored as they are, nothing is asked of the decompressor.
pub proof fn lemma_chunked_round_trip(data: Seq<u8>, rest: Seq<u8>)
    requires
        data.len() <= MAX_PAYLOAD,
    ensures
        inflate_restores(data) ==> spec_decompress(chunked_stream(data) + rest) == Ok::<
            Seq<u8>,
            Error,
        >(data),
{
    if inflate_restores(data) {
        let entries = chunk_entries(data);
        let parts = chunk_bodies(data);
        let tail = concat(parts) + rest;
        lemma_stream_parts(data, rest);
        lemma_chunk_table_round_trip(RESERVED_WORD, entries, tail);
        lemma_total_size_of_entries(data, 0);
        assert(entries.skip(0) =~= entries);
        assert(parts.skip(0) =~= parts);
        let zeros = Seq::new(total_size(entries), |i: int| 0u8);
        assert(zeros.subrange(0, 0) =~= data.subrange(0, 0));
        lemma_unpack_packed(data, 0, rest, zeros);
    }
}

/// The revision that is read from a header written for `revision`: the same,
/// but without the branch where the header has no place for it.
pub open spec fn revision_read(revision: ResrcRevision) -> ResrcRevision {
    if revision.head >= REV_BRANCH {
        revision
    } else {
        ResrcRevision::of_head(revision.head)
    }
}

/// The header that is read where one was written for `revision`.
pub open spec fn envelope_read(revision: ResrcRevision, offset: u32) -> Envelope {
    Envelope {
        revision: revision_read(revision),
        dependency_table_offset: if revision.spec_fields().dependency_table_offset {
            Some(offset)
        } else {
            None
        },
        is_compressed: revision.spec_fields().compression_marker,
        payload_start: header_len(revision) as usize,
    }
}

/// A header that was written is read as it was meant, whatever follows it:
/// the revision comes back (see [`revision_read`]), the offset of the
/// dependency table where there is one, the payload is taken as compressed
/// exactly where the header has a compression marker, and the payload starts
/// where the header ends.
pub proof fn lemma_envelope_round_trip(revision: ResrcRevision, offset: u32, rest: Seq<u8>)
    ensures
        parse_envelope(envelope_header(revision, offset) + rest) == Ok::<Envelope, Error>(
            envelope_read(revision, offset),
        ),
        envelope_header(revision, offset).len() == header_len(revision),
        (envelope_header(revision, offset) + rest).subrange(0, 3) == vop_type(),
        (envelope_header(revision, offset) + rest)[3] == METHOD_BINARY,
{
    let fields = revision.spec_fields();
    let header = envelope_header(revision, offset);
    let bytes = header + rest;
    let early = ResrcRevision::of_head(revision.head).spec_fields();
    assert(bytes.subrange(0, 3) =~= vop_type());
    assert(bytes.subrange(4, 8) =~= be_bytes_u32(revision.head));
    lemma_be_u32_round_trip(revision.head, Seq::empty());
    assert(be_bytes_u32(revision.head) + Seq::<u8>::empty() =~= be_bytes_u32(revision.head));
    assert(early.dependency_table_offset == fields.dependency_table_offset);
    assert(early.branch == fields.branch);
    let branch_at: int = if fields.dependency_table_offset {
        12
    } else {
        8
    };
    if fields.dependency_table_offset {
        assert(bytes.subrange(8, 12) =~= be_bytes_u32(offset));
        lemma_be_u32_round_trip(offset, Seq::empty());
        assert(be_bytes_u32(offset) + Seq::<u8>::empty() =~= be_bytes_u32(offset));
    }
    if fields.branch {
        assert(bytes.subrange(branch_at, branch_at + 2) =~= be_bytes_u16(revision.branch_id));
        assert(bytes.subrange(branch_at + 2, branch_at + 4) =~= be_bytes_u16(
            revision.branch_revision,
        ));
        lemma_be_u16_round_trip(revision.branch_id, Seq::empty());
        lemma_be_u16_round_trip(revision.branch_revision, Seq::empty());
        assert(be_bytes_u16(revision.branch_id) + Seq::<u8>::empty() =~= be_bytes_u16(
            revision.branch_id,
        ));
        assert(be_bytes_u16(revision.branch_revision) + Seq::<u8>::empty() =~= be_bytes_u16(
            revision.branch_revision,
        ));
    }
    assert(revision_read(revision).spec_fields() == fields);
}

/// A binary resource is what its header and its payload are read as.
proof fn lemma_resource_of_parts(bytes: Seq<u8>, envelope: Envelope, data: Seq<u8>)
    requires
        bytes.len() >= 4,
        bytes.subrange(0, 3) == vop_type(),
        bytes[3] == METHOD_BINARY,
        parse_envelope(bytes) == Ok::<Envelope, Error>(envelope),
        envelope_payload(bytes, envelope) == Ok::<Seq<u8>, Error>(data),
    ensures
        parse_resource(bytes) == Ok::<ResrcView, Error>(
            ResrcView {
                resrc_type: vop_type(),
                method: ResrcMethodView::Binary {
                    resrc_type: vop_type(),
                    revision: envelope.revision,
                    is_encrypted: false,
                    data,
                },
            },
        ),
{
}

/// The payload of a container whose header says that it is compressed is
/// what the chunked stream behind the header decompresses to.
proof fn lemma_compressed_payload(header: Seq<u8>, rest: Seq<u8>, envelope: Envelope, data: Seq<u8>)
    requires
        envelope.is_compressed,
        envelope.payload_start == header.len(),
        spec_decompress(rest) == Ok::<Seq<u8>, Error>(data),
    ensures
        envelope_payload(header + rest, envelope) == Ok::<Seq<u8>, Error>(data),
{
    assert((header + rest).skip(header.len() as int) =~= rest);
}

/// The payload of a container whose header does not say that it is
/// compressed is what stands between the header and the dependency table,
/// or the end of the file.
proof fn lemma_raw_payload(header: Seq<u8>, data: Seq<u8>, table: Seq<u8>, envelope: Envelope)
    requires
        !envelope.is_compressed,
        envelope.payload_start == header.len(),
        match envelope.dependency_table_offset {
            Some(offset) => offset == header.len() + data.len(),
            None => table.len() == 0,
        },
    ensures
        envelope_payload(header + (data + table), envelope) == Ok::<Seq<u8>, Error>(data),
{
    let bytes = header + (data + table);
    assert(bytes.subrange(header.len() as int, (header.len() + data.len()) as int) =~= data);
}

/// What reading makes of a written container whose payload comes back.
pub open spec fn resource_read(data: Seq<u8>, revision: ResrcRevision) -> ResrcView {
    ResrcView {
        resrc_type: vop_type(),
        method: ResrcMethodView::Binary {
            resrc_type: vop_type(),
            revision: revision_read(revision),
            is_encrypted: false,
            data,
        },
    }
}

/// Round trip of the container: from the first revision with a compression
/// marker on, and if the decompressor restores the compressed chunks,
/// decoding the container written for a payload gives a binary VOP resource,
/// not encrypted, with that payload. The payload may be empty or longer than
/// a chunk; it must not be longer than the chunk table can describe.
pub proof fn lemma_resource_round_trip(data: Seq<u8>, revision: ResrcRevision)
    requires
        data.len() <= MAX_PAYLOAD,
        revision.head >= REV_COMPRESSION_MARKER,
    ensures
        inflate_restores(data) ==> parse_resource(resource_bytes(data, revision)) == Ok::<
            ResrcView,
            Error,
        >(resource_read(data, revision)),
{
    if inflate_restores(data) {
        let stream = chunked_stream(data);
        let table = dependency_table(revision);
        let offset = (header_len(revision) + stream.len()) as u32;
        let header = envelope_header(revision, offset);
        let envelope = envelope_read(revision, offset);
        lemma_three_pieces(header, stream, table);
        lemma_envelope_round_trip(revision, offset, stream + table);
        lemma_chunked_round_trip(data, table);
        lemma_compressed_payload(header, stream + table, envelope, data);
        lemma_resource_of_parts(header + (stream + table), envelope, data);
    }
}

/// Before the first revision with a compression marker the reader takes
/// every payload as not compressed, while the writer compresses all the
/// same: what is read back from a written container is then the chunked
/// stream of the payload, not the payload.
pub proof fn lemma_old_revision_reads_stream(data: Seq<u8>, revision: ResrcRevision)
    requires
        data.len() <= MAX_PAYLOAD,
        revision.head < REV_COMPRESSION_MARKER,
    ensures
        parse_resource(resource_bytes(data, revision)) == Ok::<ResrcView, Error>(
            resource_read(chunked_stream(data), revision),
        ),
{
    let stream = chunked_stream(data);
    let table = dependency_table(revision);
    let offset = (header_len(revision) + stream.len()) as u32;
    let header = envelope_header(revision, offset);
    let envelope = envelope_read(revision, offset);
    lemma_three_pieces(header, stream, table);
    lemma_envelope_round_trip(revision, offset, stream + table);
    lemma_chunked_stream_len(data);
    assert(4 * chunk_count(data.len()) <= 4 * 0xFFFF);
    lemma_raw_payload(header, stream, table, envelope);
    lemma_resource_of_parts(header + (stream + table), envelope, stream);
}

/// The frame that is read where a codec frame was written.
pub open spec fn frame_read(frame: CodecFrameView, vad: bool) -> FrameView {
    FrameView {
        mode_code: frame.submode.spec_code() as u8,
        flags: flags_of(frame.submode, vad),
        packed_bits: frame.packed_bits,
    }
}

/// The frames that are read where codec frames were written.
pub open spec fn frames_read(frames: Seq<CodecFrameView>, vad: bool) -> Seq<FrameView> {
    frames.map_values(|f: CodecFrameView| frame_read(f, vad))
}

/// Written frames start with the first frame.
proof fn lemma_frames_bytes_first(frames: Seq<CodecFrameView>, vad: bool)
    requires
        frames.len() > 0,
    ensures
        frames_bytes(frames, vad) == frame_bytes(frames[0], vad) + frames_bytes(frames.skip(1), vad),
    decreases frames.len(),
{
    if frames.len() == 1 {
        assert(frames.drop_last() =~= Seq::<CodecFrameView>::empty());
        assert(frames.skip(1) =~= Seq::<CodecFrameView>::empty());
        assert(frames_bytes(Seq::<CodecFrameView>::empty(), vad) =~= Seq::<u8>::empty());
        assert(frames_bytes(frames, vad) =~= frame_bytes(frames[0], vad) + frames_bytes(
            frames.skip(1),
            vad,
        ));
    } else {
        lemma_frames_bytes_first(frames.drop_last(), vad);
        assert(frames.skip(1).drop_last() =~= frames.drop_last().skip(1));
        assert(frames_bytes(frames, vad) =~= frame_bytes(frames[0], vad) + frames_bytes(
            frames.skip(1),
            vad,
        ));
    }
}

/// A frame of the right size is read back from where it was written, and
/// what follows it is left for the next.
proof fn lemma_frame_round_trip(frame: CodecFrameView, vad: bool, rest: Seq<u8>)
    requires
        frame_fits(frame),
    ensures
        parse_frame(frame_bytes(frame, vad) + rest) == Some(frame_read(frame, vad)),
        (frame_bytes(frame, vad) + rest).skip(1 + frame.packed_bits.len() as int) == rest,
        (frame_bytes(frame, vad) + rest).len() > 0,
{
    let bytes = frame_bytes(frame, vad) + rest;
    let len = frame.packed_bits.len() as int;
    lemma_flags_name_submode(frame.submode, vad);
    assert(bytes[0] == flags_of(frame.submode, vad));
    assert(bytes.subrange(1, 1 + len) =~= frame.packed_bits);
    assert(bytes.skip(1 + len) =~= rest);
}

/// Frames of the right size, written one after the other, are read back one
/// by one, each with its mode code, its flags and its packed bits.
pub proof fn lemma_frames_round_trip(frames: Seq<CodecFrameView>, vad: bool)
    requires
        forall|i: int| 0 <= i < frames.len() ==> frame_fits(#[trigger] frames[i]),
    ensures
        parse_frames(frames_bytes(frames, vad)) == Ok::<Seq<FrameView>, Error>(
            frames_read(frames, vad),
        ),
    decreases frames.len(),
{
    if frames.len() == 0 {
        assert(frames_read(frames, vad) =~= Seq::<FrameView>::empty());
    } else {
        let first = frames[0];
        let tail = frames.skip(1);
        lemma_frames_bytes_first(frames, vad);
        lemma_frame_round_trip(first, vad, frames_bytes(tail, vad));
        assert forall|i: int| 0 <= i < tail.len() implies frame_fits(#[trigger] tail[i]) by {
            assert(tail[i] == frames[i + 1]);
        }
        lemma_frames_round_trip(tail, vad);
        assert(seq![frame_read(first, vad)] + frames_read(tail, vad) =~= frames_read(frames, vad));
    }
}

/// Round trip of the payload: frames that [`crate::encoding::mux_frames`]
/// accepts are read back from the payload it makes, with the flags it gave
/// them.
pub proof fn lemma_payload_round_trip(frames: Seq<CodecFrameView>, vad: bool)
    requires
        forall|i: int| 0 <= i < frames.len() ==> frame_fits(#[trigger] frames[i]),
    ensures
        spec_mux_frames(frames, vad) == Ok::<Seq<u8>, Error>(payload_bytes(frames, vad)),
        parse_payload(payload_bytes(frames, vad)) == Ok::<Seq<FrameView>, Error>(
            frames_read(frames, vad),
        ),
{
    let body = frames_bytes(frames, vad);
    lemma_varint_parse_bytes(body.len(), body);
    lemma_varint_bytes_len(body.len());
    assert(payload_bytes(frames, vad).skip(varint_len(body.len()) as int) =~= body);
    lemma_frames_round_trip(frames, vad);
}

/// Round trip of a recording: from the first revision with a compression
/// marker on, and if the decompressor restores the compressed chunks of the
/// payload, the frames read from an encoded container are the frames that
/// were encoded.
pub proof fn lemma_recording_round_trip(frames: Seq<CodecFrameView>, vad: bool, revision: ResrcRevision)
    requires
        forall|i: int| 0 <= i < frames.len() ==> frame_fits(#[trigger] frames[i]),
        payload_bytes(frames, vad).len() <= MAX_PAYLOAD,
        revision.head >= REV_COMPRESSION_MARKER,
    ensures
        spec_encode(frames, vad, revision) == Ok::<Seq<u8>, Error>(
            resource_bytes(payload_bytes(frames, vad), revision),
        ),
        inflate_restores(payload_bytes(frames, vad)) ==> spec_decode_resource(
            resource_bytes(payload_bytes(frames, vad), revision),
        ) == Ok::<Seq<FrameView>, Error>(frames_read(frames, vad)),
{
    let payload = payload_bytes(frames, vad);
    lemma_payload_round_trip(frames, vad);
    lemma_resource_round_trip(payload, revision);
}

} // verus!
