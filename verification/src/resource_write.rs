//! Writing the container envelope.
//!
//! The writer makes binary VOP resources only, always with a compressed
//! payload and an empty dependency table. Which header fields it writes
//! follows from the revision, by the same table that the reader goes by.

use crate::chunked::{chunk_count, chunked_stream, compress, lemma_chunked_stream_len, MAX_PAYLOAD};
use crate::endian::{be_bytes_u16, be_bytes_u32, overwrite, push_be_u16, push_be_u32, put_be_u32};
use crate::error::{bytes_result, Error};
use crate::resource_parse::{ResrcRevision, METHOD_BINARY};
use vstd::prelude::*;

verus! {

/// The type tag of the resources that are written: the letters `VOP`.
pub const VOP_TYPE: [u8; 3] = [0x56, 0x4F, 0x50];

/// The compression flags that are written where the revision has them.
pub const COMPRESSION_FLAGS: u8 = 0x7;

/// Where the offset of the dependency table stands in a header that has one:
/// behind the tag, the method byte and the head revision.
pub const DEPENDENCY_OFFSET_AT: usize = 8;

/// The type tag as a sequence.
pub open spec fn vop_type() -> Seq<u8> {
    seq![0x56u8, 0x4Fu8, 0x50u8]
}

/// The part of a written header that every revision has: type tag, method
/// byte and head revision.
pub open spec fn header_start(revision: ResrcRevision) -> Seq<u8> {
    vop_type().push(METHOD_BINARY) + be_bytes_u32(revision.head)
}

/// The part of a written header that follows the place of the dependency
/// table's offset: branch fields, compression flags and compression marker,
/// each where the revision has it.
pub open spec fn header_tail(revision: ResrcRevision) -> Seq<u8> {
    let fields = revision.spec_fields();
    (if fields.branch {
        be_bytes_u16(revision.branch_id) + be_bytes_u16(revision.branch_revision)
    } else {
        Seq::empty()
    }) + (if fields.compression_flags {
        seq![COMPRESSION_FLAGS]
    } else {
        Seq::empty()
    }) + (if fields.compression_marker {
        seq![1u8]
    } else {
        Seq::empty()
    })
}

/// The header of a written resource, with the given value in the place of
/// the dependency table's offset.
pub open spec fn envelope_header(revision: ResrcRevision, dependency_table_offset: u32) -> Seq<u8> {
    header_start(revision) + (if revision.spec_fields().dependency_table_offset {
        be_bytes_u32(dependency_table_offset)
    } else {
        Seq::empty()
    }) + header_tail(revision)
}

/// The length of the header that a revision has.
pub open spec fn header_len(revision: ResrcRevision) -> nat {
    let fields = revision.spec_fields();
    (8 + (if fields.dependency_table_offset {
        4int
    } else {
        0
    }) + (if fields.branch {
        4int
    } else {
        0
    }) + (if fields.compression_flags {
        1int
    } else {
        0
    }) + (if fields.compression_marker {
        1int
    } else {
        0
    })) as nat
}

/// The dependency table that follows the payload where the revision has
/// one: a count of zero.
pub open spec fn dependency_table(revision: ResrcRevision) -> Seq<u8> {
    if revision.spec_fields().dependency_table_offset {
        be_bytes_u32(0)
    } else {
        Seq::empty()
    }
}

/// The bytes of the resource that holds `data` at the given revision. The
/// header names the place where the dependency table starts, which is where
/// the chunked stream ends.
pub open spec fn resource_bytes(data: Seq<u8>, revision: ResrcRevision) -> Seq<u8> {
    let stream = chunked_stream(data);
    envelope_header(revision, (header_len(revision) + stream.len()) as u32) + stream
        + dependency_table(revision)
}

/// What [`write_resource`] returns.
pub open spec fn spec_write_resource(data: Seq<u8>, revision: ResrcRevision) -> Result<
    Seq<u8>,
    Error,
> {
    if data.len() > MAX_PAYLOAD {
        Err(Error::UnsupportedInput)
    } else {
        Ok(resource_bytes(data, revision))
    }
}

/// Writes the header of a resource, with a zero in the place of the
/// dependency table's offset.
fn write_header(rev: ResrcRevision) -> (out: Vec<u8>)
    ensures
        out@ == envelope_header(rev, 0),
        out@.len() == header_len(rev),
{
    let fields = rev.fields();
    let mut out: Vec<u8> = Vec::new();
    out.push(VOP_TYPE[0]);
    out.push(VOP_TYPE[1]);
    out.push(VOP_TYPE[2]);
    out.push(METHOD_BINARY);
    push_be_u32(&mut out, rev.head);
    assert(out@ =~= header_start(rev));
    if fields.dependency_table_offset {
        push_be_u32(&mut out, 0);
    }
    let ghost front = out@;
    if fields.branch {
        push_be_u16(&mut out, rev.branch_id);
        push_be_u16(&mut out, rev.branch_revision);
    }
    if fields.compression_flags {
        out.push(COMPRESSION_FLAGS);
    }
    if fields.compression_marker {
        out.push(1);
    }
    assert(out@ =~= front + header_tail(rev));
    out
}

/// Putting the offset into its place turns the header written with a zero
/// into the header with the offset, and changes nothing behind the header.
proof fn lemma_patch_offset(revision: ResrcRevision, offset: u32, rest: Seq<u8>)
    requires
        revision.spec_fields().dependency_table_offset,
    ensures
        overwrite(envelope_header(revision, 0) + rest, DEPENDENCY_OFFSET_AT as int, be_bytes_u32(offset))
            == envelope_header(revision, offset) + rest,
{
    let start = header_start(revision);
    let tail = header_tail(revision) + rest;
    assert(start.len() == 8);
    assert(envelope_header(revision, 0) + rest =~= start + be_bytes_u32(0) + tail);
    assert(envelope_header(revision, offset) + rest =~= start + be_bytes_u32(offset) + tail);
    assert(overwrite(start + be_bytes_u32(0) + tail, 8, be_bytes_u32(offset)) =~= start
        + be_bytes_u32(offset) + tail);
}

/// A written resource is short enough for its length to be told in 32 bits.
proof fn lemma_resource_len(data: Seq<u8>, revision: ResrcRevision)
    requires
        data.len() <= MAX_PAYLOAD,
    ensures
        header_len(revision) + chunked_stream(data).len() + 4 <= u32::MAX,
{
    lemma_chunked_stream_len(data);
    assert(4 * chunk_count(data.len()) <= 4 * 0xFFFF);
}

/// Wraps a payload into the bytes of a binary VOP resource.
///
/// The payload is compressed into a chunked stream. The header is written
/// with a zero in the place of the dependency table's offset; once the
/// stream and the empty dependency table stand behind it, that place gets
/// the offset at which the table starts. Fails with
/// [`Error::UnsupportedInput`] when the payload is too long for the chunk
/// table, and then writes nothing.
pub fn write_resource(data: Vec<u8>, rev: ResrcRevision) -> (r: Result<Vec<u8>, Error>)
    ensures
        bytes_result(r) == spec_write_resource(data@, rev),
{
    let mut stream = match compress(data.as_slice()) {
        Ok(stream) => stream,
        Err(e) => {
            return Err(e);
        },
    };
    let ghost written = stream@;
    let mut out = write_header(rev);
    proof {
        lemma_resource_len(data@, rev);
    }
    out.append(&mut stream);
    if rev.fields().dependency_table_offset {
        let offset: usize = out.len();
        push_be_u32(&mut out, 0);
        proof {
            let rest = written + be_bytes_u32(0);
            assert(out@ == envelope_header(rev, 0) + rest) by {
                assert(envelope_header(rev, 0) + written + be_bytes_u32(0) =~= envelope_header(rev, 0)
                    + rest);
            }
            lemma_patch_offset(rev, offset as u32, rest);
        }
        put_be_u32(&mut out, DEPENDENCY_OFFSET_AT, offset as u32);
        proof {
            assert(envelope_header(rev, offset as u32) + (written + be_bytes_u32(0))
                =~= envelope_header(rev, offset as u32) + written + be_bytes_u32(0));
        }
    } else {
        proof {
            assert(out@ + Seq::<u8>::empty() =~= out@);
        }
    }
    Ok(out)
}

} // verus!
