//! Reading the container envelope.
//!
//! A resource starts with a three-byte type tag and a method byte. A binary
//! resource goes on with its revision and with header fields that exist only
//! from certain revisions on; its payload follows, as it is or as a chunked
//! stream. All integers are big-endian.

use crate::chunked::{decompress, spec_decompress};
use crate::endian::{be_u16, be_u32, get_be_u16, get_be_u32};
use crate::error::{bytes_result, Error};
use vstd::prelude::*;
use vstd::slice::{slice_subrange, slice_to_vec};

verus! {

/// Method byte of a binary resource, the letter `b`.
pub const METHOD_BINARY: u8 = 0x62;

/// Method byte of an encrypted binary resource, the letter `e`.
pub const METHOD_ENCRYPTED: u8 = 0x65;

/// First revision whose header holds the offset of the dependency table.
pub const REV_DEPENDENCY_TABLE: u32 = 0x109;

/// First revision whose header says whether the payload is compressed.
pub const REV_COMPRESSION_MARKER: u32 = 0x189;

/// First revision whose header holds the branch fields.
pub const REV_BRANCH: u32 = 0x271;

/// First revision whose header holds the compression flags.
pub const REV_COMPRESSION_FLAGS: u32 = 0x297;

/// The one older revision that has compression flags too, on one branch.
pub const LEGACY_FLAGS_HEAD: u32 = 0x272;

/// The branch on which revision [`LEGACY_FLAGS_HEAD`] has compression flags.
pub const LEGACY_FLAGS_BRANCH_ID: u16 = 0x4c44;

/// The branch revision from which on that branch has them.
pub const LEGACY_FLAGS_BRANCH_REVISION: u16 = 0x2;

/// The format version of a resource. The branch fields are zero where the
/// header has none.
#[derive(Debug, Clone, Copy, PartialEq, Eq, Hash, Structural)]
pub struct ResrcRevision {
    pub head: u32,
    pub branch_id: u16,
    pub branch_revision: u16,
}

/// Which of the optional header fields a revision has.
#[derive(Debug, Clone, Copy, PartialEq, Eq, Hash, Structural)]
pub struct EnvelopeFields {
    /// The 32-bit offset of the dependency table.
    pub dependency_table_offset: bool,
    /// The branch id and the branch revision, 16 bits each.
    pub branch: bool,
    /// The byte of compression flags.
    pub compression_flags: bool,
    /// The byte that says whether the payload is compressed.
    pub compression_marker: bool,
}

impl ResrcRevision {
    /// The header fields of this revision.
    pub open spec fn spec_fields(self) -> EnvelopeFields {
        EnvelopeFields {
            dependency_table_offset: self.head >= REV_DEPENDENCY_TABLE,
            branch: self.head >= REV_BRANCH,
            compression_flags: self.head >= REV_COMPRESSION_FLAGS || (self.head
                == LEGACY_FLAGS_HEAD && self.branch_id == LEGACY_FLAGS_BRANCH_ID
                && self.branch_revision >= LEGACY_FLAGS_BRANCH_REVISION),
            compression_marker: self.head >= REV_COMPRESSION_MARKER,
        }
    }

    /// The header fields of this revision. Reader and writer both go by this
    /// one table.
    pub fn fields(&self) -> (fields: EnvelopeFields)
        ensures
            fields == self.spec_fields(),
    {
        EnvelopeFields {
            dependency_table_offset: self.head >= REV_DEPENDENCY_TABLE,
            branch: self.head >= REV_BRANCH,
            compression_flags: self.head >= REV_COMPRESSION_FLAGS || (self.head
                == LEGACY_FLAGS_HEAD && self.branch_id == LEGACY_FLAGS_BRANCH_ID
                && self.branch_revision >= LEGACY_FLAGS_BRANCH_REVISION),
            compression_marker: self.head >= REV_COMPRESSION_MARKER,
        }
    }

    /// The revision with this head and no branch.
    pub open spec fn of_head(head: u32) -> ResrcRevision {
        ResrcRevision { head, branch_id: 0, branch_revision: 0 }
    }
}

/// What a resource holds besides its type.
#[derive(Debug, PartialEq, Eq, Hash)]
pub enum ResrcMethod {
    /// No payload. Nothing after the method byte belongs to the resource.
    Null,
    /// A payload, here in its decompressed form.
    Binary { resrc_type: [u8; 3], revision: ResrcRevision, is_encrypted: bool, data: Vec<u8> },
}

/// A decoded container.
#[derive(Debug, PartialEq, Eq, Hash)]
pub struct Resrc {
    pub resrc_type: [u8; 3],
    pub method: ResrcMethod,
}

/// The model of a [`ResrcMethod`].
pub enum ResrcMethodView {
    Null,
    Binary { resrc_type: Seq<u8>, revision: ResrcRevision, is_encrypted: bool, data: Seq<u8> },
}

/// The model of a [`Resrc`].
pub struct ResrcView {
    pub resrc_type: Seq<u8>,
    pub method: ResrcMethodView,
}

impl View for ResrcMethod {
    type V = ResrcMethodView;

    open spec fn view(&self) -> ResrcMethodView {
        match self {
            ResrcMethod::Null => ResrcMethodView::Null,
            ResrcMethod::Binary { resrc_type, revision, is_encrypted, data } => ResrcMethodView::Binary {
                resrc_type: resrc_type@,
                revision: *revision,
                is_encrypted: *is_encrypted,
                data: data@,
            },
        }
    }
}

impl View for Resrc {
    type V = ResrcView;

    open spec fn view(&self) -> ResrcView {
        ResrcView { resrc_type: self.resrc_type@, method: self.method@ }
    }
}

impl ResrcView {
    /// A resource as the reader makes it: the type tag has three bytes, and
    /// a binary resource carries the same tag a second time.
    pub open spec fn wf(self) -> bool {
        &&& self.resrc_type.len() == 3
        &&& self.method matches ResrcMethodView::Binary { resrc_type, .. } ==> resrc_type
            == self.resrc_type
    }
}

/// What the header of a binary resource says.
#[derive(Debug, Clone, Copy, PartialEq, Eq, Hash)]
pub struct Envelope {
    pub revision: ResrcRevision,
    /// The offset of the dependency table, where the header has one.
    pub dependency_table_offset: Option<u32>,
    /// Whether the payload is a chunked stream.
    pub is_compressed: bool,
    /// Where the payload starts.
    pub payload_start: usize,
}

/// The header of a binary resource, read from the whole of its bytes. The
/// fields stand in this order, each only where the revision has it: offset
/// of the dependency table, branch id and branch revision, compression flags
/// (read and dropped), compression marker.
pub open spec fn parse_envelope(bytes: Seq<u8>) -> Result<Envelope, Error> {
    if bytes.len() < 8 {
        Err(Error::Io)
    } else {
        let head = be_u32(bytes.subrange(4, 8));
        let early = ResrcRevision::of_head(head).spec_fields();
        let branch_at: int = if early.dependency_table_offset {
            12
        } else {
            8
        };
        let flags_at: int = if early.branch {
            branch_at + 4
        } else {
            branch_at
        };
        if bytes.len() < flags_at {
            Err(Error::Io)
        } else {
            let revision = if early.branch {
                ResrcRevision {
                    head,
                    branch_id: be_u16(bytes.subrange(branch_at, branch_at + 2)),
                    branch_revision: be_u16(bytes.subrange(branch_at + 2, branch_at + 4)),
                }
            } else {
                ResrcRevision::of_head(head)
            };
            let fields = revision.spec_fields();
            let marker_at: int = if fields.compression_flags {
                flags_at + 1
            } else {
                flags_at
            };
            let payload_at: int = if fields.compression_marker {
                marker_at + 1
            } else {
                marker_at
            };
            if bytes.len() < payload_at {
                Err(Error::Io)
            } else {
                Ok(
                    Envelope {
                        revision,
                        dependency_table_offset: if fields.dependency_table_offset {
                            Some(be_u32(bytes.subrange(8, 12)))
                        } else {
                            None
                        },
                        is_compressed: fields.compression_marker && bytes[marker_at] != 0,
                        payload_start: payload_at as usize,
                    },
                )
            }
        }
    }
}

/// A payload that is not compressed: the bytes from `start` up to the
/// dependency table, or up to the end of the file where the header names no
/// dependency table.
pub open spec fn raw_payload(bytes: Seq<u8>, start: int, dependency_table_offset: Option<u32>) -> Result<
    Seq<u8>,
    Error,
> {
    let end: int = match dependency_table_offset {
        Some(offset) => offset as int,
        None => bytes.len() as int,
    };
    if end < start || bytes.len() < end {
        Err(Error::FormatCorruption)
    } else {
        Ok(bytes.subrange(start, end))
    }
}

/// The payload of a binary resource with the given header.
pub open spec fn envelope_payload(bytes: Seq<u8>, envelope: Envelope) -> Result<Seq<u8>, Error> {
    if envelope.is_compressed {
        spec_decompress(bytes.skip(envelope.payload_start as int))
    } else {
        raw_payload(bytes, envelope.payload_start as int, envelope.dependency_table_offset)
    }
}

/// The resource that a file's bytes hold.
pub open spec fn parse_resource(bytes: Seq<u8>) -> Result<ResrcView, Error> {
    if bytes.len() < 4 {
        Err(Error::Io)
    } else {
        let resrc_type = bytes.subrange(0, 3);
        let method = bytes[3];
        if method != METHOD_BINARY && method != METHOD_ENCRYPTED {
            Ok(ResrcView { resrc_type, method: ResrcMethodView::Null })
        } else {
            match parse_envelope(bytes) {
                Err(e) => Err(e),
                Ok(envelope) => match envelope_payload(bytes, envelope) {
                    Err(e) => Err(e),
                    Ok(data) => Ok(
                        ResrcView {
                            resrc_type,
                            method: ResrcMethodView::Binary {
                                resrc_type,
                                revision: envelope.revision,
                                is_encrypted: method == METHOD_ENCRYPTED,
                                data,
                            },
                        },
                    ),
                },
            }
        }
    }
}

/// The model of a result that holds a resource.
pub open spec fn resrc_result(r: Result<Resrc, Error>) -> Result<ResrcView, Error> {
    match r {
        Ok(resrc) => Ok(resrc@),
        Err(e) => Err(e),
    }
}

/// Reads the header of a binary resource from the whole of its bytes.
///
/// Fails with [`Error::Io`] when the bytes end inside the header.
pub fn read_envelope(bytes: &[u8]) -> (r: Result<Envelope, Error>)
    ensures
        r == parse_envelope(bytes@),
{
    if bytes.len() < 8 {
        return Err(Error::Io);
    }
    let head: u32 = get_be_u32(bytes, 4);
    let early = (ResrcRevision { head, branch_id: 0, branch_revision: 0 }).fields();
    let mut pos: usize = 8;
    let mut dependency_table_offset: Option<u32> = None;
    if early.dependency_table_offset {
        if bytes.len() < 12 {
            return Err(Error::Io);
        }
        dependency_table_offset = Some(get_be_u32(bytes, 8));
        pos = 12;
    }
    let mut revision = ResrcRevision { head, branch_id: 0, branch_revision: 0 };
    if early.branch {
        if bytes.len() - pos < 4 {
            return Err(Error::Io);
        }
        revision.branch_id = get_be_u16(bytes, pos);
        revision.branch_revision = get_be_u16(bytes, pos + 2);
        pos = pos + 4;
    }
    let fields = revision.fields();
    if fields.compression_flags {
        if bytes.len() - pos < 1 {
            return Err(Error::Io);
        }
        pos = pos + 1;
    }
    let mut is_compressed: bool = false;
    if fields.compression_marker {
        if bytes.len() - pos < 1 {
            return Err(Error::Io);
        }
        is_compressed = bytes[pos] != 0;
        pos = pos + 1;
    }
    Ok(Envelope { revision, dependency_table_offset, is_compressed, payload_start: pos })
}

/// Reads a payload that is not compressed.
///
/// Fails with [`Error::FormatCorruption`] when the dependency table is said
/// to start before the payload or beyond the end of the file.
pub fn read_raw_payload(bytes: &[u8], start: usize, dependency_table_offset: Option<u32>) -> (r:
    Result<Vec<u8>, Error>)
    ensures
        bytes_result(r) == raw_payload(bytes@, start as int, dependency_table_offset),
{
    let end: usize = match dependency_table_offset {
        Some(offset) => {
            if offset as u64 > bytes.len() as u64 {
                return Err(Error::FormatCorruption);
            }
            offset as usize
        },
        None => bytes.len(),
    };
    if end < start {
        return Err(Error::FormatCorruption);
    }
    Ok(slice_to_vec(slice_subrange(bytes, start, end)))
}

impl Resrc {
    /// Decodes a container from the bytes of its file.
    ///
    /// A method byte other than `b` or `e` gives a resource without payload,
    /// and nothing after that byte is read. Otherwise the header is read as
    /// the revision demands, and the payload is decompressed where the header
    /// says that it is compressed.
    ///
    /// Fails with [`Error::Io`] when the bytes end inside the tag, the method
    /// byte, the header or the chunk table; with [`Error::FormatCorruption`]
    /// when the payload is said to be longer than what is there, or a chunk
    /// has another size than declared; with [`Error::Decompression`] when a
    /// chunk is not a valid zlib stream.
    pub fn new(bytes: &[u8]) -> (r: Result<Resrc, Error>)
        ensures
            resrc_result(r) == parse_resource(bytes@),
            r matches Ok(resrc) ==> resrc@.wf(),
    {
        if bytes.len() < 4 {
            return Err(Error::Io);
        }
        let resrc_type: [u8; 3] = [bytes[0], bytes[1], bytes[2]];
        assert(resrc_type@ =~= bytes@.subrange(0, 3));
        let method: u8 = bytes[3];
        if method != METHOD_BINARY && method != METHOD_ENCRYPTED {
            return Ok(Resrc { resrc_type, method: ResrcMethod::Null });
        }
        let envelope = match read_envelope(bytes) {
            Ok(envelope) => envelope,
            Err(e) => {
                return Err(e);
            },
        };
        let payload = if envelope.is_compressed {
            let stream = slice_subrange(bytes, envelope.payload_start, bytes.len());
            assert(stream@ =~= bytes@.skip(envelope.payload_start as int));
            decompress(stream)
        } else {
            read_raw_payload(bytes, envelope.payload_start, envelope.dependency_table_offset)
        };
        match payload {
            Err(e) => Err(e),
            Ok(data) => Ok(
                Resrc {
                    resrc_type,
                    method: ResrcMethod::Binary {
                        resrc_type,
                        revision: envelope.revision,
                        is_encrypted: method == METHOD_ENCRYPTED,
                        data,
                    },
                },
            ),
        }
    }
}

/// The header fields come in with rising revisions, one after the other:
/// a revision that has a later field has every earlier one. Before the first
/// threshold a header has none of them, from the last threshold on all four.
pub proof fn lemma_fields_by_revision(revision: ResrcRevision)
    ensures
        revision.head < REV_DEPENDENCY_TABLE ==> revision.spec_fields() == (EnvelopeFields {
            dependency_table_offset: false,
            branch: false,
            compression_flags: false,
            compression_marker: false,
        }),
        revision.head >= REV_COMPRESSION_FLAGS ==> revision.spec_fields() == (EnvelopeFields {
            dependency_table_offset: true,
            branch: true,
            compression_flags: true,
            compression_marker: true,
        }),
        revision.spec_fields().compression_flags ==> revision.spec_fields().branch,
        revision.spec_fields().branch ==> revision.spec_fields().compression_marker,
        revision.spec_fields().compression_marker ==> revision.spec_fields().dependency_table_offset,
{
}

} // verus!
