//! Framing: the byte layout shared by every message of the bridge.
//!
//! A frame is a kind byte, a count byte and that many fields; a field is its
//! length as eight little-endian bytes, then its content.

use crate::text::append_bytes;
use vstd::bytes::*;
use vstd::prelude::*;
use vstd::slice::*;

verus! {

/// Why bytes were not accepted as a message.
#[derive(Debug, Clone, Copy, PartialEq, Eq, Structural)]
pub enum DecodeError {
    /// The bytes end before the frame does.
    Truncated,
    /// Bytes follow the last field.
    TrailingBytes,
    /// The kind byte names no message kind.
    UnknownKind,
    /// The number of fields is not that of the kind.
    FieldCount,
    /// A text field is not UTF-8.
    BadText,
    /// A number field is not eight bytes long.
    BadNumber,
    /// A code field is not one byte long, or holds no known code.
    BadCode,
}

/// A kind byte and the fields that follow it.
#[derive(Debug, PartialEq, Eq)]
pub struct Frame {
    pub kind: u8,
    pub fields: Vec<Vec<u8>>,
}

/// The model of a [`Frame`].
pub struct FrameView {
    pub kind: u8,
    pub fields: Seq<Seq<u8>>,
}

/// The contents of a list of fields.
pub open spec fn fields_view(v: Seq<Vec<u8>>) -> Seq<Seq<u8>> {
    Seq::new(v.len(), |i: int| v[i]@)
}

impl View for Frame {
    type V = FrameView;

    open spec fn view(&self) -> FrameView {
        FrameView { kind: self.kind, fields: fields_view(self.fields@) }
    }
}

/// The bytes of one field.
pub open spec fn field_wire(f: Seq<u8>) -> Seq<u8> {
    spec_u64_to_le_bytes(f.len() as u64) + f
}

/// The bytes of a list of fields.
pub open spec fn fields_wire(fs: Seq<Seq<u8>>) -> Seq<u8>
    decreases fs.len(),
{
    if fs.len() == 0 {
        Seq::empty()
    } else {
        field_wire(fs[0]) + fields_wire(fs.drop_first())
    }
}

/// The bytes of a frame.
pub open spec fn frame_wire(f: FrameView) -> Seq<u8> {
    seq![f.kind, f.fields.len() as u8] + fields_wire(f.fields)
}

/// The frame can be written: its count fits a byte and each length eight.
pub open spec fn frame_fits(f: FrameView) -> bool {
    &&& f.fields.len() <= 255
    &&& forall|i: int| 0 <= i < f.fields.len() ==> (#[trigger] f.fields[i]).len() <= u64::MAX
}

/// Reads `n` fields that must fill `bytes` exactly.
pub open spec fn parse_fields(bytes: Seq<u8>, n: nat) -> Result<Seq<Seq<u8>>, DecodeError>
    decreases n,
{
    if n == 0 {
        if bytes.len() == 0 {
            Ok(Seq::empty())
        } else {
            Err(DecodeError::TrailingBytes)
        }
    } else if bytes.len() < 8 {
        Err(DecodeError::Truncated)
    } else {
        let len = spec_u64_from_le_bytes(bytes.subrange(0, 8)) as int;
        if bytes.len() - 8 < len {
            Err(DecodeError::Truncated)
        } else {
            match parse_fields(bytes.subrange(8 + len, bytes.len() as int), (n - 1) as nat) {
                Ok(rest) => Ok(seq![bytes.subrange(8, 8 + len)] + rest),
                Err(e) => Err(e),
            }
        }
    }
}

/// Reads a frame that must fill `bytes` exactly.
pub open spec fn parse_frame(bytes: Seq<u8>) -> Result<FrameView, DecodeError> {
    if bytes.len() < 2 {
        Err(DecodeError::Truncated)
    } else {
        match parse_fields(bytes.subrange(2, bytes.len() as int), bytes[1] as nat) {
            Ok(fields) => Ok(FrameView { kind: bytes[0], fields }),
            Err(e) => Err(e),
        }
    }
}

/// The fields read so far, followed by what the rest gives.
pub open spec fn after(done: Seq<Seq<u8>>, rest: Result<Seq<Seq<u8>>, DecodeError>) -> Result<
    Seq<Seq<u8>>,
    DecodeError,
> {
    match rest {
        Ok(more) => Ok(done + more),
        Err(e) => Err(e),
    }
}

proof fn lemma_fields_wire_push(fs: Seq<Seq<u8>>, f: Seq<u8>)
    ensures
        fields_wire(fs.push(f)) == fields_wire(fs) + field_wire(f),
    decreases fs.len(),
{
    let t = fs.push(f);
    if fs.len() == 0 {
        assert(t.drop_first() =~= Seq::<Seq<u8>>::empty());
        assert(fields_wire(t.drop_first()) =~= Seq::<u8>::empty());
        assert(fields_wire(fs) =~= Seq::<u8>::empty());
        assert(t[0] == f);
        assert(fields_wire(t) =~= fields_wire(fs) + field_wire(f));
    } else {
        assert(t.drop_first() =~= fs.drop_first().push(f));
        lemma_fields_wire_push(fs.drop_first(), f);
        assert(t[0] == fs[0]);
        assert(fields_wire(t) == field_wire(fs[0]) + fields_wire(t.drop_first()));
        assert(fields_wire(fs) == field_wire(fs[0]) + fields_wire(fs.drop_first()));
        assert(fields_wire(t) =~= fields_wire(fs) + field_wire(f));
    }
}

/// Fields that were written are read back as they were.
pub proof fn lemma_parse_fields_wire(fs: Seq<Seq<u8>>)
    requires
        forall|i: int| 0 <= i < fs.len() ==> (#[trigger] fs[i]).len() <= u64::MAX,
    ensures
        parse_fields(fields_wire(fs), fs.len()) == Ok::<Seq<Seq<u8>>, DecodeError>(fs),
    decreases fs.len(),
{
    if fs.len() == 0 {
        assert(fs =~= Seq::<Seq<u8>>::empty());
    } else {
        let bytes = fields_wire(fs);
        let head = fs[0];
        let rest = fs.drop_first();
        lemma_auto_spec_u64_to_from_le_bytes();
        let lb = spec_u64_to_le_bytes(head.len() as u64);
        assert(lb.len() == 8);
        assert(bytes == lb + head + fields_wire(rest));
        assert(bytes.subrange(0, 8) =~= lb);
        let len = spec_u64_from_le_bytes(bytes.subrange(0, 8)) as int;
        assert(len == head.len());
        assert(bytes.subrange(8, 8 + len) =~= head);
        assert(bytes.subrange(8 + len, bytes.len() as int) =~= fields_wire(rest));
        assert forall|i: int| 0 <= i < rest.len() implies (#[trigger] rest[i]).len()
            <= u64::MAX by {
            assert(rest[i] == fs[i + 1]);
        }
        lemma_parse_fields_wire(rest);
        assert(seq![head] + rest =~= fs);
    }
}

/// A frame that was written is read back as it was.
pub proof fn lemma_frame_roundtrip(f: FrameView)
    requires
        frame_fits(f),
    ensures
        parse_frame(frame_wire(f)) == Ok::<FrameView, DecodeError>(f),
{
    let bytes = frame_wire(f);
    assert(bytes.subrange(2, bytes.len() as int) =~= fields_wire(f.fields));
    lemma_parse_fields_wire(f.fields);
    assert(bytes[1] as nat == f.fields.len());
}

/// Writes a frame.
pub fn write_frame(f: &Frame) -> (out: Vec<u8>)
    requires
        f@.fields.len() <= 255,
    ensures
        out@ == frame_wire(f@),
{
    let mut out: Vec<u8> = Vec::new();
    out.push(f.kind);
    out.push(f.fields.len() as u8);
    let mut i: usize = 0;
    while i < f.fields.len()
        invariant
            i <= f.fields@.len(),
            out@ == seq![f.kind, f.fields@.len() as u8] + fields_wire(f@.fields.take(i as int)),
        decreases f.fields@.len() - i,
    {
        let field = &f.fields[i];
        let len_bytes = u64_to_le_bytes(field.len() as u64);
        proof {
            lemma_fields_wire_push(f@.fields.take(i as int), field@);
            assert(f@.fields.take(i + 1) =~= f@.fields.take(i as int).push(field@));
        }
        append_bytes(&mut out, len_bytes.as_slice());
        append_bytes(&mut out, field.as_slice());
        i = i + 1;
    }
    assert(f@.fields.take(i as int) =~= f@.fields);
    out
}

/// Reads a frame: the frame that these bytes are, or why they are none.
pub fn read_frame(bytes: &[u8]) -> (r: Result<Frame, DecodeError>)
    ensures
        match r {
            Ok(f) => parse_frame(bytes@) == Ok::<FrameView, DecodeError>(f@),
            Err(e) => parse_frame(bytes@) == Err::<FrameView, DecodeError>(e),
        },
{
    if bytes.len() < 2 {
        return Err(DecodeError::Truncated);
    }
    let kind = bytes[0];
    let n = bytes[1];
    let total = bytes.len();
    let ghost all = bytes@.subrange(2, total as int);
    let mut fields: Vec<Vec<u8>> = Vec::new();
    let mut pos: usize = 2;
    let mut i: u8 = 0;
    while i < n
        invariant
            total == bytes@.len(),
            kind == bytes@[0],
            n == bytes@[1],
            2 <= pos <= total,
            i <= n,
            all == bytes@.subrange(2, total as int),
            fields@.len() == i,
            parse_fields(all, n as nat) == after(
                fields_view(fields@),
                parse_fields(bytes@.subrange(pos as int, total as int), (n - i) as nat),
            ),
        decreases n - i,
    {
        let ghost rest = bytes@.subrange(pos as int, total as int);
        if total - pos < 8 {
            return Err(DecodeError::Truncated);
        }
        let len = u64_from_le_bytes(slice_subrange(bytes, pos, pos + 8));
        assert(bytes@.subrange(pos as int, pos + 8) =~= rest.subrange(0, 8));
        if ((total - pos - 8) as u64) < len {
            return Err(DecodeError::Truncated);
        }
        let size = len as usize;
        let field = slice_to_vec(slice_subrange(bytes, pos + 8, pos + 8 + size));
        proof {
            assert(field@ =~= rest.subrange(8, 8 + size));
            assert(rest.subrange(8 + size, rest.len() as int) =~= bytes@.subrange(
                pos + 8 + size,
                total as int,
            ));
            let more = parse_fields(
                bytes@.subrange(pos + 8 + size, total as int),
                (n - i - 1) as nat,
            );
            assert(parse_fields(rest, (n - i) as nat) == after(seq![field@], more));
            assert(fields_view(fields@.push(field)) =~= fields_view(fields@) + seq![field@]);
            match more {
                Ok(m) => {
                    assert(fields_view(fields@) + (seq![field@] + m) =~= (fields_view(fields@)
                        + seq![field@]) + m);
                },
                Err(_) => {},
            }
        }
        fields.push(field);
        pos = pos + 8 + size;
        i = i + 1;
    }
    if pos != total {
        return Err(DecodeError::TrailingBytes);
    }
    proof {
        assert(bytes@.subrange(pos as int, total as int) =~= Seq::<u8>::empty());
        assert(fields_view(fields@) + Seq::<Seq<u8>>::empty() =~= fields_view(fields@));
    }
    Ok(Frame { kind, fields })
}

} // verus!
