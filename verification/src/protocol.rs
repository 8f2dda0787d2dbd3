//! The bridge protocol: the envelope that the relay and its clients exchange,
//! its byte encoding, and the pairing of a request with its response.
//!
//! On the wire an envelope is a frame whose kind byte names the variant and
//! whose first field is the correlation identifier. Texts travel as UTF-8,
//! numbers as eight little-endian bytes, an error kind as one code byte.

use crate::frame::{
    frame_fits, frame_wire, lemma_frame_roundtrip, parse_frame, read_frame, write_frame,
    DecodeError, Frame, FrameView, fields_view,
};
use crate::ident::{get_nanid, is_suffix, tagged, SUFFIX_LEN};
use crate::text::str_eq;
use vstd::bytes::*;
use vstd::prelude::*;
use vstd::slice::*;
use vstd::string::*;
use vstd::utf8::*;

verus! {

/// What an agent is asked to do with a job.
#[derive(Debug, PartialEq, Eq)]
pub enum JobAction {
    /// Run the command now, for at most `timeout_secs` seconds.
    Run { command: String, timeout_secs: u64 },
    /// Cancel the run with this identifier.
    Cancel { run_id: String },
    /// Deploy the bundle again.
    Redeploy { bundle: String },
}

/// The model of a [`JobAction`].
pub enum JobActionView {
    Run { command: Seq<char>, timeout_secs: u64 },
    Cancel { run_id: Seq<char> },
    Redeploy { bundle: Seq<char> },
}

impl View for JobAction {
    type V = JobActionView;

    open spec fn view(&self) -> JobActionView {
        match self {
            JobAction::Run { command, timeout_secs } => JobActionView::Run {
                command: command@,
                timeout_secs: *timeout_secs,
            },
            JobAction::Cancel { run_id } => JobActionView::Cancel { run_id: run_id@ },
            JobAction::Redeploy { bundle } => JobActionView::Redeploy { bundle: bundle@ },
        }
    }
}

impl JobAction {
    /// A copy of the action.
    pub fn duplicate(&self) -> (a: JobAction)
        ensures
            a@ == self@,
    {
        match self {
            JobAction::Run { command, timeout_secs } => JobAction::Run {
                command: command.clone(),
                timeout_secs: *timeout_secs,
            },
            JobAction::Cancel { run_id } => JobAction::Cancel { run_id: run_id.clone() },
            JobAction::Redeploy { bundle } => JobAction::Redeploy { bundle: bundle.clone() },
        }
    }
}

/// A file operation on one agent, scoped to a path.
#[derive(Debug, PartialEq, Eq)]
pub enum SftpRequest {
    /// List the directory.
    ReadDir { path: String },
    /// Write `data` into the file at `offset`.
    Upload { path: String, offset: u64, data: Vec<u8> },
    /// Read `length` bytes of the file from `offset`.
    Download { path: String, offset: u64, length: u64 },
    /// Remove the file.
    Remove { path: String },
}

/// The model of an [`SftpRequest`].
pub enum SftpRequestView {
    ReadDir { path: Seq<char> },
    Upload { path: Seq<char>, offset: u64, data: Seq<u8> },
    Download { path: Seq<char>, offset: u64, length: u64 },
    Remove { path: Seq<char> },
}

impl View for SftpRequest {
    type V = SftpRequestView;

    open spec fn view(&self) -> SftpRequestView {
        match self {
            SftpRequest::ReadDir { path } => SftpRequestView::ReadDir { path: path@ },
            SftpRequest::Upload { path, offset, data } => SftpRequestView::Upload {
                path: path@,
                offset: *offset,
                data: data@,
            },
            SftpRequest::Download { path, offset, length } => SftpRequestView::Download {
                path: path@,
                offset: *offset,
                length: *length,
            },
            SftpRequest::Remove { path } => SftpRequestView::Remove { path: path@ },
        }
    }
}

/// A step in the life of a tunnel session.
#[derive(Debug, Clone, Copy, PartialEq, Eq, Structural)]
pub enum TunnelOp {
    /// Ask the agent to open its end.
    Open,
    /// The agent's end is open.
    Ack,
    /// One end was closed.
    Close,
}

/// The kinds of failure that a response can report.
#[derive(Debug, Clone, Copy, PartialEq, Eq, Structural)]
pub enum ErrorKind {
    /// A malformed envelope.
    Protocol,
    /// No live connection for the routing key.
    UnreachableTarget,
    /// No response before the deadline.
    Timeout,
    /// A file operation failed on the agent.
    Transfer,
    /// An end of the tunnel was closed.
    TunnelClosed,
}

/// What an envelope carries.
#[derive(Debug, PartialEq, Eq)]
pub enum Payload {
    /// A job dispatch.
    Job(JobAction),
    /// A file operation.
    File(SftpRequest),
    /// Tunnel control for one session.
    Tunnel { session: String, op: TunnelOp },
    /// Opaque bytes of one tunnel session.
    TunnelData { session: String, chunk: Vec<u8> },
    /// A sign of life.
    Heartbeat,
    /// The answer to a request.
    Response { body: Vec<u8> },
    /// The failure of a request.
    Failure { kind: ErrorKind, message: String },
}

/// The model of a [`Payload`].
pub enum PayloadView {
    Job(JobActionView),
    File(SftpRequestView),
    Tunnel { session: Seq<char>, op: TunnelOp },
    TunnelData { session: Seq<char>, chunk: Seq<u8> },
    Heartbeat,
    Response { body: Seq<u8> },
    Failure { kind: ErrorKind, message: Seq<char> },
}

impl View for Payload {
    type V = PayloadView;

    open spec fn view(&self) -> PayloadView {
        match self {
            Payload::Job(a) => PayloadView::Job(a@),
            Payload::File(r) => PayloadView::File(r@),
            Payload::Tunnel { session, op } => PayloadView::Tunnel { session: session@, op: *op },
            Payload::TunnelData { session, chunk } => PayloadView::TunnelData {
                session: session@,
                chunk: chunk@,
            },
            Payload::Heartbeat => PayloadView::Heartbeat,
            Payload::Response { body } => PayloadView::Response { body: body@ },
            Payload::Failure { kind, message } => PayloadView::Failure {
                kind: *kind,
                message: message@,
            },
        }
    }
}

/// The unit of transport: a correlation identifier and a payload.
#[derive(Debug, PartialEq, Eq)]
pub struct Envelope {
    pub corr_id: String,
    pub payload: Payload,
}

/// The model of an [`Envelope`].
pub struct EnvelopeView {
    pub corr_id: Seq<char>,
    pub payload: PayloadView,
}

impl View for Envelope {
    type V = EnvelopeView;

    open spec fn view(&self) -> EnvelopeView {
        EnvelopeView { corr_id: self.corr_id@, payload: self.payload@ }
    }
}

/// The code byte of an error kind.
pub open spec fn error_code(k: ErrorKind) -> u8 {
    match k {
        ErrorKind::Protocol => 1,
        ErrorKind::UnreachableTarget => 2,
        ErrorKind::Timeout => 3,
        ErrorKind::Transfer => 4,
        ErrorKind::TunnelClosed => 5,
    }
}

/// The kind byte and the fields of an envelope.
pub open spec fn frame_of(e: EnvelopeView) -> FrameView {
    let c = encode_utf8(e.corr_id);
    match e.payload {
        PayloadView::Job(JobActionView::Run { command, timeout_secs }) => FrameView {
            kind: 1,
            fields: seq![c, encode_utf8(command), spec_u64_to_le_bytes(timeout_secs)],
        },
        PayloadView::Job(JobActionView::Cancel { run_id }) => FrameView {
            kind: 2,
            fields: seq![c, encode_utf8(run_id)],
        },
        PayloadView::Job(JobActionView::Redeploy { bundle }) => FrameView {
            kind: 3,
            fields: seq![c, encode_utf8(bundle)],
        },
        PayloadView::File(SftpRequestView::ReadDir { path }) => FrameView {
            kind: 4,
            fields: seq![c, encode_utf8(path)],
        },
        PayloadView::File(SftpRequestView::Upload { path, offset, data }) => FrameView {
            kind: 5,
            fields: seq![c, encode_utf8(path), spec_u64_to_le_bytes(offset), data],
        },
        PayloadView::File(SftpRequestView::Download { path, offset, length }) => FrameView {
            kind: 6,
            fields: seq![
                c,
                encode_utf8(path),
                spec_u64_to_le_bytes(offset),
                spec_u64_to_le_bytes(length),
            ],
        },
        PayloadView::File(SftpRequestView::Remove { path }) => FrameView {
            kind: 7,
            fields: seq![c, encode_utf8(path)],
        },
        PayloadView::Tunnel { session, op } => FrameView {
            kind: match op {
                TunnelOp::Open => 8,
                TunnelOp::Ack => 9,
                TunnelOp::Close => 10,
            },
            fields: seq![c, encode_utf8(session)],
        },
        PayloadView::TunnelData { session, chunk } => FrameView {
            kind: 11,
            fields: seq![c, encode_utf8(session), chunk],
        },
        PayloadView::Heartbeat => FrameView { kind: 12, fields: seq![c] },
        PayloadView::Response { body } => FrameView { kind: 13, fields: seq![c, body] },
        PayloadView::Failure { kind, message } => FrameView {
            kind: 14,
            fields: seq![c, seq![error_code(kind)], encode_utf8(message)],
        },
    }
}

/// The bytes of an envelope.
pub open spec fn wire(e: EnvelopeView) -> Seq<u8> {
    frame_wire(frame_of(e))
}

/// How many fields a kind has, if it is a kind.
pub open spec fn arity(kind: u8) -> Option<nat> {
    if kind == 1 {
        Some(3)
    } else if kind == 5 || kind == 6 {
        Some(4)
    } else if kind == 11 || kind == 14 {
        Some(3)
    } else if kind == 12 {
        Some(1)
    } else if 2 <= kind <= 13 {
        Some(2)
    } else {
        None
    }
}

/// The text in a field.
pub open spec fn text_of(field: Seq<u8>) -> Result<Seq<char>, DecodeError> {
    if valid_utf8(field) {
        Ok(decode_utf8(field))
    } else {
        Err(DecodeError::BadText)
    }
}

/// The number in a field.
pub open spec fn num_of(field: Seq<u8>) -> Result<u64, DecodeError> {
    if field.len() == 8 {
        Ok(spec_u64_from_le_bytes(field))
    } else {
        Err(DecodeError::BadNumber)
    }
}

/// The error kind in a field.
pub open spec fn code_of(field: Seq<u8>) -> Result<ErrorKind, DecodeError> {
    if field.len() != 1 {
        Err(DecodeError::BadCode)
    } else if field[0] == 1 {
        Ok(ErrorKind::Protocol)
    } else if field[0] == 2 {
        Ok(ErrorKind::UnreachableTarget)
    } else if field[0] == 3 {
        Ok(ErrorKind::Timeout)
    } else if field[0] == 4 {
        Ok(ErrorKind::Transfer)
    } else if field[0] == 5 {
        Ok(ErrorKind::TunnelClosed)
    } else {
        Err(DecodeError::BadCode)
    }
}

/// The payload in a frame of a known kind with the right number of fields.
/// Fields are checked in order; the first that fails gives the error.
pub open spec fn payload_of(f: FrameView) -> Result<PayloadView, DecodeError> {
    let a = f.fields;
    if f.kind == 12 {
        Ok(PayloadView::Heartbeat)
    } else if f.kind == 13 {
        Ok(PayloadView::Response { body: a[1] })
    } else if f.kind == 14 {
        match code_of(a[1]) {
            Err(e) => Err(e),
            Ok(kind) => match text_of(a[2]) {
                Err(e) => Err(e),
                Ok(message) => Ok(PayloadView::Failure { kind, message }),
            },
        }
    } else {
        match text_of(a[1]) {
            Err(e) => Err(e),
            Ok(t) => if f.kind == 1 {
                match num_of(a[2]) {
                    Err(e) => Err(e),
                    Ok(n) => Ok(
                        PayloadView::Job(JobActionView::Run { command: t, timeout_secs: n }),
                    ),
                }
            } else if f.kind == 2 {
                Ok(PayloadView::Job(JobActionView::Cancel { run_id: t }))
            } else if f.kind == 3 {
                Ok(PayloadView::Job(JobActionView::Redeploy { bundle: t }))
            } else if f.kind == 4 {
                Ok(PayloadView::File(SftpRequestView::ReadDir { path: t }))
            } else if f.kind == 5 {
                match num_of(a[2]) {
                    Err(e) => Err(e),
                    Ok(n) => Ok(
                        PayloadView::File(
                            SftpRequestView::Upload { path: t, offset: n, data: a[3] },
                        ),
                    ),
                }
            } else if f.kind == 6 {
                match num_of(a[2]) {
                    Err(e) => Err(e),
                    Ok(n) => match num_of(a[3]) {
                        Err(e) => Err(e),
                        Ok(m) => Ok(
                            PayloadView::File(
                                SftpRequestView::Download { path: t, offset: n, length: m },
                            ),
                        ),
                    },
                }
            } else if f.kind == 7 {
                Ok(PayloadView::File(SftpRequestView::Remove { path: t }))
            } else if f.kind == 8 {
                Ok(PayloadView::Tunnel { session: t, op: TunnelOp::Open })
            } else if f.kind == 9 {
                Ok(PayloadView::Tunnel { session: t, op: TunnelOp::Ack })
            } else if f.kind == 10 {
                Ok(PayloadView::Tunnel { session: t, op: TunnelOp::Close })
            } else {
                Ok(PayloadView::TunnelData { session: t, chunk: a[2] })
            },
        }
    }
}

/// The envelope in a frame, or why the frame holds none.
pub open spec fn unframe(f: FrameView) -> Result<EnvelopeView, DecodeError> {
    match arity(f.kind) {
        None => Err(DecodeError::UnknownKind),
        Some(n) => if f.fields.len() != n {
            Err(DecodeError::FieldCount)
        } else {
            match text_of(f.fields[0]) {
                Err(e) => Err(e),
                Ok(corr_id) => match payload_of(f) {
                    Err(e) => Err(e),
                    Ok(payload) => Ok(EnvelopeView { corr_id, payload }),
                },
            }
        },
    }
}

/// The envelope that bytes encode, or why they encode none.
pub open spec fn decode_spec(bytes: Seq<u8>) -> Result<EnvelopeView, DecodeError> {
    match parse_frame(bytes) {
        Err(e) => Err(e),
        Ok(f) => unframe(f),
    }
}

/// Every part of the envelope is short enough for its length to be written.
pub open spec fn fits(e: EnvelopeView) -> bool {
    frame_fits(frame_of(e))
}

/// The frame of an envelope holds that envelope.
pub proof fn lemma_unframe_frame_of(e: EnvelopeView)
    ensures
        unframe(frame_of(e)) == Ok::<EnvelopeView, DecodeError>(e),
{
    broadcast use encode_utf8_valid_utf8, encode_utf8_decode_utf8;

    lemma_auto_spec_u64_to_from_le_bytes();
    let f = frame_of(e);
    assert(text_of(f.fields[0]) == Ok::<Seq<char>, DecodeError>(e.corr_id));
    match e.payload {
        PayloadView::Failure { kind, message } => {
            assert(code_of(f.fields[1]) == Ok::<ErrorKind, DecodeError>(kind));
        },
        _ => {},
    }
    assert(payload_of(f) == Ok::<PayloadView, DecodeError>(e.payload));
}

/// Decoding the bytes of an envelope gives that envelope back.
pub proof fn lemma_decode_encode(e: EnvelopeView)
    requires
        fits(e),
    ensures
        decode_spec(wire(e)) == Ok::<EnvelopeView, DecodeError>(e),
{
    lemma_frame_roundtrip(frame_of(e));
    lemma_unframe_frame_of(e);
}

/// Two envelopes with the same bytes are the same envelope.
pub proof fn lemma_wire_injective(a: EnvelopeView, b: EnvelopeView)
    requires
        fits(a),
        fits(b),
        wire(a) == wire(b),
    ensures
        a == b,
{
    lemma_decode_encode(a);
    lemma_decode_encode(b);
}

/// Calls `String::from_utf8` on a copy of the bytes: the text that they
/// encode when they are UTF-8, nothing otherwise.
#[verifier::external_body]
fn text_from_utf8(bytes: &Vec<u8>) -> (r: Option<String>)
    ensures
        r is Some <==> valid_utf8(bytes@),
        r matches Some(s) ==> s@ == decode_utf8(bytes@),
{
    String::from_utf8(bytes.to_vec()).ok()
}

fn read_text(field: &Vec<u8>) -> (r: Result<String, DecodeError>)
    ensures
        match r {
            Ok(s) => text_of(field@) == Ok::<Seq<char>, DecodeError>(s@),
            Err(e) => text_of(field@) == Err::<Seq<char>, DecodeError>(e),
        },
{
    match text_from_utf8(field) {
        Some(s) => Ok(s),
        None => Err(DecodeError::BadText),
    }
}

fn read_num(field: &Vec<u8>) -> (r: Result<u64, DecodeError>)
    ensures
        r == num_of(field@),
{
    if field.len() == 8 {
        Ok(u64_from_le_bytes(field.as_slice()))
    } else {
        Err(DecodeError::BadNumber)
    }
}

fn read_code(field: &Vec<u8>) -> (r: Result<ErrorKind, DecodeError>)
    ensures
        r == code_of(field@),
{
    if field.len() != 1 {
        return Err(DecodeError::BadCode);
    }
    let c = field[0];
    if c == 1 {
        Ok(ErrorKind::Protocol)
    } else if c == 2 {
        Ok(ErrorKind::UnreachableTarget)
    } else if c == 3 {
        Ok(ErrorKind::Timeout)
    } else if c == 4 {
        Ok(ErrorKind::Transfer)
    } else if c == 5 {
        Ok(ErrorKind::TunnelClosed)
    } else {
        Err(DecodeError::BadCode)
    }
}

fn write_code(kind: ErrorKind) -> (c: u8)
    ensures
        c == error_code(kind),
{
    match kind {
        ErrorKind::Protocol => 1,
        ErrorKind::UnreachableTarget => 2,
        ErrorKind::Timeout => 3,
        ErrorKind::Transfer => 4,
        ErrorKind::TunnelClosed => 5,
    }
}

fn copy_bytes(v: &Vec<u8>) -> (out: Vec<u8>)
    ensures
        out@ == v@,
{
    slice_to_vec(v.as_slice())
}

fn text_bytes(s: &String) -> (out: Vec<u8>)
    ensures
        out@ == encode_utf8(s@),
{
    s.as_str().as_bytes_vec()
}

/// The frame of an envelope.
pub fn to_frame(e: &Envelope) -> (f: Frame)
    ensures
        f@ == frame_of(e@),
        f@.fields.len() <= 4,
{
    let c = text_bytes(&e.corr_id);
    match &e.payload {
        Payload::Job(JobAction::Run { command, timeout_secs }) => {
            let fields = vec![c, text_bytes(command), u64_to_le_bytes(*timeout_secs)];
            assert(fields_view(fields@) =~= frame_of(e@).fields);
            Frame { kind: 1, fields }
        },
        Payload::Job(JobAction::Cancel { run_id }) => {
            let fields = vec![c, text_bytes(run_id)];
            assert(fields_view(fields@) =~= frame_of(e@).fields);
            Frame { kind: 2, fields }
        },
        Payload::Job(JobAction::Redeploy { bundle }) => {
            let fields = vec![c, text_bytes(bundle)];
            assert(fields_view(fields@) =~= frame_of(e@).fields);
            Frame { kind: 3, fields }
        },
        Payload::File(SftpRequest::ReadDir { path }) => {
            let fields = vec![c, text_bytes(path)];
            assert(fields_view(fields@) =~= frame_of(e@).fields);
            Frame { kind: 4, fields }
        },
        Payload::File(SftpRequest::Upload { path, offset, data }) => {
            let fields = vec![c, text_bytes(path), u64_to_le_bytes(*offset), copy_bytes(data)];
            assert(fields_view(fields@) =~= frame_of(e@).fields);
            Frame { kind: 5, fields }
        },
        Payload::File(SftpRequest::Download { path, offset, length }) => {
            let fields = vec![
                c,
                text_bytes(path),
                u64_to_le_bytes(*offset),
                u64_to_le_bytes(*length),
            ];
            assert(fields_view(fields@) =~= frame_of(e@).fields);
            Frame { kind: 6, fields }
        },
        Payload::File(SftpRequest::Remove { path }) => {
            let fields = vec![c, text_bytes(path)];
            assert(fields_view(fields@) =~= frame_of(e@).fields);
            Frame { kind: 7, fields }
        },
        Payload::Tunnel { session, op } => {
            let kind: u8 = match op {
                TunnelOp::Open => 8,
                TunnelOp::Ack => 9,
                TunnelOp::Close => 10,
            };
            let fields = vec![c, text_bytes(session)];
            assert(fields_view(fields@) =~= frame_of(e@).fields);
            Frame { kind, fields }
        },
        Payload::TunnelData { session, chunk } => {
            let fields = vec![c, text_bytes(session), copy_bytes(chunk)];
            assert(fields_view(fields@) =~= frame_of(e@).fields);
            Frame { kind: 11, fields }
        },
        Payload::Heartbeat => {
            let fields = vec![c];
            assert(fields_view(fields@) =~= frame_of(e@).fields);
            Frame { kind: 12, fields }
        },
        Payload::Response { body } => {
            let fields = vec![c, copy_bytes(body)];
            assert(fields_view(fields@) =~= frame_of(e@).fields);
            Frame { kind: 13, fields }
        },
        Payload::Failure { kind, message } => {
            let code: Vec<u8> = vec![write_code(*kind)];
            let fields = vec![c, code, text_bytes(message)];
            assert(code@ =~= seq![error_code(*kind)]);
            assert(fields_view(fields@) =~= frame_of(e@).fields);
            Frame { kind: 14, fields }
        },
    }
}

fn payload_from(f: &Frame) -> (r: Result<Payload, DecodeError>)
    requires
        arity(f.kind) == Some(f@.fields.len()),
    ensures
        match r {
            Ok(p) => payload_of(f@) == Ok::<PayloadView, DecodeError>(p@),
            Err(e) => payload_of(f@) == Err::<PayloadView, DecodeError>(e),
        },
{
    let kind = f.kind;
    if kind == 12 {
        return Ok(Payload::Heartbeat);
    }
    if kind == 13 {
        return Ok(Payload::Response { body: copy_bytes(&f.fields[1]) });
    }
    if kind == 14 {
        let code = match read_code(&f.fields[1]) {
            Ok(k) => k,
            Err(e) => {
                return Err(e);
            },
        };
        return match read_text(&f.fields[2]) {
            Ok(message) => Ok(Payload::Failure { kind: code, message }),
            Err(e) => Err(e),
        };
    }
    let t = match read_text(&f.fields[1]) {
        Ok(t) => t,
        Err(e) => {
            return Err(e);
        },
    };
    if kind == 1 {
        match read_num(&f.fields[2]) {
            Ok(n) => Ok(Payload::Job(JobAction::Run { command: t, timeout_secs: n })),
            Err(e) => Err(e),
        }
    } else if kind == 2 {
        Ok(Payload::Job(JobAction::Cancel { run_id: t }))
    } else if kind == 3 {
        Ok(Payload::Job(JobAction::Redeploy { bundle: t }))
    } else if kind == 4 {
        Ok(Payload::File(SftpRequest::ReadDir { path: t }))
    } else if kind == 5 {
        match read_num(&f.fields[2]) {
            Ok(n) => Ok(
                Payload::File(
                    SftpRequest::Upload { path: t, offset: n, data: copy_bytes(&f.fields[3]) },
                ),
            ),
            Err(e) => Err(e),
        }
    } else if kind == 6 {
        let n = match read_num(&f.fields[2]) {
            Ok(n) => n,
            Err(e) => {
                return Err(e);
            },
        };
        match read_num(&f.fields[3]) {
            Ok(m) => Ok(Payload::File(SftpRequest::Download { path: t, offset: n, length: m })),
            Err(e) => Err(e),
        }
    } else if kind == 7 {
        Ok(Payload::File(SftpRequest::Remove { path: t }))
    } else if kind == 8 {
        Ok(Payload::Tunnel { session: t, op: TunnelOp::Open })
    } else if kind == 9 {
        Ok(Payload::Tunnel { session: t, op: TunnelOp::Ack })
    } else if kind == 10 {
        Ok(Payload::Tunnel { session: t, op: TunnelOp::Close })
    } else {
        Ok(Payload::TunnelData { session: t, chunk: copy_bytes(&f.fields[2]) })
    }
}

fn arity_of(kind: u8) -> (r: Option<usize>)
    ensures
        match r {
            Some(n) => arity(kind) == Some(n as nat),
            None => arity(kind) is None,
        },
{
    if kind == 1 {
        Some(3)
    } else if kind == 5 || kind == 6 {
        Some(4)
    } else if kind == 11 || kind == 14 {
        Some(3)
    } else if kind == 12 {
        Some(1)
    } else if 2 <= kind && kind <= 13 {
        Some(2)
    } else {
        None
    }
}

/// The envelope in a frame, or why the frame holds none.
pub fn from_frame(f: &Frame) -> (r: Result<Envelope, DecodeError>)
    ensures
        match r {
            Ok(e) => unframe(f@) == Ok::<EnvelopeView, DecodeError>(e@),
            Err(x) => unframe(f@) == Err::<EnvelopeView, DecodeError>(x),
        },
{
    let n = match arity_of(f.kind) {
        Some(n) => n,
        None => {
            return Err(DecodeError::UnknownKind);
        },
    };
    if f.fields.len() != n {
        return Err(DecodeError::FieldCount);
    }
    let corr_id = match read_text(&f.fields[0]) {
        Ok(c) => c,
        Err(e) => {
            return Err(e);
        },
    };
    match payload_from(f) {
        Ok(payload) => Ok(Envelope { corr_id, payload }),
        Err(e) => Err(e),
    }
}

/// The bytes of an envelope.
pub fn encode(e: &Envelope) -> (out: Vec<u8>)
    ensures
        out@ == wire(e@),
{
    let f = to_frame(e);
    write_frame(&f)
}

/// The envelope that the bytes encode, or the reason why they encode none.
pub fn decode(bytes: &[u8]) -> (r: Result<Envelope, DecodeError>)
    ensures
        match r {
            Ok(e) => decode_spec(bytes@) == Ok::<EnvelopeView, DecodeError>(e@),
            Err(x) => decode_spec(bytes@) == Err::<EnvelopeView, DecodeError>(x),
        },
{
    match read_frame(bytes) {
        Ok(f) => from_frame(&f),
        Err(e) => Err(e),
    }
}

/// The envelope asks for an answer: job dispatches, file operations and the
/// opening or closing of a tunnel do.
pub open spec fn expects_reply(e: EnvelopeView) -> bool {
    match e.payload {
        PayloadView::Job(_) => true,
        PayloadView::File(_) => true,
        PayloadView::Tunnel { session, op } => op != TunnelOp::Ack,
        _ => false,
    }
}

/// The envelope answers a request: responses, failures and the
/// acknowledgement of a tunnel do.
pub open spec fn is_reply(e: EnvelopeView) -> bool {
    match e.payload {
        PayloadView::Response { .. } => true,
        PayloadView::Failure { .. } => true,
        PayloadView::Tunnel { session, op } => op == TunnelOp::Ack,
        _ => false,
    }
}

/// `reply` is the answer to `request`: it answers, the request asks, and both
/// carry one correlation identifier.
pub open spec fn answers(reply: EnvelopeView, request: EnvelopeView) -> bool {
    is_reply(reply) && expects_reply(request) && reply.corr_id == request.corr_id
}

impl Envelope {
    /// Whether the envelope asks for an answer.
    pub fn expects_reply(&self) -> (b: bool)
        ensures
            b == expects_reply(self@),
    {
        match &self.payload {
            Payload::Job(_) => true,
            Payload::File(_) => true,
            Payload::Tunnel { session: _, op } => match op {
                TunnelOp::Ack => false,
                _ => true,
            },
            _ => false,
        }
    }

    /// Whether the envelope answers a request.
    pub fn is_reply(&self) -> (b: bool)
        ensures
            b == is_reply(self@),
    {
        match &self.payload {
            Payload::Response { .. } => true,
            Payload::Failure { .. } => true,
            Payload::Tunnel { session: _, op } => match op {
                TunnelOp::Ack => true,
                _ => false,
            },
            _ => false,
        }
    }

    /// Whether this envelope is the answer to `request`.
    pub fn answers(&self, request: &Envelope) -> (b: bool)
        ensures
            b == answers(self@, request@),
    {
        self.is_reply() && request.expects_reply() && str_eq(
            self.corr_id.as_str(),
            request.corr_id.as_str(),
        )
    }

    /// An envelope for `payload` under the given correlation identifier.
    pub fn new(corr_id: &str, payload: Payload) -> (e: Envelope)
        ensures
            e@ == (EnvelopeView { corr_id: corr_id@, payload: payload@ }),
    {
        Envelope { corr_id: String::from_str(corr_id), payload }
    }

    /// An envelope for `payload` under a fresh correlation identifier that
    /// starts with `tag` and a hyphen.
    pub fn request(tag: &str, payload: Payload) -> (e: Envelope)
        ensures
            e@.payload == payload@,
            e@.corr_id.len() == tag@.len() + 1 + SUFFIX_LEN,
            is_suffix(e@.corr_id.subrange(tag@.len() as int + 1, e@.corr_id.len() as int)),
            e@.corr_id == tagged(
                tag@,
                e@.corr_id.subrange(tag@.len() as int + 1, e@.corr_id.len() as int),
            ),
    {
        Envelope { corr_id: get_nanid(tag), payload }
    }

    /// The response to this envelope that carries `body`.
    pub fn respond(&self, body: Vec<u8>) -> (e: Envelope)
        ensures
            e@ == (EnvelopeView {
                corr_id: self@.corr_id,
                payload: PayloadView::Response { body: body@ },
            }),
            expects_reply(self@) ==> answers(e@, self@),
    {
        Envelope { corr_id: self.corr_id.clone(), payload: Payload::Response { body } }
    }

    /// The failure of this envelope's request, with a kind and a message.
    pub fn fail(&self, kind: ErrorKind, message: &str) -> (e: Envelope)
        ensures
            e@ == (EnvelopeView {
                corr_id: self@.corr_id,
                payload: PayloadView::Failure { kind, message: message@ },
            }),
            expects_reply(self@) ==> answers(e@, self@),
    {
        Envelope {
            corr_id: self.corr_id.clone(),
            payload: Payload::Failure { kind, message: String::from_str(message) },
        }
    }
}

} // verus!
