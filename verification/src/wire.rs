//! A byte encoding of the frames, for transports that carry bytes. Payloads
//! are opaque bytes: what they mean is the business of the service.
//!
//! Integers are little-endian. A request identifier takes 8 bytes, a trace
//! identifier 16. A byte string is preceded by its length in 8 bytes, a text
//! is the byte string of its UTF-8 encoding, and an optional value is preceded
//! by one byte that is 1 if the value follows and 0 if not. A client frame
//! starts with one byte that is 0 for a request and 1 for a cancellation; a
//! response starts with the identifier of its request, followed by one byte
//! that is 0 before a payload and 1 before an error.

use vstd::prelude::*;
use vstd::bytes::*;
use vstd::slice::*;
use vstd::utf8::*;
use crate::context::{Context, Timestamp};
use crate::error::{ErrorKind, ServerError};
use crate::message::{ClientMessage, Request, Response};
use crate::trace;

verus! {

/// A frame from the client, with its payload as a sequence of bytes.
pub enum ClientFrame {
    Request { id: u64, context: Context, message: Seq<u8> },
    Cancel { trace_context: trace::Context, request_id: u64 },
}

/// The error half of a response, with its text as a sequence of characters.
pub struct ErrorFrame {
    pub kind: ErrorKind,
    pub detail: Option<Seq<char>>,
}

/// A frame from the server, with its payload as a sequence of bytes.
pub struct ServerFrame {
    pub request_id: u64,
    pub message: Result<Seq<u8>, ErrorFrame>,
}

/// What `message` is, as a mathematical value.
pub open spec fn client_frame(message: ClientMessage<Vec<u8>>) -> ClientFrame {
    match message {
        ClientMessage::Request(request) => ClientFrame::Request {
            id: request.id,
            context: request.context,
            message: request.message@,
        },
        ClientMessage::Cancel { trace_context, request_id } => ClientFrame::Cancel { trace_context, request_id },
    }
}

/// What `error` is, as a mathematical value.
pub open spec fn error_frame(error: ServerError) -> ErrorFrame {
    ErrorFrame {
        kind: error.kind,
        detail: match error.detail {
            Some(detail) => Some(detail@),
            None => None,
        },
    }
}

/// What `response` is, as a mathematical value.
pub open spec fn server_frame(response: Response<Vec<u8>>) -> ServerFrame {
    ServerFrame {
        request_id: response.request_id,
        message: match response.message {
            Ok(payload) => Ok(payload@),
            Err(error) => Err(error_frame(error)),
        },
    }
}

/// The byte that stands for an error kind.
pub open spec fn kind_code(kind: ErrorKind) -> u8 {
    match kind {
        ErrorKind::Transport => 0,
        ErrorKind::Disconnected => 1,
        ErrorKind::DeadlineExceeded => 2,
        ErrorKind::Cancelled => 3,
        ErrorKind::ResponseLost => 4,
        ErrorKind::Overloaded => 5,
        ErrorKind::Application => 6,
    }
}

/// The error kind a byte stands for, if it stands for one.
pub open spec fn kind_of(code: u8) -> Option<ErrorKind> {
    if code == 0 {
        Some(ErrorKind::Transport)
    } else if code == 1 {
        Some(ErrorKind::Disconnected)
    } else if code == 2 {
        Some(ErrorKind::DeadlineExceeded)
    } else if code == 3 {
        Some(ErrorKind::Cancelled)
    } else if code == 4 {
        Some(ErrorKind::ResponseLost)
    } else if code == 5 {
        Some(ErrorKind::Overloaded)
    } else if code == 6 {
        Some(ErrorKind::Application)
    } else {
        None
    }
}

/// Eight bytes, least significant first.
pub open spec fn enc_u64(x: u64) -> Seq<u8> {
    spec_u64_to_le_bytes(x)
}

/// Sixteen bytes, least significant first.
pub open spec fn enc_u128(x: u128) -> Seq<u8> {
    spec_u128_to_le_bytes(x)
}

/// One byte that says whether a value follows, and the value if it does.
pub open spec fn enc_opt_u64(x: Option<u64>) -> Seq<u8> {
    match x {
        None => seq![0u8],
        Some(x) => seq![1u8] + enc_u64(x),
    }
}

/// The length in eight bytes, then the bytes.
pub open spec fn enc_bytes(bytes: Seq<u8>) -> Seq<u8> {
    enc_u64(bytes.len() as u64) + bytes
}

/// The trace identifier, the span, and the parent span if there is one.
pub open spec fn enc_trace(trace_context: trace::Context) -> Seq<u8> {
    enc_u128(trace_context.trace_id) + enc_u64(trace_context.span_id) + enc_opt_u64(trace_context.parent_id)
}

/// The deadline in nanoseconds, then the trace context.
pub open spec fn enc_context(context: Context) -> Seq<u8> {
    enc_u64(context.deadline.nanos) + enc_trace(context.trace_context)
}

/// The byte of the kind, then the text if there is one.
pub open spec fn enc_error(error: ErrorFrame) -> Seq<u8> {
    seq![kind_code(error.kind)] + match error.detail {
        None => seq![0u8],
        Some(detail) => seq![1u8] + enc_bytes(encode_utf8(detail)),
    }
}

/// The bytes that stand for a frame from the client.
pub open spec fn encode_client(frame: ClientFrame) -> Seq<u8> {
    match frame {
        ClientFrame::Request { id, context, message } => seq![0u8] + enc_u64(id) + enc_context(context) + enc_bytes(
            message,
        ),
        ClientFrame::Cancel { trace_context, request_id } => seq![1u8] + enc_trace(trace_context) + enc_u64(
            request_id,
        ),
    }
}

/// The bytes that stand for a frame from the server.
pub open spec fn encode_server(frame: ServerFrame) -> Seq<u8> {
    enc_u64(frame.request_id) + match frame.message {
        Ok(payload) => seq![0u8] + enc_bytes(payload),
        Err(error) => seq![1u8] + enc_error(error),
    }
}

/// The first byte and what follows it.
pub open spec fn dec_u8(bytes: Seq<u8>) -> Option<(u8, Seq<u8>)> {
    if bytes.len() >= 1 {
        Some((bytes[0], bytes.skip(1)))
    } else {
        None
    }
}

/// The integer in the first eight bytes and what follows them.
pub open spec fn dec_u64(bytes: Seq<u8>) -> Option<(u64, Seq<u8>)> {
    if bytes.len() >= 8 {
        Some((spec_u64_from_le_bytes(bytes.subrange(0, 8)), bytes.skip(8)))
    } else {
        None
    }
}

/// The integer in the first sixteen bytes and what follows them.
pub open spec fn dec_u128(bytes: Seq<u8>) -> Option<(u128, Seq<u8>)> {
    if bytes.len() >= 16 {
        Some((spec_u128_from_le_bytes(bytes.subrange(0, 16)), bytes.skip(16)))
    } else {
        None
    }
}

/// An optional integer and what follows it. The byte in front must be 0 or 1.
pub open spec fn dec_opt_u64(bytes: Seq<u8>) -> Option<(Option<u64>, Seq<u8>)> {
    match dec_u8(bytes) {
        Some((tag, rest)) => if tag == 0 {
            Some((None, rest))
        } else if tag == 1 {
            match dec_u64(rest) {
                Some((x, rest)) => Some((Some(x), rest)),
                None => None,
            }
        } else {
            None
        },
        None => None,
    }
}

/// A byte string and what follows it. The length in front must not exceed what is there.
pub open spec fn dec_bytes(bytes: Seq<u8>) -> Option<(Seq<u8>, Seq<u8>)> {
    match dec_u64(bytes) {
        Some((len, rest)) => if len <= rest.len() {
            Some((rest.subrange(0, len as int), rest.skip(len as int)))
        } else {
            None
        },
        None => None,
    }
}

/// A trace context and what follows it.
pub open spec fn dec_trace(bytes: Seq<u8>) -> Option<(trace::Context, Seq<u8>)> {
    match dec_u128(bytes) {
        Some((trace_id, rest)) => match dec_u64(rest) {
            Some((span_id, rest)) => match dec_opt_u64(rest) {
                Some((parent_id, rest)) => Some((trace::Context { trace_id, span_id, parent_id }, rest)),
                None => None,
            },
            None => None,
        },
        None => None,
    }
}

/// A context and what follows it.
pub open spec fn dec_context(bytes: Seq<u8>) -> Option<(Context, Seq<u8>)> {
    match dec_u64(bytes) {
        Some((nanos, rest)) => match dec_trace(rest) {
            Some((trace_context, rest)) => Some((Context { deadline: Timestamp { nanos }, trace_context }, rest)),
            None => None,
        },
        None => None,
    }
}

/// A text and what follows it. Its bytes must be valid UTF-8.
pub open spec fn dec_text(bytes: Seq<u8>) -> Option<(Seq<char>, Seq<u8>)> {
    match dec_bytes(bytes) {
        Some((text, rest)) => if valid_utf8(text) {
            Some((decode_utf8(text), rest))
        } else {
            None
        },
        None => None,
    }
}

/// The error half of a response and what follows it.
pub open spec fn dec_error(bytes: Seq<u8>) -> Option<(ErrorFrame, Seq<u8>)> {
    match dec_u8(bytes) {
        Some((code, rest)) => match kind_of(code) {
            Some(kind) => match dec_u8(rest) {
                Some((tag, rest)) => if tag == 0 {
                    Some((ErrorFrame { kind, detail: None }, rest))
                } else if tag == 1 {
                    match dec_text(rest) {
                        Some((detail, rest)) => Some((ErrorFrame { kind, detail: Some(detail) }, rest)),
                        None => None,
                    }
                } else {
                    None
                },
                None => None,
            },
            None => None,
        },
        None => None,
    }
}

/// A request, behind its tag, and what follows it.
pub open spec fn dec_request(bytes: Seq<u8>) -> Option<(ClientFrame, Seq<u8>)> {
    match dec_u64(bytes) {
        Some((id, rest)) => match dec_context(rest) {
            Some((context, rest)) => match dec_bytes(rest) {
                Some((message, rest)) => Some((ClientFrame::Request { id, context, message }, rest)),
                None => None,
            },
            None => None,
        },
        None => None,
    }
}

/// A cancellation, behind its tag, and what follows it.
pub open spec fn dec_cancel(bytes: Seq<u8>) -> Option<(ClientFrame, Seq<u8>)> {
    match dec_trace(bytes) {
        Some((trace_context, rest)) => match dec_u64(rest) {
            Some((request_id, rest)) => Some((ClientFrame::Cancel { trace_context, request_id }, rest)),
            None => None,
        },
        None => None,
    }
}

/// A frame with nothing behind it, or nothing.
pub open spec fn whole<T>(parsed: Option<(T, Seq<u8>)>) -> Option<T> {
    match parsed {
        Some((frame, rest)) => if rest.len() == 0 {
            Some(frame)
        } else {
            None
        },
        None => None,
    }
}

/// The frame from the client that `bytes` stand for, if they stand for one.
/// Bytes behind the frame make the whole invalid.
pub open spec fn decode_client(bytes: Seq<u8>) -> Option<ClientFrame> {
    match dec_u8(bytes) {
        Some((tag, rest)) => if tag == 0 {
            whole(dec_request(rest))
        } else if tag == 1 {
            whole(dec_cancel(rest))
        } else {
            None
        },
        None => None,
    }
}

/// A response and what follows it.
pub open spec fn dec_response(bytes: Seq<u8>) -> Option<(ServerFrame, Seq<u8>)> {
    match dec_u64(bytes) {
        Some((request_id, rest)) => match dec_u8(rest) {
            Some((tag, rest)) => if tag == 0 {
                match dec_bytes(rest) {
                    Some((payload, rest)) => Some((ServerFrame { request_id, message: Ok(payload) }, rest)),
                    None => None,
                }
            } else if tag == 1 {
                match dec_error(rest) {
                    Some((error, rest)) => Some((ServerFrame { request_id, message: Err(error) }, rest)),
                    None => None,
                }
            } else {
                None
            },
            None => None,
        },
        None => None,
    }
}

/// The frame from the server that `bytes` stand for, if they stand for one.
pub open spec fn decode_server(bytes: Seq<u8>) -> Option<ServerFrame> {
    whole(dec_response(bytes))
}

/// Whether the lengths within `frame` can be written in 8 bytes.
pub open spec fn client_frame_fits(frame: ClientFrame) -> bool {
    frame matches ClientFrame::Request { message, .. } ==> message.len() <= u64::MAX
}

/// Whether the lengths within `frame` can be written in 8 bytes.
pub open spec fn server_frame_fits(frame: ServerFrame) -> bool {
    match frame.message {
        Ok(payload) => payload.len() <= u64::MAX,
        Err(error) => error.detail matches Some(detail) ==> encode_utf8(detail).len() <= u64::MAX,
    }
}

/// A byte in front of anything is read back.
pub proof fn lemma_dec_u8(x: u8, rest: Seq<u8>)
    ensures
        dec_u8(seq![x] + rest) == Some((x, rest)),
{
    assert((seq![x] + rest).skip(1) =~= rest);
}

/// An encoded integer in front of anything is read back.
pub proof fn lemma_dec_u64(x: u64, rest: Seq<u8>)
    ensures
        dec_u64(enc_u64(x) + rest) == Some((x, rest)),
{
    lemma_auto_spec_u64_to_from_le_bytes();
    assert((enc_u64(x) + rest).subrange(0, 8) =~= enc_u64(x));
    assert((enc_u64(x) + rest).skip(8) =~= rest);
}

/// An encoded trace identifier in front of anything is read back.
pub proof fn lemma_dec_u128(x: u128, rest: Seq<u8>)
    ensures
        dec_u128(enc_u128(x) + rest) == Some((x, rest)),
{
    lemma_auto_spec_u128_to_from_le_bytes();
    assert((enc_u128(x) + rest).subrange(0, 16) =~= enc_u128(x));
    assert((enc_u128(x) + rest).skip(16) =~= rest);
}

/// An encoded optional integer in front of anything is read back.
pub proof fn lemma_dec_opt_u64(x: Option<u64>, rest: Seq<u8>)
    ensures
        dec_opt_u64(enc_opt_u64(x) + rest) == Some((x, rest)),
{
    match x {
        None => {
            lemma_dec_u8(0, rest);
        },
        Some(v) => {
            assert(enc_opt_u64(x) + rest =~= seq![1u8] + (enc_u64(v) + rest));
            lemma_dec_u8(1, enc_u64(v) + rest);
            lemma_dec_u64(v, rest);
        },
    }
}

/// An encoded byte string in front of anything is read back.
pub proof fn lemma_dec_bytes(bytes: Seq<u8>, rest: Seq<u8>)
    requires
        bytes.len() <= u64::MAX,
    ensures
        dec_bytes(enc_bytes(bytes) + rest) == Some((bytes, rest)),
{
    assert(enc_bytes(bytes) + rest =~= enc_u64(bytes.len() as u64) + (bytes + rest));
    lemma_dec_u64(bytes.len() as u64, bytes + rest);
    assert((bytes + rest).subrange(0, bytes.len() as int) =~= bytes);
    assert((bytes + rest).skip(bytes.len() as int) =~= rest);
}

/// An encoded trace context in front of anything is read back.
pub proof fn lemma_dec_trace(trace_context: trace::Context, rest: Seq<u8>)
    ensures
        dec_trace(enc_trace(trace_context) + rest) == Some((trace_context, rest)),
{
    let tail = enc_opt_u64(trace_context.parent_id) + rest;
    assert(enc_trace(trace_context) + rest =~= enc_u128(trace_context.trace_id) + (enc_u64(trace_context.span_id)
        + tail));
    lemma_dec_u128(trace_context.trace_id, enc_u64(trace_context.span_id) + tail);
    lemma_dec_u64(trace_context.span_id, tail);
    lemma_dec_opt_u64(trace_context.parent_id, rest);
}

/// An encoded context in front of anything is read back.
pub proof fn lemma_dec_context(context: Context, rest: Seq<u8>)
    ensures
        dec_context(enc_context(context) + rest) == Some((context, rest)),
{
    assert(enc_context(context) + rest =~= enc_u64(context.deadline.nanos) + (enc_trace(context.trace_context)
        + rest));
    lemma_dec_u64(context.deadline.nanos, enc_trace(context.trace_context) + rest);
    lemma_dec_trace(context.trace_context, rest);
}

/// An encoded text in front of anything is read back.
pub proof fn lemma_dec_text(text: Seq<char>, rest: Seq<u8>)
    requires
        encode_utf8(text).len() <= u64::MAX,
    ensures
        dec_text(enc_bytes(encode_utf8(text)) + rest) == Some((text, rest)),
{
    lemma_dec_bytes(encode_utf8(text), rest);
    encode_utf8_valid_utf8(text);
    encode_utf8_decode_utf8(text);
}

/// An encoded error in front of anything is read back.
pub proof fn lemma_dec_error(error: ErrorFrame, rest: Seq<u8>)
    requires
        error.detail matches Some(detail) ==> encode_utf8(detail).len() <= u64::MAX,
    ensures
        dec_error(enc_error(error) + rest) == Some((error, rest)),
{
    let code = kind_code(error.kind);
    assert(kind_of(code) == Some(error.kind));
    match error.detail {
        None => {
            assert(enc_error(error) + rest =~= seq![code] + (seq![0u8] + rest));
            lemma_dec_u8(code, seq![0u8] + rest);
            lemma_dec_u8(0, rest);
        },
        Some(detail) => {
            let text = enc_bytes(encode_utf8(detail));
            assert(enc_error(error) + rest =~= seq![code] + (seq![1u8] + (text + rest)));
            lemma_dec_u8(code, seq![1u8] + (text + rest));
            lemma_dec_u8(1, text + rest);
            lemma_dec_text(detail, rest);
        },
    }
}

/// Decoding undoes encoding, for every frame from the client.
pub proof fn lemma_client_round_trip(frame: ClientFrame)
    requires
        client_frame_fits(frame),
    ensures
        decode_client(encode_client(frame)) == Some(frame),
{
    let none = Seq::<u8>::empty();
    match frame {
        ClientFrame::Request { id, context, message } => {
            let tail = enc_context(context) + (enc_bytes(message) + none);
            assert(encode_client(frame) =~= seq![0u8] + (enc_u64(id) + tail));
            lemma_dec_u8(0, enc_u64(id) + tail);
            lemma_dec_u64(id, tail);
            lemma_dec_context(context, enc_bytes(message) + none);
            lemma_dec_bytes(message, none);
        },
        ClientFrame::Cancel { trace_context, request_id } => {
            let tail = enc_u64(request_id) + none;
            assert(encode_client(frame) =~= seq![1u8] + (enc_trace(trace_context) + tail));
            lemma_dec_u8(1, enc_trace(trace_context) + tail);
            lemma_dec_trace(trace_context, tail);
            lemma_dec_u64(request_id, none);
        },
    }
}

/// Decoding undoes encoding, for every frame from the server.
pub proof fn lemma_server_round_trip(frame: ServerFrame)
    requires
        server_frame_fits(frame),
    ensures
        decode_server(encode_server(frame)) == Some(frame),
{
    let none = Seq::<u8>::empty();
    match frame.message {
        Ok(payload) => {
            let tail = seq![0u8] + (enc_bytes(payload) + none);
            assert(encode_server(frame) =~= enc_u64(frame.request_id) + tail);
            lemma_dec_u64(frame.request_id, tail);
            lemma_dec_u8(0, enc_bytes(payload) + none);
            lemma_dec_bytes(payload, none);
        },
        Err(error) => {
            let tail = seq![1u8] + (enc_error(error) + none);
            assert(encode_server(frame) =~= enc_u64(frame.request_id) + tail);
            lemma_dec_u64(frame.request_id, tail);
            lemma_dec_u8(1, enc_error(error) + none);
            lemma_dec_error(error, none);
        },
    }
}

fn put_u8(out: &mut Vec<u8>, x: u8)
    ensures
        final(out)@ == old(out)@ + seq![x],
{
    out.push(x);
    assert(out@ =~= old(out)@ + seq![x]);
}

fn put_u64(out: &mut Vec<u8>, x: u64)
    ensures
        final(out)@ == old(out)@ + enc_u64(x),
{
    let mut bytes = u64_to_le_bytes(x);
    out.append(&mut bytes);
}

fn put_u128(out: &mut Vec<u8>, x: u128)
    ensures
        final(out)@ == old(out)@ + enc_u128(x),
{
    let mut bytes = u128_to_le_bytes(x);
    out.append(&mut bytes);
}

fn put_opt_u64(out: &mut Vec<u8>, x: Option<u64>)
    ensures
        final(out)@ == old(out)@ + enc_opt_u64(x),
{
    match x {
        None => {
            put_u8(out, 0);
        },
        Some(x) => {
            put_u8(out, 1);
            put_u64(out, x);
            assert(out@ =~= old(out)@ + (seq![1u8] + enc_u64(x)));
        },
    }
}

fn put_bytes(out: &mut Vec<u8>, bytes: &[u8])
    ensures
        final(out)@ == old(out)@ + enc_bytes(bytes@),
{
    let len = bytes.len();
    put_u64(out, len as u64);
    let ghost start = out@;
    let mut index: usize = 0;
    while index < len
        invariant
            len == bytes@.len(),
            index <= len,
            out@ == start + bytes@.subrange(0, index as int),
        decreases len - index,
    {
        out.push(bytes[index]);
        assert(bytes@.subrange(0, index + 1) =~= bytes@.subrange(0, index as int).push(bytes@[index as int]));
        assert(out@ =~= start + bytes@.subrange(0, index + 1));
        index += 1;
    }
    assert(bytes@.subrange(0, len as int) =~= bytes@);
    assert(out@ =~= old(out)@ + (enc_u64(len as u64) + bytes@));
}

fn put_trace(out: &mut Vec<u8>, trace_context: trace::Context)
    ensures
        final(out)@ == old(out)@ + enc_trace(trace_context),
{
    put_u128(out, trace_context.trace_id);
    put_u64(out, trace_context.span_id);
    put_opt_u64(out, trace_context.parent_id);
    assert(out@ =~= old(out)@ + enc_trace(trace_context));
}

fn put_context(out: &mut Vec<u8>, context: Context)
    ensures
        final(out)@ == old(out)@ + enc_context(context),
{
    put_u64(out, context.deadline.nanos);
    put_trace(out, context.trace_context);
    assert(out@ =~= old(out)@ + enc_context(context));
}

fn put_kind(out: &mut Vec<u8>, kind: ErrorKind)
    ensures
        final(out)@ == old(out)@ + seq![kind_code(kind)],
{
    let code: u8 = match kind {
        ErrorKind::Transport => 0,
        ErrorKind::Disconnected => 1,
        ErrorKind::DeadlineExceeded => 2,
        ErrorKind::Cancelled => 3,
        ErrorKind::ResponseLost => 4,
        ErrorKind::Overloaded => 5,
        ErrorKind::Application => 6,
    };
    put_u8(out, code);
}

fn put_error(out: &mut Vec<u8>, error: &ServerError)
    ensures
        final(out)@ == old(out)@ + enc_error(error_frame(*error)),
        error.detail matches Some(detail) ==> encode_utf8(detail@).len() <= u64::MAX,
{
    put_kind(out, error.kind);
    match &error.detail {
        None => {
            put_u8(out, 0);
            assert(out@ =~= old(out)@ + enc_error(error_frame(*error)));
        },
        Some(detail) => {
            put_u8(out, 1);
            let text = detail.as_str().as_bytes();
            let _ = text.len();
            put_bytes(out, text);
            assert(out@ =~= old(out)@ + enc_error(error_frame(*error)));
        },
    }
}

/// Writes a frame from the client as bytes.
pub fn encode_client_message(message: &ClientMessage<Vec<u8>>) -> (bytes: Vec<u8>)
    ensures
        bytes@ == encode_client(client_frame(*message)),
        client_frame_fits(client_frame(*message)),
{
    let mut out: Vec<u8> = Vec::new();
    match message {
        ClientMessage::Request(request) => {
            put_u8(&mut out, 0);
            put_u64(&mut out, request.id);
            put_context(&mut out, request.context);
            let payload = request.message.as_slice();
            let _ = payload.len();
            put_bytes(&mut out, payload);
            assert(out@ =~= encode_client(client_frame(*message)));
        },
        ClientMessage::Cancel { trace_context, request_id } => {
            put_u8(&mut out, 1);
            put_trace(&mut out, *trace_context);
            put_u64(&mut out, *request_id);
            assert(out@ =~= encode_client(client_frame(*message)));
        },
    }
    out
}

/// Writes a frame from the server as bytes.
pub fn encode_response(response: &Response<Vec<u8>>) -> (bytes: Vec<u8>)
    ensures
        bytes@ == encode_server(server_frame(*response)),
        server_frame_fits(server_frame(*response)),
{
    let mut out: Vec<u8> = Vec::new();
    put_u64(&mut out, response.request_id);
    match &response.message {
        Ok(payload) => {
            put_u8(&mut out, 0);
            let payload = payload.as_slice();
            let _ = payload.len();
            put_bytes(&mut out, payload);
            assert(out@ =~= encode_server(server_frame(*response)));
        },
        Err(error) => {
            put_u8(&mut out, 1);
            put_error(&mut out, error);
            assert(out@ =~= encode_server(server_frame(*response)));
        },
    }
    out
}

/// Builds a text from its UTF-8 encoding with `String::from_utf8`, which
/// accepts exactly the byte strings that are valid UTF-8 and keeps the bytes
/// as they are.
#[verifier::external_body]
fn text_from_utf8(bytes: Vec<u8>) -> (text: Option<String>)
    ensures
        match text {
            Some(text) => valid_utf8(bytes@) && text@ == decode_utf8(bytes@),
            None => !valid_utf8(bytes@),
        },
{
    String::from_utf8(bytes).ok()
}

fn get_u8(bytes: &[u8], pos: usize) -> (parsed: Option<(u8, usize)>)
    requires
        pos <= bytes@.len(),
    ensures
        match parsed {
            Some((x, next)) => pos <= next <= bytes@.len() && dec_u8(bytes@.skip(pos as int)) == Some(
                (x, bytes@.skip(next as int)),
            ),
            None => dec_u8(bytes@.skip(pos as int)) is None,
        },
{
    if bytes.len() - pos < 1 {
        return None;
    }
    assert(bytes@.skip(pos as int).skip(1) =~= bytes@.skip(pos + 1));
    Some((bytes[pos], pos + 1))
}

fn get_u64(bytes: &[u8], pos: usize) -> (parsed: Option<(u64, usize)>)
    requires
        pos <= bytes@.len(),
    ensures
        match parsed {
            Some((x, next)) => pos <= next <= bytes@.len() && dec_u64(bytes@.skip(pos as int)) == Some(
                (x, bytes@.skip(next as int)),
            ),
            None => dec_u64(bytes@.skip(pos as int)) is None,
        },
{
    if bytes.len() - pos < 8 {
        return None;
    }
    let x = u64_from_le_bytes(slice_subrange(bytes, pos, pos + 8));
    assert(bytes@.skip(pos as int).subrange(0, 8) =~= bytes@.subrange(pos as int, pos + 8));
    assert(bytes@.skip(pos as int).skip(8) =~= bytes@.skip(pos + 8));
    Some((x, pos + 8))
}

fn get_u128(bytes: &[u8], pos: usize) -> (parsed: Option<(u128, usize)>)
    requires
        pos <= bytes@.len(),
    ensures
        match parsed {
            Some((x, next)) => pos <= next <= bytes@.len() && dec_u128(bytes@.skip(pos as int)) == Some(
                (x, bytes@.skip(next as int)),
            ),
            None => dec_u128(bytes@.skip(pos as int)) is None,
        },
{
    if bytes.len() - pos < 16 {
        return None;
    }
    let x = u128_from_le_bytes(slice_subrange(bytes, pos, pos + 16));
    assert(bytes@.skip(pos as int).subrange(0, 16) =~= bytes@.subrange(pos as int, pos + 16));
    assert(bytes@.skip(pos as int).skip(16) =~= bytes@.skip(pos + 16));
    Some((x, pos + 16))
}

fn get_opt_u64(bytes: &[u8], pos: usize) -> (parsed: Option<(Option<u64>, usize)>)
    requires
        pos <= bytes@.len(),
    ensures
        match parsed {
            Some((x, next)) => pos <= next <= bytes@.len() && dec_opt_u64(bytes@.skip(pos as int)) == Some(
                (x, bytes@.skip(next as int)),
            ),
            None => dec_opt_u64(bytes@.skip(pos as int)) is None,
        },
{
    let (tag, pos) = match get_u8(bytes, pos) {
        Some(parsed) => parsed,
        None => {
            return None;
        },
    };
    if tag == 0 {
        Some((None, pos))
    } else if tag == 1 {
        match get_u64(bytes, pos) {
            Some((x, pos)) => Some((Some(x), pos)),
            None => None,
        }
    } else {
        None
    }
}

fn get_bytes(bytes: &[u8], pos: usize) -> (parsed: Option<(Vec<u8>, usize)>)
    requires
        pos <= bytes@.len(),
    ensures
        match parsed {
            Some((x, next)) => pos <= next <= bytes@.len() && dec_bytes(bytes@.skip(pos as int)) == Some(
                (x@, bytes@.skip(next as int)),
            ),
            None => dec_bytes(bytes@.skip(pos as int)) is None,
        },
{
    let (len, start) = match get_u64(bytes, pos) {
        Some(parsed) => parsed,
        None => {
            return None;
        },
    };
    let room = bytes.len() - start;
    if len > room as u64 {
        return None;
    }
    let len = len as usize;
    let end = start + len;
    let found = slice_to_vec(slice_subrange(bytes, start, end));
    assert(bytes@.skip(start as int).subrange(0, len as int) =~= bytes@.subrange(start as int, end as int));
    assert(bytes@.skip(start as int).skip(len as int) =~= bytes@.skip(end as int));
    Some((found, end))
}

fn get_trace(bytes: &[u8], pos: usize) -> (parsed: Option<(trace::Context, usize)>)
    requires
        pos <= bytes@.len(),
    ensures
        match parsed {
            Some((x, next)) => pos <= next <= bytes@.len() && dec_trace(bytes@.skip(pos as int)) == Some(
                (x, bytes@.skip(next as int)),
            ),
            None => dec_trace(bytes@.skip(pos as int)) is None,
        },
{
    let (trace_id, pos) = match get_u128(bytes, pos) {
        Some(parsed) => parsed,
        None => {
            return None;
        },
    };
    let (span_id, pos) = match get_u64(bytes, pos) {
        Some(parsed) => parsed,
        None => {
            return None;
        },
    };
    let (parent_id, pos) = match get_opt_u64(bytes, pos) {
        Some(parsed) => parsed,
        None => {
            return None;
        },
    };
    Some((trace::Context { trace_id, span_id, parent_id }, pos))
}

fn get_context(bytes: &[u8], pos: usize) -> (parsed: Option<(Context, usize)>)
    requires
        pos <= bytes@.len(),
    ensures
        match parsed {
            Some((x, next)) => pos <= next <= bytes@.len() && dec_context(bytes@.skip(pos as int)) == Some(
                (x, bytes@.skip(next as int)),
            ),
            None => dec_context(bytes@.skip(pos as int)) is None,
        },
{
    let (nanos, pos) = match get_u64(bytes, pos) {
        Some(parsed) => parsed,
        None => {
            return None;
        },
    };
    let (trace_context, pos) = match get_trace(bytes, pos) {
        Some(parsed) => parsed,
        None => {
            return None;
        },
    };
    Some((Context { deadline: Timestamp { nanos }, trace_context }, pos))
}

fn get_kind(code: u8) -> (kind: Option<ErrorKind>)
    ensures
        kind == kind_of(code),
{
    if code == 0 {
        Some(ErrorKind::Transport)
    } else if code == 1 {
        Some(ErrorKind::Disconnected)
    } else if code == 2 {
        Some(ErrorKind::DeadlineExceeded)
    } else if code == 3 {
        Some(ErrorKind::Cancelled)
    } else if code == 4 {
        Some(ErrorKind::ResponseLost)
    } else if code == 5 {
        Some(ErrorKind::Overloaded)
    } else if code == 6 {
        Some(ErrorKind::Application)
    } else {
        None
    }
}

fn get_error(bytes: &[u8], pos: usize) -> (parsed: Option<(ServerError, usize)>)
    requires
        pos <= bytes@.len(),
    ensures
        match parsed {
            Some((x, next)) => pos <= next <= bytes@.len() && dec_error(bytes@.skip(pos as int)) == Some(
                (error_frame(x), bytes@.skip(next as int)),
            ),
            None => dec_error(bytes@.skip(pos as int)) is None,
        },
{
    let (code, pos) = match get_u8(bytes, pos) {
        Some(parsed) => parsed,
        None => {
            return None;
        },
    };
    let kind = match get_kind(code) {
        Some(kind) => kind,
        None => {
            return None;
        },
    };
    let (tag, pos) = match get_u8(bytes, pos) {
        Some(parsed) => parsed,
        None => {
            return None;
        },
    };
    if tag == 0 {
        Some((ServerError { kind, detail: None }, pos))
    } else if tag == 1 {
        let (text, pos) = match get_bytes(bytes, pos) {
            Some(parsed) => parsed,
            None => {
                return None;
            },
        };
        match text_from_utf8(text) {
            Some(detail) => Some((ServerError { kind, detail: Some(detail) }, pos)),
            None => None,
        }
    } else {
        None
    }
}

/// Reads a frame from the client. `None` if `bytes` are not the encoding of
/// one, be it that they end early, go on behind the frame, or hold a value
/// that stands for nothing.
pub fn decode_client_message(bytes: &[u8]) -> (message: Option<ClientMessage<Vec<u8>>>)
    ensures
        match message {
            Some(message) => decode_client(bytes@) == Some(client_frame(message)),
            None => decode_client(bytes@) is None,
        },
{
    assert(bytes@.skip(0) =~= bytes@);
    let (tag, pos) = match get_u8(bytes, 0) {
        Some(parsed) => parsed,
        None => {
            return None;
        },
    };
    if tag == 0 {
        let (id, pos) = match get_u64(bytes, pos) {
            Some(parsed) => parsed,
            None => {
                return None;
            },
        };
        let (context, pos) = match get_context(bytes, pos) {
            Some(parsed) => parsed,
            None => {
                return None;
            },
        };
        let (message, pos) = match get_bytes(bytes, pos) {
            Some(parsed) => parsed,
            None => {
                return None;
            },
        };
        if pos != bytes.len() {
            return None;
        }
        Some(ClientMessage::Request(Request { id, context, message }))
    } else if tag == 1 {
        let (trace_context, pos) = match get_trace(bytes, pos) {
            Some(parsed) => parsed,
            None => {
                return None;
            },
        };
        let (request_id, pos) = match get_u64(bytes, pos) {
            Some(parsed) => parsed,
            None => {
                return None;
            },
        };
        if pos != bytes.len() {
            return None;
        }
        Some(ClientMessage::Cancel { trace_context, request_id })
    } else {
        None
    }
}

/// Reads a frame from the server. `None` if `bytes` are not the encoding of
/// one.
pub fn decode_response(bytes: &[u8]) -> (response: Option<Response<Vec<u8>>>)
    ensures
        match response {
            Some(response) => decode_server(bytes@) == Some(server_frame(response)),
            None => decode_server(bytes@) is None,
        },
{
    assert(bytes@.skip(0) =~= bytes@);
    let (request_id, pos) = match get_u64(bytes, 0) {
        Some(parsed) => parsed,
        None => {
            return None;
        },
    };
    let (tag, pos) = match get_u8(bytes, pos) {
        Some(parsed) => parsed,
        None => {
            return None;
        },
    };
    if tag == 0 {
        let (payload, pos) = match get_bytes(bytes, pos) {
            Some(parsed) => parsed,
            None => {
                return None;
            },
        };
        if pos != bytes.len() {
            return None;
        }
        Some(Response { request_id, message: Ok(payload) })
    } else if tag == 1 {
        let (error, pos) = match get_error(bytes, pos) {
            Some(parsed) => parsed,
            None => {
                return None;
            },
        };
        if pos != bytes.len() {
            return None;
        }
        Some(Response { request_id, message: Err(error) })
    } else {
        None
    }
}

} // verus!
