//! Wire protocol of the session daemon: message shapes for the control and
//! streaming connections, exact byte-level encoders for every request line,
//! dispatch of incoming stream messages by their type tag, and the terminal
//! mode state the client tracks per session.
//!
//! Both connection kinds speak one JSON object per line, newline-terminated.
//! Every request line carries the protocol version this client was built
//! against — that is part of the encoders' contracts, not a convention.

use vstd::prelude::*;
use vstd::string::StringSliceAdditionalSpecFns;
use vstd::utf8::encode_utf8;
use crate::json::json_string;
use crate::json::json_bool;
use crate::json::dec_digits;
use crate::json::dec_int;
use crate::json::push_literal;
use crate::json::push_json_string;
use crate::json::push_dec_u64;
use crate::json::push_dec_i64;
use crate::json::push_bool;
use crate::json::push_bytes;
use crate::text::clone_opt_string;

verus! {

/// The protocol version every request declares.
pub const PROTOCOL_VERSION: u32 = 2;

/// A control call: one framed request awaiting one framed response on a
/// fresh connection. `params` holds the already-encoded JSON parameter
/// object, if any.
pub struct ControlRequest {
    pub protocol_version: u32,
    pub method: String,
    pub params: Option<Vec<u8>>,
}

/// A control response: a success flag, the raw JSON text of the result
/// payload, and — on failure — an error string.
pub struct ControlResponse {
    pub ok: bool,
    pub result: String,
    pub error: Option<String>,
}

pub struct CreateRequest {
    pub session_id: String,
    pub cwd: String,
}

pub struct CreateResponse {
    pub session_id: String,
    pub existing: bool,
}

/// The opening request of a long-lived attach stream.
pub struct AttachRequest {
    pub protocol_version: u32,
    pub msg_type: String,
    pub session_id: String,
    pub stream_id: Option<String>,
    pub since: i64,
    pub with_buffer: bool,
}

/// A message pushed by the daemon on an attach stream; which fields are
/// meaningful depends on `msg_type`.
pub struct StreamMessage {
    pub msg_type: String,
    pub session_id: String,
    pub stream_id: String,
    pub data: Option<String>,
    pub len: Option<usize>,
    pub next_offset: Option<i64>,
    pub truncated: bool,
    pub source: Option<String>,
    pub snapshot_source: Option<String>,
    pub backlog_source: Option<String>,
    pub backlog_truncated: bool,
    pub alt_screen: bool,
    pub mouse_mask: u8,
    pub mouse: bool,
    pub mouse_sgr: bool,
    pub mouse_encoding: Option<String>,
    pub safe_to_replay: bool,
    pub initial_credit: Option<i64>,
    pub error: Option<String>,
}

pub struct SendRequest {
    pub session_id: String,
    pub data: String,
}

pub struct ResizeRequest {
    pub session_id: String,
    pub cols: u32,
    pub rows: u32,
}

pub struct StopRequest {
    pub session_id: String,
}

pub struct AckRequest {
    pub session_id: String,
    pub stream_id: String,
    pub bytes: i64,
}

pub struct BootstrapRequest {
    pub session_id: String,
}

pub struct BootstrapResponse {
    pub session_id: String,
    pub snapshot: Option<String>,
    pub backlog: Option<String>,
    pub next_offset: Option<i64>,
    pub backlog_truncated: bool,
    pub alt_screen: bool,
    pub mouse: bool,
    pub mouse_sgr: bool,
    pub mouse_encoding: Option<String>,
    pub safe_to_replay: bool,
    pub initial_credit: Option<i64>,
}

/// The bytes of a control request line: version, method, optional
/// pre-encoded parameter object, closing newline.
pub open spec fn spec_control_line(method: Seq<u8>, params: Option<Seq<u8>>) -> Seq<u8> {
    "{\"protocolVersion\":".spec_bytes() + dec_digits(PROTOCOL_VERSION as int)
        + ",\"method\":".spec_bytes() + json_string(method) + (match params {
        Some(p) => ",\"params\":".spec_bytes() + p,
        None => Seq::<u8>::empty(),
    }) + "}\n".spec_bytes()
}

/// Encode one control request as its wire line. The protocol version is
/// always written, whatever the method.
pub fn control_line(method: &str, params: Option<Vec<u8>>) -> (r: Vec<u8>)
    ensures
        r@ == spec_control_line(
            method.spec_bytes(),
            match params {
                Some(p) => Some(p@),
                None => None,
            },
        ),
{
    let mut out: Vec<u8> = Vec::new();
    push_literal(&mut out, "{\"protocolVersion\":");
    push_dec_u64(&mut out, PROTOCOL_VERSION as u64);
    push_literal(&mut out, ",\"method\":");
    push_json_string(&mut out, method);
    match &params {
        Some(p) => {
            push_literal(&mut out, ",\"params\":");
            push_bytes(&mut out, p.as_slice());
        },
        None => {},
    }
    push_literal(&mut out, "}\n");
    out
}

/// The parameter object of a `create` call.
pub open spec fn spec_create_params(session_id: Seq<u8>, cwd: Seq<u8>) -> Seq<u8> {
    "{\"sessionId\":".spec_bytes() + json_string(session_id) + ",\"cwd\":".spec_bytes()
        + json_string(cwd) + "}".spec_bytes()
}

pub fn create_params(req: &CreateRequest) -> (r: Vec<u8>)
    ensures
        r@ == spec_create_params(encode_utf8(req.session_id@), encode_utf8(req.cwd@)),
{
    let mut out: Vec<u8> = Vec::new();
    push_literal(&mut out, "{\"sessionId\":");
    push_json_string(&mut out, req.session_id.as_str());
    push_literal(&mut out, ",\"cwd\":");
    push_json_string(&mut out, req.cwd.as_str());
    push_literal(&mut out, "}");
    out
}

/// The parameter object of a `send` call.
pub open spec fn spec_send_params(session_id: Seq<u8>, data: Seq<u8>) -> Seq<u8> {
    "{\"sessionId\":".spec_bytes() + json_string(session_id) + ",\"data\":".spec_bytes()
        + json_string(data) + "}".spec_bytes()
}

pub fn send_params(req: &SendRequest) -> (r: Vec<u8>)
    ensures
        r@ == spec_send_params(encode_utf8(req.session_id@), encode_utf8(req.data@)),
{
    let mut out: Vec<u8> = Vec::new();
    push_literal(&mut out, "{\"sessionId\":");
    push_json_string(&mut out, req.session_id.as_str());
    push_literal(&mut out, ",\"data\":");
    push_json_string(&mut out, req.data.as_str());
    push_literal(&mut out, "}");
    out
}

/// The parameter object of a `resize` call.
pub open spec fn spec_resize_params(session_id: Seq<u8>, cols: int, rows: int) -> Seq<u8> {
    "{\"sessionId\":".spec_bytes() + json_string(session_id) + ",\"cols\":".spec_bytes()
        + dec_digits(cols) + ",\"rows\":".spec_bytes() + dec_digits(rows) + "}".spec_bytes()
}

pub fn resize_params(req: &ResizeRequest) -> (r: Vec<u8>)
    ensures
        r@ == spec_resize_params(
            encode_utf8(req.session_id@),
            req.cols as int,
            req.rows as int,
        ),
{
    let mut out: Vec<u8> = Vec::new();
    push_literal(&mut out, "{\"sessionId\":");
    push_json_string(&mut out, req.session_id.as_str());
    push_literal(&mut out, ",\"cols\":");
    push_dec_u64(&mut out, req.cols as u64);
    push_literal(&mut out, ",\"rows\":");
    push_dec_u64(&mut out, req.rows as u64);
    push_literal(&mut out, "}");
    out
}

/// The parameter object of an `ack` call.
pub open spec fn spec_ack_params(session_id: Seq<u8>, stream_id: Seq<u8>, bytes: int) -> Seq<u8> {
    "{\"sessionId\":".spec_bytes() + json_string(session_id) + ",\"streamId\":".spec_bytes()
        + json_string(stream_id) + ",\"bytes\":".spec_bytes() + dec_int(bytes) + "}".spec_bytes()
}

pub fn ack_params(req: &AckRequest) -> (r: Vec<u8>)
    ensures
        r@ == spec_ack_params(
            encode_utf8(req.session_id@),
            encode_utf8(req.stream_id@),
            req.bytes as int,
        ),
{
    let mut out: Vec<u8> = Vec::new();
    push_literal(&mut out, "{\"sessionId\":");
    push_json_string(&mut out, req.session_id.as_str());
    push_literal(&mut out, ",\"streamId\":");
    push_json_string(&mut out, req.stream_id.as_str());
    push_literal(&mut out, ",\"bytes\":");
    push_dec_i64(&mut out, req.bytes);
    push_literal(&mut out, "}");
    out
}

/// The parameter object of a `bootstrap` or `stop` call: the session alone.
pub open spec fn spec_session_params(session_id: Seq<u8>) -> Seq<u8> {
    "{\"sessionId\":".spec_bytes() + json_string(session_id) + "}".spec_bytes()
}

pub fn session_params(session_id: &str) -> (r: Vec<u8>)
    ensures
        r@ == spec_session_params(session_id.spec_bytes()),
{
    let mut out: Vec<u8> = Vec::new();
    push_literal(&mut out, "{\"sessionId\":");
    push_json_string(&mut out, session_id);
    push_literal(&mut out, "}");
    out
}

/// The opening line of an attach stream: version, the `attach` type tag,
/// session, optional stream identifier, resume offset and backlog flag.
pub open spec fn spec_attach_line(
    session_id: Seq<u8>,
    stream_id: Option<Seq<u8>>,
    since: int,
    with_buffer: bool,
) -> Seq<u8> {
    "{\"protocolVersion\":".spec_bytes() + dec_digits(PROTOCOL_VERSION as int)
        + ",\"type\":\"attach\",\"sessionId\":".spec_bytes() + json_string(session_id) + (
    match stream_id {
        Some(s) => ",\"streamId\":".spec_bytes() + json_string(s),
        None => Seq::<u8>::empty(),
    }) + ",\"since\":".spec_bytes() + dec_int(since) + ",\"withBuffer\":".spec_bytes() + json_bool(
        with_buffer,
    ) + "}\n".spec_bytes()
}

pub fn attach_line(req: &AttachRequest) -> (r: Vec<u8>)
    ensures
        r@ == spec_attach_line(
            encode_utf8(req.session_id@),
            match req.stream_id {
                Some(s) => Some(encode_utf8(s@)),
                None => None,
            },
            req.since as int,
            req.with_buffer,
        ),
{
    let mut out: Vec<u8> = Vec::new();
    push_literal(&mut out, "{\"protocolVersion\":");
    push_dec_u64(&mut out, PROTOCOL_VERSION as u64);
    push_literal(&mut out, ",\"type\":\"attach\",\"sessionId\":");
    push_json_string(&mut out, req.session_id.as_str());
    match &req.stream_id {
        Some(s) => {
            push_literal(&mut out, ",\"streamId\":");
            push_json_string(&mut out, s.as_str());
        },
        None => {},
    }
    push_literal(&mut out, ",\"since\":");
    push_dec_i64(&mut out, req.since);
    push_literal(&mut out, ",\"withBuffer\":");
    push_bool(&mut out, req.with_buffer);
    push_literal(&mut out, "}\n");
    out
}

/// The outcome of a control response: the result payload on success, the
/// daemon's error text — or a fixed fallback when it sent none — on failure.
pub fn control_outcome(resp: ControlResponse) -> (r: Result<String, String>)
    ensures
        resp.ok <==> r is Ok,
        resp.ok ==> (r matches Ok(v) && v == resp.result),
        !resp.ok ==> (r matches Err(e) && (match resp.error {
            Some(m) => e == m,
            None => e@ == "Unknown error"@,
        })),
{
    if resp.ok {
        Ok(resp.result)
    } else {
        match resp.error {
            Some(m) => Err(m),
            None => Err("Unknown error".to_owned()),
        }
    }
}

/// A stream message, dispatched by its type tag into the closed set of
/// variants the client handles; fields other than the variant's own are not
/// read.
pub enum StreamEvent {
    Bootstrap {
        snapshot: Option<String>,
        alt_screen: bool,
        mouse: bool,
        mouse_sgr: bool,
        safe_to_replay: bool,
        initial_credit: Option<i64>,
        next_offset: Option<i64>,
    },
    Data { data: Option<String>, bytes: i64 },
    Modes { alt_screen: bool, mouse: bool, mouse_sgr: bool, mouse_encoding: Option<String> },
    Failed { message: Option<String> },
    Other,
}

/// The four type tags the client dispatches on are pairwise distinct.
proof fn lemma_type_tags_distinct()
    ensures
        "bootstrap"@ != "data"@,
        "bootstrap"@ != "modes"@,
        "bootstrap"@ != "error"@,
        "data"@ != "modes"@,
        "data"@ != "error"@,
        "modes"@ != "error"@,
{
    reveal_strlit("bootstrap");
    reveal_strlit("data");
    reveal_strlit("modes");
    reveal_strlit("error");
    assert("bootstrap"@.len() == 9);
    assert("data"@.len() == 4);
    assert("modes"@.len() == 5);
    assert("error"@.len() == 5);
    assert("modes"@[0] == 'm');
    assert("error"@[0] == 'e');
}

/// Dispatch one incoming stream message on its `type` tag. Exactly the
/// fields meaningful for the tag are carried over; a `data` message also
/// reports its payload's byte count, `0` for an absent payload.
pub fn classify_stream_message(msg: &StreamMessage) -> (r: StreamEvent)
    ensures
        msg.msg_type@ == "bootstrap"@ ==> r == (StreamEvent::Bootstrap {
            snapshot: msg.data,
            alt_screen: msg.alt_screen,
            mouse: msg.mouse,
            mouse_sgr: msg.mouse_sgr,
            safe_to_replay: msg.safe_to_replay,
            initial_credit: msg.initial_credit,
            next_offset: msg.next_offset,
        }),
        msg.msg_type@ == "data"@ ==> (r matches StreamEvent::Data { data, bytes } && data
            == msg.data && bytes as int == (match msg.data {
            Some(d) => (encode_utf8(d@).len() as usize) as i64 as int,
            None => 0,
        })),
        msg.msg_type@ == "modes"@ ==> r == (StreamEvent::Modes {
            alt_screen: msg.alt_screen,
            mouse: msg.mouse,
            mouse_sgr: msg.mouse_sgr,
            mouse_encoding: msg.mouse_encoding,
        }),
        msg.msg_type@ == "error"@ ==> r == (StreamEvent::Failed { message: msg.error }),
        (msg.msg_type@ != "bootstrap"@ && msg.msg_type@ != "data"@ && msg.msg_type@ != "modes"@
            && msg.msg_type@ != "error"@) ==> r == StreamEvent::Other,
{
    proof {
        lemma_type_tags_distinct();
    }
    if msg.msg_type == "bootstrap".to_owned() {
        StreamEvent::Bootstrap {
            snapshot: clone_opt_string(&msg.data),
            alt_screen: msg.alt_screen,
            mouse: msg.mouse,
            mouse_sgr: msg.mouse_sgr,
            safe_to_replay: msg.safe_to_replay,
            initial_credit: msg.initial_credit,
            next_offset: msg.next_offset,
        }
    } else if msg.msg_type == "data".to_owned() {
        let bytes: i64 = match &msg.data {
            Some(d) => d.as_str().len() as i64,
            None => 0,
        };
        StreamEvent::Data { data: clone_opt_string(&msg.data), bytes }
    } else if msg.msg_type == "modes".to_owned() {
        StreamEvent::Modes {
            alt_screen: msg.alt_screen,
            mouse: msg.mouse,
            mouse_sgr: msg.mouse_sgr,
            mouse_encoding: clone_opt_string(&msg.mouse_encoding),
        }
    } else if msg.msg_type == "error".to_owned() {
        StreamEvent::Failed { message: clone_opt_string(&msg.error) }
    } else {
        StreamEvent::Other
    }
}

/// The terminal mode state the daemon reports whenever it changes; the
/// client keeps the latest values per session for correct input encoding.
pub struct TerminalModes {
    pub alt_screen: bool,
    pub mouse: bool,
    pub mouse_sgr: bool,
    pub mouse_encoding: Option<String>,
}

impl TerminalModes {
    /// The state before any report: all off.
    pub fn new() -> (r: TerminalModes)
        ensures
            !r.alt_screen,
            !r.mouse,
            !r.mouse_sgr,
            r.mouse_encoding is None,
    {
        TerminalModes { alt_screen: false, mouse: false, mouse_sgr: false, mouse_encoding: None }
    }

    /// Replace the tracked state by the newly reported one.
    pub fn apply(&mut self, alt_screen: bool, mouse: bool, mouse_sgr: bool, mouse_encoding: Option<
        String,
    >)
        ensures
            final(self).alt_screen == alt_screen,
            final(self).mouse == mouse,
            final(self).mouse_sgr == mouse_sgr,
            final(self).mouse_encoding == mouse_encoding,
    {
        self.alt_screen = alt_screen;
        self.mouse = mouse;
        self.mouse_sgr = mouse_sgr;
        self.mouse_encoding = mouse_encoding;
    }
}

} // verus!
