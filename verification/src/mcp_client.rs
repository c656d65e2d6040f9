//! The tool transport: a state machine around a tool-server subprocess that
//! exchanges one line-delimited JSON-RPC request and response at a time.
//!
//! The process itself lives outside this crate; callers spawn it, write the
//! framed request line this module produces, read one response line under a
//! deadline, and hand the outcome back as a [`ResponseEvent`].

use crate::agent::MCPRequest;
use crate::errors::AgentError;
use crate::json::{
    obj_find, parse_json, ser_value, spec_obj_get, spec_parse_json, spec_ser, spec_view_json,
    spec_view_members, JsonValue, SpecJson, lemma_view_members_index,
};
use crate::text::{spec_str_bytes, str_to_bytes};
use vstd::prelude::*;

verus! {

/// The lifecycle of the transport. `Starting` covers the spawn and warm-up
/// window; the per-call sub-cycle is `Ready` to `AwaitingResponse` and back.
#[derive(Clone, Copy, PartialEq, Eq, Structural, Debug)]
pub enum TransportState {
    Uninitialized,
    Starting,
    Ready,
    AwaitingResponse,
    Failed,
}

/// What the caller observed while reading the response line.
pub enum ResponseEvent {
    /// One line arrived (without its newline).
    Line(Vec<u8>),
    /// The deadline passed with no line.
    TimedOut,
    /// The stream closed before a line arrived.
    Closed,
    /// Reading failed outright.
    ReadFailed,
}

/// The transport state machine. Owns no process handle itself: it decides,
/// and the caller performs.
pub struct MCPClient {
    pub state: TransportState,
    pub next_id: u64,
}

/// The decimal digits of a number, most significant first.
pub open spec fn spec_dec_digits(n: nat) -> Seq<u8>
    decreases n,
{
    if n < 10 {
        seq![(0x30 + n) as u8]
    } else {
        spec_dec_digits(n / 10) + seq![(0x30 + (n % 10)) as u8]
    }
}

fn dec_digits(n: u64) -> (out: Vec<u8>)
    ensures
        out@ == spec_dec_digits(n as nat),
    decreases n,
{
    if n < 10 {
        let mut out: Vec<u8> = Vec::new();
        out.push(0x30 + (n as u8));
        assert(out@ =~= spec_dec_digits(n as nat));
        out
    } else {
        let mut out = dec_digits(n / 10);
        out.push(0x30 + ((n % 10) as u8));
        assert(out@ =~= spec_dec_digits(n as nat));
        out
    }
}

/// The id that follows `n`, staying positive.
pub open spec fn spec_next_id(n: u64) -> u64 {
    if n == u64::MAX {
        1u64
    } else {
        (n + 1) as u64
    }
}

/// The request envelope sent for one directive:
/// `{"method":"tools/call","params":{"name":...,"arguments":{...}},"id":...}`.
pub open spec fn spec_request_envelope(
    action: Seq<u8>,
    args: Seq<(Seq<u8>, SpecJson)>,
    id: nat,
) -> SpecJson {
    SpecJson::Obj(
        seq![
            (spec_str_bytes("method"@), SpecJson::Str(spec_str_bytes("tools/call"@))),
            (
                spec_str_bytes("params"@),
                SpecJson::Obj(
                    seq![
                        (spec_str_bytes("name"@), SpecJson::Str(action)),
                        (spec_str_bytes("arguments"@), SpecJson::Obj(args)),
                    ],
                ),
            ),
            (spec_str_bytes("id"@), SpecJson::Num(spec_dec_digits(id))),
        ],
    )
}

/// The request line for one directive: the rendered envelope, without the
/// trailing newline the caller appends.
pub open spec fn spec_request_line(action: Seq<u8>, args: Seq<(Seq<u8>, SpecJson)>, id: nat) -> Seq<
    u8,
> {
    spec_ser(spec_request_envelope(action, args, id))
}

/// Builds the request line for a directive under the given id.
fn build_request_line(req: MCPRequest, id: u64) -> (line: Vec<u8>)
    ensures
        line@ == spec_request_line(req.action@, spec_view_members(req.args@), id as nat),
{
    let ghost action0 = req.action@;
    let ghost args0 = spec_view_members(req.args@);
    let mut params_ms: Vec<(Vec<u8>, JsonValue)> = Vec::new();
    params_ms.push((str_to_bytes("name"), JsonValue::Str(req.action)));
    params_ms.push((str_to_bytes("arguments"), JsonValue::Obj(req.args)));
    let params = JsonValue::Obj(params_ms);
    proof {
        lemma_view_members_index(params->Obj_0@);
        assert(spec_view_members(params->Obj_0@) =~= seq![
            (spec_str_bytes("name"@), SpecJson::Str(action0)),
            (spec_str_bytes("arguments"@), SpecJson::Obj(args0)),
        ]);
    }
    let digits = dec_digits(id);
    let mut top_ms: Vec<(Vec<u8>, JsonValue)> = Vec::new();
    top_ms.push((str_to_bytes("method"), JsonValue::Str(str_to_bytes("tools/call"))));
    top_ms.push((str_to_bytes("params"), params));
    top_ms.push((str_to_bytes("id"), JsonValue::Num(digits)));
    let top = JsonValue::Obj(top_ms);
    proof {
        lemma_view_members_index(top->Obj_0@);
        assert(spec_view_members(top->Obj_0@) =~= spec_request_envelope(
            action0,
            args0,
            id as nat,
        )->Obj_0);
        assert(spec_view_json(top) == spec_request_envelope(action0, args0, id as nat));
    }
    ser_value(&top)
}

/// Whether a decoded tool response carries an explicit error field.
pub open spec fn spec_tool_error(v: SpecJson) -> Option<SpecJson> {
    match v {
        SpecJson::Obj(ms) => spec_obj_get(ms, spec_str_bytes("error"@)),
        _ => None,
    }
}

impl MCPClient {
    pub fn new() -> (r: Self)
        ensures
            r.state == TransportState::Uninitialized,
            r.next_id == 1u64,
    {
        MCPClient { state: TransportState::Uninitialized, next_id: 1 }
    }

    /// Begins initialization. The caller then spawns the subprocess, waits
    /// its warm-up interval, and reports with [`Self::mark_ready`] or
    /// [`Self::mark_spawn_failed`].
    pub fn init(&mut self)
        requires
            old(self).state == TransportState::Uninitialized,
        ensures
            final(self).state == TransportState::Starting,
            final(self).next_id == old(self).next_id,
    {
        self.state = TransportState::Starting;
    }

    /// The subprocess is up: the transport may carry calls.
    pub fn mark_ready(&mut self)
        requires
            old(self).state == TransportState::Starting,
        ensures
            final(self).state == TransportState::Ready,
            final(self).next_id == old(self).next_id,
    {
        self.state = TransportState::Ready;
    }

    /// The subprocess could not be started.
    pub fn mark_spawn_failed(&mut self) -> (r: AgentError)
        requires
            old(self).state == TransportState::Starting,
        ensures
            final(self).state == TransportState::Failed,
            final(self).next_id == old(self).next_id,
            r == AgentError::SpawnError,
    {
        self.state = TransportState::Failed;
        AgentError::SpawnError
    }

    /// Opens one request/response exchange: valid only in `Ready`, otherwise
    /// it fails with `NotReady` and changes nothing, so no line exists for
    /// the caller to write. On success it yields the framed request line and
    /// awaits the response.
    pub fn do_request(&mut self, req: MCPRequest) -> (r: Result<Vec<u8>, AgentError>)
        ensures
            old(self).state != TransportState::Ready ==> (r matches Err(AgentError::NotReady))
                && *final(self) == *old(self),
            old(self).state == TransportState::Ready ==> {
                &&& final(self).state == TransportState::AwaitingResponse
                &&& final(self).next_id == spec_next_id(old(self).next_id)
                &&& r matches Ok(line) && line@ == spec_request_line(
                    req.action@,
                    spec_view_members(req.args@),
                    old(self).next_id as nat,
                )
            },
    {
        match self.state {
            TransportState::Ready => {
                let line = build_request_line(req, self.next_id);
                self.next_id = if self.next_id == u64::MAX {
                    1
                } else {
                    self.next_id + 1
                };
                self.state = TransportState::AwaitingResponse;
                Ok(line)
            },
            _ => Err(AgentError::NotReady),
        }
    }

    /// Opens a `write_file` tool call for the given path and content.
    pub fn write_file(&mut self, path: &str, content: &str) -> (r: Result<Vec<u8>, AgentError>)
        ensures
            old(self).state != TransportState::Ready ==> (r matches Err(AgentError::NotReady))
                && *final(self) == *old(self),
            old(self).state == TransportState::Ready ==> {
                &&& final(self).state == TransportState::AwaitingResponse
                &&& final(self).next_id == spec_next_id(old(self).next_id)
                &&& r matches Ok(line) && line@ == spec_request_line(
                    spec_str_bytes("write_file"@),
                    seq![
                        (spec_str_bytes("path"@), SpecJson::Str(spec_str_bytes(path@))),
                        (spec_str_bytes("content"@), SpecJson::Str(spec_str_bytes(content@))),
                    ],
                    old(self).next_id as nat,
                )
            },
    {
        let mut args: Vec<(Vec<u8>, JsonValue)> = Vec::new();
        args.push((str_to_bytes("path"), JsonValue::Str(str_to_bytes(path))));
        args.push((str_to_bytes("content"), JsonValue::Str(str_to_bytes(content))));
        let req = MCPRequest { action: str_to_bytes("write_file"), args };
        proof {
            lemma_view_members_index(req.args@);
            assert(spec_view_members(req.args@) =~= seq![
                (spec_str_bytes("path"@), SpecJson::Str(spec_str_bytes(path@))),
                (spec_str_bytes("content"@), SpecJson::Str(spec_str_bytes(content@))),
            ]);
        }
        self.do_request(req)
    }

    /// Closes the exchange with what the caller observed. A timeout, a
    /// closed stream, a failed read or an empty line leaves the transport
    /// `Failed`; a decoded line returns it to `Ready`, as an error of the
    /// tool itself does not unsettle the transport. No correlation of the
    /// response's id against the request's is attempted: the protocol is
    /// strictly one exchange at a time, and the single `AwaitingResponse`
    /// slot is what enforces that on this side.
    pub fn handle_response(&mut self, event: ResponseEvent) -> (r: Result<(), AgentError>)
        ensures
            old(self).state != TransportState::AwaitingResponse ==> (r matches Err(
                AgentError::NotReady,
            )) && *final(self) == *old(self),
            old(self).state == TransportState::AwaitingResponse ==> final(self).next_id == old(
                self,
            ).next_id && match event {
                ResponseEvent::TimedOut => final(self).state == TransportState::Failed
                    && r matches Err(AgentError::Timeout),
                ResponseEvent::Closed => final(self).state == TransportState::Failed
                    && r matches Err(AgentError::EmptyResponse),
                ResponseEvent::ReadFailed => final(self).state == TransportState::Failed
                    && r matches Err(AgentError::IOError),
                ResponseEvent::Line(l) => if l@.len() == 0 {
                    final(self).state == TransportState::Failed && r matches Err(
                        AgentError::EmptyResponse,
                    )
                } else {
                    match spec_parse_json(l@) {
                        None => final(self).state == TransportState::Failed && r matches Err(
                            AgentError::MalformedToolResponse,
                        ),
                        Some(v) => match spec_tool_error(v) {
                            Some(err_v) => final(self).state == TransportState::Ready
                                && (r matches Err(AgentError::ToolError(p)) && p@ == spec_ser(
                                    err_v,
                                )),
                            None => final(self).state == TransportState::Ready && r matches Ok(()),
                        },
                    }
                },
            },
    {
        match self.state {
            TransportState::AwaitingResponse => {
                match event {
                    ResponseEvent::TimedOut => {
                        self.state = TransportState::Failed;
                        Err(AgentError::Timeout)
                    },
                    ResponseEvent::Closed => {
                        self.state = TransportState::Failed;
                        Err(AgentError::EmptyResponse)
                    },
                    ResponseEvent::ReadFailed => {
                        self.state = TransportState::Failed;
                        Err(AgentError::IOError)
                    },
                    ResponseEvent::Line(l) => {
                        if l.len() == 0 {
                            self.state = TransportState::Failed;
                            return Err(AgentError::EmptyResponse);
                        }
                        match parse_json(&l) {
                            None => {
                                self.state = TransportState::Failed;
                                Err(AgentError::MalformedToolResponse)
                            },
                            Some(v) => {
                                match v {
                                    JsonValue::Obj(ms) => {
                                        match obj_find(&ms, "error") {
                                            Some(ix) => {
                                                let payload = ser_value(&ms[ix].1);
                                                self.state = TransportState::Ready;
                                                Err(AgentError::ToolError(payload))
                                            },
                                            None => {
                                                self.state = TransportState::Ready;
                                                Ok(())
                                            },
                                        }
                                    },
                                    _ => {
                                        self.state = TransportState::Ready;
                                        Ok(())
                                    },
                                }
                            },
                        }
                    },
                }
            },
            _ => Err(AgentError::NotReady),
        }
    }
}

} // verus!

