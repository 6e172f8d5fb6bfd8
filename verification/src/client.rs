//! The client: one connection, one request at a time.
//!
//! The client does no I/O. It writes the bytes to send into a buffer and
//! takes the records that were received; whoever owns the transport moves
//! the bytes. `execute` runs a whole exchange over two buffers.

use crate::buffer::{buf_view, bytes_as_slice, bytes_view};
use crate::error::{ClientError, ClientResult, IoFailure};
use crate::framer::{chunks_bytes, encode_chunks, encode_empty_record, encoded_record,
    lemma_stream_bytes_split};
use crate::meta::{Header, RequestType};
use crate::params::Params;
use crate::request::{encode_request_head, request_bytes, request_head_bytes, Request};
use crate::response::{
    no_output, receive_response, spec_receive, spec_response, spec_step, Assembler, Output,
    Response, Step,
};
use bytes::BytesMut;
use vstd::prelude::*;

verus! {

/// What becomes of a connection when a request has completed.
#[derive(Debug, Clone, Copy, PartialEq, Eq, Structural)]
pub enum ConnMode {
    /// The server closes the connection after one request.
    ShortLived,
    /// The connection stays open for further requests.
    KeepAlive,
}

/// Where a client stands in an exchange.
#[derive(Debug, Clone, Copy, PartialEq, Eq, Structural)]
pub enum Phase {
    /// No request is in flight, and one can begin.
    Idle,
    /// The request is being sent.
    Sending,
    /// The request was sent, and the response is being received.
    Receiving,
    /// The connection carries no further request.
    Closed,
}

/// The state of a client.
pub struct ClientState {
    /// The connection mode.
    pub mode: ConnMode,
    /// The identifier of the latest request, or 0 before the first.
    pub last_id: u16,
    /// The phase of the exchange.
    pub phase: Phase,
    /// What the response in flight has received.
    pub output: Output,
}

/// The identifier of the request that follows request `last`: one more, and
/// 1 after 0xFFFF. It is never 0, which is reserved.
pub open spec fn spec_next_request_id(last: u16) -> u16 {
    if last == 0xFFFF {
        1
    } else {
        (last + 1) as u16
    }
}

/// The phase of a client in mode `mode` when a response has ended in
/// `result`. A short-lived connection is closed. A keep-alive connection is
/// closed by a transport failure and by an unexpected record, and else ready
/// for the next request.
pub open spec fn phase_after(mode: ConnMode, result: ClientResult<Output>) -> Phase {
    match result {
        Ok(_) => if mode == ConnMode::KeepAlive {
            Phase::Idle
        } else {
            Phase::Closed
        },
        Err(e) => if mode == ConnMode::KeepAlive && !e.spec_poisons() {
            Phase::Idle
        } else {
            Phase::Closed
        },
    }
}

/// The identifier of the request that follows request `last`.
pub fn next_request_id(last: u16) -> (id: u16)
    ensures
        id == spec_next_request_id(last),
        id >= 1,
        last < 0xFFFF ==> id == last + 1,
        last == 0xFFFF ==> id == 1,
{
    if last == 0xFFFF {
        1
    } else {
        last + 1
    }
}

/// A FastCGI client on one connection.
#[derive(Debug)]
pub struct Client {
    mode: ConnMode,
    last_id: u16,
    phase: Phase,
    assembler: Assembler,
}

impl View for Client {
    type V = ClientState;

    closed spec fn view(&self) -> Self::V {
        ClientState {
            mode: self.mode,
            last_id: self.last_id,
            phase: self.phase,
            output: self.assembler.output(),
        }
    }
}

impl Client {
    fn new(mode: ConnMode) -> (client: Self)
        ensures
            client@ == (ClientState { mode, last_id: 0, phase: Phase::Idle, output: no_output() }),
    {
        Client { mode, last_id: 0, phase: Phase::Idle, assembler: Assembler::new() }
    }

    /// A client on a connection that carries one request.
    pub fn new_short_lived() -> (client: Self)
        ensures
            client@ == (ClientState {
                mode: ConnMode::ShortLived,
                last_id: 0,
                phase: Phase::Idle,
                output: no_output(),
            }),
    {
        Client::new(ConnMode::ShortLived)
    }

    /// A client on a connection that is kept alive between requests.
    pub fn new_keep_alive() -> (client: Self)
        ensures
            client@ == (ClientState {
                mode: ConnMode::KeepAlive,
                last_id: 0,
                phase: Phase::Idle,
                output: no_output(),
            }),
    {
        Client::new(ConnMode::KeepAlive)
    }

    /// The connection mode.
    pub fn mode(&self) -> (mode: ConnMode)
        ensures
            mode == self@.mode,
    {
        self.mode
    }

    /// Whether the begin request record asks the server to keep the
    /// connection open.
    pub fn keep_alive(&self) -> (keep_alive: bool)
        ensures
            keep_alive == (self@.mode == ConnMode::KeepAlive),
    {
        self.mode == ConnMode::KeepAlive
    }

    /// The phase of the exchange.
    pub fn phase(&self) -> (phase: Phase)
        ensures
            phase == self@.phase,
    {
        self.phase
    }

    /// The identifier of the latest request, or 0 before the first.
    pub fn last_request_id(&self) -> (id: u16)
        ensures
            id == self@.last_id,
    {
        self.last_id
    }

    /// Begins a request: assigns its identifier and writes the begin request
    /// record and the parameters. The body follows through `send_stdin`.
    pub fn begin_request(&mut self, params: Params, writer: &mut BytesMut) -> (id: u16)
        requires
            old(self)@.phase == Phase::Idle,
        ensures
            id == spec_next_request_id(old(self)@.last_id),
            final(self)@ == (ClientState {
                mode: old(self)@.mode,
                last_id: id,
                phase: Phase::Sending,
                output: no_output(),
            }),
            buf_view(*final(writer)) == buf_view(*old(writer)) + request_head_bytes(
                id,
                old(self)@.mode == ConnMode::KeepAlive,
                params@,
            ),
    {
        let id = next_request_id(self.last_id);
        self.last_id = id;
        self.phase = Phase::Sending;
        self.assembler = Assembler::new();
        encode_request_head(id, self.mode == ConnMode::KeepAlive, params, writer);
        id
    }

    /// Writes a part of the body as `Stdin` records: one record for each
    /// chunk of up to 65535 bytes, and none for an empty part.
    pub fn send_stdin(&mut self, part: &[u8], writer: &mut BytesMut)
        requires
            old(self)@.phase == Phase::Sending,
        ensures
            final(self)@ == old(self)@,
            buf_view(*final(writer)) == buf_view(*old(writer)) + chunks_bytes(
                RequestType::Stdin,
                old(self)@.last_id,
                part@,
            ),
    {
        encode_chunks(RequestType::Stdin, self.last_id, part, writer);
    }

    /// Ends the body with the empty `Stdin` record. The response follows.
    pub fn finish_request(&mut self, writer: &mut BytesMut)
        requires
            old(self)@.phase == Phase::Sending,
        ensures
            final(self)@ == (ClientState { phase: Phase::Receiving, ..old(self)@ }),
            buf_view(*final(writer)) == buf_view(*old(writer)) + encoded_record(
                RequestType::Stdin,
                old(self)@.last_id,
                Seq::<u8>::empty(),
            ),
    {
        encode_empty_record(RequestType::Stdin, self.last_id, writer);
        self.phase = Phase::Receiving;
    }

    /// Gives the request up: writes an abort request record. The client
    /// then receives until the end request record arrives, or the caller
    /// drops the connection through `fail`.
    pub fn abort_request(&mut self, writer: &mut BytesMut)
        requires
            old(self)@.phase == Phase::Sending || old(self)@.phase == Phase::Receiving,
        ensures
            final(self)@ == (ClientState { phase: Phase::Receiving, ..old(self)@ }),
            buf_view(*final(writer)) == buf_view(*old(writer)) + encoded_record(
                RequestType::AbortRequest,
                old(self)@.last_id,
                Seq::<u8>::empty(),
            ),
    {
        encode_empty_record(RequestType::AbortRequest, self.last_id, writer);
        self.phase = Phase::Receiving;
    }

    /// Takes one record of the response. The result is `None` where the
    /// response goes on, and else the response or the error that the
    /// exchange ends in; the client is then in the phase that `phase_after`
    /// gives, and holds no output.
    pub fn on_record(&mut self, header: &Header, content: BytesMut) -> (r: Option<
        ClientResult<Response>,
    >)
        requires
            old(self)@.phase == Phase::Receiving,
        ensures
            final(self)@.mode == old(self)@.mode,
            final(self)@.last_id == old(self)@.last_id,
            match spec_step(old(self)@.last_id, old(self)@.output, *header, buf_view(content)) {
                Step::Continue(next) => {
                    &&& r.is_none()
                    &&& final(self)@.phase == Phase::Receiving
                    &&& final(self)@.output == next
                },
                Step::Done(result) => {
                    &&& final(self)@.phase == phase_after(old(self)@.mode, result)
                    &&& final(self)@.output == no_output()
                    &&& match result {
                        Ok(out) => r matches Some(Ok(response)) && response@ == spec_response(out),
                        Err(e) => r matches Some(Err(f)) && f == e,
                    }
                },
            },
    {
        match self.assembler.on_record(self.last_id, header, content) {
            None => None,
            Some(Ok(_)) => {
                let mut done = Assembler::new();
                core::mem::swap(&mut self.assembler, &mut done);
                self.phase = if self.mode == ConnMode::KeepAlive {
                    Phase::Idle
                } else {
                    Phase::Closed
                };
                Some(Ok(done.into_response()))
            },
            Some(Err(e)) => {
                self.assembler = Assembler::new();
                self.settle(&e);
                Some(Err(e))
            },
        }
    }

    /// Ends the exchange in a failure of the transport. The connection
    /// carries no further request.
    pub fn fail(&mut self, failure: IoFailure) -> (e: ClientError)
        ensures
            e == ClientError::Io(failure),
            final(self)@ == (ClientState {
                phase: Phase::Closed,
                output: no_output(),
                ..old(self)@
            }),
    {
        self.assembler = Assembler::new();
        self.phase = Phase::Closed;
        ClientError::Io(failure)
    }

    /// Sets the phase after an exchange that ended in the error `e`.
    fn settle(&mut self, e: &ClientError)
        ensures
            final(self).mode == old(self).mode,
            final(self).last_id == old(self).last_id,
            final(self).assembler == old(self).assembler,
            final(self).phase == phase_after(old(self).mode, Err::<Output, ClientError>(*e)),
    {
        self.phase = if self.mode == ConnMode::KeepAlive && !e.poisons() {
            Phase::Idle
        } else {
            Phase::Closed
        };
    }

    /// Drives one exchange over two buffers: writes the records of `request`
    /// to `writer`, then receives the response from `reader`, which holds
    /// all that the transport delivers before it closes.
    #[verifier::rlimit(50)]
    pub fn execute(&mut self, request: Request, reader: &mut BytesMut, writer: &mut BytesMut) -> (r:
        ClientResult<Response>)
        requires
            old(self)@.phase == Phase::Idle,
        ensures
            ({
                let id = spec_next_request_id(old(self)@.last_id);
                let received = spec_receive(id, buf_view(*old(reader)), no_output());
                &&& final(self)@ == (ClientState {
                    mode: old(self)@.mode,
                    last_id: id,
                    phase: phase_after(old(self)@.mode, received.result),
                    output: no_output(),
                })
                &&& buf_view(*final(writer)) == buf_view(*old(writer)) + request_bytes(
                    id,
                    old(self)@.mode == ConnMode::KeepAlive,
                    request.params@,
                    bytes_view(request.body),
                )
                &&& buf_view(*final(reader)) == received.rest
                &&& match received.result {
                    Ok(out) => r matches Ok(response) && response@ == spec_response(out),
                    Err(e) => r matches Err(f) && f == e,
                }
            }),
    {
        let Request { params, body } = request;
        let id = self.begin_request(params, writer);
        self.send_stdin(bytes_as_slice(&body), writer);
        self.finish_request(writer);
        proof {
            lemma_stream_bytes_split(RequestType::Stdin, id, bytes_view(body));
            let head = request_head_bytes(id, self@.mode == ConnMode::KeepAlive, params@);
            let chunks = chunks_bytes(RequestType::Stdin, id, bytes_view(body));
            let end = encoded_record(RequestType::Stdin, id, Seq::<u8>::empty());
            assert(((buf_view(*old(writer)) + head) + chunks) + end =~= buf_view(*old(writer)) + (
            head + (chunks + end)));
        }
        let result = receive_response(id, reader);
        match result {
            Ok(response) => {
                self.phase = if self.mode == ConnMode::KeepAlive {
                    Phase::Idle
                } else {
                    Phase::Closed
                };
                Ok(response)
            },
            Err(e) => {
                self.settle(&e);
                Err(e)
            },
        }
    }
}

} // verus!
