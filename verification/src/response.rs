//! The response of a request, and the assembler that collects it from the
//! records that the server sends.

use crate::buffer::{buf_as_slice, buf_view, bytes_view};
use crate::endian::{lemma_u32_be_round_trip, u32_be, u32_from_be};
use crate::error::{ClientError, ClientResult, IoFailure};
use crate::framer::{
    decode_content, decode_header, encoded_record, lemma_record_round_trip, record_bytes,
    record_len, wire_bytes, Record,
};
use crate::meta::{
    header_from_bytes, EndRequest, Header, ProtocolStatus, RequestType, HEADER_LEN, MAX_LENGTH,
};
use bytes::{Bytes, BytesMut};
use vstd::prelude::*;

verus! {

/// The bytes that a response has received so far on its two streams.
pub struct Output {
    /// The bytes of the `Stdout` records, in order.
    pub stdout: Seq<u8>,
    /// The bytes of the `Stderr` records, in order.
    pub stderr: Seq<u8>,
}

/// What one record does to a response.
pub enum Step {
    /// The response goes on, with this output.
    Continue(Output),
    /// The response has ended, in this output or in this error.
    Done(ClientResult<Output>),
}

/// What a response has received before its first record.
pub open spec fn no_output() -> Output {
    Output { stdout: Seq::empty(), stderr: Seq::empty() }
}

/// How an end request record with the given content ends a response: in an
/// error where the content is shorter than the eight bytes of an end request
/// body or where the protocol status is not `RequestComplete`, and else in
/// the output received.
pub open spec fn spec_end_request(out: Output, content: Seq<u8>) -> ClientResult<Output> {
    if content.len() < 8 {
        Err(ClientError::UnexpectedServerRecord(RequestType::EndRequest))
    } else {
        match ProtocolStatus::spec_from_u8(content[4]).spec_client_result(u32_from_be(content)) {
            Ok(_) => Ok(out),
            Err(e) => Err(e),
        }
    }
}

/// What the record with header `h` and content `content` does to the
/// response of request `request_id` that has received `out`. A record of
/// another request is discarded. `Stdout` and `Stderr` append their content.
/// `EndRequest` ends the response. Every other kind is an error.
pub open spec fn spec_step(request_id: u16, out: Output, h: Header, content: Seq<u8>) -> Step {
    if h.request_id != request_id {
        Step::Continue(out)
    } else {
        match h.record_type {
            RequestType::Stdout => Step::Continue(
                Output { stdout: out.stdout + content, stderr: out.stderr },
            ),
            RequestType::Stderr => Step::Continue(
                Output { stdout: out.stdout, stderr: out.stderr + content },
            ),
            RequestType::EndRequest => Step::Done(spec_end_request(out, content)),
            _ => Step::Done(Err(ClientError::UnexpectedServerRecord(h.record_type))),
        }
    }
}

/// How the whole of a response ends, and what the transport still holds
/// then.
pub struct Received {
    /// The output, or the error.
    pub result: ClientResult<Output>,
    /// The bytes that were not read.
    pub rest: Seq<u8>,
}

/// How the response of request `request_id` ends where it has received `out`
/// and the transport delivers `input` and then closes: the records are taken
/// one by one until one ends the response. A transport that closes inside a
/// record ends it in `UnexpectedEof`.
pub open spec fn spec_receive(request_id: u16, input: Seq<u8>, out: Output) -> Received
    decreases input.len(),
{
    if input.len() < HEADER_LEN {
        Received { result: Err(ClientError::Io(IoFailure::UnexpectedEof)), rest: input }
    } else {
        let h = header_from_bytes(input);
        if input.len() < record_len(h) {
            Received {
                result: Err(ClientError::Io(IoFailure::UnexpectedEof)),
                rest: input.skip(HEADER_LEN as int),
            }
        } else {
            let content = input.subrange(HEADER_LEN as int, HEADER_LEN + h.content_length);
            let rest = input.skip(record_len(h));
            match spec_step(request_id, out, h, content) {
                Step::Continue(next) => spec_receive(request_id, rest, next),
                Step::Done(result) => Received { result, rest },
            }
        }
    }
}

/// The two streams of a response as its caller sees them: a stream that
/// received no byte is absent.
pub open spec fn spec_response(out: Output) -> (Option<Seq<u8>>, Option<Seq<u8>>) {
    (
        if out.stdout.len() == 0 {
            None
        } else {
            Some(out.stdout)
        },
        if out.stderr.len() == 0 {
            None
        } else {
            Some(out.stderr)
        },
    )
}

/// The response of a request that completed.
#[derive(Debug)]
pub struct Response {
    /// The bytes of the `Stdout` stream, or `None` where it received none.
    pub stdout: Option<Bytes>,
    /// The bytes of the `Stderr` stream, or `None` where it received none.
    pub stderr: Option<Bytes>,
}

impl View for Response {
    type V = (Option<Seq<u8>>, Option<Seq<u8>>);

    open spec fn view(&self) -> Self::V {
        (
            match self.stdout {
                Some(b) => Some(bytes_view(b)),
                None => None,
            },
            match self.stderr {
                Some(b) => Some(bytes_view(b)),
                None => None,
            },
        )
    }
}

/// Collects the response of one request from the records that arrive.
#[derive(Debug)]
pub struct Assembler {
    stdout: BytesMut,
    stderr: BytesMut,
}

impl Assembler {
    /// The output received so far.
    pub closed spec fn output(&self) -> Output {
        Output { stdout: buf_view(self.stdout), stderr: buf_view(self.stderr) }
    }

    /// An assembler that has received nothing yet.
    pub fn new() -> (a: Self)
        ensures
            a.output() == no_output(),
    {
        Assembler { stdout: BytesMut::new(), stderr: BytesMut::new() }
    }

    /// Takes one record of the response of request `request_id`. The result
    /// is `None` where the response goes on, `Some(Ok(()))` where the record
    /// ended it, and `Some(Err(..))` where the record ended it in an error;
    /// the output changes only where the response goes on.
    pub fn on_record(&mut self, request_id: u16, header: &Header, content: BytesMut) -> (r: Option<
        ClientResult<()>,
    >)
        ensures
            match spec_step(request_id, old(self).output(), *header, buf_view(content)) {
                Step::Continue(next) => r.is_none() && final(self).output() == next,
                Step::Done(Ok(out)) => r == Some(Ok::<(), ClientError>(())) && final(self).output()
                    == out,
                Step::Done(Err(e)) => r == Some(Err::<(), ClientError>(e)) && final(self).output()
                    == old(self).output(),
            },
    {
        if header.request_id != request_id {
            return None;
        }
        match header.record_type {
            RequestType::Stdout => {
                self.stdout.extend_from_slice(buf_as_slice(&content));
                None
            },
            RequestType::Stderr => {
                self.stderr.extend_from_slice(buf_as_slice(&content));
                None
            },
            RequestType::EndRequest => {
                if content.len() < 8 {
                    return Some(Err(ClientError::UnexpectedServerRecord(RequestType::EndRequest)));
                }
                let end_request = EndRequest::from(content);
                Some(end_request.protocol_status.convert_to_client_result(end_request.app_status))
            },
            other => Some(Err(ClientError::UnexpectedServerRecord(other))),
        }
    }

    /// The response, of what was received: a stream that received no byte is
    /// absent.
    pub fn into_response(self) -> (response: Response)
        ensures
            response@ == spec_response(self.output()),
    {
        let stdout = if self.stdout.len() == 0 {
            None
        } else {
            Some(self.stdout.freeze())
        };
        let stderr = if self.stderr.len() == 0 {
            None
        } else {
            Some(self.stderr.freeze())
        };
        Response { stdout, stderr }
    }
}

/// Receives the response of request `request_id` from `reader`, which holds
/// all that the transport delivers before it closes: reads record after
/// record until an end request record for this request arrives. No response
/// is returned on an error.
#[verifier::rlimit(50)]
pub fn receive_response(request_id: u16, reader: &mut BytesMut) -> (r: ClientResult<Response>)
    ensures
        buf_view(*final(reader)) == spec_receive(
            request_id,
            buf_view(*old(reader)),
            no_output(),
        ).rest,
        match spec_receive(request_id, buf_view(*old(reader)), no_output()).result {
            Ok(out) => r matches Ok(response) && response@ == spec_response(out),
            Err(e) => r matches Err(f) && f == e,
        },
{
    let mut assembler = Assembler::new();
    loop
        invariant
            spec_receive(request_id, buf_view(*old(reader)), no_output()) == spec_receive(
                request_id,
                buf_view(*reader),
                assembler.output(),
            ),
        decreases buf_view(*reader).len(),
    {
        let ghost input = buf_view(*reader);
        let header = match decode_header(reader) {
            Ok(header) => header,
            Err(e) => {
                return Err(ClientError::Io(e));
            },
        };
        let content = match decode_content(&header, reader) {
            Ok(content) => content,
            Err(e) => {
                return Err(ClientError::Io(e));
            },
        };
        proof {
            assert(buf_view(content) =~= input.subrange(
                HEADER_LEN as int,
                HEADER_LEN + header.content_length,
            ));
            assert(buf_view(*reader) =~= input.skip(record_len(header)));
        }
        match assembler.on_record(request_id, &header, content) {
            None => {},
            Some(Ok(_)) => {
                return Ok(assembler.into_response());
            },
            Some(Err(e)) => {
                return Err(e);
            },
        }
    }
}

/// The contents of those of `records` that are of kind `record_type` and
/// belong to request `request_id`, one after the other.
pub open spec fn stream_of(records: Seq<Record>, request_id: u16, record_type: RequestType) -> Seq<
    u8,
>
    decreases records.len(),
{
    if records.len() == 0 {
        Seq::empty()
    } else if records.first().request_id == request_id && records.first().record_type
        == record_type {
        records.first().content + stream_of(records.drop_first(), request_id, record_type)
    } else {
        stream_of(records.drop_first(), request_id, record_type)
    }
}

/// Whether every record of `records` goes on with the response of request
/// `request_id`: it belongs to another request, or it is a `Stdout` or a
/// `Stderr` record; and no content is longer than `MAX_LENGTH`.
pub open spec fn all_output(records: Seq<Record>, request_id: u16) -> bool {
    forall|i: int|
        0 <= i < records.len() ==> {
            &&& (#[trigger] records[i]).content.len() <= MAX_LENGTH
            &&& records[i].request_id != request_id || records[i].record_type
                == RequestType::Stdout || records[i].record_type == RequestType::Stderr
        }
}

/// Records that go on with a response are demultiplexed: the contents of the
/// `Stdout` records of the request are appended to its `Stdout` stream in
/// the order in which they arrive, those of its `Stderr` records to its
/// `Stderr` stream, and the records of other requests are dropped. The
/// response then goes on with what follows.
#[verifier::rlimit(50)]
pub proof fn lemma_receive_output(request_id: u16, records: Seq<Record>, tail: Seq<u8>, out: Output)
    requires
        all_output(records, request_id),
    ensures
        spec_receive(request_id, wire_bytes(records) + tail, out) == spec_receive(
            request_id,
            tail,
            Output {
                stdout: out.stdout + stream_of(records, request_id, RequestType::Stdout),
                stderr: out.stderr + stream_of(records, request_id, RequestType::Stderr),
            },
        ),
    decreases records.len(),
{
    if records.len() == 0 {
        assert(wire_bytes(records) + tail =~= tail);
        assert(out.stdout + Seq::<u8>::empty() =~= out.stdout);
        assert(out.stderr + Seq::<u8>::empty() =~= out.stderr);
    } else {
        let first = records.first();
        let rest = records.drop_first();
        assert(records[0] == first);
        assert(all_output(rest, request_id)) by {
            assert forall|i: int| 0 <= i < rest.len() implies {
                &&& (#[trigger] rest[i]).content.len() <= MAX_LENGTH
                &&& rest[i].request_id != request_id || rest[i].record_type == RequestType::Stdout
                    || rest[i].record_type == RequestType::Stderr
            } by {
                assert(rest[i] == records[i + 1]);
            }
        }
        let h = Header::spec_new(first.record_type, first.request_id, first.content);
        let input = wire_bytes(records) + tail;
        let after = wire_bytes(rest) + tail;
        lemma_record_round_trip(h, first.content, after);
        assert(input =~= record_bytes(h, first.content) + after);
        let next = match spec_step(request_id, out, h, first.content) {
            Step::Continue(next) => next,
            Step::Done(_) => out,
        };
        assert(spec_step(request_id, out, h, first.content) == Step::Continue(next));
        assert(spec_receive(request_id, input, out) == spec_receive(request_id, after, next));
        lemma_receive_output(request_id, rest, tail, next);
        let so = stream_of(rest, request_id, RequestType::Stdout);
        let se = stream_of(rest, request_id, RequestType::Stderr);
        assert(next.stdout + so =~= out.stdout + stream_of(records, request_id, RequestType::Stdout));
        assert(next.stderr + se =~= out.stderr + stream_of(records, request_id, RequestType::Stderr));
    }
}

/// The content of an end request record: the application status in four
/// bytes, the code of the protocol status, and three reserved bytes.
pub open spec fn end_request_content(app_status: u32, status: u8, reserved: Seq<u8>) -> Seq<u8> {
    u32_be(app_status) + seq![status] + reserved
}

/// An end request record of the request ends its response: in the output
/// received where the protocol status is `RequestComplete`, and else in the
/// error that carries the protocol status and the application status. What
/// follows the record is not read.
#[verifier::rlimit(50)]
pub proof fn lemma_receive_end_request(
    request_id: u16,
    app_status: u32,
    status: u8,
    reserved: Seq<u8>,
    tail: Seq<u8>,
    out: Output,
)
    requires
        reserved.len() == 3,
    ensures
        spec_receive(
            request_id,
            encoded_record(
                RequestType::EndRequest,
                request_id,
                end_request_content(app_status, status, reserved),
            ) + tail,
            out,
        ) == (Received {
            result: if status == 0 {
                Ok(out)
            } else {
                Err(
                    ClientError::EndRequestWithProtocolStatus(
                        ProtocolStatus::spec_from_u8(status),
                        app_status,
                    ),
                )
            },
            rest: tail,
        }),
{
    let content = end_request_content(app_status, status, reserved);
    let h = Header::spec_new(RequestType::EndRequest, request_id, content);
    lemma_record_round_trip(h, content, tail);
    lemma_u32_be_round_trip(app_status);
    assert(content[4] == status);
    assert(u32_from_be(content) == u32_from_be(u32_be(app_status))) by {
        let head = u32_be(app_status);
        assert(content[0] == head[0] && content[1] == head[1] && content[2] == head[2]
            && content[3] == head[3]);
    }
    assert(spec_end_request(out, content) == (if status == 0 {
        Ok::<Output, ClientError>(out)
    } else {
        Err::<Output, ClientError>(
            ClientError::EndRequestWithProtocolStatus(
                ProtocolStatus::spec_from_u8(status),
                app_status,
            ),
        )
    }));
}

/// A response that consists of an end request record alone, with the status
/// `RequestComplete`, has neither stream.
pub proof fn lemma_end_request_alone(request_id: u16, app_status: u32, reserved: Seq<u8>)
    requires
        reserved.len() == 3,
    ensures
        spec_receive(
            request_id,
            encoded_record(
                RequestType::EndRequest,
                request_id,
                end_request_content(app_status, 0, reserved),
            ),
            no_output(),
        ) == (Received { result: Ok(no_output()), rest: Seq::empty() }),
        spec_response(no_output()) == (None::<Seq<u8>>, None::<Seq<u8>>),
{
    lemma_receive_end_request(request_id, app_status, 0, reserved, Seq::empty(), no_output());
    let input = encoded_record(
        RequestType::EndRequest,
        request_id,
        end_request_content(app_status, 0, reserved),
    );
    assert(input + Seq::<u8>::empty() =~= input);
}

/// A response whose records go on until an end request record with the
/// status `RequestComplete` arrives is the `Stdout` contents of the request
/// in order, and its `Stderr` contents in order, each absent where it is
/// empty.
#[verifier::rlimit(50)]
pub proof fn lemma_receive_complete(
    request_id: u16,
    records: Seq<Record>,
    app_status: u32,
    reserved: Seq<u8>,
    tail: Seq<u8>,
)
    requires
        all_output(records, request_id),
        reserved.len() == 3,
    ensures
        spec_receive(
            request_id,
            wire_bytes(records) + encoded_record(
                RequestType::EndRequest,
                request_id,
                end_request_content(app_status, 0, reserved),
            ) + tail,
            no_output(),
        ) == (Received {
            result: Ok(
                Output {
                    stdout: stream_of(records, request_id, RequestType::Stdout),
                    stderr: stream_of(records, request_id, RequestType::Stderr),
                },
            ),
            rest: tail,
        }),
{
    let end = encoded_record(
        RequestType::EndRequest,
        request_id,
        end_request_content(app_status, 0, reserved),
    );
    let out = Output {
        stdout: stream_of(records, request_id, RequestType::Stdout),
        stderr: stream_of(records, request_id, RequestType::Stderr),
    };
    lemma_receive_output(request_id, records, end + tail, no_output());
    assert(wire_bytes(records) + end + tail =~= wire_bytes(records) + (end + tail));
    assert(Seq::<u8>::empty() + out.stdout =~= out.stdout);
    assert(Seq::<u8>::empty() + out.stderr =~= out.stderr);
    lemma_receive_end_request(request_id, app_status, 0, reserved, tail, out);
}

/// A response that received bytes on `Stderr` and none on `Stdout` has no
/// `Stdout` stream, and its `Stderr` stream holds those bytes.
pub proof fn lemma_stderr_alone(out: Output)
    requires
        out.stdout.len() == 0,
        out.stderr.len() > 0,
    ensures
        spec_response(out) == (None::<Seq<u8>>, Some(out.stderr)),
{
}

} // verus!
