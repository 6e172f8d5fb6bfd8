//! A request, and the records that carry it to the server.

use crate::buffer::{buf_view, bytes_as_slice, bytes_view};
use crate::framer::{
    chunk_contents, encode_stream, encoded_record, lemma_chunk_contents, lemma_stream_records,
    lemma_wire_bytes_concat, lemma_wire_bytes_one, lemma_wire_round_trip, spec_decode_records,
    stream_bytes, stream_contents, stream_records, wire_bytes, Record,
};
use vstd::seq_lib::lemma_flatten_concat;
use crate::meta::{
    begin_request_content, pairs_bytes, BeginRequestRec, ParamPairs, RequestType, Role, MAX_LENGTH,
};
use crate::params::Params;
use bytes::{Bytes, BytesMut};
use vstd::prelude::*;

verus! {

/// A request: its parameters and its body.
#[derive(Debug)]
pub struct Request {
    /// The parameters.
    pub params: Params,
    /// The body, which is sent as the `Stdin` stream.
    pub body: Bytes,
}

impl Request {
    /// Creates a request.
    pub fn new(params: Params, body: Bytes) -> (request: Self)
        ensures
            request.params == params,
            request.body == body,
    {
        Request { params, body }
    }
}

/// The begin request record of request `request_id`, for the role
/// `Responder`.
pub open spec fn begin_record(request_id: u16, keep_alive: bool) -> Record {
    Record {
        record_type: RequestType::BeginRequest,
        request_id,
        content: begin_request_content(Role::Responder, keep_alive),
    }
}

/// The records that carry a request, in the order in which they are sent:
/// the begin request record, the parameters as a `Params` stream, and the
/// body as a `Stdin` stream.
pub open spec fn request_records(
    request_id: u16,
    keep_alive: bool,
    params: Seq<(Seq<u8>, Seq<u8>)>,
    body: Seq<u8>,
) -> Seq<Record> {
    seq![begin_record(request_id, keep_alive)] + stream_records(
        RequestType::Params,
        request_id,
        pairs_bytes(params),
    ) + stream_records(RequestType::Stdin, request_id, body)
}

/// The bytes of the begin request record and of the `Params` stream of a
/// request.
pub open spec fn request_head_bytes(
    request_id: u16,
    keep_alive: bool,
    params: Seq<(Seq<u8>, Seq<u8>)>,
) -> Seq<u8> {
    encoded_record(
        RequestType::BeginRequest,
        request_id,
        begin_request_content(Role::Responder, keep_alive),
    ) + stream_bytes(RequestType::Params, request_id, pairs_bytes(params))
}

/// The bytes that carry a request.
pub open spec fn request_bytes(
    request_id: u16,
    keep_alive: bool,
    params: Seq<(Seq<u8>, Seq<u8>)>,
    body: Seq<u8>,
) -> Seq<u8> {
    request_head_bytes(request_id, keep_alive, params) + stream_bytes(
        RequestType::Stdin,
        request_id,
        body,
    )
}

/// Writes the begin request record of request `request_id` and its
/// parameters as a `Params` stream.
pub fn encode_request_head(
    request_id: u16,
    keep_alive: bool,
    params: Params,
    writer: &mut BytesMut,
)
    ensures
        buf_view(*final(writer)) == buf_view(*old(writer)) + request_head_bytes(
            request_id,
            keep_alive,
            params@,
        ),
{
    let begin = BeginRequestRec::new(request_id, Role::Responder, keep_alive);
    let written = begin.write_to_stream(writer);
    assert(written is Ok);
    let content = ParamPairs::new(params).to_content();
    let ghost before = buf_view(*writer);
    encode_stream(RequestType::Params, request_id, bytes_as_slice(&content), writer);
    assert(buf_view(*writer) =~= buf_view(*old(writer)) + request_head_bytes(
        request_id,
        keep_alive,
        params@,
    ));
}

/// Writes all the records of a request: the begin request record, the
/// parameters, and the body.
pub fn encode_request(request_id: u16, keep_alive: bool, request: Request, writer: &mut BytesMut)
    ensures
        buf_view(*final(writer)) == buf_view(*old(writer)) + request_bytes(
            request_id,
            keep_alive,
            request.params@,
            bytes_view(request.body),
        ),
{
    let Request { params, body } = request;
    encode_request_head(request_id, keep_alive, params, writer);
    encode_stream(RequestType::Stdin, request_id, bytes_as_slice(&body), writer);
    assert(buf_view(*writer) =~= buf_view(*old(writer)) + request_bytes(
        request_id,
        keep_alive,
        params@,
        bytes_view(body),
    ));
}

/// The bytes that carry a request are the bytes of its records.
pub proof fn lemma_request_wire(
    request_id: u16,
    keep_alive: bool,
    params: Seq<(Seq<u8>, Seq<u8>)>,
    body: Seq<u8>,
)
    ensures
        request_bytes(request_id, keep_alive, params, body) == wire_bytes(
            request_records(request_id, keep_alive, params, body),
        ),
{
    let begin = seq![begin_record(request_id, keep_alive)];
    let p = stream_records(RequestType::Params, request_id, pairs_bytes(params));
    let s = stream_records(RequestType::Stdin, request_id, body);
    lemma_wire_bytes_one(begin_record(request_id, keep_alive));
    lemma_wire_bytes_concat(begin, p);
    lemma_wire_bytes_concat(begin + p, s);
}

/// The records of a request are a begin request record, then `Params`
/// records that are not empty, then one empty `Params` record, then `Stdin`
/// records that are not empty, then one empty `Stdin` record. All carry the
/// request's identifier, and no content is longer than `MAX_LENGTH`. The
/// contents of the `Params` records one after the other are the encoded
/// parameters, and those of the `Stdin` records are the body.
#[verifier::rlimit(50)]
pub proof fn lemma_request_shape(
    request_id: u16,
    keep_alive: bool,
    params: Seq<(Seq<u8>, Seq<u8>)>,
    body: Seq<u8>,
)
    ensures
        ({
            let records = request_records(request_id, keep_alive, params, body);
            let p = chunk_contents(pairs_bytes(params)).len() as int;
            let s = chunk_contents(body).len() as int;
            &&& records.len() == 1 + (p + 1) + (s + 1)
            &&& records[0] == begin_record(request_id, keep_alive)
            &&& forall|i: int|
                0 <= i < records.len() ==> (#[trigger] records[i]).request_id == request_id
                    && records[i].content.len() <= MAX_LENGTH
            &&& forall|i: int|
                1 <= i < 1 + p ==> (#[trigger] records[i]).record_type == RequestType::Params
                    && records[i].content.len() >= 1
            &&& records[1 + p].record_type == RequestType::Params
            &&& records[1 + p].content.len() == 0
            &&& forall|i: int|
                2 + p <= i < 2 + p + s ==> (#[trigger] records[i]).record_type
                    == RequestType::Stdin && records[i].content.len() >= 1
            &&& records[2 + p + s].record_type == RequestType::Stdin
            &&& records[2 + p + s].content.len() == 0
            &&& records.subrange(1, 2 + p) == stream_records(
                RequestType::Params,
                request_id,
                pairs_bytes(params),
            )
            &&& records.subrange(2 + p, 3 + p + s) == stream_records(
                RequestType::Stdin,
                request_id,
                body,
            )
            &&& stream_contents(pairs_bytes(params)).flatten() == pairs_bytes(params)
            &&& stream_contents(body).flatten() == body
        }),
{
    let records = request_records(request_id, keep_alive, params, body);
    let ps = stream_records(RequestType::Params, request_id, pairs_bytes(params));
    let ss = stream_records(RequestType::Stdin, request_id, body);
    let p = chunk_contents(pairs_bytes(params)).len() as int;
    let s = chunk_contents(body).len() as int;
    lemma_stream_records(RequestType::Params, request_id, pairs_bytes(params));
    lemma_stream_records(RequestType::Stdin, request_id, body);
    assert(begin_request_content(Role::Responder, keep_alive).len() == 8);
    assert forall|i: int| 0 <= i < records.len() implies (#[trigger] records[i]).request_id
        == request_id && records[i].content.len() <= MAX_LENGTH by {
        if i == 0 {
        } else if i < 2 + p {
            assert(records[i] == ps[i - 1]);
            if i - 1 < ps.len() - 1 {
                assert(1 <= ps[i - 1].content.len() <= MAX_LENGTH);
            }
        } else {
            assert(records[i] == ss[i - 2 - p]);
            if i - 2 - p < ss.len() - 1 {
                assert(1 <= ss[i - 2 - p].content.len() <= MAX_LENGTH);
            }
        }
    }
    assert forall|i: int| 1 <= i < 1 + p implies (#[trigger] records[i]).record_type
        == RequestType::Params && records[i].content.len() >= 1 by {
        assert(records[i] == ps[i - 1]);
        assert(1 <= ps[i - 1].content.len() <= MAX_LENGTH);
    }
    assert(records[1 + p] == ps[p]);
    assert(ps[p] == ps.last());
    assert forall|i: int| 2 + p <= i < 2 + p + s implies (#[trigger] records[i]).record_type
        == RequestType::Stdin && records[i].content.len() >= 1 by {
        assert(records[i] == ss[i - 2 - p]);
        assert(1 <= ss[i - 2 - p].content.len() <= MAX_LENGTH);
    }
    assert(records[2 + p + s] == ss[s]);
    assert(ss[s] == ss.last());
    assert(records.subrange(1, 2 + p) =~= ps);
    assert(records.subrange(2 + p, 3 + p + s) =~= ss);
}

/// The bytes that carry a request are read back as the records of the
/// request.
pub proof fn lemma_request_round_trip(
    request_id: u16,
    keep_alive: bool,
    params: Seq<(Seq<u8>, Seq<u8>)>,
    body: Seq<u8>,
)
    ensures
        spec_decode_records(request_bytes(request_id, keep_alive, params, body)) == Some(
            request_records(request_id, keep_alive, params, body),
        ),
{
    lemma_request_wire(request_id, keep_alive, params, body);
    lemma_request_shape(request_id, keep_alive, params, body);
    lemma_wire_round_trip(request_records(request_id, keep_alive, params, body));
}

/// A body that is sent in two parts, each cut into chunks of its own, gives
/// `Stdin` records whose contents one after the other are the whole body.
pub proof fn lemma_body_in_parts(first: Seq<u8>, second: Seq<u8>)
    ensures
        (chunk_contents(first) + chunk_contents(second)).flatten() == first + second,
{
    lemma_chunk_contents(first);
    lemma_chunk_contents(second);
    lemma_flatten_concat(chunk_contents(first), chunk_contents(second));
}

} // verus!
