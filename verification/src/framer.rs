//! The record framer: a record is an eight byte header, the content, and
//! zero bytes that pad the record to a multiple of eight bytes.
//!
//! The framer writes to the end of a buffer and reads from the front of one.
//! A buffer that is read stands for all the bytes that the transport
//! delivers before it closes.

use crate::buffer::{buf_as_slice, buf_view, bytes_as_slice, put_u8};
use crate::error::IoFailure;
use crate::meta::{
    header_bytes, header_from_bytes, lemma_header_encode_decode, padding_for, BeginRequestRec,
    Header, RequestType, HEADER_LEN, MAX_LENGTH,
};
use bytes::BytesMut;
use vstd::prelude::*;
use vstd::seq_lib::lemma_flatten_concat;
use vstd::slice::slice_subrange;

verus! {

/// `n` zero bytes.
pub open spec fn zeros(n: int) -> Seq<u8> {
    Seq::new(n as nat, |i: int| 0u8)
}

/// The bytes of the record with header `h` and content `content`: the
/// header, the content, and as many zero bytes as the header's padding
/// length says.
pub open spec fn record_bytes(h: Header, content: Seq<u8>) -> Seq<u8> {
    header_bytes(h) + content + zeros(h.padding_length as int)
}

/// The bytes of the record of kind `record_type` that carries `content` for
/// request `request_id`.
pub open spec fn encoded_record(record_type: RequestType, request_id: u16, content: Seq<u8>) -> Seq<
    u8,
> {
    record_bytes(Header::spec_new(record_type, request_id, content), content)
}

/// One record as it is framed: its kind, its request, and its content.
pub struct Record {
    /// The kind of the record.
    pub record_type: RequestType,
    /// The request that the record belongs to.
    pub request_id: u16,
    /// The content of the record.
    pub content: Seq<u8>,
}

/// The bytes of a sequence of records, one record after the other.
pub open spec fn wire_bytes(records: Seq<Record>) -> Seq<u8>
    decreases records.len(),
{
    if records.len() == 0 {
        Seq::<u8>::empty()
    } else {
        encoded_record(
            records.first().record_type,
            records.first().request_id,
            records.first().content,
        ) + wire_bytes(records.drop_first())
    }
}

/// The records of kind `record_type` for request `request_id` with the
/// given contents, in order.
pub open spec fn records_of(record_type: RequestType, request_id: u16, contents: Seq<Seq<u8>>) -> Seq<
    Record,
> {
    Seq::new(
        contents.len(),
        |i: int| Record { record_type, request_id, content: contents[i] },
    )
}

/// The length of the first chunk that a stream of `len` bytes is cut into.
pub open spec fn chunk_len(len: nat) -> int {
    if len <= MAX_LENGTH {
        len as int
    } else {
        MAX_LENGTH as int
    }
}

/// `data` cut into chunks of `MAX_LENGTH` bytes, the last one shorter where
/// `data` does not fill it. No chunk is empty.
pub open spec fn chunk_contents(data: Seq<u8>) -> Seq<Seq<u8>>
    decreases data.len(),
{
    if data.len() == 0 {
        Seq::empty()
    } else {
        seq![data.take(chunk_len(data.len()))] + chunk_contents(data.skip(chunk_len(data.len())))
    }
}

/// The contents of the records that carry `data` as a stream: the chunks of
/// `data`, and then the empty content that ends the stream.
pub open spec fn stream_contents(data: Seq<u8>) -> Seq<Seq<u8>> {
    chunk_contents(data).push(Seq::<u8>::empty())
}

/// The records that carry `data` as a stream of kind `record_type`.
pub open spec fn stream_records(record_type: RequestType, request_id: u16, data: Seq<u8>) -> Seq<
    Record,
> {
    records_of(record_type, request_id, stream_contents(data))
}

/// The bytes of the records that carry the chunks of `data`, without the
/// record that ends a stream.
pub open spec fn chunks_bytes(record_type: RequestType, request_id: u16, data: Seq<u8>) -> Seq<u8> {
    wire_bytes(records_of(record_type, request_id, chunk_contents(data)))
}

/// The bytes that carry `data` as a stream of kind `record_type`: one record
/// for each chunk, and the empty record that ends the stream.
pub open spec fn stream_bytes(record_type: RequestType, request_id: u16, data: Seq<u8>) -> Seq<u8> {
    wire_bytes(stream_records(record_type, request_id, data))
}

/// The number of bytes that the record with header `h` takes on the wire.
pub open spec fn record_len(h: Header) -> int {
    HEADER_LEN + h.content_length + h.padding_length
}

/// The header and content of the record at the front of `b`, or `None`
/// where `b` ends before the record does.
pub open spec fn spec_decode_record(b: Seq<u8>) -> Option<(Header, Seq<u8>)> {
    if b.len() < HEADER_LEN {
        None
    } else if b.len() < record_len(header_from_bytes(b)) {
        None
    } else {
        Some(
            (
                header_from_bytes(b),
                b.subrange(HEADER_LEN as int, HEADER_LEN + header_from_bytes(b).content_length),
            ),
        )
    }
}

/// The records that `b` spells, one after the other, or `None` where `b`
/// ends inside a record.
pub open spec fn spec_decode_records(b: Seq<u8>) -> Option<Seq<Record>>
    decreases b.len(),
{
    if b.len() == 0 {
        Some(Seq::empty())
    } else {
        match spec_decode_record(b) {
            None => None,
            Some((h, content)) => match spec_decode_records(b.skip(record_len(h))) {
                None => None,
                Some(rest) => Some(
                    seq![
                        Record { record_type: h.record_type, request_id: h.request_id, content },
                    ] + rest,
                ),
            },
        }
    }
}

/// The bytes of two sequences of records, one after the other, are the bytes
/// of the first and then those of the second.
pub proof fn lemma_wire_bytes_concat(a: Seq<Record>, b: Seq<Record>)
    ensures
        wire_bytes(a + b) == wire_bytes(a) + wire_bytes(b),
    decreases a.len(),
{
    if a.len() == 0 {
        assert(a + b =~= b);
        assert(wire_bytes(a) + wire_bytes(b) =~= wire_bytes(b));
    } else {
        lemma_wire_bytes_concat(a.drop_first(), b);
        assert((a + b).first() == a.first());
        assert((a + b).drop_first() =~= a.drop_first() + b);
        assert(wire_bytes(a + b) =~= wire_bytes(a) + wire_bytes(b));
    }
}

/// The bytes of a single record.
pub proof fn lemma_wire_bytes_one(r: Record)
    ensures
        wire_bytes(seq![r]) == encoded_record(r.record_type, r.request_id, r.content),
{
    let one = seq![r];
    assert(one.first() == r);
    assert(one.drop_first() =~= Seq::<Record>::empty());
    assert(wire_bytes(one.drop_first()) =~= Seq::<u8>::empty());
    assert(wire_bytes(one) =~= encoded_record(r.record_type, r.request_id, r.content));
}

/// The chunks of a stream that is not empty: the first chunk, and then the
/// chunks of what is left.
proof fn lemma_chunks_bytes_unfold(record_type: RequestType, request_id: u16, data: Seq<u8>)
    requires
        data.len() > 0,
    ensures
        chunks_bytes(record_type, request_id, data) == encoded_record(
            record_type,
            request_id,
            data.take(chunk_len(data.len())),
        ) + chunks_bytes(record_type, request_id, data.skip(chunk_len(data.len()))),
{
    let n = chunk_len(data.len());
    let first = Record { record_type, request_id, content: data.take(n) };
    let rest = records_of(record_type, request_id, chunk_contents(data.skip(n)));
    let all = records_of(record_type, request_id, chunk_contents(data));
    assert(all =~= seq![first] + rest);
    lemma_wire_bytes_concat(seq![first], rest);
    lemma_wire_bytes_one(first);
}

/// A stream is its chunks and then the empty record that ends it.
pub proof fn lemma_stream_bytes_split(record_type: RequestType, request_id: u16, data: Seq<u8>)
    ensures
        stream_bytes(record_type, request_id, data) == chunks_bytes(record_type, request_id, data)
            + encoded_record(record_type, request_id, Seq::<u8>::empty()),
{
    let last = Record { record_type, request_id, content: Seq::<u8>::empty() };
    let chunks = records_of(record_type, request_id, chunk_contents(data));
    assert(stream_records(record_type, request_id, data) =~= chunks + seq![last]);
    lemma_wire_bytes_concat(chunks, seq![last]);
    lemma_wire_bytes_one(last);
}

impl Header {
    /// Writes the record with this header: the header, then `content`, then
    /// the padding as zero bytes. A content whose length is not the one that
    /// the header gives is rejected, and nothing is written.
    pub fn write_to_stream(self, writer: &mut BytesMut, content: &[u8]) -> (r: Result<
        (),
        IoFailure,
    >)
        ensures
            content@.len() == self.content_length ==> {
                &&& r is Ok
                &&& buf_view(*final(writer)) == buf_view(*old(writer)) + record_bytes(
                    self,
                    content@,
                )
            },
            content@.len() != self.content_length ==> {
                &&& r matches Err(e)
                &&& e == IoFailure::InvalidInput
                &&& buf_view(*final(writer)) == buf_view(*old(writer))
            },
    {
        if content.len() != self.content_length as usize {
            return Err(IoFailure::InvalidInput);
        }
        let head = self.to_bytes();
        writer.extend_from_slice(bytes_as_slice(&head));
        writer.extend_from_slice(content);
        let ghost before = buf_view(*writer);
        let mut written: u8 = 0;
        while written < self.padding_length
            invariant
                written <= self.padding_length,
                buf_view(*writer) == before + zeros(written as int),
            decreases self.padding_length - written,
        {
            put_u8(writer, 0);
            written = written + 1;
            assert(buf_view(*writer) =~= before + zeros(written as int));
        }
        assert(buf_view(*writer) =~= buf_view(*old(writer)) + record_bytes(self, content@));
        Ok(())
    }
}

impl BeginRequestRec {
    /// Writes the begin request record: its header, then its content. A
    /// record whose content does not have the length that its header gives
    /// is rejected, and nothing is written.
    pub fn write_to_stream(self, writer: &mut BytesMut) -> (r: Result<(), IoFailure>)
        ensures
            buf_view(self.content).len() == self.header.content_length ==> {
                &&& r is Ok
                &&& buf_view(*final(writer)) == buf_view(*old(writer)) + record_bytes(
                    self.header,
                    buf_view(self.content),
                )
            },
            buf_view(self.content).len() != self.header.content_length ==> {
                &&& r matches Err(e)
                &&& e == IoFailure::InvalidInput
                &&& buf_view(*final(writer)) == buf_view(*old(writer))
            },
    {
        self.header.write_to_stream(writer, buf_as_slice(&self.content))
    }
}

/// Encodes one record: the header for `content`, then `content`, then the
/// padding. The framer never cuts a content in pieces: one of more than
/// `MAX_LENGTH` bytes is rejected, and nothing is written.
pub fn encode_record(
    record_type: RequestType,
    request_id: u16,
    content: &[u8],
    writer: &mut BytesMut,
) -> (r: Result<(), IoFailure>)
    ensures
        content@.len() <= MAX_LENGTH ==> {
            &&& r is Ok
            &&& buf_view(*final(writer)) == buf_view(*old(writer)) + encoded_record(
                record_type,
                request_id,
                content@,
            )
        },
        content@.len() > MAX_LENGTH ==> {
            &&& r matches Err(e)
            &&& e == IoFailure::InvalidInput
            &&& buf_view(*final(writer)) == buf_view(*old(writer))
        },
{
    if content.len() > MAX_LENGTH {
        return Err(IoFailure::InvalidInput);
    }
    Header::new(record_type, request_id, content).write_to_stream(writer, content)
}

/// Encodes `source` as records of kind `record_type`, one record for each
/// chunk of up to `MAX_LENGTH` bytes, in order, and none that ends the
/// stream. An empty `source` gives no record.
#[verifier::rlimit(50)]
pub fn encode_chunks(
    record_type: RequestType,
    request_id: u16,
    source: &[u8],
    writer: &mut BytesMut,
)
    ensures
        buf_view(*final(writer)) == buf_view(*old(writer)) + chunks_bytes(
            record_type,
            request_id,
            source@,
        ),
{
    let mut pos: usize = 0;
    assert(source@.skip(0) =~= source@);
    while pos < source.len()
        invariant
            pos <= source@.len(),
            buf_view(*writer) + chunks_bytes(record_type, request_id, source@.skip(pos as int))
                == buf_view(*old(writer)) + chunks_bytes(record_type, request_id, source@),
        decreases source@.len() - pos,
    {
        let left: usize = source.len() - pos;
        let n: usize = if left <= MAX_LENGTH {
            left
        } else {
            MAX_LENGTH
        };
        let chunk = slice_subrange(source, pos, pos + n);
        proof {
            let data = source@.skip(pos as int);
            lemma_chunks_bytes_unfold(record_type, request_id, data);
            assert(data.take(n as int) =~= chunk@);
            assert(data.skip(n as int) =~= source@.skip(pos + n));
        }
        let ghost before = buf_view(*writer);
        let written = encode_record(record_type, request_id, chunk, writer);
        assert(written is Ok);
        proof {
            let rest = chunks_bytes(record_type, request_id, source@.skip(pos + n));
            let rec = encoded_record(record_type, request_id, chunk@);
            assert((before + rec) + rest =~= before + (rec + rest));
        }
        pos = pos + n;
    }
    assert(chunks_bytes(record_type, request_id, source@.skip(pos as int)) =~= Seq::<u8>::empty());
    assert(buf_view(*writer) =~= buf_view(*old(writer)) + chunks_bytes(
        record_type,
        request_id,
        source@,
    ));
}

/// Encodes a record without content: a header with content length 0 and
/// padding length 0, and nothing else. Such a record ends a stream.
pub fn encode_empty_record(record_type: RequestType, request_id: u16, writer: &mut BytesMut)
    ensures
        buf_view(*final(writer)) == buf_view(*old(writer)) + encoded_record(
            record_type,
            request_id,
            Seq::<u8>::empty(),
        ),
{
    let empty: [u8; 0] = [];
    assert(empty@ =~= Seq::<u8>::empty());
    let ended = encode_record(record_type, request_id, empty.as_slice(), writer);
    assert(ended is Ok);
}

/// Encodes `source` as a stream of records of kind `record_type`: one record
/// for each chunk of up to `MAX_LENGTH` bytes, in order, and after the last
/// chunk exactly one record with an empty content. An empty `source` gives
/// that one record alone.
pub fn encode_stream(
    record_type: RequestType,
    request_id: u16,
    source: &[u8],
    writer: &mut BytesMut,
)
    ensures
        buf_view(*final(writer)) == buf_view(*old(writer)) + stream_bytes(
            record_type,
            request_id,
            source@,
        ),
{
    encode_chunks(record_type, request_id, source, writer);
    encode_empty_record(record_type, request_id, writer);
    proof {
        lemma_stream_bytes_split(record_type, request_id, source@);
        let chunks = chunks_bytes(record_type, request_id, source@);
        let end = encoded_record(record_type, request_id, Seq::<u8>::empty());
        assert((buf_view(*old(writer)) + chunks) + end =~= buf_view(*old(writer)) + (chunks + end));
    }
}

/// Reads a header off the front of `reader`: exactly eight bytes. Where
/// `reader` holds fewer, the stream ended in the middle of a header: the
/// result is `UnexpectedEof`, and `reader` is left as it was.
pub fn decode_header(reader: &mut BytesMut) -> (r: Result<Header, IoFailure>)
    ensures
        buf_view(*old(reader)).len() >= HEADER_LEN ==> {
            &&& r matches Ok(header)
            &&& header == header_from_bytes(buf_view(*old(reader)))
            &&& buf_view(*final(reader)) == buf_view(*old(reader)).skip(HEADER_LEN as int)
        },
        buf_view(*old(reader)).len() < HEADER_LEN ==> {
            &&& r matches Err(e)
            &&& e == IoFailure::UnexpectedEof
            &&& buf_view(*final(reader)) == buf_view(*old(reader))
        },
{
    if reader.len() < HEADER_LEN {
        return Err(IoFailure::UnexpectedEof);
    }
    let head = reader.split_to(HEADER_LEN);
    assert(buf_view(*reader) =~= buf_view(*old(reader)).skip(HEADER_LEN as int));
    Ok(Header::from(head))
}

/// Reads the content that follows `header` off the front of `reader`:
/// exactly `content_length` bytes, which are returned, and then exactly
/// `padding_length` bytes, which are dropped whatever they hold. Where
/// `reader` holds fewer bytes than both together, the result is
/// `UnexpectedEof`, and `reader` is left as it was.
pub fn decode_content(header: &Header, reader: &mut BytesMut) -> (r: Result<BytesMut, IoFailure>)
    ensures
        buf_view(*old(reader)).len() >= header.content_length + header.padding_length ==> {
            &&& r matches Ok(content)
            &&& buf_view(content) == buf_view(*old(reader)).take(header.content_length as int)
            &&& buf_view(*final(reader)) == buf_view(*old(reader)).skip(
                header.content_length + header.padding_length,
            )
        },
        buf_view(*old(reader)).len() < header.content_length + header.padding_length ==> {
            &&& r matches Err(e)
            &&& e == IoFailure::UnexpectedEof
            &&& buf_view(*final(reader)) == buf_view(*old(reader))
        },
{
    let need: usize = header.content_length as usize + header.padding_length as usize;
    if reader.len() < need {
        return Err(IoFailure::UnexpectedEof);
    }
    let content = reader.split_to(header.content_length as usize);
    let _padding = reader.split_to(header.padding_length as usize);
    assert(buf_view(content) =~= buf_view(*old(reader)).take(header.content_length as int));
    assert(buf_view(*reader) =~= buf_view(*old(reader)).skip(
        header.content_length + header.padding_length,
    ));
    Ok(content)
}

/// A record is read back from its own bytes, whatever follows them: the
/// header and the content come out unchanged, and what follows is left.
pub proof fn lemma_record_round_trip(h: Header, content: Seq<u8>, rest: Seq<u8>)
    requires
        content.len() == h.content_length,
    ensures
        record_bytes(h, content).len() == record_len(h),
        spec_decode_record(record_bytes(h, content) + rest) == Some((h, content)),
        (record_bytes(h, content) + rest).skip(record_len(h)) == rest,
{
    lemma_header_encode_decode(h);
    let b = record_bytes(h, content) + rest;
    assert(header_from_bytes(b) == header_from_bytes(header_bytes(h))) by {
        assert(forall|i: int| 0 <= i < 8 ==> b[i] == header_bytes(h)[i]);
    }
    assert(b.subrange(HEADER_LEN as int, HEADER_LEN + h.content_length) =~= content);
    assert(b.skip(record_len(h)) =~= rest);
}

/// A record of at most `MAX_LENGTH` bytes of content takes the eight bytes of
/// its header, its content, and a padding of at most seven bytes, and its
/// length is a multiple of eight.
pub proof fn lemma_encoded_record_aligned(
    record_type: RequestType,
    request_id: u16,
    content: Seq<u8>,
)
    requires
        content.len() <= MAX_LENGTH,
    ensures
        0 <= padding_for(content.len() as int) <= 7,
        encoded_record(record_type, request_id, content).len() == HEADER_LEN + content.len()
            + padding_for(content.len() as int),
        encoded_record(record_type, request_id, content).len() % 8 == 0,
        Header::spec_new(record_type, request_id, content).content_length == content.len(),
        Header::spec_new(record_type, request_id, content).padding_length == padding_for(
            content.len() as int,
        ),
{
}

/// Every chunk of a stream holds at least one byte and at most `MAX_LENGTH`,
/// and the chunks one after the other are the stream.
pub proof fn lemma_chunk_contents(data: Seq<u8>)
    ensures
        forall|i: int|
            0 <= i < chunk_contents(data).len() ==> 1 <= (#[trigger] chunk_contents(data)[i]).len()
                <= MAX_LENGTH,
        chunk_contents(data).flatten() == data,
    decreases data.len(),
{
    if data.len() == 0 {
        assert(chunk_contents(data).flatten() =~= data);
    } else {
        let n = chunk_len(data.len());
        let rest = chunk_contents(data.skip(n));
        let all = chunk_contents(data);
        lemma_chunk_contents(data.skip(n));
        assert(all == seq![data.take(n)] + rest);
        assert forall|i: int| 0 <= i < all.len() implies 1 <= (#[trigger] all[i]).len()
            <= MAX_LENGTH by {
            if i > 0 {
                assert(all[i] == rest[i - 1]);
            }
        }
        assert(all.first() == data.take(n));
        assert(all.drop_first() =~= rest);
        assert(all.flatten() =~= data);
    }
}

/// In the records of a stream, every record but the last holds between 1 and
/// `MAX_LENGTH` bytes of content, the last one holds none, all are of the
/// stream's kind and request, and their contents one after the other are the
/// stream.
pub proof fn lemma_stream_records(record_type: RequestType, request_id: u16, data: Seq<u8>)
    ensures
        stream_records(record_type, request_id, data).len() == chunk_contents(data).len() + 1,
        forall|i: int|
            0 <= i < stream_records(record_type, request_id, data).len() ==> {
                &&& (#[trigger] stream_records(record_type, request_id, data)[i]).record_type
                    == record_type
                &&& stream_records(record_type, request_id, data)[i].request_id == request_id
            },
        forall|i: int|
            0 <= i < stream_records(record_type, request_id, data).len() - 1 ==> 1 <= (
            #[trigger] stream_records(record_type, request_id, data)[i]).content.len()
                <= MAX_LENGTH,
        stream_records(record_type, request_id, data).last().content.len() == 0,
        stream_contents(data).flatten() == data,
{
    lemma_chunk_contents(data);
    let chunks = chunk_contents(data);
    let records = stream_records(record_type, request_id, data);
    assert forall|i: int| 0 <= i < records.len() - 1 implies 1 <= (#[trigger] records[i]).content.len()
        <= MAX_LENGTH by {
        assert(records[i].content == chunks[i]);
    }
    lemma_flatten_concat(chunks, seq![Seq::<u8>::empty()]);
    assert(stream_contents(data) =~= chunks + seq![Seq::<u8>::empty()]);
    seq![Seq::<u8>::empty()].lemma_flatten_one_element();
    assert(stream_contents(data).flatten() =~= data);
}

/// An empty stream is the one record that ends it. A stream of up to
/// `MAX_LENGTH` bytes is one record with all of it, and the record that ends
/// it. A stream of one byte more is a record of `MAX_LENGTH` bytes, a record
/// of one byte, and the record that ends it.
pub proof fn lemma_stream_boundaries(data: Seq<u8>)
    ensures
        data.len() == 0 ==> stream_contents(data) == seq![Seq::<u8>::empty()],
        0 < data.len() <= MAX_LENGTH ==> stream_contents(data) == seq![data, Seq::<u8>::empty()],
        data.len() == MAX_LENGTH + 1 ==> stream_contents(data) == seq![
            data.take(MAX_LENGTH as int),
            data.skip(MAX_LENGTH as int),
            Seq::<u8>::empty(),
        ] && data.skip(MAX_LENGTH as int).len() == 1,
{
    if data.len() == 0 {
        assert(stream_contents(data) =~= seq![Seq::<u8>::empty()]);
    } else if data.len() <= MAX_LENGTH {
        assert(data.take(data.len() as int) =~= data);
        assert(chunk_contents(data.skip(data.len() as int)) =~= Seq::<Seq<u8>>::empty());
        assert(stream_contents(data) =~= seq![data, Seq::<u8>::empty()]);
    } else if data.len() == MAX_LENGTH + 1 {
        let tail = data.skip(MAX_LENGTH as int);
        assert(tail.take(1) =~= tail);
        assert(chunk_contents(tail.skip(1)) =~= Seq::<Seq<u8>>::empty());
        assert(chunk_contents(tail) =~= seq![tail]);
        assert(stream_contents(data) =~= seq![
            data.take(MAX_LENGTH as int),
            tail,
            Seq::<u8>::empty(),
        ]);
    }
}

/// Records whose contents hold at most `MAX_LENGTH` bytes are read back from
/// their own bytes: the same kinds, requests and contents, in the same
/// order.
pub proof fn lemma_wire_round_trip(records: Seq<Record>)
    requires
        forall|i: int| 0 <= i < records.len() ==> (#[trigger] records[i]).content.len() <= MAX_LENGTH,
    ensures
        spec_decode_records(wire_bytes(records)) == Some(records),
    decreases records.len(),
{
    if records.len() > 0 {
        let first = records.first();
        let rest = records.drop_first();
        assert(records[0].content.len() <= MAX_LENGTH);
        assert forall|i: int| 0 <= i < rest.len() implies (#[trigger] rest[i]).content.len()
            <= MAX_LENGTH by {
            assert(rest[i] == records[i + 1]);
        }
        lemma_wire_round_trip(rest);
        let h = Header::spec_new(first.record_type, first.request_id, first.content);
        lemma_record_round_trip(h, first.content, wire_bytes(rest));
        assert(seq![first] + rest =~= records);
    }
}

} // verus!
