//! FastCGI protocol metadata: record kinds, the record header, and the
//! bodies of the discrete records, with their encodings.

use crate::buffer::{
    buf_as_slice, buf_view, bytes_view, copy_to_slice, get_u16, get_u32, get_u8, put_slice,
    put_u16, put_u32, put_u8,
};
use crate::endian::{lemma_u16_be_round_trip, lemma_u32_be_round_trip, u16_be, u32_be, u32_from_be};
use crate::error::{ClientError, ClientResult};
use crate::params::{collect_pairs, distinct_names, lemma_collect_pairs, pairs_to_map, Params};
use bytes::{Bytes, BytesMut};
use vstd::prelude::*;
use vstd::slice::{slice_subrange, slice_to_vec};

verus! {

/// FastCGI protocol version 1.
pub const VERSION_1: u8 = 1;

/// Maximum length of the content of one record.
pub const MAX_LENGTH: usize = 0xffff;

/// Length of an encoded header in bytes.
pub const HEADER_LEN: usize = 8;

/// FastCGI record kinds.
#[derive(Debug, Clone, Copy, PartialEq, Eq, Structural)]
pub enum RequestType {
    /// Begin request record type
    BeginRequest,
    /// Abort request record type
    AbortRequest,
    /// End request record type
    EndRequest,
    /// Parameters record type
    Params,
    /// Stdin record type
    Stdin,
    /// Stdout record type
    Stdout,
    /// Stderr record type
    Stderr,
    /// Data record type
    Data,
    /// Get values record type
    GetValues,
    /// Get values result record type
    GetValuesResult,
    /// Unknown type record type
    UnknownType,
}

impl RequestType {
    /// The record kind that a code on the wire stands for. Codes that name
    /// no kind stand for `UnknownType`.
    pub open spec fn spec_from_u8(u: u8) -> Self {
        if u == 1 {
            RequestType::BeginRequest
        } else if u == 2 {
            RequestType::AbortRequest
        } else if u == 3 {
            RequestType::EndRequest
        } else if u == 4 {
            RequestType::Params
        } else if u == 5 {
            RequestType::Stdin
        } else if u == 6 {
            RequestType::Stdout
        } else if u == 7 {
            RequestType::Stderr
        } else if u == 8 {
            RequestType::Data
        } else if u == 9 {
            RequestType::GetValues
        } else if u == 10 {
            RequestType::GetValuesResult
        } else {
            RequestType::UnknownType
        }
    }

    /// The code of a record kind on the wire.
    pub open spec fn spec_code(self) -> u8 {
        match self {
            RequestType::BeginRequest => 1,
            RequestType::AbortRequest => 2,
            RequestType::EndRequest => 3,
            RequestType::Params => 4,
            RequestType::Stdin => 5,
            RequestType::Stdout => 6,
            RequestType::Stderr => 7,
            RequestType::Data => 8,
            RequestType::GetValues => 9,
            RequestType::GetValuesResult => 10,
            RequestType::UnknownType => 11,
        }
    }

    /// The code of a record kind in decimal digits.
    pub open spec fn spec_to_string(self) -> Seq<char> {
        match self {
            RequestType::BeginRequest => "1"@,
            RequestType::AbortRequest => "2"@,
            RequestType::EndRequest => "3"@,
            RequestType::Params => "4"@,
            RequestType::Stdin => "5"@,
            RequestType::Stdout => "6"@,
            RequestType::Stderr => "7"@,
            RequestType::Data => "8"@,
            RequestType::GetValues => "9"@,
            RequestType::GetValuesResult => "10"@,
            RequestType::UnknownType => "11"@,
        }
    }

    /// Converts a code read from the wire to a record kind.
    pub fn from_u8(u: u8) -> (r: Self)
        ensures
            r == Self::spec_from_u8(u),
    {
        match u {
            1 => RequestType::BeginRequest,
            2 => RequestType::AbortRequest,
            3 => RequestType::EndRequest,
            4 => RequestType::Params,
            5 => RequestType::Stdin,
            6 => RequestType::Stdout,
            7 => RequestType::Stderr,
            8 => RequestType::Data,
            9 => RequestType::GetValues,
            10 => RequestType::GetValuesResult,
            _ => RequestType::UnknownType,
        }
    }

    /// The code of this record kind on the wire.
    pub fn code(self) -> (c: u8)
        ensures
            c == self.spec_code(),
            1 <= c <= 11,
    {
        match self {
            RequestType::BeginRequest => 1,
            RequestType::AbortRequest => 2,
            RequestType::EndRequest => 3,
            RequestType::Params => 4,
            RequestType::Stdin => 5,
            RequestType::Stdout => 6,
            RequestType::Stderr => 7,
            RequestType::Data => 8,
            RequestType::GetValues => 9,
            RequestType::GetValuesResult => 10,
            RequestType::UnknownType => 11,
        }
    }

    /// The code of this record kind in decimal digits, as it is shown to a
    /// reader.
    pub fn to_string(&self) -> (s: String)
        ensures
            s@ == self.spec_to_string(),
    {
        match self {
            RequestType::BeginRequest => "1".to_owned(),
            RequestType::AbortRequest => "2".to_owned(),
            RequestType::EndRequest => "3".to_owned(),
            RequestType::Params => "4".to_owned(),
            RequestType::Stdin => "5".to_owned(),
            RequestType::Stdout => "6".to_owned(),
            RequestType::Stderr => "7".to_owned(),
            RequestType::Data => "8".to_owned(),
            RequestType::GetValues => "9".to_owned(),
            RequestType::GetValuesResult => "10".to_owned(),
            RequestType::UnknownType => "11".to_owned(),
        }
    }
}

/// Every record kind is read back from its own code.
pub proof fn lemma_request_type_code_round_trip(t: RequestType)
    ensures
        RequestType::spec_from_u8(t.spec_code()) == t,
        1 <= t.spec_code() <= 11,
{
}

/// A code between 1 and 11 is the code of the kind it is read as; every
/// other code is read as `UnknownType`.
pub proof fn lemma_request_type_from_u8_code(u: u8)
    ensures
        1 <= u <= 11 ==> RequestType::spec_from_u8(u).spec_code() == u,
        !(1 <= u <= 11) ==> RequestType::spec_from_u8(u) == RequestType::UnknownType,
{
}

/// The number of zero bytes that follow a content of `content_length` bytes,
/// so that header, content and padding together are a multiple of 8 bytes:
/// the negated length modulo 8.
pub open spec fn padding_for(content_length: int) -> int {
    (-content_length) % 8
}

/// The header of a record.
#[derive(Debug, Clone, Copy, PartialEq, Eq, Structural)]
pub struct Header {
    /// FastCGI protocol version
    pub version: u8,
    /// Kind of the record
    pub record_type: RequestType,
    /// Request ID for this record
    pub request_id: u16,
    /// Length of the content data
    pub content_length: u16,
    /// Length of padding data
    pub padding_length: u8,
    /// Reserved byte
    pub reserved: u8,
}

/// The eight bytes of a header on the wire.
pub open spec fn header_bytes(h: Header) -> Seq<u8> {
    seq![h.version, h.record_type.spec_code()] + u16_be(h.request_id) + u16_be(h.content_length)
        + seq![h.padding_length, h.reserved]
}

/// The header that the first eight bytes of `b` spell.
pub open spec fn header_from_bytes(b: Seq<u8>) -> Header
    recommends
        b.len() >= 8,
{
    Header {
        version: b[0],
        record_type: RequestType::spec_from_u8(b[1]),
        request_id: (b[2] * 256 + b[3]) as u16,
        content_length: (b[4] * 256 + b[5]) as u16,
        padding_length: b[6],
        reserved: b[7],
    }
}

impl Header {
    /// The header that this client writes in front of a `content` of at
    /// most `MAX_LENGTH` bytes: version 1, the content's length, and the
    /// padding that aligns the record to 8 bytes.
    pub open spec fn spec_new(record_type: RequestType, request_id: u16, content: Seq<u8>) -> Self
        recommends
            content.len() <= MAX_LENGTH,
    {
        Header {
            version: VERSION_1,
            record_type,
            request_id,
            content_length: content.len() as u16,
            padding_length: padding_for(content.len() as int) as u8,
            reserved: 0,
        }
    }

    /// A header as this client writes it: version 1, aligning padding, and a
    /// zero reserved byte.
    pub open spec fn wf(self) -> bool {
        &&& self.version == VERSION_1
        &&& self.padding_length == padding_for(self.content_length as int)
        &&& self.reserved == 0
    }

    /// Creates the header for a record with the given content. A record
    /// holds at most `MAX_LENGTH` bytes of content; `framer::encode_record`
    /// tests the length and rejects a longer content.
    pub fn new(record_type: RequestType, request_id: u16, content: &[u8]) -> (h: Self)
        requires
            content@.len() <= MAX_LENGTH,
        ensures
            h == Self::spec_new(record_type, request_id, content@),
            h.content_length == content@.len(),
            h.wf(),
            h.padding_length <= 7,
            (HEADER_LEN + h.content_length + h.padding_length) % 8 == 0,
    {
        let content_length: u16 = content.len() as u16;
        let padding_length: u8 = ((8 - content_length % 8) % 8) as u8;
        Header {
            version: VERSION_1,
            record_type,
            request_id,
            content_length,
            padding_length,
            reserved: 0,
        }
    }

    /// Encodes the header as its eight bytes.
    pub fn to_bytes(&self) -> (bytes: Bytes)
        ensures
            bytes_view(bytes) == header_bytes(*self),
            bytes_view(bytes).len() == HEADER_LEN,
    {
        let mut buf = BytesMut::with_capacity(HEADER_LEN);
        put_u8(&mut buf, self.version);
        put_u8(&mut buf, self.record_type.code());
        put_u16(&mut buf, self.request_id);
        put_u16(&mut buf, self.content_length);
        put_u8(&mut buf, self.padding_length);
        put_u8(&mut buf, self.reserved);
        assert(buf_view(buf) =~= header_bytes(*self));
        buf.freeze()
    }

    /// Decodes a header from the front of a buffer of at least eight bytes.
    pub fn from(buf: BytesMut) -> (h: Self)
        requires
            buf_view(buf).len() >= HEADER_LEN,
        ensures
            h == header_from_bytes(buf_view(buf)),
    {
        let mut buf = buf;
        let version = get_u8(&mut buf);
        let record_type = RequestType::from_u8(get_u8(&mut buf));
        let request_id = get_u16(&mut buf);
        let content_length = get_u16(&mut buf);
        let padding_length = get_u8(&mut buf);
        let reserved = get_u8(&mut buf);
        Header { version, record_type, request_id, content_length, padding_length, reserved }
    }
}

/// A header is read back unchanged from its own eight bytes.
pub proof fn lemma_header_encode_decode(h: Header)
    ensures
        header_bytes(h).len() == 8,
        header_from_bytes(header_bytes(h)) == h,
{
    lemma_request_type_code_round_trip(h.record_type);
    lemma_u16_be_round_trip(h.request_id);
    lemma_u16_be_round_trip(h.content_length);
}

/// Eight bytes whose second byte is the code of a record kind are written
/// back unchanged after decoding. A code that names no kind is read as
/// `UnknownType` and written back as 11.
pub proof fn lemma_header_decode_encode(b: Seq<u8>)
    requires
        b.len() == 8,
        1 <= b[1] <= 11,
    ensures
        header_bytes(header_from_bytes(b)) == b,
{
    lemma_request_type_from_u8_code(b[1]);
    assert(header_bytes(header_from_bytes(b)) =~= b);
}

/// For every content of at most `MAX_LENGTH` bytes, the header that
/// `Header::new` makes is well formed and gives the content's length, its
/// padding is at most 7, and header, content and padding together are a
/// multiple of 8 bytes.
pub proof fn lemma_header_new_aligned(record_type: RequestType, request_id: u16, content: Seq<u8>)
    requires
        content.len() <= MAX_LENGTH,
    ensures
        Header::spec_new(record_type, request_id, content).wf(),
        Header::spec_new(record_type, request_id, content).content_length == content.len(),
        0 <= Header::spec_new(record_type, request_id, content).padding_length <= 7,
        (HEADER_LEN + content.len() + Header::spec_new(
            record_type,
            request_id,
            content,
        ).padding_length) % 8 == 0,
{
}

/// FastCGI application roles.
#[derive(Debug, Clone, Copy, PartialEq, Eq, Structural)]
pub enum Role {
    /// Responder role - handles requests and returns responses
    Responder,
    /// Authorizer role - performs authorization checks
    Authorizer,
    /// Filter role - filters data between web server and application
    Filter,
}

impl Role {
    /// The code of a role on the wire.
    pub open spec fn spec_code(self) -> u16 {
        match self {
            Role::Responder => 1,
            Role::Authorizer => 2,
            Role::Filter => 3,
        }
    }

    /// The code of this role on the wire.
    pub fn code(self) -> (c: u16)
        ensures
            c == self.spec_code(),
    {
        match self {
            Role::Responder => 1,
            Role::Authorizer => 2,
            Role::Filter => 3,
        }
    }
}

/// The body of a begin request record.
#[derive(Debug, Clone, Copy)]
pub struct BeginRequest {
    /// The role of the application
    pub role: Role,
    /// Flags byte (bit 0 = keep alive flag)
    pub flags: u8,
    /// Reserved bytes
    pub reserved: [u8; 5],
}

/// The eight bytes of a begin request body: the role in two bytes, the
/// flags, and five reserved bytes.
pub open spec fn begin_request_bytes(b: BeginRequest) -> Seq<u8> {
    u16_be(b.role.spec_code()) + seq![b.flags] + b.reserved@
}

/// The begin request body that a client sends for `role`: bit 0 of the flags
/// is set if and only if the connection is kept alive, and the reserved
/// bytes are zero.
pub open spec fn begin_request_content(role: Role, keep_alive: bool) -> Seq<u8> {
    u16_be(role.spec_code()) + seq![if keep_alive { 1u8 } else { 0u8 }] + seq![0u8, 0u8, 0u8, 0u8, 0u8]
}

impl BeginRequest {
    /// Creates the body of a begin request record.
    pub fn new(role: Role, keep_alive: bool) -> (b: Self)
        ensures
            b.role == role,
            b.flags == (if keep_alive { 1u8 } else { 0u8 }),
            b.reserved@ == seq![0u8, 0u8, 0u8, 0u8, 0u8],
            begin_request_bytes(b) == begin_request_content(role, keep_alive),
    {
        let flags: u8 = if keep_alive { 1 } else { 0 };
        let reserved: [u8; 5] = [0, 0, 0, 0, 0];
        assert(reserved@ =~= seq![0u8, 0u8, 0u8, 0u8, 0u8]);
        BeginRequest { role, flags, reserved }
    }

    /// Encodes the body as its eight bytes.
    pub fn to_content(&self) -> (buf: BytesMut)
        ensures
            buf_view(buf) == begin_request_bytes(*self),
            buf_view(buf).len() == 8,
    {
        let mut buf = BytesMut::with_capacity(8);
        put_u16(&mut buf, self.role.code());
        put_u8(&mut buf, self.flags);
        put_slice(&mut buf, self.reserved.as_slice());
        assert(buf_view(buf) =~= begin_request_bytes(*self));
        buf
    }
}

/// A complete begin request record: header, body and encoded body.
#[derive(Debug)]
pub struct BeginRequestRec {
    /// The FastCGI header
    pub header: Header,
    /// The begin request data
    pub begin_request: BeginRequest,
    /// The serialized content
    pub content: BytesMut,
}

impl BeginRequestRec {
    /// Creates the begin request record of request `request_id`.
    pub fn new(request_id: u16, role: Role, keep_alive: bool) -> (rec: Self)
        ensures
            buf_view(rec.content) == begin_request_content(role, keep_alive),
            rec.header == Header::spec_new(
                RequestType::BeginRequest,
                request_id,
                begin_request_content(role, keep_alive),
            ),
            rec.header.content_length == 8,
            rec.header.padding_length == 0,
            begin_request_bytes(rec.begin_request) == begin_request_content(role, keep_alive),
    {
        let begin_request = BeginRequest::new(role, keep_alive);
        let content = begin_request.to_content();
        let header = Header::new(RequestType::BeginRequest, request_id, buf_as_slice(&content));
        BeginRequestRec { header, begin_request, content }
    }
}

/// FastCGI protocol status codes.
#[derive(Debug, Clone, Copy, PartialEq, Eq, Structural)]
pub enum ProtocolStatus {
    /// Request completed successfully
    RequestComplete,
    /// This app can't multiplex connections
    CantMpxConn,
    /// New request rejected; too busy
    Overloaded,
    /// Role value not known
    UnknownRole,
}

impl ProtocolStatus {
    /// The protocol status that a code on the wire stands for. Codes above 2
    /// stand for `UnknownRole`.
    pub open spec fn spec_from_u8(u: u8) -> Self {
        if u == 0 {
            ProtocolStatus::RequestComplete
        } else if u == 1 {
            ProtocolStatus::CantMpxConn
        } else if u == 2 {
            ProtocolStatus::Overloaded
        } else {
            ProtocolStatus::UnknownRole
        }
    }

    /// The result that a response ends in: success for `RequestComplete`,
    /// and else the error that carries the status and the application status.
    pub open spec fn spec_client_result(self, app_status: u32) -> ClientResult<()> {
        if self == ProtocolStatus::RequestComplete {
            Ok(())
        } else {
            Err(ClientError::EndRequestWithProtocolStatus(self, app_status))
        }
    }

    /// Converts a code read from the wire to a protocol status.
    pub fn from_u8(u: u8) -> (s: Self)
        ensures
            s == Self::spec_from_u8(u),
    {
        match u {
            0 => ProtocolStatus::RequestComplete,
            1 => ProtocolStatus::CantMpxConn,
            2 => ProtocolStatus::Overloaded,
            _ => ProtocolStatus::UnknownRole,
        }
    }

    /// Converts the protocol status to the result of the exchange.
    pub fn convert_to_client_result(self, app_status: u32) -> (r: ClientResult<()>)
        ensures
            r == self.spec_client_result(app_status),
    {
        match self {
            ProtocolStatus::RequestComplete => Ok(()),
            _ => Err(ClientError::new_end_request_with_protocol_status(self, app_status)),
        }
    }
}

/// The body of an end request record.
#[derive(Debug, Clone, Copy)]
pub struct EndRequest {
    /// The application status code
    pub app_status: u32,
    /// The protocol status
    pub protocol_status: ProtocolStatus,
    /// Reserved bytes
    pub reserved: [u8; 3],
}

impl EndRequest {
    /// Decodes an end request body from the front of a buffer of at least
    /// eight bytes: the application status in four bytes, the protocol
    /// status, and three reserved bytes.
    pub fn from(buf: BytesMut) -> (e: Self)
        requires
            buf_view(buf).len() >= 8,
        ensures
            e.app_status == u32_from_be(buf_view(buf)),
            e.protocol_status == ProtocolStatus::spec_from_u8(buf_view(buf)[4]),
            e.reserved@ == buf_view(buf).subrange(5, 8),
    {
        let mut buf = buf;
        let ghost all = buf_view(buf);
        let app_status = get_u32(&mut buf);
        let protocol_status = ProtocolStatus::from_u8(get_u8(&mut buf));
        let mut reserved: [u8; 3] = [0, 0, 0];
        copy_to_slice(&mut buf, &mut reserved);
        assert(reserved@ =~= all.subrange(5, 8));
        EndRequest { app_status, protocol_status, reserved }
    }
}

/// A complete end request record: header and body.
#[derive(Debug, Clone, Copy)]
pub struct EndRequestRec {
    /// The FastCGI header
    pub header: Header,
    /// The end request data
    pub end_request: EndRequest,
}

impl EndRequestRec {
    /// Creates an end request record from its header and the content that
    /// followed it.
    pub fn new_from_buf(header: Header, buf: BytesMut) -> (rec: Self)
        requires
            buf_view(buf).len() >= 8,
        ensures
            rec.header == header,
            rec.end_request.app_status == u32_from_be(buf_view(buf)),
            rec.end_request.protocol_status == ProtocolStatus::spec_from_u8(buf_view(buf)[4]),
            rec.end_request.reserved@ == buf_view(buf).subrange(5, 8),
    {
        EndRequestRec { header, end_request: EndRequest::from(buf) }
    }
}

/// The flag that marks the four byte form of a length. A length is below
/// this number: the four byte form spells it in 31 bits.
pub const LONG_FORM: u32 = 0x8000_0000;

/// The length of a name or of a value, in the form in which it is written.
#[derive(Debug, Clone, Copy, PartialEq, Eq, Structural)]
pub enum ParamLength {
    /// Short form: one byte, for lengths up to 127.
    Short(u8),
    /// Long form: four bytes with the highest bit set, for lengths from 128.
    Long(u32),
}

impl ParamLength {
    /// The form in which a length below 2^31 is written: the short form
    /// below 128, and else the long form, which is the length with the
    /// highest bit set.
    pub open spec fn spec_new(length: nat) -> Self
        recommends
            length < LONG_FORM,
    {
        if length < 128 {
            ParamLength::Short(length as u8)
        } else {
            ParamLength::Long((LONG_FORM + length) as u32)
        }
    }

    /// The bytes of a length on the wire: one byte in the short form, four
    /// bytes in big-endian order in the long form.
    pub open spec fn spec_content(self) -> Seq<u8> {
        match self {
            ParamLength::Short(l) => seq![l],
            ParamLength::Long(l) => u32_be(l),
        }
    }

    /// The length that this form spells: in the long form the highest bit
    /// does not count.
    pub open spec fn spec_value(self) -> nat {
        match self {
            ParamLength::Short(l) => l as nat,
            ParamLength::Long(l) => (l % LONG_FORM) as nat,
        }
    }

    /// Creates the form in which `length` is written. A length is below
    /// 2^31; `try_new` tests that.
    pub fn new(length: usize) -> (r: Self)
        requires
            length < LONG_FORM,
        ensures
            r == Self::spec_new(length as nat),
            r.spec_value() == length,
    {
        if length < 128 {
            ParamLength::Short(length as u8)
        } else {
            ParamLength::Long(length as u32 + LONG_FORM)
        }
    }

    /// Creates the form in which `length` is written, or `None` where
    /// `length` is 2^31 or more, which no form can spell.
    pub fn try_new(length: usize) -> (r: Option<Self>)
        ensures
            length < LONG_FORM ==> r == Some(Self::spec_new(length as nat)),
            length >= LONG_FORM ==> r.is_none(),
    {
        if length < LONG_FORM as usize {
            Some(ParamLength::new(length))
        } else {
            None
        }
    }

    /// Encodes the length as its bytes on the wire.
    pub fn content(self) -> (buf: BytesMut)
        ensures
            buf_view(buf) == self.spec_content(),
    {
        match self {
            ParamLength::Short(l) => {
                let mut buf = BytesMut::with_capacity(1);
                put_u8(&mut buf, l);
                assert(buf_view(buf) =~= seq![l]);
                buf
            },
            ParamLength::Long(l) => {
                let mut buf = BytesMut::with_capacity(4);
                put_u32(&mut buf, l);
                assert(buf_view(buf) =~= u32_be(l));
                buf
            },
        }
    }
}

/// The bytes of the length `n` on the wire.
pub open spec fn length_bytes(n: nat) -> Seq<u8> {
    ParamLength::spec_new(n).spec_content()
}

/// The bytes of one name-value pair on the wire: the length of the name, the
/// length of the value, the name, the value.
pub open spec fn pair_bytes(pair: (Seq<u8>, Seq<u8>)) -> Seq<u8> {
    length_bytes(pair.0.len()) + length_bytes(pair.1.len()) + pair.0 + pair.1
}

/// The bytes of a sequence of name-value pairs on the wire: the pairs one
/// after the other.
pub open spec fn pairs_bytes(pairs: Seq<(Seq<u8>, Seq<u8>)>) -> Seq<u8>
    decreases pairs.len(),
{
    if pairs.len() == 0 {
        Seq::<u8>::empty()
    } else {
        pair_bytes(pairs.first()) + pairs_bytes(pairs.drop_first())
    }
}

/// The length at the front of `b` and the number of bytes that spell it, or
/// `None` where `b` ends before the length does. A first byte below 128 is
/// the length itself; else four bytes spell it, the highest bit not counting.
pub open spec fn spec_decode_length(b: Seq<u8>) -> Option<(nat, int)> {
    if b.len() == 0 {
        None
    } else if b[0] < 128 {
        Some((b[0] as nat, 1))
    } else if b.len() < 4 {
        None
    } else {
        Some(((u32_from_be(b) % LONG_FORM) as nat, 4))
    }
}

/// The pair at the front of `b` and the number of bytes that it takes, or
/// `None` where `b` ends before the pair does.
pub open spec fn spec_decode_pair(b: Seq<u8>) -> Option<((Seq<u8>, Seq<u8>), int)> {
    match spec_decode_length(b) {
        None => None,
        Some((name_len, n1)) => match spec_decode_length(b.skip(n1)) {
            None => None,
            Some((value_len, n2)) => {
                let start = n1 + n2;
                if b.len() < start + name_len + value_len {
                    None
                } else {
                    Some(
                        (
                            (
                                b.subrange(start, start + name_len),
                                b.subrange(start + name_len, start + name_len + value_len),
                            ),
                            start + name_len + value_len,
                        ),
                    )
                }
            },
        },
    }
}

/// The pairs that `b` spells, or `None` where `b` ends in the middle of a
/// pair.
pub open spec fn spec_decode_pairs(b: Seq<u8>) -> Option<Seq<(Seq<u8>, Seq<u8>)>>
    decreases b.len(),
{
    if b.len() == 0 {
        Some(Seq::empty())
    } else {
        match spec_decode_pair(b) {
            None => None,
            Some((pair, n)) => if 0 < n <= b.len() {
                match spec_decode_pairs(b.skip(n)) {
                    None => None,
                    Some(rest) => Some(seq![pair] + rest),
                }
            } else {
                None
            },
        }
    }
}

/// Whether the name and the value of every pair are shorter than 2^31 bytes,
/// so that the long form can spell their lengths.
pub open spec fn lengths_fit(pairs: Seq<(Seq<u8>, Seq<u8>)>) -> bool {
    forall|i: int|
        0 <= i < pairs.len() ==> (#[trigger] pairs[i]).0.len() < LONG_FORM && pairs[i].1.len()
            < LONG_FORM
}

/// A single name-value pair with the forms of its two lengths.
#[derive(Debug)]
pub struct ParamPair {
    name_length: ParamLength,
    value_length: ParamLength,
    name_data: Vec<u8>,
    value_data: Vec<u8>,
}

impl View for ParamPair {
    type V = (Seq<u8>, Seq<u8>);

    /// The name and the value.
    closed spec fn view(&self) -> Self::V {
        (self.name_data@, self.value_data@)
    }
}

impl ParamPair {
    #[verifier::type_invariant]
    spec fn lengths_match(&self) -> bool {
        &&& self.name_data@.len() < LONG_FORM
        &&& self.value_data@.len() < LONG_FORM
        &&& self.name_length == ParamLength::spec_new(self.name_data@.len())
        &&& self.value_length == ParamLength::spec_new(self.value_data@.len())
    }

    /// Creates a pair, with the forms of the lengths of `name` and `value`.
    /// Both are shorter than 2^31 bytes; `try_new` tests that.
    pub fn new(name: Vec<u8>, value: Vec<u8>) -> (pair: Self)
        requires
            name@.len() < LONG_FORM,
            value@.len() < LONG_FORM,
        ensures
            pair@ == (name@, value@),
    {
        let name_length = ParamLength::new(name.len());
        let value_length = ParamLength::new(value.len());
        ParamPair { name_length, value_length, name_data: name, value_data: value }
    }

    /// Creates a pair, or `None` where `name` or `value` holds 2^31 bytes or
    /// more, a length that cannot be written.
    pub fn try_new(name: Vec<u8>, value: Vec<u8>) -> (r: Option<Self>)
        ensures
            name@.len() < LONG_FORM && value@.len() < LONG_FORM ==> {
                &&& r matches Some(pair)
                &&& pair@ == (name@, value@)
            },
            name@.len() >= LONG_FORM || value@.len() >= LONG_FORM ==> r.is_none(),
    {
        if name.len() < LONG_FORM as usize && value.len() < LONG_FORM as usize {
            Some(ParamPair::new(name, value))
        } else {
            None
        }
    }

    /// The name, which is shorter than 2^31 bytes.
    pub fn name(&self) -> (name: &[u8])
        ensures
            name@ == self@.0,
            name@.len() < LONG_FORM,
    {
        proof {
            use_type_invariant(self);
        }
        self.name_data.as_slice()
    }

    /// The value, which is shorter than 2^31 bytes.
    pub fn value(&self) -> (value: &[u8])
        ensures
            value@ == self@.1,
            value@.len() < LONG_FORM,
    {
        proof {
            use_type_invariant(self);
        }
        self.value_data.as_slice()
    }

    /// The form of the name's length.
    pub fn name_length(&self) -> (l: ParamLength)
        ensures
            l == ParamLength::spec_new(self@.0.len()),
    {
        proof {
            use_type_invariant(self);
        }
        self.name_length
    }

    /// The form of the value's length.
    pub fn value_length(&self) -> (l: ParamLength)
        ensures
            l == ParamLength::spec_new(self@.1.len()),
    {
        proof {
            use_type_invariant(self);
        }
        self.value_length
    }

    /// Appends the pair to `buf`: the length of the name, the length of the
    /// value, the name, the value.
    pub fn write_to_buf(&self, buf: &mut BytesMut)
        ensures
            buf_view(*final(buf)) == buf_view(*old(buf)) + pair_bytes(self@),
            self@.0.len() < LONG_FORM,
            self@.1.len() < LONG_FORM,
    {
        proof {
            use_type_invariant(self);
        }
        let name_len = self.name_length.content();
        buf.extend_from_slice(buf_as_slice(&name_len));
        let value_len = self.value_length.content();
        buf.extend_from_slice(buf_as_slice(&value_len));
        buf.extend_from_slice(self.name_data.as_slice());
        buf.extend_from_slice(self.value_data.as_slice());
        assert(buf_view(*buf) =~= buf_view(*old(buf)) + pair_bytes(self@));
    }
}

/// Reads one length at position `pos` of `content`. The result is the length
/// and the position behind it, or `None` where `content` ends before the
/// length does.
pub fn decode_length(content: &[u8], pos: usize) -> (r: Option<(usize, usize)>)
    requires
        pos <= content@.len(),
    ensures
        match r {
            Some((length, next)) => spec_decode_length(content@.skip(pos as int)) == Some(
                (length as nat, next - pos),
            ) && pos < next <= content@.len() && length < LONG_FORM,
            None => spec_decode_length(content@.skip(pos as int)).is_none(),
        },
{
    let left: usize = content.len() - pos;
    if left == 0 {
        return None;
    }
    let first: u8 = content[pos];
    if first < 128 {
        return Some((first as usize, pos + 1));
    }
    if left < 4 {
        return None;
    }
    let spelled: u32 = (first as u32) * 0x100_0000 + (content[pos + 1] as u32) * 0x1_0000 + (
    content[pos + 2] as u32) * 0x100 + (content[pos + 3] as u32);
    Some(((spelled % LONG_FORM) as usize, pos + 4))
}

/// Reads one pair at position `pos` of `content`. The result is the pair and
/// the position behind it, or `None` where `content` ends before the pair
/// does.
#[verifier::rlimit(50)]
pub fn decode_pair(content: &[u8], pos: usize) -> (r: Option<(ParamPair, usize)>)
    requires
        pos <= content@.len(),
    ensures
        match r {
            Some((pair, next)) => spec_decode_pair(content@.skip(pos as int)) == Some(
                (pair@, next - pos),
            ) && pos < next <= content@.len() && pair@.0.len() < LONG_FORM && pair@.1.len()
                < LONG_FORM,
            None => spec_decode_pair(content@.skip(pos as int)).is_none(),
        },
{
    let ghost here = content@.skip(pos as int);
    let (name_len, after_name) = match decode_length(content, pos) {
        Some(found) => found,
        None => {
            return None;
        },
    };
    assert(here.skip(after_name - pos) =~= content@.skip(after_name as int));
    let (value_len, start) = match decode_length(content, after_name) {
        Some(found) => found,
        None => {
            return None;
        },
    };
    let left: usize = content.len() - start;
    if left < name_len || left - name_len < value_len {
        return None;
    }
    let name = slice_to_vec(slice_subrange(content, start, start + name_len));
    let value = slice_to_vec(
        slice_subrange(content, start + name_len, start + name_len + value_len),
    );
    assert(name@ =~= here.subrange(start - pos, start - pos + name_len));
    assert(value@ =~= here.subrange(start - pos + name_len, start - pos + name_len + value_len));
    Some((ParamPair::new(name, value), start + name_len + value_len))
}

/// The pairs `done` in front of the pairs `rest`, where there are any.
pub open spec fn prepend_decoded(
    done: Seq<(Seq<u8>, Seq<u8>)>,
    rest: Option<Seq<(Seq<u8>, Seq<u8>)>>,
) -> Option<Seq<(Seq<u8>, Seq<u8>)>> {
    match rest {
        Some(rest) => Some(done + rest),
        None => None,
    }
}

/// Where a pair stands at the front of `b` and takes `n` bytes, `b` spells
/// that pair and then what the bytes behind it spell.
proof fn lemma_decode_pairs_step(b: Seq<u8>, n: int)
    requires
        spec_decode_pair(b).is_some(),
        spec_decode_pair(b).unwrap().1 == n,
    ensures
        0 < n <= b.len(),
        spec_decode_pairs(b) == prepend_decoded(
            seq![spec_decode_pair(b).unwrap().0],
            spec_decode_pairs(b.skip(n)),
        ),
{
}

/// Putting `done` and then `pair` in front is putting `done` with `pair` at
/// its end in front.
proof fn lemma_prepend_decoded(
    done: Seq<(Seq<u8>, Seq<u8>)>,
    pair: (Seq<u8>, Seq<u8>),
    rest: Option<Seq<(Seq<u8>, Seq<u8>)>>,
)
    ensures
        prepend_decoded(done, prepend_decoded(seq![pair], rest)) == prepend_decoded(
            done.push(pair),
            rest,
        ),
{
    if rest.is_some() {
        assert(done + (seq![pair] + rest.unwrap()) =~= done.push(pair) + rest.unwrap());
    }
}

/// A sequence of name-value pairs, in the order in which they are written.
#[derive(Debug)]
pub struct ParamPairs(Vec<ParamPair>);

impl View for ParamPairs {
    type V = Seq<(Seq<u8>, Seq<u8>)>;

    /// The pairs of name and value, in order.
    closed spec fn view(&self) -> Self::V {
        self.0@.map_values(|p: ParamPair| p@)
    }
}

impl ParamPairs {
    #[verifier::type_invariant]
    spec fn lengths_written(&self) -> bool {
        lengths_fit(self@)
    }

    /// Creates the pairs of `params`, in the order of `params`.
    pub fn new(params: Params) -> (pairs: Self)
        ensures
            pairs@ == params@,
            distinct_names(pairs@),
            lengths_fit(pairs@),
    {
        let entries = params.into_entries();
        let mut pairs: Vec<ParamPair> = Vec::new();
        let mut i: usize = 0;
        while i < entries.len()
            invariant
                i <= entries@.len(),
                entries@.map_values(|e: (Vec<u8>, Vec<u8>)| (e.0@, e.1@)) == params@,
                lengths_fit(params@),
                pairs@.map_values(|p: ParamPair| p@) == params@.take(i as int),
            decreases entries@.len() - i,
        {
            let name = slice_to_vec(entries[i].0.as_slice());
            let value = slice_to_vec(entries[i].1.as_slice());
            let ghost done = pairs@.map_values(|p: ParamPair| p@);
            let ghost pair = (name@, value@);
            assert(params@[i as int] == pair) by {
                assert(params@[i as int] == entries@.map_values(
                    |e: (Vec<u8>, Vec<u8>)| (e.0@, e.1@),
                )[i as int]);
            }
            pairs.push(ParamPair::new(name, value));
            assert(pairs@.map_values(|p: ParamPair| p@) =~= done.push(pair));
            assert(done.push(pair) =~= params@.take(i + 1));
            i = i + 1;
        }
        assert(params@.take(i as int) =~= params@);
        ParamPairs(pairs)
    }

    /// The number of pairs. Every name and every value is shorter than 2^31
    /// bytes.
    pub fn len(&self) -> (n: usize)
        ensures
            n == self@.len(),
            lengths_fit(self@),
    {
        proof {
            use_type_invariant(self);
        }
        self.0.len()
    }

    /// The pair at position `i`.
    pub fn get(&self, i: usize) -> (pair: &ParamPair)
        requires
            i < self@.len(),
        ensures
            pair@ == self@[i as int],
    {
        &self.0[i]
    }

    /// Encodes the pairs, one after the other, as the content of a
    /// parameter stream. Decoding the content gives the pairs back.
    pub fn to_content(&self) -> (content: Bytes)
        ensures
            bytes_view(content) == pairs_bytes(self@),
            spec_decode_pairs(bytes_view(content)) == Some(self@),
    {
        proof {
            use_type_invariant(self);
            lemma_pairs_round_trip(self@);
        }
        let mut buf = BytesMut::new();
        let mut i: usize = 0;
        assert(self@.take(0) =~= Seq::<(Seq<u8>, Seq<u8>)>::empty());
        while i < self.0.len()
            invariant
                i <= self@.len(),
                self@.len() == self.0@.len(),
                buf_view(buf) == pairs_bytes(self@.take(i as int)),
            decreases self@.len() - i,
        {
            self.0[i].write_to_buf(&mut buf);
            proof {
                lemma_pairs_bytes_push(self@.take(i as int), self@[i as int]);
                assert(self@.take(i as int).push(self@[i as int]) =~= self@.take(i + 1));
            }
            i = i + 1;
        }
        assert(self@.take(i as int) =~= self@);
        buf.freeze()
    }

    /// Decodes the content of a parameter stream. The result is the pairs in
    /// order, or `MalformedParams` where `content` ends in the middle of a
    /// pair.
    #[verifier::rlimit(50)]
    pub fn from_content(content: &[u8]) -> (r: ClientResult<ParamPairs>)
        ensures
            match spec_decode_pairs(content@) {
                Some(pairs) => r matches Ok(decoded) && decoded@ == pairs,
                None => r matches Err(e) && e == ClientError::MalformedParams,
            },
    {
        let mut pairs: Vec<ParamPair> = Vec::new();
        let mut pos: usize = 0;
        assert(content@.skip(0) =~= content@);
        while pos < content.len()
            invariant
                pos <= content@.len(),
                lengths_fit(pairs@.map_values(|p: ParamPair| p@)),
                spec_decode_pairs(content@) == prepend_decoded(
                    pairs@.map_values(|p: ParamPair| p@),
                    spec_decode_pairs(content@.skip(pos as int)),
                ),
            decreases content@.len() - pos,
        {
            let ghost done = pairs@.map_values(|p: ParamPair| p@);
            match decode_pair(content, pos) {
                None => {
                    return Err(ClientError::MalformedParams);
                },
                Some((pair, next)) => {
                    proof {
                        lemma_decode_pairs_step(content@.skip(pos as int), next - pos);
                        assert(content@.skip(pos as int).skip(next - pos) =~= content@.skip(
                            next as int,
                        ));
                        lemma_prepend_decoded(
                            done,
                            pair@,
                            spec_decode_pairs(content@.skip(next as int)),
                        );
                    }
                    let ghost decoded = pair@;
                    pairs.push(pair);
                    assert(pairs@.map_values(|p: ParamPair| p@) =~= done.push(decoded));
                    pos = next;
                },
            }
        }
        assert(pairs@.map_values(|p: ParamPair| p@) + Seq::<(Seq<u8>, Seq<u8>)>::empty()
            =~= pairs@.map_values(|p: ParamPair| p@));
        Ok(ParamPairs(pairs))
    }

    /// Collects the pairs as parameters, by setting them one after the
    /// other: a later pair replaces the value of an earlier one of the same
    /// name.
    pub fn into_params(self) -> (params: Params)
        ensures
            params@ == collect_pairs(self@),
            params.as_map() == pairs_to_map(self@),
            distinct_names(self@) ==> params@ == self@,
    {
        let mut params = Params::new();
        let mut i: usize = 0;
        assert(self@.take(0) =~= Seq::<(Seq<u8>, Seq<u8>)>::empty());
        while i < self.0.len()
            invariant
                i <= self@.len(),
                self@.len() == self.0@.len(),
                params@ == collect_pairs(self@.take(i as int)),
            decreases self@.len() - i,
        {
            let name = slice_to_vec(self.0[i].name());
            let value = slice_to_vec(self.0[i].value());
            proof {
                let grown = self@.take(i + 1);
                assert(grown.drop_last() =~= self@.take(i as int));
                assert(grown.last() == self@[i as int]);
            }
            params.insert(name, value);
            i = i + 1;
        }
        proof {
            assert(self@.take(i as int) =~= self@);
            lemma_collect_pairs(self@);
        }
        params
    }
}

/// The bytes of a sequence of pairs with one more pair at its end are the
/// bytes of the sequence and then those of the pair.
pub proof fn lemma_pairs_bytes_push(pairs: Seq<(Seq<u8>, Seq<u8>)>, pair: (Seq<u8>, Seq<u8>))
    ensures
        pairs_bytes(pairs.push(pair)) == pairs_bytes(pairs) + pair_bytes(pair),
    decreases pairs.len(),
{
    let grown = pairs.push(pair);
    if pairs.len() == 0 {
        assert(grown.first() == pair);
        assert(grown.drop_first() =~= Seq::<(Seq<u8>, Seq<u8>)>::empty());
        assert(pairs_bytes(grown.drop_first()) =~= Seq::<u8>::empty());
        assert(pairs_bytes(grown) =~= pairs_bytes(pairs) + pair_bytes(pair));
    } else {
        lemma_pairs_bytes_push(pairs.drop_first(), pair);
        assert(grown.first() == pairs.first());
        assert(grown.drop_first() =~= pairs.drop_first().push(pair));
        assert(pairs_bytes(grown) =~= pairs_bytes(pairs) + pair_bytes(pair));
    }
}

/// A length below 2^31 is read back from its own bytes, whatever follows
/// them.
#[verifier::rlimit(50)]
pub proof fn lemma_length_round_trip(n: nat, rest: Seq<u8>)
    requires
        n < LONG_FORM,
    ensures
        spec_decode_length(length_bytes(n) + rest) == Some((n, length_bytes(n).len() as int)),
        length_bytes(n).len() == (if n < 128 { 1nat } else { 4nat }),
{
    let b = length_bytes(n) + rest;
    if n < 128 {
        assert(length_bytes(n) == seq![n as u8]);
        assert(b[0] == n as u8);
    } else {
        let v: u32 = (LONG_FORM + n) as u32;
        assert(length_bytes(n) == u32_be(v));
        lemma_u32_be_round_trip(v);
        let head = u32_be(v);
        assert(b[0] == head[0] && b[1] == head[1] && b[2] == head[2] && b[3] == head[3]);
        assert(u32_from_be(b) == u32_from_be(head));
        assert(v % LONG_FORM == n);
    }
}

/// Where the two lengths in front of a name and a value are read back as
/// the lengths of the name and of the value, the pair is read back as well.
#[verifier::rlimit(50)]
proof fn lemma_pair_framing(
    n1: Seq<u8>,
    n2: Seq<u8>,
    name: Seq<u8>,
    value: Seq<u8>,
    rest: Seq<u8>,
)
    requires
        spec_decode_length(n1 + (n2 + name + value + rest)) == Some(
            (name.len(), n1.len() as int),
        ),
        spec_decode_length(n2 + (name + value + rest)) == Some((value.len(), n2.len() as int)),
    ensures
        spec_decode_pair(n1 + n2 + name + value + rest) == Some(
            ((name, value), (n1.len() + n2.len() + name.len() + value.len()) as int),
        ),
{
    let b = n1 + n2 + name + value + rest;
    assert(b =~= n1 + (n2 + name + value + rest));
    assert(b.skip(n1.len() as int) =~= n2 + (name + value + rest));
    let start = (n1.len() + n2.len()) as int;
    assert(b.subrange(start, start + name.len()) =~= name);
    assert(b.subrange(start + name.len(), start + name.len() + value.len()) =~= value);
}

/// A pair whose name and value are shorter than 2^31 bytes is read back from
/// its own bytes, whatever follows them.
#[verifier::rlimit(50)]
pub proof fn lemma_pair_round_trip(pair: (Seq<u8>, Seq<u8>), rest: Seq<u8>)
    requires
        pair.0.len() < LONG_FORM,
        pair.1.len() < LONG_FORM,
    ensures
        spec_decode_pair(pair_bytes(pair) + rest) == Some((pair, pair_bytes(pair).len() as int)),
        pair_bytes(pair).len() >= 2,
{
    let n1 = length_bytes(pair.0.len());
    let n2 = length_bytes(pair.1.len());
    lemma_length_round_trip(pair.0.len(), n2 + pair.0 + pair.1 + rest);
    lemma_length_round_trip(pair.1.len(), pair.0 + pair.1 + rest);
    lemma_pair_framing(n1, n2, pair.0, pair.1, rest);
    assert(pair_bytes(pair) + rest == n1 + n2 + pair.0 + pair.1 + rest);
    assert(pair_bytes(pair).len() == n1.len() + n2.len() + pair.0.len() + pair.1.len());
}

/// Where the pair `first` is read back from the front of `head + tail` and
/// takes the bytes of `head`, and `tail` spells the pairs `rest`, the whole
/// spells `first` and then `rest`.
proof fn lemma_pairs_framing(
    head: Seq<u8>,
    tail: Seq<u8>,
    first: (Seq<u8>, Seq<u8>),
    rest: Seq<(Seq<u8>, Seq<u8>)>,
)
    requires
        head.len() >= 2,
        spec_decode_pair(head + tail) == Some((first, head.len() as int)),
        spec_decode_pairs(tail) == Some(rest),
    ensures
        spec_decode_pairs(head + tail) == Some(seq![first] + rest),
{
    let b = head + tail;
    assert(b.skip(head.len() as int) =~= tail);
}

/// Decoding the bytes of a sequence of pairs gives the pairs back, in order,
/// provided every name and every value is shorter than 2^31 bytes.
#[verifier::rlimit(50)]
pub proof fn lemma_pairs_round_trip(pairs: Seq<(Seq<u8>, Seq<u8>)>)
    requires
        lengths_fit(pairs),
    ensures
        spec_decode_pairs(pairs_bytes(pairs)) == Some(pairs),
    decreases pairs.len(),
{
    if pairs.len() == 0 {
        assert(pairs =~= Seq::<(Seq<u8>, Seq<u8>)>::empty());
    } else {
        let first = pairs.first();
        let rest = pairs.drop_first();
        assert(lengths_fit(rest)) by {
            assert forall|i: int| 0 <= i < rest.len() implies (#[trigger] rest[i]).0.len()
                < LONG_FORM && rest[i].1.len() < LONG_FORM by {
                assert(rest[i] == pairs[i + 1]);
            }
        }
        assert(first.0.len() < LONG_FORM && first.1.len() < LONG_FORM) by {
            assert(pairs[0] == first);
        }
        lemma_pairs_round_trip(rest);
        lemma_pair_round_trip(first, pairs_bytes(rest));
        lemma_pairs_framing(pair_bytes(first), pairs_bytes(rest), first, rest);
        assert(seq![first] + rest =~= pairs);
    }
}

/// Parameters come back unchanged from their encoding: decoding the bytes
/// that `ParamPairs::to_content` writes for them gives the same names with
/// the same values.
pub proof fn lemma_params_round_trip(params: Params)
    requires
        params.valid(),
    ensures
        spec_decode_pairs(pairs_bytes(params@)) == Some(params@),
        pairs_to_map(spec_decode_pairs(pairs_bytes(params@)).unwrap()) == params.as_map(),
{
    lemma_pairs_round_trip(params@);
}

} // verus!
