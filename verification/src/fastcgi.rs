//! FastCGI wire-protocol codec: record headers, typed payloads, and the
//! byte-exact decode and encode of both.
//!
//! Everything is stated against a byte-level model: `header_bytes` and
//! `header_of` relate a `Header` to its eight wire bytes, `parse_pairs` and
//! `enc_pairs` relate a name/value list to its length-prefixed encoding, and
//! `spec_decode` gives the meaning of a byte window as a whole record.  The
//! executable functions carry contracts that tie them to these models, and
//! the round-trip lemmas at the end show that decoding inverts encoding for
//! every record variant the server emits.

use vstd::prelude::*;
use vstd::arithmetic::div_mod::{
    lemma_breakdown, lemma_fundamental_div_mod, lemma_mod_division_less_than_divisor,
    lemma_multiply_divide_lt,
};

verus! {

pub const FASTCGI_VERSION: u8 = 1;

pub const FASTCGI_HEADER_LEN: usize = 8;

pub const FASTCGI_BEGIN_REQUEST_LEN: usize = 8;

/// Largest whole record: header, maximal content, maximal padding.
pub const FASTCGI_MAX_REQUEST_LEN: usize = 65798;

pub const FASTCGI_MAX_CONTENT_LEN: u16 = 65535;

pub const FASTCGI_BEGIN_REQUEST: u8 = 1;

pub const FASTCGI_ABORT_REQUEST: u8 = 2;

pub const FASTCGI_END_REQUEST: u8 = 3;

pub const FASTCGI_PARAMS: u8 = 4;

pub const FASTCGI_STDIN: u8 = 5;

pub const FASTCGI_STDOUT: u8 = 6;

pub const FASTCGI_STDERR: u8 = 7;

pub const FASTCGI_DATA: u8 = 8;

pub const FASTCGI_GET_VALUES: u8 = 9;

pub const FASTCGI_GET_VALUES_RESULT: u8 = 10;

pub const FASTCGI_UNKNOWN_TYPE: u8 = 11;

pub const FASTCGI_RESPONDER: u16 = 1;

pub const FASTCGI_AUTHORIZER: u16 = 2;

pub const FASTCGI_FILTER: u16 = 3;

pub const FASTCGI_REQUEST_COMPLETE: u8 = 0;

/// A record type, as decoded from the type byte of a header.  A byte that
/// names none of the eleven defined types is kept in `Error`.
#[derive(Clone, Copy, Debug, PartialEq, Eq, Structural)]
pub enum HeaderType {
    BeginRequest,
    AbortRequest,
    EndRequest,
    Params,
    Stdin,
    Stdout,
    Stderr,
    Data,
    GetValues,
    GetValuesResult,
    UnknownType,
    Error(u8),
}

/// The fixed eight-byte record header.
#[derive(Clone, Copy, Debug, PartialEq, Eq, Structural)]
pub struct Header {
    pub version: u8,
    pub header_type: HeaderType,
    pub request_id: u16,
    pub content_length: u16,
    pub padding_length: u8,
    pub reserved: u8,
}

/// The role named by a begin-request payload; a role code that names none of
/// the three defined roles is kept as `Error`.
#[derive(Clone, Copy, Debug, PartialEq, Eq, Structural)]
pub enum Role {
    Responder,
    Authorized,
    Filter,
    Error,
}

/// Payload of a begin-request record.
#[derive(Clone, Copy, Debug, PartialEq, Eq, Structural)]
pub struct BeginRequest {
    pub role: Role,
    pub flags: u8,
}

/// Payload of an unknown-type record: the type byte that was not understood.
#[derive(Clone, Copy, Debug, PartialEq, Eq, Structural)]
pub struct Unknown {
    pub unknown_type: u8,
}

/// Payload of an end-request record.
#[derive(Clone, Copy, Debug, PartialEq, Eq, Structural)]
pub struct End {
    pub code: u32,
    pub protocol: u8,
}

/// Typed content of a record.
pub enum ContentData {
    /// A record with zero content length: end of a params or stdin stream,
    /// or an abort without payload.
    Empty,
    BeginRequest(BeginRequest),
    /// Name/value pairs of a params or get-values-result payload, in wire
    /// order.
    Param(Vec<(Vec<u8>, Vec<u8>)>),
    /// Raw bytes of a stdin, data, abort or get-values payload.
    Stream(Vec<u8>),
    Unknown(Unknown),
    /// Raw bytes to emit as one stdout chunk.
    Raw(Vec<u8>),
    End(End),
}

/// One whole record.
pub struct Record {
    pub header: Header,
    pub data: ContentData,
}

/// Marker for the codec's associated functions; the server holds no codec
/// state.
pub struct FastCGI {}

/// Mathematical image of a `ContentData`.
pub enum DataModel {
    Empty,
    BeginRequest(BeginRequest),
    Param(Seq<(Seq<u8>, Seq<u8>)>),
    Stream(Seq<u8>),
    Unknown(Unknown),
    Raw(Seq<u8>),
    End(End),
}

/// Mathematical image of a `Record`.
pub struct RecordModel {
    pub header: Header,
    pub data: DataModel,
}

impl View for ContentData {
    type V = DataModel;

    open spec fn view(&self) -> DataModel {
        match self {
            ContentData::Empty => DataModel::Empty,
            ContentData::BeginRequest(b) => DataModel::BeginRequest(*b),
            ContentData::Param(ps) => DataModel::Param(ps.deep_view()),
            ContentData::Stream(bs) => DataModel::Stream(bs@),
            ContentData::Unknown(u) => DataModel::Unknown(*u),
            ContentData::Raw(bs) => DataModel::Raw(bs@),
            ContentData::End(e) => DataModel::End(*e),
        }
    }
}

impl View for Record {
    type V = RecordModel;

    open spec fn view(&self) -> RecordModel {
        RecordModel { header: self.header, data: self.data@ }
    }
}

/// Outcome of decoding one record from a byte window.
pub enum ReadStatus {
    /// The window does not yet hold the whole record.
    NeedMoreBytes,
    /// One record, and how many bytes of the window it covered.
    Decoded(Record, usize),
    /// A protocol violation; the count is how many bytes the offending
    /// record declared, for a caller that wants to realign.
    Reject(usize),
}

/// Mathematical image of a `ReadStatus`.
pub enum StatusModel {
    NeedMoreBytes,
    Decoded(RecordModel, int),
    Reject(int),
}

impl View for ReadStatus {
    type V = StatusModel;

    open spec fn view(&self) -> StatusModel {
        match self {
            ReadStatus::NeedMoreBytes => StatusModel::NeedMoreBytes,
            ReadStatus::Decoded(r, n) => StatusModel::Decoded(r@, *n as int),
            ReadStatus::Reject(n) => StatusModel::Reject(*n as int),
        }
    }
}

// ------------------------------------------------------------------
// Big-endian scalars
// ------------------------------------------------------------------
/// The value of two big-endian bytes.
pub open spec fn u16_of_be(hi: u8, lo: u8) -> u16 {
    (hi * 256 + lo) as u16
}

/// The two big-endian bytes of a `u16`.
pub open spec fn be2(x: u16) -> Seq<u8> {
    seq![(x / 256) as u8, (x % 256) as u8]
}

/// The value of four big-endian bytes.
pub open spec fn u32_of_be(b0: u8, b1: u8, b2: u8, b3: u8) -> u32 {
    (b0 * 0x1000000 + b1 * 0x10000 + b2 * 0x100 + b3) as u32
}

/// The four big-endian bytes of a `u32`.
pub open spec fn be4(x: u32) -> Seq<u8> {
    seq![
        (x / 0x1000000) as u8,
        ((x / 0x10000) % 256) as u8,
        ((x / 256) % 256) as u8,
        (x % 256) as u8,
    ]
}

/// A `u16` survives the round trip through its big-endian bytes.
pub proof fn lemma_be2_round_trip(x: u16)
    ensures
        be2(x).len() == 2,
        u16_of_be(be2(x)[0], be2(x)[1]) == x,
{
    lemma_fundamental_div_mod(x as int, 256);
}

/// A `u32` survives the round trip through its big-endian bytes.
pub proof fn lemma_be4_round_trip(x: u32)
    ensures
        be4(x).len() == 4,
        u32_of_be(be4(x)[0], be4(x)[1], be4(x)[2], be4(x)[3]) == x,
{
    lemma_fundamental_div_mod(x as int, 0x1000000);
    lemma_breakdown(x as int, 0x10000, 0x100);
    lemma_breakdown(x as int, 0x100, 0x100);
    lemma_mod_division_less_than_divisor(x as int, 0x1000000);
    lemma_multiply_divide_lt(x as int, 0x1000000, 0x100);
    lemma_mod_division_less_than_divisor((x as int) / 0x10000, 0x100);
    lemma_mod_division_less_than_divisor((x as int) / 0x100, 0x100);
    lemma_mod_division_less_than_divisor(x as int, 0x100);
}

// ------------------------------------------------------------------
// Type and role codes
// ------------------------------------------------------------------
/// The record type named by a type byte.
pub open spec fn spec_header_type(code: u8) -> HeaderType {
    if code == FASTCGI_BEGIN_REQUEST {
        HeaderType::BeginRequest
    } else if code == FASTCGI_ABORT_REQUEST {
        HeaderType::AbortRequest
    } else if code == FASTCGI_END_REQUEST {
        HeaderType::EndRequest
    } else if code == FASTCGI_PARAMS {
        HeaderType::Params
    } else if code == FASTCGI_STDIN {
        HeaderType::Stdin
    } else if code == FASTCGI_STDOUT {
        HeaderType::Stdout
    } else if code == FASTCGI_STDERR {
        HeaderType::Stderr
    } else if code == FASTCGI_DATA {
        HeaderType::Data
    } else if code == FASTCGI_GET_VALUES {
        HeaderType::GetValues
    } else if code == FASTCGI_GET_VALUES_RESULT {
        HeaderType::GetValuesResult
    } else if code == FASTCGI_UNKNOWN_TYPE {
        HeaderType::UnknownType
    } else {
        HeaderType::Error(code)
    }
}

/// The type byte that names a record type; an `Error` type has no code of
/// its own and is written as zero.
pub open spec fn spec_type_code(t: HeaderType) -> u8 {
    match t {
        HeaderType::BeginRequest => FASTCGI_BEGIN_REQUEST,
        HeaderType::AbortRequest => FASTCGI_ABORT_REQUEST,
        HeaderType::EndRequest => FASTCGI_END_REQUEST,
        HeaderType::Params => FASTCGI_PARAMS,
        HeaderType::Stdin => FASTCGI_STDIN,
        HeaderType::Stdout => FASTCGI_STDOUT,
        HeaderType::Stderr => FASTCGI_STDERR,
        HeaderType::Data => FASTCGI_DATA,
        HeaderType::GetValues => FASTCGI_GET_VALUES,
        HeaderType::GetValuesResult => FASTCGI_GET_VALUES_RESULT,
        HeaderType::UnknownType => FASTCGI_UNKNOWN_TYPE,
        HeaderType::Error(_) => 0,
    }
}

/// The role named by a role code.
pub open spec fn spec_role(code: u16) -> Role {
    if code == FASTCGI_RESPONDER {
        Role::Responder
    } else if code == FASTCGI_AUTHORIZER {
        Role::Authorized
    } else if code == FASTCGI_FILTER {
        Role::Filter
    } else {
        Role::Error
    }
}

/// Every named record type survives the round trip through its type byte.
pub proof fn lemma_type_code_round_trip(t: HeaderType)
    requires
        !(t is Error),
    ensures
        spec_header_type(spec_type_code(t)) == t,
{
}

// ------------------------------------------------------------------
// Header bytes
// ------------------------------------------------------------------
/// The eight wire bytes of a header.
pub open spec fn header_bytes(h: Header) -> Seq<u8> {
    seq![h.version, spec_type_code(h.header_type)] + be2(h.request_id) + be2(h.content_length)
        + seq![h.padding_length, h.reserved]
}

/// The header described by the first eight bytes of a window.
pub open spec fn header_of(s: Seq<u8>) -> Header
    recommends
        s.len() >= 8,
{
    Header {
        version: s[0],
        header_type: spec_header_type(s[1]),
        request_id: u16_of_be(s[2], s[3]),
        content_length: u16_of_be(s[4], s[5]),
        padding_length: s[6],
        reserved: s[7],
    }
}

/// A header with a named type survives the round trip through its eight
/// wire bytes.
pub proof fn lemma_header_round_trip(h: Header)
    requires
        !(h.header_type is Error),
    ensures
        header_bytes(h).len() == 8,
        header_of(header_bytes(h)) == h,
{
    lemma_type_code_round_trip(h.header_type);
    lemma_be2_round_trip(h.request_id);
    lemma_be2_round_trip(h.content_length);
}

impl FastCGI {
    /// Maps a type byte to its record type.
    pub fn get_header_type(header_type: u8) -> (t: HeaderType)
        ensures
            t == spec_header_type(header_type),
    {
        match header_type {
            FASTCGI_BEGIN_REQUEST => HeaderType::BeginRequest,
            FASTCGI_ABORT_REQUEST => HeaderType::AbortRequest,
            FASTCGI_END_REQUEST => HeaderType::EndRequest,
            FASTCGI_PARAMS => HeaderType::Params,
            FASTCGI_STDIN => HeaderType::Stdin,
            FASTCGI_STDOUT => HeaderType::Stdout,
            FASTCGI_STDERR => HeaderType::Stderr,
            FASTCGI_DATA => HeaderType::Data,
            FASTCGI_GET_VALUES => HeaderType::GetValues,
            FASTCGI_GET_VALUES_RESULT => HeaderType::GetValuesResult,
            FASTCGI_UNKNOWN_TYPE => HeaderType::UnknownType,
            _ => HeaderType::Error(header_type),
        }
    }

    /// Maps a record type to its type byte.
    pub fn set_header_type(header_type: HeaderType) -> (c: u8)
        ensures
            c == spec_type_code(header_type),
    {
        match header_type {
            HeaderType::BeginRequest => FASTCGI_BEGIN_REQUEST,
            HeaderType::AbortRequest => FASTCGI_ABORT_REQUEST,
            HeaderType::EndRequest => FASTCGI_END_REQUEST,
            HeaderType::Params => FASTCGI_PARAMS,
            HeaderType::Stdin => FASTCGI_STDIN,
            HeaderType::Stdout => FASTCGI_STDOUT,
            HeaderType::Stderr => FASTCGI_STDERR,
            HeaderType::Data => FASTCGI_DATA,
            HeaderType::GetValues => FASTCGI_GET_VALUES,
            HeaderType::GetValuesResult => FASTCGI_GET_VALUES_RESULT,
            HeaderType::UnknownType => FASTCGI_UNKNOWN_TYPE,
            HeaderType::Error(_) => 0,
        }
    }

    /// Maps a role code to its role.
    pub fn get_role(role: u16) -> (r: Role)
        ensures
            r == spec_role(role),
    {
        match role {
            FASTCGI_RESPONDER => Role::Responder,
            FASTCGI_AUTHORIZER => Role::Authorized,
            FASTCGI_FILTER => Role::Filter,
            _ => Role::Error,
        }
    }

    /// Decodes the eight header bytes; a version other than the fixed
    /// protocol version is refused.
    pub fn read_header(data: &[u8]) -> (h: Option<Header>)
        requires
            data@.len() == 8,
        ensures
            h == if header_of(data@).version == FASTCGI_VERSION {
                Some(header_of(data@))
            } else {
                None::<Header>
            },
    {
        let version = data[0];
        if version != FASTCGI_VERSION {
            return None;
        }
        let header = Header {
            version,
            header_type: FastCGI::get_header_type(data[1]),
            request_id: (data[2] as u16) * 256 + (data[3] as u16),
            content_length: (data[4] as u16) * 256 + (data[5] as u16),
            padding_length: data[6],
            reserved: data[7],
        };
        Some(header)
    }

    /// Decodes the eight bytes of a begin-request payload; a role code that
    /// names no role is refused.
    pub fn read_begin_request(data: &[u8]) -> (b: Option<BeginRequest>)
        requires
            data@.len() == 8,
        ensures
            b == if spec_role(u16_of_be(data@[0], data@[1])) is Error {
                None::<BeginRequest>
            } else {
                Some(
                    BeginRequest {
                        role: spec_role(u16_of_be(data@[0], data@[1])),
                        flags: data@[2],
                    },
                )
            },
    {
        let role = FastCGI::get_role((data[0] as u16) * 256 + (data[1] as u16));
        match role {
            Role::Error => None,
            _ => Some(BeginRequest { role, flags: data[2] }),
        }
    }

    /// Copies a raw payload out of the buffer.
    pub fn read_stream(data: &[u8]) -> (c: ContentData)
        ensures
            c@ == DataModel::Stream(data@),
    {
        let mut v: Vec<u8> = Vec::new();
        v.extend_from_slice(data);
        assert(v@ =~= data@);
        ContentData::Stream(v)
    }
}


// ------------------------------------------------------------------
// Name/value pairs (params payloads)
// ------------------------------------------------------------------
/// Reads one length prefix: a byte below 128 is the length itself; a byte
/// with the top bit set opens a four-byte big-endian length whose top bit is
/// ignored.  Yields the length and how many bytes the prefix covered.
pub open spec fn parse_len(s: Seq<u8>) -> Option<(nat, nat)> {
    if s.len() >= 1 && s[0] < 128 {
        Some((s[0] as nat, 1 as nat))
    } else if s.len() >= 4 {
        Some(((((s[0] - 128) * 0x1000000 + s[1] * 0x10000 + s[2] * 0x100 + s[3]) as nat, 4 as nat)))
    } else {
        None
    }
}

/// Reads a whole params payload as the list of its name/value pairs, in wire
/// order.  A length that runs past the payload, a truncated length prefix,
/// or an empty name refuses the payload.
pub open spec fn parse_pairs(s: Seq<u8>) -> Option<Seq<(Seq<u8>, Seq<u8>)>>
    decreases s.len(),
{
    if s.len() == 0 {
        Some(Seq::empty())
    } else {
        match parse_len(s) {
            None => None,
            Some((klen, kn)) => {
                if klen == 0 {
                    None
                } else {
                    let s1 = s.skip(kn as int);
                    match parse_len(s1) {
                        None => None,
                        Some((vlen, vn)) => {
                            let s2 = s1.skip(vn as int);
                            if s2.len() < klen + vlen {
                                None
                            } else {
                                let rest = s2.skip((klen + vlen) as int);
                                match parse_pairs(rest) {
                                    None => None,
                                    Some(tail) => Some(
                                        seq![
                                            (
                                                s2.take(klen as int),
                                                s2.subrange(klen as int, (klen + vlen) as int),
                                            ),
                                        ] + tail,
                                    ),
                                }
                            }
                        },
                    }
                }
            },
        }
    }
}

/// The length prefix written for a length: one byte below 128, else four
/// big-endian bytes with the top bit set.
pub open spec fn enc_len(n: nat) -> Seq<u8>
    recommends
        n < 0x80000000,
{
    if n < 128 {
        seq![n as u8]
    } else {
        seq![
            (128 + n / 0x1000000) as u8,
            ((n / 0x10000) % 256) as u8,
            ((n / 256) % 256) as u8,
            (n % 256) as u8,
        ]
    }
}

/// The wire bytes of one name/value pair: both length prefixes, then the
/// name, then the value.
pub open spec fn enc_pair(p: (Seq<u8>, Seq<u8>)) -> Seq<u8> {
    enc_len(p.0.len()) + enc_len(p.1.len()) + p.0 + p.1
}

/// The wire bytes of a whole pair list.
pub open spec fn enc_pairs(ps: Seq<(Seq<u8>, Seq<u8>)>) -> Seq<u8>
    decreases ps.len(),
{
    if ps.len() == 0 {
        Seq::empty()
    } else {
        enc_pair(ps[0]) + enc_pairs(ps.skip(1))
    }
}

/// A pair the encoding can carry: a nonempty name, both lengths below the
/// four-byte prefix's reach.
pub open spec fn valid_pair(p: (Seq<u8>, Seq<u8>)) -> bool {
    1 <= p.0.len() < 0x80000000 && p.1.len() < 0x80000000
}

pub open spec fn valid_pairs(ps: Seq<(Seq<u8>, Seq<u8>)>) -> bool {
    forall|i: int| 0 <= i < ps.len() ==> valid_pair(#[trigger] ps[i])
}

/// The finalized mapping of a pair list: names accumulate left to right, a
/// later value overwriting an earlier one under the same name.
pub open spec fn pairs_map(ps: Seq<(Seq<u8>, Seq<u8>)>) -> Map<Seq<u8>, Seq<u8>>
    decreases ps.len(),
{
    if ps.len() == 0 {
        Map::empty()
    } else {
        pairs_map(ps.drop_last()).insert(ps.last().0, ps.last().1)
    }
}

/// A length prefix written by `enc_len` reads back as the length it was
/// written for, whatever follows it.
pub proof fn lemma_parse_len_prefix(n: nat, t: Seq<u8>)
    requires
        n < 0x80000000,
    ensures
        parse_len(enc_len(n) + t) == Some((n, enc_len(n).len() as nat)),
        (enc_len(n) + t).skip(enc_len(n).len() as int) == t,
{
    let e = enc_len(n);
    let s = e + t;
    if n < 128 {
        assert(s[0] == n as u8);
        assert(s.skip(1) =~= t);
    } else {
        lemma_multiply_divide_lt(n as int, 0x1000000, 128);
        lemma_mod_division_less_than_divisor(n as int, 256);
        lemma_mod_division_less_than_divisor((n as int) / 0x100, 256);
        lemma_mod_division_less_than_divisor((n as int) / 0x10000, 256);
        assert(s[0] == (128 + n / 0x1000000) as u8);
        assert(s[0] >= 128);
        assert(s.len() >= 4);
        lemma_fundamental_div_mod(n as int, 0x1000000);
        lemma_breakdown(n as int, 0x10000, 0x100);
        lemma_breakdown(n as int, 0x100, 0x100);
        assert((s[0] - 128) * 0x1000000 + s[1] * 0x10000 + s[2] * 0x100 + s[3] == n);
        assert(s.skip(4) =~= t);
    }
}

/// Encoding a concatenation of pair lists writes the concatenation of their
/// encodings.
pub proof fn lemma_enc_pairs_append(a: Seq<(Seq<u8>, Seq<u8>)>, b: Seq<(Seq<u8>, Seq<u8>)>)
    ensures
        enc_pairs(a + b) == enc_pairs(a) + enc_pairs(b),
    decreases a.len(),
{
    if a.len() == 0 {
        assert(a + b =~= b);
        assert(enc_pairs(a) + enc_pairs(b) =~= enc_pairs(b));
    } else {
        assert((a + b).skip(1) =~= a.skip(1) + b);
        lemma_enc_pairs_append(a.skip(1), b);
        assert(enc_pair((a + b)[0]) + (enc_pairs(a.skip(1)) + enc_pairs(b)) =~= (enc_pair(a[0])
            + enc_pairs(a.skip(1))) + enc_pairs(b));
    }
}

/// A pair list's encoding reads back as exactly that list in front of
/// whatever follows it.
#[verifier::rlimit(100)]
#[verifier::spinoff_prover]
pub proof fn lemma_parse_pairs_prefix(ps: Seq<(Seq<u8>, Seq<u8>)>, t: Seq<u8>)
    requires
        valid_pairs(ps),
    ensures
        parse_pairs(enc_pairs(ps) + t) == match parse_pairs(t) {
            Some(tail) => Some(ps + tail),
            None => None::<Seq<(Seq<u8>, Seq<u8>)>>,
        },
    decreases ps.len(),
{
    if ps.len() == 0 {
        assert(enc_pairs(ps) + t =~= t);
        if parse_pairs(t) is Some {
            assert(ps + parse_pairs(t)->Some_0 =~= parse_pairs(t)->Some_0);
        }
    } else {
        let p = ps[0];
        let rest = ps.skip(1);
        assert(valid_pair(p));
        assert(valid_pairs(rest)) by {
            assert(forall|i: int|
                0 <= i < rest.len() ==> #[trigger] rest[i] == ps[i + 1] && valid_pair(ps[i + 1]));
        }
        let kl = p.0.len();
        let vl = p.1.len();
        let s = enc_pairs(ps) + t;
        let rem1 = enc_len(vl) + (p.0 + (p.1 + (enc_pairs(rest) + t)));
        let rem2 = p.0 + (p.1 + (enc_pairs(rest) + t));
        assert(s =~= enc_len(kl) + rem1);
        lemma_parse_len_prefix(kl, rem1);
        lemma_parse_len_prefix(vl, rem2);
        let kn = enc_len(kl).len();
        let vn = enc_len(vl).len();
        assert(s.skip(kn as int) == rem1);
        assert(rem1.skip(vn as int) == rem2);
        assert(rem2.len() >= kl + vl);
        lemma_parse_pairs_step(s, kl, kn as nat, vl, vn as nat);
        assert(rem2.take(kl as int) =~= p.0);
        assert(rem2.subrange(kl as int, (kl + vl) as int) =~= p.1);
        assert(rem2.skip((kl + vl) as int) =~= enc_pairs(rest) + t);
        lemma_parse_pairs_prefix(rest, t);
        match parse_pairs(t) {
            Some(tail) => {
                assert(parse_pairs(enc_pairs(rest) + t) == Some(rest + tail));
                assert(seq![(p.0, p.1)] + (rest + tail) =~= ps + tail);
                assert((rem2.take(kl as int), rem2.subrange(kl as int, (kl + vl) as int)) == (
                p.0,
                p.1,
                ));
            },
            None => {
                assert(parse_pairs(enc_pairs(rest) + t) is None);
            },
        }
    }
}

/// Round trip of a params payload: the encoding of a pair list decodes to
/// exactly that list.
pub proof fn lemma_parse_pairs_enc(ps: Seq<(Seq<u8>, Seq<u8>)>)
    requires
        valid_pairs(ps),
    ensures
        parse_pairs(enc_pairs(ps)) == Some(ps),
{
    lemma_parse_pairs_prefix(ps, Seq::empty());
    assert(enc_pairs(ps) + Seq::<u8>::empty() =~= enc_pairs(ps));
    assert(parse_pairs(Seq::<u8>::empty()) == Some(Seq::<(Seq<u8>, Seq<u8>)>::empty()));
    assert(ps + Seq::<(Seq<u8>, Seq<u8>)>::empty() =~= ps);
}

/// The finalized mapping of concatenated pair lists: the later list's
/// values win.
pub proof fn lemma_pairs_map_concat(a: Seq<(Seq<u8>, Seq<u8>)>, b: Seq<(Seq<u8>, Seq<u8>)>)
    ensures
        pairs_map(a + b) == pairs_map(a).union_prefer_right(pairs_map(b)),
    decreases b.len(),
{
    if b.len() == 0 {
        assert(a + b =~= a);
        assert(pairs_map(a).union_prefer_right(pairs_map(b)) =~= pairs_map(a));
    } else {
        assert((a + b).drop_last() =~= a + b.drop_last());
        assert((a + b).last() == b.last());
        lemma_pairs_map_concat(a, b.drop_last());
        assert(pairs_map(a).union_prefer_right(pairs_map(b.drop_last())).insert(
            b.last().0,
            b.last().1,
        ) =~= pairs_map(a).union_prefer_right(pairs_map(b.drop_last()).insert(
            b.last().0,
            b.last().1,
        )));
    }
}

/// Params reassembly: one name/value set split over two params records
/// decodes to the concatenation of the two lists, and its finalized mapping
/// overlays the second list's entries on the first's — the same mapping the
/// set yields when delivered in one record.
pub proof fn lemma_params_reassembly(a: Seq<(Seq<u8>, Seq<u8>)>, b: Seq<(Seq<u8>, Seq<u8>)>)
    requires
        valid_pairs(a),
        valid_pairs(b),
    ensures
        parse_pairs(enc_pairs(a) + enc_pairs(b)) == Some(a + b),
        enc_pairs(a + b) == enc_pairs(a) + enc_pairs(b),
        pairs_map(a + b) == pairs_map(a).union_prefer_right(pairs_map(b)),
{
    lemma_parse_pairs_prefix(a, enc_pairs(b));
    lemma_parse_pairs_enc(b);
    lemma_enc_pairs_append(a, b);
    lemma_pairs_map_concat(a, b);
}

/// One unfolding of `parse_pairs` on a window that opens with a whole pair.
proof fn lemma_parse_pairs_step(s: Seq<u8>, klen: nat, kn: nat, vlen: nat, vn: nat)
    requires
        s.len() > 0,
        parse_len(s) == Some((klen, kn)),
        klen >= 1,
        parse_len(s.skip(kn as int)) == Some((vlen, vn)),
        s.skip(kn as int).skip(vn as int).len() >= klen + vlen,
    ensures
        ({
            let s2 = s.skip(kn as int).skip(vn as int);
            parse_pairs(s) == match parse_pairs(s2.skip((klen + vlen) as int)) {
                Some(t) => Some(
                    seq![(s2.take(klen as int), s2.subrange(klen as int, (klen + vlen) as int))]
                        + t,
                ),
                None => None::<Seq<(Seq<u8>, Seq<u8>)>>,
            }
        }),
{
}

/// Reads the length prefix standing at `pos`.
fn read_len(data: &[u8], pos: usize) -> (r: Option<(u32, usize)>)
    requires
        pos <= data@.len(),
    ensures
        match r {
            Some((n, used)) => {
                &&& parse_len(data@.skip(pos as int)) == Some((n as nat, used as nat))
                &&& pos + used <= data@.len()
                &&& 1 <= used <= 4
            },
            None => parse_len(data@.skip(pos as int)) is None,
        },
{
    if pos < data.len() && data[pos] < 128 {
        Some((data[pos] as u32, 1))
    } else if data.len() >= 4 && pos <= data.len() - 4 {
        let n: u32 = ((data[pos] - 128) as u32) * 0x1000000 + (data[pos + 1] as u32) * 0x10000 + (
        data[pos + 2] as u32) * 0x100 + (data[pos + 3] as u32);
        Some((n, 4))
    } else {
        None
    }
}

/// Reads the one whole pair standing at `pos`, handing back where the next
/// pair would start.
fn read_one_pair(data: &[u8], pos: usize) -> (r: Option<(Vec<u8>, Vec<u8>, usize)>)
    requires
        pos < data@.len(),
    ensures
        match r {
            Some((k, v, end)) => {
                &&& pos < end <= data@.len()
                &&& parse_pairs(data@.skip(pos as int)) == match parse_pairs(
                    data@.skip(end as int),
                ) {
                    Some(t) => Some(seq![(k@, v@)] + t),
                    None => None::<Seq<(Seq<u8>, Seq<u8>)>>,
                }
            },
            None => parse_pairs(data@.skip(pos as int)) is None,
        },
{
    let len = data.len();
    let ghost s = data@.skip(pos as int);
    let (klen, kused) = match read_len(data, pos) {
        Some(x) => x,
        None => {
            return None;
        },
    };
    if klen == 0 {
        return None;
    }
    let p1 = pos + kused;
    proof {
        assert(s.skip(kused as int) =~= data@.skip(p1 as int));
    }
    let (vlen, vused) = match read_len(data, p1) {
        Some(x) => x,
        None => {
            return None;
        },
    };
    let p2 = p1 + vused;
    proof {
        assert(data@.skip(p1 as int).skip(vused as int) =~= data@.skip(p2 as int));
    }
    if (klen as u64) + (vlen as u64) > ((len - p2) as u64) {
        return None;
    }
    let k_end = p2 + (klen as usize);
    let v_end = k_end + (vlen as usize);
    proof {
        lemma_parse_pairs_step(s, klen as nat, kused as nat, vlen as nat, vused as nat);
    }
    let key = vstd::slice::slice_to_vec(vstd::slice::slice_subrange(data, p2, k_end));
    let value = vstd::slice::slice_to_vec(vstd::slice::slice_subrange(data, k_end, v_end));
    proof {
        let s2 = data@.skip(p2 as int);
        assert(key@ =~= s2.take(klen as int));
        assert(value@ =~= s2.subrange(klen as int, (klen + vlen) as int));
        assert(s2.skip((klen + vlen) as int) =~= data@.skip(v_end as int));
    }
    Some((key, value, v_end))
}

impl FastCGI {
    /// Decodes a params payload into its name/value pairs, in wire order.
    /// An empty payload, a length that runs past the payload, or an empty
    /// name is refused.
    pub fn read_param(data: &[u8]) -> (r: Option<Vec<(Vec<u8>, Vec<u8>)>>)
        ensures
            match r {
                Some(v) => data@.len() > 0 && parse_pairs(data@) == Some(v.deep_view()),
                None => data@.len() == 0 || parse_pairs(data@) is None,
            },
    {
        let len = data.len();
        if len == 0 {
            return None;
        }
        let mut acc: Vec<(Vec<u8>, Vec<u8>)> = Vec::new();
        let mut pos: usize = 0;
        proof {
            assert(data@.skip(0) =~= data@);
            assert(acc.deep_view() =~= Seq::<(Seq<u8>, Seq<u8>)>::empty());
            if parse_pairs(data@) is Some {
                let t = parse_pairs(data@)->Some_0;
                assert(acc.deep_view() + t =~= t);
            }
        }
        while pos < len
            invariant
                len == data@.len(),
                pos <= len,
                parse_pairs(data@) == match parse_pairs(data@.skip(pos as int)) {
                    Some(tail) => Some(acc.deep_view() + tail),
                    None => None::<Seq<(Seq<u8>, Seq<u8>)>>,
                },
            decreases len - pos,
        {
            let (key, value, v_end) = match read_one_pair(data, pos) {
                Some(x) => x,
                None => {
                    return None;
                },
            };
            let ghost old_acc = acc.deep_view();
            acc.push((key, value));
            proof {
                assert(acc.deep_view() =~~= old_acc.push((key@, value@)));
                let tail_pos = data@.skip(v_end as int);
                if parse_pairs(tail_pos) is Some {
                    let t = parse_pairs(tail_pos)->Some_0;
                    assert(old_acc + (seq![(key@, value@)] + t) =~= acc.deep_view() + t);
                }
            }
            pos = v_end;
        }
        proof {
            assert(data@.skip(len as int) =~= Seq::<u8>::empty());
            assert(acc.deep_view() + Seq::<(Seq<u8>, Seq<u8>)>::empty() =~= acc.deep_view());
        }
        Some(acc)
    }
}

// ------------------------------------------------------------------
// Encoding
// ------------------------------------------------------------------
/// Writes the length prefix for one name or value length.
fn encode_len(n: u32) -> (v: Vec<u8>)
    requires
        n < 0x80000000,
    ensures
        v@ == enc_len(n as nat),
{
    let mut v: Vec<u8> = Vec::new();
    if n < 128 {
        v.push(n as u8);
        assert(v@ =~= enc_len(n as nat));
    } else {
        v.push((128 + n / 0x1000000) as u8);
        v.push(((n / 0x10000) % 256) as u8);
        v.push(((n / 256) % 256) as u8);
        v.push((n % 256) as u8);
        assert(v@ =~= enc_len(n as nat));
    }
    v
}

/// Writes a whole pair list as a params payload.
fn encode_pairs(pairs: &Vec<(Vec<u8>, Vec<u8>)>) -> (out: Vec<u8>)
    requires
        valid_pairs(pairs.deep_view()),
    ensures
        out@ == enc_pairs(pairs.deep_view()),
{
    let ghost dv = pairs.deep_view();
    let mut out: Vec<u8> = Vec::new();
    let mut i: usize = 0;
    proof {
        assert(out@ =~= enc_pairs(dv.take(0)));
    }
    while i < pairs.len()
        invariant
            dv == pairs.deep_view(),
            valid_pairs(dv),
            dv.len() == pairs@.len(),
            i <= pairs@.len(),
            out@ == enc_pairs(dv.take(i as int)),
        decreases pairs@.len() - i,
    {
        proof {
            assert(dv[i as int] == (pairs@[i as int].0@, pairs@[i as int].1@));
            assert(valid_pair(dv[i as int]));
        }
        let key_len: u32 = pairs[i].0.len() as u32;
        let value_len: u32 = pairs[i].1.len() as u32;
        let kp = encode_len(key_len);
        let vp = encode_len(value_len);
        out.extend_from_slice(kp.as_slice());
        out.extend_from_slice(vp.as_slice());
        out.extend_from_slice(pairs[i].0.as_slice());
        out.extend_from_slice(pairs[i].1.as_slice());
        proof {
            let p = dv[i as int];
            assert(enc_pairs(dv.take(i as int)) + (enc_len(p.0.len()) + enc_len(p.1.len()) + p.0
                + p.1) =~= out@);
            lemma_enc_pairs_append(dv.take(i as int), seq![p]);
            assert(enc_pairs(seq![p]) =~= enc_pair(p) + enc_pairs(Seq::empty())) by {
                assert(seq![p].skip(1) =~= Seq::<(Seq<u8>, Seq<u8>)>::empty());
            }
            assert(enc_pairs(seq![p]) =~= enc_pair(p));
            assert(dv.take(i as int) + seq![p] =~= dv.take(i + 1));
            assert(out@ =~= enc_pairs(dv.take(i + 1)));
        }
        i += 1;
    }
    proof {
        assert(dv.take(dv.len() as int) =~= dv);
    }
    out
}

/// The payload bytes a record's content writes on the wire.  Content kinds
/// the server only ever reads (begin-request and stream payloads) write
/// nothing.
pub open spec fn payload_bytes(d: DataModel) -> Seq<u8> {
    match d {
        DataModel::Param(ps) => enc_pairs(ps),
        DataModel::Unknown(u) => seq![u.unknown_type, 0u8, 0u8, 0u8, 0u8, 0u8, 0u8, 0u8],
        DataModel::Raw(b) => b,
        DataModel::End(e) => be4(e.code) + seq![e.protocol, 0u8, 0u8, 0u8],
        _ => Seq::empty(),
    }
}

impl FastCGI {
    /// Writes one record: the eight header bytes — padding and reserved
    /// always zero — then the content's payload bytes.
    pub fn record_array(record: Record) -> (out: Vec<u8>)
        requires
            match record.data@ {
                DataModel::Param(ps) => valid_pairs(ps),
                _ => true,
            },
        ensures
            out@ == header_bytes(
                Header { padding_length: 0, reserved: 0, ..record.header },
            ) + payload_bytes(record.data@),
    {
        let mut out: Vec<u8> = Vec::new();
        out.push(record.header.version);
        out.push(FastCGI::set_header_type(record.header.header_type));
        out.push((record.header.request_id / 256) as u8);
        out.push((record.header.request_id % 256) as u8);
        out.push((record.header.content_length / 256) as u8);
        out.push((record.header.content_length % 256) as u8);
        out.push(0);
        out.push(0);
        proof {
            assert(out@ =~= header_bytes(
                Header { padding_length: 0, reserved: 0, ..record.header },
            ));
        }
        let ghost hdr = out@;
        match record.data {
            ContentData::Param(ps) => {
                let body = encode_pairs(&ps);
                out.extend_from_slice(body.as_slice());
                assert(out@ =~= hdr + payload_bytes(DataModel::Param(ps.deep_view())));
            },
            ContentData::Unknown(u) => {
                out.push(u.unknown_type);
                out.push(0);
                out.push(0);
                out.push(0);
                out.push(0);
                out.push(0);
                out.push(0);
                out.push(0);
                assert(out@ =~= hdr + payload_bytes(DataModel::Unknown(u)));
            },
            ContentData::Raw(b) => {
                out.extend_from_slice(b.as_slice());
                assert(out@ =~= hdr + payload_bytes(DataModel::Raw(b@)));
            },
            ContentData::End(e) => {
                out.push((e.code / 0x1000000) as u8);
                out.push(((e.code / 0x10000) % 256) as u8);
                out.push(((e.code / 256) % 256) as u8);
                out.push((e.code % 256) as u8);
                out.push(e.protocol);
                out.push(0);
                out.push(0);
                out.push(0);
                assert(out@ =~= hdr + payload_bytes(DataModel::End(e)));
            },
            _ => {
                assert(out@ =~= hdr + payload_bytes(record.data@));
            },
        }
        out
    }
}

// ------------------------------------------------------------------
// Frames
// ------------------------------------------------------------------
/// The wire bytes of one frame: eight header bytes, then the payload.
pub open spec fn frame_bytes(h: Header, payload: Seq<u8>) -> Seq<u8> {
    header_bytes(h) + payload
}

/// Splits a byte string into its frames: each one a header and the payload
/// its content length declares, padding skipped.  A trailing partial frame
/// refuses the whole string.
pub open spec fn parse_frames(s: Seq<u8>) -> Option<Seq<(Header, Seq<u8>)>>
    decreases s.len(),
{
    if s.len() == 0 {
        Some(Seq::empty())
    } else if s.len() < 8 {
        None
    } else {
        let h = header_of(s);
        if s.len() < 8 + h.content_length + h.padding_length {
            None
        } else {
            let payload = s.subrange(8, 8 + h.content_length as int);
            let rest = s.skip(8 + h.content_length + h.padding_length);
            match parse_frames(rest) {
                None => None,
                Some(fs) => Some(seq![(h, payload)] + fs),
            }
        }
    }
}

/// A frame written with a true content length and no padding reads back as
/// itself in front of whatever follows it.
pub proof fn lemma_parse_frame_prefix(h: Header, p: Seq<u8>, t: Seq<u8>)
    requires
        h.content_length == p.len(),
        h.padding_length == 0,
        !(h.header_type is Error),
    ensures
        parse_frames(frame_bytes(h, p) + t) == match parse_frames(t) {
            Some(fs) => Some(seq![(h, p)] + fs),
            None => None::<Seq<(Header, Seq<u8>)>>,
        },
{
    let s = frame_bytes(h, p) + t;
    lemma_header_round_trip(h);
    assert(s.len() == 8 + p.len() + t.len());
    assert forall|i: int| 0 <= i < 8 implies s[i] == header_bytes(h)[i] by {}
    assert(header_of(s) == header_of(header_bytes(h)));
    assert(s.subrange(8, 8 + h.content_length as int) =~= p);
    assert(s.skip(8 + h.content_length + h.padding_length) =~= t);
}

/// One unfolding of `parse_frames` on a window that opens with a whole
/// frame.
proof fn lemma_parse_frames_step(s: Seq<u8>)
    requires
        s.len() >= 8,
        s.len() >= 8 + header_of(s).content_length + header_of(s).padding_length,
    ensures
        ({
            let h = header_of(s);
            parse_frames(s) == match parse_frames(
                s.skip(8 + h.content_length + h.padding_length),
            ) {
                Some(fs) => Some(seq![(h, s.subrange(8, 8 + h.content_length as int))] + fs),
                None => None::<Seq<(Header, Seq<u8>)>>,
            }
        }),
{
}

impl vstd::prelude::DeepView for Header {
    type V = Header;

    open spec fn deep_view(&self) -> Header {
        *self
    }
}

/// Reads the one whole frame standing at `pos`, handing back where the next
/// frame would start.
fn read_frame(data: &[u8], pos: usize) -> (r: Option<(Header, Vec<u8>, usize)>)
    requires
        pos < data@.len(),
    ensures
        match r {
            Some((h, p, end)) => {
                &&& pos < end <= data@.len()
                &&& parse_frames(data@.skip(pos as int)) == match parse_frames(
                    data@.skip(end as int),
                ) {
                    Some(fs) => Some(seq![(h, p@)] + fs),
                    None => None::<Seq<(Header, Seq<u8>)>>,
                }
            },
            None => parse_frames(data@.skip(pos as int)) is None,
        },
{
    let len = data.len();
    let ghost s = data@.skip(pos as int);
    let avail = len - pos;
    if avail < 8 {
        return None;
    }
    let h = Header {
        version: data[pos],
        header_type: FastCGI::get_header_type(data[pos + 1]),
        request_id: (data[pos + 2] as u16) * 256 + (data[pos + 3] as u16),
        content_length: (data[pos + 4] as u16) * 256 + (data[pos + 5] as u16),
        padding_length: data[pos + 6],
        reserved: data[pos + 7],
    };
    proof {
        assert(h == header_of(s));
    }
    let total: usize = 8 + (h.content_length as usize) + (h.padding_length as usize);
    if avail < total {
        return None;
    }
    proof {
        lemma_parse_frames_step(s);
    }
    let body_end = pos + 8 + (h.content_length as usize);
    let payload = vstd::slice::slice_to_vec(vstd::slice::slice_subrange(data, pos + 8, body_end));
    let end = pos + total;
    proof {
        assert(payload@ =~= s.subrange(8, 8 + h.content_length as int));
        assert(s.skip(8 + h.content_length + h.padding_length) =~= data@.skip(end as int));
    }
    Some((h, payload, end))
}

impl FastCGI {
    /// Splits a byte string into its frames: each one a header and the
    /// payload its content length declares, padding skipped.  A trailing
    /// partial frame refuses the whole string.
    pub fn decode_frames(data: &[u8]) -> (r: Option<Vec<(Header, Vec<u8>)>>)
        ensures
            match r {
                Some(v) => parse_frames(data@) == Some(v.deep_view()),
                None => parse_frames(data@) is None,
            },
    {
        let len = data.len();
        let mut acc: Vec<(Header, Vec<u8>)> = Vec::new();
        let mut pos: usize = 0;
        proof {
            assert(data@.skip(0) =~= data@);
            assert(acc.deep_view() =~= Seq::<(Header, Seq<u8>)>::empty());
            if parse_frames(data@) is Some {
                let t = parse_frames(data@)->Some_0;
                assert(acc.deep_view() + t =~= t);
            }
        }
        while pos < len
            invariant
                len == data@.len(),
                pos <= len,
                parse_frames(data@) == match parse_frames(data@.skip(pos as int)) {
                    Some(tail) => Some(acc.deep_view() + tail),
                    None => None::<Seq<(Header, Seq<u8>)>>,
                },
            decreases len - pos,
        {
            let (h, payload, end) = match read_frame(data, pos) {
                Some(x) => x,
                None => {
                    return None;
                },
            };
            let ghost old_acc = acc.deep_view();
            acc.push((h, payload));
            proof {
                assert(acc.deep_view() =~~= old_acc.push((h, payload@)));
                let tail_pos = data@.skip(end as int);
                if parse_frames(tail_pos) is Some {
                    let t = parse_frames(tail_pos)->Some_0;
                    assert(old_acc + (seq![(h, payload@)] + t) =~= acc.deep_view() + t);
                }
            }
            pos = end;
        }
        proof {
            assert(data@.skip(len as int) =~= Seq::<u8>::empty());
            assert(acc.deep_view() + Seq::<(Header, Seq<u8>)>::empty() =~= acc.deep_view());
        }
        Some(acc)
    }
}

// ------------------------------------------------------------------
// Stdout chunking and the response records
// ------------------------------------------------------------------
/// A response payload split into the chunks its stdout records carry: all
/// of the maximal content length but the last.
pub open spec fn chunk_payloads(s: Seq<u8>) -> Seq<Seq<u8>>
    decreases s.len(),
{
    if s.len() == 0 {
        Seq::empty()
    } else if s.len() <= 65535 {
        seq![s]
    } else {
        seq![s.take(65535)] + chunk_payloads(s.skip(65535))
    }
}

/// The chunking law's counting side: a payload of size `S` falls into
/// exactly `ceil(S / 65535)` chunks, none empty, none over the maximal
/// content length, and in order they concatenate back to the payload.
pub proof fn lemma_chunk_payloads(s: Seq<u8>)
    ensures
        chunk_payloads(s).len() == (s.len() + 65534) / 65535,
        chunk_payloads(s).flatten() == s,
        forall|i: int|
            0 <= i < chunk_payloads(s).len() ==> 0 < (#[trigger] chunk_payloads(s)[i]).len()
                <= 65535,
    decreases s.len(),
{
    let cs = chunk_payloads(s);
    if s.len() == 0 {
        assert(cs.flatten() =~= s);
    } else if s.len() <= 65535 {
        cs.lemma_flatten_one_element();
        assert(cs.flatten() =~= s);
    } else {
        lemma_chunk_payloads(s.skip(65535));
        vstd::arithmetic::div_mod::lemma_div_plus_one(s.len() - 65536 + 65535, 65535);
        let rest = chunk_payloads(s.skip(65535));
        assert(cs.drop_first() =~= rest);
        assert(cs.flatten() =~= s.take(65535) + rest.flatten());
        assert(s.take(65535) + s.skip(65535) =~= s);
    }
}

/// The header of one stdout record of a given content length.
pub open spec fn stdout_header(request_id: u16, len: u16) -> Header {
    Header {
        version: FASTCGI_VERSION,
        header_type: HeaderType::Stdout,
        request_id,
        content_length: len,
        padding_length: 0,
        reserved: 0,
    }
}

/// The wire bytes of a row of stdout records, one per chunk.
pub open spec fn stdout_bytes(request_id: u16, chunks: Seq<Seq<u8>>) -> Seq<u8>
    decreases chunks.len(),
{
    if chunks.len() == 0 {
        Seq::empty()
    } else {
        frame_bytes(stdout_header(request_id, chunks[0].len() as u16), chunks[0]) + stdout_bytes(
            request_id,
            chunks.skip(1),
        )
    }
}

/// Everything `encode_stdout` writes: one stdout record per chunk, then the
/// empty stdout record that ends the stream.
pub open spec fn encode_stdout_spec(request_id: u16, s: Seq<u8>) -> Seq<u8> {
    stdout_bytes(request_id, chunk_payloads(s)) + frame_bytes(
        stdout_header(request_id, 0),
        Seq::empty(),
    )
}

/// The payload bytes of one end-request record.
pub open spec fn end_payload(code: u32) -> Seq<u8> {
    be4(code) + seq![FASTCGI_REQUEST_COMPLETE, 0u8, 0u8, 0u8]
}

/// The header of one end-request record.
pub open spec fn end_header(request_id: u16) -> Header {
    Header {
        version: FASTCGI_VERSION,
        header_type: HeaderType::EndRequest,
        request_id,
        content_length: 8,
        padding_length: 0,
        reserved: 0,
    }
}

/// The wire bytes of one end-request record reporting request-complete.
pub open spec fn end_request_bytes(request_id: u16, code: u32) -> Seq<u8> {
    frame_bytes(end_header(request_id), end_payload(code))
}

/// The end-request payload read back as app status and protocol status.
pub open spec fn parse_end(s: Seq<u8>) -> Option<End> {
    if s.len() == 8 {
        Some(End { code: u32_of_be(s[0], s[1], s[2], s[3]), protocol: s[4] })
    } else {
        None
    }
}

/// The unknown-type payload read back as the type byte it reports.
pub open spec fn parse_unknown(s: Seq<u8>) -> Option<Unknown> {
    if s.len() == 8 {
        Some(Unknown { unknown_type: s[0] })
    } else {
        None
    }
}

impl FastCGI {
    /// Frames a response payload as stdout records: chunks of at most the
    /// maximal content length, then the empty record that ends the stream.
    pub fn encode_stdout(request_id: u16, payload: &[u8]) -> (out: Vec<u8>)
        ensures
            out@ == encode_stdout_spec(request_id, payload@),
    {
        let len = payload.len();
        let mut out: Vec<u8> = Vec::new();
        let mut seek: usize = 0;
        proof {
            assert(payload@.skip(0) =~= payload@);
            assert(Seq::<u8>::empty() + stdout_bytes(
                request_id,
                chunk_payloads(payload@),
            ) =~= stdout_bytes(request_id, chunk_payloads(payload@)));
        }
        while seek < len
            invariant
                len == payload@.len(),
                seek <= len,
                stdout_bytes(request_id, chunk_payloads(payload@)) == out@ + stdout_bytes(
                    request_id,
                    chunk_payloads(payload@.skip(seek as int)),
                ),
            decreases len - seek,
        {
            let ghost s_rem = payload@.skip(seek as int);
            let remaining = len - seek;
            let size: u16 = if remaining > (FASTCGI_MAX_CONTENT_LEN as usize) {
                FASTCGI_MAX_CONTENT_LEN
            } else {
                remaining as u16
            };
            let chunk = vstd::slice::slice_to_vec(
                vstd::slice::slice_subrange(payload, seek, seek + (size as usize)),
            );
            let ghost chunk_bytes = chunk@;
            let record = Record {
                header: stdout_header_exec(request_id, size),
                data: ContentData::Raw(chunk),
            };
            let bytes = FastCGI::record_array(record);
            out.extend_from_slice(bytes.as_slice());
            proof {
                assert(bytes@ =~= frame_bytes(
                    stdout_header(request_id, size),
                    chunk_bytes,
                ));
                if remaining > 65535 {
                    assert(chunk_bytes =~= s_rem.take(65535));
                    assert(s_rem.skip(65535) =~= payload@.skip(seek + 65535));
                    assert(chunk_payloads(s_rem) == seq![s_rem.take(65535)] + chunk_payloads(
                        s_rem.skip(65535),
                    ));
                    assert(chunk_payloads(s_rem).skip(1) =~= chunk_payloads(s_rem.skip(65535)));
                    assert(chunk_payloads(s_rem)[0] == s_rem.take(65535));
                } else {
                    assert(chunk_bytes =~= s_rem);
                    assert(chunk_payloads(s_rem) == seq![s_rem]);
                    assert(chunk_payloads(s_rem).skip(1) =~= Seq::<Seq<u8>>::empty());
                    assert(payload@.skip(len as int) =~= Seq::<u8>::empty());
                }
            }
            seek = seek + (size as usize);
        }
        proof {
            assert(payload@.skip(len as int) =~= Seq::<u8>::empty());
        }
        let record = Record {
            header: stdout_header_exec(request_id, 0),
            data: ContentData::Empty,
        };
        let bytes = FastCGI::record_array(record);
        out.extend_from_slice(bytes.as_slice());
        proof {
            assert(bytes@ =~= frame_bytes(stdout_header(request_id, 0), Seq::empty()));
        }
        out
    }

    /// Writes one end-request record reporting request-complete.
    pub fn encode_end_request(request_id: u16, code: u32) -> (out: Vec<u8>)
        ensures
            out@ == end_request_bytes(request_id, code),
    {
        let record = Record {
            header: Header {
                version: FASTCGI_VERSION,
                header_type: HeaderType::EndRequest,
                request_id,
                content_length: 8,
                padding_length: 0,
                reserved: 0,
            },
            data: ContentData::End(End { code, protocol: FASTCGI_REQUEST_COMPLETE }),
        };
        let out = FastCGI::record_array(record);
        assert(out@ =~= end_request_bytes(request_id, code));
        out
    }

    /// Writes one get-values-result record answering a capability query.
    pub fn encode_get_values_result(request_id: u16, pairs: Vec<(Vec<u8>, Vec<u8>)>) -> (out: Vec<
        u8,
    >)
        requires
            valid_pairs(pairs.deep_view()),
            enc_pairs(pairs.deep_view()).len() <= 65535,
        ensures
            out@ == frame_bytes(
                Header {
                    version: FASTCGI_VERSION,
                    header_type: HeaderType::GetValuesResult,
                    request_id,
                    content_length: enc_pairs(pairs.deep_view()).len() as u16,
                    padding_length: 0,
                    reserved: 0,
                },
                enc_pairs(pairs.deep_view()),
            ),
    {
        let body = encode_pairs(&pairs);
        let record = Record {
            header: Header {
                version: FASTCGI_VERSION,
                header_type: HeaderType::GetValuesResult,
                request_id,
                content_length: body.len() as u16,
                padding_length: 0,
                reserved: 0,
            },
            data: ContentData::Param(pairs),
        };
        let out = FastCGI::record_array(record);
        assert(out@ =~= frame_bytes(record.header, enc_pairs(record.data@->Param_0)));
        out
    }

    /// Writes one unknown-type record naming the type byte that was not
    /// understood.
    pub fn encode_unknown_type(request_id: u16, unknown: u8) -> (out: Vec<u8>)
        ensures
            out@ == frame_bytes(
                Header {
                    version: FASTCGI_VERSION,
                    header_type: HeaderType::UnknownType,
                    request_id,
                    content_length: 8,
                    padding_length: 0,
                    reserved: 0,
                },
                seq![unknown, 0u8, 0u8, 0u8, 0u8, 0u8, 0u8, 0u8],
            ),
    {
        let record = Record {
            header: Header {
                version: FASTCGI_VERSION,
                header_type: HeaderType::UnknownType,
                request_id,
                content_length: 8,
                padding_length: 0,
                reserved: 0,
            },
            data: ContentData::Unknown(Unknown { unknown_type: unknown }),
        };
        let out = FastCGI::record_array(record);
        assert(out@ =~= frame_bytes(record.header, payload_bytes(record.data@)));
        out
    }

    /// The whole answer written to the web server: the response payload as
    /// stdout records, the empty stdout record, one end-request record.
    pub fn write_response(header: &Header, answer: Vec<u8>) -> (out: Vec<u8>)
        ensures
            out@ == encode_stdout_spec(header.request_id, answer@) + end_request_bytes(
                header.request_id,
                0,
            ),
    {
        let mut out = FastCGI::encode_stdout(header.request_id, answer.as_slice());
        let end = FastCGI::encode_end_request(header.request_id, 0);
        out.extend_from_slice(end.as_slice());
        out
    }

    /// The minimal reply to an abort: one end-request record alone.
    pub fn write_abort(header: &Header) -> (out: Vec<u8>)
        ensures
            out@ == end_request_bytes(header.request_id, 0),
    {
        FastCGI::encode_end_request(header.request_id, 0)
    }
}

// ------------------------------------------------------------------
// Round trips of the emitted records
// ------------------------------------------------------------------
/// Round trip of an end-request record: its wire bytes read back as one
/// frame whose payload reports the app status and request-complete.
pub proof fn lemma_end_request_round_trip(request_id: u16, code: u32)
    ensures
        parse_frames(end_request_bytes(request_id, code)) == Some(
            seq![(end_header(request_id), end_payload(code))],
        ),
        parse_end(end_payload(code)) == Some(End { code, protocol: FASTCGI_REQUEST_COMPLETE }),
{
    lemma_parse_frame_prefix(end_header(request_id), end_payload(code), Seq::empty());
    assert(frame_bytes(end_header(request_id), end_payload(code)) + Seq::<u8>::empty()
        =~= end_request_bytes(request_id, code));
    assert(seq![(end_header(request_id), end_payload(code))] + Seq::<(Header, Seq<u8>)>::empty()
        =~= seq![(end_header(request_id), end_payload(code))]);
    lemma_be4_round_trip(code);
}

/// Round trip of an unknown-type record: its wire bytes read back as one
/// frame whose payload names the type byte that was not understood.
pub proof fn lemma_unknown_type_round_trip(request_id: u16, unknown: u8)
    ensures
        ({
            let h = Header {
                version: FASTCGI_VERSION,
                header_type: HeaderType::UnknownType,
                request_id,
                content_length: 8,
                padding_length: 0,
                reserved: 0,
            };
            let p = seq![unknown, 0u8, 0u8, 0u8, 0u8, 0u8, 0u8, 0u8];
            &&& parse_frames(frame_bytes(h, p)) == Some(seq![(h, p)])
            &&& parse_unknown(p) == Some(Unknown { unknown_type: unknown })
        }),
{
    let h = Header {
        version: FASTCGI_VERSION,
        header_type: HeaderType::UnknownType,
        request_id,
        content_length: 8,
        padding_length: 0,
        reserved: 0,
    };
    let p = seq![unknown, 0u8, 0u8, 0u8, 0u8, 0u8, 0u8, 0u8];
    lemma_parse_frame_prefix(h, p, Seq::empty());
    assert(frame_bytes(h, p) + Seq::<u8>::empty() =~= frame_bytes(h, p));
    assert(seq![(h, p)] + Seq::<(Header, Seq<u8>)>::empty() =~= seq![(h, p)]);
}

/// Round trip of a get-values-result record: its wire bytes read back as
/// one frame whose payload decodes to exactly the capability pairs it was
/// written for.
pub proof fn lemma_get_values_result_round_trip(request_id: u16, ps: Seq<(Seq<u8>, Seq<u8>)>)
    requires
        valid_pairs(ps),
        enc_pairs(ps).len() <= 65535,
    ensures
        ({
            let h = Header {
                version: FASTCGI_VERSION,
                header_type: HeaderType::GetValuesResult,
                request_id,
                content_length: enc_pairs(ps).len() as u16,
                padding_length: 0,
                reserved: 0,
            };
            &&& parse_frames(frame_bytes(h, enc_pairs(ps))) == Some(seq![(h, enc_pairs(ps))])
            &&& parse_pairs(enc_pairs(ps)) == Some(ps)
        }),
{
    let h = Header {
        version: FASTCGI_VERSION,
        header_type: HeaderType::GetValuesResult,
        request_id,
        content_length: enc_pairs(ps).len() as u16,
        padding_length: 0,
        reserved: 0,
    };
    lemma_parse_frame_prefix(h, enc_pairs(ps), Seq::empty());
    assert(frame_bytes(h, enc_pairs(ps)) + Seq::<u8>::empty() =~= frame_bytes(h, enc_pairs(ps)));
    assert(seq![(h, enc_pairs(ps))] + Seq::<(Header, Seq<u8>)>::empty() =~= seq![
        (h, enc_pairs(ps)),
    ]);
    lemma_parse_pairs_enc(ps);
}

/// A row of stdout records reads back as one frame per chunk in front of
/// whatever follows it.
proof fn lemma_stdout_bytes_parse(request_id: u16, chunks: Seq<Seq<u8>>, t: Seq<u8>)
    requires
        forall|i: int| 0 <= i < chunks.len() ==> (#[trigger] chunks[i]).len() <= 65535,
    ensures
        parse_frames(stdout_bytes(request_id, chunks) + t) == match parse_frames(t) {
            Some(fs) => Some(
                chunks.map_values(
                    |c: Seq<u8>| (stdout_header(request_id, c.len() as u16), c),
                ) + fs,
            ),
            None => None::<Seq<(Header, Seq<u8>)>>,
        },
    decreases chunks.len(),
{
    let f = |c: Seq<u8>| (stdout_header(request_id, c.len() as u16), c);
    if chunks.len() == 0 {
        assert(stdout_bytes(request_id, chunks) + t =~= t);
        if parse_frames(t) is Some {
            assert(chunks.map_values(f) + parse_frames(t)->Some_0 =~= parse_frames(t)->Some_0);
        }
    } else {
        let c0 = chunks[0];
        let rest = chunks.skip(1);
        let h0 = stdout_header(request_id, c0.len() as u16);
        assert(forall|i: int|
            0 <= i < rest.len() ==> (#[trigger] rest[i]) == chunks[i + 1] && chunks[i + 1].len()
                <= 65535);
        lemma_stdout_bytes_parse(request_id, rest, t);
        assert(stdout_bytes(request_id, chunks) + t =~= frame_bytes(h0, c0) + (stdout_bytes(
            request_id,
            rest,
        ) + t));
        lemma_parse_frame_prefix(h0, c0, stdout_bytes(request_id, rest) + t);
        match parse_frames(t) {
            Some(fs) => {
                assert(seq![(h0, c0)] + (rest.map_values(f) + fs) =~= chunks.map_values(f) + fs);
            },
            None => {},
        }
    }
}

/// Round trip of a whole response, and its completeness: the bytes
/// `write_response` hands out parse as one closed unit — every stdout
/// chunk, the empty stdout record that ends the stream, and exactly one
/// end-request record, standing last.  Whatever stops short of the whole
/// buffer has not carried the end-request record and is no finished
/// response.
pub proof fn lemma_response_round_trip(request_id: u16, s: Seq<u8>)
    ensures
        parse_frames(encode_stdout_spec(request_id, s) + end_request_bytes(request_id, 0)) == Some(
            chunk_payloads(s).map_values(
                |c: Seq<u8>| (stdout_header(request_id, c.len() as u16), c),
            ).push((stdout_header(request_id, 0), Seq::<u8>::empty())).push(
                (end_header(request_id), end_payload(0)),
            ),
        ),
{
    let f = |c: Seq<u8>| (stdout_header(request_id, c.len() as u16), c);
    let chunks = chunk_payloads(s);
    lemma_chunk_payloads(s);
    let endb = end_request_bytes(request_id, 0);
    lemma_parse_frame_prefix(end_header(request_id), end_payload(0), Seq::empty());
    assert(frame_bytes(end_header(request_id), end_payload(0)) + Seq::<u8>::empty() =~= endb);
    assert(seq![(end_header(request_id), end_payload(0))] + Seq::<(Header, Seq<u8>)>::empty()
        =~= seq![(end_header(request_id), end_payload(0))]);
    let term = frame_bytes(stdout_header(request_id, 0), Seq::<u8>::empty());
    lemma_parse_frame_prefix(stdout_header(request_id, 0), Seq::<u8>::empty(), endb);
    lemma_stdout_bytes_parse(request_id, chunks, term + endb);
    assert(stdout_bytes(request_id, chunks) + (term + endb) =~= encode_stdout_spec(request_id, s)
        + endb);
    assert(chunks.map_values(f) + (seq![(stdout_header(request_id, 0), Seq::<u8>::empty())]
        + seq![(end_header(request_id), end_payload(0))]) =~= chunks.map_values(f).push(
        (stdout_header(request_id, 0), Seq::<u8>::empty()),
    ).push((end_header(request_id), end_payload(0))));
}

/// Round trip and chunking law of a framed response: the wire bytes of
/// `encode_stdout` read back as exactly one stdout frame per chunk — each
/// carrying its chunk as payload — followed by the empty stdout frame that
/// ends the stream.  With `lemma_chunk_payloads` this pins the frame count
/// to `ceil(len / 65535)` plus the terminator, and the payloads'
/// concatenation back to the payload it was called on.
pub proof fn lemma_encode_stdout_round_trip(request_id: u16, s: Seq<u8>)
    ensures
        parse_frames(encode_stdout_spec(request_id, s)) == Some(
            chunk_payloads(s).map_values(
                |c: Seq<u8>| (stdout_header(request_id, c.len() as u16), c),
            ).push((stdout_header(request_id, 0), Seq::<u8>::empty())),
        ),
{
    let f = |c: Seq<u8>| (stdout_header(request_id, c.len() as u16), c);
    let chunks = chunk_payloads(s);
    lemma_chunk_payloads(s);
    let term = frame_bytes(stdout_header(request_id, 0), Seq::<u8>::empty());
    lemma_parse_frame_prefix(stdout_header(request_id, 0), Seq::<u8>::empty(), Seq::empty());
    assert(term + Seq::<u8>::empty() =~= term);
    assert(seq![(stdout_header(request_id, 0), Seq::<u8>::empty())] + Seq::<(
        Header,
        Seq<u8>,
    )>::empty() =~= seq![(stdout_header(request_id, 0), Seq::<u8>::empty())]);
    lemma_stdout_bytes_parse(request_id, chunks, term);
    assert(chunks.map_values(f) + seq![(stdout_header(request_id, 0), Seq::<u8>::empty())]
        =~= chunks.map_values(f).push((stdout_header(request_id, 0), Seq::<u8>::empty())));
}

// ------------------------------------------------------------------
// Record decoding
// ------------------------------------------------------------------
/// The record types a web server sends to this server.
pub open spec fn is_application_type(t: HeaderType) -> bool {
    t is BeginRequest || t is AbortRequest || t is Params || t is Stdin || t is Data
}

/// The record types only this server ever writes; receiving one is a
/// framing error.
pub open spec fn is_output_type(t: HeaderType) -> bool {
    t is EndRequest || t is Stdout || t is Stderr || t is GetValuesResult || t is UnknownType
}

/// The whole length a header declares for its record: header, content,
/// padding.
pub open spec fn record_len(h: Header) -> int {
    8 + h.content_length + h.padding_length
}

/// The meaning of a byte window as one record, exactly as `FastCGI::read`
/// decodes it.  Rejections: a version other than the protocol's, a
/// request id of zero on an application record, an output-only type, a
/// begin request whose payload is not eight bytes or names no role, and a
/// malformed params payload.
pub open spec fn spec_decode(s: Seq<u8>) -> StatusModel {
    if s.len() < 8 {
        StatusModel::NeedMoreBytes
    } else {
        let h = header_of(s);
        if h.version != FASTCGI_VERSION {
            StatusModel::Reject(record_len(h))
        } else if is_application_type(h.header_type) && h.request_id == 0 {
            StatusModel::Reject(record_len(h))
        } else if is_output_type(h.header_type) {
            StatusModel::Reject(record_len(h))
        } else if s.len() < record_len(h) {
            StatusModel::NeedMoreBytes
        } else {
            let payload = s.subrange(8, 8 + h.content_length as int);
            let n = record_len(h);
            match h.header_type {
                HeaderType::BeginRequest => if h.content_length != 8 {
                    StatusModel::Reject(n)
                } else {
                    let role = spec_role(u16_of_be(payload[0], payload[1]));
                    if role is Error {
                        StatusModel::Reject(n)
                    } else {
                        StatusModel::Decoded(
                            RecordModel {
                                header: h,
                                data: DataModel::BeginRequest(
                                    BeginRequest { role, flags: payload[2] },
                                ),
                            },
                            n,
                        )
                    }
                },
                HeaderType::Params => if h.content_length == 0 {
                    StatusModel::Decoded(RecordModel { header: h, data: DataModel::Empty }, n)
                } else {
                    match parse_pairs(payload) {
                        None => StatusModel::Reject(n),
                        Some(ps) => StatusModel::Decoded(
                            RecordModel { header: h, data: DataModel::Param(ps) },
                            n,
                        ),
                    }
                },
                HeaderType::AbortRequest | HeaderType::Stdin => if h.content_length == 0 {
                    StatusModel::Decoded(RecordModel { header: h, data: DataModel::Empty }, n)
                } else {
                    StatusModel::Decoded(
                        RecordModel { header: h, data: DataModel::Stream(payload) },
                        n,
                    )
                },
                HeaderType::Data | HeaderType::GetValues => StatusModel::Decoded(
                    RecordModel { header: h, data: DataModel::Stream(payload) },
                    n,
                ),
                HeaderType::Error(_) => StatusModel::Decoded(
                    RecordModel { header: h, data: DataModel::Empty },
                    n,
                ),
                _ => StatusModel::Reject(n),
            }
        }
    }
}

/// A decode that is not waiting for bytes stands: bytes arriving later
/// never change it.  This is what lets the reader accept a stream in
/// deliveries of any size, single bytes included.
pub proof fn lemma_spec_decode_extend(s: Seq<u8>, t: Seq<u8>)
    ensures
        !(spec_decode(s) is NeedMoreBytes) ==> spec_decode(s + t) == spec_decode(s),
{
    if s.len() >= 8 {
        let u = s + t;
        assert forall|i: int| 0 <= i < 8 implies u[i] == s[i] by {}
        assert(header_of(u) == header_of(s));
        let h = header_of(s);
        if s.len() >= record_len(h) {
            assert(u.subrange(8, 8 + h.content_length as int) =~= s.subrange(
                8,
                8 + h.content_length as int,
            ));
        }
    }
}

impl FastCGI {
    /// Decodes the one record standing at `start`: `NeedMoreBytes` while
    /// the window lacks bytes — consuming nothing — else the record and the
    /// count of bytes it covered, or a rejection.
    pub fn read(buffer: &[u8], start: usize) -> (r: ReadStatus)
        requires
            start <= buffer@.len(),
        ensures
            r@ == spec_decode(buffer@.skip(start as int)),
    {
        let len = buffer.len();
        let ghost s = buffer@.skip(start as int);
        if len - start < FASTCGI_HEADER_LEN {
            return ReadStatus::NeedMoreBytes;
        }
        let h = Header {
            version: buffer[start],
            header_type: FastCGI::get_header_type(buffer[start + 1]),
            request_id: (buffer[start + 2] as u16) * 256 + (buffer[start + 3] as u16),
            content_length: (buffer[start + 4] as u16) * 256 + (buffer[start + 5] as u16),
            padding_length: buffer[start + 6],
            reserved: buffer[start + 7],
        };
        proof {
            assert(h == header_of(s));
        }
        let total: usize = 8 + (h.content_length as usize) + (h.padding_length as usize);
        if h.version != FASTCGI_VERSION {
            return ReadStatus::Reject(total);
        }
        let app_type = matches!(
            h.header_type,
            HeaderType::BeginRequest
                | HeaderType::AbortRequest
                | HeaderType::Params
                | HeaderType::Stdin
                | HeaderType::Data
        );
        if app_type && h.request_id == 0 {
            return ReadStatus::Reject(total);
        }
        if matches!(
            h.header_type,
            HeaderType::EndRequest
                | HeaderType::Stdout
                | HeaderType::Stderr
                | HeaderType::GetValuesResult
                | HeaderType::UnknownType
        ) {
            return ReadStatus::Reject(total);
        }
        if len - start < total {
            return ReadStatus::NeedMoreBytes;
        }
        let payload = vstd::slice::slice_subrange(
            buffer,
            start + 8,
            start + 8 + (h.content_length as usize),
        );
        proof {
            assert(payload@ =~= s.subrange(8, 8 + h.content_length as int));
        }
        match h.header_type {
            HeaderType::BeginRequest => {
                if (h.content_length as usize) != FASTCGI_BEGIN_REQUEST_LEN {
                    return ReadStatus::Reject(total);
                }
                match FastCGI::read_begin_request(payload) {
                    None => ReadStatus::Reject(total),
                    Some(b) => ReadStatus::Decoded(
                        Record { header: h, data: ContentData::BeginRequest(b) },
                        total,
                    ),
                }
            },
            HeaderType::Params => {
                if h.content_length == 0 {
                    return ReadStatus::Decoded(
                        Record { header: h, data: ContentData::Empty },
                        total,
                    );
                }
                match FastCGI::read_param(payload) {
                    None => ReadStatus::Reject(total),
                    Some(ps) => ReadStatus::Decoded(
                        Record { header: h, data: ContentData::Param(ps) },
                        total,
                    ),
                }
            },
            HeaderType::AbortRequest | HeaderType::Stdin => {
                if h.content_length == 0 {
                    return ReadStatus::Decoded(
                        Record { header: h, data: ContentData::Empty },
                        total,
                    );
                }
                ReadStatus::Decoded(
                    Record { header: h, data: FastCGI::read_stream(payload) },
                    total,
                )
            },
            HeaderType::Data | HeaderType::GetValues => ReadStatus::Decoded(
                Record { header: h, data: FastCGI::read_stream(payload) },
                total,
            ),
            HeaderType::Error(_) => ReadStatus::Decoded(
                Record { header: h, data: ContentData::Empty },
                total,
            ),
            _ => ReadStatus::Reject(total),
        }
    }
}

/// Builds the header of one stdout record.
fn stdout_header_exec(request_id: u16, len: u16) -> (h: Header)
    ensures
        h == stdout_header(request_id, len),
{
    Header {
        version: FASTCGI_VERSION,
        header_type: HeaderType::Stdout,
        request_id,
        content_length: len,
        padding_length: 0,
        reserved: 0,
    }
}

} // verus!
