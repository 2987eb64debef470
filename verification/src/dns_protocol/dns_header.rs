//! The fixed 12-byte header: identifier, flag bits and four section counts.

use crate::dns_protocol::wire::be16;
use crate::dns_protocol::wire::be16_at;
use vstd::prelude::*;

verus! {

/// Size in bytes of the header on the wire.
pub const DNS_HEADER_SIZE: usize = 12;

/// The header of a message. Each flag field holds its bits in the low end of
/// a byte of its own.
#[derive(Debug, Clone, Copy, PartialEq, Eq, Structural)]
pub struct DnsHeader {
    pub packet_identifier: u16,
    pub query_response_indicator: u8,
    pub opcode: u8,
    pub authoritative_answer: u8,
    pub truncation: u8,
    pub recursion_desired: u8,
    pub recursion_available: u8,
    pub reserved: u8,
    pub response_code: u8,
    pub question_count: u16,
    pub answer_record_count: u16,
    pub authority_record_count: u16,
    pub additional_record_count: u16,
}

impl DnsHeader {
    /// Every flag field fits the bits that the wire gives it: one bit for
    /// each flag, four for opcode and response code, three for the reserved
    /// field.
    pub open spec fn wf(&self) -> bool {
        &&& self.query_response_indicator <= 1
        &&& self.opcode <= 15
        &&& self.authoritative_answer <= 1
        &&& self.truncation <= 1
        &&& self.recursion_desired <= 1
        &&& self.recursion_available <= 1
        &&& self.reserved <= 7
        &&& self.response_code <= 15
    }

    /// The header with every field zero.
    pub open spec fn zero() -> DnsHeader {
        DnsHeader {
            packet_identifier: 0,
            query_response_indicator: 0,
            opcode: 0,
            authoritative_answer: 0,
            truncation: 0,
            recursion_desired: 0,
            recursion_available: 0,
            reserved: 0,
            response_code: 0,
            question_count: 0,
            answer_record_count: 0,
            authority_record_count: 0,
            additional_record_count: 0,
        }
    }

    /// The third byte of the wire form.
    pub open spec fn flags_high(&self) -> u8 {
        (self.query_response_indicator << 7) | (self.opcode << 3) | (self.authoritative_answer
            << 2) | (self.truncation << 1) | self.recursion_desired
    }

    /// The fourth byte of the wire form.
    pub open spec fn flags_low(&self) -> u8 {
        (self.recursion_available << 7) | (self.reserved << 4) | self.response_code
    }

    /// The wire form: identifier, the two flag bytes, then the counts of
    /// questions, answers, authority records and additional records, each
    /// integer big-endian.
    pub open spec fn wire(&self) -> Seq<u8> {
        be16(self.packet_identifier) + seq![self.flags_high(), self.flags_low()] + be16(
            self.question_count,
        ) + be16(self.answer_record_count) + be16(self.authority_record_count) + be16(
            self.additional_record_count,
        )
    }

    /// The header that twelve bytes stand for. Every bit pattern stands for
    /// one: nothing is rejected.
    pub open spec fn parse(bytes: Seq<u8>) -> DnsHeader {
        DnsHeader {
            packet_identifier: be16_at(bytes, 0),
            query_response_indicator: bytes[2] >> 7,
            opcode: (bytes[2] >> 3) & 0x0f,
            authoritative_answer: (bytes[2] >> 2) & 0x01,
            truncation: (bytes[2] >> 1) & 0x01,
            recursion_desired: bytes[2] & 0x01,
            recursion_available: bytes[3] >> 7,
            reserved: (bytes[3] >> 4) & 0x07,
            response_code: bytes[3] & 0x0f,
            question_count: be16_at(bytes, 4),
            answer_record_count: be16_at(bytes, 6),
            authority_record_count: be16_at(bytes, 8),
            additional_record_count: be16_at(bytes, 10),
        }
    }

    /// Tells whether every flag field fits its bits.
    pub fn is_wf(&self) -> (b: bool)
        ensures
            b == self.wf(),
    {
        self.query_response_indicator <= 1 && self.opcode <= 15 && self.authoritative_answer <= 1
            && self.truncation <= 1 && self.recursion_desired <= 1 && self.recursion_available
            <= 1 && self.reserved <= 7 && self.response_code <= 15
    }

    /// Packs the header into its 12 bytes, in network byte order.
    pub fn to_network_bytes(&self) -> (bytes: [u8; 12])
        ensures
            bytes@ == self.wire(),
    {
        let id = pair_of(self.packet_identifier);
        let qd = pair_of(self.question_count);
        let an = pair_of(self.answer_record_count);
        let ns = pair_of(self.authority_record_count);
        let ar = pair_of(self.additional_record_count);
        let high: u8 = (self.query_response_indicator << 7) | (self.opcode << 3) | (
        self.authoritative_answer << 2) | (self.truncation << 1) | self.recursion_desired;
        let low: u8 = (self.recursion_available << 7) | (self.reserved << 4) | self.response_code;
        let bytes: [u8; 12] = [
            id.0,
            id.1,
            high,
            low,
            qd.0,
            qd.1,
            an.0,
            an.1,
            ns.0,
            ns.1,
            ar.0,
            ar.1,
        ];
        assert(bytes@ =~= self.wire());
        bytes
    }

    /// Packs the header into its 12 bytes, byte by byte.
    pub fn to_bytes(&self) -> (bytes: [u8; 12])
        ensures
            bytes@ == self.wire(),
    {
        let id = self.packet_identifier;
        let qd = self.question_count;
        let an = self.answer_record_count;
        let ns = self.authority_record_count;
        let ar = self.additional_record_count;
        let mut bytes: [u8; 12] = [0;12];
        bytes[0] = (id >> 8) as u8;
        bytes[1] = (id & 0xff) as u8;
        bytes[2] = (self.query_response_indicator << 7) | (self.opcode << 3) | (
        self.authoritative_answer << 2) | (self.truncation << 1) | self.recursion_desired;
        bytes[3] = (self.recursion_available << 7) | (self.reserved << 4) | self.response_code;
        bytes[4] = (qd >> 8) as u8;
        bytes[5] = (qd & 0xff) as u8;
        bytes[6] = (an >> 8) as u8;
        bytes[7] = (an & 0xff) as u8;
        bytes[8] = (ns >> 8) as u8;
        bytes[9] = (ns & 0xff) as u8;
        bytes[10] = (ar >> 8) as u8;
        bytes[11] = (ar & 0xff) as u8;
        proof {
            lemma_shift_is_division(id);
            lemma_shift_is_division(qd);
            lemma_shift_is_division(an);
            lemma_shift_is_division(ns);
            lemma_shift_is_division(ar);
            assert(bytes@ =~= self.wire());
        }
        bytes
    }

    /// Unpacks a header from its 12 bytes, byte by byte.
    pub fn from_bytes(header: &[u8; 12]) -> (r: Self)
        ensures
            r == Self::parse(header@),
            r.wf(),
    {
        proof {
            lemma_pair_is_sum(header[0], header[1]);
            lemma_pair_is_sum(header[4], header[5]);
            lemma_pair_is_sum(header[6], header[7]);
            lemma_pair_is_sum(header[8], header[9]);
            lemma_pair_is_sum(header[10], header[11]);
            lemma_parse_is_wf(header@);
        }
        Self {
            packet_identifier: (header[0] as u16) << 8 | header[1] as u16,
            query_response_indicator: header[2] >> 7,
            opcode: (header[2] >> 3) & 0b00001111,
            authoritative_answer: (header[2] >> 2) & 0b00000001,
            truncation: (header[2] >> 1) & 0b00000001,
            recursion_desired: header[2] & 0b00000001,
            recursion_available: header[3] >> 7,
            reserved: (header[3] >> 4) & 0b00000111,
            response_code: header[3] & 0b00001111,
            question_count: (header[4] as u16) << 8 | header[5] as u16,
            answer_record_count: (header[6] as u16) << 8 | header[7] as u16,
            authority_record_count: (header[8] as u16) << 8 | header[9] as u16,
            additional_record_count: (header[10] as u16) << 8 | header[11] as u16,
        }
    }

    /// Unpacks a header from its 12 bytes. Every bit is taken as it stands.
    pub fn from_network_bytes(header: &[u8; 12]) -> (r: Self)
        ensures
            r == Self::parse(header@),
            r.wf(),
    {
        let r = Self {
            packet_identifier: of_pair(header[0], header[1]),
            query_response_indicator: header[2] >> 7,
            opcode: (header[2] >> 3) & 0b00001111,
            authoritative_answer: (header[2] >> 2) & 0b00000001,
            truncation: (header[2] >> 1) & 0b00000001,
            recursion_desired: header[2] & 0b00000001,
            recursion_available: header[3] >> 7,
            reserved: (header[3] >> 4) & 0b00000111,
            response_code: header[3] & 0b00001111,
            question_count: of_pair(header[4], header[5]),
            answer_record_count: of_pair(header[6], header[7]),
            authority_record_count: of_pair(header[8], header[9]),
            additional_record_count: of_pair(header[10], header[11]),
        };
        proof {
            lemma_parse_is_wf(header@);
        }
        r
    }
}

impl Default for DnsHeader {
    /// The header with every field zero.
    fn default() -> (r: Self)
        ensures
            r == DnsHeader::zero(),
    {
        DnsHeader {
            packet_identifier: 0,
            query_response_indicator: 0,
            opcode: 0,
            authoritative_answer: 0,
            truncation: 0,
            recursion_desired: 0,
            recursion_available: 0,
            reserved: 0,
            response_code: 0,
            question_count: 0,
            answer_record_count: 0,
            authority_record_count: 0,
            additional_record_count: 0,
        }
    }
}

proof fn lemma_pair_is_sum(hi: u8, lo: u8)
    ensures
        ((hi as u16) << 8 | (lo as u16)) == hi * 0x100 + lo,
{
    assert(((hi as u16) << 8 | (lo as u16)) == hi * 0x100 + lo) by (bit_vector);
}

proof fn lemma_shift_is_division(x: u16)
    ensures
        x >> 8 == x / 0x100,
        x & 0xff == x % 0x100,
{
    assert(x >> 8 == x / 0x100 && x & 0xff == x % 0x100) by (bit_vector);
}

/// The high and the low byte of `x`.
fn pair_of(x: u16) -> (p: (u8, u8))
    ensures
        seq![p.0, p.1] == be16(x),
{
    proof {
        lemma_shift_is_division(x);
    }
    ((x >> 8) as u8, (x & 0xff) as u8)
}

/// The integer whose high byte is `hi` and whose low byte is `lo`.
fn of_pair(hi: u8, lo: u8) -> (x: u16)
    ensures
        x == crate::dns_protocol::wire::from_be16(hi, lo),
{
    proof {
        lemma_pair_is_sum(hi, lo);
    }
    (hi as u16) << 8 | (lo as u16)
}

/// Whatever twelve bytes hold, the header they stand for is well formed.
pub proof fn lemma_parse_is_wf(bytes: Seq<u8>)
    ensures
        DnsHeader::parse(bytes).wf(),
{
    let a = bytes[2];
    let b = bytes[3];
    assert(a >> 7 <= 1 && (a >> 3) & 0x0f <= 15 && (a >> 2) & 0x01 <= 1 && (a >> 1) & 0x01 <= 1
        && a & 0x01 <= 1) by (bit_vector);
    assert(b >> 7 <= 1 && (b >> 4) & 0x07 <= 7 && b & 0x0f <= 15) by (bit_vector);
}

/// Unpacking what was packed gives the header again, for every well-formed
/// header.
pub proof fn lemma_header_round_trip(h: DnsHeader)
    requires
        h.wf(),
    ensures
        h.wire().len() == 12,
        DnsHeader::parse(h.wire()) == h,
{
    let qr = h.query_response_indicator;
    let op = h.opcode;
    let aa = h.authoritative_answer;
    let tc = h.truncation;
    let rd = h.recursion_desired;
    let ra = h.recursion_available;
    let z = h.reserved;
    let rc = h.response_code;
    let a: u8 = (qr << 7) | (op << 3) | (aa << 2) | (tc << 1) | rd;
    let b: u8 = (ra << 7) | (z << 4) | rc;
    assert(a >> 7 == qr && (a >> 3) & 0x0f == op && (a >> 2) & 0x01 == aa && (a >> 1) & 0x01 == tc
        && a & 0x01 == rd) by (bit_vector)
        requires
            a == (qr << 7) | (op << 3) | (aa << 2) | (tc << 1) | rd,
            qr <= 1,
            op <= 15,
            aa <= 1,
            tc <= 1,
            rd <= 1,
    ;
    assert(b >> 7 == ra && (b >> 4) & 0x07 == z && b & 0x0f == rc) by (bit_vector)
        requires
            b == (ra << 7) | (z << 4) | rc,
            ra <= 1,
            z <= 7,
            rc <= 15,
    ;
    let w = h.wire();
    assert(w[2] == a && w[3] == b);
}

/// Packing what was unpacked gives the twelve bytes again.
pub proof fn lemma_header_wire_of_parse(bytes: Seq<u8>)
    requires
        bytes.len() == 12,
    ensures
        DnsHeader::parse(bytes).wire() == bytes,
{
    let a = bytes[2];
    let b = bytes[3];
    assert((((a >> 7) << 7) | (((a >> 3) & 0x0f) << 3) | (((a >> 2) & 0x01) << 2) | (((a >> 1)
        & 0x01) << 1) | (a & 0x01)) == a) by (bit_vector);
    assert((((b >> 7) << 7) | (((b >> 4) & 0x07) << 4) | (b & 0x0f)) == b) by (bit_vector);
    assert(DnsHeader::parse(bytes).wire() =~= bytes);
}

} // verus!
