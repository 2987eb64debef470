//! Resource records: a domain name, type, class, time to live and opaque data.

use crate::dns_protocol::dns_name::decode_name;
use crate::dns_protocol::dns_name::encode_name;
use crate::dns_protocol::dns_name::labels_are_wf;
use crate::dns_protocol::dns_name::labels_wf;
use crate::dns_protocol::dns_name::lemma_name_round_trip;
use crate::dns_protocol::dns_name::name_view;
use crate::dns_protocol::dns_name::name_wire;
use crate::dns_protocol::dns_name::spec_decode_name;
use crate::dns_protocol::dns_name::valid_name;
use crate::dns_protocol::dns_name::Label;
use crate::dns_protocol::wire::be16;
use crate::dns_protocol::wire::be16_at;
use crate::dns_protocol::wire::be32;
use crate::dns_protocol::wire::be32_at;
use crate::dns_protocol::wire::push_be16;
use crate::dns_protocol::wire::push_be32;
use crate::dns_protocol::wire::read_be16;
use crate::dns_protocol::wire::read_be32;
use crate::dns_protocol::wire::DecodeError;
use vstd::prelude::*;
use vstd::slice::slice_subrange;
use vstd::slice::slice_to_vec;

verus! {

/// The most bytes of data that a record can carry: its length is written in
/// 16 bits.
pub const MAX_DATA_LENGTH: usize = 0xffff;

/// One answer: the name it is about, its type and class, how long it may be
/// kept, and its data, which is not interpreted.
#[derive(Debug, Clone, PartialEq, Eq)]
pub struct ResourceRecord {
    pub domain_name: Vec<Label>,
    pub answer_type: u16,
    pub class: u16,
    pub ttl: u32,
    pub data_length: u16,
    pub data: Vec<u8>,
}

/// What a record says. The length of the data is that of `data`.
pub struct RecordView {
    pub name: Seq<Seq<u8>>,
    pub answer_type: u16,
    pub class: u16,
    pub ttl: u32,
    pub data: Seq<u8>,
}

impl View for ResourceRecord {
    type V = RecordView;

    open spec fn view(&self) -> RecordView {
        RecordView {
            name: name_view(self.domain_name@),
            answer_type: self.answer_type,
            class: self.class,
            ttl: self.ttl,
            data: self.data@,
        }
    }
}

/// What a sequence of records says, one by one.
pub open spec fn records_view(records: Seq<ResourceRecord>) -> Seq<RecordView> {
    Seq::new(records.len(), |i: int| records[i]@)
}

/// Every record of the sequence is well formed.
pub open spec fn records_wf(records: Seq<ResourceRecord>) -> bool {
    forall|i: int| 0 <= i < records.len() ==> (#[trigger] records[i]).wf()
}

/// The name is valid and the data short enough for its length to be written.
pub open spec fn valid_record(r: RecordView) -> bool {
    valid_name(r.name) && r.data.len() <= MAX_DATA_LENGTH
}

/// The wire form of a record: its name, then type, class, time to live and
/// the length of the data, each big-endian, then the data.
pub open spec fn record_wire(r: RecordView) -> Seq<u8> {
    name_wire(r.name) + be16(r.answer_type) + be16(r.class) + be32(r.ttl) + be16(
        r.data.len() as u16,
    ) + r.data
}

/// The record that starts at offset `start` of `body`, and the offset just
/// behind it. The stated length of the data is believed only as far as the
/// body reaches.
pub open spec fn spec_decode_record(body: Seq<u8>, start: int) -> Result<
    (RecordView, int),
    DecodeError,
> {
    match spec_decode_name(body, start) {
        Err(e) => Err(e),
        Ok((name, end)) => if end + 10 > body.len() {
            Err(DecodeError::Truncated)
        } else if end + 10 + be16_at(body, end + 8) > body.len() {
            Err(DecodeError::Truncated)
        } else {
            Ok(
                (
                    RecordView {
                        name,
                        answer_type: be16_at(body, end),
                        class: be16_at(body, end + 2),
                        ttl: be32_at(body, end + 4),
                        data: body.subrange(end + 10, end + 10 + be16_at(body, end + 8)),
                    },
                    end + 10 + be16_at(body, end + 8),
                ),
            )
        },
    }
}

impl ResourceRecord {
    /// Every label of the name is well formed, and the stated length is that
    /// of the data.
    pub open spec fn wf(&self) -> bool {
        &&& labels_wf(self.domain_name@)
        &&& self.data@.len() == self.data_length
    }

    /// Tells whether the record is well formed.
    pub fn is_wf(&self) -> (b: bool)
        ensures
            b == self.wf(),
    {
        labels_are_wf(&self.domain_name) && self.data.len() == self.data_length as usize
    }

    /// Makes a record, with the length of `data` as its stated length.
    pub fn new(domain_name: Vec<Label>, answer_type: u16, class: u16, ttl: u32, data: Vec<u8>) -> (r:
        Self)
        requires
            data@.len() <= MAX_DATA_LENGTH,
        ensures
            r.domain_name == domain_name,
            r.answer_type == answer_type,
            r.class == class,
            r.ttl == ttl,
            r.data == data,
            r.data_length == data@.len(),
            labels_wf(domain_name@) ==> r.wf(),
    {
        Self { domain_name, answer_type, class, ttl, data_length: data.len() as u16, data }
    }

    /// Writes the record in wire form.
    pub fn to_bytes(&self) -> (bytes: Vec<u8>)
        requires
            self.wf(),
        ensures
            bytes@ == record_wire(self@),
    {
        let mut bytes = encode_name(&self.domain_name);
        push_be16(&mut bytes, self.answer_type);
        push_be16(&mut bytes, self.class);
        push_be32(&mut bytes, self.ttl);
        push_be16(&mut bytes, self.data_length);
        let ghost head = bytes@;
        bytes.extend_from_slice(self.data.as_slice());
        assert(bytes@ == head + self.data@);
        bytes
    }

    /// Reads the record that starts at offset `offset` of `body`, and returns
    /// it with the offset just behind it.
    pub fn decode(body: &[u8], offset: usize) -> (r: Result<(ResourceRecord, usize), DecodeError>)
        ensures
            match r {
                Ok((record, next)) => {
                    &&& spec_decode_record(body@, offset as int) == Ok::<_, DecodeError>(
                        (record@, next as int),
                    )
                    &&& record.wf()
                    &&& offset < next <= body@.len()
                },
                Err(e) => spec_decode_record(body@, offset as int) == Err::<(RecordView, int), _>(
                    e,
                ),
            },
    {
        match decode_name(body, offset) {
            Err(e) => Err(e),
            Ok((domain_name, end)) => {
                if body.len() - end < 10 {
                    return Err(DecodeError::Truncated);
                }
                let answer_type = read_be16(body, end);
                let class = read_be16(body, end + 2);
                let ttl = read_be32(body, end + 4);
                let data_length = read_be16(body, end + 8);
                let start = end + 10;
                if body.len() - start < data_length as usize {
                    return Err(DecodeError::Truncated);
                }
                let stop = start + data_length as usize;
                let data = slice_to_vec(slice_subrange(body, start, stop));
                Ok((ResourceRecord { domain_name, answer_type, class, ttl, data_length, data }, stop))
            },
        }
    }

    /// Reads one record from the start of `buf`, which holds a message body
    /// or the part of it that the record's name can point into. Gives
    /// nothing where the record cannot be decoded.
    pub fn from_bytes(buf: &[u8]) -> (r: Option<Self>)
        ensures
            match r {
                Some(record) => {
                    &&& spec_decode_record(buf@, 0) matches Ok((decoded, _))
                    &&& decoded == record@
                    &&& record.wf()
                },
                None => spec_decode_record(buf@, 0) is Err,
            },
    {
        match Self::decode(buf, 0) {
            Ok((record, _)) => Some(record),
            Err(_) => None,
        }
    }
}

/// A valid record is read back from its wire form, wherever in a body the
/// wire form stands and whatever follows it.
pub proof fn lemma_record_round_trip(before: Seq<u8>, r: RecordView, after: Seq<u8>)
    requires
        valid_record(r),
    ensures
        spec_decode_record(before + record_wire(r) + after, before.len() as int) == Ok::<
            _,
            DecodeError,
        >((r, (before.len() + record_wire(r).len()) as int)),
{
    let body = before + record_wire(r) + after;
    let fixed = be16(r.answer_type) + be16(r.class) + be32(r.ttl) + be16(r.data.len() as u16);
    let tail = fixed + r.data + after;
    assert(body == before + name_wire(r.name) + tail);
    lemma_name_round_trip(before, r.name, tail, body.len());
    let end = (before.len() + name_wire(r.name).len()) as int;
    assert(be16_at(body, end) == r.answer_type) by {
        assert(body[end] == tail[0] && body[end + 1] == tail[1]);
    }
    assert(be16_at(body, end + 2) == r.class) by {
        assert(body[end + 2] == tail[2] && body[end + 3] == tail[3]);
    }
    assert(be32_at(body, end + 4) == r.ttl) by {
        assert(body[end + 4] == tail[4] && body[end + 5] == tail[5] && body[end + 6] == tail[6]
            && body[end + 7] == tail[7]);
    }
    assert(be16_at(body, end + 8) == r.data.len()) by {
        assert(body[end + 8] == tail[8] && body[end + 9] == tail[9]);
    }
    assert(body.subrange(end + 10, end + 10 + r.data.len()) =~= r.data);
}

/// A valid record is read back from its own wire form.
pub proof fn lemma_decode_record_of_wire(r: RecordView)
    requires
        valid_record(r),
    ensures
        spec_decode_record(record_wire(r), 0) == Ok::<_, DecodeError>(
            (r, record_wire(r).len() as int),
        ),
{
    let wire = record_wire(r);
    assert(Seq::<u8>::empty() + wire + Seq::<u8>::empty() == wire);
    lemma_record_round_trip(Seq::empty(), r, Seq::empty());
}

} // verus!
