//! Whole messages: a header followed by a body of questions and records.

use crate::dns_protocol::dns_header::DnsHeader;
use crate::dns_protocol::dns_header::DNS_HEADER_SIZE;
use crate::dns_protocol::dns_name::encode_name;
use crate::dns_protocol::dns_question::decode_all;
use crate::dns_protocol::dns_question::question_wire;
use crate::dns_protocol::dns_question::questions_view;
use crate::dns_protocol::dns_question::questions_wf;
use crate::dns_protocol::dns_question::spec_decode_questions;
use crate::dns_protocol::dns_question::DnsQuestion;
use crate::dns_protocol::dns_question::QuestionView;
use crate::dns_protocol::dns_resource_record::record_wire;
use crate::dns_protocol::dns_resource_record::records_view;
use crate::dns_protocol::dns_resource_record::records_wf;
use crate::dns_protocol::dns_resource_record::spec_decode_record;
use crate::dns_protocol::dns_resource_record::RecordView;
use crate::dns_protocol::dns_resource_record::ResourceRecord;
use crate::dns_protocol::wire::push_be16;
use crate::dns_protocol::wire::DecodeError;
use vstd::prelude::*;
use vstd::slice::slice_subrange;

verus! {

/// The opcode of a standard query.
pub const OPCODE_QUERY: u8 = 0;

/// Response code: no error.
pub const RCODE_NO_ERROR: u8 = 0;

/// Response code: the query could not be read.
pub const RCODE_FORMAT_ERROR: u8 = 1;

/// Response code: the query could not be answered.
pub const RCODE_SERVER_FAILURE: u8 = 2;

/// Response code: this kind of query is not supported.
pub const RCODE_NOT_IMPLEMENTED: u8 = 4;

/// The type that every echoed question is given: a host address.
pub const TYPE_A: u16 = 1;

/// The class that every echoed question is given: the Internet.
pub const CLASS_IN: u16 = 1;

/// The header of a message of at least 12 bytes.
pub open spec fn message_header(message: Seq<u8>) -> DnsHeader {
    DnsHeader::parse(message.subrange(0, DNS_HEADER_SIZE as int))
}

/// What follows the header in a message of at least 12 bytes.
pub open spec fn message_body(message: Seq<u8>) -> Seq<u8> {
    message.subrange(DNS_HEADER_SIZE as int, message.len() as int)
}

/// The header of a client's query and the questions that its body starts
/// with, as many as the header counts.
pub open spec fn spec_parse_query(packet: Seq<u8>) -> Result<
    (DnsHeader, Seq<QuestionView>),
    DecodeError,
> {
    if packet.len() < DNS_HEADER_SIZE {
        Err(DecodeError::Truncated)
    } else {
        match spec_decode_questions(
            message_body(packet),
            0,
            message_header(packet).question_count as nat,
        ) {
            Ok((questions, _)) => Ok((message_header(packet), questions)),
            Err(e) => Err(e),
        }
    }
}

/// The header of the response to a query with header `query`: the same
/// header, marked as a response, with response code 0 for a standard query
/// and 4 for any other, as many answers as questions, and no authority or
/// additional records, since the response carries none.
pub open spec fn spec_response_header(query: DnsHeader) -> DnsHeader {
    DnsHeader {
        query_response_indicator: 1,
        response_code: if query.opcode == OPCODE_QUERY {
            RCODE_NO_ERROR
        } else {
            RCODE_NOT_IMPLEMENTED
        },
        answer_record_count: query.question_count,
        authority_record_count: 0,
        additional_record_count: 0,
        ..query
    }
}

/// The header of a reply that carries nothing but a response code: the
/// identifier, opcode and recursion-desired flag of the query, every count
/// zero.
pub open spec fn spec_error_header(query: DnsHeader, response_code: u8) -> DnsHeader {
    DnsHeader {
        packet_identifier: query.packet_identifier,
        query_response_indicator: 1,
        opcode: query.opcode,
        recursion_desired: query.recursion_desired,
        response_code,
        ..DnsHeader::zero()
    }
}

/// The header of the query that is sent upstream under identifier `id`: one
/// question, every other field zero.
pub open spec fn spec_upstream_header(id: u16) -> DnsHeader {
    DnsHeader { packet_identifier: id, question_count: 1, ..DnsHeader::zero() }
}

/// The query that asks the upstream resolver question `q` under identifier
/// `id`.
pub open spec fn spec_upstream_query(id: u16, q: QuestionView) -> Seq<u8> {
    spec_upstream_header(id).wire() + question_wire(q)
}

/// The identifier of an upstream reply and the one record that stands just
/// behind its questions.
pub open spec fn spec_upstream_answer(reply: Seq<u8>) -> Result<(u16, RecordView), DecodeError> {
    if reply.len() < DNS_HEADER_SIZE {
        Err(DecodeError::Truncated)
    } else {
        match spec_decode_questions(
            message_body(reply),
            0,
            message_header(reply).question_count as nat,
        ) {
            Err(e) => Err(e),
            Ok((_, next)) => match spec_decode_record(message_body(reply), next) {
                Err(e) => Err(e),
                Ok((record, _)) => Ok((message_header(reply).packet_identifier, record)),
            },
        }
    }
}

/// A question as the response echoes it: the same name, with type and class
/// forced to 1.
pub open spec fn echoed(q: QuestionView) -> QuestionView {
    QuestionView { name: q.name, question_type: TYPE_A, class: CLASS_IN }
}

/// The wire forms of the echoes of `questions`, one behind the other.
pub open spec fn echoed_wire(questions: Seq<QuestionView>) -> Seq<u8>
    decreases questions.len(),
{
    if questions.len() == 0 {
        Seq::empty()
    } else {
        echoed_wire(questions.drop_last()) + question_wire(echoed(questions.last()))
    }
}

/// The wire forms of `records`, one behind the other.
pub open spec fn records_wire(records: Seq<RecordView>) -> Seq<u8>
    decreases records.len(),
{
    if records.len() == 0 {
        Seq::empty()
    } else {
        records_wire(records.drop_last()) + record_wire(records.last())
    }
}

/// A response: the header, the questions echoed, then the answers.
pub open spec fn spec_response(
    header: DnsHeader,
    questions: Seq<QuestionView>,
    answers: Seq<RecordView>,
) -> Seq<u8> {
    header.wire() + echoed_wire(questions) + records_wire(answers)
}

/// Parts a message into its header and its body. Gives nothing where the
/// message is too short to hold a header.
pub fn split_message(message: &[u8]) -> (r: Option<(DnsHeader, &[u8])>)
    ensures
        r is None <==> message@.len() < DNS_HEADER_SIZE,
        r matches Some((header, body)) ==> {
            &&& header == message_header(message@)
            &&& header.wf()
            &&& body@ == message_body(message@)
        },
{
    if message.len() < DNS_HEADER_SIZE {
        return None;
    }
    let head: [u8; 12] = [
        message[0],
        message[1],
        message[2],
        message[3],
        message[4],
        message[5],
        message[6],
        message[7],
        message[8],
        message[9],
        message[10],
        message[11],
    ];
    assert(head@ =~= message@.subrange(0, DNS_HEADER_SIZE as int));
    let header = DnsHeader::from_network_bytes(&head);
    let body = slice_subrange(message, DNS_HEADER_SIZE, message.len());
    Some((header, body))
}

/// Reads the header of a client's query and the questions it counts.
pub fn parse_query(packet: &[u8]) -> (r: Result<(DnsHeader, Vec<DnsQuestion>), DecodeError>)
    ensures
        match r {
            Ok((header, questions)) => {
                &&& spec_parse_query(packet@) == Ok::<_, DecodeError>(
                    (header, questions_view(questions@)),
                )
                &&& header.wf()
                &&& questions_wf(questions@)
                &&& questions@.len() == header.question_count
            },
            Err(e) => spec_parse_query(packet@) == Err::<(DnsHeader, Seq<QuestionView>), _>(e),
        },
        packet@.len() < DNS_HEADER_SIZE ==> r == Err::<(DnsHeader, Vec<DnsQuestion>), _>(
            DecodeError::Truncated,
        ),
{
    match split_message(packet) {
        None => Err(DecodeError::Truncated),
        Some((header, body)) => match decode_all(body, 0, header.question_count) {
            Ok((questions, _)) => Ok((header, questions)),
            Err(e) => Err(e),
        },
    }
}

/// Makes the header of the response to a query.
pub fn response_header(query: &DnsHeader) -> (r: DnsHeader)
    ensures
        r == spec_response_header(*query),
        query.wf() ==> r.wf(),
{
    DnsHeader {
        packet_identifier: query.packet_identifier,
        query_response_indicator: 1,
        opcode: query.opcode,
        authoritative_answer: query.authoritative_answer,
        truncation: query.truncation,
        recursion_desired: query.recursion_desired,
        recursion_available: query.recursion_available,
        reserved: query.reserved,
        response_code: if query.opcode == OPCODE_QUERY {
            RCODE_NO_ERROR
        } else {
            RCODE_NOT_IMPLEMENTED
        },
        question_count: query.question_count,
        answer_record_count: query.question_count,
        authority_record_count: 0,
        additional_record_count: 0,
    }
}

/// Makes a reply of a header alone that carries `response_code`.
fn error_reply(query: &DnsHeader, response_code: u8) -> (bytes: [u8; 12])
    ensures
        bytes@ == spec_error_header(*query, response_code).wire(),
{
    let header = DnsHeader {
        packet_identifier: query.packet_identifier,
        query_response_indicator: 1,
        opcode: query.opcode,
        authoritative_answer: 0,
        truncation: 0,
        recursion_desired: query.recursion_desired,
        recursion_available: 0,
        reserved: 0,
        response_code,
        question_count: 0,
        answer_record_count: 0,
        authority_record_count: 0,
        additional_record_count: 0,
    };
    header.to_network_bytes()
}

/// The reply to a query whose questions cannot be read: a header alone, with
/// the format-error response code.
pub fn format_error_reply(query: &DnsHeader) -> (bytes: [u8; 12])
    ensures
        bytes@ == spec_error_header(*query, RCODE_FORMAT_ERROR).wire(),
{
    error_reply(query, RCODE_FORMAT_ERROR)
}

/// The reply to a query that the upstream resolver did not answer soundly: a
/// header alone, with the server-failure response code.
pub fn server_failure_reply(query: &DnsHeader) -> (bytes: [u8; 12])
    ensures
        bytes@ == spec_error_header(*query, RCODE_SERVER_FAILURE).wire(),
{
    error_reply(query, RCODE_SERVER_FAILURE)
}

/// Appends the twelve bytes of `header` to `out`.
pub fn append_header(out: &mut Vec<u8>, header: &DnsHeader)
    ensures
        final(out)@ == old(out)@ + header.wire(),
{
    let bytes = header.to_network_bytes();
    let ghost before = out@;
    out.extend_from_slice(bytes.as_slice());
    assert(out@ == before + header.wire());
}

/// Appends the echo of `question` to `out`: its name, then type and class 1.
pub fn append_echo(out: &mut Vec<u8>, question: &DnsQuestion)
    requires
        question.wf(),
    ensures
        final(out)@ == old(out)@ + question_wire(echoed(question@)),
{
    let mut name = encode_name(&question.domain_name);
    let ghost before = out@;
    out.append(&mut name);
    push_be16(out, TYPE_A);
    push_be16(out, CLASS_IN);
    assert(out@ == before + question_wire(echoed(question@)));
}

/// Appends the wire form of `record` to `out`.
pub fn append_record(out: &mut Vec<u8>, record: &ResourceRecord)
    requires
        record.wf(),
    ensures
        final(out)@ == old(out)@ + record_wire(record@),
{
    let mut bytes = record.to_bytes();
    out.append(&mut bytes);
}

/// Appends the echoes of `questions` to `out`, in order.
pub fn append_echoes(out: &mut Vec<u8>, questions: &Vec<DnsQuestion>)
    requires
        questions_wf(questions@),
    ensures
        final(out)@ == old(out)@ + echoed_wire(questions_view(questions@)),
{
    let ghost all = questions_view(questions@);
    let mut i: usize = 0;
    assert(all.subrange(0, 0) == Seq::<QuestionView>::empty());
    assert(out@ == old(out)@ + echoed_wire(all.subrange(0, 0)));
    while i < questions.len()
        invariant
            i <= questions.len(),
            questions_wf(questions@),
            all == questions_view(questions@),
            out@ == old(out)@ + echoed_wire(all.subrange(0, i as int)),
        decreases questions.len() - i,
    {
        proof {
            let grown = all.subrange(0, i + 1);
            assert(grown.drop_last() == all.subrange(0, i as int));
            assert(grown.last() == questions@[i as int]@);
        }
        append_echo(out, &questions[i]);
        i += 1;
        assert(out@ == old(out)@ + echoed_wire(all.subrange(0, i as int)));
    }
    assert(all.subrange(0, i as int) == all);
}

/// Writes the query that asks the upstream resolver `question` under
/// identifier `id`.
pub fn upstream_query(id: u16, question: &DnsQuestion) -> (bytes: Vec<u8>)
    requires
        question.wf(),
    ensures
        bytes@ == spec_upstream_query(id, question@),
{
    let header = DnsHeader {
        packet_identifier: id,
        query_response_indicator: 0,
        opcode: 0,
        authoritative_answer: 0,
        truncation: 0,
        recursion_desired: 0,
        recursion_available: 0,
        reserved: 0,
        response_code: 0,
        question_count: 1,
        answer_record_count: 0,
        authority_record_count: 0,
        additional_record_count: 0,
    };
    let mut bytes: Vec<u8> = Vec::new();
    append_header(&mut bytes, &header);
    let mut question_bytes = question.to_bytes();
    bytes.append(&mut question_bytes);
    assert(bytes@ == spec_upstream_query(id, question@));
    bytes
}

/// Reads an upstream reply: its header, the questions it counts, and the
/// one record that stands just behind the last of them. Returns the reply's
/// identifier and that record.
pub fn decode_upstream_reply(reply: &[u8]) -> (r: Result<(u16, ResourceRecord), DecodeError>)
    ensures
        match r {
            Ok((id, record)) => {
                &&& spec_upstream_answer(reply@) == Ok::<_, DecodeError>((id, record@))
                &&& record.wf()
            },
            Err(e) => spec_upstream_answer(reply@) == Err::<(u16, RecordView), _>(e),
        },
{
    match split_message(reply) {
        None => Err(DecodeError::Truncated),
        Some((header, body)) => match decode_all(body, 0, header.question_count) {
            Err(e) => Err(e),
            Ok((_, next)) => match ResourceRecord::decode(body, next) {
                Err(e) => Err(e),
                Ok((record, _)) => Ok((header.packet_identifier, record)),
            },
        },
    }
}

/// Writes a response: `header`, the questions echoed with type and class 1,
/// then the answers, in order.
pub fn build_response(
    header: &DnsHeader,
    questions: &Vec<DnsQuestion>,
    answers: &Vec<ResourceRecord>,
) -> (bytes: Vec<u8>)
    requires
        questions_wf(questions@),
        records_wf(answers@),
    ensures
        bytes@ == spec_response(*header, questions_view(questions@), records_view(answers@)),
{
    let mut bytes: Vec<u8> = Vec::new();
    append_header(&mut bytes, header);
    append_echoes(&mut bytes, questions);
    let ghost head = bytes@;
    let ghost all = records_view(answers@);
    let mut i: usize = 0;
    assert(all.subrange(0, 0) == Seq::<RecordView>::empty());
    assert(bytes@ == head + records_wire(all.subrange(0, 0)));
    while i < answers.len()
        invariant
            i <= answers.len(),
            records_wf(answers@),
            all == records_view(answers@),
            bytes@ == head + records_wire(all.subrange(0, i as int)),
        decreases answers.len() - i,
    {
        proof {
            let grown = all.subrange(0, i + 1);
            assert(grown.drop_last() == all.subrange(0, i as int));
            assert(grown.last() == answers@[i as int]@);
        }
        append_record(&mut bytes, &answers[i]);
        i += 1;
        assert(bytes@ == head + records_wire(all.subrange(0, i as int)));
    }
    assert(all.subrange(0, i as int) == all);
    bytes
}

} // verus!
