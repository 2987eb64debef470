use codecrafters_dns_server::dns_protocol::dns_header::DnsHeader;
use codecrafters_dns_server::dns_protocol::dns_name::Label;
use codecrafters_dns_server::dns_protocol::dns_question::DnsQuestion;
use codecrafters_dns_server::dns_protocol::dns_resource_record::ResourceRecord;
use codecrafters_dns_server::dns_protocol::wire::DecodeError;
use codecrafters_dns_server::dns_server::forwarder::receive_query;
use codecrafters_dns_server::dns_server::forwarder::ForwardError;
use codecrafters_dns_server::dns_server::forwarder::ForwardState;
use codecrafters_dns_server::dns_server::forwarder::Forwarder;
use codecrafters_dns_server::dns_server::forwarder::Intake;
use codecrafters_dns_server::dns_server::message::decode_upstream_reply;
use codecrafters_dns_server::dns_server::message::parse_query;
use codecrafters_dns_server::dns_server::message::split_message;

fn label(text: &str) -> Label {
    Label::new(text.as_bytes().to_vec()).unwrap()
}

fn question(name: &[&str], question_type: u16, class: u16) -> DnsQuestion {
    DnsQuestion {
        domain_name: name.iter().map(|l| label(l)).collect(),
        question_type,
        class,
    }
}

fn client_packet(id: u16, questions: &[DnsQuestion]) -> Vec<u8> {
    let mut header = DnsHeader::default();
    header.packet_identifier = id;
    header.recursion_desired = 1;
    header.question_count = questions.len() as u16;
    let mut packet = header.to_network_bytes().to_vec();
    for q in questions {
        packet.extend(q.to_bytes());
    }
    packet
}

/// A resolver that answers every query with the question it was asked and
/// one address record whose data is `data`.
fn stub_resolver(query: &[u8], data: Vec<u8>) -> Vec<u8> {
    let (mut header, questions) = parse_query(query).unwrap();
    header.query_response_indicator = 1;
    header.answer_record_count = 1;
    let record = ResourceRecord::new(questions[0].domain_name.clone(), 1, 1, 60, data);
    let mut reply = header.to_network_bytes().to_vec();
    reply.extend(questions[0].to_bytes());
    reply.extend(record.to_bytes());
    reply
}

fn forward(packet: &[u8]) -> Forwarder {
    match receive_query(packet) {
        Intake::Forward(forwarder) => forwarder,
        _ => panic!("the packet should be forwarded"),
    }
}

#[test]
fn end_to_end_one_question() {
    let asked = question(&["example", "com"], 1, 1);
    let packet = client_packet(0x1234, &[asked.clone()]);
    let mut forwarder = forward(&packet);
    assert_eq!(forwarder.state(), ForwardState::Idle);
    assert_eq!(forwarder.response(), None);

    let query = forwarder.next_query().unwrap();
    assert_eq!(forwarder.state(), ForwardState::AwaitingUpstreamReply);
    let reply = stub_resolver(&query, vec![8, 8, 8, 8]);
    assert_eq!(forwarder.accept_reply(&reply), Ok(0));
    assert_eq!(forwarder.state(), ForwardState::Done);
    assert_eq!(forwarder.next_query(), None);

    let response = forwarder.response().unwrap();
    let (header, body) = split_message(&response).unwrap();
    assert_eq!(header.packet_identifier, 0x1234);
    assert_eq!(header.query_response_indicator, 1);
    assert_eq!(header.opcode, 0);
    assert_eq!(header.recursion_desired, 1);
    assert_eq!(header.response_code, 0);
    assert_eq!(header.question_count, 1);
    assert_eq!(header.answer_record_count, 1);
    let (question, next) = DnsQuestion::decode(body, 0).unwrap();
    assert_eq!(question, asked);
    assert_eq!(question.question_type, 1);
    assert_eq!(question.class, 1);
    let (answer, end) = ResourceRecord::decode(body, next).unwrap();
    assert_eq!(answer.domain_name, asked.domain_name);
    assert_eq!(answer.answer_type, 1);
    assert_eq!(answer.class, 1);
    assert_eq!(answer.ttl, 60);
    assert_eq!(answer.data, vec![8, 8, 8, 8]);
    assert_eq!(end, body.len());
}

#[test]
fn echoed_question_has_type_and_class_forced_to_one() {
    let asked = question(&["example", "com"], 28, 3);
    let mut forwarder = forward(&client_packet(1, &[asked.clone()]));
    let query = forwarder.next_query().unwrap();
    // The upstream query carries the question as it was asked.
    assert_eq!(parse_query(&query).unwrap().1, vec![asked.clone()]);
    forwarder.accept_reply(&stub_resolver(&query, vec![1])).unwrap();
    let response = forwarder.response().unwrap();
    let (_, questions) = parse_query(&response).unwrap();
    assert_eq!(questions, vec![question(&["example", "com"], 1, 1)]);
}

#[test]
fn upstream_queries_are_numbered_by_question() {
    let asked = vec![question(&["a"], 1, 1), question(&["b"], 1, 1), question(&["c"], 1, 1)];
    let mut forwarder = forward(&client_packet(0x7777, &asked));
    for (i, q) in asked.iter().enumerate() {
        let query = forwarder.next_query().unwrap();
        let (header, questions) = parse_query(&query).unwrap();
        assert_eq!(header.packet_identifier, i as u16);
        assert_eq!(header.question_count, 1);
        assert_eq!(header.query_response_indicator, 0);
        assert_eq!(header.recursion_desired, 0);
        assert_eq!(questions, vec![q.clone()]);
    }
    assert_eq!(forwarder.next_query(), None);
}

#[test]
fn one_query_at_a_time_walks_through_the_states() {
    let asked = vec![question(&["a"], 1, 1), question(&["b"], 1, 1)];
    let mut forwarder = forward(&client_packet(5, &asked));
    assert_eq!(forwarder.state(), ForwardState::Idle);
    let query = forwarder.next_query().unwrap();
    assert_eq!(forwarder.state(), ForwardState::AwaitingUpstreamReply);
    assert_eq!(forwarder.accept_reply(&stub_resolver(&query, vec![0])), Ok(0));
    assert_eq!(forwarder.state(), ForwardState::Accumulating);
    assert_eq!(forwarder.response(), None);
    let query = forwarder.next_query().unwrap();
    assert_eq!(forwarder.state(), ForwardState::AwaitingUpstreamReply);
    assert_eq!(forwarder.accept_reply(&stub_resolver(&query, vec![1])), Ok(1));
    assert_eq!(forwarder.state(), ForwardState::Done);
    assert!(forwarder.response().is_some());
}

fn answers_in_response(response: &[u8], count: usize) -> Vec<ResourceRecord> {
    let (header, body) = split_message(response).unwrap();
    assert_eq!(header.answer_record_count as usize, count);
    let mut offset = 0;
    for _ in 0..header.question_count {
        offset = DnsQuestion::decode(body, offset).unwrap().1;
    }
    let mut answers = Vec::new();
    for _ in 0..count {
        let (record, next) = ResourceRecord::decode(body, offset).unwrap();
        answers.push(record);
        offset = next;
    }
    assert_eq!(offset, body.len());
    answers
}

#[test]
fn answers_stand_in_the_order_of_the_questions() {
    let asked = vec![
        question(&["zero"], 1, 1),
        question(&["one"], 1, 1),
        question(&["two"], 1, 1),
        question(&["three"], 1, 1),
    ];
    let orders: [[usize; 4]; 4] = [[0, 1, 2, 3], [3, 2, 1, 0], [2, 0, 3, 1], [1, 3, 0, 2]];
    let mut responses = Vec::new();
    for order in orders {
        let mut forwarder = forward(&client_packet(0x4242, &asked));
        let mut replies = Vec::new();
        while let Some(query) = forwarder.next_query() {
            let data = vec![replies.len() as u8; 4];
            replies.push(stub_resolver(&query, data));
        }
        assert_eq!(replies.len(), 4);
        for i in order {
            assert_eq!(forwarder.response(), None);
            assert_eq!(forwarder.accept_reply(&replies[i]), Ok(i));
        }
        assert_eq!(forwarder.state(), ForwardState::Done);
        let response = forwarder.response().unwrap();
        let answers = answers_in_response(&response, 4);
        for (i, answer) in answers.iter().enumerate() {
            assert_eq!(answer.domain_name, asked[i].domain_name);
            assert_eq!(answer.data, vec![i as u8; 4]);
        }
        responses.push(response);
    }
    assert!(responses.iter().all(|r| r == &responses[0]));
}

#[test]
fn reply_to_a_query_not_sent_is_refused() {
    let asked = vec![question(&["a"], 1, 1), question(&["b"], 1, 1)];
    let mut forwarder = forward(&client_packet(5, &asked));
    let first = forwarder.next_query().unwrap();
    let mut stray = stub_resolver(&first, vec![9]);
    stray[1] = 1;
    assert_eq!(forwarder.accept_reply(&stray), Err(ForwardError::Unsolicited));
    stray[0] = 0xff;
    assert_eq!(forwarder.accept_reply(&stray), Err(ForwardError::Unsolicited));
    assert_eq!(forwarder.state(), ForwardState::AwaitingUpstreamReply);
    assert_eq!(forwarder.answers(), &vec![None, None]);
}

#[test]
fn second_reply_to_one_query_is_refused() {
    let asked = vec![question(&["a"], 1, 1), question(&["b"], 1, 1)];
    let mut forwarder = forward(&client_packet(5, &asked));
    let first = forwarder.next_query().unwrap();
    assert_eq!(forwarder.accept_reply(&stub_resolver(&first, vec![1])), Ok(0));
    assert_eq!(
        forwarder.accept_reply(&stub_resolver(&first, vec![2])),
        Err(ForwardError::Duplicate)
    );
    let kept = forwarder.answers()[0].clone().unwrap();
    assert_eq!(kept.data, vec![1]);
}

#[test]
fn malformed_reply_is_refused_and_changes_nothing() {
    let mut forwarder = forward(&client_packet(5, &[question(&["a"], 1, 1)]));
    let query = forwarder.next_query().unwrap();
    let reply = stub_resolver(&query, vec![1, 2, 3]);
    assert_eq!(
        forwarder.accept_reply(&reply[..reply.len() - 1]),
        Err(ForwardError::Malformed(DecodeError::Truncated))
    );
    assert_eq!(
        forwarder.accept_reply(&reply[..3]),
        Err(ForwardError::Malformed(DecodeError::Truncated))
    );
    let mut bad = reply.clone();
    bad[12] = 0x80;
    assert_eq!(
        forwarder.accept_reply(&bad),
        Err(ForwardError::Malformed(DecodeError::ReservedLength))
    );
    assert_eq!(forwarder.state(), ForwardState::AwaitingUpstreamReply);
    assert_eq!(forwarder.response(), None);
    // The sound reply is still taken.
    assert_eq!(forwarder.accept_reply(&reply), Ok(0));
    assert_eq!(forwarder.state(), ForwardState::Done);
}

#[test]
fn conclude_is_response_or_failure() {
    let mut forwarder = forward(&client_packet(0x0bad, &[question(&["a"], 1, 1)]));
    assert_eq!(forwarder.conclude(), forwarder.failure_reply().to_vec());
    let query = forwarder.next_query().unwrap();
    assert_eq!(forwarder.conclude(), forwarder.failure_reply().to_vec());
    forwarder.accept_reply(&stub_resolver(&query, vec![1])).unwrap();
    assert_eq!(Some(forwarder.conclude()), forwarder.response());
}

#[test]
fn failure_reply_carries_server_failure() {
    let mut forwarder = forward(&client_packet(0x0bad, &[question(&["a"], 1, 1)]));
    forwarder.next_query();
    let reply = DnsHeader::from_network_bytes(&forwarder.failure_reply());
    assert_eq!(reply.packet_identifier, 0x0bad);
    assert_eq!(reply.query_response_indicator, 1);
    assert_eq!(reply.response_code, 2);
    assert_eq!(reply.question_count, 0);
    assert_eq!(reply.answer_record_count, 0);
}

#[test]
fn query_without_questions_is_done_at_once() {
    let mut forwarder = forward(&client_packet(3, &[]));
    assert_eq!(forwarder.state(), ForwardState::Done);
    assert_eq!(forwarder.next_query(), None);
    let response = forwarder.response().unwrap();
    assert_eq!(response.len(), 12);
    let header = DnsHeader::from_network_bytes(&response.clone().try_into().unwrap());
    assert_eq!(header.query_response_indicator, 1);
    assert_eq!(header.answer_record_count, 0);
}

#[test]
fn other_opcode_is_answered_not_implemented() {
    let mut packet = client_packet(3, &[question(&["a"], 1, 1)]);
    packet[2] |= 1 << 3;
    let mut forwarder = forward(&packet);
    let query = forwarder.next_query().unwrap();
    forwarder.accept_reply(&stub_resolver(&query, vec![1])).unwrap();
    let response = forwarder.response().unwrap();
    let (header, _) = split_message(&response).unwrap();
    assert_eq!(header.opcode, 1);
    assert_eq!(header.response_code, 4);
    assert_eq!(answers_in_response(&response, 1).len(), 1);
}

#[test]
fn truncated_packet_is_ignored_and_the_next_is_served() {
    let packet = client_packet(0x1234, &[question(&["example", "com"], 1, 1)]);
    for len in 0..12 {
        assert!(matches!(receive_query(&packet[..len]), Intake::Ignore));
    }
    let mut forwarder = forward(&packet);
    let query = forwarder.next_query().unwrap();
    assert_eq!(forwarder.accept_reply(&stub_resolver(&query, vec![8, 8, 8, 8])), Ok(0));
    assert!(forwarder.response().is_some());
}

#[test]
fn unreadable_questions_get_a_format_error_reply() {
    let packet = client_packet(0x1234, &[question(&["example", "com"], 1, 1)]);
    let reply = match receive_query(&packet[..packet.len() - 1]) {
        Intake::Reject(reply) => reply,
        _ => panic!("the packet should be rejected"),
    };
    assert_eq!(reply.len(), 12);
    let header = DnsHeader::from_network_bytes(&reply.try_into().unwrap());
    assert_eq!(header.packet_identifier, 0x1234);
    assert_eq!(header.query_response_indicator, 1);
    assert_eq!(header.recursion_desired, 1);
    assert_eq!(header.response_code, 1);
    assert_eq!(header.question_count, 0);
    let mut looping = client_packet(1, &[]);
    looping[5] = 1;
    looping.extend([1, b'a', 0xc0, 12, 0, 1, 0, 1]);
    assert!(matches!(receive_query(&looping), Intake::Reject(_)));
}

#[test]
fn forwarder_new_starts_idle() {
    let asked = vec![question(&["a"], 1, 1), question(&["b"], 2, 1)];
    let mut header = DnsHeader::default();
    header.question_count = 2;
    let forwarder = Forwarder::new(header, asked.clone());
    assert_eq!(forwarder.state(), ForwardState::Idle);
    assert_eq!(forwarder.questions(), &asked);
    assert_eq!(forwarder.answers(), &vec![None, None]);
}

#[test]
fn reply_identifier_is_what_the_resolver_echoes() {
    let mut forwarder = forward(&client_packet(0x1234, &[question(&["a"], 1, 1)]));
    let query = forwarder.next_query().unwrap();
    let reply = stub_resolver(&query, vec![1]);
    assert_eq!(decode_upstream_reply(&reply).unwrap().0, 0);
}
