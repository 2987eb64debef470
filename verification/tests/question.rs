use codecrafters_dns_server::dns_protocol::dns_question::decode_all;
use codecrafters_dns_server::dns_protocol::dns_question::decode_questions;
use codecrafters_dns_server::dns_protocol::dns_question::DnsQuestion;
use codecrafters_dns_server::dns_protocol::dns_question::Label;
use codecrafters_dns_server::dns_protocol::wire::DecodeError;

fn label(text: &str) -> Label {
    Label::new(text.as_bytes().to_vec()).unwrap()
}

fn names(question: &DnsQuestion) -> Vec<Vec<u8>> {
    question.domain_name.iter().map(|l| l.content.clone()).collect()
}

#[test]
fn test_decode_questions() {
    let buf = [
        0x03, 0x77, 0x77, 0x77, 0x07, 0x65, 0x78, 0x61, 0x6d, 0x70, 0x6c, 0x65, 0x03, 0x63,
        0x6f, 0x6d, 0x00, 0x00, 0x01, 0x00, 0x01,
    ];
    let questions = decode_questions(&buf, 1).unwrap();
    assert_eq!(questions.len(), 1);
    let question = &questions[0];
    assert_eq!(question.domain_name.len(), 3);
    assert_eq!(question.domain_name[0].length, 3);
    assert_eq!(question.domain_name[0].content, b"www");
    assert_eq!(question.domain_name[1].length, 7);
    assert_eq!(question.domain_name[1].content, b"example");
    assert_eq!(question.domain_name[2].length, 3);
    assert_eq!(question.domain_name[2].content, b"com");
    assert_eq!(question.question_type, 1);
    assert_eq!(question.class, 1);
}

#[test]
fn test_compressed_questions_middle() {
    let buf = [
        0x03, 0x77, 0x77, 0x77, 0x07, 0x65, 0x78, 0x61, 0x6d, 0x70, 0x6c, 0x65, 0x03, 0x63,
        0x6f, 0x6d, 0x00, 0x00, 0x01, 0x00, 0x01,
        0x03, 0x61, 0x61, 0x61, 0xc0, 0x10, 0x00, 0x01, 0x00, 0x01,
    ];
    let questions = decode_questions(&buf, 2).unwrap();
    // Two questions were asked for and two stand in the buffer.
    assert_eq!(questions.len(), 2);
    let question = &questions[0];
    assert_eq!(question.domain_name.len(), 3);
    assert_eq!(question.domain_name[0].length, 3);
    assert_eq!(question.domain_name[0].content, b"www");
    assert_eq!(question.domain_name[1].length, 7);
    assert_eq!(question.domain_name[1].content, b"example");
    assert_eq!(question.domain_name[2].length, 3);
    assert_eq!(question.domain_name[2].content, b"com");
    assert_eq!(question.question_type, 1);
    assert_eq!(question.class, 1);

    // The pointer of the second name says 16: four bytes into the body,
    // where "example" starts.
    let question = &questions[1];
    assert_eq!(question.domain_name.len(), 3);
    assert_eq!(question.domain_name[0].length, 3);
    assert_eq!(question.domain_name[0].content, b"aaa");
    assert_eq!(question.domain_name[1].length, 7);
    assert_eq!(question.domain_name[1].content, b"example");
    assert_eq!(question.domain_name[2].length, 3);
    assert_eq!(question.domain_name[2].content, b"com");
    assert_eq!(question.question_type, 1);
    assert_eq!(question.class, 1);
}

#[test]
fn test_compress_question_parsing() {
    let question = vec![
        1,
        ('F' as u8),
        3,
        ('I' as u8),
        ('S' as u8),
        ('I' as u8),
        0,
        0,
        1,
        0,
        1,
        3,
        ('F' as u8),
        ('O' as u8),
        ('O' as u8),
        0b11000000,
        0b00010100,
        0,
        0,
        1,
        0,
        1,
    ];

    // The pointer says 20, which is eight bytes into the body: the middle of
    // the first question's type. What is read there runs into 'F', a
    // reserved length byte, so nothing is decoded.
    assert_eq!(decode_questions(&question, 2), None);
    assert_eq!(
        decode_all(&question, 0, 2),
        Err(DecodeError::ReservedLength)
    );
    // The first question alone is sound.
    assert_eq!(decode_questions(&question, 1).unwrap().len(), 1);
}

#[test]
fn compression_offset_literal_case() {
    let buf = [
        0x03, 0x61, 0x62, 0x63, 0x03, 0x63, 0x6f, 0x6d, 0x00, 0x00, 0x01, 0x00, 0x01, 0x03,
        0x64, 0x65, 0x66, 0xc0, 0x0c, 0x00, 0x01, 0x00, 0x01,
    ];
    let questions = decode_questions(&buf, 2).unwrap();
    assert_eq!(questions.len(), 2);
    assert_eq!(
        names(&questions[0]),
        vec![b"abc".to_vec(), b"com".to_vec()]
    );
    assert_eq!(
        names(&questions[1]),
        vec![b"def".to_vec(), b"abc".to_vec(), b"com".to_vec()]
    );
    assert_eq!(questions[1].question_type, 1);
    assert_eq!(questions[1].class, 1);
    let (_, next) = decode_all(&buf, 0, 2).unwrap();
    assert_eq!(next, buf.len());
}

#[test]
fn pointer_to_first_name_gives_the_same_labels() {
    // "abc"."com" at message offset 12, then a question whose whole name is
    // a pointer to offset 12.
    let buf = [
        0x03, 0x61, 0x62, 0x63, 0x03, 0x63, 0x6f, 0x6d, 0x00, 0x00, 0x01, 0x00, 0x01, 0xc0,
        0x0c, 0x00, 0x1c, 0x00, 0x01,
    ];
    let questions = decode_questions(&buf, 2).unwrap();
    assert_eq!(questions.len(), 2);
    assert_eq!(questions[0].domain_name, questions[1].domain_name);
    assert_eq!(
        names(&questions[1]),
        vec![b"abc".to_vec(), b"com".to_vec()]
    );
    assert_eq!(questions[1].question_type, 28);
    let (question, next) = DnsQuestion::decode(&buf, 13).unwrap();
    assert_eq!(question, questions[1]);
    assert_eq!(next, 19);
}

#[test]
fn question_to_bytes_is_name_type_class() {
    let question = DnsQuestion {
        domain_name: vec![label("www"), label("example"), label("com")],
        question_type: 0x0102,
        class: 0x0304,
    };
    assert!(question.is_wf());
    assert_eq!(
        question.to_bytes(),
        vec![
            3, b'w', b'w', b'w', 7, b'e', b'x', b'a', b'm', b'p', b'l', b'e', 3, b'c', b'o',
            b'm', 0, 1, 2, 3, 4
        ]
    );
}

#[test]
fn question_round_trip() {
    let question = DnsQuestion {
        domain_name: vec![
            Label::new(vec![0x00, 0xff, 0x80, b'.']).unwrap(),
            Label::new(vec![b'x'; 63]).unwrap(),
        ],
        question_type: 0xfffe,
        class: 0x8001,
    };
    let bytes = question.to_bytes();
    let (decoded, next) = DnsQuestion::decode(&bytes, 0).unwrap();
    assert_eq!(decoded, question);
    assert_eq!(next, bytes.len());
    assert_eq!(decode_questions(&bytes, 1), Some(vec![question]));
}

#[test]
fn root_name_question() {
    let question = DnsQuestion { domain_name: vec![], question_type: 2, class: 1 };
    assert_eq!(question.to_bytes(), vec![0, 0, 2, 0, 1]);
    assert_eq!(decode_questions(&[0, 0, 2, 0, 1], 1), Some(vec![question]));
}

#[test]
fn zero_questions_from_any_buffer() {
    assert_eq!(decode_questions(&[], 0), Some(vec![]));
    assert_eq!(decode_questions(&[0x40, 0xc0], 0), Some(vec![]));
    assert_eq!(decode_all(&[1, 2, 3], 2, 0), Ok((vec![], 2)));
}

#[test]
fn too_few_bytes_for_type_and_class() {
    let buf = [0x01, b'a', 0x00, 0x00, 0x01, 0x00];
    assert_eq!(DnsQuestion::decode(&buf, 0), Err(DecodeError::Truncated));
    assert_eq!(decode_questions(&buf, 1), None);
}

#[test]
fn more_questions_than_the_buffer_holds() {
    let buf = [0x01, b'a', 0x00, 0x00, 0x01, 0x00, 0x01];
    assert_eq!(decode_questions(&buf, 1).unwrap().len(), 1);
    assert_eq!(decode_all(&buf, 0, 2), Err(DecodeError::Truncated));
    assert_eq!(decode_questions(&buf, 2), None);
}

#[test]
fn malformed_label_is_not_well_formed() {
    let question = DnsQuestion {
        domain_name: vec![Label { length: 4, content: b"abc".to_vec() }],
        question_type: 1,
        class: 1,
    };
    assert!(!question.is_wf());
    let question = DnsQuestion {
        domain_name: vec![Label { length: 64, content: vec![b'a'; 64] }],
        question_type: 1,
        class: 1,
    };
    assert!(!question.is_wf());
}
