//! Questions: a domain name, a 16-bit type and a 16-bit class.

use crate::dns_protocol::dns_name::decode_name;
use crate::dns_protocol::dns_name::encode_name;
use crate::dns_protocol::dns_name::labels_are_wf;
use crate::dns_protocol::dns_name::labels_wf;
use crate::dns_protocol::dns_name::lemma_name_round_trip;
use crate::dns_protocol::dns_name::name_view;
use crate::dns_protocol::dns_name::name_wire;
use crate::dns_protocol::dns_name::spec_decode_name;
use crate::dns_protocol::dns_name::valid_name;
pub use crate::dns_protocol::dns_name::Label;
use crate::dns_protocol::wire::be16;
use crate::dns_protocol::wire::be16_at;
use crate::dns_protocol::wire::push_be16;
use crate::dns_protocol::wire::read_be16;
use crate::dns_protocol::wire::DecodeError;
use vstd::prelude::*;

verus! {

/// One question of a query: what is asked about which name.
#[derive(Debug, Clone, PartialEq, Eq)]
pub struct DnsQuestion {
    pub domain_name: Vec<Label>,
    pub question_type: u16,
    pub class: u16,
}

/// What a question says: its name as a sequence of labels, its type and its
/// class.
pub struct QuestionView {
    pub name: Seq<Seq<u8>>,
    pub question_type: u16,
    pub class: u16,
}

impl View for DnsQuestion {
    type V = QuestionView;

    open spec fn view(&self) -> QuestionView {
        QuestionView {
            name: name_view(self.domain_name@),
            question_type: self.question_type,
            class: self.class,
        }
    }
}

/// What a sequence of questions says, one by one.
pub open spec fn questions_view(questions: Seq<DnsQuestion>) -> Seq<QuestionView> {
    Seq::new(questions.len(), |i: int| questions[i]@)
}

/// Every question of the sequence is well formed.
pub open spec fn questions_wf(questions: Seq<DnsQuestion>) -> bool {
    forall|i: int| 0 <= i < questions.len() ==> (#[trigger] questions[i]).wf()
}

/// The wire form of a question: its name, then type and class, big-endian.
pub open spec fn question_wire(q: QuestionView) -> Seq<u8> {
    name_wire(q.name) + be16(q.question_type) + be16(q.class)
}

/// The question that starts at offset `start` of `body`, and the offset just
/// behind it.
pub open spec fn spec_decode_question(body: Seq<u8>, start: int) -> Result<
    (QuestionView, int),
    DecodeError,
> {
    match spec_decode_name(body, start) {
        Err(e) => Err(e),
        Ok((name, end)) => if end + 4 > body.len() {
            Err(DecodeError::Truncated)
        } else {
            Ok(
                (
                    QuestionView {
                        name,
                        question_type: be16_at(body, end),
                        class: be16_at(body, end + 2),
                    },
                    end + 4,
                ),
            )
        },
    }
}

/// `first` in front of the questions of `rest`, or the failure of `rest`.
pub open spec fn prepend_questions(
    first: Seq<QuestionView>,
    rest: Result<(Seq<QuestionView>, int), DecodeError>,
) -> Result<(Seq<QuestionView>, int), DecodeError> {
    match rest {
        Ok((more, end)) => Ok((first + more, end)),
        Err(e) => Err(e),
    }
}

/// The `count` questions that stand one behind the other from offset `start`
/// of `body`, and the offset just behind the last.
pub open spec fn spec_decode_questions(body: Seq<u8>, start: int, count: nat) -> Result<
    (Seq<QuestionView>, int),
    DecodeError,
>
    decreases count,
{
    if count == 0 {
        Ok((Seq::empty(), start))
    } else {
        match spec_decode_question(body, start) {
            Err(e) => Err(e),
            Ok((q, next)) => prepend_questions(
                seq![q],
                spec_decode_questions(body, next, (count - 1) as nat),
            ),
        }
    }
}

impl DnsQuestion {
    /// Every label of the name is well formed.
    pub open spec fn wf(&self) -> bool {
        labels_wf(self.domain_name@)
    }

    /// Tells whether the question is well formed.
    pub fn is_wf(&self) -> (b: bool)
        ensures
            b == self.wf(),
    {
        labels_are_wf(&self.domain_name)
    }

    /// Writes the question in wire form.
    pub fn to_bytes(&self) -> (bytes: Vec<u8>)
        requires
            self.wf(),
        ensures
            bytes@ == question_wire(self@),
    {
        let mut bytes = encode_name(&self.domain_name);
        push_be16(&mut bytes, self.question_type);
        push_be16(&mut bytes, self.class);
        bytes
    }

    /// Reads the question that starts at offset `offset` of `body`, and
    /// returns it with the offset just behind it.
    pub fn decode(body: &[u8], offset: usize) -> (r: Result<(DnsQuestion, usize), DecodeError>)
        ensures
            match r {
                Ok((question, next)) => {
                    &&& spec_decode_question(body@, offset as int) == Ok::<_, DecodeError>(
                        (question@, next as int),
                    )
                    &&& question.wf()
                    &&& offset < next <= body@.len()
                },
                Err(e) => spec_decode_question(body@, offset as int) == Err::<
                    (QuestionView, int),
                    _,
                >(e),
            },
    {
        match decode_name(body, offset) {
            Err(e) => Err(e),
            Ok((domain_name, end)) => {
                if body.len() - end < 4 {
                    return Err(DecodeError::Truncated);
                }
                let question_type = read_be16(body, end);
                let class = read_be16(body, end + 2);
                Ok((DnsQuestion { domain_name, question_type, class }, end + 4))
            },
        }
    }
}

/// Reads `count` questions that stand one behind the other from offset
/// `offset` of `body`, and returns them with the offset just behind the last.
pub fn decode_all(body: &[u8], offset: usize, count: u16) -> (r: Result<
    (Vec<DnsQuestion>, usize),
    DecodeError,
>)
    ensures
        match r {
            Ok((questions, next)) => {
                &&& spec_decode_questions(body@, offset as int, count as nat) == Ok::<
                    _,
                    DecodeError,
                >((questions_view(questions@), next as int))
                &&& questions_wf(questions@)
                &&& questions@.len() == count
                &&& offset <= next
                &&& count > 0 ==> next <= body@.len()
            },
            Err(e) => spec_decode_questions(body@, offset as int, count as nat) == Err::<
                (Seq<QuestionView>, int),
                _,
            >(e),
        },
{
    let mut questions: Vec<DnsQuestion> = Vec::new();
    let mut pos: usize = offset;
    let mut done: u16 = 0;
    proof {
        assert(questions_view(questions@) == Seq::<QuestionView>::empty());
        lemma_prepend_questions_empty(spec_decode_questions(body@, offset as int, count as nat));
    }
    while done < count
        invariant
            done <= count,
            questions@.len() == done,
            questions_wf(questions@),
            offset <= pos,
            done > 0 ==> pos <= body@.len(),
            spec_decode_questions(body@, offset as int, count as nat) == prepend_questions(
                questions_view(questions@),
                spec_decode_questions(body@, pos as int, (count - done) as nat),
            ),
        decreases count - done,
    {
        match DnsQuestion::decode(body, pos) {
            Err(e) => {
                return Err(e);
            },
            Ok((question, next)) => {
                let ghost before = questions_view(questions@);
                let ghost rest = spec_decode_questions(
                    body@,
                    next as int,
                    (count - done - 1) as nat,
                );
                questions.push(question);
                proof {
                    assert(questions_view(questions@) == before.push(question@));
                    lemma_prepend_questions_push(before, question@, rest);
                }
                pos = next;
                done = done + 1;
            },
        }
    }
    proof {
        assert(questions_view(questions@) + Seq::<QuestionView>::empty() == questions_view(
            questions@,
        ));
    }
    Ok((questions, pos))
}

/// Reads `number_of_questions` questions from the start of `buf`, which
/// holds a message body. Gives nothing where any of them cannot be decoded.
pub fn decode_questions(buf: &[u8], number_of_questions: u16) -> (r: Option<Vec<DnsQuestion>>)
    ensures
        match r {
            Some(questions) => {
                &&& spec_decode_questions(buf@, 0, number_of_questions as nat) matches Ok(
                    (decoded, _),
                )
                &&& decoded == questions_view(questions@)
                &&& questions_wf(questions@)
            },
            None => spec_decode_questions(buf@, 0, number_of_questions as nat) is Err,
        },
{
    match decode_all(buf, 0, number_of_questions) {
        Ok((questions, _)) => Some(questions),
        Err(_) => None,
    }
}

/// A question with a valid name is read back from its wire form, wherever
/// in a body the wire form stands and whatever follows it.
pub proof fn lemma_question_round_trip(before: Seq<u8>, q: QuestionView, after: Seq<u8>)
    requires
        valid_name(q.name),
    ensures
        spec_decode_question(before + question_wire(q) + after, before.len() as int) == Ok::<
            _,
            DecodeError,
        >((q, (before.len() + question_wire(q).len()) as int)),
{
    let body = before + question_wire(q) + after;
    let tail = be16(q.question_type) + be16(q.class) + after;
    assert(body == before + name_wire(q.name) + tail);
    lemma_name_round_trip(before, q.name, tail, body.len());
    let end = (before.len() + name_wire(q.name).len()) as int;
    assert(be16_at(body, end) == q.question_type) by {
        assert(body[end] == tail[0] && body[end + 1] == tail[1]);
    }
    assert(be16_at(body, end + 2) == q.class) by {
        assert(body[end + 2] == tail[2] && body[end + 3] == tail[3]);
    }
}

/// A question with a valid name is read back from its own wire form.
pub proof fn lemma_decode_question_of_wire(q: QuestionView)
    requires
        valid_name(q.name),
    ensures
        spec_decode_question(question_wire(q), 0) == Ok::<_, DecodeError>(
            (q, question_wire(q).len() as int),
        ),
{
    let wire = question_wire(q);
    assert(Seq::<u8>::empty() + wire + Seq::<u8>::empty() == wire);
    lemma_question_round_trip(Seq::empty(), q, Seq::empty());
}

proof fn lemma_prepend_questions_empty(rest: Result<(Seq<QuestionView>, int), DecodeError>)
    ensures
        prepend_questions(Seq::empty(), rest) == rest,
{
    match rest {
        Ok((more, end)) => {
            assert(Seq::<QuestionView>::empty() + more == more);
        },
        Err(_) => {},
    }
}

proof fn lemma_prepend_questions_push(
    first: Seq<QuestionView>,
    q: QuestionView,
    rest: Result<(Seq<QuestionView>, int), DecodeError>,
)
    ensures
        prepend_questions(first, prepend_questions(seq![q], rest)) == prepend_questions(
            first.push(q),
            rest,
        ),
{
    match rest {
        Ok((more, end)) => {
            assert(first + (seq![q] + more) == first.push(q) + more);
        },
        Err(_) => {},
    }
}

} // verus!
