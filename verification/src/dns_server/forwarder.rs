//! The forwarding of one client query: each question is sent upstream under
//! an identifier of its own, and the answer that comes back under that
//! identifier is kept at the place of its question.
//!
//! The caller owns the sockets. It asks for the next upstream query, sends
//! it, and hands every reply that arrives to `accept_reply`. One query at a
//! time or all at once: the response is the same.

use crate::dns_protocol::dns_header::DnsHeader;
use crate::dns_protocol::dns_question::decode_all;
use crate::dns_protocol::dns_question::questions_view;
use crate::dns_protocol::dns_question::questions_wf;
use crate::dns_protocol::dns_question::DnsQuestion;
use crate::dns_protocol::dns_question::QuestionView;
use crate::dns_protocol::dns_resource_record::RecordView;
use crate::dns_protocol::dns_resource_record::ResourceRecord;
use crate::dns_protocol::wire::DecodeError;
use crate::dns_server::message::append_echoes;
use crate::dns_server::message::append_header;
use crate::dns_server::message::append_record;
use crate::dns_server::message::decode_upstream_reply;
use crate::dns_server::message::format_error_reply;
use crate::dns_server::message::records_wire;
use crate::dns_server::message::response_header;
use crate::dns_server::message::server_failure_reply;
use crate::dns_server::message::spec_error_header;
use crate::dns_server::message::spec_parse_query;
use crate::dns_server::message::spec_response;
use crate::dns_server::message::spec_response_header;
use crate::dns_server::message::spec_upstream_answer;
use crate::dns_server::message::spec_upstream_query;
use crate::dns_server::message::split_message;
use crate::dns_server::message::upstream_query;
use crate::dns_server::message::RCODE_FORMAT_ERROR;
use crate::dns_server::message::RCODE_SERVER_FAILURE;
use vstd::prelude::*;

verus! {

/// Where the forwarding of a query stands.
#[derive(Debug, Clone, Copy, PartialEq, Eq, Structural)]
pub enum ForwardState {
    /// Nothing has been sent upstream yet.
    Idle,
    /// A query has been sent upstream and its reply has not come.
    AwaitingUpstreamReply,
    /// Every query sent has been answered, and questions are left to send.
    Accumulating,
    /// Every question has its answer.
    Done,
}

/// Why an upstream reply was not taken.
#[derive(Debug, Clone, Copy, PartialEq, Eq, Structural)]
pub enum ForwardError {
    /// The reply cannot be decoded.
    Malformed(DecodeError),
    /// The reply's identifier is that of no query sent.
    Unsolicited,
    /// The question that the reply answers has its answer already.
    Duplicate,
}

/// What a forwarder holds: the header of the client's query, its questions,
/// the answer to each as far as it has come, and how many questions have
/// been sent upstream. Question `i` is sent under identifier `i`.
pub struct ForwarderView {
    pub header: DnsHeader,
    pub questions: Seq<QuestionView>,
    pub answers: Seq<Option<RecordView>>,
    pub sent: nat,
}

/// How many of `answers` have come.
pub open spec fn count_answered(answers: Seq<Option<RecordView>>) -> nat
    decreases answers.len(),
{
    if answers.len() == 0 {
        0
    } else {
        count_answered(answers.drop_last()) + if answers.last() is Some {
            1nat
        } else {
            0nat
        }
    }
}

impl ForwarderView {
    /// A forwarder that has sent nothing.
    pub open spec fn start(header: DnsHeader, questions: Seq<QuestionView>) -> ForwarderView {
        ForwarderView {
            header,
            questions,
            answers: Seq::new(questions.len(), |i: int| None::<RecordView>),
            sent: 0,
        }
    }

    /// There is a place for the answer to each question, the questions are
    /// as many as the header counts, and no answer has come to a question
    /// that was not sent.
    pub open spec fn wf(self) -> bool {
        &&& self.questions.len() == self.header.question_count
        &&& self.answers.len() == self.questions.len()
        &&& self.sent <= self.questions.len()
        &&& forall|i: int| 0 <= i < self.answers.len() && self.answers[i] is Some ==> i < self.sent
    }

    /// Where the forwarding stands.
    pub open spec fn state(self) -> ForwardState {
        if count_answered(self.answers) == self.questions.len() {
            ForwardState::Done
        } else if self.sent == 0 {
            ForwardState::Idle
        } else if count_answered(self.answers) < self.sent {
            ForwardState::AwaitingUpstreamReply
        } else {
            ForwardState::Accumulating
        }
    }

    /// The query to send next: the first question not sent yet, under its
    /// index as identifier.
    pub open spec fn next_query(self) -> Seq<u8> {
        spec_upstream_query(self.sent as u16, self.questions[self.sent as int])
    }

    /// The forwarder once the next query is sent.
    pub open spec fn issue(self) -> ForwarderView {
        ForwarderView { sent: self.sent + 1, ..self }
    }

    /// The forwarder once `reply` is taken: the record that the reply brings
    /// stands at the place that the reply's identifier names. A reply is
    /// refused where it cannot be decoded, where its identifier is that of
    /// no query sent, and where that place is taken.
    pub open spec fn accept(self, reply: Seq<u8>) -> Result<ForwarderView, ForwardError> {
        match spec_upstream_answer(reply) {
            Err(e) => Err(ForwardError::Malformed(e)),
            Ok((id, record)) => if id >= self.sent {
                Err(ForwardError::Unsolicited)
            } else if self.answers[id as int] is Some {
                Err(ForwardError::Duplicate)
            } else {
                Ok(ForwarderView { answers: self.answers.update(id as int, Some(record)), ..self })
            },
        }
    }

    /// The answers in the order of their questions. It has a meaning once
    /// every answer has come.
    pub open spec fn ordered_answers(self) -> Seq<RecordView> {
        Seq::new(self.answers.len(), |i: int| self.answers[i]->Some_0)
    }

    /// The response to the client: the response header, the questions
    /// echoed, and the answers in the order of their questions.
    pub open spec fn response(self) -> Seq<u8> {
        spec_response(spec_response_header(self.header), self.questions, self.ordered_answers())
    }
}

/// What a sequence of answers says, one by one, as far as they have come.
pub open spec fn answers_view(answers: Seq<Option<ResourceRecord>>) -> Seq<Option<RecordView>> {
    Seq::new(
        answers.len(),
        |i: int|
            match answers[i] {
                Some(record) => Some(record@),
                None => None,
            },
    )
}

/// The forwarding of one client query.
pub struct Forwarder {
    header: DnsHeader,
    questions: Vec<DnsQuestion>,
    answers: Vec<Option<ResourceRecord>>,
    sent: usize,
}

impl View for Forwarder {
    type V = ForwarderView;

    closed spec fn view(&self) -> ForwarderView {
        ForwarderView {
            header: self.header,
            questions: questions_view(self.questions@),
            answers: answers_view(self.answers@),
            sent: self.sent as nat,
        }
    }
}

impl Forwarder {
    /// What the forwarder holds is well formed and can be written on the
    /// wire.
    #[verifier::type_invariant]
    spec fn inv(self) -> bool {
        &&& self@.wf()
        &&& questions_wf(self.questions@)
        &&& forall|i: int|
            0 <= i < self.answers@.len() ==> (#[trigger] self.answers@[i] matches Some(record)
                ==> record.wf())
    }

    /// Counts the answers that have come.
    fn answered(&self) -> (count: usize)
        ensures
            count == count_answered(self@.answers),
    {
        let ghost all = self@.answers;
        let mut count: usize = 0;
        let mut i: usize = 0;
        assert(all.subrange(0, 0) == Seq::<Option<RecordView>>::empty());
        while i < self.answers.len()
            invariant
                i <= self.answers.len(),
                all == self@.answers,
                all.len() == self.answers.len(),
                count <= i,
                count == count_answered(all.subrange(0, i as int)),
            decreases self.answers.len() - i,
        {
            proof {
                let grown = all.subrange(0, i + 1);
                assert(grown.drop_last() == all.subrange(0, i as int));
                assert(grown.last() is Some <==> self.answers@[i as int] is Some);
            }
            if self.answers[i].is_some() {
                count = count + 1;
            }
            i += 1;
        }
        assert(all.subrange(0, i as int) == all);
        count
    }

    /// Starts the forwarding of the questions of a client's query.
    pub fn new(header: DnsHeader, questions: Vec<DnsQuestion>) -> (r: Self)
        requires
            questions_wf(questions@),
            questions@.len() == header.question_count,
        ensures
            r@ == ForwarderView::start(header, questions_view(questions@)),
    {
        let mut answers: Vec<Option<ResourceRecord>> = Vec::new();
        let mut i: usize = 0;
        while i < questions.len()
            invariant
                i <= questions.len(),
                answers@.len() == i,
                forall|k: int| 0 <= k < i ==> answers@[k] is None,
            decreases questions.len() - i,
        {
            answers.push(None);
            i += 1;
        }
        assert(answers_view(answers@) == ForwarderView::start(
            header,
            questions_view(questions@),
        ).answers);
        Forwarder { header, questions, answers, sent: 0 }
    }

    /// Tells where the forwarding stands.
    pub fn state(&self) -> (s: ForwardState)
        ensures
            s == self@.state(),
            self@.wf(),
    {
        proof {
            use_type_invariant(self);
        }
        let answered = self.answered();
        if answered == self.questions.len() {
            ForwardState::Done
        } else if self.sent == 0 {
            ForwardState::Idle
        } else if answered < self.sent {
            ForwardState::AwaitingUpstreamReply
        } else {
            ForwardState::Accumulating
        }
    }

    /// Gives the next query to send upstream, and counts it as sent. Gives
    /// nothing once every question has been sent.
    pub fn next_query(&mut self) -> (r: Option<Vec<u8>>)
        ensures
            old(self)@.wf(),
            final(self)@.wf(),
            match r {
                Some(bytes) => {
                    &&& old(self)@.sent < old(self)@.questions.len()
                    &&& bytes@ == old(self)@.next_query()
                    &&& final(self)@ == old(self)@.issue()
                },
                None => {
                    &&& old(self)@.sent == old(self)@.questions.len()
                    &&& final(self)@ == old(self)@
                },
            },
    {
        proof {
            use_type_invariant(&*self);
        }
        if self.sent >= self.questions.len() {
            return None;
        }
        let bytes = upstream_query(self.sent as u16, &self.questions[self.sent]);
        self.sent = self.sent + 1;
        Some(bytes)
    }

    /// Takes a reply of the upstream resolver: the record it brings is kept
    /// at the place of the question that was sent under the reply's
    /// identifier. Returns the index of that question. A reply that is
    /// refused leaves the forwarder as it was.
    pub fn accept_reply(&mut self, reply: &[u8]) -> (r: Result<usize, ForwardError>)
        ensures
            old(self)@.wf(),
            final(self)@.wf(),
            match r {
                Ok(index) => {
                    &&& old(self)@.accept(reply@) == Ok::<_, ForwardError>(final(self)@)
                    &&& spec_upstream_answer(reply@) matches Ok((id, _))
                    &&& index == id
                },
                Err(e) => {
                    &&& old(self)@.accept(reply@) == Err::<ForwarderView, _>(e)
                    &&& final(self)@ == old(self)@
                },
            },
    {
        proof {
            use_type_invariant(&*self);
        }
        match decode_upstream_reply(reply) {
            Err(e) => Err(ForwardError::Malformed(e)),
            Ok((id, record)) => {
                let index = id as usize;
                if index >= self.sent {
                    return Err(ForwardError::Unsolicited);
                }
                if self.answers[index].is_some() {
                    return Err(ForwardError::Duplicate);
                }
                proof {
                    assert(answers_view(self.answers@.update(index as int, Some(record)))
                        == self@.answers.update(index as int, Some(record@)));
                }
                keep_answer(&mut self.answers, index, record);
                Ok(index)
            },
        }
    }

    /// Writes the response to the client, once every question has its
    /// answer: the response header, the questions echoed, and the answers in
    /// the order of their questions. Gives nothing before.
    pub fn response(&self) -> (r: Option<Vec<u8>>)
        ensures
            r is Some <==> self@.state() == ForwardState::Done,
            r matches Some(bytes) ==> bytes@ == self@.response(),
    {
        proof {
            use_type_invariant(self);
        }
        if self.answered() != self.questions.len() {
            return None;
        }
        proof {
            lemma_count_full(self@.answers);
        }
        let header = response_header(&self.header);
        let mut bytes: Vec<u8> = Vec::new();
        append_header(&mut bytes, &header);
        append_echoes(&mut bytes, &self.questions);
        let ghost head = bytes@;
        let ghost all = self@.ordered_answers();
        let mut i: usize = 0;
        assert(all.subrange(0, 0) == Seq::<RecordView>::empty());
        assert(bytes@ == head + records_wire(all.subrange(0, 0)));
        while i < self.answers.len()
            invariant
                i <= self.answers.len(),
                self.inv(),
                forall|k: int| 0 <= k < self@.answers.len() ==> self@.answers[k] is Some,
                all == self@.ordered_answers(),
                bytes@ == head + records_wire(all.subrange(0, i as int)),
            decreases self.answers.len() - i,
        {
            proof {
                let grown = all.subrange(0, i + 1);
                assert(grown.drop_last() == all.subrange(0, i as int));
                assert(self@.answers[i as int] is Some);
            }
            match &self.answers[i] {
                Some(record) => {
                    assert(all.subrange(0, i + 1).last() == record@);
                    append_record(&mut bytes, record);
                },
                None => {},
            }
            i += 1;
            assert(bytes@ == head + records_wire(all.subrange(0, i as int)));
        }
        assert(all.subrange(0, i as int) == all);
        Some(bytes)
    }

    /// Writes the reply that gives the query up: a header alone, with the
    /// server-failure response code. It is what the client gets where the
    /// upstream resolver fails on any of the questions.
    pub fn failure_reply(&self) -> (bytes: [u8; 12])
        ensures
            bytes@ == spec_error_header(self@.header, RCODE_SERVER_FAILURE).wire(),
    {
        server_failure_reply(&self.header)
    }

    /// Writes what the client is sent when the forwarding is over: the
    /// response where every question has its answer, the server-failure
    /// reply where one is missing.
    pub fn conclude(&self) -> (bytes: Vec<u8>)
        ensures
            bytes@ == if self@.state() == ForwardState::Done {
                self@.response()
            } else {
                spec_error_header(self@.header, RCODE_SERVER_FAILURE).wire()
            },
    {
        match self.response() {
            Some(bytes) => bytes,
            None => {
                let reply = self.failure_reply();
                let mut bytes: Vec<u8> = Vec::new();
                bytes.extend_from_slice(reply.as_slice());
                assert(bytes@ == reply@);
                bytes
            },
        }
    }

    /// The questions of the client's query.
    pub fn questions(&self) -> (r: &Vec<DnsQuestion>)
        ensures
            questions_view(r@) == self@.questions,
    {
        &self.questions
    }

    /// The answers, each at the place of its question, as far as they have
    /// come.
    pub fn answers(&self) -> (r: &Vec<Option<ResourceRecord>>)
        ensures
            answers_view(r@) == self@.answers,
    {
        &self.answers
    }
}

/// Puts `record` at place `index` of `answers`.
fn keep_answer(answers: &mut Vec<Option<ResourceRecord>>, index: usize, record: ResourceRecord)
    requires
        index < old(answers)@.len(),
    ensures
        final(answers)@ == old(answers)@.update(index as int, Some(record)),
    no_unwind
{
    answers[index] = Some(record);
}

/// What to do with a packet that a client sent.
pub enum Intake {
    /// It is too short to hold a header: there is nobody to answer.
    Ignore,
    /// Its questions cannot be read: answer at once with this reply, which
    /// carries the format-error response code.
    Reject(Vec<u8>),
    /// Forward its questions.
    Forward(Forwarder),
}

/// Reads a client's packet and decides what to do with it.
pub fn receive_query(packet: &[u8]) -> (r: Intake)
    ensures
        match r {
            Intake::Ignore => packet@.len() < 12,
            Intake::Reject(reply) => {
                &&& packet@.len() >= 12
                &&& spec_parse_query(packet@) is Err
                &&& reply@ == spec_error_header(
                    crate::dns_server::message::message_header(packet@),
                    RCODE_FORMAT_ERROR,
                ).wire()
            },
            Intake::Forward(forwarder) => {
                &&& spec_parse_query(packet@) matches Ok((header, questions))
                &&& forwarder@ == ForwarderView::start(header, questions)
            },
        },
{
    match split_message(packet) {
        None => Intake::Ignore,
        Some((header, body)) => match decode_all(body, 0, header.question_count) {
            Err(_) => {
                let reply = format_error_reply(&header);
                let mut bytes: Vec<u8> = Vec::new();
                bytes.extend_from_slice(reply.as_slice());
                assert(bytes@ == reply@);
                Intake::Reject(bytes)
            },
            Ok((questions, _)) => Intake::Forward(Forwarder::new(header, questions)),
        },
    }
}

/// None of `answers` has come.
proof fn lemma_count_none(answers: Seq<Option<RecordView>>)
    requires
        forall|i: int| 0 <= i < answers.len() ==> answers[i] is None,
    ensures
        count_answered(answers) == 0,
    decreases answers.len(),
{
    if answers.len() > 0 {
        lemma_count_none(answers.drop_last());
    }
}

/// No more answers have come than there are places.
proof fn lemma_count_bounds(answers: Seq<Option<RecordView>>)
    ensures
        count_answered(answers) <= answers.len(),
    decreases answers.len(),
{
    if answers.len() > 0 {
        lemma_count_bounds(answers.drop_last());
    }
}

/// An answer that comes to an empty place is one answer more.
proof fn lemma_count_update(answers: Seq<Option<RecordView>>, at: int, record: RecordView)
    requires
        0 <= at < answers.len(),
        answers[at] is None,
    ensures
        count_answered(answers.update(at, Some(record))) == count_answered(answers) + 1,
    decreases answers.len(),
{
    let updated = answers.update(at, Some(record));
    if at == answers.len() - 1 {
        assert(updated.drop_last() == answers.drop_last());
    } else {
        assert(updated.drop_last() == answers.drop_last().update(at, Some(record)));
        lemma_count_update(answers.drop_last(), at, record);
    }
}

/// Where as many answers have come as there are places, every place is
/// taken.
proof fn lemma_count_full(answers: Seq<Option<RecordView>>)
    requires
        count_answered(answers) == answers.len(),
    ensures
        forall|i: int| 0 <= i < answers.len() ==> answers[i] is Some,
    decreases answers.len(),
{
    if answers.len() > 0 {
        lemma_count_bounds(answers.drop_last());
        lemma_count_full(answers.drop_last());
        assert forall|i: int| 0 <= i < answers.len() implies answers[i] is Some by {
            if i < answers.len() - 1 {
                assert(answers[i] == answers.drop_last()[i]);
            }
        }
    }
}

/// Where answers have come only to the questions before `limit`, no more
/// than `limit` have come.
proof fn lemma_count_below(answers: Seq<Option<RecordView>>, limit: nat)
    requires
        forall|i: int| 0 <= i < answers.len() && answers[i] is Some ==> i < limit,
    ensures
        count_answered(answers) <= limit,
        count_answered(answers) <= answers.len(),
    decreases answers.len(),
{
    if answers.len() > 0 {
        let front = answers.drop_last();
        if answers.last() is Some {
            lemma_count_below(front, (answers.len() - 1) as nat);
        } else {
            lemma_count_below(front, limit);
        }
    }
}

/// A forwarder that has sent nothing is idle. Where there is nothing to
/// ask, it is done.
pub proof fn lemma_start_state(header: DnsHeader, questions: Seq<QuestionView>)
    ensures
        ForwarderView::start(header, questions).state() == if questions.len() == 0 {
            ForwardState::Done
        } else {
            ForwardState::Idle
        },
        questions.len() == header.question_count ==> ForwarderView::start(header, questions).wf(),
{
    lemma_count_none(ForwarderView::start(header, questions).answers);
}

/// Sending the next query makes a forwarder that waited for no reply wait
/// for one.
pub proof fn lemma_issue_awaits(f: ForwarderView)
    requires
        f.wf(),
        f.sent < f.questions.len(),
        f.state() == ForwardState::Idle || f.state() == ForwardState::Accumulating,
    ensures
        f.issue().wf(),
        f.issue().state() == ForwardState::AwaitingUpstreamReply,
{
    lemma_count_below(f.answers, f.sent);
}

/// A reply is taken only by a forwarder that waits for one, and is one
/// answer more: the forwarder then waits for the replies still out, or has
/// them all and goes on to send or is done.
pub proof fn lemma_accept_state(f: ForwarderView, reply: Seq<u8>)
    requires
        f.wf(),
        f.accept(reply) is Ok,
    ensures
        f.state() == ForwardState::AwaitingUpstreamReply,
        f.accept(reply)->Ok_0.wf(),
        count_answered(f.accept(reply)->Ok_0.answers) == count_answered(f.answers) + 1,
        f.accept(reply)->Ok_0.state() == if count_answered(f.answers) + 1
            == f.questions.len() {
            ForwardState::Done
        } else if count_answered(f.answers) + 1 < f.sent {
            ForwardState::AwaitingUpstreamReply
        } else {
            ForwardState::Accumulating
        },
{
    let g = f.accept(reply)->Ok_0;
    let answer = spec_upstream_answer(reply)->Ok_0;
    lemma_count_update(f.answers, answer.0 as int, answer.1);
    lemma_count_below(g.answers, f.sent);
}

/// The order in which two replies come does not matter: where one is taken
/// and then the other, they are taken in the other order too, and the
/// forwarder ends up the same.
pub proof fn lemma_replies_in_any_order(f: ForwarderView, first: Seq<u8>, second: Seq<u8>)
    requires
        f.wf(),
        f.accept(first) matches Ok(g) && g.accept(second) is Ok,
    ensures
        f.accept(second) matches Ok(h) && h.accept(first) == f.accept(first)->Ok_0.accept(second),
{
    let g = f.accept(first)->Ok_0;
    let a = spec_upstream_answer(first)->Ok_0;
    let b = spec_upstream_answer(second)->Ok_0;
    let h = f.accept(second)->Ok_0;
    assert(a.0 != b.0);
    assert(f.answers.update(a.0 as int, Some(a.1)).update(b.0 as int, Some(b.1))
        == f.answers.update(b.0 as int, Some(b.1)).update(a.0 as int, Some(a.1)));
}

/// The answer that a reply brings stands where its question stands: a reply
/// under identifier `i` answers the query that was sent under `i`, which
/// asked question `i`, and its record becomes answer `i`. No other answer
/// changes.
pub proof fn lemma_answer_stands_with_question(f: ForwarderView, reply: Seq<u8>)
    requires
        f.wf(),
        f.accept(reply) is Ok,
    ensures
        spec_upstream_answer(reply) matches Ok((id, record)) && {
            let g = f.accept(reply)->Ok_0;
            &&& id < f.questions.len()
            &&& g.wf()
            &&& g.questions == f.questions
            &&& g.answers[id as int] == Some(record)
            &&& forall|j: int| 0 <= j < f.answers.len() && j != id ==> g.answers[j] == f.answers[j]
        },
{
}

/// Once every answer has come, answer `i` of the response is the record
/// that stands at the place of question `i`, for every `i`.
pub proof fn lemma_response_keeps_order(f: ForwarderView, i: int)
    requires
        f.wf(),
        f.state() == ForwardState::Done,
        0 <= i < f.questions.len(),
    ensures
        f.answers[i] == Some(f.ordered_answers()[i]),
{
    lemma_count_full(f.answers);
}

} // verus!
