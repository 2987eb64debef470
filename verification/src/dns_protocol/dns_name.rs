//! Domain names: length-prefixed labels ended by a zero byte, spelled out or
//! shortened by compression pointers.
//!
//! A name is decoded from a message *body*: the bytes that follow the
//! 12-byte header. Offsets handed to and returned by this module count from
//! the start of the body. The 14-bit value of a compression pointer counts
//! from the start of the whole message, so a pointer of value `p` designates
//! the body byte at offset `p - 12`.

use crate::dns_protocol::dns_header::DNS_HEADER_SIZE;
use crate::dns_protocol::wire::DecodeError;
use vstd::prelude::*;
use vstd::slice::slice_subrange;
use vstd::slice::slice_to_vec;

verus! {

/// The longest content a label can have.
pub const MAX_LABEL_LENGTH: usize = 63;

/// One segment of a domain name: its length and its raw bytes.
#[derive(Debug, Clone, PartialEq, Eq)]
pub struct Label {
    pub length: u8,
    pub content: Vec<u8>,
}

impl View for Label {
    type V = Seq<u8>;

    /// A label stands for its content.
    open spec fn view(&self) -> Seq<u8> {
        self.content@
    }
}

impl Label {
    /// The stated length is that of the content, and lies between 1 and 63.
    pub open spec fn wf(&self) -> bool {
        &&& 1 <= self.length <= MAX_LABEL_LENGTH
        &&& self.content@.len() == self.length
    }

    /// Makes a label of `content`, unless it is empty or longer than 63 bytes.
    pub fn new(content: Vec<u8>) -> (r: Option<Label>)
        ensures
            r is Some <==> 1 <= content@.len() <= MAX_LABEL_LENGTH,
            r matches Some(label) ==> label.wf() && label@ == content@,
    {
        let n = content.len();
        if 1 <= n && n <= MAX_LABEL_LENGTH {
            Some(Label { length: n as u8, content })
        } else {
            None
        }
    }

    /// Tells whether the label is well formed.
    pub fn is_wf(&self) -> (b: bool)
        ensures
            b == self.wf(),
    {
        1 <= self.length && self.length as usize <= MAX_LABEL_LENGTH && self.content.len()
            == self.length as usize
    }
}

/// The name that a sequence of labels stands for: the content of each, in order.
pub open spec fn name_view(labels: Seq<Label>) -> Seq<Seq<u8>> {
    Seq::new(labels.len(), |i: int| labels[i]@)
}

/// Every label of the sequence is well formed.
pub open spec fn labels_wf(labels: Seq<Label>) -> bool {
    forall|i: int| 0 <= i < labels.len() ==> (#[trigger] labels[i]).wf()
}

/// Every label of the name has between 1 and 63 bytes.
pub open spec fn valid_name(name: Seq<Seq<u8>>) -> bool {
    forall|i: int| 0 <= i < name.len() ==> 1 <= (#[trigger] name[i]).len() <= MAX_LABEL_LENGTH
}

/// The wire form of a name: each label as its length byte and its content,
/// then a zero byte.
pub open spec fn name_wire(name: Seq<Seq<u8>>) -> Seq<u8>
    decreases name.len(),
{
    if name.len() == 0 {
        seq![0u8]
    } else {
        seq![name[0].len() as u8] + name[0] + name_wire(name.drop_first())
    }
}

/// The body offset that the compression pointer at `pos` designates: its
/// 14-bit value less the size of the header. Negative where the pointer
/// points into the header.
pub open spec fn pointer_target(body: Seq<u8>, pos: int) -> int {
    (body[pos] % 0x40) * 0x100 + body[pos + 1] - DNS_HEADER_SIZE
}

/// `label` in front of the labels of `rest`, or the failure of `rest`.
pub open spec fn prepend_label(
    label: Seq<u8>,
    rest: Result<Seq<Seq<u8>>, DecodeError>,
) -> Result<Seq<Seq<u8>>, DecodeError> {
    match rest {
        Ok(labels) => Ok(seq![label] + labels),
        Err(e) => Err(e),
    }
}

/// The labels of the name that starts at offset `pos` of `body`, following at
/// most `jumps` compression pointers.
///
/// A zero byte ends the name. A byte of `0xC0` or more starts a two-byte
/// pointer, which must designate a body offset strictly before itself; the
/// rest of the name is read there. A byte from `0x40` to `0xBF` is reserved.
/// Any other byte is the length of a label whose content follows.
pub open spec fn name_labels(body: Seq<u8>, pos: int, jumps: nat) -> Result<
    Seq<Seq<u8>>,
    DecodeError,
>
    decreases jumps, body.len() - pos,
{
    if pos < 0 || pos >= body.len() {
        Err(DecodeError::Truncated)
    } else if body[pos] == 0 {
        Ok(Seq::empty())
    } else if body[pos] >= 0xC0 {
        if pos + 1 >= body.len() {
            Err(DecodeError::Truncated)
        } else if pointer_target(body, pos) < 0 || pointer_target(body, pos) >= pos {
            Err(DecodeError::InvalidPointer)
        } else if jumps == 0 {
            Err(DecodeError::PointerLoop)
        } else {
            name_labels(body, pointer_target(body, pos), (jumps - 1) as nat)
        }
    } else if body[pos] >= 0x40 {
        Err(DecodeError::ReservedLength)
    } else if pos + 1 + body[pos] > body.len() {
        Err(DecodeError::Truncated)
    } else {
        prepend_label(
            body.subrange(pos + 1, pos + 1 + body[pos]),
            name_labels(body, pos + 1 + body[pos], jumps),
        )
    }
}

/// The offset just behind the name that starts at `pos`, in the stream it
/// started in: behind its zero byte, or behind its first pointer. It has a
/// meaning only where `name_labels` succeeds.
pub open spec fn name_end(body: Seq<u8>, pos: int) -> int
    decreases body.len() - pos,
{
    if pos < 0 || pos >= body.len() {
        pos
    } else if body[pos] == 0 {
        pos + 1
    } else if body[pos] >= 0xC0 {
        pos + 2
    } else if body[pos] >= 0x40 || pos + 1 + body[pos] > body.len() {
        pos
    } else {
        name_end(body, pos + 1 + body[pos])
    }
}

/// The name that starts at offset `start` of `body`, and the offset just
/// behind it. A chain of more pointers than the body has bytes cannot end,
/// and is rejected as a loop.
pub open spec fn spec_decode_name(body: Seq<u8>, start: int) -> Result<
    (Seq<Seq<u8>>, int),
    DecodeError,
> {
    match name_labels(body, start, body.len()) {
        Ok(labels) => Ok((labels, name_end(body, start))),
        Err(e) => Err(e),
    }
}

/// Decoding visits offset `at` when it reads the name that starts at `pos`
/// with `jumps` pointers to spend: `at` is where a length byte or a pointer
/// is looked at.
pub open spec fn name_visits(body: Seq<u8>, pos: int, jumps: nat, at: int) -> bool
    decreases jumps, body.len() - pos,
{
    if pos == at {
        true
    } else if pos < 0 || pos >= body.len() || body[pos] == 0 {
        false
    } else if body[pos] >= 0xC0 {
        &&& pos + 1 < body.len()
        &&& 0 <= pointer_target(body, pos) < pos
        &&& jumps > 0
        &&& name_visits(body, pointer_target(body, pos), (jumps - 1) as nat, at)
    } else if body[pos] >= 0x40 || pos + 1 + body[pos] > body.len() {
        false
    } else {
        name_visits(body, pos + 1 + body[pos], jumps, at)
    }
}

/// Writes a name in wire form.
pub fn encode_name(labels: &Vec<Label>) -> (bytes: Vec<u8>)
    requires
        labels_wf(labels@),
    ensures
        bytes@ == name_wire(name_view(labels@)),
{
    let mut bytes: Vec<u8> = Vec::new();
    let ghost name = name_view(labels@);
    let mut i: usize = 0;
    proof {
        assert(name.subrange(0, name.len() as int) == name);
        assert(bytes@ + name_wire(name) == name_wire(name));
    }
    while i < labels.len()
        invariant
            i <= labels.len(),
            labels_wf(labels@),
            name == name_view(labels@),
            bytes@ + name_wire(name.subrange(i as int, name.len() as int)) == name_wire(name),
        decreases labels.len() - i,
    {
        let label = &labels[i];
        proof {
            let tail = name.subrange(i as int, name.len() as int);
            assert(tail[0] == label@);
            assert(tail.drop_first() == name.subrange(i + 1, name.len() as int));
            assert(label.wf());
        }
        let ghost before = bytes@;
        bytes.push(label.length);
        bytes.extend_from_slice(label.content.as_slice());
        assert(bytes@ == before + seq![label@.len() as u8] + label@);
        i += 1;
    }
    assert(name.subrange(i as int, name.len() as int) == Seq::<Seq<u8>>::empty());
    bytes.push(0);
    bytes
}

/// Reads the name that starts at offset `start` of `body`.
///
/// Returns its labels and the offset at which the next structure begins:
/// where the name is shortened by a pointer, two bytes behind the start of
/// that pointer, not behind what it points to.
pub fn decode_name(body: &[u8], start: usize) -> (r: Result<(Vec<Label>, usize), DecodeError>)
    ensures
        match r {
            Ok((labels, end)) => {
                &&& spec_decode_name(body@, start as int) == Ok::<_, DecodeError>(
                    (name_view(labels@), end as int),
                )
                &&& labels_wf(labels@)
                &&& start < end <= body@.len()
            },
            Err(e) => spec_decode_name(body@, start as int) == Err::<(Seq<Seq<u8>>, int), _>(e),
        },
{
    let n = body.len();
    if start >= n {
        return Err(DecodeError::Truncated);
    }
    let mut labels: Vec<Label> = Vec::new();
    let mut pos: usize = start;
    let mut jumps: usize = n;
    let mut end: Option<usize> = None;
    proof {
        assert(name_view(labels@) == Seq::<Seq<u8>>::empty());
        lemma_prepend_all_empty(name_labels(body@, start as int, n as nat));
    }
    loop
        invariant
            n == body@.len(),
            start < n,
            pos < n,
            labels_wf(labels@),
            name_labels(body@, start as int, n as nat) == prepend_all(
                name_view(labels@),
                name_labels(body@, pos as int, jumps as nat),
            ),
            match end {
                Some(e) => e == name_end(body@, start as int) && start < e <= n,
                None => name_end(body@, start as int) == name_end(body@, pos as int) && start
                    <= pos,
            },
        decreases jumps, n - pos,
    {
        let len: u8 = body[pos];
        if len == 0 {
            let stop = match end {
                Some(e) => e,
                None => pos + 1,
            };
            proof {
                lemma_prepend_all_ok(name_view(labels@), Seq::empty());
            }
            return Ok((labels, stop));
        } else if len >= 0xC0 {
            if pos + 1 >= n {
                return Err(DecodeError::Truncated);
            }
            let low: u8 = body[pos + 1];
            let pointer: u16 = ((len & 0x3f) as u16) << 8 | (low as u16);
            assert(((len & 0x3f) as u16) << 8 | (low as u16) == (len % 0x40) * 0x100 + low)
                by (bit_vector);
            let value: usize = pointer as usize;
            if value < DNS_HEADER_SIZE || value - DNS_HEADER_SIZE >= pos {
                return Err(DecodeError::InvalidPointer);
            }
            if jumps == 0 {
                return Err(DecodeError::PointerLoop);
            }
            if end.is_none() {
                end = Some(pos + 2);
            }
            pos = value - DNS_HEADER_SIZE;
            jumps = jumps - 1;
        } else if len >= 0x40 {
            return Err(DecodeError::ReservedLength);
        } else {
            let count: usize = len as usize;
            if count > n - pos - 1 {
                return Err(DecodeError::Truncated);
            }
            let content = slice_to_vec(slice_subrange(body, pos + 1, pos + 1 + count));
            let ghost before = name_view(labels@);
            let ghost rest = name_labels(body@, (pos + 1 + count) as int, jumps as nat);
            labels.push(Label { length: len, content });
            proof {
                assert(name_view(labels@) == before.push(content@));
                lemma_prepend_all_push(before, content@, rest);
            }
            pos = pos + 1 + count;
            if pos >= n {
                return Err(DecodeError::Truncated);
            }
        }
    }
}

/// Tells whether every label of `labels` is well formed.
pub fn labels_are_wf(labels: &Vec<Label>) -> (b: bool)
    ensures
        b == labels_wf(labels@),
{
    let mut i: usize = 0;
    while i < labels.len()
        invariant
            i <= labels.len(),
            forall|k: int| 0 <= k < i ==> (#[trigger] labels@[k]).wf(),
        decreases labels.len() - i,
    {
        if !labels[i].is_wf() {
            return false;
        }
        i += 1;
    }
    true
}

/// Decoding reads a valid name back from its wire form, wherever in a body
/// the wire form stands and whatever follows it, and stops just behind it.
pub proof fn lemma_name_round_trip(
    before: Seq<u8>,
    name: Seq<Seq<u8>>,
    after: Seq<u8>,
    jumps: nat,
)
    requires
        valid_name(name),
    ensures
        name_labels(before + name_wire(name) + after, before.len() as int, jumps) == Ok::<
            _,
            DecodeError,
        >(name),
        name_end(before + name_wire(name) + after, before.len() as int) == before.len()
            + name_wire(name).len(),
    decreases name.len(),
{
    let body = before + name_wire(name) + after;
    let pos = before.len() as int;
    if name.len() == 0 {
        assert(body[pos] == 0);
        assert(name == Seq::<Seq<u8>>::empty());
    } else {
        let first = name[0];
        let rest = name.drop_first();
        let grown = before + seq![first.len() as u8] + first;
        assert(body == grown + name_wire(rest) + after);
        assert(valid_name(rest)) by {
            assert forall|i: int| 0 <= i < rest.len() implies 1 <= (#[trigger] rest[i]).len()
                <= MAX_LABEL_LENGTH by {
                assert(rest[i] == name[i + 1]);
            }
        }
        lemma_name_round_trip(grown, rest, after, jumps);
        assert(body[pos] == first.len());
        assert(body.subrange(pos + 1, pos + 1 + first.len()) == first);
        assert(seq![first] + rest == name);
    }
}

/// A valid name is read back from its own wire form.
pub proof fn lemma_decode_name_of_wire(name: Seq<Seq<u8>>)
    requires
        valid_name(name),
    ensures
        spec_decode_name(name_wire(name), 0) == Ok::<_, DecodeError>(
            (name, name_wire(name).len() as int),
        ),
{
    let wire = name_wire(name);
    assert(Seq::<u8>::empty() + wire + Seq::<u8>::empty() == wire);
    lemma_name_round_trip(Seq::empty(), name, Seq::empty(), wire.len());
}

/// A name whose decoding comes upon a length byte with top bits `01` or `10`
/// is rejected, whatever stands before that byte.
pub proof fn lemma_reserved_length_rejected(body: Seq<u8>, start: int, jumps: nat, at: int)
    requires
        name_visits(body, start, jumps, at),
        0 <= at < body.len(),
        0x40 <= body[at] < 0xC0,
    ensures
        name_labels(body, start, jumps) == Err::<Seq<Seq<u8>>, _>(DecodeError::ReservedLength),
    decreases jumps, body.len() - start,
{
    if start != at {
        if body[start] >= 0xC0 {
            lemma_reserved_length_rejected(
                body,
                pointer_target(body, start),
                (jumps - 1) as nat,
                at,
            );
        } else {
            lemma_reserved_length_rejected(body, start + 1 + body[start], jumps, at);
        }
    }
}

/// A name whose decoding comes upon a pointer that designates its own offset,
/// a later one, or the header is rejected, whatever stands before that
/// pointer: no pointer is followed forward.
pub proof fn lemma_forward_pointer_rejected(body: Seq<u8>, start: int, jumps: nat, at: int)
    requires
        name_visits(body, start, jumps, at),
        0 <= at,
        at + 1 < body.len(),
        body[at] >= 0xC0,
        pointer_target(body, at) >= at || pointer_target(body, at) < 0,
    ensures
        name_labels(body, start, jumps) == Err::<Seq<Seq<u8>>, _>(DecodeError::InvalidPointer),
    decreases jumps, body.len() - start,
{
    if start != at {
        if body[start] >= 0xC0 {
            lemma_forward_pointer_rejected(
                body,
                pointer_target(body, start),
                (jumps - 1) as nat,
                at,
            );
        } else {
            lemma_forward_pointer_rejected(body, start + 1 + body[start], jumps, at);
        }
    }
}

/// `labels` in front of the labels of `rest`, or the failure of `rest`.
pub open spec fn prepend_all(
    labels: Seq<Seq<u8>>,
    rest: Result<Seq<Seq<u8>>, DecodeError>,
) -> Result<Seq<Seq<u8>>, DecodeError> {
    match rest {
        Ok(more) => Ok(labels + more),
        Err(e) => Err(e),
    }
}

proof fn lemma_prepend_all_empty(rest: Result<Seq<Seq<u8>>, DecodeError>)
    ensures
        prepend_all(Seq::empty(), rest) == rest,
{
    match rest {
        Ok(more) => {
            assert(Seq::<Seq<u8>>::empty() + more == more);
        },
        Err(_) => {},
    }
}

proof fn lemma_prepend_all_ok(labels: Seq<Seq<u8>>, more: Seq<Seq<u8>>)
    requires
        more.len() == 0,
    ensures
        prepend_all(labels, Ok(more)) == Ok::<_, DecodeError>(labels),
{
    assert(labels + more == labels);
}

proof fn lemma_prepend_all_push(
    labels: Seq<Seq<u8>>,
    label: Seq<u8>,
    rest: Result<Seq<Seq<u8>>, DecodeError>,
)
    ensures
        prepend_all(labels, prepend_label(label, rest)) == prepend_all(labels.push(label), rest),
{
    match rest {
        Ok(more) => {
            assert(labels + (seq![label] + more) == labels.push(label) + more);
        },
        Err(_) => {},
    }
}

} // verus!
