//! Why a budget of as many jumps as the body has bytes is enough: a chain of
//! compression pointers that needs more never ends.

use crate::dns_protocol::dns_name::name_labels;
use crate::dns_protocol::dns_name::pointer_target;
use crate::dns_protocol::wire::DecodeError;
use vstd::prelude::*;

verus! {

/// The offset that the name starting at `pos` jumps to: what its first
/// pointer designates, where sound labels lead up to a valid pointer. It is
/// -1 where the name ends or fails before it follows a pointer.
pub open spec fn first_jump(body: Seq<u8>, pos: int) -> int
    decreases body.len() - pos,
{
    if pos < 0 || pos >= body.len() || body[pos] == 0 {
        -1
    } else if body[pos] >= 0xC0 {
        if pos + 1 < body.len() && 0 <= pointer_target(body, pos) < pos {
            pointer_target(body, pos)
        } else {
            -1
        }
    } else if body[pos] >= 0x40 || pos + 1 + body[pos] > body.len() {
        -1
    } else {
        first_jump(body, pos + 1 + body[pos])
    }
}

/// Where the reading of the name starting at `pos` stands after `count`
/// jumps, or -1 where it ends or fails before that many.
pub open spec fn after_jumps(body: Seq<u8>, pos: int, count: nat) -> int
    decreases count,
{
    if count == 0 {
        pos
    } else if first_jump(body, pos) < 0 {
        -1
    } else {
        after_jumps(body, first_jump(body, pos), (count - 1) as nat)
    }
}

/// A jump lands inside the body.
proof fn lemma_first_jump_in_body(body: Seq<u8>, pos: int)
    ensures
        first_jump(body, pos) < body.len(),
        first_jump(body, pos) >= -1,
    decreases body.len() - pos,
{
    if pos < 0 || pos >= body.len() || body[pos] == 0 {
    } else if body[pos] >= 0xC0 {
    } else if body[pos] >= 0x40 || pos + 1 + body[pos] > body.len() {
    } else {
        lemma_first_jump_in_body(body, pos + 1 + body[pos]);
    }
}

/// After at least one jump the reading stands inside the body, or has
/// ended.
proof fn lemma_after_jumps_in_body(body: Seq<u8>, pos: int, count: nat)
    requires
        count > 0,
    ensures
        -1 <= after_jumps(body, pos, count) < body.len(),
    decreases count,
{
    reveal_with_fuel(after_jumps, 2);
    lemma_first_jump_in_body(body, pos);
    if first_jump(body, pos) >= 0 && count > 1 {
        lemma_after_jumps_in_body(body, first_jump(body, pos), (count - 1) as nat);
    }
}

/// A name is rejected as a loop exactly where its reading makes more jumps
/// than the budget allows.
proof fn lemma_loop_is_one_jump_too_many(body: Seq<u8>, pos: int, jumps: nat)
    ensures
        name_labels(body, pos, jumps) == Err::<Seq<Seq<u8>>, _>(DecodeError::PointerLoop)
            <==> after_jumps(body, pos, jumps + 1) >= 0,
    decreases jumps, body.len() - pos,
{
    reveal_with_fuel(after_jumps, 2);
    if pos < 0 || pos >= body.len() || body[pos] == 0 {
    } else if body[pos] >= 0xC0 {
        if pos + 1 < body.len() && 0 <= pointer_target(body, pos) < pos {
            if jumps > 0 {
                lemma_loop_is_one_jump_too_many(
                    body,
                    pointer_target(body, pos),
                    (jumps - 1) as nat,
                );
            }
        }
    } else if body[pos] >= 0x40 || pos + 1 + body[pos] > body.len() {
    } else {
        let next = pos + 1 + body[pos];
        lemma_loop_is_one_jump_too_many(body, next, jumps);
        assert(first_jump(body, pos) == first_jump(body, next));
        assert(after_jumps(body, pos, jumps + 1) == after_jumps(body, next, jumps + 1));
    }
}

/// Jumps made one run after the other are jumps made in one run.
proof fn lemma_after_jumps_add(body: Seq<u8>, pos: int, first: nat, then: nat)
    requires
        pos >= -1,
    ensures
        after_jumps(body, pos, first + then) == after_jumps(
            body,
            after_jumps(body, pos, first),
            then,
        ),
    decreases first,
{
    if first == 0 {
    } else if first_jump(body, pos) < 0 {
        lemma_ended_stays_ended(body, then);
    } else {
        lemma_after_jumps_add(body, first_jump(body, pos), (first - 1) as nat, then);
    }
}

/// A reading that has ended makes no more jumps.
proof fn lemma_ended_stays_ended(body: Seq<u8>, count: nat)
    ensures
        after_jumps(body, -1, count) == -1,
{
}

/// Where the reading makes `count` jumps, it makes any smaller number.
proof fn lemma_fewer_jumps(body: Seq<u8>, pos: int, fewer: nat, count: nat)
    requires
        pos >= 0,
        fewer <= count,
        after_jumps(body, pos, count) >= 0,
    ensures
        after_jumps(body, pos, fewer) >= 0,
{
    lemma_after_jumps_add(body, pos, fewer, (count - fewer) as nat);
    if fewer > 0 {
        lemma_after_jumps_in_body(body, pos, fewer);
    }
    if after_jumps(body, pos, fewer) < 0 {
        lemma_ended_stays_ended(body, (count - fewer) as nat);
    }
}

/// A reading that comes back to where it was goes round for ever.
proof fn lemma_round_for_ever(body: Seq<u8>, pos: int, a: nat, b: nat, count: nat)
    requires
        pos >= 0,
        a < b,
        after_jumps(body, pos, a) == after_jumps(body, pos, b),
        after_jumps(body, pos, b) >= 0,
    ensures
        after_jumps(body, pos, count) >= 0,
    decreases count,
{
    if count <= b {
        lemma_fewer_jumps(body, pos, count, b);
    } else {
        let back = (a + (count - b)) as nat;
        lemma_after_jumps_add(body, pos, b, (count - b) as nat);
        lemma_after_jumps_add(body, pos, a, (count - b) as nat);
        lemma_round_for_ever(body, pos, a, b, back);
    }
}

/// More values than the range they lie in has room for: two of them are
/// the same.
proof fn lemma_two_the_same(values: spec_fn(int) -> int, count: int, bound: int)
    requires
        0 <= bound < count,
        forall|i: int| 0 <= i < count ==> 0 <= #[trigger] values(i) < bound,
    ensures
        exists|a: int, b: int| 0 <= a < b < count && #[trigger] values(a) == #[trigger] values(b),
    decreases bound,
{
    if bound == 0 {
        assert(0 <= values(0) < bound);
    } else {
        let top = bound - 1;
        let last = count - 1;
        if exists|a: int, b: int| 0 <= a < b < count && #[trigger] values(a) == top
            && #[trigger] values(b) == top {
            let (a, b) = choose|a: int, b: int| 0 <= a < b < count && #[trigger] values(a) == top
                && #[trigger] values(b) == top;
            assert(values(a) == values(b));
        } else {
            let moved = |i: int| if values(i) == top { values(last) } else { values(i) };
            assert forall|i: int| 0 <= i < last implies 0 <= #[trigger] moved(i) < top by {
                assert(0 <= values(i) < bound);
                assert(0 <= values(last) < bound);
                if values(i) == top {
                    if values(last) == top {
                        assert(values(i) == top && values(last) == top);
                    }
                }
            }
            lemma_two_the_same(moved, last, top);
            let (a, b) = choose|a: int, b: int| 0 <= a < b < last && #[trigger] moved(a)
                == #[trigger] moved(b);
            if values(a) == top {
                if values(b) == top {
                    assert(values(a) == top && values(b) == top);
                }
                assert(values(b) == values(last));
            } else if values(b) == top {
                assert(values(a) == values(last));
            } else {
                assert(values(a) == values(b));
            }
        }
    }
}

/// A name that a budget of as many jumps as the body has bytes rejects as a
/// loop is rejected as a loop under every budget: the reading of its
/// pointers never ends.
pub proof fn lemma_loop_never_ends(body: Seq<u8>, start: int, jumps: nat)
    requires
        name_labels(body, start, body.len()) == Err::<Seq<Seq<u8>>, _>(DecodeError::PointerLoop),
    ensures
        name_labels(body, start, jumps) == Err::<Seq<Seq<u8>>, _>(DecodeError::PointerLoop),
{
    let len = body.len() as int;
    lemma_loop_is_one_jump_too_many(body, start, body.len());
    assert(start >= 0);
    let values = |i: int| after_jumps(body, start, (i + 1) as nat);
    assert forall|i: int| 0 <= i < len + 1 implies 0 <= #[trigger] values(i) < len by {
        lemma_fewer_jumps(body, start, (i + 1) as nat, (len + 1) as nat);
        lemma_after_jumps_in_body(body, start, (i + 1) as nat);
    }
    lemma_two_the_same(values, len + 1, len);
    let (a, b) = choose|a: int, b: int| 0 <= a < b < len + 1 && #[trigger] values(a)
        == #[trigger] values(b);
    lemma_round_for_ever(body, start, (a + 1) as nat, (b + 1) as nat, jumps + 1);
    lemma_loop_is_one_jump_too_many(body, start, jumps);
}

/// A name that is not rejected as a loop decodes to the same under every
/// larger budget of jumps.
pub proof fn lemma_jumps_to_spare(body: Seq<u8>, pos: int, jumps: nat, more: nat)
    requires
        jumps <= more,
        name_labels(body, pos, jumps) != Err::<Seq<Seq<u8>>, _>(DecodeError::PointerLoop),
    ensures
        name_labels(body, pos, more) == name_labels(body, pos, jumps),
    decreases jumps, body.len() - pos,
{
    if pos < 0 || pos >= body.len() || body[pos] == 0 {
    } else if body[pos] >= 0xC0 {
        if pos + 1 < body.len() && 0 <= pointer_target(body, pos) < pos {
            lemma_jumps_to_spare(
                body,
                pointer_target(body, pos),
                (jumps - 1) as nat,
                (more - 1) as nat,
            );
        }
    } else if body[pos] >= 0x40 || pos + 1 + body[pos] > body.len() {
    } else {
        lemma_jumps_to_spare(body, pos + 1 + body[pos], jumps, more);
    }
}

/// The budget of jumps decides nothing: no larger budget than as many jumps
/// as the body has bytes decodes a name otherwise.
pub proof fn lemma_jump_budget_is_enough(body: Seq<u8>, start: int, jumps: nat)
    requires
        jumps >= body.len(),
    ensures
        name_labels(body, start, jumps) == name_labels(body, start, body.len()),
{
    if name_labels(body, start, body.len()) == Err::<Seq<Seq<u8>>, _>(DecodeError::PointerLoop) {
        lemma_loop_never_ends(body, start, jumps);
    } else {
        lemma_jumps_to_spare(body, start, body.len(), jumps);
    }
}

} // verus!
