//! Merging two sequentially applied diffs into one.
//!
//! The pairing walks both diffs in lockstep over the intermediate text,
//! holding on each side either the next whole operation or the remainder of
//! an operation that was split. Each step resolves one pair of cursor
//! states and feeds the outcome into a [`Builder`]. Every step is a private
//! helper whose contract says what it does to the built prefix and to the
//! two remainders, phrased against the specification pairing
//! [`compose_ops`].

use vstd::prelude::*;

use crate::builder::Builder;
use crate::diff::{lemma_diff_view, ops_view, Op, TextDiff};
use crate::lemmas::{
    lemma_len_cons, lemma_push_all_step, lemma_push_delete, lemma_push_insert, lemma_push_retain,
};
use crate::model::{
    compose_ops, compose_spec, input_len, op_input_len, push_all, shrink, SpecOp,
};
use crate::text::Text;

verus! {

/// The operations a cursor still has to hand out: the current, possibly
/// partially consumed operation, then the untouched rest.
pub open spec fn rem_view(cur: Option<Op>, rest: Seq<Op>) -> Seq<SpecOp> {
    match cur {
        Some(op) => seq![op@] + ops_view(rest),
        None => ops_view(rest),
    }
}

/// Takes the front operation off the list, if any.
fn next_op(ops: &mut Vec<Op>) -> (r: Option<Op>)
    ensures
        old(ops)@.len() > 0 ==> {
            &&& r == Some(old(ops)@[0])
            &&& final(ops)@ == old(ops)@.drop_first()
        },
        old(ops)@.len() == 0 ==> {
            &&& r is None
            &&& final(ops)@ == old(ops)@
        },
        rem_view(r, final(ops)@) == ops_view(old(ops)@),
{
    if ops.len() > 0 {
        let op = ops.remove(0);
        proof {
            assert(ops@ =~= old(ops)@.drop_first());
            assert(rem_view(Some(op), ops@) =~= ops_view(old(ops)@));
        }
        Some(op)
    } else {
        None
    }
}

/// An insert at `other`'s cursor passes straight through: it consumes
/// nothing of what `self` produced, whatever `self`'s cursor holds.
fn step_insert_passes(builder: &mut Builder, b: &mut Vec<Op>, text: Text, Ghost(ra): Ghost<
    Seq<SpecOp>,
>) -> (r: Option<Op>)
    requires
        old(builder).wf(),
    ensures
        final(builder).wf(),
        input_len(final(builder)@) == input_len(old(builder)@),
        ({
            let rb = seq![SpecOp::Insert(text@)] + ops_view(old(b)@);
            let rb2 = rem_view(r, final(b)@);
            &&& push_all(final(builder)@, compose_ops(ra, rb2)) == push_all(
                old(builder)@,
                compose_ops(ra, rb),
            )
            &&& input_len(rb2) == input_len(rb)
            &&& rb2.len() < rb.len()
            &&& r is None ==> final(b)@.len() == 0
        }),
{
    let ghost t = text@;
    let ghost bv = builder@;
    let ghost rb = seq![SpecOp::Insert(t)] + ops_view(b@);
    builder.insert(text);
    let r = next_op(b);
    proof {
        assert(rb[0] == SpecOp::Insert(t));
        assert(rb.drop_first() =~= ops_view(old(b)@));
        assert(compose_ops(ra, rb) == seq![rb[0]] + compose_ops(ra, rb.drop_first()));
        lemma_push_all_step(bv, rb[0], compose_ops(ra, rb.drop_first()));
        lemma_push_insert(bv, t);
        lemma_len_cons(rb[0], rb.drop_first());
    }
    r
}

/// A delete at `self`'s cursor is emitted as it stands: it removed this
/// span before `other` could see it. `other`'s cursor must not hold an
/// insert (that case passes through first).
fn step_delete_passes(builder: &mut Builder, a: &mut Vec<Op>, n0: usize, Ghost(rb): Ghost<
    Seq<SpecOp>,
>) -> (r: Option<Op>)
    requires
        old(builder).wf(),
        input_len(old(builder)@) + n0 <= usize::MAX,
        !(rb.len() > 0 && rb[0] is Insert),
    ensures
        final(builder).wf(),
        input_len(final(builder)@) <= input_len(old(builder)@) + n0,
        ({
            let ra = seq![SpecOp::Delete(n0 as nat)] + ops_view(old(a)@);
            let ra2 = rem_view(r, final(a)@);
            &&& push_all(final(builder)@, compose_ops(ra2, rb)) == push_all(
                old(builder)@,
                compose_ops(ra, rb),
            )
            &&& input_len(ra2) + n0 == input_len(ra)
            &&& ra2.len() < ra.len()
            &&& r is None ==> final(a)@.len() == 0
        }),
{
    let ghost bv = builder@;
    let ghost ra = seq![SpecOp::Delete(n0 as nat)] + ops_view(a@);
    builder.delete(n0);
    let r = next_op(a);
    proof {
        assert(ra[0] == SpecOp::Delete(n0 as nat));
        assert(ra.drop_first() =~= ops_view(old(a)@));
        assert(compose_ops(ra, rb) == seq![ra[0]] + compose_ops(ra.drop_first(), rb));
        lemma_push_all_step(bv, ra[0], compose_ops(ra.drop_first(), rb));
        lemma_push_delete(bv, n0 as nat);
        lemma_len_cons(ra[0], ra.drop_first());
    }
    r
}

/// With `other` exhausted, whatever `self`'s cursor holds is emitted as it
/// stands: nothing remains in `other` to change it.
fn step_a_tail(builder: &mut Builder, a: &mut Vec<Op>, op: Op) -> (r: Option<Op>)
    requires
        old(builder).wf(),
        input_len(old(builder)@) + op_input_len(op@) <= usize::MAX,
    ensures
        final(builder).wf(),
        input_len(final(builder)@) <= input_len(old(builder)@) + op_input_len(op@),
        ({
            let ra = seq![op@] + ops_view(old(a)@);
            let ra2 = rem_view(r, final(a)@);
            &&& push_all(final(builder)@, compose_ops(ra2, Seq::empty())) == push_all(
                old(builder)@,
                compose_ops(ra, Seq::empty()),
            )
            &&& input_len(ra2) + op_input_len(op@) == input_len(ra)
            &&& ra2.len() < ra.len()
            &&& r is None ==> final(a)@.len() == 0
        }),
{
    let ghost bv = builder@;
    let ghost ra = seq![op@] + ops_view(a@);
    match op {
        Op::Retain(n0) => {
            builder.retain(n0);
            proof {
                lemma_push_retain(bv, n0 as nat);
            }
        },
        Op::Delete(n0) => {
            builder.delete(n0);
            proof {
                lemma_push_delete(bv, n0 as nat);
            }
        },
        Op::Insert(text) => {
            builder.insert(text);
            proof {
                lemma_push_insert(bv, ra[0]->Insert_0);
            }
        },
    }
    let r = next_op(a);
    proof {
        assert(ra.drop_first() =~= ops_view(old(a)@));
        assert(compose_ops(ra, Seq::empty()) == seq![ra[0]] + compose_ops(
            ra.drop_first(),
            Seq::empty(),
        ));
        lemma_push_all_step(bv, ra[0], compose_ops(ra.drop_first(), Seq::empty()));
        lemma_len_cons(ra[0], ra.drop_first());
    }
    r
}

/// With `self` exhausted, a retain or delete at `other`'s cursor addresses
/// the source tail beyond `self`'s reach and is emitted as it stands.
fn step_b_tail(builder: &mut Builder, b: &mut Vec<Op>, op: Op) -> (r: Option<Op>)
    requires
        old(builder).wf(),
        !(op is Insert),
        input_len(old(builder)@) + op_input_len(op@) <= usize::MAX,
    ensures
        final(builder).wf(),
        input_len(final(builder)@) <= input_len(old(builder)@) + op_input_len(op@),
        ({
            let rb = seq![op@] + ops_view(old(b)@);
            let rb2 = rem_view(r, final(b)@);
            &&& push_all(final(builder)@, compose_ops(Seq::empty(), rb2)) == push_all(
                old(builder)@,
                compose_ops(Seq::empty(), rb),
            )
            &&& input_len(rb2) + op_input_len(op@) == input_len(rb)
            &&& rb2.len() < rb.len()
            &&& r is None ==> final(b)@.len() == 0
        }),
{
    let ghost bv = builder@;
    let ghost rb = seq![op@] + ops_view(b@);
    match op {
        Op::Retain(n1) => {
            builder.retain(n1);
            proof {
                lemma_push_retain(bv, n1 as nat);
            }
        },
        Op::Delete(n1) => {
            builder.delete(n1);
            proof {
                lemma_push_delete(bv, n1 as nat);
            }
        },
        Op::Insert(text) => {
            builder.insert(text);
        },
    }
    let r = next_op(b);
    proof {
        assert(rb.drop_first() =~= ops_view(old(b)@));
        assert(compose_ops(Seq::empty(), rb) == seq![rb[0]] + compose_ops(
            Seq::empty(),
            rb.drop_first(),
        ));
        lemma_push_all_step(bv, rb[0], compose_ops(Seq::empty(), rb.drop_first()));
        lemma_len_cons(rb[0], rb.drop_first());
    }
    r
}

/// Retain against retain: the overlap stays retained; the longer side
/// carries its remainder forward.
fn step_retain_retain(builder: &mut Builder, a: &mut Vec<Op>, b: &mut Vec<Op>, n0: usize, n1:
    usize) -> (r: (Option<Op>, Option<Op>))
    requires
        old(builder).wf(),
        input_len(old(builder)@) + n0 + n1 <= usize::MAX,
    ensures
        final(builder).wf(),
        ({
            let ra = seq![SpecOp::Retain(n0 as nat)] + ops_view(old(a)@);
            let rb = seq![SpecOp::Retain(n1 as nat)] + ops_view(old(b)@);
            let ra2 = rem_view(r.0, final(a)@);
            let rb2 = rem_view(r.1, final(b)@);
            &&& push_all(final(builder)@, compose_ops(ra2, rb2)) == push_all(
                old(builder)@,
                compose_ops(ra, rb),
            )
            &&& input_len(final(builder)@) + input_len(ra2) + input_len(rb2) <= input_len(
                old(builder)@,
            ) + input_len(ra) + input_len(rb)
            &&& ra2.len() + rb2.len() < ra.len() + rb.len()
            &&& r.0 is None ==> final(a)@.len() == 0
            &&& r.1 is None ==> final(b)@.len() == 0
        }),
{
    let ghost bv = builder@;
    let ghost ra = seq![SpecOp::Retain(n0 as nat)] + ops_view(a@);
    let ghost rb = seq![SpecOp::Retain(n1 as nat)] + ops_view(b@);
    proof {
        assert(ra.drop_first() =~= ops_view(old(a)@));
        assert(rb.drop_first() =~= ops_view(old(b)@));
        lemma_len_cons(ra[0], ra.drop_first());
        lemma_len_cons(rb[0], rb.drop_first());
    }
    if n0 < n1 {
        builder.retain(n0);
        let r0 = next_op(a);
        let r1 = Some(Op::Retain(n1 - n0));
        proof {
            let rb2 = rb.update(0, shrink(rb[0], n0 as nat));
            assert(compose_ops(ra, rb) == seq![SpecOp::Retain(n0 as nat)] + compose_ops(
                ra.drop_first(),
                rb2,
            ));
            lemma_push_all_step(bv, SpecOp::Retain(n0 as nat), compose_ops(ra.drop_first(), rb2));
            lemma_push_retain(bv, n0 as nat);
            assert(rem_view(r1, b@) =~= rb2);
            assert(rb2.drop_first() =~= rb.drop_first());
            lemma_len_cons(rb2[0], rb2.drop_first());
            assert(rb2 =~= seq![rb2[0]] + rb2.drop_first());
        }
        (r0, r1)
    } else if n0 == n1 {
        builder.retain(n0);
        let r0 = next_op(a);
        let r1 = next_op(b);
        proof {
            assert(compose_ops(ra, rb) == seq![SpecOp::Retain(n0 as nat)] + compose_ops(
                ra.drop_first(),
                rb.drop_first(),
            ));
            lemma_push_all_step(
                bv,
                SpecOp::Retain(n0 as nat),
                compose_ops(ra.drop_first(), rb.drop_first()),
            );
            lemma_push_retain(bv, n0 as nat);
        }
        (r0, r1)
    } else {
        builder.retain(n1);
        let r0 = Some(Op::Retain(n0 - n1));
        let r1 = next_op(b);
        proof {
            let ra2 = ra.update(0, SpecOp::Retain((n0 - n1) as nat));
            assert(compose_ops(ra, rb) == seq![SpecOp::Retain(n1 as nat)] + compose_ops(
                ra2,
                rb.drop_first(),
            ));
            lemma_push_all_step(bv, SpecOp::Retain(n1 as nat), compose_ops(ra2, rb.drop_first()));
            lemma_push_retain(bv, n1 as nat);
            assert(rem_view(r0, a@) =~= ra2);
            assert(ra2.drop_first() =~= ra.drop_first());
            lemma_len_cons(ra2[0], ra2.drop_first());
            assert(ra2 =~= seq![ra2[0]] + ra2.drop_first());
        }
        (r0, r1)
    }
}

/// Retain against delete: the span `self` passed through is deleted by
/// `other`; the overlap is emitted as a delete.
fn step_retain_delete(builder: &mut Builder, a: &mut Vec<Op>, b: &mut Vec<Op>, n0: usize, n1:
    usize) -> (r: (Option<Op>, Option<Op>))
    requires
        old(builder).wf(),
        input_len(old(builder)@) + n0 + n1 <= usize::MAX,
    ensures
        final(builder).wf(),
        ({
            let ra = seq![SpecOp::Retain(n0 as nat)] + ops_view(old(a)@);
            let rb = seq![SpecOp::Delete(n1 as nat)] + ops_view(old(b)@);
            let ra2 = rem_view(r.0, final(a)@);
            let rb2 = rem_view(r.1, final(b)@);
            &&& push_all(final(builder)@, compose_ops(ra2, rb2)) == push_all(
                old(builder)@,
                compose_ops(ra, rb),
            )
            &&& input_len(final(builder)@) + input_len(ra2) + input_len(rb2) <= input_len(
                old(builder)@,
            ) + input_len(ra) + input_len(rb)
            &&& ra2.len() + rb2.len() < ra.len() + rb.len()
            &&& r.0 is None ==> final(a)@.len() == 0
            &&& r.1 is None ==> final(b)@.len() == 0
        }),
{
    let ghost bv = builder@;
    let ghost ra = seq![SpecOp::Retain(n0 as nat)] + ops_view(a@);
    let ghost rb = seq![SpecOp::Delete(n1 as nat)] + ops_view(b@);
    proof {
        assert(ra.drop_first() =~= ops_view(old(a)@));
        assert(rb.drop_first() =~= ops_view(old(b)@));
        lemma_len_cons(ra[0], ra.drop_first());
        lemma_len_cons(rb[0], rb.drop_first());
    }
    if n0 < n1 {
        builder.delete(n0);
        let r0 = next_op(a);
        let r1 = Some(Op::Delete(n1 - n0));
        proof {
            let rb2 = rb.update(0, shrink(rb[0], n0 as nat));
            assert(compose_ops(ra, rb) == seq![SpecOp::Delete(n0 as nat)] + compose_ops(
                ra.drop_first(),
                rb2,
            ));
            lemma_push_all_step(bv, SpecOp::Delete(n0 as nat), compose_ops(ra.drop_first(), rb2));
            lemma_push_delete(bv, n0 as nat);
            assert(rem_view(r1, b@) =~= rb2);
            assert(rb2.drop_first() =~= rb.drop_first());
            lemma_len_cons(rb2[0], rb2.drop_first());
            assert(rb2 =~= seq![rb2[0]] + rb2.drop_first());
        }
        (r0, r1)
    } else if n0 == n1 {
        builder.delete(n0);
        let r0 = next_op(a);
        let r1 = next_op(b);
        proof {
            assert(compose_ops(ra, rb) == seq![SpecOp::Delete(n0 as nat)] + compose_ops(
                ra.drop_first(),
                rb.drop_first(),
            ));
            lemma_push_all_step(
                bv,
                SpecOp::Delete(n0 as nat),
                compose_ops(ra.drop_first(), rb.drop_first()),
            );
            lemma_push_delete(bv, n0 as nat);
        }
        (r0, r1)
    } else {
        builder.delete(n1);
        let r0 = Some(Op::Retain(n0 - n1));
        let r1 = next_op(b);
        proof {
            let ra2 = ra.update(0, SpecOp::Retain((n0 - n1) as nat));
            assert(compose_ops(ra, rb) == seq![SpecOp::Delete(n1 as nat)] + compose_ops(
                ra2,
                rb.drop_first(),
            ));
            lemma_push_all_step(bv, SpecOp::Delete(n1 as nat), compose_ops(ra2, rb.drop_first()));
            lemma_push_delete(bv, n1 as nat);
            assert(rem_view(r0, a@) =~= ra2);
            assert(ra2.drop_first() =~= ra.drop_first());
            lemma_len_cons(ra2[0], ra2.drop_first());
            assert(ra2 =~= seq![ra2[0]] + ra2.drop_first());
        }
        (r0, r1)
    }
}

/// Insert against retain: `other` keeps some or all of `self`'s inserted
/// text, so that prefix is emitted as an insert.
fn step_insert_retain(builder: &mut Builder, a: &mut Vec<Op>, b: &mut Vec<Op>, text: Text, n1:
    usize) -> (r: (Option<Op>, Option<Op>))
    requires
        old(builder).wf(),
    ensures
        final(builder).wf(),
        input_len(final(builder)@) == input_len(old(builder)@),
        ({
            let ra = seq![SpecOp::Insert(text@)] + ops_view(old(a)@);
            let rb = seq![SpecOp::Retain(n1 as nat)] + ops_view(old(b)@);
            let ra2 = rem_view(r.0, final(a)@);
            let rb2 = rem_view(r.1, final(b)@);
            &&& push_all(final(builder)@, compose_ops(ra2, rb2)) == push_all(
                old(builder)@,
                compose_ops(ra, rb),
            )
            &&& input_len(ra2) + input_len(rb2) <= input_len(ra) + input_len(rb)
            &&& ra2.len() + rb2.len() < ra.len() + rb.len()
            &&& r.0 is None ==> final(a)@.len() == 0
            &&& r.1 is None ==> final(b)@.len() == 0
        }),
{
    let ghost bv = builder@;
    let ghost t = text@;
    let ghost ra = seq![SpecOp::Insert(t)] + ops_view(a@);
    let ghost rb = seq![SpecOp::Retain(n1 as nat)] + ops_view(b@);
    proof {
        assert(ra.drop_first() =~= ops_view(old(a)@));
        assert(rb.drop_first() =~= ops_view(old(b)@));
        lemma_len_cons(ra[0], ra.drop_first());
        lemma_len_cons(rb[0], rb.drop_first());
    }
    let tlen = text.len();
    if tlen < n1 {
        builder.insert(text);
        let r0 = next_op(a);
        let r1 = Some(Op::Retain(n1 - tlen));
        proof {
            let rb2 = rb.update(0, shrink(rb[0], t.len()));
            assert(compose_ops(ra, rb) == seq![SpecOp::Insert(t)] + compose_ops(
                ra.drop_first(),
                rb2,
            ));
            lemma_push_all_step(bv, SpecOp::Insert(t), compose_ops(ra.drop_first(), rb2));
            lemma_push_insert(bv, t);
            assert(rem_view(r1, b@) =~= rb2);
            assert(rb2.drop_first() =~= rb.drop_first());
            lemma_len_cons(rb2[0], rb2.drop_first());
            assert(rb2 =~= seq![rb2[0]] + rb2.drop_first());
        }
        (r0, r1)
    } else if tlen == n1 {
        builder.insert(text);
        let r0 = next_op(a);
        let r1 = next_op(b);
        proof {
            assert(compose_ops(ra, rb) == seq![SpecOp::Insert(t)] + compose_ops(
                ra.drop_first(),
                rb.drop_first(),
            ));
            lemma_push_all_step(bv, SpecOp::Insert(t), compose_ops(
                ra.drop_first(),
                rb.drop_first(),
            ));
            lemma_push_insert(bv, t);
        }
        (r0, r1)
    } else {
        let mut text = text;
        let prefix = text.take(n1);
        builder.insert(prefix);
        let r0 = Some(Op::Insert(text));
        let r1 = next_op(b);
        proof {
            let ra2 = ra.update(0, SpecOp::Insert(t.skip(n1 as int)));
            assert(compose_ops(ra, rb) == seq![SpecOp::Insert(t.take(n1 as int))] + compose_ops(
                ra2,
                rb.drop_first(),
            ));
            lemma_push_all_step(
                bv,
                SpecOp::Insert(t.take(n1 as int)),
                compose_ops(ra2, rb.drop_first()),
            );
            lemma_push_insert(bv, t.take(n1 as int));
            assert(rem_view(r0, a@) =~= ra2);
            assert(ra2.drop_first() =~= ra.drop_first());
            lemma_len_cons(ra2[0], ra2.drop_first());
            assert(ra2 =~= seq![ra2[0]] + ra2.drop_first());
        }
        (r0, r1)
    }
}

/// Insert against delete: `other` deletes some or all of `self`'s inserted
/// text. The overlap vanishes and nothing is emitted.
fn step_insert_delete(builder: &mut Builder, a: &mut Vec<Op>, b: &mut Vec<Op>, text: Text, n1:
    usize) -> (r: (Option<Op>, Option<Op>))
    requires
        old(builder).wf(),
    ensures
        *final(builder) == *old(builder),
        ({
            let ra = seq![SpecOp::Insert(text@)] + ops_view(old(a)@);
            let rb = seq![SpecOp::Delete(n1 as nat)] + ops_view(old(b)@);
            let ra2 = rem_view(r.0, final(a)@);
            let rb2 = rem_view(r.1, final(b)@);
            &&& compose_ops(ra2, rb2) == compose_ops(ra, rb)
            &&& input_len(ra2) + input_len(rb2) <= input_len(ra) + input_len(rb)
            &&& ra2.len() + rb2.len() < ra.len() + rb.len()
            &&& r.0 is None ==> final(a)@.len() == 0
            &&& r.1 is None ==> final(b)@.len() == 0
        }),
{
    let ghost t = text@;
    let ghost ra = seq![SpecOp::Insert(t)] + ops_view(a@);
    let ghost rb = seq![SpecOp::Delete(n1 as nat)] + ops_view(b@);
    proof {
        assert(ra.drop_first() =~= ops_view(old(a)@));
        assert(rb.drop_first() =~= ops_view(old(b)@));
        lemma_len_cons(ra[0], ra.drop_first());
        lemma_len_cons(rb[0], rb.drop_first());
    }
    let tlen = text.len();
    if tlen < n1 {
        let r0 = next_op(a);
        let r1 = Some(Op::Delete(n1 - tlen));
        proof {
            let rb2 = rb.update(0, shrink(rb[0], t.len()));
            assert(compose_ops(ra, rb) == compose_ops(ra.drop_first(), rb2));
            assert(rem_view(r1, b@) =~= rb2);
            assert(rb2.drop_first() =~= rb.drop_first());
            lemma_len_cons(rb2[0], rb2.drop_first());
            assert(rb2 =~= seq![rb2[0]] + rb2.drop_first());
        }
        (r0, r1)
    } else if tlen == n1 {
        let r0 = next_op(a);
        let r1 = next_op(b);
        proof {
            assert(compose_ops(ra, rb) == compose_ops(ra.drop_first(), rb.drop_first()));
        }
        (r0, r1)
    } else {
        let mut text = text;
        text.skip(n1);
        let r0 = Some(Op::Insert(text));
        let r1 = next_op(b);
        proof {
            let ra2 = ra.update(0, SpecOp::Insert(t.skip(n1 as int)));
            assert(compose_ops(ra, rb) == compose_ops(ra2, rb.drop_first()));
            assert(rem_view(r0, a@) =~= ra2);
            assert(ra2.drop_first() =~= ra.drop_first());
            lemma_len_cons(ra2[0], ra2.drop_first());
            assert(ra2 =~= seq![ra2[0]] + ra2.drop_first());
        }
        (r0, r1)
    }
}

impl TextDiff {
    /// Merges `self` (source to intermediate) with `other` (intermediate to
    /// target) into the single canonical diff that carries the source
    /// straight to the target.
    pub fn compose(self, other: TextDiff) -> (r: TextDiff)
        requires
            self.wf(),
            other.wf(),
            input_len(self@) + input_len(other@) <= usize::MAX,
        ensures
            r@ == compose_spec(self@, other@),
            r.wf(),
    {
        let ghost a0 = self@;
        let ghost b0 = other@;
        proof {
            lemma_diff_view(&self);
            lemma_diff_view(&other);
        }
        let mut a = self.ops;
        let mut b = other.ops;
        let mut builder = Builder::new();
        let mut cur_a = next_op(&mut a);
        let mut cur_b = next_op(&mut b);
        proof {
            assert(rem_view(cur_a, a@) =~= a0);
            assert(rem_view(cur_b, b@) =~= b0);
        }
        while cur_a.is_some() || cur_b.is_some()
            invariant
                cur_a is None ==> a@.len() == 0,
                cur_b is None ==> b@.len() == 0,
                builder.wf(),
                input_len(a0) + input_len(b0) <= usize::MAX,
                input_len(builder@) + input_len(rem_view(cur_a, a@)) + input_len(
                    rem_view(cur_b, b@),
                ) <= input_len(a0) + input_len(b0),
                push_all(builder@, compose_ops(rem_view(cur_a, a@), rem_view(cur_b, b@)))
                    == push_all(Seq::empty(), compose_ops(a0, b0)),
            decreases rem_view(cur_a, a@).len() + rem_view(cur_b, b@).len(),
        {
            let ghost ra = rem_view(cur_a, a@);
            let ghost rb = rem_view(cur_b, b@);
            proof {
                if cur_a is Some {
                    assert(ra.drop_first() =~= ops_view(a@));
                    lemma_len_cons(ra[0], ra.drop_first());
                }
                if cur_b is Some {
                    assert(rb.drop_first() =~= ops_view(b@));
                    lemma_len_cons(rb[0], rb.drop_first());
                }
            }
            match (cur_a, cur_b) {
                (opt_a, Some(Op::Insert(text))) => {
                    cur_b = step_insert_passes(&mut builder, &mut b, text, Ghost(ra));
                    cur_a = opt_a;
                },
                (Some(Op::Retain(n0)), Some(Op::Retain(n1))) => {
                    let next = step_retain_retain(&mut builder, &mut a, &mut b, n0, n1);
                    cur_a = next.0;
                    cur_b = next.1;
                },
                (Some(Op::Retain(n0)), Some(Op::Delete(n1))) => {
                    let next = step_retain_delete(&mut builder, &mut a, &mut b, n0, n1);
                    cur_a = next.0;
                    cur_b = next.1;
                },
                (Some(Op::Insert(text)), Some(Op::Retain(n1))) => {
                    let next = step_insert_retain(&mut builder, &mut a, &mut b, text, n1);
                    cur_a = next.0;
                    cur_b = next.1;
                },
                (Some(Op::Insert(text)), Some(Op::Delete(n1))) => {
                    let next = step_insert_delete(&mut builder, &mut a, &mut b, text, n1);
                    cur_a = next.0;
                    cur_b = next.1;
                },
                (Some(Op::Delete(n0)), opt_b) => {
                    cur_a = step_delete_passes(&mut builder, &mut a, n0, Ghost(rb));
                    cur_b = opt_b;
                },
                (Some(op), None) => {
                    proof {
                        assert(rb =~= Seq::<SpecOp>::empty());
                    }
                    cur_a = step_a_tail(&mut builder, &mut a, op);
                    cur_b = None;
                },
                (None, Some(op)) => {
                    proof {
                        assert(ra =~= Seq::<SpecOp>::empty());
                    }
                    cur_b = step_b_tail(&mut builder, &mut b, op);
                    cur_a = None;
                },
                (None, None) => {
                    proof {
                        assert(false);
                    }
                    cur_a = None;
                    cur_b = None;
                },
            }
        }
        proof {
            assert(rem_view(cur_a, a@) =~= Seq::<SpecOp>::empty());
            assert(rem_view(cur_b, b@) =~= Seq::<SpecOp>::empty());
            assert(compose_ops(Seq::empty(), Seq::empty()) =~= Seq::<SpecOp>::empty());
            assert(push_all(builder@, Seq::empty()) == builder@);
        }
        builder.finish()
    }
}

} // verus!
