//! Structural lemmas about the operation model: length accounting and how
//! the canonicalizing builder steps preserve it and the builder invariant.

use vstd::prelude::*;

use crate::model::{
    builder_wf, canonical, input_len, op_input_len, op_output_len, output_len, push_delete,
    push_insert, push_op, push_retain, trim, SpecOp,
};

verus! {

/// The input length of a single operation.
pub proof fn lemma_input_len_single(op: SpecOp)
    ensures
        input_len(seq![op]) == op_input_len(op),
        output_len(seq![op]) == op_output_len(op),
{
    assert(seq![op].drop_first() =~= Seq::<SpecOp>::empty());
    assert(input_len(Seq::<SpecOp>::empty()) == 0);
    assert(output_len(Seq::<SpecOp>::empty()) == 0);
    assert(seq![op][0] == op);
}

/// Input and output lengths add up over concatenation.
pub proof fn lemma_len_concat(a: Seq<SpecOp>, b: Seq<SpecOp>)
    ensures
        input_len(a + b) == input_len(a) + input_len(b),
        output_len(a + b) == output_len(a) + output_len(b),
    decreases a.len(),
{
    if a.len() == 0 {
        assert(a + b =~= b);
    } else {
        assert((a + b).drop_first() =~= a.drop_first() + b);
        assert((a + b)[0] == a[0]);
        lemma_len_concat(a.drop_first(), b);
    }
}

/// No single operation consumes or produces more than the whole sequence.
pub proof fn lemma_len_index(ops: Seq<SpecOp>, i: int)
    requires
        0 <= i < ops.len(),
    ensures
        op_input_len(ops[i]) <= input_len(ops),
        op_output_len(ops[i]) <= output_len(ops),
    decreases ops.len(),
{
    if i == 0 {
    } else {
        lemma_len_index(ops.drop_first(), i - 1);
        assert(ops.drop_first()[i - 1] == ops[i]);
    }
}

/// Pushing a retain adds `n` to both lengths and keeps the builder
/// invariant.
pub proof fn lemma_push_retain(ops: Seq<SpecOp>, n: nat)
    ensures
        input_len(push_retain(ops, n)) == input_len(ops) + n,
        output_len(push_retain(ops, n)) == output_len(ops) + n,
        builder_wf(ops) ==> builder_wf(push_retain(ops, n)),
{
    let r = push_retain(ops, n);
    if n == 0 {
    } else if ops.len() > 0 && ops.last() is Retain {
        let last = ops.len() - 1;
        assert(ops =~= ops.drop_last() + seq![ops.last()]);
        assert(r =~= ops.drop_last() + seq![SpecOp::Retain((ops.last()->Retain_0 + n) as nat)]);
        lemma_len_concat(ops.drop_last(), seq![ops.last()]);
        lemma_len_concat(ops.drop_last(), seq![SpecOp::Retain((ops.last()->Retain_0 + n) as nat)]);
        lemma_input_len_single(ops.last());
        lemma_input_len_single(SpecOp::Retain((ops.last()->Retain_0 + n) as nat));
        if builder_wf(ops) {
            assert forall|i: int| 0 <= i && i + 1 < r.len() implies pair_ok_at(r, i) by {
                assert(pair_ok_at(ops, i));
            }
        }
    } else {
        assert(r =~= ops + seq![SpecOp::Retain(n)]);
        lemma_len_concat(ops, seq![SpecOp::Retain(n)]);
        lemma_input_len_single(SpecOp::Retain(n));
        if builder_wf(ops) {
            assert forall|i: int| 0 <= i && i + 1 < r.len() implies pair_ok_at(r, i) by {
                if i + 1 < ops.len() {
                    assert(pair_ok_at(ops, i));
                }
            }
        }
    }
}

/// Shorthand used by the quantified well-formedness arguments.
pub open spec fn pair_ok_at(ops: Seq<SpecOp>, i: int) -> bool {
    crate::model::pair_ok(ops[i], ops[i + 1])
}

/// Pushing a delete adds `n` to the input length, keeps the output length,
/// and keeps the builder invariant.
pub proof fn lemma_push_delete(ops: Seq<SpecOp>, n: nat)
    ensures
        input_len(push_delete(ops, n)) == input_len(ops) + n,
        output_len(push_delete(ops, n)) == output_len(ops),
        builder_wf(ops) ==> builder_wf(push_delete(ops, n)),
{
    let r = push_delete(ops, n);
    if n == 0 {
    } else if ops.len() > 0 && ops.last() is Delete {
        let m = ops.last()->Delete_0;
        assert(ops =~= ops.drop_last() + seq![ops.last()]);
        assert(r =~= ops.drop_last() + seq![SpecOp::Delete((m + n) as nat)]);
        lemma_len_concat(ops.drop_last(), seq![ops.last()]);
        lemma_len_concat(ops.drop_last(), seq![SpecOp::Delete((m + n) as nat)]);
        lemma_input_len_single(ops.last());
        lemma_input_len_single(SpecOp::Delete((m + n) as nat));
        if builder_wf(ops) {
            assert forall|i: int| 0 <= i && i + 1 < r.len() implies pair_ok_at(r, i) by {
                assert(pair_ok_at(ops, i));
            }
        }
    } else if ops.len() > 1 && ops.last() is Insert && ops[ops.len() - 2] is Delete {
        let k = ops.len() - 2;
        let m = ops[k]->Delete_0;
        let head = ops.take(k);
        assert(ops =~= head + seq![ops[k], ops.last()]);
        assert(r =~= head + seq![SpecOp::Delete((m + n) as nat), ops.last()]);
        lemma_len_concat(head, seq![ops[k], ops.last()]);
        lemma_len_concat(head, seq![SpecOp::Delete((m + n) as nat), ops.last()]);
        lemma_len_pair(ops[k], ops.last());
        lemma_len_pair(SpecOp::Delete((m + n) as nat), ops.last());
        if builder_wf(ops) {
            assert forall|i: int| 0 <= i && i + 1 < r.len() implies pair_ok_at(r, i) by {
                assert(pair_ok_at(ops, i));
            }
        }
    } else if ops.len() > 0 && ops.last() is Insert {
        let t = ops.last();
        assert(ops =~= ops.drop_last() + seq![t]);
        assert(r =~= ops.drop_last() + seq![SpecOp::Delete(n), t]);
        lemma_len_concat(ops.drop_last(), seq![t]);
        lemma_len_concat(ops.drop_last(), seq![SpecOp::Delete(n), t]);
        lemma_input_len_single(t);
        lemma_len_pair(SpecOp::Delete(n), t);
        if builder_wf(ops) {
            assert forall|i: int| 0 <= i && i + 1 < r.len() implies pair_ok_at(r, i) by {
                if i + 1 < ops.len() - 1 {
                    assert(pair_ok_at(ops, i));
                } else if i + 1 == ops.len() - 1 && ops.len() >= 2 {
                    // The pair before the displaced insert: its left side kept
                    // its place and must accept the new delete.
                    assert(pair_ok_at(ops, ops.len() - 2));
                }
            }
        }
    } else {
        assert(r =~= ops + seq![SpecOp::Delete(n)]);
        lemma_len_concat(ops, seq![SpecOp::Delete(n)]);
        lemma_input_len_single(SpecOp::Delete(n));
        if builder_wf(ops) {
            assert forall|i: int| 0 <= i && i + 1 < r.len() implies pair_ok_at(r, i) by {
                if i + 1 < ops.len() {
                    assert(pair_ok_at(ops, i));
                }
            }
        }
    }
}

/// The lengths of a two-operation sequence.
pub proof fn lemma_len_pair(a: SpecOp, b: SpecOp)
    ensures
        input_len(seq![a, b]) == op_input_len(a) + op_input_len(b),
        output_len(seq![a, b]) == op_output_len(a) + op_output_len(b),
{
    assert(seq![a, b].drop_first() =~= seq![b]);
    lemma_input_len_single(b);
}

/// Pushing an insert adds the text's length to the output length, keeps the
/// input length, and keeps the builder invariant.
pub proof fn lemma_push_insert(ops: Seq<SpecOp>, t: Seq<char>)
    ensures
        input_len(push_insert(ops, t)) == input_len(ops),
        output_len(push_insert(ops, t)) == output_len(ops) + t.len(),
        builder_wf(ops) ==> builder_wf(push_insert(ops, t)),
{
    let r = push_insert(ops, t);
    if t.len() == 0 {
    } else if ops.len() > 0 && ops.last() is Insert {
        let u = ops.last()->Insert_0;
        assert(ops =~= ops.drop_last() + seq![ops.last()]);
        assert(r =~= ops.drop_last() + seq![SpecOp::Insert(u + t)]);
        lemma_len_concat(ops.drop_last(), seq![ops.last()]);
        lemma_len_concat(ops.drop_last(), seq![SpecOp::Insert(u + t)]);
        lemma_input_len_single(ops.last());
        lemma_input_len_single(SpecOp::Insert(u + t));
        if builder_wf(ops) {
            assert forall|i: int| 0 <= i && i + 1 < r.len() implies pair_ok_at(r, i) by {
                assert(pair_ok_at(ops, i));
            }
        }
    } else {
        assert(r =~= ops + seq![SpecOp::Insert(t)]);
        lemma_len_concat(ops, seq![SpecOp::Insert(t)]);
        lemma_input_len_single(SpecOp::Insert(t));
        if builder_wf(ops) {
            assert forall|i: int| 0 <= i && i + 1 < r.len() implies pair_ok_at(r, i) by {
                if i + 1 < ops.len() {
                    assert(pair_ok_at(ops, i));
                }
            }
        }
    }
}

/// One push of any kind, in terms of the three lemmas above.
pub proof fn lemma_push_op(ops: Seq<SpecOp>, op: SpecOp)
    ensures
        input_len(push_op(ops, op)) == input_len(ops) + op_input_len(op),
        output_len(push_op(ops, op)) == output_len(ops) + op_output_len(op),
        builder_wf(ops) ==> builder_wf(push_op(ops, op)),
{
    match op {
        SpecOp::Retain(n) => lemma_push_retain(ops, n),
        SpecOp::Delete(n) => lemma_push_delete(ops, n),
        SpecOp::Insert(t) => lemma_push_insert(ops, t),
    }
}

/// Folding a sequence into the builder, one operation at a time.
pub proof fn lemma_push_all_step(acc: Seq<SpecOp>, x: SpecOp, l: Seq<SpecOp>)
    ensures
        crate::model::push_all(acc, seq![x] + l) == crate::model::push_all(push_op(acc, x), l),
{
    assert((seq![x] + l).drop_first() =~= l);
    assert((seq![x] + l)[0] == x);
}

/// The lengths of a sequence with one operation at its front.
pub proof fn lemma_len_cons(x: SpecOp, l: Seq<SpecOp>)
    ensures
        input_len(seq![x] + l) == op_input_len(x) + input_len(l),
        output_len(seq![x] + l) == op_output_len(x) + output_len(l),
{
    lemma_len_concat(seq![x], l);
    lemma_input_len_single(x);
}

/// Trimming a well-formed sequence yields a canonical one.
pub proof fn lemma_trim_canonical(ops: Seq<SpecOp>)
    requires
        builder_wf(ops),
    ensures
        canonical(trim(ops)),
        input_len(trim(ops)) <= input_len(ops),
        output_len(trim(ops)) <= output_len(ops),
{
    let r = trim(ops);
    if ops.len() > 0 && ops.last() is Retain {
        assert(ops =~= r + seq![ops.last()]);
        lemma_len_concat(r, seq![ops.last()]);
        assert forall|i: int| 0 <= i < r.len() implies crate::model::op_nonempty(#[trigger] r[i]) by {
            assert(crate::model::op_nonempty(ops[i]));
        }
        assert forall|i: int| 0 <= i && i + 1 < r.len() implies pair_ok_at(r, i) by {
            assert(pair_ok_at(ops, i));
        }
        if r.len() > 0 {
            // The pair rule forbids a retain before the dropped retain.
            assert(pair_ok_at(ops, ops.len() - 2));
        }
    }
}

} // verus!
