//! The library's laws, stated and proved over the operation model.
//!
//! The executable [`crate::Builder`] and [`crate::TextDiff::compose`]
//! promise in their contracts that their results equal [`canonicalize`] and
//! [`compose_spec`] of their inputs' views; the laws here say what those
//! specification functions mean.

use vstd::prelude::*;

use crate::canon::{lemma_canonicalize, lemma_push_all_id};
use crate::lemmas::lemma_trim_canonical;
use crate::model::{
    apply, builder_wf, canonical, canonicalize, compose_ops, compose_spec, input_len, output_len,
    pair_ok, push_all, push_delete, push_insert, trim, SpecOp,
};
use crate::semantics::{lemma_apply_len, lemma_compose_ops_apply, pair_reach};
use crate::unique::lemma_canonical_unique;

verus! {

/// Composing with the empty sequence on the right reproduces the sequence.
proof fn lemma_compose_ops_right_empty(d: Seq<SpecOp>)
    ensures
        compose_ops(d, Seq::empty()) == d,
    decreases d.len(),
{
    if d.len() == 0 {
        assert(compose_ops(d, Seq::empty()) =~= d);
    } else {
        lemma_compose_ops_right_empty(d.drop_first());
        assert(compose_ops(d, Seq::empty()) == seq![d[0]] + compose_ops(
            d.drop_first(),
            Seq::empty(),
        ));
        assert(seq![d[0]] + d.drop_first() =~= d);
    }
}

/// Composing with the empty sequence on the left reproduces the sequence.
proof fn lemma_compose_ops_left_empty(d: Seq<SpecOp>)
    ensures
        compose_ops(Seq::empty(), d) == d,
    decreases d.len(),
{
    if d.len() == 0 {
        assert(compose_ops(Seq::<SpecOp>::empty(), d) =~= d);
    } else {
        lemma_compose_ops_left_empty(d.drop_first());
        assert(compose_ops(Seq::<SpecOp>::empty(), d) == seq![d[0]] + compose_ops(
            Seq::<SpecOp>::empty(),
            d.drop_first(),
        ));
        assert(seq![d[0]] + d.drop_first() =~= d);
    }
}

/// Law: whatever sequence of edits is recorded, the builder's output is
/// canonical — no empty operations, no two adjacent operations of one
/// kind, no insert directly before a delete, and no trailing retain.
pub proof fn law_builder_canonical(l: Seq<SpecOp>)
    ensures
        canonical(canonicalize(l)),
{
    crate::canon::lemma_push_all_len(Seq::empty(), l);
    lemma_trim_canonical(push_all(Seq::empty(), l));
}

/// Law: a delete and an insert recorded at one position land in the same
/// canonical order — delete first — whichever was recorded first.
pub proof fn law_delete_insert_order(ops: Seq<SpecOp>, t: Seq<char>, n: nat)
    requires
        builder_wf(ops),
    ensures
        push_delete(push_insert(ops, t), n) == push_insert(push_delete(ops, n), t),
{
    if t.len() == 0 {
    } else if n == 0 {
    } else if ops.len() == 0 {
        let lhs = push_delete(seq![SpecOp::Insert(t)], n);
        assert(lhs =~= seq![SpecOp::Delete(n), SpecOp::Insert(t)]);
        assert(push_insert(seq![SpecOp::Delete(n)], t) =~= seq![
            SpecOp::Delete(n),
            SpecOp::Insert(t),
        ]);
    } else if ops.last() is Retain {
        let li = push_insert(ops, t);
        assert(li =~= ops.push(SpecOp::Insert(t)));
        let lhs = push_delete(li, n);
        assert(li.len() > 1 && li[li.len() - 2] == ops.last());
        assert(lhs =~= ops.push(SpecOp::Delete(n)).push(SpecOp::Insert(t)));
        let rd = push_delete(ops, n);
        assert(rd =~= ops.push(SpecOp::Delete(n)));
        assert(push_insert(rd, t) =~= ops.push(SpecOp::Delete(n)).push(SpecOp::Insert(t)));
    } else if ops.last() is Delete {
        let m = ops.last()->Delete_0;
        let li = push_insert(ops, t);
        assert(li =~= ops.push(SpecOp::Insert(t)));
        let lhs = push_delete(li, n);
        assert(li[li.len() - 2] == ops.last());
        assert(lhs =~= ops.update(ops.len() - 1, SpecOp::Delete((m + n) as nat)).push(
            SpecOp::Insert(t),
        ));
        let rd = push_delete(ops, n);
        assert(rd =~= ops.update(ops.len() - 1, SpecOp::Delete((m + n) as nat)));
        assert(rd.last() is Delete);
        assert(push_insert(rd, t) =~= ops.update(ops.len() - 1, SpecOp::Delete((m + n) as nat))
            .push(SpecOp::Insert(t)));
    } else {
        // The last operation is an insert; by well-formedness the one
        // before it, if any, is a retain or a delete.
        let u = ops.last()->Insert_0;
        let li = push_insert(ops, t);
        assert(li =~= ops.update(ops.len() - 1, SpecOp::Insert(u + t)));
        assert(li.last() is Insert);
        if ops.len() > 1 && ops[ops.len() - 2] is Delete {
            let m = ops[ops.len() - 2]->Delete_0;
            assert(li[li.len() - 2] == ops[ops.len() - 2]);
            let lhs = push_delete(li, n);
            assert(lhs =~= ops.update(ops.len() - 2, SpecOp::Delete((m + n) as nat)).update(
                ops.len() - 1,
                SpecOp::Insert(u + t),
            ));
            let rd = push_delete(ops, n);
            assert(rd =~= ops.update(ops.len() - 2, SpecOp::Delete((m + n) as nat)));
            assert(rd.last() == ops.last());
            assert(push_insert(rd, t) =~= ops.update(ops.len() - 2, SpecOp::Delete((m + n) as nat))
                .update(ops.len() - 1, SpecOp::Insert(u + t)));
        } else {
            if ops.len() > 1 {
                assert(pair_ok(ops[ops.len() - 2], ops[ops.len() - 1]));
                assert(!(ops[ops.len() - 2] is Insert));
            }
            let lhs = push_delete(li, n);
            assert(li[li.len() - 1] == SpecOp::Insert(u + t));
            assert(lhs =~= ops.update(ops.len() - 1, SpecOp::Delete(n)).push(
                SpecOp::Insert(u + t),
            ));
            let rd = push_delete(ops, n);
            assert(rd =~= ops.update(ops.len() - 1, SpecOp::Delete(n)).push(
                SpecOp::Insert(u),
            ));
            assert(rd.last() == SpecOp::Insert(u));
            assert(push_insert(rd, t) =~= ops.update(ops.len() - 1, SpecOp::Delete(n)).push(
                SpecOp::Insert(u + t),
            ));
        }
    }
}

/// Law: canonicalizing a recorded edit sequence changes neither what it
/// does to any text it fits, nor does it reach further into the text.
pub proof fn law_canonical_preserves_meaning(l: Seq<SpecOp>, s: Seq<char>)
    requires
        input_len(l) <= s.len(),
    ensures
        apply(canonicalize(l), s) == apply(l, s),
        input_len(canonicalize(l)) <= input_len(l),
        canonical(canonicalize(l)),
{
    lemma_canonicalize(l, s);
}

/// Law: a diff that fits a text consumes `input_len` of it — the sum of
/// its retain and delete lengths — and produces a text whose length adds
/// `output_len`, the sum of its retain and insert lengths.
pub proof fn law_apply_length(ops: Seq<SpecOp>, s: Seq<char>)
    requires
        input_len(ops) <= s.len(),
    ensures
        apply(ops, s).len() == s.len() - input_len(ops) + output_len(ops),
{
    lemma_apply_len(ops, s);
}

/// Law: composition is correct. For any source text that both fit,
/// applying the composition is applying the first diff, then the second.
/// The result is canonical and reaches no further into the source than
/// the two inputs together can.
pub proof fn law_compose_correct(a: Seq<SpecOp>, b: Seq<SpecOp>, s: Seq<char>)
    requires
        input_len(a) <= s.len(),
        input_len(b) <= apply(a, s).len(),
    ensures
        apply(compose_spec(a, b), s) == apply(b, apply(a, s)),
        canonical(compose_spec(a, b)),
        input_len(compose_spec(a, b)) <= s.len(),
{
    lemma_apply_len(a, s);
    lemma_compose_ops_apply(a, b, s);
    assert(pair_reach(a, b) <= s.len());
    lemma_canonicalize(compose_ops(a, b), s);
}

/// Law: the empty diff is the identity of composition, on the left and on
/// the right, for every canonical diff.
pub proof fn law_compose_empty(d: Seq<SpecOp>)
    requires
        canonical(d),
    ensures
        compose_spec(d, Seq::empty()) == d,
        compose_spec(Seq::empty(), d) == d,
{
    lemma_compose_ops_right_empty(d);
    lemma_compose_ops_left_empty(d);
    assert(Seq::<SpecOp>::empty() + d =~= d);
    lemma_push_all_id(Seq::empty(), d);
    assert(trim(d) == d);
}

/// Law: composition is associative in meaning. For any compatible chain of
/// three diffs, both ways of pairing them produce a diff that carries the
/// source text to the same final text.
pub proof fn law_compose_associative(a: Seq<SpecOp>, b: Seq<SpecOp>, c: Seq<SpecOp>, s: Seq<char>)
    requires
        input_len(a) <= s.len(),
        input_len(b) <= apply(a, s).len(),
        input_len(c) <= apply(b, apply(a, s)).len(),
    ensures
        apply(compose_spec(compose_spec(a, b), c), s) == apply(c, apply(b, apply(a, s))),
        apply(compose_spec(a, compose_spec(b, c)), s) == apply(c, apply(b, apply(a, s))),
{
    let m1 = apply(a, s);
    let m2 = apply(b, m1);
    lemma_apply_len(a, s);
    lemma_apply_len(b, m1);
    law_compose_correct(a, b, s);
    let ab = compose_spec(a, b);
    assert(apply(ab, s) == m2);
    law_compose_correct(ab, c, s);
    law_compose_correct(b, c, m1);
    let bc = compose_spec(b, c);
    assert(apply(bc, m1) == apply(c, m2));
    law_compose_correct(a, bc, s);
}

/// Law: composition is associative outright: both ways of pairing three
/// diffs yield the same canonical diff, operation for operation.
pub proof fn law_compose_associative_exact(a: Seq<SpecOp>, b: Seq<SpecOp>, c: Seq<SpecOp>)
    ensures
        compose_spec(compose_spec(a, b), c) == compose_spec(a, compose_spec(b, c)),
{
    let n = input_len(a) + input_len(b) + input_len(c);
    let lhs = compose_spec(compose_spec(a, b), c);
    let rhs = compose_spec(a, compose_spec(b, c));
    // On a long enough probe text the whole chain fits; that bounds how
    // far into the source either pairing reaches, and makes both
    // canonical.
    let p = Seq::<char>::new(n, |i: int| ' ');
    lemma_apply_len(a, p);
    law_compose_correct(a, b, p);
    lemma_apply_len(b, apply(a, p));
    law_compose_correct(compose_spec(a, b), c, p);
    law_compose_correct(b, c, apply(a, p));
    law_compose_correct(a, compose_spec(b, c), p);
    // Both pairings carry every long enough text to the same final text.
    assert forall|s: Seq<char>| s.len() >= n implies #[trigger] apply(lhs, s) == apply(
        rhs,
        s,
    ) by {
        lemma_apply_len(a, s);
        lemma_apply_len(b, apply(a, s));
        law_compose_associative(a, b, c, s);
    }
    // Two canonical diffs that edit every long enough text alike are one.
    lemma_canonical_unique(lhs, rhs, n);
}

} // verus!
