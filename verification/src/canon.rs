//! Canonicalization preserves meaning.
//!
//! Feeding operations through the canonicalizing builder merges, reorders
//! and trims them, but the resulting sequence edits every text exactly as
//! the raw sequence would. This module also shows that a sequence already
//! in canonical form passes through the builder unchanged.

use vstd::prelude::*;

use crate::lemmas::{
    lemma_len_concat, lemma_len_cons, lemma_input_len_single, lemma_push_op, lemma_trim_canonical,
};
use crate::model::{
    apply, builder_wf, canonical, canonicalize, input_len, op_input_len, op_nonempty, output_len,
    pair_ok, push_all, push_op, SpecOp,
};
use crate::semantics::{lemma_apply_concat, lemma_apply_split};

verus! {

/// What a single operation does to a text.
pub proof fn lemma_apply_single(x: SpecOp, s: Seq<char>)
    ensures
        apply(seq![x], s) == match x {
            SpecOp::Retain(n) => s.take(n as int) + s.skip(n as int),
            SpecOp::Delete(n) => s.skip(n as int),
            SpecOp::Insert(t) => t + s,
        },
{
    let single = seq![x];
    assert(single.drop_first() =~= Seq::<SpecOp>::empty());
    assert(single[0] == x);
    match x {
        SpecOp::Retain(n) => {
            assert(apply(single.drop_first(), s.skip(n as int)) == s.skip(n as int));
        },
        SpecOp::Delete(n) => {
            assert(apply(single.drop_first(), s.skip(n as int)) == s.skip(n as int));
        },
        SpecOp::Insert(t) => {
            assert(apply(single.drop_first(), s) == s);
        },
    }
}

/// A retain of what one already retains, in one piece or two: the same
/// edit.
proof fn lemma_tail_retain_retain(m: nat, n: nat, s: Seq<char>)
    requires
        m + n <= s.len(),
    ensures
        apply(seq![SpecOp::Retain(m), SpecOp::Retain(n)], s) == apply(
            seq![SpecOp::Retain((m + n) as nat)],
            s,
        ),
{
    let two = seq![SpecOp::Retain(m), SpecOp::Retain(n)];
    assert(two.drop_first() =~= seq![SpecOp::Retain(n)]);
    lemma_apply_single(SpecOp::Retain(n), s.skip(m as int));
    lemma_apply_single(SpecOp::Retain((m + n) as nat), s);
    assert(s.skip(m as int).take(n as int) =~= s.take((m + n) as int).skip(m as int));
    assert(s.skip(m as int).skip(n as int) =~= s.skip((m + n) as int));
    assert(s.take(m as int) + (s.skip(m as int).take(n as int) + s.skip(m as int).skip(n as int))
        =~= s.take((m + n) as int) + s.skip((m + n) as int));
}

/// A delete of what one already deletes, in one piece or two: the same
/// edit.
proof fn lemma_tail_delete_delete(m: nat, n: nat, s: Seq<char>)
    requires
        m + n <= s.len(),
    ensures
        apply(seq![SpecOp::Delete(m), SpecOp::Delete(n)], s) == apply(
            seq![SpecOp::Delete((m + n) as nat)],
            s,
        ),
{
    let two = seq![SpecOp::Delete(m), SpecOp::Delete(n)];
    assert(two.drop_first() =~= seq![SpecOp::Delete(n)]);
    lemma_apply_single(SpecOp::Delete(n), s.skip(m as int));
    lemma_apply_single(SpecOp::Delete((m + n) as nat), s);
    assert(s.skip(m as int).skip(n as int) =~= s.skip((m + n) as int));
}

/// A delete after an insert at one position equals the delete before it.
proof fn lemma_tail_insert_delete(t: Seq<char>, n: nat, s: Seq<char>)
    ensures
        apply(seq![SpecOp::Insert(t), SpecOp::Delete(n)], s) == apply(
            seq![SpecOp::Delete(n), SpecOp::Insert(t)],
            s,
        ),
{
    let one = seq![SpecOp::Insert(t), SpecOp::Delete(n)];
    let other = seq![SpecOp::Delete(n), SpecOp::Insert(t)];
    assert(one.drop_first() =~= seq![SpecOp::Delete(n)]);
    assert(other.drop_first() =~= seq![SpecOp::Insert(t)]);
    lemma_apply_single(SpecOp::Delete(n), s);
    lemma_apply_single(SpecOp::Insert(t), s.skip(n as int));
}

/// A delete between a delete and an insert merges into the first delete.
proof fn lemma_tail_delete_insert_delete(m: nat, t: Seq<char>, n: nat, s: Seq<char>)
    requires
        m + n <= s.len(),
    ensures
        apply(seq![SpecOp::Delete(m), SpecOp::Insert(t), SpecOp::Delete(n)], s) == apply(
            seq![SpecOp::Delete((m + n) as nat), SpecOp::Insert(t)],
            s,
        ),
{
    let three = seq![SpecOp::Delete(m), SpecOp::Insert(t), SpecOp::Delete(n)];
    let two = seq![SpecOp::Delete((m + n) as nat), SpecOp::Insert(t)];
    assert(three.drop_first() =~= seq![SpecOp::Insert(t), SpecOp::Delete(n)]);
    assert(two.drop_first() =~= seq![SpecOp::Insert(t)]);
    lemma_tail_insert_delete(t, n, s.skip(m as int));
    let other = seq![SpecOp::Delete(n), SpecOp::Insert(t)];
    assert(other.drop_first() =~= seq![SpecOp::Insert(t)]);
    lemma_apply_single(SpecOp::Insert(t), s.skip(m as int).skip(n as int));
    lemma_apply_single(SpecOp::Insert(t), s.skip((m + n) as int));
    assert(s.skip(m as int).skip(n as int) =~= s.skip((m + n) as int));
}

/// Two inserts in a row equal one insert of the concatenation.
proof fn lemma_tail_insert_insert(u: Seq<char>, t: Seq<char>, s: Seq<char>)
    ensures
        apply(seq![SpecOp::Insert(u), SpecOp::Insert(t)], s) == apply(
            seq![SpecOp::Insert(u + t)],
            s,
        ),
{
    let two = seq![SpecOp::Insert(u), SpecOp::Insert(t)];
    assert(two.drop_first() =~= seq![SpecOp::Insert(t)]);
    lemma_apply_single(SpecOp::Insert(t), s);
    lemma_apply_single(SpecOp::Insert(u + t), s);
    assert(u + (t + s) =~= (u + t) + s);
}

/// Two operation lists with one meaning stay one in meaning under a shared
/// prefix.
proof fn lemma_apply_congruence(p: Seq<SpecOp>, u: Seq<SpecOp>, w: Seq<SpecOp>, s: Seq<char>)
    requires
        input_len(u) == input_len(w),
        input_len(p) + input_len(u) <= s.len(),
        apply(u, s.skip(input_len(p) as int)) == apply(w, s.skip(input_len(p) as int)),
    ensures
        apply(p + u, s) == apply(p + w, s),
{
    lemma_apply_concat(p, u, s);
    lemma_apply_concat(p, w, s);
    let k = input_len(p) as int;
    lemma_apply_split(u, s.skip(k));
    lemma_apply_split(w, s.skip(k));
    assert(s.skip(k).take(input_len(u) as int) == s.skip(k).take(input_len(w) as int));
}

/// One push through the builder means the same as appending the operation.
pub proof fn lemma_push_op_apply(ops: Seq<SpecOp>, x: SpecOp, s: Seq<char>)
    requires
        input_len(ops) + op_input_len(x) <= s.len(),
    ensures
        apply(push_op(ops, x), s) == apply(ops.push(x), s),
{
    let r = push_op(ops, x);
    assert(ops.push(x) =~= ops + seq![x]);
    if !op_nonempty(x) {
        // An empty operation vanishes; appended, it would do nothing.
        assert(r == ops);
        lemma_apply_concat(ops, seq![x], s);
        lemma_apply_split(ops, s);
        let k = input_len(ops) as int;
        lemma_apply_single(x, s.skip(k));
        match x {
            SpecOp::Retain(n) => {
                assert(s.skip(k).take(0) + s.skip(k).skip(0) =~= s.skip(k));
            },
            SpecOp::Delete(n) => {
                assert(s.skip(k).skip(0) =~= s.skip(k));
            },
            SpecOp::Insert(t) => {
                assert(t + s.skip(k) =~= s.skip(k));
            },
        }
    } else {
        match x {
            SpecOp::Retain(n) => {
                if ops.len() > 0 && ops.last() is Retain {
                    let m = ops.last()->Retain_0;
                    let p = ops.drop_last();
                    assert(ops =~= p + seq![ops.last()]);
                    assert(ops + seq![x] =~= p + seq![SpecOp::Retain(m), SpecOp::Retain(n)]);
                    assert(r =~= p + seq![SpecOp::Retain((m + n) as nat)]);
                    lemma_len_concat(p, seq![ops.last()]);
                    lemma_input_len_single(ops.last());
                    crate::lemmas::lemma_len_pair(SpecOp::Retain(m), SpecOp::Retain(n));
                    lemma_input_len_single(SpecOp::Retain((m + n) as nat));
                    lemma_tail_retain_retain(m, n, s.skip(input_len(p) as int));
                    lemma_apply_congruence(
                        p,
                        seq![SpecOp::Retain(m), SpecOp::Retain(n)],
                        seq![SpecOp::Retain((m + n) as nat)],
                        s,
                    );
                } else {
                    assert(r =~= ops + seq![x]);
                }
            },
            SpecOp::Delete(n) => {
                if ops.len() > 0 && ops.last() is Delete {
                    let m = ops.last()->Delete_0;
                    let p = ops.drop_last();
                    assert(ops =~= p + seq![ops.last()]);
                    assert(ops + seq![x] =~= p + seq![SpecOp::Delete(m), SpecOp::Delete(n)]);
                    assert(r =~= p + seq![SpecOp::Delete((m + n) as nat)]);
                    lemma_len_concat(p, seq![ops.last()]);
                    lemma_input_len_single(ops.last());
                    crate::lemmas::lemma_len_pair(SpecOp::Delete(m), SpecOp::Delete(n));
                    lemma_input_len_single(SpecOp::Delete((m + n) as nat));
                    lemma_tail_delete_delete(m, n, s.skip(input_len(p) as int));
                    lemma_apply_congruence(
                        p,
                        seq![SpecOp::Delete(m), SpecOp::Delete(n)],
                        seq![SpecOp::Delete((m + n) as nat)],
                        s,
                    );
                } else if ops.len() > 1 && ops.last() is Insert && ops[ops.len() - 2] is Delete {
                    let t = ops.last()->Insert_0;
                    let m = ops[ops.len() - 2]->Delete_0;
                    let p = ops.take(ops.len() - 2);
                    assert(ops =~= p + seq![SpecOp::Delete(m), SpecOp::Insert(t)]);
                    assert(ops + seq![x] =~= p + seq![
                        SpecOp::Delete(m),
                        SpecOp::Insert(t),
                        SpecOp::Delete(n),
                    ]);
                    assert(r =~= p + seq![SpecOp::Delete((m + n) as nat), SpecOp::Insert(t)]);
                    lemma_len_concat(p, seq![SpecOp::Delete(m), SpecOp::Insert(t)]);
                    crate::lemmas::lemma_len_pair(SpecOp::Delete(m), SpecOp::Insert(t));
                    crate::lemmas::lemma_len_pair(SpecOp::Delete((m + n) as nat), SpecOp::Insert(t));
                    assert(seq![SpecOp::Delete(m), SpecOp::Insert(t), SpecOp::Delete(n)]
                        =~= seq![SpecOp::Delete(m)] + seq![SpecOp::Insert(t), SpecOp::Delete(n)]);
                    lemma_len_concat(
                        seq![SpecOp::Delete(m)],
                        seq![SpecOp::Insert(t), SpecOp::Delete(n)],
                    );
                    lemma_input_len_single(SpecOp::Delete(m));
                    crate::lemmas::lemma_len_pair(SpecOp::Insert(t), SpecOp::Delete(n));
                    lemma_tail_delete_insert_delete(m, t, n, s.skip(input_len(p) as int));
                    lemma_apply_congruence(
                        p,
                        seq![SpecOp::Delete(m), SpecOp::Insert(t), SpecOp::Delete(n)],
                        seq![SpecOp::Delete((m + n) as nat), SpecOp::Insert(t)],
                        s,
                    );
                } else if ops.len() > 0 && ops.last() is Insert {
                    let t = ops.last()->Insert_0;
                    let p = ops.drop_last();
                    assert(ops =~= p + seq![SpecOp::Insert(t)]);
                    assert(ops + seq![x] =~= p + seq![SpecOp::Insert(t), SpecOp::Delete(n)]);
                    assert(r =~= p + seq![SpecOp::Delete(n), SpecOp::Insert(t)]);
                    lemma_len_concat(p, seq![SpecOp::Insert(t)]);
                    lemma_input_len_single(SpecOp::Insert(t));
                    crate::lemmas::lemma_len_pair(SpecOp::Insert(t), SpecOp::Delete(n));
                    crate::lemmas::lemma_len_pair(SpecOp::Delete(n), SpecOp::Insert(t));
                    lemma_tail_insert_delete(t, n, s.skip(input_len(p) as int));
                    lemma_apply_congruence(
                        p,
                        seq![SpecOp::Insert(t), SpecOp::Delete(n)],
                        seq![SpecOp::Delete(n), SpecOp::Insert(t)],
                        s,
                    );
                } else {
                    assert(r =~= ops + seq![x]);
                }
            },
            SpecOp::Insert(t) => {
                if ops.len() > 0 && ops.last() is Insert {
                    let u = ops.last()->Insert_0;
                    let p = ops.drop_last();
                    assert(ops =~= p + seq![SpecOp::Insert(u)]);
                    assert(ops + seq![x] =~= p + seq![SpecOp::Insert(u), SpecOp::Insert(t)]);
                    assert(r =~= p + seq![SpecOp::Insert(u + t)]);
                    lemma_len_concat(p, seq![SpecOp::Insert(u)]);
                    lemma_input_len_single(SpecOp::Insert(u));
                    crate::lemmas::lemma_len_pair(SpecOp::Insert(u), SpecOp::Insert(t));
                    lemma_input_len_single(SpecOp::Insert(u + t));
                    lemma_tail_insert_insert(u, t, s.skip(input_len(p) as int));
                    lemma_apply_congruence(
                        p,
                        seq![SpecOp::Insert(u), SpecOp::Insert(t)],
                        seq![SpecOp::Insert(u + t)],
                        s,
                    );
                } else {
                    assert(r =~= ops + seq![x]);
                }
            },
        }
    }
}

/// Folding a whole list into the builder keeps the lengths and the builder
/// invariant.
pub proof fn lemma_push_all_len(acc: Seq<SpecOp>, l: Seq<SpecOp>)
    ensures
        input_len(push_all(acc, l)) == input_len(acc) + input_len(l),
        output_len(push_all(acc, l)) == output_len(acc) + output_len(l),
        builder_wf(acc) ==> builder_wf(push_all(acc, l)),
    decreases l.len(),
{
    if l.len() == 0 {
    } else {
        assert(l =~= seq![l[0]] + l.drop_first());
        lemma_len_cons(l[0], l.drop_first());
        lemma_push_op(acc, l[0]);
        lemma_push_all_len(push_op(acc, l[0]), l.drop_first());
    }
}

/// Folding a whole list into the builder means the same as appending it.
pub proof fn lemma_push_all_apply(acc: Seq<SpecOp>, l: Seq<SpecOp>, s: Seq<char>)
    requires
        input_len(acc) + input_len(l) <= s.len(),
    ensures
        apply(push_all(acc, l), s) == apply(acc + l, s),
    decreases l.len(),
{
    if l.len() == 0 {
        assert(acc + l =~= acc);
    } else {
        let x = l[0];
        let lp = l.drop_first();
        assert(l =~= seq![x] + lp);
        lemma_len_cons(x, lp);
        lemma_push_op(acc, x);
        lemma_push_all_apply(push_op(acc, x), lp, s);
        // apply(push_op(acc, x) + lp, s) == apply((acc + [x]) + lp, s):
        // both split at the same point, and the prefixes agree.
        let k = (input_len(acc) + op_input_len(x)) as int;
        lemma_len_concat(acc, seq![x]);
        lemma_input_len_single(x);
        lemma_apply_concat(push_op(acc, x), lp, s);
        lemma_apply_concat(acc + seq![x], lp, s);
        lemma_push_op_apply(acc, x, s.take(k));
        assert(acc.push(x) =~= acc + seq![x]);
        assert((acc + seq![x]) + lp =~= acc + l);
    }
}

/// Canonicalization: the builder's output is canonical, no longer than the
/// raw list, and edits every text exactly as the raw list would.
pub proof fn lemma_canonicalize(l: Seq<SpecOp>, s: Seq<char>)
    requires
        input_len(l) <= s.len(),
    ensures
        canonical(canonicalize(l)),
        input_len(canonicalize(l)) <= input_len(l),
        apply(canonicalize(l), s) == apply(l, s),
{
    let folded = push_all(Seq::empty(), l);
    lemma_push_all_len(Seq::empty(), l);
    lemma_push_all_apply(Seq::empty(), l, s);
    assert(Seq::<SpecOp>::empty() + l =~= l);
    lemma_trim_canonical(folded);
    if folded.len() > 0 && folded.last() is Retain {
        let p = folded.drop_last();
        let n = folded.last()->Retain_0;
        assert(folded =~= p + seq![SpecOp::Retain(n)]);
        lemma_len_concat(p, seq![SpecOp::Retain(n)]);
        lemma_input_len_single(SpecOp::Retain(n));
        lemma_apply_concat(p, seq![SpecOp::Retain(n)], s);
        lemma_apply_split(p, s);
        let k = input_len(p) as int;
        lemma_apply_single(SpecOp::Retain(n), s.skip(k));
        assert(s.skip(k).take(n as int) + s.skip(k).skip(n as int) =~= s.skip(k));
    }
}

/// A sequence that is already well formed passes through the builder
/// unchanged.
pub proof fn lemma_push_all_id(acc: Seq<SpecOp>, l: Seq<SpecOp>)
    requires
        builder_wf(acc + l),
    ensures
        push_all(acc, l) == acc + l,
    decreases l.len(),
{
    if l.len() == 0 {
        assert(acc + l =~= acc);
    } else {
        let x = l[0];
        let whole = acc + l;
        assert(op_nonempty(whole[acc.len() as int]));
        assert(x == whole[acc.len() as int]);
        if acc.len() > 0 {
            assert(pair_ok(whole[acc.len() - 1], whole[acc.len() as int]));
            assert(acc.last() == whole[acc.len() - 1]);
        }
        assert(push_op(acc, x) == acc.push(x)) by {
            match x {
                SpecOp::Retain(n) => {},
                SpecOp::Delete(n) => {},
                SpecOp::Insert(t) => {},
            }
        }
        assert(acc.push(x) + l.drop_first() =~= acc + l);
        lemma_push_all_id(acc.push(x), l.drop_first());
    }
}

} // verus!
