//! Lemmas about [`apply`]: what operation sequences do to texts.
//!
//! The central result is [`lemma_compose_ops_apply`]: the raw pairing of
//! two operation sequences means exactly "apply the first, then the
//! second". Each case of its induction stands in a step lemma of its own
//! that takes the inductive hypothesis as a premise; the main lemma only
//! dispatches and recurses.

use vstd::prelude::*;

use crate::lemmas::lemma_len_cons;
use crate::model::{apply, compose_ops, input_len, op_input_len, output_len, shrink, SpecOp};

verus! {

/// How much of the source a pairing may read: what the first sequence
/// covers, plus whatever the second addresses beyond the first's output.
pub open spec fn pair_reach(a: Seq<SpecOp>, b: Seq<SpecOp>) -> nat {
    input_len(a) + if input_len(b) > output_len(a) {
        (input_len(b) - output_len(a)) as nat
    } else {
        0
    }
}

/// How long the produced text is: the input keeps what is not consumed,
/// loses what is deleted, and gains what is inserted or retained.
pub proof fn lemma_apply_len(ops: Seq<SpecOp>, s: Seq<char>)
    requires
        input_len(ops) <= s.len(),
    ensures
        apply(ops, s).len() == s.len() - input_len(ops) + output_len(ops),
    decreases ops.len(),
{
    if ops.len() == 0 {
    } else {
        let rest = ops.drop_first();
        match ops[0] {
            SpecOp::Retain(n) => {
                lemma_apply_len(rest, s.skip(n as int));
            },
            SpecOp::Delete(n) => {
                lemma_apply_len(rest, s.skip(n as int));
            },
            SpecOp::Insert(t) => {
                lemma_apply_len(rest, s);
            },
        }
    }
}

/// Applying a concatenation: the first part works on the prefix it
/// consumes, the second on the rest.
pub proof fn lemma_apply_concat(u: Seq<SpecOp>, w: Seq<SpecOp>, s: Seq<char>)
    requires
        input_len(u) <= s.len(),
    ensures
        apply(u + w, s) == apply(u, s.take(input_len(u) as int)) + apply(
            w,
            s.skip(input_len(u) as int),
        ),
    decreases u.len(),
{
    let k = input_len(u) as int;
    if u.len() == 0 {
        assert(u + w =~= w);
        assert(s.take(0) =~= Seq::<char>::empty());
        assert(s.skip(0) =~= s);
        assert(apply(u, s.take(0)) + apply(w, s) =~= apply(w, s));
    } else {
        let rest = u.drop_first();
        assert(u =~= seq![u[0]] + rest);
        lemma_len_cons(u[0], rest);
        assert((u + w)[0] == u[0]);
        assert((u + w).drop_first() =~= rest + w);
        match u[0] {
            SpecOp::Retain(n) => {
                let ni = n as int;
                lemma_apply_concat(rest, w, s.skip(ni));
                let kr = input_len(rest) as int;
                assert(s.skip(ni).take(kr) =~= s.take(k).skip(ni));
                assert(s.skip(ni).skip(kr) =~= s.skip(k));
                assert(s.take(k).take(ni) =~= s.take(ni));
                assert(apply(u, s.take(k)) == s.take(k).take(ni) + apply(rest, s.take(k).skip(ni)));
                assert(s.take(ni) + (apply(rest, s.take(k).skip(ni)) + apply(w, s.skip(k))) =~= (
                s.take(ni) + apply(rest, s.take(k).skip(ni))) + apply(w, s.skip(k)));
            },
            SpecOp::Delete(n) => {
                let ni = n as int;
                lemma_apply_concat(rest, w, s.skip(ni));
                let kr = input_len(rest) as int;
                assert(s.skip(ni).take(kr) =~= s.take(k).skip(ni));
                assert(s.skip(ni).skip(kr) =~= s.skip(k));
                assert(apply(u, s.take(k)) == apply(rest, s.take(k).skip(ni)));
            },
            SpecOp::Insert(t) => {
                lemma_apply_concat(rest, w, s);
                assert(apply(u, s.take(k)) == t + apply(rest, s.take(k)));
                assert(t + (apply(rest, s.take(k)) + apply(w, s.skip(k))) =~= (t + apply(
                    rest,
                    s.take(k),
                )) + apply(w, s.skip(k)));
            },
        }
    }
}

/// A sequence edits the prefix it consumes and keeps the tail.
pub proof fn lemma_apply_split(u: Seq<SpecOp>, s: Seq<char>)
    requires
        input_len(u) <= s.len(),
    ensures
        apply(u, s) == apply(u, s.take(input_len(u) as int)) + s.skip(input_len(u) as int),
{
    lemma_apply_concat(u, Seq::empty(), s);
    assert(u + Seq::<SpecOp>::empty() =~= u);
}

/// Step: an insert at the head of `b` passes straight through.
proof fn step_insert_passes(a: Seq<SpecOp>, b: Seq<SpecOp>, s: Seq<char>)
    requires
        input_len(a) <= s.len(),
        input_len(b) + input_len(a) <= s.len() + output_len(a),
        b.len() > 0 && b[0] is Insert,
        apply(compose_ops(a, b.drop_first()), s) == apply(b.drop_first(), apply(a, s)),
        input_len(compose_ops(a, b.drop_first())) <= pair_reach(a, b.drop_first()),
    ensures
        apply(compose_ops(a, b), s) == apply(b, apply(a, s)),
        input_len(compose_ops(a, b)) <= pair_reach(a, b),
{
    let c = compose_ops(a, b);
    let m = apply(a, s);
    let t = b[0]->Insert_0;
    let bp = b.drop_first();
    assert(b =~= seq![b[0]] + bp);
    lemma_len_cons(b[0], bp);
    assert(c == seq![b[0]] + compose_ops(a, bp));
    assert(c[0] == b[0]);
    assert(c.drop_first() =~= compose_ops(a, bp));
    lemma_len_cons(c[0], c.drop_first());
    assert(apply(c, s) == t + apply(compose_ops(a, bp), s));
    assert(apply(b, m) == t + apply(bp, m));
}

/// Step: with `a` exhausted, `b`'s retain or delete addresses the source
/// tail directly.
proof fn step_a_exhausted(a: Seq<SpecOp>, b: Seq<SpecOp>, s: Seq<char>)
    requires
        input_len(a) <= s.len(),
        input_len(b) + input_len(a) <= s.len() + output_len(a),
        a.len() == 0,
        b.len() > 0,
        !(b[0] is Insert),
        apply(compose_ops(a, b.drop_first()), s.skip(op_input_len(b[0]) as int)) == apply(
            b.drop_first(),
            apply(a, s.skip(op_input_len(b[0]) as int)),
        ),
        input_len(compose_ops(a, b.drop_first())) <= pair_reach(a, b.drop_first()),
    ensures
        apply(compose_ops(a, b), s) == apply(b, apply(a, s)),
        input_len(compose_ops(a, b)) <= pair_reach(a, b),
{
    let c = compose_ops(a, b);
    let n1 = op_input_len(b[0]) as int;
    let bp = b.drop_first();
    assert(b =~= seq![b[0]] + bp);
    lemma_len_cons(b[0], bp);
    assert(c == seq![b[0]] + compose_ops(a, bp));
    assert(c[0] == b[0]);
    assert(c.drop_first() =~= compose_ops(a, bp));
    lemma_len_cons(c[0], c.drop_first());
    assert(apply(a, s) == s);
    assert(apply(a, s.skip(n1)) == s.skip(n1));
    if b[0] is Retain {
        assert(apply(c, s) == s.take(n1) + apply(compose_ops(a, bp), s.skip(n1)));
        assert(apply(b, s) == s.take(n1) + apply(bp, s.skip(n1)));
    } else {
        assert(apply(c, s) == apply(compose_ops(a, bp), s.skip(n1)));
        assert(apply(b, s) == apply(bp, s.skip(n1)));
    }
}

/// Step: a delete at the head of `a` passes straight through; `b` never
/// sees that span.
proof fn step_delete_passes(a: Seq<SpecOp>, b: Seq<SpecOp>, s: Seq<char>)
    requires
        input_len(a) <= s.len(),
        input_len(b) + input_len(a) <= s.len() + output_len(a),
        a.len() > 0 && a[0] is Delete,
        !(b.len() > 0 && b[0] is Insert),
        apply(compose_ops(a.drop_first(), b), s.skip(op_input_len(a[0]) as int)) == apply(
            b,
            apply(a.drop_first(), s.skip(op_input_len(a[0]) as int)),
        ),
        input_len(compose_ops(a.drop_first(), b)) <= pair_reach(a.drop_first(), b),
    ensures
        apply(compose_ops(a, b), s) == apply(b, apply(a, s)),
        input_len(compose_ops(a, b)) <= pair_reach(a, b),
{
    let c = compose_ops(a, b);
    let n0 = op_input_len(a[0]) as int;
    let ap = a.drop_first();
    assert(a =~= seq![a[0]] + ap);
    lemma_len_cons(a[0], ap);
    assert(c == seq![a[0]] + compose_ops(ap, b));
    assert(c[0] == a[0]);
    assert(c.drop_first() =~= compose_ops(ap, b));
    lemma_len_cons(c[0], c.drop_first());
    assert(apply(c, s) == apply(compose_ops(ap, b), s.skip(n0)));
    assert(apply(a, s) == apply(ap, s.skip(n0)));
}

/// Step: with `b` exhausted, whatever `a` holds reaches the target
/// unchanged.
proof fn step_b_exhausted(a: Seq<SpecOp>, b: Seq<SpecOp>, s: Seq<char>)
    requires
        input_len(a) <= s.len(),
        b.len() == 0,
        a.len() > 0,
        !(a[0] is Delete),
        ({
            let sp = if a[0] is Retain {
                s.skip(op_input_len(a[0]) as int)
            } else {
                s
            };
            &&& apply(compose_ops(a.drop_first(), b), sp) == apply(b, apply(a.drop_first(), sp))
            &&& input_len(compose_ops(a.drop_first(), b)) <= pair_reach(a.drop_first(), b)
        }),
    ensures
        apply(compose_ops(a, b), s) == apply(b, apply(a, s)),
        input_len(compose_ops(a, b)) <= pair_reach(a, b),
{
    let c = compose_ops(a, b);
    let ap = a.drop_first();
    assert(a =~= seq![a[0]] + ap);
    lemma_len_cons(a[0], ap);
    assert(c == seq![a[0]] + compose_ops(ap, b));
    assert(c[0] == a[0]);
    assert(c.drop_first() =~= compose_ops(ap, b));
    lemma_len_cons(c[0], c.drop_first());
    match a[0] {
        SpecOp::Retain(n) => {
            let ni = n as int;
            assert(apply(c, s) == s.take(ni) + apply(compose_ops(ap, b), s.skip(ni)));
            assert(apply(a, s) == s.take(ni) + apply(ap, s.skip(ni)));
            assert(apply(b, apply(ap, s.skip(ni))) == apply(ap, s.skip(ni)));
        },
        SpecOp::Insert(t) => {
            assert(apply(c, s) == t + apply(compose_ops(ap, b), s));
            assert(apply(a, s) == t + apply(ap, s));
            assert(apply(b, apply(ap, s)) == apply(ap, s));
        },
        SpecOp::Delete(_) => {
            assert(false);
        },
    }
    assert(apply(b, apply(a, s)) == apply(a, s));
}

/// Step: retain against retain or delete, with `a`'s span the shorter or
/// equal one.
proof fn step_retain_le(a: Seq<SpecOp>, b: Seq<SpecOp>, s: Seq<char>)
    requires
        input_len(a) <= s.len(),
        input_len(b) + input_len(a) <= s.len() + output_len(a),
        a.len() > 0 && a[0] is Retain,
        b.len() > 0 && !(b[0] is Insert),
        op_input_len(a[0]) <= op_input_len(b[0]),
        ({
            let n0 = op_input_len(a[0]);
            let bnext = if op_input_len(a[0]) == op_input_len(b[0]) {
                b.drop_first()
            } else {
                b.update(0, shrink(b[0], n0))
            };
            &&& apply(compose_ops(a.drop_first(), bnext), s.skip(n0 as int)) == apply(
                bnext,
                apply(a.drop_first(), s.skip(n0 as int)),
            )
            &&& input_len(compose_ops(a.drop_first(), bnext)) <= pair_reach(a.drop_first(), bnext)
        }),
    ensures
        apply(compose_ops(a, b), s) == apply(b, apply(a, s)),
        input_len(compose_ops(a, b)) <= pair_reach(a, b),
{
    let c = compose_ops(a, b);
    let ap = a.drop_first();
    let bp = b.drop_first();
    let n0 = op_input_len(a[0]);
    let n1 = op_input_len(b[0]);
    let n0i = n0 as int;
    let n1i = n1 as int;
    assert(a =~= seq![a[0]] + ap);
    assert(b =~= seq![b[0]] + bp);
    lemma_len_cons(a[0], ap);
    lemma_len_cons(b[0], bp);
    let m = apply(a, s);
    let mp = apply(ap, s.skip(n0i));
    lemma_apply_len(ap, s.skip(n0i));
    assert(m == s.take(n0i) + mp);
    let bnext = if n0 == n1 {
        bp
    } else {
        b.update(0, shrink(b[0], n0))
    };
    if n0 < n1 {
        assert(bnext =~= seq![bnext[0]] + bp);
        lemma_len_cons(bnext[0], bp);
        assert(bnext.drop_first() =~= bp);
    }
    let cp = compose_ops(ap, bnext);
    assert(c == seq![c[0]] + cp);
    assert(c.drop_first() =~= cp);
    lemma_len_cons(c[0], cp);
    assert(m.take(n1i) =~= s.take(n0i) + mp.take(n1i - n0i));
    assert(m.skip(n1i) =~= mp.skip(n1i - n0i));
    if n0 == n1 {
        assert(mp.take(0) =~= Seq::<char>::empty());
        assert(mp.skip(0) =~= mp);
        assert(s.take(n0i) + mp.take(0) =~= s.take(n0i));
        assert(apply(bnext, mp) == apply(bp, m.skip(n1i)));
    } else {
        assert(apply(bnext, mp) == if b[0] is Retain {
            mp.take(n1i - n0i) + apply(bp, mp.skip(n1i - n0i))
        } else {
            apply(bp, mp.skip(n1i - n0i))
        });
    }
    if b[0] is Retain {
        assert(apply(c, s) == s.take(n0i) + apply(cp, s.skip(n0i)));
        assert(apply(b, m) == m.take(n1i) + apply(bp, m.skip(n1i)));
        assert(s.take(n0i) + (mp.take(n1i - n0i) + apply(bp, mp.skip(n1i - n0i))) =~= (s.take(n0i)
            + mp.take(n1i - n0i)) + apply(bp, mp.skip(n1i - n0i)));
    } else {
        assert(apply(c, s) == apply(cp, s.skip(n0i)));
        assert(apply(b, m) == apply(bp, m.skip(n1i)));
    }
}

/// Step: retain against retain or delete, with `b`'s span the shorter one.
proof fn step_retain_gt(a: Seq<SpecOp>, b: Seq<SpecOp>, s: Seq<char>)
    requires
        input_len(a) <= s.len(),
        input_len(b) + input_len(a) <= s.len() + output_len(a),
        a.len() > 0 && a[0] is Retain,
        b.len() > 0 && !(b[0] is Insert),
        op_input_len(a[0]) > op_input_len(b[0]),
        ({
            let n1 = op_input_len(b[0]);
            let anext = a.update(
                0,
                SpecOp::Retain((op_input_len(a[0]) - n1) as nat),
            );
            &&& apply(compose_ops(anext, b.drop_first()), s.skip(n1 as int)) == apply(
                b.drop_first(),
                apply(anext, s.skip(n1 as int)),
            )
            &&& input_len(compose_ops(anext, b.drop_first())) <= pair_reach(anext, b.drop_first())
        }),
    ensures
        apply(compose_ops(a, b), s) == apply(b, apply(a, s)),
        input_len(compose_ops(a, b)) <= pair_reach(a, b),
{
    let c = compose_ops(a, b);
    let ap = a.drop_first();
    let bp = b.drop_first();
    let n0 = op_input_len(a[0]);
    let n1 = op_input_len(b[0]);
    let n0i = n0 as int;
    let n1i = n1 as int;
    assert(a =~= seq![a[0]] + ap);
    assert(b =~= seq![b[0]] + bp);
    lemma_len_cons(a[0], ap);
    lemma_len_cons(b[0], bp);
    let m = apply(a, s);
    let mp = apply(ap, s.skip(n0i));
    lemma_apply_len(ap, s.skip(n0i));
    assert(m == s.take(n0i) + mp);
    let anext = a.update(0, SpecOp::Retain((n0 - n1) as nat));
    assert(anext =~= seq![anext[0]] + ap);
    lemma_len_cons(anext[0], ap);
    assert(anext.drop_first() =~= ap);
    let cp = compose_ops(anext, bp);
    assert(c == seq![c[0]] + cp);
    assert(c.drop_first() =~= cp);
    lemma_len_cons(c[0], cp);
    assert(s.skip(n1i).skip(n0i - n1i) =~= s.skip(n0i));
    assert(apply(anext, s.skip(n1i)) == s.skip(n1i).take(n0i - n1i) + apply(
        ap,
        s.skip(n1i).skip(n0i - n1i),
    ));
    assert(m.take(n1i) =~= s.take(n1i));
    assert(m.skip(n1i) =~= s.skip(n1i).take(n0i - n1i) + mp);
    if b[0] is Retain {
        assert(apply(c, s) == s.take(n1i) + apply(cp, s.skip(n1i)));
        assert(apply(b, m) == m.take(n1i) + apply(bp, m.skip(n1i)));
    } else {
        assert(apply(c, s) == apply(cp, s.skip(n1i)));
        assert(apply(b, m) == apply(bp, m.skip(n1i)));
    }
}

/// Step: insert against retain or delete, with the inserted text the
/// shorter or equal side.
proof fn step_insert_le(a: Seq<SpecOp>, b: Seq<SpecOp>, s: Seq<char>)
    requires
        input_len(a) <= s.len(),
        input_len(b) + input_len(a) <= s.len() + output_len(a),
        a.len() > 0 && a[0] is Insert,
        b.len() > 0 && !(b[0] is Insert),
        a[0]->Insert_0.len() <= op_input_len(b[0]),
        ({
            let t = a[0]->Insert_0;
            let bnext = if t.len() == op_input_len(b[0]) {
                b.drop_first()
            } else {
                b.update(0, shrink(b[0], t.len()))
            };
            &&& apply(compose_ops(a.drop_first(), bnext), s) == apply(
                bnext,
                apply(a.drop_first(), s),
            )
            &&& input_len(compose_ops(a.drop_first(), bnext)) <= pair_reach(a.drop_first(), bnext)
        }),
    ensures
        apply(compose_ops(a, b), s) == apply(b, apply(a, s)),
        input_len(compose_ops(a, b)) <= pair_reach(a, b),
{
    let c = compose_ops(a, b);
    let ap = a.drop_first();
    let bp = b.drop_first();
    let t = a[0]->Insert_0;
    let tl = t.len() as int;
    let n1 = op_input_len(b[0]);
    let n1i = n1 as int;
    assert(a =~= seq![a[0]] + ap);
    assert(b =~= seq![b[0]] + bp);
    lemma_len_cons(a[0], ap);
    lemma_len_cons(b[0], bp);
    let m = apply(a, s);
    let mp = apply(ap, s);
    lemma_apply_len(ap, s);
    assert(m == t + mp);
    let bnext = if t.len() == n1 {
        bp
    } else {
        b.update(0, shrink(b[0], t.len()))
    };
    if t.len() < n1 {
        assert(bnext =~= seq![bnext[0]] + bp);
        lemma_len_cons(bnext[0], bp);
        assert(bnext.drop_first() =~= bp);
    }
    let cp = compose_ops(ap, bnext);
    assert(m.take(n1i) =~= t + mp.take(n1i - tl));
    assert(m.skip(n1i) =~= mp.skip(n1i - tl));
    if t.len() == n1 {
        assert(mp.take(0) =~= Seq::<char>::empty());
        assert(mp.skip(0) =~= mp);
        assert(t + mp.take(0) =~= t);
        assert(apply(bnext, mp) == apply(bp, m.skip(n1i)));
    } else {
        assert(apply(bnext, mp) == if b[0] is Retain {
            mp.take(n1i - tl) + apply(bp, mp.skip(n1i - tl))
        } else {
            apply(bp, mp.skip(n1i - tl))
        });
    }
    if b[0] is Retain {
        assert(c == seq![SpecOp::Insert(t)] + cp);
        assert(c[0] == SpecOp::Insert(t));
        assert(c.drop_first() =~= cp);
        lemma_len_cons(c[0], cp);
        assert(apply(c, s) == t + apply(cp, s));
        assert(apply(b, m) == m.take(n1i) + apply(bp, m.skip(n1i)));
        assert(t + (mp.take(n1i - tl) + apply(bp, mp.skip(n1i - tl))) =~= (t + mp.take(n1i - tl))
            + apply(bp, mp.skip(n1i - tl)));
    } else {
        assert(c == cp);
        assert(apply(b, m) == apply(bp, m.skip(n1i)));
    }
}

/// Step: insert against retain or delete, with the inserted text the
/// longer side.
proof fn step_insert_gt(a: Seq<SpecOp>, b: Seq<SpecOp>, s: Seq<char>)
    requires
        input_len(a) <= s.len(),
        input_len(b) + input_len(a) <= s.len() + output_len(a),
        a.len() > 0 && a[0] is Insert,
        b.len() > 0 && !(b[0] is Insert),
        a[0]->Insert_0.len() > op_input_len(b[0]),
        ({
            let t = a[0]->Insert_0;
            let anext = a.update(0, SpecOp::Insert(t.skip(op_input_len(b[0]) as int)));
            &&& apply(compose_ops(anext, b.drop_first()), s) == apply(
                b.drop_first(),
                apply(anext, s),
            )
            &&& input_len(compose_ops(anext, b.drop_first())) <= pair_reach(anext, b.drop_first())
        }),
    ensures
        apply(compose_ops(a, b), s) == apply(b, apply(a, s)),
        input_len(compose_ops(a, b)) <= pair_reach(a, b),
{
    let c = compose_ops(a, b);
    let ap = a.drop_first();
    let bp = b.drop_first();
    let t = a[0]->Insert_0;
    let n1 = op_input_len(b[0]);
    let n1i = n1 as int;
    assert(a =~= seq![a[0]] + ap);
    assert(b =~= seq![b[0]] + bp);
    lemma_len_cons(a[0], ap);
    lemma_len_cons(b[0], bp);
    let m = apply(a, s);
    let mp = apply(ap, s);
    lemma_apply_len(ap, s);
    assert(m == t + mp);
    let anext = a.update(0, SpecOp::Insert(t.skip(n1i)));
    assert(anext =~= seq![anext[0]] + ap);
    lemma_len_cons(anext[0], ap);
    assert(anext.drop_first() =~= ap);
    let cp = compose_ops(anext, bp);
    assert(apply(anext, s) == t.skip(n1i) + mp);
    assert(m.take(n1i) =~= t.take(n1i));
    assert(m.skip(n1i) =~= t.skip(n1i) + mp);
    if b[0] is Retain {
        assert(c == seq![SpecOp::Insert(t.take(n1i))] + cp);
        assert(c[0] == SpecOp::Insert(t.take(n1i)));
        assert(c.drop_first() =~= cp);
        lemma_len_cons(c[0], cp);
        assert(apply(c, s) == t.take(n1i) + apply(cp, s));
        assert(apply(b, m) == m.take(n1i) + apply(bp, m.skip(n1i)));
    } else {
        assert(c == cp);
        assert(apply(b, m) == apply(bp, m.skip(n1i)));
    }
}

/// The raw pairing of two operation sequences means: apply the first, then
/// the second; and it reads no more of the source than [`pair_reach`]
/// allows.
pub proof fn lemma_compose_ops_apply(a: Seq<SpecOp>, b: Seq<SpecOp>, s: Seq<char>)
    requires
        input_len(a) <= s.len(),
        input_len(b) + input_len(a) <= s.len() + output_len(a),
    ensures
        apply(compose_ops(a, b), s) == apply(b, apply(a, s)),
        input_len(compose_ops(a, b)) <= pair_reach(a, b),
    decreases a.len() + b.len(),
{
    if a.len() > 0 {
        assert(a =~= seq![a[0]] + a.drop_first());
        lemma_len_cons(a[0], a.drop_first());
    }
    if b.len() > 0 {
        assert(b =~= seq![b[0]] + b.drop_first());
        lemma_len_cons(b[0], b.drop_first());
    }
    if b.len() > 0 && b[0] is Insert {
        lemma_compose_ops_apply(a, b.drop_first(), s);
        step_insert_passes(a, b, s);
    } else if a.len() == 0 && b.len() == 0 {
        assert(apply(compose_ops(a, b), s) == s);
        assert(apply(b, apply(a, s)) == s);
    } else if a.len() == 0 {
        let n1 = op_input_len(b[0]) as int;
        lemma_compose_ops_apply(a, b.drop_first(), s.skip(n1));
        step_a_exhausted(a, b, s);
    } else if a[0] is Delete {
        let n0 = op_input_len(a[0]) as int;
        lemma_compose_ops_apply(a.drop_first(), b, s.skip(n0));
        step_delete_passes(a, b, s);
    } else if b.len() == 0 {
        if a[0] is Retain {
            lemma_compose_ops_apply(a.drop_first(), b, s.skip(op_input_len(a[0]) as int));
        } else {
            lemma_compose_ops_apply(a.drop_first(), b, s);
        }
        step_b_exhausted(a, b, s);
    } else if a[0] is Retain {
        let n0 = op_input_len(a[0]);
        let n1 = op_input_len(b[0]);
        if n0 <= n1 {
            let bnext = if n0 == n1 {
                b.drop_first()
            } else {
                b.update(0, shrink(b[0], n0))
            };
            if n0 < n1 {
                assert(bnext =~= seq![bnext[0]] + b.drop_first());
                lemma_len_cons(bnext[0], b.drop_first());
            }
            lemma_compose_ops_apply(a.drop_first(), bnext, s.skip(n0 as int));
            step_retain_le(a, b, s);
        } else {
            let anext = a.update(0, SpecOp::Retain((n0 - n1) as nat));
            assert(anext =~= seq![anext[0]] + a.drop_first());
            lemma_len_cons(anext[0], a.drop_first());
            lemma_compose_ops_apply(anext, b.drop_first(), s.skip(n1 as int));
            step_retain_gt(a, b, s);
        }
    } else {
        let t = a[0]->Insert_0;
        let n1 = op_input_len(b[0]);
        if t.len() <= n1 {
            let bnext = if t.len() == n1 {
                b.drop_first()
            } else {
                b.update(0, shrink(b[0], t.len()))
            };
            if t.len() < n1 {
                assert(bnext =~= seq![bnext[0]] + b.drop_first());
                lemma_len_cons(bnext[0], b.drop_first());
            }
            lemma_compose_ops_apply(a.drop_first(), bnext, s);
            step_insert_le(a, b, s);
        } else {
            let anext = a.update(0, SpecOp::Insert(t.skip(n1 as int)));
            assert(anext =~= seq![anext[0]] + a.drop_first());
            lemma_len_cons(anext[0], a.drop_first());
            lemma_compose_ops_apply(anext, b.drop_first(), s);
            step_insert_gt(a, b, s);
        }
    }
}

} // verus!
