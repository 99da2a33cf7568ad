//! Canonical diffs are unique: two canonical operation sequences that edit
//! every sufficiently long text alike are the same sequence.
//!
//! The proof probes the two sequences with chosen inputs — a constant
//! text, and the same text with one character changed — and reads off,
//! position by position, that their leading operations must agree; the
//! tails then agree on every text and the induction closes.

use vstd::prelude::*;

use crate::lemmas::lemma_len_cons;
use crate::model::{apply, canonical, input_len, op_input_len, pair_ok, SpecOp};
use crate::semantics::lemma_apply_len;

verus! {

/// Whether the two sequences edit every text of length at least `n`
/// alike.
pub open spec fn agree_from(c1: Seq<SpecOp>, c2: Seq<SpecOp>, n: nat) -> bool {
    forall|s: Seq<char>| s.len() >= n ==> #[trigger] apply(c1, s) == apply(c2, s)
}

/// Whether the sequence leaves every text of length at least `n`
/// unchanged.
pub open spec fn identity_from(c: Seq<SpecOp>, n: nat) -> bool {
    forall|s: Seq<char>| s.len() >= n ==> #[trigger] apply(c, s) == s
}

/// A text of `k` copies of one character.
spec fn const_seq(k: nat, ch: char) -> Seq<char> {
    Seq::new(k, |i: int| ch)
}

/// A text of `k` copies of one character, with another at position `j`.
spec fn mark_seq(k: nat, j: int, ch: char, mk: char) -> Seq<char> {
    Seq::new(k, |i: int| if i == j { mk } else { ch })
}

/// Some character other than the given one.
spec fn other_char(x: char) -> char {
    if x == 'a' {
        'b'
    } else {
        'a'
    }
}

/// Dropping the first operation of a canonical sequence leaves a
/// canonical sequence.
proof fn lemma_canonical_drop_first(c: Seq<SpecOp>)
    requires
        canonical(c),
        c.len() > 0,
    ensures
        canonical(c.drop_first()),
{
    let r = c.drop_first();
    assert forall|i: int| 0 <= i < r.len() implies crate::model::op_nonempty(#[trigger] r[i]) by {
        assert(crate::model::op_nonempty(c[i + 1]));
    }
    assert forall|i: int| 0 <= i && i + 1 < r.len() implies pair_ok(#[trigger] r[i], r[i + 1]) by {
        assert(pair_ok(c[i + 1], c[i + 2]));
    }
    if r.len() > 0 {
        assert(r.last() == c.last());
    }
}

/// Equal prefixes cancel: if `a + b == a + c` then `b == c`.
proof fn lemma_cancel_left(a: Seq<char>, b: Seq<char>, c: Seq<char>)
    requires
        a + b == a + c,
    ensures
        b == c,
{
    let lhs = a + b;
    let rhs = a + c;
    assert(lhs.len() == a.len() + b.len());
    assert(rhs.len() == a.len() + c.len());
    assert(lhs.len() == rhs.len());
    assert(b.len() == c.len());
    assert forall|i: int| 0 <= i < b.len() implies b[i] == c[i] by {
        assert((a + b)[a.len() + i] == b[i]);
        assert((a + c)[a.len() + i] == c[i]);
    }
    assert(b =~= c);
}

/// Where the first character of the input shows up in the output: at the
/// front, or right after the text a leading insert produces.
spec fn obs(c: Seq<SpecOp>) -> nat {
    if c.len() > 0 && c[0] is Insert {
        c[0]->Insert_0.len()
    } else {
        0
    }
}

/// For a canonical sequence that does not start with a delete, the output
/// holds the input's first character at position [`obs`].
proof fn lemma_obs(c: Seq<SpecOp>, s: Seq<char>)
    requires
        canonical(c),
        !(c.len() > 0 && c[0] is Delete),
        input_len(c) < s.len(),
    ensures
        obs(c) < apply(c, s).len(),
        apply(c, s)[obs(c) as int] == s[0],
{
    lemma_apply_len(c, s);
    if c.len() == 0 {
    } else {
        let r = c.drop_first();
        assert(c =~= seq![c[0]] + r);
        lemma_len_cons(c[0], r);
        match c[0] {
            SpecOp::Retain(k) => {
                assert(apply(c, s) == s.take(k as int) + apply(r, s.skip(k as int)));
                assert((s.take(k as int) + apply(r, s.skip(k as int)))[0] == s[0]);
            },
            SpecOp::Insert(t) => {
                assert(apply(c, s) == t + apply(r, s));
                if r.len() == 0 {
                    assert(apply(r, s) == s);
                } else {
                    assert(pair_ok(c[0], c[1]));
                    assert(r[0] == c[1]);
                    assert(r[0] is Retain);
                    let k2 = r[0]->Retain_0;
                    assert(apply(r, s) == s.take(k2 as int) + apply(
                        r.drop_first(),
                        s.skip(k2 as int),
                    ));
                    assert(crate::model::op_nonempty(c[1]));
                    assert(apply(r, s)[0] == s[0]);
                    lemma_apply_len(r, s);
                }
                assert((t + apply(r, s))[t.len() as int] == apply(r, s)[0]);
            },
            SpecOp::Delete(_) => {
                assert(false);
            },
        }
    }
}

/// If the two sequences agree and share their first operation, their
/// tails agree on every text long enough for them.
proof fn lemma_agree_tail(c1: Seq<SpecOp>, c2: Seq<SpecOp>, n: nat)
    requires
        c1.len() > 0,
        c2.len() > 0,
        c1[0] == c2[0],
        input_len(c1) <= n,
        input_len(c2) <= n,
        agree_from(c1, c2, n),
    ensures
        agree_from(c1.drop_first(), c2.drop_first(), (n - op_input_len(c1[0])) as nat),
{
    let x = c1[0];
    let k = op_input_len(x);
    let r1 = c1.drop_first();
    let r2 = c2.drop_first();
    assert(c1 =~= seq![x] + r1);
    assert(c2 =~= seq![x] + r2);
    lemma_len_cons(x, r1);
    lemma_len_cons(x, r2);
    assert forall|s2: Seq<char>| s2.len() >= n - k implies #[trigger] apply(r1, s2) == apply(
        r2,
        s2,
    ) by {
        let s = const_seq(k, 'a') + s2;
        assert(s.len() >= n);
        assert(apply(c1, s) == apply(c2, s));
        match x {
            SpecOp::Retain(m) => {
                assert(s.take(m as int) =~= const_seq(k, 'a'));
                assert(s.skip(m as int) =~= s2);
                assert(apply(c1, s) == const_seq(k, 'a') + apply(r1, s2));
                assert(apply(c2, s) == const_seq(k, 'a') + apply(r2, s2));
                lemma_cancel_left(const_seq(k, 'a'), apply(r1, s2), apply(r2, s2));
            },
            SpecOp::Delete(m) => {
                assert(s.skip(m as int) =~= s2);
                assert(apply(c1, s) == apply(r1, s2));
                assert(apply(c2, s) == apply(r2, s2));
            },
            SpecOp::Insert(t) => {
                assert(s =~= s2);
                assert(apply(c1, s2) == t + apply(r1, s2));
                assert(apply(c2, s2) == t + apply(r2, s2));
                lemma_cancel_left(t, apply(r1, s2), apply(r2, s2));
            },
        }
    }
}

/// A nonempty canonical sequence is not the identity: it changes some
/// text of any required length.
proof fn lemma_not_identity(c: Seq<SpecOp>, n: nat)
    requires
        canonical(c),
        c.len() > 0,
        input_len(c) <= n,
    ensures
        !identity_from(c, n),
    decreases c.len(),
{
    if identity_from(c, n) {
        let r = c.drop_first();
        assert(c =~= seq![c[0]] + r);
        lemma_len_cons(c[0], r);
        match c[0] {
            SpecOp::Retain(k) => {
                // A lone or trailing retain is not canonical, so the rest is
                // nonempty; strip the retained prefix and recurse.
                assert(r.len() > 0);
                lemma_canonical_drop_first(c);
                assert forall|s2: Seq<char>| s2.len() >= n - k implies #[trigger] apply(r, s2)
                    == s2 by {
                    let s = const_seq(k, 'a') + s2;
                    assert(s.len() >= n);
                    assert(apply(c, s) == s);
                    assert(s.take(k as int) =~= const_seq(k, 'a'));
                    assert(s.skip(k as int) =~= s2);
                    assert(apply(c, s) == const_seq(k, 'a') + apply(r, s2));
                    assert(s == const_seq(k, 'a') + s2);
                    lemma_cancel_left(const_seq(k, 'a'), apply(r, s2), s2);
                }
                lemma_not_identity(r, (n - k) as nat);
                assert(false);
            },
            SpecOp::Insert(t) => {
                let big = n + 1;
                let p = const_seq(big, other_char(t[0]));
                assert(p.len() >= n);
                assert(apply(c, p) == p);
                assert(apply(c, p) == t + apply(r, p));
                assert((t + apply(r, p))[0] == t[0]);
                assert(p[0] == other_char(t[0]));
                assert(other_char(t[0]) != t[0]);
                assert(false);
            },
            SpecOp::Delete(k) => {
                let big = n + 1;
                let p = const_seq(big, 'a');
                let q = mark_seq(big, 0, 'a', 'b');
                assert(p.len() >= n && q.len() >= n);
                assert(apply(c, p) == p);
                assert(apply(c, q) == q);
                assert(p.skip(k as int) =~= q.skip(k as int));
                assert(apply(c, p) == apply(r, p.skip(k as int)));
                assert(apply(c, q) == apply(r, q.skip(k as int)));
                assert(p[0] != q[0]);
                assert(p == q);
            },
        }
        assert(false);
    }
}

/// The sequences disagree when one passes the input's first character
/// through and the other drops it or replaces it with fixed text.
proof fn lemma_head_mismatch(c1: Seq<SpecOp>, c2: Seq<SpecOp>, n: nat)
    requires
        canonical(c1),
        canonical(c2),
        input_len(c1) <= n,
        input_len(c2) <= n,
        c1.len() > 0,
        c1[0] is Delete,
        !(c2.len() > 0 && c2[0] is Delete),
    ensures
        !agree_from(c1, c2, n),
{
    if agree_from(c1, c2, n) {
        let k = c1[0]->Delete_0;
        let r1 = c1.drop_first();
        assert(c1 =~= seq![c1[0]] + r1);
        lemma_len_cons(c1[0], r1);
        let big = n + 1;
        let p = const_seq(big, 'a');
        let q = mark_seq(big, 0, 'a', 'b');
        assert(p.len() >= n && q.len() >= n);
        assert(apply(c1, p) == apply(c2, p));
        assert(apply(c1, q) == apply(c2, q));
        // The delete head never sees the first character.
        assert(p.skip(k as int) =~= q.skip(k as int));
        assert(apply(c1, p) == apply(r1, p.skip(k as int)));
        assert(apply(c1, q) == apply(r1, q.skip(k as int)));
        // The other sequence passes it into the output.
        lemma_obs(c2, p);
        lemma_obs(c2, q);
        assert(apply(c2, p)[obs(c2) as int] == p[0]);
        assert(apply(c2, q)[obs(c2) as int] == q[0]);
        assert(p[0] != q[0]);
        assert(false);
    }
}

/// The sequences disagree when both retain, but by different amounts.
proof fn lemma_retain_mismatch(c1: Seq<SpecOp>, c2: Seq<SpecOp>, n: nat)
    requires
        canonical(c1),
        canonical(c2),
        input_len(c1) <= n,
        input_len(c2) <= n,
        c1.len() > 0 && c1[0] is Retain,
        c2.len() > 0 && c2[0] is Retain,
        c1[0]->Retain_0 < c2[0]->Retain_0,
    ensures
        !agree_from(c1, c2, n),
{
    if agree_from(c1, c2, n) {
        let n1 = c1[0]->Retain_0;
        let n2 = c2[0]->Retain_0;
        let r1 = c1.drop_first();
        let r2 = c2.drop_first();
        assert(c1 =~= seq![c1[0]] + r1);
        assert(c2 =~= seq![c2[0]] + r2);
        lemma_len_cons(c1[0], r1);
        lemma_len_cons(c2[0], r2);
        // The shorter retain is followed by something (no trailing retain),
        // and that something is a delete or an insert.
        assert(r1.len() > 0);
        assert(pair_ok(c1[0], c1[1]));
        assert(r1[0] == c1[1]);
        lemma_canonical_drop_first(c1);
        let big = n + n1 + 1;
        let p = const_seq(big, 'a');
        let q = mark_seq(big, n1 as int, 'a', 'b');
        assert(p.len() >= n && q.len() >= n);
        assert(apply(c1, p) == apply(c2, p));
        assert(apply(c1, q) == apply(c2, q));
        lemma_apply_len(c1, p);
        lemma_apply_len(c2, p);
        lemma_apply_len(c1, q);
        lemma_apply_len(c2, q);
        // Under the longer retain, position n1 of the output is the input's
        // character there, which the probes vary.
        assert(apply(c2, p) == p.take(n2 as int) + apply(r2, p.skip(n2 as int)));
        assert(apply(c2, q) == q.take(n2 as int) + apply(r2, q.skip(n2 as int)));
        assert(apply(c2, p)[n1 as int] == p[n1 as int]);
        assert(apply(c2, q)[n1 as int] == q[n1 as int]);
        assert(p[n1 as int] == 'a' && q[n1 as int] == 'b');
        // Under the shorter retain, position n1 of the output is the same for
        // both probes: a delete drops the varied character, an insert covers
        // it with fixed text.
        assert(apply(c1, p) == p.take(n1 as int) + apply(r1, p.skip(n1 as int)));
        assert(apply(c1, q) == q.take(n1 as int) + apply(r1, q.skip(n1 as int)));
        assert(p.take(n1 as int) =~= q.take(n1 as int));
        match r1[0] {
            SpecOp::Delete(k) => {
                let rr = r1.drop_first();
                assert(r1 =~= seq![r1[0]] + rr);
                lemma_len_cons(r1[0], rr);
                assert(p.skip(n1 as int).skip(k as int) =~= q.skip(n1 as int).skip(k as int));
                assert(apply(r1, p.skip(n1 as int)) == apply(rr, p.skip(n1 as int).skip(k as int)));
                assert(apply(r1, q.skip(n1 as int)) == apply(rr, q.skip(n1 as int).skip(k as int)));
                assert(apply(c1, p) == apply(c1, q));
            },
            SpecOp::Insert(t) => {
                let rr = r1.drop_first();
                assert(r1 =~= seq![r1[0]] + rr);
                lemma_len_cons(r1[0], rr);
                assert(apply(r1, p.skip(n1 as int)) == t + apply(rr, p.skip(n1 as int)));
                assert(apply(r1, q.skip(n1 as int)) == t + apply(rr, q.skip(n1 as int)));
                assert(crate::model::op_nonempty(r1[0]));
                assert(apply(r1, p.skip(n1 as int))[0] == t[0]);
                assert(apply(r1, q.skip(n1 as int))[0] == t[0]);
                assert(apply(c1, p)[n1 as int] == t[0]);
                assert(apply(c1, q)[n1 as int] == t[0]);
            },
            SpecOp::Retain(_) => {
                assert(false);
            },
        }
        assert(false);
    }
}

/// The sequences disagree when both delete, but by different amounts.
proof fn lemma_delete_mismatch(c1: Seq<SpecOp>, c2: Seq<SpecOp>, n: nat)
    requires
        canonical(c1),
        canonical(c2),
        input_len(c1) <= n,
        input_len(c2) <= n,
        c1.len() > 0 && c1[0] is Delete,
        c2.len() > 0 && c2[0] is Delete,
        c1[0]->Delete_0 < c2[0]->Delete_0,
    ensures
        !agree_from(c1, c2, n),
{
    if agree_from(c1, c2, n) {
        let n1 = c1[0]->Delete_0;
        let n2 = c2[0]->Delete_0;
        let r1 = c1.drop_first();
        let r2 = c2.drop_first();
        assert(c1 =~= seq![c1[0]] + r1);
        assert(c2 =~= seq![c2[0]] + r2);
        lemma_len_cons(c1[0], r1);
        lemma_len_cons(c2[0], r2);
        lemma_canonical_drop_first(c1);
        if r1.len() > 0 {
            assert(pair_ok(c1[0], c1[1]));
            assert(r1[0] == c1[1]);
        }
        let big = n + n1 + 1;
        let p = const_seq(big, 'a');
        let q = mark_seq(big, n1 as int, 'a', 'b');
        assert(p.len() >= n && q.len() >= n);
        assert(apply(c1, p) == apply(c2, p));
        assert(apply(c1, q) == apply(c2, q));
        // The longer delete drops position n1, so both probes give one
        // output there.
        assert(p.skip(n2 as int) =~= q.skip(n2 as int));
        assert(apply(c2, p) == apply(r2, p.skip(n2 as int)));
        assert(apply(c2, q) == apply(r2, q.skip(n2 as int)));
        // After the shorter delete, position n1 is the first character the
        // rest of the sequence sees, and it lands in the output.
        assert(apply(c1, p) == apply(r1, p.skip(n1 as int)));
        assert(apply(c1, q) == apply(r1, q.skip(n1 as int)));
        assert(input_len(r1) < p.skip(n1 as int).len());
        lemma_obs(r1, p.skip(n1 as int));
        lemma_obs(r1, q.skip(n1 as int));
        assert(p.skip(n1 as int)[0] == 'a');
        assert(q.skip(n1 as int)[0] == 'b');
        assert(false);
    }
}

/// The sequences disagree when both insert, but different texts.
proof fn lemma_insert_mismatch(c1: Seq<SpecOp>, c2: Seq<SpecOp>, n: nat)
    requires
        canonical(c1),
        canonical(c2),
        input_len(c1) <= n,
        input_len(c2) <= n,
        c1.len() > 0 && c1[0] is Insert,
        c2.len() > 0 && c2[0] is Insert,
        c1[0]->Insert_0.len() < c2[0]->Insert_0.len(),
    ensures
        !agree_from(c1, c2, n),
{
    if agree_from(c1, c2, n) {
        let t1 = c1[0]->Insert_0;
        let t2 = c2[0]->Insert_0;
        let r1 = c1.drop_first();
        let r2 = c2.drop_first();
        assert(c1 =~= seq![c1[0]] + r1);
        assert(c2 =~= seq![c2[0]] + r2);
        lemma_len_cons(c1[0], r1);
        lemma_len_cons(c2[0], r2);
        let big = n + 1;
        let p = const_seq(big, 'a');
        let q = mark_seq(big, 0, 'a', 'b');
        assert(p.len() >= n && q.len() >= n);
        assert(apply(c1, p) == apply(c2, p));
        assert(apply(c1, q) == apply(c2, q));
        // Position |t1| of the first sequence's output is the input's first
        // character, which the probes vary.
        lemma_obs(c1, p);
        lemma_obs(c1, q);
        assert(obs(c1) == t1.len());
        assert(apply(c1, p)[t1.len() as int] == 'a');
        assert(apply(c1, q)[t1.len() as int] == 'b');
        // Position |t1| of the second sequence's output is a fixed character
        // of its longer inserted text.
        assert(apply(c2, p) == t2 + apply(r2, p));
        assert(apply(c2, q) == t2 + apply(r2, q));
        assert(apply(c2, p)[t1.len() as int] == t2[t1.len() as int]);
        assert(apply(c2, q)[t1.len() as int] == t2[t1.len() as int]);
        assert(false);
    }
}

/// Canonical sequences with one meaning are one sequence: if two
/// canonical diffs edit every sufficiently long text alike, they are
/// equal operation by operation.
pub proof fn lemma_canonical_unique(c1: Seq<SpecOp>, c2: Seq<SpecOp>, n: nat)
    requires
        canonical(c1),
        canonical(c2),
        input_len(c1) <= n,
        input_len(c2) <= n,
        agree_from(c1, c2, n),
    ensures
        c1 == c2,
    decreases c1.len() + c2.len(),
{
    assert(agree_from(c2, c1, n)) by {
        assert forall|s: Seq<char>| s.len() >= n implies #[trigger] apply(c2, s) == apply(
            c1,
            s,
        ) by {
            assert(apply(c1, s) == apply(c2, s));
        }
    }
    if c1.len() == 0 && c2.len() == 0 {
        assert(c1 =~= c2);
    } else if c1.len() == 0 {
        assert forall|s: Seq<char>| s.len() >= n implies #[trigger] apply(c2, s) == s by {
            assert(apply(c1, s) == apply(c2, s));
        }
        lemma_not_identity(c2, n);
        assert(false);
    } else if c2.len() == 0 {
        assert forall|s: Seq<char>| s.len() >= n implies #[trigger] apply(c1, s) == s by {
            assert(apply(c1, s) == apply(c2, s));
        }
        lemma_not_identity(c1, n);
        assert(false);
    } else {
        if c1[0] is Delete && !(c2[0] is Delete) {
            lemma_head_mismatch(c1, c2, n);
        } else if c2[0] is Delete && !(c1[0] is Delete) {
            lemma_head_mismatch(c2, c1, n);
        } else if c1[0] is Delete && c2[0] is Delete {
            if c1[0]->Delete_0 < c2[0]->Delete_0 {
                lemma_delete_mismatch(c1, c2, n);
            } else if c2[0]->Delete_0 < c1[0]->Delete_0 {
                lemma_delete_mismatch(c2, c1, n);
            }
        } else if c1[0] is Retain && c2[0] is Insert {
            lemma_insert_vs_retain(c2, c1, n);
        } else if c1[0] is Insert && c2[0] is Retain {
            lemma_insert_vs_retain(c1, c2, n);
        } else if c1[0] is Retain && c2[0] is Retain {
            if c1[0]->Retain_0 < c2[0]->Retain_0 {
                lemma_retain_mismatch(c1, c2, n);
            } else if c2[0]->Retain_0 < c1[0]->Retain_0 {
                lemma_retain_mismatch(c2, c1, n);
            }
        } else {
            assert(c1[0] is Insert && c2[0] is Insert);
            if c1[0]->Insert_0.len() < c2[0]->Insert_0.len() {
                lemma_insert_mismatch(c1, c2, n);
            } else if c2[0]->Insert_0.len() < c1[0]->Insert_0.len() {
                lemma_insert_mismatch(c2, c1, n);
            } else {
                // Equal lengths: the inserted texts agree character by
                // character under any one probe.
                let t1 = c1[0]->Insert_0;
                let t2 = c2[0]->Insert_0;
                let r1 = c1.drop_first();
                let r2 = c2.drop_first();
                assert(c1 =~= seq![c1[0]] + r1);
                assert(c2 =~= seq![c2[0]] + r2);
                lemma_len_cons(c1[0], r1);
                lemma_len_cons(c2[0], r2);
                let p = const_seq(n, 'a');
                assert(p.len() >= n);
                assert(apply(c1, p) == apply(c2, p));
                assert(apply(c1, p) == t1 + apply(r1, p));
                assert(apply(c2, p) == t2 + apply(r2, p));
                assert forall|j: int| 0 <= j < t1.len() implies t1[j] == t2[j] by {
                    assert((t1 + apply(r1, p))[j] == t1[j]);
                    assert((t2 + apply(r2, p))[j] == t2[j]);
                }
                assert(t1 =~= t2);
            }
        }
        // Only equal heads survive the case analysis.
        assert(c1[0] == c2[0]);
        lemma_canonical_drop_first(c1);
        lemma_canonical_drop_first(c2);
        let r1 = c1.drop_first();
        let r2 = c2.drop_first();
        assert(c1 =~= seq![c1[0]] + r1);
        assert(c2 =~= seq![c2[0]] + r2);
        lemma_len_cons(c1[0], r1);
        lemma_len_cons(c2[0], r2);
        lemma_agree_tail(c1, c2, n);
        lemma_canonical_unique(r1, r2, (n - op_input_len(c1[0])) as nat);
        assert(c1 =~= c2);
    }
}

/// The sequences disagree when one inserts and the other retains: the
/// first output character is fixed text on one side and the input's
/// first character on the other.
proof fn lemma_insert_vs_retain(c1: Seq<SpecOp>, c2: Seq<SpecOp>, n: nat)
    requires
        canonical(c1),
        canonical(c2),
        input_len(c1) <= n,
        input_len(c2) <= n,
        c1.len() > 0 && c1[0] is Insert,
        c2.len() > 0 && c2[0] is Retain,
    ensures
        !agree_from(c1, c2, n),
{
    if agree_from(c1, c2, n) {
        let t1 = c1[0]->Insert_0;
        let r1 = c1.drop_first();
        let r2 = c2.drop_first();
        assert(c1 =~= seq![c1[0]] + r1);
        assert(c2 =~= seq![c2[0]] + r2);
        lemma_len_cons(c1[0], r1);
        lemma_len_cons(c2[0], r2);
        let k2 = c2[0]->Retain_0;
        let big = n + 1;
        let p = const_seq(big, other_char(t1[0]));
        assert(p.len() >= n);
        assert(apply(c1, p) == apply(c2, p));
        assert(crate::model::op_nonempty(c1[0]));
        assert(crate::model::op_nonempty(c2[0]));
        assert(apply(c1, p) == t1 + apply(r1, p));
        assert(apply(c1, p)[0] == t1[0]);
        assert(apply(c2, p) == p.take(k2 as int) + apply(r2, p.skip(k2 as int)));
        assert(apply(c2, p)[0] == p[0]);
        assert(p[0] == other_char(t1[0]));
        assert(other_char(t1[0]) != t1[0]);
        assert(false);
    }
}

} // verus!
