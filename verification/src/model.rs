//! The mathematical model of edit operations.
//!
//! An operation either retains a span of the input text, deletes a span, or
//! inserts new characters. [`apply`] gives the meaning of an operation
//! sequence: the text it produces from an input text. Operation lengths need
//! not cover the whole input; the uncovered tail is kept unchanged, so a
//! trailing retain is redundant.
//!
//! [`push_retain`], [`push_delete`], [`push_insert`] and [`trim`] model the
//! canonicalizing builder: adjacent operations of one kind merge, a delete
//! slides in front of an insert at the same position, empty operations
//! vanish, and a trailing retain is dropped. [`compose_ops`] is the raw
//! pairing of two operation sequences applied one after the other;
//! [`compose_spec`] is that pairing fed through the builder.

use vstd::prelude::*;

verus! {

/// One edit operation, in specification form: lengths are naturals and
/// inserted text is a sequence of characters.
pub enum SpecOp {
    /// Remove this many characters of the input.
    Delete(nat),
    /// Keep this many characters of the input.
    Retain(nat),
    /// Produce these characters, consuming no input.
    Insert(Seq<char>),
}

/// How many characters of the input one operation consumes.
pub open spec fn op_input_len(op: SpecOp) -> nat {
    match op {
        SpecOp::Delete(n) => n,
        SpecOp::Retain(n) => n,
        SpecOp::Insert(_) => 0,
    }
}

/// How many characters of the output one operation produces.
pub open spec fn op_output_len(op: SpecOp) -> nat {
    match op {
        SpecOp::Delete(_) => 0,
        SpecOp::Retain(n) => n,
        SpecOp::Insert(t) => t.len(),
    }
}

/// How many characters of the input a whole sequence consumes: the sum of
/// its retain and delete lengths.
pub open spec fn input_len(ops: Seq<SpecOp>) -> nat
    decreases ops.len(),
{
    if ops.len() == 0 {
        0
    } else {
        op_input_len(ops[0]) + input_len(ops.drop_first())
    }
}

/// How many characters of the consumed input's image a whole sequence
/// produces: the sum of its retain and insert lengths.
pub open spec fn output_len(ops: Seq<SpecOp>) -> nat
    decreases ops.len(),
{
    if ops.len() == 0 {
        0
    } else {
        op_output_len(ops[0]) + output_len(ops.drop_first())
    }
}

/// The meaning of an operation sequence: the text produced from input `s`.
/// Any part of `s` beyond `input_len(ops)` is kept unchanged.
pub open spec fn apply(ops: Seq<SpecOp>, s: Seq<char>) -> Seq<char>
    decreases ops.len(),
{
    if ops.len() == 0 {
        s
    } else {
        match ops[0] {
            SpecOp::Retain(n) => s.take(n as int) + apply(ops.drop_first(), s.skip(n as int)),
            SpecOp::Delete(n) => apply(ops.drop_first(), s.skip(n as int)),
            SpecOp::Insert(t) => t + apply(ops.drop_first(), s),
        }
    }
}

/// Whether an operation does anything at all.
pub open spec fn op_nonempty(op: SpecOp) -> bool {
    match op {
        SpecOp::Delete(n) => n > 0,
        SpecOp::Retain(n) => n > 0,
        SpecOp::Insert(t) => t.len() > 0,
    }
}

/// Whether `b` may directly follow `a` in canonical form: never two
/// operations of one kind, and never an insert directly before a delete
/// (both sit at the same input position, and the delete goes first).
pub open spec fn pair_ok(a: SpecOp, b: SpecOp) -> bool {
    &&& !(a is Delete && b is Delete)
    &&& !(a is Retain && b is Retain)
    &&& !(a is Insert && b is Insert)
    &&& !(a is Insert && b is Delete)
}

/// The invariant of a sequence under construction: no empty operations and
/// no adjacent pair that canonical form forbids. A trailing retain is still
/// allowed; [`trim`] removes it.
pub open spec fn builder_wf(ops: Seq<SpecOp>) -> bool {
    &&& forall|i: int| 0 <= i < ops.len() ==> op_nonempty(#[trigger] ops[i])
    &&& forall|i: int| 0 <= i && i + 1 < ops.len() ==> pair_ok(#[trigger] ops[i], ops[i + 1])
}

/// Canonical form: well formed and not ending in a retain.
pub open spec fn canonical(ops: Seq<SpecOp>) -> bool {
    &&& builder_wf(ops)
    &&& ops.len() > 0 ==> !(ops.last() is Retain)
}

/// Appends a retain of length `n`, merging with a trailing retain.
pub open spec fn push_retain(ops: Seq<SpecOp>, n: nat) -> Seq<SpecOp> {
    if n == 0 {
        ops
    } else if ops.len() > 0 && ops.last() is Retain {
        ops.update(ops.len() - 1, SpecOp::Retain((ops.last()->Retain_0 + n) as nat))
    } else {
        ops.push(SpecOp::Retain(n))
    }
}

/// Appends a delete of length `n`. It merges with a trailing delete, also
/// through a trailing insert (the delete happens logically before the
/// already buffered insert), and slides in front of a trailing insert that
/// no delete precedes.
pub open spec fn push_delete(ops: Seq<SpecOp>, n: nat) -> Seq<SpecOp> {
    if n == 0 {
        ops
    } else if ops.len() > 0 && ops.last() is Delete {
        ops.update(ops.len() - 1, SpecOp::Delete((ops.last()->Delete_0 + n) as nat))
    } else if ops.len() > 1 && ops.last() is Insert && ops[ops.len() - 2] is Delete {
        ops.update(ops.len() - 2, SpecOp::Delete((ops[ops.len() - 2]->Delete_0 + n) as nat))
    } else if ops.len() > 0 && ops.last() is Insert {
        ops.update(ops.len() - 1, SpecOp::Delete(n)).push(ops.last())
    } else {
        ops.push(SpecOp::Delete(n))
    }
}

/// Appends an insert of text `t`, merging with a trailing insert.
pub open spec fn push_insert(ops: Seq<SpecOp>, t: Seq<char>) -> Seq<SpecOp> {
    if t.len() == 0 {
        ops
    } else if ops.len() > 0 && ops.last() is Insert {
        ops.update(ops.len() - 1, SpecOp::Insert(ops.last()->Insert_0 + t))
    } else {
        ops.push(SpecOp::Insert(t))
    }
}

/// Appends one operation through the canonicalizing builder.
pub open spec fn push_op(ops: Seq<SpecOp>, op: SpecOp) -> Seq<SpecOp> {
    match op {
        SpecOp::Retain(n) => push_retain(ops, n),
        SpecOp::Delete(n) => push_delete(ops, n),
        SpecOp::Insert(t) => push_insert(ops, t),
    }
}

/// Appends every operation of `l` in order through the builder.
pub open spec fn push_all(ops: Seq<SpecOp>, l: Seq<SpecOp>) -> Seq<SpecOp>
    decreases l.len(),
{
    if l.len() == 0 {
        ops
    } else {
        push_all(push_op(ops, l[0]), l.drop_first())
    }
}

/// Drops a trailing retain: the final step of the builder.
pub open spec fn trim(ops: Seq<SpecOp>) -> Seq<SpecOp> {
    if ops.len() > 0 && ops.last() is Retain {
        ops.drop_last()
    } else {
        ops
    }
}

/// The canonical form of an arbitrary operation sequence: every operation
/// pushed through the builder, then trimmed.
pub open spec fn canonicalize(l: Seq<SpecOp>) -> Seq<SpecOp> {
    trim(push_all(Seq::empty(), l))
}

/// The raw pairing of two operation sequences applied one after the other:
/// `a` turns a source text into an intermediate text, `b` edits that
/// intermediate text. The result reads `a` and `b` in lockstep over the
/// intermediate text and emits operations over the source text, splitting
/// whichever side's operation is longer.
///
/// An insert at the head of `b` always passes through first, before any
/// pairing — even against a delete or an exhausted `a` — because it
/// consumes nothing of what `a` produced.
pub open spec fn compose_ops(a: Seq<SpecOp>, b: Seq<SpecOp>) -> Seq<SpecOp>
    decreases a.len() + b.len(),
{
    if b.len() > 0 && b[0] is Insert {
        seq![b[0]] + compose_ops(a, b.drop_first())
    } else if a.len() == 0 && b.len() == 0 {
        Seq::empty()
    } else if a.len() == 0 {
        // b[0] is a retain or delete of the source tail beyond a's reach.
        seq![b[0]] + compose_ops(a, b.drop_first())
    } else if a[0] is Delete {
        // a deleted this span before b could see it.
        seq![a[0]] + compose_ops(a.drop_first(), b)
    } else if b.len() == 0 {
        // Whatever a retained or inserted here, b leaves unchanged.
        seq![a[0]] + compose_ops(a.drop_first(), b)
    } else {
        let n1 = op_input_len(b[0]);
        match a[0] {
            SpecOp::Retain(n0) => {
                let emit: SpecOp = if b[0] is Retain {
                    SpecOp::Retain(min_nat(n0, n1))
                } else {
                    SpecOp::Delete(min_nat(n0, n1))
                };
                if n0 < n1 {
                    seq![emit] + compose_ops(
                        a.drop_first(),
                        b.update(0, shrink(b[0], n0)),
                    )
                } else if n0 == n1 {
                    seq![emit] + compose_ops(a.drop_first(), b.drop_first())
                } else {
                    seq![emit] + compose_ops(
                        a.update(0, SpecOp::Retain((n0 - n1) as nat)),
                        b.drop_first(),
                    )
                }
            },
            SpecOp::Insert(t) => {
                if b[0] is Retain {
                    if t.len() < n1 {
                        seq![SpecOp::Insert(t)] + compose_ops(
                            a.drop_first(),
                            b.update(0, shrink(b[0], t.len())),
                        )
                    } else if t.len() == n1 {
                        seq![SpecOp::Insert(t)] + compose_ops(a.drop_first(), b.drop_first())
                    } else {
                        seq![SpecOp::Insert(t.take(n1 as int))] + compose_ops(
                            a.update(0, SpecOp::Insert(t.skip(n1 as int))),
                            b.drop_first(),
                        )
                    }
                } else {
                    // b deletes some or all of a's insert: the overlap
                    // vanishes and nothing is emitted.
                    if t.len() < n1 {
                        compose_ops(a.drop_first(), b.update(0, shrink(b[0], t.len())))
                    } else if t.len() == n1 {
                        compose_ops(a.drop_first(), b.drop_first())
                    } else {
                        compose_ops(a.update(0, SpecOp::Insert(t.skip(n1 as int))), b.drop_first())
                    }
                }
            },
            SpecOp::Delete(_) => Seq::empty(),  // unreachable: handled above
        }
    }
}

/// The smaller of two naturals.
pub open spec fn min_nat(a: nat, b: nat) -> nat {
    if a < b {
        a
    } else {
        b
    }
}

/// A retain or delete with `k` units taken off its front.
pub open spec fn shrink(op: SpecOp, k: nat) -> SpecOp {
    match op {
        SpecOp::Retain(n) => SpecOp::Retain((n - k) as nat),
        SpecOp::Delete(n) => SpecOp::Delete((n - k) as nat),
        SpecOp::Insert(t) => SpecOp::Insert(t.skip(k as int)),
    }
}

/// The composition of two diffs as the library computes it: the raw pairing
/// in canonical form.
pub open spec fn compose_spec(a: Seq<SpecOp>, b: Seq<SpecOp>) -> Seq<SpecOp> {
    canonicalize(compose_ops(a, b))
}

} // verus!
