//! Edit operations and immutable edit sequences.

use vstd::prelude::*;

use crate::model::{canonical, SpecOp};
use crate::text::Text;

verus! {

/// One atomic edit instruction.
#[derive(Clone, Debug, Eq, Hash, PartialEq)]
pub enum Op {
    /// Remove this many characters of the input.
    Delete(usize),
    /// Keep this many characters of the input.
    Retain(usize),
    /// Produce new text, consuming no input.
    Insert(Text),
}

impl View for Op {
    type V = SpecOp;

    open spec fn view(&self) -> SpecOp {
        match self {
            Op::Delete(n) => SpecOp::Delete(*n as nat),
            Op::Retain(n) => SpecOp::Retain(*n as nat),
            Op::Insert(t) => SpecOp::Insert(t@),
        }
    }
}

/// A length-only projection of an operation: the same three kinds, but an
/// insert carries only the length of its text.
#[derive(Clone, Copy, Debug, Eq, Hash, PartialEq)]
pub enum OpInfo {
    /// A delete of this many characters.
    Delete(usize),
    /// A retain of this many characters.
    Retain(usize),
    /// An insert of this many characters.
    Insert(usize),
}

impl Op {
    /// The length-only projection of this operation.
    pub fn info(&self) -> (r: OpInfo)
        ensures
            match self@ {
                SpecOp::Delete(n) => r == OpInfo::Delete(n as usize),
                SpecOp::Retain(n) => r == OpInfo::Retain(n as usize),
                SpecOp::Insert(t) => r == OpInfo::Insert(t.len() as usize),
            },
    {
        match self {
            Op::Delete(n) => OpInfo::Delete(*n),
            Op::Retain(n) => OpInfo::Retain(*n),
            Op::Insert(t) => OpInfo::Insert(t.len()),
        }
    }
}

/// The specification view of a list of operations.
pub open spec fn ops_view(v: Seq<Op>) -> Seq<SpecOp> {
    v.map_values(|op: Op| op@)
}

/// An immutable, canonical sequence of operations describing one
/// transformation of a source text into a target text.
#[derive(Clone, Debug, Eq, Hash, PartialEq)]
pub struct TextDiff {
    pub(crate) ops: Vec<Op>,
}

impl View for TextDiff {
    type V = Seq<SpecOp>;

    closed spec fn view(&self) -> Seq<SpecOp> {
        ops_view(self.ops@)
    }
}

/// Within the crate, a diff's view is the view of its operation list.
pub(crate) proof fn lemma_diff_view(d: &TextDiff)
    ensures
        d@ == ops_view(d.ops@),
{
}

impl TextDiff {
    /// Every diff the library hands out is canonical: no empty operations,
    /// no two adjacent operations of one kind, no insert directly before a
    /// delete, and no trailing retain.
    pub open spec fn wf(&self) -> bool {
        canonical(self@)
    }

    /// The empty diff: it changes nothing.
    pub fn new() -> (r: TextDiff)
        ensures
            r@ == Seq::<SpecOp>::empty(),
            r.wf(),
    {
        let r = TextDiff { ops: Vec::new() };
        proof {
            assert(r@ =~= Seq::<SpecOp>::empty());
        }
        r
    }

    /// Whether the diff holds no operations.
    pub fn is_empty(&self) -> (r: bool)
        ensures
            r == (self@.len() == 0),
    {
        self.ops.is_empty()
    }

    /// The number of operations.
    pub fn len(&self) -> (r: usize)
        ensures
            r == self@.len(),
    {
        self.ops.len()
    }

    /// A restartable iterator over the operations, front to back.
    pub fn iter(&self) -> (r: Iter<'_>)
        ensures
            r.remaining() == self@,
    {
        let r = Iter { ops: &self.ops, pos: 0 };
        proof {
            assert(r.remaining() =~= self@);
        }
        r
    }

    /// Consumes the diff into an iterator that yields its operations once,
    /// in order, by value.
    pub fn into_iter(self) -> (r: IntoIter)
        ensures
            r.remaining() == self@,
    {
        IntoIter { ops: self.ops }
    }
}

/// A non-destructive iterator over a diff's operations.
#[derive(Clone, Debug)]
pub struct Iter<'a> {
    ops: &'a Vec<Op>,
    pos: usize,
}

impl<'a> Iter<'a> {
    /// The operations not yet yielded.
    pub closed spec fn remaining(&self) -> Seq<SpecOp> {
        if self.pos <= self.ops@.len() {
            ops_view(self.ops@).skip(self.pos as int)
        } else {
            Seq::empty()
        }
    }

    /// Yields a reference to the next operation, or nothing when done.
    pub fn next(&mut self) -> (r: Option<&'a Op>)
        ensures
            old(self).remaining().len() > 0 ==> {
                &&& r is Some
                &&& r->0@ == old(self).remaining()[0]
                &&& final(self).remaining() == old(self).remaining().drop_first()
            },
            old(self).remaining().len() == 0 ==> {
                &&& r is None
                &&& final(self).remaining() == old(self).remaining()
            },
    {
        if self.pos < self.ops.len() {
            let op = &self.ops[self.pos];
            proof {
                assert(op@ == ops_view(self.ops@)[self.pos as int]);
                assert(old(self).remaining()[0] == ops_view(self.ops@)[self.pos as int]);
            }
            self.pos = self.pos + 1;
            proof {
                assert(self.remaining() =~= old(self).remaining().drop_first());
            }
            Some(op)
        } else {
            None
        }
    }
}

/// A destructive iterator that yields a diff's operations by value.
#[derive(Clone, Debug)]
pub struct IntoIter {
    ops: Vec<Op>,
}

impl IntoIter {
    /// The operations not yet yielded.
    pub closed spec fn remaining(&self) -> Seq<SpecOp> {
        ops_view(self.ops@)
    }

    /// Yields the next operation by value, or nothing when done.
    pub fn next(&mut self) -> (r: Option<Op>)
        ensures
            old(self).remaining().len() > 0 ==> {
                &&& r is Some
                &&& r->0@ == old(self).remaining()[0]
                &&& final(self).remaining() == old(self).remaining().drop_first()
            },
            old(self).remaining().len() == 0 ==> {
                &&& r is None
                &&& final(self).remaining() == old(self).remaining()
            },
    {
        if self.ops.len() > 0 {
            let op = self.ops.remove(0);
            proof {
                assert(self.remaining() =~= old(self).remaining().drop_first());
            }
            Some(op)
        } else {
            None
        }
    }
}

} // verus!
