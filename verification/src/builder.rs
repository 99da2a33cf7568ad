//! Incremental construction of canonical diffs.

use vstd::prelude::*;

use crate::diff::{ops_view, Op, TextDiff};
use crate::lemmas::{
    lemma_len_index, lemma_push_delete, lemma_push_insert, lemma_push_retain,
    lemma_trim_canonical,
};
use crate::model::{builder_wf, input_len, push_delete, push_insert, push_retain, trim, SpecOp};
use crate::text::Text;

verus! {

/// Accumulates an ordered sequence of operations while enforcing canonical
/// form: adjacent operations of one kind merge, a delete at the position of
/// a buffered insert merges in front of it, and empty operations vanish.
/// `finish` drops a trailing retain and yields the diff.
#[derive(Debug)]
pub struct Builder {
    ops: Vec<Op>,
}

impl View for Builder {
    type V = Seq<SpecOp>;

    closed spec fn view(&self) -> Seq<SpecOp> {
        ops_view(self.ops@)
    }
}

impl Builder {
    /// The builder invariant: what is buffered so far is well formed,
    /// though it may still end in a retain.
    pub open spec fn wf(&self) -> bool {
        builder_wf(self@)
    }

    /// An empty builder.
    pub fn new() -> (r: Builder)
        ensures
            r@ == Seq::<SpecOp>::empty(),
            r.wf(),
    {
        let r = Builder { ops: Vec::new() };
        proof {
            assert(r@ =~= Seq::<SpecOp>::empty());
        }
        r
    }

    /// Records that `len` characters of the input are kept. A zero length
    /// does nothing; otherwise a trailing retain grows by `len`.
    pub fn retain(&mut self, len: usize)
        requires
            old(self).wf(),
            input_len(old(self)@) + len <= usize::MAX,
        ensures
            final(self)@ == push_retain(old(self)@, len as nat),
            final(self).wf(),
    {
        proof {
            lemma_push_retain(old(self)@, len as nat);
        }
        if len == 0 {
            return;
        }
        match self.ops.pop() {
            Some(Op::Retain(m)) => {
                proof {
                    assert(old(self)@.last() == SpecOp::Retain(m as nat));
                    lemma_len_index(old(self)@, old(self)@.len() - 1);
                }
                let merged = m + len;
                self.ops.push(Op::Retain(merged));
                proof {
                    assert(self@ =~= push_retain(old(self)@, len as nat));
                }
            },
            Some(other) => {
                self.ops.push(other);
                self.ops.push(Op::Retain(len));
                proof {
                    assert(self@ =~= push_retain(old(self)@, len as nat));
                }
            },
            None => {
                self.ops.push(Op::Retain(len));
                proof {
                    assert(self@ =~= push_retain(old(self)@, len as nat));
                }
            },
        }
    }

    /// Records that `len` characters of the input are removed. A zero
    /// length does nothing. A trailing delete grows by `len`, also when an
    /// insert already follows it (the new deletion happens logically before
    /// that insert); a lone trailing insert is displaced behind the new
    /// delete.
    pub fn delete(&mut self, len: usize)
        requires
            old(self).wf(),
            input_len(old(self)@) + len <= usize::MAX,
        ensures
            final(self)@ == push_delete(old(self)@, len as nat),
            final(self).wf(),
    {
        proof {
            lemma_push_delete(old(self)@, len as nat);
        }
        if len == 0 {
            return;
        }
        match self.ops.pop() {
            Some(Op::Delete(m)) => {
                proof {
                    assert(old(self)@.last() == SpecOp::Delete(m as nat));
                    lemma_len_index(old(self)@, old(self)@.len() - 1);
                }
                let merged = m + len;
                self.ops.push(Op::Delete(merged));
                proof {
                    assert(self@ =~= push_delete(old(self)@, len as nat));
                }
            },
            Some(Op::Insert(text)) => {
                match self.ops.pop() {
                    Some(Op::Delete(m)) => {
                        proof {
                            assert(old(self)@[old(self)@.len() - 2] == SpecOp::Delete(m as nat));
                            lemma_len_index(old(self)@, old(self)@.len() - 2);
                        }
                        let merged = m + len;
                        self.ops.push(Op::Delete(merged));
                        self.ops.push(Op::Insert(text));
                        proof {
                            assert(self@ =~= push_delete(old(self)@, len as nat));
                        }
                    },
                    Some(other) => {
                        self.ops.push(other);
                        self.ops.push(Op::Delete(len));
                        self.ops.push(Op::Insert(text));
                        proof {
                            assert(self@ =~= push_delete(old(self)@, len as nat));
                        }
                    },
                    None => {
                        self.ops.push(Op::Delete(len));
                        self.ops.push(Op::Insert(text));
                        proof {
                            assert(self@ =~= push_delete(old(self)@, len as nat));
                        }
                    },
                }
            },
            Some(Op::Retain(m)) => {
                self.ops.push(Op::Retain(m));
                self.ops.push(Op::Delete(len));
                proof {
                    assert(self@ =~= push_delete(old(self)@, len as nat));
                }
            },
            None => {
                self.ops.push(Op::Delete(len));
                proof {
                    assert(self@ =~= push_delete(old(self)@, len as nat));
                }
            },
        }
    }

    /// Records that `text` is inserted. An empty text does nothing;
    /// otherwise a trailing insert grows by `text`.
    pub fn insert(&mut self, text: Text)
        requires
            old(self).wf(),
        ensures
            final(self)@ == push_insert(old(self)@, text@),
            final(self).wf(),
    {
        proof {
            lemma_push_insert(old(self)@, text@);
        }
        if text.is_empty() {
            return;
        }
        match self.ops.pop() {
            Some(Op::Insert(mut last_text)) => {
                last_text.append(text);
                self.ops.push(Op::Insert(last_text));
                proof {
                    assert(self@ =~= push_insert(old(self)@, text@));
                }
            },
            Some(other) => {
                self.ops.push(other);
                self.ops.push(Op::Insert(text));
                proof {
                    assert(self@ =~= push_insert(old(self)@, text@));
                }
            },
            None => {
                self.ops.push(Op::Insert(text));
                proof {
                    assert(self@ =~= push_insert(old(self)@, text@));
                }
            },
        }
    }

    /// Consumes the builder: a trailing retain is dropped, and the result
    /// is a canonical diff.
    pub fn finish(self) -> (r: TextDiff)
        requires
            self.wf(),
        ensures
            r@ == trim(self@),
            r.wf(),
    {
        proof {
            lemma_trim_canonical(self@);
        }
        let mut ops = self.ops;
        match ops.pop() {
            Some(Op::Retain(_)) => {
                let r = TextDiff { ops };
                proof {
                    crate::diff::lemma_diff_view(&r);
                    assert(r.ops@ =~= self.ops@.drop_last());
                    assert(ops_view(self.ops@).last() == self.ops@.last()@);
                    assert(r@ =~= trim(ops_view(self.ops@)));
                }
                r
            },
            Some(other) => {
                ops.push(other);
                let r = TextDiff { ops };
                proof {
                    crate::diff::lemma_diff_view(&r);
                    assert(r.ops@ =~= self.ops@);
                    assert(ops_view(self.ops@).last() == self.ops@.last()@);
                    assert(r@ =~= trim(ops_view(self.ops@)));
                }
                r
            },
            None => {
                let r = TextDiff { ops };
                proof {
                    crate::diff::lemma_diff_view(&r);
                    assert(self.ops@.len() == 0);
                    assert(r@ =~= trim(ops_view(self.ops@)));
                }
                r
            },
        }
    }
}

} // verus!
