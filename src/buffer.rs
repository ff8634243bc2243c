//! Per-output buffering of streamed tokens, so that several concurrent
//! outputs can each be shown as one block once they finish instead of being
//! interleaved token by token.
use vstd::prelude::*;
use std::collections::{HashMap, HashSet};
use crate::api::FINISH_REASON_UNSET;

verus! {

broadcast use vstd::std_specs::hash::group_hash_axioms;

/// Text buffered so far for one output.
pub struct BufferedOutput {
    pub reasoning: String,
    pub content: String,
}

/// The buffered text of an output that just finished, with its finish reason.
pub struct FinishedOutput {
    pub index: i32,
    pub reasoning: String,
    pub content: String,
    pub finish_reason: i32,
}

/// Token buffers keyed by output index, and the outputs already finished.
pub struct OutputBuffers {
    buffers: HashMap<i32, BufferedOutput>,
    finished: HashSet<i32>,
}

impl OutputBuffers {
    /// Whether output `index` has a buffer.
    pub closed spec fn is_buffered(&self, index: i32) -> bool {
        self.buffers@.contains_key(index)
    }

    /// The reasoning buffered for output `index` (empty where it has no buffer).
    pub closed spec fn reasoning_of(&self, index: i32) -> Seq<char> {
        if self.buffers@.contains_key(index) {
            self.buffers@[index].reasoning@
        } else {
            Seq::empty()
        }
    }

    /// The content buffered for output `index` (empty where it has no buffer).
    pub closed spec fn content_of(&self, index: i32) -> Seq<char> {
        if self.buffers@.contains_key(index) {
            self.buffers@[index].content@
        } else {
            Seq::empty()
        }
    }

    /// Whether output `index` has already been reported as finished.
    pub closed spec fn is_finished(&self, index: i32) -> bool {
        self.finished@.contains(index)
    }

    /// `self` and `other` agree on output `index`.
    pub open spec fn same_at(&self, other: &OutputBuffers, index: i32) -> bool {
        &&& self.is_buffered(index) == other.is_buffered(index)
        &&& self.reasoning_of(index) == other.reasoning_of(index)
        &&& self.content_of(index) == other.content_of(index)
        &&& self.is_finished(index) == other.is_finished(index)
    }

    /// No buffer and no finished output.
    pub fn new() -> (r: OutputBuffers)
        ensures
            forall|index: i32| !r.is_buffered(index) && !r.is_finished(index),
    {
        OutputBuffers { buffers: HashMap::new(), finished: HashSet::new() }
    }

    fn take_buffer(&mut self, index: i32) -> (r: BufferedOutput)
        ensures
            r.reasoning@ == old(self).reasoning_of(index),
            r.content@ == old(self).content_of(index),
            !final(self).is_buffered(index),
            final(self).finished@ == old(self).finished@,
            forall|i: i32| i != index ==> #[trigger] final(self).same_at(old(self), i),
    {
        match self.buffers.remove(&index) {
            Some(b) => b,
            None => BufferedOutput { reasoning: String::new(), content: String::new() },
        }
    }

    /// Appends a reasoning token to the buffer of output `index`.
    pub fn push_reasoning(&mut self, index: i32, token: &str)
        ensures
            final(self).is_buffered(index),
            final(self).reasoning_of(index) == old(self).reasoning_of(index) + token@,
            final(self).content_of(index) == old(self).content_of(index),
            final(self).is_finished(index) == old(self).is_finished(index),
            forall|i: i32| i != index ==> #[trigger] final(self).same_at(old(self), i),
    {
        let mut b = self.take_buffer(index);
        let ghost mid = *self;
        b.reasoning.append(token);
        self.buffers.insert(index, b);
        assert forall|i: i32| i != index implies #[trigger] self.same_at(old(self), i) by {
            assert(mid.same_at(old(self), i));
        }
    }

    /// Appends a content token to the buffer of output `index`.
    pub fn push_content(&mut self, index: i32, token: &str)
        ensures
            final(self).is_buffered(index),
            final(self).content_of(index) == old(self).content_of(index) + token@,
            final(self).reasoning_of(index) == old(self).reasoning_of(index),
            final(self).is_finished(index) == old(self).is_finished(index),
            forall|i: i32| i != index ==> #[trigger] final(self).same_at(old(self), i),
    {
        let mut b = self.take_buffer(index);
        let ghost mid = *self;
        b.content.append(token);
        self.buffers.insert(index, b);
        assert forall|i: i32| i != index implies #[trigger] self.same_at(old(self), i) by {
            assert(mid.same_at(old(self), i));
        }
    }

    /// Records the finish reason that a chunk carries for output `index`.
    ///
    /// The first time the output carries a finish reason, it is marked
    /// finished and its buffer, if it has one, is removed and handed back.
    /// Otherwise nothing changes and nothing is handed back.
    pub fn finish_output(&mut self, index: i32, finish_reason: i32) -> (r: Option<FinishedOutput>)
        ensures
            ({
                let fires = finish_reason != FINISH_REASON_UNSET && !old(self).is_finished(index);
                &&& (r is Some <==> fires && old(self).is_buffered(index))
                &&& (r matches Some(f) ==> f.index == index && f.finish_reason == finish_reason
                    && f.reasoning@ == old(self).reasoning_of(index) && f.content@ == old(self).content_of(
                    index,
                ))
                &&& (fires ==> final(self).is_finished(index) && !final(self).is_buffered(index))
                &&& (!fires ==> final(self).same_at(old(self), index))
            }),
            forall|i: i32| i != index ==> #[trigger] final(self).same_at(old(self), i),
    {
        if finish_reason == FINISH_REASON_UNSET || self.finished.contains(&index) {
            return None;
        }
        self.finished.insert(index);
        match self.buffers.remove(&index) {
            Some(b) => Some(
                FinishedOutput { index, reasoning: b.reasoning, content: b.content, finish_reason },
            ),
            None => None,
        }
    }
}

} // verus!
