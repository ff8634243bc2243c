//! Stream processing: per-output phase tracking and the decision of which
//! callbacks fire, in which order, for each chunk of a stream.
//!
//! [`StreamTracker`] holds the state of one stream. For every chunk it returns
//! the ordered list of [`StreamEvent`]s that a caller dispatches to the
//! callbacks of a [`crate::consumer::Consumer`].
//!
//! Phases are classified from cumulative counts over all updates of an output
//! seen so far (see [`get_reasoning_status`] and [`get_content_status`]), and a
//! phase that has completed stays complete for the rest of the stream, so its
//! completion event fires at most once per output.
use vstd::prelude::*;
use crate::api::{
    CompletionOutputChunk, FINISH_REASON_UNSET, GetChatCompletionChunk, SamplingUsage,
    TOOL_CALL_TYPE_CLIENT_SIDE, ToolCall,
};
use crate::assembler::{
    appears, citation_piece, content_piece, lemma_appears_push, reasoning_piece, reversed,
    tool_call_piece,
};

pub use crate::assembler::assemble;

verus! {

/// Lifecycle of one phase (reasoning or content) of one output.
#[derive(Clone, Copy, Debug, PartialEq, Eq, Structural)]
pub enum PhaseStatus {
    Init,
    Pending,
    Complete,
}

/// Reasoning phase of an output from its cumulative token counts and whether it has finished.
pub open spec fn reasoning_phase(reasoning_tokens: u64, content_tokens: u64, finished: bool) -> PhaseStatus {
    if finished {
        PhaseStatus::Complete
    } else if reasoning_tokens == 0 && content_tokens > 0 {
        PhaseStatus::Complete
    } else if reasoning_tokens > 0 && content_tokens == 0 {
        PhaseStatus::Pending
    } else {
        PhaseStatus::Init
    }
}

/// Content phase of an output from its cumulative content-token count and whether it has finished.
pub open spec fn content_phase(content_tokens: u64, finished: bool) -> PhaseStatus {
    if finished {
        PhaseStatus::Complete
    } else if content_tokens > 0 {
        PhaseStatus::Pending
    } else {
        PhaseStatus::Init
    }
}

/// Classifies the reasoning phase of an output: `Complete` once it has a finish
/// reason, or when content arrived without any reasoning; `Pending` while only
/// reasoning arrived; `Init` otherwise.
pub fn get_reasoning_status(reasoning_tokens: u64, content_tokens: u64, finish_reason: i32) -> (r: PhaseStatus)
    ensures
        r == reasoning_phase(reasoning_tokens, content_tokens, finish_reason != FINISH_REASON_UNSET),
{
    if finish_reason != FINISH_REASON_UNSET {
        PhaseStatus::Complete
    } else if reasoning_tokens == 0 && content_tokens > 0 {
        PhaseStatus::Complete
    } else if reasoning_tokens > 0 && content_tokens == 0 {
        PhaseStatus::Pending
    } else {
        PhaseStatus::Init
    }
}

/// Classifies the content phase of an output: `Complete` once it has a finish
/// reason, `Pending` while content arrives, `Init` otherwise.
pub fn get_content_status(content_tokens: u64, finish_reason: i32) -> (r: PhaseStatus)
    ensures
        r == content_phase(content_tokens, finish_reason != FINISH_REASON_UNSET),
{
    if finish_reason != FINISH_REASON_UNSET {
        PhaseStatus::Complete
    } else if content_tokens > 0 {
        PhaseStatus::Pending
    } else {
        PhaseStatus::Init
    }
}

/// What a token callback learns about the output a token belongs to.
#[derive(Clone, Copy, Debug, PartialEq, Eq, Structural)]
pub struct TokenContext {
    /// Outputs observed so far: the largest output index seen, plus one.
    pub total_choices: usize,
    /// Index of the output this token belongs to.
    pub choice_index: usize,
    pub reasoning_status: PhaseStatus,
    pub content_status: PhaseStatus,
}

impl TokenContext {
    pub fn new(
        total_choices: usize,
        choice_index: usize,
        reasoning_status: PhaseStatus,
        content_status: PhaseStatus,
    ) -> (r: TokenContext)
        ensures
            r.total_choices == total_choices,
            r.choice_index == choice_index,
            r.reasoning_status == reasoning_status,
            r.content_status == content_status,
    {
        TokenContext { total_choices, choice_index, reasoning_status, content_status }
    }

    /// Context from completion flags alone: a phase flagged complete is
    /// `Complete`, the other is `Init`.
    pub fn init(
        total_choices: usize,
        choice_index: usize,
        reasoning_complete: bool,
        content_complete: bool,
    ) -> (r: TokenContext)
        ensures
            r.total_choices == total_choices,
            r.choice_index == choice_index,
            r.reasoning_status == (if reasoning_complete {
                PhaseStatus::Complete
            } else {
                PhaseStatus::Init
            }),
            r.content_status == (if content_complete {
                PhaseStatus::Complete
            } else {
                PhaseStatus::Init
            }),
    {
        let reasoning_status = if reasoning_complete {
            PhaseStatus::Complete
        } else {
            PhaseStatus::Init
        };
        let content_status = if content_complete {
            PhaseStatus::Complete
        } else {
            PhaseStatus::Init
        };
        TokenContext { total_choices, choice_index, reasoning_status, content_status }
    }
}

/// What a completion callback learns about the output whose phase completed.
#[derive(Clone, Copy, Debug, PartialEq, Eq, Structural)]
pub struct CompletionContext {
    pub total_choices: usize,
    pub choice_index: usize,
}

impl CompletionContext {
    pub fn new(total_choices: usize, choice_index: usize) -> (r: CompletionContext)
        ensures
            r.total_choices == total_choices,
            r.choice_index == choice_index,
    {
        CompletionContext { total_choices, choice_index }
    }
}

/// One callback invocation that a chunk calls for.
///
/// `output` is the position, in the chunk's output list, of the update the
/// event comes from: the token, citations or tool calls are that update's.
#[derive(Clone, Copy, Debug, PartialEq, Eq, Structural)]
pub enum StreamEvent {
    ReasoningToken { context: TokenContext, output: usize },
    ReasoningComplete { completion: CompletionContext },
    ContentToken { context: TokenContext, output: usize },
    ContentComplete { completion: CompletionContext },
    InlineCitations { context: TokenContext, output: usize },
    ClientToolCalls { context: TokenContext, output: usize },
    ServerToolCalls { context: TokenContext, output: usize },
    /// The usage of the stream's last chunk, after a clean end.
    Usage { usage: SamplingUsage },
    /// The citations of the stream's last chunk are to be handed over, after a clean end.
    Citations,
}

/// Cumulative state of one output of a stream.
#[derive(Clone, Copy, Debug, PartialEq, Eq, Structural)]
pub struct OutputProgress {
    pub index: i32,
    /// Number of updates that carried a non-empty reasoning fragment (saturating).
    pub reasoning_tokens: u64,
    /// Number of updates that carried a non-empty content fragment (saturating).
    pub content_tokens: u64,
    /// Finish reason of the latest update.
    pub finish_reason: i32,
    pub reasoning_status: PhaseStatus,
    pub content_status: PhaseStatus,
}

pub open spec fn fresh_progress(index: i32) -> OutputProgress {
    OutputProgress {
        index,
        reasoning_tokens: 0,
        content_tokens: 0,
        finish_reason: FINISH_REASON_UNSET,
        reasoning_status: PhaseStatus::Init,
        content_status: PhaseStatus::Init,
    }
}

/// A token count after an update whose fragment is `fragment`.
pub open spec fn bump(count: u64, fragment: Seq<char>) -> u64 {
    if fragment.len() > 0 && count < u64::MAX {
        (count + 1) as u64
    } else {
        count
    }
}

/// The state of an output after one more update `o` of it: counts grow by the
/// update's fragments, the finish reason is the update's, and each phase is
/// classified anew unless it had already completed.
pub open spec fn advance(p: OutputProgress, o: CompletionOutputChunk) -> OutputProgress {
    let r = bump(p.reasoning_tokens, reasoning_piece(o));
    let c = bump(p.content_tokens, content_piece(o));
    let finished = o.finish_reason != FINISH_REASON_UNSET;
    OutputProgress {
        index: p.index,
        reasoning_tokens: r,
        content_tokens: c,
        finish_reason: o.finish_reason,
        reasoning_status: if p.reasoning_status == PhaseStatus::Complete {
            PhaseStatus::Complete
        } else {
            reasoning_phase(r, c, finished)
        },
        content_status: if p.content_status == PhaseStatus::Complete {
            PhaseStatus::Complete
        } else {
            content_phase(c, finished)
        },
    }
}

/// The state of output `index` after the updates `os`.
pub open spec fn progress_of(os: Seq<CompletionOutputChunk>, index: i32) -> OutputProgress
    decreases os.len(),
{
    if os.len() == 0 {
        fresh_progress(index)
    } else if os.last().index == index {
        advance(progress_of(os.drop_last(), index), os.last())
    } else {
        progress_of(os.drop_last(), index)
    }
}

/// Outputs observed in `os`: the largest index seen plus one, 0 where none is non-negative.
pub open spec fn total_of(os: Seq<CompletionOutputChunk>) -> nat
    decreases os.len(),
{
    if os.len() == 0 {
        0
    } else {
        let t = total_of(os.drop_last());
        let i = os.last().index;
        if i >= 0 && i + 1 > t {
            (i + 1) as nat
        } else {
            t
        }
    }
}

pub open spec fn is_client_side(c: ToolCall) -> bool {
    c.tool_type == TOOL_CALL_TYPE_CLIENT_SIDE
}

pub open spec fn has_client_calls(calls: Seq<ToolCall>) -> bool {
    exists|j: int| 0 <= j < calls.len() && is_client_side(#[trigger] calls[j])
}

pub open spec fn has_server_calls(calls: Seq<ToolCall>) -> bool {
    exists|j: int| 0 <= j < calls.len() && !is_client_side(#[trigger] calls[j])
}

pub open spec fn when(cond: bool, e: StreamEvent) -> Seq<StreamEvent> {
    if cond {
        seq![e]
    } else {
        Seq::empty()
    }
}

/// Whether update `o`, coming after the updates `h`, completes the reasoning phase of its output.
pub open spec fn completes_reasoning(h: Seq<CompletionOutputChunk>, o: CompletionOutputChunk) -> bool {
    progress_of(h, o.index).reasoning_status != PhaseStatus::Complete
        && advance(progress_of(h, o.index), o).reasoning_status == PhaseStatus::Complete
}

/// Whether update `o`, coming after the updates `h`, completes the content phase of its output.
pub open spec fn completes_content(h: Seq<CompletionOutputChunk>, o: CompletionOutputChunk) -> bool {
    progress_of(h, o.index).content_status != PhaseStatus::Complete
        && advance(progress_of(h, o.index), o).content_status == PhaseStatus::Complete
}

/// The context handed to the token callbacks of update `o`, where `after` is
/// the state of its output once the update is taken in.
pub open spec fn token_context(after: OutputProgress, o: CompletionOutputChunk, total: usize) -> TokenContext {
    TokenContext {
        total_choices: total,
        choice_index: o.index as usize,
        reasoning_status: after.reasoning_status,
        content_status: after.content_status,
    }
}

/// Token and phase-completion events of update `o`, in dispatch order.
pub open spec fn phase_events(before: OutputProgress, o: CompletionOutputChunk, total: usize, pos: usize) -> Seq<StreamEvent> {
    let after = advance(before, o);
    let ctx = token_context(after, o, total);
    let done = CompletionContext { total_choices: total, choice_index: o.index as usize };
    when(reasoning_piece(o).len() > 0, StreamEvent::ReasoningToken { context: ctx, output: pos })
        + when(
        before.reasoning_status != PhaseStatus::Complete && after.reasoning_status == PhaseStatus::Complete,
        StreamEvent::ReasoningComplete { completion: done },
    ) + when(content_piece(o).len() > 0, StreamEvent::ContentToken { context: ctx, output: pos })
        + when(
        before.content_status != PhaseStatus::Complete && after.content_status == PhaseStatus::Complete,
        StreamEvent::ContentComplete { completion: done },
    )
}

/// Inline-citation and tool-call events of update `o`, in dispatch order.
pub open spec fn attachment_events(ctx: TokenContext, o: CompletionOutputChunk, pos: usize) -> Seq<StreamEvent> {
    when(citation_piece(o).len() > 0, StreamEvent::InlineCitations { context: ctx, output: pos })
        + when(has_client_calls(tool_call_piece(o)), StreamEvent::ClientToolCalls { context: ctx, output: pos })
        + when(has_server_calls(tool_call_piece(o)), StreamEvent::ServerToolCalls { context: ctx, output: pos })
}

/// The events of update `o`, at position `pos` of its chunk, where `before`
/// is the state of its output before it and `total` the number of outputs
/// observed once it is taken in, in dispatch order.
pub open spec fn events_from(before: OutputProgress, o: CompletionOutputChunk, total: usize, pos: usize) -> Seq<StreamEvent> {
    phase_events(before, o, total, pos) + attachment_events(
        token_context(advance(before, o), o, total),
        o,
        pos,
    )
}

/// The events of update `o`, at position `pos` of its chunk, after the updates `h`, in dispatch order.
pub open spec fn update_events(h: Seq<CompletionOutputChunk>, o: CompletionOutputChunk, pos: usize) -> Seq<StreamEvent> {
    events_from(progress_of(h, o.index), o, total_of(h.push(o)) as usize, pos)
}

/// The events of a chunk whose updates are `outs`, after the updates `h`.
pub open spec fn chunk_events(h: Seq<CompletionOutputChunk>, outs: Seq<CompletionOutputChunk>) -> Seq<StreamEvent>
    decreases outs.len(),
{
    if outs.len() == 0 {
        Seq::empty()
    } else {
        chunk_events(h, outs.drop_last()) + update_events(
            h + outs.drop_last(),
            outs.last(),
            (outs.len() - 1) as usize,
        )
    }
}

/// The events that close a cleanly ended stream whose last chunk is `last`.
pub open spec fn closing_events(last: Option<GetChatCompletionChunk>) -> Seq<StreamEvent> {
    match last {
        Some(c) => when(c.usage is Some, StreamEvent::Usage { usage: c.usage.unwrap() }) + when(
            c.citations@.len() > 0,
            StreamEvent::Citations,
        ),
        None => Seq::empty(),
    }
}

proof fn lemma_total_bound(os: Seq<CompletionOutputChunk>)
    ensures
        total_of(os) <= 0x8000_0000,
    decreases os.len(),
{
    if os.len() > 0 {
        lemma_total_bound(os.drop_last());
    }
}

proof fn lemma_progress_index(os: Seq<CompletionOutputChunk>, index: i32)
    ensures
        progress_of(os, index).index == index,
    decreases os.len(),
{
    if os.len() > 0 {
        lemma_progress_index(os.drop_last(), index);
    }
}

proof fn lemma_progress_absent(os: Seq<CompletionOutputChunk>, index: i32)
    requires
        !appears(os, index),
    ensures
        progress_of(os, index) == fresh_progress(index),
    decreases os.len(),
{
    if os.len() > 0 {
        let prefix = os.drop_last();
        assert(os.last().index != index) by {
            if os.last().index == index {
                assert(os[os.len() - 1].index == index);
            }
        }
        assert(!appears(prefix, index)) by {
            if appears(prefix, index) {
                let j = choose|j: int| 0 <= j < prefix.len() && #[trigger] prefix[j].index == index;
                assert(os[j].index == index);
            }
        }
        lemma_progress_absent(prefix, index);
    }
}

/// Whether `calls` holds a client-side call and whether it holds another one.
fn tool_call_sides(calls: &Vec<ToolCall>) -> (r: (bool, bool))
    ensures
        r.0 == has_client_calls(calls@),
        r.1 == has_server_calls(calls@),
{
    let mut client = false;
    let mut server = false;
    let mut j: usize = 0;
    while j < calls.len()
        invariant
            j <= calls@.len(),
            client == exists|k: int| 0 <= k < j && is_client_side(#[trigger] calls@[k]),
            server == exists|k: int| 0 <= k < j && !is_client_side(#[trigger] calls@[k]),
        decreases calls@.len() - j,
    {
        if calls[j].tool_type == TOOL_CALL_TYPE_CLIENT_SIDE {
            client = true;
        } else {
            server = true;
        }
        j = j + 1;
    }
    (client, server)
}

/// The state of one stream: the cumulative progress of each output seen so
/// far, the number of outputs, and what the last chunk carried.
pub struct StreamTracker {
    progress: Vec<OutputProgress>,
    total: usize,
    last_usage: Option<SamplingUsage>,
    last_has_citations: bool,
    history: Ghost<Seq<CompletionOutputChunk>>,
    last: Ghost<Option<GetChatCompletionChunk>>,
}

impl StreamTracker {
    /// Every output update received so far, in arrival order.
    pub closed spec fn history(&self) -> Seq<CompletionOutputChunk> {
        self.history@
    }

    /// The last chunk received, if any.
    pub closed spec fn last_chunk(&self) -> Option<GetChatCompletionChunk> {
        self.last@
    }

    pub closed spec fn wf(&self) -> bool {
        &&& forall|a: int, b: int|
            0 <= a < b < self.progress@.len() ==> self.progress@[a].index != self.progress@[b].index
        &&& forall|k: int|
            0 <= k < self.progress@.len() ==> #[trigger] self.progress@[k] == progress_of(
                self.history@,
                self.progress@[k].index,
            )
        &&& forall|index: i32| appears(self.history@, index) ==> exists|k: int|
            0 <= k < self.progress@.len() && #[trigger] self.progress@[k].index == index
        &&& self.total == total_of(self.history@)
        &&& match self.last@ {
            Some(c) => self.last_usage == c.usage && self.last_has_citations == (c.citations@.len() > 0),
            None => self.last_usage is None && !self.last_has_citations,
        }
    }

    /// The state of a stream before its first chunk.
    pub fn new() -> (r: StreamTracker)
        ensures
            r.wf(),
            r.history() == Seq::<CompletionOutputChunk>::empty(),
            r.last_chunk() is None,
    {
        StreamTracker {
            progress: Vec::new(),
            total: 0,
            last_usage: None,
            last_has_citations: false,
            history: Ghost(Seq::empty()),
            last: Ghost(None),
        }
    }

    fn find(&self, index: i32) -> (r: Option<usize>)
        ensures
            r matches Some(k) ==> k < self.progress@.len() && self.progress@[k as int].index == index,
            r is None ==> forall|k: int| 0 <= k < self.progress@.len() ==> self.progress@[k].index != index,
    {
        let mut k: usize = 0;
        while k < self.progress.len()
            invariant
                k <= self.progress@.len(),
                forall|j: int| 0 <= j < k ==> self.progress@[j].index != index,
            decreases self.progress@.len() - k,
        {
            if self.progress[k].index == index {
                return Some(k);
            }
            k = k + 1;
        }
        None
    }

    /// The current state of output `index`.
    pub fn progress(&self, index: i32) -> (r: OutputProgress)
        requires
            self.wf(),
        ensures
            r == progress_of(self.history(), index),
    {
        match self.find(index) {
            Some(k) => self.progress[k],
            None => {
                proof {
                    lemma_progress_absent(self.history@, index);
                }
                OutputProgress {
                    index,
                    reasoning_tokens: 0,
                    content_tokens: 0,
                    finish_reason: FINISH_REASON_UNSET,
                    reasoning_status: PhaseStatus::Init,
                    content_status: PhaseStatus::Init,
                }
            },
        }
    }

    /// Number of outputs observed so far: the largest output index seen, plus one.
    pub fn total_outputs(&self) -> (r: usize)
        requires
            self.wf(),
        ensures
            r == total_of(self.history()),
    {
        self.total
    }

    /// Takes in the next chunk of the stream and returns, in dispatch order,
    /// the events its updates call for (the raw-chunk callback comes first and
    /// is not listed).
    pub fn process_chunk(&mut self, chunk: &GetChatCompletionChunk) -> (events: Vec<StreamEvent>)
        requires
            old(self).wf(),
        ensures
            final(self).wf(),
            final(self).history() == old(self).history() + chunk.outputs@,
            final(self).last_chunk() == Some(*chunk),
            events@ == chunk_events(old(self).history(), chunk.outputs@),
    {
        let ghost h = self.history@;
        let ghost outs = chunk.outputs@;
        let mut events: Vec<StreamEvent> = Vec::new();
        let mut j: usize = 0;
        proof {
            assert(h + outs.take(0) =~= h);
            assert(outs.take(0) =~= Seq::<CompletionOutputChunk>::empty());
        }
        while j < chunk.outputs.len()
            invariant
                outs == chunk.outputs@,
                j <= outs.len(),
                self.wf(),
                self.history() == h + outs.take(j as int),
                self.last_chunk() == old(self).last_chunk(),
                events@ == chunk_events(h, outs.take(j as int)),
            decreases outs.len() - j,
        {
            let mut more = self.update(&chunk.outputs[j], j);
            proof {
                let t = outs.take(j + 1);
                assert(t.drop_last() =~= outs.take(j as int));
                assert(t.last() == outs[j as int]);
                assert((h + outs.take(j as int)).push(outs[j as int]) =~= h + t);
            }
            events.append(&mut more);
            j = j + 1;
        }
        proof {
            assert(outs.take(outs.len() as int) =~= outs);
        }
        self.last_usage = chunk.usage;
        self.last_has_citations = chunk.citations.len() > 0;
        self.last = Ghost(Some(*chunk));
        events
    }

    /// The events that close the stream after a clean end: the last chunk's
    /// usage where it has one, then its citations where it has any.
    pub fn finish(&self) -> (events: Vec<StreamEvent>)
        requires
            self.wf(),
        ensures
            events@ == closing_events(self.last_chunk()),
    {
        let mut events: Vec<StreamEvent> = Vec::new();
        match self.last_usage {
            Some(usage) => {
                events.push(StreamEvent::Usage { usage });
            },
            None => {},
        }
        let ghost e1 = events@;
        if self.last_has_citations {
            events.push(StreamEvent::Citations);
        }
        proof {
            match self.last@ {
                Some(c) => {
                    assert(e1 =~= when(c.usage is Some, StreamEvent::Usage { usage: c.usage.unwrap() }));
                    assert(events@ =~= e1 + when(c.citations@.len() > 0, StreamEvent::Citations));
                },
                None => {
                    assert(events@ =~= Seq::<StreamEvent>::empty());
                },
            }
        }
        events
    }

    /// Takes in one update; returns the state of its output before and after it.
    #[verifier::rlimit(30)]
    fn record(&mut self, o: &CompletionOutputChunk) -> (r: (OutputProgress, OutputProgress))
        requires
            old(self).wf(),
        ensures
            final(self).wf(),
            final(self).history() == old(self).history().push(*o),
            final(self).last_chunk() == old(self).last_chunk(),
            r.0 == progress_of(old(self).history(), o.index),
            r.1 == advance(r.0, *o),
            final(self).total == total_of(final(self).history()),
    {
        let ghost h = self.history@;
        let ghost h2 = h.push(*o);
        let before = self.progress(o.index);
        let slot = self.find(o.index);
        let (reasoning_seen, content_seen) = match &o.delta {
            Some(d) => (!d.reasoning_content.as_str().is_empty(), !d.content.as_str().is_empty()),
            None => (false, false),
        };
        let reasoning_tokens = if reasoning_seen && before.reasoning_tokens < u64::MAX {
            before.reasoning_tokens + 1
        } else {
            before.reasoning_tokens
        };
        let content_tokens = if content_seen && before.content_tokens < u64::MAX {
            before.content_tokens + 1
        } else {
            before.content_tokens
        };
        let reasoning_status = if before.reasoning_status == PhaseStatus::Complete {
            PhaseStatus::Complete
        } else {
            get_reasoning_status(reasoning_tokens, content_tokens, o.finish_reason)
        };
        let content_status = if before.content_status == PhaseStatus::Complete {
            PhaseStatus::Complete
        } else {
            get_content_status(content_tokens, o.finish_reason)
        };
        let after = OutputProgress {
            index: o.index,
            reasoning_tokens,
            content_tokens,
            finish_reason: o.finish_reason,
            reasoning_status,
            content_status,
        };
        proof {
            lemma_progress_index(h, o.index);
            assert(after == advance(progress_of(h, o.index), *o));
            assert(h2.drop_last() =~= h);
            lemma_total_bound(h2);
        }
        match slot {
            Some(k) => {
                self.progress.set(k, after);
            },
            None => {
                self.progress.push(after);
            },
        }
        if o.index >= 0 && (o.index as usize) + 1 > self.total {
            self.total = (o.index as usize) + 1;
        }
        self.history = Ghost(h2);
        proof {
            assert forall|k: int| 0 <= k < self.progress@.len() implies #[trigger] self.progress@[k]
                == progress_of(h2, self.progress@[k].index) by {
                if self.progress@[k].index != o.index {
                    assert(self.progress@[k] == old(self).progress@[k]);
                }
            }
            assert forall|index: i32| appears(h2, index) implies exists|k: int|
                0 <= k < self.progress@.len() && #[trigger] self.progress@[k].index == index by {
                lemma_appears_push(h, *o, index);
                if index == o.index {
                    match slot {
                        Some(k) => assert(self.progress@[k as int].index == index),
                        None => assert(self.progress@[self.progress@.len() - 1].index == index),
                    }
                } else {
                    let k = choose|k: int|
                        0 <= k < old(self).progress@.len() && #[trigger] old(self).progress@[k].index == index;
                    assert(self.progress@[k].index == index);
                }
            }
        }
        (before, after)
    }

    /// Takes in one update, at position `pos` of its chunk, and returns its events.
    fn update(&mut self, o: &CompletionOutputChunk, pos: usize) -> (events: Vec<StreamEvent>)
        requires
            old(self).wf(),
        ensures
            final(self).wf(),
            final(self).history() == old(self).history().push(*o),
            final(self).last_chunk() == old(self).last_chunk(),
            events@ == update_events(old(self).history(), *o, pos),
    {
        let (before, after) = self.record(o);
        update_events_exec(o, before, after, self.total, pos)
    }
}

/// Builds the token and phase-completion events of update `o`.
fn phase_events_exec(
    o: &CompletionOutputChunk,
    before: OutputProgress,
    after: OutputProgress,
    total: usize,
    pos: usize,
) -> (events: Vec<StreamEvent>)
    requires
        after == advance(before, *o),
    ensures
        events@ == phase_events(before, *o, total, pos),
{
    let (reasoning_seen, content_seen) = match &o.delta {
        Some(d) => (!d.reasoning_content.as_str().is_empty(), !d.content.as_str().is_empty()),
        None => (false, false),
    };
    let index = o.index as usize;
    let context = TokenContext {
        total_choices: total,
        choice_index: index,
        reasoning_status: after.reasoning_status,
        content_status: after.content_status,
    };
    let done = CompletionContext { total_choices: total, choice_index: index };
    let ghost ctx = context;
    let ghost dn = done;
    let mut events: Vec<StreamEvent> = Vec::new();
    if reasoning_seen {
        events.push(StreamEvent::ReasoningToken { context, output: pos });
    }
    let ghost e1 = events@;
    assert(e1 =~= when(reasoning_piece(*o).len() > 0, StreamEvent::ReasoningToken { context: ctx, output: pos }));
    let reasoning_done = before.reasoning_status != PhaseStatus::Complete
        && after.reasoning_status == PhaseStatus::Complete;
    if reasoning_done {
        events.push(StreamEvent::ReasoningComplete { completion: done });
    }
    let ghost e2 = events@;
    assert(e2 =~= e1 + when(reasoning_done, StreamEvent::ReasoningComplete { completion: dn }));
    if content_seen {
        events.push(StreamEvent::ContentToken { context, output: pos });
    }
    let ghost e3 = events@;
    assert(e3 =~= e2 + when(content_piece(*o).len() > 0, StreamEvent::ContentToken { context: ctx, output: pos }));
    let content_done = before.content_status != PhaseStatus::Complete
        && after.content_status == PhaseStatus::Complete;
    if content_done {
        events.push(StreamEvent::ContentComplete { completion: done });
    }
    assert(events@ =~= e3 + when(content_done, StreamEvent::ContentComplete { completion: dn }));
    events
}

/// Builds the inline-citation and tool-call events of update `o`.
fn attachment_events_exec(o: &CompletionOutputChunk, context: TokenContext, pos: usize) -> (events: Vec<
    StreamEvent,
>)
    ensures
        events@ == attachment_events(context, *o, pos),
{
    let (cited, calls) = match &o.delta {
        Some(d) => (d.citations.len() > 0, tool_call_sides(&d.tool_calls)),
        None => (false, (false, false)),
    };
    let mut events: Vec<StreamEvent> = Vec::new();
    if cited {
        events.push(StreamEvent::InlineCitations { context, output: pos });
    }
    let ghost e1 = events@;
    assert(e1 =~= when(citation_piece(*o).len() > 0, StreamEvent::InlineCitations { context, output: pos }));
    if calls.0 {
        events.push(StreamEvent::ClientToolCalls { context, output: pos });
    }
    let ghost e2 = events@;
    assert(e2 =~= e1 + when(has_client_calls(tool_call_piece(*o)), StreamEvent::ClientToolCalls { context, output: pos }));
    if calls.1 {
        events.push(StreamEvent::ServerToolCalls { context, output: pos });
    }
    assert(events@ =~= e2 + when(has_server_calls(tool_call_piece(*o)), StreamEvent::ServerToolCalls { context, output: pos }));
    events
}

/// Builds the events of update `o` from the state of its output before and after it.
fn update_events_exec(
    o: &CompletionOutputChunk,
    before: OutputProgress,
    after: OutputProgress,
    total: usize,
    pos: usize,
) -> (events: Vec<StreamEvent>)
    requires
        after == advance(before, *o),
    ensures
        events@ == events_from(before, *o, total, pos),
{
    let mut events = phase_events_exec(o, before, after, total, pos);
    let context = TokenContext {
        total_choices: total,
        choice_index: o.index as usize,
        reasoning_status: after.reasoning_status,
        content_status: after.content_status,
    };
    let mut rest = attachment_events_exec(o, context, pos);
    events.append(&mut rest);
    events
}

/// The client-side calls of `calls`, in their order.
pub open spec fn client_calls(calls: Seq<ToolCall>) -> Seq<ToolCall>
    decreases calls.len(),
{
    if calls.len() == 0 {
        Seq::empty()
    } else if is_client_side(calls.last()) {
        client_calls(calls.drop_last()).push(calls.last())
    } else {
        client_calls(calls.drop_last())
    }
}

/// The calls of `calls` that the server executes, in their order.
pub open spec fn server_calls(calls: Seq<ToolCall>) -> Seq<ToolCall>
    decreases calls.len(),
{
    if calls.len() == 0 {
        Seq::empty()
    } else if !is_client_side(calls.last()) {
        server_calls(calls.drop_last()).push(calls.last())
    } else {
        server_calls(calls.drop_last())
    }
}

/// Partitions tool calls into the client-side ones and the others, each in
/// the order it had.
pub fn split_tool_calls(calls: Vec<ToolCall>) -> (r: (Vec<ToolCall>, Vec<ToolCall>))
    ensures
        r.0@ == client_calls(calls@),
        r.1@ == server_calls(calls@),
{
    let ghost all = calls@;
    let n = calls.len();
    let mut pending = reversed(calls);
    let mut client: Vec<ToolCall> = Vec::new();
    let mut server: Vec<ToolCall> = Vec::new();
    let mut j: usize = 0;
    proof {
        assert(all.take(0) =~= Seq::<ToolCall>::empty());
    }
    while j < n
        invariant
            n == all.len(),
            j <= n,
            pending@.len() == n - j,
            forall|k: int| 0 <= k < n - j ==> pending@[k] == all[n - 1 - k],
            client@ == client_calls(all.take(j as int)),
            server@ == server_calls(all.take(j as int)),
        decreases n - j,
    {
        let ghost before = pending@;
        match pending.pop() {
            Some(c) => {
                proof {
                    assert(c == all[j as int]);
                    assert(all.take(j + 1).drop_last() =~= all.take(j as int));
                }
                if c.tool_type == TOOL_CALL_TYPE_CLIENT_SIDE {
                    client.push(c);
                } else {
                    server.push(c);
                }
            },
            None => {},
        }
        j = j + 1;
    }
    proof {
        assert(all.take(n as int) =~= all);
    }
    (client, server)
}

/// Phase monotonicity: once the reasoning or content phase of an output has
/// completed, it is still complete after any further updates, of that output
/// or of others.
pub proof fn lemma_phase_complete_stays(
    h: Seq<CompletionOutputChunk>,
    later: Seq<CompletionOutputChunk>,
    index: i32,
)
    ensures
        progress_of(h, index).reasoning_status == PhaseStatus::Complete ==> progress_of(
            h + later,
            index,
        ).reasoning_status == PhaseStatus::Complete,
        progress_of(h, index).content_status == PhaseStatus::Complete ==> progress_of(
            h + later,
            index,
        ).content_status == PhaseStatus::Complete,
    decreases later.len(),
{
    if later.len() == 0 {
        assert(h + later =~= h);
    } else {
        lemma_phase_complete_stays(h, later.drop_last(), index);
        assert((h + later).drop_last() =~= h + later.drop_last());
        assert((h + later).last() == later.last());
    }
}

/// Completion fires once: over the updates `os` of a stream, no two updates of
/// one output both complete its reasoning phase, nor both its content phase.
/// (A completion event is emitted exactly for an update that completes the phase.)
pub proof fn lemma_completion_fires_once(os: Seq<CompletionOutputChunk>, a: int, b: int)
    requires
        0 <= a < b < os.len(),
        os[a].index == os[b].index,
    ensures
        !(completes_reasoning(os.take(a), os[a]) && completes_reasoning(os.take(b), os[b])),
        !(completes_content(os.take(a), os[a]) && completes_content(os.take(b), os[b])),
{
    let index = os[a].index;
    let upto = os.take(a + 1);
    assert(upto.drop_last() =~= os.take(a));
    assert(upto.last() == os[a]);
    assert(progress_of(upto, index) == advance(progress_of(os.take(a), index), os[a]));
    lemma_phase_complete_stays(upto, os.subrange(a + 1, b), index);
    assert(upto + os.subrange(a + 1, b) =~= os.take(b));
}

/// The token context an event hands to its callback, if it hands one.
pub open spec fn context_of(e: StreamEvent) -> Option<TokenContext> {
    match e {
        StreamEvent::ReasoningToken { context, .. } => Some(context),
        StreamEvent::ContentToken { context, .. } => Some(context),
        StreamEvent::InlineCitations { context, .. } => Some(context),
        StreamEvent::ClientToolCalls { context, .. } => Some(context),
        StreamEvent::ServerToolCalls { context, .. } => Some(context),
        _ => None,
    }
}

/// Phase monotonicity as callbacks observe it: once a phase of an output has
/// completed, every token context handed out for a later update of that
/// output shows the phase complete.
pub proof fn lemma_observed_phase_stays_complete(
    h: Seq<CompletionOutputChunk>,
    later: Seq<CompletionOutputChunk>,
    o: CompletionOutputChunk,
    pos: usize,
)
    ensures
        progress_of(h, o.index).reasoning_status == PhaseStatus::Complete ==> forall|k: int|
            0 <= k < update_events(h + later, o, pos).len() && (#[trigger] context_of(
                update_events(h + later, o, pos)[k],
            )) is Some ==> context_of(update_events(h + later, o, pos)[k]).unwrap().reasoning_status
                == PhaseStatus::Complete,
        progress_of(h, o.index).content_status == PhaseStatus::Complete ==> forall|k: int|
            0 <= k < update_events(h + later, o, pos).len() && (#[trigger] context_of(
                update_events(h + later, o, pos)[k],
            )) is Some ==> context_of(update_events(h + later, o, pos)[k]).unwrap().content_status
                == PhaseStatus::Complete,
{
    lemma_phase_complete_stays(h, later, o.index);
    lemma_contexts_of_update(h + later, o, pos);
}

proof fn lemma_attachment_contexts(ctx: TokenContext, o: CompletionOutputChunk, pos: usize)
    ensures
        forall|k: int|
            0 <= k < attachment_events(ctx, o, pos).len() ==> #[trigger] context_of(
                attachment_events(ctx, o, pos)[k],
            ) == Some(ctx),
{
    let a = attachment_events(ctx, o, pos);
    let c1 = when(citation_piece(o).len() > 0, StreamEvent::InlineCitations { context: ctx, output: pos });
    let c2 = when(has_client_calls(tool_call_piece(o)), StreamEvent::ClientToolCalls { context: ctx, output: pos });
    let c3 = when(has_server_calls(tool_call_piece(o)), StreamEvent::ServerToolCalls { context: ctx, output: pos });
    assert(a =~= c1 + c2 + c3);
    assert forall|k: int| 0 <= k < a.len() implies #[trigger] context_of(a[k]) == Some(ctx) by {
        if k < c1.len() {
            assert(a[k] == c1[k]);
        } else if k < c1.len() + c2.len() {
            assert(a[k] == c2[k - c1.len()]);
        } else {
            assert(a[k] == c3[k - c1.len() - c2.len()]);
        }
    }
}

/// Every token context among the events of update `o` after `h` is the one
/// built from the state of its output once the update is taken in.
proof fn lemma_contexts_of_update(h: Seq<CompletionOutputChunk>, o: CompletionOutputChunk, pos: usize)
    ensures
        forall|k: int|
            0 <= k < update_events(h, o, pos).len() && (#[trigger] context_of(update_events(h, o, pos)[k])) is Some
                ==> context_of(update_events(h, o, pos)[k]).unwrap() == token_context(
                advance(progress_of(h, o.index), o),
                o,
                total_of(h.push(o)) as usize,
            ),
{
    let (w1, w2, w3, w4) = phase_parts(h, o, pos);
    let total = total_of(h.push(o)) as usize;
    let ctx = token_context(advance(progress_of(h, o.index), o), o, total);
    let a = attachment_events(ctx, o, pos);
    let events = update_events(h, o, pos);
    lemma_update_events_split(h, o, pos);
    lemma_attachment_contexts(ctx, o, pos);
    let n1 = w1.len() as int;
    let n2 = n1 + w2.len();
    let n3 = n2 + w3.len();
    let n4 = n3 + w4.len();
    assert forall|k: int| 0 <= k < events.len() && (#[trigger] context_of(events[k])) is Some implies context_of(
        events[k],
    ).unwrap() == ctx by {
        if k < n1 {
            assert(events[k] == w1[k]);
        } else if k < n2 {
            assert(events[k] == w2[k - n1]);
        } else if k < n3 {
            assert(events[k] == w3[k - n2]);
        } else if k < n4 {
            assert(events[k] == w4[k - n3]);
        } else {
            assert(events[k] == a[k - n4]);
        }
    }
}

/// Whether `events` holds a reasoning-completion event.
pub open spec fn has_reasoning_complete(events: Seq<StreamEvent>) -> bool {
    exists|k: int| 0 <= k < events.len() && #[trigger] events[k] is ReasoningComplete
}

/// Whether `events` holds a content-completion event.
pub open spec fn has_content_complete(events: Seq<StreamEvent>) -> bool {
    exists|k: int| 0 <= k < events.len() && #[trigger] events[k] is ContentComplete
}

proof fn lemma_attachments_complete_nothing(ctx: TokenContext, o: CompletionOutputChunk, pos: usize)
    ensures
        forall|k: int| 0 <= k < attachment_events(ctx, o, pos).len() ==> !(#[trigger] attachment_events(
            ctx,
            o,
            pos,
        )[k] is ReasoningComplete) && !(attachment_events(ctx, o, pos)[k] is ContentComplete),
{
    let a = attachment_events(ctx, o, pos);
    let c1 = when(citation_piece(o).len() > 0, StreamEvent::InlineCitations { context: ctx, output: pos });
    let c2 = when(has_client_calls(tool_call_piece(o)), StreamEvent::ClientToolCalls { context: ctx, output: pos });
    let c3 = when(has_server_calls(tool_call_piece(o)), StreamEvent::ServerToolCalls { context: ctx, output: pos });
    assert(a =~= c1 + c2 + c3);
    assert forall|k: int| 0 <= k < a.len() implies !(#[trigger] a[k] is ReasoningComplete) && !(
    a[k] is ContentComplete) by {
        if k < c1.len() {
            assert(a[k] == c1[k]);
        } else if k < c1.len() + c2.len() {
            assert(a[k] == c2[k - c1.len()]);
        } else {
            assert(a[k] == c3[k - c1.len() - c2.len()]);
        }
    }
}

/// The four token and phase-completion parts of the events of update `o` after `h`.
spec fn phase_parts(h: Seq<CompletionOutputChunk>, o: CompletionOutputChunk, pos: usize) -> (
    Seq<StreamEvent>,
    Seq<StreamEvent>,
    Seq<StreamEvent>,
    Seq<StreamEvent>,
) {
    let before = progress_of(h, o.index);
    let total = total_of(h.push(o)) as usize;
    let ctx = token_context(advance(before, o), o, total);
    let done = CompletionContext { total_choices: total, choice_index: o.index as usize };
    (
        when(reasoning_piece(o).len() > 0, StreamEvent::ReasoningToken { context: ctx, output: pos }),
        when(completes_reasoning(h, o), StreamEvent::ReasoningComplete { completion: done }),
        when(content_piece(o).len() > 0, StreamEvent::ContentToken { context: ctx, output: pos }),
        when(completes_content(h, o), StreamEvent::ContentComplete { completion: done }),
    )
}

proof fn lemma_update_events_split(h: Seq<CompletionOutputChunk>, o: CompletionOutputChunk, pos: usize)
    ensures
        ({
            let (w1, w2, w3, w4) = phase_parts(h, o, pos);
            let total = total_of(h.push(o)) as usize;
            let ctx = token_context(advance(progress_of(h, o.index), o), o, total);
            update_events(h, o, pos) == w1 + w2 + w3 + w4 + attachment_events(ctx, o, pos)
        }),
{
    let (w1, w2, w3, w4) = phase_parts(h, o, pos);
    let total = total_of(h.push(o)) as usize;
    let ctx = token_context(advance(progress_of(h, o.index), o), o, total);
    assert(update_events(h, o, pos) =~= w1 + w2 + w3 + w4 + attachment_events(ctx, o, pos));
}

proof fn lemma_reasoning_event_iff(h: Seq<CompletionOutputChunk>, o: CompletionOutputChunk, pos: usize)
    ensures
        has_reasoning_complete(update_events(h, o, pos)) <==> completes_reasoning(h, o),
{
    let (w1, w2, w3, w4) = phase_parts(h, o, pos);
    let total = total_of(h.push(o)) as usize;
    let ctx = token_context(advance(progress_of(h, o.index), o), o, total);
    let a = attachment_events(ctx, o, pos);
    let events = update_events(h, o, pos);
    lemma_update_events_split(h, o, pos);
    lemma_attachments_complete_nothing(ctx, o, pos);
    let n1 = w1.len() as int;
    let n2 = n1 + w2.len();
    let n3 = n2 + w3.len();
    let n4 = n3 + w4.len();
    if has_reasoning_complete(events) {
        let k = choose|k: int| 0 <= k < events.len() && #[trigger] events[k] is ReasoningComplete;
        if k < n1 {
            assert(events[k] == w1[k]);
        } else if k < n2 {
            assert(events[k] == w2[k - n1]);
        } else if k < n3 {
            assert(events[k] == w3[k - n2]);
        } else if k < n4 {
            assert(events[k] == w4[k - n3]);
        } else {
            assert(events[k] == a[k - n4]);
        }
    }
    if completes_reasoning(h, o) {
        assert(events[n1] == w2[0]);
    }
}

proof fn lemma_content_event_iff(h: Seq<CompletionOutputChunk>, o: CompletionOutputChunk, pos: usize)
    ensures
        has_content_complete(update_events(h, o, pos)) <==> completes_content(h, o),
{
    let (w1, w2, w3, w4) = phase_parts(h, o, pos);
    let total = total_of(h.push(o)) as usize;
    let ctx = token_context(advance(progress_of(h, o.index), o), o, total);
    let a = attachment_events(ctx, o, pos);
    let events = update_events(h, o, pos);
    lemma_update_events_split(h, o, pos);
    lemma_attachments_complete_nothing(ctx, o, pos);
    let n1 = w1.len() as int;
    let n2 = n1 + w2.len();
    let n3 = n2 + w3.len();
    let n4 = n3 + w4.len();
    if has_content_complete(events) {
        let k = choose|k: int| 0 <= k < events.len() && #[trigger] events[k] is ContentComplete;
        if k < n1 {
            assert(events[k] == w1[k]);
        } else if k < n2 {
            assert(events[k] == w2[k - n1]);
        } else if k < n3 {
            assert(events[k] == w3[k - n2]);
        } else if k < n4 {
            assert(events[k] == w4[k - n3]);
        } else {
            assert(events[k] == a[k - n4]);
        }
    }
    if completes_content(h, o) {
        assert(events[n3] == w4[0]);
    }
}

/// The events of an update hold a completion event for a phase exactly when
/// the update completes that phase.
pub proof fn lemma_completion_event_iff(h: Seq<CompletionOutputChunk>, o: CompletionOutputChunk, pos: usize)
    ensures
        has_reasoning_complete(update_events(h, o, pos)) <==> completes_reasoning(h, o),
        has_content_complete(update_events(h, o, pos)) <==> completes_content(h, o),
{
    lemma_reasoning_event_iff(h, o, pos);
    lemma_content_event_iff(h, o, pos);
}

} // verus!
