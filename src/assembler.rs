//! Reassembly of a complete response from the chunks of a stream.
//!
//! The chunks are flattened, in arrival order, into one sequence of output
//! updates. Each output index then gets the concatenation of its text
//! fragments, the extension of its tool calls and citations, its last
//! non-zero role, and the finish reason and log probabilities of the last
//! update that touched it.
use vstd::prelude::*;
use crate::api::{
    CompletionMessage, CompletionOutput, CompletionOutputChunk, GetChatCompletionChunk,
    GetChatCompletionResponse, InlineCitation, LogProbs, ROLE_UNSET, ToolCall,
};

verus! {

/// Every output update of `chunks`, chunk by chunk, in arrival order.
pub open spec fn flat_outputs(chunks: Seq<GetChatCompletionChunk>) -> Seq<CompletionOutputChunk>
    decreases chunks.len(),
{
    if chunks.len() == 0 {
        Seq::empty()
    } else {
        flat_outputs(chunks.drop_last()) + chunks.last().outputs@
    }
}

/// Whether some update of `os` belongs to output `index`.
pub open spec fn appears(os: Seq<CompletionOutputChunk>, index: i32) -> bool {
    exists|j: int| 0 <= j < os.len() && #[trigger] os[j].index == index
}

pub open spec fn content_piece(o: CompletionOutputChunk) -> Seq<char> {
    match o.delta {
        Some(d) => d.content@,
        None => Seq::empty(),
    }
}

pub open spec fn reasoning_piece(o: CompletionOutputChunk) -> Seq<char> {
    match o.delta {
        Some(d) => d.reasoning_content@,
        None => Seq::empty(),
    }
}

pub open spec fn encrypted_piece(o: CompletionOutputChunk) -> Seq<char> {
    match o.delta {
        Some(d) => d.encrypted_content@,
        None => Seq::empty(),
    }
}

pub open spec fn tool_call_piece(o: CompletionOutputChunk) -> Seq<ToolCall> {
    match o.delta {
        Some(d) => d.tool_calls@,
        None => Seq::empty(),
    }
}

pub open spec fn citation_piece(o: CompletionOutputChunk) -> Seq<InlineCitation> {
    match o.delta {
        Some(d) => d.citations@,
        None => Seq::empty(),
    }
}

/// The role code that an update sets: 0 where it sets none.
pub open spec fn role_piece(o: CompletionOutputChunk) -> i32 {
    match o.delta {
        Some(d) => d.role,
        None => ROLE_UNSET,
    }
}

/// Concatenated content text of output `index` over `os`.
pub open spec fn content_of(os: Seq<CompletionOutputChunk>, index: i32) -> Seq<char>
    decreases os.len(),
{
    if os.len() == 0 {
        Seq::empty()
    } else if os.last().index == index {
        content_of(os.drop_last(), index) + content_piece(os.last())
    } else {
        content_of(os.drop_last(), index)
    }
}

/// Concatenated reasoning text of output `index` over `os`.
pub open spec fn reasoning_of(os: Seq<CompletionOutputChunk>, index: i32) -> Seq<char>
    decreases os.len(),
{
    if os.len() == 0 {
        Seq::empty()
    } else if os.last().index == index {
        reasoning_of(os.drop_last(), index) + reasoning_piece(os.last())
    } else {
        reasoning_of(os.drop_last(), index)
    }
}

/// Concatenated encrypted content of output `index` over `os`.
pub open spec fn encrypted_of(os: Seq<CompletionOutputChunk>, index: i32) -> Seq<char>
    decreases os.len(),
{
    if os.len() == 0 {
        Seq::empty()
    } else if os.last().index == index {
        encrypted_of(os.drop_last(), index) + encrypted_piece(os.last())
    } else {
        encrypted_of(os.drop_last(), index)
    }
}

/// All tool calls of output `index` over `os`, in arrival order.
pub open spec fn tool_calls_of(os: Seq<CompletionOutputChunk>, index: i32) -> Seq<ToolCall>
    decreases os.len(),
{
    if os.len() == 0 {
        Seq::empty()
    } else if os.last().index == index {
        tool_calls_of(os.drop_last(), index) + tool_call_piece(os.last())
    } else {
        tool_calls_of(os.drop_last(), index)
    }
}

/// All inline citations of output `index` over `os`, in arrival order.
pub open spec fn citations_of(os: Seq<CompletionOutputChunk>, index: i32) -> Seq<InlineCitation>
    decreases os.len(),
{
    if os.len() == 0 {
        Seq::empty()
    } else if os.last().index == index {
        citations_of(os.drop_last(), index) + citation_piece(os.last())
    } else {
        citations_of(os.drop_last(), index)
    }
}

/// The last non-zero role of output `index` over `os`, or 0 where none was set.
pub open spec fn role_of(os: Seq<CompletionOutputChunk>, index: i32) -> i32
    decreases os.len(),
{
    if os.len() == 0 {
        ROLE_UNSET
    } else if os.last().index == index && role_piece(os.last()) != ROLE_UNSET {
        role_piece(os.last())
    } else {
        role_of(os.drop_last(), index)
    }
}

/// The finish reason of the last update of output `index` in `os`.
pub open spec fn finish_reason_of(os: Seq<CompletionOutputChunk>, index: i32) -> i32
    decreases os.len(),
{
    if os.len() == 0 {
        0
    } else if os.last().index == index {
        os.last().finish_reason
    } else {
        finish_reason_of(os.drop_last(), index)
    }
}

/// The log probabilities of the last update of output `index` in `os`.
pub open spec fn logprobs_of(os: Seq<CompletionOutputChunk>, index: i32) -> Option<LogProbs>
    decreases os.len(),
{
    if os.len() == 0 {
        None
    } else if os.last().index == index {
        os.last().logprobs
    } else {
        logprobs_of(os.drop_last(), index)
    }
}

/// `out` is the merged record of output `out.index` over the updates `os`.
pub open spec fn output_merged(out: CompletionOutput, os: Seq<CompletionOutputChunk>) -> bool {
    &&& out.message matches Some(m)
    &&& m.content@ == content_of(os, out.index)
    &&& m.reasoning_content@ == reasoning_of(os, out.index)
    &&& m.encrypted_content@ == encrypted_of(os, out.index)
    &&& m.role == role_of(os, out.index)
    &&& m.tool_calls@ == tool_calls_of(os, out.index)
    &&& m.citations@ == citations_of(os, out.index)
    &&& out.finish_reason == finish_reason_of(os, out.index)
    &&& out.logprobs == logprobs_of(os, out.index)
}

/// The records of `outs` are in strictly ascending order of output index.
pub open spec fn ascending(outs: Seq<CompletionOutput>) -> bool {
    forall|a: int, b: int| 0 <= a < b < outs.len() ==> outs[a].index < outs[b].index
}

/// `r` is the response that the non-empty chunk list `chunks` assembles to:
/// identity from the first chunk, usage and citations from the last, and one
/// merged record per distinct output index, in ascending index order.
pub open spec fn assembled_from(chunks: Seq<GetChatCompletionChunk>, r: GetChatCompletionResponse) -> bool {
    let os = flat_outputs(chunks);
    &&& r.id == chunks[0].id
    &&& r.created == chunks[0].created
    &&& r.model == chunks[0].model
    &&& r.system_fingerprint == chunks[0].system_fingerprint
    &&& r.usage == chunks.last().usage
    &&& r.citations == chunks.last().citations
    &&& ascending(r.outputs@)
    &&& forall|index: i32| appears(os, index) <==> exists|k: int|
        0 <= k < r.outputs@.len() && #[trigger] r.outputs@[k].index == index
    &&& forall|k: int| 0 <= k < r.outputs@.len() ==> output_merged(#[trigger] r.outputs@[k], os)
}

/// Updates of other outputs leave the merged fields of output `index` alone.
proof fn lemma_push_other(os: Seq<CompletionOutputChunk>, o: CompletionOutputChunk, index: i32)
    requires
        o.index != index,
    ensures
        content_of(os.push(o), index) == content_of(os, index),
        reasoning_of(os.push(o), index) == reasoning_of(os, index),
        encrypted_of(os.push(o), index) == encrypted_of(os, index),
        tool_calls_of(os.push(o), index) == tool_calls_of(os, index),
        citations_of(os.push(o), index) == citations_of(os, index),
        role_of(os.push(o), index) == role_of(os, index),
        finish_reason_of(os.push(o), index) == finish_reason_of(os, index),
        logprobs_of(os.push(o), index) == logprobs_of(os, index),
{
    assert(os.push(o).drop_last() =~= os);
}

/// An update of output `o.index` extends its merged fields by its own fragments.
proof fn lemma_push_same(os: Seq<CompletionOutputChunk>, o: CompletionOutputChunk)
    ensures
        content_of(os.push(o), o.index) == content_of(os, o.index) + content_piece(o),
        reasoning_of(os.push(o), o.index) == reasoning_of(os, o.index) + reasoning_piece(o),
        encrypted_of(os.push(o), o.index) == encrypted_of(os, o.index) + encrypted_piece(o),
        tool_calls_of(os.push(o), o.index) == tool_calls_of(os, o.index) + tool_call_piece(o),
        citations_of(os.push(o), o.index) == citations_of(os, o.index) + citation_piece(o),
        role_of(os.push(o), o.index) == (if role_piece(o) != ROLE_UNSET {
            role_piece(o)
        } else {
            role_of(os, o.index)
        }),
        finish_reason_of(os.push(o), o.index) == o.finish_reason,
        logprobs_of(os.push(o), o.index) == o.logprobs,
{
    assert(os.push(o).drop_last() =~= os);
}

/// An output that no update touches has empty merged fields.
proof fn lemma_absent(os: Seq<CompletionOutputChunk>, index: i32)
    requires
        !appears(os, index),
    ensures
        content_of(os, index) == Seq::<char>::empty(),
        reasoning_of(os, index) == Seq::<char>::empty(),
        encrypted_of(os, index) == Seq::<char>::empty(),
        tool_calls_of(os, index) == Seq::<ToolCall>::empty(),
        citations_of(os, index) == Seq::<InlineCitation>::empty(),
        role_of(os, index) == ROLE_UNSET,
        finish_reason_of(os, index) == 0,
        logprobs_of(os, index) == None::<LogProbs>,
    decreases os.len(),
{
    if os.len() > 0 {
        let prefix = os.drop_last();
        assert(os.last().index != index) by {
            if os.last().index == index {
                assert(os[os.len() - 1].index == index);
            }
        }
        assert(!appears(prefix, index)) by {
            if appears(prefix, index) {
                let j = choose|j: int| 0 <= j < prefix.len() && #[trigger] prefix[j].index == index;
                assert(os[j].index == index);
            }
        }
        lemma_absent(prefix, index);
    }
}

/// An output appears after an update exactly where it appeared before or is the one updated.
pub(crate) proof fn lemma_appears_push(os: Seq<CompletionOutputChunk>, o: CompletionOutputChunk, index: i32)
    ensures
        appears(os.push(o), index) <==> (appears(os, index) || o.index == index),
{
    let s = os.push(o);
    if appears(s, index) {
        let j = choose|j: int| 0 <= j < s.len() && #[trigger] s[j].index == index;
        if j < os.len() {
            assert(os[j].index == index);
        }
    }
    if appears(os, index) {
        let j = choose|j: int| 0 <= j < os.len() && #[trigger] os[j].index == index;
        assert(s[j].index == index);
    }
    if o.index == index {
        assert(s[os.len() as int].index == index);
    }
}

/// The fields merged so far for one output index.
struct OutputAccumulator {
    index: i32,
    content: String,
    reasoning_content: String,
    encrypted_content: String,
    role: i32,
    tool_calls: Vec<ToolCall>,
    citations: Vec<InlineCitation>,
    finish_reason: i32,
    logprobs: Option<LogProbs>,
}

spec fn acc_merged(a: OutputAccumulator, os: Seq<CompletionOutputChunk>) -> bool {
    &&& a.content@ == content_of(os, a.index)
    &&& a.reasoning_content@ == reasoning_of(os, a.index)
    &&& a.encrypted_content@ == encrypted_of(os, a.index)
    &&& a.role == role_of(os, a.index)
    &&& a.tool_calls@ == tool_calls_of(os, a.index)
    &&& a.citations@ == citations_of(os, a.index)
    &&& a.finish_reason == finish_reason_of(os, a.index)
    &&& a.logprobs == logprobs_of(os, a.index)
}

/// `accs` holds, in ascending index order, one merged record for each output of `os`.
spec fn accs_model(accs: Seq<OutputAccumulator>, os: Seq<CompletionOutputChunk>) -> bool {
    &&& forall|a: int, b: int| 0 <= a < b < accs.len() ==> accs[a].index < accs[b].index
    &&& forall|k: int| 0 <= k < accs.len() ==> acc_merged(#[trigger] accs[k], os)
    &&& forall|index: i32| appears(os, index) <==> exists|k: int|
        0 <= k < accs.len() && #[trigger] accs[k].index == index
}

impl OutputAccumulator {
    fn empty(index: i32) -> (r: OutputAccumulator)
        ensures
            r.index == index,
            r.content@.len() == 0,
            r.reasoning_content@.len() == 0,
            r.encrypted_content@.len() == 0,
            r.role == ROLE_UNSET,
            r.tool_calls@.len() == 0,
            r.citations@.len() == 0,
            r.finish_reason == 0,
            r.logprobs is None,
    {
        OutputAccumulator {
            index,
            content: String::new(),
            reasoning_content: String::new(),
            encrypted_content: String::new(),
            role: ROLE_UNSET,
            tool_calls: Vec::new(),
            citations: Vec::new(),
            finish_reason: 0,
            logprobs: None,
        }
    }

    /// Folds one update of this output into the record.
    fn merge(&mut self, o: CompletionOutputChunk)
        ensures
            final(self).index == old(self).index,
            final(self).content@ == old(self).content@ + content_piece(o),
            final(self).reasoning_content@ == old(self).reasoning_content@ + reasoning_piece(o),
            final(self).encrypted_content@ == old(self).encrypted_content@ + encrypted_piece(o),
            final(self).role == (if role_piece(o) != ROLE_UNSET {
                role_piece(o)
            } else {
                old(self).role
            }),
            final(self).tool_calls@ == old(self).tool_calls@ + tool_call_piece(o),
            final(self).citations@ == old(self).citations@ + citation_piece(o),
            final(self).finish_reason == o.finish_reason,
            final(self).logprobs == o.logprobs,
    {
        let CompletionOutputChunk { delta, logprobs, finish_reason, index: _ } = o;
        match delta {
            Some(d) => {
                let mut d = d;
                self.content.append(d.content.as_str());
                self.reasoning_content.append(d.reasoning_content.as_str());
                self.encrypted_content.append(d.encrypted_content.as_str());
                if d.role != ROLE_UNSET {
                    self.role = d.role;
                }
                self.tool_calls.append(&mut d.tool_calls);
                self.citations.append(&mut d.citations);
            },
            None => {
                proof {
                    assert(self.content@ + Seq::<char>::empty() =~= self.content@);
                    assert(self.reasoning_content@ + Seq::<char>::empty() =~= self.reasoning_content@);
                    assert(self.encrypted_content@ + Seq::<char>::empty() =~= self.encrypted_content@);
                    assert(self.tool_calls@ + Seq::<ToolCall>::empty() =~= self.tool_calls@);
                    assert(self.citations@ + Seq::<InlineCitation>::empty() =~= self.citations@);
                }
            },
        }
        self.finish_reason = finish_reason;
        self.logprobs = logprobs;
    }
}

/// Folds one update into the records, keeping them in ascending index order.
#[verifier::rlimit(40)]
fn absorb_output(
    accs: &mut Vec<OutputAccumulator>,
    o: CompletionOutputChunk,
    Ghost(os): Ghost<Seq<CompletionOutputChunk>>,
)
    requires
        accs_model(old(accs)@, os),
    ensures
        accs_model(final(accs)@, os.push(o)),
{
    let ghost o0 = o;
    let mut p: usize = 0;
    while p < accs.len() && accs[p].index < o.index
        invariant
            p <= accs.len(),
            forall|k: int| 0 <= k < p ==> accs@[k].index < o.index,
        decreases accs.len() - p,
    {
        p = p + 1;
    }
    let ghost before = accs@;
    proof {
        lemma_appears_push(os, o0, o0.index);
        assert forall|k: int| 0 <= k < before.len() && before[k].index != o0.index implies
            acc_merged(#[trigger] before[k], os.push(o0)) by {
            lemma_push_other(os, o0, before[k].index);
        }
        lemma_push_same(os, o0);
    }
    if p < accs.len() && accs[p].index == o.index {
        let mut a = accs.remove(p);
        a.merge(o);
        accs.insert(p, a);
        proof {
            assert forall|index: i32| appears(os.push(o0), index) <==> exists|k: int|
                0 <= k < accs@.len() && #[trigger] accs@[k].index == index by {
                lemma_appears_push(os, o0, index);
                if appears(os, index) {
                    let k = choose|k: int| 0 <= k < before.len() && #[trigger] before[k].index == index;
                    assert(accs@[k].index == index);
                }
                if exists|k: int| 0 <= k < accs@.len() && #[trigger] accs@[k].index == index {
                    let k = choose|k: int| 0 <= k < accs@.len() && #[trigger] accs@[k].index == index;
                    assert(before[k].index == index);
                }
            }
            assert forall|k: int| 0 <= k < accs@.len() implies acc_merged(#[trigger] accs@[k], os.push(o0)) by {
                if k != p {
                    assert(accs@[k] == before[k]);
                    assert(acc_merged(before[k], os));
                }
            }
        }
    } else {
        let mut a = OutputAccumulator::empty(o.index);
        proof {
            assert(!appears(os, o0.index)) by {
                if appears(os, o0.index) {
                    let k = choose|k: int| 0 <= k < before.len() && #[trigger] before[k].index == o0.index;
                    if k < p {
                    } else {
                        assert(before[p as int].index <= before[k].index);
                    }
                }
            }
            lemma_absent(os, o0.index);
            assert(a.content@ =~= content_of(os, o0.index));
            assert(a.reasoning_content@ =~= reasoning_of(os, o0.index));
            assert(a.encrypted_content@ =~= encrypted_of(os, o0.index));
            assert(a.tool_calls@ =~= tool_calls_of(os, o0.index));
            assert(a.citations@ =~= citations_of(os, o0.index));
        }
        a.merge(o);
        accs.insert(p, a);
        proof {
            assert forall|index: i32| appears(os.push(o0), index) <==> exists|k: int|
                0 <= k < accs@.len() && #[trigger] accs@[k].index == index by {
                lemma_appears_push(os, o0, index);
                if appears(os, index) {
                    let k = choose|k: int| 0 <= k < before.len() && #[trigger] before[k].index == index;
                    if k < p {
                        assert(accs@[k].index == index);
                    } else {
                        assert(accs@[k + 1].index == index);
                    }
                }
                if index == o0.index {
                    assert(accs@[p as int].index == index);
                }
                if exists|k: int| 0 <= k < accs@.len() && #[trigger] accs@[k].index == index {
                    let k = choose|k: int| 0 <= k < accs@.len() && #[trigger] accs@[k].index == index;
                    if k < p {
                        assert(before[k].index == index);
                    } else if k > p {
                        assert(before[k - 1].index == index);
                    }
                }
            }
            assert forall|k: int| 0 <= k < accs@.len() implies acc_merged(#[trigger] accs@[k], os.push(o0)) by {
                if k < p {
                    assert(accs@[k] == before[k]);
                    assert(acc_merged(before[k], os));
                } else if k > p {
                    assert(accs@[k] == before[k - 1]);
                    assert(acc_merged(before[k - 1], os));
                }
            }
        }
    }
}

/// The elements of `v` in reverse order, so that popping yields them front to back.
pub(crate) fn reversed<T>(v: Vec<T>) -> (r: Vec<T>)
    ensures
        r@.len() == v@.len(),
        forall|k: int| 0 <= k < v@.len() ==> r@[k] == v@[v@.len() - 1 - k],
{
    let ghost all = v@;
    let mut rest = v;
    let mut out: Vec<T> = Vec::new();
    while rest.len() > 0
        invariant
            out@.len() + rest@.len() == all.len(),
            rest@ == all.subrange(0, rest@.len() as int),
            forall|k: int| 0 <= k < out@.len() ==> out@[k] == all[all.len() - 1 - k],
        decreases rest.len(),
    {
        match rest.pop() {
            Some(x) => {
                out.push(x);
            },
            None => {},
        }
    }
    out
}

/// Folds the updates of one chunk, in order, into the records.
fn absorb_outputs(
    accs: &mut Vec<OutputAccumulator>,
    outputs: Vec<CompletionOutputChunk>,
    Ghost(os): Ghost<Seq<CompletionOutputChunk>>,
)
    requires
        accs_model(old(accs)@, os),
    ensures
        accs_model(final(accs)@, os + outputs@),
{
    let ghost items = outputs@;
    let n = outputs.len();
    let mut stack = reversed(outputs);
    let mut j: usize = 0;
    while j < n
        invariant
            n == items.len(),
            j <= n,
            stack@.len() == n - j,
            forall|k: int| 0 <= k < n - j ==> stack@[k] == items[n - 1 - k],
            accs_model(accs@, os + items.take(j as int)),
        decreases n - j,
    {
        let ghost before = stack@;
        match stack.pop() {
            Some(o) => {
                proof {
                    assert(o == before[n - j - 1]);
                    assert((os + items.take(j as int)).push(o) =~= os + items.take(j + 1));
                }
                absorb_output(accs, o, Ghost(os + items.take(j as int)));
            },
            None => {},
        }
        j = j + 1;
    }
    proof {
        assert(items.take(n as int) =~= items);
    }
}

/// Reassembles the complete response of a stream from its chunks, in arrival order.
///
/// Returns `None` exactly when `chunks` is empty. Otherwise the response takes
/// its identity (id, creation time, model, system fingerprint) from the first
/// chunk, its usage and citations from the last one, and holds one record per
/// distinct output index, in ascending index order, whose text fields are the
/// concatenations of that output's fragments, whose tool calls and citations
/// are their extensions, whose role is the last non-zero one, and whose finish
/// reason and log probabilities are those of the output's last update.
pub fn assemble(chunks: Vec<GetChatCompletionChunk>) -> (r: Option<GetChatCompletionResponse>)
    ensures
        chunks@.len() == 0 <==> r is None,
        r matches Some(resp) ==> assembled_from(chunks@, resp),
{
    if chunks.len() == 0 {
        return None;
    }
    let ghost all = chunks@;
    let n = chunks.len();
    let mut stack = reversed(chunks);
    let mut accs: Vec<OutputAccumulator> = Vec::new();
    let mut id = String::new();
    let mut created = None;
    let mut model = String::new();
    let mut system_fingerprint = String::new();
    let mut usage = None;
    let mut citations: Vec<String> = Vec::new();
    proof {
        assert(flat_outputs(all.take(0)) =~= Seq::<CompletionOutputChunk>::empty());
    }
    let mut i: usize = 0;
    while i < n
        invariant
            n == all.len(),
            i <= n,
            stack@.len() == n - i,
            forall|k: int| 0 <= k < n - i ==> stack@[k] == all[n - 1 - k],
            accs_model(accs@, flat_outputs(all.take(i as int))),
            i > 0 ==> id == all[0].id && created == all[0].created && model == all[0].model
                && system_fingerprint == all[0].system_fingerprint,
            i > 0 ==> usage == all[i - 1].usage && citations == all[i - 1].citations,
        decreases n - i,
    {
        let ghost before = stack@;
        match stack.pop() {
            Some(chunk) => {
                proof {
                    assert(chunk == all[i as int]);
                    assert(all.take(i + 1).drop_last() =~= all.take(i as int));
                }
                let GetChatCompletionChunk {
                    id: chunk_id,
                    outputs,
                    created: chunk_created,
                    model: chunk_model,
                    system_fingerprint: chunk_fingerprint,
                    usage: chunk_usage,
                    citations: chunk_citations,
                } = chunk;
                if i == 0 {
                    id = chunk_id;
                    created = chunk_created;
                    model = chunk_model;
                    system_fingerprint = chunk_fingerprint;
                }
                usage = chunk_usage;
                citations = chunk_citations;
                absorb_outputs(&mut accs, outputs, Ghost(flat_outputs(all.take(i as int))));
            },
            None => {},
        }
        i = i + 1;
    }
    let ghost os = flat_outputs(all);
    proof {
        assert(all.take(n as int) =~= all);
    }
    let ghost merged = accs@;
    let m = accs.len();
    let mut pending = reversed(accs);
    let mut outputs: Vec<CompletionOutput> = Vec::new();
    let mut j: usize = 0;
    while j < m
        invariant
            m == merged.len(),
            j <= m,
            accs_model(merged, os),
            pending@.len() == m - j,
            forall|k: int| 0 <= k < m - j ==> pending@[k] == merged[m - 1 - k],
            outputs@.len() == j,
            forall|k: int| 0 <= k < j ==> (#[trigger] outputs@[k]).index == merged[k].index,
            forall|k: int| 0 <= k < j ==> output_merged(#[trigger] outputs@[k], os),
        decreases m - j,
    {
        let ghost before = pending@;
        match pending.pop() {
            Some(a) => {
                proof {
                    assert(a == merged[j as int]);
                    assert(acc_merged(merged[j as int], os));
                }
                let OutputAccumulator {
                    index,
                    content,
                    reasoning_content,
                    encrypted_content,
                    role,
                    tool_calls,
                    citations: output_citations,
                    finish_reason,
                    logprobs,
                } = a;
                let message = CompletionMessage {
                    content,
                    reasoning_content,
                    role,
                    tool_calls,
                    encrypted_content,
                    citations: output_citations,
                };
                outputs.push(CompletionOutput { finish_reason, index, message: Some(message), logprobs });
            },
            None => {},
        }
        j = j + 1;
    }
    let r = GetChatCompletionResponse {
        id,
        outputs,
        created,
        model,
        system_fingerprint,
        usage,
        citations,
    };
    proof {
        assert forall|index: i32| appears(os, index) <==> exists|k: int|
            0 <= k < r.outputs@.len() && #[trigger] r.outputs@[k].index == index by {
            if appears(os, index) {
                let k = choose|k: int| 0 <= k < merged.len() && #[trigger] merged[k].index == index;
                assert(r.outputs@[k].index == index);
            }
            if exists|k: int| 0 <= k < r.outputs@.len() && #[trigger] r.outputs@[k].index == index {
                let k = choose|k: int| 0 <= k < r.outputs@.len() && #[trigger] r.outputs@[k].index == index;
                assert(merged[k].index == index);
            }
        }
        assert forall|a: int, b: int| 0 <= a < b < r.outputs@.len() implies
            r.outputs@[a].index < r.outputs@[b].index by {
            assert(r.outputs@[a].index == merged[a].index);
            assert(r.outputs@[b].index == merged[b].index);
        }
    }
    Some(r)
}

/// `r1` and `r2` hold the same values: equal identity, usage and citations,
/// and output records that agree index by index on every field's value.
pub open spec fn same_response(r1: GetChatCompletionResponse, r2: GetChatCompletionResponse) -> bool {
    &&& r1.id@ == r2.id@
    &&& r1.created == r2.created
    &&& r1.model@ == r2.model@
    &&& r1.system_fingerprint@ == r2.system_fingerprint@
    &&& r1.usage == r2.usage
    &&& r1.citations@ == r2.citations@
    &&& r1.outputs@.len() == r2.outputs@.len()
    &&& forall|k: int| 0 <= k < r1.outputs@.len() ==> {
        let (a, b) = (#[trigger] r1.outputs@[k], r2.outputs@[k]);
        &&& a.index == b.index
        &&& a.finish_reason == b.finish_reason
        &&& a.logprobs == b.logprobs
        &&& a.message matches Some(ma)
        &&& b.message matches Some(mb)
        &&& ma.content@ == mb.content@
        &&& ma.reasoning_content@ == mb.reasoning_content@
        &&& ma.encrypted_content@ == mb.encrypted_content@
        &&& ma.role == mb.role
        &&& ma.tool_calls@ == mb.tool_calls@
        &&& ma.citations@ == mb.citations@
    }
}

/// Whether some record of `s` is the one of output `index`.
pub open spec fn holds_index(s: Seq<CompletionOutput>, index: i32) -> bool {
    exists|k: int| 0 <= k < s.len() && #[trigger] s[k].index == index
}

/// Two ascending record lists over the same set of indices agree on their first `n` indices.
proof fn lemma_ascending_prefix(s1: Seq<CompletionOutput>, s2: Seq<CompletionOutput>, n: int)
    requires
        ascending(s1),
        ascending(s2),
        forall|index: i32| #[trigger] holds_index(s1, index) <==> holds_index(s2, index),
        0 <= n <= s1.len(),
        n <= s2.len(),
    ensures
        forall|j: int| 0 <= j < n ==> s1[j].index == s2[j].index,
    decreases n,
{
    if n > 0 {
        let k = n - 1;
        lemma_ascending_prefix(s1, s2, k);
        let v1 = s1[k].index;
        let v2 = s2[k].index;
        assert(holds_index(s1, v1));
        assert(holds_index(s2, v1));
        let m2 = choose|m: int| 0 <= m < s2.len() && #[trigger] s2[m].index == v1;
        if m2 < k {
            assert(s1[m2].index == s2[m2].index);
        }
        assert(holds_index(s2, v2));
        assert(holds_index(s1, v2));
        let m1 = choose|m: int| 0 <= m < s1.len() && #[trigger] s1[m].index == v2;
        if m1 < k {
            assert(s1[m1].index == s2[m1].index);
        }
        assert(v1 >= v2);
        assert(v2 >= v1);
    }
}

/// Assembly is deterministic: any two responses that the same chunk list
/// assembles to hold the same values.
pub proof fn lemma_assemble_deterministic(
    chunks: Seq<GetChatCompletionChunk>,
    r1: GetChatCompletionResponse,
    r2: GetChatCompletionResponse,
)
    requires
        chunks.len() > 0,
        assembled_from(chunks, r1),
        assembled_from(chunks, r2),
    ensures
        same_response(r1, r2),
{
    let os = flat_outputs(chunks);
    let (s1, s2) = (r1.outputs@, r2.outputs@);
    assert forall|index: i32| #[trigger] holds_index(s1, index) <==> holds_index(s2, index) by {
        assert(appears(os, index) <==> exists|k: int| 0 <= k < s1.len() && #[trigger] s1[k].index == index);
        assert(appears(os, index) <==> exists|k: int| 0 <= k < s2.len() && #[trigger] s2[k].index == index);
    }
    if s1.len() < s2.len() {
        lemma_ascending_prefix(s1, s2, s1.len() as int);
        let v = s2[s1.len() as int].index;
        assert(holds_index(s2, v));
        assert(holds_index(s1, v));
        let m = choose|m: int| 0 <= m < s1.len() && #[trigger] s1[m].index == v;
        assert(s2[m].index == v);
    } else if s2.len() < s1.len() {
        lemma_ascending_prefix(s2, s1, s2.len() as int);
        let v = s1[s2.len() as int].index;
        assert(holds_index(s1, v));
        assert(holds_index(s2, v));
        let m = choose|m: int| 0 <= m < s2.len() && #[trigger] s2[m].index == v;
        assert(s1[m].index == v);
    }
    lemma_ascending_prefix(s1, s2, s1.len() as int);
    assert forall|k: int| 0 <= k < s1.len() implies {
        let (a, b) = (#[trigger] s1[k], s2[k]);
        &&& a.index == b.index
        &&& a.finish_reason == b.finish_reason
        &&& a.logprobs == b.logprobs
        &&& a.message matches Some(ma)
        &&& b.message matches Some(mb)
        &&& ma.content@ == mb.content@
        &&& ma.reasoning_content@ == mb.reasoning_content@
        &&& ma.encrypted_content@ == mb.encrypted_content@
        &&& ma.role == mb.role
        &&& ma.tool_calls@ == mb.tool_calls@
        &&& ma.citations@ == mb.citations@
    } by {
        assert(output_merged(s1[k], os));
        assert(output_merged(s2[k], os));
    }
}

/// Append semantics: when two chunks each carry one update of the same
/// output, the assembled response has that one output, whose content and
/// reasoning are the first fragment followed by the second, with nothing between.
pub proof fn lemma_fragments_concatenate(
    c1: GetChatCompletionChunk,
    c2: GetChatCompletionChunk,
    r: GetChatCompletionResponse,
)
    requires
        c1.outputs@.len() == 1,
        c2.outputs@.len() == 1,
        c1.outputs@[0].index == c2.outputs@[0].index,
        assembled_from(seq![c1, c2], r),
    ensures
        r.outputs@.len() == 1,
        r.outputs@[0].index == c1.outputs@[0].index,
        r.outputs@[0].message matches Some(m) && m.content@ == content_piece(c1.outputs@[0])
            + content_piece(c2.outputs@[0]) && m.reasoning_content@ == reasoning_piece(c1.outputs@[0])
            + reasoning_piece(c2.outputs@[0]),
{
    let chunks = seq![c1, c2];
    let (o1, o2) = (c1.outputs@[0], c2.outputs@[0]);
    let index = o1.index;
    assert(chunks.drop_last() =~= seq![c1]);
    assert(seq![c1].drop_last() =~= Seq::<GetChatCompletionChunk>::empty());
    let os = flat_outputs(chunks);
    assert(seq![c1].last() == c1);
    assert(chunks.last() == c2);
    assert(c1.outputs@ =~= seq![o1]);
    assert(c2.outputs@ =~= seq![o2]);
    assert(flat_outputs(Seq::<GetChatCompletionChunk>::empty()) =~= Seq::<CompletionOutputChunk>::empty());
    assert(flat_outputs(seq![c1]) =~= seq![o1]);
    assert(os =~= seq![o1, o2]);
    assert(os.drop_last() =~= seq![o1]);
    assert(os.last() == o2);
    assert(seq![o1].drop_last() =~= Seq::<CompletionOutputChunk>::empty());
    assert(seq![o1].last() == o1);
    let none = Seq::<CompletionOutputChunk>::empty();
    assert(content_of(none, index) =~= Seq::<char>::empty());
    assert(reasoning_of(none, index) =~= Seq::<char>::empty());
    assert(content_of(seq![o1], index) =~= content_piece(o1));
    assert(reasoning_of(seq![o1], index) =~= reasoning_piece(o1));
    assert(content_of(os, index) =~= content_piece(o1) + content_piece(o2));
    assert(reasoning_of(os, index) =~= reasoning_piece(o1) + reasoning_piece(o2));
    assert(appears(os, index)) by {
        assert(os[0].index == index);
    }
    let k = choose|k: int| 0 <= k < r.outputs@.len() && #[trigger] r.outputs@[k].index == index;
    assert forall|j: int| 0 <= j < r.outputs@.len() implies r.outputs@[j].index == index by {
        let v = r.outputs@[j].index;
        assert(exists|m: int| 0 <= m < r.outputs@.len() && #[trigger] r.outputs@[m].index == v);
        assert(appears(os, v));
        let w = choose|w: int| 0 <= w < os.len() && #[trigger] os[w].index == v;
        assert(w == 0 || w == 1);
    }
    if r.outputs@.len() > 1 {
        assert(r.outputs@[0].index < r.outputs@[1].index);
    }
    assert(output_merged(r.outputs@[0], os));
}

/// Last chunk wins for usage: with two chunks carrying usage `U1` then `U2`,
/// the assembled usage is exactly `U2`.
pub proof fn lemma_usage_from_last_chunk(
    c1: GetChatCompletionChunk,
    c2: GetChatCompletionChunk,
    r: GetChatCompletionResponse,
)
    requires
        assembled_from(seq![c1, c2], r),
    ensures
        r.usage == c2.usage,
{
}

/// Role non-clobber: updates of an output that set no role (role 0) leave the
/// role accumulated before them unchanged.
pub proof fn lemma_unset_role_keeps_role(
    h: Seq<CompletionOutputChunk>,
    later: Seq<CompletionOutputChunk>,
    index: i32,
)
    requires
        forall|j: int| 0 <= j < later.len() && (#[trigger] later[j]).index == index ==> role_piece(later[j])
            == ROLE_UNSET,
    ensures
        role_of(h + later, index) == role_of(h, index),
    decreases later.len(),
{
    if later.len() == 0 {
        assert(h + later =~= h);
    } else {
        let prefix = later.drop_last();
        assert forall|j: int| 0 <= j < prefix.len() && (#[trigger] prefix[j]).index == index implies role_piece(
            prefix[j],
        ) == ROLE_UNSET by {
            assert(later[j] == prefix[j]);
        }
        lemma_unset_role_keeps_role(h, prefix, index);
        assert((h + later).drop_last() =~= h + prefix);
        assert((h + later).last() == later[later.len() - 1]);
    }
}

} // verus!
