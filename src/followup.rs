//! Turning the outputs of a completed response into request messages, to be
//! sent back as conversation history in a follow-up turn.
use vstd::prelude::*;
use crate::api::{CompletionMessage, CompletionOutput, Content, Message};
use crate::assembler::reversed;

verus! {

/// The messages of the outputs of `outs` that have one, in order.
pub open spec fn kept_messages(outs: Seq<CompletionOutput>) -> Seq<CompletionMessage>
    decreases outs.len(),
{
    if outs.len() == 0 {
        Seq::empty()
    } else {
        match outs.last().message {
            Some(m) => kept_messages(outs.drop_last()).push(m),
            None => kept_messages(outs.drop_last()),
        }
    }
}

/// `msg` is the request message for the completed message `m`: its content as
/// a single text part, its reasoning, role, tool calls and encrypted content
/// copied, and no name nor tool-call id.
pub open spec fn message_for(msg: Message, m: CompletionMessage) -> bool {
    &&& msg.content@ == seq![Content::Text(m.content)]
    &&& msg.reasoning_content == Some(m.reasoning_content)
    &&& msg.role == m.role
    &&& msg.name@.len() == 0
    &&& msg.tool_calls == m.tool_calls
    &&& msg.encrypted_content == Some(m.encrypted_content)
    &&& msg.tool_call_id is None
}

/// Converts completed outputs into request messages, one per output that has
/// a message, in order; outputs without a message are skipped.
pub fn messages_from_outputs(outputs: Vec<CompletionOutput>) -> (r: Vec<Message>)
    ensures
        r@.len() == kept_messages(outputs@).len(),
        forall|k: int| 0 <= k < r@.len() ==> message_for(#[trigger] r@[k], kept_messages(outputs@)[k]),
{
    let ghost all = outputs@;
    let n = outputs.len();
    let mut pending = reversed(outputs);
    let mut messages: Vec<Message> = Vec::new();
    let mut j: usize = 0;
    proof {
        assert(all.take(0) =~= Seq::<CompletionOutput>::empty());
    }
    while j < n
        invariant
            n == all.len(),
            j <= n,
            pending@.len() == n - j,
            forall|k: int| 0 <= k < n - j ==> pending@[k] == all[n - 1 - k],
            messages@.len() == kept_messages(all.take(j as int)).len(),
            forall|k: int| 0 <= k < messages@.len() ==> message_for(
                #[trigger] messages@[k],
                kept_messages(all.take(j as int))[k],
            ),
        decreases n - j,
    {
        let ghost before = pending@;
        let ghost prev = kept_messages(all.take(j as int));
        match pending.pop() {
            Some(out) => {
                proof {
                    assert(out == all[j as int]);
                    assert(all.take(j + 1).drop_last() =~= all.take(j as int));
                    assert(all.take(j + 1).last() == out);
                }
                match out.message {
                    Some(m) => {
                        let ghost gm = m;
                        let mut content: Vec<Content> = Vec::new();
                        content.push(Content::Text(m.content));
                        let msg = Message {
                            content,
                            reasoning_content: Some(m.reasoning_content),
                            role: m.role,
                            name: String::new(),
                            tool_calls: m.tool_calls,
                            encrypted_content: Some(m.encrypted_content),
                            tool_call_id: None,
                        };
                        proof {
                            assert(msg.content@ =~= seq![Content::Text(gm.content)]);
                        }
                        messages.push(msg);
                        proof {
                            assert forall|k: int| 0 <= k < messages@.len() implies message_for(
                                #[trigger] messages@[k],
                                kept_messages(all.take(j + 1))[k],
                            ) by {
                                if k < prev.len() {
                                    assert(kept_messages(all.take(j + 1))[k] == prev[k]);
                                }
                            }
                        }
                    },
                    None => {},
                }
            },
            None => {},
        }
        j = j + 1;
    }
    proof {
        assert(all.take(n as int) =~= all);
    }
    messages
}

} // verus!
