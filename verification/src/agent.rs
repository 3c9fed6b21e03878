//! Conversation history and the agent turn loop's decisions.
//!
//! A history is a sequence of role-tagged turns.  Its standing invariant:
//! every assistant turn that contains tool-use blocks and is not the final
//! turn is followed by exactly one user turn made of tool-result blocks
//! whose ids cover the tool-use ids, as a multiset.  The functions here
//! maintain that invariant; the surrounding program drives the loop and
//! performs the LLM and connector I/O.

use vstd::prelude::*;
use vstd::string::*;

use crate::text::join_lines;
use crate::text::lemma_join_lines_snoc;
use crate::tools::ToolInput;

verus! {

/// The round budget of one agent turn.
pub const MAX_TOOL_ROUNDS: usize = 10;

/// The bound on a conversation's length, in turns.
pub const MAX_HISTORY_MESSAGES: usize = 40;

/// Who speaks a turn.
pub enum Role {
    User,
    Assistant,
}

/// One typed unit inside a turn.  A tool-use block carries its structured
/// input and, in `raw_input`, the serialized form the wire carried, which
/// the audit stream quotes verbatim.
pub enum ContentBlock {
    Text { text: String },
    ToolUse { id: String, name: String, input: ToolInput, raw_input: String },
    ToolResult { tool_use_id: String, content: String, is_error: bool },
}

/// One turn of a conversation.
pub struct Message {
    pub role: Role,
    pub content: Vec<ContentBlock>,
}

/// Why the LLM stopped.
pub enum StopReason {
    EndTurn,
    ToolUse,
    MaxTokens,
    Other(String),
}

/// A complete LLM response.
pub struct LlmResponse {
    pub stop_reason: StopReason,
    pub content: Vec<ContentBlock>,
    pub usage_input: i64,
    pub usage_output: i64,
}

/// Error from the LLM transport.
pub enum LlmError {
    Http(crate::http::HttpError),
    Json(String),
    Api { status: u16, message: String },
    RateLimit { retry_after: Option<u64> },
}

// ── The history invariant ───────────────────────────────────────────────────

/// The tool-use ids of a turn's blocks, in order.
pub open spec fn tool_use_ids(blocks: Seq<ContentBlock>) -> Seq<Seq<char>>
    decreases blocks.len(),
{
    if blocks.len() == 0 {
        Seq::empty()
    } else {
        match blocks[0] {
            ContentBlock::ToolUse { id, .. } => seq![id@] + tool_use_ids(blocks.skip(1)),
            _ => tool_use_ids(blocks.skip(1)),
        }
    }
}

/// The tool-result ids of a turn's blocks, in order.
pub open spec fn tool_result_ids(blocks: Seq<ContentBlock>) -> Seq<Seq<char>>
    decreases blocks.len(),
{
    if blocks.len() == 0 {
        Seq::empty()
    } else {
        match blocks[0] {
            ContentBlock::ToolResult { tool_use_id, .. } => seq![tool_use_id@] + tool_result_ids(
                blocks.skip(1),
            ),
            _ => tool_result_ids(blocks.skip(1)),
        }
    }
}

pub open spec fn has_tool_use(blocks: Seq<ContentBlock>) -> bool {
    tool_use_ids(blocks).len() > 0
}

/// Every block is a tool result.
pub open spec fn all_tool_results(blocks: Seq<ContentBlock>) -> bool {
    forall|i: int| 0 <= i < blocks.len() ==> (#[trigger] blocks[i]) is ToolResult
}

/// The user turn `user` answers the assistant turn `asst`: only tool-result
/// blocks, their ids covering the assistant's tool-use ids as a multiset.
pub open spec fn answers_tool_uses(asst: Seq<ContentBlock>, user: Seq<ContentBlock>) -> bool {
    &&& all_tool_results(user)
    &&& tool_result_ids(user).to_multiset() == tool_use_ids(asst).to_multiset()
}

/// The history invariant: every assistant turn with tool uses that already
/// has a successor is followed by exactly one user turn answering it.
pub open spec fn history_wf(h: Seq<Message>) -> bool {
    forall|i: int|
        0 <= i < h.len() - 1 && (#[trigger] h[i].role) is Assistant && has_tool_use(h[i].content@)
            ==> h[i + 1].role is User && answers_tool_uses(h[i].content@, h[i + 1].content@)
}

/// Is the last turn an assistant turn still waiting for its tool results?
pub open spec fn has_pending_tools(h: Seq<Message>) -> bool {
    h.len() > 0 && h.last().role is Assistant && has_tool_use(h.last().content@)
}

// ── History operations ──────────────────────────────────────────────────────

/// Append an inbound user message as a text turn.
pub fn push_user_text(h: &mut Vec<Message>, text: String)
    requires
        history_wf(old(h)@),
        !has_pending_tools(old(h)@),
    ensures
        final(h)@.len() == old(h)@.len() + 1,
        final(h)@.take(old(h)@.len() as int) == old(h)@,
        final(h)@.last().role is User,
        final(h)@.last().content@ == seq![ContentBlock::Text { text }],
        history_wf(final(h)@),
        !has_pending_tools(final(h)@),
{
    let mut blocks: Vec<ContentBlock> = Vec::new();
    blocks.push(ContentBlock::Text { text });
    let msg = Message { role: Role::User, content: blocks };
    h.push(msg);
    proof {
        assert(h@.take(old(h)@.len() as int) =~= old(h)@);
        assert(h@.last().content@ =~= seq![ContentBlock::Text { text }]);
        assert forall|i: int|
            0 <= i < h@.len() - 1 && (#[trigger] h@[i].role) is Assistant && has_tool_use(
                h@[i].content@,
            ) implies h@[i + 1].role is User && answers_tool_uses(
            h@[i].content@,
            h@[i + 1].content@,
        ) by {
            if i < old(h)@.len() - 1 {
                assert(h@[i] == old(h)@[i]);
                assert(h@[i + 1] == old(h)@[i + 1]);
            } else {
                assert(h@[i] == old(h)@.last());
            }
        }
    }
}

/// What one LLM round leads to next.
pub enum TurnStep {
    /// Finalize the visible message and return: end of turn or token cap.
    Finish,
    /// Execute the tool uses of the turn just appended, then call again.
    ExecuteTools,
    /// Fail the turn with this error text.
    Fail(String),
}

/// Append the LLM's turn and decide the next step from its stop reason.
pub fn apply_response(h: &mut Vec<Message>, content: Vec<ContentBlock>, stop_reason: StopReason)
    -> (step: TurnStep)
    requires
        history_wf(old(h)@),
        !has_pending_tools(old(h)@),
    ensures
        final(h)@ == old(h)@.push(Message { role: Role::Assistant, content }),
        history_wf(final(h)@),
        match stop_reason {
            StopReason::EndTurn => step is Finish,
            StopReason::MaxTokens => step is Finish,
            StopReason::ToolUse => step is ExecuteTools,
            StopReason::Other(reason) => step matches TurnStep::Fail(m) && m@
                == "unexpected stop reason: "@ + reason@,
        },
{
    let msg = Message { role: Role::Assistant, content };
    h.push(msg);
    proof {
        assert forall|i: int|
            0 <= i < h@.len() - 1 && (#[trigger] h@[i].role) is Assistant && has_tool_use(
                h@[i].content@,
            ) implies h@[i + 1].role is User && answers_tool_uses(
            h@[i].content@,
            h@[i + 1].content@,
        ) by {
            if i < old(h)@.len() - 1 {
                assert(h@[i] == old(h)@[i]);
                assert(h@[i + 1] == old(h)@[i + 1]);
            } else {
                assert(h@[i] == old(h)@.last());
            }
        }
    }
    match stop_reason {
        StopReason::EndTurn => TurnStep::Finish,
        StopReason::MaxTokens => TurnStep::Finish,
        StopReason::ToolUse => TurnStep::ExecuteTools,
        StopReason::Other(reason) => TurnStep::Fail(
            String::from_str("unexpected stop reason: ").concat(reason.as_str()),
        ),
    }
}

/// Append the synthetic user turn that carries the tool results for the
/// assistant turn just appended.  This is what keeps the history invariant:
/// the results' ids must cover that turn's tool-use ids.
pub fn push_tool_results(h: &mut Vec<Message>, results: Vec<ContentBlock>)
    requires
        history_wf(old(h)@),
        old(h)@.len() > 0,
        old(h)@.last().role is Assistant,
        all_tool_results(results@),
        tool_result_ids(results@).to_multiset() == tool_use_ids(
            old(h)@.last().content@,
        ).to_multiset(),
    ensures
        final(h)@ == old(h)@.push(Message { role: Role::User, content: results }),
        history_wf(final(h)@),
        !has_pending_tools(final(h)@),
{
    let msg = Message { role: Role::User, content: results };
    h.push(msg);
    proof {
        assert forall|i: int|
            0 <= i < h@.len() - 1 && (#[trigger] h@[i].role) is Assistant && has_tool_use(
                h@[i].content@,
            ) implies h@[i + 1].role is User && answers_tool_uses(
            h@[i].content@,
            h@[i + 1].content@,
        ) by {
            if i < old(h)@.len() - 1 {
                assert(h@[i] == old(h)@[i]);
                assert(h@[i + 1] == old(h)@[i + 1]);
            } else {
                assert(h@[i] == old(h)@.last());
                assert(h@[i + 1] == h@.last());
            }
        }
    }
}

/// Drop the oldest turns until the history is within the bound.
pub fn trim_history(h: &mut Vec<Message>, max: usize)
    requires
        history_wf(old(h)@),
    ensures
        final(h)@.len() <= max || old(h)@.len() <= max,
        old(h)@.len() > max ==> final(h)@ == old(h)@.skip(old(h)@.len() - max),
        old(h)@.len() <= max ==> final(h)@ == old(h)@,
        history_wf(final(h)@),
{
    let n = h.len();
    if n <= max {
        return;
    }
    let drop_count = n - max;
    let mut i: usize = 0;
    while i < drop_count
        invariant
            i <= drop_count,
            drop_count == n - max,
            n == old(h)@.len(),
            n > max,
            h@ == old(h)@.skip(i as int),
        decreases drop_count - i,
    {
        let _ = h.remove(0);
        proof {
            assert(old(h)@.skip(i as int).remove(0) =~= old(h)@.skip(i + 1));
        }
        i = i + 1;
    }
    proof {
        let k = (n - max) as int;
        assert(h@ == old(h)@.skip(k));
        assert forall|i: int|
            0 <= i < h@.len() - 1 && (#[trigger] h@[i].role) is Assistant && has_tool_use(
                h@[i].content@,
            ) implies h@[i + 1].role is User && answers_tool_uses(
            h@[i].content@,
            h@[i + 1].content@,
        ) by {
            assert(h@[i] == old(h)@[i + k]);
            assert(h@[i + 1] == old(h)@[i + k + 1]);
        }
    }
}

// ── Text assembly ───────────────────────────────────────────────────────────

/// The texts of a turn's text blocks, in order.
pub open spec fn text_parts(blocks: Seq<ContentBlock>) -> Seq<Seq<char>>
    decreases blocks.len(),
{
    if blocks.len() == 0 {
        Seq::empty()
    } else {
        match blocks[0] {
            ContentBlock::Text { text } => seq![text@] + text_parts(blocks.skip(1)),
            _ => text_parts(blocks.skip(1)),
        }
    }
}

/// The visible text of a turn: its text blocks joined with newlines, or a
/// placeholder when it has none.
pub open spec fn extracted_text(blocks: Seq<ContentBlock>) -> Seq<char> {
    if text_parts(blocks).len() == 0 {
        "(no text response)"@
    } else {
        join_lines(text_parts(blocks))
    }
}

/// The text parts of a prefix, extended by one block.
proof fn lemma_text_parts_take_step(blocks: Seq<ContentBlock>, i: int)
    requires
        0 <= i < blocks.len(),
    ensures
        text_parts(blocks.take(i + 1)) == (match blocks[i] {
            ContentBlock::Text { text } => text_parts(blocks.take(i)).push(text@),
            _ => text_parts(blocks.take(i)),
        }),
    decreases i,
{
    let a = blocks.take(i + 1);
    let b = blocks.take(i);
    if i == 0 {
        assert(a[0] == blocks[0]);
        assert(a.skip(1) =~= Seq::<ContentBlock>::empty());
        assert(b =~= Seq::<ContentBlock>::empty());
        assert(text_parts(Seq::<ContentBlock>::empty()) =~= Seq::<Seq<char>>::empty());
        match blocks[0] {
            ContentBlock::Text { text } => {
                assert(text_parts(a) == seq![text@] + text_parts(a.skip(1)));
                assert(text_parts(a) =~= seq![text@]);
                assert(text_parts(b).push(text@) =~= seq![text@]);
            },
            _ => {},
        }
    } else {
        lemma_text_parts_take_step(blocks.skip(1), i - 1);
        assert(a[0] == blocks[0]);
        assert(a.skip(1) =~= blocks.skip(1).take(i));
        assert(b[0] == blocks[0]);
        assert(b.skip(1) =~= blocks.skip(1).take(i - 1));
        assert(blocks.skip(1)[i - 1] == blocks[i]);
        match blocks[i] {
            ContentBlock::Text { text } => {
                match blocks[0] {
                    ContentBlock::Text { text: t0 } => {
                        assert(text_parts(a) == seq![t0@] + text_parts(blocks.skip(1).take(i)));
                        assert(text_parts(b) == seq![t0@] + text_parts(blocks.skip(1).take(i - 1)));
                        assert(text_parts(a) =~= text_parts(b).push(text@));
                    },
                    _ => {
                        assert(text_parts(a) == text_parts(blocks.skip(1).take(i)));
                        assert(text_parts(b) == text_parts(blocks.skip(1).take(i - 1)));
                        assert(text_parts(a) =~= text_parts(b).push(text@));
                    },
                }
            },
            _ => {
                match blocks[0] {
                    ContentBlock::Text { text: t0 } => {
                        assert(text_parts(a) == seq![t0@] + text_parts(blocks.skip(1).take(i)));
                        assert(text_parts(b) == seq![t0@] + text_parts(blocks.skip(1).take(i - 1)));
                        assert(text_parts(a) =~= text_parts(b));
                    },
                    _ => {
                        assert(text_parts(a) == text_parts(blocks.skip(1).take(i)));
                        assert(text_parts(b) == text_parts(blocks.skip(1).take(i - 1)));
                        assert(text_parts(a) =~= text_parts(b));
                    },
                }
            },
        }
    }
}

/// Extract the visible text of a turn.
pub fn extract_text(content: &Vec<ContentBlock>) -> (r: String)
    ensures
        r@ == extracted_text(content@),
{
    let n = content.len();
    let mut out: Vec<char> = Vec::new();
    let mut any = false;
    let mut i: usize = 0;
    proof {
        assert(content@.take(0) =~= Seq::<ContentBlock>::empty());
    }
    while i < n
        invariant
            i <= n,
            n == content@.len(),
            any <==> text_parts(content@.take(i as int)).len() > 0,
            out@ == join_lines(text_parts(content@.take(i as int))),
        decreases n - i,
    {
        let ghost parts = text_parts(content@.take(i as int));
        proof {
            lemma_text_parts_take_step(content@, i as int);
        }
        match &content[i] {
            ContentBlock::Text { text } => {
                proof {
                    lemma_join_lines_snoc(parts, text@);
                }
                if any {
                    out.push('\n');
                    proof {
                        assert(out@ =~= join_lines(parts) + seq!['\n']);
                    }
                }
                crate::text::push_str_chars(text.as_str(), &mut out);
                proof {
                    if parts.len() == 0 {
                        assert(out@ =~= text@);
                    } else {
                        assert(seq!['\n'] =~= "\n"@) by {
                            reveal_strlit("\n");
                        }
                        assert(out@ =~= join_lines(parts) + "\n"@ + text@);
                    }
                }
                any = true;
            },
            _ => {},
        }
        i = i + 1;
    }
    proof {
        assert(content@.take(n as int) =~= content@);
    }
    if any {
        crate::text::chars_to_string(&out)
    } else {
        String::from_str("(no text response)")
    }
}

/// Ids appear exactly when a tool-use block does.
proof fn lemma_tool_use_ids_nonempty(blocks: Seq<ContentBlock>)
    ensures
        (tool_use_ids(blocks).len() > 0) <==> (exists|i: int|
            0 <= i < blocks.len() && (#[trigger] blocks[i]) is ToolUse),
    decreases blocks.len(),
{
    if blocks.len() > 0 {
        lemma_tool_use_ids_nonempty(blocks.skip(1));
        if blocks[0] is ToolUse {
        } else {
            assert forall|i: int|
                0 <= i < blocks.len() && (#[trigger] blocks[i]) is ToolUse implies tool_use_ids(
                blocks,
            ).len() > 0 by {
                assert(blocks.skip(1)[i - 1] == blocks[i]);
            }
            if exists|i: int| 0 <= i < blocks.skip(1).len() && (#[trigger] blocks.skip(1)[i])
                is ToolUse {
                let i = choose|i: int|
                    0 <= i < blocks.skip(1).len() && (#[trigger] blocks.skip(1)[i]) is ToolUse;
                assert(blocks[i + 1] is ToolUse);
            }
        }
    }
}

/// Is the last turn an assistant turn still waiting for its tool results?
pub fn pending_tools(h: &Vec<Message>) -> (r: bool)
    ensures
        r == has_pending_tools(h@),
{
    let n = h.len();
    if n == 0 {
        return false;
    }
    let last = &h[n - 1];
    match last.role {
        Role::Assistant => {
            let m = last.content.len();
            let mut i: usize = 0;
            while i < m
                invariant
                    i <= m,
                    m == last.content@.len(),
                    h@.len() > 0,
                    last == h@.last(),
                    h@.last().role is Assistant,
                    forall|j: int| 0 <= j < i ==> !((#[trigger] last.content@[j]) is ToolUse),
                decreases m - i,
            {
                match &last.content[i] {
                    ContentBlock::ToolUse { .. } => {
                        proof {
                            lemma_tool_use_ids_nonempty(last.content@);
                        }
                        return true;
                    },
                    _ => {},
                }
                i = i + 1;
            }
            proof {
                lemma_tool_use_ids_nonempty(last.content@);
            }
            false
        },
        Role::User => false,
    }
}

/// Build the tool-result block for one invocation outcome, bound to the
/// original tool-use id; a failed outcome is marked as an error.
pub fn tool_result_from(tool_use_id: &str, outcome: Result<String, String>) -> (b: ContentBlock)
    ensures
        ({
            &&& b matches ContentBlock::ToolResult { tool_use_id: t, content: c, is_error: e }
                && t@ == tool_use_id@ && (match outcome {
                Ok(s) => c == s && !e,
                Err(s) => c == s && e,
            })
        }),
{
    match outcome {
        Ok(content) => ContentBlock::ToolResult {
            tool_use_id: String::from_str(tool_use_id),
            content,
            is_error: false,
        },
        Err(content) => ContentBlock::ToolResult {
            tool_use_id: String::from_str(tool_use_id),
            content,
            is_error: true,
        },
    }
}

// ── Streaming and retry decisions ───────────────────────────────────────────

/// What the streaming callback does with the accumulated buffer.
pub enum StreamAction {
    /// Too soon, or too little text: keep accumulating.
    Hold,
    /// Send the buffer as a fresh message and remember its id.
    SendNew,
    /// Edit the already-sent message to the buffer.
    Edit,
}

/// Throttle decision for one streamed delta: edits go out at most every
/// 500 ms, and the first message only once the buffer holds at least 10
/// characters.
pub fn stream_delta_action(buffer_len: usize, has_message_id: bool, elapsed_ms: u64) -> (r:
    StreamAction)
    ensures
        elapsed_ms < 500 ==> r is Hold,
        elapsed_ms >= 500 && has_message_id ==> r is Edit,
        elapsed_ms >= 500 && !has_message_id && buffer_len >= 10 ==> r is SendNew,
        elapsed_ms >= 500 && !has_message_id && buffer_len < 10 ==> r is Hold,
{
    if elapsed_ms < 500 {
        StreamAction::Hold
    } else if has_message_id {
        StreamAction::Edit
    } else if buffer_len >= 10 {
        StreamAction::SendNew
    } else {
        StreamAction::Hold
    }
}

/// How long to sleep after a rate-limit signal: the vendor's hint, or 10
/// seconds without one.
pub fn rate_limit_wait(retry_after: &Option<u64>) -> (r: u64)
    ensures
        match retry_after {
            Some(s) => r == s,
            None => r == 10,
        },
{
    match retry_after {
        Some(s) => *s,
        None => 10,
    }
}

} // verus!
