//! The conversation orchestrator's state: the growing transcript and the
//! three queues it drains every iteration — proposed commands, command
//! results, and operator-supplied free text. The functions here are the
//! decisions of the per-turn protocol; the transport and the console drive
//! them from outside.

use crate::cmd_parse::{classify_cmd, classify_spec, CmdKind};
use crate::model::{code_tag, extract_blocks_spec, extract_code_blocks, extract_text_blocks, text_tag};
use crate::text::{join_lines, join_text, trim_spec, trim_text};
use std::collections::VecDeque;
use vstd::prelude::*;
use vstd::string::StringExecFns;

verus! {

/// Who speaks a transcript message.
#[derive(Debug, Clone, Copy, PartialEq, Eq, Structural)]
pub enum Role {
    System,
    User,
    Assistant,
}

/// One role-tagged message of the conversation transcript.
#[derive(Debug, Clone)]
pub struct Message {
    pub role: Role,
    pub content: String,
}

/// The mathematical shape of a message: its role and its characters.
#[verifier::ext_equal]
pub ghost struct MessageView {
    pub role: Role,
    pub content: Seq<char>,
}

/// The view of a message with the given role and content.
pub open spec fn msg_view(role: Role, content: Seq<char>) -> MessageView {
    MessageView { role, content }
}

impl View for Message {
    type V = MessageView;

    open spec fn view(&self) -> MessageView {
        MessageView { role: self.role, content: self.content@ }
    }
}

impl DeepView for Message {
    type V = MessageView;

    open spec fn deep_view(&self) -> MessageView {
        self@
    }
}

/// What can end a turn early: the backend produced no text at all, or it
/// attempted a structured tool call, which this protocol does not support.
#[derive(Debug, Clone, Copy, PartialEq, Eq, Structural)]
pub enum TurnError {
    EmptyTurn,
    ToolCallUnsupported,
}

/// One event of the backend's chunk stream, as the orchestrator sees it.
pub enum StreamEvent {
    Start,
    Chunk(String),
    ToolCallChunk,
    ReasoningChunk(String),
    End,
}

/// The orchestrator's state: the transcript, whose first message is the
/// immutable system prompt, and the three queues drained every iteration.
pub struct ChatState {
    pub transcript: Vec<Message>,
    pub pending_commands: VecDeque<String>,
    pub pending_results: VecDeque<(String, String)>,
    pub pending_user_input: VecDeque<String>,
}

impl ChatState {
    /// The system-prompt message exists and stands first.
    pub open spec fn wf(self) -> bool {
        self.transcript.deep_view().len() >= 1 && self.transcript.deep_view()[0].role
            == Role::System
    }

    /// A fresh conversation: the transcript holds the system prompt alone and
    /// every queue is empty.
    pub fn new(system_prompt: &str) -> (s: ChatState)
        ensures
            s.wf(),
            s.transcript.deep_view() =~= seq![msg_view(Role::System, system_prompt@)],
            s.pending_commands@.len() == 0,
            s.pending_results@.len() == 0,
            s.pending_user_input@.len() == 0,
    {
        let mut transcript: Vec<Message> = Vec::new();
        transcript.push(Message { role: Role::System, content: String::from_str(system_prompt) });
        let s = ChatState {
            transcript,
            pending_commands: VecDeque::new(),
            pending_results: VecDeque::new(),
            pending_user_input: VecDeque::new(),
        };
        proof {
            assert(s.transcript.deep_view() =~= seq![msg_view(Role::System, system_prompt@)]);
        }
        s
    }

    /// Work remains for this iteration: a command awaits execution or a
    /// result awaits reporting.
    pub fn has_pending_commands(&self) -> (b: bool)
        ensures
            b == (self.pending_commands@.len() > 0 || self.pending_results@.len() > 0),
    {
        self.pending_commands.len() > 0 || self.pending_results.len() > 0
    }

    /// Takes one line of operator input: an empty line is not accepted and
    /// changes nothing; any other line joins the transcript as a user
    /// message.
    pub fn accept_user_input(&mut self, input: &str) -> (accepted: bool)
        requires
            old(self).wf(),
        ensures
            final(self).wf(),
            accepted == (input@.len() != 0),
            !accepted ==> *final(self) == *old(self),
            accepted ==> final(self).transcript.deep_view() == old(self).transcript.deep_view().push(
                msg_view(Role::User, input@),
            ),
            final(self).pending_commands == old(self).pending_commands,
            final(self).pending_results == old(self).pending_results,
            final(self).pending_user_input == old(self).pending_user_input,
    {
        if input.is_empty() {
            false
        } else {
            self.transcript.push(Message { role: Role::User, content: String::from_str(input) });
            proof {
                assert(self.transcript.deep_view() =~= old(self).transcript.deep_view().push(
                    msg_view(Role::User, input@),
                ));
            }
            true
        }
    }

    /// Consumes one completed turn of backend text. An empty turn is a fatal
    /// condition for the turn and changes nothing. Otherwise every fenced
    /// command block joins the pending-command queue in order of appearance,
    /// and the fenced text blocks, joined with newlines, are returned for
    /// display.
    pub fn ingest_turn(&mut self, turn_text: &str) -> (r: Result<String, TurnError>)
        requires
            old(self).wf(),
        ensures
            final(self).wf(),
            turn_text@.len() == 0 ==> r == Err::<String, TurnError>(TurnError::EmptyTurn)
                && *final(self) == *old(self),
            turn_text@.len() != 0 ==> (r matches Ok(d) && d@ == join_lines(
                extract_blocks_spec(turn_text@, text_tag()),
            ) && final(self).pending_commands.deep_view() == old(
                self,
            ).pending_commands.deep_view() + extract_blocks_spec(turn_text@, code_tag())),
            final(self).transcript == old(self).transcript,
            final(self).pending_results == old(self).pending_results,
            final(self).pending_user_input == old(self).pending_user_input,
    {
        if turn_text.is_empty() {
            Err(TurnError::EmptyTurn)
        } else {
            let blocks = extract_code_blocks(turn_text);
            let ghost orig = *self;
            let n = blocks.len();
            let mut i: usize = 0;
            proof {
                assert(orig.pending_commands@ + blocks@.take(0) =~= orig.pending_commands@);
            }
            while i < n
                invariant
                    n == blocks@.len(),
                    i <= n,
                    blocks.deep_view() == extract_blocks_spec(turn_text@, code_tag()),
                    self.pending_commands@ == orig.pending_commands@ + blocks@.take(i as int),
                    self.transcript == orig.transcript,
                    self.pending_results == orig.pending_results,
                    self.pending_user_input == orig.pending_user_input,
                decreases n - i,
            {
                let b = blocks[i].clone();
                self.pending_commands.push_back(b);
                proof {
                    assert(self.pending_commands@ =~= orig.pending_commands@ + blocks@.take(
                        i + 1,
                    ));
                }
                i += 1;
            }
            proof {
                assert(blocks@.take(n as int) =~= blocks@);
                assert(self.pending_commands@ == orig.pending_commands@ + blocks@);
                assert(self.pending_commands.deep_view() =~= orig.pending_commands.deep_view()
                    + blocks.deep_view());
            }
            let texts = extract_text_blocks(turn_text);
            Ok(join_text(&texts))
        }
    }

    /// Takes the next proposed command off the front of the queue, trims it,
    /// and says whether its risk class requires the operator's confirmation:
    /// only a recognised read-only command runs unasked.
    pub fn next_command(&mut self) -> (r: Option<(String, bool)>)
        requires
            old(self).wf(),
        ensures
            final(self).wf(),
            old(self).pending_commands@.len() == 0 ==> r is None
                && final(self).pending_commands@ == old(self).pending_commands@,
            old(self).pending_commands@.len() != 0 ==> (r matches Some(p) && p.0@ == trim_spec(
                old(self).pending_commands.deep_view()[0],
            ) && p.1 == (classify_spec(p.0@) != CmdKind::Read)
                && final(self).pending_commands.deep_view() == old(
                self,
            ).pending_commands.deep_view().drop_first()),
            final(self).transcript == old(self).transcript,
            final(self).pending_results == old(self).pending_results,
            final(self).pending_user_input == old(self).pending_user_input,
    {
        let front = self.pending_commands.pop_front();
        match front {
            None => None,
            Some(code) => {
                let trimmed = trim_text(code.as_str());
                let kind = classify_cmd(trimmed.as_str());
                let need_ack = !(matches!(kind, CmdKind::Read));
                proof {
                    assert(self.pending_commands.deep_view() =~= old(
                        self,
                    ).pending_commands.deep_view().drop_first());
                    assert(trimmed@ == trim_spec(old(self).pending_commands.deep_view()[0]));
                }
                Some((trimmed, need_ack))
            },
        }
    }

    /// Records the output of an executed command: exactly one pair joins the
    /// back of the results queue.
    pub fn record_execution(&mut self, code: String, output: String)
        requires
            old(self).wf(),
        ensures
            final(self).wf(),
            final(self).pending_results.deep_view() == old(self).pending_results.deep_view().push(
                (code@, output@),
            ),
            final(self).transcript == old(self).transcript,
            final(self).pending_commands == old(self).pending_commands,
            final(self).pending_user_input == old(self).pending_user_input,
    {
        self.pending_results.push_back((code, output));
        proof {
            assert(self.pending_results.deep_view() =~= old(
                self,
            ).pending_results.deep_view().push((code@, output@)));
        }
    }

    /// Records a declined command: exactly one decline entry joins the
    /// results queue, and the supplied reason, where it is not empty, joins
    /// the pending-user-input queue exactly once — never two entries of
    /// either.
    pub fn record_decline(&mut self, code: String, reason: String)
        requires
            old(self).wf(),
        ensures
            final(self).wf(),
            final(self).pending_results.deep_view() == old(self).pending_results.deep_view().push(
                (code@, decline_prefix() + code@),
            ),
            reason@.len() == 0 ==> final(self).pending_user_input == old(self).pending_user_input,
            reason@.len() != 0 ==> final(self).pending_user_input.deep_view() == old(
                self,
            ).pending_user_input.deep_view().push(reason@),
            final(self).transcript == old(self).transcript,
            final(self).pending_commands == old(self).pending_commands,
    {
        let note = decline_message(code.as_str());
        self.pending_results.push_back((code, note));
        proof {
            assert(self.pending_results.deep_view() =~= old(
                self,
            ).pending_results.deep_view().push((code@, decline_prefix() + code@)));
        }
        if !reason.as_str().is_empty() {
            self.pending_user_input.push_back(reason);
            proof {
                assert(self.pending_user_input.deep_view() =~= old(
                    self,
                ).pending_user_input.deep_view().push(reason@));
            }
        }
    }
}

/// Folds one backend stream event into the turn's accumulated text: a text
/// chunk appends its content, bookkeeping events change nothing, and a
/// structured tool-call chunk fails the turn as an unsupported protocol.
pub fn accept_stream_event(buf: &mut String, event: &StreamEvent) -> (r: Result<(), TurnError>)
    ensures
        match event {
            StreamEvent::Chunk(c) => r is Ok && final(buf)@ == old(buf)@ + c@,
            StreamEvent::ToolCallChunk => r == Err::<(), TurnError>(TurnError::ToolCallUnsupported)
                && final(buf)@ == old(buf)@,
            _ => r is Ok && final(buf)@ == old(buf)@,
        },
{
    match event {
        StreamEvent::Chunk(c) => {
            buf.append(c.as_str());
            Ok(())
        },
        StreamEvent::ToolCallChunk => Err(TurnError::ToolCallUnsupported),
        _ => Ok(()),
    }
}

/// The opening of the system message that reports one command result.
pub open spec fn tool_call_prefix() -> Seq<char> {
    "Tool call: ```\n"@
}

/// The text between the reported command and its response.
pub open spec fn tool_middle() -> Seq<char> {
    "\n```\nTool response: ```\n"@
}

/// The closing fence of the report.
pub open spec fn tool_suffix() -> Seq<char> {
    "\n```"@
}

/// The system message that reports one command and its response.
pub open spec fn tool_message_spec(code: Seq<char>, resp: Seq<char>) -> Seq<char> {
    tool_call_prefix() + code + tool_middle() + resp + tool_suffix()
}

/// Builds the report of one command result.
pub fn tool_message(code: &str, resp: &str) -> (r: String)
    ensures
        r@ == tool_message_spec(code@, resp@),
{
    let mut r = String::from_str("Tool call: ```\n");
    r.append(code);
    r.append("\n```\nTool response: ```\n");
    r.append(resp);
    r.append("\n```");
    proof {
        assert(r@ =~= tool_message_spec(code@, resp@));
    }
    r
}

/// The system messages that report a queue of results, in queue order.
pub open spec fn result_messages(rs: Seq<(Seq<char>, Seq<char>)>) -> Seq<MessageView> {
    rs.map_values(|p: (Seq<char>, Seq<char>)| msg_view(Role::System, tool_message_spec(p.0, p.1)))
}

/// The user messages that carry queued decline reasons, in queue order.
pub open spec fn user_messages(us: Seq<Seq<char>>) -> Seq<MessageView> {
    us.map_values(|c: Seq<char>| msg_view(Role::User, c))
}

impl ChatState {
    /// Folds every queued result into the transcript as a system message, in
    /// the order the results arrived, then every queued decline reason as a
    /// user message, and leaves both queues empty. The commands queue and the
    /// earlier transcript are untouched.
    pub fn fold_results(&mut self)
        requires
            old(self).wf(),
        ensures
            final(self).wf(),
            final(self).transcript.deep_view() == old(self).transcript.deep_view()
                + result_messages(old(self).pending_results.deep_view()) + user_messages(
                old(self).pending_user_input.deep_view(),
            ),
            final(self).pending_results@.len() == 0,
            final(self).pending_user_input@.len() == 0,
            final(self).pending_commands == old(self).pending_commands,
    {
        let ghost orig = *self;
        loop
            invariant
                self.transcript.deep_view() + result_messages(self.pending_results.deep_view())
                    == orig.transcript.deep_view() + result_messages(
                    orig.pending_results.deep_view(),
                ),
                self.pending_commands == orig.pending_commands,
                self.pending_user_input == orig.pending_user_input,
            ensures
                self.pending_results@.len() == 0,
                self.transcript.deep_view() + result_messages(self.pending_results.deep_view())
                    == orig.transcript.deep_view() + result_messages(
                    orig.pending_results.deep_view(),
                ),
                self.pending_commands == orig.pending_commands,
                self.pending_user_input == orig.pending_user_input,
            decreases self.pending_results@.len(),
        {
            let ghost t0 = self.transcript.deep_view();
            let ghost r0 = self.pending_results.deep_view();
            let front = self.pending_results.pop_front();
            match front {
                None => {
                    break ;
                },
                Some(pair) => {
                    let (code, resp) = pair;
                    let content = tool_message(code.as_str(), resp.as_str());
                    self.transcript.push(Message { role: Role::System, content });
                    proof {
                        let mv = msg_view(Role::System, tool_message_spec(code@, resp@));
                        assert(self.transcript.deep_view() =~= t0.push(mv));
                        assert(self.pending_results.deep_view() =~= r0.drop_first());
                        assert(r0[0] == (code@, resp@));
                        assert(result_messages(r0) =~= seq![mv] + result_messages(
                            r0.drop_first(),
                        ));
                        assert(t0.push(mv) + result_messages(r0.drop_first()) =~= t0
                            + result_messages(r0));
                    }
                },
            }
        }
        proof {
            assert(result_messages(self.pending_results.deep_view())
                =~= Seq::<MessageView>::empty());
            assert(self.transcript.deep_view() + Seq::<MessageView>::empty()
                =~= self.transcript.deep_view());
        }
        let ghost mid = *self;
        loop
            invariant
                self.transcript.deep_view() + user_messages(self.pending_user_input.deep_view())
                    == mid.transcript.deep_view() + user_messages(
                    mid.pending_user_input.deep_view(),
                ),
                self.pending_commands == mid.pending_commands,
                self.pending_results@ == mid.pending_results@,
            ensures
                self.pending_user_input@.len() == 0,
                self.transcript.deep_view() + user_messages(self.pending_user_input.deep_view())
                    == mid.transcript.deep_view() + user_messages(
                    mid.pending_user_input.deep_view(),
                ),
                self.pending_commands == mid.pending_commands,
                self.pending_results@ == mid.pending_results@,
            decreases self.pending_user_input@.len(),
        {
            let ghost t0 = self.transcript.deep_view();
            let ghost u0 = self.pending_user_input.deep_view();
            let front = self.pending_user_input.pop_front();
            match front {
                None => {
                    break ;
                },
                Some(reason) => {
                    let ghost rv = reason@;
                    self.transcript.push(Message { role: Role::User, content: reason });
                    proof {
                        let mv = msg_view(Role::User, rv);
                        assert(self.transcript.deep_view() =~= t0.push(mv));
                        assert(self.pending_user_input.deep_view() =~= u0.drop_first());
                        assert(u0[0] == rv);
                        assert(user_messages(u0) =~= seq![mv] + user_messages(u0.drop_first()));
                        assert(t0.push(mv) + user_messages(u0.drop_first()) =~= t0
                            + user_messages(u0));
                    }
                },
            }
        }
        proof {
            assert(user_messages(self.pending_user_input.deep_view())
                =~= Seq::<MessageView>::empty());
            assert(self.transcript.deep_view() + Seq::<MessageView>::empty()
                =~= self.transcript.deep_view());
            assert(orig.transcript.deep_view() + result_messages(
                orig.pending_results.deep_view(),
            ) + user_messages(orig.pending_user_input.deep_view()) =~= (orig.transcript.deep_view()
                + result_messages(orig.pending_results.deep_view())) + user_messages(
                orig.pending_user_input.deep_view(),
            ));
        }
    }

    /// Appends the system note that asks the model for a final response once
    /// every command has been executed.
    pub fn append_completion_note(&mut self)
        requires
            old(self).wf(),
        ensures
            final(self).wf(),
            final(self).transcript.deep_view() == old(self).transcript.deep_view().push(
                msg_view(Role::System, completion_note()),
            ),
            final(self).pending_commands == old(self).pending_commands,
            final(self).pending_results == old(self).pending_results,
            final(self).pending_user_input == old(self).pending_user_input,
    {
        let content = String::from_str(
            "All commands executed. Please give the final response if any.",
        );
        self.transcript.push(Message { role: Role::System, content });
        proof {
            assert(self.transcript.deep_view() =~= old(self).transcript.deep_view().push(
                msg_view(Role::System, completion_note()),
            ));
        }
    }
}

/// The system note appended once the command queue has drained.
pub open spec fn completion_note() -> Seq<char> {
    "All commands executed. Please give the final response if any."@
}

/// The text recorded for one command: the execution output where it ran, the
/// decline note where the operator declined it.
pub open spec fn outcome_text(code: Seq<char>, ran: bool, payload: Seq<char>) -> Seq<char> {
    if ran {
        payload
    } else {
        decline_prefix() + code
    }
}

/// The results queue after a command queue is drained front to back, one
/// outcome per command, the way `next_command` followed by `record_execution`
/// or `record_decline` drains it: each command is trimmed, paired with its
/// own outcome's text, and appended.
pub open spec fn drained_results(
    cmds: Seq<Seq<char>>,
    outcomes: Seq<(bool, Seq<char>)>,
) -> Seq<(Seq<char>, Seq<char>)>
    decreases cmds.len(),
{
    if cmds.len() == 0 || outcomes.len() == 0 {
        Seq::empty()
    } else {
        seq![(trim_spec(cmds[0]), outcome_text(trim_spec(cmds[0]), outcomes[0].0, outcomes[0].1))]
            + drained_results(cmds.drop_first(), outcomes.drop_first())
    }
}

/// Results report first in, first out: draining a command queue appends one
/// result per command, in the commands' order, the i-th result pairing the
/// i-th command, trimmed, with that command's own outcome and no other.
pub proof fn lemma_results_fifo(cmds: Seq<Seq<char>>, outcomes: Seq<(bool, Seq<char>)>)
    requires
        cmds.len() == outcomes.len(),
    ensures
        drained_results(cmds, outcomes).len() == cmds.len(),
        forall|i: int|
            0 <= i < cmds.len() ==> drained_results(cmds, outcomes)[i] == (
            trim_spec(cmds[i]),
            outcome_text(trim_spec(cmds[i]), outcomes[i].0, outcomes[i].1),
            ),
    decreases cmds.len(),
{
    if cmds.len() > 0 {
        lemma_results_fifo(cmds.drop_first(), outcomes.drop_first());
    }
}

/// The note recorded, and shown to the model, for a declined command.
pub open spec fn decline_prefix() -> Seq<char> {
    "User declined to run the command: "@
}

/// The decline note for `code`.
pub fn decline_message(code: &str) -> (r: String)
    ensures
        r@ == decline_prefix() + code@,
{
    let mut r = String::from_str("User declined to run the command: ");
    r.append(code);
    r
}

} // verus!
