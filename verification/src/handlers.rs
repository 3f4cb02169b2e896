//! What the harness does with the events that reach it.
use vstd::prelude::*;
use vstd::string::*;
use crate::assoc::{entries_view, lookup, removed, stored};
use crate::cbor::{cbor_map_text, dict_text, Cbor, CborValue};
use crate::discovery::{DiscoveredAgentsFile, DiscoveredSkill, DiscoveredSkillSource, Skill, SkillSource};
use crate::error::{HarnessError, Trouble};
use crate::event::{
    copy_selectors, AgentResponseFinished, AgentToolCall, ClientKind, ConnectionOrigin, Event, ExtSkillAvailable,
    ExtensionNotice, HarnessInfoLevel, ShellCommandFinished, ToolError, ToolNameMaybe, ToolRequest, ToolResult,
};
use crate::harness::{
    calls_view, copy_found, copy_option_text, peers_view, remove_text, tried, ConnectionEntry, Effect, Harness, PendingInvocation, TurnState,
};
use crate::models::{context_percent_used, model_context_window};
use crate::session::{option_text, Entry, SessionEntry, ToolActivityOutcome, ToolActivityRecord};
use crate::state::{
    advanced, after_extension_event, agent_finished, call_id_of, call_ids, call_lost, calls_lost, calls_of,
    calls_queued, config_message, context_lost, counted, disconnected, draining_counts, excluded, ext_at, included, informed,
    lost_calls_count, lost_calls_leave_the_extensions, normalized, noted, peers_without, request_handled, request_kept, respawn_asked,
    respawned, set_up, setup_peers, shell_entry, usage_percent, usage_reported, with_ext, with_kept_entry,
    without_context, without_contexts, Call, Ext, ExtensionState, State, Tried, Turn,
};
use crate::text::{decimal_text, holds_text, quote, same, signed_text, texts};

verus! {

broadcast use {
    crate::state::publishing_changes_the_log_alone,
    crate::state::beginning_a_call_leaves_the_queue,
};

// ---------------------------------------------------------------------------
// Answers of the agent
// ---------------------------------------------------------------------------

/// Whether two lists hold the same calls.
pub open spec fn same_calls(a: Seq<AgentToolCall>, b: Seq<AgentToolCall>) -> bool {
    &&& a.len() == b.len()
    &&& forall|i: int|
        0 <= i < a.len() ==> (#[trigger] a[i]).id@ == b[i].id@ && a[i].name.raw() == b[i].name.raw()
            && a[i].arguments@ == b[i].arguments@
}

proof fn lemma_same_calls(s: State, session: Seq<char>, a: Seq<AgentToolCall>, b: Seq<AgentToolCall>, n: nat)
    requires
        same_calls(a, b),
    ensures
        normalized(s, session, a, n) == normalized(s, session, b, n),
    decreases n,
{
    if 0 < n <= a.len() {
        lemma_same_calls(s, session, a, b, (n - 1) as nat);
        assert(a[n - 1].id@ == b[n - 1].id@);
    }
}

/// A copy of a list of calls.
fn copy_calls(calls: &Vec<AgentToolCall>) -> (r: Vec<AgentToolCall>)
    ensures
        same_calls(r@, calls@),
{
    let mut r: Vec<AgentToolCall> = Vec::new();
    let mut i: usize = 0;
    while i < calls.len()
        invariant
            i <= calls.len(),
            r.len() == i,
            forall|k: int|
                0 <= k < i ==> (#[trigger] r@[k]).id@ == calls@[k].id@ && r@[k].name.raw() == calls@[k].name.raw()
                    && r@[k].arguments@ == calls@[k].arguments@,
        decreases calls.len() - i,
    {
        r.push(copy_call(&calls[i]));
        i += 1;
    }
    r
}

fn copy_call(call: &AgentToolCall) -> (r: AgentToolCall)
    ensures
        r.id@ == call.id@,
        r.name.raw() == call.name.raw(),
        r.arguments@ == call.arguments@,
{
    let name = match &call.name {
        ToolNameMaybe::Valid(s) => ToolNameMaybe::Valid(s.clone()),
        ToolNameMaybe::Invalid(s) => ToolNameMaybe::Invalid(s.clone()),
    };
    AgentToolCall { id: call.id.clone(), name, arguments: call.arguments.clone() }
}

proof fn lemma_made_up_ids_count(s: State, session: Seq<char>, calls: Seq<AgentToolCall>, i: nat, n: nat)
    requires
        i <= n <= calls.len(),
    ensures
        normalized(s, session, calls, i).1 <= normalized(s, session, calls, n).1,
    decreases n,
{
    if i < n {
        lemma_made_up_ids_count(s, session, calls, i, (n - 1) as nat);
    }
}

impl Harness {
    /// Takes note of how much of the context is used.
    pub fn update_context_usage(&mut self, input_tokens: Option<u64>, cached_tokens: Option<u64>)
        requires
            old(self).wf(),
        ensures
            final(self).wf(),
            final(self)@ == usage_reported(old(self)@, input_tokens, cached_tokens),
    {
        let ghost before = self@;
        let window = model_context_window(&self.model_registry, self.selected_model.as_str());
        let percent_used: Option<u8> = match (window, input_tokens) {
            (Some(w), Some(tokens)) => Some(context_percent_used(tokens, w)),
            _ => None,
        };
        assert(percent_used == usage_percent(before, input_tokens));
        if self.context_input_tokens == input_tokens && self.context_cached_tokens == cached_tokens
            && self.context_percent_used == percent_used {
            return;
        }
        self.context_input_tokens = input_tokens;
        self.context_cached_tokens = cached_tokens;
        self.context_percent_used = percent_used;
        assert(self@ =~= State { input_tokens, cached_tokens, percent_used, ..before });
        self.publish_event(
            None,
            Event::HarnessContextUsageChanged { input_tokens, cached_tokens, percent_used },
        );
    }

    /// Makes up an id for a call that came without one.
    pub fn synthesize_call_id(&mut self) -> (r: String)
        requires
            old(self).wf(),
            old(self).next_synthetic_call_id < u64::MAX,
        ensures
            final(self).wf(),
            r@ == call_id_of(Seq::empty(), old(self)@.next_synthetic),
            final(self)@ == (State { next_synthetic: old(self)@.next_synthetic + 1, ..old(self)@ }),
    {
        let ghost before = self@;
        let mut id = "harness-synth-".to_owned();
        id.append(decimal_text(self.next_synthetic_call_id as u128).as_str());
        self.next_synthetic_call_id = self.next_synthetic_call_id + 1;
        assert(self@ =~= State { next_synthetic: before.next_synthetic + 1, ..before });
        id
    }

    /// Lets the calls wait their turn, in the order in which the agent made them,
    /// and sends on their way those that may go.
    fn queue_calls(&mut self, session_id: String, calls: &Vec<AgentToolCall>) -> (r: Result<(), String>)
        requires
            old(self).wf(),
            counted(calls_queued(old(self)@, session_id@, calls@).state),
        ensures
            final(self).wf(),
            tried(*final(self), r) == calls_queued(old(self)@, session_id@, calls@),
    {
        let ghost before = self@;
        proof {
            let (calls_in, next) = normalized(before, session_id@, calls@, calls@.len());
            draining_counts(
                State {
                    next_synthetic: next,
                    turn: Turn::Running { session: session_id@, remaining: call_ids(calls_in) },
                    pending_calls: before.pending_calls + calls_in,
                    ..before
                },
            );
        }
        let mut queue: Vec<PendingInvocation> = Vec::new();
        let mut remaining: Vec<String> = Vec::new();
        let mut i: usize = 0;
        assert(calls_view(queue@) =~= normalized(before, session_id@, calls@, 0).0);
        while i < calls.len()
            invariant
                i <= calls.len(),
                self.wf(),
                normalized(before, session_id@, calls@, calls@.len()).1 <= u64::MAX,
                self@ == (State {
                    next_synthetic: normalized(before, session_id@, calls@, i as nat).1,
                    ..before
                }),
                queue@.len() == i,
                calls_view(queue@) == normalized(before, session_id@, calls@, i as nat).0,
                texts(remaining@) =~= call_ids(calls_view(queue@)),
            decreases calls.len() - i,
        {
            let ghost queue_before = calls_view(queue@);
            let ghost ids_before = texts(remaining@);
            let call = &calls[i];
            proof {
                lemma_made_up_ids_count(before, session_id@, calls@, (i + 1) as nat, calls@.len());
            }
            let id = if call.id.as_str().is_empty() {
                assert(call.id@ =~= Seq::empty());
                self.synthesize_call_id()
            } else {
                call.id.clone()
            };
            let name = match &call.name {
                ToolNameMaybe::Valid(s) => s.as_str(),
                ToolNameMaybe::Invalid(s) => s.as_str(),
            };
            let kind = self.resolve_tool_kind(name);
            let copy = copy_call(call);
            remaining.push(id.clone());
            let entry = PendingInvocation {
                session_id: session_id.clone(),
                call: AgentToolCall { id, name: copy.name, arguments: copy.arguments },
                kind,
            };
            queue.push(entry);
            assert(calls_view(queue@) =~= queue_before.push(entry@));
            assert(texts(remaining@) =~= ids_before.push(entry@.id));
            i += 1;
        }
        self.turn_state = TurnState::ToolsRunning { session_id, remaining_calls: remaining };
        let ghost waiting = self.pending_tool_invocations@;
        let ghost added = queue@;
        self.pending_tool_invocations.append(&mut queue);
        proof {
            let (calls_in, next) = normalized(before, session_id@, calls@, calls@.len());
            assert(calls_view(waiting + added) =~= before.pending_calls + calls_in);
            assert(self@ =~= State {
                next_synthetic: next,
                turn: Turn::Running { session: session_id@, remaining: call_ids(calls_in) },
                pending_calls: before.pending_calls + calls_in,
                ..before
            });
        }
        self.drain_pending_tool_invocations()
    }

    /// Takes note of a finished answer of the agent.
    pub fn handle_agent_response_finished(&mut self, response: AgentResponseFinished) -> (r: Result<(), String>)
        requires
            old(self).wf(),
            counted(agent_finished(old(self)@, response).state),
        ensures
            final(self).wf(),
            tried(*final(self), r) == agent_finished(old(self)@, response),
    {
        proof {
            reveal(agent_finished);
        }
        if response.input_tokens.is_some() || response.cached_tokens.is_some() {
            self.update_context_usage(response.input_tokens, response.cached_tokens);
        }
        let ghost s1 = self@;
        let prompt_id = response.session_prompt_id.clone();
        match copy_found(self.prompt_sessions.get(prompt_id.as_str())) {
            None => {
                let mut message = "discarding duplicate agent response for session_prompt_id=".to_owned();
                message.append(prompt_id.as_str());
                self.emit_info(message);
                Ok(())
            },
            Some(session) => {
                let text = copy_option_text(&response.text);
                let thinking = copy_option_text(&response.thinking);
                let calls = copy_calls(&response.tool_calls);
                proof {
                    assert forall|s: State| normalized(s, session@, calls@, calls@.len()) == normalized(
                        s,
                        session@,
                        response.tool_calls@,
                        response.tool_calls@.len(),
                    ) by {
                        lemma_same_calls(s, session@, calls@, response.tool_calls@, calls@.len());
                    }
                }
                self.publish_event(None, Event::AgentResponseFinished(response));
                let ghost s2 = self@;
                let _ = self.prompt_sessions.remove(prompt_id.as_str());
                if !holds_text(&self.completed_prompts, prompt_id.as_str()) {
                    self.completed_prompts.push(prompt_id.clone());
                    assert(self@.completed =~= s2.completed.push(prompt_id@));
                }
                let ghost s3 = State {
                    prompt_sessions: removed(s2.prompt_sessions, prompt_id@),
                    completed: included(s2.completed, prompt_id@),
                    ..s2
                };
                assert(self@ =~= s3);
                match text {
                    Some(text) => {
                        match self.keep_entry(session.as_str(), SessionEntry::AgentMessage { text, thinking }) {
                            Ok(_) => {},
                            Err(error) => {
                                return Err(error);
                            },
                        }
                    },
                    None => {},
                }
                if calls.len() > 0 {
                    self.queue_calls(session, &calls)
                } else {
                    self.set_turn(TurnState::Idle);
                    self.try_advance_queue();
                    Ok(())
                }
            },
        }
    }
}

// ---------------------------------------------------------------------------
// Events of extensions
// ---------------------------------------------------------------------------

/// The text that stands for a command of the user in the history.
fn shell_text(finished: &ShellCommandFinished) -> (r: String)
    ensures
        r@ == shell_entry(*finished),
{
    let exit = match finished.exit_code {
        Some(code) => signed_text(code as i128),
        None => if finished.cancelled {
            "cancelled".to_owned()
        } else {
            "?".to_owned()
        },
    };
    let mut text = "<user_shell command=".to_owned();
    text.append(quote(finished.command.as_str()).as_str());
    text.append(" exit_code=");
    text.append(quote(exit.as_str()).as_str());
    text.append(">\n");
    text.append(finished.output.as_str());
    text.append("\n</user_shell>");
    text
}

impl Harness {
    /// Enters the output of a command of the user into the history, for the agent
    /// to see.
    pub fn inject_user_shell_output(&mut self, finished: &ShellCommandFinished) -> (r: Result<(), String>)
        requires
            old(self).wf(),
        ensures
            final(self).wf(),
            tried(*final(self), r) == with_kept_entry(
                old(self)@,
                finished.session_id@,
                Entry::User(shell_entry(*finished)),
            ),
    {
        let text = shell_text(finished);
        self.keep_entry(finished.session_id.as_str(), SessionEntry::UserMessage { text })
    }

    /// Enters a request of an extension into the history of the session that is
    /// next in line.
    fn persist_tool_request(&mut self, request: &ToolRequest) -> (r: Result<(), String>)
        requires
            old(self).wf(),
        ensures
            final(self).wf(),
            tried(*final(self), r) == request_kept(
                old(self)@,
                request.call_id@,
                request.tool_name@,
                request.arguments@,
            ),
    {
        let ghost before = self@;
        let session = if self.pending_request_sessions.len() > 0 {
            let first = self.pending_request_sessions.remove(0);
            assert(before.request_sessions[0] == first@);
            assert(self@.request_sessions =~= before.request_sessions.drop_first());
            first
        } else {
            "default".to_owned()
        };
        self.pending_tool_sessions.insert(request.call_id.clone(), session.clone());
        self.pending_tool_names.insert(request.call_id.clone(), request.tool_name.clone());
        proof {
            let s0 = State {
                request_sessions: if before.request_sessions.len() > 0 {
                    before.request_sessions.drop_first()
                } else {
                    before.request_sessions
                },
                tool_sessions: stored(before.tool_sessions, request.call_id@, session@),
                tool_names: stored(before.tool_names, request.call_id@, request.tool_name@),
                ..before
            };
            assert(self@ =~= s0);
        }
        self.keep_entry(
            session.as_str(),
            SessionEntry::ToolActivity(
                ToolActivityRecord {
                    call_id: request.call_id.clone(),
                    tool_name: request.tool_name.clone(),
                    outcome: ToolActivityOutcome::Requested { arguments: request.arguments.clone() },
                },
            ),
        )
    }

    /// Routes a request of an extension to the connection that provides the tool.
    fn handle_tool_request(&mut self, source_id: &str, request: ToolRequest) -> (r: Result<(), String>)
        requires
            old(self).wf(),
        ensures
            final(self).wf(),
            tried(*final(self), r) == request_handled(
                old(self)@,
                source_id@,
                request.call_id@,
                request.tool_name@,
                request.arguments@,
            ),
    {
        proof {
            reveal(request_handled);
        }
        match self.persist_tool_request(&request) {
            Ok(_) => {},
            Err(error) => {
                return Err(error);
            },
        }
        let call_id = request.call_id.clone();
        let tool_name = request.tool_name.clone();
        self.publish_event(Some(source_id), Event::ToolRequest(request));
        match self.provider_index(tool_name.as_str()) {
            Some(i) => {
                assert(self@.log.len() == self.event_log.entries@.len());
                self.route_request(call_id.as_str(), i);
                Ok(())
            },
            None => {
                self.publish_event(
                    None,
                    Event::ToolError(
                        ToolError {
                            call_id: call_id.clone(),
                            tool_name: tool_name.clone(),
                            message: "no live provider available".to_owned(),
                            details: None,
                        },
                    ),
                );
                self.keep_outcome(
                    call_id.as_str(),
                    tool_name,
                    ToolActivityOutcome::Error {
                        message: "no live provider available".to_owned(),
                        details: None,
                    },
                )
            },
        }
    }

    /// Takes note of a tool's result. One for a call that is not open is
    /// discarded.
    fn handle_tool_result(&mut self, source_id: &str, result: ToolResult) -> (r: Result<(), String>)
        requires
            old(self).wf(),
            counted(after_extension_event(old(self)@, source_id@, Event::ToolResult(result)@).state),
        ensures
            final(self).wf(),
            tried(*final(self), r) == after_extension_event(old(self)@, source_id@, Event::ToolResult(result)@),
    {
        let call_id = result.call_id.clone();
        if self.pending_tool_sessions.contains_key(call_id.as_str()) {
            let tool_name = result.tool_name.clone();
            let value = result.result.clone();
            self.publish_event(Some(source_id), Event::ToolResult(result));
            match self.keep_outcome(call_id.as_str(), tool_name, ToolActivityOutcome::Result { result: value }) {
                Ok(_) => {},
                Err(error) => {
                    return Err(error);
                },
            }
            self.on_tool_call_complete(call_id.as_str());
        } else {
            let mut message = "discarding duplicate tool result for call_id=".to_owned();
            message.append(call_id.as_str());
            self.emit_info(message);
        }
        Ok(())
    }

    /// Takes note of a tool's failure. One for a call that is not open is
    /// discarded.
    fn handle_tool_error(&mut self, source_id: &str, error: ToolError) -> (r: Result<(), String>)
        requires
            old(self).wf(),
            counted(after_extension_event(old(self)@, source_id@, Event::ToolError(error)@).state),
        ensures
            final(self).wf(),
            tried(*final(self), r) == after_extension_event(old(self)@, source_id@, Event::ToolError(error)@),
    {
        let call_id = error.call_id.clone();
        if self.pending_tool_sessions.contains_key(call_id.as_str()) {
            let tool_name = error.tool_name.clone();
            let message = error.message.clone();
            let details = match &error.details {
                Some(value) => Some(value.clone()),
                None => None,
            };
            self.publish_event(Some(source_id), Event::ToolError(error));
            match self.keep_outcome(call_id.as_str(), tool_name, ToolActivityOutcome::Error { message, details }) {
                Ok(_) => {},
                Err(error) => {
                    return Err(error);
                },
            }
            self.on_tool_call_complete(call_id.as_str());
        } else {
            let mut message = "discarding duplicate tool error for call_id=".to_owned();
            message.append(call_id.as_str());
            self.emit_info(message);
        }
        Ok(())
    }

    /// Says that an extension refused its configuration.
    fn handle_config_error(&mut self, source_id: &str, message: &str)
        requires
            old(self).wf(),
        ensures
            final(self).wf(),
            final(self)@ == informed(
                old(self)@,
                config_message(old(self)@, source_id@, message@),
                HarnessInfoLevel::Important,
            ),
    {
        let name = match self.extension_index(source_id) {
            Some(i) => self.extensions[i].name.clone(),
            None => "extension".to_owned(),
        };
        let mut text = "extension ".to_owned();
        text.append(name.as_str());
        text.append(" rejected its config: ");
        text.append(message);
        text.append("\nthe value of `extensions.");
        text.append(name.as_str());
        text.append(".config` in harness.json5 is being ignored");
        self.emit_info_with_level(text, HarnessInfoLevel::Important);
    }

    /// Takes note of a skill that an extension found.
    fn add_skill(&mut self, source_id: &str, skill: &ExtSkillAvailable)
        requires
            old(self).wf(),
        ensures
            final(self).wf(),
            final(self)@ == (State {
                skills: stored(
                    old(self)@.skills,
                    skill.name@,
                    Skill {
                        source_id: source_id@,
                        description: skill.description@,
                        source: SkillSource::File(skill.file_path@),
                        add_to_prompt: skill.add_to_prompt,
                    },
                ),
                ..old(self)@
            }),
    {
        let ghost before = self@;
        let found = DiscoveredSkill {
            source_id: source_id.to_owned(),
            description: skill.description.clone(),
            source: DiscoveredSkillSource::File(skill.file_path.clone()),
            add_to_prompt: skill.add_to_prompt,
        };
        self.discovered_skills.insert(skill.name.clone(), found);
        assert(self@ =~= State { skills: stored(before.skills, skill.name@, found@), ..before });
    }

    /// Does what an event of an extension asks for, and says where the store cut it
    /// short.
    fn take_extension_event(&mut self, source_id: &str, event: Event) -> (r: Result<(), String>)
        requires
            old(self).wf(),
            counted(after_extension_event(old(self)@, source_id@, event@).state),
        ensures
            final(self).wf(),
            tried(*final(self), r) == after_extension_event(old(self)@, source_id@, event@),
    {
        match event {
            Event::Ack { up_to } => self.acknowledge(source_id, up_to),
            Event::LifecycleHello(hello) => {
                self.set_extension_state(source_id, ExtensionState::Handshaking);
                self.publish_event(Some(source_id), Event::LifecycleHello(hello));
                self.send_lifecycle_configure(source_id);
            },
            Event::LifecycleConfigError { message } => self.handle_config_error(source_id, message.as_str()),
            Event::LifecycleSubscribe(subscribe) => {
                let selectors = copy_selectors(&subscribe.selectors);
                self.set_subscriptions(source_id, selectors);
                self.publish_event(Some(source_id), Event::LifecycleSubscribe(subscribe));
            },
            Event::LifecycleReady { message } => {
                self.emit_extension_ready(source_id);
                self.publish_event(Some(source_id), Event::LifecycleReady { message });
                self.set_extension_state(source_id, ExtensionState::Ready);
                self.try_advance_queue();
            },
            Event::EmitEvent { event: inner, transient } => {
                self.publish_event_with_transient(Some(source_id), *inner, transient);
            },
            Event::ToolRegister(tool) => self.register_tool(source_id, tool),
            Event::ToolRequest(request) => {
                return self.handle_tool_request(source_id, request);
            },
            Event::ToolResult(result) => {
                return self.handle_tool_result(source_id, result);
            },
            Event::ToolError(error) => {
                return self.handle_tool_error(source_id, error);
            },
            Event::ShellCommandFinished(finished) => {
                let text = shell_text(&finished);
                let kept = finished.include_in_context;
                let session = finished.session_id.clone();
                self.publish_event(Some(source_id), Event::ShellCommandFinished(finished));
                if kept {
                    return self.keep_entry(session.as_str(), SessionEntry::UserMessage { text });
                }
            },
            Event::ExtSkillAvailable(skill) => {
                self.add_skill(source_id, &skill);
                self.publish_event(Some(source_id), Event::ExtSkillAvailable(skill));
            },
            Event::ExtAgentsMdAvailable(file) => {
                self.add_file(
                    DiscoveredAgentsFile {
                        source_id: source_id.to_owned(),
                        file_path: file.file_path.clone(),
                        content: file.content.clone(),
                    },
                );
                self.publish_event(Some(source_id), Event::ExtAgentsMdAvailable(file));
            },
            Event::ExtensionContextReady { session_id } => {
                let session = session_id.clone();
                self.publish_event(Some(source_id), Event::ExtensionContextReady { session_id });
                return self.handle_extension_context_ready(source_id, session.as_str());
            },
            Event::AgentResponseFinished(response) => {
                return self.handle_agent_response_finished(response);
            },
            other => self.publish_event(Some(source_id), other),
        }
        Ok(())
    }

    /// Does what an event of an extension asks for. `denied` says why a
    /// subscription that it holds is not granted; that is an error, and so is a
    /// failure of the store where nothing else becomes of it.
    pub fn handle_extension_event(&mut self, source_id: &str, event: Event, denied: Option<String>) -> (r: Result<
        (),
        HarnessError,
    >)
        requires
            old(self).wf(),
            counted(extension_heard(old(self)@, source_id@, event, denied).0),
        ensures
            final(self).wf(),
            (final(self)@, trouble_of(r)) == extension_heard(old(self)@, source_id@, event, denied),
    {
        match &event {
            Event::LifecycleSubscribe(_) => match denied {
                Some(reason) => {
                    return Err(HarnessError::Route(reason));
                },
                None => {},
            },
            _ => {},
        }
        match self.take_extension_event(source_id, event) {
            Ok(_) => Ok(()),
            Err(error) => Err(HarnessError::SessionStore(error)),
        }
    }
}

/// An error over its view.
pub open spec fn trouble_of<T>(r: Result<T, HarnessError>) -> Option<Trouble> {
    match r {
        Ok(_) => None,
        Err(error) => Some(error@),
    }
}

/// The error of the harness for an error of the store.
pub open spec fn trouble_in(t: Tried) -> Option<Trouble> {
    match t.error {
        Some(error) => Some(Trouble::SessionStore(error)),
        None => None,
    }
}

/// What an event of an extension makes of the state, and which error it gives: one
/// about a subscription that is not granted, or one of the store.
pub open spec fn extension_heard(s: State, source: Seq<char>, event: Event, denied: Option<String>) -> (
    State,
    Option<Trouble>,
) {
    if event is LifecycleSubscribe && denied is Some {
        (s, Some(Trouble::Route(denied->0@)))
    } else {
        let t = after_extension_event(s, source, event@);
        (t.state, trouble_in(t))
    }
}

// ---------------------------------------------------------------------------
// The files of skills
// ---------------------------------------------------------------------------

/// The file that a call reads: that of the skill that it asks for, where the skill
/// lies in one.
pub open spec fn file_of_call(
    skills: Seq<(Seq<char>, Skill)>,
    name: Seq<char>,
    arguments: Cbor,
) -> Option<Seq<char>> {
    if name != "skill"@ {
        None
    } else {
        match dict_text(arguments, "name"@) {
            Some(skill_name) => match lookup(skills, skill_name) {
                Some(skill) => match skill.source {
                    SkillSource::File(path) => Some(path),
                    SkillSource::BuiltIn(_) => None,
                },
                None => None,
            },
            None => None,
        }
    }
}

/// The files that the first `n` waiting calls read.
pub open spec fn files_of_waiting(skills: Seq<(Seq<char>, Skill)>, calls: Seq<Call>, n: nat) -> Seq<Seq<char>>
    decreases n,
{
    if n == 0 || n > calls.len() {
        Seq::empty()
    } else {
        let before = files_of_waiting(skills, calls, (n - 1) as nat);
        match file_of_call(skills, calls[n - 1].name, calls[n - 1].arguments) {
            Some(path) => before.push(path),
            None => before,
        }
    }
}

/// The files that the first `n` calls of an answer read.
pub open spec fn files_of_answer(skills: Seq<(Seq<char>, Skill)>, calls: Seq<AgentToolCall>, n: nat) -> Seq<Seq<char>>
    decreases n,
{
    if n == 0 || n > calls.len() {
        Seq::empty()
    } else {
        let before = files_of_answer(skills, calls, (n - 1) as nat);
        match file_of_call(skills, calls[n - 1].name.raw(), calls[n - 1].arguments@) {
            Some(path) => before.push(path),
            None => before,
        }
    }
}

impl Harness {
    fn file_of_skill(&self, name: &str, arguments: &CborValue) -> (r: Option<String>)
        ensures
            option_text(r) == file_of_call(self@.skills, name@, arguments@),
    {
        if !same(name, "skill") {
            return None;
        }
        match cbor_map_text(arguments, "name") {
            Some(skill_name) => match self.discovered_skills.get(skill_name) {
                Some(skill) => match &skill.source {
                    DiscoveredSkillSource::File(path) => Some(path.clone()),
                    DiscoveredSkillSource::BuiltIn { content: _ } => None,
                },
                None => None,
            },
            None => None,
        }
    }

    /// The files of skills that waiting calls read, to be read before anything is
    /// handled that may send these calls on their way.
    pub fn skill_files_of_waiting_calls(&self) -> (r: Vec<String>)
        ensures
            texts(r@) == files_of_waiting(self@.skills, self@.pending_calls, self@.pending_calls.len()),
    {
        let ghost all = self@.pending_calls;
        let mut paths: Vec<String> = Vec::new();
        let mut i: usize = 0;
        assert(texts(paths@) =~= files_of_waiting(self@.skills, all, 0));
        while i < self.pending_tool_invocations.len()
            invariant
                i <= self.pending_tool_invocations.len(),
                all == calls_view(self.pending_tool_invocations@),
                texts(paths@) == files_of_waiting(self@.skills, all, i as nat),
            decreases self.pending_tool_invocations.len() - i,
        {
            let ghost before = texts(paths@);
            let call = &self.pending_tool_invocations[i].call;
            assert(all[i as int] == self.pending_tool_invocations@[i as int]@);
            let name = match &call.name {
                ToolNameMaybe::Valid(s) => s.as_str(),
                ToolNameMaybe::Invalid(s) => s.as_str(),
            };
            match self.file_of_skill(name, &call.arguments) {
                Some(path) => {
                    paths.push(path);
                    assert(texts(paths@) =~= before.push(path@));
                },
                None => {},
            }
            i += 1;
        }
        paths
    }

    /// The files of skills that the calls of an answer read, to be read before the
    /// answer is handled.
    pub fn skill_files_of_answer(&self, response: &AgentResponseFinished) -> (r: Vec<String>)
        ensures
            texts(r@) == files_of_answer(self@.skills, response.tool_calls@, response.tool_calls@.len()),
    {
        let mut paths: Vec<String> = Vec::new();
        let mut i: usize = 0;
        assert(texts(paths@) =~= files_of_answer(self@.skills, response.tool_calls@, 0));
        while i < response.tool_calls.len()
            invariant
                i <= response.tool_calls.len(),
                texts(paths@) == files_of_answer(self@.skills, response.tool_calls@, i as nat),
            decreases response.tool_calls.len() - i,
        {
            let ghost before = texts(paths@);
            let call = &response.tool_calls[i];
            let name = match &call.name {
                ToolNameMaybe::Valid(s) => s.as_str(),
                ToolNameMaybe::Invalid(s) => s.as_str(),
            };
            match self.file_of_skill(name, &call.arguments) {
                Some(path) => {
                    paths.push(path);
                    assert(texts(paths@) =~= before.push(path@));
                },
                None => {},
            }
            i += 1;
        }
        paths
    }
}

// ---------------------------------------------------------------------------
// Lost connections
// ---------------------------------------------------------------------------

impl Harness {
    /// The calls on which a connection is at work, oldest first.
    fn calls_of_connection(&self, connection_id: &str) -> (r: Vec<String>)
        ensures
            texts(r@) == calls_of(self@.tool_providers, connection_id@),
    {
        let ghost all = self@.tool_providers;
        let mut ids: Vec<String> = Vec::new();
        let mut i: usize = 0;
        assert(texts(ids@) =~= calls_of(all.take(0), connection_id@));
        while i < self.pending_tool_providers.entries.len()
            invariant
                i <= self.pending_tool_providers.entries.len(),
                all == entries_view(self.pending_tool_providers.entries@),
                texts(ids@) == calls_of(all.take(i as int), connection_id@),
            decreases self.pending_tool_providers.entries.len() - i,
        {
            let ghost before = texts(ids@);
            let entry = &self.pending_tool_providers.entries[i];
            assert(all.take(i + 1).drop_last() =~= all.take(i as int));
            assert(all.take(i + 1).last() == (entry.0@, entry.1@));
            if same(entry.1.as_str(), connection_id) {
                ids.push(entry.0.clone());
                assert(texts(ids@) =~= before.push(entry.0@));
            }
            i += 1;
        }
        assert(all.take(all.len() as int) =~= all);
        ids
    }

    /// Fails a call whose provider is gone.
    fn lose_call(&mut self, call_id: &str)
        requires
            old(self).wf(),
            counted(call_lost(old(self)@, call_id@)),
        ensures
            final(self).wf(),
            final(self)@ == call_lost(old(self)@, call_id@),
    {
        let ghost before = self@;
        let tool_name = match self.pending_tool_names.remove(call_id) {
            Some(name) => name,
            None => "unknown_tool".to_owned(),
        };
        let _ = self.pending_tool_providers.remove(call_id);
        assert(self@ =~= State {
            tool_names: removed(before.tool_names, call_id@),
            tool_providers: removed(before.tool_providers, call_id@),
            ..before
        });
        if self.pending_tool_sessions.contains_key(call_id) {
            let _ = self.keep_outcome(
                call_id,
                tool_name.clone(),
                ToolActivityOutcome::Error {
                    message: "tool provider disconnected".to_owned(),
                    details: None,
                },
            );
        }
        self.publish_event(
            None,
            Event::ToolError(
                ToolError {
                    call_id: call_id.to_owned(),
                    tool_name,
                    message: "tool provider disconnected".to_owned(),
                    details: None,
                },
            ),
        );
        self.on_tool_call_complete(call_id);
    }

    /// Fails the calls on which a lost connection was at work.
    pub fn fail_pending_tool_calls_for_connection(&mut self, connection_id: &str)
        requires
            old(self).wf(),
            counted(calls_lost(old(self)@, calls_of(old(self)@.tool_providers, connection_id@))),
        ensures
            final(self).wf(),
            final(self)@ == calls_lost(old(self)@, calls_of(old(self)@.tool_providers, connection_id@)),
    {
        let ids = self.calls_of_connection(connection_id);
        let ghost before = self@;
        let ghost all = texts(ids@);
        let mut i: usize = 0;
        proof {
            assert(all.take(0) =~= Seq::empty());
        }
        while i < ids.len()
            invariant
                i <= ids.len(),
                all == texts(ids@),
                self.wf(),
                self@ == calls_lost(before, all.take(i as int)),
                counted(calls_lost(before, all)),
            decreases ids.len() - i,
        {
            assert(all.take(i + 1).drop_last() =~= all.take(i as int));
            assert(all.take(i + 1).last() == ids@[i as int]@);
            proof {
                lost_calls_count(before, all, i + 1);
            }
            self.lose_call(ids[i].as_str());
            i += 1;
        }
        assert(all.take(all.len() as int) =~= all);
    }

    /// Takes a connection off the list.
    pub fn remove_connection(&mut self, connection_id: &str)
        requires
            old(self).wf(),
        ensures
            final(self).wf(),
            final(self)@ == (State {
                connections: peers_without(old(self)@.connections, connection_id@),
                ..old(self)@
            }),
    {
        let ghost before = self@;
        let ghost all = self@.connections;
        let mut rest: Vec<ConnectionEntry> = Vec::new();
        rest.append(&mut self.connections);
        let mut kept: Vec<ConnectionEntry> = Vec::new();
        let ghost mut done: int = 0;
        assert(peers_view(rest@) =~= all.skip(0));
        assert(peers_view(kept@) =~= peers_without(all.take(0), connection_id@));
        while rest.len() > 0
            invariant
                0 <= done,
                done + rest.len() == all.len(),
                peers_view(rest@) == all.skip(done),
                peers_view(kept@) == peers_without(all.take(done), connection_id@),
            decreases rest.len(),
        {
            let ghost rest_before = peers_view(rest@);
            let entry = rest.remove(0);
            let ghost kept_before = peers_view(kept@);
            proof {
                assert(rest_before[0] == entry@);
                assert(peers_view(rest@) =~= rest_before.drop_first());
                assert(all.skip(done).drop_first() =~= all.skip(done + 1));
                assert(all.take(done + 1).drop_last() =~= all.take(done));
                assert(all.take(done + 1).last() == entry@);
            }
            if !same(entry.id.as_str(), connection_id) {
                kept.push(entry);
                assert(peers_view(kept@) =~= kept_before.push(entry@));
            }
            proof {
                done = done + 1;
            }
        }
        assert(all.take(done) =~= all);
        self.connections = kept;
        assert(self@ =~= State { connections: peers_without(all, connection_id@), ..before });
    }

    /// Asks for the restart of the extension behind a lost connection.
    pub fn try_respawn_supervised_extension(&mut self, connection_id: &str)
        requires
            old(self).wf(),
            can_restart(old(self)@),
        ensures
            final(self).wf(),
            final(self)@ == respawn_asked(old(self)@, connection_id@),
    {
        let ghost before = self@;
        match self.extension_index(connection_id) {
            Some(i) => {
                assert(before.extensions[i as int] == self.extensions@[i as int]@);
                if self.extensions[i].supervised_config.is_some() && self.extensions[i].kind != ClientKind::Agent {
                    let attempt: u32 = self.extensions[i].restart_attempt + 1;
                    self.extensions[i].restart_attempt = attempt;
                    let ghost e = before.extensions[i as int];
                    let ghost s1 = with_ext(before, i as int, Ext { restart_attempt: e.restart_attempt + 1, ..e });
                    assert(self@.extensions =~= s1.extensions);
                    assert(self@ =~= s1);
                    let notice = ExtensionNotice {
                        instance_id: self.extensions[i].instance_id,
                        extension_name: self.extensions[i].name.clone(),
                        pid: None,
                    };
                    self.publish_event(
                        Some("harness"),
                        Event::ExtensionRestarting {
                            notice,
                            attempt,
                            reason: Some("unexpected disconnect".to_owned()),
                        },
                    );
                    self.push_effect(Effect::Respawn { index: i });
                }
            },
            None => {},
        }
    }

    /// Takes note that an extension was started again behind a new connection.
    pub fn finish_respawn(&mut self, index: usize, connection_id: String, pid: u32)
        requires
            old(self).wf(),
            index < old(self).extensions.len(),
        ensures
            final(self).wf(),
            final(self)@ == respawned(old(self)@, index as int, connection_id@, pid),
    {
        let ghost before = self@;
        let name = self.extensions[index].name.clone();
        let peer = ConnectionEntry {
            id: connection_id.clone(),
            name: name.clone(),
            kind: self.extensions[index].kind,
            origin: ConnectionOrigin::Supervised,
            selectors: Vec::new(),
        };
        assert(peer@.selectors =~= Seq::empty());
        assert(before.extensions[index as int] == self.extensions@[index as int]@);
        self.connections.push(peer);
        self.extensions[index].connection_id = connection_id;
        self.extensions[index].pid = Some(pid);
        self.extensions[index].state = ExtensionState::Spawning;
        self.extensions[index].last_acked = 0;
        proof {
            let e = Ext {
                connection_id: connection_id@,
                pid: Some(pid),
                state: ExtensionState::Spawning,
                last_acked: 0,
                ..before.extensions[index as int]
            };
            let s1 = with_ext(
                State { connections: before.connections.push(peer@), ..before },
                index as int,
                e,
            );
            assert(self@.extensions =~= s1.extensions);
            assert(self@.connections =~= s1.connections);
            assert(self@ =~= s1);
        }
        self.emit_extension_starting(name.as_str());
    }

    /// Says that the restart of an extension failed.
    pub fn fail_respawn(&mut self, name: &str, error: &str)
        requires
            old(self).wf(),
        ensures
            final(self).wf(),
            final(self)@ == noted(old(self)@, "failed to respawn extension "@ + name@ + ": "@ + error@),
    {
        let mut message = "failed to respawn extension ".to_owned();
        message.append(name);
        message.append(": ");
        message.append(error);
        self.emit_info(message);
    }

    /// Takes note that a connection was lost.
    pub fn handle_disconnect(&mut self, connection_id: &str)
        requires
            old(self).wf(),
            counted(disconnected(old(self)@, connection_id@)),
            can_restart(old(self)@),
        ensures
            final(self).wf(),
            final(self)@ == disconnected(old(self)@, connection_id@),
    {
        proof {
            reveal(disconnected);
            let lost = context_lost(without_context(self@, connection_id@), connection_id@);
            let ids = calls_of(lost.tool_providers, connection_id@);
            lost_calls_count(lost, ids, 0);
            assert(ids.take(0) =~= Seq::empty());
        }
        let ghost s0 = self@;
        self.remove_discovered_context(connection_id);
        self.maybe_complete_session_init_for_disconnect(connection_id);
        let ghost s1 = self@;
        proof {
            lost_context_leaves(without_context(s0, connection_id@), connection_id@);
            lost_calls_leave_the_extensions(s1, calls_of(s1.tool_providers, connection_id@));
        }
        self.fail_pending_tool_calls_for_connection(connection_id);
        let ghost s2 = self@;
        self.set_extension_state(connection_id, ExtensionState::Disconnected);
        let ghost s3 = self@;
        proof {
            lemma_ext_at_in_range(s2.extensions, connection_id@);
            assert forall|i: int| 0 <= i < s3.extensions.len() implies (#[trigger] s3.extensions[i]).restart_attempt
                < u32::MAX by {
                assert(s3.extensions[i].restart_attempt == s0.extensions[i].restart_attempt);
            }
        }
        self.client_writers = remove_text(&self.client_writers, connection_id);
        assert(self@ =~= State { clients: excluded(s3.clients, connection_id@), ..s3 });
        match self.connection_index(connection_id) {
            Some(i) => {
                let name = self.connections[i].name.clone();
                let origin = self.connections[i].origin;
                assert(self@.connections[i as int] == self.connections@[i as int]@);
                self.remove_connection(connection_id);
                if origin == ConnectionOrigin::Supervised || origin == ConnectionOrigin::InMemory {
                    self.unregister_connection(connection_id);
                    self.emit_extension_exited(name.as_str());
                }
                if origin == ConnectionOrigin::Supervised {
                    self.try_respawn_supervised_extension(connection_id);
                }
            },
            None => {},
        }
    }
}

/// Whether every extension can be restarted once more.
pub open spec fn can_restart(s: State) -> bool {
    forall|i: int| 0 <= i < s.extensions.len() ==> (#[trigger] s.extensions[i]).restart_attempt < u32::MAX
}

proof fn lemma_ext_at_in_range(extensions: Seq<Ext>, connection: Seq<char>)
    ensures
        ext_at(extensions, connection) matches Some(i) ==> 0 <= i < extensions.len(),
    decreases extensions.len(),
{
    if extensions.len() > 0 {
        lemma_ext_at_in_range(extensions.drop_last(), connection);
    }
}

/// Losing a part of a set-up makes at most one prompt, and leaves calls and extensions
/// as they are.
pub proof fn lost_context_leaves(s: State, source: Seq<char>)
    ensures
        context_lost(s, source).tool_providers == s.tool_providers,
        context_lost(s, source).pending_calls == s.pending_calls,
        context_lost(s, source).extensions == s.extensions,
        context_lost(s, source).next_synthetic == s.next_synthetic,
        s.next_prompt <= context_lost(s, source).next_prompt <= s.next_prompt + 1,
{
    match s.turn {
        Turn::Initializing { session, waiting_on } => {
            let left = excluded(waiting_on, source);
            let s1 = State { turn: Turn::Initializing { session, waiting_on: left }, ..s };
            advancing_leaves_the_calls(set_up(s1, session).state);
        },
        _ => {},
    }
}

/// Moving the queue of prompts on makes at most one prompt, and leaves calls and
/// extensions as they are.
pub proof fn advancing_leaves_the_calls(s: State)
    ensures
        advanced(s).tool_providers == s.tool_providers,
        advanced(s).pending_calls == s.pending_calls,
        advanced(s).extensions == s.extensions,
        advanced(s).next_synthetic == s.next_synthetic,
        s.next_prompt <= advanced(s).next_prompt <= s.next_prompt + 1,
{
    lemma_without_contexts(s, setup_peers(s.connections));
}

pub proof fn lemma_without_contexts(s: State, sources: Seq<Seq<char>>)
    ensures
        ({
            let after = without_contexts(s, sources);
            after == (State { skills: after.skills, files: after.files, ..s })
        }),
    decreases sources.len(),
{
    if sources.len() > 0 {
        lemma_without_contexts(s, sources.drop_last());
    }
}

} // verus!
