//! What the harness does for its clients.
use vstd::prelude::*;
use vstd::string::*;
use crate::assoc::{stored, TextMap};
use crate::error::HarnessError;
use crate::event::{
    copy_selectors, selector_matches_event, selector_matches_name, selectors_view, Effort, Event, EventSelector,
    HarnessInfoLevel, SessionStartReason,
};
use crate::handlers::{trouble_in, trouble_of};
use crate::harness::{kept_view, log_view, tried, Effect, Harness, PromptSubmission, TurnState};
use crate::models::{
    clamp_effort, efforts_for_model, model_context_window, save_harness_state, selected_effort_for_model,
};
use crate::session::{can_be_shown, option_text, tree_lines, tree_of, Tree};
use crate::state::{
    after_client_event, all_noted, caught_up, client_stays, counted, effort_chosen, info_replayed, kept_replays,
    log_replays, model_chosen, navigated, offered, prompt_taken, remembered, submission, submitted, switched,
    tree_shown, EffectView, State, Turn,
};
use crate::text::{copy_texts, decimal_text, holds_text, same, texts};

verus! {

broadcast use {
    crate::state::publishing_changes_the_log_alone,
    crate::state::beginning_a_call_leaves_the_queue,
};

// ---------------------------------------------------------------------------
// Prompts
// ---------------------------------------------------------------------------

impl Harness {
    /// Sends a prompt of the user to the agent, or lets it wait where it cannot go
    /// yet. A prompt for another session is refused.
    pub fn submit_user_prompt(&mut self, session_id: String, text: String) -> (r: Result<PromptSubmission, String>)
        requires
            old(self).wf(),
            counted(submitted(old(self)@, session_id@, text@).state),
        ensures
            final(self).wf(),
            r matches Ok(became) ==> became@ == submission(old(self)@, session_id@),
            tried(*final(self), r) == submitted(old(self)@, session_id@, text@),
    {
        let ghost before = self@;
        if !same(session_id.as_str(), self.current_session_id.as_str()) {
            let mut reason = "harness is bound to session `".to_owned();
            reason.append(self.current_session_id.as_str());
            reason.append("`; prompt for `");
            reason.append(session_id.as_str());
            reason.append("` rejected");
            self.emit_info(reason.clone());
            return Ok(PromptSubmission::Rejected { reason });
        }
        if self.dispatch_blocked() || !self.session_initialized(session_id.as_str()) {
            self.pending_prompts.push((session_id, text));
            assert(self@.pending_prompts =~= before.pending_prompts.push((session_id@, text@)));
            assert(self@ =~= State {
                pending_prompts: before.pending_prompts.push((session_id@, text@)),
                ..before
            });
            self.try_advance_queue();
            return Ok(PromptSubmission::Queued);
        }
        match self.dispatch_user_prompt(session_id, text) {
            Ok(_) => Ok(PromptSubmission::Dispatched),
            Err(error) => Err(error),
        }
    }

    /// Takes a prompt from a client, and says where it waits.
    fn take_prompt(&mut self, session_id: String, text: String) -> (r: Result<(), String>)
        requires
            old(self).wf(),
            counted(prompt_taken(old(self)@, session_id@, text@).state),
        ensures
            final(self).wf(),
            tried(*final(self), r) == prompt_taken(old(self)@, session_id@, text@),
    {
        let session = session_id.clone();
        let copy = text.clone();
        match self.submit_user_prompt(session_id, text) {
            Ok(PromptSubmission::Queued) => {
                self.publish_event(None, Event::SessionPromptQueued { session_id: session, text: copy });
                if self.selected_model.as_str().is_empty() {
                    self.emit_info("no model selected — use /model to pick one".to_owned());
                }
                Ok(())
            },
            Ok(_) => Ok(()),
            Err(error) => Err(error),
        }
    }
}

// ---------------------------------------------------------------------------
// Joining late
// ---------------------------------------------------------------------------

impl Harness {
    /// Shows a client that joins late the kept events of the session.
    pub fn replay_session_events(&mut self, client_id: &str, selectors: &Vec<EventSelector>)
        requires
            old(self).wf(),
        ensures
            final(self).wf(),
            final(self)@ == (State {
                effects: old(self)@.effects + kept_replays(
                    old(self)@,
                    client_id@,
                    selectors_view(selectors@),
                    old(self)@.kept.len(),
                ),
                ..old(self)@
            }),
    {
        let ghost before = self@;
        let ghost chosen = selectors_view(selectors@);
        let mut i: usize = 0;
        assert(before.effects + kept_replays(before, client_id@, chosen, 0) =~= before.effects);
        while i < self.kept_events.len()
            invariant
                i <= self.kept_events.len(),
                self.wf(),
                chosen == selectors_view(selectors@),
                kept_view(self.kept_events@) == before.kept,
                self@ == (State {
                    effects: before.effects + kept_replays(before, client_id@, chosen, i as nat),
                    ..before
                }),
            decreases self.kept_events.len() - i,
        {
            let ghost so_far = kept_replays(before, client_id@, chosen, i as nat);
            assert(before.kept[i as int] == (
                self.kept_events@[i as int].session_id@,
                self.kept_events@[i as int].name@,
            ));
            if same(self.kept_events[i].session_id.as_str(), self.current_session_id.as_str()) && selector_matches_name(
                selectors,
                self.kept_events[i].name.as_str(),
            ) {
                self.push_effect(Effect::ReplayKept { to: client_id.to_owned(), index: i });
                let ghost one = EffectView::ReplayKept { to: client_id@, index: i as int };
                assert((before.effects + so_far).push(one) =~= before.effects + so_far.push(one));
            }
            i += 1;
        }
    }

    fn replay_log(&mut self, client_id: &str, selectors: &Vec<EventSelector>)
        requires
            old(self).wf(),
        ensures
            final(self).wf(),
            final(self)@ == (State {
                effects: old(self)@.effects + log_replays(
                    old(self)@,
                    client_id@,
                    selectors_view(selectors@),
                    old(self)@.log.len(),
                ),
                ..old(self)@
            }),
    {
        let ghost before = self@;
        let ghost chosen = selectors_view(selectors@);
        let mut i: usize = 0;
        assert(before.effects + log_replays(before, client_id@, chosen, 0) =~= before.effects);
        while i < self.event_log.entries.len()
            invariant
                i <= self.event_log.entries.len(),
                self.wf(),
                chosen == selectors_view(selectors@),
                log_view(self.event_log.entries@) == before.log,
                self@ == (State {
                    effects: before.effects + log_replays(before, client_id@, chosen, i as nat),
                    ..before
                }),
            decreases self.event_log.entries.len() - i,
        {
            let ghost so_far = log_replays(before, client_id@, chosen, i as nat);
            assert(before.log[i as int].event == self.event_log.entries@[i as int].event@);
            let shown = match &self.event_log.entries[i].event {
                Event::HarnessInfo { message: _, level: _ } => true,
                Event::ExtensionStarting(_) => true,
                Event::ExtensionReady(_) => true,
                Event::ExtensionExited(_) => true,
                Event::ExtAgentsMdAvailable(_) => true,
                Event::ExtensionContextReady { session_id: _ } => true,
                _ => false,
            };
            if shown && selector_matches_event(selectors, &self.event_log.entries[i].event) {
                self.push_effect(Effect::Replay { to: client_id.to_owned(), seq: i as u64 });
                let ghost one = EffectView::Replay { to: client_id@, seq: i as int };
                assert((before.effects + so_far).push(one) =~= before.effects + so_far.push(one));
            }
            i += 1;
        }
    }

    fn offer(&mut self, client_id: &str, selectors: &Vec<EventSelector>, event: Event)
        requires
            old(self).wf(),
        ensures
            final(self).wf(),
            final(self)@ == offered(old(self)@, client_id@, selectors_view(selectors@), event@),
    {
        if selector_matches_event(selectors, &event) {
            self.send_to(client_id, event);
        }
    }

    /// Shows a client that joins late what was announced, and the model with its
    /// efforts.
    pub fn replay_harness_info(&mut self, client_id: &str, selectors: &Vec<EventSelector>)
        requires
            old(self).wf(),
        ensures
            final(self).wf(),
            final(self)@ == info_replayed(old(self)@, client_id@, selectors_view(selectors@)),
    {
        proof {
            reveal(info_replayed);
        }
        self.replay_log(client_id, selectors);
        let models = copy_texts(&self.available_models);
        self.offer(client_id, selectors, Event::HarnessModelsAvailable { models });
        let context_window = model_context_window(&self.model_registry, self.selected_model.as_str());
        self.offer(
            client_id,
            selectors,
            Event::HarnessModelSelected { model: self.selected_model.clone(), context_window },
        );
        self.offer(
            client_id,
            selectors,
            Event::HarnessContextUsageChanged {
                input_tokens: self.context_input_tokens,
                cached_tokens: self.context_cached_tokens,
                percent_used: self.context_percent_used,
            },
        );
        self.offer(client_id, selectors, Event::HarnessEffortChanged { level: self.selected_effort });
        let levels = efforts_for_model(&self.model_registry, self.selected_model.as_str());
        self.offer(client_id, selectors, Event::HarnessEffortsAvailable { levels });
    }
}

impl Harness {
    /// Brings a client that joins late up to date.
    fn catch_up(&mut self, client_id: &str, selectors: &Vec<EventSelector>)
        requires
            old(self).wf(),
        ensures
            final(self).wf(),
            final(self)@ == caught_up(old(self)@, client_id@, selectors_view(selectors@)),
    {
        proof {
            reveal(caught_up);
        }
        self.replay_session_events(client_id, selectors);
        self.replay_harness_info(client_id, selectors);
    }
}

// ---------------------------------------------------------------------------
// Models and efforts
// ---------------------------------------------------------------------------

/// A copy of a list of efforts.
fn copy_efforts(efforts: &TextMap<Effort>) -> (r: TextMap<Effort>)
    ensures
        r@ == efforts@,
{
    let mut entries: Vec<(String, Effort)> = Vec::new();
    let mut i: usize = 0;
    while i < efforts.entries.len()
        invariant
            i <= efforts.entries.len(),
            entries.len() == i,
            forall|k: int|
                0 <= k < i ==> (#[trigger] entries@[k]).0@ == efforts.entries@[k].0@ && entries@[k].1
                    == efforts.entries@[k].1,
        decreases efforts.entries.len() - i,
    {
        entries.push((efforts.entries[i].0.clone(), efforts.entries[i].1));
        i += 1;
    }
    let r = TextMap { entries };
    assert(r@ =~= efforts@);
    r
}

impl Harness {
    /// Hands in what the settings and what is remembered say about efforts, read
    /// again before the user chooses a model or an effort.
    pub fn refresh_efforts(&mut self, default_efforts: TextMap<Effort>, last_efforts: TextMap<Effort>)
        requires
            old(self).wf(),
        ensures
            final(self).wf(),
            final(self)@ == (State {
                default_efforts: default_efforts@,
                last_efforts: last_efforts@,
                ..old(self)@
            }),
    {
        let ghost before = self@;
        self.default_efforts = default_efforts;
        self.last_efforts = last_efforts;
        assert(self@ =~= State { default_efforts: default_efforts@, last_efforts: last_efforts@, ..before });
    }

    fn remember(&mut self)
        requires
            old(self).wf(),
        ensures
            final(self).wf(),
            final(self)@ == remembered(old(self)@),
    {
        let mut efforts = copy_efforts(&self.last_efforts);
        let text = save_harness_state(&mut efforts, self.selected_model.as_str(), self.selected_effort);
        self.push_effect(Effect::Remember { text });
    }

    /// Selects a model for the user.
    pub fn select_model(&mut self, model: String)
        requires
            old(self).wf(),
            counted(model_chosen(old(self)@, model@)),
        ensures
            final(self).wf(),
            final(self)@ == model_chosen(old(self)@, model@),
    {
        proof {
            reveal(model_chosen);
        }
        let ghost before = self@;
        if !holds_text(&self.available_models, model.as_str()) {
            let mut message = "unknown model: ".to_owned();
            message.append(model.as_str());
            self.publish_event(None, Event::HarnessInfo { message, level: HarnessInfoLevel::Normal });
            return;
        }
        let was_empty = self.selected_model.as_str().is_empty();
        self.selected_effort = selected_effort_for_model(
            &self.default_efforts,
            &self.last_efforts,
            &self.model_registry,
            model.as_str(),
        );
        self.selected_model = model.clone();
        let ghost s1 = State { model: model@, effort: self.selected_effort, ..before };
        assert(self@ =~= s1);
        self.remember();
        self.context_input_tokens = None;
        self.context_cached_tokens = None;
        self.context_percent_used = None;
        assert(self@ =~= State { input_tokens: None, cached_tokens: None, percent_used: None, ..remembered(s1) });
        let context_window = model_context_window(&self.model_registry, model.as_str());
        self.publish_event(None, Event::HarnessModelSelected { model: model.clone(), context_window });
        self.publish_event(
            None,
            Event::HarnessContextUsageChanged { input_tokens: None, cached_tokens: None, percent_used: None },
        );
        self.publish_event(None, Event::HarnessEffortChanged { level: self.selected_effort });
        let levels = efforts_for_model(&self.model_registry, model.as_str());
        self.publish_event(None, Event::HarnessEffortsAvailable { levels });
        if was_empty && self.turn_state.is_idle() {
            self.try_advance_queue();
        }
    }

    /// Sets the effort for the user.
    pub fn set_effort(&mut self, level: Effort)
        requires
            old(self).wf(),
        ensures
            final(self).wf(),
            final(self)@ == effort_chosen(old(self)@, level),
    {
        proof {
            reveal(effort_chosen);
        }
        let ghost before = self@;
        let levels = efforts_for_model(&self.model_registry, self.selected_model.as_str());
        self.selected_effort = clamp_effort(level, &levels);
        assert(self@ =~= State { effort: self.selected_effort, ..before });
        self.remember();
        self.publish_event(None, Event::HarnessEffortChanged { level: self.selected_effort });
    }
}

// ---------------------------------------------------------------------------
// Sessions
// ---------------------------------------------------------------------------

/// Whether every node of a session can be shown.
pub open spec fn session_can_be_shown(s: State, session: Seq<char>) -> bool {
    forall|i: int|
        0 <= i < tree_of(s.sessions, session).nodes.len() ==> can_be_shown(
            (#[trigger] tree_of(s.sessions, session).nodes[i]).entry,
        )
}

impl Harness {
    fn emit_all(&mut self, lines: Vec<String>)
        requires
            old(self).wf(),
        ensures
            final(self).wf(),
            final(self)@ == all_noted(old(self)@, texts(lines@)),
    {
        let ghost before = self@;
        let ghost all = texts(lines@);
        let mut i: usize = 0;
        assert(all.take(0) =~= Seq::empty());
        while i < lines.len()
            invariant
                i <= lines.len(),
                all == texts(lines@),
                self.wf(),
                self@ == all_noted(before, all.take(i as int)),
            decreases lines.len() - i,
        {
            assert(all.take(i + 1).drop_last() =~= all.take(i as int));
            assert(all.take(i + 1).last() == lines@[i as int]@);
            self.emit_info(lines[i].clone());
            i += 1;
        }
        assert(all.take(all.len() as int) =~= all);
    }

    /// Shows the tree of the session, one line per node.
    pub fn handle_tree_request(&mut self, session_id: &str)
        requires
            old(self).wf(),
            session_can_be_shown(old(self)@, session_id@),
        ensures
            final(self).wf(),
            final(self)@ == tree_shown(old(self)@, session_id@),
    {
        proof {
            reveal(tree_shown);
        }
        let ghost before = self@;
        if !same(session_id, self.current_session_id.as_str()) {
            let mut message = "tree request for `".to_owned();
            message.append(session_id);
            message.append("` ignored; harness is bound to `");
            message.append(self.current_session_id.as_str());
            message.append("`");
            self.emit_info(message);
            return;
        }
        let lines = match self.store.session(session_id) {
            Some(tree) => {
                assert(tree@ == tree_of(before.sessions, session_id@));
                assert(tree@.nodes.len() == tree.nodes@.len());
                if tree.nodes.len() > 0 {
                    Some(tree_lines(tree))
                } else {
                    None
                }
            },
            None => None,
        };
        match lines {
            Some(lines) => self.emit_all(lines),
            None => {
                let mut message = "session `".to_owned();
                message.append(session_id);
                message.append("` has no entries yet");
                self.emit_info(message);
            },
        }
    }

    /// Moves the head of the session to a node.
    pub fn handle_navigate_tree(&mut self, session_id: &str, node_id: u64) -> (r: Result<(), String>)
        requires
            old(self).wf(),
        ensures
            final(self).wf(),
            tried(*final(self), r) == navigated(old(self)@, session_id@, node_id as int),
    {
        proof {
            reveal(navigated);
        }
        let ghost before = self@;
        if !same(session_id, self.current_session_id.as_str()) {
            let mut message = "navigate ignored: harness is bound to `".to_owned();
            message.append(self.current_session_id.as_str());
            message.append("`");
            self.emit_info(message);
            return Ok(());
        }
        let known = match self.store.session(session_id) {
            Some(tree) => {
                assert(tree@ == tree_of(before.sessions, session_id@));
                assert(tree@.nodes.len() == tree.nodes@.len());
                node_id < tree.nodes.len() as u64
            },
            None => false,
        };
        if !known {
            let mut message = "no node `".to_owned();
            message.append(decimal_text(node_id as u128).as_str());
            message.append("` in session");
            self.emit_info(message);
            return Ok(());
        }
        match self.try_write() {
            Ok(_) => {},
            Err(error) => {
                return Err(error);
            },
        }
        let ghost written = self@;
        let _ = self.store.set_head(session_id, node_id as usize);
        let ghost s1 = State {
            sessions: stored(
                before.sessions,
                session_id@,
                Tree { nodes: tree_of(before.sessions, session_id@).nodes, head: Some(node_id as int) },
            ),
            ..written
        };
        assert(self@ =~= s1);
        self.push_effect(Effect::KeepHead { session: session_id.to_owned(), node: node_id as usize });
        let mut message = "navigated to node ".to_owned();
        message.append(decimal_text(node_id as u128).as_str());
        self.emit_info(message);
        Ok(())
    }

    /// Turns to another session. What was under way in the old one is dropped.
    pub fn switch_session(&mut self, new_session_id: String, reason: SessionStartReason) -> (r: Result<(), String>)
        requires
            old(self).wf(),
            counted(switched(old(self)@, new_session_id@, reason).state),
        ensures
            final(self).wf(),
            tried(*final(self), r) == switched(old(self)@, new_session_id@, reason),
    {
        proof {
            reveal(switched);
        }
        if same(new_session_id.as_str(), self.current_session_id.as_str()) {
            let mut message = "already on session `".to_owned();
            message.append(new_session_id.as_str());
            message.append("`");
            self.emit_info(message);
            return Ok(());
        }
        self.publish_event(None, Event::SessionShutdown { session_id: self.current_session_id.clone() });
        let ghost s1 = self@;
        self.turn_state = TurnState::Idle;
        self.pending_prompts = Vec::new();
        self.pending_request_sessions = Vec::new();
        self.pending_tool_invocations = Vec::new();
        self.current_session_id = new_session_id.clone();
        let ghost s2 = State {
            turn: Turn::Idle,
            pending_prompts: Seq::empty(),
            request_sessions: Seq::empty(),
            pending_calls: Seq::empty(),
            current: new_session_id@,
            ..s1
        };
        assert(self@ =~= s2);
        match self.try_write() {
            Ok(_) => {},
            Err(error) => {
                return Err(error);
            },
        }
        self.push_effect(Effect::OpenSession { session: new_session_id.clone() });
        self.start_session_init(new_session_id.as_str(), reason);
        Ok(())
    }
}

// ---------------------------------------------------------------------------
// Events of clients
// ---------------------------------------------------------------------------

impl Harness {
    /// Does what an event of a client asks for, and says where the store cut it short.
    fn take_client_event(&mut self, client_id: &str, event: Event, denied: Option<String>) -> (r: Result<(), String>)
        requires
            old(self).wf(),
            counted(after_client_event(old(self)@, client_id@, event@, option_text(denied)).state),
            event matches Event::UiTreeRequest { session_id } ==> session_can_be_shown(old(self)@, session_id@),
        ensures
            final(self).wf(),
            tried(*final(self), r) == after_client_event(
                old(self)@,
                client_id@,
                event@,
                option_text(denied),
            ),
    {
        match event {
            Event::LifecycleSubscribe(subscribe) => match denied {
                None => {
                    let selectors = copy_selectors(&subscribe.selectors);
                    let chosen = copy_selectors(&subscribe.selectors);
                    self.set_subscriptions(client_id, chosen);
                    self.publish_event(Some(client_id), Event::LifecycleSubscribe(subscribe));
                    self.catch_up(client_id, &selectors);
                },
                Some(reason) => {
                    let mut text = "subscription denied: ".to_owned();
                    text.append(reason.as_str());
                    self.send_to(client_id, Event::LifecycleDisconnect { reason: Some(text) });
                },
            },
            Event::UiModelSelect { model } => self.select_model(model),
            Event::UiSetEffort { level } => self.set_effort(level),
            Event::UiPromptSubmitted { session_id, text } => {
                return self.take_prompt(session_id, text);
            },
            Event::UiSwitchSession { new_session_id, reason } => {
                let session = new_session_id.clone();
                self.publish_event(Some(client_id), Event::UiSwitchSession { new_session_id, reason });
                return self.switch_session(session, reason);
            },
            Event::UiTreeRequest { session_id } => {
                let session = session_id.clone();
                self.publish_event(Some(client_id), Event::UiTreeRequest { session_id });
                self.handle_tree_request(session.as_str());
            },
            Event::UiNavigateTree { session_id, node_id } => {
                let session = session_id.clone();
                self.publish_event(Some(client_id), Event::UiNavigateTree { session_id, node_id });
                return self.handle_navigate_tree(session.as_str(), node_id);
            },
            Event::LifecycleDisconnect { reason: _ } => {},
            other => self.publish_event(Some(client_id), other),
        }
        Ok(())
    }

    /// Does what an event of a client asks for, and says whether the client stays
    /// connected. `denied` says why a subscription that it holds is not granted. A
    /// failure of the store is an error where nothing else becomes of it.
    pub fn handle_client_event(&mut self, client_id: &str, event: Event, denied: Option<String>) -> (r: Result<
        bool,
        HarnessError,
    >)
        requires
            old(self).wf(),
            counted(after_client_event(old(self)@, client_id@, event@, option_text(denied)).state),
            event matches Event::UiTreeRequest { session_id } ==> session_can_be_shown(old(self)@, session_id@),
        ensures
            final(self).wf(),
            r matches Ok(keep) ==> keep == client_stays(event@, option_text(denied)),
            final(self)@ == after_client_event(old(self)@, client_id@, event@, option_text(denied)).state,
            trouble_of(r) == trouble_in(
                after_client_event(old(self)@, client_id@, event@, option_text(denied)),
            ),
    {
        let keep = match &event {
            Event::LifecycleDisconnect { reason: _ } => false,
            Event::LifecycleSubscribe(_) => denied.is_none(),
            _ => true,
        };
        match self.take_client_event(client_id, event, denied) {
            Ok(_) => Ok(keep),
            Err(error) => Err(HarnessError::SessionStore(error)),
        }
    }
}

} // verus!
