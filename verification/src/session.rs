//! The assistant's conversation sessions: the messages kept per session, the
//! run that currently owns a session, and whether that run was asked to stop.
//!
//! A session that was never touched behaves as an empty one: not cancelled,
//! run number 0, no messages. Every operation that writes to a session first
//! creates it in that state.
use vstd::prelude::*;
use vstd::hash_map::StringHashMap;

use crate::text::{chars_of, trim_str, trimmed};

verus! {

/// A message kept in a session: who said it (`user`, `assistant`, `tool`) and what.
#[derive(Debug)]
pub struct AssistantStoredMessage {
    pub role: String,
    pub content: String,
}

impl AssistantStoredMessage {
    pub fn new(role: &str, content: &str) -> (m: AssistantStoredMessage)
        ensures
            m.role@ == role@,
            m.content@ == content@,
    {
        AssistantStoredMessage { role: role.to_string(), content: content.to_string() }
    }

    fn duplicate(&self) -> (m: AssistantStoredMessage)
        ensures
            message_view(m) == message_view(*self),
    {
        AssistantStoredMessage { role: self.role.clone(), content: self.content.clone() }
    }
}

/// A message as a (role, content) pair of character sequences.
pub open spec fn message_view(m: AssistantStoredMessage) -> (Seq<char>, Seq<char>) {
    (m.role@, m.content@)
}

pub open spec fn messages_view(s: Seq<AssistantStoredMessage>) -> Seq<(Seq<char>, Seq<char>)> {
    s.map_values(|m: AssistantStoredMessage| message_view(m))
}

/// The state of one session.
#[derive(Debug)]
pub struct AssistantSession {
    pub cancelled: bool,
    pub run_id: usize,
    pub messages: Vec<AssistantStoredMessage>,
}

/// A session as (cancelled, run number, messages).
pub open spec fn session_view(s: AssistantSession) -> (bool, usize, Seq<(Seq<char>, Seq<char>)>) {
    (s.cancelled, s.run_id, messages_view(s.messages@))
}

/// The state of a session that was never written to.
pub open spec fn fresh_session() -> (bool, usize, Seq<(Seq<char>, Seq<char>)>) {
    (false, 0, Seq::empty())
}

/// The state of session `id` in `m`, fresh when `m` has no such session.
pub open spec fn session_or_fresh(
    m: Map<Seq<char>, (bool, usize, Seq<(Seq<char>, Seq<char>)>)>,
    id: Seq<char>,
) -> (bool, usize, Seq<(Seq<char>, Seq<char>)>) {
    if m.contains_key(id) {
        m[id]
    } else {
        fresh_session()
    }
}


/// Session `id` after a stop request: cancelled, all else kept.
pub open spec fn after_stop(
    m: Map<Seq<char>, (bool, usize, Seq<(Seq<char>, Seq<char>)>)>,
    id: Seq<char>,
) -> Map<Seq<char>, (bool, usize, Seq<(Seq<char>, Seq<char>)>)> {
    let s = session_or_fresh(m, id);
    m.insert(id, (true, s.1, s.2))
}

/// Session `id` after it was cleared: fresh.
pub open spec fn after_clear(
    m: Map<Seq<char>, (bool, usize, Seq<(Seq<char>, Seq<char>)>)>,
    id: Seq<char>,
) -> Map<Seq<char>, (bool, usize, Seq<(Seq<char>, Seq<char>)>)> {
    m.insert(id, fresh_session())
}

/// Session `id` after a user turn began: next run number, not cancelled,
/// the user's message appended.
pub open spec fn after_user_turn(
    m: Map<Seq<char>, (bool, usize, Seq<(Seq<char>, Seq<char>)>)>,
    id: Seq<char>,
    input: Seq<char>,
) -> Map<Seq<char>, (bool, usize, Seq<(Seq<char>, Seq<char>)>)> {
    let s = session_or_fresh(m, id);
    m.insert(id, (false, (s.1 + 1) as usize, s.2.push(("user"@, input))))
}

/// Session `id` with one more message, all else kept.
pub open spec fn after_append(
    m: Map<Seq<char>, (bool, usize, Seq<(Seq<char>, Seq<char>)>)>,
    id: Seq<char>,
    role: Seq<char>,
    content: Seq<char>,
) -> Map<Seq<char>, (bool, usize, Seq<(Seq<char>, Seq<char>)>)> {
    let s = session_or_fresh(m, id);
    m.insert(id, (s.0, s.1, s.2.push((role, content))))
}

/// Whether `run` is the run that owns session `id`.
pub open spec fn owns_session(
    m: Map<Seq<char>, (bool, usize, Seq<(Seq<char>, Seq<char>)>)>,
    id: Seq<char>,
    run: usize,
) -> bool {
    m.contains_key(id) && m[id].1 == run
}

/// A turn of an earlier exchange, as the model is shown it again.
#[derive(Debug, PartialEq, Eq)]
pub enum ConversationTurn {
    User(String),
    AssistantText(String),
}

pub open spec fn turn_view(t: ConversationTurn) -> (Seq<char>, Seq<char>) {
    match t {
        ConversationTurn::User(c) => ("user"@, c@),
        ConversationTurn::AssistantText(c) => ("assistant"@, c@),
    }
}

pub open spec fn turns_view(s: Seq<ConversationTurn>) -> Seq<(Seq<char>, Seq<char>)> {
    s.map_values(|t: ConversationTurn| turn_view(t))
}

/// The stored messages the model sees again: those of the user and of the
/// assistant, in order; tool results are left out.
pub open spec fn replayed_turns(msgs: Seq<(Seq<char>, Seq<char>)>) -> Seq<(Seq<char>, Seq<char>)>
    decreases msgs.len(),
{
    if msgs.len() == 0 {
        msgs
    } else {
        let prev = replayed_turns(msgs.drop_last());
        let m = msgs.last();
        if m.0 == "user"@ || m.0 == "assistant"@ {
            prev.push(m)
        } else {
            prev
        }
    }
}

/// All sessions, by session id.
pub struct AssistantSessions {
    sessions: StringHashMap<AssistantSession>,
}

impl View for AssistantSessions {
    type V = Map<Seq<char>, (bool, usize, Seq<(Seq<char>, Seq<char>)>)>;

    closed spec fn view(&self) -> Self::V {
        self.sessions@.map_values(|s: AssistantSession| session_view(s))
    }
}

fn copy_messages(v: &Vec<AssistantStoredMessage>) -> (r: Vec<AssistantStoredMessage>)
    ensures
        messages_view(r@) == messages_view(v@),
{
    let mut out: Vec<AssistantStoredMessage> = Vec::new();
    let mut i: usize = 0;
    while i < v.len()
        invariant
            i <= v.len(),
            messages_view(out@) == messages_view(v@.take(i as int)),
        decreases v.len() - i,
    {
        let m = v[i].duplicate();
        let ghost before = out@;
        out.push(m);
        assert(messages_view(out@) =~= messages_view(before).push(message_view(v@[i as int])));
        assert(v@.take(i + 1) =~= v@.take(i as int).push(v@[i as int]));
        assert(messages_view(v@.take(i + 1)) =~= messages_view(v@.take(i as int)).push(
            message_view(v@[i as int]),
        ));
        i += 1;
    }
    assert(v@.take(v.len() as int) =~= v@);
    out
}

fn is_blank(s: &str) -> (r: bool)
    ensures
        r == (trimmed(s@).len() == 0),
{
    chars_of(trim_str(s).as_str()).len() == 0
}

fn str_eq(a: &str, b: &str) -> (r: bool)
    ensures
        r == (a@ == b@),
{
    crate::text::chars_eq(&chars_of(a), &chars_of(b))
}

impl AssistantSessions {
    pub fn new() -> (r: AssistantSessions)
        ensures
            r@ == Map::<Seq<char>, (bool, usize, Seq<(Seq<char>, Seq<char>)>)>::empty(),
    {
        let r = AssistantSessions { sessions: StringHashMap::new() };
        assert(r@ =~= Map::<Seq<char>, (bool, usize, Seq<(Seq<char>, Seq<char>)>)>::empty());
        r
    }

    /// A copy of session `id`, or a fresh session.
    fn session_copy(&self, id: &str) -> (r: AssistantSession)
        ensures
            session_view(r) == session_or_fresh(self@, id@),
    {
        match self.sessions.get(id) {
            Some(s) => {
                let r = AssistantSession {
                    cancelled: s.cancelled,
                    run_id: s.run_id,
                    messages: copy_messages(&s.messages),
                };
                r
            },
            None => {
                let r = AssistantSession { cancelled: false, run_id: 0, messages: Vec::new() };
                assert(messages_view(r.messages@) =~= Seq::empty());
                r
            },
        }
    }

    fn store(&mut self, id: &str, s: AssistantSession)
        ensures
            final(self)@ == old(self)@.insert(id@, session_view(s)),
    {
        let ghost sv = session_view(s);
        self.sessions.insert(id.to_string(), s);
        assert(self@ =~= old(self)@.insert(id@, sv));
    }

    /// Asks the run of session `id` to stop; always acknowledged.
    pub fn stop_run(&mut self, id: &str) -> (r: bool)
        ensures
            r,
            final(self)@ == after_stop(old(self)@, id@),
    {
        let mut s = self.session_copy(id);
        s.cancelled = true;
        self.store(id, s);
        true
    }

    /// Stops the run of session `id` and forgets its messages.
    pub fn clear_session(&mut self, id: &str)
        ensures
            final(self)@ == after_clear(old(self)@, id@),
    {
        let _ = self.stop_run(id);
        let s = AssistantSession { cancelled: false, run_id: 0, messages: Vec::new() };
        assert(messages_view(s.messages@) =~= Seq::empty());
        self.store(id, s);
    }

    /// Whether session `id` was asked to stop.
    pub fn is_cancelled(&self, id: &str) -> (r: bool)
        ensures
            r == session_or_fresh(self@, id@).0,
    {
        match self.sessions.get(id) {
            Some(s) => s.cancelled,
            None => false,
        }
    }

    /// The same question, asked by a running turn.
    pub fn is_cancelled_now(&self, id: &str) -> (r: bool)
        ensures
            r == session_or_fresh(self@, id@).0,
    {
        self.is_cancelled(id)
    }

    /// The messages of session `id`.
    pub fn session_messages(&self, id: &str) -> (r: Vec<AssistantStoredMessage>)
        ensures
            messages_view(r@) == session_or_fresh(self@, id@).2,
    {
        self.session_copy(id).messages
    }

    /// Replaces session `id` by one holding `messages`, not cancelled, run number 0.
    pub fn record_session_messages(&mut self, id: &str, messages: Vec<AssistantStoredMessage>)
        ensures
            final(self)@ == old(self)@.insert(id@, (false, 0usize, messages_view(messages@))),
    {
        let s = AssistantSession { cancelled: false, run_id: 0, messages };
        self.store(id, s);
    }

    /// The run number of session `id` (0 for a fresh session).
    pub fn current_run_id(&self, id: &str) -> (r: usize)
        ensures
            r == session_or_fresh(self@, id@).1,
    {
        match self.sessions.get(id) {
            Some(s) => s.run_id,
            None => 0,
        }
    }

    /// Starts a new turn of session `id`: the run number goes up by one and
    /// is returned, the stop request is withdrawn, and the user's message is kept.
    pub fn begin_user_turn(&mut self, id: &str, user_input: &str) -> (r: usize)
        requires
            session_or_fresh(old(self)@, id@).1 < usize::MAX,
        ensures
            r == session_or_fresh(old(self)@, id@).1 + 1,
            final(self)@ == after_user_turn(old(self)@, id@, user_input@),
    {
        let mut s = self.session_copy(id);
        s.run_id = s.run_id + 1;
        s.cancelled = false;
        let ghost before = s.messages@;
        s.messages.push(AssistantStoredMessage::new("user", user_input));
        assert(messages_view(s.messages@) =~= messages_view(before).push(("user"@, user_input@)));
        let r = s.run_id;
        self.store(id, s);
        r
    }

    /// Whether `run_id` is still the run that owns session `id`.
    pub fn is_current_run(&self, id: &str, run_id: usize) -> (r: bool)
        ensures
            r == owns_session(self@, id@, run_id),
    {
        match self.sessions.get(id) {
            Some(s) => s.run_id == run_id,
            None => false,
        }
    }

    /// The earlier turns of session `id` shown to the model again.
    pub fn conversation_from_session(&self, id: &str) -> (r: Vec<ConversationTurn>)
        ensures
            turns_view(r@) == replayed_turns(session_or_fresh(self@, id@).2),
    {
        let msgs = self.session_copy(id).messages;
        let ghost mv = messages_view(msgs@);
        let mut out: Vec<ConversationTurn> = Vec::new();
        let mut i: usize = 0;
        while i < msgs.len()
            invariant
                i <= msgs.len(),
                mv == messages_view(msgs@),
                turns_view(out@) == replayed_turns(mv.take(i as int)),
            decreases msgs.len() - i,
        {
            let m = &msgs[i];
            proof {
                assert(mv.take(i + 1).drop_last() =~= mv.take(i as int));
                assert(mv.take(i + 1).last() == message_view(*m));
            }
            let ghost before = out@;
            if str_eq(m.role.as_str(), "user") {
                out.push(ConversationTurn::User(m.content.clone()));
                assert(turns_view(out@) =~= turns_view(before).push(message_view(*m)));
            } else if str_eq(m.role.as_str(), "assistant") {
                out.push(ConversationTurn::AssistantText(m.content.clone()));
                assert(turns_view(out@) =~= turns_view(before).push(message_view(*m)));
            }
            i += 1;
        }
        assert(mv.take(msgs.len() as int) =~= mv);
        out
    }

    fn append_message(&mut self, id: &str, role: &str, content: &str)
        ensures
            final(self)@ == after_append(old(self)@, id@, role@, content@),
    {
        let mut s = self.session_copy(id);
        let ghost before = s.messages@;
        s.messages.push(AssistantStoredMessage::new(role, content));
        assert(messages_view(s.messages@) =~= messages_view(before).push((role@, content@)));
        self.store(id, s);
    }

    /// Keeps the text that came with tool calls, unless it is blank.
    pub fn append_assistant_tool_context(&mut self, id: &str, content: &str)
        ensures
            trimmed(content@).len() == 0 ==> final(self)@ == old(self)@,
            trimmed(content@).len() != 0 ==> final(self)@ == after_append(old(self)@, id@, "assistant"@, content@),
    {
        if is_blank(content) {
            return;
        }
        self.append_message(id, "assistant", content);
    }

    /// Keeps the assistant's final answer.
    pub fn append_assistant_message(&mut self, id: &str, content: &str)
        ensures
            final(self)@ == after_append(old(self)@, id@, "assistant"@, content@),
    {
        self.append_message(id, "assistant", content);
    }

    /// Keeps the output of a tool.
    pub fn append_tool_result(&mut self, id: &str, result: &str)
        ensures
            final(self)@ == after_append(old(self)@, id@, "tool"@, result@),
    {
        self.append_message(id, "tool", result);
    }
}

// ---------------------------------------------------------------------------
// Laws
// ---------------------------------------------------------------------------

/// A stop request always leaves the session cancelled, and keeps its run
/// number and its messages.
pub proof fn law_stop_marks_cancelled(
    m: Map<Seq<char>, (bool, usize, Seq<(Seq<char>, Seq<char>)>)>,
    id: Seq<char>,
)
    ensures
        session_or_fresh(after_stop(m, id), id).0,
        session_or_fresh(after_stop(m, id), id).1 == session_or_fresh(m, id).1,
        session_or_fresh(after_stop(m, id), id).2 == session_or_fresh(m, id).2,
{
}

/// Clearing a session, whatever it held, leaves it not cancelled and without
/// messages, also after a stop request.
pub proof fn law_clear_resets(
    m: Map<Seq<char>, (bool, usize, Seq<(Seq<char>, Seq<char>)>)>,
    id: Seq<char>,
)
    ensures
        !session_or_fresh(after_clear(m, id), id).0,
        session_or_fresh(after_clear(m, id), id).2.len() == 0,
        after_clear(after_stop(m, id), id) == after_clear(m, id),
{
    assert(after_clear(after_stop(m, id), id) =~= after_clear(m, id));
}

/// A new user turn owns the session, withdraws any stop request and
/// supersedes every earlier run of that session.
pub proof fn law_new_turn_supersedes(
    m: Map<Seq<char>, (bool, usize, Seq<(Seq<char>, Seq<char>)>)>,
    id: Seq<char>,
    input: Seq<char>,
    earlier: usize,
)
    requires
        session_or_fresh(m, id).1 < usize::MAX,
        earlier <= session_or_fresh(m, id).1,
    ensures
        owns_session(after_user_turn(m, id, input), id, (session_or_fresh(m, id).1 + 1) as usize),
        !owns_session(after_user_turn(m, id, input), id, earlier),
        !session_or_fresh(after_user_turn(m, id, input), id).0,
{
}

/// What is done to one session leaves every other session as it was.
pub proof fn law_sessions_are_independent(
    m: Map<Seq<char>, (bool, usize, Seq<(Seq<char>, Seq<char>)>)>,
    id: Seq<char>,
    other: Seq<char>,
    input: Seq<char>,
    role: Seq<char>,
)
    requires
        other != id,
    ensures
        session_or_fresh(after_stop(m, id), other) == session_or_fresh(m, other),
        session_or_fresh(after_clear(m, id), other) == session_or_fresh(m, other),
        session_or_fresh(after_user_turn(m, id, input), other) == session_or_fresh(m, other),
        session_or_fresh(after_append(m, id, role, input), other) == session_or_fresh(m, other),
{
}

/// The turns replayed to the model after a new user turn are those before it
/// followed by the user's message.
pub proof fn law_user_turn_is_replayed(
    m: Map<Seq<char>, (bool, usize, Seq<(Seq<char>, Seq<char>)>)>,
    id: Seq<char>,
    input: Seq<char>,
)
    ensures
        replayed_turns(session_or_fresh(after_user_turn(m, id, input), id).2)
            == replayed_turns(session_or_fresh(m, id).2).push(("user"@, input)),
{
    let s = session_or_fresh(m, id).2.push(("user"@, input));
    assert(s.drop_last() =~= session_or_fresh(m, id).2);
}

} // verus!
