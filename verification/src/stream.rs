//! Streaming model replies: splitting a server-sent event stream into its
//! `data:` payloads, and gathering the text, the reasoning and the tool calls
//! that arrive piece by piece.
use vstd::prelude::*;

use crate::calendar::split_on;
use crate::text::{chars_of, has_prefix, string_from_chars, string_views, trim_str, trimmed};

verus! {

// ---------------------------------------------------------------------------
// Server-sent events
// ---------------------------------------------------------------------------

/// `line` without the carriage returns at its end.
pub open spec fn without_trailing_cr(line: Seq<char>) -> Seq<char>
    decreases line.len(),
{
    if line.len() > 0 && line.last() == '\r' {
        without_trailing_cr(line.drop_last())
    } else {
        line
    }
}

/// The payload a line carries: the trimmed text after `data:`, if the line
/// (its trailing carriage returns removed) starts with `data:`.
pub open spec fn line_payload(line: Seq<char>) -> Option<Seq<char>> {
    let l = without_trailing_cr(line);
    if has_prefix(l, "data:"@) {
        Some(trimmed(l.skip(5)))
    } else {
        None
    }
}

/// The payloads of `lines`, in order.
pub open spec fn payloads(lines: Seq<Seq<char>>) -> Seq<Seq<char>>
    decreases lines.len(),
{
    if lines.len() == 0 {
        Seq::empty()
    } else {
        let prev = payloads(lines.drop_last());
        match line_payload(lines.last()) {
            Some(p) => prev.push(p),
            None => prev,
        }
    }
}

/// The text of an event stream received so far that does not yet end a line.
pub struct SseBuffer {
    pending: Vec<char>,
}

impl View for SseBuffer {
    type V = Seq<char>;

    closed spec fn view(&self) -> Seq<char> {
        self.pending@
    }
}

fn trim_end_cr(line: &[char]) -> (r: Vec<char>)
    ensures
        r@ == without_trailing_cr(line@),
{
    let mut n = line.len();
    assert(line@.take(n as int) =~= line@);
    while n > 0 && line[n - 1] == '\r'
        invariant
            n <= line.len(),
            without_trailing_cr(line@) == without_trailing_cr(line@.take(n as int)),
        decreases n,
    {
        assert(line@.take(n as int).drop_last() =~= line@.take(n - 1));
        n -= 1;
    }
    assert(n > 0 ==> line@.take(n as int).last() == line@[n - 1]);
    crate::numbers::slice_range(line, 0, n)
}

fn payload_of(line: &[char]) -> (r: Option<String>)
    ensures
        match r {
            Some(p) => line_payload(line@) == Some(p@),
            None => line_payload(line@) is None,
        },
{
    proof {
        reveal_strlit("data:");
    }
    let l = trim_end_cr(line);
    if crate::text::has_prefix_exec(&l, &chars_of("data:")) {
        let rest = string_from_chars(&crate::numbers::slice_from(&l, 5));
        Some(trim_str(rest.as_str()))
    } else {
        None
    }
}



proof fn lemma_payloads_concat(a: Seq<Seq<char>>, b: Seq<Seq<char>>)
    ensures
        payloads(a + b) == payloads(a) + payloads(b),
    decreases b.len(),
{
    if b.len() == 0 {
        assert(a + b =~= a);
        assert(payloads(a) + payloads(b) =~= payloads(a));
    } else {
        lemma_payloads_concat(a, b.drop_last());
        assert((a + b).drop_last() =~= a + b.drop_last());
        assert((a + b).last() == b.last());
        match line_payload(b.last()) {
            Some(p) => {
                assert(payloads(a) + payloads(b.drop_last()).push(p) =~= (payloads(a) + payloads(b.drop_last())).push(p));
            },
            None => {},
        }
    }
}



/// However a stream is cut into chunks, the payloads that come out of
/// pushing the chunks one after the other are those of the whole text.
pub proof fn law_chunking_does_not_matter(pending: Seq<char>, a: Seq<char>, b: Seq<char>)
    ensures
        payloads(split_on(pending + a, '\n').drop_last())
            + payloads(split_on(split_on(pending + a, '\n').last() + b, '\n').drop_last())
            == payloads(split_on(pending + a + b, '\n').drop_last()),
        split_on(split_on(pending + a, '\n').last() + b, '\n').last() == split_on(pending + a + b, '\n').last(),
{
    let x = pending + a;
    crate::calendar::lemma_split_on_concat(x, b, '\n');
    crate::calendar::lemma_split_on_nonempty(x, '\n');
    let sx = split_on(x, '\n');
    let e = split_on(sx.last() + b, '\n');
    crate::calendar::lemma_split_on_nonempty(sx.last() + b, '\n');
    assert((sx.drop_last() + e).drop_last() =~= sx.drop_last() + e.drop_last());
    lemma_payloads_concat(sx.drop_last(), e.drop_last());
}

impl SseBuffer {
    /// The unfinished line never holds a line break.
    #[verifier::type_invariant]
    spec fn no_line_break(self) -> bool {
        !self.pending@.contains('\n')
    }

    pub fn new() -> (r: SseBuffer)
        ensures
            r@ == Seq::<char>::empty(),
    {
        SseBuffer { pending: Vec::new() }
    }

    /// Takes in the next piece of text: the payloads of the lines it
    /// completes come out, in order, and the unfinished line is kept.
    pub fn push_chunk(&mut self, chunk: &str) -> (r: Vec<String>)
        ensures
            string_views(r@) == payloads(split_on(old(self)@ + chunk@, '\n').drop_last()),
            final(self)@ == split_on(old(self)@ + chunk@, '\n').last(),
    {
        proof {
            use_type_invariant(&*self);
        }
        let c = chars_of(chunk);
        let ghost start = self.pending@;
        let mut out: Vec<String> = Vec::new();
        let mut i: usize = 0;
        proof {
            crate::calendar::lemma_split_on_without(start, '\n');
            assert(start + c@.take(0) =~= start);
            assert(seq![start].drop_last() =~= Seq::<Seq<char>>::empty());
            assert(string_views(out@) =~= Seq::<Seq<char>>::empty());
        }
        while i < c.len()
            invariant
                i <= c.len(),
                c@ == chunk@,
                start == old(self)@,
                split_on(start + c@.take(i as int), '\n').len() >= 1,
                string_views(out@) == payloads(split_on(start + c@.take(i as int), '\n').drop_last()),
                self@ == split_on(start + c@.take(i as int), '\n').last(),
            decreases c.len() - i,
        {
            proof {
                use_type_invariant(&*self);
            }
            let ch = c[i];
            let ghost before = start + c@.take(i as int);
            assert(start + c@.take(i + 1) =~= before.push(ch));
            proof {
                crate::calendar::lemma_split_on_push(before, ch, '\n');
            }
            let ghost parts = split_on(before, '\n');
            if ch == '\n' {
                let line = self.take_pending();
                let p = payload_of(&line);
                let ghost pv = string_views(out@);
                assert(split_on(before.push(ch), '\n').drop_last() =~= parts);
                match p {
                    Some(text) => {
                        out.push(text);
                        assert(string_views(out@) =~= pv.push(line_payload(parts.last())->Some_0));
                    },
                    None => {},
                }
            } else {
                self.push_char(ch);
                let ghost np = split_on(before.push(ch), '\n');
                assert(np.drop_last() =~= parts.drop_last());
            }
            i += 1;
        }
        assert(start + c@.take(c.len() as int) =~= start + chunk@);
        out
    }

    fn take_pending(&mut self) -> (r: Vec<char>)
        ensures
            r@ == old(self)@,
            final(self)@ == Seq::<char>::empty(),
    {
        let mut taken: Vec<char> = Vec::new();
        let mut i: usize = 0;
        while i < self.pending.len()
            invariant
                i <= self.pending@.len(),
                self.pending@ == old(self)@,
                taken@ == self.pending@.take(i as int),
            decreases self.pending@.len() - i,
        {
            taken.push(self.pending[i]);
            assert(taken@ =~= self.pending@.take(i + 1));
            i += 1;
        }
        assert(self.pending@.take(i as int) =~= self.pending@);
        self.pending = Vec::new();
        taken
    }

    fn push_char(&mut self, ch: char)
        requires
            ch != '\n',
        ensures
            final(self)@ == old(self)@.push(ch),
    {
        proof {
            use_type_invariant(&*self);
        }
        let mut v = self.take_pending();
        v.push(ch);
        assert forall|k: int| 0 <= k < v@.len() implies v@[k] != '\n' by {
            if k < v@.len() - 1 {
                assert(v@[k] == old(self)@[k]);
            }
        }
        self.pending = v;
    }

    /// What is left when the stream ends: the payload of the unfinished line, if any.
    pub fn finish(self) -> (r: Option<String>)
        ensures
            match r {
                Some(p) => finish_payload(self@) == Some(p@),
                None => finish_payload(self@) is None,
            },
    {
        proof {
            reveal_strlit("data:");
        }
        let t = chars_of(trim_str(string_from_chars(&self.pending).as_str()).as_str());
        if crate::text::has_prefix_exec(&t, &chars_of("data:")) {
            let rest = string_from_chars(&crate::numbers::slice_from(&t, 5));
            Some(trim_str(rest.as_str()))
        } else {
            None
        }
    }
}

/// The payload of the text left at the end of a stream: the trimmed text
/// after `data:` when the whole trimmed rest starts with it.
pub open spec fn finish_payload(rest: Seq<char>) -> Option<Seq<char>> {
    let t = trimmed(rest);
    if has_prefix(t, "data:"@) {
        Some(trimmed(t.skip(5)))
    } else {
        None
    }
}


// ---------------------------------------------------------------------------
// Gathering a streamed reply
// ---------------------------------------------------------------------------

/// A tool call as its pieces arrive: its id, its name and its argument text.
#[derive(Debug, PartialEq, Eq)]
pub struct ToolCallParts {
    pub id: String,
    pub name: String,
    pub arguments: String,
}

pub open spec fn parts_view(p: ToolCallParts) -> (Seq<char>, Seq<char>, Seq<char>) {
    (p.id@, p.name@, p.arguments@)
}

pub open spec fn no_parts() -> (Seq<char>, Seq<char>, Seq<char>) {
    (Seq::empty(), Seq::empty(), Seq::empty())
}

/// Tool calls by the position the model gave them, in increasing position.
pub open spec fn slots_view(s: Seq<(usize, ToolCallParts)>) -> Seq<(usize, (Seq<char>, Seq<char>, Seq<char>))> {
    s.map_values(|e: (usize, ToolCallParts)| (e.0, parts_view(e.1)))
}

pub open spec fn strictly_ordered(s: Seq<(usize, (Seq<char>, Seq<char>, Seq<char>))>) -> bool {
    forall|i: int, j: int| 0 <= i < j < s.len() ==> s[i].0 < s[j].0
}

/// How many calls have a position below `index`: where a call at `index` goes.
pub open spec fn slot(s: Seq<(usize, (Seq<char>, Seq<char>, Seq<char>))>, index: usize) -> int
    decreases s.len(),
{
    if s.len() == 0 {
        0
    } else {
        slot(s.drop_last(), index) + if s.last().0 < index { 1int } else { 0int }
    }
}

/// The calls after the call at `index` (a fresh one if there is none) was changed by `f`.
pub open spec fn with_call(
    s: Seq<(usize, (Seq<char>, Seq<char>, Seq<char>))>,
    index: usize,
    f: spec_fn((Seq<char>, Seq<char>, Seq<char>)) -> (Seq<char>, Seq<char>, Seq<char>),
) -> Seq<(usize, (Seq<char>, Seq<char>, Seq<char>))> {
    let k = slot(s, index);
    if k < s.len() && s[k].0 == index {
        s.update(k, (index, f(s[k].1)))
    } else {
        s.insert(k, (index, f(no_parts())))
    }
}

/// The finished tool calls: those that got a name, in position order, each
/// without an id given `tool-` and its name as id.
pub open spec fn finished_calls(s: Seq<(usize, (Seq<char>, Seq<char>, Seq<char>))>) -> Seq<(Seq<char>, Seq<char>, Seq<char>)>
    decreases s.len(),
{
    if s.len() == 0 {
        Seq::empty()
    } else {
        let prev = finished_calls(s.drop_last());
        let p = s.last().1;
        if p.1.len() == 0 {
            prev
        } else {
            prev.push((if p.0.len() == 0 { "tool-"@ + p.1 } else { p.0 }, p.1, p.2))
        }
    }
}

proof fn lemma_slot_at(s: Seq<(usize, (Seq<char>, Seq<char>, Seq<char>))>, index: usize, k: int)
    requires
        strictly_ordered(s),
        0 <= k <= s.len(),
        forall|j: int| 0 <= j < k ==> s[j].0 < index,
        k == s.len() || s[k].0 >= index,
    ensures
        slot(s, index) == k,
    decreases s.len(),
{
    if s.len() > 0 {
        let t = s.drop_last();
        if k == s.len() {
            assert(s.last().0 < index) by {
                assert(s[s.len() - 1] == s.last());
            }
            lemma_slot_at(t, index, t.len() as int);
        } else {
            assert(s.last().0 >= index) by {
                if k < s.len() - 1 {
                    assert(s[k].0 < s[s.len() - 1].0);
                }
                assert(s[s.len() - 1] == s.last());
            }
            lemma_slot_at(t, index, k);
        }
    }
}

/// A reply as it streams in: its text, its reasoning and its tool calls.
pub struct StreamedReply {
    content: Vec<char>,
    reasoning: Vec<char>,
    calls: Vec<(usize, ToolCallParts)>,
}

impl StreamedReply {
    /// The calls are kept in increasing position order.
    pub closed spec fn wf(self) -> bool {
        strictly_ordered(slots_view(self.calls@))
    }

    pub closed spec fn content(self) -> Seq<char> {
        self.content@
    }

    pub closed spec fn reasoning(self) -> Seq<char> {
        self.reasoning@
    }

    pub closed spec fn calls(self) -> Seq<(usize, (Seq<char>, Seq<char>, Seq<char>))> {
        slots_view(self.calls@)
    }

    pub fn new() -> (r: StreamedReply)
        ensures
            r.wf(),
            r.content() == Seq::<char>::empty(),
            r.reasoning() == Seq::<char>::empty(),
            r.calls() == Seq::<(usize, (Seq<char>, Seq<char>, Seq<char>))>::empty(),
    {
        let r = StreamedReply { content: Vec::new(), reasoning: Vec::new(), calls: Vec::new() };
        assert(slots_view(r.calls@) =~= Seq::empty());
        r
    }

    /// Appends a piece of the reply's text.
    pub fn push_text(&mut self, text: &str)
        requires
            old(self).wf(),
        ensures
            final(self).wf(),
            final(self).content() == old(self).content() + text@,
            final(self).reasoning() == old(self).reasoning(),
            final(self).calls() == old(self).calls(),
    {
        let t = chars_of(text);
        append_all(&mut self.content, &t);
    }

    /// Appends a piece of the model's reasoning.
    pub fn push_reasoning(&mut self, text: &str)
        requires
            old(self).wf(),
        ensures
            final(self).wf(),
            final(self).reasoning() == old(self).reasoning() + text@,
            final(self).content() == old(self).content(),
            final(self).calls() == old(self).calls(),
    {
        let t = chars_of(text);
        append_all(&mut self.reasoning, &t);
    }

    /// Where the call at `index` is, or where it would go.
    fn find_slot(&self, index: usize) -> (r: usize)
        requires
            self.wf(),
        ensures
            r == slot(self.calls(), index),
            r <= self.calls@.len(),
    {
        let mut k: usize = 0;
        while k < self.calls.len() && self.calls[k].0 < index
            invariant
                k <= self.calls@.len(),
                forall|j: int| 0 <= j < k ==> self.calls()[j].0 < index,
            decreases self.calls@.len() - k,
        {
            assert(self.calls()[k as int].0 == self.calls@[k as int].0);
            k += 1;
        }
        proof {
            if k < self.calls@.len() {
                assert(self.calls()[k as int].0 == self.calls@[k as int].0);
            }
            lemma_slot_at(self.calls(), index, k as int);
        }
        k
    }

    /// Takes the call at `index` out, or makes a fresh one, and says where it goes back.
    fn take_call(&mut self, index: usize) -> (r: (usize, bool, ToolCallParts))
        requires
            old(self).wf(),
        ensures
            final(self).wf(),
            r.0 == slot(old(self).calls(), index),
            r.1 == (r.0 < old(self).calls().len() && old(self).calls()[r.0 as int].0 == index),
            r.1 ==> parts_view(r.2) == old(self).calls()[r.0 as int].1,
            !r.1 ==> parts_view(r.2) == no_parts(),
            r.1 ==> final(self).calls() == old(self).calls().remove(r.0 as int),
            !r.1 ==> final(self).calls() == old(self).calls(),
            final(self).content() == old(self).content(),
            final(self).reasoning() == old(self).reasoning(),
    {
        let k = self.find_slot(index);
        if k < self.calls.len() && self.calls[k].0 == index {
            let ghost before = self.calls@;
            let (_, parts) = self.calls.remove(k);
            assert(slots_view(self.calls@) =~= slots_view(before).remove(k as int));
            assert(parts_view(parts) == slots_view(before)[k as int].1);
            (k, true, parts)
        } else {
            proof {
                if k < self.calls@.len() {
                    assert(self.calls()[k as int].0 == self.calls@[k as int].0);
                }
            }
            let fresh = ToolCallParts { id: String::new(), name: String::new(), arguments: String::new() };
            (k, false, fresh)
        }
    }

    /// Puts a call back at its place.
    fn put_call(&mut self, k: usize, index: usize, parts: ToolCallParts)
        requires
            old(self).wf(),
            k <= old(self).calls().len(),
            forall|j: int| 0 <= j < k ==> old(self).calls()[j].0 < index,
            forall|j: int| k <= j < old(self).calls().len() ==> old(self).calls()[j].0 > index,
        ensures
            final(self).wf(),
            final(self).calls() == old(self).calls().insert(k as int, (index, parts_view(parts))),
            final(self).content() == old(self).content(),
            final(self).reasoning() == old(self).reasoning(),
    {
        let ghost before = slots_view(self.calls@);
        let ghost pv = parts_view(parts);
        self.calls.insert(k, (index, parts));
        assert(slots_view(self.calls@) =~= before.insert(k as int, (index, pv)));
        proof {
            let after = slots_view(self.calls@);
            assert forall|i: int, j: int| 0 <= i < j < after.len() implies after[i].0 < after[j].0 by {
                if j < k {
                    assert(after[i] == before[i] && after[j] == before[j]);
                } else if j == k {
                    assert(after[i] == before[i]);
                } else if i < k {
                    assert(after[i] == before[i] && after[j] == before[j - 1]);
                } else if i == k {
                    assert(after[j] == before[j - 1]);
                } else {
                    assert(after[i] == before[i - 1] && after[j] == before[j - 1]);
                }
            }
        }
    }

    /// Merges a piece of an OpenAI-style tool call: a given id or name
    /// replaces the old one, given argument text is appended.
    pub fn merge_tool_call_delta(&mut self, index: usize, id: Option<&str>, name: Option<&str>, arguments: Option<&str>)
        requires
            old(self).wf(),
        ensures
            final(self).wf(),
            final(self).calls() == with_call(old(self).calls(), index, |p: (Seq<char>, Seq<char>, Seq<char>)| (
                match id { Some(v) => v@, None => p.0 },
                match name { Some(v) => v@, None => p.1 },
                match arguments { Some(v) => p.2 + v@, None => p.2 },
            )),
            final(self).content() == old(self).content(),
            final(self).reasoning() == old(self).reasoning(),
    {
        let ghost old_calls = self.calls();
        let (k, found, parts) = self.take_call(index);
        let new_id = match id {
            Some(v) => v.to_string(),
            None => parts.id,
        };
        let new_name = match name {
            Some(v) => v.to_string(),
            None => parts.name,
        };
        let new_arguments = match arguments {
            Some(v) => concat(parts.arguments.as_str(), v),
            None => parts.arguments,
        };
        let merged = ToolCallParts { id: new_id, name: new_name, arguments: new_arguments };
        self.place(k, found, index, merged, Ghost(old_calls));
    }

    fn place(
        &mut self,
        k: usize,
        found: bool,
        index: usize,
        parts: ToolCallParts,
        old_calls: Ghost<Seq<(usize, (Seq<char>, Seq<char>, Seq<char>))>>,
    )
        requires
            old(self).wf(),
            strictly_ordered(old_calls@),
            k == slot(old_calls@, index),
            found == (k < old_calls@.len() && old_calls@[k as int].0 == index),
            found ==> old(self).calls() == old_calls@.remove(k as int),
            !found ==> old(self).calls() == old_calls@,
        ensures
            final(self).wf(),
            found ==> final(self).calls() == old_calls@.update(k as int, (index, parts_view(parts))),
            !found ==> final(self).calls() == old_calls@.insert(k as int, (index, parts_view(parts))),
            final(self).content() == old(self).content(),
            final(self).reasoning() == old(self).reasoning(),
    {
        proof {
            let s = old_calls@;
            assert(0 <= k <= s.len()) by {
                lemma_slot_bounds(s, index);
            }
            lemma_slot_split(s, index);
            let cur = self.calls();
            if found {
                assert forall|j: int| 0 <= j < k implies cur[j].0 < index by {
                    assert(cur[j] == s[j]);
                }
                assert forall|j: int| k <= j < cur.len() implies cur[j].0 > index by {
                    assert(cur[j] == s[j + 1]);
                    assert(s[k as int].0 < s[j + 1].0);
                }
            } else {
                assert forall|j: int| k <= j < cur.len() implies cur[j].0 > index by {
                    assert(s[j].0 >= index);
                    if j == k {
                        assert(s[j].0 != index);
                    } else {
                        assert(s[k as int].0 < s[j].0);
                    }
                }
            }
        }
        self.put_call(k, index, parts);
        proof {
            if found {
                assert(old_calls@.remove(k as int).insert(k as int, (index, parts_view(parts)))
                    =~= old_calls@.update(k as int, (index, parts_view(parts))));
            }
        }
    }

    /// Starts an Anthropic-style tool use: its id and name are set, and its
    /// input when the block already carries one.
    pub fn start_tool_use(&mut self, index: usize, id: &str, name: &str, input_json: Option<&str>)
        requires
            old(self).wf(),
        ensures
            final(self).wf(),
            final(self).calls() == with_call(old(self).calls(), index, |p: (Seq<char>, Seq<char>, Seq<char>)| (
                id@,
                name@,
                match input_json { Some(v) => v@, None => p.2 },
            )),
            final(self).content() == old(self).content(),
            final(self).reasoning() == old(self).reasoning(),
    {
        let ghost old_calls = self.calls();
        let (k, found, parts) = self.take_call(index);
        let new_arguments = match input_json {
            Some(v) => v.to_string(),
            None => parts.arguments,
        };
        let merged = ToolCallParts { id: id.to_string(), name: name.to_string(), arguments: new_arguments };
        self.place(k, found, index, merged, Ghost(old_calls));
    }

    /// Appends a piece of an Anthropic-style tool input.
    pub fn append_tool_input(&mut self, index: usize, partial_json: &str)
        requires
            old(self).wf(),
        ensures
            final(self).wf(),
            final(self).calls() == with_call(old(self).calls(), index, |p: (Seq<char>, Seq<char>, Seq<char>)| (
                p.0,
                p.1,
                p.2 + partial_json@,
            )),
            final(self).content() == old(self).content(),
            final(self).reasoning() == old(self).reasoning(),
    {
        let ghost old_calls = self.calls();
        let (k, found, parts) = self.take_call(index);
        let merged = ToolCallParts {
            id: parts.id,
            name: parts.name,
            arguments: concat(parts.arguments.as_str(), partial_json),
        };
        self.place(k, found, index, merged, Ghost(old_calls));
    }

    /// The reply's text, its reasoning and its finished tool calls.
    pub fn finish(self) -> (r: (String, String, Vec<ToolCallParts>))
        requires
            self.wf(),
        ensures
            r.0@ == self.content(),
            r.1@ == self.reasoning(),
            r.2@.map_values(|p: ToolCallParts| parts_view(p)) == finished_calls(self.calls()),
    {
        let ghost calls = self.calls();
        let content = string_from_chars(&self.content);
        let reasoning = string_from_chars(&self.reasoning);
        let mut out: Vec<ToolCallParts> = Vec::new();
        let mut i: usize = 0;
        while i < self.calls.len()
            invariant
                i <= self.calls@.len(),
                calls == slots_view(self.calls@),
                out@.map_values(|p: ToolCallParts| parts_view(p)) == finished_calls(calls.take(i as int)),
            decreases self.calls@.len() - i,
        {
            let p = &self.calls[i].1;
            proof {
                assert(calls.take(i + 1).drop_last() =~= calls.take(i as int));
                assert(calls.take(i + 1).last() == calls[i as int]);
                assert(calls[i as int].1 == parts_view(*p));
            }
            let ghost before = out@.map_values(|q: ToolCallParts| parts_view(q));
            if chars_of(p.name.as_str()).len() != 0 {
                let id = if chars_of(p.id.as_str()).len() == 0 {
                    concat("tool-", p.name.as_str())
                } else {
                    p.id.clone()
                };
                let call = ToolCallParts { id, name: p.name.clone(), arguments: p.arguments.clone() };
                out.push(call);
                assert(out@.map_values(|q: ToolCallParts| parts_view(q)) =~= before.push(parts_view(out@[out@.len() - 1])));
            }
            i += 1;
        }
        assert(calls.take(self.calls@.len() as int) =~= calls);
        (content, reasoning, out)
    }
}

/// A piece of a streamed reply, as read from one event of the provider's
/// stream.
#[derive(Debug, PartialEq, Eq)]
pub enum StreamEvent {
    /// The stream is over (`[DONE]`, or `message_stop`).
    End,
    /// A piece of the reply's text.
    Text { text: String },
    /// A piece of the model's reasoning.
    Reasoning { text: String },
    /// The text an Anthropic text block starts with; empty text adds nothing.
    TextBlockStart { text: String },
    /// The thinking an Anthropic thinking block starts with; empty adds nothing.
    ReasoningBlockStart { text: String },
    /// A piece of an OpenAI-style tool call.
    ToolCallDelta { index: usize, id: Option<String>, name: Option<String>, arguments: Option<String> },
    /// The start of an Anthropic-style tool use, with its input when given.
    ToolUseStart { index: usize, id: String, name: String, input: Option<String> },
    /// A piece of an Anthropic-style tool input.
    ToolInput { index: usize, partial: String },
    /// Anything else; it changes nothing.
    Other,
}

/// What the caller does after an event: pass on a piece of text or of
/// reasoning as it arrives, and read on or stop.
#[derive(Debug, PartialEq, Eq)]
pub struct StreamEffect {
    pub token: Option<String>,
    pub reasoning: Option<String>,
    pub read_on: bool,
}

pub open spec fn opt_text(o: Option<String>) -> Option<Seq<char>> {
    match o {
        Some(s) => Some(s@),
        None => None,
    }
}

/// The text added to the reply's content by an event.
pub open spec fn event_text(e: StreamEvent) -> Seq<char> {
    match e {
        StreamEvent::Text { text } => text@,
        StreamEvent::TextBlockStart { text } => text@,
        _ => Seq::empty(),
    }
}

/// The reasoning added by an event.
pub open spec fn event_reasoning(e: StreamEvent) -> Seq<char> {
    match e {
        StreamEvent::Reasoning { text } => text@,
        StreamEvent::ReasoningBlockStart { text } => text@,
        _ => Seq::empty(),
    }
}

/// The tool calls after an event.
pub open spec fn event_calls(
    calls: Seq<(usize, (Seq<char>, Seq<char>, Seq<char>))>,
    e: StreamEvent,
) -> Seq<(usize, (Seq<char>, Seq<char>, Seq<char>))> {
    match e {
        StreamEvent::ToolCallDelta { index, id, name, arguments } => with_call(
            calls,
            index,
            |p: (Seq<char>, Seq<char>, Seq<char>)|
                (
                    match id {
                        Some(v) => v@,
                        None => p.0,
                    },
                    match name {
                        Some(v) => v@,
                        None => p.1,
                    },
                    match arguments {
                        Some(v) => p.2 + v@,
                        None => p.2,
                    },
                ),
        ),
        StreamEvent::ToolUseStart { index, id, name, input } => with_call(
            calls,
            index,
            |p: (Seq<char>, Seq<char>, Seq<char>)|
                (
                    id@,
                    name@,
                    match input {
                        Some(v) => v@,
                        None => p.2,
                    },
                ),
        ),
        StreamEvent::ToolInput { index, partial } => with_call(
            calls,
            index,
            |p: (Seq<char>, Seq<char>, Seq<char>)| (p.0, p.1, p.2 + partial@),
        ),
        _ => calls,
    }
}

/// The piece passed on as it arrives: the text of a text event, or of a
/// block start when it is not empty; likewise for reasoning.
pub open spec fn emitted_token(e: StreamEvent) -> Option<Seq<char>> {
    match e {
        StreamEvent::Text { text } => Some(text@),
        StreamEvent::TextBlockStart { text } => if text@.len() > 0 {
            Some(text@)
        } else {
            None
        },
        _ => None,
    }
}

pub open spec fn emitted_reasoning(e: StreamEvent) -> Option<Seq<char>> {
    match e {
        StreamEvent::Reasoning { text } => Some(text@),
        StreamEvent::ReasoningBlockStart { text } => if text@.len() > 0 {
            Some(text@)
        } else {
            None
        },
        _ => None,
    }
}

impl StreamedReply {
    /// Takes one event into the reply, and says what to pass on and whether
    /// to read on: the stream stops at its end event only.
    pub fn apply(&mut self, event: StreamEvent) -> (r: StreamEffect)
        requires
            old(self).wf(),
        ensures
            final(self).wf(),
            final(self).content() == old(self).content() + event_text(event),
            final(self).reasoning() == old(self).reasoning() + event_reasoning(event),
            final(self).calls() == event_calls(old(self).calls(), event),
            opt_text(r.token) == emitted_token(event),
            opt_text(r.reasoning) == emitted_reasoning(event),
            r.read_on == !(event is End),
    {
        let ghost before = *self;
        let none = StreamEffect { token: None, reasoning: None, read_on: true };
        match event {
            StreamEvent::End => {
                assert(self.content() =~= before.content() + Seq::<char>::empty());
                assert(self.reasoning() =~= before.reasoning() + Seq::<char>::empty());
                StreamEffect { token: None, reasoning: None, read_on: false }
            },
            StreamEvent::Text { text } => {
                self.push_text(text.as_str());
                assert(self.reasoning() =~= before.reasoning() + Seq::<char>::empty());
                StreamEffect { token: Some(text), reasoning: None, read_on: true }
            },
            StreamEvent::TextBlockStart { text } => {
                if chars_of(text.as_str()).len() == 0 {
                    assert(text@ =~= Seq::<char>::empty());
                    assert(self.content() =~= before.content() + text@);
                    assert(self.reasoning() =~= before.reasoning() + Seq::<char>::empty());
                    none
                } else {
                    self.push_text(text.as_str());
                    assert(self.reasoning() =~= before.reasoning() + Seq::<char>::empty());
                    StreamEffect { token: Some(text), reasoning: None, read_on: true }
                }
            },
            StreamEvent::Reasoning { text } => {
                self.push_reasoning(text.as_str());
                assert(self.content() =~= before.content() + Seq::<char>::empty());
                StreamEffect { token: None, reasoning: Some(text), read_on: true }
            },
            StreamEvent::ReasoningBlockStart { text } => {
                if chars_of(text.as_str()).len() == 0 {
                    assert(text@ =~= Seq::<char>::empty());
                    assert(self.reasoning() =~= before.reasoning() + text@);
                    assert(self.content() =~= before.content() + Seq::<char>::empty());
                    none
                } else {
                    self.push_reasoning(text.as_str());
                    assert(self.content() =~= before.content() + Seq::<char>::empty());
                    StreamEffect { token: None, reasoning: Some(text), read_on: true }
                }
            },
            StreamEvent::ToolCallDelta { index, id, name, arguments } => {
                let id_ref: Option<&str> = match &id {
                    Some(v) => Some(v.as_str()),
                    None => None,
                };
                let name_ref: Option<&str> = match &name {
                    Some(v) => Some(v.as_str()),
                    None => None,
                };
                let arguments_ref: Option<&str> = match &arguments {
                    Some(v) => Some(v.as_str()),
                    None => None,
                };
                self.merge_tool_call_delta(index, id_ref, name_ref, arguments_ref);
                assert(self.content() =~= before.content() + Seq::<char>::empty());
                assert(self.reasoning() =~= before.reasoning() + Seq::<char>::empty());
                none
            },
            StreamEvent::ToolUseStart { index, id, name, input } => {
                let input_ref: Option<&str> = match &input {
                    Some(v) => Some(v.as_str()),
                    None => None,
                };
                self.start_tool_use(index, id.as_str(), name.as_str(), input_ref);
                assert(self.content() =~= before.content() + Seq::<char>::empty());
                assert(self.reasoning() =~= before.reasoning() + Seq::<char>::empty());
                none
            },
            StreamEvent::ToolInput { index, partial } => {
                self.append_tool_input(index, partial.as_str());
                assert(self.content() =~= before.content() + Seq::<char>::empty());
                assert(self.reasoning() =~= before.reasoning() + Seq::<char>::empty());
                none
            },
            StreamEvent::Other => {
                assert(self.content() =~= before.content() + Seq::<char>::empty());
                assert(self.reasoning() =~= before.reasoning() + Seq::<char>::empty());
                none
            },
        }
    }
}

proof fn lemma_slot_bounds(s: Seq<(usize, (Seq<char>, Seq<char>, Seq<char>))>, index: usize)
    ensures
        0 <= slot(s, index) <= s.len(),
    decreases s.len(),
{
    if s.len() > 0 {
        lemma_slot_bounds(s.drop_last(), index);
    }
}

/// In an ordered list, the calls before the slot of `index` are below it
/// and those from it on are not.
proof fn lemma_slot_split(s: Seq<(usize, (Seq<char>, Seq<char>, Seq<char>))>, index: usize)
    requires
        strictly_ordered(s),
    ensures
        forall|j: int| 0 <= j < slot(s, index) ==> s[j].0 < index,
        forall|j: int| slot(s, index) <= j < s.len() ==> s[j].0 >= index,
    decreases s.len(),
{
    if s.len() > 0 {
        let t = s.drop_last();
        lemma_slot_split(t, index);
        lemma_slot_bounds(t, index);
        assert forall|j: int| 0 <= j < slot(s, index) implies s[j].0 < index by {
            if j < t.len() {
                if j < slot(t, index) {
                    assert(t[j] == s[j]);
                } else {
                    assert(s.last().0 < index);
                    assert(j == t.len());
                }
            } else {
                assert(s[j] == s.last());
            }
        }
        assert forall|j: int| slot(s, index) <= j < s.len() implies s[j].0 >= index by {
            if j < t.len() {
                assert(t[j] == s[j]);
                if s.last().0 < index {
                    assert(s[j].0 < s[s.len() - 1].0);
                    assert(s[s.len() - 1] == s.last());
                }
            } else {
                assert(s[j] == s.last());
            }
        }
    }
}

fn append_all(v: &mut Vec<char>, t: &Vec<char>)
    ensures
        final(v)@ == old(v)@ + t@,
{
    let mut i: usize = 0;
    let ghost start = v@;
    while i < t.len()
        invariant
            i <= t.len(),
            v@ == start + t@.take(i as int),
        decreases t.len() - i,
    {
        v.push(t[i]);
        assert(t@.take(i + 1) =~= t@.take(i as int).push(t@[i as int]));
        i += 1;
    }
    assert(t@.take(t.len() as int) =~= t@);
}

fn concat(a: &str, b: &str) -> (r: String)
    ensures
        r@ == a@ + b@,
{
    let mut v = chars_of(a);
    append_all(&mut v, &chars_of(b));
    string_from_chars(&v)
}

} // verus!
