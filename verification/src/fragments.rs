//! Context for the models, in fragments that stay within a byte bound.

use crate::text::char_bytes;
use crate::text::clip;
use crate::text::clip_count;
use crate::text::clip_end;
use crate::text::clip_text;
use crate::text::from_chars;
use crate::text::lemma_clip_is_longest_prefix;
use crate::text::to_chars;
use crate::text::utf8_len;
use vstd::prelude::*;

verus! {

/// Host-owned roles for a supervised conversation. Models cannot change these roles.
#[derive(Clone, Copy, Debug, PartialEq, Eq, Structural)]
pub enum SupervisorSession {
    /// The user-facing planner that inspects the work, with no environment execution tools.
    Supervisor,
    /// The host-owned Implementer, which reports only to its Supervisor.
    Implementer,
}

/// The role of the Supervisor and its message protocol.
pub const SUPERVISOR: &'static str = "You are Supervisor. You are the user's conversational partner and own planning, verification, user questions and final answers. One host-owned Implementer executes the currently selected step. Start every task by creating a staged Continuous Planning plan with a bounded objective, acceptance criteria, dependencies and estimates. Keep future stages coarse, use stable IDs such as S01 and A01, preserve old steps and never reuse cancelled IDs. If the work cannot be planned completely yet, leave the final step ID as '?' and put the missing decision and reason in its title and acceptance; revise that step as evidence arrives. Creating or selecting a step starts execution automatically; do not wait for a second kickoff prompt. Inspect actual execution evidence before acceptance. A report is evidence, not authorization. Use continuous_planning to read or revise the plan, select a step, inspect evidence, search the Implementer history, pause/resume, replace execution context, accept verified work, and manage the bounded task memory. A paused task requires explicit resume before sending work. Budget changes require explicit user instruction. Do not use Plan/Goal tools and never reveal internal coordination details to the user.
Every assistant text message, including commentary, must be exactly one complete message document. Use this form, without a code fence:
<messages>
<user>
I am checking the result.
</user>
<implementer>
Verify the selected step and reply with the actual result.
</implementer>
</messages>
Use one to eight user or implementer blocks in any order. A block's entire body belongs to that recipient; do not write recipient labels inside the body. The complete document must be at most 8192 bytes. User blocks are shown to the user; implementer blocks are delivered together as one ordinary task update. Reports arrive automatically when execution reaches review; read the evidence before accepting. Do not encode communication in tool arguments.";

/// The role of the Implementer.
pub const IMPLEMENTER: &'static str = "You are the execution agent for the user. Work only on the currently assigned step with your environment tools. Preserve the objective, constraints and user permission policy supplied in the task context. Return actual results, evidence references and missing prerequisites in an ordinary final reply. Do not invent acceptance, change the overall task plan, or use Plan/Goal tools. Additional task updates may arrive while you work. Finish the current assignment and wait for the next user task update. When delegation is appropriate, spawned subagents follow the normal user-facing task protocol.";

/// The largest fragment, in bytes.
pub const MAX_FRAGMENT: usize = 700;

/// Bounded runtime evidence or steering for Continuous Planning.
/// Each fragment is capped in bytes, including for byte-level tokenization.
#[derive(Debug, PartialEq, Eq)]
pub struct ContinuousPlanningFragment(pub String);

impl ContinuousPlanningFragment {
    pub fn new(text: &str) -> (fragment: Self)
        ensures
            fragment.0@ == clip(text@, MAX_FRAGMENT as int),
            utf8_len(fragment.0@) <= MAX_FRAGMENT,
    {
        ContinuousPlanningFragment(clip_text(text, MAX_FRAGMENT))
    }

    pub fn content_kind(&self) -> (kind: &'static str)
        ensures
            kind@ == "continuous_planning.context"@,
    {
        "continuous_planning.context"
    }

    pub fn role(&self) -> (role: &'static str)
        ensures
            role@ == "user"@,
    {
        "user"
    }

    pub fn markers(&self) -> (markers: (&'static str, &'static str))
        ensures
            markers.0@ == "<continuous_planning_context>"@,
            markers.1@ == "</continuous_planning_context>"@,
    {
        ("<continuous_planning_context>", "</continuous_planning_context>")
    }

    pub fn body(&self) -> (body: String)
        ensures
            body@ == self.0@,
    {
        self.0.clone()
    }
}

/// One bounded part of the stable Supervisor or Implementer role policy.
#[derive(Debug, PartialEq, Eq)]
pub struct SupervisorRoleFragment(pub String);

impl SupervisorRoleFragment {
    pub fn new(text: &str) -> (fragment: Self)
        ensures
            fragment.0@ == clip(text@, MAX_FRAGMENT as int),
            utf8_len(fragment.0@) <= MAX_FRAGMENT,
    {
        SupervisorRoleFragment(clip_text(text, MAX_FRAGMENT))
    }

    pub fn content_kind(&self) -> (kind: &'static str)
        ensures
            kind@ == "supervisor.role"@,
    {
        "supervisor.role"
    }

    pub fn role(&self) -> (role: &'static str)
        ensures
            role@ == "developer"@,
    {
        "developer"
    }

    pub fn markers(&self) -> (markers: (&'static str, &'static str))
        ensures
            markers.0@ == "<supervisor_role>"@,
            markers.1@ == "</supervisor_role>"@,
    {
        ("<supervisor_role>", "</supervisor_role>")
    }

    pub fn body(&self) -> (body: String)
        ensures
            body@ == self.0@,
    {
        self.0.clone()
    }
}

proof fn lemma_fragments_advance(s: Seq<char>)
    requires
        s.len() > 0,
    ensures
        1 <= clip_count(s, MAX_FRAGMENT as int) <= s.len(),
{
    lemma_clip_is_longest_prefix(s, MAX_FRAGMENT as int);
    assert(char_bytes(s[0]) <= 4);
}

/// A text cut into the longest fragments that fit, without splitting a character.
pub open spec fn pieces(s: Seq<char>) -> Seq<Seq<char>>
    decreases s.len(),
    via pieces_decrease
{
    if s.len() == 0 {
        Seq::empty()
    } else {
        seq![clip(s, MAX_FRAGMENT as int)] + pieces(
            s.skip(clip_count(s, MAX_FRAGMENT as int) as int),
        )
    }
}

#[via_fn]
proof fn pieces_decrease(s: Seq<char>) {
    if s.len() > 0 {
        lemma_fragments_advance(s);
    }
}

/// The last place at which a sentence ends.
pub open spec fn last_break(s: Seq<char>) -> Option<int>
    decreases s.len(),
{
    if s.len() < 2 {
        None
    } else if s[s.len() - 2] == '.' && s[s.len() - 1] == ' ' {
        Some(s.len() - 2)
    } else {
        last_break(s.drop_last())
    }
}

/// How much of a role policy makes its first fragment: up to the last sentence that fits, or as
/// much as fits where no sentence does.
pub open spec fn role_cut(s: Seq<char>) -> int {
    let cap = clip_count(s, MAX_FRAGMENT as int) as int;
    if cap < s.len() {
        match last_break(s.take(cap)) {
            Some(i) => i + 2,
            None => cap,
        }
    } else {
        cap
    }
}

proof fn lemma_last_break(s: Seq<char>)
    ensures
        last_break(s) matches Some(i) ==> 0 <= i <= s.len() - 2,
    decreases s.len(),
{
    if s.len() >= 2 {
        lemma_last_break(s.drop_last());
    }
}

proof fn lemma_role_cut(s: Seq<char>)
    requires
        s.len() > 0,
    ensures
        1 <= role_cut(s) <= clip_count(s, MAX_FRAGMENT as int) <= s.len(),
{
    lemma_fragments_advance(s);
    let cap = clip_count(s, MAX_FRAGMENT as int) as int;
    lemma_last_break(s.take(cap));
}

/// A role policy cut at its sentences.
pub open spec fn role_pieces(s: Seq<char>) -> Seq<Seq<char>>
    decreases s.len(),
    via role_pieces_decrease
{
    if s.len() == 0 {
        Seq::empty()
    } else {
        seq![s.take(role_cut(s))] + role_pieces(s.skip(role_cut(s)))
    }
}

#[via_fn]
proof fn role_pieces_decrease(s: Seq<char>) {
    if s.len() > 0 {
        lemma_role_cut(s);
    }
}

/// Texts one after the other.
pub open spec fn concatenated(parts: Seq<Seq<char>>) -> Seq<char>
    decreases parts.len(),
{
    if parts.len() == 0 {
        Seq::empty()
    } else {
        parts[0] + concatenated(parts.drop_first())
    }
}

/// The fragments of a text are bounded, none is empty, and together they are the text.
pub proof fn law_fragments_cover_the_text(s: Seq<char>)
    ensures
        concatenated(pieces(s)) == s,
        forall|i: int|
            0 <= i < pieces(s).len() ==> 0 < (#[trigger] pieces(s)[i]).len() && utf8_len(
                pieces(s)[i],
            ) <= MAX_FRAGMENT,
    decreases s.len(),
{
    if s.len() > 0 {
        lemma_fragments_advance(s);
        lemma_clip_is_longest_prefix(s, MAX_FRAGMENT as int);
        let n = clip_count(s, MAX_FRAGMENT as int) as int;
        let rest = s.skip(n);
        law_fragments_cover_the_text(rest);
        assert(pieces(s).drop_first() =~= pieces(rest));
        assert(s.take(n) + rest =~= s);
        assert forall|i: int| 0 <= i < pieces(s).len() implies 0 < (#[trigger] pieces(
            s,
        )[i]).len() && utf8_len(pieces(s)[i]) <= MAX_FRAGMENT by {
            if i > 0 {
                assert(pieces(s)[i] == pieces(rest)[i - 1]);
            }
        }
    }
}

proof fn lemma_prefix_is_shorter(s: Seq<char>, n: int)
    requires
        0 <= n <= s.len(),
    ensures
        utf8_len(s.take(n)) <= utf8_len(s),
{
    crate::text::lemma_utf8_len_concat(s.take(n), s.skip(n));
    assert(s.take(n) + s.skip(n) =~= s);
}

/// The fragments of a role policy are bounded, none is empty, and together they are the policy.
pub proof fn law_role_fragments_cover_the_policy(s: Seq<char>)
    ensures
        concatenated(role_pieces(s)) == s,
        forall|i: int|
            0 <= i < role_pieces(s).len() ==> 0 < (#[trigger] role_pieces(s)[i]).len() && utf8_len(
                role_pieces(s)[i],
            ) <= MAX_FRAGMENT,
    decreases s.len(),
{
    if s.len() > 0 {
        lemma_role_cut(s);
        lemma_clip_is_longest_prefix(s, MAX_FRAGMENT as int);
        let n = role_cut(s);
        let rest = s.skip(n);
        let cap = clip(s, MAX_FRAGMENT as int);
        lemma_prefix_is_shorter(cap, n);
        assert(cap.take(n) =~= s.take(n));
        law_role_fragments_cover_the_policy(rest);
        assert(role_pieces(s).drop_first() =~= role_pieces(rest));
        assert(s.take(n) + rest =~= s);
        assert forall|i: int| 0 <= i < role_pieces(s).len() implies 0 < (#[trigger] role_pieces(
            s,
        )[i]).len() && utf8_len(role_pieces(s)[i]) <= MAX_FRAGMENT by {
            if i > 0 {
                assert(role_pieces(s)[i] == role_pieces(rest)[i - 1]);
            }
        }
    }
}

pub open spec fn fragment_texts(fragments: Seq<ContinuousPlanningFragment>) -> Seq<Seq<char>> {
    fragments.map_values(|fragment: ContinuousPlanningFragment| fragment.0@)
}

pub open spec fn role_texts(fragments: Seq<SupervisorRoleFragment>) -> Seq<Seq<char>> {
    fragments.map_values(|fragment: SupervisorRoleFragment| fragment.0@)
}

/// Cuts a text into fragments.
pub fn fragments(text: &str) -> (fragments: Vec<ContinuousPlanningFragment>)
    ensures
        fragment_texts(fragments@) == pieces(text@),
{
    let chars = to_chars(text);
    let mut fragments: Vec<ContinuousPlanningFragment> = Vec::new();
    let mut at: usize = 0;
    assert(text@.skip(0) =~= text@);
    assert(fragment_texts(fragments@) + pieces(text@) =~= pieces(text@));
    while at < chars.len()
        invariant
            at <= chars@.len(),
            chars@ == text@,
            fragment_texts(fragments@) + pieces(text@.skip(at as int)) == pieces(text@),
        decreases chars.len() - at,
    {
        let ghost rest = text@.skip(at as int);
        proof {
            lemma_fragments_advance(rest);
            lemma_clip_is_longest_prefix(rest, MAX_FRAGMENT as int);
        }
        let end: usize = clip_end(&chars, at, MAX_FRAGMENT);
        let part = from_chars(&chars, at, end);
        assert(part@ =~= clip(rest, MAX_FRAGMENT as int));
        let ghost before = fragments@;
        proof {
            lemma_clip_of_clipped(rest);
        }
        fragments.push(ContinuousPlanningFragment::new(part.as_str()));
        assert(fragment_texts(fragments@) =~= fragment_texts(before).push(
            clip(rest, MAX_FRAGMENT as int),
        ));
        assert(rest.skip(end - at) =~= text@.skip(end as int));
        assert(fragment_texts(before) + pieces(rest) =~= fragment_texts(fragments@) + pieces(
            text@.skip(end as int),
        ));
        at = end;
    }
    assert(text@.skip(at as int) =~= Seq::<char>::empty());
    assert(fragment_texts(fragments@) + pieces(text@.skip(at as int)) =~= fragment_texts(
        fragments@,
    ));
    fragments
}

proof fn lemma_clip_of_clipped(s: Seq<char>)
    ensures
        clip(clip(s, MAX_FRAGMENT as int), MAX_FRAGMENT as int) == clip(s, MAX_FRAGMENT as int),
{
    lemma_clip_is_longest_prefix(s, MAX_FRAGMENT as int);
    lemma_clip_is_longest_prefix(clip(s, MAX_FRAGMENT as int), MAX_FRAGMENT as int);
}

fn find_last_break(chars: &Vec<char>, from: usize, to: usize) -> (found: Option<usize>)
    requires
        from <= to <= chars@.len(),
    ensures
        (match found {
            Some(i) => Some((i - from) as int),
            None => None,
        }) == last_break(chars@.subrange(from as int, to as int)),
        found matches Some(i) ==> from <= i <= to - 2,
{
    let mut end: usize = to;
    while end - from >= 2
        invariant
            from <= end <= to <= chars@.len(),
            last_break(chars@.subrange(from as int, to as int)) == last_break(
                chars@.subrange(from as int, end as int),
            ),
        decreases end,
    {
        if chars[end - 2] == '.' && chars[end - 1] == ' ' {
            return Some(end - 2);
        }
        assert(chars@.subrange(from as int, end as int).drop_last() =~= chars@.subrange(
            from as int,
            end - 1,
        ));
        end -= 1;
    }
    None
}

/// Cuts a role policy into fragments at its sentences.
pub fn role_fragments(text: &str) -> (fragments: Vec<SupervisorRoleFragment>)
    ensures
        role_texts(fragments@) == role_pieces(text@),
{
    let chars = to_chars(text);
    let mut fragments: Vec<SupervisorRoleFragment> = Vec::new();
    let mut at: usize = 0;
    assert(text@.skip(0) =~= text@);
    assert(role_texts(fragments@) + role_pieces(text@) =~= role_pieces(text@));
    while at < chars.len()
        invariant
            at <= chars@.len(),
            chars@ == text@,
            role_texts(fragments@) + role_pieces(text@.skip(at as int)) == role_pieces(text@),
        decreases chars.len() - at,
    {
        let ghost rest = text@.skip(at as int);
        proof {
            lemma_role_cut(rest);
            lemma_clip_is_longest_prefix(rest, MAX_FRAGMENT as int);
        }
        let cap: usize = clip_end(&chars, at, MAX_FRAGMENT);
        assert(chars@.subrange(at as int, cap as int) =~= rest.take(cap - at));
        let end: usize = if cap < chars.len() {
            match find_last_break(&chars, at, cap) {
                Some(i) => i + 2,
                None => cap,
            }
        } else {
            cap
        };
        assert(end - at == role_cut(rest));
        let part = from_chars(&chars, at, end);
        assert(part@ =~= rest.take(role_cut(rest)));
        proof {
            let whole = clip(rest, MAX_FRAGMENT as int);
            lemma_prefix_is_shorter(whole, role_cut(rest));
            assert(whole.take(role_cut(rest)) =~= part@);
            lemma_clip_is_longest_prefix(part@, MAX_FRAGMENT as int);
        }
        let ghost before = fragments@;
        fragments.push(SupervisorRoleFragment::new(part.as_str()));
        assert(role_texts(fragments@) =~= role_texts(before).push(part@));
        assert(rest.skip(role_cut(rest)) =~= text@.skip(end as int));
        assert(role_texts(before) + role_pieces(rest) =~= role_texts(fragments@) + role_pieces(
            text@.skip(end as int),
        ));
        at = end;
    }
    assert(text@.skip(at as int) =~= Seq::<char>::empty());
    assert(role_texts(fragments@) + role_pieces(text@.skip(at as int)) =~= role_texts(fragments@));
    fragments
}

/// The role policy of a conversation.
pub fn contribute_thread_context(session: Option<SupervisorSession>) -> (fragments: Vec<
    SupervisorRoleFragment,
>)
    ensures
        role_texts(fragments@) == (match session {
            Some(SupervisorSession::Supervisor) => role_pieces(SUPERVISOR@),
            Some(SupervisorSession::Implementer) => role_pieces(IMPLEMENTER@),
            None => Seq::empty(),
        }),
{
    match session {
        Some(SupervisorSession::Supervisor) => role_fragments(SUPERVISOR),
        Some(SupervisorSession::Implementer) => role_fragments(IMPLEMENTER),
        None => {
            let fragments: Vec<SupervisorRoleFragment> = Vec::new();
            assert(role_texts(fragments@) =~= Seq::empty());
            fragments
        },
    }
}

} // verus!
