//! The instruction sections that go into the input of a model.

use vstd::prelude::*;

use crate::text;

verus! {

/// Audience for a resolved instruction section.
#[derive(Clone, Copy, Debug, PartialEq, Eq, Structural)]
pub enum InstructionAudience {
    Developer,
    ContextualUser,
}

/// Effective precedence bucket for an instruction section.
#[derive(Clone, Copy, Debug, PartialEq, Eq, Structural)]
pub enum InstructionPriority {
    System,
    Developer,
    Mode,
    Repo,
    Skill,
    User,
    Runtime,
}

/// Concrete source of a resolved instruction section.
#[derive(Clone, Copy, Debug, PartialEq, Eq, Structural)]
pub enum InstructionSource {
    ModelSwitch,
    PlatformPolicy,
    DeveloperOverride,
    MemoryTool,
    CollaborationMode,
    RealtimeContext,
    Personality,
    Apps,
    CommitMessage,
    UserConfig,
    ProjectDoc,
    JsRepl,
    Plugins,
    CodeMode,
    Skills,
    ChildAgents,
    EnvironmentContext,
}

/// One resolved instruction section before it is rendered.
#[derive(Clone, Debug, PartialEq, Eq)]
pub struct InstructionSection {
    pub audience: InstructionAudience,
    pub priority: InstructionPriority,
    pub source: InstructionSource,
    pub text: String,
}

impl InstructionSection {
    /// A section.
    pub fn new(
        audience: InstructionAudience,
        priority: InstructionPriority,
        source: InstructionSource,
        text: &str,
    ) -> (s: Self)
        ensures
            s.audience == audience,
            s.priority == priority,
            s.source == source,
            s.text@ == text@,
    {
        InstructionSection { audience, priority, source, text: text.to_string() }
    }
}

/// Resolved instruction layers for a turn: the base instructions and the
/// ordered sections.
#[derive(Clone, Debug, PartialEq, Eq)]
pub struct ResolvedInstructionLayers {
    pub base_instructions: String,
    pub sections: Vec<InstructionSection>,
}

/// The texts of the sections for an audience, in their order.
pub open spec fn texts_for(sections: Seq<InstructionSection>, audience: InstructionAudience) -> Seq<
    Seq<char>,
>
    decreases sections.len(),
{
    if sections.len() == 0 {
        seq![]
    } else {
        let earlier = texts_for(sections.drop_last(), audience);
        if sections.last().audience == audience {
            earlier.push(sections.last().text@)
        } else {
            earlier
        }
    }
}

impl Default for ResolvedInstructionLayers {
    fn default() -> (l: Self)
        ensures
            l.base_instructions@ == ""@,
            l.sections@.len() == 0,
    {
        ResolvedInstructionLayers { base_instructions: "".to_string(), sections: Vec::new() }
    }
}

impl ResolvedInstructionLayers {
    /// The texts of the sections for developers.
    pub fn developer_sections(&self) -> (out: Vec<String>)
        ensures
            text::texts(out@) == texts_for(self.sections@, InstructionAudience::Developer),
    {
        self.sections_for(InstructionAudience::Developer)
    }

    /// The texts of the sections for an audience.
    pub fn sections_for(&self, audience: InstructionAudience) -> (out: Vec<String>)
        ensures
            text::texts(out@) == texts_for(self.sections@, audience),
    {
        let mut out: Vec<String> = Vec::new();
        let mut i: usize = 0;
        proof {
            assert(text::texts(out@) =~= texts_for(self.sections@.take(0), audience));
        }
        while i < self.sections.len()
            invariant
                i <= self.sections@.len(),
                text::texts(out@) == texts_for(self.sections@.take(i as int), audience),
            decreases self.sections@.len() - i,
        {
            let ghost before = text::texts(out@);
            proof {
                assert(self.sections@.take(i + 1).drop_last() =~= self.sections@.take(i as int));
            }
            if self.sections[i].audience == audience {
                out.push(self.sections[i].text.clone());
                proof {
                    assert(text::texts(out@) =~= before.push(self.sections@[i as int].text@));
                }
            }
            i += 1;
        }
        proof {
            assert(self.sections@.take(i as int) =~= self.sections@);
        }
        out
    }
}

proof fn lemma_texts_members(
    sections: Seq<InstructionSection>,
    audience: InstructionAudience,
    i: int,
)
    requires
        0 <= i < sections.len(),
        sections[i].audience == audience,
    ensures
        texts_for(sections, audience).contains(sections[i].text@),
    decreases sections.len(),
{
    let all = texts_for(sections, audience);
    let earlier = texts_for(sections.drop_last(), audience);
    if i == sections.len() - 1 {
        assert(all.last() == sections[i].text@);
    } else {
        lemma_texts_members(sections.drop_last(), audience, i);
        assert(sections.drop_last()[i] == sections[i]);
        let k = choose|k: int| 0 <= k < earlier.len() && earlier[k] == sections[i].text@;
        assert(all[k] == sections[i].text@);
    }
}

/// Every section reaches its audience.
pub proof fn sections_reach_their_audience(sections: Seq<InstructionSection>, i: int)
    requires
        0 <= i < sections.len(),
    ensures
        texts_for(sections, sections[i].audience).contains(sections[i].text@),
{
    lemma_texts_members(sections, sections[i].audience, i);
}

/// An audience gets the texts of its own sections, all of them, in their order,
/// and no other text.
pub proof fn audiences_get_their_sections(
    sections: Seq<InstructionSection>,
    audience: InstructionAudience,
)
    ensures
        texts_for(sections, audience) == sections.filter(
            |section: InstructionSection| section.audience == audience,
        ).map_values(|section: InstructionSection| section.text@),
    decreases sections.len(),
{
    reveal(Seq::filter);
    let own = |section: InstructionSection| section.audience == audience;
    let shown = |section: InstructionSection| section.text@;
    if sections.len() > 0 {
        audiences_get_their_sections(sections.drop_last(), audience);
        let earlier = sections.drop_last().filter(own);
        assert(texts_for(sections.drop_last(), audience) == earlier.map_values(shown));
        assert(earlier.push(sections.last()).map_values(shown) =~= earlier.map_values(shown).push(
            sections.last().text@,
        ));
    } else {
        assert(texts_for(sections, audience) =~= sections.filter(own).map_values(shown));
    }
}

} // verus!
