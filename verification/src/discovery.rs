//! Skills and instruction files that extensions announce.
use vstd::prelude::*;
use vstd::string::*;

verus! {

/// Where the text of a skill lies.
#[derive(Clone, Debug, PartialEq, Eq)]
pub enum DiscoveredSkillSource {
    /// In a file.
    File(String),
    /// In the program itself.
    BuiltIn { content: String },
}

/// What a `DiscoveredSkillSource` holds.
pub enum SkillSource {
    File(Seq<char>),
    BuiltIn(Seq<char>),
}

impl DiscoveredSkillSource {
    pub open spec fn view(&self) -> SkillSource {
        match self {
            DiscoveredSkillSource::File(path) => SkillSource::File(path@),
            DiscoveredSkillSource::BuiltIn { content } => SkillSource::BuiltIn(content@),
        }
    }

    /// The file that holds the skill.
    pub fn file_path(&self) -> (r: Option<&str>)
        ensures
            match r {
                Some(path) => self@ == SkillSource::File(path@),
                None => self@ is BuiltIn,
            },
    {
        match self {
            DiscoveredSkillSource::File(path) => Some(path.as_str()),
            DiscoveredSkillSource::BuiltIn { content: _ } => None,
        }
    }

    /// How the source is called in messages.
    pub fn label(&self) -> (r: String)
        ensures
            r@ == (match self@ {
                SkillSource::File(path) => path,
                SkillSource::BuiltIn(_) => "built-in skill"@,
            }),
    {
        match self {
            DiscoveredSkillSource::File(path) => path.clone(),
            DiscoveredSkillSource::BuiltIn { content: _ } => "built-in skill".to_owned(),
        }
    }
}

/// A skill that can be loaded.
#[derive(Clone, Debug, PartialEq, Eq)]
pub struct DiscoveredSkill {
    /// The connection that announced the skill.
    pub source_id: String,
    pub description: String,
    pub source: DiscoveredSkillSource,
    /// Whether the system prompt lists the skill.
    pub add_to_prompt: bool,
}

/// What a `DiscoveredSkill` holds.
pub struct Skill {
    pub source_id: Seq<char>,
    pub description: Seq<char>,
    pub source: SkillSource,
    pub add_to_prompt: bool,
}

impl View for DiscoveredSkill {
    type V = Skill;

    open spec fn view(&self) -> Skill {
        Skill {
            source_id: self.source_id@,
            description: self.description@,
            source: self.source@,
            add_to_prompt: self.add_to_prompt,
        }
    }
}

/// A file of instructions.
#[derive(Clone, Debug, PartialEq, Eq)]
pub struct DiscoveredAgentsFile {
    /// The connection that announced the file.
    pub source_id: String,
    pub file_path: String,
    pub content: String,
}

/// What a `DiscoveredAgentsFile` holds.
pub struct AgentsFile {
    pub source_id: Seq<char>,
    pub file_path: Seq<char>,
    pub content: Seq<char>,
}

impl View for DiscoveredAgentsFile {
    type V = AgentsFile;

    open spec fn view(&self) -> AgentsFile {
        AgentsFile {
            source_id: self.source_id@,
            file_path: self.file_path@,
            content: self.content@,
        }
    }
}

/// The views of a list of instruction files.
pub open spec fn files_view(files: Seq<DiscoveredAgentsFile>) -> Seq<AgentsFile> {
    files.map_values(|f: DiscoveredAgentsFile| f@)
}

} // verus!
