//! The texts that are assembled for the agent.
use vstd::prelude::*;
use vstd::string::*;
use crate::assoc::TextMap;
use crate::discovery::{files_view, AgentsFile, DiscoveredAgentsFile, DiscoveredSkill, Skill};
use crate::event::{tools_view, Tool, ToolDefinition};
use crate::order::{positions, sort_positions, sorted_positions};
use crate::text::{chars_of, texts};

verus! {

/// The lines that list the tools.
pub open spec fn tool_lines(tools: Seq<Tool>) -> Seq<char>
    decreases tools.len(),
{
    if tools.len() == 0 {
        Seq::empty()
    } else {
        tool_lines(tools.drop_last()) + "- "@ + tools.last().name + ": "@ + (match tools.last().description {
            Some(description) => description,
            None => "(no description)"@,
        }) + "\n"@
    }
}

/// The part of the system prompt that lists the tools.
pub open spec fn tool_section(tools: Seq<Tool>) -> Seq<char> {
    if tools.len() == 0 {
        Seq::empty()
    } else {
        "Available tools:\n"@ + tool_lines(tools) + "\n"@
    }
}

/// The skills that the system prompt lists.
pub open spec fn shown_skills(skills: Seq<(Seq<char>, Skill)>) -> Seq<(Seq<char>, Seq<char>)>
    decreases skills.len(),
{
    if skills.len() == 0 {
        Seq::empty()
    } else if skills.last().1.add_to_prompt {
        shown_skills(skills.drop_last()).push((skills.last().0, skills.last().1.description))
    } else {
        shown_skills(skills.drop_last())
    }
}

/// The names of the shown skills.
pub open spec fn shown_names(shown: Seq<(Seq<char>, Seq<char>)>) -> Seq<Seq<char>> {
    shown.map_values(|s: (Seq<char>, Seq<char>)| s.0)
}

/// The entries of the shown skills at the given positions.
pub open spec fn skill_entries(shown: Seq<(Seq<char>, Seq<char>)>, at: Seq<int>) -> Seq<char>
    decreases at.len(),
{
    if at.len() == 0 {
        Seq::empty()
    } else {
        skill_entries(shown, at.drop_last()) + "  <skill>\n    <name>"@ + shown[at.last()].0
            + "</name>\n    <description>"@ + shown[at.last()].1 + "</description>\n  </skill>\n"@
    }
}

/// The part of the system prompt that lists the skills, by ascending name.
pub open spec fn skill_section(skills: Seq<(Seq<char>, Skill)>) -> Seq<char> {
    let shown = shown_skills(skills);
    if shown.len() == 0 {
        Seq::empty()
    } else {
        "\nThe following skills provide specialized instructions for specific tasks.\nUse the skill tool to load a skill when the task matches its description.\n\n<available_skills>\n"@
            + skill_entries(shown, sorted_positions(shown_names(shown))) + "</available_skills>\n"@
    }
}

/// The system prompt.
#[verifier::opaque]
pub open spec fn system_prompt(tools: Seq<Tool>, skills: Seq<(Seq<char>, Skill)>, cwd: Seq<char>) -> Seq<char> {
    "You are an expert coding assistant operating inside Tau, a coding agent harness. You help users by reading files, executing commands, editing code, and writing new files.\n\n"@
        + tool_section(tools)
        + "Guidelines:\n- Be concise in your responses.\n- Show file paths clearly when working with files.\n- When asked to read a file, use the read tool.\n- When asked to run a command, use the shell tool.\n"@
        + skill_section(skills) + "\nCurrent working directory: "@ + cwd + "\n"@
}

fn tool_section_text(tools: &Vec<ToolDefinition>) -> (r: String)
    ensures
        r@ == tool_section(tools_view(tools@)),
{
    let ghost all = tools_view(tools@);
    let mut lines = String::new();
    let mut i: usize = 0;
    assert(all.take(0) =~= Seq::empty());
    while i < tools.len()
        invariant
            i <= tools.len(),
            all == tools_view(tools@),
            lines@ == tool_lines(all.take(i as int)),
        decreases tools.len() - i,
    {
        assert(all.take(i + 1).drop_last() =~= all.take(i as int));
        assert(all.take(i + 1).last() == tools@[i as int]@);
        lines.append("- ");
        lines.append(tools[i].name.as_str());
        lines.append(": ");
        match &tools[i].description {
            Some(description) => lines.append(description.as_str()),
            None => lines.append("(no description)"),
        }
        lines.append("\n");
        i += 1;
    }
    assert(all.take(all.len() as int) =~= all);
    if tools.len() == 0 {
        String::new()
    } else {
        let mut r = "Available tools:\n".to_owned();
        r.append(lines.as_str());
        r.append("\n");
        r
    }
}

fn skill_section_text(skills: &TextMap<DiscoveredSkill>) -> (r: String)
    ensures
        r@ == skill_section(skills@),
{
    let ghost all = skills@;
    let mut names: Vec<String> = Vec::new();
    let mut descriptions: Vec<String> = Vec::new();
    let mut i: usize = 0;
    assert(all.take(0) =~= Seq::empty());
    while i < skills.entries.len()
        invariant
            i <= skills.entries.len(),
            all == skills@,
            names.len() == descriptions.len(),
            names.len() == shown_skills(all.take(i as int)).len(),
            forall|k: int|
                0 <= k < names.len() ==> shown_skills(all.take(i as int))[k] == ((#[trigger] names@[k])@, descriptions@[k]@),
        decreases skills.entries.len() - i,
    {
        assert(all.take(i + 1).drop_last() =~= all.take(i as int));
        assert(all.take(i + 1).last() == (skills.entries@[i as int].0@, skills.entries@[i as int].1@));
        if skills.entries[i].1.add_to_prompt {
            names.push(skills.entries[i].0.clone());
            descriptions.push(skills.entries[i].1.description.clone());
        }
        i += 1;
    }
    assert(all.take(all.len() as int) =~= all);
    let ghost shown = shown_skills(all);
    assert(texts(names@) =~= shown_names(shown));
    if names.len() == 0 {
        return String::new();
    }
    let order = sort_positions(&names);
    let ghost at = sorted_positions(shown_names(shown));
    let mut entries = String::new();
    let mut n: usize = 0;
    assert(at.take(0) =~= Seq::empty());
    while n < order.len()
        invariant
            n <= order.len(),
            forall|k: int| 0 <= k < order.len() ==> (#[trigger] order@[k]) < names.len(),
            positions(order@) == at,
            names.len() == descriptions.len(),
            names.len() == shown.len(),
            forall|k: int| 0 <= k < names.len() ==> shown[k] == ((#[trigger] names@[k])@, descriptions@[k]@),
            entries@ == skill_entries(shown, at.take(n as int)),
        decreases order.len() - n,
    {
        let k = order[n];
        assert(at.take(n + 1).drop_last() =~= at.take(n as int));
        assert(at.take(n + 1).last() == k as int) by {
            assert(positions(order@)[n as int] == k as int);
        }
        assert(shown[k as int] == (names@[k as int]@, descriptions@[k as int]@));
        entries.append("  <skill>\n    <name>");
        entries.append(names[k].as_str());
        entries.append("</name>\n    <description>");
        entries.append(descriptions[k].as_str());
        entries.append("</description>\n  </skill>\n");
        n += 1;
    }
    assert(at.take(order.len() as int) =~= at) by {
        assert(positions(order@).len() == order.len());
    }
    let mut r =
        "\nThe following skills provide specialized instructions for specific tasks.\nUse the skill tool to load a skill when the task matches its description.\n\n<available_skills>\n".to_owned();
    r.append(entries.as_str());
    r.append("</available_skills>\n");
    r
}

/// Builds the system prompt from the tools, the skills and the working
/// directory.
pub fn build_system_prompt(tools: &Vec<ToolDefinition>, skills: &TextMap<DiscoveredSkill>, cwd: &str) -> (r: String)
    ensures
        r@ == system_prompt(tools_view(tools@), skills@, cwd@),
{
    proof {
        reveal(system_prompt);
    }
    let mut prompt =
        "You are an expert coding assistant operating inside Tau, a coding agent harness. You help users by reading files, executing commands, editing code, and writing new files.\n\n".to_owned();
    prompt.append(tool_section_text(tools).as_str());
    prompt.append(
        "Guidelines:\n- Be concise in your responses.\n- Show file paths clearly when working with files.\n- When asked to read a file, use the read tool.\n- When asked to run a command, use the shell tool.\n",
    );
    prompt.append(skill_section_text(skills).as_str());
    prompt.append("\nCurrent working directory: ");
    prompt.append(cwd);
    prompt.append("\n");
    prompt
}

/// A skill that is not to be listed leaves the system prompt as it is.
pub proof fn hidden_skills_leave_no_trace(tools: Seq<Tool>, skills: Seq<(Seq<char>, Skill)>, name: Seq<char>, skill: Skill, cwd: Seq<char>)
    requires
        !skill.add_to_prompt,
    ensures
        system_prompt(tools, skills.push((name, skill)), cwd) == system_prompt(tools, skills, cwd),
{
    reveal(system_prompt);
    assert(skills.push((name, skill)).drop_last() =~= skills);
}

// ---------------------------------------------------------------------------
// Instruction files
// ---------------------------------------------------------------------------

/// The instruction files, each between its tags and ending with a line feed.
pub open spec fn file_entries(files: Seq<AgentsFile>) -> Seq<char>
    decreases files.len(),
{
    if files.len() == 0 {
        Seq::empty()
    } else {
        let last = files.last();
        file_entries(files.drop_last()) + "<AGENTS_FILE path=\""@ + last.file_path + "\">\n"@ + last.content
            + (if last.content.len() > 0 && last.content.last() == '\n' {
            Seq::empty()
        } else {
            "\n"@
        }) + "</AGENTS_FILE>\n\n"@
    }
}

/// The message that hands the instruction files to the agent.
pub open spec fn agents_message(files: Seq<AgentsFile>) -> Seq<char> {
    "# AGENTS.md instructions\n\nThe following instructions were loaded from AGENTS.md files.\nMore specific files usually override broader ones.\n\n"@
        + file_entries(files)
}

/// Renders the message that hands the instruction files to the agent.
pub fn render_agents_context_message(files: &Vec<DiscoveredAgentsFile>) -> (r: String)
    ensures
        r@ == agents_message(files_view(files@)),
{
    let ghost all = files_view(files@);
    let mut entries = String::new();
    let mut i: usize = 0;
    assert(all.take(0) =~= Seq::empty());
    while i < files.len()
        invariant
            i <= files.len(),
            all == files_view(files@),
            entries@ == file_entries(all.take(i as int)),
        decreases files.len() - i,
    {
        assert(all.take(i + 1).drop_last() =~= all.take(i as int));
        assert(all.take(i + 1).last() == files@[i as int]@);
        entries.append("<AGENTS_FILE path=\"");
        entries.append(files[i].file_path.as_str());
        entries.append("\">\n");
        entries.append(files[i].content.as_str());
        let content = chars_of(files[i].content.as_str());
        let ghost so_far = entries@;
        if content.len() > 0 && content[content.len() - 1] == '\n' {
            assert(entries@ =~= so_far + Seq::<char>::empty());
        } else {
            entries.append("\n");
        }
        entries.append("</AGENTS_FILE>\n\n");
        i += 1;
    }
    assert(all.take(all.len() as int) =~= all);
    let mut r =
        "# AGENTS.md instructions\n\nThe following instructions were loaded from AGENTS.md files.\nMore specific files usually override broader ones.\n\n".to_owned();
    r.append(entries.as_str());
    r
}

} // verus!
