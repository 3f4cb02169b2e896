//! What holds of the system prompt, of instruction files and of the files of skills.
use vstd::prelude::*;
use crate::assoc::{lookup, lookup_after_stored};
use crate::discovery::{AgentsFile, Skill};
use crate::event::Tool;
use crate::order::{sorted_positions, sorted_positions_in_order};
use crate::paths::path_join;
use crate::prompt::{
    agents_message, file_entries, shown_names, shown_skills, skill_entries, skill_section, system_prompt, tool_lines,
    tool_section,
};
use crate::skills::{
    after_mark, fence_from, fields_from, file_paths, frontmatter_body, frontmatter_fields, has_skill, is_fence,
    is_skill_file, loaded_all, loaded_from, loaded_with, next_line, skill_in, unquoted, with_field, DiagnosticKind,
    Loaded, SkillDirectory, SkillView,
};
use crate::text::{ends_in, has_text, is_space, line_end, stands_at, start_trimmed, trimmed};
use crate::text_laws::{parts_are_found, texts_split_at_the_first};

verus! {

proof fn lemma_inside(a: Seq<char>, b: Seq<char>, c: Seq<char>, needle: Seq<char>)
    requires
        has_text(b, needle),
    ensures
        has_text(a + b + c, needle),
{
    let i = choose|i: int| stands_at(b, needle, i);
    assert((a + b + c).subrange(a.len() + i, a.len() + i + needle.len()) =~= b.subrange(i, i + needle.len()));
    assert(stands_at(a + b + c, needle, a.len() + i));
}

proof fn lemma_tool_lines(tools: Seq<Tool>, i: int)
    requires
        0 <= i < tools.len(),
    ensures
        has_text(
            tool_lines(tools),
            "- "@ + tools[i].name + ": "@ + (match tools[i].description {
                Some(description) => description,
                None => "(no description)"@,
            }) + "\n"@,
        ),
    decreases tools.len(),
{
    let n = tools.len() - 1;
    let before = tool_lines(tools.drop_last());
    let line = "- "@ + tools[n].name + ": "@ + (match tools[n].description {
        Some(description) => description,
        None => "(no description)"@,
    }) + "\n"@;
    assert(tool_lines(tools) =~= before + line + Seq::empty());
    if i == n {
        parts_are_found(before, line, Seq::empty());
    } else {
        lemma_tool_lines(tools.drop_last(), i);
        let needle = "- "@ + tools[i].name + ": "@ + (match tools[i].description {
            Some(description) => description,
            None => "(no description)"@,
        }) + "\n"@;
        lemma_inside(Seq::empty(), before, line, needle);
        assert(Seq::<char>::empty() + before + line =~= tool_lines(tools));
    }
}

/// The system prompt names every tool with its description.
pub proof fn prompts_name_their_tools(tools: Seq<Tool>, skills: Seq<(Seq<char>, Skill)>, cwd: Seq<char>, i: int)
    requires
        0 <= i < tools.len(),
    ensures
        has_text(
            system_prompt(tools, skills, cwd),
            "- "@ + tools[i].name + ": "@ + (match tools[i].description {
                Some(description) => description,
                None => "(no description)"@,
            }) + "\n"@,
        ),
{
    reveal(system_prompt);
    let needle = "- "@ + tools[i].name + ": "@ + (match tools[i].description {
        Some(description) => description,
        None => "(no description)"@,
    }) + "\n"@;
    lemma_tool_lines(tools, i);
    lemma_inside("Available tools:\n"@, tool_lines(tools), "\n"@, needle);
    let first =
        "You are an expert coding assistant operating inside Tau, a coding agent harness. You help users by reading files, executing commands, editing code, and writing new files.\n\n"@;
    let guide =
        "Guidelines:\n- Be concise in your responses.\n- Show file paths clearly when working with files.\n- When asked to read a file, use the read tool.\n- When asked to run a command, use the shell tool.\n"@;
    let rest = guide + skill_section(skills) + "\nCurrent working directory: "@ + cwd + "\n"@;
    lemma_inside(first, tool_section(tools), rest, needle);
    assert(first + tool_section(tools) + rest =~= system_prompt(tools, skills, cwd));
}

/// The system prompt ends with the working directory.
pub proof fn prompts_end_with_the_directory(tools: Seq<Tool>, skills: Seq<(Seq<char>, Skill)>, cwd: Seq<char>)
    ensures
        ends_in(system_prompt(tools, skills, cwd), "\nCurrent working directory: "@ + cwd + "\n"@),
{
    reveal(system_prompt);
    let first =
        "You are an expert coding assistant operating inside Tau, a coding agent harness. You help users by reading files, executing commands, editing code, and writing new files.\n\n"@;
    let guide =
        "Guidelines:\n- Be concise in your responses.\n- Show file paths clearly when working with files.\n- When asked to read a file, use the read tool.\n- When asked to run a command, use the shell tool.\n"@;
    let front = first + tool_section(tools) + guide + skill_section(skills);
    parts_are_found(front, "\nCurrent working directory: "@ + cwd + "\n"@, Seq::empty());
    lemma_three_at_the_end(front, "\nCurrent working directory: "@, cwd, "\n"@);
}

proof fn lemma_three_at_the_end(a: Seq<char>, b: Seq<char>, c: Seq<char>, d: Seq<char>)
    ensures
        a + b + c + d == a + (b + c + d),
{
    assert(a + b + c + d =~= a + (b + c + d));
}

proof fn lemma_shown(skills: Seq<(Seq<char>, Skill)>, i: int)
    requires
        0 <= i < skills.len(),
        skills[i].1.add_to_prompt,
    ensures
        shown_skills(skills).contains((skills[i].0, skills[i].1.description)),
    decreases skills.len(),
{
    let n = skills.len() - 1;
    let before = shown_skills(skills.drop_last());
    let entry = (skills[i].0, skills[i].1.description);
    if i == n {
        assert(shown_skills(skills)[before.len() as int] == entry);
    } else {
        lemma_shown(skills.drop_last(), i);
        let k = choose|k: int| 0 <= k < before.len() && before[k] == entry;
        assert(shown_skills(skills)[k] == entry);
    }
}

/// How one skill is told.
pub open spec fn skill_told(name: Seq<char>, description: Seq<char>) -> Seq<char> {
    "  <skill>\n    <name>"@ + name + "</name>\n    <description>"@ + description + "</description>\n  </skill>\n"@
}

proof fn lemma_skill_entries(shown: Seq<(Seq<char>, Seq<char>)>, at: Seq<int>, i: int)
    requires
        0 <= i < at.len(),
    ensures
        has_text(skill_entries(shown, at), skill_told(shown[at[i]].0, shown[at[i]].1)),
    decreases at.len(),
{
    let n = at.len() - 1;
    let before = skill_entries(shown, at.drop_last());
    let line = skill_told(shown[at[n]].0, shown[at[n]].1);
    assert(skill_entries(shown, at) =~= before + line + Seq::empty());
    if i == n {
        parts_are_found(before, line, Seq::empty());
    } else {
        lemma_skill_entries(shown, at.drop_last(), i);
        lemma_inside(Seq::empty(), before, line, skill_told(shown[at[i]].0, shown[at[i]].1));
        assert(Seq::<char>::empty() + before + line =~= skill_entries(shown, at));
    }
}

/// The system prompt tells every skill that is to be shown, by its name and description.
pub proof fn prompts_tell_the_shown_skills(
    tools: Seq<Tool>,
    skills: Seq<(Seq<char>, Skill)>,
    cwd: Seq<char>,
    i: int,
)
    requires
        0 <= i < skills.len(),
        skills[i].1.add_to_prompt,
    ensures
        has_text(system_prompt(tools, skills, cwd), skill_told(skills[i].0, skills[i].1.description)),
{
    reveal(system_prompt);
    let needle = skill_told(skills[i].0, skills[i].1.description);
    let shown = shown_skills(skills);
    lemma_shown(skills, i);
    let k = choose|k: int| 0 <= k < shown.len() && shown[k] == (skills[i].0, skills[i].1.description);
    let at = sorted_positions(shown_names(shown));
    sorted_positions_in_order(shown_names(shown));
    assert(at.contains(k));
    let p = choose|p: int| 0 <= p < at.len() && at[p] == k;
    lemma_skill_entries(shown, at, p);
    let opening =
        "\nThe following skills provide specialized instructions for specific tasks.\nUse the skill tool to load a skill when the task matches its description.\n\n<available_skills>\n"@;
    lemma_inside(opening, skill_entries(shown, at), "</available_skills>\n"@, needle);
    let first =
        "You are an expert coding assistant operating inside Tau, a coding agent harness. You help users by reading files, executing commands, editing code, and writing new files.\n\n"@;
    let guide =
        "Guidelines:\n- Be concise in your responses.\n- Show file paths clearly when working with files.\n- When asked to read a file, use the read tool.\n- When asked to run a command, use the shell tool.\n"@;
    let front = first + tool_section(tools) + guide;
    let rest = "\nCurrent working directory: "@ + cwd + "\n"@;
    lemma_inside(front, skill_section(skills), rest, needle);
    assert(front + skill_section(skills) + rest =~= system_prompt(tools, skills, cwd));
}

/// One more instruction file is told behind the others, under its path and with its whole
/// content.
pub proof fn files_are_told_one_by_one(files: Seq<AgentsFile>, file: AgentsFile)
    ensures
        agents_message(files.push(file)) == agents_message(files) + "<AGENTS_FILE path=\""@ + file.file_path + "\">\n"@
            + file.content + (if file.content.len() > 0 && file.content.last() == '\n' {
            Seq::empty()
        } else {
            "\n"@
        }) + "</AGENTS_FILE>\n\n"@,
{
    assert(files.push(file).drop_last() =~= files);
    let opening =
        "# AGENTS.md instructions\n\nThe following instructions were loaded from AGENTS.md files.\nMore specific files usually override broader ones.\n\n"@;
    assert(agents_message(files.push(file)) =~= opening + file_entries(files) + "<AGENTS_FILE path=\""@ + file.file_path
        + "\">\n"@ + file.content + (if file.content.len() > 0 && file.content.last() == '\n' {
        Seq::empty()
    } else {
        "\n"@
    }) + "</AGENTS_FILE>\n\n"@);
}

/// Lines, each with a line feed at its end.
pub open spec fn lines_text(lines: Seq<Seq<char>>) -> Seq<char>
    decreases lines.len(),
{
    if lines.len() == 0 {
        Seq::empty()
    } else {
        lines[0] + seq!['\n'] + lines_text(lines.drop_first())
    }
}

/// Fields with those that lines set, one after the other.
pub open spec fn lines_read(fields: Seq<(Seq<char>, Seq<char>)>, lines: Seq<Seq<char>>) -> Seq<(Seq<char>, Seq<char>)>
    decreases lines.len(),
{
    if lines.len() == 0 {
        fields
    } else {
        lines_read(with_field(fields, lines[0]), lines.drop_first())
    }
}

proof fn lemma_line_ends(s: Seq<char>, from: int, line: Seq<char>)
    requires
        0 <= from,
        from + line.len() < s.len(),
        s.subrange(from, from + line.len()) == line,
        s[from + line.len()] == '\n',
        !line.contains('\n'),
    ensures
        line_end(s, from) == from + line.len(),
    decreases line.len(),
{
    if line.len() > 0 {
        assert(line.contains(line[0]));
        assert(s.subrange(from, from + line.len())[0] == s[from]);
        let rest = line.drop_first();
        assert forall|k: int| 0 <= k < rest.len() implies rest[k] != '\n' by {
            assert(line.contains(line[k + 1]));
        }
        assert(s.subrange(from + 1, from + 1 + rest.len()) =~= rest) by {
            assert forall|k: int| 0 <= k < rest.len() implies s[from + 1 + k] == rest[k] by {
                assert(s.subrange(from, from + line.len())[k + 1] == s[from + k + 1]);
            }
        }
        lemma_line_ends(s, from + 1, rest);
    }
}

proof fn lemma_front_matter(
    s: Seq<char>,
    from: int,
    lines: Seq<Seq<char>>,
    fence: Seq<char>,
    body: Seq<char>,
    fields: Seq<(Seq<char>, Seq<char>)>,
)
    requires
        0 <= from <= s.len(),
        s.skip(from) == lines_text(lines) + fence + seq!['\n'] + body,
        forall|i: int| 0 <= i < lines.len() ==> !(#[trigger] lines[i]).contains('\n') && !is_fence(lines[i]),
        !fence.contains('\n'),
        is_fence(fence),
    ensures
        fence_from(s, from) == Some(from + lines_text(lines).len()),
        s.skip(next_line(s, from + lines_text(lines).len())) == body,
        fields_from(fields, s, from, from + lines_text(lines).len()) == lines_read(fields, lines),
    decreases lines.len(),
{
    let all = lines_text(lines) + fence + seq!['\n'] + body;
    assert(s.skip(from).len() == s.len() - from);
    assert forall|k: int| 0 <= k < all.len() implies s[from + k] == all[k] by {
        assert(s.skip(from)[k] == s[from + k]);
    }
    if lines.len() == 0 {
        assert(all =~= fence + seq!['\n'] + body);
        assert(s.subrange(from, from + fence.len()) =~= fence);
        assert(all[fence.len() as int] == '\n');
        assert(s[from + fence.len()] == '\n');
        lemma_line_ends(s, from, fence);
        assert forall|k: int| 0 <= k < body.len() implies s.skip(from + fence.len() + 1)[k] == body[k] by {
            assert(all[fence.len() + 1 + k] == body[k]);
            assert(s[from + (fence.len() + 1 + k)] == all[fence.len() + 1 + k]);
        }
        assert(s.skip(from + fence.len() + 1) =~= body);
        assert(fields_from(fields, s, from, from) == fields);
    } else {
        let line = lines[0];
        let rest = lines.drop_first();
        assert(all =~= line + seq!['\n'] + (lines_text(rest) + fence + seq!['\n'] + body));
        assert(s.subrange(from, from + line.len()) =~= line);
        assert(all[line.len() as int] == '\n');
        assert(s[from + line.len()] == '\n');
        lemma_line_ends(s, from, line);
        let behind = lines_text(rest) + fence + seq!['\n'] + body;
        assert forall|k: int| 0 <= k < behind.len() implies s.skip(from + line.len() + 1)[k] == behind[k] by {
            assert(all[line.len() + 1 + k] == behind[k]);
            assert(s[from + (line.len() + 1 + k)] == all[line.len() + 1 + k]);
        }
        assert(s.skip(from + line.len() + 1) =~= lines_text(rest) + fence + seq!['\n'] + body);
        assert forall|i: int| 0 <= i < rest.len() implies !(#[trigger] rest[i]).contains('\n') && !is_fence(rest[i]) by {
            assert(rest[i] == lines[i + 1]);
        }
        lemma_front_matter(s, from + line.len() as int + 1, rest, fence, body, with_field(fields, line));
    }
}

/// The front matter of a text stands between two fences: its fields are those that its
/// lines set, and the body is everything behind it.
pub proof fn front_matter_stands_between_fences(lines: Seq<Seq<char>>, opening: Seq<char>, closing: Seq<char>, body: Seq<char>)
    requires
        is_fence(opening),
        is_fence(closing),
        !opening.contains('\n'),
        !closing.contains('\n'),
        opening[0] != '\u{feff}',
        forall|i: int| 0 <= i < lines.len() ==> !(#[trigger] lines[i]).contains('\n') && !is_fence(lines[i]),
    ensures
        ({
            let content = opening + seq!['\n'] + lines_text(lines) + closing + seq!['\n'] + body;
            &&& frontmatter_body(content) == body
            &&& frontmatter_fields(content) == lines_read(Seq::empty(), lines)
            &&& frontmatter_body(seq!['\u{feff}'] + content) == body
            &&& frontmatter_fields(seq!['\u{feff}'] + content) == lines_read(Seq::empty(), lines)
        }),
{
    let content = opening + seq!['\n'] + lines_text(lines) + closing + seq!['\n'] + body;
    reveal_strlit("---");
    assert(opening.len() > 0);
    assert(after_mark(content) == content);
    assert(after_mark(seq!['\u{feff}'] + content) =~= content) by {
        assert((seq!['\u{feff}'] + content).drop_first() =~= content);
    }
    assert(content.subrange(0, opening.len() as int) =~= opening);
    assert(content[opening.len() as int] == '\n');
    lemma_line_ends(content, 0, opening);
    let from = opening.len() as int + 1;
    assert(content.skip(from) =~= lines_text(lines) + closing + seq!['\n'] + body);
    lemma_front_matter(content, from, lines, closing, body, Seq::empty());
}

/// A text that does not begin with a fence has no front matter: it is all body.
pub proof fn texts_without_a_fence_are_all_body(content: Seq<char>)
    requires
        content.len() > 0 && content[0] != '\u{feff}' ==> !is_fence(content.subrange(0, line_end(content, 0))),
        content.len() > 0 ==> content[0] != '\u{feff}',
    ensures
        frontmatter_body(content) == content,
        frontmatter_fields(content).len() == 0,
{
}

proof fn lemma_untrimmed(s: Seq<char>)
    requires
        s.len() > 0,
        !is_space(s[0]),
        !is_space(s.last()),
    ensures
        trimmed(s) == s,
{
}

/// A line of a key, a colon and a value sets the field of that key to the value, without
/// white space and quotes round it, and no other field.
pub proof fn lines_set_their_field(
    fields: Seq<(Seq<char>, Seq<char>)>,
    key: Seq<char>,
    value: Seq<char>,
    other: Seq<char>,
)
    requires
        key.len() > 0,
        !is_space(key[0]),
        !is_space(key.last()),
        key[0] != '#',
        !key.contains(':'),
        value.len() > 0,
        !is_space(value[0]),
        !is_space(value.last()),
    ensures
        ({
            let after = with_field(fields, key + seq![':', ' '] + value);
            &&& value[0] != '"' && value[0] != '\'' ==> lookup(after, key) == Some(value)
            &&& value.len() >= 2 && value[0] == value.last() && (value[0] == '"' || value[0] == '\'') ==> lookup(after, key)
                == Some(value.subrange(1, value.len() - 1))
            &&& other != key ==> lookup(after, other) == lookup(fields, other)
        }),
{
    let line = key + seq![':', ' '] + value;
    let behind = seq![' '] + value;
    lemma_untrimmed(line);
    lemma_untrimmed(key);
    lemma_untrimmed(value);
    assert(line =~= key + seq![':'] + behind);
    texts_split_at_the_first(key, ':', behind);
    assert(behind.drop_first() =~= value);
    reveal_with_fuel(start_trimmed, 2);
    assert(trimmed(behind) == value);
    let set = unquoted(value);
    lookup_after_stored(fields, key, set, key);
    lookup_after_stored(fields, key, set, other);
}

/// Comments and empty lines set nothing.
pub proof fn comments_set_nothing(fields: Seq<(Seq<char>, Seq<char>)>, line: Seq<char>)
    requires
        trimmed(line).len() == 0 || trimmed(line)[0] == '#' || !trimmed(line).contains(':'),
    ensures
        with_field(fields, line) == fields,
{
}

/// The skill in a file has the name and description of its front matter. It is shown in
/// the prompt unless its front matter says otherwise. Without a description there is no
/// skill.
pub proof fn skills_are_described_by_their_file(content: Seq<char>, path: Seq<char>)
    ensures
        ({
            let fields = frontmatter_fields(content);
            let (skill, remarks) = skill_in(content, path);
            let described = lookup(fields, "description"@) matches Some(d) && d.len() > 0;
            &&& skill is Some <==> described
            &&& skill matches Some(found) ==> Some(found.description) == lookup(fields, "description"@) && found.file_path
                == path
            &&& skill matches Some(found) ==> lookup(fields, "name"@) matches Some(name) ==> name.len() > 0 ==> found.name
                == name
            &&& skill matches Some(found) ==> (found.add_to_prompt <==> lookup(fields, "disable-model-invocation"@)
                != Some("true"@))
            &&& !described ==> remarks.len() > 0 && remarks.last().kind == DiagnosticKind::Skipped && remarks.last().path
                == path
        }),
{
}

/// A skill that is found is loaded behind the others, unless its name is taken: the first
/// skill of a name stays, and the collision is remarked.
pub proof fn the_first_skill_of_a_name_is_loaded(loaded: Loaded, content: Seq<char>, path: Seq<char>)
    ensures
        ({
            let after = loaded_with(loaded, content, path);
            let (skill, remarks) = skill_in(content, path);
            &&& skill is None ==> after.skills == loaded.skills
            &&& skill matches Some(found) ==> !has_skill(loaded.skills, found.name) ==> after.skills == loaded.skills.push(
                found,
            )
            &&& skill matches Some(found) ==> has_skill(loaded.skills, found.name) ==> after.skills == loaded.skills
                && after.remarks.len() > 0 && after.remarks.last().kind == DiagnosticKind::Collision && after.remarks.last().path
                == path
            &&& loaded.remarks.is_prefix_of(after.remarks)
        }),
{
    let after = loaded_with(loaded, content, path);
    assert(loaded.remarks.is_prefix_of(after.remarks));
}

/// Whether a skill is the one in a skill file of a directory, and its path leads from the
/// directory to the file.
pub open spec fn lies_in(dir: SkillDirectory, skill: SkillView) -> bool {
    exists|k: int|
        0 <= k < dir.files@.len() && is_skill_file(file_paths(dir.files@), (#[trigger] dir.files@[k]).0@)
            && skill.file_path == path_join(dir.root@, dir.files@[k].0@) && skill_in(
            dir.files@[k].1@,
            skill.file_path,
        ).0 == Some(skill)
}

proof fn lemma_lies_in(loaded: Loaded, dir: SkillDirectory, n: nat, i: int)
    requires
        n <= dir.files@.len(),
        0 <= i < loaded_from(loaded, dir, n).skills.len(),
    ensures
        loaded.skills.is_prefix_of(loaded_from(loaded, dir, n).skills),
        i >= loaded.skills.len() ==> lies_in(dir, loaded_from(loaded, dir, n).skills[i]),
    decreases n,
{
    if n > 0 {
        let before = loaded_from(loaded, dir, (n - 1) as nat);
        let after = loaded_from(loaded, dir, n);
        let file = dir.files@[n - 1];
        the_first_skill_of_a_name_is_loaded(before, file.1@, path_join(dir.root@, file.0@));
        lemma_grows(loaded, dir, (n - 1) as nat);
        assert(before.skills.is_prefix_of(after.skills));
        if i < before.skills.len() {
            lemma_lies_in(loaded, dir, (n - 1) as nat, i);
            assert(after.skills[i] == before.skills[i]);
        } else {
            assert(after.skills == before.skills.push(after.skills[i]));
            assert(dir.files@[n - 1] == file);
        }
        lemma_grows(loaded, dir, n);
    }
}

proof fn lemma_grows(loaded: Loaded, dir: SkillDirectory, n: nat)
    requires
        n <= dir.files@.len(),
    ensures
        loaded.skills.is_prefix_of(loaded_from(loaded, dir, n).skills),
    decreases n,
{
    if n > 0 {
        let before = loaded_from(loaded, dir, (n - 1) as nat);
        let file = dir.files@[n - 1];
        the_first_skill_of_a_name_is_loaded(before, file.1@, path_join(dir.root@, file.0@));
        lemma_grows(loaded, dir, (n - 1) as nat);
    }
}

/// Every loaded skill lies in one of the directories: it is the skill in one of its skill
/// files, and its path leads from the directory to that file.
pub proof fn loaded_skills_lie_in_their_directories(dirs: Seq<SkillDirectory>, i: int)
    requires
        0 <= i < loaded_all(dirs).skills.len(),
    ensures
        exists|d: int| 0 <= d < dirs.len() && lies_in(#[trigger] dirs[d], loaded_all(dirs).skills[i]),
    decreases dirs.len(),
{
    if dirs.len() > 0 {
        let before = loaded_all(dirs.drop_last());
        let dir = dirs.last();
        lemma_lies_in(before, dir, dir.files@.len(), i);
        if i < before.skills.len() {
            loaded_skills_lie_in_their_directories(dirs.drop_last(), i);
            let d = choose|d: int|
                0 <= d < dirs.drop_last().len() && lies_in(#[trigger] dirs.drop_last()[d], before.skills[i]);
            assert(dirs[d] == dirs.drop_last()[d]);
            assert(loaded_all(dirs).skills[i] == before.skills[i]);
        } else {
            assert(lies_in(dirs[dirs.len() - 1], loaded_all(dirs).skills[i]));
        }
    }
}

proof fn lemma_file_loaded(loaded: Loaded, dir: SkillDirectory, n: nat, k: int)
    requires
        n <= dir.files@.len(),
        0 <= k < n,
        is_skill_file(file_paths(dir.files@), dir.files@[k].0@),
        skill_in(dir.files@[k].1@, path_join(dir.root@, dir.files@[k].0@)).0 is Some,
    ensures
        has_skill(
            loaded_from(loaded, dir, n).skills,
            skill_in(dir.files@[k].1@, path_join(dir.root@, dir.files@[k].0@)).0->Some_0.name,
        ),
    decreases n,
{
    let before = loaded_from(loaded, dir, (n - 1) as nat);
    let after = loaded_from(loaded, dir, n);
    let file = dir.files@[n - 1];
    let name = skill_in(dir.files@[k].1@, path_join(dir.root@, dir.files@[k].0@)).0->Some_0.name;
    the_first_skill_of_a_name_is_loaded(before, file.1@, path_join(dir.root@, file.0@));
    if k < n - 1 {
        lemma_file_loaded(loaded, dir, (n - 1) as nat, k);
        lemma_has_skill(before.skills, after.skills, name);
    } else if !has_skill(before.skills, name) {
        assert(after.skills[before.skills.len() as int].name == name);
    }
}

proof fn lemma_has_skill(skills: Seq<SkillView>, more: Seq<SkillView>, name: Seq<char>)
    requires
        has_skill(skills, name),
        skills.is_prefix_of(more),
    ensures
        has_skill(more, name),
{
    let i = choose|i: int| 0 <= i < skills.len() && (#[trigger] skills[i]).name == name;
    assert(more[i] == skills[i]);
}

/// The skill in every skill file of every directory is loaded, or another one of its
/// name is.
pub proof fn skills_in_the_directories_are_loaded(dirs: Seq<SkillDirectory>, d: int, k: int)
    requires
        0 <= d < dirs.len(),
        0 <= k < dirs[d].files@.len(),
        is_skill_file(file_paths(dirs[d].files@), dirs[d].files@[k].0@),
        skill_in(dirs[d].files@[k].1@, path_join(dirs[d].root@, dirs[d].files@[k].0@)).0 is Some,
    ensures
        has_skill(
            loaded_all(dirs).skills,
            skill_in(dirs[d].files@[k].1@, path_join(dirs[d].root@, dirs[d].files@[k].0@)).0->Some_0.name,
        ),
    decreases dirs.len(),
{
    let before = loaded_all(dirs.drop_last());
    let dir = dirs.last();
    let name = skill_in(dirs[d].files@[k].1@, path_join(dirs[d].root@, dirs[d].files@[k].0@)).0->Some_0.name;
    if d < dirs.len() - 1 {
        assert(dirs.drop_last()[d] == dirs[d]);
        skills_in_the_directories_are_loaded(dirs.drop_last(), d, k);
        lemma_grows(before, dir, dir.files@.len());
        lemma_has_skill(before.skills, loaded_all(dirs).skills, name);
    } else {
        lemma_file_loaded(before, dir, dir.files@.len(), k);
    }
}

} // verus!
