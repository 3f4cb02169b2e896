//! Skills: files of instructions with a few fields at their head.
use vstd::prelude::*;
use vstd::string::*;
use crate::assoc::{lookup, stored, TextMap};
use crate::paths::{
    components, file_name, join_path, name_of, parent_of, parent_path, path_join, path_parts,
};
use crate::session::option_text;
use crate::text::{
    begins, chars_of, end_trimmed, ends_in, ends_with, find_line_end, lemma_line_end, line_end, same, same_texts,
    split_at_first, split_once, starts_with, text_between, texts, trim, trim_end, trimmed,
};

verus! {

// ---------------------------------------------------------------------------
// Fields at the head of a file
// ---------------------------------------------------------------------------

/// Whether a line fences the fields off: three dashes and nothing more.
pub open spec fn is_fence(line: Seq<char>) -> bool {
    end_trimmed(line) == "---"@
}

/// The text after the mark that may open a file.
pub open spec fn after_mark(s: Seq<char>) -> Seq<char> {
    if s.len() > 0 && s[0] == '\u{feff}' {
        s.drop_first()
    } else {
        s
    }
}

/// Where the next line starts.
pub open spec fn next_line(s: Seq<char>, from: int) -> int {
    if line_end(s, from) < s.len() {
        line_end(s, from) + 1
    } else {
        s.len() as int
    }
}

/// Where the first fence at or after the line at `from` starts.
pub open spec fn fence_from(s: Seq<char>, from: int) -> Option<int>
    decreases s.len() - from,
{
    if from < 0 || from >= s.len() {
        None
    } else {
        let end = line_end(s, from);
        if is_fence(s.subrange(from, end)) {
            Some(from)
        } else if from <= end < s.len() {
            fence_from(s, end + 1)
        } else {
            None
        }
    }
}

/// Where the closing fence starts, where the text opens with a fence.
pub open spec fn closing_fence(s: Seq<char>) -> Option<int> {
    if s.len() > 0 && is_fence(s.subrange(0, line_end(s, 0))) {
        fence_from(s, next_line(s, 0))
    } else {
        None
    }
}

/// A value without the quotes around it.
pub open spec fn unquoted(v: Seq<char>) -> Seq<char> {
    if v.len() >= 2 && v[0] == v.last() && (v[0] == '"' || v[0] == '\'') {
        v.subrange(1, v.len() - 1)
    } else {
        v
    }
}

/// The fields with the one that a line sets. Empty lines and comments set none.
pub open spec fn with_field(fields: Seq<(Seq<char>, Seq<char>)>, line: Seq<char>) -> Seq<(Seq<char>, Seq<char>)> {
    let t = trimmed(line);
    if t.len() == 0 || t[0] == '#' {
        fields
    } else {
        match split_at_first(t, ':') {
            Some((key, value)) => stored(fields, trimmed(key), unquoted(trimmed(value))),
            None => fields,
        }
    }
}

/// The fields after the lines from `from` up to `stop`.
pub open spec fn fields_from(fields: Seq<(Seq<char>, Seq<char>)>, s: Seq<char>, from: int, stop: int) -> Seq<
    (Seq<char>, Seq<char>),
>
    decreases s.len() - from,
{
    if from < 0 || from >= stop || from >= s.len() {
        fields
    } else {
        let end = line_end(s, from);
        let now = with_field(fields, s.subrange(from, end));
        if from <= end < s.len() {
            fields_from(now, s, end + 1, stop)
        } else {
            now
        }
    }
}

/// The fields at the head of a file.
pub open spec fn frontmatter_fields(content: Seq<char>) -> Seq<(Seq<char>, Seq<char>)> {
    let s = after_mark(content);
    match closing_fence(s) {
        Some(close) => fields_from(Seq::empty(), s, next_line(s, 0), close),
        None => Seq::empty(),
    }
}

/// A file without the fields at its head.
pub open spec fn frontmatter_body(content: Seq<char>) -> Seq<char> {
    let s = after_mark(content);
    match closing_fence(s) {
        Some(close) => s.skip(next_line(s, close)),
        None => content,
    }
}

proof fn lemma_fence_from(s: Seq<char>, from: int)
    requires
        0 <= from <= s.len(),
    ensures
        match fence_from(s, from) {
            Some(close) => from <= close < s.len(),
            None => true,
        },
    decreases s.len() - from,
{
    if from < s.len() {
        lemma_line_end(s, from);
        if line_end(s, from) < s.len() {
            lemma_fence_from(s, line_end(s, from) + 1);
        }
    }
}

fn fence_at(v: &Vec<char>, from: usize, end: usize) -> (r: bool)
    requires
        from <= end <= v.len(),
    ensures
        r == is_fence(v@.subrange(from as int, end as int)),
{
    let line = text_between(v, from, end);
    same(trim_end(line.as_str()).as_str(), "---")
}

fn find_fence(v: &Vec<char>, from: usize) -> (r: Option<usize>)
    requires
        from <= v.len(),
    ensures
        match r {
            Some(i) => fence_from(v@, from as int) == Some(i as int) && from <= i < v.len(),
            None => fence_from(v@, from as int) is None,
        },
{
    let mut at: usize = from;
    while at < v.len()
        invariant
            from <= at <= v.len(),
            fence_from(v@, from as int) == fence_from(v@, at as int),
        decreases v.len() - at,
    {
        let end = find_line_end(v, at);
        if fence_at(v, at, end) {
            return Some(at);
        }
        if end >= v.len() {
            return None;
        }
        at = end + 1;
    }
    None
}

fn unquote(value: String) -> (r: String)
    ensures
        r@ == unquoted(value@),
{
    let v = chars_of(value.as_str());
    let n = v.len();
    if n >= 2 && v[0] == v[n - 1] && (v[0] == '"' || v[0] == '\'') {
        text_between(&v, 1, n - 1)
    } else {
        value
    }
}

fn read_field(fields: &mut TextMap<String>, line: &str)
    ensures
        final(fields)@ == with_field(old(fields)@, line@),
{
    let t = trim(line);
    let c = chars_of(t.as_str());
    if c.len() == 0 || c[0] == '#' {
        return;
    }
    match split_once(t.as_str(), ':') {
        Some(parts) => {
            let key = trim(parts.0.as_str());
            let value = unquote(trim(parts.1.as_str()));
            fields.insert(key, value);
        },
        None => {},
    }
}

/// Reads the fields at the head of a file, and what follows them.
///
/// A file without an opening or a closing fence has no fields and is all body.
pub fn parse_frontmatter(content: &str) -> (r: (TextMap<String>, String))
    ensures
        r.0@ == frontmatter_fields(content@),
        r.1@ == frontmatter_body(content@),
{
    let all = chars_of(content);
    let marked = all.len() > 0 && all[0] == '\u{feff}';
    let text = if marked {
        text_between(&all, 1, all.len())
    } else {
        text_between(&all, 0, all.len())
    };
    let v = chars_of(text.as_str());
    assert(v@ =~= after_mark(content@));
    let mut fields: TextMap<String> = TextMap::new();
    if v.len() == 0 {
        return (fields, content.to_owned());
    }
    let first_end = find_line_end(&v, 0);
    if !fence_at(&v, 0, first_end) {
        return (fields, content.to_owned());
    }
    let start: usize = if first_end < v.len() {
        first_end + 1
    } else {
        v.len()
    };
    match find_fence(&v, start) {
        None => (fields, content.to_owned()),
        Some(close) => {
            let mut at: usize = start;
            while at < close
                invariant
                    at <= v.len(),
                    close < v.len(),
                    fields_from(Seq::empty(), v@, start as int, close as int) == fields_from(
                        fields@,
                        v@,
                        at as int,
                        close as int,
                    ),
                decreases v.len() - at,
            {
                let end = find_line_end(&v, at);
                let line = text_between(&v, at, end);
                read_field(&mut fields, line.as_str());
                if end >= v.len() {
                    at = v.len();
                } else {
                    at = end + 1;
                }
            }
            let close_end = find_line_end(&v, close);
            let body_start: usize = if close_end < v.len() {
                close_end + 1
            } else {
                v.len()
            };
            let body = text_between(&v, body_start, v.len());
            assert(body@ =~= v@.skip(next_line(v@, close as int)));
            (fields, body)
        },
    }
}

/// A file without the fields at its head.
pub fn strip_frontmatter(content: &str) -> (r: String)
    ensures
        r@ == frontmatter_body(content@),
{
    parse_frontmatter(content).1
}

// ---------------------------------------------------------------------------
// Loading
// ---------------------------------------------------------------------------

/// What a diagnostic is about.
#[derive(Clone, Copy, Debug, PartialEq, Eq, Structural)]
pub enum DiagnosticKind {
    /// The skill is loaded, but something about it is odd.
    Warning,
    /// The skill is not loaded.
    Skipped,
    /// Another skill has the same name.
    Collision,
}

/// Something to say about the file of a skill.
#[derive(Debug, PartialEq, Eq)]
pub struct SkillDiagnostic {
    pub kind: DiagnosticKind,
    pub path: String,
    pub message: String,
}

/// What a `SkillDiagnostic` holds.
pub struct Remark {
    pub kind: DiagnosticKind,
    pub path: Seq<char>,
    pub message: Seq<char>,
}

impl SkillDiagnostic {
    pub open spec fn view(&self) -> Remark {
        Remark { kind: self.kind, path: self.path@, message: self.message@ }
    }
}

/// The views of a list of diagnostics.
pub open spec fn remarks_view(v: Seq<SkillDiagnostic>) -> Seq<Remark> {
    v.map_values(|d: SkillDiagnostic| d@)
}

/// A skill.
#[derive(Debug, PartialEq, Eq)]
pub struct Skill {
    pub name: String,
    pub description: String,
    pub file_path: String,
    /// Whether the model is told of the skill.
    pub add_to_prompt: bool,
}

/// What a `Skill` holds.
pub struct SkillView {
    pub name: Seq<char>,
    pub description: Seq<char>,
    pub file_path: Seq<char>,
    pub add_to_prompt: bool,
}

impl Skill {
    pub open spec fn view(&self) -> SkillView {
        SkillView {
            name: self.name@,
            description: self.description@,
            file_path: self.file_path@,
            add_to_prompt: self.add_to_prompt,
        }
    }
}

/// The views of a list of skills.
pub open spec fn loaded_view(v: Seq<Skill>) -> Seq<SkillView> {
    v.map_values(|s: Skill| s@)
}

/// Whether a character may stand in the name of a skill.
pub open spec fn skill_name_char(c: char) -> bool {
    ('a' <= c && c <= 'z') || ('0' <= c && c <= '9') || c == '-'
}

/// Whether every character of a name may stand there.
pub open spec fn plain_name(s: Seq<char>) -> bool {
    forall|i: int| 0 <= i < s.len() ==> skill_name_char(#[trigger] s[i])
}

/// A field that is set to something.
pub open spec fn set_field(fields: Seq<(Seq<char>, Seq<char>)>, key: Seq<char>) -> Option<Seq<char>> {
    match lookup(fields, key) {
        Some(value) => if value.len() > 0 {
            Some(value)
        } else {
            None
        },
        None => None,
    }
}

/// The name of the directory in which a file lies; empty where it has none.
pub open spec fn directory_name(path: Seq<char>) -> Seq<char> {
    match parent_path(path) {
        Some(parent) => match file_name(parent) {
            Some(name) => name,
            None => Seq::empty(),
        },
        None => Seq::empty(),
    }
}

fn name_of_directory(path: &str) -> (r: String)
    ensures
        r@ == directory_name(path@),
{
    match parent_of(path) {
        Some(parent) => match name_of(parent.as_str()) {
            Some(name) => name,
            None => String::new(),
        },
        None => String::new(),
    }
}

/// The name of a skill: that in its fields, else that of its directory.
pub open spec fn skill_name(fields: Seq<(Seq<char>, Seq<char>)>, path: Seq<char>) -> Seq<char> {
    match set_field(fields, "name"@) {
        Some(name) => name,
        None => directory_name(path),
    }
}

/// What there is to say about the name of a skill: odd characters, and for a
/// `SKILL.md` a directory of another name.
pub open spec fn name_remarks(name: Seq<char>, path: Seq<char>) -> Seq<Remark> {
    let first = if plain_name(name) {
        Seq::empty()
    } else {
        seq![
            Remark {
                kind: DiagnosticKind::Warning,
                path,
                message: "name `"@ + name + "` contains invalid characters (use a-z, 0-9 and `-`)"@,
            },
        ]
    };
    if file_name(path) == Some("SKILL.md"@) && name != directory_name(path) {
        first.push(
            Remark {
                kind: DiagnosticKind::Warning,
                path,
                message: "name `"@ + name + "` does not match parent directory `"@ + directory_name(path) + "`"@,
            },
        )
    } else {
        first
    }
}

/// The skill in a file, and what there is to say about it. A file without a
/// description holds no skill.
pub open spec fn skill_in(content: Seq<char>, path: Seq<char>) -> (Option<SkillView>, Seq<Remark>) {
    let fields = frontmatter_fields(content);
    let name = skill_name(fields, path);
    let remarks = name_remarks(name, path);
    match set_field(fields, "description"@) {
        Some(description) => (
            Some(
                SkillView {
                    name,
                    description,
                    file_path: path,
                    add_to_prompt: lookup(fields, "disable-model-invocation"@) != Some("true"@),
                },
            ),
            remarks,
        ),
        None => (
            None,
            remarks.push(
                Remark { kind: DiagnosticKind::Skipped, path, message: "missing description"@ },
            ),
        ),
    }
}

/// An optional skill over its view.
pub open spec fn option_skill(o: Option<Skill>) -> Option<SkillView> {
    match o {
        Some(s) => Some(s@),
        None => None,
    }
}

fn is_plain_name(name: &str) -> (r: bool)
    ensures
        r == plain_name(name@),
{
    let v = chars_of(name);
    let mut i: usize = 0;
    while i < v.len()
        invariant
            i <= v.len(),
            v@ == name@,
            forall|k: int| 0 <= k < i ==> skill_name_char(#[trigger] v@[k]),
        decreases v.len() - i,
    {
        let c: char = v[i];
        let ok = ('a' <= c && c <= 'z') || ('0' <= c && c <= '9') || c == '-';
        assert(ok == skill_name_char(v@[i as int]));
        if !ok {
            return false;
        }
        i += 1;
    }
    true
}

fn get_set_field(fields: &TextMap<String>, key: &str) -> (r: Option<String>)
    ensures
        option_text(r) == set_field(fields@, key@),
{
    match fields.get(key) {
        Some(value) => {
            if value.as_str().is_empty() {
                None
            } else {
                Some(value.clone())
            }
        },
        None => None,
    }
}

/// Loads the skill in a file, given its text and its path.
pub fn load_skill_from_content(content: &str, path: &str) -> (r: (Option<Skill>, Vec<SkillDiagnostic>))
    ensures
        (option_skill(r.0), remarks_view(r.1@)) == skill_in(content@, path@),
{
    let (fields, _) = parse_frontmatter(content);
    let directory = name_of_directory(path);
    let name = match get_set_field(&fields, "name") {
        Some(name) => name,
        None => directory.clone(),
    };
    let mut remarks: Vec<SkillDiagnostic> = Vec::new();
    assert(remarks_view(remarks@) =~= Seq::empty());
    if !is_plain_name(name.as_str()) {
        let mut message = "name `".to_owned();
        message.append(name.as_str());
        message.append("` contains invalid characters (use a-z, 0-9 and `-`)");
        let remark = SkillDiagnostic { kind: DiagnosticKind::Warning, path: path.to_owned(), message };
        remarks.push(remark);
        assert(remarks_view(remarks@) =~= seq![remark@]);
    }
    let ghost so_far = remarks_view(remarks@);
    let is_skill_file = match name_of(path) {
        Some(file) => same(file.as_str(), "SKILL.md"),
        None => false,
    };
    if is_skill_file && !same(name.as_str(), directory.as_str()) {
        let mut message = "name `".to_owned();
        message.append(name.as_str());
        message.append("` does not match parent directory `");
        message.append(directory.as_str());
        message.append("`");
        let remark = SkillDiagnostic { kind: DiagnosticKind::Warning, path: path.to_owned(), message };
        remarks.push(remark);
        assert(remarks_view(remarks@) =~= so_far.push(remark@));
    }
    let ghost both = remarks_view(remarks@);
    assert(both == name_remarks(name@, path@));
    match get_set_field(&fields, "description") {
        Some(description) => {
            let hidden = match fields.get("disable-model-invocation") {
                Some(value) => same(value.as_str(), "true"),
                None => false,
            };
            let skill = Skill { name, description, file_path: path.to_owned(), add_to_prompt: !hidden };
            (Some(skill), remarks)
        },
        None => {
            let remark = SkillDiagnostic {
                kind: DiagnosticKind::Skipped,
                path: path.to_owned(),
                message: "missing description".to_owned(),
            };
            remarks.push(remark);
            assert(remarks_view(remarks@) =~= both.push(remark@));
            (None, remarks)
        },
    }
}

// ---------------------------------------------------------------------------
// Finding
// ---------------------------------------------------------------------------

/// Whether a path leads through a hidden or a vendored directory.
pub open spec fn passed_over(parts: Seq<Seq<char>>) -> bool {
    exists|i: int|
        0 <= i < parts.len() && (begins(#[trigger] parts[i], "."@) || parts[i] == "node_modules"@)
}

/// Whether the directory in which `other` lies holds a `SKILL.md`, and a file lies
/// below it.
pub open spec fn lies_below(parts: Seq<Seq<char>>, other: Seq<Seq<char>>) -> bool {
    &&& other.len() > 0
    &&& other.last() == "SKILL.md"@
    &&& other.len() < parts.len()
    &&& parts.take(other.len() - 1) == other.drop_last()
}

/// Whether one of the files is the skill of a directory above a file.
pub open spec fn shadowed(files: Seq<Seq<char>>, parts: Seq<Seq<char>>) -> bool {
    exists|j: int| 0 <= j < files.len() && lies_below(parts, path_parts(#[trigger] files[j]))
}

/// Whether a file below a directory of skills is the file of a skill: a
/// `SKILL.md`, unless a directory above is a skill itself; and a Markdown file
/// right in the directory, unless that is a skill itself.
pub open spec fn is_skill_file(files: Seq<Seq<char>>, path: Seq<char>) -> bool {
    let parts = path_parts(path);
    &&& parts.len() > 0
    &&& !passed_over(parts)
    &&& if parts.last() == "SKILL.md"@ {
        !shadowed(files, parts)
    } else {
        parts.len() == 1 && ends_in(parts[0], ".md"@) && !has_own_skill(files)
    }
}

/// Whether the directory of skills is a skill itself.
pub open spec fn has_own_skill(files: Seq<Seq<char>>) -> bool {
    exists|j: int| 0 <= j < files.len() && path_parts(#[trigger] files[j]) == seq!["SKILL.md"@]
}

/// The files of skills among the first `n` files below a directory.
pub open spec fn skill_files(root: Seq<char>, files: Seq<Seq<char>>, n: nat) -> Seq<Seq<char>>
    decreases n,
{
    if n == 0 || n > files.len() {
        Seq::empty()
    } else {
        let before = skill_files(root, files, (n - 1) as nat);
        if is_skill_file(files, files[n - 1]) {
            before.push(path_join(root, files[n - 1]))
        } else {
            before
        }
    }
}

fn is_passed_over(parts: &Vec<String>) -> (r: bool)
    ensures
        r == passed_over(texts(parts@)),
{
    let ghost all = texts(parts@);
    let mut i: usize = 0;
    while i < parts.len()
        invariant
            i <= parts.len(),
            all == texts(parts@),
            forall|k: int| 0 <= k < i ==> !begins(#[trigger] all[k], "."@) && all[k] != "node_modules"@,
        decreases parts.len() - i,
    {
        assert(all[i as int] == parts@[i as int]@);
        if starts_with(parts[i].as_str(), ".") || same(parts[i].as_str(), "node_modules") {
            return true;
        }
        i += 1;
    }
    false
}

fn below(parts: &Vec<String>, other: &Vec<String>) -> (r: bool)
    ensures
        r == lies_below(texts(parts@), texts(other@)),
{
    let ghost x = texts(parts@);
    let ghost y = texts(other@);
    if other.len() == 0 || other.len() >= parts.len() {
        assert(y.len() == other@.len() && x.len() == parts@.len());
        return false;
    }
    assert(y.last() == other@[other.len() - 1]@);
    if !same(other[other.len() - 1].as_str(), "SKILL.md") {
        return false;
    }
    let mut i: usize = 0;
    while i < other.len() - 1
        invariant
            0 < other.len() < parts.len(),
            i <= other.len() - 1,
            x == texts(parts@),
            y == texts(other@),
            forall|k: int| 0 <= k < i ==> (#[trigger] x[k]) == y[k],
        decreases other.len() - i,
    {
        assert(x[i as int] == parts@[i as int]@ && y[i as int] == other@[i as int]@);
        if !same(parts[i].as_str(), other[i].as_str()) {
            assert(x.take(y.len() - 1)[i as int] != y.drop_last()[i as int]);
            return false;
        }
        i += 1;
    }
    assert(x.take(y.len() - 1) =~= y.drop_last());
    true
}

/// The characters of a text stand at the end of another.
fn skill_file(files: &Vec<String>, path: &str) -> (r: bool)
    ensures
        r == is_skill_file(texts(files@), path@),
{
    let ghost all = texts(files@);
    let parts = components(path);
    assert(texts(parts@).len() == parts@.len());
    if parts.len() == 0 || is_passed_over(&parts) {
        return false;
    }
    let last = &parts[parts.len() - 1];
    assert(texts(parts@).last() == last@);
    let is_own = same(last.as_str(), "SKILL.md");
    if !is_own {
        assert(texts(parts@)[0] == parts@[0]@);
        if parts.len() != 1 || !ends_with(parts[0].as_str(), ".md") {
            return false;
        }
    }
    let mut own_name: Vec<String> = Vec::new();
    own_name.push("SKILL.md".to_owned());
    assert(texts(own_name@) =~= seq!["SKILL.md"@]);
    let mut j: usize = 0;
    while j < files.len()
        invariant
            j <= files.len(),
            all == texts(files@),
            texts(parts@) == path_parts(path@),
            texts(own_name@) == seq!["SKILL.md"@],
            !passed_over(path_parts(path@)),
            path_parts(path@).len() > 0,
            is_own == (path_parts(path@).last() == "SKILL.md"@),
            !is_own ==> path_parts(path@).len() == 1 && ends_in(path_parts(path@)[0], ".md"@),
            forall|k: int|
                0 <= k < j ==> if is_own {
                    !lies_below(path_parts(path@), path_parts(#[trigger] all[k]))
                } else {
                    path_parts(all[k]) != seq!["SKILL.md"@]
                },
        decreases files.len() - j,
    {
        assert(all[j as int] == files@[j as int]@);
        let other = components(files[j].as_str());
        if is_own {
            if below(&parts, &other) {
                assert(lies_below(path_parts(path@), path_parts(all[j as int])));
                return false;
            }
        } else if same_texts(&other, &own_name) {
            assert(path_parts(all[j as int]) == seq!["SKILL.md"@]);
            return false;
        }
        j += 1;
    }
    true
}

/// Finds the files of skills below a directory, given the files below it.
pub fn discover_skill_paths(root: &str, files: &Vec<String>) -> (r: Vec<String>)
    ensures
        texts(r@) == skill_files(root@, texts(files@), files@.len()),
{
    let ghost all = texts(files@);
    let mut r: Vec<String> = Vec::new();
    let mut i: usize = 0;
    assert(texts(r@) =~= Seq::empty());
    while i < files.len()
        invariant
            i <= files.len(),
            all == texts(files@),
            texts(r@) == skill_files(root@, all, i as nat),
        decreases files.len() - i,
    {
        let ghost before = texts(r@);
        assert(all[i as int] == files@[i as int]@);
        if skill_file(files, files[i].as_str()) {
            let path = join_path(root, files[i].as_str());
            r.push(path);
            assert(texts(r@) =~= before.push(path@));
        }
        i += 1;
    }
    r
}

// ---------------------------------------------------------------------------
// Several directories
// ---------------------------------------------------------------------------

/// A directory of skills with the files below it: their paths and their texts.
pub struct SkillDirectory {
    pub root: String,
    pub files: Vec<(String, String)>,
}

/// The paths of files.
pub open spec fn file_paths(files: Seq<(String, String)>) -> Seq<Seq<char>> {
    files.map_values(|f: (String, String)| f.0@)
}

/// What loading skills gives.
#[verifier::ext_equal]
pub struct Loaded {
    pub skills: Seq<SkillView>,
    pub remarks: Seq<Remark>,
}

/// Whether a skill of this name is loaded.
pub open spec fn has_skill(skills: Seq<SkillView>, name: Seq<char>) -> bool {
    exists|i: int| 0 <= i < skills.len() && (#[trigger] skills[i]).name == name
}

/// What is loaded with one more file. The first skill of a name stays.
pub open spec fn loaded_with(loaded: Loaded, content: Seq<char>, path: Seq<char>) -> Loaded {
    let (skill, remarks) = skill_in(content, path);
    match skill {
        Some(s) => if has_skill(loaded.skills, s.name) {
            Loaded {
                skills: loaded.skills,
                remarks: (loaded.remarks + remarks).push(
                    Remark {
                        kind: DiagnosticKind::Collision,
                        path,
                        message: "name `"@ + s.name + "` is taken by another skill"@,
                    },
                ),
            }
        } else {
            Loaded { skills: loaded.skills.push(s), remarks: loaded.remarks + remarks }
        },
        None => Loaded { skills: loaded.skills, remarks: loaded.remarks + remarks },
    }
}

/// What is loaded with the first `n` files of a directory.
pub open spec fn loaded_from(loaded: Loaded, dir: SkillDirectory, n: nat) -> Loaded
    decreases n,
{
    if n == 0 || n > dir.files@.len() {
        loaded
    } else {
        let before = loaded_from(loaded, dir, (n - 1) as nat);
        let (path, content) = dir.files@[n - 1];
        if is_skill_file(file_paths(dir.files@), path@) {
            loaded_with(before, content@, path_join(dir.root@, path@))
        } else {
            before
        }
    }
}

/// What is loaded from directories, one after the other.
pub open spec fn loaded_all(dirs: Seq<SkillDirectory>) -> Loaded
    decreases dirs.len(),
{
    if dirs.len() == 0 {
        Loaded { skills: Seq::empty(), remarks: Seq::empty() }
    } else {
        loaded_from(loaded_all(dirs.drop_last()), dirs.last(), dirs.last().files@.len())
    }
}

/// Skills, with what there is to say about them.
#[derive(Debug, PartialEq, Eq)]
pub struct LoadSkillsResult {
    pub skills: Vec<Skill>,
    pub diagnostics: Vec<SkillDiagnostic>,
}

impl LoadSkillsResult {
    pub open spec fn view(&self) -> Loaded {
        Loaded { skills: loaded_view(self.skills@), remarks: remarks_view(self.diagnostics@) }
    }

    fn holds(&self, name: &str) -> (r: bool)
        ensures
            r == has_skill(self@.skills, name@),
    {
        let ghost all = self@.skills;
        let mut i: usize = 0;
        while i < self.skills.len()
            invariant
                i <= self.skills.len(),
                all == loaded_view(self.skills@),
                forall|k: int| 0 <= k < i ==> (#[trigger] all[k]).name != name@,
            decreases self.skills.len() - i,
        {
            assert(all[i as int] == self.skills@[i as int]@);
            if same(self.skills[i].name.as_str(), name) {
                return true;
            }
            i += 1;
        }
        false
    }

    fn add(&mut self, content: &str, path: &str)
        ensures
            final(self)@ == loaded_with(old(self)@, content@, path@),
    {
        let ghost before = self@;
        let (skill, mut remarks) = load_skill_from_content(content, path);
        let ghost told = self.diagnostics@;
        let ghost more = remarks@;
        self.diagnostics.append(&mut remarks);
        assert(remarks_view(self.diagnostics@) =~= remarks_view(told) + remarks_view(more));
        match skill {
            Some(s) => {
                if self.holds(s.name.as_str()) {
                    let mut message = "name `".to_owned();
                    message.append(s.name.as_str());
                    message.append("` is taken by another skill");
                    let ghost now = remarks_view(self.diagnostics@);
                    let remark = SkillDiagnostic { kind: DiagnosticKind::Collision, path: path.to_owned(), message };
                    self.diagnostics.push(remark);
                    assert(remarks_view(self.diagnostics@) =~= now.push(remark@));
                } else {
                    let ghost now = loaded_view(self.skills@);
                    self.skills.push(s);
                    assert(loaded_view(self.skills@) =~= now.push(s@));
                }
            },
            None => {},
        }
        assert(self@ =~= loaded_with(before, content@, path@));
    }

    fn add_directory(&mut self, dir: &SkillDirectory)
        ensures
            final(self)@ == loaded_from(old(self)@, *dir, dir.files@.len()),
    {
        let ghost before = self@;
        let mut paths: Vec<String> = Vec::new();
        let mut i: usize = 0;
        while i < dir.files.len()
            invariant
                i <= dir.files.len(),
                paths.len() == i,
                forall|k: int| 0 <= k < i ==> (#[trigger] paths@[k])@ == dir.files@[k].0@,
            decreases dir.files.len() - i,
        {
            paths.push(dir.files[i].0.clone());
            i += 1;
        }
        assert(texts(paths@) =~= file_paths(dir.files@));
        let mut n: usize = 0;
        while n < dir.files.len()
            invariant
                n <= dir.files.len(),
                texts(paths@) == file_paths(dir.files@),
                self@ == loaded_from(before, *dir, n as nat),
            decreases dir.files.len() - n,
        {
            let file = &dir.files[n];
            if skill_file(&paths, file.0.as_str()) {
                let path = join_path(dir.root.as_str(), file.0.as_str());
                self.add(file.1.as_str(), path.as_str());
            }
            n += 1;
        }
    }
}

/// Loads the skills of several directories. Where two have the same name, the
/// first stays.
pub fn load_skills_from_dirs(dirs: &Vec<SkillDirectory>) -> (r: LoadSkillsResult)
    ensures
        r@ == loaded_all(dirs@),
{
    let mut r = LoadSkillsResult { skills: Vec::new(), diagnostics: Vec::new() };
    let mut i: usize = 0;
    assert(r@ =~= loaded_all(dirs@.take(0)));
    while i < dirs.len()
        invariant
            i <= dirs.len(),
            r@ == loaded_all(dirs@.take(i as int)),
        decreases dirs.len() - i,
    {
        assert(dirs@.take(i + 1).drop_last() =~= dirs@.take(i as int));
        assert(dirs@.take(i + 1).last() == dirs@[i as int]);
        r.add_directory(&dirs[i]);
        i += 1;
    }
    assert(dirs@.take(dirs.len() as int) =~= dirs@);
    r
}

// ---------------------------------------------------------------------------
// Laws
// ---------------------------------------------------------------------------

/// Whether no two skills have the same name.
pub open spec fn distinct_names(skills: Seq<SkillView>) -> bool {
    forall|i: int, j: int| 0 <= i < j < skills.len() ==> (#[trigger] skills[i]).name != (#[trigger] skills[j]).name
}

proof fn lemma_loaded_with(loaded: Loaded, content: Seq<char>, path: Seq<char>)
    requires
        distinct_names(loaded.skills),
    ensures
        distinct_names(loaded_with(loaded, content, path).skills),
        loaded.skills.is_prefix_of(loaded_with(loaded, content, path).skills),
{
}

proof fn lemma_loaded_from(loaded: Loaded, dir: SkillDirectory, n: nat)
    requires
        distinct_names(loaded.skills),
    ensures
        distinct_names(loaded_from(loaded, dir, n).skills),
        loaded.skills.is_prefix_of(loaded_from(loaded, dir, n).skills),
    decreases n,
{
    if 0 < n <= dir.files@.len() {
        lemma_loaded_from(loaded, dir, (n - 1) as nat);
        let before = loaded_from(loaded, dir, (n - 1) as nat);
        let (path, content) = dir.files@[n - 1];
        lemma_loaded_with(before, content@, path_join(dir.root@, path@));
    }
}

/// No two loaded skills have the same name.
pub proof fn loaded_names_differ(dirs: Seq<SkillDirectory>)
    ensures
        distinct_names(loaded_all(dirs).skills),
    decreases dirs.len(),
{
    if dirs.len() > 0 {
        loaded_names_differ(dirs.drop_last());
        lemma_loaded_from(loaded_all(dirs.drop_last()), dirs.last(), dirs.last().files@.len());
    }
}

/// A further directory adds skills behind those that are loaded, and takes none of
/// them away.
pub proof fn earlier_directories_come_first(dirs: Seq<SkillDirectory>, more: SkillDirectory)
    ensures
        loaded_all(dirs).skills.is_prefix_of(loaded_all(dirs.push(more)).skills),
{
    loaded_names_differ(dirs);
    assert(dirs.push(more).drop_last() =~= dirs);
    lemma_loaded_from(loaded_all(dirs), more, more.files@.len());
}

} // verus!
