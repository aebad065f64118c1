//! The tools offered to the model: their definitions, what a call asks to
//! be done, and the text that each tool answers with.

use vstd::prelude::*;
use crate::text::{
    chars_of, clip, count_matches, count_occurrences, cuts_cleanly, dec, dec_int, find, find_first,
    lemma_find_bound, lemma_find_count, lines, lines_of, pad_left, push_chars, push_clipped, push_dec,
    push_dec_i64, push_padded, push_str, replace_first, same_text, string_of, trim, trim_slice, utf8_len,
    byte_len, dec_chars,
};
use crate::types::{FunctionDef, ParamSchema, ParamSpec, ToolCall, ToolDef};

verus! {

broadcast use vstd::string::group_string_axioms;

// ---------------------------------------------------------------------------
// Definitions
// ---------------------------------------------------------------------------

/// How `read_file` is described to the model.
pub const READ_FILE_DESC: &'static str =
    "Read the contents of a file. Returns the file text with line numbers.";

/// How `list_dir` is described to the model.
pub const LIST_DIR_DESC: &'static str =
    "List files and directories at the given path. Returns names with trailing / for directories.";

/// How `edit_file` is described to the model.
pub const EDIT_FILE_DESC: &'static str =
    "Edit a file by replacing an exact string match with new content, or create a new file. To create a new file, set old_string to empty string.";

/// How `grep` is described to the model.
pub const GREP_DESC: &'static str =
    "Search for a regex pattern in files recursively using ripgrep. Returns matching lines with file paths and line numbers. Respects .gitignore.";

/// How `bash` is described to the model.
pub const BASH_DESC: &'static str =
    "Run a shell command and return stdout + stderr. Use for build, test, git, and other commands.";

/// How `web_search` is described to the model.
pub const WEB_SEARCH_DESC: &'static str =
    "Search the web via Tavily. Returns an AI-generated summary plus ranked results (title, URL, snippet). Use for library docs, recent APIs, error messages, or any external/up-to-date info — not codebase search.";

/// View of a parameter.
pub struct ParamSpecV {
    pub name: Seq<char>,
    pub kind: Seq<char>,
    pub description: Seq<char>,
}

/// View of a tool definition.
pub struct ToolDefV {
    pub kind: Seq<char>,
    pub name: Seq<char>,
    pub description: Seq<char>,
    pub properties: Seq<ParamSpecV>,
    pub required: Seq<Seq<char>>,
}

impl DeepView for ParamSpec {
    type V = ParamSpecV;

    open spec fn deep_view(&self) -> ParamSpecV {
        ParamSpecV { name: self.name@, kind: self.kind@, description: self.description@ }
    }
}

impl DeepView for ToolDef {
    type V = ToolDefV;

    open spec fn deep_view(&self) -> ToolDefV {
        ToolDefV {
            kind: self.kind@,
            name: self.function.name@,
            description: self.function.description@,
            properties: self.function.parameters.properties.deep_view(),
            required: self.function.parameters.required.deep_view(),
        }
    }
}

/// A parameter's view.
pub open spec fn param_v(name: &str, kind: &str, description: &str) -> ParamSpecV {
    ParamSpecV { name: name@, kind: kind@, description: description@ }
}

/// A function tool's view.
pub open spec fn tool_v(
    name: &str,
    description: &str,
    properties: Seq<ParamSpecV>,
    required: Seq<Seq<char>>,
) -> ToolDefV {
    ToolDefV { kind: "function"@, name: name@, description: description@, properties, required }
}

/// The six tools, in the order they are offered.
pub open spec fn tool_catalog() -> Seq<ToolDefV> {
    seq![
        tool_v(
            "read_file",
            READ_FILE_DESC,
            seq![param_v("path", "string", "Path to the file to read")],
            seq!["path"@],
        ),
        tool_v(
            "list_dir",
            LIST_DIR_DESC,
            seq![param_v("path", "string", "Directory path to list (default: current directory)")],
            seq![],
        ),
        tool_v(
            "edit_file",
            EDIT_FILE_DESC,
            seq![
                param_v("path", "string", "Path to the file"),
                param_v(
                    "old_string",
                    "string",
                    "Exact string to find and replace. Empty string to create a new file.",
                ),
                param_v("new_string", "string", "Replacement string"),
            ],
            seq!["path"@, "old_string"@, "new_string"@],
        ),
        tool_v(
            "grep",
            GREP_DESC,
            seq![
                param_v(
                    "pattern",
                    "string",
                    "Regex pattern to search for (case-insensitive). Use \\b for word boundaries.",
                ),
                param_v("path", "string", "Directory to search in (default: current directory)"),
                param_v("glob", "string", "File glob filter, e.g. '*.rs' (optional)"),
            ],
            seq!["pattern"@],
        ),
        tool_v(
            "bash",
            BASH_DESC,
            seq![param_v("command", "string", "The shell command to execute")],
            seq!["command"@],
        ),
        tool_v(
            "web_search",
            WEB_SEARCH_DESC,
            seq![
                param_v("query", "string", "Search query"),
                param_v("max_results", "integer", "Maximum number of results (default: 5, max: 10)"),
            ],
            seq!["query"@],
        ),
    ]
}

fn param(name: &str, kind: &str, description: &str) -> (p: ParamSpec)
    ensures
        p.deep_view() == param_v(name, kind, description),
{
    ParamSpec {
        name: String::from_str(name),
        kind: String::from_str(kind),
        description: String::from_str(description),
    }
}

fn tool(name: &str, description: &str, properties: Vec<ParamSpec>, required: Vec<String>) -> (t: ToolDef)
    ensures
        t.deep_view() == tool_v(name, description, properties.deep_view(), required.deep_view()),
{
    ToolDef {
        kind: String::from_str("function"),
        function: FunctionDef {
            name: String::from_str(name),
            description: String::from_str(description),
            parameters: ParamSchema { properties, required },
        },
    }
}

fn names(a: &str, b: &str, c: &str, count: usize) -> (v: Vec<String>)
    requires
        count <= 3,
    ensures
        v.deep_view() == seq![a@, b@, c@].take(count as int),
{
    let mut v: Vec<String> = Vec::new();
    if count >= 1 {
        v.push(String::from_str(a));
    }
    if count >= 2 {
        v.push(String::from_str(b));
    }
    if count >= 3 {
        v.push(String::from_str(c));
    }
    assert(v.deep_view() =~= seq![a@, b@, c@].take(count as int));
    v
}

/// The tools offered to the model.
pub fn tool_definitions() -> (defs: Vec<ToolDef>)
    ensures
        defs.deep_view() == tool_catalog(),
{
    let ghost cat = tool_catalog();
    let mut defs: Vec<ToolDef> = Vec::new();

    let p = vec![param("path", "string", "Path to the file to read")];
    assert(p.deep_view() =~= cat[0].properties);
    let r = names("path", "", "", 1);
    assert(r.deep_view() =~= cat[0].required);
    let t = tool("read_file", READ_FILE_DESC, p, r);
    assert(t.deep_view() == cat[0]);
    defs.push(t);

    let p = vec![param("path", "string", "Directory path to list (default: current directory)")];
    assert(p.deep_view() =~= cat[1].properties);
    let r = names("", "", "", 0);
    assert(r.deep_view() =~= cat[1].required);
    let t = tool("list_dir", LIST_DIR_DESC, p, r);
    assert(t.deep_view() == cat[1]);
    defs.push(t);

    let p = vec![
        param("path", "string", "Path to the file"),
        param(
            "old_string",
            "string",
            "Exact string to find and replace. Empty string to create a new file.",
        ),
        param("new_string", "string", "Replacement string"),
    ];
    assert(p.deep_view() =~= cat[2].properties);
    let r = names("path", "old_string", "new_string", 3);
    assert(r.deep_view() =~= cat[2].required);
    let t = tool("edit_file", EDIT_FILE_DESC, p, r);
    assert(t.deep_view() == cat[2]);
    defs.push(t);

    let p = vec![
        param(
            "pattern",
            "string",
            "Regex pattern to search for (case-insensitive). Use \\b for word boundaries.",
        ),
        param("path", "string", "Directory to search in (default: current directory)"),
        param("glob", "string", "File glob filter, e.g. '*.rs' (optional)"),
    ];
    assert(p.deep_view() =~= cat[3].properties);
    let r = names("pattern", "", "", 1);
    assert(r.deep_view() =~= cat[3].required);
    let t = tool("grep", GREP_DESC, p, r);
    assert(t.deep_view() == cat[3]);
    defs.push(t);

    let p = vec![param("command", "string", "The shell command to execute")];
    assert(p.deep_view() =~= cat[4].properties);
    let r = names("command", "", "", 1);
    assert(r.deep_view() =~= cat[4].required);
    let t = tool("bash", BASH_DESC, p, r);
    assert(t.deep_view() == cat[4]);
    defs.push(t);

    let p = vec![
        param("query", "string", "Search query"),
        param("max_results", "integer", "Maximum number of results (default: 5, max: 10)"),
    ];
    assert(p.deep_view() =~= cat[5].properties);
    let r = names("query", "", "", 1);
    assert(r.deep_view() =~= cat[5].required);
    let t = tool("web_search", WEB_SEARCH_DESC, p, r);
    assert(t.deep_view() == cat[5]);
    defs.push(t);

    assert(defs.deep_view() =~= cat);
    defs
}


// ---------------------------------------------------------------------------
// Paths
// ---------------------------------------------------------------------------

/// `raw` taken relative to `workdir` unless it is absolute, joined as
/// `Path::join` does on Unix: a `/` is put between them unless `workdir`
/// is empty or already ends with one.
pub open spec fn resolved(raw: Seq<char>, workdir: Seq<char>) -> Seq<char> {
    if raw.len() > 0 && raw[0] == '/' {
        raw
    } else if workdir.len() == 0 {
        raw
    } else if workdir.last() == '/' {
        workdir + raw
    } else {
        workdir + seq!['/'] + raw
    }
}

/// Resolves a user-supplied path against the working directory.
pub fn resolve_path(raw: &str, workdir: &str) -> (p: String)
    ensures
        p@ == resolved(raw@, workdir@),
{
    let r = chars_of(raw);
    let w = chars_of(workdir);
    if r.len() > 0 && r[0] == '/' {
        return String::from_str(raw);
    }
    if w.len() == 0 {
        return String::from_str(raw);
    }
    let mut p = String::from_str(workdir);
    proof {
        reveal_strlit("/");
    }
    if w[w.len() - 1] != '/' {
        push_str(&mut p, "/");
    }
    push_str(&mut p, raw);
    p
}

/// `resolve_path`, under the name its tests use.
pub fn resolve_path_pub(raw: &str, workdir: &str) -> (p: String)
    ensures
        p@ == resolved(raw@, workdir@),
{
    resolve_path(raw, workdir)
}

// ---------------------------------------------------------------------------
// Arguments of a call
// ---------------------------------------------------------------------------

/// What a tool reads of one JSON argument.
#[derive(Debug, Clone)]
pub enum ArgValue {
    /// A JSON string.
    Text(String),
    /// A JSON number that is a non-negative integer fitting in a `u64`.
    Count(u64),
    /// Any other JSON value.
    Other,
}

/// View of an argument value.
pub enum ArgValueV {
    Text(Seq<char>),
    Count(u64),
    Other,
}

/// One argument of a call: its key and value.
#[derive(Debug, Clone)]
pub struct ArgEntry {
    pub key: String,
    pub value: ArgValue,
}

/// View of an argument.
pub struct ArgEntryV {
    pub key: Seq<char>,
    pub value: ArgValueV,
}

impl DeepView for ArgEntry {
    type V = ArgEntryV;

    open spec fn deep_view(&self) -> ArgEntryV {
        ArgEntryV {
            key: self.key@,
            value: match self.value {
                ArgValue::Text(t) => ArgValueV::Text(t@),
                ArgValue::Count(n) => ArgValueV::Count(n),
                ArgValue::Other => ArgValueV::Other,
            },
        }
    }
}

/// The arguments of a tool call, as the members of its JSON object (no
/// members when the arguments are not an object).
#[derive(Debug, Clone)]
pub struct ToolArgs {
    pub entries: Vec<ArgEntry>,
}

/// The value of the first argument named `key`.
pub open spec fn arg_lookup(es: Seq<ArgEntryV>, key: Seq<char>) -> Option<ArgValueV>
    decreases es.len(),
{
    if es.len() == 0 {
        None
    } else if es[0].key == key {
        Some(es[0].value)
    } else {
        arg_lookup(es.drop_first(), key)
    }
}

/// The argument `key` when it is a string (`get(key).and_then(as_str)`).
pub open spec fn arg_text(es: Seq<ArgEntryV>, key: Seq<char>) -> Option<Seq<char>> {
    match arg_lookup(es, key) {
        Some(ArgValueV::Text(t)) => Some(t),
        _ => None,
    }
}

/// The argument `key` when it is a count (`get(key).and_then(as_u64)`).
pub open spec fn arg_count(es: Seq<ArgEntryV>, key: Seq<char>) -> Option<u64> {
    match arg_lookup(es, key) {
        Some(ArgValueV::Count(n)) => Some(n),
        _ => None,
    }
}

impl ToolArgs {
    /// The position of the first argument named `key`.
    fn position(&self, key: &str) -> (r: Option<usize>)
        ensures
            match r {
                Some(i) => i < self.entries@.len() && arg_lookup(self.entries.deep_view(), key@)
                    == Some(self.entries.deep_view()[i as int].value),
                None => arg_lookup(self.entries.deep_view(), key@) is None,
            },
    {
        let n = self.entries.len();
        let mut i: usize = 0;
        let ghost es = self.entries.deep_view();
        assert(es.skip(0) == es);
        while i < n
            invariant
                n == self.entries@.len(),
                es == self.entries.deep_view(),
                i <= n,
                arg_lookup(es, key@) == arg_lookup(es.skip(i as int), key@),
            decreases n - i,
        {
            assert(es.skip(i as int)[0] == es[i as int]);
            if same_text(self.entries[i].key.as_str(), key) {
                return Some(i);
            }
            assert(es.skip(i as int).drop_first() == es.skip(i + 1));
            i = i + 1;
        }
        None
    }

    /// The argument `key` when it is a string.
    pub fn text(&self, key: &str) -> (r: Option<String>)
        ensures
            r.deep_view() == arg_text(self.entries.deep_view(), key@),
    {
        match self.position(key) {
            Some(i) => match &self.entries[i].value {
                ArgValue::Text(t) => Some(t.clone()),
                _ => None,
            },
            None => None,
        }
    }

    /// The argument `key` when it is a count.
    pub fn count(&self, key: &str) -> (r: Option<u64>)
        ensures
            r == arg_count(self.entries.deep_view(), key@),
    {
        match self.position(key) {
            Some(i) => match &self.entries[i].value {
                ArgValue::Count(n) => Some(*n),
                _ => None,
            },
            None => None,
        }
    }
}

// ---------------------------------------------------------------------------
// What a call asks for
// ---------------------------------------------------------------------------

/// What carrying out a tool call takes.
#[derive(Debug, Clone)]
pub enum ToolAction {
    /// Nothing to do but answer with this text.
    Reply(String),
    /// Read the file at `path`.
    ReadFile { path: String },
    /// List the directory at `path`.
    ListDir { path: String },
    /// Create (or overwrite) the file at `path` with `content`, creating
    /// its parent directories.
    CreateFile { path: String, content: String },
    /// Replace the one occurrence of `old` by `new` in the file at `path`.
    EditFile { path: String, old: String, new: String },
    /// Run ripgrep with `args`.
    Grep { args: Vec<String> },
    /// Run `command` with `sh -c` in the working directory.
    Bash { command: String },
    /// Search the web for `query`, asking for `max_results` results.
    WebSearch { query: String, max_results: u64 },
}

/// View of a tool action.
pub enum ToolActionV {
    Reply(Seq<char>),
    ReadFile { path: Seq<char> },
    ListDir { path: Seq<char> },
    CreateFile { path: Seq<char>, content: Seq<char> },
    EditFile { path: Seq<char>, old: Seq<char>, new: Seq<char> },
    Grep { args: Seq<Seq<char>> },
    Bash { command: Seq<char> },
    WebSearch { query: Seq<char>, max_results: u64 },
}

impl DeepView for ToolAction {
    type V = ToolActionV;

    open spec fn deep_view(&self) -> ToolActionV {
        match self {
            ToolAction::Reply(t) => ToolActionV::Reply(t@),
            ToolAction::ReadFile { path } => ToolActionV::ReadFile { path: path@ },
            ToolAction::ListDir { path } => ToolActionV::ListDir { path: path@ },
            ToolAction::CreateFile { path, content } => ToolActionV::CreateFile {
                path: path@,
                content: content@,
            },
            ToolAction::EditFile { path, old, new } => ToolActionV::EditFile {
                path: path@,
                old: old@,
                new: new@,
            },
            ToolAction::Grep { args } => ToolActionV::Grep { args: args.deep_view() },
            ToolAction::Bash { command } => ToolActionV::Bash { command: command@ },
            ToolAction::WebSearch { query, max_results } => ToolActionV::WebSearch {
                query: query@,
                max_results: *max_results,
            },
        }
    }
}

/// The answer when a required argument is missing.
pub open spec fn missing_param(key: Seq<char>) -> Seq<char> {
    "Error: missing '"@ + key + "' parameter"@
}

/// The ripgrep arguments of a search: line numbers, case-insensitive, no
/// headings, the glob filter when given, then the pattern and the path.
pub open spec fn grep_args(pattern: Seq<char>, glob: Option<Seq<char>>, path: Seq<char>) -> Seq<Seq<char>> {
    seq!["-n"@, "-i"@, "--no-heading"@] + match glob {
        Some(g) => seq!["-g"@, g],
        None => seq![],
    } + seq!["--"@, pattern, path]
}

/// `n` held to `lo..=hi` (`u64::clamp`).
pub open spec fn clamp(n: u64, lo: u64, hi: u64) -> u64 {
    if n < lo {
        lo
    } else if n > hi {
        hi
    } else {
        n
    }
}

/// What the call of the tool `name` with the arguments `es` asks for,
/// relative to `workdir`.
pub open spec fn planned_action(name: Seq<char>, es: Seq<ArgEntryV>, workdir: Seq<char>) -> ToolActionV {
    if name == "read_file"@ {
        match arg_text(es, "path"@) {
            Some(p) => ToolActionV::ReadFile { path: resolved(p, workdir) },
            None => ToolActionV::Reply(missing_param("path"@)),
        }
    } else if name == "list_dir"@ {
        match arg_text(es, "path"@) {
            Some(p) => ToolActionV::ListDir { path: resolved(p, workdir) },
            None => ToolActionV::ListDir { path: workdir },
        }
    } else if name == "edit_file"@ {
        match arg_text(es, "path"@) {
            Some(p) => {
                let old = match arg_text(es, "old_string"@) {
                    Some(o) => o,
                    None => seq![],
                };
                let new = match arg_text(es, "new_string"@) {
                    Some(n) => n,
                    None => seq![],
                };
                if old.len() == 0 {
                    ToolActionV::CreateFile { path: resolved(p, workdir), content: new }
                } else {
                    ToolActionV::EditFile { path: resolved(p, workdir), old, new }
                }
            },
            None => ToolActionV::Reply(missing_param("path"@)),
        }
    } else if name == "grep"@ {
        match arg_text(es, "pattern"@) {
            Some(pat) => {
                let path = match arg_text(es, "path"@) {
                    Some(p) => resolved(p, workdir),
                    None => workdir,
                };
                ToolActionV::Grep { args: grep_args(pat, arg_text(es, "glob"@), path) }
            },
            None => ToolActionV::Reply(missing_param("pattern"@)),
        }
    } else if name == "bash"@ {
        match arg_text(es, "command"@) {
            Some(c) => ToolActionV::Bash { command: c },
            None => ToolActionV::Reply(missing_param("command"@)),
        }
    } else if name == "web_search"@ {
        match arg_text(es, "query"@) {
            Some(q) => if trim(q).len() > 0 {
                ToolActionV::WebSearch {
                    query: q,
                    max_results: clamp(
                        match arg_count(es, "max_results"@) {
                            Some(n) => n,
                            None => 5,
                        },
                        1,
                        10,
                    ),
                }
            } else {
                ToolActionV::Reply(missing_param("query"@))
            },
            None => ToolActionV::Reply(missing_param("query"@)),
        }
    } else {
        ToolActionV::Reply("Unknown tool: "@ + name)
    }
}

/// How a path stands against the working directory: an absolute path
/// stands as given; a relative one is the working directory followed by the
/// path as given, with one `/` between them where the directory has none at
/// its end.
pub open spec fn joined_path(raw: Seq<char>, workdir: Seq<char>, r: Seq<char>) -> bool {
    if raw.len() > 0 && raw[0] == '/' {
        r == raw
    } else {
        &&& r.len() >= workdir.len() + raw.len()
        &&& r.take(workdir.len() as int) == workdir
        &&& r.skip(r.len() - raw.len()) == raw
        &&& (workdir.len() > 0 && workdir.last() != '/' ==> r.len() == workdir.len() + 1 + raw.len()
            && r[workdir.len() as int] == '/')
        &&& (workdir.len() == 0 || workdir.last() == '/' ==> r.len() == workdir.len() + raw.len())
    }
}

/// A path resolved against the working directory is the two joined as
/// `joined_path` describes.
pub proof fn lemma_resolved(raw: Seq<char>, workdir: Seq<char>)
    ensures
        joined_path(raw, workdir, resolved(raw, workdir)),
{
    let r = resolved(raw, workdir);
    if !(raw.len() > 0 && raw[0] == '/') {
        if workdir.len() == 0 {
            assert(r.skip(0) =~= raw);
            assert(r.take(0) =~= workdir);
        } else {
            assert(r.take(workdir.len() as int) =~= workdir);
            assert(r.skip(r.len() - raw.len()) =~= raw);
        }
    }
}

/// The answer when the argument `key` is missing.
pub open spec fn missing_text(key: Seq<char>) -> Seq<char> {
    "Error: missing '"@ + key + "' parameter"@
}

/// The path that a `path` argument names: resolved against the working
/// directory, or the working directory itself when there is none.
pub open spec fn path_or_workdir(es: Seq<ArgEntryV>, workdir: Seq<char>) -> Seq<char> {
    match arg_text(es, "path"@) {
        Some(p) => resolved(p, workdir),
        None => workdir,
    }
}

/// What the file tools do with a `path` argument given as text `p`: read,
/// list or edit (or create) the file at `p` resolved against the working
/// directory; an edit with a non-empty `old_string` replaces it by
/// `new_string` (empty when absent).
pub open spec fn file_tools_use_path(es: Seq<ArgEntryV>, workdir: Seq<char>, p: Seq<char>) -> bool {
    let rp = resolved(p, workdir);
    &&& planned_action("read_file"@, es, workdir) == (ToolActionV::ReadFile { path: rp })
    &&& planned_action("list_dir"@, es, workdir) == (ToolActionV::ListDir { path: rp })
    &&& match arg_text(es, "old_string"@) {
        Some(o) => o.len() > 0 ==> planned_action("edit_file"@, es, workdir) == (ToolActionV::EditFile {
            path: rp,
            old: o,
            new: match arg_text(es, "new_string"@) {
                Some(n) => n,
                None => seq![],
            },
        }),
        None => planned_action("edit_file"@, es, workdir) == (ToolActionV::CreateFile {
            path: rp,
            content: match arg_text(es, "new_string"@) {
                Some(n) => n,
                None => seq![],
            },
        }),
    }
}

/// What the file tools do without a `path` argument: `list_dir` lists the
/// working directory; `read_file` and `edit_file` answer that it is missing.
pub open spec fn file_tools_without_path(es: Seq<ArgEntryV>, workdir: Seq<char>) -> bool {
    &&& planned_action("list_dir"@, es, workdir) == (ToolActionV::ListDir { path: workdir })
    &&& planned_action("read_file"@, es, workdir) == ToolActionV::Reply(missing_text("path"@))
    &&& planned_action("edit_file"@, es, workdir) == ToolActionV::Reply(missing_text("path"@))
}

/// What `grep` does with a pattern `pat`: ripgrep gets line numbers,
/// case-insensitive matching and no headings, the glob filter only when
/// given, and then the pattern and the path to search, last.
pub open spec fn grep_uses_arguments(es: Seq<ArgEntryV>, workdir: Seq<char>, pat: Seq<char>) -> bool {
    match planned_action("grep"@, es, workdir) {
        ToolActionV::Grep { args } => {
            &&& args.len() == (if arg_text(es, "glob"@) is Some { 8int } else { 6int })
            &&& args[0] == "-n"@ && args[1] == "-i"@ && args[2] == "--no-heading"@
            &&& (arg_text(es, "glob"@) matches Some(g) ==> args[3] == "-g"@ && args[4] == g)
            &&& args[args.len() - 3] == "--"@
            &&& args[args.len() - 2] == pat
            &&& args[args.len() - 1] == path_or_workdir(es, workdir)
        },
        _ => false,
    }
}

/// How the tools use their arguments: the file tools act on the `path`
/// given (resolved against the working directory), `list_dir` falls back
/// to the working directory, `grep` searches for the given pattern, `bash`
/// runs the given command, and a name that is no tool is answered as such.
pub proof fn lemma_tool_arguments(es: Seq<ArgEntryV>, workdir: Seq<char>, name: Seq<char>)
    ensures
        arg_text(es, "path"@) matches Some(p) ==> file_tools_use_path(es, workdir, p),
        arg_text(es, "path"@) is None ==> file_tools_without_path(es, workdir),
        arg_text(es, "pattern"@) matches Some(pat) ==> grep_uses_arguments(es, workdir, pat),
        arg_text(es, "command"@) matches Some(c) ==> planned_action("bash"@, es, workdir)
            == (ToolActionV::Bash { command: c }),
        name != "read_file"@ && name != "list_dir"@ && name != "edit_file"@ && name != "grep"@
            && name != "bash"@ && name != "web_search"@ ==> planned_action(name, es, workdir)
            == ToolActionV::Reply("Unknown tool: "@ + name),
{
    reveal_strlit("read_file");
    reveal_strlit("list_dir");
    reveal_strlit("edit_file");
    reveal_strlit("grep");
    reveal_strlit("bash");
    reveal_strlit("web_search");
    assert("list_dir"@[0] != "read_file"@[0]);
    assert("edit_file"@[0] != "read_file"@[0] && "edit_file"@[0] != "list_dir"@[0]);
    assert("grep"@.len() != "read_file"@.len() && "grep"@[0] != "list_dir"@[0] && "grep"@[0]
        != "edit_file"@[0]);
    assert("bash"@[0] != "read_file"@[0] && "bash"@[0] != "list_dir"@[0] && "bash"@[0]
        != "edit_file"@[0] && "bash"@[0] != "grep"@[0]);
    if let Some(p) = arg_text(es, "path"@) {
        assert(planned_action("list_dir"@, es, workdir) == (ToolActionV::ListDir {
            path: resolved(p, workdir),
        }));
        assert(file_tools_use_path(es, workdir, p));
    }
}

fn missing(key: &str) -> (r: String)
    ensures
        r@ == missing_param(key@),
{
    let mut r = String::from_str("Error: missing '");
    push_str(&mut r, key);
    push_str(&mut r, "' parameter");
    r
}

/// What the call of the tool `name` with `args` asks for (the dispatch and
/// argument checks of `execute`, whose I/O stays with the caller).
pub fn plan_tool_call(name: &str, args: &ToolArgs, workdir: &str) -> (a: ToolAction)
    ensures
        a.deep_view() == planned_action(name@, args.entries.deep_view(), workdir@),
{
    let ghost es = args.entries.deep_view();
    if same_text(name, "read_file") {
        match args.text("path") {
            Some(p) => ToolAction::ReadFile { path: resolve_path(p.as_str(), workdir) },
            None => ToolAction::Reply(missing("path")),
        }
    } else if same_text(name, "list_dir") {
        match args.text("path") {
            Some(p) => ToolAction::ListDir { path: resolve_path(p.as_str(), workdir) },
            None => ToolAction::ListDir { path: String::from_str(workdir) },
        }
    } else if same_text(name, "edit_file") {
        match args.text("path") {
            Some(p) => {
                let old = match args.text("old_string") {
                    Some(o) => o,
                    None => String::new(),
                };
                let new = match args.text("new_string") {
                    Some(n) => n,
                    None => String::new(),
                };
                let path = resolve_path(p.as_str(), workdir);
                if old.as_str().is_empty() {
                    ToolAction::CreateFile { path, content: new }
                } else {
                    ToolAction::EditFile { path, old, new }
                }
            },
            None => ToolAction::Reply(missing("path")),
        }
    } else if same_text(name, "grep") {
        match args.text("pattern") {
            Some(pat) => {
                let path = match args.text("path") {
                    Some(p) => resolve_path(p.as_str(), workdir),
                    None => String::from_str(workdir),
                };
                let mut v: Vec<String> = Vec::new();
                v.push(String::from_str("-n"));
                v.push(String::from_str("-i"));
                v.push(String::from_str("--no-heading"));
                let glob = args.text("glob");
                match &glob {
                    Some(g) => {
                        v.push(String::from_str("-g"));
                        v.push(g.clone());
                    },
                    None => {},
                }
                v.push(String::from_str("--"));
                v.push(pat);
                v.push(path);
                assert(v.deep_view() =~= grep_args(pat@, glob.deep_view(), path@));
                ToolAction::Grep { args: v }
            },
            None => ToolAction::Reply(missing("pattern")),
        }
    } else if same_text(name, "bash") {
        match args.text("command") {
            Some(c) => ToolAction::Bash { command: c },
            None => ToolAction::Reply(missing("command")),
        }
    } else if same_text(name, "web_search") {
        match args.text("query") {
            Some(q) => {
                let qc = chars_of(q.as_str());
                let t = trim_slice(qc.as_slice());
                if t.len() > 0 {
                    let n = match args.count("max_results") {
                        Some(n) => n,
                        None => 5,
                    };
                    let m = if n < 1 {
                        1
                    } else if n > 10 {
                        10
                    } else {
                        n
                    };
                    ToolAction::WebSearch { query: q, max_results: m }
                } else {
                    ToolAction::Reply(missing("query"))
                }
            },
            None => ToolAction::Reply(missing("query")),
        }
    } else {
        let mut r = String::from_str("Unknown tool: ");
        push_str(&mut r, name);
        ToolAction::Reply(r)
    }
}

/// What `serde_json` makes of the argument text of a call: the members of
/// the JSON object it holds (none when it holds another JSON value), or the
/// text of the error when it is not JSON.
pub uninterp spec fn parsed_arguments(text: Seq<char>) -> Result<Seq<ArgEntryV>, Seq<char>>;

/// Decodes the argument text of a call with `serde_json::from_str` into a
/// `serde_json::Value`, and takes the members of an object, each value as a
/// string, a `u64` (`Number::as_u64`) or neither; the error is rendered with
/// `Display`.  The contract claims only that the outcome is the named result
/// `parsed_arguments` of the text: JSON decoding itself is not restated here.
#[verifier::external_body]
fn parse_arguments(text: &str) -> (r: Result<ToolArgs, String>)
    ensures
        match r {
            Ok(a) => parsed_arguments(text@) == Ok::<Seq<ArgEntryV>, Seq<char>>(a.entries.deep_view()),
            Err(e) => parsed_arguments(text@) == Err::<Seq<ArgEntryV>, Seq<char>>(e@),
        },
{
    match serde_json::from_str::<serde_json::Value>(text) {
        Ok(serde_json::Value::Object(m)) => Ok(ToolArgs { entries: m.into_iter().map(|(key, v)| ArgEntry {
            key,
            value: match v {
                serde_json::Value::String(t) => ArgValue::Text(t),
                serde_json::Value::Number(n) => n.as_u64().map_or(ArgValue::Other, ArgValue::Count),
                _ => ArgValue::Other,
            },
        }).collect() }),
        Ok(_) => Ok(ToolArgs { entries: Vec::new() }),
        Err(e) => Err(e.to_string()),
    }
}

/// What carrying out `call` takes, given the decoded arguments: the
/// action that `planned_action` names, or, when the arguments are not JSON,
/// the answer `Error parsing arguments: {error}`.
pub open spec fn execution_plan(
    name: Seq<char>,
    parsed: Result<Seq<ArgEntryV>, Seq<char>>,
    workdir: Seq<char>,
) -> ToolActionV {
    match parsed {
        Ok(es) => planned_action(name, es, workdir),
        Err(e) => ToolActionV::Reply("Error parsing arguments: "@ + e),
    }
}

/// What carrying out the tool call `call` in `workdir` takes: its argument
/// text is decoded and the call is dispatched on the tool's name (the
/// decisions of `execute`; the file, process and network work of the
/// action stays with the caller).
pub fn plan_execution(call: &ToolCall, workdir: &str) -> (a: ToolAction)
    ensures
        a.deep_view() == execution_plan(
            call.function.name@,
            parsed_arguments(call.function.arguments@),
            workdir@,
        ),
{
    match parse_arguments(call.function.arguments.as_str()) {
        Ok(args) => plan_tool_call(call.function.name.as_str(), &args, workdir),
        Err(e) => {
            let mut r = String::from_str("Error parsing arguments: ");
            push_str(&mut r, e.as_str());
            ToolAction::Reply(r)
        },
    }
}


// ---------------------------------------------------------------------------
// read_file
// ---------------------------------------------------------------------------

/// Most bytes of a file listing that `read_file` answers with.
pub const READ_LIMIT: usize = 100000;

/// What `read_file` appends when it cuts a listing.
pub const READ_MARKER: &'static str = "\n... [truncated at 100KB]";

/// The lines `ls` numbered from 1, each as `{:>4}\t{line}\n`.
pub open spec fn numbered(ls: Seq<Seq<char>>) -> Seq<char>
    decreases ls.len(),
{
    if ls.len() == 0 {
        seq![]
    } else {
        numbered(ls.drop_last()) + pad_left(dec(ls.len()), 4) + seq!['\t'] + ls.last() + seq!['\n']
    }
}

/// The text of a file with its lines numbered.
pub fn number_lines(content: &str) -> (r: String)
    ensures
        r@ == numbered(lines(content@)),
{
    let cs = chars_of(content);
    let ls = lines_of(cs.as_slice());
    let n = ls.len();
    let mut r = String::new();
    let mut i: usize = 0;
    proof {
        reveal_strlit("\t");
        reveal_strlit("\n");
    }
    while i < n
        invariant
            n == ls@.len(),
            ls.deep_view() == lines(content@),
            i <= n,
            r@ == numbered(ls.deep_view().take(i as int)),
        decreases n - i,
    {
        let ghost cur = ls.deep_view().take(i + 1);
        assert(cur.drop_last() == ls.deep_view().take(i as int));
        assert(cur.last() == ls[i as int]@);
        assert(ls[i as int].deep_view() =~= ls[i as int]@);
        proof {
            reveal_strlit("\t");
            reveal_strlit("\n");
        }
        let num = dec_chars((i + 1) as u64);
        push_padded(&mut r, num.as_slice(), 4);
        push_str(&mut r, "\t");
        push_chars(&mut r, ls[i].as_slice());
        push_str(&mut r, "\n");
        assert(cur.len() == i + 1);
        assert(r@ =~= numbered(ls.deep_view().take(i as int)) + pad_left(dec((i + 1) as nat), 4)
            + seq!['\t'] + ls[i as int]@ + seq!['\n']);
        i = i + 1;
    }
    assert(ls.deep_view().take(n as int) == ls.deep_view());
    r
}

/// The answer of `read_file` for a file's text.
pub open spec fn read_file_text(content: Seq<char>) -> Seq<char> {
    clip(numbered(lines(content)), READ_LIMIT as nat, READ_MARKER@)
}

/// The answer of `read_file` for a file's text: its numbered lines, held
/// to `READ_LIMIT` bytes.
pub fn read_file_output(content: &str) -> (r: String)
    requires
        cuts_cleanly(numbered(lines(content@)), READ_LIMIT as nat),
    ensures
        r@ == read_file_text(content@),
{
    let numbered_text = number_lines(content);
    let cs = chars_of(numbered_text.as_str());
    let mut r = String::new();
    push_clipped(&mut r, cs.as_slice(), READ_LIMIT, READ_MARKER);
    r
}

/// The answer when a file operation fails: `Error {verb} {path}: {err}`.
pub open spec fn io_error_text(verb: Seq<char>, path: Seq<char>, err: Seq<char>) -> Seq<char> {
    "Error "@ + verb + " "@ + path + ": "@ + err
}

/// The answer when a file operation fails.
pub fn io_error_message(verb: &str, path: &str, err: &str) -> (r: String)
    ensures
        r@ == io_error_text(verb@, path@, err@),
{
    let mut r = String::from_str("Error ");
    push_str(&mut r, verb);
    push_str(&mut r, " ");
    push_str(&mut r, path);
    push_str(&mut r, ": ");
    push_str(&mut r, err);
    r
}

// ---------------------------------------------------------------------------
// edit_file
// ---------------------------------------------------------------------------

/// The answer when `old_string` does not occur.
pub open spec fn not_found_text(path: Seq<char>) -> Seq<char> {
    "Error: old_string not found in "@ + path + ". Make sure it matches exactly."@
}

/// The answer when `old_string` occurs `n` times.
pub open spec fn ambiguous_text(n: nat, path: Seq<char>) -> Seq<char> {
    "Error: old_string found "@ + dec(n) + " times in "@ + path
        + ". Provide more context for a unique match."@
}

/// An edit of `content` at `path`: the new content when `old` occurs
/// exactly once, otherwise the answer that says why not.
pub fn apply_edit(content: &str, old: &str, new: &str, path: &str) -> (r: Result<String, String>)
    requires
        old@.len() > 0,
    ensures
        match r {
            Ok(t) => count_matches(content@, old@) == 1 && t@ == replace_first(content@, old@, new@),
            Err(e) => if count_matches(content@, old@) == 0 {
                e@ == not_found_text(path@)
            } else {
                count_matches(content@, old@) > 1 && e@ == ambiguous_text(
                    count_matches(content@, old@),
                    path@,
                )
            },
        },
{
    let cs = chars_of(content);
    let pat = chars_of(old);
    let count = count_occurrences(cs.as_slice(), pat.as_slice());
    if count == 0 {
        let mut e = String::from_str("Error: old_string not found in ");
        push_str(&mut e, path);
        push_str(&mut e, ". Make sure it matches exactly.");
        return Err(e);
    }
    if count > 1 {
        let mut e = String::from_str("Error: old_string found ");
        push_dec(&mut e, count as u64);
        push_str(&mut e, " times in ");
        push_str(&mut e, path);
        push_str(&mut e, ". Provide more context for a unique match.");
        return Err(e);
    }
    proof {
        lemma_find_count(cs@, pat@);
        lemma_find_bound(cs@, pat@);
    }
    match find_first(cs.as_slice(), pat.as_slice()) {
        Some(i) => {
            assert(find(cs@, pat@) == Some(i as nat));
            assert(i + pat@.len() <= cs@.len());
            let m = pat.len();
            let total = cs.len();
            assert(i + m <= total);
            let j: usize = i + m;
            let mut t = String::new();
            push_chars(&mut t, &cs[0..i]);
            push_str(&mut t, new);
            push_chars(&mut t, &cs[j..total]);
            assert(cs@.subrange(i + pat@.len(), cs@.len() as int) == cs@.skip(i + pat@.len()));
            assert(t@ =~= replace_first(content@, old@, new@));
            Ok(t)
        },
        None => {
            assert(false);
            Err(String::new())
        },
    }
}

/// The answer after creating a file.
pub fn created_message(path: &str) -> (r: String)
    ensures
        r@ == "Created "@ + path@,
{
    let mut r = String::from_str("Created ");
    push_str(&mut r, path);
    r
}

/// The answer after writing an edited file: its path and size in bytes.
pub fn edited_message(path: &str, new_content: &str) -> (r: String)
    requires
        utf8_len(new_content@) <= usize::MAX,
    ensures
        r@ == "Edited "@ + path@ + " ("@ + dec(utf8_len(new_content@)) + " bytes written)"@,
{
    let n = byte_len(new_content);
    let mut r = String::from_str("Edited ");
    push_str(&mut r, path);
    push_str(&mut r, " (");
    push_dec(&mut r, n as u64);
    push_str(&mut r, " bytes written)");
    r
}

// ---------------------------------------------------------------------------
// grep and bash
// ---------------------------------------------------------------------------

/// Most bytes of command output that `grep`, `bash` and `web_search`
/// answer with.
pub const OUTPUT_LIMIT: usize = 50000;

/// What is appended when command output is cut.
pub const OUTPUT_MARKER: &'static str = "\n... [truncated]";

/// The answer of `grep` for ripgrep's output.
pub open spec fn grep_text(out: Seq<char>) -> Seq<char> {
    let c = clip(out, OUTPUT_LIMIT as nat, OUTPUT_MARKER@);
    if c.len() == 0 {
        "No matches found."@
    } else {
        c
    }
}

/// The answer of `grep`: ripgrep's output held to `OUTPUT_LIMIT` bytes,
/// or `No matches found.` when there is none.
pub fn grep_output(out: &str) -> (r: String)
    requires
        cuts_cleanly(out@, OUTPUT_LIMIT as nat),
    ensures
        r@ == grep_text(out@),
{
    let cs = chars_of(out);
    let mut r = String::new();
    push_clipped(&mut r, cs.as_slice(), OUTPUT_LIMIT, OUTPUT_MARKER);
    if r.as_str().is_empty() {
        String::from_str("No matches found.")
    } else {
        r
    }
}

/// A command's output before it is held to a limit: stdout, then stderr
/// marked `[stderr] ` (on a new line when stdout is not empty), then the
/// exit code when it is not 0 (`-1` when the process has none).
pub open spec fn bash_raw_text(stdout: Seq<char>, stderr: Seq<char>, code: Option<i32>) -> Seq<char> {
    let with_err = if stderr.len() == 0 {
        stdout
    } else if stdout.len() == 0 {
        "[stderr] "@ + stderr
    } else {
        stdout + "\n"@ + "[stderr] "@ + stderr
    };
    let c: int = match code {
        Some(c) => c as int,
        None => -1,
    };
    if c != 0 {
        with_err + "\n[exit code: "@ + dec_int(c) + "]"@
    } else {
        with_err
    }
}

/// The answer of `bash`.
pub open spec fn bash_text(stdout: Seq<char>, stderr: Seq<char>, code: Option<i32>) -> Seq<char> {
    let c = clip(bash_raw_text(stdout, stderr, code), OUTPUT_LIMIT as nat, OUTPUT_MARKER@);
    if c.len() == 0 {
        "(no output)"@
    } else {
        c
    }
}

/// The exit-code note of a command's answer: `\n[exit code: N]` when the
/// code (-1 when the process has none) is not 0, nothing otherwise.
pub open spec fn exit_note(code: Option<i32>) -> Seq<char> {
    let c: int = match code {
        Some(c) => c as int,
        None => -1,
    };
    if c == 0 {
        seq![]
    } else {
        "\n[exit code: "@ + dec_int(c) + "]"@
    }
}

/// The layout of a command's answer before the limit: the exit-code note
/// ends it, whatever the two streams hold; before the note stands stdout
/// as is, and, when stderr is not empty, stderr marked `[stderr] ` after
/// it, on a new line when stdout is not empty.
pub open spec fn bash_layout(stdout: Seq<char>, stderr: Seq<char>, code: Option<i32>, r: Seq<char>) -> bool {
    let note = exit_note(code);
    let body = r.take(r.len() - note.len());
    &&& r.len() >= note.len()
    &&& r.skip(r.len() - note.len()) == note
    &&& body.len() >= stdout.len()
    &&& body.take(stdout.len() as int) == stdout
    &&& (stderr.len() == 0 ==> body == stdout)
    &&& (stderr.len() > 0 ==> body.skip(body.len() - stderr.len() - 9) == "[stderr] "@ + stderr)
    &&& (stderr.len() > 0 && stdout.len() > 0 ==> body.len() == stdout.len() + 1 + 9 + stderr.len()
        && body[stdout.len() as int] == '\n')
    &&& (stderr.len() > 0 && stdout.len() == 0 ==> body.len() == 9 + stderr.len())
}

/// A command's answer is laid out as `bash_layout` describes: in
/// particular a failing exit code is reported whether or not the command
/// wrote to stderr.
pub proof fn lemma_bash_layout(stdout: Seq<char>, stderr: Seq<char>, code: Option<i32>)
    ensures
        bash_layout(stdout, stderr, code, bash_raw_text(stdout, stderr, code)),
{
    reveal_strlit("[stderr] ");
    reveal_strlit("\n");
    let r = bash_raw_text(stdout, stderr, code);
    let note = exit_note(code);
    let with_err = if stderr.len() == 0 {
        stdout
    } else if stdout.len() == 0 {
        "[stderr] "@ + stderr
    } else {
        stdout + "\n"@ + "[stderr] "@ + stderr
    };
    assert(r == with_err + note);
    assert(r.take(r.len() - note.len()) =~= with_err);
    assert(r.skip(r.len() - note.len()) =~= note);
    assert(with_err.take(stdout.len() as int) =~= stdout);
    if stderr.len() > 0 {
        assert(with_err.skip(with_err.len() - stderr.len() - 9) =~= "[stderr] "@ + stderr);
    }
}

/// A command's output before it is held to a limit.
pub fn bash_raw(stdout: &str, stderr: &str, code: Option<i32>) -> (r: String)
    ensures
        r@ == bash_raw_text(stdout@, stderr@, code),
{
    let mut r = String::new();
    if !stdout.is_empty() {
        push_str(&mut r, stdout);
    }
    if !stderr.is_empty() {
        if !r.as_str().is_empty() {
            push_str(&mut r, "\n");
        }
        push_str(&mut r, "[stderr] ");
        push_str(&mut r, stderr);
    }
    let c: i32 = match code {
        Some(c) => c,
        None => -1,
    };
    if c != 0 {
        push_str(&mut r, "\n[exit code: ");
        push_dec_i64(&mut r, c as i64);
        push_str(&mut r, "]");
    }
    r
}

/// The answer of `bash`: the command's output held to `OUTPUT_LIMIT`
/// bytes, or `(no output)` when there is none.
pub fn bash_output(stdout: &str, stderr: &str, code: Option<i32>) -> (r: String)
    requires
        cuts_cleanly(bash_raw_text(stdout@, stderr@, code), OUTPUT_LIMIT as nat),
    ensures
        r@ == bash_text(stdout@, stderr@, code),
{
    let raw = bash_raw(stdout, stderr, code);
    let cs = chars_of(raw.as_str());
    let mut r = String::new();
    push_clipped(&mut r, cs.as_slice(), OUTPUT_LIMIT, OUTPUT_MARKER);
    if r.as_str().is_empty() {
        String::from_str("(no output)")
    } else {
        r
    }
}


// ---------------------------------------------------------------------------
// list_dir
// ---------------------------------------------------------------------------

/// `a` comes no later than `b` in the order of `String`'s `Ord`: by code
/// point, a prefix first.
pub open spec fn lex_le(a: Seq<char>, b: Seq<char>) -> bool
    decreases a.len(),
{
    if a.len() == 0 {
        true
    } else if b.len() == 0 {
        false
    } else if a[0] != b[0] {
        (a[0] as u32) < (b[0] as u32)
    } else {
        lex_le(a.drop_first(), b.drop_first())
    }
}

/// `lex_le` as a relation.
pub open spec fn lex_order() -> spec_fn(Seq<char>, Seq<char>) -> bool {
    |a: Seq<char>, b: Seq<char>| lex_le(a, b)
}

proof fn lemma_lex_reflexive(a: Seq<char>)
    ensures
        lex_le(a, a),
    decreases a.len(),
{
    if a.len() > 0 {
        lemma_lex_reflexive(a.drop_first());
    }
}

proof fn lemma_lex_antisymmetric(a: Seq<char>, b: Seq<char>)
    requires
        lex_le(a, b),
        lex_le(b, a),
    ensures
        a == b,
    decreases a.len(),
{
    if a.len() > 0 && b.len() > 0 {
        if a[0] == b[0] {
            lemma_lex_antisymmetric(a.drop_first(), b.drop_first());
            assert(a =~= seq![a[0]] + a.drop_first());
            assert(b =~= seq![b[0]] + b.drop_first());
        }
    } else {
        assert(a =~= b);
    }
}

proof fn lemma_lex_transitive(a: Seq<char>, b: Seq<char>, c: Seq<char>)
    requires
        lex_le(a, b),
        lex_le(b, c),
    ensures
        lex_le(a, c),
    decreases a.len(),
{
    if a.len() > 0 && b.len() > 0 && c.len() > 0 {
        if a[0] == b[0] && b[0] == c[0] {
            lemma_lex_transitive(a.drop_first(), b.drop_first(), c.drop_first());
        }
    }
}

proof fn lemma_lex_total(a: Seq<char>, b: Seq<char>)
    ensures
        lex_le(a, b) || lex_le(b, a),
    decreases a.len(),
{
    if a.len() > 0 && b.len() > 0 {
        if a[0] == b[0] {
            lemma_lex_total(a.drop_first(), b.drop_first());
        } else {
            if (a[0] as u32) == (b[0] as u32) {
                vstd::utf8::char_u32_cast(a[0], a[0] as u32);
                vstd::utf8::char_u32_cast(b[0], b[0] as u32);
            }
        }
    }
}

/// `lex_le` is a total order.
pub proof fn lemma_lex_total_ordering()
    ensures
        vstd::relations::total_ordering(lex_order()),
{
    assert forall|a: Seq<char>| #[trigger] lex_order()(a, a) by {
        lemma_lex_reflexive(a);
    }
    assert forall|a: Seq<char>, b: Seq<char>|
        #[trigger] lex_order()(a, b) && #[trigger] lex_order()(b, a) implies a == b by {
        lemma_lex_antisymmetric(a, b);
    }
    assert forall|a: Seq<char>, b: Seq<char>, c: Seq<char>|
        #[trigger] lex_order()(a, b) && #[trigger] lex_order()(b, c) implies lex_order()(a, c) by {
        lemma_lex_transitive(a, b, c);
    }
    assert forall|a: Seq<char>, b: Seq<char>|
        #[trigger] lex_order()(a, b) || #[trigger] lex_order()(b, a) by {
        lemma_lex_total(a, b);
    }
}

/// Whether `a` comes no later than `b`.
pub fn lex_le_chars(a: &[char], b: &[char]) -> (r: bool)
    ensures
        r == lex_le(a@, b@),
{
    let n = a.len();
    let m = b.len();
    let mut i: usize = 0;
    assert(a@.skip(0) == a@ && b@.skip(0) == b@);
    while i < n && i < m && a[i] == b[i]
        invariant
            n == a@.len(),
            m == b@.len(),
            i <= n,
            i <= m,
            lex_le(a@, b@) == lex_le(a@.skip(i as int), b@.skip(i as int)),
        decreases n - i,
    {
        assert(a@.skip(i as int).drop_first() == a@.skip(i + 1));
        assert(b@.skip(i as int).drop_first() == b@.skip(i + 1));
        i = i + 1;
    }
    if i == n {
        true
    } else if i == m {
        false
    } else {
        assert(a@.skip(i as int)[0] == a@[i as int]);
        assert(b@.skip(i as int)[0] == b@[i as int]);
        (a[i] as u32) < (b[i] as u32)
    }
}

/// `v` in `lex_le` order (an insertion sort).
pub fn sort_texts(v: Vec<Vec<char>>) -> (r: Vec<Vec<char>>)
    ensures
        r.deep_view() == v.deep_view().sort_by(lex_order()),
{
    proof {
        lemma_lex_total_ordering();
    }
    let n = v.len();
    let mut r: Vec<Vec<char>> = Vec::new();
    let mut i: usize = 0;
    assert(v.deep_view().take(0) =~= r.deep_view());
    while i < n
        invariant
            n == v@.len(),
            i <= n,
            r@.len() == i,
            vstd::relations::total_ordering(lex_order()),
            vstd::relations::sorted_by(r.deep_view(), lex_order()),
            r.deep_view().to_multiset() == v.deep_view().take(i as int).to_multiset(),
        decreases n - i,
    {
        let x = vstd::slice::slice_to_vec(v[i].as_slice());
        assert(x.deep_view() =~= v.deep_view()[i as int]);
        assert(x.deep_view() =~= x@);
        let mut p: usize = 0;
        let ghost rv = r.deep_view();
        while p < r.len() && lex_le_chars(r[p].as_slice(), x.as_slice())
            invariant
                p <= r@.len(),
                i < n,
                n == v@.len(),
                rv == r.deep_view(),
                x.deep_view() == v.deep_view()[i as int],
                x.deep_view() == x@,
                forall|k: int| 0 <= k < p ==> lex_le(#[trigger] rv[k], x.deep_view()),
            decreases r@.len() - p,
        {
            assert(r[p as int].deep_view() =~= r[p as int]@);
            p = p + 1;
        }
        proof {
            if p < r@.len() {
                assert(r[p as int].deep_view() =~= r[p as int]@);
                lemma_lex_total(rv[p as int], x.deep_view());
            }
        }
        r.insert(p, x);
        proof {
            let nv = r.deep_view();
            assert(nv =~= rv.insert(p as int, x.deep_view()));
            vstd::seq_lib::to_multiset_insert(rv, p as int, x.deep_view());
            assert(v.deep_view().take(i + 1) =~= v.deep_view().take(i as int).push(x.deep_view()));
            vstd::seq_lib::to_multiset_build(v.deep_view().take(i as int), x.deep_view());
            assert forall|a: int, b: int| 0 <= a < b < nv.len() implies #[trigger] lex_order()(
                nv[a],
                nv[b],
            ) by {
                if b < p {
                    assert(lex_order()(rv[a], rv[b]));
                } else if b == p {
                    assert(lex_le(rv[a], x.deep_view()));
                } else if a == p {
                    assert(lex_order()(rv[p as int], rv[b - 1]));
                    lemma_lex_transitive(x.deep_view(), rv[p as int], rv[b - 1]);
                } else if a < p {
                    assert(lex_order()(rv[a], rv[b - 1]));
                } else {
                    assert(lex_order()(rv[a - 1], rv[b - 1]));
                }
            }
        }
        i = i + 1;
    }
    proof {
        assert(v.deep_view().take(n as int) =~= v.deep_view());
        v.deep_view().lemma_sort_by_ensures(lex_order());
        vstd::seq_lib::lemma_sorted_unique(r.deep_view(), v.deep_view().sort_by(lex_order()), lex_order());
    }
    r
}


/// One entry of a directory: its file name and whether it is a directory.
#[derive(Debug, Clone)]
pub struct DirEntry {
    pub name: String,
    pub is_dir: bool,
}

impl DeepView for DirEntry {
    type V = (Seq<char>, bool);

    open spec fn deep_view(&self) -> (Seq<char>, bool) {
        (self.name@, self.is_dir)
    }
}

/// The names that a listing shows: hidden entries (a name starting with
/// `.`) are left out, and directories get a trailing `/`.
pub open spec fn shown_names(es: Seq<(Seq<char>, bool)>) -> Seq<Seq<char>>
    decreases es.len(),
{
    if es.len() == 0 {
        seq![]
    } else {
        let prev = shown_names(es.drop_last());
        let name = es.last().0;
        if name.len() > 0 && name[0] == '.' {
            prev
        } else {
            prev.push(
                if es.last().1 {
                    name + seq!['/']
                } else {
                    name
                },
            )
        }
    }
}

/// The lines `ls` joined with `\n` between them.
pub open spec fn join_lines(ls: Seq<Seq<char>>) -> Seq<char>
    decreases ls.len(),
{
    if ls.len() == 0 {
        seq![]
    } else if ls.len() == 1 {
        ls[0]
    } else {
        join_lines(ls.drop_last()) + seq!['\n'] + ls.last()
    }
}

/// The answer of `list_dir` for a directory's entries.
pub open spec fn listing_text(es: Seq<(Seq<char>, bool)>) -> Seq<char> {
    join_lines(shown_names(es).sort_by(lex_order()))
}

/// `ls` joined with `\n` between the lines.
pub fn join_with_newlines(ls: &Vec<Vec<char>>) -> (r: String)
    ensures
        r@ == join_lines(ls.deep_view()),
{
    let n = ls.len();
    let mut r = String::new();
    let mut i: usize = 0;
    while i < n
        invariant
            n == ls@.len(),
            i <= n,
            r@ == join_lines(ls.deep_view().take(i as int)),
        decreases n - i,
    {
        let ghost cur = ls.deep_view().take(i + 1);
        assert(cur.drop_last() == ls.deep_view().take(i as int));
        assert(ls[i as int].deep_view() =~= ls[i as int]@);
        if i > 0 {
            push_chars(&mut r, &['\n']);
            assert(seq!['\n'] == [ '\n' ]@);
        }
        push_chars(&mut r, ls[i].as_slice());
        if i == 0 {
            assert(cur =~= seq![ls[0]@]);
        }
        i = i + 1;
    }
    assert(ls.deep_view().take(n as int) == ls.deep_view());
    r
}

/// The answer of `list_dir`: the shown names, sorted, one per line.
pub fn listing(entries: &Vec<DirEntry>) -> (r: String)
    ensures
        r@ == listing_text(entries.deep_view()),
{
    let n = entries.len();
    let mut names: Vec<Vec<char>> = Vec::new();
    let mut i: usize = 0;
    while i < n
        invariant
            n == entries@.len(),
            i <= n,
            names.deep_view() == shown_names(entries.deep_view().take(i as int)),
        decreases n - i,
    {
        let ghost cur = entries.deep_view().take(i + 1);
        assert(cur.drop_last() == entries.deep_view().take(i as int));
        assert(cur.last() == entries[i as int].deep_view());
        let e = &entries[i];
        let mut cs = chars_of(e.name.as_str());
        if !(cs.len() > 0 && cs[0] == '.') {
            if e.is_dir {
                cs.push('/');
                assert(cs@ =~= e.name@ + seq!['/']);
            }
            let ghost before = names.deep_view();
            assert(cs.deep_view() =~= cs@);
            names.push(cs);
            assert(names.deep_view() =~= before.push(cs@));
        }
        i = i + 1;
    }
    assert(entries.deep_view().take(n as int) == entries.deep_view());
    let sorted = sort_texts(names);
    join_with_newlines(&sorted)
}

// ---------------------------------------------------------------------------
// web_search
// ---------------------------------------------------------------------------

/// One search result: what the response gives of its title, URL and text.
#[derive(Debug, Clone)]
pub struct SearchResult {
    pub title: Option<String>,
    pub url: Option<String>,
    pub content: Option<String>,
}

/// A search response: its answer and results, where present as text and
/// as a list.
#[derive(Debug, Clone)]
pub struct SearchData {
    pub answer: Option<String>,
    pub results: Option<Vec<SearchResult>>,
}

/// View of a search result.
pub struct SearchResultV {
    pub title: Option<Seq<char>>,
    pub url: Option<Seq<char>>,
    pub content: Option<Seq<char>>,
}

impl DeepView for SearchResult {
    type V = SearchResultV;

    open spec fn deep_view(&self) -> SearchResultV {
        SearchResultV {
            title: self.title.deep_view(),
            url: self.url.deep_view(),
            content: self.content.deep_view(),
        }
    }
}

/// `t`, or `d` when absent.
pub open spec fn or_text(t: Option<Seq<char>>, d: Seq<char>) -> Seq<char> {
    match t {
        Some(x) => x,
        None => d,
    }
}

/// The block of the result numbered `n`.
pub open spec fn result_block(r: SearchResultV, n: nat) -> Seq<char> {
    "["@ + dec(n) + "] "@ + or_text(r.title, "(no title)"@) + "\n    "@ + or_text(r.url, seq![])
        + "\n    "@ + or_text(r.content, seq![]) + "\n\n"@
}

/// The blocks of the results, numbered from 1.
pub open spec fn result_blocks(rs: Seq<SearchResultV>) -> Seq<char>
    decreases rs.len(),
{
    if rs.len() == 0 {
        seq![]
    } else {
        result_blocks(rs.drop_last()) + result_block(rs.last(), rs.len())
    }
}

/// A search answer before it is held to a limit: the summary when it has
/// text other than whitespace, then the result blocks.
pub open spec fn search_raw_text(answer: Option<Seq<char>>, results: Option<Seq<SearchResultV>>) -> Seq<char> {
    (match answer {
        Some(a) => if trim(a).len() > 0 {
            "Summary: "@ + a + "\n\n"@
        } else {
            seq![]
        },
        None => seq![],
    }) + match results {
        Some(rs) => result_blocks(rs),
        None => seq![],
    }
}

/// The answer of `web_search` for a response.
pub open spec fn search_text(answer: Option<Seq<char>>, results: Option<Seq<SearchResultV>>) -> Seq<char> {
    let raw = search_raw_text(answer, results);
    if trim(raw).len() == 0 {
        "No results."@
    } else {
        clip(raw, OUTPUT_LIMIT as nat, OUTPUT_MARKER@)
    }
}

/// The layout of a search answer before the limit.  With no results it is
/// the summary alone: `Summary: ` and the answer, when the answer has text
/// other than whitespace.  Each further result appends, after all that came
/// before, its block: `[n] ` with its number counted from 1, its title (or
/// `(no title)`), then its URL and its snippet on lines indented by four
/// spaces, and a blank line.
pub open spec fn search_layout(answer: Option<Seq<char>>, rs: Seq<SearchResultV>, r: SearchResultV) -> bool {
    let summary = match answer {
        Some(a) => if trim(a).len() > 0 {
            "Summary: "@ + a + "\n\n"@
        } else {
            seq![]
        },
        None => seq![],
    };
    let block = "["@ + dec(rs.len() + 1) + "] "@ + match r.title {
        Some(t) => t,
        None => "(no title)"@,
    } + "\n    "@ + match r.url {
        Some(u) => u,
        None => seq![],
    } + "\n    "@ + match r.content {
        Some(c) => c,
        None => seq![],
    } + "\n\n"@;
    &&& search_raw_text(answer, None) == summary
    &&& search_raw_text(answer, Some(seq![])) == summary
    &&& search_raw_text(answer, Some(rs.push(r))) == search_raw_text(answer, Some(rs)) + block
}

/// A search answer is laid out as `search_layout` describes: the summary
/// first, then every result's block in order, whether or not there is a
/// summary.
pub proof fn lemma_search_layout(answer: Option<Seq<char>>, rs: Seq<SearchResultV>, r: SearchResultV)
    ensures
        search_layout(answer, rs, r),
        search_raw_text(answer, Some(rs)).take(search_raw_text(answer, None).len() as int)
            == search_raw_text(answer, None),
{
    let rs2 = rs.push(r);
    assert(rs2.drop_last() =~= rs);
    assert(result_blocks(seq![]) == Seq::<char>::empty());
    let s0 = search_raw_text(answer, None);
    assert(search_raw_text(answer, Some(seq![])) =~= s0);
    assert(search_raw_text(answer, Some(rs2)) =~= search_raw_text(answer, Some(rs)) + result_block(
        r,
        (rs.len() + 1) as nat,
    ));
    assert(search_raw_text(answer, Some(rs)).take(s0.len() as int) =~= s0);
}

fn push_opt(out: &mut String, t: &Option<String>, d: &str)
    ensures
        final(out)@ == old(out)@ + or_text(t.deep_view(), d@),
{
    match t {
        Some(x) => push_str(out, x.as_str()),
        None => push_str(out, d),
    }
}

/// A search answer before it is held to a limit.
#[verifier::spinoff_prover]
pub fn search_raw(data: &SearchData) -> (r: String)
    ensures
        r@ == search_raw_text(data.answer.deep_view(), data.results.deep_view()),
{
    let mut out = String::new();
    if let Some(a) = &data.answer {
        let ac = chars_of(a.as_str());
        if trim_slice(ac.as_slice()).len() > 0 {
            push_str(&mut out, "Summary: ");
            push_str(&mut out, a.as_str());
            push_str(&mut out, "\n\n");
        }
    }
    let ghost head = out@;
    if let Some(rs) = &data.results {
        let n = rs.len();
        let mut i: usize = 0;
        proof {
            reveal_strlit("");
        }
        while i < n
            invariant
                n == rs@.len(),
                i <= n,
                out@ == head + result_blocks(rs.deep_view().take(i as int)),
            decreases n - i,
        {
            let ghost cur = rs.deep_view().take(i + 1);
            assert(cur.drop_last() == rs.deep_view().take(i as int));
            assert(cur.last() == rs[i as int].deep_view());
            let r = &rs[i];
            push_str(&mut out, "[");
            push_dec(&mut out, (i + 1) as u64);
            push_str(&mut out, "] ");
            push_opt(&mut out, &r.title, "(no title)");
            push_str(&mut out, "\n    ");
            push_opt(&mut out, &r.url, "");
            push_str(&mut out, "\n    ");
            push_opt(&mut out, &r.content, "");
            push_str(&mut out, "\n\n");
            proof {
                reveal_strlit("");
            }
            assert(out@ =~= head + result_blocks(rs.deep_view().take(i as int)) + result_block(
                rs[i as int].deep_view(),
                (i + 1) as nat,
            ));
            i = i + 1;
        }
        assert(rs.deep_view().take(n as int) == rs.deep_view());
    } else {
        assert(out@ =~= head + seq![]);
    }
    out
}

/// The answer of `web_search` (`format_tavily_results`): the summary and
/// results held to `OUTPUT_LIMIT` bytes, or `No results.` when they hold
/// nothing but whitespace.
pub fn format_tavily_results(data: &SearchData) -> (r: String)
    requires
        cuts_cleanly(
            search_raw_text(data.answer.deep_view(), data.results.deep_view()),
            OUTPUT_LIMIT as nat,
        ),
    ensures
        r@ == search_text(data.answer.deep_view(), data.results.deep_view()),
{
    let raw = search_raw(data);
    let cs = chars_of(raw.as_str());
    if trim_slice(cs.as_slice()).len() == 0 {
        return String::from_str("No results.");
    }
    let mut r = String::new();
    push_clipped(&mut r, cs.as_slice(), OUTPUT_LIMIT, OUTPUT_MARKER);
    r
}

} // verus!
