//! What the built-in tools say of themselves.
use vstd::prelude::*;
use crate::json;
use crate::json::Json;
use crate::llm;
use crate::tool;
use crate::tool::{BuiltTool, Tool, ToolView};

verus! {

/// The schema of a property.
pub open spec fn property(kind: Seq<char>, description: Seq<char>) -> Seq<char> {
    json::json_object(
        seq![
            ("type"@, json::json_quote(kind)),
            ("description"@, json::json_quote(description)),
        ],
    )
}

/// The schema of an input with these properties.
pub open spec fn schema(properties: Seq<(Seq<char>, Seq<char>)>, required: Seq<Seq<char>>) -> Seq<
    char,
> {
    json::json_object(
        seq![
            ("type"@, json::json_quote("object"@)),
            ("properties"@, json::json_object(properties)),
            ("required"@, json::json_array(required.map_values(|s: Seq<char>| json::json_quote(s)))),
        ],
    )
}

fn property_json(kind: &str, description: &str) -> (r: Json)
    ensures
        r@ == property(kind@, description@),
{
    Json::object2("type", Json::string(kind), "description", Json::string(description))
}

fn schema_json(properties: &Vec<(String, Json)>, required: &Vec<String>) -> (r: Json)
    ensures
        r@ == schema(properties.deep_view(), required.deep_view()),
{
    let mut names: Vec<Json> = Vec::new();
    let mut i: usize = 0;
    while i < required.len()
        invariant
            i <= required@.len(),
            names@.len() == i,
            forall|j: int| 0 <= j < i ==> (#[trigger] names@[j])@ == json::json_quote(required@[j]@),
        decreases required@.len() - i,
    {
        names.push(Json::string(required[i].as_str()));
        i = i + 1;
    }
    assert(names.deep_view() =~= required.deep_view().map_values(
        |s: Seq<char>| json::json_quote(s),
    ));
    Json::object3(
        "type",
        Json::string("object"),
        "properties",
        Json::object(properties),
        "required",
        Json::array(&names),
    )
}

/// Reads a file.
pub struct ReadTool;

impl Tool for ReadTool {
    open spec fn described(&self) -> ToolView {
        ToolView {
            name: "read"@,
            description: "Read the contents of a file from the filesystem."@,
            input_schema: schema(
                seq![("path"@, property("string"@, "Absolute path to the file"@))],
                seq!["path"@],
            ),
            output_schema: None,
            is_modifier: false,
        }
    }

    fn name(&self) -> &str {
        "read"
    }

    fn description(&self) -> &str {
        "Read the contents of a file from the filesystem."
    }

    fn input_schema(&self) -> Json {
        let properties: Vec<(String, Json)> = vec![("path".to_owned(), property_json("string", "Absolute path to the file"))];
        let required: Vec<String> = vec!["path".to_owned()];
        assert(properties.deep_view() =~= seq![("path"@, property("string"@, "Absolute path to the file"@))]);
        assert(required.deep_view() =~= seq!["path"@]);
        schema_json(&properties, &required)
    }

    fn output_schema(&self) -> Option<Json> {
        None
    }

    fn is_modifier(&self) -> bool {
        false
    }
}

/// Writes a file.
pub struct WriteTool;

impl Tool for WriteTool {
    open spec fn described(&self) -> ToolView {
        ToolView {
            name: "write"@,
            description: "Write content to a file, creating or overwriting it."@,
            input_schema: schema(
                seq![("path"@, property("string"@, "Absolute path to the file"@)), ("content"@, property("string"@, "Content to write to the file"@))],
                seq!["path"@, "content"@],
            ),
            output_schema: None,
            is_modifier: true,
        }
    }

    fn name(&self) -> &str {
        "write"
    }

    fn description(&self) -> &str {
        "Write content to a file, creating or overwriting it."
    }

    fn input_schema(&self) -> Json {
        let properties: Vec<(String, Json)> = vec![("path".to_owned(), property_json("string", "Absolute path to the file")), ("content".to_owned(), property_json("string", "Content to write to the file"))];
        let required: Vec<String> = vec!["path".to_owned(), "content".to_owned()];
        assert(properties.deep_view() =~= seq![("path"@, property("string"@, "Absolute path to the file"@)), ("content"@, property("string"@, "Content to write to the file"@))]);
        assert(required.deep_view() =~= seq!["path"@, "content"@]);
        schema_json(&properties, &required)
    }

    fn output_schema(&self) -> Option<Json> {
        None
    }

    fn is_modifier(&self) -> bool {
        true
    }
}

/// Replaces text in a file.
pub struct EditTool;

impl Tool for EditTool {
    open spec fn described(&self) -> ToolView {
        ToolView {
            name: "edit"@,
            description: "Edit a file by replacing exact text (SEARCH/REPLACE). Include surrounding context in `old` for uniqueness. Shows diff."@,
            input_schema: schema(
                seq![("path"@, property("string"@, "Absolute path to the file"@)), ("old"@, property("string"@, "Exact text to find and replace"@)), ("new"@, property("string"@, "Replacement text"@))],
                seq!["path"@, "old"@, "new"@],
            ),
            output_schema: None,
            is_modifier: true,
        }
    }

    fn name(&self) -> &str {
        "edit"
    }

    fn description(&self) -> &str {
        "Edit a file by replacing exact text (SEARCH/REPLACE). Include surrounding context in `old` for uniqueness. Shows diff."
    }

    fn input_schema(&self) -> Json {
        let properties: Vec<(String, Json)> = vec![("path".to_owned(), property_json("string", "Absolute path to the file")), ("old".to_owned(), property_json("string", "Exact text to find and replace")), ("new".to_owned(), property_json("string", "Replacement text"))];
        let required: Vec<String> = vec!["path".to_owned(), "old".to_owned(), "new".to_owned()];
        assert(properties.deep_view() =~= seq![("path"@, property("string"@, "Absolute path to the file"@)), ("old"@, property("string"@, "Exact text to find and replace"@)), ("new"@, property("string"@, "Replacement text"@))]);
        assert(required.deep_view() =~= seq!["path"@, "old"@, "new"@]);
        schema_json(&properties, &required)
    }

    fn output_schema(&self) -> Option<Json> {
        None
    }

    fn is_modifier(&self) -> bool {
        true
    }
}

/// Finds files by name.
pub struct GlobTool;

impl Tool for GlobTool {
    open spec fn described(&self) -> ToolView {
        ToolView {
            name: "glob"@,
            description: "Find files matching a glob pattern. Returns a list of matching file paths."@,
            input_schema: schema(
                seq![("pattern"@, property("string"@, "Glob pattern, e.g. '**/*.rs' or 'src/**/*.ts'"@)), ("base"@, property("string"@, "Base directory (defaults to current working dir)"@))],
                seq!["pattern"@],
            ),
            output_schema: None,
            is_modifier: false,
        }
    }

    fn name(&self) -> &str {
        "glob"
    }

    fn description(&self) -> &str {
        "Find files matching a glob pattern. Returns a list of matching file paths."
    }

    fn input_schema(&self) -> Json {
        let properties: Vec<(String, Json)> = vec![("pattern".to_owned(), property_json("string", "Glob pattern, e.g. '**/*.rs' or 'src/**/*.ts'")), ("base".to_owned(), property_json("string", "Base directory (defaults to current working dir)"))];
        let required: Vec<String> = vec!["pattern".to_owned()];
        assert(properties.deep_view() =~= seq![("pattern"@, property("string"@, "Glob pattern, e.g. '**/*.rs' or 'src/**/*.ts'"@)), ("base"@, property("string"@, "Base directory (defaults to current working dir)"@))]);
        assert(required.deep_view() =~= seq!["pattern"@]);
        schema_json(&properties, &required)
    }

    fn output_schema(&self) -> Option<Json> {
        None
    }

    fn is_modifier(&self) -> bool {
        false
    }
}

/// Finds lines in files.
pub struct GrepTool;

impl Tool for GrepTool {
    open spec fn described(&self) -> ToolView {
        ToolView {
            name: "grep"@,
            description: "Search file contents using a regular expression. Returns matching lines with file paths."@,
            input_schema: schema(
                seq![("pattern"@, property("string"@, "Regular expression to search for"@)), ("include"@, property("string"@, "Glob pattern for files to include, e.g. '*.rs'"@)), ("path"@, property("string"@, "Directory to search in (defaults to current working dir)"@))],
                seq!["pattern"@],
            ),
            output_schema: None,
            is_modifier: false,
        }
    }

    fn name(&self) -> &str {
        "grep"
    }

    fn description(&self) -> &str {
        "Search file contents using a regular expression. Returns matching lines with file paths."
    }

    fn input_schema(&self) -> Json {
        let properties: Vec<(String, Json)> = vec![("pattern".to_owned(), property_json("string", "Regular expression to search for")), ("include".to_owned(), property_json("string", "Glob pattern for files to include, e.g. '*.rs'")), ("path".to_owned(), property_json("string", "Directory to search in (defaults to current working dir)"))];
        let required: Vec<String> = vec!["pattern".to_owned()];
        assert(properties.deep_view() =~= seq![("pattern"@, property("string"@, "Regular expression to search for"@)), ("include"@, property("string"@, "Glob pattern for files to include, e.g. '*.rs'"@)), ("path"@, property("string"@, "Directory to search in (defaults to current working dir)"@))]);
        assert(required.deep_view() =~= seq!["pattern"@]);
        schema_json(&properties, &required)
    }

    fn output_schema(&self) -> Option<Json> {
        None
    }

    fn is_modifier(&self) -> bool {
        false
    }
}

/// Runs a command.
pub struct BashTool;

impl Tool for BashTool {
    open spec fn described(&self) -> ToolView {
        ToolView {
            name: "bash"@,
            description: "Execute a shell command and return its output."@,
            input_schema: schema(
                seq![("command"@, property("string"@, "Shell command to execute"@)), ("timeout"@, property("number"@, "Timeout in milliseconds (default 30000)"@))],
                seq!["command"@],
            ),
            output_schema: None,
            is_modifier: false,
        }
    }

    fn name(&self) -> &str {
        "bash"
    }

    fn description(&self) -> &str {
        "Execute a shell command and return its output."
    }

    fn input_schema(&self) -> Json {
        let properties: Vec<(String, Json)> = vec![("command".to_owned(), property_json("string", "Shell command to execute")), ("timeout".to_owned(), property_json("number", "Timeout in milliseconds (default 30000)"))];
        let required: Vec<String> = vec!["command".to_owned()];
        assert(properties.deep_view() =~= seq![("command"@, property("string"@, "Shell command to execute"@)), ("timeout"@, property("number"@, "Timeout in milliseconds (default 30000)"@))]);
        assert(required.deep_view() =~= seq!["command"@]);
        schema_json(&properties, &required)
    }

    fn output_schema(&self) -> Option<Json> {
        None
    }

    fn is_modifier(&self) -> bool {
        false
    }
}

/// Fetches a page.
pub struct WebFetchTool;

impl Tool for WebFetchTool {
    open spec fn described(&self) -> ToolView {
        ToolView {
            name: "webfetch"@,
            description: "Fetch a URL and return its content as text. Max 100KB."@,
            input_schema: schema(
                seq![("url"@, property("string"@, "URL to fetch"@))],
                seq!["url"@],
            ),
            output_schema: None,
            is_modifier: false,
        }
    }

    fn name(&self) -> &str {
        "webfetch"
    }

    fn description(&self) -> &str {
        "Fetch a URL and return its content as text. Max 100KB."
    }

    fn input_schema(&self) -> Json {
        let properties: Vec<(String, Json)> = vec![("url".to_owned(), property_json("string", "URL to fetch"))];
        let required: Vec<String> = vec!["url".to_owned()];
        assert(properties.deep_view() =~= seq![("url"@, property("string"@, "URL to fetch"@))]);
        assert(required.deep_view() =~= seq!["url"@]);
        schema_json(&properties, &required)
    }

    fn output_schema(&self) -> Option<Json> {
        None
    }

    fn is_modifier(&self) -> bool {
        false
    }
}

/// Searches the web.
pub struct WebSearchTool;

impl Tool for WebSearchTool {
    open spec fn described(&self) -> ToolView {
        ToolView {
            name: "websearch"@,
            description: "Search the web. Requires SEARCH_API_KEY env var. Supports SerpAPI-compatible endpoints."@,
            input_schema: schema(
                seq![("query"@, property("string"@, "Search query"@)), ("count"@, property("number"@, "Number of results (default 5)"@))],
                seq!["query"@],
            ),
            output_schema: None,
            is_modifier: false,
        }
    }

    fn name(&self) -> &str {
        "websearch"
    }

    fn description(&self) -> &str {
        "Search the web. Requires SEARCH_API_KEY env var. Supports SerpAPI-compatible endpoints."
    }

    fn input_schema(&self) -> Json {
        let properties: Vec<(String, Json)> = vec![("query".to_owned(), property_json("string", "Search query")), ("count".to_owned(), property_json("number", "Number of results (default 5)"))];
        let required: Vec<String> = vec!["query".to_owned()];
        assert(properties.deep_view() =~= seq![("query"@, property("string"@, "Search query"@)), ("count"@, property("number"@, "Number of results (default 5)"@))]);
        assert(required.deep_view() =~= seq!["query"@]);
        schema_json(&properties, &required)
    }

    fn output_schema(&self) -> Option<Json> {
        None
    }

    fn is_modifier(&self) -> bool {
        false
    }
}

/// Brings a file back.
pub struct UndoTool;

impl Tool for UndoTool {
    open spec fn described(&self) -> ToolView {
        ToolView {
            name: "undo"@,
            description: "Undo the last file modification. Restores the previous version of a file."@,
            input_schema: schema(
                seq![("path"@, property("string"@, "Path to the file to undo"@))],
                seq!["path"@],
            ),
            output_schema: None,
            is_modifier: false,
        }
    }

    fn name(&self) -> &str {
        "undo"
    }

    fn description(&self) -> &str {
        "Undo the last file modification. Restores the previous version of a file."
    }

    fn input_schema(&self) -> Json {
        let properties: Vec<(String, Json)> = vec![("path".to_owned(), property_json("string", "Path to the file to undo"))];
        let required: Vec<String> = vec!["path".to_owned()];
        assert(properties.deep_view() =~= seq![("path"@, property("string"@, "Path to the file to undo"@))]);
        assert(required.deep_view() =~= seq!["path"@]);
        schema_json(&properties, &required)
    }

    fn output_schema(&self) -> Option<Json> {
        None
    }

    fn is_modifier(&self) -> bool {
        false
    }
}

/// Commits the changes.
pub struct GitCommitTool;

impl Tool for GitCommitTool {
    open spec fn described(&self) -> ToolView {
        ToolView {
            name: "git_commit"@,
            description: "Commit staged changes with a message."@,
            input_schema: schema(
                seq![("message"@, property("string"@, "Commit message"@))],
                seq!["message"@],
            ),
            output_schema: None,
            is_modifier: false,
        }
    }

    fn name(&self) -> &str {
        "git_commit"
    }

    fn description(&self) -> &str {
        "Commit staged changes with a message."
    }

    fn input_schema(&self) -> Json {
        let properties: Vec<(String, Json)> = vec![("message".to_owned(), property_json("string", "Commit message"))];
        let required: Vec<String> = vec!["message".to_owned()];
        assert(properties.deep_view() =~= seq![("message"@, property("string"@, "Commit message"@))]);
        assert(required.deep_view() =~= seq!["message"@]);
        schema_json(&properties, &required)
    }

    fn output_schema(&self) -> Option<Json> {
        None
    }

    fn is_modifier(&self) -> bool {
        false
    }
}

/// Shows the status of the repository.
pub struct GitStatusTool;

impl Tool for GitStatusTool {
    open spec fn described(&self) -> ToolView {
        ToolView {
            name: "git_status"@,
            description: "Show working tree status (modified/untracked files)."@,
            input_schema: schema(
                Seq::empty(),
                Seq::empty(),
            ),
            output_schema: None,
            is_modifier: false,
        }
    }

    fn name(&self) -> &str {
        "git_status"
    }

    fn description(&self) -> &str {
        "Show working tree status (modified/untracked files)."
    }

    fn input_schema(&self) -> Json {
        let properties: Vec<(String, Json)> = Vec::new();
        let required: Vec<String> = Vec::new();
        assert(properties.deep_view() =~= Seq::<(Seq<char>, Seq<char>)>::empty());
        assert(required.deep_view() =~= Seq::<Seq<char>>::empty());
        schema_json(&properties, &required)
    }

    fn output_schema(&self) -> Option<Json> {
        None
    }

    fn is_modifier(&self) -> bool {
        false
    }
}

/// Shows the changes.
pub struct GitDiffTool;

impl Tool for GitDiffTool {
    open spec fn described(&self) -> ToolView {
        ToolView {
            name: "git_diff"@,
            description: "Show uncommitted diff."@,
            input_schema: schema(
                Seq::empty(),
                Seq::empty(),
            ),
            output_schema: None,
            is_modifier: false,
        }
    }

    fn name(&self) -> &str {
        "git_diff"
    }

    fn description(&self) -> &str {
        "Show uncommitted diff."
    }

    fn input_schema(&self) -> Json {
        let properties: Vec<(String, Json)> = Vec::new();
        let required: Vec<String> = Vec::new();
        assert(properties.deep_view() =~= Seq::<(Seq<char>, Seq<char>)>::empty());
        assert(required.deep_view() =~= Seq::<Seq<char>>::empty());
        schema_json(&properties, &required)
    }

    fn output_schema(&self) -> Option<Json> {
        None
    }

    fn is_modifier(&self) -> bool {
        false
    }
}

/// Shows the last commits.
pub struct GitLogTool;

impl Tool for GitLogTool {
    open spec fn described(&self) -> ToolView {
        ToolView {
            name: "git_log"@,
            description: "Show recent commit history."@,
            input_schema: schema(
                seq![("count"@, property("number"@, "Number of commits (default 5)"@))],
                Seq::empty(),
            ),
            output_schema: None,
            is_modifier: false,
        }
    }

    fn name(&self) -> &str {
        "git_log"
    }

    fn description(&self) -> &str {
        "Show recent commit history."
    }

    fn input_schema(&self) -> Json {
        let properties: Vec<(String, Json)> = vec![("count".to_owned(), property_json("number", "Number of commits (default 5)"))];
        let required: Vec<String> = Vec::new();
        assert(properties.deep_view() =~= seq![("count"@, property("number"@, "Number of commits (default 5)"@))]);
        assert(required.deep_view() =~= Seq::<Seq<char>>::empty());
        schema_json(&properties, &required)
    }

    fn output_schema(&self) -> Option<Json> {
        None
    }

    fn is_modifier(&self) -> bool {
        false
    }
}

/// The built-in tools, as the handlers of their calls.
#[derive(Debug, Clone, Copy, PartialEq, Eq, Structural)]
pub enum Builtin {
    Read,
    Write,
    Edit,
    Glob,
    Grep,
    Bash,
    WebFetch,
    WebSearch,
    Undo,
    GitCommit,
    GitStatus,
    GitDiff,
    GitLog,
}

/// What a built-in tool says of itself.
pub open spec fn description_of(b: Builtin) -> ToolView {
    match b {
        Builtin::Read => ReadTool.described(),
        Builtin::Write => WriteTool.described(),
        Builtin::Edit => EditTool.described(),
        Builtin::Glob => GlobTool.described(),
        Builtin::Grep => GrepTool.described(),
        Builtin::Bash => BashTool.described(),
        Builtin::WebFetch => WebFetchTool.described(),
        Builtin::WebSearch => WebSearchTool.described(),
        Builtin::Undo => UndoTool.described(),
        Builtin::GitCommit => GitCommitTool.described(),
        Builtin::GitStatus => GitStatusTool.described(),
        Builtin::GitDiff => GitDiffTool.described(),
        Builtin::GitLog => GitLogTool.described(),
    }
}

/// All built-in tools.
pub open spec fn builtins() -> Seq<Builtin> {
    seq![
        Builtin::Read,
        Builtin::Write,
        Builtin::Edit,
        Builtin::Glob,
        Builtin::Grep,
        Builtin::Bash,
        Builtin::WebFetch,
        Builtin::WebSearch,
        Builtin::Undo,
        Builtin::GitCommit,
        Builtin::GitStatus,
        Builtin::GitDiff,
        Builtin::GitLog,
    ]
}

/// All built-in tools, each with a name of its own.
pub fn all_tools() -> (r: Vec<BuiltTool<Builtin>>)
    ensures
        r@.len() == builtins().len(),
        forall|i: int|
            0 <= i < r@.len() ==> (#[trigger] r@[i]).handler == builtins()[i] && r@[i].described()
                == description_of(builtins()[i]),
        tool::names_differ(r@),
{
    let r = vec![
        tool::built(&ReadTool, Builtin::Read),
        tool::built(&WriteTool, Builtin::Write),
        tool::built(&EditTool, Builtin::Edit),
        tool::built(&GlobTool, Builtin::Glob),
        tool::built(&GrepTool, Builtin::Grep),
        tool::built(&BashTool, Builtin::Bash),
        tool::built(&WebFetchTool, Builtin::WebFetch),
        tool::built(&WebSearchTool, Builtin::WebSearch),
        tool::built(&UndoTool, Builtin::Undo),
        tool::built(&GitCommitTool, Builtin::GitCommit),
        tool::built(&GitStatusTool, Builtin::GitStatus),
        tool::built(&GitDiffTool, Builtin::GitDiff),
        tool::built(&GitLogTool, Builtin::GitLog),
    ];
    proof {
        reveal_strlit("read");
        reveal_strlit("write");
        reveal_strlit("edit");
        reveal_strlit("glob");
        reveal_strlit("grep");
        reveal_strlit("bash");
        reveal_strlit("webfetch");
        reveal_strlit("websearch");
        reveal_strlit("undo");
        reveal_strlit("git_commit");
        reveal_strlit("git_status");
        reveal_strlit("git_diff");
        reveal_strlit("git_log");
        assert forall|i: int, j: int| 0 <= i < j < r@.len() implies (#[trigger] r@[i]).name@ != (
        #[trigger] r@[j]).name@ by {
            let a = r@[i].described().name;
            let b = r@[j].described().name;
            if a == b {
                assert(a.len() == b.len());
                assert(a[0] == b[0] && a[1] == b[1]);
                assert(a[a.len() - 1] == b[b.len() - 1]);
            }
        }
    }
    r
}

// ── Laws ──

/// Writing and editing modify files; no other tool does.
pub proof fn writers_modify(b: Builtin)
    ensures
        description_of(b).is_modifier <==> b == Builtin::Write || b == Builtin::Edit,
{
}

/// Every built-in tool is among them, once.
pub proof fn builtins_are_complete(b: Builtin)
    ensures
        builtins().contains(b),
        builtins().no_duplicates(),
{
    let all = builtins();
    assert(all[0] == Builtin::Read && all[1] == Builtin::Write && all[2] == Builtin::Edit);
    assert(all[3] == Builtin::Glob && all[4] == Builtin::Grep && all[5] == Builtin::Bash);
    assert(all[6] == Builtin::WebFetch && all[7] == Builtin::WebSearch);
    assert(all[8] == Builtin::Undo && all[9] == Builtin::GitCommit);
    assert(all[10] == Builtin::GitStatus && all[11] == Builtin::GitDiff);
    assert(all[12] == Builtin::GitLog);
}

/// Each built-in tool goes by its own name.
pub proof fn builtins_have_names(b: Builtin)
    ensures
        description_of(b).name == (match b {
            Builtin::Read => "read"@,
            Builtin::Write => "write"@,
            Builtin::Edit => "edit"@,
            Builtin::Glob => "glob"@,
            Builtin::Grep => "grep"@,
            Builtin::Bash => "bash"@,
            Builtin::WebFetch => "webfetch"@,
            Builtin::WebSearch => "websearch"@,
            Builtin::Undo => "undo"@,
            Builtin::GitCommit => "git_commit"@,
            Builtin::GitStatus => "git_status"@,
            Builtin::GitDiff => "git_diff"@,
            Builtin::GitLog => "git_log"@,
        }),
        description_of(b).output_schema is None,
{
}

/// The members that the input of a tool may have, those that it must have
/// first.
pub open spec fn members_of(b: Builtin) -> Seq<Seq<char>> {
    match b {
        Builtin::Read => seq!["path"@],
        Builtin::Write => seq!["path"@, "content"@],
        Builtin::Edit => seq!["path"@, "old"@, "new"@],
        Builtin::Glob => seq!["pattern"@, "base"@],
        Builtin::Grep => seq!["pattern"@, "include"@, "path"@],
        Builtin::Bash => seq!["command"@, "timeout"@],
        Builtin::WebFetch => seq!["url"@],
        Builtin::WebSearch => seq!["query"@, "count"@],
        Builtin::Undo => seq!["path"@],
        Builtin::GitCommit => seq!["message"@],
        Builtin::GitStatus => Seq::empty(),
        Builtin::GitDiff => Seq::empty(),
        Builtin::GitLog => seq!["count"@],
    }
}

/// How many members the input of a tool must have.
pub open spec fn must_have(b: Builtin) -> int {
    match b {
        Builtin::Write => 2,
        Builtin::Edit => 3,
        Builtin::GitStatus => 0,
        Builtin::GitDiff => 0,
        Builtin::GitLog => 0,
        _ => 1,
    }
}

/// The model is told which members the input of a tool may have and which it
/// must have.
pub proof fn inputs_are_announced(b: Builtin)
    ensures
        exists|properties: Seq<(Seq<char>, Seq<char>)>, required: Seq<Seq<char>>|
            #![trigger schema(properties, required)]
            description_of(b).input_schema == schema(properties, required) && properties.len()
                == members_of(b).len() && (forall|i: int|
                0 <= i < properties.len() ==> (#[trigger] properties[i]).0 == members_of(b)[i])
                && required == members_of(b).take(must_have(b)),
{
    let required = members_of(b).take(must_have(b));
    match b {
        Builtin::Read => {
            assert(required =~= seq!["path"@]);
        },
        Builtin::Write => {
            assert(required =~= seq!["path"@, "content"@]);
        },
        Builtin::Edit => {
            assert(required =~= seq!["path"@, "old"@, "new"@]);
        },
        Builtin::Glob => {
            assert(required =~= seq!["pattern"@]);
        },
        Builtin::Grep => {
            assert(required =~= seq!["pattern"@]);
        },
        Builtin::Bash => {
            assert(required =~= seq!["command"@]);
        },
        Builtin::WebFetch => {
            assert(required =~= seq!["url"@]);
        },
        Builtin::WebSearch => {
            assert(required =~= seq!["query"@]);
        },
        Builtin::Undo => {
            assert(required =~= seq!["path"@]);
        },
        Builtin::GitCommit => {
            assert(required =~= seq!["message"@]);
        },
        _ => {
            assert(required =~= Seq::<Seq<char>>::empty());
        },
    }
    assert(exists|properties: Seq<(Seq<char>, Seq<char>)>|
        #![trigger schema(properties, required)]
        description_of(b).input_schema == schema(properties, required) && properties.len()
            == members_of(b).len() && (forall|i: int|
            0 <= i < properties.len() ==> (#[trigger] properties[i]).0 == members_of(b)[i]));
}

/// A schema lists its properties and names the ones that must be given, all of
/// them in order.
pub proof fn schemas_list_properties(
    properties: Seq<(Seq<char>, Seq<char>)>,
    required: Seq<Seq<char>>,
)
    ensures
        exists|fields: Seq<(Seq<char>, Seq<char>)>, names: Seq<Seq<char>>|
            #![trigger json::json_object(fields), json::json_array(names)]
            schema(properties, required) == json::json_object(fields) && llm::field_of(
                fields,
                "type"@,
            ) == Some(json::json_quote("object"@)) && llm::field_of(fields, "properties"@) == Some(
                json::json_object(properties),
            ) && llm::field_of(fields, "required"@) == Some(json::json_array(names)) && names.len()
                == required.len() && (forall|i: int|
                0 <= i < names.len() ==> #[trigger] names[i] == json::json_quote(required[i])),
{
    reveal_strlit("type");
    reveal_strlit("properties");
    reveal_strlit("required");
    assert("type"@.len() == 4 && "properties"@.len() == 10 && "required"@.len() == 8);
    reveal_with_fuel(llm::field_of, 4);
    let names = required.map_values(|s: Seq<char>| json::json_quote(s));
    let fields = seq![
        ("type"@, json::json_quote("object"@)),
        ("properties"@, json::json_object(properties)),
        ("required"@, json::json_array(names)),
    ];
    assert(schema(properties, required) == json::json_object(fields));
    assert(llm::field_of(fields, "required"@) == Some(json::json_array(names)));
}

/// A property is told by its kind and its description.
pub proof fn properties_are_described(kind: Seq<char>, description: Seq<char>)
    ensures
        exists|fields: Seq<(Seq<char>, Seq<char>)>|
            #![trigger json::json_object(fields)]
            property(kind, description) == json::json_object(fields) && llm::field_of(
                fields,
                "type"@,
            ) == Some(json::json_quote(kind)) && llm::field_of(fields, "description"@) == Some(
                json::json_quote(description),
            ),
{
    reveal_strlit("type");
    reveal_strlit("description");
    assert("type"@.len() == 4 && "description"@.len() == 11);
    reveal_with_fuel(llm::field_of, 3);
    let fields = seq![
        ("type"@, json::json_quote(kind)),
        ("description"@, json::json_quote(description)),
    ];
    assert(property(kind, description) == json::json_object(fields));
    assert(llm::field_of(fields, "type"@) == Some(json::json_quote(kind)));
}

} // verus!
