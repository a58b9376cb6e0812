//! Tools, and the registry that finds and admits them.
use vstd::prelude::*;
use crate::json;
use crate::json::Json;
use crate::llm;
use crate::permission;
use crate::permission::{DefaultPermissionChecker, PermissionChecker};
use crate::text;
use crate::types;
use crate::types::{ToolCall, ToolDefinition};

verus! {

pub type ToolResult<T> = Result<T, ToolError>;

/// Why a tool call failed.
pub enum ToolError {
    Execution(String),
    NotFound(String),
    PermissionDenied(String),
    InvalidInput(String),
}

/// The contents of a `ToolError`.
pub enum ToolErrorView {
    Execution(Seq<char>),
    NotFound(Seq<char>),
    PermissionDenied(Seq<char>),
    InvalidInput(Seq<char>),
}

impl DeepView for ToolError {
    type V = ToolErrorView;

    open spec fn deep_view(&self) -> ToolErrorView {
        match *self {
            ToolError::Execution(s) => ToolErrorView::Execution(s@),
            ToolError::NotFound(s) => ToolErrorView::NotFound(s@),
            ToolError::PermissionDenied(s) => ToolErrorView::PermissionDenied(s@),
            ToolError::InvalidInput(s) => ToolErrorView::InvalidInput(s@),
        }
    }
}

/// What the model is told of a failed call.
pub open spec fn error_text(e: ToolErrorView) -> Seq<char> {
    match e {
        ToolErrorView::Execution(s) => "Tool execution failed: "@ + s,
        ToolErrorView::NotFound(s) => "Tool not found: "@ + s,
        ToolErrorView::PermissionDenied(s) => "Permission denied: "@ + s,
        ToolErrorView::InvalidInput(s) => "Invalid input: "@ + s,
    }
}

impl ToolError {
    pub fn to_string(&self) -> (r: String)
        ensures
            r@ == error_text(self.deep_view()),
    {
        match self {
            ToolError::Execution(s) => text::cat2("Tool execution failed: ", s.as_str()),
            ToolError::NotFound(s) => text::cat2("Tool not found: ", s.as_str()),
            ToolError::PermissionDenied(s) => text::cat2("Permission denied: ", s.as_str()),
            ToolError::InvalidInput(s) => text::cat2("Invalid input: ", s.as_str()),
        }
    }
}

/// Where a tool call comes from.
pub struct ToolContext {
    pub session_id: String,
    pub agent_id: String,
    pub tool_call_id: String,
    pub assistant_message_id: String,
}

/// The contents of a `ToolContext`.
pub struct ToolContextView {
    pub session_id: Seq<char>,
    pub agent_id: Seq<char>,
    pub tool_call_id: Seq<char>,
    pub assistant_message_id: Seq<char>,
}

impl DeepView for ToolContext {
    type V = ToolContextView;

    open spec fn deep_view(&self) -> ToolContextView {
        ToolContextView {
            session_id: self.session_id@,
            agent_id: self.agent_id@,
            tool_call_id: self.tool_call_id@,
            assistant_message_id: self.assistant_message_id@,
        }
    }
}

impl Clone for ToolContext {
    fn clone(&self) -> (r: Self)
        ensures
            r.deep_view() == self.deep_view(),
    {
        ToolContext {
            session_id: self.session_id.clone(),
            agent_id: self.agent_id.clone(),
            tool_call_id: self.tool_call_id.clone(),
            assistant_message_id: self.assistant_message_id.clone(),
        }
    }
}

/// What a tool says of itself.
pub struct ToolView {
    pub name: Seq<char>,
    pub description: Seq<char>,
    pub input_schema: Seq<char>,
    pub output_schema: Option<Seq<char>>,
    pub is_modifier: bool,
}

/// Something that the model can call. A modifier changes files.
pub trait Tool {
    spec fn described(&self) -> ToolView;

    fn name(&self) -> (r: &str)
        ensures
            r@ == self.described().name,
    ;

    fn description(&self) -> (r: &str)
        ensures
            r@ == self.described().description,
    ;

    fn input_schema(&self) -> (r: Json)
        ensures
            r@ == self.described().input_schema,
    ;

    fn output_schema(&self) -> (r: Option<Json>)
        ensures
            r.deep_view() == self.described().output_schema,
    ;

    fn is_modifier(&self) -> (r: bool)
        ensures
            r == self.described().is_modifier,
    ;
}

/// A tool with the handler that carries out its calls.
pub struct BuiltTool<H> {
    pub name: String,
    pub description: String,
    pub input_schema: Json,
    pub output_schema: Option<Json>,
    pub handler: H,
    pub is_modifier: bool,
}

impl<H> Tool for BuiltTool<H> {
    open spec fn described(&self) -> ToolView {
        ToolView {
            name: self.name@,
            description: self.description@,
            input_schema: self.input_schema@,
            output_schema: self.output_schema.deep_view(),
            is_modifier: self.is_modifier,
        }
    }

    fn name(&self) -> &str {
        self.name.as_str()
    }

    fn description(&self) -> &str {
        self.description.as_str()
    }

    fn input_schema(&self) -> Json {
        self.input_schema.clone()
    }

    fn output_schema(&self) -> Option<Json> {
        match &self.output_schema {
            Some(s) => Some(s.clone()),
            None => None,
        }
    }

    fn is_modifier(&self) -> bool {
        self.is_modifier
    }
}

/// The tool that says of itself what `tool` says, with a handler.
pub fn built<T: Tool, H>(tool: &T, handler: H) -> (r: BuiltTool<H>)
    ensures
        r.described() == tool.described(),
        r.handler == handler,
{
    BuiltTool {
        name: tool.name().to_owned(),
        description: tool.description().to_owned(),
        input_schema: tool.input_schema(),
        output_schema: tool.output_schema(),
        handler,
        is_modifier: tool.is_modifier(),
    }
}

/// A tool in the making.
pub struct ToolBuilder<H> {
    pub name: String,
    pub description: String,
    pub input_schema: Json,
    pub output_schema: Option<Json>,
    pub handler: Option<H>,
    pub is_modifier: bool,
}

impl<H> ToolBuilder<H> {
    /// What the finished tool will say of itself.
    pub open spec fn planned(&self) -> ToolView {
        ToolView {
            name: self.name@,
            description: self.description@,
            input_schema: self.input_schema@,
            output_schema: self.output_schema.deep_view(),
            is_modifier: self.is_modifier,
        }
    }

    /// A tool that takes an empty schema and modifies nothing.
    pub fn new(name: &str, description: &str) -> (r: Self)
        ensures
            r.planned() == (ToolView {
                name: name@,
                description: description@,
                input_schema: json::json_object(Seq::empty()),
                output_schema: None,
                is_modifier: false,
            }),
            r.handler is None,
    {
        let none: Vec<(String, Json)> = Vec::new();
        assert(none.deep_view() =~= Seq::<(Seq<char>, Seq<char>)>::empty());
        ToolBuilder {
            name: name.to_owned(),
            description: description.to_owned(),
            input_schema: Json::object(&none),
            output_schema: None,
            handler: None,
            is_modifier: false,
        }
    }

    pub fn input_schema(self, schema: Json) -> (r: Self)
        ensures
            r.planned() == (ToolView { input_schema: schema@, ..self.planned() }),
            r.handler == self.handler,
    {
        let mut r = self;
        r.input_schema = schema;
        r
    }

    pub fn output_schema(self, schema: Json) -> (r: Self)
        ensures
            r.planned() == (ToolView { output_schema: Some(schema@), ..self.planned() }),
            r.handler == self.handler,
    {
        let mut r = self;
        r.output_schema = Some(schema);
        r
    }

    pub fn modifier(self) -> (r: Self)
        ensures
            r.planned() == (ToolView { is_modifier: true, ..self.planned() }),
            r.handler == self.handler,
    {
        let mut r = self;
        r.is_modifier = true;
        r
    }

    pub fn handler(self, f: H) -> (r: Self)
        ensures
            r.planned() == self.planned(),
            r.handler == Some(f),
    {
        let mut r = self;
        r.handler = Some(f);
        r
    }

    /// The finished tool. Its handler must have been set.
    pub fn build(self) -> (r: BuiltTool<H>)
        requires
            self.handler is Some,
        ensures
            r.described() == self.planned(),
            Some(r.handler) == self.handler,
    {
        BuiltTool {
            name: self.name,
            description: self.description,
            input_schema: self.input_schema,
            output_schema: self.output_schema,
            handler: self.handler.unwrap(),
            is_modifier: self.is_modifier,
        }
    }
}

// ── Registry ──

/// The tools of an agent, each under a name of its own, with the checker that
/// admits their calls.
pub struct ToolRegistry<H> {
    pub tools: Vec<BuiltTool<H>>,
    pub permission_checker: Option<DefaultPermissionChecker>,
}

/// Where the tool `name` stands.
pub open spec fn position<H>(tools: Seq<BuiltTool<H>>, name: Seq<char>) -> Option<int>
    decreases tools.len(),
{
    if tools.len() == 0 {
        None
    } else if tools[0].name@ == name {
        Some(0)
    } else {
        match position(tools.drop_first(), name) {
            Some(i) => Some(i + 1),
            None => None,
        }
    }
}

/// The tools with `tool` among them, in place of one of its name.
pub open spec fn registered<H>(tools: Seq<BuiltTool<H>>, tool: BuiltTool<H>) -> Seq<BuiltTool<H>> {
    match position(tools, tool.name@) {
        Some(i) => tools.update(i, tool),
        None => tools.push(tool),
    }
}

/// The tools after each of `more` was registered, in order.
pub open spec fn registered_all<H>(tools: Seq<BuiltTool<H>>, more: Seq<BuiltTool<H>>) -> Seq<
    BuiltTool<H>,
>
    decreases more.len(),
{
    if more.len() == 0 {
        tools
    } else {
        registered(registered_all(tools, more.drop_last()), more.last())
    }
}

/// Whether no two tools have the same name.
pub open spec fn names_differ<H>(tools: Seq<BuiltTool<H>>) -> bool {
    forall|i: int, j: int|
        0 <= i < j < tools.len() ==> (#[trigger] tools[i]).name@ != (#[trigger] tools[j]).name@
}

proof fn lemma_position<H>(tools: Seq<BuiltTool<H>>, name: Seq<char>)
    ensures
        match position(tools, name) {
            Some(i) => 0 <= i < tools.len() && tools[i].name@ == name && forall|j: int|
                0 <= j < i ==> (#[trigger] tools[j]).name@ != name,
            None => forall|j: int| 0 <= j < tools.len() ==> (#[trigger] tools[j]).name@ != name,
        },
    decreases tools.len(),
{
    if tools.len() > 0 && tools[0].name@ != name {
        let rest = tools.drop_first();
        lemma_position(rest, name);
        assert forall|j: int|
            0 < j < tools.len() implies (#[trigger] tools[j]).name@ == rest[j - 1].name@ by {}
    }
}

/// Registering keeps the names apart, the new tool is found under its name,
/// and every other name finds what it found before.
pub proof fn register_then_get<H>(tools: Seq<BuiltTool<H>>, tool: BuiltTool<H>, other: Seq<char>)
    requires
        names_differ(tools),
        other != tool.name@,
    ensures
        names_differ(registered(tools, tool)),
        found(registered(tools, tool), tool.name@) == Some(tool),
        found(registered(tools, tool), other) == found(tools, other),
{
    let after = registered(tools, tool);
    lemma_position(tools, tool.name@);
    lemma_position(tools, other);
    lemma_position(after, tool.name@);
    lemma_position(after, other);
    assert(after[match position(tools, tool.name@) {
        Some(i) => i,
        None => tools.len() as int,
    }] == tool);
    match position(tools, other) {
        Some(i) => {
            assert(after[i] == tools[i]);
        },
        None => {},
    }
}

/// The tool under a name.
pub open spec fn found<H>(tools: Seq<BuiltTool<H>>, name: Seq<char>) -> Option<BuiltTool<H>> {
    match position(tools, name) {
        Some(i) => Some(tools[i]),
        None => None,
    }
}

/// What the model is told of a tool.
pub open spec fn definition(t: ToolView) -> types::ToolDefinitionView {
    types::ToolDefinitionView {
        name: t.name,
        description: t.description,
        input_schema: t.input_schema,
        output_schema: t.output_schema,
    }
}

/// A definition in the form of the model's protocol.
pub open spec fn definition_json(d: types::ToolDefinitionView) -> Seq<char> {
    json::json_object(
        seq![
            ("type"@, json::json_quote("function"@)),
            (
                "function"@,
                json::json_object(
                    seq![
                        ("name"@, json::json_quote(d.name)),
                        ("description"@, json::json_quote(d.description)),
                        ("parameters"@, d.input_schema),
                    ],
                ),
            ),
        ],
    )
}

/// Why a call is not carried out, given what the user answers where the user
/// is asked; `None` where the tool runs.
pub open spec fn bar<H>(r: ToolRegistry<H>, name: Seq<char>, approved: bool) -> Option<
    ToolErrorView,
> {
    if position(r.tools@, name) is None {
        Some(ToolErrorView::NotFound(name))
    } else {
        match r.permission_checker {
            Some(c) => match permission::refusal(c.deep_view(), name, approved) {
                Some(why) => Some(ToolErrorView::PermissionDenied(why)),
                None => None,
            },
            None => None,
        }
    }
}

impl<H> ToolRegistry<H> {
    /// Whether each tool has a name of its own.
    pub open spec fn wf(&self) -> bool {
        names_differ(self.tools@)
    }

    pub fn new() -> (r: Self)
        ensures
            r.tools@.len() == 0,
            r.permission_checker is None,
            r.wf(),
    {
        ToolRegistry { tools: Vec::new(), permission_checker: None }
    }

    pub fn with_permission_checker(self, checker: DefaultPermissionChecker) -> (r: Self)
        ensures
            r.tools == self.tools,
            r.permission_checker == Some(checker),
    {
        let mut r = self;
        r.permission_checker = Some(checker);
        r
    }

    fn find(&self, name: &str) -> (r: Option<usize>)
        ensures
            match r {
                Some(i) => i < self.tools@.len() && position(self.tools@, name@) == Some(i as int),
                None => position(self.tools@, name@) is None,
            },
    {
        let ghost all = self.tools@;
        let mut i: usize = 0;
        assert(all.skip(0) =~= all);
        while i < self.tools.len()
            invariant
                i <= self.tools@.len(),
                all == self.tools@,
                position(all, name@) == (match position(all.skip(i as int), name@) {
                    Some(k) => Some(k + i),
                    None => None,
                }),
            decreases self.tools@.len() - i,
        {
            if text::same(self.tools[i].name.as_str(), name) {
                return Some(i);
            }
            assert(all.skip(i as int).drop_first() =~= all.skip(i + 1));
            i = i + 1;
        }
        None
    }

    /// Adds a tool, in place of one of the same name.
    pub fn register(&mut self, tool: BuiltTool<H>)
        ensures
            final(self).tools@ == registered(old(self).tools@, tool),
            final(self).permission_checker == old(self).permission_checker,
            old(self).wf() ==> final(self).wf(),
    {
        proof {
            if self.wf() {
                let other = tool.name@.push('x');
                assert(other.len() != tool.name@.len());
                register_then_get(self.tools@, tool, other);
            }
        }
        match self.find(tool.name.as_str()) {
            Some(i) => {
                self.tools.set(i, tool);
            },
            None => {
                self.tools.push(tool);
            },
        }
    }

    /// Adds tools one after the other.
    pub fn register_many(&mut self, tools: Vec<BuiltTool<H>>)
        ensures
            final(self).tools@ == registered_all(old(self).tools@, tools@),
            final(self).permission_checker == old(self).permission_checker,
            old(self).wf() ==> final(self).wf(),
    {
        let ghost before = self.tools@;
        let ghost all = tools@;
        for tool in it: tools
            invariant
                it.seq() == all,
                before == old(self).tools@,
                self.tools@ == registered_all(before, all.take(it.index())),
                self.permission_checker == old(self).permission_checker,
                old(self).wf() ==> self.wf(),
        {
            assert(all.take(it.index() + 1).drop_last() =~= all.take(it.index()));
            self.register(tool);
        }
        assert(all.take(all.len() as int) =~= all);
    }

    /// The tool under a name.
    pub fn get(&self, name: &str) -> (r: Option<&BuiltTool<H>>)
        ensures
            match r {
                Some(t) => found(self.tools@, name@) == Some(*t),
                None => found(self.tools@, name@) is None,
            },
    {
        match self.find(name) {
            Some(i) => Some(&self.tools[i]),
            None => None,
        }
    }

    /// What the model is told of each tool.
    pub fn definitions(&self) -> (r: Vec<ToolDefinition>)
        ensures
            r.deep_view() == self.tools@.map_values(|t: BuiltTool<H>| definition(t.described())),
    {
        let mut r: Vec<ToolDefinition> = Vec::new();
        let mut i: usize = 0;
        while i < self.tools.len()
            invariant
                i <= self.tools@.len(),
                r@.len() == i,
                forall|j: int|
                    0 <= j < i ==> (#[trigger] r@[j]).deep_view() == definition(
                        self.tools@[j].described(),
                    ),
            decreases self.tools@.len() - i,
        {
            let tool = &self.tools[i];
            r.push(
                ToolDefinition {
                    name: tool.name().to_owned(),
                    description: tool.description().to_owned(),
                    input_schema: tool.input_schema(),
                    output_schema: tool.output_schema(),
                },
            );
            i = i + 1;
        }
        assert(r.deep_view() =~= self.tools@.map_values(
            |t: BuiltTool<H>| definition(t.described()),
        ));
        r
    }

    /// The definitions in the form of the model's protocol.
    pub fn definitions_as_value(&self) -> (r: Vec<Json>)
        ensures
            r.deep_view() == self.tools@.map_values(
                |t: BuiltTool<H>| definition_json(definition(t.described())),
            ),
    {
        let mut r: Vec<Json> = Vec::new();
        let mut i: usize = 0;
        while i < self.tools.len()
            invariant
                i <= self.tools@.len(),
                r@.len() == i,
                forall|j: int|
                    0 <= j < i ==> (#[trigger] r@[j])@ == definition_json(
                        definition(self.tools@[j].described()),
                    ),
            decreases self.tools@.len() - i,
        {
            let tool = &self.tools[i];
            let function = Json::object3(
                "name",
                Json::string(tool.name()),
                "description",
                Json::string(tool.description()),
                "parameters",
                tool.input_schema(),
            );
            r.push(Json::object2("type", Json::string("function"), "function", function));
            i = i + 1;
        }
        assert(r.deep_view() =~= self.tools@.map_values(
            |t: BuiltTool<H>| definition_json(definition(t.described())),
        ));
        r
    }

    /// Whether the user is to be asked before a call of the tool `name`.
    pub fn asks(&self, name: &str) -> (r: bool)
        ensures
            r == (position(self.tools@, name@) is Some && self.permission_checker is Some
                && self.permission_checker->0.approver && permission::verdict(
                self.permission_checker->0.deep_view(),
                name@,
            ) is Ask),
    {
        if self.find(name).is_none() {
            return false;
        }
        match &self.permission_checker {
            Some(c) => c.asks(name),
            None => false,
        }
    }

    /// The tool that carries out a call, where it exists and may run.
    pub fn execute(&self, call: &ToolCall, approved: bool) -> (r: ToolResult<&BuiltTool<H>>)
        ensures
            match r {
                Ok(t) => bar(*self, call.name@, approved) is None && found(self.tools@, call.name@)
                    == Some(*t),
                Err(e) => bar(*self, call.name@, approved) == Some(e.deep_view()),
            },
    {
        let i: usize = match self.find(call.name.as_str()) {
            Some(i) => i,
            None => return Err(ToolError::NotFound(call.name.clone())),
        };
        if let Some(c) = &self.permission_checker {
            if let Err(why) = c.check(call.name.as_str(), approved) {
                return Err(ToolError::PermissionDenied(why));
            }
        }
        Ok(&self.tools[i])
    }

    /// Each call with the place of the tool that carries it out, or with the
    /// reason why none does, in the order of the calls.
    pub fn settle(&self, calls: &Vec<ToolCall>, approved: &Vec<bool>) -> (r: Vec<
        (ToolCall, ToolResult<usize>),
    >)
        requires
            approved@.len() == calls@.len(),
        ensures
            r@.len() == calls@.len(),
            forall|i: int|
                0 <= i < r@.len() ==> (#[trigger] r@[i]).0.deep_view() == calls@[i].deep_view()
                    && match r@[i].1 {
                    Ok(k) => bar(*self, calls@[i].name@, approved@[i]) is None && position(
                        self.tools@,
                        calls@[i].name@,
                    ) == Some(k as int),
                    Err(e) => bar(*self, calls@[i].name@, approved@[i]) == Some(e.deep_view()),
                },
    {
        let mut r: Vec<(ToolCall, ToolResult<usize>)> = Vec::new();
        let mut i: usize = 0;
        while i < calls.len()
            invariant
                i <= calls@.len(),
                approved@.len() == calls@.len(),
                r@.len() == i,
                forall|i: int|
                    0 <= i < r@.len() ==> (#[trigger] r@[i]).0.deep_view() == calls@[i].deep_view()
                        && match r@[i].1 {
                        Ok(k) => bar(*self, calls@[i].name@, approved@[i]) is None && position(
                            self.tools@,
                            calls@[i].name@,
                        ) == Some(k as int),
                        Err(e) => bar(*self, calls@[i].name@, approved@[i]) == Some(e.deep_view()),
                    },
            decreases calls@.len() - i,
        {
            let call = &calls[i];
            let outcome = match self.execute(call, approved[i]) {
                Ok(_) => match self.find(call.name.as_str()) {
                    Some(k) => Ok(k),
                    None => Err(ToolError::NotFound(call.name.clone())),
                },
                Err(e) => Err(e),
            };
            r.push((call.clone(), outcome));
            i = i + 1;
        }
        r
    }
}

impl<H> Default for ToolRegistry<H> {
    fn default() -> (r: Self)
        ensures
            r.tools@.len() == 0,
            r.permission_checker is None,
    {
        ToolRegistry::new()
    }
}

/// A call of a tool that is not registered is answered with its name.
pub proof fn missing_tools_are_named<H>(r: ToolRegistry<H>, name: Seq<char>, approved: bool)
    requires
        forall|i: int| 0 <= i < r.tools@.len() ==> (#[trigger] r.tools@[i]).name@ != name,
    ensures
        bar(r, name, approved) == Some(ToolErrorView::NotFound(name)),
{
    lemma_position(r.tools@, name);
}

/// Without a checker every registered tool runs.
pub proof fn unchecked_tools_run<H>(r: ToolRegistry<H>, i: int, approved: bool)
    requires
        r.permission_checker is None,
        0 <= i < r.tools@.len(),
    ensures
        bar(r, r.tools@[i].name@, approved) is None,
{
    lemma_position(r.tools@, r.tools@[i].name@);
}

/// The tool under a name is the registered one that has it, and there is none
/// where no tool has it.
pub proof fn tools_are_found_by_name<H>(tools: Seq<BuiltTool<H>>, name: Seq<char>)
    requires
        names_differ(tools),
    ensures
        forall|i: int| 0 <= i < tools.len() && (#[trigger] tools[i]).name@ == name ==> found(
            tools,
            name,
        ) == Some(tools[i]) && position(tools, name) == Some(i),
        found(tools, name) is None <==> forall|i: int|
            0 <= i < tools.len() ==> (#[trigger] tools[i]).name@ != name,
        found(tools, name) matches Some(t) ==> t.name@ == name,
{
    lemma_position(tools, name);
    if let Some(k) = position(tools, name) {
        assert forall|i: int| 0 <= i < tools.len() && (#[trigger] tools[i]).name@ == name implies i
            == k by {
            if i < k {
                assert(tools[i].name@ != name);
            }
            if k < i {
                assert(tools[k].name@ != tools[i].name@);
            }
        }
    }
}

/// Tools that are registered one after the other are found, the last of a name
/// counts, and no two tools have the same name.
pub proof fn registered_tools_are_found<H>(
    tools: Seq<BuiltTool<H>>,
    more: Seq<BuiltTool<H>>,
    name: Seq<char>,
)
    requires
        names_differ(tools),
    ensures
        names_differ(registered_all(tools, more)),
        more.len() > 0 ==> found(registered_all(tools, more), more.last().name@) == Some(
            more.last(),
        ),
        more.len() > 0 && more.last().name@ != name ==> found(registered_all(tools, more), name)
            == found(registered_all(tools, more.drop_last()), name),
    decreases more.len(),
{
    if more.len() > 0 {
        registered_tools_are_found(tools, more.drop_last(), name);
        let before = registered_all(tools, more.drop_last());
        let other = if more.last().name@ != name {
            name
        } else {
            more.last().name@.push('x')
        };
        assert(more.last().name@.push('x').len() != more.last().name@.len());
        register_then_get(before, more.last(), other);
    }
}

/// A call runs exactly where its tool is registered and no checker refuses it;
/// a refused call is answered with the checker's reason.
pub proof fn calls_run_where_permitted<H>(r: ToolRegistry<H>, name: Seq<char>, approved: bool)
    ensures
        ({
            let known = exists|i: int| 0 <= i < r.tools@.len() && (#[trigger] r.tools@[i]).name@ == name;
            let why = match r.permission_checker {
                Some(c) => permission::refusal(c.deep_view(), name, approved),
                None => None,
            };
            &&& bar(r, name, approved) is None <==> known && why is None
            &&& known && why is Some ==> bar(r, name, approved) == Some(
                ToolErrorView::PermissionDenied(why.unwrap()),
            )
            &&& !known ==> bar(r, name, approved) == Some(ToolErrorView::NotFound(name))
        }),
{
    lemma_position(r.tools@, name);
}

/// What the model is told of a failed call ends with what went wrong.
pub proof fn errors_say_what_went_wrong(e: ToolErrorView)
    ensures
        ({
            let said = match e {
                ToolErrorView::Execution(s) => s,
                ToolErrorView::NotFound(s) => s,
                ToolErrorView::PermissionDenied(s) => s,
                ToolErrorView::InvalidInput(s) => s,
            };
            said.is_suffix_of(error_text(e)) && error_text(e).len() > said.len()
        }),
{
    reveal_strlit("Tool execution failed: ");
    reveal_strlit("Tool not found: ");
    reveal_strlit("Permission denied: ");
    reveal_strlit("Invalid input: ");
    let said = match e {
        ToolErrorView::Execution(s) => s,
        ToolErrorView::NotFound(s) => s,
        ToolErrorView::PermissionDenied(s) => s,
        ToolErrorView::InvalidInput(s) => s,
    };
    let all = error_text(e);
    assert(all.subrange(all.len() - said.len(), all.len() as int) =~= said);
}

/// The model is told of a tool by its name, its description and the schema of
/// its input, as they are.
pub proof fn tools_are_described_whole(t: ToolView)
    ensures
        definition(t).name == t.name,
        definition(t).description == t.description,
        definition(t).input_schema == t.input_schema,
        definition(t).output_schema == t.output_schema,
        exists|outer: Seq<(Seq<char>, Seq<char>)>, inner: Seq<(Seq<char>, Seq<char>)>|
            #![trigger json::json_object(outer), json::json_object(inner)]
            definition_json(definition(t)) == json::json_object(outer) && llm::field_of(
                outer,
                "type"@,
            ) == Some(json::json_quote("function"@)) && llm::field_of(outer, "function"@) == Some(
                json::json_object(inner),
            ) && llm::field_of(inner, "name"@) == Some(json::json_quote(t.name)) && llm::field_of(
                inner,
                "description"@,
            ) == Some(json::json_quote(t.description)) && llm::field_of(inner, "parameters"@)
                == Some(t.input_schema),
{
    reveal_strlit("type");
    reveal_strlit("function");
    reveal_strlit("name");
    reveal_strlit("description");
    reveal_strlit("parameters");
    assert("type"@.len() == 4 && "function"@.len() == 8 && "name"@.len() == 4);
    assert("description"@.len() == 11 && "parameters"@.len() == 10);
    reveal_with_fuel(llm::field_of, 4);
    let inner = seq![
        ("name"@, json::json_quote(t.name)),
        ("description"@, json::json_quote(t.description)),
        ("parameters"@, t.input_schema),
    ];
    let outer = seq![
        ("type"@, json::json_quote("function"@)),
        ("function"@, json::json_object(inner)),
    ];
    assert(definition_json(definition(t)) == json::json_object(outer));
    assert(llm::field_of(inner, "name"@) == Some(json::json_quote(t.name)));
    assert(llm::field_of(outer, "function"@) == Some(json::json_object(inner)));
}

} // verus!
