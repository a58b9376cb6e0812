use agent_engine::builtin::{all_tools, Builtin, EditTool, ReadTool, WriteTool};
use agent_engine::json::Json;
use agent_engine::permission::DefaultPermissionChecker;
use agent_engine::tool::{built, BuiltTool, Tool, ToolBuilder, ToolContext, ToolError, ToolRegistry};
use agent_engine::types::ToolCall;

fn tool(name: &str, handler: u32) -> BuiltTool<u32> {
    ToolBuilder::new(name, "a tool").handler(handler).build()
}

fn call(name: &str) -> ToolCall {
    ToolCall { id: "1".to_string(), name: name.to_string(), input: Json::null() }
}

#[test]
fn builders_build_what_they_are_told() {
    let plain = tool("x", 7);
    assert_eq!(plain.name(), "x");
    assert_eq!(plain.description(), "a tool");
    assert_eq!(plain.input_schema().text, "{}");
    assert!(plain.output_schema().is_none());
    assert!(!plain.is_modifier());
    assert_eq!(plain.handler, 7);
    let full = ToolBuilder::new("y", "d")
        .input_schema(Json::number(1))
        .output_schema(Json::number(2))
        .modifier()
        .handler(8u32)
        .build();
    assert_eq!(full.input_schema().text, "1");
    assert_eq!(full.output_schema().unwrap().text, "2");
    assert!(full.is_modifier());
}

#[test]
fn a_tool_replaces_one_of_its_name() {
    let mut r: ToolRegistry<u32> = ToolRegistry::new();
    r.register(tool("a", 1));
    r.register(tool("b", 2));
    r.register(tool("a", 3));
    assert_eq!(r.tools.len(), 2);
    assert_eq!(r.get("a").unwrap().handler, 3);
    assert_eq!(r.get("b").unwrap().handler, 2);
    assert!(r.get("c").is_none());
    let mut many: ToolRegistry<u32> = ToolRegistry::default();
    many.register_many(vec![tool("a", 1), tool("b", 2), tool("a", 3)]);
    assert_eq!(many.get("a").unwrap().handler, 3);
    assert_eq!(many.tools.len(), 2);
}

#[test]
fn definitions_are_told_to_the_model() {
    let mut r: ToolRegistry<u32> = ToolRegistry::new();
    r.register(tool("a", 1));
    let defs = r.definitions();
    assert_eq!(defs[0].name, "a");
    assert_eq!(defs[0].description, "a tool");
    assert!(defs[0].output_schema.is_none());
    assert_eq!(
        r.definitions_as_value()[0].text,
        "{\"function\":{\"description\":\"a tool\",\"name\":\"a\",\"parameters\":{}},\"type\":\"function\"}"
    );
}

#[test]
fn missing_tools_come_before_permission() {
    let mut r: ToolRegistry<u32> = ToolRegistry::new();
    r.register(tool("a", 1));
    assert!(matches!(r.execute(&call("b"), true), Err(ToolError::NotFound(n)) if n == "b"));
    assert!(r.execute(&call("a"), false).is_ok());
    let r = r.with_permission_checker(DefaultPermissionChecker::new());
    assert!(matches!(
        r.execute(&call("a"), true),
        Err(ToolError::PermissionDenied(why)) if why == "Tool 'a' is not permitted"
    ));
    assert!(matches!(r.execute(&call("b"), true), Err(ToolError::NotFound(_))));
}

#[test]
fn calls_are_settled_in_order() {
    let mut r: ToolRegistry<u32> = ToolRegistry::new();
    r.register(tool("a", 1));
    r.register(tool("b", 2));
    let settled = r.settle(&vec![call("b"), call("x"), call("a")], &vec![false, false, false]);
    assert_eq!(settled.len(), 3);
    assert_eq!(settled[0].0.name, "b");
    assert!(matches!(settled[0].1, Ok(1)));
    assert!(matches!(&settled[1].1, Err(ToolError::NotFound(n)) if n == "x"));
    assert!(matches!(settled[2].1, Ok(0)));
}

#[test]
fn errors_say_what_happened() {
    let s = || "s".to_string();
    assert_eq!(ToolError::Execution(s()).to_string(), "Tool execution failed: s");
    assert_eq!(ToolError::NotFound(s()).to_string(), "Tool not found: s");
    assert_eq!(ToolError::PermissionDenied(s()).to_string(), "Permission denied: s");
    assert_eq!(ToolError::InvalidInput(s()).to_string(), "Invalid input: s");
}

#[test]
fn built_in_tools_describe_themselves() {
    let tools = all_tools();
    let names: Vec<&str> = tools.iter().map(|t| t.name()).collect();
    assert_eq!(
        names,
        vec![
            "read", "write", "edit", "glob", "grep", "bash", "webfetch", "websearch", "undo",
            "git_commit", "git_status", "git_diff", "git_log"
        ]
    );
    let modifiers: Vec<&str> =
        tools.iter().filter(|t| t.is_modifier()).map(|t| t.name()).collect();
    assert_eq!(modifiers, vec!["write", "edit"]);
    assert_eq!(tools[4].handler, Builtin::Grep);
    assert_eq!(
        ReadTool.input_schema().text,
        "{\"properties\":{\"path\":{\"description\":\"Absolute path to the file\",\"type\":\"string\"}},\"required\":[\"path\"],\"type\":\"object\"}"
    );
    assert_eq!(
        tools[10].input_schema().text,
        "{\"properties\":{},\"required\":[],\"type\":\"object\"}"
    );
    assert!(EditTool.description().starts_with("Edit a file by replacing exact text"));
    assert!(WriteTool.output_schema().is_none());
    assert_eq!(built(&WriteTool, 5).handler, 5);
}

#[test]
fn contexts_are_copied() {
    let c = ToolContext {
        session_id: "s".to_string(),
        agent_id: "a".to_string(),
        tool_call_id: "t".to_string(),
        assistant_message_id: "m".to_string(),
    };
    let d = c.clone();
    assert_eq!((d.session_id, d.agent_id), (c.session_id, c.agent_id));
    assert_eq!((d.tool_call_id, d.assistant_message_id), (c.tool_call_id, c.assistant_message_id));
}
