//! The names that most users of the library need.
pub use crate::agent::{
    agent_def_for, builtin_agents, Agent, AgentConfig, AgentDef, AgentKind, AgentOutput,
};
pub use crate::context::ContextManager;
pub use crate::llm::{LlmClient, LlmConfig};
pub use crate::permission::{
    DefaultPermissionChecker, PermissionChecker, PermissionLevel, PermissionRule,
};
pub use crate::storage::SessionInfo;
pub use crate::tool::{Tool, ToolBuilder, ToolContext, ToolError, ToolRegistry};
pub use crate::types::{
    estimate_tokens, ContentPart, FinishReason, LlmEvent, Message, MessageHistory, MessageId,
    ToolCall, ToolContent, ToolDefinition, ToolOutput, ToolResult, ToolResultValue, Usage,
};
