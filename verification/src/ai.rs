//! AI and tool contracts; provider adapters stay behind this boundary.
//!
//! Services never see Lua or provider types. The decisions of the agent loop
//! (what a run is charged when it starts and for each tool call, and when it
//! must stop) are made here, step by step; running a service, its tool
//! callbacks and its transport is left to the caller.
use crate::error::{ErrorCode, KoruError};
use crate::json::JsonValue;
use crate::runtime::budget::{
    no_resources, check_outcome, reserve_outcome, result_error, result_matches,
};
use crate::runtime::{ExecutionContext, Resources};
use crate::schema::{marked_names, JsonSchema, SchemaModel};
use crate::text::str_eq;
use vstd::prelude::*;

verus! {

broadcast use vstd::string::group_string_axioms;

/// Validation keywords the tool schema subset understands.
pub open spec fn supported_keywords() -> Seq<Seq<char>> {
    seq![
        "type"@,
        "enum"@,
        "minimum"@,
        "maximum"@,
        "minLength"@,
        "maxLength"@,
        "items"@,
        "minItems"@,
        "maxItems"@,
        "properties"@,
        "required"@,
        "additionalProperties"@,
    ]
}

/// The texts of a list of strings.
pub open spec fn texts(items: Seq<String>) -> Seq<Seq<char>> {
    Seq::new(items.len(), |k: int| items[k]@)
}

/// Adapter-owned facts about what a service can do for one run.
#[derive(Debug, Clone)]
pub struct ServiceCapabilities {
    /// Provider identity used in diagnostics.
    pub provider: String,
    /// Whether the service can dispatch model tool calls.
    pub tools: bool,
    /// Whether the service supports structured output.
    pub structured_output: bool,
    /// Validation keywords the service accepts in tool schemas.
    pub schema_keywords: Vec<String>,
    /// Effort variants the service accepts.
    pub variants: Vec<String>,
    /// Whether conversations use a stable session header.
    pub sessions: bool,
}

impl ServiceCapabilities {
    /// A tool-capable service that accepts the full schema subset.
    pub fn tool_capable(provider: &str) -> (caps: Self)
        ensures
            caps.provider@ == provider@,
            caps.tools,
            !caps.structured_output,
            texts(caps.schema_keywords@) == supported_keywords(),
            caps.variants@.len() == 0,
            !caps.sessions,
    {
        let names: [&str; 12] = [
            "type",
            "enum",
            "minimum",
            "maximum",
            "minLength",
            "maxLength",
            "items",
            "minItems",
            "maxItems",
            "properties",
            "required",
            "additionalProperties",
        ];
        let mut keywords: Vec<String> = Vec::new();
        let mut i: usize = 0;
        while i < 12
            invariant
                i <= 12,
                keywords@.len() == i,
                forall|k: int| 0 <= k < i ==> #[trigger] texts(keywords@)[k] == names@[k]@,
            decreases 12 - i,
        {
            let ghost before = keywords@;
            let name = names[i].to_owned();
            assert(name@ == names@[i as int]@);
            keywords.push(name);
            assert(keywords@[i as int] == name);
            assert forall|k: int| 0 <= k < i + 1 implies #[trigger] texts(keywords@)[k] == names@[k]@ by {
                if k < i {
                    assert(keywords@[k] == before[k]);
                    assert(texts(before)[k] == names@[k]@);
                    assert(texts(keywords@)[k] == keywords@[k]@);
                } else {
                    assert(texts(keywords@)[k] == keywords@[k]@);
                }
            }
            i = i + 1;
        }
        assert(texts(keywords@) =~= supported_keywords());
        ServiceCapabilities {
            provider: provider.to_owned(),
            tools: true,
            structured_output: false,
            schema_keywords: keywords,
            variants: Vec::new(),
            sessions: false,
        }
    }

    /// Whether every keyword the schema uses is supported.
    pub fn supports_keywords(&self, keywords: &Vec<String>) -> (supported: bool)
        ensures
            supported == forall|k: int|
                0 <= k < keywords@.len() ==> texts(self.schema_keywords@).contains(
                    #[trigger] keywords@[k]@,
                ),
    {
        let mut i: usize = 0;
        while i < keywords.len()
            invariant
                i <= keywords@.len(),
                forall|k: int|
                    0 <= k < i ==> texts(self.schema_keywords@).contains(#[trigger] keywords@[k]@),
            decreases keywords@.len() - i,
        {
            let mut j: usize = 0;
            let mut found = false;
            while j < self.schema_keywords.len()
                invariant
                    j <= self.schema_keywords@.len(),
                    i < keywords@.len(),
                    found ==> texts(self.schema_keywords@).contains(keywords@[i as int]@),
                    !found ==> forall|m: int| 0 <= m < j ==> texts(self.schema_keywords@)[m] != keywords@[i as int]@,
                decreases self.schema_keywords@.len() - j,
            {
                if str_eq(self.schema_keywords[j].as_str(), keywords[i].as_str()) {
                    assert(texts(self.schema_keywords@)[j as int] == keywords@[i as int]@);
                    found = true;
                }
                j = j + 1;
            }
            if !found {
                assert(!texts(self.schema_keywords@).contains(keywords@[i as int]@));
                return false;
            }
            i = i + 1;
        }
        true
    }
}

/// One bounded agent request.
#[derive(Debug)]
pub struct AiRequest {
    /// The user or workflow prompt.
    pub prompt: String,
    /// The immutable tool subset offered to this agent run.
    pub tools: Vec<ToolSpec>,
    /// Maximum model turns for this run.
    pub max_turns: u32,
}

/// An immutable tool description offered to a model.
#[derive(Debug)]
pub struct ToolSpec {
    /// Unique tool name.
    pub name: String,
    /// Human-readable description.
    pub description: String,
    /// Compiled JSON schema for the arguments.
    pub parameters: JsonSchema,
}

/// A tool invocation requested by a service.
#[derive(Debug)]
pub struct ToolCall {
    /// Provider-assigned call identity, unique within the run.
    pub id: u64,
    /// Declared tool name.
    pub name: String,
    /// JSON arguments.
    pub arguments: JsonValue,
}

/// The result returned to a service for one tool call.
#[derive(Debug)]
pub struct ToolResult {
    /// JSON content produced by the tool.
    pub content: JsonValue,
}

/// The service accepts every keyword the schema uses.
pub open spec fn serves_schema(caps: ServiceCapabilities, schema: SchemaModel) -> bool {
    forall|k: int|
        0 <= k < marked_names(schema.keywords, 12).len() ==> texts(caps.schema_keywords@).contains(
            #[trigger] marked_names(schema.keywords, 12)[k],
        )
}

/// The service can serve the request: it offers no tools, or the service
/// dispatches tools and accepts every keyword of every tool schema.
pub open spec fn serves_request(caps: ServiceCapabilities, tools: Seq<ToolSpec>) -> bool {
    tools.len() == 0 || (caps.tools && forall|k: int|
        0 <= k < tools.len() ==> serves_schema(caps, (#[trigger] tools[k]).parameters.model()))
}

/// Reject a request the service cannot serve, before any budget is charged.
pub fn preflight(request: &AiRequest, capabilities: &ServiceCapabilities) -> (result: Result<
    (),
    KoruError,
>)
    ensures
        result is Ok == serves_request(*capabilities, request.tools@),
        result matches Err(e) ==> e.spec_code() == ErrorCode::UnsupportedCapability,
{
    if request.tools.len() == 0 {
        return Ok(());
    }
    if !capabilities.tools {
        return Err(KoruError::new(ErrorCode::UnsupportedCapability, "the provider does not support tools"));
    }
    let mut i: usize = 0;
    while i < request.tools.len()
        invariant
            i <= request.tools@.len(),
            forall|k: int|
                0 <= k < i ==> serves_schema(*capabilities, (#[trigger] request.tools@[k]).parameters.model()),
        decreases request.tools@.len() - i,
    {
        let keywords = request.tools[i].parameters.keywords();
        if !capabilities.supports_keywords(&keywords) {
            assert(!serves_schema(*capabilities, request.tools@[i as int].parameters.model())) by {
                let names = marked_names(request.tools@[i as int].parameters.model().keywords, 12);
                assert(texts(keywords@) == names);
                let j = choose|j: int|
                    0 <= j < keywords@.len() && !texts(capabilities.schema_keywords@).contains(
                        #[trigger] keywords@[j]@,
                    );
                assert(names[j] == keywords@[j]@);
            }
            return Err(KoruError::new(
                ErrorCode::UnsupportedCapability,
                "a tool schema exceeds the capabilities of the provider",
            ));
        }
        assert(serves_schema(*capabilities, request.tools@[i as int].parameters.model())) by {
            let names = marked_names(request.tools@[i as int].parameters.model().keywords, 12);
            assert(texts(keywords@) == names);
            assert forall|k: int| 0 <= k < names.len() implies texts(
                capabilities.schema_keywords@,
            ).contains(#[trigger] names[k]) by {
                assert(names[k] == keywords@[k]@);
            }
        }
        i = i + 1;
    }
    Ok(())
}

/// What is charged when an agent request starts: one model request and the
/// prompt's bytes.
pub open spec fn start_charge(prompt_bytes: int) -> Resources {
    Resources { model_requests: 1, bytes: prompt_bytes as u64, ..no_resources() }
}

/// What is charged for one tool call.
pub open spec fn tool_charge() -> Resources {
    Resources { tool_calls: 1, ..no_resources() }
}

/// Start an agent request: refuse it when the service cannot serve it, then
/// charge the run for it.
pub fn agent_start(
    context: &mut ExecutionContext,
    request: &AiRequest,
    capabilities: &ServiceCapabilities,
    now: u64,
) -> (result: Result<(), KoruError>)
    requires
        old(context).wf(),
    ensures
        final(context).wf(),
        final(context).same_identity(*old(context)),
        !serves_request(*capabilities, request.tools@) ==> (result matches Err(e) && e.spec_code()
            == ErrorCode::UnsupportedCapability && final(context).ledger() == old(context).ledger()),
        serves_request(*capabilities, request.tools@) ==> (final(context).ledger(), result_error(result))
            == reserve_outcome(
            old(context).ledger(),
            old(context).spec_limits(),
            old(context).spec_deadline(),
            start_charge(vstd::utf8::encode_utf8(request.prompt@).len() as int),
            now,
        ) && result_matches(result, result_error(result)),
{
    match preflight(request, capabilities) {
        Ok(()) => {},
        Err(e) => {
            return Err(e);
        },
    }
    let bytes = request.prompt.as_str().as_bytes().len() as u64;
    context.reserve(Resources { model_requests: 1, bytes, ..Resources::zero() }, now)
}

/// What happens next in a running agent request.
pub enum AgentEvent {
    /// The service asks for a tool call.
    ToolCall,
    /// Time passed with nothing from the service.
    Tick,
    /// The service finished.
    Finished,
}

/// Decide on one event of a running agent request: a tool call is charged
/// one tool call; a tick and the end check that the run is still active. An
/// error means the run must stop with it.
pub fn agent_step(context: &mut ExecutionContext, event: AgentEvent, now: u64) -> (result: Result<(), KoruError>)
    requires
        old(context).wf(),
    ensures
        final(context).wf(),
        final(context).same_identity(*old(context)),
        result_matches(result, result_error(result)),
        (final(context).ledger(), result_error(result)) == match event {
            AgentEvent::ToolCall => reserve_outcome(
                old(context).ledger(),
                old(context).spec_limits(),
                old(context).spec_deadline(),
                tool_charge(),
                now,
            ),
            _ => check_outcome(old(context).ledger(), old(context).spec_deadline(), now),
        },
{
    match event {
        AgentEvent::ToolCall => context.reserve(Resources { tool_calls: 1, ..Resources::zero() }, now),
        AgentEvent::Tick => context.ensure_active(now),
        AgentEvent::Finished => context.ensure_active(now),
    }
}

/// Why an agent run ended.
#[derive(Debug, Clone)]
pub enum FinishReason {
    /// The model produced a final answer.
    Stop,
    /// A model or turn limit was reached.
    Length,
    /// The run ended on tool requests that were not continued.
    ToolCalls,
    /// A provider content filter stopped generation.
    ContentFilter,
    /// A provider-specific reason.
    Other(String),
}

/// Token usage; missing provider data stays explicitly unknown.
#[derive(Debug, Clone, Default)]
pub struct Usage {
    /// Prompt tokens, when reported.
    pub input_tokens: Option<u64>,
    /// Generated tokens, when reported.
    pub output_tokens: Option<u64>,
}

/// A completed agent run.
#[derive(Debug, Clone)]
pub struct AiResult {
    /// Final model text.
    pub text: String,
    /// Normalized finish reason.
    pub finish_reason: FinishReason,
    /// Selected model identity.
    pub model: String,
    /// Available token usage.
    pub usage: Usage,
    /// Provider request identifiers, when available.
    pub request_id: Option<String>,
}

/// The category of a service failure.
#[derive(Debug, Clone, Copy, PartialEq, Eq, Structural)]
pub enum ServiceErrorKind {
    /// A provider or transport failure.
    Provider,
    /// A tool failed while producing its result.
    Tool,
    /// The owner stopped the run.
    Cancelled,
}

/// A classified service failure.
#[derive(Debug, Clone)]
pub struct ServiceError {
    /// Failure category.
    pub kind: ServiceErrorKind,
    /// Bounded, provider-neutral message.
    pub message: String,
}

impl ServiceError {
    /// A provider failure.
    pub fn provider(message: &str) -> (error: Self)
        ensures
            error.kind == ServiceErrorKind::Provider,
            error.message@ == message@,
    {
        ServiceError { kind: ServiceErrorKind::Provider, message: message.to_owned() }
    }

    /// A tool failure.
    pub fn tool(message: &str) -> (error: Self)
        ensures
            error.kind == ServiceErrorKind::Tool,
            error.message@ == message@,
    {
        ServiceError { kind: ServiceErrorKind::Tool, message: message.to_owned() }
    }

    /// A cancellation observed by the service.
    pub fn cancelled(message: &str) -> (error: Self)
        ensures
            error.kind == ServiceErrorKind::Cancelled,
            error.message@ == message@,
    {
        ServiceError { kind: ServiceErrorKind::Cancelled, message: message.to_owned() }
    }
}

} // verus!
