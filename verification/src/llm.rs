//! Requests to the model, and what to do when one fails.
use vstd::prelude::*;
use crate::json;
use crate::json::Json;
use crate::number;
use crate::text;
use crate::types;
use crate::types::{LlmEvent, Message};

verus! {

/// How the model is reached and asked. `temperature` and `top_p` are decimal
/// numbers as they stand in a request.
pub struct LlmConfig {
    pub api_key: String,
    pub model: String,
    pub base_url: String,
    pub chat_path: String,
    pub auth_header_name: String,
    pub auth_header_value: String,
    pub max_tokens: u64,
    pub temperature: String,
    pub top_p: String,
}

/// The contents of an `LlmConfig`.
pub struct LlmConfigView {
    pub api_key: Seq<char>,
    pub model: Seq<char>,
    pub base_url: Seq<char>,
    pub chat_path: Seq<char>,
    pub auth_header_name: Seq<char>,
    pub auth_header_value: Seq<char>,
    pub max_tokens: u64,
    pub temperature: Seq<char>,
    pub top_p: Seq<char>,
}

impl DeepView for LlmConfig {
    type V = LlmConfigView;

    open spec fn deep_view(&self) -> LlmConfigView {
        LlmConfigView {
            api_key: self.api_key@,
            model: self.model@,
            base_url: self.base_url@,
            chat_path: self.chat_path@,
            auth_header_name: self.auth_header_name@,
            auth_header_value: self.auth_header_value@,
            max_tokens: self.max_tokens,
            temperature: self.temperature@,
            top_p: self.top_p@,
        }
    }
}

impl Clone for LlmConfig {
    fn clone(&self) -> (r: Self)
        ensures
            r.deep_view() == self.deep_view(),
    {
        LlmConfig {
            api_key: self.api_key.clone(),
            model: self.model.clone(),
            base_url: self.base_url.clone(),
            chat_path: self.chat_path.clone(),
            auth_header_name: self.auth_header_name.clone(),
            auth_header_value: self.auth_header_value.clone(),
            max_tokens: self.max_tokens,
            temperature: self.temperature.clone(),
            top_p: self.top_p.clone(),
        }
    }
}

/// A provider that speaks the common chat protocol.
pub open spec fn provider(api_key: Seq<char>, base_url: Seq<char>, model: Seq<char>) -> LlmConfigView {
    LlmConfigView {
        api_key,
        model,
        base_url,
        chat_path: "/v1/chat/completions"@,
        auth_header_name: "Authorization"@,
        auth_header_value: "Bearer {}"@,
        max_tokens: 4096,
        temperature: "0.0"@,
        top_p: "0.95"@,
    }
}

impl LlmConfig {
    pub fn deepseek(api_key: String) -> (r: Self)
        ensures
            r.deep_view() == provider(api_key@, "https://api.deepseek.com"@, "deepseek-chat"@),
    {
        LlmConfig::openai_compatible(
            api_key,
            "https://api.deepseek.com".to_owned(),
            "deepseek-chat".to_owned(),
        )
    }

    pub fn openai_compatible(api_key: String, base_url: String, model: String) -> (r: Self)
        ensures
            r.deep_view() == provider(api_key@, base_url@, model@),
    {
        LlmConfig {
            api_key,
            model,
            base_url,
            chat_path: "/v1/chat/completions".to_owned(),
            auth_header_name: "Authorization".to_owned(),
            auth_header_value: "Bearer {}".to_owned(),
            max_tokens: 4096,
            temperature: "0.0".to_owned(),
            top_p: "0.95".to_owned(),
        }
    }
}

impl Default for LlmConfig {
    fn default() -> (r: Self)
        ensures
            r.deep_view() == provider(""@, "https://api.deepseek.com"@, "deepseek-chat"@),
    {
        LlmConfig::deepseek("".to_owned())
    }
}

/// One request, ready to be sent.
pub struct ChatCall {
    pub url: String,
    pub header_name: String,
    pub header_value: String,
    pub body: Json,
}

/// The contents of a `ChatCall`.
pub struct ChatCallView {
    pub url: Seq<char>,
    pub header_name: Seq<char>,
    pub header_value: Seq<char>,
    pub body: Seq<char>,
}

impl DeepView for ChatCall {
    type V = ChatCallView;

    open spec fn deep_view(&self) -> ChatCallView {
        ChatCallView {
            url: self.url@,
            header_name: self.header_name@,
            header_value: self.header_value@,
            body: self.body@,
        }
    }
}

/// The messages of a request: the system prompt, unless it is empty, then the
/// conversation.
pub open spec fn request_messages(system: Seq<char>, messages: Seq<types::MessageView>) -> Seq<
    Seq<char>,
> {
    let rest = messages.map_values(|m: types::MessageView| json::json_object(types::llm_message(m)));
    if system.len() == 0 {
        rest
    } else {
        seq![
            json::json_object(
                seq![("role"@, json::json_quote("system"@)), ("content"@, json::json_quote(system))],
            ),
        ] + rest
    }
}

/// The fields of a request. The reply is streamed, and its usage is asked for.
pub open spec fn request_fields(
    c: LlmConfigView,
    messages: Seq<types::MessageView>,
    tools: Seq<Seq<char>>,
    system: Seq<char>,
) -> Seq<(Seq<char>, Seq<char>)> {
    seq![
        ("model"@, json::json_quote(c.model)),
        ("messages"@, json::json_array(request_messages(system, messages))),
        ("stream"@, "true"@),
        ("max_tokens"@, number::decimal(c.max_tokens as nat)),
        ("temperature"@, c.temperature),
        ("top_p"@, c.top_p),
        (
            "tools"@,
            if tools.len() == 0 {
                "null"@
            } else {
                json::json_array(tools)
            },
        ),
        ("tool_choice"@, "null"@),
        ("stream_options"@, json::json_object(seq![("include_usage"@, "true"@)])),
    ]
}

/// The request for a reply to a conversation.
pub open spec fn chat_call(
    c: LlmConfigView,
    messages: Seq<types::MessageView>,
    tools: Seq<Seq<char>>,
    system: Seq<char>,
) -> ChatCallView {
    ChatCallView {
        url: text::strip_end(c.base_url, '/') + c.chat_path,
        header_name: c.auth_header_name,
        header_value: text::replaced(c.auth_header_value, "{}"@, c.api_key),
        body: json::json_object(request_fields(c, messages, tools, system)),
    }
}

fn messages_to_json(system: &str, messages: &Vec<Message>) -> (r: Vec<Json>)
    ensures
        r.deep_view() == request_messages(system@, messages.deep_view()),
{
    let mut r: Vec<Json> = Vec::new();
    if !system.is_empty() {
        r.push(
            Json::object2("role", Json::string("system"), "content", Json::string(system)),
        );
    }
    let ghost first = r.deep_view();
    let first_len: usize = r.len();
    let mut i: usize = 0;
    while i < messages.len()
        invariant
            i <= messages@.len(),
            first.len() == first_len <= 1,
            r@.len() == first_len + i,
            forall|j: int| 0 <= j < first_len ==> (#[trigger] r@[j])@ == first[j],
            forall|j: int|
                first_len <= j < r@.len() ==> (#[trigger] r@[j])@ == json::json_object(
                    types::llm_message(messages@[j - first_len].deep_view()),
                ),
        decreases messages@.len() - i,
    {
        let fields = types::message_fields(&messages[i]);
        r.push(Json::object(&fields));
        i = i + 1;
    }
    assert(r.deep_view() =~= request_messages(system@, messages.deep_view()));
    r
}

/// Asks the model of one provider.
pub struct LlmClient {
    pub config: LlmConfig,
}

impl LlmClient {
    pub fn new(config: LlmConfig) -> (r: Self)
        ensures
            r.config == config,
    {
        LlmClient { config }
    }

    /// The request for a reply to a conversation, with the tools that the
    /// model may call.
    pub fn stream_chat(&self, messages: &Vec<Message>, tools: &Vec<Json>, system_prompt: &str) -> (r:
        ChatCall)
        ensures
            r.deep_view() == chat_call(
                self.config.deep_view(),
                messages.deep_view(),
                tools.deep_view(),
                system_prompt@,
            ),
    {
        let c = &self.config;
        let fields: Vec<(String, Json)> = vec![
            ("model".to_owned(), Json::string(c.model.as_str())),
            ("messages".to_owned(), Json::array(&messages_to_json(system_prompt, messages))),
            ("stream".to_owned(), Json::bool(true)),
            ("max_tokens".to_owned(), Json::number(c.max_tokens)),
            ("temperature".to_owned(), Json { text: c.temperature.clone() }),
            ("top_p".to_owned(), Json { text: c.top_p.clone() }),
            (
                "tools".to_owned(),
                if tools.len() == 0 {
                    Json::null()
                } else {
                    Json::array(tools)
                },
            ),
            ("tool_choice".to_owned(), Json::null()),
            ("stream_options".to_owned(), Json::object1("include_usage", Json::bool(true))),
        ];
        assert(fields.deep_view() =~= request_fields(
            c.deep_view(),
            messages.deep_view(),
            tools.deep_view(),
            system_prompt@,
        ));
        proof {
            reveal_strlit("{}");
        }
        let base = text::stripped_end(c.base_url.as_str(), '/');
        ChatCall {
            url: text::cat2(base.as_str(), c.chat_path.as_str()),
            header_name: c.auth_header_name.clone(),
            header_value: text::replace_text(
                c.auth_header_value.as_str(),
                "{}",
                c.api_key.as_str(),
            ),
            body: Json::object(&fields),
        }
    }
}

// ── Failures ──

/// The times that a request is sent again.
pub const MAX_RETRIES: u32 = 3;

/// A failed request: what happened, and whether it may be sent again.
pub struct Failure {
    pub message: String,
    pub retryable: bool,
}

/// Whether a reply with this status is one to read.
pub fn is_success(status: u16) -> (r: bool)
    ensures
        r == (200 <= status < 300),
{
    200 <= status && status < 300
}

/// Whether a request that was answered with this status may be sent again: the
/// server failed, or it asks for patience.
pub open spec fn passing(status: u16) -> bool {
    500 <= status < 600 || status == 429
}

/// A request that no reply came to.
pub fn transport_failure(error: &str) -> (r: Failure)
    ensures
        r.message@ == "HTTP request failed: "@ + error@,
        r.retryable,
{
    Failure { message: text::cat2("HTTP request failed: ", error), retryable: true }
}

/// A request that was refused with a status, whose name is `status_text`.
pub fn status_failure(status: u16, status_text: &str, body: &str) -> (r: Failure)
    ensures
        r.message@ == "API error "@ + status_text@ + ": "@ + body@,
        r.retryable == passing(status),
{
    Failure {
        message: text::cat4("API error ", status_text, ": ", body),
        retryable: (500 <= status && status < 600) || status == 429,
    }
}

/// What follows a failed request.
pub enum Retry {
    /// Wait and send it again.
    Wait { delay_ms: u64 },
    /// Report the failure.
    GiveUp { event: LlmEvent },
}

/// The milliseconds before request `attempt + 1`: a second, then twice as much
/// each time.
pub open spec fn backoff(attempt: nat) -> nat
    decreases attempt,
{
    if attempt <= 1 {
        1000
    } else {
        2 * backoff((attempt - 1) as nat)
    }
}

/// What follows the failure of request number `attempt`, the first being 1.
pub fn after_failure(attempt: u32, failure: &Failure) -> (r: Retry)
    requires
        attempt >= 1,
    ensures
        match r {
            Retry::Wait { delay_ms } => failure.retryable && attempt <= MAX_RETRIES && delay_ms
                == backoff(attempt as nat),
            Retry::GiveUp { event } => !(failure.retryable && attempt <= MAX_RETRIES)
                && event.deep_view() == (types::EventView::ProviderError {
                message: "Request failed after "@ + number::decimal(attempt as nat)
                    + " attempt(s): "@ + failure.message@,
                retryable: false,
            }),
        },
{
    if failure.retryable && attempt <= MAX_RETRIES {
        proof {
            reveal_with_fuel(backoff, 3);
        }
        let delay_ms: u64 = if attempt == 1 {
            1000
        } else if attempt == 2 {
            2000
        } else {
            4000
        };
        Retry::Wait { delay_ms }
    } else {
        Retry::GiveUp {
            event: LlmEvent::ProviderError {
                message: text::cat4(
                    "Request failed after ",
                    number::u64_text(attempt as u64).as_str(),
                    " attempt(s): ",
                    failure.message.as_str(),
                ),
                retryable: false,
            },
        }
    }
}

/// A reply that broke off. The run goes on with what was received.
pub fn stream_failure(error: &str) -> (r: LlmEvent)
    ensures
        r.deep_view() == (types::EventView::ProviderError {
            message: "Stream error: "@ + error@,
            retryable: true,
        }),
{
    LlmEvent::ProviderError { message: text::cat2("Stream error: ", error), retryable: true }
}

/// Failed requests are repeated after one, two and four seconds, and no
/// request is sent more than four times.
pub proof fn backoff_doubles()
    ensures
        backoff(1) == 1000,
        backoff(2) == 2000,
        backoff(3) == 4000,
        forall|attempt: nat| attempt >= 1 ==> backoff(attempt + 1) == 2 * #[trigger] backoff(attempt),
{
    reveal_with_fuel(backoff, 3);
}

/// Server errors and rate limits may pass; other refusals are final.
pub proof fn refusals_are_final(status: u16)
    requires
        400 <= status < 500,
        status != 429,
    ensures
        !passing(status),
{
}

// ── Laws ──

/// A request holds the whole conversation: its messages are the system prompt,
/// where there is one, and behind it every message of the conversation at its
/// place, in the form of the model's protocol.
pub proof fn requests_hold_the_conversation(system: Seq<char>, messages: Seq<types::MessageView>)
    ensures
        ({
            let sent = request_messages(system, messages);
            let first: int = if system.len() == 0 {
                0
            } else {
                1
            };
            &&& sent.len() == messages.len() + first
            &&& forall|i: int|
                0 <= i < messages.len() ==> sent[i + first] == json::json_object(
                    types::llm_message(#[trigger] messages[i]),
                )
            &&& system.len() > 0 ==> sent[0] == json::json_object(
                types::llm_message(types::MessageView::System { id: Seq::empty(), content: system }),
            )
        }),
{
    assert(types::llm_message(types::MessageView::System { id: Seq::empty(), content: system })
        =~= seq![("role"@, json::json_quote("system"@)), ("content"@, json::json_quote(system))]);
}

/// The request that goes on a conversation starts with the request before:
/// what was sent is sent again, and only the new messages follow it.
pub proof fn requests_grow_with_the_conversation(
    system: Seq<char>,
    before: Seq<types::MessageView>,
    more: Seq<types::MessageView>,
)
    ensures
        request_messages(system, before + more) == request_messages(system, before)
            + request_messages(Seq::empty(), more),
{
    assert(request_messages(system, before + more) =~= request_messages(system, before)
        + request_messages(Seq::empty(), more));
}

/// The value under a key of fields.
pub open spec fn field_of(fields: Seq<(Seq<char>, Seq<char>)>, key: Seq<char>) -> Option<Seq<char>>
    decreases fields.len(),
{
    if fields.len() == 0 {
        None
    } else if fields.last().0 == key {
        Some(fields.last().1)
    } else {
        field_of(fields.drop_last(), key)
    }
}

proof fn lemma_field_of(fields: Seq<(Seq<char>, Seq<char>)>, i: int)
    requires
        0 <= i < fields.len(),
        forall|j: int| i < j < fields.len() ==> (#[trigger] fields[j]).0 != fields[i].0,
    ensures
        field_of(fields, fields[i].0) == Some(fields[i].1),
    decreases fields.len(),
{
    if i < fields.len() - 1 {
        assert(fields[fields.len() - 1].0 != fields[i].0);
        assert forall|j: int| i < j < fields.drop_last().len() implies (
        #[trigger] fields.drop_last()[j]).0 != fields.drop_last()[i].0 by {
            assert(fields.drop_last()[j] == fields[j]);
        }
        lemma_field_of(fields.drop_last(), i);
    }
}

/// A request names the model, holds the conversation, asks for a stream with
/// its usage and offers the tools, where there are any, all of them in order.
pub proof fn requests_are_complete(
    c: LlmConfigView,
    messages: Seq<types::MessageView>,
    tools: Seq<Seq<char>>,
    system: Seq<char>,
)
    ensures
        ({
            let fields = request_fields(c, messages, tools, system);
            &&& chat_call(c, messages, tools, system).body == json::json_object(fields)
            &&& field_of(fields, "model"@) == Some(json::json_quote(c.model))
            &&& field_of(fields, "messages"@) == Some(
                json::json_array(request_messages(system, messages)),
            )
            &&& field_of(fields, "stream"@) == Some("true"@)
            &&& field_of(fields, "max_tokens"@) == Some(number::decimal(c.max_tokens as nat))
            &&& field_of(fields, "temperature"@) == Some(c.temperature)
            &&& field_of(fields, "top_p"@) == Some(c.top_p)
            &&& tools.len() > 0 ==> field_of(fields, "tools"@) == Some(json::json_array(tools))
            &&& tools.len() == 0 ==> field_of(fields, "tools"@) == Some("null"@)
            &&& field_of(fields, "stream_options"@) == Some(
                json::json_object(seq![("include_usage"@, "true"@)]),
            )
        }),
{
    let fields = request_fields(c, messages, tools, system);
    reveal_strlit("model");
    reveal_strlit("messages");
    reveal_strlit("stream");
    reveal_strlit("max_tokens");
    reveal_strlit("temperature");
    reveal_strlit("top_p");
    reveal_strlit("tools");
    reveal_strlit("tool_choice");
    reveal_strlit("stream_options");
    assert("model"@.len() == 5 && "messages"@.len() == 8 && "stream"@.len() == 6);
    assert("max_tokens"@.len() == 10 && "temperature"@.len() == 11 && "top_p"@.len() == 5);
    assert("tools"@.len() == 5 && "tool_choice"@.len() == 11 && "stream_options"@.len() == 14);
    assert("model"@[0] == 'm' && "top_p"@[3] == '_' && "tools"@[3] == 'l' && "tools"@[0] == 't');
    assert("top_p"@[0] == 't');
    assert("temperature"@[1] == 'e' && "tool_choice"@[1] == 'o');
    lemma_field_of(fields, 0);
    lemma_field_of(fields, 1);
    lemma_field_of(fields, 2);
    lemma_field_of(fields, 3);
    lemma_field_of(fields, 4);
    lemma_field_of(fields, 5);
    lemma_field_of(fields, 6);
    lemma_field_of(fields, 8);
}

/// A request goes to the provider's address, whether or not that ends in a
/// slash, with the key in its header.
pub proof fn requests_reach_the_provider(
    api_key: Seq<char>,
    base_url: Seq<char>,
    model: Seq<char>,
    messages: Seq<types::MessageView>,
    tools: Seq<Seq<char>>,
    system: Seq<char>,
)
    requires
        base_url.len() > 0,
        base_url.last() != '/',
    ensures
        ({
            let call = chat_call(provider(api_key, base_url, model), messages, tools, system);
            let slashed = chat_call(
                provider(api_key, base_url.push('/'), model),
                messages,
                tools,
                system,
            );
            &&& call.url == base_url + "/v1/chat/completions"@
            &&& slashed == call
            &&& call.header_name == "Authorization"@
            &&& call.header_value == "Bearer "@ + api_key
        }),
{
    let c = provider(api_key, base_url, model);
    let call = chat_call(c, messages, tools, system);
    assert(base_url.push('/').drop_last() =~= base_url);
    let slashed = chat_call(provider(api_key, base_url.push('/'), model), messages, tools, system);
    assert(request_fields(c, messages, tools, system) =~= request_fields(
        provider(api_key, base_url.push('/'), model),
        messages,
        tools,
        system,
    ));
    reveal_strlit("Bearer {}");
    reveal_strlit("Bearer ");
    reveal_strlit("{}");
    assert("Bearer {}"@ =~= "Bearer "@ + "{}"@);
    assert(!"Bearer "@.contains('{'));
    text::replaced_once("Bearer "@, "{}"@, Seq::empty(), api_key);
    assert("Bearer "@ + "{}"@ + Seq::<char>::empty() =~= "Bearer {}"@);
    assert("Bearer "@ + api_key + Seq::<char>::empty() =~= "Bearer "@ + api_key);
}

/// A failure may pass where the server failed or asks for patience, and such a
/// request is sent again three times.
pub proof fn passing_failures_are_retried(status: u16)
    ensures
        passing(status) <==> status == 429 || 500 <= status <= 599,
        MAX_RETRIES == 3,
{
}

/// A provider is asked under the key, at the address and for the model that are
/// given.
pub proof fn providers_are_asked_as_given(
    api_key: Seq<char>,
    base_url: Seq<char>,
    model: Seq<char>,
)
    ensures
        provider(api_key, base_url, model).api_key == api_key,
        provider(api_key, base_url, model).base_url == base_url,
        provider(api_key, base_url, model).model == model,
        provider(api_key, base_url, model).max_tokens == 4096,
        provider(api_key, base_url, model).temperature == "0.0"@,
        provider(api_key, base_url, model).top_p == "0.95"@,
{
}

} // verus!
