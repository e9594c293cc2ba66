//! What the wire-protocol providers share.

use vstd::prelude::*;
use vstd::string::StringExecFns;

use crate::error::ProviderError;
use crate::json::{empty_object, parse_json, parsed_json, tree, Json, JsonTree};
use crate::message::{ToolCall, ToolCallView};
use crate::schema::{sanitize_schema, sanitized};
use crate::text::{trim_end_char, without_trailing};

verus! {

/// The version that the default `User-Agent` names.
pub const SWEET_VERSION: &'static str = "0.1.0";

/// A tool as the model is told of it.
#[derive(Debug, PartialEq, Eq)]
pub struct ToolSpec {
    pub name: String,
    pub description: String,
    pub parameters_schema: Json,
}

/// The model of a [`ToolSpec`].
#[verifier::ext_equal]
pub struct ToolSpecView {
    pub name: Seq<char>,
    pub description: Seq<char>,
    pub parameters_schema: JsonTree,
}

impl DeepView for ToolSpec {
    type V = ToolSpecView;

    open spec fn deep_view(&self) -> ToolSpecView {
        ToolSpecView {
            name: self.name@,
            description: self.description@,
            parameters_schema: self.parameters_schema.deep_view(),
        }
    }
}

/// What a stream reports while a reply is being received.
#[derive(Debug, PartialEq, Eq)]
pub enum SinkEvent {
    Content(String),
    Thinking(String),
    Call(ToolCall),
}

/// The model of a [`SinkEvent`].
#[verifier::ext_equal]
pub enum SinkView {
    Content(Seq<char>),
    Thinking(Seq<char>),
    Call(ToolCallView),
}

impl DeepView for SinkEvent {
    type V = SinkView;

    open spec fn deep_view(&self) -> SinkView {
        match *self {
            SinkEvent::Content(t) => SinkView::Content(t@),
            SinkEvent::Thinking(t) => SinkView::Thinking(t@),
            SinkEvent::Call(c) => SinkView::Call(c.deep_view()),
        }
    }
}

/// The content that a run of reports adds up to.
pub open spec fn content_reported(run: Seq<SinkView>) -> Seq<char>
    decreases run.len(),
{
    if run.len() == 0 {
        Seq::empty()
    } else {
        match run.last() {
            SinkView::Content(t) => content_reported(run.drop_last()) + t,
            _ => content_reported(run.drop_last()),
        }
    }
}

/// The reasoning that a run of reports adds up to.
pub open spec fn thinking_reported(run: Seq<SinkView>) -> Seq<char>
    decreases run.len(),
{
    if run.len() == 0 {
        Seq::empty()
    } else {
        match run.last() {
            SinkView::Thinking(t) => thinking_reported(run.drop_last()) + t,
            _ => thinking_reported(run.drop_last()),
        }
    }
}

/// What two runs of reports add up to.
pub proof fn lemma_reported_add(a: Seq<SinkView>, b: Seq<SinkView>)
    ensures
        content_reported(a + b) == content_reported(a) + content_reported(b),
        thinking_reported(a + b) == thinking_reported(a) + thinking_reported(b),
    decreases b.len(),
{
    if b.len() == 0 {
        assert(a + b =~= a);
        assert(content_reported(a) + content_reported(b) =~= content_reported(a));
        assert(thinking_reported(a) + thinking_reported(b) =~= thinking_reported(a));
    } else {
        lemma_reported_add(a, b.drop_last());
        assert((a + b).drop_last() =~= a + b.drop_last());
        assert((a + b).last() == b.last());
        assert(content_reported(a + b) =~= content_reported(a) + content_reported(b));
        assert(thinking_reported(a + b) =~= thinking_reported(a) + thinking_reported(b));
    }
}

/// The `User-Agent` that a provider starts with.
pub open spec fn default_user_agent_text() -> Seq<char> {
    "sweet/"@ + SWEET_VERSION@
}

/// The `User-Agent` that a provider starts with.
pub fn default_user_agent() -> (r: String)
    ensures
        r@ == default_user_agent_text(),
{
    let mut ua = "sweet/".to_owned();
    ua.append(SWEET_VERSION);
    ua
}

/// `prefix`, a space, and `user_agent`.
pub fn prepended_user_agent(prefix: String, user_agent: &str) -> (r: String)
    ensures
        r@ == prefix@ + " "@ + user_agent@,
{
    let mut ua = prefix;
    ua.append(" ");
    ua.append(user_agent);
    ua
}

/// The URL of `path` under `base_url`, whatever slashes `base_url` ends with.
pub open spec fn endpoint_text(base_url: Seq<char>, path: Seq<char>) -> Seq<char> {
    without_trailing(base_url, '/') + path
}

/// The URL of `path` under `base_url`, whatever slashes `base_url` ends with.
pub fn endpoint(base_url: &str, path: &str) -> (r: String)
    ensures
        r@ == endpoint_text(base_url@, path@),
{
    let mut url = trim_end_char(base_url, '/');
    url.append(path);
    url
}

/// Whether an HTTP status means success.
pub open spec fn success(status: u16) -> bool {
    200 <= status < 300
}

/// Accepts a success status, and turns any other into an error that carries
/// the body.
pub fn check_status(status: u16, body: &str) -> (r: Result<(), ProviderError>)
    ensures
        r is Ok <==> success(status),
        r matches Err(e) ==> (e matches ProviderError::Http { status: s, body: b } && s == status
            && b@ == body@),
{
    if 200 <= status && status < 300 {
        Ok(())
    } else {
        Err(ProviderError::Http { status, body: body.to_owned() })
    }
}

/// What the text of a tool call's arguments stands for: no text at all for the
/// object without members, any other text for the JSON that it is; `None` where
/// it is no JSON.
pub open spec fn arguments_tree(text: Seq<char>) -> Option<JsonTree> {
    if text.len() == 0 {
        Some(JsonTree::Object(Seq::empty()))
    } else {
        parsed_json(text)
    }
}

/// Reads the text of a tool call's arguments.
pub fn read_arguments(text: &str) -> (r: Result<Json, serde_json::Error>)
    ensures
        match r {
            Ok(j) => arguments_tree(text@) == Some(tree(j)),
            Err(_) => arguments_tree(text@) is None,
        },
{
    if text.is_empty() {
        Ok(empty_object())
    } else {
        parse_json(text)
    }
}

/// One header of a request.
#[derive(Debug, PartialEq, Eq)]
pub struct Header {
    pub name: String,
    pub value: String,
}

impl DeepView for Header {
    type V = (Seq<char>, Seq<char>);

    open spec fn deep_view(&self) -> (Seq<char>, Seq<char>) {
        (self.name@, self.value@)
    }
}

/// A header with the given name and value.
pub fn header(name: &str, value: &str) -> (r: Header)
    ensures
        r.deep_view() == (name@, value@),
{
    Header { name: name.to_owned(), value: value.to_owned() }
}

/// A copy of `schema` in the form that providers accept.
fn sanitized_copy(schema: &Json) -> (r: Json)
    ensures
        r.deep_view() == sanitized(schema.deep_view()),
{
    let mut copy = schema.clone();
    sanitize_schema(&mut copy);
    copy
}

/// `tools` with their parameter schemas in the form that is accepted.
pub open spec fn sanitized_tools(tools: Seq<ToolSpecView>) -> Seq<ToolSpecView> {
    tools.map_values(
        |t: ToolSpecView|
            ToolSpecView { parameters_schema: sanitized(t.parameters_schema), ..t },
    )
}

/// Copies `tools`, bringing their parameter schemas into the form that is
/// accepted.
pub fn sanitize_tools(tools: &Vec<ToolSpec>) -> (r: Vec<ToolSpec>)
    ensures
        r.deep_view() == sanitized_tools(tools.deep_view()),
{
    let mut out: Vec<ToolSpec> = Vec::new();
    let ghost all = sanitized_tools(tools.deep_view());
    assert(out.deep_view() =~= all.take(0));
    for i in 0..tools.len()
        invariant
            all == sanitized_tools(tools.deep_view()),
            out.deep_view() == all.take(i as int),
    {
        let ghost before = out.deep_view();
        let tool = ToolSpec {
            name: tools[i].name.clone(),
            description: tools[i].description.clone(),
            parameters_schema: sanitized_copy(&tools[i].parameters_schema),
        };
        out.push(tool);
        assert(out.deep_view() =~= before.push(tool.deep_view()));
        assert(all.take(i + 1) =~= all.take(i as int).push(all[i as int]));
    }
    assert(all.take(all.len() as int) =~= all);
    out
}

// ---------------------------------------------------------------------------
// Laws
// ---------------------------------------------------------------------------

/// Slashes at the end of a base URL do not matter: they go, and the path follows what
/// is left as it is.
pub proof fn law_endpoints_stand_under_the_base(base_url: Seq<char>, path: Seq<char>)
    ensures
        endpoint_text(base_url.push('/'), path) == endpoint_text(base_url, path),
        (base_url.len() == 0 || base_url.last() != '/') ==> endpoint_text(base_url, path)
            == base_url + path,
{
    assert(base_url.push('/').drop_last() =~= base_url);
}

/// Success is a status from 200 to 299.
pub proof fn law_success(status: u16)
    ensures
        success(status) <==> status / 100 == 2,
{
}

/// Arguments without text are an object without members; any other are read as JSON.
pub proof fn law_arguments(t: Seq<char>)
    ensures
        t.len() == 0 ==> arguments_tree(t) == Some(JsonTree::Object(Seq::empty())),
        t.len() > 0 ==> arguments_tree(t) == parsed_json(t),
{
}

/// A tool is sent under its name, with its description and with the schema of its
/// parameters in the form that is accepted, and no tool is left out.
pub proof fn law_tools_are_sent(tools: Seq<ToolSpecView>)
    ensures
        sanitized_tools(tools).len() == tools.len(),
        forall|k: int|
            0 <= k < tools.len() ==> {
                &&& (#[trigger] sanitized_tools(tools)[k]).name == tools[k].name
                &&& sanitized_tools(tools)[k].description == tools[k].description
                &&& sanitized_tools(tools)[k].parameters_schema == sanitized(
                    tools[k].parameters_schema,
                )
            },
{
}

/// A client calls itself `sweet`, with its version.
pub proof fn law_default_user_agent()
    ensures
        default_user_agent_text() == "sweet/"@ + SWEET_VERSION@,
        SWEET_VERSION@ == "0.1.0"@,
{
}

/// The models of tools, headers and reports tell their fields apart.
pub proof fn law_models_hold_the_fields(t: ToolSpec, h: Header, e: SinkEvent)
    ensures
        t.deep_view().name == t.name@,
        t.deep_view().description == t.description@,
        t.deep_view().parameters_schema == t.parameters_schema.deep_view(),
        h.deep_view().0 == h.name@,
        h.deep_view().1 == h.value@,
        match e {
            SinkEvent::Content(s) => e.deep_view() == SinkView::Content(s@),
            SinkEvent::Thinking(s) => e.deep_view() == SinkView::Thinking(s@),
            SinkEvent::Call(c) => e.deep_view() == SinkView::Call(c.deep_view()),
        },
{
}

} // verus!
