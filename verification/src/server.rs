//! Chat-completion requests: what is read from a request, what is written into
//! it, and what each stage of handling one decides.
use crate::cache::{is_lookup, CacheEntry, CacheHit, CacheModel, SemanticCache};
use crate::classifier::Reading;
use crate::config::{PiiAction, SecurityConfig};
use crate::json::{
    get, get_mut, json_entries, json_items, json_tree, member, null_value, object_value, text_value,
    Json,
};
use crate::pii::{
    detector_rows, detector_table, detectors, found, lemma_table_kinds_are_plain, redact_with,
    scan_with, table_findings, table_redacted, Detector,
};
use crate::prompt_guard::{first_match, PromptGuard};
use crate::proxy::{completions_url, with_model, BackendCall, BackendTarget, Backends};
use crate::routing::{RouteDecision, RoutingStrategy};
use crate::score::Score;
use crate::text::{copy_option, join, joined, lowercase, option_text, same_text};
use axum::http::HeaderValue;
use serde_json::Value;
use vstd::prelude::*;

verus! {

/// The messages of a request.
pub open spec fn messages_of(body: Json) -> Option<Seq<Json>> {
    match member(body, "messages"@) {
        Some(Json::Array(messages)) => Some(messages),
        _ => None,
    }
}

/// Whether a message has the role `user`.
pub open spec fn is_from_user(message: Json) -> bool {
    member(message, "role"@) == Some(Json::Text("user"@))
}

/// The number of the last message from the user.
pub open spec fn last_user_index(messages: Seq<Json>) -> Option<int>
    decreases messages.len(),
{
    if messages.len() == 0 {
        None
    } else if is_from_user(messages.last()) {
        Some(messages.len() - 1)
    } else {
        last_user_index(messages.drop_last())
    }
}

/// The text of the last message from the user, where its content is a text.
pub open spec fn last_user_text(body: Json) -> Option<Seq<char>> {
    match messages_of(body) {
        Some(messages) => match last_user_index(messages) {
            Some(i) => match member(messages[i], "content"@) {
                Some(Json::Text(text)) => Some(text),
                _ => None,
            },
            None => None,
        },
        None => None,
    }
}

/// An object with one member set.
pub open spec fn with_member(value: Json, key: Seq<char>, new: Json) -> Json {
    match value {
        Json::Object(entries) => Json::Object(entries.insert(key, new)),
        _ => value,
    }
}

/// The request with the content of the last message from the user overwritten,
/// where that message has one.
pub open spec fn with_last_user_text(body: Json, text: Seq<char>) -> Option<Json> {
    match messages_of(body) {
        Some(messages) => match last_user_index(messages) {
            Some(i) => if member(messages[i], "content"@) is Some {
                Some(
                    with_member(
                        body,
                        "messages"@,
                        Json::Array(
                            messages.update(
                                i,
                                with_member(messages[i], "content"@, Json::Text(text)),
                            ),
                        ),
                    ),
                )
            } else {
                None
            },
            None => None,
        },
        None => None,
    }
}

/// Whether a request asks for a stream.
pub open spec fn wants_stream(body: Json) -> bool {
    member(body, "stream"@) == Some(Json::Bool(true))
}

/// Whether a message has the role `user`.
fn from_user(message: &Value) -> (b: bool)
    ensures
        b == is_from_user(json_tree(*message)),
{
    match get(message, "role") {
        Some(role) => match role.as_str() {
            Some(name) => same_text(name, "user"),
            None => false,
        },
        None => false,
    }
}

/// The number of the last message from the user.
fn find_last_user(messages: &Vec<Value>) -> (found: Option<usize>)
    ensures
        match found {
            Some(i) => last_user_index(json_items(messages@)) == Some(i as int) && i < messages.len(),
            None => last_user_index(json_items(messages@)) is None,
        },
{
    let ghost trees = json_items(messages@);
    let mut i: usize = messages.len();
    assert(trees.take(i as int) =~= trees);
    while i > 0
        invariant
            0 <= i <= messages.len(),
            trees == json_items(messages@),
            last_user_index(trees) == last_user_index(trees.take(i as int)),
        decreases i,
    {
        i = i - 1;
        assert(trees.take(i + 1).last() == json_tree(messages@[i as int]));
        assert(trees.take(i + 1).drop_last() =~= trees.take(i as int));
        if from_user(&messages[i]) {
            return Some(i);
        }
    }
    None
}

/// The text of the last message from the user, if its content is a text.
pub fn extract_last_user_message(body: &Value) -> (text: Option<String>)
    ensures
        option_text(text) == last_user_text(json_tree(*body)),
{
    let messages = match get(body, "messages") {
        Some(value) => match value.as_array() {
            Some(messages) => messages,
            None => return None,
        },
        None => return None,
    };
    match find_last_user(messages) {
        Some(i) => {
            assert(json_items(messages@)[i as int] == json_tree(messages@[i as int]));
            match get(&messages[i], "content") {
                Some(content) => match content.as_str() {
                    Some(text) => Some(text.to_string()),
                    None => None,
                },
                None => None,
            }
        },
        None => None,
    }
}

/// Overwrites the content of the last message from the user, so that a
/// rewritten request is what gets forwarded. Returns whether it was done: where
/// that message has no content, nothing changes.
pub fn set_last_user_message(body: &mut Value, new_text: &str) -> (replaced: bool)
    ensures
        match with_last_user_text(json_tree(*old(body)), new_text@) {
            Some(tree) => replaced && json_tree(*final(body)) == tree,
            None => !replaced && *final(body) == *old(body),
        },
{
    let found = match get(body, "messages") {
        Some(value) => match value.as_array() {
            Some(messages) => match find_last_user(messages) {
                Some(i) => {
                    assert(json_items(messages@)[i as int] == json_tree(messages@[i as int]));
                    if get(&messages[i], "content").is_some() {
                        Some(i)
                    } else {
                        None
                    }
                },
                None => None,
            },
            None => None,
        },
        None => None,
    };
    match found {
        None => false,
        Some(i) => {
            if let Some(value) = get_mut(body, "messages") {
                if let Some(messages) = value.as_array_mut() {
                    let ghost before = json_items(messages@);
                    assert(before[i as int] == json_tree(messages@[i as int]));
                    if let Some(content) = get_mut(&mut messages[i], "content") {
                        *content = text_value(new_text.to_string());
                    }
                    assert(json_items(messages@) =~= before.update(
                        i as int,
                        json_tree(messages@[i as int]),
                    ));
                }
            }
            true
        },
    }
}

/// The body of an error response.
pub open spec fn error_tree(kind: Seq<char>, message: Seq<char>) -> Json {
    Json::Object(
        map![
            "error"@ => Json::Object(map![
                "type"@ => Json::Text(kind),
                "message"@ => Json::Text(message),
            ]),
        ],
    )
}

/// The body of an error response.
pub fn error_body(kind: &str, message: String) -> (body: Value)
    ensures
        json_tree(body) == error_tree(kind@, message@),
{
    let mut error = serde_json::Map::new();
    let _ = error.insert("type".to_string(), text_value(kind.to_string()));
    let _ = error.insert("message".to_string(), text_value(message));
    let mut body = serde_json::Map::new();
    let _ = body.insert("error".to_string(), object_value(error));
    proof {
        assert(json_entries(body)["error"@] == Json::Object(json_entries(error)));
        assert(json_entries(error) =~= map![
            "type"@ => Json::Text(kind@),
            "message"@ => Json::Text(message@),
        ]);
        assert(json_entries(body) =~= map!["error"@ => Json::Object(json_entries(error))]);
    }
    object_value(body)
}

/// A response with a JSON body.
pub struct Reply {
    pub status: u16,
    pub body: Value,
}

/// A response as a status and a tree.
pub ghost struct ReplyModel {
    pub status: u16,
    pub body: Json,
}

impl Reply {
    /// The status and the tree.
    pub open spec fn view(&self) -> ReplyModel {
        ReplyModel { status: self.status, body: json_tree(self.body) }
    }
}

/// The response to a request that cannot be served.
pub open spec fn internal_error_reply(message: Seq<char>) -> ReplyModel {
    ReplyModel { status: 500, body: error_tree("internal_error"@, message) }
}

/// The response to a request that cannot be served.
pub fn internal_error(message: String) -> (reply: Reply)
    ensures
        reply@ == internal_error_reply(message@),
{
    Reply { status: 500, body: error_body("internal_error", message) }
}

/// The response to a request that is refused.
pub fn security_block_response(status: u16, error_type: &str, message: String) -> (reply: Reply)
    ensures
        reply@ == (ReplyModel { status, body: error_tree(error_type@, message@) }),
{
    Reply { status, body: error_body(error_type, message) }
}

/// A request that has passed the screens.
pub struct ChatRequest {
    /// The request to forward.
    pub body: Value,
    /// The text to embed.
    pub query_text: String,
    /// Whether the response is to be streamed.
    pub streaming: bool,
}

/// A request with a text from the user.
pub struct Received {
    body: Value,
    text: String,
}

impl Received {
    /// The request.
    pub closed spec fn body(&self) -> Json {
        json_tree(self.body)
    }

    /// The text of the last message from the user.
    pub closed spec fn text(&self) -> Seq<char> {
        self.text@
    }
}

/// A request that has passed the prompt guard.
pub struct Guarded {
    body: Value,
    text: String,
}

impl Guarded {
    /// The request.
    pub closed spec fn body(&self) -> Json {
        json_tree(self.body)
    }

    /// The text of the last message from the user.
    pub closed spec fn text(&self) -> Seq<char> {
        self.text@
    }
}

/// A request whose text holds personal data that is to be redacted.
pub struct Flagged {
    body: Value,
    text: String,
}

impl Flagged {
    /// The request.
    pub closed spec fn body(&self) -> Json {
        json_tree(self.body)
    }

    /// The text of the last message from the user.
    pub closed spec fn text(&self) -> Seq<char> {
        self.text@
    }
}

/// What a look for personal data makes of a request.
pub enum PiiScan {
    /// The request goes no further.
    Answered(Reply),
    /// The request is served as it came.
    Clean(ChatRequest),
    /// The request is to be redacted.
    Flagged(Flagged),
}

/// Takes a request in: without a text from the user it cannot be served.
pub fn receive(body: Value) -> (outcome: Result<Received, Reply>)
    ensures
        match outcome {
            Ok(received) => {
                &&& last_user_text(json_tree(body)) == Some(received.text())
                &&& received.body() == json_tree(body)
            },
            Err(reply) => {
                &&& last_user_text(json_tree(body)) is None
                &&& reply@ == internal_error_reply(no_user_text())
            },
        },
{
    match extract_last_user_message(&body) {
        Some(text) => Ok(Received { body, text }),
        None => Err(
            internal_error(
                "request must include a message with role 'user' and string content".to_string(),
            ),
        ),
    }
}

impl ChatRequest {
    /// The request over trees, as an admitted one.
    pub open spec fn view(&self) -> AdmissionModel {
        AdmissionModel::Admitted {
            body: json_tree(self.body),
            query_text: self.query_text@,
            streaming: self.streaming,
        }
    }
}

/// What the screens make of a request.
pub enum Admission {
    /// The request goes no further.
    Answered(Reply),
    /// The request is served.
    Admitted(ChatRequest),
}

/// What the screens make of a request, over trees.
pub ghost enum AdmissionModel {
    Answered(ReplyModel),
    Admitted { body: Json, query_text: Seq<char>, streaming: bool },
}

impl Admission {
    /// The admission over trees.
    pub open spec fn view(&self) -> AdmissionModel {
        match self {
            Admission::Answered(reply) => AdmissionModel::Answered(reply@),
            Admission::Admitted(request) => request@,
        }
    }
}

/// The complaint about a request without a text from the user.
pub open spec fn no_user_text() -> Seq<char> {
    "request must include a message with role 'user' and string content"@
}

/// The complaint about a prompt that matches a pattern of the guard.
pub open spec fn guard_message(pattern: Seq<char>) -> Seq<char> {
    "request blocked: matched a prompt-guard pattern ('"@ + pattern + "')"@
}

/// The response to a prompt that matches a pattern of the guard.
pub open spec fn guard_reply(pattern: Seq<char>) -> ReplyModel {
    ReplyModel { status: 403, body: error_tree("prompt_guard_triggered"@, guard_message(pattern)) }
}

/// The complaint about personal data of the given kinds.
pub open spec fn pii_message(kinds: Seq<Seq<char>>) -> Seq<char> {
    "request blocked: detected PII ("@ + joined(kinds, ", "@) + ")"@
}

/// The kinds of findings.
pub open spec fn kinds_of(findings: Seq<(Seq<char>, Seq<char>)>) -> Seq<Seq<char>> {
    findings.map_values(|f: (Seq<char>, Seq<char>)| f.0)
}

/// The response to a text with the given findings of personal data.
pub open spec fn pii_reply(findings: Seq<(Seq<char>, Seq<char>)>) -> ReplyModel {
    ReplyModel { status: 400, body: error_tree("pii_detected"@, pii_message(kinds_of(findings))) }
}

/// Whether the screen for personal data is on and finds something in a text.
pub open spec fn is_flagged(
    security: SecurityConfig,
    table: Seq<(Seq<char>, Seq<char>)>,
    text: Seq<char>,
) -> bool {
    security.pii.enabled && table_findings(table, text).len() > 0
}

/// A request with the personal data in its text redacted.
pub open spec fn redacted_request(
    table: Seq<(Seq<char>, Seq<char>)>,
    body: Json,
    text: Seq<char>,
) -> AdmissionModel {
    let redacted = table_redacted(table, text).0;
    let rewritten = match with_last_user_text(body, redacted) {
        Some(tree) => tree,
        None => body,
    };
    AdmissionModel::Admitted {
        body: rewritten,
        query_text: redacted,
        streaming: wants_stream(rewritten),
    }
}

/// What the screen for personal data makes of a request with the given text.
pub open spec fn screened_for_pii(
    security: SecurityConfig,
    table: Seq<(Seq<char>, Seq<char>)>,
    body: Json,
    text: Seq<char>,
) -> AdmissionModel {
    if is_flagged(security, table, text) {
        match security.pii.action {
            PiiAction::Block => AdmissionModel::Answered(pii_reply(table_findings(table, text))),
            PiiAction::Redact => redacted_request(table, body, text),
        }
    } else {
        AdmissionModel::Admitted { body, query_text: text, streaming: wants_stream(body) }
    }
}

/// What the screens make of a request: without a text from the user it cannot
/// be served; then the prompt guard looks at the text, then the screen for
/// personal data.
pub open spec fn screened(
    security: SecurityConfig,
    patterns: Seq<Seq<char>>,
    table: Seq<(Seq<char>, Seq<char>)>,
    body: Json,
) -> AdmissionModel {
    match last_user_text(body) {
        None => AdmissionModel::Answered(internal_error_reply(no_user_text())),
        Some(text) => {
            let matched = first_match(patterns, lowercase(text));
            if security.prompt_guard.enabled && matched is Some {
                AdmissionModel::Answered(guard_reply(matched->Some_0))
            } else {
                screened_for_pii(security, table, body, text)
            }
        },
    }
}

/// The category that a response is labelled with.
pub open spec fn label_of(category: Option<Seq<char>>, default_name: Seq<char>) -> Seq<char> {
    match category {
        Some(name) => name,
        None => default_name,
    }
}

/// The backend that serves a category: its own, or the default one.
pub open spec fn target_for(
    backends: Map<Seq<char>, BackendTarget>,
    default_backend: BackendTarget,
    category: Option<Seq<char>>,
) -> BackendTarget {
    match category {
        Some(name) => if backends.contains_key(name) {
            backends[name]
        } else {
            default_backend
        },
        None => default_backend,
    }
}

/// A request on its way to a backend.
pub struct Dispatch {
    pub call: BackendCall,
    pub category: Option<String>,
    /// The category that the response is labelled with.
    pub category_label: String,
    pub score: Score,
    pub streaming: bool,
}

/// A response to a served request.
pub struct ChatAnswer {
    pub response: Value,
    pub category_label: String,
    pub score: Score,
    /// Where the response comes from: `hit` or `miss`.
    pub cache_status: &'static str,
}

/// The head of a streamed response.
pub struct StreamHead {
    pub content_type: String,
    pub category_label: String,
    pub score: Score,
    pub cache_status: &'static str,
}

/// A request that the cache has no answer to.
pub struct Missed {
    request: ChatRequest,
}

impl Missed {
    /// The request.
    pub closed spec fn request(&self) -> ChatRequest {
        self.request
    }
}

/// What the cache makes of a request.
pub enum Lookup {
    /// The cache has an answer.
    Answered(ChatAnswer),
    /// The request has to be routed.
    Missed(Missed),
}

impl Lookup {
    /// The answer, if there is one.
    pub open spec fn answer(&self) -> Option<ChatAnswer> {
        match self {
            Lookup::Answered(answer) => Some(*answer),
            Lookup::Missed(_) => None,
        }
    }
}

/// What handling a request needs to know.
pub struct AppState<E, W> {
    pub router: RoutingStrategy<E, W>,
    pub backends: Backends,
    pub default_backend: BackendTarget,
    pub default_backend_name: String,
    pub security: SecurityConfig,
    pub prompt_guard: PromptGuard,
    pub detectors: Vec<Detector>,
}

/// Whether a request asks for a stream.
fn asks_for_stream(body: &Value) -> (streaming: bool)
    ensures
        streaming == wants_stream(json_tree(*body)),
{
    match get(body, "stream") {
        Some(value) => match value.as_bool() {
            Some(b) => b,
            None => false,
        },
        None => false,
    }
}

/// The kinds of findings, separated by commas.
fn list_kinds(findings: &Vec<crate::pii::PiiFinding>) -> (list: String)
    ensures
        list@ == joined(kinds_of(found(findings@)), ", "@),
{
    let mut kinds: Vec<&str> = Vec::new();
    let mut i: usize = 0;
    while i < findings.len()
        invariant
            0 <= i <= findings.len(),
            kinds@.len() == i,
            forall|k: int| 0 <= k < i ==> (#[trigger] kinds@[k])@ == findings@[k].kind@,
        decreases findings.len() - i,
    {
        kinds.push(findings[i].kind);
        i = i + 1;
    }
    assert(kinds@.map_values(|s: &str| s@) =~= kinds_of(found(findings@)));
    join(&kinds, ", ")
}

impl<E, W> AppState<E, W> {
    /// Whether the detectors are those of the table.
    pub open spec fn well_formed(&self) -> bool {
        detector_rows(self.detectors@) == detector_table()
    }

    /// Whether an answer from the cache is the one that a request calls for: a
    /// request for a stream leaves the cache alone, any other is looked up.
    pub open spec fn is_recall<F: Fn(&E, &E) -> Score>(
        &self,
        request: ChatRequest,
        before: CacheModel<E>,
        after: CacheModel<E>,
        similarity: F,
        embedding: E,
        now: u128,
        answer: Option<ChatAnswer>,
    ) -> bool {
        if request.streaming {
            answer is None && after == before
        } else {
            exists|hit: Option<CacheHit>| #[trigger]
                is_lookup(before, after, similarity, embedding, now, hit) && match (hit, answer) {
                    (Some(h), Some(a)) => {
                        &&& json_tree(a.response) == json_tree(h.response)
                        &&& a.category_label@ == label_of(
                            option_text(h.category),
                            self.default_backend_name@,
                        )
                        &&& a.score == h.score
                        &&& a.cache_status@ == "hit"@
                    },
                    (None, None) => true,
                    _ => false,
                }
        }
    }

    /// Whether a dispatch is the one that a request and a decision call for: to
    /// the backend of the category, with the model rewritten.
    pub open spec fn is_dispatch(
        &self,
        request: ChatRequest,
        category: Option<Seq<char>>,
        score: Score,
        dispatch: Dispatch,
    ) -> bool {
        let target = target_for(self.backends@, self.default_backend, category);
        &&& dispatch.call.url@ == completions_url(target.base_url@)
        &&& dispatch.call.api_key == target.api_key
        &&& json_tree(dispatch.call.body) == with_model(json_tree(request.body), target.model@)
        &&& option_text(dispatch.category) == category
        &&& dispatch.category_label@ == label_of(category, self.default_backend_name@)
        &&& dispatch.score == score
        &&& dispatch.streaming == request.streaming
    }

    /// The state with the detectors for personal data compiled, where their
    /// patterns compile.
    pub fn new(
        router: RoutingStrategy<E, W>,
        backends: Backends,
        default_backend: BackendTarget,
        default_backend_name: String,
        security: SecurityConfig,
        prompt_guard: PromptGuard,
    ) -> (state: Option<Self>)
        ensures
            state is Some <==> crate::pii::all_compile(detector_table()),
            state matches Some(s) ==> {
                &&& s.well_formed()
                &&& s.router == router
                &&& s.backends == backends
                &&& s.default_backend == default_backend
                &&& s.default_backend_name == default_backend_name
                &&& s.security == security
                &&& s.prompt_guard == prompt_guard
            },
    {
        match detectors() {
            Some(detectors) => Some(
                AppState {
                    router,
                    backends,
                    default_backend,
                    default_backend_name,
                    security,
                    prompt_guard,
                    detectors,
                },
            ),
            None => None,
        }
    }

    /// Guards the prompt of a request.
    pub fn guard(&self, received: Received) -> (outcome: Result<Guarded, Reply>)
        ensures
            ({
                let matched = first_match(self.prompt_guard@, lowercase(received.text()));
                match outcome {
                    Ok(guarded) => {
                        &&& !(self.security.prompt_guard.enabled && matched is Some)
                        &&& guarded.body() == received.body()
                        &&& guarded.text() == received.text()
                    },
                    Err(reply) => {
                        &&& self.security.prompt_guard.enabled && matched is Some
                        &&& reply@ == guard_reply(matched->Some_0)
                    },
                }
            }),
    {
        if self.security.prompt_guard.enabled {
            if let Some(pattern) = self.prompt_guard.matched_pattern(received.text.as_str()) {
                let message = "request blocked: matched a prompt-guard pattern ('".to_string().concat(
                    pattern,
                ).concat("')");
                return Err(security_block_response(403, "prompt_guard_triggered", message));
            }
        }
        Ok(Guarded { body: received.body, text: received.text })
    }

    /// Screens a request: refuses it, or admits it with its personal data
    /// redacted where that is asked for.
    pub fn screen(&self, body: Value) -> (admission: Admission)
        requires
            self.well_formed(),
        ensures
            admission@ == screened(
                self.security,
                self.prompt_guard@,
                detector_table(),
                json_tree(body),
            ),
    {
        match receive(body) {
            Ok(received) => match self.guard(received) {
                Ok(guarded) => self.screen_for_pii(guarded),
                Err(reply) => Admission::Answered(reply),
            },
            Err(reply) => Admission::Answered(reply),
        }
    }

    /// Screens a guarded request for personal data.
    pub fn screen_for_pii(&self, guarded: Guarded) -> (admission: Admission)
        requires
            self.well_formed(),
        ensures
            admission@ == screened_for_pii(
                self.security,
                detector_table(),
                guarded.body(),
                guarded.text(),
            ),
    {
        match self.scan_for_pii(guarded) {
            PiiScan::Answered(reply) => Admission::Answered(reply),
            PiiScan::Clean(request) => Admission::Admitted(request),
            PiiScan::Flagged(flagged) => Admission::Admitted(self.redact_flagged(flagged)),
        }
    }

    /// Looks for personal data in a guarded request: refuses the request or
    /// flags it for redaction where there is some, as configured.
    pub fn scan_for_pii(&self, guarded: Guarded) -> (scan: PiiScan)
        requires
            self.well_formed(),
        ensures
            ({
                let flagged = is_flagged(self.security, detector_table(), guarded.text());
                match scan {
                    PiiScan::Answered(reply) => {
                        &&& flagged && self.security.pii.action == PiiAction::Block
                        &&& reply@ == pii_reply(table_findings(detector_table(), guarded.text()))
                    },
                    PiiScan::Clean(request) => {
                        &&& !flagged
                        &&& request@ == (AdmissionModel::Admitted {
                            body: guarded.body(),
                            query_text: guarded.text(),
                            streaming: wants_stream(guarded.body()),
                        })
                    },
                    PiiScan::Flagged(request) => {
                        &&& flagged && self.security.pii.action == PiiAction::Redact
                        &&& request.body() == guarded.body()
                        &&& request.text() == guarded.text()
                    },
                }
            }),
    {
        let Guarded { body, text } = guarded;
        if self.security.pii.enabled {
            let findings = scan_with(&self.detectors, text.as_str());
            assert(found(findings@).len() == findings@.len());
            if findings.len() > 0 {
                return match self.security.pii.action {
                    PiiAction::Block => {
                        let message = "request blocked: detected PII (".to_string().concat(
                            list_kinds(&findings).as_str(),
                        ).concat(")");
                        PiiScan::Answered(security_block_response(400, "pii_detected", message))
                    },
                    PiiAction::Redact => PiiScan::Flagged(Flagged { body, text }),
                };
            }
        }
        let streaming = asks_for_stream(&body);
        PiiScan::Clean(ChatRequest { body, query_text: text, streaming })
    }

    /// Redacts the personal data in a flagged request.
    pub fn redact_flagged(&self, flagged: Flagged) -> (request: ChatRequest)
        requires
            self.well_formed(),
        ensures
            request@ == redacted_request(detector_table(), flagged.body(), flagged.text()),
    {
        proof {
            lemma_table_kinds_are_plain();
        }
        let Flagged { body, text } = flagged;
        let mut body = body;
        let (redacted, _found) = redact_with(&self.detectors, text.as_str());
        let _ = set_last_user_message(&mut body, redacted.as_str());
        let streaming = asks_for_stream(&body);
        ChatRequest { body, query_text: redacted, streaming }
    }

    /// Looks a request up in the cache, unless it asks for a stream.
    pub fn recall<F: Fn(&E, &E) -> Score>(
        &self,
        cache: &mut SemanticCache<E>,
        request: ChatRequest,
        embedding: &E,
        now: u128,
        similarity: &F,
    ) -> (lookup: Lookup)
        requires
            forall|e: E| call_requires(*similarity, (embedding, &e)),
        ensures
            self.is_recall(
                request,
                old(cache)@,
                final(cache)@,
                *similarity,
                *embedding,
                now,
                lookup.answer(),
            ),
            lookup matches Lookup::Missed(missed) ==> missed.request() == request,
            old(cache)@.within_limit() ==> final(cache)@.within_limit(),
    {
        if request.streaming {
            return Lookup::Missed(Missed { request });
        }
        match cache.get(embedding, now, similarity) {
            Some(hit) => {
                let category_label = self.label(&hit.category);
                Lookup::Answered(
                    ChatAnswer {
                        response: hit.response,
                        category_label,
                        score: hit.score,
                        cache_status: "hit",
                    },
                )
            },
            None => Lookup::Missed(Missed { request }),
        }
    }

    /// Routes a request that the cache has no answer to.
    pub fn forward<F: Fn(&E, &E) -> Score, G: Fn(&Vec<Vec<W>>, &Vec<W>, &E) -> Vec<Reading>>(
        &self,
        missed: Missed,
        embedding: &E,
        similarity: &F,
        softmax: &G,
    ) -> (dispatch: Dispatch)
        requires
            self.router.can_route(),
            self.router.accepts(*similarity, *softmax, *embedding),
        ensures
            exists|category: Option<Seq<char>>, score: Score| #[trigger]
                self.router.is_routed(*similarity, *softmax, *embedding, category, score)
                    && self.is_dispatch(missed.request(), category, score, dispatch),
    {
        let decision = self.router.route(embedding, similarity, softmax);
        self.dispatch(missed.request, &decision)
    }

    /// The category that a response is labelled with.
    fn label(&self, category: &Option<String>) -> (label: String)
        ensures
            label@ == label_of(option_text(*category), self.default_backend_name@),
    {
        match category {
            Some(name) => name.clone(),
            None => self.default_backend_name.clone(),
        }
    }

    /// The backend that serves a category: its own, or the default one.
    pub fn target(&self, category: &Option<String>) -> (target: &BackendTarget)
        ensures
            *target == target_for(self.backends@, self.default_backend, option_text(*category)),
    {
        match category {
            Some(name) => match self.backends.get(name.as_str()) {
                Some(target) => target,
                None => &self.default_backend,
            },
            None => &self.default_backend,
        }
    }

    /// Sends a request on its way to the backend that a decision calls for.
    pub fn dispatch(&self, request: ChatRequest, decision: &RouteDecision) -> (dispatch: Dispatch)
        ensures
            self.is_dispatch(
                request,
                option_text(decision.category),
                decision.score,
                dispatch,
            ),
    {
        let target = self.target(&decision.category);
        let ChatRequest { body, query_text: _, streaming } = request;
        Dispatch {
            call: target.prepare(body),
            category: copy_option(&decision.category),
            category_label: self.label(&decision.category),
            score: decision.score,
            streaming,
        }
    }
}

/// The report on how a text is routed.
pub open spec fn route_tree(
    query: Seq<char>,
    category: Option<Seq<char>>,
    score: Json,
    model: Seq<char>,
) -> Json {
    Json::Object(
        map![
            "query"@ => Json::Text(query),
            "category"@ => match category {
                Some(name) => Json::Text(name),
                None => Json::Null,
            },
            "score"@ => score,
            "model"@ => Json::Text(model),
        ],
    )
}

impl<E, W> AppState<E, W> {
    /// Reports how a text is routed: the category, the score (as the given JSON
    /// value), and the model of the backend that would serve it.
    pub fn route_debug(&self, query: String, decision: &RouteDecision, score: Value) -> (report:
        Value)
        ensures
            json_tree(report) == route_tree(
                query@,
                option_text(decision.category),
                json_tree(score),
                target_for(
                    self.backends@,
                    self.default_backend,
                    option_text(decision.category),
                ).model@,
            ),
    {
        let category = match &decision.category {
            Some(name) => text_value(name.clone()),
            None => null_value(),
        };
        let model = self.target(&decision.category).model.clone();
        let mut report = serde_json::Map::new();
        let _ = report.insert("query".to_string(), text_value(query));
        let _ = report.insert("category".to_string(), category);
        let _ = report.insert("score".to_string(), score);
        let _ = report.insert("model".to_string(), text_value(model));
        proof {
            match route_tree(
                query@,
                option_text(decision.category),
                json_tree(score),
                model@,
            ) {
                Json::Object(entries) => assert(json_entries(report) =~= entries),
                _ => {},
            }
        }
        object_value(report)
    }
}

/// What becomes of an embedded request.
pub enum Progress {
    /// The cache has an answer.
    Answered(ChatAnswer),
    /// A backend has to be called.
    Forward(Dispatch),
}

impl<E, W> AppState<E, W> {
    /// Takes an embedded request as far as it goes without a backend: answers
    /// it from the cache, or else routes it.
    pub fn proceed<F: Fn(&E, &E) -> Score, G: Fn(&Vec<Vec<W>>, &Vec<W>, &E) -> Vec<Reading>>(
        &self,
        cache: &mut SemanticCache<E>,
        request: ChatRequest,
        embedding: &E,
        now: u128,
        similarity: &F,
        softmax: &G,
    ) -> (progress: Progress)
        requires
            self.router.can_route(),
            self.router.accepts(*similarity, *softmax, *embedding),
        ensures
            match progress {
                Progress::Answered(answer) => self.is_recall(
                    request,
                    old(cache)@,
                    final(cache)@,
                    *similarity,
                    *embedding,
                    now,
                    Some(answer),
                ),
                Progress::Forward(dispatch) => {
                    &&& self.is_recall(
                        request,
                        old(cache)@,
                        final(cache)@,
                        *similarity,
                        *embedding,
                        now,
                        None,
                    )
                    &&& exists|category: Option<Seq<char>>, score: Score| #[trigger]
                        self.router.is_routed(*similarity, *softmax, *embedding, category, score)
                            && self.is_dispatch(request, category, score, dispatch)
                },
            },
            old(cache)@.within_limit() ==> final(cache)@.within_limit(),
    {
        match self.recall(cache, request, embedding, now, similarity) {
            Lookup::Answered(answer) => Progress::Answered(answer),
            Lookup::Missed(missed) => Progress::Forward(
                self.forward(missed, embedding, similarity, softmax),
            ),
        }
    }
}

impl Dispatch {
    /// Takes the payload of the backend for the answer, and stores it.
    pub fn complete<E>(
        self,
        cache: &mut SemanticCache<E>,
        embedding: E,
        payload: Value,
        now: u128,
    ) -> (answer: ChatAnswer)
        requires
            !self.streaming,
        ensures
            final(cache)@ == old(cache)@.with_entry(
                CacheEntry {
                    embedding,
                    response: payload,
                    category: self.category,
                    inserted_at: now,
                },
            ),
            old(cache)@.within_limit() ==> final(cache)@.within_limit(),
            json_tree(answer.response) == json_tree(payload),
            answer.category_label == self.category_label,
            answer.score == self.score,
            answer.cache_status@ == "miss"@,
    {
        let response = payload.clone();
        cache.put(embedding, payload, self.category, now);
        ChatAnswer {
            response,
            category_label: self.category_label,
            score: self.score,
            cache_status: "miss",
        }
    }

    /// The head of a streamed response: whatever content type the backend has
    /// sent is passed on, and else server-sent events are taken for granted.
    pub fn stream_head(self, content_type: Option<String>) -> (head: StreamHead)
        ensures
            head.content_type@ == match content_type {
                Some(sent) => sent@,
                None => "text/event-stream"@,
            },
            head.category_label == self.category_label,
            head.score == self.score,
            head.cache_status@ == "bypassed"@,
    {
        StreamHead {
            content_type: match content_type {
                Some(sent) => sent,
                None => "text/event-stream".to_string(),
            },
            category_label: self.category_label,
            score: self.score,
            cache_status: "bypassed",
        }
    }
}

/// Whether a character may stand in a header value.
pub open spec fn is_header_char(c: char) -> bool {
    c == '\t' || ((c as int) >= 32 && (c as int) != 127)
}

/// Whether a text can be a header value.
pub open spec fn is_header_text(text: Seq<char>) -> bool {
    forall|i: int| 0 <= i < text.len() ==> is_header_char(#[trigger] text[i])
}

/// The header value for a text: the text itself, or `invalid`.
pub open spec fn header_text(text: Seq<char>) -> Seq<char> {
    if is_header_text(text) {
        text
    } else {
        "invalid"@
    }
}

/// `HeaderValue::from_str`: succeeds if and only if each byte of the text is a
/// tab or a byte from 32 on that is not 127, hence if and only if each
/// character is a tab or a character from 32 on that is not 127.
#[verifier::external_body]
fn fits_header(text: &str) -> (fits: bool)
    ensures
        fits == is_header_text(text@),
{
    HeaderValue::from_str(text).is_ok()
}

/// The header value for a text: the text itself, or `invalid`.
pub fn header_value(s: &str) -> (value: String)
    ensures
        value@ == header_text(s@),
        is_header_text(value@),
{
    if fits_header(s) {
        s.to_string()
    } else {
        proof {
            reveal_strlit("invalid");
        }
        "invalid".to_string()
    }
}

/// The headers that tell how a request was routed.
pub fn routing_headers(category: &str, score: &str, cache_status: &str) -> (headers: Vec<
    (&'static str, String),
>)
    ensures
        headers@.len() == 3,
        headers@[0].0@ == "x-router-category"@ && headers@[0].1@ == header_text(category@),
        headers@[1].0@ == "x-router-score"@ && headers@[1].1@ == header_text(score@),
        headers@[2].0@ == "x-router-cache"@ && headers@[2].1@ == header_text(cache_status@),
{
    let mut headers: Vec<(&'static str, String)> = Vec::new();
    headers.push(("x-router-category", header_value(category)));
    headers.push(("x-router-score", header_value(score)));
    headers.push(("x-router-cache", header_value(cache_status)));
    headers
}

} // verus!
