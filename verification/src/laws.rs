//! What holds of the handling of requests as a whole.
use crate::cache::{
    entries_rated, fresh_entries, is_answer, is_fresh, is_lookup, law_hit_is_a_stored_response,
    law_lookup_rates_every_live_entry, law_stored_response_is_found, stored, CacheEntry, CacheHit, CacheModel,
};
use crate::config::{PiiAction, SecurityConfig};
use crate::json::{json_tree, member, Json};
use crate::pii::{law_redaction_acts_where_scan_finds, table_findings, table_redacted};
use crate::prompt_guard::{
    first_match, law_every_pattern_is_honoured, law_match_is_the_first_occurring_pattern,
};
use crate::proxy::{completions_url, with_model, BackendTarget};
use crate::score::Score;
use crate::server::{
    error_tree, guard_message, header_text, is_from_user, is_header_char, is_header_text, kinds_of,
    label_of, last_user_index, last_user_text, messages_of, no_user_text, pii_message, route_tree,
    screened, target_for, wants_stream, with_last_user_text, with_member, Admission,
    AdmissionModel, AppState, ChatAnswer, ChatRequest, Dispatch, Lookup, Reply, ReplyModel,
};
use crate::text::{joined, lowercase, occurs, option_text};
use vstd::prelude::*;

verus! {

proof fn lemma_keys_differ()
    ensures
        "role"@ != "content"@,
        "messages"@ != "model"@,
        "messages"@ != "stream"@,
        "model"@ != "stream"@,
        "type"@ != "message"@,
{
    reveal_strlit("role");
    reveal_strlit("content");
    reveal_strlit("messages");
    reveal_strlit("model");
    reveal_strlit("stream");
    reveal_strlit("type");
    reveal_strlit("message");
    assert("role"@.len() != "content"@.len());
    assert("messages"@.len() != "model"@.len());
    assert("messages"@.len() != "stream"@.len());
    assert("model"@.len() != "stream"@.len());
    assert("type"@.len() != "message"@.len());
}

/// The last message from the user is from the user, and none after it is.
pub proof fn law_last_user_message_is_the_last(messages: Seq<Json>)
    ensures
        match last_user_index(messages) {
            Some(i) => {
                &&& 0 <= i < messages.len()
                &&& is_from_user(messages[i])
                &&& forall|j: int| i < j < messages.len() ==> !is_from_user(#[trigger] messages[j])
            },
            None => forall|j: int| 0 <= j < messages.len() ==> !is_from_user(#[trigger] messages[j]),
        },
    decreases messages.len(),
{
    if messages.len() > 0 && !is_from_user(messages.last()) {
        law_last_user_message_is_the_last(messages.drop_last());
        assert(forall|j: int|
            0 <= j < messages.len() - 1 ==> messages.drop_last()[j] == messages[j]);
    }
}

proof fn lemma_last_user_index_is(messages: Seq<Json>, i: int)
    requires
        0 <= i < messages.len(),
        is_from_user(messages[i]),
        forall|j: int| i < j < messages.len() ==> !is_from_user(#[trigger] messages[j]),
    ensures
        last_user_index(messages) == Some(i),
{
    law_last_user_message_is_the_last(messages);
    assert(is_from_user(messages[i]));
}

/// A text written into a request is what is read from it; and wherever a text
/// can be read, one can be written.
pub proof fn law_written_text_is_read_back(body: Json, text: Seq<char>)
    ensures
        with_last_user_text(body, text) matches Some(new) ==> last_user_text(new) == Some(text),
        last_user_text(body) is Some ==> with_last_user_text(body, text) is Some,
{
    if with_last_user_text(body, text) is Some {
        lemma_keys_differ();
        let messages = messages_of(body)->Some_0;
        let i = last_user_index(messages)->Some_0;
        law_last_user_message_is_the_last(messages);
        let new = with_member(messages[i], "content"@, Json::Text(text));
        let rewritten = messages.update(i, new);
        assert(messages_of(with_last_user_text(body, text)->Some_0) == Some(rewritten));
        assert(is_from_user(rewritten[i]));
        assert forall|j: int| i < j < rewritten.len() implies !is_from_user(
            #[trigger] rewritten[j],
        ) by {
            assert(rewritten[j] == messages[j]);
        }
        lemma_last_user_index_is(rewritten, i);
    }
}

/// Overwriting the text of a request changes the content of the last message
/// from the user and nothing else.
pub proof fn law_only_the_last_content_changes(body: Json, text: Seq<char>)
    requires
        with_last_user_text(body, text) is Some,
    ensures
        ({
            let new = with_last_user_text(body, text)->Some_0;
            &&& forall|key: Seq<char>| key != "messages"@ ==> member(new, key) == member(body, key)
            &&& messages_of(new) is Some
            &&& exists|i: int|
                0 <= i < messages_of(body)->Some_0.len() && {
                    &&& last_user_index(messages_of(body)->Some_0) == Some(i)
                    &&& is_from_user(#[trigger] messages_of(body)->Some_0[i])
                    &&& messages_of(new)->Some_0 == messages_of(body)->Some_0.update(
                        i,
                        messages_of(new)->Some_0[i],
                    )
                    &&& member(messages_of(new)->Some_0[i], "content"@) == Some(Json::Text(text))
                    &&& forall|key: Seq<char>|
                        key != "content"@ ==> member(messages_of(new)->Some_0[i], key) == member(
                            messages_of(body)->Some_0[i],
                            key,
                        )
                }
        }),
{
    let messages = messages_of(body)->Some_0;
    let i = last_user_index(messages)->Some_0;
    law_last_user_message_is_the_last(messages);
    let new = with_member(messages[i], "content"@, Json::Text(text));
    let rewritten = with_last_user_text(body, text)->Some_0;
    assert(messages_of(rewritten) == Some(messages.update(i, new)));
    assert(messages_of(rewritten)->Some_0[i] == new);
    assert(is_from_user(messages[i]));
    assert(messages_of(rewritten)->Some_0 =~= messages.update(
        i,
        messages_of(rewritten)->Some_0[i],
    ));
}

/// Overwriting fails exactly where there is no message from the user, or the
/// last one has no content: an earlier message is never touched in its stead.
pub proof fn law_no_earlier_message_is_overwritten(body: Json, text: Seq<char>)
    ensures
        with_last_user_text(body, text) is None <==> (messages_of(body) matches Some(messages)
            ==> (last_user_index(messages) matches Some(i) ==> member(messages[i], "content"@) is None)),
{
}

/// Naming the backend's model changes nothing else in a request: neither the
/// text from the user, nor whether a stream is wanted, nor any other member.
pub proof fn law_model_leaves_the_rest(body: Json, model: Seq<char>)
    ensures
        last_user_text(with_model(body, model)) == last_user_text(body),
        wants_stream(with_model(body, model)) == wants_stream(body),
        body is Object ==> member(with_model(body, model), "model"@) == Some(Json::Text(model)),
        forall|key: Seq<char>|
            key != "model"@ ==> #[trigger] member(with_model(body, model), key) == member(body, key),
{
    lemma_keys_differ();
    assert(member(with_model(body, model), "messages"@) == member(body, "messages"@));
    assert(member(with_model(body, model), "stream"@) == member(body, "stream"@));
}

/// What is embedded is what is forwarded: the text of an admitted request is
/// the text from the user in its body, whatever the screens have rewritten, and
/// it streams if its body asks for a stream.
pub proof fn law_embedded_text_is_forwarded(
    security: SecurityConfig,
    patterns: Seq<Seq<char>>,
    table: Seq<(Seq<char>, Seq<char>)>,
    body: Json,
    model: Seq<char>,
)
    ensures
        screened(security, patterns, table, body) matches AdmissionModel::Admitted {
            body: admitted,
            query_text,
            streaming,
        } ==> {
            &&& last_user_text(admitted) == Some(query_text)
            &&& last_user_text(with_model(admitted, model)) == Some(query_text)
            &&& streaming == wants_stream(admitted)
            &&& streaming == wants_stream(body)
            &&& wants_stream(with_model(admitted, model)) == streaming
        },
{
    if let Some(text) = last_user_text(body) {
        let redacted = table_redacted(table, text).0;
        law_written_text_is_read_back(body, redacted);
        law_only_the_last_content_changes(body, redacted);
        lemma_keys_differ();
        let rewritten = with_last_user_text(body, redacted)->Some_0;
        assert(member(rewritten, "stream"@) == member(body, "stream"@));
        law_model_leaves_the_rest(body, model);
        law_model_leaves_the_rest(rewritten, model);
    }
}

/// A request without a text from the user is answered with an internal error,
/// whatever the screens are set to.
pub proof fn law_request_without_text_is_an_error(
    security: SecurityConfig,
    patterns: Seq<Seq<char>>,
    table: Seq<(Seq<char>, Seq<char>)>,
    body: Json,
)
    requires
        last_user_text(body) is None,
    ensures
        screened(security, patterns, table, body) matches AdmissionModel::Answered(reply)
            && reply.status == 500 && error_type(reply) == Some(Json::Text("internal_error"@)),
{
    lemma_error_members("internal_error"@, no_user_text());
}

/// The `type` of an error response.
pub open spec fn error_type(reply: ReplyModel) -> Option<Json> {
    match member(reply.body, "error"@) {
        Some(error) => member(error, "type"@),
        None => None,
    }
}

/// The `message` of an error response.
pub open spec fn error_message(reply: ReplyModel) -> Option<Json> {
    match member(reply.body, "error"@) {
        Some(error) => member(error, "message"@),
        None => None,
    }
}

proof fn lemma_error_members(kind: Seq<char>, message: Seq<char>)
    ensures
        forall|status: u16|
            error_type(ReplyModel { status, body: #[trigger] error_tree(kind, message) }) == Some(
                Json::Text(kind),
            ),
        forall|status: u16|
            error_message(ReplyModel { status, body: #[trigger] error_tree(kind, message) }) == Some(
                Json::Text(message),
            ),
{
    lemma_keys_differ();
}

/// A prompt that matches the enabled guard is refused with status 403, and the
/// response names the pattern, whatever else the text holds.
pub proof fn law_guarded_prompt_is_refused(
    security: SecurityConfig,
    patterns: Seq<Seq<char>>,
    table: Seq<(Seq<char>, Seq<char>)>,
    body: Json,
    text: Seq<char>,
)
    requires
        security.prompt_guard.enabled,
        last_user_text(body) == Some(text),
    ensures
        first_match(patterns, lowercase(text)) matches Some(pattern) ==> (screened(
            security,
            patterns,
            table,
            body,
        ) matches AdmissionModel::Answered(reply) && reply.status == 403 && error_type(reply)
            == Some(Json::Text("prompt_guard_triggered"@)) && error_message(reply) == Some(
            Json::Text(guard_message(pattern)),
        )),
{
    if let Some(pattern) = first_match(patterns, lowercase(text)) {
        lemma_error_members("prompt_guard_triggered"@, guard_message(pattern));
    }
}

/// In block mode, a text that passes the guard and holds personal data is
/// refused with status 400, and the response lists the kinds that were found.
pub proof fn law_personal_data_is_refused(
    security: SecurityConfig,
    patterns: Seq<Seq<char>>,
    table: Seq<(Seq<char>, Seq<char>)>,
    body: Json,
    text: Seq<char>,
)
    requires
        security.pii.enabled,
        security.pii.action == PiiAction::Block,
        last_user_text(body) == Some(text),
    ensures
        (!security.prompt_guard.enabled || first_match(patterns, lowercase(text)) is None)
            && table_findings(table, text).len() > 0 ==> (screened(security, patterns, table, body)
            matches AdmissionModel::Answered(reply) && reply.status == 400 && error_type(reply)
            == Some(Json::Text("pii_detected"@)) && error_message(reply) == Some(
            Json::Text(pii_message(kinds_of(table_findings(table, text)))),
        )),
{
    lemma_error_members("pii_detected"@, pii_message(kinds_of(table_findings(table, text))));
}

/// In redact mode, a text that passes the guard is never refused for the
/// personal data in it: the redacted text is embedded, and it stands in the
/// forwarded request in place of what the user wrote.
pub proof fn law_personal_data_is_redacted(
    security: SecurityConfig,
    patterns: Seq<Seq<char>>,
    table: Seq<(Seq<char>, Seq<char>)>,
    body: Json,
    text: Seq<char>,
)
    requires
        security.pii.enabled,
        security.pii.action == PiiAction::Redact,
        last_user_text(body) == Some(text),
    ensures
        (!security.prompt_guard.enabled || first_match(patterns, lowercase(text)) is None) ==> (
        screened(security, patterns, table, body) matches AdmissionModel::Admitted {
            body: admitted,
            query_text,
            ..
        } && query_text == table_redacted(table, text).0 && last_user_text(admitted) == Some(
            table_redacted(table, text).0,
        )),
{
    law_redaction_acts_where_scan_finds(table, text);
    law_embedded_text_is_forwarded(security, patterns, table, body, Seq::empty());
}

/// A text that the enabled screens find nothing in is served as it came.
pub proof fn law_clean_request_passes_unchanged(
    security: SecurityConfig,
    patterns: Seq<Seq<char>>,
    table: Seq<(Seq<char>, Seq<char>)>,
    body: Json,
    text: Seq<char>,
)
    requires
        last_user_text(body) == Some(text),
    ensures
        (!security.prompt_guard.enabled || first_match(patterns, lowercase(text)) is None) && (
        !security.pii.enabled || table_findings(table, text).len() == 0) ==> screened(
            security,
            patterns,
            table,
            body,
        ) == (AdmissionModel::Admitted { body, query_text: text, streaming: wants_stream(body) }),
{
}

/// Whoever is turned away gets an error object with a type and a message, and
/// a status that is not a success.
pub proof fn law_refusals_explain_themselves(
    security: SecurityConfig,
    patterns: Seq<Seq<char>>,
    table: Seq<(Seq<char>, Seq<char>)>,
    body: Json,
)
    ensures
        screened(security, patterns, table, body) matches AdmissionModel::Answered(reply) ==> {
            &&& reply.status == 400 || reply.status == 403 || reply.status == 500
            &&& error_type(reply) matches Some(Json::Text(_))
            &&& error_message(reply) matches Some(Json::Text(_))
        },
{
    lemma_error_members("internal_error"@, no_user_text());
    if let Some(text) = last_user_text(body) {
        if let Some(pattern) = first_match(patterns, lowercase(text)) {
            lemma_error_members("prompt_guard_triggered"@, guard_message(pattern));
        }
        lemma_error_members("pii_detected"@, pii_message(kinds_of(table_findings(table, text))));
    }
}

/// A request that is no stream changes the cache by what has expired alone,
/// whatever it is answered.
pub proof fn law_recall_only_expires<E, W, F: Fn(&E, &E) -> Score>(
    state: AppState<E, W>,
    request: ChatRequest,
    before: CacheModel<E>,
    after: CacheModel<E>,
    similarity: F,
    embedding: E,
    now: u128,
    answer: Option<ChatAnswer>,
)
    requires
        !request.streaming,
        state.is_recall(request, before, after, similarity, embedding, now, answer),
    ensures
        before.enabled ==> after == before.expired(now),
        !before.enabled ==> after == before && answer is None,
{
}

/// A request for a stream neither reads nor changes the cache.
pub proof fn law_streams_bypass_the_cache<E, W, F: Fn(&E, &E) -> Score>(
    state: AppState<E, W>,
    request: ChatRequest,
    before: CacheModel<E>,
    after: CacheModel<E>,
    similarity: F,
    embedding: E,
    now: u128,
    answer: Option<ChatAnswer>,
)
    requires
        request.streaming,
        state.is_recall(request, before, after, similarity, embedding, now, answer),
    ensures
        answer is None,
        after == before,
{
}

/// A request for a stream is sent as any other is: to the same address, with the
/// same key and the same body.
pub proof fn law_streams_are_sent_like_completions<E, W>(
    state: AppState<E, W>,
    stream: ChatRequest,
    completion: ChatRequest,
    category: Option<Seq<char>>,
    score: Score,
    streamed: Dispatch,
    completed: Dispatch,
)
    requires
        json_tree(stream.body) == json_tree(completion.body),
        state.is_dispatch(stream, category, score, streamed),
        state.is_dispatch(completion, category, score, completed),
    ensures
        streamed.call.url@ == completed.call.url@,
        streamed.call.api_key == completed.call.api_key,
        json_tree(streamed.call.body) == json_tree(completed.call.body),
{
}

/// A near-duplicate gets the stored response instead of a call to the backend:
/// while what was stored last is alive, a request that it is rated highest for,
/// at the threshold or above, is answered with it and labelled with its
/// category.
pub proof fn law_near_duplicate_gets_the_stored_response<E, W, F: Fn(&E, &E) -> Score>(
    state: AppState<E, W>,
    request: ChatRequest,
    before: CacheModel<E>,
    entry: CacheEntry<E>,
    after: CacheModel<E>,
    similarity: F,
    embedding: E,
    now: u128,
    answer: Option<ChatAnswer>,
)
    requires
        before.enabled,
        !request.streaming,
        is_fresh(entry, now, before.ttl_seconds),
        state.is_recall(
            request,
            before.with_entry(entry),
            after,
            similarity,
            embedding,
            now,
            answer,
        ),
        forall|scores: Seq<Score>| #[trigger]
            entries_rated(similarity, embedding, after.entries, scores) ==> {
                &&& !scores[0].is_nan()
                &&& scores.last().reaches(before.similarity_threshold)
                &&& forall|j: int|
                    0 <= j < scores.len() - 1 ==> scores.last().exceeds(#[trigger] scores[j])
            },
    ensures
        answer is Some,
        json_tree(answer->Some_0.response) == json_tree(entry.response),
        answer->Some_0.category_label@ == label_of(
            option_text(entry.category),
            state.default_backend_name@,
        ),
        answer->Some_0.cache_status@ == "hit"@,
{
    let kept = fresh_entries(
        stored(before.entries, entry, before.max_entries),
        now,
        before.ttl_seconds,
    );
    assert(after.entries == kept);
    let hit = choose|hit: Option<CacheHit>| #[trigger]
        is_lookup(
            before.with_entry(entry),
            after,
            similarity,
            embedding,
            now,
            hit,
        ) && match (hit, answer) {
            (Some(h), Some(a)) => {
                &&& json_tree(a.response) == json_tree(h.response)
                &&& a.category_label@ == label_of(
                    option_text(h.category),
                    state.default_backend_name@,
                )
                &&& a.score == h.score
                &&& a.cache_status@ == "hit"@
            },
            (None, None) => true,
            _ => false,
        };
    let scores = choose|scores: Seq<Score>| #[trigger]
        entries_rated(similarity, embedding, after.entries, scores) && is_answer(
            hit,
            after.entries,
            scores,
            after.similarity_threshold,
        );
    law_stored_response_is_found(before, entry, now, scores, hit);
}

/// Whether the message of that number is the last one whose role is `user`.
pub open spec fn is_last_with_role_user(messages: Seq<Json>, i: int) -> bool {
    &&& 0 <= i < messages.len()
    &&& member(messages[i], "role"@) == Some(Json::Text("user"@))
    &&& forall|j: int|
        i < j < messages.len() ==> member(#[trigger] messages[j], "role"@) != Some(
            Json::Text("user"@),
        )
}

/// The text of a request is the content of the last message whose role is
/// `user`, where that is a text: no message of another role is read, and none
/// before.
pub proof fn law_text_is_read_from_the_last_user_message(body: Json, text: Seq<char>)
    ensures
        last_user_text(body) == Some(text) <==> exists|messages: Seq<Json>, i: int|
            member(body, "messages"@) == Some(Json::Array(messages)) && #[trigger]
            is_last_with_role_user(messages, i) && member(messages[i], "content"@) == Some(
                Json::Text(text),
            ),
{
    if last_user_text(body) == Some(text) {
        let messages = messages_of(body)->Some_0;
        law_last_user_message_is_the_last(messages);
        let i = last_user_index(messages)->Some_0;
        assert forall|j: int| i < j < messages.len() implies member(
            #[trigger] messages[j],
            "role"@,
        ) != Some(Json::Text("user"@)) by {
            assert(!is_from_user(messages[j]));
        }
        assert(is_last_with_role_user(messages, i));
    }
    if exists|messages: Seq<Json>, i: int|
        member(body, "messages"@) == Some(Json::Array(messages)) && #[trigger]
        is_last_with_role_user(messages, i) && member(messages[i], "content"@) == Some(
            Json::Text(text),
        ) {
        let (messages, i) = choose|messages: Seq<Json>, i: int|
            member(body, "messages"@) == Some(Json::Array(messages)) && #[trigger]
            is_last_with_role_user(messages, i) && member(messages[i], "content"@) == Some(
                Json::Text(text),
            );
        lemma_last_user_index_is(messages, i);
    }
}

/// Overwriting succeeds exactly where there is a message whose role is `user`
/// and the last such message has a content; it then gives that content the new
/// text, and keeps every other member of that message, every other message, and
/// every other member of the request.
pub proof fn law_overwriting_changes_one_content(body: Json, text: Seq<char>)
    ensures
        with_last_user_text(body, text) is Some <==> exists|messages: Seq<Json>, i: int|
            member(body, "messages"@) == Some(Json::Array(messages)) && #[trigger]
            is_last_with_role_user(messages, i) && member(messages[i], "content"@) is Some,
        with_last_user_text(body, text) matches Some(new) ==> differs_in_last_content(
            body,
            new,
            text,
        ),
{
    if with_last_user_text(body, text) is Some {
        let messages = messages_of(body)->Some_0;
        law_last_user_message_is_the_last(messages);
        let i = last_user_index(messages)->Some_0;
        assert forall|j: int| i < j < messages.len() implies member(
            #[trigger] messages[j],
            "role"@,
        ) != Some(Json::Text("user"@)) by {
            assert(!is_from_user(messages[j]));
        }
        assert(is_last_with_role_user(messages, i));
        let new = with_last_user_text(body, text)->Some_0;
        let after = messages.update(i, with_member(messages[i], "content"@, Json::Text(text)));
        assert(member(new, "messages"@) == Some(Json::Array(after)));
        assert(one_content_differs(messages, after, i, text));
    }
    if exists|messages: Seq<Json>, i: int|
        member(body, "messages"@) == Some(Json::Array(messages)) && #[trigger]
        is_last_with_role_user(messages, i) && member(messages[i], "content"@) is Some {
        let (messages, i) = choose|messages: Seq<Json>, i: int|
            member(body, "messages"@) == Some(Json::Array(messages)) && #[trigger]
            is_last_with_role_user(messages, i) && member(messages[i], "content"@) is Some;
        lemma_last_user_index_is(messages, i);
    }
}

/// Whether messages are the same but for the content of the last one whose role
/// is `user`, which is the given text.
pub open spec fn one_content_differs(
    before: Seq<Json>,
    after: Seq<Json>,
    i: int,
    text: Seq<char>,
) -> bool {
    &&& is_last_with_role_user(before, i)
    &&& after.len() == before.len()
    &&& forall|j: int| 0 <= j < before.len() && j != i ==> #[trigger] after[j] == before[j]
    &&& member(after[i], "content"@) == Some(Json::Text(text))
    &&& forall|key: Seq<char>|
        key != "content"@ ==> #[trigger] member(after[i], key) == member(before[i], key)
}

/// Whether requests are the same but for the content of the last message whose
/// role is `user`, which is the given text.
pub open spec fn differs_in_last_content(before: Json, after: Json, text: Seq<char>) -> bool {
    &&& forall|key: Seq<char>|
        key != "messages"@ ==> #[trigger] member(after, key) == member(before, key)
    &&& exists|old_messages: Seq<Json>, new_messages: Seq<Json>, i: int|
        member(before, "messages"@) == Some(Json::Array(old_messages)) && member(
            after,
            "messages"@,
        ) == Some(Json::Array(new_messages)) && #[trigger] one_content_differs(
            old_messages,
            new_messages,
            i,
            text,
        )
}

/// The screens keep the conversation: an admitted request differs from the
/// received one in the content of the last message whose role is `user` alone,
/// and that content is the text that is embedded. Where nothing is redacted it
/// does not differ at all.
pub proof fn law_admitted_request_keeps_the_conversation(
    security: SecurityConfig,
    patterns: Seq<Seq<char>>,
    table: Seq<(Seq<char>, Seq<char>)>,
    body: Json,
)
    ensures
        screened(security, patterns, table, body) matches AdmissionModel::Admitted {
            body: admitted,
            query_text,
            ..
        } ==> {
            &&& differs_in_last_content(body, admitted, query_text)
            &&& last_user_text(body) matches Some(text) && (query_text == text && admitted == body
                || security.pii.enabled && security.pii.action == PiiAction::Redact
                && table_findings(table, text).len() > 0 && query_text == table_redacted(
                table,
                text,
            ).0)
        },
{
    if let Some(text) = last_user_text(body) {
        let redacted = table_redacted(table, text).0;
        law_written_text_is_read_back(body, redacted);
        law_overwriting_changes_one_content(body, redacted);
        law_text_is_read_from_the_last_user_message(body, text);
        let (messages, i) = choose|messages: Seq<Json>, i: int|
            member(body, "messages"@) == Some(Json::Array(messages)) && #[trigger]
            is_last_with_role_user(messages, i) && member(messages[i], "content"@) == Some(
                Json::Text(text),
            );
        assert(one_content_differs(messages, messages, i, text));
        assert(differs_in_last_content(body, body, text));
    }
}

/// An admitted request is streamed exactly where the member `stream` of the
/// received request, which is that of the admitted one, is the truth value
/// `true`: not where it is `false`, where it is something else, or where there is
/// none.
pub proof fn law_only_stream_true_is_streamed(
    security: SecurityConfig,
    patterns: Seq<Seq<char>>,
    table: Seq<(Seq<char>, Seq<char>)>,
    body: Json,
)
    ensures
        screened(security, patterns, table, body) matches AdmissionModel::Admitted {
            body: admitted,
            streaming,
            ..
        } ==> {
            &&& streaming <==> member(body, "stream"@) == Some(Json::Bool(true))
            &&& streaming <==> member(admitted, "stream"@) == Some(Json::Bool(true))
        },
{
    lemma_keys_differ();
    law_admitted_request_keeps_the_conversation(security, patterns, table, body);
}

/// A prompt is refused by the guard, or let through to the screen for personal
/// data, by whether one of the guard's patterns occurs in its lower-case form.
pub proof fn law_guard_refuses_where_a_pattern_occurs(
    security: SecurityConfig,
    patterns: Seq<Seq<char>>,
    table: Seq<(Seq<char>, Seq<char>)>,
    body: Json,
    text: Seq<char>,
)
    requires
        last_user_text(body) == Some(text),
    ensures
        (screened(security, patterns, table, body) matches AdmissionModel::Answered(reply)
            && error_type(reply) == Some(Json::Text("prompt_guard_triggered"@)))
            <==> security.prompt_guard.enabled && exists|i: int|
            0 <= i < patterns.len() && occurs(#[trigger] patterns[i], lowercase(text)),
{
    let lower = lowercase(text);
    lemma_error_members("internal_error"@, no_user_text());
    lemma_error_members("pii_detected"@, pii_message(kinds_of(table_findings(table, text))));
    reveal_strlit("prompt_guard_triggered");
    reveal_strlit("pii_detected");
    assert("prompt_guard_triggered"@.len() != "pii_detected"@.len());
    law_match_is_the_first_occurring_pattern(patterns, lower);
    if let Some(p) = first_match(patterns, lower) {
        lemma_error_members("prompt_guard_triggered"@, guard_message(p));
        let i = choose|i: int| 0 <= i < patterns.len() && #[trigger] patterns[i] == p && occurs(p, lower);
        assert(occurs(patterns[i], lower));
    }
    if exists|i: int| 0 <= i < patterns.len() && occurs(#[trigger] patterns[i], lower) {
        let i = choose|i: int| 0 <= i < patterns.len() && occurs(#[trigger] patterns[i], lower);
        law_every_pattern_is_honoured(patterns, lower, i);
    }
}

/// The complaints of the screens say what was found: the pattern, or the kind of
/// each finding, in order.
pub proof fn law_complaints_say_what_was_found(
    pattern: Seq<char>,
    kinds: Seq<Seq<char>>,
    findings: Seq<(Seq<char>, Seq<char>)>,
)
    ensures
        guard_message(pattern) == "request blocked: matched a prompt-guard pattern ('"@ + pattern
            + "')"@,
        pii_message(kinds) == "request blocked: detected PII ("@ + joined(kinds, ", "@) + ")"@,
        no_user_text() == "request must include a message with role 'user' and string content"@,
        kinds_of(findings).len() == findings.len(),
        forall|i: int| 0 <= i < findings.len() ==> #[trigger] kinds_of(findings)[i] == findings[i].0,
{
}

/// An error response has one member, `error`, and that has two: the `type` and
/// the `message` as they were given.
pub proof fn law_error_body_holds_type_and_message(kind: Seq<char>, message: Seq<char>)
    ensures
        member(error_tree(kind, message), "error"@) matches Some(error) && {
            &&& member(error, "type"@) == Some(Json::Text(kind))
            &&& member(error, "message"@) == Some(Json::Text(message))
            &&& forall|key: Seq<char>|
                key != "type"@ && key != "message"@ ==> #[trigger] member(error, key) is None
        },
        forall|key: Seq<char>|
            key != "error"@ ==> #[trigger] member(error_tree(kind, message), key) is None,
{
    lemma_keys_differ();
}

/// A request goes to the backend of its category, and to the default one where
/// it has none or its category has no backend: to that address, with that key,
/// and with nothing but the model rewritten. The response is labelled with the
/// category, or with the name of the default.
pub proof fn law_request_goes_to_the_backend_of_its_category<E, W>(
    state: AppState<E, W>,
    request: ChatRequest,
    category: Option<Seq<char>>,
    score: Score,
    dispatch: Dispatch,
    target: BackendTarget,
)
    requires
        state.is_dispatch(request, category, score, dispatch),
        match category {
            Some(name) => if state.backends@.contains_key(name) {
                target == state.backends@[name]
            } else {
                target == state.default_backend
            },
            None => target == state.default_backend,
        },
    ensures
        dispatch.call.url@ == completions_url(target.base_url@),
        dispatch.call.api_key == target.api_key,
        json_tree(request.body) is Object ==> {
            &&& json_tree(dispatch.call.body) is Object
            &&& member(json_tree(dispatch.call.body), "model"@) == Some(Json::Text(target.model@))
            &&& forall|key: Seq<char>|
                key != "model"@ ==> #[trigger] member(json_tree(dispatch.call.body), key) == member(
                    json_tree(request.body),
                    key,
                )
        },
        !(json_tree(request.body) is Object) ==> json_tree(dispatch.call.body) == json_tree(
            request.body,
        ),
        category matches Some(name) ==> dispatch.category_label@ == name,
        category is None ==> dispatch.category_label@ == state.default_backend_name@,
        option_text(dispatch.category) == category,
        dispatch.score == score,
        dispatch.streaming == request.streaming,
{
}

/// An answer from the cache is a stored response: there is an entry younger than
/// the time to live that it repeats, for whose embedding the similarity answers
/// the score of the answer, at the threshold or above; and it is labelled with
/// the category of that entry, or with the name of the default.
pub proof fn law_answer_repeats_a_live_entry<E, W, F: Fn(&E, &E) -> Score>(
    state: AppState<E, W>,
    request: ChatRequest,
    before: CacheModel<E>,
    after: CacheModel<E>,
    similarity: F,
    embedding: E,
    now: u128,
    answer: ChatAnswer,
)
    requires
        state.is_recall(request, before, after, similarity, embedding, now, Some(answer)),
    ensures
        !request.streaming,
        before.enabled,
        answer.score.reaches(before.similarity_threshold),
        answer.cache_status@ == "hit"@,
        exists|k: int|
            0 <= k < before.entries.len() && {
                &&& call_ensures(
                    similarity,
                    (&embedding, &(#[trigger] before.entries[k]).embedding),
                    answer.score,
                )
                &&& now < before.entries[k].inserted_at + before.ttl_seconds * 1_000_000_000
                &&& json_tree(answer.response) == json_tree(before.entries[k].response)
                &&& before.entries[k].category matches Some(name) ==> answer.category_label@ == name@
                &&& before.entries[k].category is None ==> answer.category_label@
                    == state.default_backend_name@
            },
{
    let hit = choose|hit: Option<CacheHit>| #[trigger]
        is_lookup(before, after, similarity, embedding, now, hit) && hit is Some && json_tree(
            answer.response,
        ) == json_tree(hit->Some_0.response) && answer.category_label@ == label_of(
            option_text(hit->Some_0.category),
            state.default_backend_name@,
        ) && answer.score == hit->Some_0.score;
    law_hit_is_a_stored_response(before, after, similarity, embedding, now, hit->Some_0);
    let h = hit->Some_0;
    let k = choose|k: int|
        0 <= k < before.entries.len() && call_ensures(
            similarity,
            (&embedding, &(#[trigger] before.entries[k]).embedding),
            h.score,
        ) && now < before.entries[k].inserted_at + before.ttl_seconds * 1_000_000_000 && h.category
            == before.entries[k].category && json_tree(h.response) == json_tree(
            before.entries[k].response,
        );
    assert(call_ensures(similarity, (&embedding, &before.entries[k].embedding), answer.score));
}

/// A request that is no stream goes on to a backend only where no live entry of
/// an enabled cache is rated at the threshold or above, if the similarity never
/// answers NaN; and looking it up drops what is too old, and no more.
pub proof fn law_request_is_forwarded_where_nothing_is_close<E, W, F: Fn(&E, &E) -> Score>(
    state: AppState<E, W>,
    request: ChatRequest,
    before: CacheModel<E>,
    after: CacheModel<E>,
    similarity: F,
    embedding: E,
    now: u128,
    k: int,
)
    requires
        !request.streaming,
        state.is_recall(request, before, after, similarity, embedding, now, None),
        before.enabled,
        0 <= k < before.entries.len(),
        now < before.entries[k].inserted_at + before.ttl_seconds * 1_000_000_000,
        before.ttl_seconds > 0,
        forall|e: E, s: Score| call_ensures(similarity, (&embedding, &e), s) ==> !s.is_nan(),
    ensures
        exists|s: Score| #[trigger]
            call_ensures(similarity, (&embedding, &before.entries[k].embedding), s) && !s.reaches(
                before.similarity_threshold,
            ),
        after == before.expired(now),
{
    law_lookup_rates_every_live_entry(before, after, similarity, embedding, now, None, k);
}

/// The report on a text holds four members: the text, the category or `null`,
/// the score, and the model.
pub proof fn law_report_holds_the_decision(
    query: Seq<char>,
    category: Option<Seq<char>>,
    score: Json,
    model: Seq<char>,
)
    ensures
        member(route_tree(query, category, score, model), "query"@) == Some(Json::Text(query)),
        member(route_tree(query, category, score, model), "score"@) == Some(score),
        member(route_tree(query, category, score, model), "model"@) == Some(Json::Text(model)),
        category matches Some(name) ==> member(
            route_tree(query, category, score, model),
            "category"@,
        ) == Some(Json::Text(name)),
        category is None ==> member(route_tree(query, category, score, model), "category"@) == Some(
            Json::Null,
        ),
{
    reveal_strlit("query");
    reveal_strlit("category");
    reveal_strlit("score");
    reveal_strlit("model");
    assert("category"@.len() == 8);
    assert("query"@[0] == 'q' && "score"@[0] == 's' && "model"@[0] == 'm');
}

/// The model of the backend that serves a category is reported: that of its own
/// backend, or of the default one. A label is the category, or the name of the
/// default.
pub proof fn law_categories_without_backend_fall_back(
    backends: Map<Seq<char>, BackendTarget>,
    default_backend: BackendTarget,
    name: Seq<char>,
    default_name: Seq<char>,
)
    ensures
        backends.contains_key(name) ==> target_for(backends, default_backend, Some(name))
            == backends[name],
        !backends.contains_key(name) ==> target_for(backends, default_backend, Some(name))
            == default_backend,
        target_for(backends, default_backend, None) == default_backend,
        label_of(Some(name), default_name) == name,
        label_of(None, default_name) == default_name,
{
}

/// A header value is the text itself exactly where it holds no control character
/// but tabs, and else the word `invalid`.
pub proof fn law_header_keeps_printable_text(text: Seq<char>)
    ensures
        (forall|i: int|
            0 <= i < text.len() ==> {
                let code = (#[trigger] text[i]) as int;
                code == 9 || (code >= 32 && code != 127)
            }) ==> header_text(text) == text,
        (exists|i: int|
            0 <= i < text.len() && {
                let code = (#[trigger] text[i]) as int;
                code == 127 || (code < 32 && code != 9)
            }) ==> header_text(text) == "invalid"@,
{
    if is_header_text(text) {
        assert(forall|i: int| 0 <= i < text.len() ==> is_header_char(#[trigger] text[i]));
    } else {
        let i = choose|i: int| 0 <= i < text.len() && !is_header_char(#[trigger] text[i]);
        assert(text[i] != '\t');
    }
}

/// Views leave nothing out.
pub proof fn law_views_leave_nothing_out(
    reply: Reply,
    request: ChatRequest,
    answer: ChatAnswer,
)
    ensures
        reply@.status == reply.status && reply@.body == json_tree(reply.body),
        request@ == (AdmissionModel::Admitted {
            body: json_tree(request.body),
            query_text: request.query_text@,
            streaming: request.streaming,
        }),
        Admission::Answered(reply)@ == AdmissionModel::Answered(reply@),
        Admission::Admitted(request)@ == request@,
        Lookup::Answered(answer).answer() == Some(answer),
{
}

} // verus!
