//! Messages that the container itself writes into the widget-API stream.

use vstd::prelude::*;
use crate::json::{
    JsonValue, json_text, parse_json, parsed_json, write_json, has_key, json_wf, keys_unique, is_first_key_index, json_get, lemma_first_key_index_exists,
    lemma_first_key_index_unique, member,
};

verus! {

/// Why a message could not be answered.
#[derive(Debug)]
pub enum MessageError {
    /// The message is no JSON text.
    NotJson,
    /// The message is no JSON object, so it has no place for a response.
    NotAnObject,
}

/// The key under which a widget-API reply carries its response.
pub open spec fn response_key() -> Seq<char> {
    seq!['r', 'e', 's', 'p', 'o', 'n', 's', 'e']
}

fn response_key_string() -> (s: String)
    ensures
        s@ == response_key(),
{
    let mut s = String::new();
    s.append("response");
    proof { reveal_strlit("response"); }
    s
}

/// `after` are the members of the reply to a request with the members
/// `before`, whose response is `res`: the first member named `response` takes
/// the value `res` in its place, or, where there is none, such a member is
/// added at the end.
pub open spec fn is_reply_entries(
    before: Seq<(String, JsonValue)>,
    res: JsonValue,
    after: Seq<(String, JsonValue)>,
) -> bool {
    if has_key(before, response_key()) {
        forall|i: int| is_first_key_index(before, response_key(), i)
            ==> after == before.update(i, (before[i].0, res))
    } else {
        &&& after.len() == before.len() + 1
        &&& after.drop_last() == before
        &&& after.last().0@ == response_key()
        &&& after.last().1 == res
    }
}

/// Turns a widget-API request into its reply by setting the member
/// `response` to `res_val`: a member of that name already there gets the new
/// value in its place, else the member is added at the end.
pub fn add_response_value(msg: JsonValue, res_val: JsonValue) -> (r: Result<JsonValue, MessageError>)
    ensures
        !(msg is Object) ==> r == Err::<JsonValue, MessageError>(MessageError::NotAnObject),
        msg matches JsonValue::Object(entries) ==> (r matches Ok(JsonValue::Object(reply))
            && is_reply_entries(entries@, res_val, reply@)),
        json_wf(msg) && json_wf(res_val) ==> (r matches Ok(reply) ==> json_wf(reply)),
{
    let ghost given = msg;
    let ghost res = res_val;
    match msg {
        JsonValue::Object(mut entries) => {
            let key = response_key_string();
            assert(given is Object && given->Object_0@ == entries@);
            let n = entries.len();
            let mut i: usize = 0;
            while i < n
                invariant
                    n == entries.len(),
                    i <= n,
                    given == msg,
                    res == res_val,
                    given is Object && given->Object_0@ == entries@,
                    key@ == response_key(),
                    forall|j: int| 0 <= j < i ==> #[trigger] entries@[j].0@ != response_key(),
                decreases n - i,
            {
                if entries[i].0 == key {
                    let existing = entries[i].0.clone();
                    let ghost before = entries@;
                    entries.set(i, (existing, res_val));
                    proof {
                        assert forall|k: int| is_first_key_index(before, response_key(), k) implies
                            entries@ == before.update(k, (before[k].0, res_val)) by {
                            assert(is_first_key_index(before, response_key(), i as int));
                            lemma_first_key_index_unique(before, response_key(), i as int, k);
                        }
                        assert(before[i as int].0@ == response_key());
                        assert(has_key(before, response_key()));
                        if json_wf(given) && json_wf(res) {
                            assert(keys_unique(entries@)) by {
                                assert forall|a: int, b: int| 0 <= a < b < entries@.len() implies
                                    #[trigger] entries@[a].0@ != #[trigger] entries@[b].0@ by {
                                    assert(before[a].0@ != before[b].0@);
                                }
                            }
                            assert forall|k: int| 0 <= k < entries@.len() implies
                                json_wf(#[trigger] entries@[k].1) by {
                                assert(given->Object_0@ == before);
                                if k != i {
                                    assert(entries@[k] == before[k]);
                                    assert(json_wf(before[k].1));
                                } else {
                                    assert(entries@[k].1 == res);
                                }
                            }
                            assert(json_wf(JsonValue::Object(entries)));
                        }
                    }
                    return Ok(JsonValue::Object(entries));
                }
                i = i + 1;
            }
            let ghost before = entries@;
            entries.push((key, res_val));
            proof {
                assert(entries@.drop_last() =~= before);
                assert(!has_key(before, response_key()));
                if json_wf(given) && json_wf(res) {
                    let last = before.len() as int;
                    assert(entries@[last].0@ == response_key());
                    assert(keys_unique(entries@)) by {
                        assert forall|a: int, b: int| 0 <= a < b < entries@.len() implies
                            #[trigger] entries@[a].0@ != #[trigger] entries@[b].0@ by {
                            assert(entries@[a] == before[a]);
                            if b < last {
                                assert(entries@[b] == before[b]);
                                assert(before[a].0@ != before[b].0@);
                            } else {
                                assert(before[a].0@ != response_key());
                            }
                        }
                    }
                    assert forall|k: int| 0 <= k < entries@.len() implies
                        json_wf(#[trigger] entries@[k].1) by {
                        if k < last {
                            assert(entries@[k] == before[k]);
                            assert(json_wf(before[k].1));
                        }
                    }
                    assert(json_wf(JsonValue::Object(entries)));
                }
            }
            Ok(JsonValue::Object(entries))
        },
        _ => Err(MessageError::NotAnObject),
    }
}

/// Answers the widget-API request `msg`, a JSON text, with the response
/// `res_val`: the reply is the request with its member `response` set to
/// `res_val` (see `add_response_value`), written as compact JSON text. A text
/// that is no JSON, or no JSON object, is refused.
pub fn add_response(msg: &str, res_val: JsonValue) -> (r: Result<String, MessageError>)
    ensures
        parsed_json(msg@) is None ==> r matches Err(MessageError::NotJson),
        parsed_json(msg@) matches Some(v) && !(v is Object) ==> r matches Err(MessageError::NotAnObject),
        parsed_json(msg@) matches Some(JsonValue::Object(e)) ==> exists|reply: Vec<(String, JsonValue)>| {
            &&& #[trigger] is_reply_entries(e@, res_val, reply@)
            &&& (json_wf(res_val) ==> json_wf(JsonValue::Object(reply)))
            &&& r matches Ok(text) && text@ == json_text(JsonValue::Object(reply))
        },
{
    let ghost res = res_val;
    match parse_json(msg) {
        Err(_) => Err(MessageError::NotJson),
        Ok(v) => {
            let ghost parsed = v;
            match add_response_value(v, res_val) {
                Ok(reply) => {
                    let ghost reply_value = reply;
                    let text = write_json(reply);
                    proof {
                        if parsed is Object {
                            let entries = reply_value->Object_0;
                            assert(is_reply_entries(parsed->Object_0@, res, entries@));
                            assert(reply_value == JsonValue::Object(entries));
                        }
                    }
                    Ok(text)
                },
                Err(e) => Err(e),
            }
        },
    }
}

/// Two member lists whose keys agree wherever `key` is concerned, up to the
/// length of the shorter, and neither of which has `key` beyond it, give `key`
/// the same first position.
proof fn lemma_same_first_index(
    a: Seq<(String, JsonValue)>,
    b: Seq<(String, JsonValue)>,
    key: Seq<char>,
    i: int,
)
    requires
        a.len() <= b.len(),
        forall|j: int| 0 <= j < a.len() ==> (#[trigger] a[j].0@ == key <==> b[j].0@ == key),
        is_first_key_index(a, key, i),
    ensures
        is_first_key_index(b, key, i),
{
    assert forall|j: int| 0 <= j < i implies #[trigger] b[j].0@ != key by {
        assert(a[j].0@ != key);
    }
}

/// A reply carries its response under `response`, and every other member of
/// the request as it was: what a reader of the reply finds under a key is the
/// response for `response` and the request's member for any other key.
pub proof fn lemma_reply_reads_back(
    before: Seq<(String, JsonValue)>,
    res: JsonValue,
    after: Seq<(String, JsonValue)>,
    key: Seq<char>,
)
    requires
        is_reply_entries(before, res, after),
    ensures
        member(after, response_key()) == Some(res),
        key != response_key() ==> member(after, key) == member(before, key),
{
    let rk = response_key();
    if has_key(before, rk) {
        lemma_first_key_index_exists(before, rk);
        let i = choose|i: int| is_first_key_index(before, rk, i);
        assert(after == before.update(i, (before[i].0, res)));
        assert forall|j: int| 0 <= j < after.len() implies #[trigger] after[j].0@ == before[j].0@ by {}
        lemma_same_first_index(before, after, rk, i);
        assert(has_key(after, rk)) by { assert(after[i].0@ == rk); }
        let ia = choose|ia: int| is_first_key_index(after, rk, ia);
        lemma_first_key_index_unique(after, rk, i, ia);
        if key != rk {
            if has_key(before, key) {
                lemma_first_key_index_exists(before, key);
                let j = choose|j: int| is_first_key_index(before, key, j);
                lemma_same_first_index(before, after, key, j);
                assert(has_key(after, key)) by { assert(after[j].0@ == key); }
                let ja = choose|ja: int| is_first_key_index(after, key, ja);
                lemma_first_key_index_unique(after, key, j, ja);
                assert(j != i);
            } else {
                assert(!has_key(after, key)) by {
                    if has_key(after, key) {
                        let j = choose|j: int| 0 <= j < after.len() && #[trigger] after[j].0@ == key;
                        assert(before[j].0@ == key);
                    }
                }
            }
        }
    } else {
        let last = after.len() - 1;
        assert forall|j: int| 0 <= j < before.len() implies #[trigger] after[j] == before[j] by {
            assert(after.drop_last()[j] == after[j]);
        }
        assert(is_first_key_index(after, rk, last)) by {
            assert forall|j: int| 0 <= j < last implies #[trigger] after[j].0@ != rk by {
                assert(after[j] == before[j]);
                if after[j].0@ == rk {
                    assert(before[j].0@ == rk);
                }
            }
        }
        assert(has_key(after, rk)) by { assert(after[last].0@ == rk); }
        let ia = choose|ia: int| is_first_key_index(after, rk, ia);
        lemma_first_key_index_unique(after, rk, last, ia);
        if key != rk {
            if has_key(before, key) {
                lemma_first_key_index_exists(before, key);
                let j = choose|j: int| is_first_key_index(before, key, j);
                lemma_same_first_index(before, after, key, j);
                assert(has_key(after, key)) by { assert(after[j].0@ == key); }
                let ja = choose|ja: int| is_first_key_index(after, key, ja);
                lemma_first_key_index_unique(after, key, j, ja);
            } else {
                assert(!has_key(after, key)) by {
                    if has_key(after, key) {
                        let j = choose|j: int| 0 <= j < after.len() && #[trigger] after[j].0@ == key;
                        if j < before.len() {
                            assert(before[j].0@ == key);
                        }
                    }
                }
            }
        }
    }
}

/// Answering a reply again with the same response changes nothing.
pub proof fn lemma_reply_is_idempotent(
    request: Seq<(String, JsonValue)>,
    res: JsonValue,
    reply: Seq<(String, JsonValue)>,
    again: Seq<(String, JsonValue)>,
)
    requires
        is_reply_entries(request, res, reply),
        is_reply_entries(reply, res, again),
    ensures
        again == reply,
{
    let rk = response_key();
    lemma_reply_reads_back(request, res, reply, rk);
    assert(has_key(reply, rk));
    lemma_first_key_index_exists(reply, rk);
    let i = choose|i: int| is_first_key_index(reply, rk, i);
    assert(member(reply, rk) == Some(reply[i].1));
    assert(again == reply.update(i, (reply[i].0, res)));
    assert(again =~= reply);
}

/// A later response wins: answering a reply again with `second` reads, under
/// every key, as answering the request with `second` straight away.
pub proof fn lemma_later_response_wins(
    request: Seq<(String, JsonValue)>,
    first: JsonValue,
    reply: Seq<(String, JsonValue)>,
    second: JsonValue,
    again: Seq<(String, JsonValue)>,
    direct: Seq<(String, JsonValue)>,
    key: Seq<char>,
)
    requires
        is_reply_entries(request, first, reply),
        is_reply_entries(reply, second, again),
        is_reply_entries(request, second, direct),
    ensures
        member(again, key) == member(direct, key),
{
    lemma_reply_reads_back(request, first, reply, key);
    lemma_reply_reads_back(reply, second, again, key);
    lemma_reply_reads_back(request, second, direct, key);
}

/// Whatever a request holds, its reply is found under `response`, and the
/// request's other members are found unchanged.
pub proof fn lemma_add_response_reads_back(msg: JsonValue, res: JsonValue, reply: JsonValue, key: Seq<char>)
    requires
        msg matches JsonValue::Object(entries) && reply matches JsonValue::Object(after)
            && is_reply_entries(entries@, res, after@),
    ensures
        json_get(reply, response_key()) == Some(res),
        key != response_key() ==> json_get(reply, key) == json_get(msg, key),
{
    lemma_reply_reads_back(msg->Object_0@, res, reply->Object_0@, key);
}

/// A lower-case hexadecimal digit.
pub open spec fn is_lower_hex_digit(c: char) -> bool {
    ('0' <= c <= '9') || ('a' <= c <= 'f')
}

/// The text of a random (version 4) UUID in its hyphenated lower-case form,
/// such as `67e55044-10b1-426f-9247-bb680e5fe0c8`: five groups of 8, 4, 4, 4
/// and 12 hex digits, the third group starting with the version `4` and the
/// fourth with a variant digit `8`, `9`, `a` or `b`.
pub open spec fn is_uuid_v4_text(t: Seq<char>) -> bool {
    &&& t.len() == 36
    &&& forall|i: int| 0 <= i < 36 ==> if i == 8 || i == 13 || i == 18 || i == 23 {
        #[trigger] t[i] == '-'
    } else {
        is_lower_hex_digit(t[i])
    }
    &&& t[14] == '4'
    &&& t[19] == '8' || t[19] == '9' || t[19] == 'a' || t[19] == 'b'
}

/// `uuid::Uuid::new_v4` written out by its `Display`: the uuid source masks
/// random bits into the version 4 and the RFC 4122 variant and prints the
/// hyphenated lower-case hex form, so the contract claims that shape. The
/// digits are random and nothing is said of them; the call panics only where
/// the system has no randomness to give.
#[verifier::external_body]
fn new_request_id() -> (id: String)
    ensures
        is_uuid_v4_text(id@),
{
    uuid::Uuid::new_v4().to_string()
}

/// `v` is the JSON text `text`.
pub open spec fn is_text(v: JsonValue, text: Seq<char>) -> bool {
    v matches JsonValue::Text(s) && s@ == text
}

/// `e` is the member `key` with the JSON text `text`.
pub open spec fn is_text_member(e: (String, JsonValue), key: Seq<char>, text: Seq<char>) -> bool {
    e.0@ == key && is_text(e.1, text)
}

/// `msg` is the request by which the container asks the Element Call widget
/// `widget_id` to join the call: `api` `toWidget`, `requestId`, `action`
/// `io.element.join`, `widgetId`, and `data` with empty `audioInput` and
/// `videoInput`, in this order.
pub open spec fn is_join_action(msg: JsonValue, widget_id: Seq<char>, request_id: Seq<char>) -> bool {
    &&& msg is Object
    &&& {
        let e = msg->Object_0@;
        &&& e.len() == 5
        &&& is_text_member(e[0], "api"@, "toWidget"@)
        &&& is_text_member(e[1], "requestId"@, request_id)
        &&& is_text_member(e[2], "action"@, "io.element.join"@)
        &&& is_text_member(e[3], "widgetId"@, widget_id)
        &&& e[4].0@ == "data"@
        &&& e[4].1 is Object
        &&& {
            let d = e[4].1->Object_0@;
            &&& d.len() == 2
            &&& is_text_member(d[0], "audioInput"@, ""@)
            &&& is_text_member(d[1], "videoInput"@, ""@)
        }
    }
}

fn owned(s: &str) -> (r: String)
    ensures
        r@ == s@,
{
    let mut r = String::new();
    r.append(s);
    r
}

fn text_member(key: &str, text: &str) -> (e: (String, JsonValue))
    ensures
        is_text_member(e, key@, text@),
{
    (owned(key), JsonValue::Text(owned(text)))
}

/// The join request for the widget `widget_id` under the request id
/// `request_id`.
pub fn join_action_with_id(widget_id: &str, request_id: &str) -> (msg: JsonValue)
    ensures
        is_join_action(msg, widget_id@, request_id@),
        json_wf(msg),
{
    let data = vec![text_member("audioInput", ""), text_member("videoInput", "")];
    let entries = vec![
        text_member("api", "toWidget"),
        text_member("requestId", request_id),
        text_member("action", "io.element.join"),
        text_member("widgetId", widget_id),
        (owned("data"), JsonValue::Object(data)),
    ];
    proof {
        reveal_strlit("api");
        reveal_strlit("requestId");
        reveal_strlit("action");
        reveal_strlit("widgetId");
        reveal_strlit("data");
        reveal_strlit("audioInput");
        reveal_strlit("videoInput");
        let d = data@;
        assert(d[0].0@[0] != d[1].0@[0]);
        assert(keys_unique(d));
        assert(json_wf(d[0].1) && json_wf(d[1].1));
        assert(json_wf(JsonValue::Object(data)));
        let e = entries@;
        assert(keys_unique(e)) by {
            assert forall|a: int, b: int| 0 <= a < b < e.len() implies
                #[trigger] e[a].0@ != #[trigger] e[b].0@ by {
                assert(e[a].0@.len() != e[b].0@.len());
            }
        }
        assert forall|k: int| 0 <= k < e.len() implies json_wf(#[trigger] e[k].1) by {
            if k == 4 {
                assert(e[4].1 == JsonValue::Object(data));
            }
        }
    }
    JsonValue::Object(entries)
}

/// The join request for the widget `widget_id`, under a fresh random
/// request id, written as compact JSON text.
pub fn join_action(widget_id: &str) -> (text: String)
    ensures
        exists|id: Seq<char>, msg: JsonValue| {
            &&& is_uuid_v4_text(id)
            &&& #[trigger] is_join_action(msg, widget_id@, id)
            &&& json_wf(msg)
            &&& text@ == json_text(msg)
        },
{
    let id = new_request_id();
    let msg = join_action_with_id(widget_id, id.as_str());
    let ghost m = msg;
    let text = write_json(msg);
    assert(is_uuid_v4_text(id@) && is_join_action(m, widget_id@, id@) && json_wf(m) && text@ == json_text(m));
    text
}

/// A join request names its widget and its request id in full: a reader of
/// the request finds under `widgetId` the text of the widget id itself,
/// under `requestId` the request id itself, and under `action`
/// `io.element.join`.
pub proof fn lemma_join_action_names_widget(msg: JsonValue, widget_id: Seq<char>, request_id: Seq<char>)
    requires
        is_join_action(msg, widget_id, request_id),
    ensures
        json_get(msg, "widgetId"@) matches Some(JsonValue::Text(w)) && w@ == widget_id && w@.len() == widget_id.len(),
        json_get(msg, "requestId"@) matches Some(JsonValue::Text(r)) && r@ == request_id,
        json_get(msg, "action"@) matches Some(JsonValue::Text(a)) && a@ == "io.element.join"@,
{
    reveal_strlit("api");
    reveal_strlit("requestId");
    reveal_strlit("action");
    reveal_strlit("widgetId");
    let e = msg->Object_0@;
    assert(is_first_key_index(e, "widgetId"@, 3)) by {
        assert forall|j: int| 0 <= j < 3 implies #[trigger] e[j].0@ != "widgetId"@ by {
            assert(e[j].0@.len() != "widgetId"@.len());
        }
    }
    assert(is_first_key_index(e, "requestId"@, 1)) by {
        assert(e[0].0@.len() != "requestId"@.len());
    }
    assert(is_first_key_index(e, "action"@, 2)) by {
        assert forall|j: int| 0 <= j < 2 implies #[trigger] e[j].0@ != "action"@ by {
            assert(e[j].0@.len() != "action"@.len());
        }
    }
    assert(has_key(e, "widgetId"@));
    assert(has_key(e, "requestId"@));
    assert(has_key(e, "action"@));
    let iw = choose|i: int| is_first_key_index(e, "widgetId"@, i);
    lemma_first_key_index_unique(e, "widgetId"@, 3, iw);
    let ir = choose|i: int| is_first_key_index(e, "requestId"@, i);
    lemma_first_key_index_unique(e, "requestId"@, 1, ir);
    let ia = choose|i: int| is_first_key_index(e, "action"@, i);
    lemma_first_key_index_unique(e, "action"@, 2, ia);
}

} // verus!
