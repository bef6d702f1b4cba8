use widget_container::cmd::{self, Args};
use widget_container::custom_messages::{
    add_response, add_response_value, join_action, join_action_with_id, MessageError,
};
use widget_container::element_call_url::{url, BASE_URL};
use widget_container::json::JsonValue;
use widget_container::widget_driver::{
    contains_bytes, get_element_call_required_permissions, handle_post_message, hangup_reply,
    post_message_script, post_message_script_checked, Capabilities, EventFilter, MessageLikeEventFilter, PostMessageAction,
    StateEventFilter, StateEventType,
};

fn argv(items: &[&str]) -> Vec<String> {
    items.iter().map(|s| s.to_string()).collect()
}

fn text(s: &str) -> JsonValue {
    JsonValue::Text(s.to_string())
}

fn object(entries: Vec<(&str, JsonValue)>) -> JsonValue {
    JsonValue::Object(entries.into_iter().map(|(k, v)| (k.to_string(), v)).collect())
}

fn as_text(v: &JsonValue) -> &str {
    match v {
        JsonValue::Text(s) => s.as_str(),
        other => panic!("not a text: {:?}", other),
    }
}

fn entries(v: &JsonValue) -> &Vec<(String, JsonValue)> {
    match v {
        JsonValue::Object(e) => e,
        other => panic!("not an object: {:?}", other),
    }
}

#[test]
fn get_args_reads_four_arguments() {
    let args: Args = cmd::get_args(&argv(&["container", "https://hs.org", "alice", "secret", "!room:hs.org"])).unwrap();
    assert_eq!(args.homeserver_url, "https://hs.org");
    assert_eq!(args.username, "alice");
    assert_eq!(args.password, "secret");
    assert_eq!(args.room_id, "!room:hs.org");
}

#[test]
fn get_args_ignores_extra_arguments() {
    let args = cmd::get_args(&argv(&["c", "a", "b", "c", "d", "e"])).unwrap();
    assert_eq!(args.room_id, "d");
}

#[test]
fn get_args_gives_usage_when_arguments_are_missing() {
    let err = cmd::get_args(&argv(&["container", "https://hs.org", "alice", "secret"])).unwrap_err();
    assert_eq!(err, "Usage: container <homeserver_url> <username> <password> <room_id>");
    let err = cmd::get_args(&argv(&["prog"])).unwrap_err();
    assert_eq!(err, "Usage: prog <homeserver_url> <username> <password> <room_id>");
}

#[test]
fn url_encodes_parent_user_and_room() {
    let address = url("!abc:matrix.org", "@alice:matrix.org", "w_id_1234");
    assert_eq!(
        address,
        "https://pr1348--element-call.netlify.app/room?widgetId=w_id_1234\
         &parentUrl=https%3A%2F%2Fpr1348--element-call.netlify.app\
         &embed=&hideHeader=&userId=%40alice%3Amatrix.org\
         &deviceId=ONLDUUSMTR&roomId=%21abc%3Amatrix.org\
         &lang=en-us&fontScale=1&preload=&baseUrl=https%3A%2F%2Fmatrix-client.matrix.org"
    );
}

#[test]
fn url_keeps_widget_id_and_encodes_utf8_bytes() {
    let address = url("r é", "u~._-9", "a b");
    assert!(address.starts_with(BASE_URL));
    assert!(address.contains("widgetId=a b&"));
    assert!(address.contains("&userId=u~._-9&"));
    assert!(address.contains("&roomId=r%20%C3%A9&"));
}

#[test]
fn hangup_messages_are_recognised_anywhere() {
    let msg = r#"{"api":"fromWidget","action":"im.vector.hangup","requestId":"1"}"#;
    assert!(matches!(handle_post_message(msg), PostMessageAction::HangUp));
    assert!(matches!(handle_post_message("im.vector.hangup"), PostMessageAction::HangUp));
    assert!(matches!(handle_post_message("xim.vector.hangupx"), PostMessageAction::HangUp));
}

#[test]
fn other_messages_are_forwarded() {
    let msg = r#"{"api":"fromWidget","action":"send_event","requestId":"2"}"#;
    assert!(matches!(handle_post_message(msg), PostMessageAction::Forward));
    assert!(matches!(handle_post_message(""), PostMessageAction::Forward));
    assert!(matches!(handle_post_message("im.vector.hangu"), PostMessageAction::Forward));
    assert!(matches!(handle_post_message("im.vector.Hangup"), PostMessageAction::Forward));
}

#[test]
fn contains_bytes_edges() {
    assert!(contains_bytes(b"abc", b""));
    assert!(contains_bytes(b"", b""));
    assert!(!contains_bytes(b"", b"a"));
    assert!(contains_bytes(b"abc", b"abc"));
    assert!(!contains_bytes(b"ab", b"abc"));
    assert!(contains_bytes(b"aab", b"ab"));
}

#[test]
fn post_message_script_wraps_message_and_origin() {
    let script = post_message_script(r#"{"a":1}"#, "https://call.element.io");
    assert_eq!(script, r#"postMessage({"a":1},'https://call.element.io')"#);
}

fn filter_text(f: &EventFilter) -> String {
    match f {
        EventFilter::MessageLike(MessageLikeEventFilter::WithType(t)) => format!("message:{}", t),
        EventFilter::State(StateEventFilter::WithType(t)) => format!("state:{:?}", t),
        EventFilter::State(StateEventFilter::WithTypeAndStateKey(t, k)) => format!("state:{:?}:{}", t, k),
    }
}

#[test]
fn element_call_capabilities_are_exact() {
    let caps: Capabilities = get_element_call_required_permissions("@alice:hs.org".to_string(), "DEVICE".to_string());
    let read: Vec<String> = caps.read.iter().map(filter_text).collect();
    assert_eq!(
        read,
        vec![
            "state:CallMember",
            "state:RoomMember",
            "state:RoomEncryption",
            "message:org.matrix.rageshake_request",
            "message:io.element.call.encryption_keys",
            "state:RoomCreate",
        ]
    );
    let send: Vec<String> = caps.send.iter().map(filter_text).collect();
    assert_eq!(
        send,
        vec![
            "state:CallMember:@alice:hs.org",
            "state:CallMember:@alice:hs.org_DEVICE",
            "state:CallMember:_@alice:hs.org_DEVICE",
            "message:org.matrix.rageshake_request",
            "message:io.element.call.encryption_keys",
        ]
    );
    assert!(caps.requires_client && caps.update_delayed_event && caps.send_delayed_event);
    assert_eq!(StateEventType::CallMember, StateEventType::CallMember);
}

#[test]
fn sent_message_types_are_also_read() {
    let caps = get_element_call_required_permissions("u".to_string(), "d".to_string());
    let read: Vec<String> = caps.read.iter().map(filter_text).collect();
    for f in caps.send.iter().filter(|f| matches!(f, EventFilter::MessageLike(_))) {
        assert!(read.contains(&filter_text(f)));
    }
}

#[test]
fn add_response_appends_response_member() {
    let msg = object(vec![("api", text("fromWidget")), ("requestId", text("7"))]);
    let reply = add_response_value(msg, text("ok")).unwrap();
    let e = entries(&reply);
    assert_eq!(e.len(), 3);
    assert_eq!(e[0].0, "api");
    assert_eq!(as_text(&e[0].1), "fromWidget");
    assert_eq!(e[1].0, "requestId");
    assert_eq!(as_text(&e[1].1), "7");
    assert_eq!(e[2].0, "response");
    assert_eq!(as_text(&e[2].1), "ok");
}

#[test]
fn add_response_replaces_existing_response() {
    let msg = object(vec![("response", text("old")), ("api", text("toWidget"))]);
    let reply = add_response_value(msg, JsonValue::Null).unwrap();
    let e = entries(&reply);
    assert_eq!(e.len(), 2);
    assert_eq!(e[0].0, "response");
    assert!(matches!(e[0].1, JsonValue::Null));
    assert_eq!(as_text(&e[1].1), "toWidget");
}

#[test]
fn add_response_twice_is_the_same_as_once() {
    let msg = object(vec![("api", text("fromWidget"))]);
    let once = add_response_value(msg, text("r")).unwrap();
    let twice = add_response_value(add_response_value(object(vec![("api", text("fromWidget"))]), text("r")).unwrap(), text("r")).unwrap();
    assert_eq!(format!("{:?}", once), format!("{:?}", twice));
}

#[test]
fn add_response_refuses_non_objects() {
    assert!(matches!(add_response_value(text("x"), JsonValue::Null), Err(MessageError::NotAnObject)));
    assert!(matches!(add_response_value(JsonValue::Array(vec![]), JsonValue::Null), Err(MessageError::NotAnObject)));
    assert!(matches!(add_response_value(JsonValue::Number(serde_json::Number::from(1)), JsonValue::Null), Err(MessageError::NotAnObject)));
    assert!(matches!(add_response_value(JsonValue::Bool(true), JsonValue::Null), Err(MessageError::NotAnObject)));
    assert!(matches!(add_response_value(JsonValue::Null, JsonValue::Null), Err(MessageError::NotAnObject)));
}

#[test]
fn hangup_reply_carries_empty_response() {
    let reply = hangup_reply(r#"{"action":"im.vector.hangup","api":"fromWidget"}"#).unwrap();
    assert_eq!(reply, r#"{"action":"im.vector.hangup","api":"fromWidget","response":""}"#);
    assert!(matches!(hangup_reply("null"), Err(MessageError::NotAnObject)));
    assert!(matches!(hangup_reply("{"), Err(MessageError::NotJson)));
}

fn check_join(msg: &JsonValue, widget_id: &str) -> String {
    let e = entries(msg);
    assert_eq!(e.len(), 5);
    assert_eq!((e[0].0.as_str(), as_text(&e[0].1)), ("api", "toWidget"));
    assert_eq!(e[1].0, "requestId");
    assert_eq!((e[2].0.as_str(), as_text(&e[2].1)), ("action", "io.element.join"));
    assert_eq!((e[3].0.as_str(), as_text(&e[3].1)), ("widgetId", widget_id));
    assert_eq!(e[4].0, "data");
    let d = entries(&e[4].1);
    assert_eq!((d[0].0.as_str(), as_text(&d[0].1)), ("audioInput", ""));
    assert_eq!((d[1].0.as_str(), as_text(&d[1].1)), ("videoInput", ""));
    as_text(&e[1].1).to_string()
}

#[test]
fn join_action_with_id_is_exact() {
    let msg = join_action_with_id("w_id_1234", "req-1");
    assert_eq!(check_join(&msg, "w_id_1234"), "req-1");
}

fn join_request_id(text: &str, widget_id: &str) -> String {
    let v: serde_json::Value = serde_json::from_str(text).unwrap();
    let obj = v.as_object().unwrap();
    assert_eq!(obj.len(), 5);
    assert_eq!(obj["api"], "toWidget");
    assert_eq!(obj["action"], "io.element.join");
    assert_eq!(obj["widgetId"], widget_id);
    assert_eq!(obj["data"].to_string(), r#"{"audioInput":"","videoInput":""}"#);
    obj["requestId"].as_str().unwrap().to_string()
}

#[test]
fn join_action_has_uuid_v4_request_id() {
    let text = join_action("w");
    let id = join_request_id(&text, "w");
    assert_eq!(
        text,
        format!(
            r#"{{"action":"io.element.join","api":"toWidget","data":{{"audioInput":"","videoInput":""}},"requestId":"{}","widgetId":"w"}}"#,
            id
        )
    );
    let chars: Vec<char> = id.chars().collect();
    assert_eq!(chars.len(), 36);
    for (i, c) in chars.iter().enumerate() {
        if [8, 13, 18, 23].contains(&i) {
            assert_eq!(*c, '-');
        } else {
            assert!(c.is_ascii_digit() || ('a'..='f').contains(c));
        }
    }
    assert_eq!(chars[14], '4');
    assert!(['8', '9', 'a', 'b'].contains(&chars[19]));
    let other = join_request_id(&join_action("w"), "w");
    assert_ne!(id, other);
}

#[test]
fn add_response_answers_request_text() {
    let reply = add_response(r#"{"api":"fromWidget","requestId":"7"}"#, text("ok")).unwrap();
    assert_eq!(reply, r#"{"api":"fromWidget","requestId":"7","response":"ok"}"#);
    let reply = add_response(r#"{"response":{"a":[1,2.5,true,null]},"api":"toWidget"}"#, JsonValue::Bool(false)).unwrap();
    assert_eq!(reply, r#"{"api":"toWidget","response":false}"#);
    let nested = add_response(r#"{"data":{"x":[1,"y"]}}"#, JsonValue::Null).unwrap();
    assert_eq!(nested, r#"{"data":{"x":[1,"y"]},"response":null}"#);
}

#[test]
fn add_response_refuses_non_json_and_non_objects() {
    assert!(matches!(add_response("not json", JsonValue::Null), Err(MessageError::NotJson)));
    assert!(matches!(add_response("", JsonValue::Null), Err(MessageError::NotJson)));
    assert!(matches!(add_response("[1,2]", JsonValue::Null), Err(MessageError::NotAnObject)));
    assert!(matches!(add_response("\"text\"", JsonValue::Null), Err(MessageError::NotAnObject)));
}

#[test]
fn post_message_script_checked_refuses_non_json() {
    assert_eq!(
        post_message_script_checked(r#"{"a":1}"#, "https://o").unwrap(),
        r#"postMessage({"a":1},'https://o')"#
    );
    assert!(post_message_script_checked("alert(1)", "https://o").is_none());
}

fn hex_value(c: u8) -> u8 {
    match c {
        b'0'..=b'9' => c - b'0',
        b'A'..=b'F' => c - b'A' + 10,
        b'a'..=b'f' => c - b'a' + 10,
        _ => panic!("not a hex digit"),
    }
}

fn percent_decode(value: &str) -> String {
    let bytes = value.as_bytes();
    let mut out = Vec::new();
    let mut i = 0;
    while i < bytes.len() {
        if bytes[i] == b'%' && i + 2 < bytes.len() {
            out.push(hex_value(bytes[i + 1]) * 16 + hex_value(bytes[i + 2]));
            i += 3;
        } else {
            out.push(bytes[i]);
            i += 1;
        }
    }
    String::from_utf8(out).unwrap()
}

fn query_value<'a>(address: &'a str, name: &str) -> &'a str {
    let query = address.split_once('?').unwrap().1;
    query
        .split('&')
        .find_map(|pair| pair.strip_prefix(name).and_then(|rest| rest.strip_prefix('=')))
        .unwrap()
}

#[test]
fn url_user_and_room_values_decode_back() {
    let user = "@ålice+bob:matrix.org/#?&=";
    let room = "!room id:hs.org%20";
    let address = url(room, user, "w");
    assert_eq!(percent_decode(query_value(&address, "userId")), user);
    assert_eq!(percent_decode(query_value(&address, "roomId")), room);
    assert_eq!(address.matches('&').count(), 10);
}

#[test]
fn reply_to_request_with_response_keeps_it_once() {
    let msg = object(vec![
        ("api", text("fromWidget")),
        ("response", text("old")),
        ("data", JsonValue::Number(serde_json::Number::from_f64(1.5e3).unwrap())),
    ]);
    let reply = add_response_value(msg, text("new")).unwrap();
    let e = entries(&reply);
    assert_eq!(e.iter().filter(|(k, _)| k == "response").count(), 1);
    assert_eq!(as_text(&e[1].1), "new");
    assert!(matches!(&e[2].1, JsonValue::Number(n) if n.as_f64() == Some(1500.0)));
}

#[test]
fn later_response_wins() {
    let first = add_response(r#"{"api":"toWidget"}"#, text("a")).unwrap();
    let again = add_response(&first, text("b")).unwrap();
    let direct = add_response(r#"{"api":"toWidget"}"#, text("b")).unwrap();
    assert_eq!(again, direct);
}
