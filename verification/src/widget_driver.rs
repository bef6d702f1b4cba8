//! The rules of the widget driver: which capabilities Element Call is granted,
//! how a message from the widget is routed, and how a message for the widget
//! is posted into its window.

use vstd::prelude::*;
use vstd::utf8::encode_utf8;
use crate::custom_messages::{MessageError, add_response, is_reply_entries, is_text};
use crate::json::{JsonValue, json_text, json_wf, parse_json, parsed_json};

verus! {

/// The Matrix state event types that the Element Call widget works with.
#[derive(Clone, Copy, Debug, PartialEq, Eq, Structural)]
pub enum StateEventType {
    CallMember,
    RoomMember,
    RoomEncryption,
    RoomCreate,
}

/// A filter on state events.
#[derive(Debug)]
pub enum StateEventFilter {
    /// Every state event of the type.
    WithType(StateEventType),
    /// State events of the type with exactly this state key.
    WithTypeAndStateKey(StateEventType, String),
}

/// A filter on message-like events.
#[derive(Debug)]
pub enum MessageLikeEventFilter {
    /// Every message-like event of the type named.
    WithType(String),
}

/// A filter on the events that a widget may read or send.
#[derive(Debug)]
pub enum EventFilter {
    MessageLike(MessageLikeEventFilter),
    State(StateEventFilter),
}

/// An event filter with its texts taken as character sequences.
pub enum EventFilterView {
    MessageLikeWithType(Seq<char>),
    StateWithType(StateEventType),
    StateWithTypeAndStateKey(StateEventType, Seq<char>),
}

impl View for EventFilter {
    type V = EventFilterView;

    open spec fn view(&self) -> EventFilterView {
        match self {
            EventFilter::MessageLike(MessageLikeEventFilter::WithType(t)) => EventFilterView::MessageLikeWithType(t@),
            EventFilter::State(StateEventFilter::WithType(t)) => EventFilterView::StateWithType(*t),
            EventFilter::State(StateEventFilter::WithTypeAndStateKey(t, k)) => EventFilterView::StateWithTypeAndStateKey(*t, k@),
        }
    }
}

/// What a widget is allowed to do.
#[derive(Debug)]
pub struct Capabilities {
    /// Events the widget may read.
    pub read: Vec<EventFilter>,
    /// Events the widget may send.
    pub send: Vec<EventFilter>,
    /// Whether the widget needs a client around it.
    pub requires_client: bool,
    /// Whether the widget may update delayed events.
    pub update_delayed_event: bool,
    /// Whether the widget may send delayed events.
    pub send_delayed_event: bool,
}

/// Capabilities with their filters taken by their views.
pub struct CapabilitiesView {
    pub read: Seq<EventFilterView>,
    pub send: Seq<EventFilterView>,
    pub requires_client: bool,
    pub update_delayed_event: bool,
    pub send_delayed_event: bool,
}

impl View for Capabilities {
    type V = CapabilitiesView;

    open spec fn view(&self) -> CapabilitiesView {
        CapabilitiesView {
            read: self.read@.map_values(|f: EventFilter| f@),
            send: self.send@.map_values(|f: EventFilter| f@),
            requires_client: self.requires_client,
            update_delayed_event: self.update_delayed_event,
            send_delayed_event: self.send_delayed_event,
        }
    }
}

/// The message-like event type of rageshake requests.
pub const RAGESHAKE_REQUEST: &'static str = "org.matrix.rageshake_request";

/// The message-like event type that carries call encryption keys.
pub const ENCRYPTION_KEYS: &'static str = "io.element.call.encryption_keys";

/// What Element Call may read: call members (the legacy membership array),
/// room members (to see who leaves or is kicked), the room encryption setting
/// (to decide on encrypting the call streams), rageshake requests, encryption
/// keys and the room creation event (for the room version).
pub open spec fn element_call_read_filters() -> Seq<EventFilterView> {
    seq![
        EventFilterView::StateWithType(StateEventType::CallMember),
        EventFilterView::StateWithType(StateEventType::RoomMember),
        EventFilterView::StateWithType(StateEventType::RoomEncryption),
        EventFilterView::MessageLikeWithType(RAGESHAKE_REQUEST@),
        EventFilterView::MessageLikeWithType(ENCRYPTION_KEYS@),
        EventFilterView::StateWithType(StateEventType::RoomCreate),
    ]
}

/// What Element Call may send for the user `user` on device `device`: its
/// call membership under the state keys `user`, `user_device` and
/// `_user_device`, rageshake requests and its encryption keys.
pub open spec fn element_call_send_filters(user: Seq<char>, device: Seq<char>) -> Seq<EventFilterView> {
    seq![
        EventFilterView::StateWithTypeAndStateKey(StateEventType::CallMember, user),
        EventFilterView::StateWithTypeAndStateKey(StateEventType::CallMember, user + "_"@ + device),
        EventFilterView::StateWithTypeAndStateKey(StateEventType::CallMember, "_"@ + user + "_"@ + device),
        EventFilterView::MessageLikeWithType(RAGESHAKE_REQUEST@),
        EventFilterView::MessageLikeWithType(ENCRYPTION_KEYS@),
    ]
}

/// The capabilities that Element Call needs, for the user `user` on device
/// `device`.
pub open spec fn element_call_capabilities(user: Seq<char>, device: Seq<char>) -> CapabilitiesView {
    CapabilitiesView {
        read: element_call_read_filters(),
        send: element_call_send_filters(user, device),
        requires_client: true,
        update_delayed_event: true,
        send_delayed_event: true,
    }
}

fn state_with_type(t: StateEventType) -> (f: EventFilter)
    ensures
        f@ == EventFilterView::StateWithType(t),
{
    EventFilter::State(StateEventFilter::WithType(t))
}

fn call_member_with_key(key: String) -> (f: EventFilter)
    ensures
        f@ == EventFilterView::StateWithTypeAndStateKey(StateEventType::CallMember, key@),
{
    EventFilter::State(StateEventFilter::WithTypeAndStateKey(StateEventType::CallMember, key))
}

fn message_like_with_type(t: &str) -> (f: EventFilter)
    ensures
        f@ == EventFilterView::MessageLikeWithType(t@),
{
    let mut name = String::new();
    name.append(t);
    EventFilter::MessageLike(MessageLikeEventFilter::WithType(name))
}

/// The capabilities that Element Call is granted for the user
/// `own_user_id` on the device `own_device_id`, whatever it asked for.
pub fn get_element_call_required_permissions(own_user_id: String, own_device_id: String) -> (caps: Capabilities)
    ensures
        caps@ == element_call_capabilities(own_user_id@, own_device_id@),
{
    let mut user_device = String::new();
    user_device.append(own_user_id.as_str());
    user_device.append("_");
    user_device.append(own_device_id.as_str());
    let mut underscore_user_device = String::new();
    underscore_user_device.append("_");
    underscore_user_device.append(own_user_id.as_str());
    underscore_user_device.append("_");
    underscore_user_device.append(own_device_id.as_str());

    let read = vec![
        state_with_type(StateEventType::CallMember),
        state_with_type(StateEventType::RoomMember),
        state_with_type(StateEventType::RoomEncryption),
        message_like_with_type(RAGESHAKE_REQUEST),
        message_like_with_type(ENCRYPTION_KEYS),
        state_with_type(StateEventType::RoomCreate),
    ];
    let send = vec![
        call_member_with_key(own_user_id),
        call_member_with_key(user_device),
        call_member_with_key(underscore_user_device),
        message_like_with_type(RAGESHAKE_REQUEST),
        message_like_with_type(ENCRYPTION_KEYS),
    ];
    let caps = Capabilities {
        read,
        send,
        requires_client: true,
        update_delayed_event: true,
        send_delayed_event: true,
    };
    proof {
        assert(caps@.read =~= element_call_read_filters());
        assert(caps@.send =~= element_call_send_filters(own_user_id@, own_device_id@));
    }
    caps
}

/// The action of a widget message by which the user leaves the call.
pub const HANGUP_ACTION: &'static str = "im.vector.hangup";

/// `needle` occurs in `hay` as a contiguous run of bytes.
pub open spec fn bytes_contain(hay: Seq<u8>, needle: Seq<u8>) -> bool {
    exists|i: int| 0 <= i && i + needle.len() <= hay.len() && #[trigger] hay.subrange(i, i + needle.len()) == needle
}

/// Whether `needle` occurs in `hay`, by comparing at each position.
pub fn contains_bytes(hay: &[u8], needle: &[u8]) -> (found: bool)
    ensures
        found == bytes_contain(hay@, needle@),
{
    let n = hay.len();
    let m = needle.len();
    if m > n {
        return false;
    }
    let mut i: usize = 0;
    while i <= n - m
        invariant
            n == hay@.len(),
            m == needle@.len(),
            m <= n,
            i <= n - m + 1,
            forall|k: int| 0 <= k < i ==> #[trigger] hay@.subrange(k, k + m) != needle@,
        decreases n - m + 1 - i,
    {
        let mut j: usize = 0;
        while j < m && hay[i + j] == needle[j]
            invariant
                n == hay@.len(),
                m == needle@.len(),
                i + m <= n,
                j <= m,
                forall|l: int| 0 <= l < j ==> hay@[i + l] == needle@[l],
            decreases m - j,
        {
            j = j + 1;
        }
        if j == m {
            assert(hay@.subrange(i as int, i + m) =~= needle@);
            return true;
        }
        assert(hay@.subrange(i as int, i + m)[j as int] != needle@[j as int]);
        i = i + 1;
    }
    proof {
        assert forall|k: int| 0 <= k && k + m <= n implies #[trigger] hay@.subrange(k, k + m) != needle@ by {
            assert(k < i);
        }
    }
    false
}

/// What the container does with a message that the widget posts.
#[derive(Debug)]
pub enum PostMessageAction {
    /// The user hangs up: log out, then answer the widget with an empty
    /// response.
    HangUp,
    /// Hand the message on to the widget driver.
    Forward,
}

/// Routes a message from the widget: one that mentions the hang-up action
/// anywhere in its text ends the session, every other one goes to the driver.
pub fn handle_post_message(message: &str) -> (action: PostMessageAction)
    ensures
        action is HangUp <==> bytes_contain(encode_utf8(message@), encode_utf8(HANGUP_ACTION@)),
{
    if contains_bytes(message.as_bytes(), HANGUP_ACTION.as_bytes()) {
        PostMessageAction::HangUp
    } else {
        PostMessageAction::Forward
    }
}

/// The script that posts `message` into the widget window for the origin
/// `url`.
pub open spec fn post_message_script_text(message: Seq<char>, url: Seq<char>) -> Seq<char> {
    "postMessage("@ + message + ",'"@ + url + "')"@
}

/// The JavaScript call by which a message for the widget is posted into its
/// window: `postMessage(<message>,'<url>')`.
pub fn post_message_script(message: &str, url: &str) -> (script: String)
    ensures
        script@ == post_message_script_text(message@, url@),
{
    let mut script = String::new();
    script.append("postMessage(");
    script.append(message);
    script.append(",'");
    script.append(url);
    script.append("')");
    script
}

/// The answer to a hang-up request, a JSON text: the request itself, its
/// member `response` set to the empty text, written as compact JSON text.
pub fn hangup_reply(msg: &str) -> (r: Result<String, MessageError>)
    ensures
        parsed_json(msg@) is None ==> r matches Err(MessageError::NotJson),
        parsed_json(msg@) matches Some(v) && !(v is Object) ==> r matches Err(MessageError::NotAnObject),
        parsed_json(msg@) matches Some(JsonValue::Object(e)) ==> exists|res: JsonValue, reply: Vec<(String, JsonValue)>| {
            &&& is_text(res, Seq::<char>::empty())
            &&& #[trigger] is_reply_entries(e@, res, reply@)
            &&& json_wf(JsonValue::Object(reply))
            &&& r matches Ok(text) && text@ == json_text(JsonValue::Object(reply))
        },
{
    let empty = JsonValue::Text(String::new());
    let ghost res = empty;
    let r = add_response(msg, empty);
    proof {
        assert(json_wf(res));
        assert(is_text(res, Seq::<char>::empty()));
        if let Some(JsonValue::Object(e)) = parsed_json(msg@) {
            let reply = choose|reply: Vec<(String, JsonValue)>| {
                &&& #[trigger] is_reply_entries(e@, res, reply@)
                &&& (json_wf(res) ==> json_wf(JsonValue::Object(reply)))
                &&& r matches Ok(text) && text@ == json_text(JsonValue::Object(reply))
            };
            assert(is_reply_entries(e@, res, reply@));
        }
    }
    r
}

/// The post-message script for `message` where `message` is a JSON text,
/// and nothing where it is not: text that is no JSON is never run as script.
pub fn post_message_script_checked(message: &str, url: &str) -> (script: Option<String>)
    ensures
        script is Some <==> parsed_json(message@) is Some,
        script matches Some(s) ==> s@ == post_message_script_text(message@, url@),
{
    match parse_json(message) {
        Ok(_) => Some(post_message_script(message, url)),
        Err(_) => None,
    }
}

/// Element Call may read every message-like event type that it may send:
/// the rageshake requests it sends and the encryption keys it shares are
/// also among what it reads.
pub proof fn lemma_sent_message_types_are_readable(user: Seq<char>, device: Seq<char>)
    ensures
        forall|i: int| 0 <= i < element_call_send_filters(user, device).len()
            && (#[trigger] element_call_send_filters(user, device)[i]) is MessageLikeWithType
            ==> element_call_read_filters().contains(element_call_send_filters(user, device)[i]),
{
    let send = element_call_send_filters(user, device);
    let read = element_call_read_filters();
    assert(read[3] == send[3]);
    assert(read[4] == send[4]);
}

/// UTF-8 encoding of joined texts is the joined encodings.
pub proof fn lemma_encode_utf8_concat(a: Seq<char>, b: Seq<char>)
    ensures
        encode_utf8(a + b) == encode_utf8(a) + encode_utf8(b),
    decreases a.len(),
{
    if a.len() == 0 {
        assert(a + b =~= b);
        assert(encode_utf8(a) =~= Seq::<u8>::empty());
        assert(encode_utf8(a) + encode_utf8(b) =~= encode_utf8(b));
    } else {
        assert((a + b)[0] == a[0]);
        assert((a + b).drop_first() =~= a.drop_first() + b);
        lemma_encode_utf8_concat(a.drop_first(), b);
        assert(encode_utf8(a + b) =~= encode_utf8(a) + encode_utf8(b));
    }
}

/// The hang-up action is recognised at any offset: every message that holds
/// `im.vector.hangup`, whatever text comes before or after it, ends the
/// session (`handle_post_message` answers `HangUp` exactly on such messages).
pub proof fn lemma_hangup_recognised_anywhere(before: Seq<char>, after: Seq<char>)
    ensures
        bytes_contain(encode_utf8(before + HANGUP_ACTION@ + after), encode_utf8(HANGUP_ACTION@)),
{
    let needle = encode_utf8(HANGUP_ACTION@);
    lemma_encode_utf8_concat(before + HANGUP_ACTION@, after);
    lemma_encode_utf8_concat(before, HANGUP_ACTION@);
    let hay = encode_utf8(before + HANGUP_ACTION@ + after);
    let i = encode_utf8(before).len() as int;
    assert(hay == encode_utf8(before) + needle + encode_utf8(after));
    assert(hay.subrange(i, i + needle.len()) =~= needle);
}

/// Element Call's call-membership keys carry the user and the device in full:
/// the first send filter is keyed by the user id itself, the second by
/// user, `_` and device, the third by `_`, user, `_` and device; each key has
/// exactly the length of its parts, starts with them in order and ends with
/// the whole device id.
pub proof fn lemma_call_member_keys_hold_user_and_device(user: Seq<char>, device: Seq<char>)
    ensures
        ({
            let send = element_call_send_filters(user, device);
            let n = user.len() as int;
            &&& send.len() == 5
            &&& send[0] == EventFilterView::StateWithTypeAndStateKey(StateEventType::CallMember, user)
            &&& send[1] matches EventFilterView::StateWithTypeAndStateKey(t, k) && t == StateEventType::CallMember
                && k.len() == n + device.len() + 1
                && k.subrange(0, n) == user
                && k[n] == '_'
                && k.subrange(n + 1, k.len() as int) == device
            &&& send[2] matches EventFilterView::StateWithTypeAndStateKey(t, k) && t == StateEventType::CallMember
                && k.len() == n + device.len() + 2
                && k[0] == '_'
                && k.subrange(1, n + 1) == user
                && k[n + 1] == '_'
                && k.subrange(n + 2, k.len() as int) == device
        }),
{
    reveal_strlit("_");
    let send = element_call_send_filters(user, device);
    let k1 = user + "_"@ + device;
    let k2 = "_"@ + user + "_"@ + device;
    let n = user.len() as int;
    assert(k1.subrange(0, n) =~= user);
    assert(k1.subrange(n + 1, k1.len() as int) =~= device);
    assert(k2.subrange(1, n + 1) =~= user);
    assert(k2.subrange(n + 2, k2.len() as int) =~= device);
}

/// The post-message script carries the message and the origin in full:
/// `postMessage(` (12 characters), the whole message, `,'`, the whole
/// origin, `')`; dropping the fixed parts gives back message and origin.
pub proof fn lemma_post_message_script_carries_message(message: Seq<char>, url: Seq<char>)
    ensures
        ({
            let s = post_message_script_text(message, url);
            let m = message.len() as int;
            let u = url.len() as int;
            &&& s.len() == m + u + 16
            &&& s.subrange(0, 12) == "postMessage("@
            &&& s.subrange(12, 12 + m) == message
            &&& s[12 + m] == ',' && s[13 + m] == '\''
            &&& s.subrange(14 + m, 14 + m + u) == url
            &&& s[14 + m + u] == '\'' && s[15 + m + u] == ')'
        }),
{
    reveal_strlit("postMessage(");
    reveal_strlit(",'");
    reveal_strlit("')");
    let s = post_message_script_text(message, url);
    let m = message.len() as int;
    let u = url.len() as int;
    assert(s.subrange(0, 12) =~= "postMessage("@);
    assert(s.subrange(12, 12 + m) =~= message);
    assert(s.subrange(14 + m, 14 + m + u) =~= url);
}

} // verus!
