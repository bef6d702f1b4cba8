//! The Element Call address that the widget window loads.

use vstd::prelude::*;
use vstd::utf8::{
    decode_utf8, encode_utf8, encode_utf8_decode_utf8, is_ascii_chars, is_ascii_chars_encode_utf8,
};

verus! {

/// The Element Call deployment the widget is served from.
pub const BASE_URL: &'static str = "https://pr1348--element-call.netlify.app";

/// A byte that percent-encoding leaves as it is: an ASCII letter or digit,
/// or one of `-`, `.`, `_`, `~`.
pub open spec fn is_unreserved_byte(b: u8) -> bool {
    ||| 48 <= b <= 57
    ||| 65 <= b <= 90
    ||| 97 <= b <= 122
    ||| b == 45 || b == 46 || b == 95 || b == 126
}

/// The upper-case hexadecimal digit of `n`, for `n < 16`.
pub open spec fn hex_digit_upper(n: u8) -> char {
    if n < 10 {
        (48 + n) as char
    } else {
        (55 + n) as char
    }
}

/// Percent-encoding of a byte sequence: each unreserved byte stands for
/// itself, each other byte becomes `%` and its two upper-case hex digits.
pub open spec fn percent_encode_bytes(bytes: Seq<u8>) -> Seq<char>
    decreases bytes.len(),
{
    if bytes.len() == 0 {
        seq![]
    } else {
        let b = bytes[0];
        (if is_unreserved_byte(b) {
            seq![b as char]
        } else {
            seq!['%', hex_digit_upper(b / 16), hex_digit_upper(b % 16)]
        }) + percent_encode_bytes(bytes.drop_first())
    }
}

/// Percent-encoding of a text: that of its UTF-8 bytes.
pub open spec fn url_encoded(text: Seq<char>) -> Seq<char> {
    percent_encode_bytes(encode_utf8(text))
}

/// `urlencoding::encode`, whose documentation and source say that it
/// percent-encodes every byte of the UTF-8 text except ASCII letters, digits
/// and `-`, `_`, `.`, `~`, with upper-case hex digits; the contract claims
/// exactly that.
#[verifier::external_body]
fn encode(data: &str) -> (encoded: String)
    ensures
        encoded@ == url_encoded(data@),
{
    urlencoding::encode(data).into_owned()
}

/// The widget address built by `url`, in the order of its query parameters.
pub open spec fn element_call_url(room_id: Seq<char>, user_id: Seq<char>, widget_id: Seq<char>) -> Seq<char> {
    BASE_URL@ + "/room?widgetId="@ + widget_id + "&parentUrl="@ + url_encoded(BASE_URL@)
        + "&embed=&hideHeader=&userId="@ + url_encoded(user_id)
        + "&deviceId=ONLDUUSMTR&roomId="@ + url_encoded(room_id)
        + "&lang=en-us&fontScale=1&preload=&baseUrl=https%3A%2F%2Fmatrix-client.matrix.org"@
}

/// The Element Call room address for a widget: the parent URL, user and room
/// are percent-encoded, the widget id is taken as it is.
pub fn url(room_id: &str, user_id: &str, widget_id: &str) -> (address: String)
    ensures
        address@ == element_call_url(room_id@, user_id@, widget_id@),
{
    let parent = encode(BASE_URL);
    let user = encode(user_id);
    let room = encode(room_id);
    let mut address = String::new();
    address.append(BASE_URL);
    address.append("/room?widgetId=");
    address.append(widget_id);
    address.append("&parentUrl=");
    address.append(parent.as_str());
    address.append("&embed=&hideHeader=&userId=");
    address.append(user.as_str());
    address.append("&deviceId=ONLDUUSMTR&roomId=");
    address.append(room.as_str());
    address.append("&lang=en-us&fontScale=1&preload=&baseUrl=https%3A%2F%2Fmatrix-client.matrix.org");
    address
}

/// A character that may stand in a query value unescaped: an ASCII letter or
/// digit, one of `-`, `.`, `_`, `~`, or the escape sign `%`.
pub open spec fn is_query_safe_char(c: char) -> bool {
    ||| 'a' <= c <= 'z'
    ||| 'A' <= c <= 'Z'
    ||| '0' <= c <= '9'
    ||| c == '-' || c == '.' || c == '_' || c == '~' || c == '%'
}

/// Percent-encoding leaves no character that a query value could not carry.
pub proof fn lemma_percent_encoding_is_query_safe(bytes: Seq<u8>)
    ensures
        forall|i: int| 0 <= i < percent_encode_bytes(bytes).len()
            ==> is_query_safe_char(#[trigger] percent_encode_bytes(bytes)[i]),
    decreases bytes.len(),
{
    if bytes.len() > 0 {
        lemma_percent_encoding_is_query_safe(bytes.drop_first());
        let b = bytes[0];
        let head = if is_unreserved_byte(b) {
            seq![b as char]
        } else {
            seq!['%', hex_digit_upper(b / 16), hex_digit_upper(b % 16)]
        };
        let rest = percent_encode_bytes(bytes.drop_first());
        assert(percent_encode_bytes(bytes) == head + rest);
        assert forall|i: int| 0 <= i < head.len() implies is_query_safe_char(#[trigger] head[i]) by {
            if is_unreserved_byte(b) {
                assert(head[i] == b as char);
            }
        }
        assert forall|i: int| 0 <= i < (head + rest).len() implies is_query_safe_char(#[trigger] (head + rest)[i]) by {
            if i < head.len() {
                assert((head + rest)[i] == head[i]);
            } else {
                assert((head + rest)[i] == rest[i - head.len()]);
            }
        }
    }
}

/// Every percent-encoded text can stand in a query value.
pub proof fn lemma_url_encoded_is_query_safe(text: Seq<char>)
    ensures
        forall|i: int| 0 <= i < url_encoded(text).len() ==> is_query_safe_char(#[trigger] url_encoded(text)[i]),
{
    lemma_percent_encoding_is_query_safe(encode_utf8(text));
}

/// A character that percent-encoding keeps: an ASCII letter or digit, or one
/// of `-`, `.`, `_`, `~`.
pub open spec fn is_unreserved_char(c: char) -> bool {
    ||| 'a' <= c <= 'z'
    ||| 'A' <= c <= 'Z'
    ||| '0' <= c <= '9'
    ||| c == '-' || c == '.' || c == '_' || c == '~'
}

/// A text made only of unreserved characters is its own percent-encoding.
pub proof fn lemma_unreserved_text_is_unchanged(text: Seq<char>)
    requires
        forall|i: int| 0 <= i < text.len() ==> is_unreserved_char(#[trigger] text[i]),
    ensures
        url_encoded(text) == text,
    decreases text.len(),
{
    if text.len() > 0 {
        assert(is_ascii_chars(text)) by {
            assert forall|i: int| 0 <= i < text.len() implies '\0' <= #[trigger] text[i] <= '\u{7f}' by {
                assert(is_unreserved_char(text[i]));
            }
        }
        is_ascii_chars_encode_utf8(text);
        let rest = text.drop_first();
        assert forall|i: int| 0 <= i < rest.len() implies is_unreserved_char(#[trigger] rest[i]) by {
            assert(rest[i] == text[i + 1]);
        }
        lemma_unreserved_text_is_unchanged(rest);
        let rest_ascii = is_ascii_chars(rest);
        assert(rest_ascii) by {
            assert forall|i: int| 0 <= i < rest.len() implies '\0' <= #[trigger] rest[i] <= '\u{7f}' by {
                assert(is_unreserved_char(rest[i]));
            }
        }
        is_ascii_chars_encode_utf8(rest);
        let bytes = encode_utf8(text);
        assert(bytes.drop_first() =~= encode_utf8(rest)) by {
            assert forall|i: int| 0 <= i < rest.len() implies bytes.drop_first()[i] == encode_utf8(rest)[i] by {
                assert(bytes[i + 1] == text[i + 1] as u8);
                assert(encode_utf8(rest)[i] == rest[i] as u8);
            }
        }
        let c = text[0];
        assert(bytes[0] == c as u8);
        assert(is_unreserved_char(c));
        assert(is_unreserved_byte(c as u8) && (c as u8) as char == c);
        assert(percent_encode_bytes(bytes) =~= seq![c] + rest);
        assert(seq![c] + rest =~= text);
    }
}

/// The value of a hexadecimal digit, in either case.
pub open spec fn hex_value(c: char) -> int {
    if '0' <= c <= '9' {
        c as int - 48
    } else if 'A' <= c <= 'F' {
        c as int - 55
    } else if 'a' <= c <= 'f' {
        c as int - 87
    } else {
        0
    }
}

/// Percent-decoding, as a reader of a query value does it: `%` and two hex
/// digits stand for the byte they spell, every other character for its
/// code as a byte.
pub open spec fn percent_decode(t: Seq<char>) -> Seq<u8>
    decreases t.len(),
{
    if t.len() == 0 {
        seq![]
    } else if t[0] == '%' && t.len() >= 3 {
        seq![(hex_value(t[1]) * 16 + hex_value(t[2])) as u8] + percent_decode(t.subrange(3, t.len() as int))
    } else {
        seq![t[0] as u8] + percent_decode(t.drop_first())
    }
}

/// Percent-decoding undoes percent-encoding.
pub proof fn lemma_percent_decode_inverts_encode(bytes: Seq<u8>)
    ensures
        percent_decode(percent_encode_bytes(bytes)) == bytes,
    decreases bytes.len(),
{
    if bytes.len() > 0 {
        let b = bytes[0];
        let rest = percent_encode_bytes(bytes.drop_first());
        lemma_percent_decode_inverts_encode(bytes.drop_first());
        let enc = percent_encode_bytes(bytes);
        if is_unreserved_byte(b) {
            let head = seq![b as char];
            assert(enc == head + rest);
            assert(enc[0] == b as char);
            assert((b as char) as u8 == b);
            assert(enc.drop_first() =~= rest);
            assert(percent_decode(enc) == seq![b] + percent_decode(rest));
        } else {
            let hi = b / 16;
            let lo = b % 16;
            let head = seq!['%', hex_digit_upper(hi), hex_digit_upper(lo)];
            assert(enc == head + rest);
            assert(enc[0] == '%' && enc[1] == hex_digit_upper(hi) && enc[2] == hex_digit_upper(lo));
            assert(hex_value(hex_digit_upper(hi)) == hi);
            assert(hex_value(hex_digit_upper(lo)) == lo);
            assert(hi * 16 + lo == b);
            assert(enc.subrange(3, enc.len() as int) =~= rest);
            assert(percent_decode(enc) == seq![b] + percent_decode(rest));
        }
        assert(seq![b] + bytes.drop_first() =~= bytes);
    }
}

/// The user and room values of the widget address decode back to the user
/// and room ids: percent-decoding `url_encoded(id)` gives the UTF-8 bytes of
/// `id`, and those bytes decode to `id`.
pub proof fn lemma_url_encoded_decodes_back(id: Seq<char>)
    ensures
        percent_decode(url_encoded(id)) == encode_utf8(id),
        decode_utf8(percent_decode(url_encoded(id))) == id,
{
    lemma_percent_decode_inverts_encode(encode_utf8(id));
    encode_utf8_decode_utf8(id);
}

/// Every character of `v` may stand in a query value unescaped.
pub open spec fn is_query_safe_text(v: Seq<char>) -> bool {
    forall|i: int| 0 <= i < v.len() ==> is_query_safe_char(#[trigger] v[i])
}

/// The widget address carries the whole user id and the whole room id: it
/// has a `userId` value, followed by `&deviceId=`, and a `roomId` value,
/// followed by the fixed tail of the address; both values are query-safe (so
/// they end at the next `&`), and percent-decoding them gives the UTF-8 bytes
/// of the user id and of the room id, which decode to those ids.
pub proof fn lemma_url_carries_user_and_room(room_id: Seq<char>, user_id: Seq<char>, widget_id: Seq<char>)
    ensures
        exists|head: Seq<char>, value: Seq<char>, rest: Seq<char>| {
            &&& element_call_url(room_id, user_id, widget_id) == head + "&userId="@ + value + "&deviceId="@ + rest
            &&& is_query_safe_text(value)
            &&& decode_utf8(percent_decode(value)) == user_id
        },
        exists|head: Seq<char>, value: Seq<char>| {
            &&& element_call_url(room_id, user_id, widget_id) == head + "&roomId="@ + value
                + "&lang=en-us&fontScale=1&preload=&baseUrl=https%3A%2F%2Fmatrix-client.matrix.org"@
            &&& is_query_safe_text(value)
            &&& decode_utf8(percent_decode(value)) == room_id
        },
{
    reveal_strlit("&embed=&hideHeader=&userId=");
    reveal_strlit("&embed=&hideHeader=");
    reveal_strlit("&userId=");
    reveal_strlit("&deviceId=ONLDUUSMTR&roomId=");
    reveal_strlit("&deviceId=");
    reveal_strlit("ONLDUUSMTR&roomId=");
    reveal_strlit("&deviceId=ONLDUUSMTR");
    reveal_strlit("&roomId=");
    let tail = "&lang=en-us&fontScale=1&preload=&baseUrl=https%3A%2F%2Fmatrix-client.matrix.org"@;
    let a = element_call_url(room_id, user_id, widget_id);
    let eu = url_encoded(user_id);
    let er = url_encoded(room_id);
    let start = BASE_URL@ + "/room?widgetId="@ + widget_id + "&parentUrl="@ + url_encoded(BASE_URL@);
    assert("&embed=&hideHeader=&userId="@ =~= "&embed=&hideHeader="@ + "&userId="@);
    assert("&deviceId=ONLDUUSMTR&roomId="@ =~= "&deviceId="@ + "ONLDUUSMTR&roomId="@);
    assert("&deviceId=ONLDUUSMTR&roomId="@ =~= "&deviceId=ONLDUUSMTR"@ + "&roomId="@);

    lemma_url_encoded_is_query_safe(user_id);
    lemma_url_encoded_is_query_safe(room_id);
    lemma_url_encoded_decodes_back(user_id);
    lemma_url_encoded_decodes_back(room_id);

    let uhead = start + "&embed=&hideHeader="@;
    let urest = "ONLDUUSMTR&roomId="@ + er + tail;
    assert(a =~= uhead + "&userId="@ + eu + "&deviceId="@ + urest);
    assert(is_query_safe_text(eu));

    let rhead = start + "&embed=&hideHeader=&userId="@ + eu + "&deviceId=ONLDUUSMTR"@;
    assert(a =~= rhead + "&roomId="@ + er + tail);
    assert(is_query_safe_text(er));
}

} // verus!
