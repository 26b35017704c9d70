//! The local control port: what a request is let through for, and what it
//! asks for.
//!
//! The port listens on the loopback address only, and every request has to
//! carry the token from the config. Listening and answering are the
//! program's business; the rules that decide live here.
use vstd::prelude::*;
use crate::text::{ascii_lower, chars_of, hex_padded, opt_string, push_char, same_text, to_ascii_lower};
use vstd::utf8::{decode_utf8, encode_utf8, encode_utf8_decode_utf8};

verus! {

/// The handshake file next to `config.json`. The plugin reads port and token
/// from here.
pub const HANDOFF: &'static str = "streamdeck.json";

/// Which header carries the token.
pub const TOKEN_HEADER: &'static str = "x-clippiboy-token";

/// What the comparison of a supplied token with the configured one says.
pub open spec fn tokens_match(a: Seq<char>, b: Seq<char>) -> bool {
    a.len() > 0 && a == b
}

proof fn lemma_bytes_tell_text_apart(a: Seq<char>, b: Seq<char>)
    ensures
        (encode_utf8(a) == encode_utf8(b)) == (a == b),
        (encode_utf8(a).len() == 0) == (a.len() == 0),
{
    encode_utf8_decode_utf8(a);
    encode_utf8_decode_utf8(b);
    if a.len() > 0 && encode_utf8(a).len() == 0 {
        assert(encode_utf8(a) =~= Seq::<u8>::empty());
        assert(decode_utf8(Seq::<u8>::empty()) =~= Seq::<char>::empty());
    }
}

/// Compare without giving away how far the match got. An empty token never
/// matches anything.
pub fn equals(a: &str, b: &str) -> (r: bool)
    ensures
        r == tokens_match(a@, b@),
{
    let x = a.as_bytes();
    let y = b.as_bytes();
    proof {
        lemma_bytes_tell_text_apart(a@, b@);
    }
    if x.len() == 0 || x.len() != y.len() {
        return false;
    }
    let mut differing: u8 = 0;
    let mut i: usize = 0;
    while i < x.len()
        invariant
            x@ == encode_utf8(a@),
            y@ == encode_utf8(b@),
            x@.len() == y@.len(),
            i <= x@.len(),
            (differing == 0) == (forall|j: int| 0 <= j < i ==> x@[j] == y@[j]),
        decreases x@.len() - i,
    {
        let (p, q) = (x[i], y[i]);
        let d = differing;
        assert(((d | (p ^ q)) == 0) == (d == 0 && p == q)) by (bit_vector);
        differing = differing | (x[i] ^ y[i]);
        i = i + 1;
    }
    proof {
        if differing == 0 {
            assert(x@ =~= y@);
        }
    }
    differing == 0
}

/// The header names a browser sets on a cross-site request.
pub open spec fn from_browser_name(name: Seq<char>) -> bool {
    name == "origin"@ || name == "referer"@ || name == "sec-fetch-site"@
}

/// Did any of these headers come from a browser?
pub open spec fn any_from_browser(names: Seq<Seq<char>>) -> bool {
    exists|i: int| 0 <= i < names.len() && from_browser_name(ascii_lower(#[trigger] names[i]))
}

/// The token the request carries: the last token header's value.
pub open spec fn supplied_token(headers: Seq<(Seq<char>, Seq<char>)>) -> Option<Seq<char>>
    decreases headers.len(),
{
    if headers.len() == 0 {
        None
    } else if ascii_lower(headers.last().0) == TOKEN_HEADER@ {
        Some(headers.last().1)
    } else {
        supplied_token(headers.drop_last())
    }
}

pub open spec fn header_view(headers: Seq<(String, String)>) -> Seq<(Seq<char>, Seq<char>)> {
    Seq::new(headers.len(), |i: int| (headers[i].0@, headers[i].1@))
}

/// A request is let through when no header says it came from a browser and
/// the token it carries matches the configured one.
pub open spec fn authorized_spec(headers: Seq<(Seq<char>, Seq<char>)>, token: Seq<char>) -> bool {
    &&& !any_from_browser(Seq::new(headers.len(), |i: int| headers[i].0))
    &&& supplied_token(headers) matches Some(s)
    &&& tokens_match(s, token)
}

/// Is this request allowed in? Headers are given as name and value.
///
/// A browser sets `Origin` on every cross-site request it makes; nothing that
/// belongs here ever sends one, so refusing them closes the door on a web
/// page firing clips through a rebound DNS name, even one that knew the token.
pub fn authorized(headers: &[(String, String)], token: &str) -> (ok: bool)
    ensures
        ok == authorized_spec(header_view(headers@), token@),
{
    let ghost hv = header_view(headers@);
    let ghost names = Seq::new(hv.len(), |i: int| hv[i].0);
    let mut supplied: Option<String> = None;
    let mut from_browser = false;
    let mut i: usize = 0;
    while i < headers.len()
        invariant
            hv == header_view(headers@),
            names == Seq::new(hv.len(), |i: int| hv[i].0),
            i <= headers@.len(),
            opt_string(supplied) == supplied_token(hv.take(i as int)),
            from_browser == exists|j: int|
                0 <= j < i && from_browser_name(ascii_lower(#[trigger] names[j])),
        decreases headers@.len() - i,
    {
        let name = to_ascii_lower(headers[i].0.as_str());
        assert(hv.take(i as int + 1).drop_last() =~= hv.take(i as int));
        if same_text(name.as_str(), "origin") || same_text(name.as_str(), "referer") || same_text(
            name.as_str(),
            "sec-fetch-site",
        ) {
            from_browser = true;
            proof {
                reveal_strlit("origin");
                reveal_strlit("referer");
                reveal_strlit("sec-fetch-site");
                reveal_strlit("x-clippiboy-token");
                assert(name@ != TOKEN_HEADER@) by {
                    assert(name@.len() != TOKEN_HEADER@.len());
                }
            }
            assert(from_browser_name(ascii_lower(names[i as int])));
        } else if same_text(name.as_str(), TOKEN_HEADER) {
            supplied = Some(headers[i].1.clone());
        }
        proof {
            assert(from_browser == exists|j: int|
                0 <= j < i + 1 && from_browser_name(ascii_lower(#[trigger] names[j]))) by {
                if from_browser_name(ascii_lower(names[i as int])) {
                    assert(0 <= i < i + 1);
                }
            }
        }
        i = i + 1;
    }
    assert(hv.take(i as int) =~= hv);
    match supplied {
        Some(s) => !from_browser && equals(s.as_str(), token),
        None => false,
    }
}

} // verus!

verus! {

/// How a request was sent.
#[derive(Debug, Clone, Copy, PartialEq, Eq, Structural)]
pub enum HttpMethod {
    Get,
    Post,
    Other,
}

/// What a request asks for.
#[derive(Debug, Clone, Copy, PartialEq, Eq, Structural)]
pub enum Route {
    /// How things stand: the buffer, the game, the encoder.
    Status,
    /// Save a clip.
    Clip,
    /// Take a screenshot.
    Screenshot,
    /// Start, stop or toggle the buffer.
    Buffer,
    /// Anything else.
    NotFound,
}

/// The part of a URL before its query.
pub open spec fn path_of(url: Seq<char>) -> Seq<char> {
    if exists|i: int| 0 <= i < url.len() && url[i] == '?' {
        url.take(choose|i: int| 0 <= i < url.len() && url[i] == '?' && forall|j: int| 0 <= j < i ==> url[j] != '?')
    } else {
        url
    }
}

pub open spec fn route_spec(method: HttpMethod, url: Seq<char>) -> Route {
    let path = path_of(url);
    if method == HttpMethod::Get && path == "/v1/status"@ {
        Route::Status
    } else if method == HttpMethod::Post && path == "/v1/clip"@ {
        Route::Clip
    } else if method == HttpMethod::Post && path == "/v1/screenshot"@ {
        Route::Screenshot
    } else if method == HttpMethod::Post && path == "/v1/buffer"@ {
        Route::Buffer
    } else {
        Route::NotFound
    }
}

/// The path of a request URL, without its query: a stray `?x=1` is no
/// reason for a 404.
pub fn path_part(url: &str) -> (p: String)
    ensures
        p@ == path_of(url@),
{
    let chars = chars_of(url);
    let mut out = String::new();
    let mut i: usize = 0;
    while i < chars.len()
        invariant
            chars@ == url@,
            i <= chars@.len(),
            out@ == url@.take(i as int),
            forall|j: int| 0 <= j < i ==> url@[j] != '?',
        decreases chars@.len() - i,
    {
        if chars[i] == '?' {
            proof {
                let k = choose|k: int| 0 <= k < url@.len() && url@[k] == '?' && forall|j: int| 0 <= j < k ==> url@[j] != '?';
                if k < i {
                    assert(url@[k] != '?');
                } else if k > i {
                    assert(url@[i as int] != '?');
                }
            }
            return out;
        }
        push_char(&mut out, chars[i]);
        assert(url@.take(i as int + 1) =~= url@.take(i as int).push(chars@[i as int]));
        i = i + 1;
    }
    assert(url@.take(i as int) =~= url@);
    out
}

/// Which of the port's routes a request asks for.
pub fn route(method: HttpMethod, url: &str) -> (r: Route)
    ensures
        r == route_spec(method, url@),
{
    let path = path_part(url);
    let p = path.as_str();
    if method == HttpMethod::Get && same_text(p, "/v1/status") {
        Route::Status
    } else if method == HttpMethod::Post && same_text(p, "/v1/clip") {
        Route::Clip
    } else if method == HttpMethod::Post && same_text(p, "/v1/screenshot") {
        Route::Screenshot
    } else if method == HttpMethod::Post && same_text(p, "/v1/buffer") {
        Route::Buffer
    } else {
        Route::NotFound
    }
}

/// What a press on the buffer key asks for.
#[derive(Debug, Clone, Copy, PartialEq, Eq, Structural)]
pub enum BufferAction {
    Toggle,
    Start,
    Stop,
}

/// The answer to an action field: none means toggle; anything but the three
/// known words is refused, by name.
pub open spec fn action_spec(field: Option<Seq<char>>) -> Result<BufferAction, Seq<char>> {
    match field {
        None => Ok(BufferAction::Toggle),
        Some(a) => if a == "toggle"@ {
            Ok(BufferAction::Toggle)
        } else if a == "start"@ {
            Ok(BufferAction::Start)
        } else if a == "stop"@ {
            Ok(BufferAction::Stop)
        } else {
            Err("unknown action '"@ + a + "'"@)
        },
    }
}

/// The buffer action named by a request's `action` field.
pub fn action_from(field: Option<&str>) -> (r: Result<BufferAction, String>)
    ensures
        match (r, action_spec(crate::text::opt_text(field))) {
            (Ok(a), Ok(b)) => a == b,
            (Err(e), Err(f)) => e@ == f,
            _ => false,
        },
{
    match field {
        None => Ok(BufferAction::Toggle),
        Some(a) => {
            if same_text(a, "toggle") {
                Ok(BufferAction::Toggle)
            } else if same_text(a, "start") {
                Ok(BufferAction::Start)
            } else if same_text(a, "stop") {
                Ok(BufferAction::Stop)
            } else {
                let mut e = String::from_str("unknown action '");
                crate::text::push_str(&mut e, a);
                crate::text::push_str(&mut e, "'");
                Err(e)
            }
        },
    }
}

/// The string field `action` of a JSON body, if the body is JSON and holds
/// one.
pub uninterp spec fn json_action(body: Seq<char>) -> Option<Seq<char>>;

/// Trusted: `serde_json::from_str` into a `Value`, then `Value::get` of the
/// key `action` and `Value::as_str`. What JSON parsing gives back is not
/// written out here; the contract says only that the result is a function of
/// the body.
#[verifier::external_body]
fn read_action(body: &str) -> (r: Option<String>)
    ensures
        opt_string(r) == json_action(body@),
{
    serde_json::from_str::<serde_json::Value>(body).ok().and_then(
        |value| value.get("action")?.as_str().map(str::to_owned),
    )
}

/// The buffer action a request body asks for. A body that is not JSON, or
/// has no `action`, toggles.
pub fn buffer_action(body: &str) -> (r: Result<BufferAction, String>)
    ensures
        match (r, action_spec(json_action(body@))) {
            (Ok(a), Ok(b)) => a == b,
            (Err(e), Err(f)) => e@ == f,
            _ => false,
        },
{
    let field = read_action(body);
    match &field {
        Some(a) => action_from(Some(a.as_str())),
        None => action_from(None),
    }
}

pub open spec fn is_lower_hex(c: char) -> bool {
    ('0' <= c && c <= '9') || ('a' <= c && c <= 'f')
}

/// A UUID in its hyphenated lower-case form.
pub open spec fn is_uuid_text(s: Seq<char>) -> bool {
    &&& s.len() == 36
    &&& forall|i: int|
        0 <= i < 36 ==> if i == 8 || i == 13 || i == 18 || i == 23 {
            s[i] == '-'
        } else {
            is_lower_hex(#[trigger] s[i])
        }
}

/// The bytes of a version-4 UUID built from random bytes: the high nibble
/// of byte 6 is the version, 4, and the top two bits of byte 8 are the
/// RFC 4122 variant, `10`.
pub open spec fn v4_bytes(b: Seq<u8>) -> Seq<u8> {
    b.update(6, (b[6] & 0x0f) | 0x40).update(8, (b[8] & 0x3f) | 0x80)
}

/// The bytes `from..to` in lower-case hex, two digits each.
pub open spec fn hex_bytes(b: Seq<u8>, from: int, to: int) -> Seq<char>
    decreases to - from,
{
    if from >= to {
        Seq::empty()
    } else {
        hex_padded(b[from] as nat, 2, false) + hex_bytes(b, from + 1, to)
    }
}

/// A UUID written out hyphenated: groups of 4, 2, 2, 2 and 6 bytes.
pub open spec fn hyphenated(u: Seq<u8>) -> Seq<char> {
    hex_bytes(u, 0, 4) + seq!['-'] + hex_bytes(u, 4, 6) + seq!['-'] + hex_bytes(u, 6, 8) + seq!['-']
        + hex_bytes(u, 8, 10) + seq!['-'] + hex_bytes(u, 10, 16)
}

/// What a token made when none is configured yet can fail with.
pub const NO_RANDOM: &'static str = "no random bytes for a control token";

/// Sixteen random bytes from the system.
///
/// Trusted: `getrandom::fill`, which returns an error when the system will
/// not hand out random bytes; the bytes themselves are random, so nothing is
/// said of them.
#[verifier::external_body]
fn random_bytes() -> (r: Option<[u8; 16]>) {
    let mut bytes = [0u8; 16];
    match getrandom::fill(&mut bytes) {
        Ok(()) => Some(bytes),
        Err(_) => None,
    }
}

/// The version-4 UUID these random bytes make, written out.
///
/// Trusted: `uuid::Builder::from_random_bytes`, then `into_uuid` and
/// `to_string`: the builder sets the version and variant bits and keeps the
/// rest, and a `Uuid` displays hyphenated in lower-case hex, byte by byte in
/// order. Its result is therefore of the UUID form.
#[verifier::external_body]
fn uuid_text(bytes: [u8; 16]) -> (t: String)
    ensures
        t@ == hyphenated(v4_bytes(bytes@)),
        is_uuid_text(t@),
{
    uuid::Builder::from_random_bytes(bytes).into_uuid().to_string()
}

/// A fresh token from random bytes, or the error when there are none.
pub fn token_from(bytes: Option<[u8; 16]>) -> (r: Result<String, String>)
    ensures
        match bytes {
            Some(b) => r matches Ok(t) && t@ == hyphenated(v4_bytes(b@)) && is_uuid_text(t@),
            None => r matches Err(e) && e@ == NO_RANDOM@,
        },
{
    match bytes {
        Some(b) => Ok(uuid_text(b)),
        None => Err(String::from_str(NO_RANDOM)),
    }
}

/// The token from the config, or a fresh one when none was generated yet.
/// Making a fresh one fails only when the system hands out no random bytes.
pub fn ensure_token(existing: &str) -> (r: Result<String, String>)
    ensures
        existing@.len() > 0 ==> (r matches Ok(t) && t@ == existing@),
        existing@.len() == 0 ==> match r {
            Ok(t) => is_uuid_text(t@) && exists|b: Seq<u8>| b.len() == 16 && t@ == hyphenated(v4_bytes(b)),
            Err(e) => e@ == NO_RANDOM@,
        },
{
    if existing.is_empty() {
        let bytes = random_bytes();
        let r = token_from(bytes);
        proof {
            if let Some(b) = bytes {
                assert(b@.len() == 16);
            }
        }
        r
    } else {
        Ok(String::from_str(existing))
    }
}

} // verus!
