use clippiboy::control::{
    action_from, authorized, buffer_action, ensure_token, equals, path_part, route, token_from, BufferAction, HttpMethod, Route,
    NO_RANDOM,
};

#[test]
fn an_empty_token_matches_nothing() {
    assert!(!equals("", ""));
    assert!(!equals("something", ""));
    assert!(!equals("", "something"));
}

#[test]
fn the_token_has_to_match_whole() {
    assert!(equals("abc", "abc"));
    assert!(!equals("abc", "abd"));
    assert!(!equals("ab", "abc"));
    assert!(!equals("abcd", "abc"));
}

fn header(name: &str, value: &str) -> (String, String) {
    (name.to_string(), value.to_string())
}

#[test]
fn only_the_right_token_from_outside_a_browser_gets_in() {
    let token = "secret";
    assert!(authorized(&[header("X-ClippiBoy-Token", "secret")], token));
    assert!(!authorized(&[header("x-clippiboy-token", "wrong")], token));
    assert!(!authorized(&[], token));
    assert!(!authorized(&[header("x-clippiboy-token", "secret"), header("Origin", "http://evil.example")], token));
    assert!(!authorized(&[header("Referer", "x"), header("x-clippiboy-token", "secret")], token));
    // The last token header is the one that counts.
    assert!(authorized(&[header("x-clippiboy-token", "wrong"), header("x-clippiboy-token", "secret")], token));
}

#[test]
fn the_query_is_no_part_of_the_route() {
    assert_eq!(path_part("/v1/status?x=1"), "/v1/status");
    assert_eq!(route(HttpMethod::Get, "/v1/status?x=1"), Route::Status);
    assert_eq!(route(HttpMethod::Post, "/v1/clip"), Route::Clip);
    assert_eq!(route(HttpMethod::Post, "/v1/screenshot"), Route::Screenshot);
    assert_eq!(route(HttpMethod::Post, "/v1/buffer"), Route::Buffer);
    assert_eq!(route(HttpMethod::Post, "/v1/status"), Route::NotFound);
    assert_eq!(route(HttpMethod::Get, "/v1/clip"), Route::NotFound);
}

#[test]
fn the_buffer_key_toggles_unless_told_otherwise() {
    assert_eq!(buffer_action(""), Ok(BufferAction::Toggle));
    assert_eq!(buffer_action("not json"), Ok(BufferAction::Toggle));
    assert_eq!(buffer_action("{\"action\":\"start\"}"), Ok(BufferAction::Start));
    assert_eq!(buffer_action("{\"action\":\"stop\"}"), Ok(BufferAction::Stop));
    assert_eq!(buffer_action("{\"action\":\"jump\"}"), Err("unknown action 'jump'".to_string()));
    assert_eq!(action_from(Some("toggle")), Ok(BufferAction::Toggle));
    assert_eq!(action_from(None), Ok(BufferAction::Toggle));
}

#[test]
fn a_token_is_generated_once() {
    assert_eq!(ensure_token("kept"), Ok("kept".to_string()));
    let fresh = ensure_token("").expect("the system hands out random bytes");
    assert_eq!(fresh.len(), 36);
    for (i, c) in fresh.chars().enumerate() {
        if [8, 13, 18, 23].contains(&i) {
            assert_eq!(c, '-');
        } else {
            assert!(c.is_ascii_hexdigit() && !c.is_ascii_uppercase(), "{fresh}");
        }
    }
    assert_ne!(Ok(fresh), ensure_token(""));
}

#[test]
fn a_token_is_the_hyphenated_v4_uuid_of_its_bytes() {
    let bytes = [0xffu8; 16];
    assert_eq!(
        token_from(Some(bytes)),
        Ok("ffffffff-ffff-4fff-bfff-ffffffffffff".to_string())
    );
    let counting: [u8; 16] = [0, 1, 2, 3, 4, 5, 6, 7, 8, 9, 10, 11, 12, 13, 14, 15];
    assert_eq!(
        token_from(Some(counting)),
        Ok("00010203-0405-4607-8809-0a0b0c0d0e0f".to_string())
    );
    assert_eq!(token_from(None), Err(NO_RANDOM.to_string()));
}
