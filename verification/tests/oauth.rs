use base64::engine::general_purpose::URL_SAFE_NO_PAD;
use base64::Engine;
use syncblaze::oauth::{
    after_browser, after_wait, auth_url, begin_sign_in, begin_sign_in_from_draws, carries_token,
    exchange_code_for_id_token, oauth_callback_handler, redirect_uri, start_google_signin, token_reply,
    token_request, BodyRead, CallbackQuery, OAuthState, TokenReply, Waited, ERROR_PAGE,
    SIGN_IN_TIMEOUT_SECONDS, SUCCESS_PAGE,
};
use syncblaze::pkce::{
    challenge_from_digest, code_challenge_from_verifier, generate_code_verifier, random_draws, spell, CHARSET,
};

fn query(code: Option<&str>, error: Option<&str>, state: Option<&str>) -> CallbackQuery {
    CallbackQuery {
        code: code.map(|s| s.to_string()),
        error: error.map(|s| s.to_string()),
        state: state.map(|s| s.to_string()),
    }
}

/// Two sign-ins that wait under the state tokens `s1` and `s2`.
fn two() -> OAuthState<u32> {
    let mut state = OAuthState::default();
    begin_sign_in("id".to_string(), "v1".to_string(), "s1".to_string(), &mut state, 1u32);
    begin_sign_in("id".to_string(), "v2".to_string(), "s2".to_string(), &mut state, 2u32);
    state
}

#[test]
fn code_is_handed_to_its_sign_in() {
    let mut state = two();
    let reply = oauth_callback_handler(query(Some("c0de"), None, Some("s2")), &mut state);
    assert_eq!(reply.page, SUCCESS_PAGE);
    assert_eq!(reply.answer, Some((2, Ok("c0de".to_string()))));
    let reply = oauth_callback_handler(query(Some("other"), None, Some("s1")), &mut state);
    assert_eq!(reply.answer, Some((1, Ok("other".to_string()))));
}

#[test]
fn code_wins_over_error() {
    let mut state = two();
    let reply = oauth_callback_handler(query(Some("c"), Some("e"), Some("s1")), &mut state);
    assert_eq!(reply.page, SUCCESS_PAGE);
    assert_eq!(reply.answer, Some((1, Ok("c".to_string()))));
}

#[test]
fn error_is_handed_on() {
    let mut state = two();
    let reply = oauth_callback_handler(query(None, Some("access_denied"), Some("s1")), &mut state);
    assert_eq!(reply.page, ERROR_PAGE);
    assert_eq!(reply.answer, Some((1, Err("access_denied".to_string()))));
}

#[test]
fn callback_without_code_and_error_is_an_error() {
    let mut state = two();
    let reply = oauth_callback_handler(query(None, None, Some("s1")), &mut state);
    assert_eq!(reply.page, ERROR_PAGE);
    assert_eq!(reply.answer, Some((1, Err("No authorization code returned".to_string()))));
}

#[test]
fn stray_callback_disturbs_nobody() {
    let mut state = two();
    for stray in [None, Some("s3"), Some("")] {
        let reply = oauth_callback_handler(query(Some("c"), None, stray), &mut state);
        assert_eq!(reply.page, ERROR_PAGE);
        assert_eq!(reply.answer, None);
    }
    let reply = oauth_callback_handler(query(Some("c"), None, Some("s1")), &mut state);
    assert_eq!(reply.answer, Some((1, Ok("c".to_string()))));
}

#[test]
fn second_callback_is_stray() {
    let mut state = two();
    oauth_callback_handler(query(Some("c"), None, Some("s1")), &mut state);
    let reply = oauth_callback_handler(query(Some("c"), None, Some("s1")), &mut state);
    assert_eq!(reply.page, ERROR_PAGE);
    assert_eq!(reply.answer, None);
    let reply = oauth_callback_handler(query(Some("c"), None, Some("s2")), &mut state);
    assert_eq!(reply.answer, Some((2, Ok("c".to_string()))));
}

#[test]
fn pages_say_how_it_went() {
    assert_eq!(
        SUCCESS_PAGE,
        "<!doctype html><html><body style=\"font-family:system-ui,sans-serif;text-align:center;padding-top:4rem;color:#0f172a\"><h2>You're signed in.</h2><p>You can close this tab and return to SyncBlaze.</p></body></html>"
    );
    assert_eq!(
        ERROR_PAGE,
        "<!doctype html><html><body style=\"font-family:system-ui,sans-serif;text-align:center;padding-top:4rem;color:#0f172a\"><h2>Sign-in didn't complete.</h2><p>You can close this tab and try again in SyncBlaze.</p></body></html>"
    );
}

#[test]
fn redirect_goes_to_the_relay() {
    assert_eq!(redirect_uri(47811), "http://127.0.0.1:47811/oauth/callback");
    assert_eq!(redirect_uri(0), "http://127.0.0.1:0/oauth/callback");
}

#[test]
fn consent_page_has_all_parameters() {
    assert_eq!(
        auth_url("my id&x=1", "http://127.0.0.1:47811/oauth/callback", "CH", "S T"),
        "https://accounts.google.com/o/oauth2/v2/auth?client_id=my%20id%26x%3D1&redirect_uri=http%3A%2F%2F127.0.0.1%3A47811%2Foauth%2Fcallback&response_type=code&scope=openid%20email%20profile&code_challenge=CH&code_challenge_method=S256&state=S%20T&prompt=select_account"
    );
}

#[test]
fn values_are_percent_encoded() {
    let url = auth_url("aZ09-._~é€/\n", "", "", "");
    assert!(url.contains("?client_id=aZ09-._~%C3%A9%E2%82%AC%2F%0A&redirect_uri=&"));
}

#[test]
fn challenge_is_the_hash_of_the_verifier() {
    assert_eq!(
        code_challenge_from_verifier("dBjftJeZ4CVP-mB92K27uhbUJU1p1r_wW1gFWFOEjXk"),
        "E9Melhoa2OwvFrEMTJguCHaoeK1t8URWbuGJSstw-cM"
    );
    assert_eq!(code_challenge_from_verifier(""), "47DEQpj8HBSa-_TImW-5JCeuQeRkm5NMpJWZG3hSuFU");
}

#[test]
fn draws_are_spelled_out() {
    assert_eq!(CHARSET.len(), 66);
    assert_eq!(spell(&vec![0, 25, 26, 51, 52, 61, 62, 63, 64, 65]), "AZaz09-._~");
    assert_eq!(spell(&vec![]), "");
}

#[test]
fn verifiers_have_the_right_shape_and_differ() {
    let a = generate_code_verifier();
    let b = generate_code_verifier();
    for v in [&a, &b] {
        assert_eq!(v.len(), 64);
        assert!(v.chars().all(|c| CHARSET.contains(c)));
    }
    assert_ne!(a, b);
}

#[test]
fn sign_in_waits_under_its_state_token() {
    let mut state = OAuthState::default();
    let sign_in = start_google_signin("client".to_string(), &mut state, 5u32);
    assert_eq!(sign_in.client_id, "client");
    assert_eq!(sign_in.redirect_uri, "http://127.0.0.1:47811/oauth/callback");
    assert_ne!(sign_in.verifier, sign_in.state_token);
    assert_eq!(
        sign_in.auth_url,
        auth_url(
            "client",
            &sign_in.redirect_uri,
            &code_challenge_from_verifier(&sign_in.verifier),
            &sign_in.state_token,
        )
    );
    assert!(sign_in.auth_url.contains(&format!("&state={}&", sign_in.state_token)));
    let reply = oauth_callback_handler(query(Some("c"), None, Some(&sign_in.state_token)), &mut state);
    assert_eq!(reply.answer, Some((5, Ok("c".to_string()))));
}

#[test]
fn same_state_token_takes_the_place_of_the_old_sign_in() {
    let mut state = two();
    begin_sign_in("id".to_string(), "v3".to_string(), "s1".to_string(), &mut state, 3u32);
    let reply = oauth_callback_handler(query(Some("c"), None, Some("s1")), &mut state);
    assert_eq!(reply.answer, Some((3, Ok("c".to_string()))));
}

#[test]
fn browser_failure_ends_the_sign_in() {
    assert_eq!(after_browser(Ok(())), Ok(180));
    assert_eq!(SIGN_IN_TIMEOUT_SECONDS, 180);
    assert_eq!(
        after_browser(Err("no display".to_string())),
        Err("Couldn't open your browser: no display".to_string())
    );
}

#[test]
fn answered_sign_in_exchanges_its_code() {
    let mut state = OAuthState::default();
    let sign_in = begin_sign_in("id".to_string(), "ver".to_string(), "s".to_string(), &mut state, 1u32);
    let request = after_wait(&sign_in, Waited::Answered(Ok("c0de".to_string())), &mut state);
    let request = match request {
        Ok(request) => request,
        Err(error) => panic!("{}", error),
    };
    assert_eq!(request.url, "https://oauth2.googleapis.com/token");
    let pairs: Vec<(&str, &str)> = request.params.iter().map(|(k, v)| (k.as_str(), v.as_str())).collect();
    assert_eq!(
        pairs,
        vec![
            ("client_id", "id"),
            ("code", "c0de"),
            ("code_verifier", "ver"),
            ("redirect_uri", "http://127.0.0.1:47811/oauth/callback"),
            ("grant_type", "authorization_code"),
        ]
    );
}

fn error_of(waited: Waited) -> (String, bool) {
    let mut state = two();
    let sign_in = begin_sign_in("id".to_string(), "v".to_string(), "s".to_string(), &mut state, 9u32);
    let error = after_wait(&sign_in, waited, &mut state).err().unwrap();
    let waits = oauth_callback_handler(query(Some("c"), None, Some("s")), &mut state).answer.is_some();
    let others = oauth_callback_handler(query(Some("c"), None, Some("s1")), &mut state).answer;
    assert_eq!(others, Some((1, Ok("c".to_string()))));
    (error, waits)
}

#[test]
fn failed_waits_have_their_errors() {
    assert_eq!(
        error_of(Waited::Answered(Err("access_denied".to_string()))),
        ("Sign-in was cancelled or failed: access_denied".to_string(), true)
    );
    assert_eq!(error_of(Waited::Dropped), ("Sign-in was cancelled".to_string(), true));
    assert_eq!(error_of(Waited::TimedOut), ("Sign-in timed out. Please try again.".to_string(), false));
}

#[test]
fn token_request_has_no_secret() {
    let request = token_request("id", "c", "v", "r");
    assert!(request.params.iter().all(|(name, _)| name != "client_secret"));
}

#[test]
fn only_success_carries_a_token() {
    assert!(carries_token(200) && carries_token(204) && carries_token(299));
    assert!(!carries_token(199) && !carries_token(300) && !carries_token(400) && !carries_token(500));
}

#[test]
fn exchange_has_a_result_for_every_reply() {
    assert_eq!(
        exchange_code_for_id_token(TokenReply::Unreachable("dns".to_string())),
        Err("Couldn't reach Google: dns".to_string())
    );
    assert_eq!(
        exchange_code_for_id_token(TokenReply::Rejected(Some("bad".to_string()))),
        Err("Google rejected the sign-in: bad".to_string())
    );
    assert_eq!(
        exchange_code_for_id_token(TokenReply::Rejected(None)),
        Err("Google rejected the sign-in: ".to_string())
    );
    assert_eq!(
        exchange_code_for_id_token(TokenReply::Unreadable("eof".to_string())),
        Err("Unexpected response from Google: eof".to_string())
    );
    assert_eq!(exchange_code_for_id_token(TokenReply::Token("t".to_string())), Ok("t".to_string()));
}

#[test]
fn a_client_id_cannot_pose_as_other_parameters() {
    let honest = auth_url("id", "r", "CH", "S");
    let posing = auth_url("id&redirect_uri=evil", "r", "CH", "S");
    assert_ne!(honest, posing);
    assert_eq!(honest.matches('&').count(), posing.matches('&').count());
    assert_eq!(posing.matches("redirect_uri=").count(), 1);
    assert_ne!(auth_url("a%20b", "r", "CH", "S"), auth_url("a b", "r", "CH", "S"));
}

#[test]
fn challenges_are_url_safe_and_differ() {
    let mut seen: Vec<String> = vec![];
    for i in 0..50 {
        let challenge = code_challenge_from_verifier(&format!("verifier {}", i));
        assert_eq!(challenge.len(), 43);
        assert!(challenge.chars().all(|c| c.is_ascii_alphanumeric() || c == '-' || c == '_'));
        assert!(!seen.contains(&challenge));
        seen.push(challenge);
    }
}

#[test]
fn challenge_spells_the_digest() {
    assert_eq!(challenge_from_digest(&[0u8; 32]), "A".repeat(43));
    assert_eq!(challenge_from_digest(&[255u8; 32]), format!("{}8", "_".repeat(42)));
    let digest: Vec<u8> = (0u8..32).collect();
    assert_eq!(challenge_from_digest(&digest), "AAECAwQFBgcICQoLDA0ODxAREhMUFRYXGBkaGxwdHh8");
}

#[test]
fn challenge_reads_back_as_the_digest() {
    let challenge = code_challenge_from_verifier("abc");
    let digest = URL_SAFE_NO_PAD.decode(&challenge).unwrap();
    assert_eq!(digest.len(), 32);
    assert_eq!(digest[..4], [0xba, 0x78, 0x16, 0xbf]);
    assert_eq!(digest[28..], [0xf2, 0x00, 0x15, 0xad]);
    let alphabet = "ABCDEFGHIJKLMNOPQRSTUVWXYZabcdefghijklmnopqrstuvwxyz0123456789-_";
    assert!(challenge.chars().all(|c| alphabet.contains(c)));
}

#[test]
fn draws_stay_in_the_character_set() {
    let draws = random_draws();
    assert_eq!(draws.len(), 64);
    assert!(draws.iter().all(|d| *d < CHARSET.len()));
    assert_ne!(draws, random_draws());
}

#[test]
fn draws_decide_the_sign_in() {
    let mut state = OAuthState::default();
    let sign_in = begin_sign_in_from_draws("id".to_string(), &vec![0, 1, 2], &vec![65, 52], &mut state, 4u32);
    assert_eq!(sign_in.verifier, "ABC");
    assert_eq!(sign_in.state_token, "~0");
    assert_eq!(sign_in.client_id, "id");
    assert_eq!(
        sign_in.auth_url,
        auth_url("id", "http://127.0.0.1:47811/oauth/callback", &code_challenge_from_verifier("ABC"), "~0")
    );
    let reply = oauth_callback_handler(query(Some("c"), None, Some("~0")), &mut state);
    assert_eq!(reply.answer, Some((4, Ok("c".to_string()))));
}

#[test]
fn values_of_the_consent_page_read_back() {
    let url = auth_url("a b&c=%é", "http://127.0.0.1:1/x", "CH", "s+t");
    let (_, parameters) = url.split_once('?').unwrap();
    let read: Vec<(String, String)> = parameters
        .split('&')
        .map(|p| p.split_once('=').unwrap())
        .map(|(k, v)| (k.to_string(), urlencoding::decode(v).unwrap().to_string()))
        .collect();
    let value = |name: &str| read.iter().find(|(k, _)| k == name).map(|(_, v)| v.as_str());
    assert_eq!(value("client_id"), Some("a b&c=%é"));
    assert_eq!(value("redirect_uri"), Some("http://127.0.0.1:1/x"));
    assert_eq!(value("scope"), Some("openid email profile"));
    assert_eq!(value("code_challenge"), Some("CH"));
    assert_eq!(value("state"), Some("s+t"));
}

fn id_token(token: Result<&str, &str>) -> BodyRead {
    BodyRead::IdToken(token.map(|t| t.to_string()).map_err(|e| e.to_string()))
}

#[test]
fn status_decides_whether_the_exchange_was_rejected() {
    for status in [0u16, 199, 300, 400, 401, 500, 65535] {
        let reply = token_reply(status, BodyRead::Text(Some("bad".to_string())));
        assert!(matches!(reply, TokenReply::Rejected(Some(body)) if body == "bad"));
        assert!(matches!(token_reply(status, BodyRead::Text(None)), TokenReply::Rejected(None)));
        assert!(matches!(token_reply(status, id_token(Ok("t"))), TokenReply::Rejected(None)));
    }
    for status in [200u16, 201, 204, 299] {
        assert!(matches!(token_reply(status, id_token(Ok("t"))), TokenReply::Token(t) if t == "t"));
        assert!(matches!(token_reply(status, id_token(Err("eof"))), TokenReply::Unreadable(e) if e == "eof"));
        let reply = token_reply(status, BodyRead::Text(Some("x".to_string())));
        assert!(matches!(reply, TokenReply::Unreadable(e) if e == "x"));
        assert!(matches!(token_reply(status, BodyRead::Text(None)), TokenReply::Unreadable(e) if e.is_empty()));
    }
}

#[test]
fn exchange_follows_the_status_and_the_body() {
    assert_eq!(exchange_code_for_id_token(token_reply(200, id_token(Ok("t")))), Ok("t".to_string()));
    assert_eq!(
        exchange_code_for_id_token(token_reply(200, id_token(Err("eof")))),
        Err("Unexpected response from Google: eof".to_string())
    );
    assert_eq!(
        exchange_code_for_id_token(token_reply(400, BodyRead::Text(Some("bad".to_string())))),
        Err("Google rejected the sign-in: bad".to_string())
    );
}
