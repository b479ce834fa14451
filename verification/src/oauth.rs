//! Google sign-in through the system browser.
//!
//! A sign-in opens the consent page in the browser and waits. Google sends the
//! browser back to a loopback address with a code, or with an error. The code
//! and the verifier of the attempt are then exchanged for an id token. No client
//! secret takes part.
//!
//! Attempts are told apart by a random *state token*, so that one callback can
//! only end the attempt that it belongs to.

use crate::pkce::{
    challenge_text, code_challenge_from_verifier, is_verifier, lemma_spelled_is_verifier,
    random_draws, spell, spelled, CHARSET,
};
use crate::table::Table;
use crate::text::{decimal, decimal_text};
use crate::url::{url_encode, url_encoded};
use crate::wire::text_model;
use crate::LAN_RELAY_PORT;
use vstd::prelude::*;
use vstd::string::*;

verus! {

/// The page that the browser shows after a successful callback.
pub const SUCCESS_PAGE: &'static str = "<!doctype html><html><body style=\"font-family:system-ui,sans-serif;text-align:center;padding-top:4rem;color:#0f172a\"><h2>You're signed in.</h2><p>You can close this tab and return to SyncBlaze.</p></body></html>";

/// The page that the browser shows after any other callback.
pub const ERROR_PAGE: &'static str = "<!doctype html><html><body style=\"font-family:system-ui,sans-serif;text-align:center;padding-top:4rem;color:#0f172a\"><h2>Sign-in didn't complete.</h2><p>You can close this tab and try again in SyncBlaze.</p></body></html>";

/// The path that Google sends the browser back to.
pub const CALLBACK_PATH: &'static str = "/oauth/callback";

/// Where a code is exchanged for an id token.
pub const TOKEN_URL: &'static str = "https://oauth2.googleapis.com/token";

/// How long a sign-in waits for its callback, in seconds.
pub const SIGN_IN_TIMEOUT_SECONDS: u64 = 180;

/// The sign-ins that wait for a callback, by state token. `S` is what a sign-in
/// is told its answer through.
pub struct OAuthState<S> {
    pending: Table<S>,
}

impl<S> View for OAuthState<S> {
    type V = Map<Seq<char>, S>;

    closed spec fn view(&self) -> Map<Seq<char>, S> {
        self.pending@
    }
}

impl<S> Default for OAuthState<S> {
    fn default() -> (state: Self)
        ensures
            state@ == Map::<Seq<char>, S>::empty(),
    {
        OAuthState { pending: Table::new() }
    }
}

/// The parameters of a callback.
pub struct CallbackQuery {
    pub code: Option<String>,
    pub error: Option<String>,
    pub state: Option<String>,
}

/// What a callback leads to: the page for the browser, and the sign-in to tell
/// its answer, a code or an error.
pub struct CallbackReply<S> {
    pub page: &'static str,
    pub answer: Option<(S, Result<String, String>)>,
}

/// The content of a result.
pub open spec fn result_model(result: Result<String, String>) -> Result<Seq<char>, Seq<char>> {
    match result {
        Ok(value) => Ok(value@),
        Err(error) => Err(error@),
    }
}

/// The answer that the parameters of a callback amount to: the code, if there
/// is one, or else the error.
pub open spec fn callback_answer(
    code: Option<Seq<char>>,
    error: Option<Seq<char>>,
) -> Result<Seq<char>, Seq<char>> {
    match (code, error) {
        (Some(code), _) => Ok(code),
        (None, Some(error)) => Err(error),
        (None, None) => Err("No authorization code returned"@),
    }
}

/// The sign-in that a callback belongs to: the one that waits under the state
/// token of the callback.
pub open spec fn awaited<S>(
    pending: Map<Seq<char>, S>,
    state_token: Option<Seq<char>>,
) -> Option<S> {
    match state_token {
        Some(token) => if pending.contains_key(token) {
            Some(pending[token])
        } else {
            None
        },
        None => None,
    }
}

/// The sign-ins that wait after a callback: the one that it belongs to does not
/// wait any more.
pub open spec fn still_pending<S>(
    pending: Map<Seq<char>, S>,
    state_token: Option<Seq<char>>,
) -> Map<Seq<char>, S> {
    match state_token {
        Some(token) => pending.remove(token),
        None => pending,
    }
}

/// How a callback is served: which sign-ins wait afterwards, which page the browser
/// shows, and which sign-in is told what.
pub open spec fn callback_is_served<S>(
    q: CallbackQuery,
    pending: Map<Seq<char>, S>,
    after: Map<Seq<char>, S>,
    reply: CallbackReply<S>,
) -> bool {
    &&& after == still_pending(pending, text_model(q.state))
    &&& match awaited(pending, text_model(q.state)) {
        Some(waiter) => {
            let answer = callback_answer(text_model(q.code), text_model(q.error));
            &&& reply.answer is Some
            &&& reply.answer.unwrap().0 == waiter
            &&& result_model(reply.answer.unwrap().1) == answer
            &&& reply.page@ == if answer is Ok {
                SUCCESS_PAGE@
            } else {
                ERROR_PAGE@
            }
        },
        None => reply.answer is None && reply.page@ == ERROR_PAGE@,
    }
}

/// Serves a callback.
pub fn oauth_callback_handler<S>(q: CallbackQuery, state: &mut OAuthState<S>) -> (reply:
    CallbackReply<S>)
    ensures
        final(state)@ == still_pending(old(state)@, text_model(q.state)),
        match awaited(old(state)@, text_model(q.state)) {
            Some(waiter) => {
                let answer = callback_answer(text_model(q.code), text_model(q.error));
                &&& reply.answer matches Some((told, said)) && told == waiter && result_model(
                    said,
                ) == answer
                &&& reply.page@ == if answer is Ok {
                    SUCCESS_PAGE@
                } else {
                    ERROR_PAGE@
                }
            },
            None => reply.answer is None && reply.page@ == ERROR_PAGE@,
        },
        callback_is_served(q, old(state)@, final(state)@, reply),
        q.state is None || !old(state)@.contains_key(q.state.unwrap()@) ==> {
            &&& final(state)@ == old(state)@
            &&& reply.answer is None
            &&& reply.page@ == ERROR_PAGE@
        },
        q.state is Some && old(state)@.contains_key(q.state.unwrap()@) ==> {
            &&& final(state)@ == old(state)@.remove(q.state.unwrap()@)
            &&& reply.answer is Some
            &&& reply.answer.unwrap().0 == old(state)@[q.state.unwrap()@]
            &&& match reply.answer.unwrap().1 {
                Ok(said) => q.code is Some && said@ == q.code.unwrap()@,
                Err(said) => q.code is None && said@ == if q.error is Some {
                    q.error.unwrap()@
                } else {
                    "No authorization code returned"@
                },
            }
            &&& reply.page@ == if q.code is Some {
                SUCCESS_PAGE@
            } else {
                ERROR_PAGE@
            }
        },
{
    assert(q.state is None || !state@.contains_key(q.state.unwrap()@) ==> still_pending(
        state@,
        text_model(q.state),
    ) =~= state@);
    let request_state = match q.state {
        Some(request_state) => request_state,
        None => {
            return CallbackReply { page: ERROR_PAGE, answer: None };
        },
    };
    let waiter = match state.pending.remove(&request_state) {
        Some(waiter) => waiter,
        None => {
            return CallbackReply { page: ERROR_PAGE, answer: None };
        },
    };
    match (q.code, q.error) {
        (Some(code), _) => CallbackReply { page: SUCCESS_PAGE, answer: Some((waiter, Ok(code))) },
        (None, Some(error)) => CallbackReply {
            page: ERROR_PAGE,
            answer: Some((waiter, Err(error))),
        },
        (None, None) => CallbackReply {
            page: ERROR_PAGE,
            answer: Some((waiter, Err("No authorization code returned".to_owned()))),
        },
    }
}

/// The address that Google sends the browser back to: the callback path on this
/// machine.
pub open spec fn redirect_uri_text(port: u16) -> Seq<char> {
    "http://127.0.0.1:"@ + decimal_text(port as nat) + CALLBACK_PATH@
}

/// The address of the consent page.
pub open spec fn auth_url_text(
    client_id: Seq<char>,
    redirect_uri: Seq<char>,
    challenge: Seq<char>,
    state_token: Seq<char>,
) -> Seq<char> {
    "https://accounts.google.com/o/oauth2/v2/auth?client_id="@ + url_encoded(client_id)
        + "&redirect_uri="@ + url_encoded(redirect_uri) + "&response_type=code&scope="@
        + url_encoded("openid email profile"@) + "&code_challenge="@ + challenge
        + "&code_challenge_method=S256&state="@ + url_encoded(state_token)
        + "&prompt=select_account"@
}

/// A sign-in under way.
pub struct SignIn {
    pub client_id: String,
    pub verifier: String,
    pub redirect_uri: String,
    pub state_token: String,
    /// The page to open in the browser.
    pub auth_url: String,
}

/// What a sign-in is made of, given the client and its two random texts.
pub open spec fn is_sign_in(
    sign_in: SignIn,
    client_id: Seq<char>,
    verifier: Seq<char>,
    state_token: Seq<char>,
) -> bool {
    &&& sign_in.client_id@ == client_id
    &&& sign_in.verifier@ == verifier
    &&& sign_in.state_token@ == state_token
    &&& sign_in.redirect_uri@ == redirect_uri_text(LAN_RELAY_PORT)
    &&& sign_in.auth_url@ == auth_url_text(
        client_id,
        redirect_uri_text(LAN_RELAY_PORT),
        challenge_text(verifier),
        state_token,
    )
}

/// Writes the address that Google sends the browser back to.
pub fn redirect_uri(port: u16) -> (uri: String)
    ensures
        uri@ == redirect_uri_text(port),
        uri@ == "http://127.0.0.1:"@ + decimal_text(port as nat) + "/oauth/callback"@,
{
    let mut uri = "http://127.0.0.1:".to_owned();
    uri.append(decimal(port).as_str());
    uri.append(CALLBACK_PATH);
    uri
}

/// Writes the address of the consent page.
pub fn auth_url(client_id: &str, redirect_uri: &str, challenge: &str, state_token: &str) -> (url:
    String)
    ensures
        url@ == auth_url_text(client_id@, redirect_uri@, challenge@, state_token@),
{
    let mut url = "https://accounts.google.com/o/oauth2/v2/auth?client_id=".to_owned();
    url.append(url_encode(client_id).as_str());
    url.append("&redirect_uri=");
    url.append(url_encode(redirect_uri).as_str());
    url.append("&response_type=code&scope=");
    url.append(url_encode("openid email profile").as_str());
    url.append("&code_challenge=");
    url.append(challenge);
    url.append("&code_challenge_method=S256&state=");
    url.append(url_encode(state_token).as_str());
    url.append("&prompt=select_account");
    url
}

/// Begins a sign-in with given random texts: from now on it waits under its
/// state token.
pub fn begin_sign_in<S>(
    client_id: String,
    verifier: String,
    state_token: String,
    oauth_state: &mut OAuthState<S>,
    waiter: S,
) -> (sign_in: SignIn)
    ensures
        is_sign_in(sign_in, client_id@, verifier@, state_token@),
        sign_in.client_id@ == client_id@,
        sign_in.verifier@ == verifier@,
        sign_in.state_token@ == state_token@,
        final(oauth_state)@ == old(oauth_state)@.insert(state_token@, waiter),
{
    let challenge = code_challenge_from_verifier(verifier.as_str());
    let redirect_uri = redirect_uri(LAN_RELAY_PORT);
    oauth_state.pending.insert(state_token.clone(), waiter);
    let auth_url = auth_url(
        client_id.as_str(),
        redirect_uri.as_str(),
        challenge.as_str(),
        state_token.as_str(),
    );
    SignIn { client_id, verifier, redirect_uri, state_token, auth_url }
}

/// Begins a sign-in with given draws, some for its verifier and others for its
/// state token.
pub fn begin_sign_in_from_draws<S>(
    client_id: String,
    verifier_draws: &Vec<usize>,
    state_draws: &Vec<usize>,
    oauth_state: &mut OAuthState<S>,
    waiter: S,
) -> (sign_in: SignIn)
    requires
        forall|i: int|
            0 <= i < verifier_draws@.len() ==> #[trigger] verifier_draws@[i] < CHARSET@.len(),
        forall|i: int| 0 <= i < state_draws@.len() ==> #[trigger] state_draws@[i] < CHARSET@.len(),
    ensures
        is_sign_in(sign_in, client_id@, spelled(verifier_draws@), spelled(state_draws@)),
        sign_in.client_id@ == client_id@,
        sign_in.verifier@ == Seq::new(
            verifier_draws@.len(),
            |i: int| CHARSET@[verifier_draws@[i] as int],
        ),
        sign_in.state_token@ == Seq::new(
            state_draws@.len(),
            |i: int| CHARSET@[state_draws@[i] as int],
        ),
        final(oauth_state)@ == old(oauth_state)@.insert(sign_in.state_token@, waiter),
        final(oauth_state)@ == old(oauth_state)@.insert(spelled(state_draws@), waiter),
{
    let verifier = spell(verifier_draws);
    let state_token = spell(state_draws);
    begin_sign_in(client_id, verifier, state_token, oauth_state, waiter)
}

/// Begins a sign-in with fresh random texts, its verifier and its state token each
/// out of draws of its own. Which texts they are depends on chance; what they lead
/// to is what `begin_sign_in_from_draws` makes of the draws.
pub fn start_google_signin<S>(
    client_id: String,
    oauth_state: &mut OAuthState<S>,
    waiter: S,
) -> (sign_in: SignIn)
    ensures
        is_verifier(sign_in.verifier@),
        is_verifier(sign_in.state_token@),
        is_sign_in(sign_in, client_id@, sign_in.verifier@, sign_in.state_token@),
        sign_in.client_id@ == client_id@,
        sign_in.verifier@.len() == 64,
        sign_in.state_token@.len() == 64,
        final(oauth_state)@ == old(oauth_state)@.insert(sign_in.state_token@, waiter),
{
    let verifier_draws = random_draws();
    let state_draws = random_draws();
    proof {
        lemma_spelled_is_verifier(verifier_draws@);
        lemma_spelled_is_verifier(state_draws@);
    }
    begin_sign_in_from_draws(client_id, &verifier_draws, &state_draws, oauth_state, waiter)
}

/// What opening the browser leads to: how many seconds to wait for the
/// callback, or the error that ends the sign-in.
pub fn after_browser(opened: Result<(), String>) -> (next: Result<u64, String>)
    ensures
        match opened {
            Ok(_) => next == Ok::<u64, String>(SIGN_IN_TIMEOUT_SECONDS),
            Err(reason) => next matches Err(error) && error@ == "Couldn't open your browser: "@
                + reason@,
        },
{
    match opened {
        Ok(_) => Ok(SIGN_IN_TIMEOUT_SECONDS),
        Err(reason) => Err("Couldn't open your browser: ".to_owned().concat(reason.as_str())),
    }
}

/// How the wait for a callback ended.
pub enum Waited {
    /// A callback came, with a code or an error.
    Answered(Result<String, String>),
    /// Nobody is left who could tell the answer.
    Dropped,
    /// The time was up.
    TimedOut,
}

/// A request that exchanges a code for an id token.
pub struct TokenRequest {
    pub url: String,
    pub params: Vec<(String, String)>,
}

/// The content of a `TokenRequest`.
#[verifier::ext_equal]
pub struct TokenModel {
    pub url: Seq<char>,
    pub params: Seq<(Seq<char>, Seq<char>)>,
}

impl View for TokenRequest {
    type V = TokenModel;

    open spec fn view(&self) -> TokenModel {
        TokenModel {
            url: self.url@,
            params: self.params@.map_values(|p: (String, String)| (p.0@, p.1@)),
        }
    }
}

/// The request that exchanges a code for an id token.
pub open spec fn token_model(
    client_id: Seq<char>,
    code: Seq<char>,
    verifier: Seq<char>,
    redirect_uri: Seq<char>,
) -> TokenModel {
    TokenModel {
        url: TOKEN_URL@,
        params: seq![
            ("client_id"@, client_id),
            ("code"@, code),
            ("code_verifier"@, verifier),
            ("redirect_uri"@, redirect_uri),
            ("grant_type"@, "authorization_code"@),
        ],
    }
}

/// Writes the request that exchanges a code for an id token.
pub fn token_request(client_id: &str, code: &str, verifier: &str, redirect_uri: &str) -> (request:
    TokenRequest)
    ensures
        request@ == token_model(client_id@, code@, verifier@, redirect_uri@),
        request.url@ == "https://oauth2.googleapis.com/token"@,
        request.params@.len() == 5,
        request.params@[0].0@ == "client_id"@ && request.params@[0].1@ == client_id@,
        request.params@[1].0@ == "code"@ && request.params@[1].1@ == code@,
        request.params@[2].0@ == "code_verifier"@ && request.params@[2].1@ == verifier@,
        request.params@[3].0@ == "redirect_uri"@ && request.params@[3].1@ == redirect_uri@,
        request.params@[4].0@ == "grant_type"@,
        request.params@[4].1@ == "authorization_code"@,
{
    let mut params: Vec<(String, String)> = Vec::new();
    params.push(("client_id".to_owned(), client_id.to_owned()));
    params.push(("code".to_owned(), code.to_owned()));
    params.push(("code_verifier".to_owned(), verifier.to_owned()));
    params.push(("redirect_uri".to_owned(), redirect_uri.to_owned()));
    params.push(("grant_type".to_owned(), "authorization_code".to_owned()));
    let request = TokenRequest { url: TOKEN_URL.to_owned(), params };
    assert(request@.params =~= token_model(client_id@, code@, verifier@, redirect_uri@).params);
    request
}

/// What the end of the wait leads to: the request that exchanges the code, or
/// the error that ends the sign-in. A sign-in that timed out waits no longer.
pub fn after_wait<S>(sign_in: &SignIn, waited: Waited, oauth_state: &mut OAuthState<S>) -> (next:
    Result<TokenRequest, String>)
    ensures
        final(oauth_state)@ == if waited is TimedOut {
            old(oauth_state)@.remove(sign_in.state_token@)
        } else {
            old(oauth_state)@
        },
        match waited {
            Waited::Answered(Ok(code)) => next matches Ok(request) && request@ == token_model(
                sign_in.client_id@,
                code@,
                sign_in.verifier@,
                sign_in.redirect_uri@,
            ),
            Waited::Answered(Err(reason)) => next matches Err(error) && error@
                == "Sign-in was cancelled or failed: "@ + reason@,
            Waited::Dropped => next matches Err(error) && error@ == "Sign-in was cancelled"@,
            Waited::TimedOut => next matches Err(error) && error@
                == "Sign-in timed out. Please try again."@,
        },
        next is Ok <==> waited is Answered && waited->Answered_0 is Ok,
        next is Ok ==> {
            let request = next.unwrap();
            let code = waited->Answered_0.unwrap();
            &&& request.url@ == "https://oauth2.googleapis.com/token"@
            &&& request.params@.len() == 5
            &&& request.params@[0].0@ == "client_id"@
            &&& request.params@[0].1@ == sign_in.client_id@
            &&& request.params@[1].0@ == "code"@
            &&& request.params@[1].1@ == code@
            &&& request.params@[2].0@ == "code_verifier"@
            &&& request.params@[2].1@ == sign_in.verifier@
            &&& request.params@[3].0@ == "redirect_uri"@
            &&& request.params@[3].1@ == sign_in.redirect_uri@
            &&& request.params@[4].0@ == "grant_type"@
            &&& request.params@[4].1@ == "authorization_code"@
        },
{
    match waited {
        Waited::Answered(Ok(code)) => Ok(
            token_request(
                sign_in.client_id.as_str(),
                code.as_str(),
                sign_in.verifier.as_str(),
                sign_in.redirect_uri.as_str(),
            ),
        ),
        Waited::Answered(Err(reason)) => Err(
            "Sign-in was cancelled or failed: ".to_owned().concat(reason.as_str()),
        ),
        Waited::Dropped => Err("Sign-in was cancelled".to_owned()),
        Waited::TimedOut => {
            oauth_state.pending.remove(&sign_in.state_token);
            Err("Sign-in timed out. Please try again.".to_owned())
        },
    }
}

/// Whether a response with this status carries a token, so that its body is to be
/// read as one: a success has a status from 200 to 299. Any other response carries
/// an explanation.
pub fn carries_token(status: u16) -> (carries: bool)
    ensures
        carries == (200 <= status < 300),
{
    200 <= status && status < 300
}

/// What came back for a request that exchanges a code.
pub enum TokenReply {
    /// No response came, for this reason.
    Unreachable(String),
    /// The response was no success; its body, if it could be read.
    Rejected(Option<String>),
    /// The response was a success, but for this reason its body is no token.
    Unreadable(String),
    /// The response was a success with this id token.
    Token(String),
}

/// What was read of the body of a response.
pub enum BodyRead {
    /// A text, if it could be read.
    Text(Option<String>),
    /// An id token, or the reason why the body is none.
    IdToken(Result<String, String>),
}

/// What a response amounts to. The status is judged before the body: without
/// success the body is at most an explanation, whatever stands in it, and with
/// success it is a token or nothing of use.
pub fn token_reply(status: u16, read: BodyRead) -> (reply: TokenReply)
    ensures
        reply is Rejected <==> !(200 <= status < 300),
        reply !is Unreachable,
        match (reply, read) {
            (TokenReply::Rejected(body), BodyRead::Text(text)) => body == text,
            (TokenReply::Rejected(body), BodyRead::IdToken(_)) => body is None,
            (TokenReply::Token(id_token), _) => read == BodyRead::IdToken(Ok(id_token)),
            (TokenReply::Unreadable(reason), BodyRead::IdToken(token)) => token == Err::<
                String,
                String,
            >(reason),
            (TokenReply::Unreadable(reason), BodyRead::Text(Some(text))) => reason == text,
            (TokenReply::Unreadable(reason), BodyRead::Text(None)) => reason@ == ""@,
            (TokenReply::Unreachable(_), _) => false,
        },
{
    if carries_token(status) {
        match read {
            BodyRead::IdToken(Ok(id_token)) => TokenReply::Token(id_token),
            BodyRead::IdToken(Err(reason)) => TokenReply::Unreadable(reason),
            BodyRead::Text(Some(text)) => TokenReply::Unreadable(text),
            BodyRead::Text(None) => TokenReply::Unreadable("".to_owned()),
        }
    } else {
        match read {
            BodyRead::Text(text) => TokenReply::Rejected(text),
            BodyRead::IdToken(_) => TokenReply::Rejected(None),
        }
    }
}

/// The result of a sign-in whose code was exchanged.
pub fn exchange_code_for_id_token(reply: TokenReply) -> (result: Result<String, String>)
    ensures
        result_model(result) == match reply {
            TokenReply::Unreachable(reason) => Err::<Seq<char>, Seq<char>>(
                "Couldn't reach Google: "@ + reason@,
            ),
            TokenReply::Rejected(Some(body)) => Err("Google rejected the sign-in: "@ + body@),
            TokenReply::Rejected(None) => Err("Google rejected the sign-in: "@),
            TokenReply::Unreadable(reason) => Err(
                "Unexpected response from Google: "@ + reason@,
            ),
            TokenReply::Token(id_token) => Ok(id_token@),
        },
        match result {
            Ok(said) => reply is Token && said@ == reply->Token_0@,
            Err(said) => match reply {
                TokenReply::Unreachable(reason) => said@ == "Couldn't reach Google: "@ + reason@,
                TokenReply::Rejected(Some(body)) => said@ == "Google rejected the sign-in: "@
                    + body@,
                TokenReply::Rejected(None) => said@ == "Google rejected the sign-in: "@,
                TokenReply::Unreadable(reason) => said@ == "Unexpected response from Google: "@
                    + reason@,
                TokenReply::Token(_) => false,
            },
        },
{
    match reply {
        TokenReply::Unreachable(reason) => Err(
            "Couldn't reach Google: ".to_owned().concat(reason.as_str()),
        ),
        TokenReply::Rejected(Some(body)) => Err(
            "Google rejected the sign-in: ".to_owned().concat(body.as_str()),
        ),
        TokenReply::Rejected(None) => Err("Google rejected the sign-in: ".to_owned()),
        TokenReply::Unreadable(reason) => Err(
            "Unexpected response from Google: ".to_owned().concat(reason.as_str()),
        ),
        TokenReply::Token(id_token) => Ok(id_token),
    }
}

} // verus!
