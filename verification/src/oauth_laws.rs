//! What holds of sign-ins.

use crate::oauth::{
    auth_url_text, awaited, callback_is_served, is_sign_in, redirect_uri_text, still_pending,
    token_model, CallbackQuery, CallbackReply, SignIn, ERROR_PAGE, SUCCESS_PAGE,
};
use crate::pkce::{base64_decoded, challenge_text, is_verifier, sha256, spelled};
use crate::pkce_laws::{base64_is_unreserved, base64_reads_back, verifier_is_well_formed};
use crate::text::decimal_text;
use crate::url::{behind, is_unreserved, parameters, up_to, url_decoded, url_encoded};
use crate::url_laws::{
    encoded_text_is_plain, encoded_text_reads_back, encoding_is_unambiguous, is_plain,
    parameters_are_read_one_by_one, texts_are_cut_at_the_first, unreserved_text_is_kept,
    unreserved_values_are_read_as_they_stand,
};
use crate::LAN_RELAY_PORT;
use vstd::prelude::*;
use vstd::utf8::encode_utf8;

verus! {

/// A callback that belongs to no waiting sign-in changes nothing: whatever
/// sign-in is under way goes on waiting.
pub proof fn stray_callback_changes_nothing<S>(
    pending: Map<Seq<char>, S>,
    state_token: Option<Seq<char>>,
)
    requires
        awaited(pending, state_token) is None,
    ensures
        still_pending(pending, state_token) == pending,
{
    assert(still_pending(pending, state_token) =~= pending);
}

/// A callback ends at most the sign-in that waits under its own state token:
/// every other one goes on waiting, and will be told its own answer.
pub proof fn callback_spares_other_sign_ins<S>(
    pending: Map<Seq<char>, S>,
    state_token: Option<Seq<char>>,
    other: Seq<char>,
)
    requires
        state_token != Some(other),
    ensures
        awaited(still_pending(pending, state_token), Some(other)) == awaited(pending, Some(other)),
{
}

/// A sign-in is told at most one answer: a second callback with the same state
/// token belongs to no sign-in.
pub proof fn callback_answers_once<S>(pending: Map<Seq<char>, S>, state_token: Option<Seq<char>>)
    ensures
        awaited(still_pending(pending, state_token), state_token) is None,
{
}

/// The callback with the state token of a sign-in reaches that very sign-in,
/// and afterwards the sign-ins wait that waited before it, but for one that it
/// took the place of.
pub proof fn callback_reaches_its_sign_in<S>(
    pending: Map<Seq<char>, S>,
    state_token: Seq<char>,
    waiter: S,
)
    ensures
        awaited(pending.insert(state_token, waiter), Some(state_token)) == Some(waiter),
        still_pending(pending.insert(state_token, waiter), Some(state_token)) == pending.remove(
            state_token,
        ),
{
    assert(still_pending(pending.insert(state_token, waiter), Some(state_token))
        =~= pending.remove(state_token));
}

/// Other sign-ins may begin and end by a callback in between: a sign-in that
/// waits under another state token goes on waiting.
pub proof fn sign_ins_do_not_disturb_each_other<S>(
    pending: Map<Seq<char>, S>,
    state_token: Seq<char>,
    waiter: S,
    other: Seq<char>,
)
    requires
        state_token != other,
    ensures
        awaited(pending.insert(state_token, waiter), Some(other)) == awaited(pending, Some(other)),
        awaited(pending.remove(state_token), Some(other)) == awaited(pending, Some(other)),
{
}

/// A sign-in that nobody answers leaves no trace: after the time is up, the
/// sign-ins wait that waited before, if its state token was new.
pub proof fn timeout_undoes_the_start<S>(
    pending: Map<Seq<char>, S>,
    state_token: Seq<char>,
    waiter: S,
)
    requires
        !pending.contains_key(state_token),
    ensures
        pending.insert(state_token, waiter).remove(state_token) == pending,
{
    assert(pending.insert(state_token, waiter).remove(state_token) =~= pending);
}

/// The address that Google sends the browser back to, written out.
pub proof fn redirect_goes_to_this_machine()
    ensures
        redirect_uri_text(LAN_RELAY_PORT) == "http://127.0.0.1:47811/oauth/callback"@,
{
    reveal_with_fuel(decimal_text, 5);
    reveal_strlit("0123456789");
    reveal_strlit("http://127.0.0.1:");
    reveal_strlit("/oauth/callback");
    reveal_strlit("http://127.0.0.1:47811/oauth/callback");
    assert(decimal_text(47811) =~= seq!['4', '7', '8', '1', '1']);
    assert(redirect_uri_text(LAN_RELAY_PORT) =~= "http://127.0.0.1:47811/oauth/callback"@);
}

/// The proof key of a sign-in. The exchange is made with the given client and the
/// code that came, with the verifier whose challenge stands in the address that was
/// opened, and with the return address that stands in it. Verifier and state token
/// are spelled out of the draws for each.
pub proof fn exchange_presents_the_verifier(
    sign_in: SignIn,
    client_id: Seq<char>,
    verifier_draws: Seq<usize>,
    state_draws: Seq<usize>,
    code: Seq<char>,
)
    requires
        is_sign_in(sign_in, client_id, spelled(verifier_draws), spelled(state_draws)),
    ensures
        ({
            let request = token_model(
                sign_in.client_id@,
                code,
                sign_in.verifier@,
                sign_in.redirect_uri@,
            );
            let challenge = challenge_text(spelled(verifier_draws));
            let redirect_uri = "http://127.0.0.1:47811/oauth/callback"@;
            &&& request.params == seq![
                ("client_id"@, client_id),
                ("code"@, code),
                ("code_verifier"@, spelled(verifier_draws)),
                ("redirect_uri"@, redirect_uri),
                ("grant_type"@, "authorization_code"@),
            ]
            &&& sign_in.auth_url@ == auth_url_text(
                client_id,
                redirect_uri,
                challenge,
                spelled(state_draws),
            )
        }),
{
    redirect_goes_to_this_machine();
}

/// What stands in the address of the consent page reads back: the challenge decodes
/// to the digest of the verifier, and the client id, the return address and the
/// state token decode to what they were.
pub proof fn auth_url_values_read_back(
    client_id: Seq<char>,
    redirect_uri: Seq<char>,
    verifier: Seq<char>,
    state_token: Seq<char>,
)
    ensures
        base64_decoded(challenge_text(verifier)) == Some(sha256(encode_utf8(verifier))),
        url_decoded(url_encoded(client_id)) == Some(client_id),
        url_decoded(url_encoded(redirect_uri)) == Some(redirect_uri),
        url_decoded(url_encoded(state_token)) == Some(state_token),
{
    base64_reads_back(sha256(encode_utf8(verifier)));
    encoded_text_reads_back(client_id);
    encoded_text_reads_back(redirect_uri);
    encoded_text_reads_back(state_token);
}

/// No client secret is sent: the request that exchanges a code has no parameter
/// of that name.
pub proof fn no_secret_is_sent(
    client_id: Seq<char>,
    code: Seq<char>,
    verifier: Seq<char>,
    redirect_uri: Seq<char>,
)
    ensures
        ({
            let params = token_model(client_id, code, verifier, redirect_uri).params;
            forall|i: int| 0 <= i < params.len() ==> (#[trigger] params[i]).0 != "client_secret"@
        }),
{
    reveal_strlit("client_id");
    reveal_strlit("code");
    reveal_strlit("code_verifier");
    reveal_strlit("redirect_uri");
    reveal_strlit("grant_type");
    reveal_strlit("client_secret");
    let secret = "client_secret"@;
    let params = token_model(client_id, code, verifier, redirect_uri).params;
    assert("code_verifier"@[1] != secret[1]);
    assert forall|i: int| 0 <= i < params.len() implies (#[trigger] params[i]).0 != secret by {
        assert(params[0].0.len() != secret.len());
        assert(params[1].0.len() != secret.len());
        assert(params[2].0[1] != secret[1]);
        assert(params[3].0.len() != secret.len());
        assert(params[4].0.len() != secret.len());
    }
}

/// A value without `&` ends where the next parameter begins.
proof fn lemma_value_ends(
    x: Seq<char>,
    y: Seq<char>,
    next: Seq<char>,
    u: Seq<char>,
    v: Seq<char>,
)
    requires
        forall|i: int| 0 <= i < x.len() ==> is_plain(#[trigger] x[i]),
        forall|i: int| 0 <= i < y.len() ==> is_plain(#[trigger] y[i]),
        next.len() > 0,
        next[0] == '&',
        x + (next + u) == y + (next + v),
    ensures
        x == y,
        u == v,
{
    let left = x + (next + u);
    let right = y + (next + v);
    assert(!is_plain('&'));
    if x.len() < y.len() {
        assert(left[x.len() as int] == next[0]);
        assert(right[x.len() as int] == y[x.len() as int]);
    }
    if y.len() < x.len() {
        assert(right[y.len() as int] == next[0]);
        assert(left[y.len() as int] == x[y.len() as int]);
    }
    assert forall|i: int| 0 <= i < x.len() implies x[i] == y[i] by {
        assert(left[i] == x[i]);
        assert(right[i] == y[i]);
    }
    assert(x =~= y);
    let start = (x.len() + next.len()) as int;
    assert(u =~= left.skip(start));
    assert(v =~= right.skip(start));
}

/// A value behind a fixed beginning is its own, whatever comes before the next
/// parameter.
proof fn lemma_parameter_told_apart(
    p: Seq<char>,
    x: Seq<char>,
    y: Seq<char>,
    next: Seq<char>,
    u: Seq<char>,
    v: Seq<char>,
)
    requires
        forall|i: int| 0 <= i < x.len() ==> is_plain(#[trigger] x[i]),
        forall|i: int| 0 <= i < y.len() ==> is_plain(#[trigger] y[i]),
        next.len() > 0,
        next[0] == '&',
        p + (x + (next + u)) == p + (y + (next + v)),
    ensures
        x == y,
        u == v,
{
    let left = p + (x + (next + u));
    let right = p + (y + (next + v));
    assert(x + (next + u) =~= left.skip(p.len() as int));
    assert(y + (next + v) =~= right.skip(p.len() as int));
    lemma_value_ends(x, y, next, u, v);
}

/// The address of the consent page from the state token on.
spec fn from_state(s: Seq<char>) -> Seq<char> {
    s + ("&prompt=select_account"@ + seq![])
}

/// The address of the consent page from the challenge on.
spec fn from_challenge(h: Seq<char>, s: Seq<char>) -> Seq<char> {
    h + ("&code_challenge_method=S256&state="@ + from_state(s))
}

/// The address of the consent page from the scope on.
spec fn from_scope(h: Seq<char>, s: Seq<char>) -> Seq<char> {
    url_encoded("openid email profile"@) + ("&code_challenge="@ + from_challenge(h, s))
}

/// The address of the consent page from the return address on.
spec fn from_redirect(r: Seq<char>, h: Seq<char>, s: Seq<char>) -> Seq<char> {
    r + ("&response_type=code&scope="@ + from_scope(h, s))
}

/// The address of the consent page, parameter by parameter.
spec fn nested(c: Seq<char>, r: Seq<char>, h: Seq<char>, s: Seq<char>) -> Seq<char> {
    "https://accounts.google.com/o/oauth2/v2/auth?client_id="@ + (c + ("&redirect_uri="@
        + from_redirect(r, h, s)))
}

/// Five texts in a row, one by one or from the end.
proof fn lemma_five(a: Seq<char>, b: Seq<char>, c: Seq<char>, d: Seq<char>, e: Seq<char>)
    ensures
        a + b + c + d + e == a + (b + (c + (d + e))),
{
    assert(a + b + c + d + e =~= a + (b + (c + (d + e))));
}

/// Parameter by parameter the address is the same.
proof fn lemma_nested(
    client_id: Seq<char>,
    redirect_uri: Seq<char>,
    challenge: Seq<char>,
    state_token: Seq<char>,
)
    ensures
        auth_url_text(client_id, redirect_uri, challenge, state_token) == nested(
            url_encoded(client_id),
            url_encoded(redirect_uri),
            challenge,
            url_encoded(state_token),
        ),
{
    let c = url_encoded(client_id);
    let r = url_encoded(redirect_uri);
    let s = url_encoded(state_token);
    let base = "https://accounts.google.com/o/oauth2/v2/auth?client_id="@;
    let scope = url_encoded("openid email profile"@);
    let to_redirect = base + c + "&redirect_uri="@ + r;
    let to_scope = to_redirect + "&response_type=code&scope="@ + scope;
    let to_challenge = to_scope + "&code_challenge="@;
    let end = "&prompt=select_account"@ + seq![];
    assert(end =~= "&prompt=select_account"@);
    lemma_five(to_challenge, challenge, "&code_challenge_method=S256&state="@, s, end);
    lemma_five(
        to_redirect,
        "&response_type=code&scope="@,
        scope,
        "&code_challenge="@,
        from_challenge(challenge, s),
    );
    let rest = "&response_type=code&scope="@ + from_scope(challenge, s);
    lemma_five(base, c, "&redirect_uri="@, r, rest);
}

/// All parameters but the first begin with `&`.
proof fn lemma_separators()
    ensures
        "&redirect_uri="@.len() > 0 && "&redirect_uri="@[0] == '&',
        "&response_type=code&scope="@.len() > 0 && "&response_type=code&scope="@[0] == '&',
        "&code_challenge="@.len() > 0 && "&code_challenge="@[0] == '&',
        "&code_challenge_method=S256&state="@.len() > 0
            && "&code_challenge_method=S256&state="@[0] == '&',
        "&prompt=select_account"@.len() > 0 && "&prompt=select_account"@[0] == '&',
{
    reveal_strlit("&redirect_uri=");
    reveal_strlit("&response_type=code&scope=");
    reveal_strlit("&code_challenge=");
    reveal_strlit("&code_challenge_method=S256&state=");
    reveal_strlit("&prompt=select_account");
}

/// Plain values are told apart in the address.
proof fn lemma_nested_told_apart(
    c: Seq<char>,
    r: Seq<char>,
    h: Seq<char>,
    s: Seq<char>,
    c2: Seq<char>,
    r2: Seq<char>,
    h2: Seq<char>,
    s2: Seq<char>,
)
    requires
        forall|i: int| 0 <= i < c.len() ==> is_plain(#[trigger] c[i]),
        forall|i: int| 0 <= i < r.len() ==> is_plain(#[trigger] r[i]),
        forall|i: int| 0 <= i < h.len() ==> is_plain(#[trigger] h[i]),
        forall|i: int| 0 <= i < s.len() ==> is_plain(#[trigger] s[i]),
        forall|i: int| 0 <= i < c2.len() ==> is_plain(#[trigger] c2[i]),
        forall|i: int| 0 <= i < r2.len() ==> is_plain(#[trigger] r2[i]),
        forall|i: int| 0 <= i < h2.len() ==> is_plain(#[trigger] h2[i]),
        forall|i: int| 0 <= i < s2.len() ==> is_plain(#[trigger] s2[i]),
        nested(c, r, h, s) == nested(c2, r2, h2, s2),
    ensures
        c == c2,
        r == r2,
        h == h2,
        s == s2,
{
    lemma_separators();
    encoded_text_is_plain("openid email profile"@);
    let scope = url_encoded("openid email profile"@);
    lemma_parameter_told_apart(
        "https://accounts.google.com/o/oauth2/v2/auth?client_id="@,
        c,
        c2,
        "&redirect_uri="@,
        from_redirect(r, h, s),
        from_redirect(r2, h2, s2),
    );
    lemma_value_ends(
        r,
        r2,
        "&response_type=code&scope="@,
        from_scope(h, s),
        from_scope(h2, s2),
    );
    lemma_value_ends(
        scope,
        scope,
        "&code_challenge="@,
        from_challenge(h, s),
        from_challenge(h2, s2),
    );
    lemma_value_ends(
        h,
        h2,
        "&code_challenge_method=S256&state="@,
        from_state(s),
        from_state(s2),
    );
    lemma_value_ends(s, s2, "&prompt=select_account"@, seq![], seq![]);
}

/// The address of the consent page says one thing only: two addresses are the
/// same only for the same client, return address, challenge and state token. So
/// a client id can neither add a parameter nor change one.
pub proof fn auth_url_is_unambiguous(
    client_id: Seq<char>,
    redirect_uri: Seq<char>,
    verifier: Seq<char>,
    state_token: Seq<char>,
    client_id_2: Seq<char>,
    redirect_uri_2: Seq<char>,
    verifier_2: Seq<char>,
    state_token_2: Seq<char>,
)
    requires
        auth_url_text(client_id, redirect_uri, challenge_text(verifier), state_token)
            == auth_url_text(
            client_id_2,
            redirect_uri_2,
            challenge_text(verifier_2),
            state_token_2,
        ),
    ensures
        client_id == client_id_2,
        redirect_uri == redirect_uri_2,
        challenge_text(verifier) == challenge_text(verifier_2),
        state_token == state_token_2,
{
    let (c, r, h, s) = (
        url_encoded(client_id),
        url_encoded(redirect_uri),
        challenge_text(verifier),
        url_encoded(state_token),
    );
    let (c2, r2, h2, s2) = (
        url_encoded(client_id_2),
        url_encoded(redirect_uri_2),
        challenge_text(verifier_2),
        url_encoded(state_token_2),
    );
    encoded_text_is_plain(client_id);
    encoded_text_is_plain(client_id_2);
    encoded_text_is_plain(redirect_uri);
    encoded_text_is_plain(redirect_uri_2);
    encoded_text_is_plain(state_token);
    encoded_text_is_plain(state_token_2);
    base64_is_unreserved(sha256(encode_utf8(verifier)));
    base64_is_unreserved(sha256(encode_utf8(verifier_2)));
    lemma_nested(client_id, redirect_uri, h, state_token);
    lemma_nested(client_id_2, redirect_uri_2, h2, state_token_2);
    lemma_nested_told_apart(c, r, h, s, c2, r2, h2, s2);
    encoding_is_unambiguous(client_id, client_id_2);
    encoding_is_unambiguous(redirect_uri, redirect_uri_2);
    encoding_is_unambiguous(state_token, state_token_2);
}

/// The state token stands in the address of the consent page as it is, so the
/// state that Google sends back with the callback is the one that the sign-in
/// waits under.
pub proof fn state_token_is_kept(state_token: Seq<char>)
    requires
        is_verifier(state_token),
    ensures
        url_encoded(state_token) == state_token,
{
    verifier_is_well_formed(state_token);
    unreserved_text_is_kept(state_token);
}

/// What a callback is for. Where a sign-in waits under its state token, the callback hands
/// over its code, whatever the code is, and shows that all went well; without a code it hands
/// over its error, and without either it says so, and shows that nothing came of it. The
/// sign-in waits no longer. Where none waits, nobody is told anything, and nothing changes.
pub proof fn callbacks_hand_over_what_google_sent<S>(
    q: CallbackQuery,
    pending: Map<Seq<char>, S>,
    after: Map<Seq<char>, S>,
    reply: CallbackReply<S>,
)
    requires
        callback_is_served(q, pending, after, reply),
    ensures
        q.state is Some && pending.contains_key(q.state.unwrap()@) ==> {
            let token = q.state.unwrap()@;
            &&& reply.answer is Some
            &&& reply.answer.unwrap().0 == pending[token]
            &&& q.code is Some ==> {
                &&& reply.answer.unwrap().1 is Ok
                &&& reply.answer.unwrap().1.unwrap()@ == q.code.unwrap()@
                &&& reply.page@ == SUCCESS_PAGE@
            }
            &&& q.code is None ==> {
                &&& reply.answer.unwrap().1 is Err
                &&& q.error is Some ==> reply.answer.unwrap().1.unwrap_err()@ == q.error.unwrap()@
                &&& q.error is None ==> reply.answer.unwrap().1.unwrap_err()@
                    == "No authorization code returned"@
                &&& reply.page@ == ERROR_PAGE@
            }
            &&& !after.contains_key(token)
            &&& forall|other: Seq<char>|
                other != token ==> (#[trigger] after.contains_key(other) <==> pending.contains_key(
                    other,
                ))
            &&& forall|other: Seq<char>|
                other != token && pending.contains_key(other) ==> #[trigger] after[other]
                    == pending[other]
        },
        q.state is None || !pending.contains_key(q.state.unwrap()@) ==> {
            &&& after == pending
            &&& reply.answer is None
            &&& reply.page@ == ERROR_PAGE@
        },
{
    assert(q.state is None || !pending.contains_key(q.state.unwrap()@) ==> after =~= pending);
}

/// The sign-in that a callback belongs to is the one under its state token, and it is that
/// one which waits no longer.
pub proof fn callbacks_belong_to_their_state_token<S>(
    pending: Map<Seq<char>, S>,
    token: Seq<char>,
)
    ensures
        pending.contains_key(token) ==> awaited(pending, Some(token)) == Some(pending[token]),
        !pending.contains_key(token) ==> awaited(pending, Some(token)) is None,
        awaited(pending, None) is None,
        still_pending(pending, Some(token)) == pending.remove(token),
        still_pending(pending, None) == pending,
{
}

/// A part of an address that begins with `&` and ends with `=`, taken apart.
proof fn lemma_next_name(part: Seq<char>, name: Seq<char>, rest: Seq<char>)
    requires
        part == seq!['&'] + name + seq!['='],
    ensures
        part + rest == seq!['&'] + (name + (seq!['='] + rest)),
{
    assert(part + rest =~= seq!['&'] + (name + (seq!['='] + rest)));
}

/// A part of an address with a whole parameter and the name of the next, taken apart.
proof fn lemma_next_two(
    part: Seq<char>,
    name: Seq<char>,
    value: Seq<char>,
    next: Seq<char>,
    rest: Seq<char>,
)
    requires
        part == seq!['&'] + name + seq!['='] + value + seq!['&'] + next + seq!['='],
    ensures
        part + rest == seq!['&'] + (name + (seq!['='] + (value + (seq!['&'] + (next + (seq!['=']
            + rest)))))),
{
    assert(part + rest =~= seq!['&'] + (name + (seq!['='] + (value + (seq!['&'] + (next + (seq![
        '=',
    ] + rest)))))));
}

/// The fixed parts of the address of the consent page, taken apart.
proof fn lemma_fixed_parts()
    ensures
        "https://accounts.google.com/o/oauth2/v2/auth?client_id="@
            == "https://accounts.google.com/o/oauth2/v2/auth"@ + seq!['?'] + "client_id"@ + seq![
            '=',
        ],
        "&redirect_uri="@ == seq!['&'] + "redirect_uri"@ + seq!['='],
        "&response_type=code&scope="@ == seq!['&'] + "response_type"@ + seq!['='] + "code"@ + seq![
            '&',
        ] + "scope"@ + seq!['='],
        "&code_challenge="@ == seq!['&'] + "code_challenge"@ + seq!['='],
        "&code_challenge_method=S256&state="@ == seq!['&'] + "code_challenge_method"@ + seq!['=']
            + "S256"@ + seq!['&'] + "state"@ + seq!['='],
        "&prompt=select_account"@ == seq!['&'] + "prompt"@ + seq!['='] + "select_account"@,
{
    assert("https://accounts.google.com/o/oauth2/v2/auth?client_id="@
        =~= "https://accounts.google.com/o/oauth2/v2/auth"@ + seq!['?'] + "client_id"@ + seq![
        '=',
    ]) by {
        reveal_strlit("https://accounts.google.com/o/oauth2/v2/auth?client_id=");
        reveal_strlit("https://accounts.google.com/o/oauth2/v2/auth");
        reveal_strlit("client_id");
    }
    assert("&redirect_uri="@ =~= seq!['&'] + "redirect_uri"@ + seq!['=']) by {
        reveal_strlit("&redirect_uri=");
        reveal_strlit("redirect_uri");
    }
    assert("&response_type=code&scope="@ =~= seq!['&'] + "response_type"@ + seq!['='] + "code"@
        + seq!['&'] + "scope"@ + seq!['=']) by {
        reveal_strlit("&response_type=code&scope=");
        reveal_strlit("response_type");
        reveal_strlit("code");
        reveal_strlit("scope");
    }
    assert("&code_challenge="@ =~= seq!['&'] + "code_challenge"@ + seq!['=']) by {
        reveal_strlit("&code_challenge=");
        reveal_strlit("code_challenge");
    }
    assert("&code_challenge_method=S256&state="@ =~= seq!['&'] + "code_challenge_method"@ + seq![
        '=',
    ] + "S256"@ + seq!['&'] + "state"@ + seq!['=']) by {
        reveal_strlit("&code_challenge_method=S256&state=");
        reveal_strlit("code_challenge_method");
        reveal_strlit("S256");
        reveal_strlit("state");
    }
    assert("&prompt=select_account"@ =~= seq!['&'] + "prompt"@ + seq!['='] + "select_account"@) by {
        reveal_strlit("&prompt=select_account");
        reveal_strlit("prompt");
        reveal_strlit("select_account");
    }
}

/// What separates the parts of an address.
spec fn separates(c: char) -> bool {
    c == '&' || c == '=' || c == '?'
}

/// The names of the parameters hold no separator.
proof fn lemma_names_are_whole()
    ensures
        forall|i: int| 0 <= i < "client_id"@.len() ==> !separates(#[trigger] "client_id"@[i]),
        forall|i: int| 0 <= i < "redirect_uri"@.len() ==> !separates(#[trigger] "redirect_uri"@[i]),
        forall|i: int|
            0 <= i < "response_type"@.len() ==> !separates(#[trigger] "response_type"@[i]),
        forall|i: int| 0 <= i < "scope"@.len() ==> !separates(#[trigger] "scope"@[i]),
        forall|i: int|
            0 <= i < "code_challenge"@.len() ==> !separates(#[trigger] "code_challenge"@[i]),
        forall|i: int|
            0 <= i < "code_challenge_method"@.len() ==> !separates(
                #[trigger] "code_challenge_method"@[i],
            ),
        forall|i: int| 0 <= i < "state"@.len() ==> !separates(#[trigger] "state"@[i]),
        forall|i: int| 0 <= i < "prompt"@.len() ==> !separates(#[trigger] "prompt"@[i]),
        forall|i: int|
            0 <= i < "https://accounts.google.com/o/oauth2/v2/auth"@.len() ==> !separates(
                #[trigger] "https://accounts.google.com/o/oauth2/v2/auth"@[i],
            ),
{
    reveal_strlit("client_id");
    reveal_strlit("redirect_uri");
    reveal_strlit("response_type");
    reveal_strlit("scope");
    reveal_strlit("code_challenge");
    reveal_strlit("code_challenge_method");
    reveal_strlit("state");
    reveal_strlit("prompt");
    reveal_strlit("https://accounts.google.com/o/oauth2/v2/auth");
}

/// The fixed values of the parameters are unreserved.
proof fn lemma_fixed_values_are_unreserved()
    ensures
        forall|i: int| 0 <= i < "code"@.len() ==> #[trigger] is_unreserved("code"@[i]),
        forall|i: int| 0 <= i < "S256"@.len() ==> #[trigger] is_unreserved("S256"@[i]),
        forall|i: int|
            0 <= i < "select_account"@.len() ==> #[trigger] is_unreserved("select_account"@[i]),
{
    reveal_strlit("code");
    reveal_strlit("S256");
    reveal_strlit("select_account");
}

/// A parameter is read in front of others, or at the end.
proof fn lemma_parameter(name: Seq<char>, value: Seq<char>, rest: Seq<char>)
    requires
        forall|i: int| 0 <= i < name.len() ==> !separates(#[trigger] name[i]),
        forall|i: int| 0 <= i < value.len() ==> is_plain(#[trigger] value[i]),
    ensures
        parameters(name + (seq!['='] + (value + (seq!['&'] + rest)))) == seq![
            (name, url_decoded(value)),
        ] + parameters(rest),
        parameters(name + (seq!['='] + value)) == seq![(name, url_decoded(value))],
{
    assert forall|i: int| 0 <= i < name.len() implies #[trigger] name[i] != '&' && name[i]
        != '=' by {
        assert(!separates(name[i]));
    }
    assert forall|i: int| 0 <= i < value.len() implies #[trigger] value[i] != '&' by {
        assert(is_plain(value[i]));
    }
    parameters_are_read_one_by_one(name, value, rest);
}

/// The parameters from the challenge on.
proof fn lemma_read_from_challenge(h: Seq<char>, s: Seq<char>)
    requires
        forall|i: int| 0 <= i < h.len() ==> is_plain(#[trigger] h[i]),
        forall|i: int| 0 <= i < s.len() ==> is_plain(#[trigger] s[i]),
    ensures
        parameters("code_challenge"@ + (seq!['='] + from_challenge(h, s))) == seq![
            ("code_challenge"@, url_decoded(h)),
            ("code_challenge_method"@, Some("S256"@)),
            ("state"@, url_decoded(s)),
            ("prompt"@, Some("select_account"@)),
        ],
{
    lemma_fixed_parts();
    lemma_names_are_whole();
    lemma_fixed_values_are_unreserved();
    let prompt = "prompt"@ + (seq!['='] + "select_account"@);
    let state = "state"@ + (seq!['='] + (s + (seq!['&'] + prompt)));
    let method = "code_challenge_method"@ + (seq!['='] + ("S256"@ + (seq!['&'] + state)));
    assert(from_state(s) =~= s + (seq!['&'] + prompt));
    lemma_next_two(
        "&code_challenge_method=S256&state="@,
        "code_challenge_method"@,
        "S256"@,
        "state"@,
        from_state(s),
    );
    assert(from_challenge(h, s) == h + (seq!['&'] + method));
    unreserved_values_are_read_as_they_stand("S256"@);
    unreserved_values_are_read_as_they_stand("select_account"@);
    assert forall|i: int| 0 <= i < "S256"@.len() implies is_plain(#[trigger] "S256"@[i]) by {
        assert(is_unreserved("S256"@[i]));
    }
    assert forall|i: int| 0 <= i < "select_account"@.len() implies is_plain(
        #[trigger] "select_account"@[i],
    ) by {
        assert(is_unreserved("select_account"@[i]));
    }
    lemma_parameter("prompt"@, "select_account"@, seq![]);
    lemma_parameter("state"@, s, prompt);
    lemma_parameter("code_challenge_method"@, "S256"@, state);
    lemma_parameter("code_challenge"@, h, method);
    assert(seq![("code_challenge"@, url_decoded(h))] + (seq![
        ("code_challenge_method"@, Some("S256"@)),
    ] + (seq![("state"@, url_decoded(s))] + seq![("prompt"@, Some("select_account"@))])) =~= seq![
        ("code_challenge"@, url_decoded(h)),
        ("code_challenge_method"@, Some("S256"@)),
        ("state"@, url_decoded(s)),
        ("prompt"@, Some("select_account"@)),
    ]);
}

/// Four items in front of four others.
proof fn lemma_four_and_four<A>(a: A, b: A, c: A, d: A, rest: Seq<A>)
    requires
        rest.len() == 4,
    ensures
        seq![a] + (seq![b] + (seq![c] + (seq![d] + rest))) == seq![
            a,
            b,
            c,
            d,
            rest[0],
            rest[1],
            rest[2],
            rest[3],
        ],
{
    assert(seq![a] + (seq![b] + (seq![c] + (seq![d] + rest))) =~= seq![
        a,
        b,
        c,
        d,
        rest[0],
        rest[1],
        rest[2],
        rest[3],
    ]);
}

/// The query of the address from the scope on.
spec fn query_from_scope(h: Seq<char>, s: Seq<char>) -> Seq<char> {
    "scope"@ + (seq!['='] + (url_encoded("openid email profile"@) + (seq!['&'] + (
    "code_challenge"@ + (seq!['='] + from_challenge(h, s))))))
}

/// The query of the address.
spec fn query(c: Seq<char>, r: Seq<char>, h: Seq<char>, s: Seq<char>) -> Seq<char> {
    "client_id"@ + (seq!['='] + (c + (seq!['&'] + ("redirect_uri"@ + (seq!['='] + (r + (seq!['&']
        + ("response_type"@ + (seq!['='] + ("code"@ + (seq!['&'] + query_from_scope(
        h,
        s,
    ))))))))))))
}

/// The address from the return address on, taken apart.
proof fn lemma_from_redirect(r: Seq<char>, h: Seq<char>, s: Seq<char>)
    ensures
        from_redirect(r, h, s) == r + (seq!['&'] + ("response_type"@ + (seq!['='] + ("code"@ + (
        seq!['&'] + query_from_scope(h, s)))))),
{
    lemma_fixed_parts();
    lemma_next_name("&code_challenge="@, "code_challenge"@, from_challenge(h, s));
    lemma_next_two(
        "&response_type=code&scope="@,
        "response_type"@,
        "code"@,
        "scope"@,
        from_scope(h, s),
    );
}

/// The address, taken apart.
proof fn lemma_nested_query(c: Seq<char>, r: Seq<char>, h: Seq<char>, s: Seq<char>)
    ensures
        nested(c, r, h, s) == "https://accounts.google.com/o/oauth2/v2/auth"@ + (seq!['?'] + query(
            c,
            r,
            h,
            s,
        )),
{
    let base = "https://accounts.google.com/o/oauth2/v2/auth"@;
    let rest = from_redirect(r, h, s);
    lemma_fixed_parts();
    lemma_from_redirect(r, h, s);
    lemma_next_name("&redirect_uri="@, "redirect_uri"@, rest);
    let value = c + ("&redirect_uri="@ + rest);
    assert(base + seq!['?'] + "client_id"@ + seq!['='] + value =~= base + (seq!['?'] + (
    "client_id"@ + (seq!['='] + value))));
}

/// The parameters of the whole query.
proof fn lemma_read_query(c: Seq<char>, r: Seq<char>, h: Seq<char>, s: Seq<char>)
    requires
        forall|i: int| 0 <= i < c.len() ==> is_plain(#[trigger] c[i]),
        forall|i: int| 0 <= i < r.len() ==> is_plain(#[trigger] r[i]),
        forall|i: int| 0 <= i < h.len() ==> is_plain(#[trigger] h[i]),
        forall|i: int| 0 <= i < s.len() ==> is_plain(#[trigger] s[i]),
    ensures
        parameters(query(c, r, h, s)) == seq![("client_id"@, url_decoded(c))] + (seq![
            ("redirect_uri"@, url_decoded(r)),
        ] + (seq![("response_type"@, url_decoded("code"@))] + (seq![
            ("scope"@, url_decoded(url_encoded("openid email profile"@))),
        ] + parameters("code_challenge"@ + (seq!['='] + from_challenge(h, s)))))),
{
    lemma_names_are_whole();
    lemma_fixed_values_are_unreserved();
    assert forall|i: int| 0 <= i < "code"@.len() implies is_plain(#[trigger] "code"@[i]) by {
        assert(is_unreserved("code"@[i]));
    }
    encoded_text_is_plain("openid email profile"@);
    let scope_text = url_encoded("openid email profile"@);
    let challenge = "code_challenge"@ + (seq!['='] + from_challenge(h, s));
    let scope = query_from_scope(h, s);
    let kind = "response_type"@ + (seq!['='] + ("code"@ + (seq!['&'] + scope)));
    let redirect = "redirect_uri"@ + (seq!['='] + (r + (seq!['&'] + kind)));
    lemma_parameter("scope"@, scope_text, challenge);
    lemma_parameter("response_type"@, "code"@, scope);
    lemma_parameter("redirect_uri"@, r, kind);
    lemma_parameter("client_id"@, c, redirect);
}

/// The parameters of the whole address.
proof fn lemma_read_nested(c: Seq<char>, r: Seq<char>, h: Seq<char>, s: Seq<char>)
    requires
        forall|i: int| 0 <= i < c.len() ==> is_plain(#[trigger] c[i]),
        forall|i: int| 0 <= i < r.len() ==> is_plain(#[trigger] r[i]),
        forall|i: int| 0 <= i < h.len() ==> is_plain(#[trigger] h[i]),
        forall|i: int| 0 <= i < s.len() ==> is_plain(#[trigger] s[i]),
    ensures
        up_to(nested(c, r, h, s), '?') == "https://accounts.google.com/o/oauth2/v2/auth"@,
        parameters(behind(nested(c, r, h, s), '?')) == seq![
            ("client_id"@, url_decoded(c)),
            ("redirect_uri"@, url_decoded(r)),
            ("response_type"@, Some("code"@)),
            ("scope"@, Some("openid email profile"@)),
            ("code_challenge"@, url_decoded(h)),
            ("code_challenge_method"@, Some("S256"@)),
            ("state"@, url_decoded(s)),
            ("prompt"@, Some("select_account"@)),
        ],
{
    let base = "https://accounts.google.com/o/oauth2/v2/auth"@;
    lemma_nested_query(c, r, h, s);
    assert(up_to(nested(c, r, h, s), '?') == base && behind(nested(c, r, h, s), '?') == query(
        c,
        r,
        h,
        s,
    )) by {
        lemma_names_are_whole();
        assert forall|i: int| 0 <= i < base.len() implies #[trigger] base[i] != '?' by {
            assert(!separates(base[i]));
        }
        texts_are_cut_at_the_first(base, '?', query(c, r, h, s));
    }
    lemma_read_query(c, r, h, s);
    lemma_read_from_challenge(h, s);
    assert(url_decoded("code"@) == Some("code"@)) by {
        lemma_fixed_values_are_unreserved();
        unreserved_values_are_read_as_they_stand("code"@);
    }
    encoded_text_reads_back("openid email profile"@);
    let rest = parameters("code_challenge"@ + (seq!['='] + from_challenge(h, s)));
    lemma_four_and_four(
        ("client_id"@, url_decoded(c)),
        ("redirect_uri"@, url_decoded(r)),
        ("response_type"@, Some("code"@)),
        ("scope"@, Some("openid email profile"@)),
        rest,
    );
}

/// What the consent page is asked for. Taken apart at `?`, `&` and `=`, its address has
/// these parameters and no others, and each decodes to what it is meant to say, whatever the
/// client id, the return address and the state token are. A challenge is not encoded: it is
/// one that stands for itself, as every challenge of a sign-in does.
pub proof fn consent_page_is_asked_for_a_code(
    client_id: Seq<char>,
    redirect_uri: Seq<char>,
    challenge: Seq<char>,
    state_token: Seq<char>,
)
    requires
        forall|i: int| 0 <= i < challenge.len() ==> #[trigger] is_unreserved(challenge[i]),
    ensures
        ({
            let url = auth_url_text(client_id, redirect_uri, challenge, state_token);
            &&& up_to(url, '?') == "https://accounts.google.com/o/oauth2/v2/auth"@
            &&& parameters(behind(url, '?')) == seq![
                ("client_id"@, Some(client_id)),
                ("redirect_uri"@, Some(redirect_uri)),
                ("response_type"@, Some("code"@)),
                ("scope"@, Some("openid email profile"@)),
                ("code_challenge"@, Some(challenge)),
                ("code_challenge_method"@, Some("S256"@)),
                ("state"@, Some(state_token)),
                ("prompt"@, Some("select_account"@)),
            ]
        }),
{
    let (c, r, s) = (url_encoded(client_id), url_encoded(redirect_uri), url_encoded(state_token));
    encoded_text_is_plain(client_id);
    encoded_text_is_plain(redirect_uri);
    encoded_text_is_plain(state_token);
    encoded_text_reads_back(client_id);
    encoded_text_reads_back(redirect_uri);
    encoded_text_reads_back(state_token);
    unreserved_values_are_read_as_they_stand(challenge);
    assert forall|i: int| 0 <= i < challenge.len() implies is_plain(#[trigger] challenge[i]) by {
        assert(is_unreserved(challenge[i]));
    }
    lemma_nested(client_id, redirect_uri, challenge, state_token);
    lemma_read_nested(c, r, challenge, s);
}

/// Any challenge, whatever it holds, stands in the address as it is, in one and the same
/// place: what comes before it and what follows it do not depend on it.
pub proof fn challenges_stand_as_they_are(
    client_id: Seq<char>,
    redirect_uri: Seq<char>,
    challenge: Seq<char>,
    state_token: Seq<char>,
)
    ensures
        ({
            let without = auth_url_text(client_id, redirect_uri, seq![], state_token);
            let at = without.len() - ("&code_challenge_method=S256&state="@ + url_encoded(
                state_token,
            ) + "&prompt=select_account"@).len();
            &&& 0 <= at <= without.len()
            &&& auth_url_text(client_id, redirect_uri, challenge, state_token) == without.take(at)
                + challenge + without.skip(at)
        }),
{
    let without = auth_url_text(client_id, redirect_uri, seq![], state_token);
    let end = "&code_challenge_method=S256&state="@ + url_encoded(state_token)
        + "&prompt=select_account"@;
    let start = "https://accounts.google.com/o/oauth2/v2/auth?client_id="@ + url_encoded(client_id)
        + "&redirect_uri="@ + url_encoded(redirect_uri) + "&response_type=code&scope="@
        + url_encoded("openid email profile"@) + "&code_challenge="@;
    assert(without =~= start + end);
    assert(without.take(start.len() as int) =~= start);
    assert(without.skip(start.len() as int) =~= end);
    assert(auth_url_text(client_id, redirect_uri, challenge, state_token) =~= start + challenge
        + end);
}

/// The challenge for a verifier stands for itself in an address, and decodes to the digest
/// of the verifier.
proof fn lemma_challenge(verifier: Seq<char>)
    ensures
        forall|i: int|
            0 <= i < challenge_text(verifier).len() ==> #[trigger] is_unreserved(
                challenge_text(verifier)[i],
            ),
        base64_decoded(challenge_text(verifier)) == Some(sha256(encode_utf8(verifier))),
{
    base64_is_unreserved(sha256(encode_utf8(verifier)));
    base64_reads_back(sha256(encode_utf8(verifier)));
}

/// The address that a sign-in opens.
proof fn lemma_sign_in_url(
    sign_in: SignIn,
    client_id: Seq<char>,
    verifier: Seq<char>,
    state_token: Seq<char>,
)
    requires
        is_sign_in(sign_in, client_id, verifier, state_token),
    ensures
        sign_in.redirect_uri@ == "http://127.0.0.1:47811/oauth/callback"@,
        sign_in.auth_url@ == auth_url_text(
            client_id,
            "http://127.0.0.1:47811/oauth/callback"@,
            challenge_text(verifier),
            state_token,
        ),
{
    redirect_goes_to_this_machine();
}

/// The parameters of the address that a sign-in opens.
proof fn lemma_read_url(
    url: Seq<char>,
    client_id: Seq<char>,
    challenge: Seq<char>,
    digest: Seq<u8>,
    state_token: Seq<char>,
)
    requires
        url == auth_url_text(
            client_id,
            "http://127.0.0.1:47811/oauth/callback"@,
            challenge,
            state_token,
        ),
        forall|i: int| 0 <= i < challenge.len() ==> #[trigger] is_unreserved(challenge[i]),
        base64_decoded(challenge) == Some(digest),
    ensures
        up_to(url, '?') == "https://accounts.google.com/o/oauth2/v2/auth"@,
        ({
            let read = parameters(behind(url, '?'));
            &&& read.len() == 8
            &&& read[0] == ("client_id"@, Some(client_id))
            &&& read[1] == ("redirect_uri"@, Some("http://127.0.0.1:47811/oauth/callback"@))
            &&& read[2] == ("response_type"@, Some("code"@))
            &&& read[3] == ("scope"@, Some("openid email profile"@))
            &&& read[4].0 == "code_challenge"@
            &&& read[4].1 is Some
            &&& base64_decoded(read[4].1.unwrap()) == Some(digest)
            &&& read[5] == ("code_challenge_method"@, Some("S256"@))
            &&& read[6] == ("state"@, Some(state_token))
            &&& read[7] == ("prompt"@, Some("select_account"@))
        }),
{
    consent_page_is_asked_for_a_code(
        client_id,
        "http://127.0.0.1:47811/oauth/callback"@,
        challenge,
        state_token,
    );
}

/// What a sign-in opens in the browser: the consent page for its own client, return address
/// and state token, with a challenge that decodes to the digest of its own verifier, and the
/// method that tells Google to compare digests.
pub proof fn sign_ins_open_their_consent_page(
    sign_in: SignIn,
    client_id: Seq<char>,
    verifier: Seq<char>,
    state_token: Seq<char>,
)
    requires
        is_sign_in(sign_in, client_id, verifier, state_token),
    ensures
        sign_in.client_id@ == client_id,
        sign_in.verifier@ == verifier,
        sign_in.state_token@ == state_token,
        sign_in.redirect_uri@ == "http://127.0.0.1:47811/oauth/callback"@,
        up_to(sign_in.auth_url@, '?') == "https://accounts.google.com/o/oauth2/v2/auth"@,
        ({
            let read = parameters(behind(sign_in.auth_url@, '?'));
            &&& read.len() == 8
            &&& read[0] == ("client_id"@, Some(client_id))
            &&& read[1] == ("redirect_uri"@, Some("http://127.0.0.1:47811/oauth/callback"@))
            &&& read[2] == ("response_type"@, Some("code"@))
            &&& read[3] == ("scope"@, Some("openid email profile"@))
            &&& read[4].0 == "code_challenge"@
            &&& read[4].1 is Some
            &&& base64_decoded(read[4].1.unwrap()) == Some(sha256(encode_utf8(verifier)))
            &&& read[5] == ("code_challenge_method"@, Some("S256"@))
            &&& read[6] == ("state"@, Some(state_token))
            &&& read[7] == ("prompt"@, Some("select_account"@))
        }),
{
    lemma_sign_in_url(sign_in, client_id, verifier, state_token);
    lemma_challenge(verifier);
    lemma_read_url(
        sign_in.auth_url@,
        client_id,
        challenge_text(verifier),
        sha256(encode_utf8(verifier)),
        state_token,
    );
}

/// The exchange is asked for at Google, with the client, the code, the verifier and the
/// return address as they are.
pub proof fn exchanges_present_what_they_are_given(
    client_id: Seq<char>,
    code: Seq<char>,
    verifier: Seq<char>,
    redirect_uri: Seq<char>,
)
    ensures
        ({
            let request = token_model(client_id, code, verifier, redirect_uri);
            &&& request.url == "https://oauth2.googleapis.com/token"@
            &&& request.params == seq![
                ("client_id"@, client_id),
                ("code"@, code),
                ("code_verifier"@, verifier),
                ("redirect_uri"@, redirect_uri),
                ("grant_type"@, "authorization_code"@),
            ]
        }),
{
}

} // verus!
