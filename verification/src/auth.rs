//! Who may open a session: a JWT in the session path, checked against the configured secret.

use crate::base64::{base64_bytes, decode_base64};
use crate::payload::{claims_view, payload_claims, read_payload, ClaimValue, ClaimView};
use crate::text::{
    chars_of, law_split_joins, law_split_loses_nothing, lemma_find_char, lemma_split_at,
    lemma_split_lacks, lemma_split_whole, position_from, same_text, split, split_text,
    stands_at_chars, starts_with, texts,
};
use vstd::prelude::*;
use vstd::slice::slice_subrange;
use vstd::string::*;

verus! {

// ---------------------------------------------------------------------------
// Decoding a token
// ---------------------------------------------------------------------------

/// Why `jsonwebtoken` refused a token.
#[verifier::external_type_specification]
#[verifier::external_body]
pub struct ExJwtError(jsonwebtoken::errors::Error);

/// The payload of a token: what stands between its last two dots, in base64.
pub open spec fn token_payload(token: Seq<char>) -> Option<Seq<u8>> {
    let parts = split(token, '.');
    if parts.len() < 3 {
        None
    } else {
        base64_bytes(parts[parts.len() - 2])
    }
}

/// Reads the payload of a token, as it stands: `jsonwebtoken` gives it out only as some type that
/// can be read from JSON, and none keeps every payload whole.
fn read_token_payload(token: &str) -> (payload: Option<Vec<u8>>)
    ensures
        match payload {
            Some(bytes) => token_payload(token@) == Some(bytes@),
            None => token_payload(token@) is None,
        },
{
    let parts = split_text(token, '.');
    let ghost views = texts(parts@);
    proof {
        assert(views.len() == parts@.len());
    }
    if parts.len() < 3 {
        return None;
    }
    let at = parts.len() - 2;
    proof {
        assert(views[at as int] == parts@[at as int]@);
    }
    let chars = chars_of(parts[at].as_str());
    decode_base64(chars.as_slice())
}

/// Whether `jsonwebtoken::decode` takes `token` as long as it has not expired: only if the token
/// is an HS256 one that `secret` signs, its payload is JSON and holds the `required` claims; with
/// `audience`, only if it also names no audience.
pub uninterp spec fn accepted(
    token: Seq<char>,
    secret: Seq<char>,
    required: Seq<Seq<char>>,
    audience: bool,
) -> bool;

/// Whether a token names no expiry, or the latest that there is.
pub open spec fn never_expires(token: Seq<char>) -> bool {
    match token_payload(token) {
        Some(payload) => match payload_claims(payload) {
            Some(claims) => match find_claim(claims, "exp"@) {
                Some(exp) => exp == ClaimView::Number(u64::MAX),
                None => true,
            },
            None => false,
        },
        None => false,
    }
}

/// Calls `jsonwebtoken::decode` with the crate's default rules, the check of the expiry among
/// them, but for the claims that must be there and whether the audience is checked. The claims
/// are passed over, so that what no rule looks at may hold anything. The token is taken if it is
/// [`accepted`] and did not expire. Whether it did, the clock decides, so of that nothing is
/// stated but that a token without an expiry, or with the latest one there is, does not expire. A
/// clock set before 1970 makes the crate panic.
#[verifier::external_body]
fn check_token(token: &str, secret: &str, required: &Vec<String>, audience: bool) -> (result:
    Result<(), jsonwebtoken::errors::Error>)
    ensures
        result is Ok ==> accepted(token@, secret@, texts(required@), audience),
        result is Err ==> !accepted(token@, secret@, texts(required@), audience) || !never_expires(
            token@,
        ),
{
    let mut validation = jsonwebtoken::Validation::default();
    validation.required_spec_claims = required.iter().cloned().collect();
    validation.validate_aud = audience;
    let key = jsonwebtoken::DecodingKey::from_secret(secret.as_bytes());
    let _: jsonwebtoken::TokenData<serde::de::IgnoredAny> =
        jsonwebtoken::decode(token, &key, &validation)?;
    Ok(())
}

// ---------------------------------------------------------------------------
// Claims
// ---------------------------------------------------------------------------

/// What a token says of its bearer.
#[derive(Debug)]
pub struct Claims {
    /// Subject (user identifier)
    pub sub: String,
    /// Expiration time (Unix timestamp)
    pub exp: usize,
    /// Issued at (Unix timestamp); 0 if the token does not say
    pub iat: usize,
}

/// A token that was accepted.
#[derive(Debug)]
pub struct TokenData {
    pub claims: Claims,
}

/// Why a token is not accepted.
#[derive(Debug, Clone, Copy, PartialEq, Eq, Structural)]
pub enum AuthError {
    InvalidToken,
}

impl AuthError {
    /// The error in words.
    pub fn message(&self) -> (text: &'static str)
        ensures
            text@ == "Invalid JWT token"@,
    {
        "Invalid JWT token"
    }
}

/// The value of the first claim called `name`.
pub open spec fn find_claim(claims: Seq<(Seq<char>, ClaimView)>, name: Seq<char>) -> Option<
    ClaimView,
>
    decreases claims.len(),
{
    if claims.len() == 0 {
        None
    } else if claims[0].0 == name {
        Some(claims[0].1)
    } else {
        find_claim(claims.drop_first(), name)
    }
}

/// What a [`Claims`] says.
pub ghost struct ClaimsView {
    pub sub: Seq<char>,
    pub exp: nat,
    pub iat: nat,
}

impl View for Claims {
    type V = ClaimsView;

    open spec fn view(&self) -> ClaimsView {
        ClaimsView { sub: self.sub@, exp: self.exp as nat, iat: self.iat as nat }
    }
}

/// A claim that counts seconds, if it is a number that a `usize` holds.
pub open spec fn seconds(claim: ClaimView) -> Option<nat> {
    match claim {
        ClaimView::Number(n) => if n <= usize::MAX {
            Some(n as nat)
        } else {
            None
        },
        _ => None,
    }
}

/// Whether a claim called `name` is made more than once.
pub open spec fn repeats(claims: Seq<(Seq<char>, ClaimView)>, name: Seq<char>) -> bool {
    exists|i: int, j: int|
        0 <= i < j < claims.len() && (#[trigger] claims[i]).0 == name && (#[trigger] claims[j]).0
            == name
}

/// The claims that this server reads: the subject and the expiry must be there, the time of issue
/// may be missing, and none of the three may be there twice. Other claims are not looked at.
pub open spec fn read_claims(claims: Seq<(Seq<char>, ClaimView)>) -> Option<ClaimsView> {
    let iat = match find_claim(claims, "iat"@) {
        Some(claim) => seconds(claim),
        None => Some(0),
    };
    if repeats(claims, "sub"@) || repeats(claims, "exp"@) || repeats(claims, "iat"@) {
        None
    } else {
        match (find_claim(claims, "sub"@), find_claim(claims, "exp"@), iat) {
            (Some(ClaimView::Text(sub)), Some(exp), Some(iat)) => match seconds(exp) {
                Some(exp) => Some(ClaimsView { sub, exp, iat }),
                None => None,
            },
            _ => None,
        }
    }
}

/// Where the first claim called `name` stands.
fn position_of_claim(claims: &Vec<(String, ClaimValue)>, name: &str) -> (at: Option<usize>)
    ensures
        match at {
            Some(i) => i < claims@.len() && find_claim(claims_view(claims@), name@) == Some(
                claims@[i as int].1@,
            ),
            None => find_claim(claims_view(claims@), name@) is None,
        },
{
    let ghost view = claims_view(claims@);
    let mut i: usize = 0;
    proof {
        assert(view.skip(0) =~= view);
    }
    while i < claims.len()
        invariant
            i <= claims@.len(),
            view == claims_view(claims@),
            find_claim(view, name@) == find_claim(view.skip(i as int), name@),
        decreases claims.len() - i,
    {
        proof {
            assert(view.skip(i as int)[0] == view[i as int]);
            assert(view.skip(i as int).drop_first() =~= view.skip(i + 1));
        }
        if same_text(claims[i].0.as_str(), name) {
            return Some(i);
        }
        i = i + 1;
    }
    None
}

/// Whether a claim called `name` is made more than once.
fn is_repeated(claims: &Vec<(String, ClaimValue)>, name: &str) -> (repeated: bool)
    ensures
        repeated == repeats(claims_view(claims@), name@),
{
    let ghost view = claims_view(claims@);
    let ghost mut first: int = 0;
    let mut seen = false;
    let mut i: usize = 0;
    while i < claims.len()
        invariant
            i <= claims@.len(),
            view == claims_view(claims@),
            seen ==> 0 <= first < i && view[first].0 == name@,
            forall|j: int|
                0 <= j < i && (#[trigger] view[j]).0 == name@ ==> seen && j == first,
        decreases claims.len() - i,
    {
        proof {
            assert(view[i as int].0 == claims@[i as int].0@);
        }
        if same_text(claims[i].0.as_str(), name) {
            if seen {
                return true;
            }
            seen = true;
            proof {
                first = i as int;
            }
        }
        i = i + 1;
    }
    false
}

/// The number of seconds in a claim.
fn seconds_of(claim: &ClaimValue) -> (n: Option<usize>)
    ensures
        match n {
            Some(n) => seconds(claim@) == Some(n as nat),
            None => seconds(claim@) is None,
        },
{
    match claim {
        ClaimValue::Number(n) => if *n <= usize::MAX as u64 {
            Some(*n as usize)
        } else {
            None
        },
        _ => None,
    }
}

/// Reads the claims of a decoded token.
pub fn claims_from_payload(claims: &Vec<(String, ClaimValue)>) -> (read: Result<Claims, AuthError>)
    ensures
        match read {
            Ok(c) => read_claims(claims_view(claims@)) == Some(c@),
            Err(AuthError::InvalidToken) => read_claims(claims_view(claims@)) is None,
        },
{
    if is_repeated(claims, "sub") || is_repeated(claims, "exp") || is_repeated(claims, "iat") {
        return Err(AuthError::InvalidToken);
    }
    let iat: Option<usize> = match position_of_claim(claims, "iat") {
        Some(i) => seconds_of(&claims[i].1),
        None => Some(0),
    };
    match (position_of_claim(claims, "sub"), position_of_claim(claims, "exp"), iat) {
        (Some(s), Some(e), Some(iat)) => match (&claims[s].1, seconds_of(&claims[e].1)) {
            (ClaimValue::Text(sub), Some(exp)) => Ok(Claims { sub: sub.clone(), exp, iat }),
            _ => Err(AuthError::InvalidToken),
        },
        _ => Err(AuthError::InvalidToken),
    }
}

/// The claims that a token must hold.
pub open spec fn required_claims() -> Seq<Seq<char>> {
    seq!["exp"@, "sub"@]
}

/// The claims in the payload of a token, if they are such as this server takes.
pub open spec fn claims_in(payload: Seq<u8>) -> Option<ClaimsView> {
    match payload_claims(payload) {
        Some(claims) => read_claims(claims),
        None => None,
    }
}

/// The claims of a token that `secret` signs, whether it expired or not.
pub open spec fn token_claims(token: Seq<char>, secret: Seq<char>) -> Option<ClaimsView> {
    match token_payload(token) {
        Some(payload) => if accepted(token, secret, required_claims(), false) {
            claims_in(payload)
        } else {
            None
        },
        None => None,
    }
}

/// What a token with this payload says, once it was checked.
pub fn token_from_payload(payload: &[u8]) -> (result: Result<TokenData, AuthError>)
    ensures
        match result {
            Ok(data) => claims_in(payload@) == Some(data.claims@),
            Err(AuthError::InvalidToken) => claims_in(payload@) is None,
        },
{
    match read_payload(payload) {
        Some(list) => match claims_from_payload(&list) {
            Ok(claims) => Ok(TokenData { claims }),
            Err(e) => Err(e),
        },
        None => Err(AuthError::InvalidToken),
    }
}

/// Validate a JWT token against the configured secret.
/// Returns the decoded claims on success. A token that is sound is refused only if it expired,
/// which the clock decides.
pub fn validate_token(token: &str, secret: &str) -> (result: Result<TokenData, AuthError>)
    ensures
        result matches Ok(data) ==> token_claims(token@, secret@) == Some(data.claims@),
        result is Err ==> match token_claims(token@, secret@) {
            Some(claims) => claims.exp != u64::MAX,
            None => true,
        },
{
    let mut required: Vec<String> = Vec::new();
    required.push("exp".to_owned());
    required.push("sub".to_owned());
    proof {
        assert(texts(required@) =~= required_claims());
    }
    match check_token(token, secret, &required, false) {
        Ok(_) => match read_token_payload(token) {
            Some(payload) => token_from_payload(payload.as_slice()),
            None => Err(AuthError::InvalidToken),
        },
        Err(_) => Err(AuthError::InvalidToken),
    }
}

// ---------------------------------------------------------------------------
// The token in the path
// ---------------------------------------------------------------------------

/// The first non-empty value among parameters of the form `token=value`.
pub open spec fn first_token(params: Seq<Seq<char>>) -> Option<Seq<char>>
    decreases params.len(),
{
    if params.len() == 0 {
        None
    } else if starts_with(params[0], "token="@) && params[0].len() > "token="@.len() {
        Some(params[0].skip("token="@.len() as int))
    } else {
        first_token(params.drop_first())
    }
}

/// The token in a session path: the query stands between the first question mark and the next,
/// its parameters between ampersands.
pub open spec fn path_token(path: Seq<char>) -> Option<Seq<char>> {
    let parts = split(path, '?');
    if parts.len() < 2 {
        None
    } else {
        first_token(split(parts[1], '&'))
    }
}

/// Extract a token from a WebTransport session path.
/// Expected format: `/session?token=<jwt>` or `/?token=<jwt>`
pub fn extract_token_from_path(path: &str) -> (token: Option<&str>)
    ensures
        match token {
            Some(t) => path_token(path@) == Some(t@),
            None => path_token(path@) is None,
        },
{
    let chars = chars_of(path);
    let prefix = chars_of("token=");
    let mark = position_from(chars.as_slice(), 0, '?');
    proof {
        assert(path@.skip(0) =~= path@);
        lemma_find_char(path@, '?');
        reveal_with_fuel(split, 2);
    }
    if mark == chars.len() {
        return None;
    }
    let start = mark + 1;
    let end = position_from(chars.as_slice(), start, '?');
    let query = slice_subrange(chars.as_slice(), start, end);
    proof {
        let rest = path@.skip(start as int);
        lemma_find_char(rest, '?');
        assert(query@ =~= rest.take(end - start));
        assert(query@ == split(path@, '?')[1]);
    }
    let mut from: usize = 0;
    proof {
        assert(query@.skip(0) =~= query@);
    }
    loop
        invariant
            from <= query@.len(),
            start <= end <= chars@.len(),
            chars@ == path@,
            prefix@ == "token="@,
            query@ == path@.subrange(start as int, end as int),
            path_token(path@) == first_token(split(query@, '&')),
            first_token(split(query@, '&')) == first_token(split(query@.skip(from as int), '&')),
        decreases query.len() - from,
    {
        let to = position_from(query, from, '&');
        let param = slice_subrange(query, from, to);
        let ghost rest = query@.skip(from as int);
        proof {
            lemma_find_char(rest, '&');
            assert(param@ =~= rest.take(to - from));
            assert(split(rest, '&')[0] =~= param@);
        }
        if stands_at_chars(param, prefix.as_slice(), 0) && param.len() > prefix.len() {
            let token = path.substring_char(start + from + prefix.len(), start + to);
            proof {
                assert(token@ =~= param@.skip(prefix@.len() as int));
            }
            return Some(token);
        }
        if to == query.len() {
            proof {
                assert(split(rest, '&') =~= seq![rest]);
                assert(split(rest, '&').drop_first() =~= Seq::<Seq<char>>::empty());
                assert(first_token(Seq::<Seq<char>>::empty()) is None);
            }
            return None;
        }
        proof {
            assert(split(rest, '&').drop_first() =~= split(query@.skip(to + 1), '&')) by {
                assert(rest.skip(to - from + 1) =~= query@.skip(to + 1));
            }
        }
        from = to + 1;
    }
}

// ---------------------------------------------------------------------------
// Admission
// ---------------------------------------------------------------------------

/// What becomes of a request for a session.
#[derive(Debug)]
pub enum Admission {
    /// No secret is configured: everyone is admitted.
    Open,
    /// The bearer of a valid token is admitted.
    Authenticated { sub: String },
    /// The path holds no token: refused.
    NoToken,
    /// The token is not valid: refused.
    Refused { error: AuthError },
}

impl Admission {
    /// Whether the session is accepted.
    pub open spec fn accepts(&self) -> bool {
        self is Open || self is Authenticated
    }

    /// Whether the session is accepted.
    pub fn accepted(&self) -> (yes: bool)
        ensures
            yes == self.accepts(),
    {
        match self {
            Admission::Open => true,
            Admission::Authenticated { .. } => true,
            _ => false,
        }
    }
}

/// What becomes of a request under a secret, given what validation made of its token, if it
/// has one.
pub fn decide_admission(validated: Option<Result<TokenData, AuthError>>) -> (admission: Admission)
    ensures
        match validated {
            None => admission is NoToken,
            Some(Ok(data)) => admission == (Admission::Authenticated { sub: data.claims.sub }),
            Some(Err(error)) => admission == (Admission::Refused { error }),
        },
        admission.accepts() <==> validated matches Some(Ok(_)),
{
    match validated {
        None => Admission::NoToken,
        Some(Ok(data)) => Admission::Authenticated { sub: data.claims.sub },
        Some(Err(error)) => Admission::Refused { error },
    }
}

/// Whether a session with this path is admitted, and as whom.
pub fn admit_session(path: &str, secret: Option<&str>) -> (admission: Admission)
    ensures
        match secret {
            None => admission is Open,
            Some(secret) => match path_token(path@) {
                None => admission is NoToken,
                Some(token) => match admission {
                    Admission::Authenticated { sub } => match token_claims(token, secret@) {
                        Some(claims) => claims.sub == sub@,
                        None => false,
                    },
                    Admission::Refused { error } => match token_claims(token, secret@) {
                        Some(claims) => claims.exp != u64::MAX,
                        None => true,
                    },
                    _ => false,
                },
            },
        },
        secret is None ==> admission.accepts(),
        secret is Some && path_token(path@) is None ==> !admission.accepts(),
        secret is Some && admission.accepts() ==> token_claims(path_token(path@)->0, secret->0@)
            is Some,
{
    match secret {
        None => Admission::Open,
        Some(secret) => match extract_token_from_path(path) {
            None => decide_admission(None),
            Some(token) => decide_admission(Some(validate_token(token, secret))),
        },
    }
}

// ---------------------------------------------------------------------------
// Laws
// ---------------------------------------------------------------------------

/// A token in the documented place is found, whatever other parameters come after it.
pub proof fn law_token_found(base: Seq<char>, token: Seq<char>, after: Seq<char>)
    requires
        !base.contains('?'),
        token.len() > 0,
        !token.contains('?') && !token.contains('&'),
        after.len() == 0 || after[0] == '&',
        !after.contains('?'),
    ensures
        path_token(base + "?token="@ + token + after) == Some(token),
{
    reveal_strlit("?token=");
    reveal_strlit("token=");
    let param = "token="@ + token;
    let query = param + after;
    let path = base + "?token="@ + token + after;
    assert(path =~= base + seq!['?'] + query);
    assert(!param.contains('?') && !param.contains('&')) by {
        assert forall|i: int| 0 <= i < param.len() implies param[i] != '?' && param[i] != '&' by {
            if i >= 6 {
                assert(param[i] == token[i - 6]);
                assert(token.contains(token[i - 6]));
            }
        }
    }
    assert(!query.contains('?')) by {
        assert forall|i: int| 0 <= i < query.len() implies query[i] != '?' by {
            if i < param.len() {
                assert(param.contains(query[i]));
            } else {
                assert(after.contains(query[i]));
            }
        }
    }
    lemma_split_at(base, '?', query);
    lemma_split_whole(query, '?');
    if after.len() == 0 {
        assert(query =~= param);
        lemma_split_whole(param, '&');
    } else {
        assert(query =~= param + seq!['&'] + after.skip(1));
        lemma_split_at(param, '&', after.skip(1));
    }
    assert(split(query, '&')[0] =~= param);
    assert(param.skip(6) =~= token);
    assert(param.take(6) =~= "token="@);
}

/// A token that is found is not empty and runs over no separator.
pub proof fn law_token_shape(path: Seq<char>)
    requires
        path_token(path) is Some,
    ensures
        (path_token(path)->0).len() > 0,
        !(path_token(path)->0).contains('?'),
        !(path_token(path)->0).contains('&'),
{
    let query = split(path, '?')[1];
    lemma_split_lacks(path, '?', '?');
    lemma_split_lacks(query, '&', '?');
    lemma_split_lacks(query, '&', '&');
    lemma_first_token(split(query, '&'));
}

/// The first token is the end of one of the parameters.
proof fn lemma_first_token(params: Seq<Seq<char>>)
    requires
        first_token(params) is Some,
        forall|i: int| 0 <= i < params.len() ==> !(#[trigger] params[i]).contains('?'),
        forall|i: int| 0 <= i < params.len() ==> !(#[trigger] params[i]).contains('&'),
    ensures
        (first_token(params)->0).len() > 0,
        !(first_token(params)->0).contains('?'),
        !(first_token(params)->0).contains('&'),
    decreases params.len(),
{
    if starts_with(params[0], "token="@) && params[0].len() > "token="@.len() {
        let token = first_token(params)->0;
        assert forall|j: int| 0 <= j < token.len() implies token[j] != '?' && token[j] != '&' by {
            assert(params[0].contains(token[j])) by {
                assert(params[0]["token="@.len() + j] == token[j]);
            }
        }
    } else {
        lemma_first_token(params.drop_first());
    }
}

/// A parameter that gives no token is passed over, wherever it stands; so is one that gives an
/// empty one. A path without a query has no token, and of two question marks the second ends the
/// query.
pub proof fn law_other_parameters_passed_over(
    base: Seq<char>,
    param: Seq<char>,
    query: Seq<char>,
    after: Seq<char>,
)
    requires
        !base.contains('?'),
        !param.contains('?') && !param.contains('&'),
        !query.contains('?'),
        !starts_with(param, "token="@) || param == "token="@,
    ensures
        path_token(base + seq!['?'] + (param + seq!['&'] + query)) == path_token(
            base + seq!['?'] + query,
        ),
        path_token(base + seq!['?'] + param) is None,
        path_token(base) is None,
        path_token(base + seq!['?'] + (query + seq!['?'] + after)) == path_token(
            base + seq!['?'] + query,
        ),
{
    let longer = param + seq!['&'] + query;
    assert(!longer.contains('?')) by {
        assert forall|i: int| 0 <= i < longer.len() implies longer[i] != '?' by {
            if i < param.len() {
                assert(param.contains(longer[i]));
            } else if i > param.len() {
                assert(query.contains(longer[i]));
            }
        }
    }
    lemma_split_at(base, '?', longer);
    lemma_split_whole(longer, '?');
    lemma_split_at(base, '?', query);
    lemma_split_whole(query, '?');
    lemma_split_at(base, '?', param);
    lemma_split_whole(param, '?');
    lemma_split_whole(base, '?');
    lemma_split_at(base, '?', query + seq!['?'] + after);
    lemma_split_at(query, '?', after);
    lemma_split_at(param, '&', query);
    lemma_split_whole(param, '&');
    reveal_with_fuel(first_token, 2);
    let params = seq![param] + split(query, '&');
    assert(params[0] == param);
    assert(params.drop_first() =~= split(query, '&'));
    assert(seq![param].drop_first() =~= Seq::<Seq<char>>::empty());
}

/// A claim that is made once is found.
proof fn lemma_find_claim(claims: Seq<(Seq<char>, ClaimView)>, name: Seq<char>)
    ensures
        find_claim(claims, name) matches Some(value) ==> exists|i: int|
            0 <= i < claims.len() && #[trigger] claims[i] == (name, value),
        find_claim(claims, name) is None ==> forall|i: int|
            0 <= i < claims.len() ==> (#[trigger] claims[i]).0 != name,
    decreases claims.len(),
{
    if claims.len() > 0 {
        let rest = claims.drop_first();
        lemma_find_claim(rest, name);
        if claims[0].0 == name {
            assert(claims[0] == (name, claims[0].1));
        } else {
            if let Some(value) = find_claim(rest, name) {
                let i = choose|i: int|
                    0 <= i < rest.len() && #[trigger] rest[i] == (name, value);
                assert(claims[i + 1] == (name, value));
            } else {
                assert forall|i: int| 0 <= i < claims.len() implies (#[trigger] claims[i]).0
                    != name by {
                    if i > 0 {
                        assert(rest[i - 1] == claims[i]);
                    }
                }
            }
        }
    }
}

/// Whether the claim at `at`, and no other, is called `name`.
pub open spec fn only_claim(
    claims: Seq<(Seq<char>, ClaimView)>,
    name: Seq<char>,
    at: int,
) -> bool {
    &&& 0 <= at < claims.len()
    &&& forall|i: int| 0 <= i < claims.len() ==> ((#[trigger] claims[i]).0 == name <==> i == at)
}

/// The claim that is made once is the one that is found.
proof fn lemma_only_claim(claims: Seq<(Seq<char>, ClaimView)>, name: Seq<char>, at: int)
    requires
        only_claim(claims, name, at),
    ensures
        find_claim(claims, name) == Some(claims[at].1),
        !repeats(claims, name),
{
    lemma_find_claim(claims, name);
    assert(claims[at].0 == name);
    if let Some(value) = find_claim(claims, name) {
        let i = choose|i: int| 0 <= i < claims.len() && #[trigger] claims[i] == (name, value);
        assert(i == at);
    }
}

/// The bearer of a token is the text of its one claim `sub`, its expiry the number of its one claim
/// `exp` and its time of issue that of its one claim `iat`, or 0 if it makes none. What other
/// claims there are, and in what order they all are, is of no matter.
pub proof fn law_claims_read(
    claims: Seq<(Seq<char>, ClaimView)>,
    s: int,
    e: int,
    i: int,
    sub: Seq<char>,
    exp: u64,
    iat: u64,
)
    requires
        only_claim(claims, "sub"@, s),
        claims[s].1 == ClaimView::Text(sub),
        only_claim(claims, "exp"@, e),
        claims[e].1 == ClaimView::Number(exp),
        exp <= usize::MAX,
        iat <= usize::MAX,
    ensures
        only_claim(claims, "iat"@, i) && claims[i].1 == ClaimView::Number(iat) ==> read_claims(
            claims,
        ) == Some(ClaimsView { sub, exp: exp as nat, iat: iat as nat }),
        (forall|k: int| 0 <= k < claims.len() ==> (#[trigger] claims[k]).0 != "iat"@)
            ==> read_claims(claims) == Some(ClaimsView { sub, exp: exp as nat, iat: 0 }),
{
    lemma_only_claim(claims, "sub"@, s);
    lemma_only_claim(claims, "exp"@, e);
    lemma_find_claim(claims, "iat"@);
    if only_claim(claims, "iat"@, i) {
        lemma_only_claim(claims, "iat"@, i);
    }
}

/// A token is refused that makes no claim `sub`, or one that is not a text; that makes no claim
/// `exp`, or one that is not a number of seconds; that makes a claim `iat` which is not a number
/// of seconds; or that makes one of the three twice.
pub proof fn law_claims_refused(claims: Seq<(Seq<char>, ClaimView)>, i: int, j: int)
    ensures
        (forall|k: int| 0 <= k < claims.len() ==> (#[trigger] claims[k]).0 != "sub"@)
            ==> read_claims(claims) is None,
        (forall|k: int| 0 <= k < claims.len() ==> (#[trigger] claims[k]).0 != "exp"@)
            ==> read_claims(claims) is None,
        only_claim(claims, "sub"@, i) && !(claims[i].1 is Text) ==> read_claims(claims) is None,
        only_claim(claims, "exp"@, i) && !(claims[i].1 is Number) ==> read_claims(claims) is None,
        only_claim(claims, "iat"@, i) && !(claims[i].1 is Number) ==> read_claims(claims) is None,
        only_claim(claims, "exp"@, i) && (claims[i].1 matches ClaimView::Number(n) && n
            > usize::MAX) ==> read_claims(claims) is None,
        only_claim(claims, "iat"@, i) && (claims[i].1 matches ClaimView::Number(n) && n
            > usize::MAX) ==> read_claims(claims) is None,
        0 <= i < j < claims.len() && claims[i].0 == claims[j].0 && (claims[i].0 == "sub"@
            || claims[i].0 == "exp"@ || claims[i].0 == "iat"@) ==> read_claims(claims) is None,
{
    lemma_find_claim(claims, "sub"@);
    lemma_find_claim(claims, "exp"@);
    if only_claim(claims, "sub"@, i) {
        lemma_only_claim(claims, "sub"@, i);
    }
    if only_claim(claims, "exp"@, i) {
        lemma_only_claim(claims, "exp"@, i);
    }
    if only_claim(claims, "iat"@, i) {
        lemma_only_claim(claims, "iat"@, i);
    }
}

/// The payload of a token stands between its last two dots, in base64; a token with fewer dots has
/// none.
pub proof fn law_payload_place(header: Seq<char>, payload: Seq<char>, signature: Seq<char>)
    requires
        !payload.contains('.'),
        !signature.contains('.'),
    ensures
        token_payload(header + seq!['.'] + (payload + seq!['.'] + signature)) == base64_bytes(
            payload,
        ),
        token_payload(payload + seq!['.'] + signature) is None,
        token_payload(signature) is None,
{
    lemma_split_at(payload, '.', signature);
    lemma_split_whole(signature, '.');
    law_split_joins(header, '.', payload + seq!['.'] + signature);
    let parts = split(header, '.') + (seq![payload] + seq![signature]);
    law_split_loses_nothing(header, '.');
    assert(parts[parts.len() - 2] == payload);
}

/// No token has claims that the secret does not sign with both claims that must be there; whether
/// it names an audience is of no matter.
pub proof fn law_claims_are_signed(token: Seq<char>, secret: Seq<char>)
    ensures
        token_claims(token, secret) is Some ==> accepted(
            token,
            secret,
            seq!["exp"@, "sub"@],
            false,
        ),
        accepted(token, secret, seq!["exp"@, "sub"@], false) && token_payload(token) is Some
            && payload_claims(token_payload(token)->0) is Some ==> token_claims(token, secret)
            == read_claims(payload_claims(token_payload(token)->0)->0),
{
    assert(required_claims() =~= seq!["exp"@, "sub"@]);
}

/// A session is accepted where there is no secret, or with a token that is valid, and in no other
/// case.
pub proof fn law_accepted_sessions(sub: String, error: AuthError)
    ensures
        Admission::Open.accepts(),
        (Admission::Authenticated { sub }).accepts(),
        !Admission::NoToken.accepts(),
        !(Admission::Refused { error }).accepts(),
{
}

} // verus!
