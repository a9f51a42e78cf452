//! Who may talk to the daemon: gateway tokens, the API token, and what a bind
//! address requires.
use vstd::prelude::*;
use vstd::string::*;
use vstd::utf8::*;

use crate::clock::{clock_ms, epoch_ms};
use crate::relay::snapshots::{is_valid_gateway_id, valid_gateway_id};
use crate::relay::state::DEV_GATEWAY_ID;
use crate::text::{
    contains, decimal, decimal_text, has_prefix, number, occurs, opt_str_view, opt_view,
    parse_number, pieces, same_text, split, starts_with, strip_prefix, trim, trimmed, views,
};

verus! {

// ---- outside computations -------------------------------------------------------

/// What base64 in the URL alphabet without padding decodes to.
pub uninterp spec fn base64url_decoded(text: Seq<char>) -> Option<Seq<u8>>;

/// HMAC with SHA-256 of a message under a key.
pub uninterp spec fn hmac_sha256(key: Seq<u8>, message: Seq<u8>) -> Seq<u8>;

/// SHA-256 of a message.
pub uninterp spec fn sha256(message: Seq<u8>) -> Seq<u8>;

/// `base64::Engine::decode` of `URL_SAFE_NO_PAD`; what it gives is named.
#[verifier::external_body]
fn decode_base64url(text: &str) -> (r: Option<Vec<u8>>)
    ensures
        match r {
            Some(bytes) => base64url_decoded(text@) == Some(bytes@),
            None => base64url_decoded(text@) is None,
        },
{
    base64::Engine::decode(&base64::engine::general_purpose::URL_SAFE_NO_PAD, text).ok()
}

/// `String::from_utf8`: the text of a valid encoding, nothing otherwise.
#[verifier::external_body]
fn text_from_utf8(bytes: Vec<u8>) -> (r: Option<String>)
    ensures
        match r {
            Some(s) => valid_utf8(bytes@) && s@ == decode_utf8(bytes@),
            None => !valid_utf8(bytes@),
        },
{
    String::from_utf8(bytes).ok()
}

/// The value of a hexadecimal digit of either case.
pub open spec fn hex_value(c: char) -> Option<nat> {
    if '0' <= c && c <= '9' {
        Some((c as nat - 48) as nat)
    } else if 'A' <= c && c <= 'F' {
        Some((c as nat - 55) as nat)
    } else if 'a' <= c && c <= 'f' {
        Some((c as nat - 87) as nat)
    } else {
        None
    }
}

/// What hexadecimal text decodes to: two digits for each byte.
pub open spec fn hex_decoded(text: Seq<char>) -> Option<Seq<u8>> {
    if text.len() % 2 == 0 && forall|i: int|
        0 <= i < text.len() ==> hex_value(#[trigger] text[i]) is Some {
        Some(
            Seq::new(
                text.len() / 2,
                |i: int| (hex_value(text[2 * i])->0 * 16 + hex_value(text[2 * i + 1])->0) as u8,
            ),
        )
    } else {
        None
    }
}

/// `hex::decode`: an even number of digits of either case, two for each byte.
#[verifier::external_body]
fn decode_hex(text: &str) -> (r: Option<Vec<u8>>)
    ensures
        match r {
            Some(bytes) => hex_decoded(text@) == Some(bytes@),
            None => hex_decoded(text@) is None,
        },
{
    hex::decode(text).ok()
}

/// `Hmac::<Sha256>::verify_slice` after `new_from_slice`, which takes a key of
/// any length, and `update`: whether the tag is the message's own.
#[verifier::external_body]
fn hmac_verifies(key: &[u8], message: &[u8], tag: &[u8]) -> (r: bool)
    ensures
        r == (tag@ == hmac_sha256(key@, message@)),
{
    let mut mac = <hmac::Hmac<sha2::Sha256> as hmac::Mac>::new_from_slice(key).unwrap();
    hmac::Mac::update(&mut mac, message);
    hmac::Mac::verify_slice(mac, tag).is_ok()
}

/// `Hmac::<Sha256>::finalize` after `new_from_slice`, which takes a key of any
/// length, and `update`: the message's tag.
#[verifier::external_body]
fn hmac_tag(key: &[u8], message: &[u8]) -> (r: Vec<u8>)
    ensures
        r@ == hmac_sha256(key@, message@),
{
    let mut mac = <hmac::Hmac<sha2::Sha256> as hmac::Mac>::new_from_slice(key).unwrap();
    hmac::Mac::update(&mut mac, message);
    hmac::Mac::finalize(mac).into_bytes().to_vec()
}

/// `Sha256::digest`, 32 bytes.
#[verifier::external_body]
fn sha256_digest(message: &[u8]) -> (r: Vec<u8>)
    ensures
        r@ == sha256(message@),
        r@.len() == 32,
{
    <sha2::Sha256 as sha2::Digest>::digest(message).to_vec()
}

// ---- gateway tokens -------------------------------------------------------------

/// Bytes of a token's signature.
pub const SIGNATURE_BYTES: usize = 32;

/// Why a gateway token is refused.
#[derive(Debug, Clone, Copy, PartialEq, Eq, Structural)]
pub enum TokenError {
    Encoding,
    NotText,
    Malformed,
    Signature,
    SignatureLength,
    Expiry,
    Expired,
    NoSecretMatched,
}

impl TokenError {
    /// The refusal in words.
    pub open spec fn words(self) -> Seq<char> {
        match self {
            TokenError::Encoding => "invalid token encoding"@,
            TokenError::NotText => "token is not text"@,
            TokenError::Malformed => "malformed token"@,
            TokenError::Signature => "invalid signature encoding"@,
            TokenError::SignatureLength => "invalid signature length"@,
            TokenError::Expiry => "invalid token expiry"@,
            TokenError::Expired => "token expired"@,
            TokenError::NoSecretMatched => "no secret matched"@,
        }
    }

    /// The refusal in words.
    pub fn message(&self) -> (r: String)
        ensures
            r@ == self.words(),
    {
        match self {
            TokenError::Encoding => "invalid token encoding".to_string(),
            TokenError::NotText => "token is not text".to_string(),
            TokenError::Malformed => "malformed token".to_string(),
            TokenError::Signature => "invalid signature encoding".to_string(),
            TokenError::SignatureLength => "invalid signature length".to_string(),
            TokenError::Expiry => "invalid token expiry".to_string(),
            TokenError::Expired => "token expired".to_string(),
            TokenError::NoSecretMatched => "no secret matched".to_string(),
        }
    }
}

/// What a token's signature is over.
pub open spec fn signed_input(payload: Seq<char>, exp: Seq<char>) -> Seq<char> {
    payload + ":"@ + exp
}

/// Whether one of the secrets made this signature.
pub open spec fn signed_by_any(
    secrets: Seq<Seq<char>>,
    input: Seq<char>,
    signature: Seq<u8>,
) -> bool {
    exists|i: int|
        0 <= i < secrets.len() && signature == hmac_sha256(
            encode_utf8(#[trigger] secrets[i]),
            encode_utf8(input),
        )
}

/// The gateway of a decoded token, `payload:exp:signature`, at `now` in seconds.
pub open spec fn token_text_verdict(
    text: Seq<char>,
    secrets: Seq<Seq<char>>,
    now: u64,
) -> Result<Seq<char>, TokenError> {
    let parts = pieces(text, ':');
    if parts.len() != 3 {
        Err(TokenError::Malformed)
    } else if hex_decoded(parts[2]) is None {
        Err(TokenError::Signature)
    } else if hex_decoded(parts[2])->0.len() != SIGNATURE_BYTES {
        Err(TokenError::SignatureLength)
    } else if number(parts[1]) is None || number(parts[1])->0 > u64::MAX {
        Err(TokenError::Expiry)
    } else if now > number(parts[1])->0 {
        Err(TokenError::Expired)
    } else if signed_by_any(
        secrets,
        signed_input(parts[0], parts[1]),
        hex_decoded(parts[2])->0,
    ) {
        Ok(parts[0])
    } else {
        Err(TokenError::NoSecretMatched)
    }
}

/// The gateway of a token at `now` in seconds.
pub open spec fn token_verdict(token: Seq<char>, secrets: Seq<Seq<char>>, now: u64) -> Result<
    Seq<char>,
    TokenError,
> {
    match base64url_decoded(token) {
        None => Err(TokenError::Encoding),
        Some(bytes) => if !valid_utf8(bytes) {
            Err(TokenError::NotText)
        } else {
            token_text_verdict(decode_utf8(bytes), secrets, now)
        },
    }
}

/// Whether a check of a token came out like this.
pub open spec fn token_checked(
    r: Result<String, TokenError>,
    verdict: Result<Seq<char>, TokenError>,
) -> bool {
    match r {
        Ok(id) => verdict == Ok::<Seq<char>, TokenError>(id@),
        Err(e) => verdict == Err::<Seq<char>, TokenError>(e),
    }
}

/// Checks a decoded token at `now` in seconds. Any secret of the list will do.
pub fn verify_token_text(text: &str, secrets: &[String], now: u64) -> (r: Result<
    String,
    TokenError,
>)
    ensures
        token_checked(r, token_text_verdict(text@, views(secrets@), now)),
{
    let parts = split(text, ':');
    assert(views(parts@).len() == parts@.len());
    if parts.len() != 3 {
        return Err(TokenError::Malformed);
    }
    assert(views(parts@)[0] == parts@[0]@ && views(parts@)[1] == parts@[1]@ && views(parts@)[2]
        == parts@[2]@);
    let signature = match decode_hex(parts[2].as_str()) {
        Some(bytes) => bytes,
        None => {
            return Err(TokenError::Signature);
        },
    };
    if signature.len() != SIGNATURE_BYTES {
        return Err(TokenError::SignatureLength);
    }
    let exp: u128 = match parse_number(parts[1].as_str(), u64::MAX as u128) {
        Some(n) => n,
        None => {
            return Err(TokenError::Expiry);
        },
    };
    if (now as u128) > exp {
        return Err(TokenError::Expired);
    }
    let mut input = parts[0].clone();
    input.append(":");
    input.append(parts[1].as_str());
    let ghost all = views(secrets@);
    for i in 0..secrets.len()
        invariant
            all == views(secrets@),
            parts@.len() == 3,
            parts@[0]@ == pieces(text@, ':')[0],
            pieces(text@, ':').len() == 3,
            token_text_verdict(text@, all, now) == (if signed_by_any(all, input@, signature@) {
                Ok::<Seq<char>, TokenError>(pieces(text@, ':')[0])
            } else {
                Err(TokenError::NoSecretMatched)
            }),
            forall|k: int|
                0 <= k < i ==> signature@ != hmac_sha256(
                    encode_utf8(#[trigger] all[k]),
                    encode_utf8(input@),
                ),
    {
        assert(all[i as int] == secrets@[i as int]@);
        if hmac_verifies(
            secrets[i].as_str().as_bytes(),
            input.as_str().as_bytes(),
            signature.as_slice(),
        ) {
            assert(signed_by_any(all, input@, signature@));
            return Ok(parts[0].clone());
        }
    }
    Err(TokenError::NoSecretMatched)
}

/// Checks a token at `now` in seconds.
pub fn verify_relay_token_at(token_b64: &str, secrets: &[String], now: u64) -> (r: Result<
    String,
    TokenError,
>)
    ensures
        token_checked(r, token_verdict(token_b64@, views(secrets@), now)),
{
    let raw = match decode_base64url(token_b64) {
        Some(bytes) => bytes,
        None => {
            return Err(TokenError::Encoding);
        },
    };
    match text_from_utf8(raw) {
        Some(text) => verify_token_text(text.as_str(), secrets, now),
        None => Err(TokenError::NotText),
    }
}

/// Checks a token now. Hands back the gateway that it names.
pub fn verify_relay_token(token_b64: &str, secrets: &[String]) -> (r: Result<String, TokenError>)
    ensures
        exists|now: u64|
            token_checked(r, #[trigger] token_verdict(token_b64@, views(secrets@), now)),
{
    let now: u64 = clock_ms(epoch_ms() / 1000);
    verify_relay_token_at(token_b64, secrets, now)
}

/// A token signed with any secret of the list names its gateway until it
/// expires, and no longer.
pub proof fn law_signed_token_is_accepted_until_it_expires(
    payload: Seq<char>,
    exp: Seq<char>,
    signature: Seq<char>,
    text: Seq<char>,
    secrets: Seq<Seq<char>>,
    i: int,
    now: u64,
)
    requires
        pieces(text, ':') == seq![payload, exp, signature],
        number(exp) is Some && number(exp)->0 <= u64::MAX,
        0 <= i < secrets.len(),
        hex_decoded(signature) == Some(
            hmac_sha256(encode_utf8(secrets[i]), encode_utf8(signed_input(payload, exp))),
        ),
        hex_decoded(signature)->0.len() == SIGNATURE_BYTES,
    ensures
        now <= number(exp)->0 ==> token_text_verdict(text, secrets, now) == Ok::<
            Seq<char>,
            TokenError,
        >(payload),
        now > number(exp)->0 ==> token_text_verdict(text, secrets, now) == Err::<
            Seq<char>,
            TokenError,
        >(TokenError::Expired),
{
    let parts = pieces(text, ':');
    assert(parts[0] == payload && parts[1] == exp && parts[2] == signature);
    assert(signed_by_any(secrets, signed_input(payload, exp), hex_decoded(signature)->0));
}

/// Without secrets no token is accepted.
pub proof fn law_no_secret_accepts_nothing(token: Seq<char>, now: u64)
    ensures
        token_verdict(token, Seq::empty(), now) is Err,
{
}

// ---- headers --------------------------------------------------------------------

/// The token in an `authorization` header.
pub open spec fn bearer(authorization: Option<Seq<char>>) -> Option<Seq<char>> {
    match authorization {
        Some(v) => if has_prefix(v, "Bearer "@) {
            Some(v.skip("Bearer "@.len() as int))
        } else {
            None
        },
        None => None,
    }
}

/// The token in an `authorization` header.
pub fn bearer_token<'a>(authorization: Option<&'a str>) -> (r: Option<&'a str>)
    ensures
        opt_str_view(r) == bearer(opt_str_view(authorization)),
{
    match authorization {
        Some(v) => strip_prefix(v, "Bearer "),
        None => None,
    }
}

/// The gateway that dials in at `now`: the development one where no secret is
/// configured, else the one that its token names. An identity that could not be
/// kept is refused.
pub open spec fn dialed_gateway(
    authorization: Option<Seq<char>>,
    secrets: Seq<Seq<char>>,
    now: u64,
) -> Option<Seq<char>> {
    let id = if secrets.len() == 0 {
        Some(DEV_GATEWAY_ID@)
    } else {
        match bearer(authorization) {
            Some(token) => match token_verdict(token, secrets, now) {
                Ok(id) => Some(id),
                Err(_) => None,
            },
            None => None,
        }
    };
    match id {
        Some(id) => if valid_gateway_id(id) {
            Some(id)
        } else {
            None
        },
        None => None,
    }
}

/// The gateway that dials in at `now` in seconds.
pub fn authenticate_gateway(authorization: Option<&str>, secrets: &[String], now: u64) -> (r:
    Option<String>)
    ensures
        opt_view(r) == dialed_gateway(opt_str_view(authorization), views(secrets@), now),
{
    assert(views(secrets@).len() == secrets@.len());
    let id = if secrets.len() == 0 {
        DEV_GATEWAY_ID.to_string()
    } else {
        match bearer_token(authorization) {
            Some(token) => match verify_relay_token_at(token, secrets, now) {
                Ok(id) => id,
                Err(_) => {
                    return None;
                },
            },
            None => {
                return None;
            },
        }
    };
    if is_valid_gateway_id(id.as_str()) {
        Some(id)
    } else {
        None
    }
}

// ---- the API token --------------------------------------------------------------

/// What both digests are tagged with before they are compared.
pub const API_TOKEN_COMPARISON_CONTEXT: &'static str = "telepathosd/api-token-digest-compare/v1";

/// The digest of an API token.
pub fn api_token_digest(token: &str) -> (r: Vec<u8>)
    ensures
        r@ == sha256(encode_utf8(token@)),
        r@.len() == 32,
{
    sha256_digest(token.as_bytes())
}

/// The tag of a digest in the comparison.
pub open spec fn comparison_tag(digest: Seq<u8>) -> Seq<u8> {
    hmac_sha256(digest, encode_utf8(API_TOKEN_COMPARISON_CONTEXT@))
}

/// Compares two digests by their tags, so that the comparison takes the same
/// time wherever they differ.
pub fn api_token_digests_match(expected: &[u8], supplied: &[u8]) -> (r: bool)
    ensures
        r == (comparison_tag(expected@) == comparison_tag(supplied@)),
{
    let tag = hmac_tag(expected, API_TOKEN_COMPARISON_CONTEXT.as_bytes());
    hmac_verifies(supplied, API_TOKEN_COMPARISON_CONTEXT.as_bytes(), tag.as_slice())
}

/// The token that a request supplies: the one of the dedicated header, else the
/// one of the `authorization` header.
pub open spec fn supplied_token(
    header: Option<Seq<char>>,
    authorization: Option<Seq<char>>,
) -> Option<Seq<char>> {
    if header is Some {
        header
    } else {
        bearer(authorization)
    }
}

/// Whether a supplied token is taken for the expected one.
pub open spec fn token_accepted(supplied: Option<Seq<char>>, expected: Seq<char>) -> bool {
    supplied is Some && comparison_tag(sha256(encode_utf8(supplied->0))) == comparison_tag(
        sha256(encode_utf8(expected)),
    )
}

/// Whether a request may use the API.
pub fn api_token_matches(
    header: Option<&str>,
    authorization: Option<&str>,
    expected: &str,
) -> (r: bool)
    ensures
        r == token_accepted(
            supplied_token(opt_str_view(header), opt_str_view(authorization)),
            expected@,
        ),
{
    let supplied = match header {
        Some(t) => Some(t),
        None => bearer_token(authorization),
    };
    match supplied {
        Some(t) => {
            let a = api_token_digest(expected);
            let b = api_token_digest(t);
            api_token_digests_match(a.as_slice(), b.as_slice())
        },
        None => false,
    }
}

/// The expected token is accepted in either header, the dedicated one decides
/// where both are there, and a request without a token is refused.
pub proof fn law_api_token_headers(
    header: Seq<char>,
    authorization: Option<Seq<char>>,
    expected: Seq<char>,
)
    ensures
        token_accepted(supplied_token(Some(expected), authorization), expected),
        token_accepted(supplied_token(None, Some("Bearer "@ + expected)), expected),
        token_accepted(supplied_token(Some(header), authorization), expected) == token_accepted(
            Some(header),
            expected,
        ),
        !token_accepted(supplied_token(None, None), expected),
{
    let v = "Bearer "@ + expected;
    assert(v.take("Bearer "@.len() as int) =~= "Bearer "@);
    assert(v.skip("Bearer "@.len() as int) =~= expected);
}

// ---- what a bind address requires -----------------------------------------------

/// An address that only this machine reaches.
pub open spec fn loopback(bind: Seq<char>) -> bool {
    bind == "127.0.0.1"@ || bind == "::1"@ || bind == "[::1]"@ || bind == "localhost"@
}

/// Whether only this machine reaches the address.
pub fn is_loopback_bind(bind: &str) -> (r: bool)
    ensures
        r == loopback(bind@),
{
    same_text(bind, "127.0.0.1") || same_text(bind, "::1") || same_text(bind, "[::1]") || same_text(
        bind,
        "localhost",
    )
}

/// Whether the API token is missing though the address requires one.
pub fn api_token_required(bind: &str, configured: bool) -> (r: bool)
    ensures
        r == (!loopback(bind@) && !configured),
{
    !is_loopback_bind(bind) && !configured
}

/// Whether the relay secrets are missing though something requires them.
pub fn relay_credentials_required(
    bind: &str,
    api_token_configured: bool,
    secrets_empty: bool,
) -> (r: bool)
    ensures
        r == (secrets_empty && (api_token_configured || !loopback(bind@))),
{
    secrets_empty && (api_token_configured || !is_loopback_bind(bind))
}

/// Why the daemon does not start with this configuration.
#[derive(Debug, Clone, Copy, PartialEq, Eq, Structural)]
pub enum StartupError {
    TokenRequired,
    SecretsRequired,
    TlsPair,
    TlsRequired,
}

impl StartupError {
    /// The refusal in words.
    pub open spec fn words(self) -> Seq<char> {
        match self {
            StartupError::TokenRequired =>
                "TELEPATHOS_TOKEN is required when TELEPATHOS_BIND is non-loopback"@,
            StartupError::SecretsRequired =>
                "TELEPATHOS_RELAY_SECRETS is required when TELEPATHOS_TOKEN is set or TELEPATHOS_BIND is non-loopback"@,
            StartupError::TlsPair =>
                "TELEPATHOS_TLS_CERT and TELEPATHOS_TLS_KEY must be configured together"@,
            StartupError::TlsRequired =>
                "TELEPATHOS_TLS_CERT and TELEPATHOS_TLS_KEY are required for authenticated non-loopback endpoints"@,
        }
    }

    /// The refusal in words.
    pub fn message(&self) -> (r: String)
        ensures
            r@ == self.words(),
    {
        match self {
            StartupError::TokenRequired =>
                "TELEPATHOS_TOKEN is required when TELEPATHOS_BIND is non-loopback".to_string(),
            StartupError::SecretsRequired =>
                "TELEPATHOS_RELAY_SECRETS is required when TELEPATHOS_TOKEN is set or TELEPATHOS_BIND is non-loopback".to_string(),
            StartupError::TlsPair =>
                "TELEPATHOS_TLS_CERT and TELEPATHOS_TLS_KEY must be configured together".to_string(),
            StartupError::TlsRequired =>
                "TELEPATHOS_TLS_CERT and TELEPATHOS_TLS_KEY are required for authenticated non-loopback endpoints".to_string(),
        }
    }
}

/// What is missing first in a configuration.
pub open spec fn startup_fault(
    bind: Seq<char>,
    token_configured: bool,
    secrets_empty: bool,
    cert: bool,
    key: bool,
) -> Option<StartupError> {
    if !loopback(bind) && !token_configured {
        Some(StartupError::TokenRequired)
    } else if secrets_empty && (token_configured || !loopback(bind)) {
        Some(StartupError::SecretsRequired)
    } else if cert != key {
        Some(StartupError::TlsPair)
    } else if !loopback(bind) && (token_configured || !secrets_empty) && !cert {
        Some(StartupError::TlsRequired)
    } else {
        None
    }
}

/// Checks a configuration before anything is served.
pub fn check_startup(
    bind: &str,
    token_configured: bool,
    secrets_empty: bool,
    cert: bool,
    key: bool,
) -> (r: Result<(), StartupError>)
    ensures
        match r {
            Ok(_) => startup_fault(bind@, token_configured, secrets_empty, cert, key) is None,
            Err(e) => startup_fault(bind@, token_configured, secrets_empty, cert, key) == Some(e),
        },
{
    if api_token_required(bind, token_configured) {
        return Err(StartupError::TokenRequired);
    }
    if relay_credentials_required(bind, token_configured, secrets_empty) {
        return Err(StartupError::SecretsRequired);
    }
    if cert != key {
        return Err(StartupError::TlsPair);
    }
    if !is_loopback_bind(bind) && (token_configured || !secrets_empty) && !cert {
        return Err(StartupError::TlsRequired);
    }
    Ok(())
}

/// A daemon that starts on an address others reach has a token, secrets and TLS.
pub proof fn law_public_daemon_is_protected(
    bind: Seq<char>,
    token_configured: bool,
    secrets_empty: bool,
    cert: bool,
    key: bool,
)
    requires
        !loopback(bind),
        startup_fault(bind, token_configured, secrets_empty, cert, key) is None,
    ensures
        token_configured && !secrets_empty && cert && key,
{
}

/// The socket address for a bind name and a port: IPv6 in brackets, and the
/// local host by its number.
pub open spec fn bind_address(bind: Seq<char>, port: u16) -> Seq<char> {
    let p = ":"@ + decimal(port as nat);
    if bind == "localhost"@ {
        "127.0.0.1"@ + p
    } else if has_prefix(bind, "["@) {
        bind + p
    } else if occurs(bind, ":"@) {
        "["@ + bind + "]"@ + p
    } else {
        bind + p
    }
}

/// The socket address for a bind name and a port.
pub fn bind_address_text(bind: &str, port: u16) -> (r: String)
    ensures
        r@ == bind_address(bind@, port),
{
    let mut p = ":".to_string();
    let d = decimal_text(port as u128);
    p.append(d.as_str());
    let mut s: String;
    if same_text(bind, "localhost") {
        s = "127.0.0.1".to_string();
    } else if starts_with(bind, "[") {
        s = bind.to_string();
    } else if contains(bind, ":") {
        s = "[".to_string();
        s.append(bind);
        s.append("]");
    } else {
        s = bind.to_string();
    }
    s.append(p.as_str());
    s
}

/// The relay secrets of a configuration: separated by commas, without white
/// space around them, the empty ones left out.
pub open spec fn configured_secrets(parts: Seq<Seq<char>>, n: int) -> Seq<Seq<char>>
    decreases n,
{
    if n <= 0 || n > parts.len() {
        Seq::empty()
    } else {
        let before = configured_secrets(parts, n - 1);
        if trimmed(parts[n - 1]).len() > 0 {
            before.push(trimmed(parts[n - 1]))
        } else {
            before
        }
    }
}

/// The relay secrets of a configuration.
pub fn relay_secrets(raw: &str) -> (r: Vec<String>)
    ensures
        views(r@) == configured_secrets(pieces(raw@, ','), pieces(raw@, ',').len() as int),
{
    let parts = split(raw, ',');
    let ghost all = pieces(raw@, ',');
    let mut out: Vec<String> = Vec::new();
    assert(views(out@) =~= configured_secrets(all, 0));
    for i in 0..parts.len()
        invariant
            all == views(parts@),
            views(out@) == configured_secrets(all, i as int),
    {
        assert(all[i as int] == parts@[i as int]@);
        let t = trim(parts[i].as_str());
        if !t.is_empty() {
            let ghost before = out@;
            out.push(t.to_string());
            assert(views(out@) =~= views(before).push(t@));
        }
    }
    out
}

/// Where secrets are configured, a gateway dials in only with a bearer token that
/// one of them signed, and under the name that the token gives it. Where none is,
/// it is the development gateway, whatever it sends.
pub proof fn law_gateway_is_the_one_of_its_token(
    token: Seq<char>,
    secrets: Seq<Seq<char>>,
    now: u64,
    authorization: Option<Seq<char>>,
)
    ensures
        secrets.len() > 0 ==> dialed_gateway(None, secrets, now) is None,
        secrets.len() > 0 ==> dialed_gateway(Some("Bearer "@ + token), secrets, now) == (
        match token_verdict(token, secrets, now) {
            Ok(id) => if valid_gateway_id(id) {
                Some(id)
            } else {
                None
            },
            Err(_) => None,
        }),
        secrets.len() == 0 ==> dialed_gateway(authorization, secrets, now) == dialed_gateway(
            None,
            secrets,
            now,
        ),
{
    let v = "Bearer "@ + token;
    assert(v.take("Bearer "@.len() as int) =~= "Bearer "@);
    assert(v.skip("Bearer "@.len() as int) =~= token);
}

/// A token that no secret signed is refused, whoever it names.
pub proof fn law_unsigned_token_is_refused(
    text: Seq<char>,
    secrets: Seq<Seq<char>>,
    now: u64,
)
    requires
        pieces(text, ':').len() == 3,
        forall|i: int|
            0 <= i < secrets.len() ==> hex_decoded(pieces(text, ':')[2]) != Some(
                hmac_sha256(
                    encode_utf8(#[trigger] secrets[i]),
                    encode_utf8(pieces(text, ':')[0] + ":"@ + pieces(text, ':')[1]),
                ),
            ),
    ensures
        token_text_verdict(text, secrets, now) is Err,
{
}

/// The configured secrets are the parts between the commas, without the white
/// space around them, and the empty ones left out.
pub proof fn law_every_secret_is_configured(parts: Seq<Seq<char>>, n: int, i: int)
    requires
        0 <= i < n <= parts.len(),
    ensures
        trimmed(parts[i]).len() > 0 ==> configured_secrets(parts, n).contains(trimmed(parts[i])),
        forall|k: int|
            0 <= k < configured_secrets(parts, n).len() ==> (#[trigger] configured_secrets(
                parts,
                n,
            )[k]).len() > 0 && exists|j: int|
                0 <= j < n && trimmed(#[trigger] parts[j]) == configured_secrets(parts, n)[k],
    decreases n,
{
    let w = configured_secrets(parts, n);
    let before = configured_secrets(parts, n - 1);
    if n > 1 {
        let j = if i < n - 1 {
            i
        } else {
            0
        };
        law_every_secret_is_configured(parts, n - 1, j);
    }
    if trimmed(parts[n - 1]).len() > 0 {
        assert(w[w.len() - 1] == trimmed(parts[n - 1]));
        if i < n - 1 && trimmed(parts[i]).len() > 0 {
            let k = choose|k: int| 0 <= k < before.len() && before[k] == trimmed(parts[i]);
            assert(w[k] == before[k]);
        }
    }
    assert forall|k: int| 0 <= k < w.len() implies (#[trigger] w[k]).len() > 0 && exists|j: int|
        0 <= j < n && trimmed(#[trigger] parts[j]) == w[k] by {
        if k < before.len() {
            assert(w[k] == before[k]);
            let j = choose|j: int| 0 <= j < n - 1 && trimmed(#[trigger] parts[j]) == before[k];
            assert(trimmed(parts[j]) == w[k]);
        } else {
            assert(trimmed(parts[n - 1]) == w[k]);
        }
    }
}

/// An address ends in its port, and an IPv6 address stands in brackets.
pub proof fn law_bind_address_has_its_port(bind: Seq<char>, port: u16)
    requires
        bind != "localhost"@,
    ensures
        !occurs(bind, ":"@) ==> bind_address(bind, port) == bind + ":"@ + decimal(port as nat),
        has_prefix(bind, "["@) ==> bind_address(bind, port) == bind + ":"@ + decimal(port as nat),
        occurs(bind, ":"@) && !has_prefix(bind, "["@) ==> bind_address(bind, port) == "["@ + bind
            + "]:"@ + decimal(port as nat),
        bind_address("localhost"@, port) == "127.0.0.1"@ + ":"@ + decimal(port as nat),
{
    let d = decimal(port as nat);
    assert(bind + (":"@ + d) =~= bind + ":"@ + d);
    assert("127.0.0.1"@ + (":"@ + d) =~= "127.0.0.1"@ + ":"@ + d);
    reveal_strlit("]:");
    reveal_strlit("]");
    reveal_strlit(":");
    assert("]:"@ =~= "]"@ + ":"@);
    assert("["@ + bind + "]"@ + (":"@ + d) =~= "["@ + bind + "]:"@ + d);
}

} // verus!
