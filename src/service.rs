//! Credentials and request paths for the comment database's API.
use base64::prelude::BASE64_STANDARD;
use base64::Engine;
use sha2::{Digest, Sha256};
use vstd::prelude::*;
use vstd::string::StringExecFns;
use vstd::utf8::encode_utf8;

use crate::align::EpisodeKind;
use crate::ident::ResolveError;
use crate::text::{chars_of, string_of};

verus! {

/// The SHA-256 digest of a byte string.
pub uninterp spec fn sha256_of(data: Seq<u8>) -> Seq<u8>;

/// The standard, padded base64 encoding of a byte string.
pub uninterp spec fn base64_of(data: Seq<u8>) -> Seq<char>;

/// Relies on `sha2::Sha256::digest`: the 32-byte digest of the input.
#[verifier::external_body]
fn sha256(data: &[u8]) -> (r: Vec<u8>)
    ensures
        r@ == sha256_of(data@),
        r@.len() == 32,
{
    Sha256::digest(data).to_vec()
}

/// Relies on `base64::Engine::encode` of `BASE64_STANDARD`: standard
/// alphabet, padded with `=` to whole blocks of four characters; two input
/// bytes left over give one `=`.
#[verifier::external_body]
fn base64_encode(data: &[u8]) -> (r: String)
    requires
        data@.len() <= 1024,
    ensures
        r@ == base64_of(data@),
        r@.len() == 4 * ((data@.len() + 2) / 3),
        data@.len() % 3 == 2 ==> r@.last() == '=' && r@[r@.len() - 2] != '=',
{
    BASE64_STANDARD.encode(data)
}

/// The character for a decimal digit.
pub open spec fn digit_char(d: int) -> char {
    if d == 0 {
        '0'
    } else if d == 1 {
        '1'
    } else if d == 2 {
        '2'
    } else if d == 3 {
        '3'
    } else if d == 4 {
        '4'
    } else if d == 5 {
        '5'
    } else if d == 6 {
        '6'
    } else if d == 7 {
        '7'
    } else if d == 8 {
        '8'
    } else {
        '9'
    }
}

/// The decimal numeral of `n`, without leading zeros.
pub open spec fn decimal(n: nat) -> Seq<char>
    decreases n,
{
    if n < 10 {
        seq![digit_char(n as int)]
    } else {
        decimal(n / 10).push(digit_char((n % 10) as int))
    }
}

/// The decimal numeral of `n`, with a minus sign when negative.
pub open spec fn signed_decimal(n: int) -> Seq<char> {
    if n < 0 {
        seq!['-'] + decimal((-n) as nat)
    } else {
        decimal(n as nat)
    }
}

fn digit_of(d: u64) -> (r: char)
    requires
        d < 10,
    ensures
        r == digit_char(d as int),
{
    if d == 0 {
        '0'
    } else if d == 1 {
        '1'
    } else if d == 2 {
        '2'
    } else if d == 3 {
        '3'
    } else if d == 4 {
        '4'
    } else if d == 5 {
        '5'
    } else if d == 6 {
        '6'
    } else if d == 7 {
        '7'
    } else if d == 8 {
        '8'
    } else {
        '9'
    }
}

/// The decimal digits of `n`.
pub fn decimal_chars(n: u64) -> (r: Vec<char>)
    ensures
        r@ == decimal(n as nat),
    decreases n,
{
    if n < 10 {
        let mut v: Vec<char> = Vec::new();
        v.push(digit_of(n));
        assert(v@ =~= seq![digit_char(n as int)]);
        v
    } else {
        let mut v = decimal_chars(n / 10);
        v.push(digit_of(n % 10));
        v
    }
}

/// The decimal numeral of a signed integer.
pub fn signed_decimal_chars(n: i64) -> (r: Vec<char>)
    ensures
        r@ == signed_decimal(n as int),
{
    if n < 0 {
        let mag: u64 = (0 - (n as i128)) as u64;
        let digits = decimal_chars(mag);
        let mut v: Vec<char> = Vec::new();
        v.push('-');
        let mut i: usize = 0;
        while i < digits.len()
            invariant
                i <= digits@.len(),
                v@ == seq!['-'] + digits@.take(i as int),
            decreases digits@.len() - i,
        {
            v.push(digits[i]);
            i = i + 1;
            assert(v@ =~= seq!['-'] + digits@.take(i as int));
        }
        assert(digits@.take(digits@.len() as int) =~= digits@);
        v
    } else {
        decimal_chars(n as u64)
    }
}

fn append_chars(v: &mut Vec<char>, s: &Vec<char>)
    ensures
        final(v)@ == old(v)@ + s@,
{
    let ghost start = v@;
    let mut i: usize = 0;
    while i < s.len()
        invariant
            i <= s@.len(),
            v@ == start + s@.take(i as int),
        decreases s@.len() - i,
    {
        v.push(s[i]);
        i = i + 1;
        assert(v@ =~= start + s@.take(i as int));
    }
    assert(s@.take(s@.len() as int) =~= s@);
}

/// The text that is signed: application id, timestamp, path and secret.
pub open spec fn signed_text(app_id: Seq<char>, timestamp: int, path: Seq<char>, app_secret: Seq<
    char,
>) -> Seq<char> {
    app_id + signed_decimal(timestamp) + path + app_secret
}

/// base64(sha256(app id, timestamp, path and secret, concatenated as text)).
pub open spec fn signature_spec(app_id: Seq<char>, timestamp: int, path: Seq<char>, app_secret: Seq<
    char,
>) -> Seq<char> {
    base64_of(sha256_of(encode_utf8(signed_text(app_id, timestamp, path, app_secret))))
}

/// The request signature for a path at a time.
pub fn calculate_signature(app_id: &str, timestamp: i64, path: &str, app_secret: &str) -> (r:
    String)
    ensures
        r@ == signature_spec(app_id@, timestamp as int, path@, app_secret@),
        r@.len() == 44,
        r@[43] == '=' && r@[42] != '=',
{
    let mut text = chars_of(app_id);
    append_chars(&mut text, &signed_decimal_chars(timestamp));
    append_chars(&mut text, &chars_of(path));
    append_chars(&mut text, &chars_of(app_secret));
    let data = string_of(&text);
    let digest = sha256(data.as_str().as_bytes());
    base64_encode(digest.as_slice())
}

#[verifier::external_type_specification]
#[verifier::external_body]
pub struct ExSystemTime(std::time::SystemTime);

/// Relies on `SystemTime::now`: the current wall-clock time.
#[verifier::external_body]
fn system_now() -> (r: std::time::SystemTime) {
    std::time::SystemTime::now()
}

/// Relies on `SystemTime::duration_since(UNIX_EPOCH)`: the whole seconds
/// since the epoch, `None` when `t` is before it.
#[verifier::external_body]
fn seconds_since_epoch(t: std::time::SystemTime) -> (r: Option<u64>) {
    match t.duration_since(std::time::UNIX_EPOCH) {
        Ok(d) => Some(d.as_secs()),
        Err(_) => None,
    }
}

/// The timestamp for a clock reading in seconds since the epoch: `None`
/// for a reading before the epoch or beyond `i64`.
pub open spec fn timestamp_spec(secs: Option<u64>) -> Option<i64> {
    match secs {
        Some(s) => if s <= i64::MAX as u64 {
            Some(s as i64)
        } else {
            None
        },
        None => None,
    }
}

/// The timestamp for a clock reading.
pub fn timestamp_from(secs: Option<u64>) -> (r: Option<i64>)
    ensures
        r == timestamp_spec(secs),
{
    match secs {
        Some(s) => if s <= i64::MAX as u64 {
            Some(s as i64)
        } else {
            None
        },
        None => None,
    }
}

/// Seconds since the Unix epoch, `None` when the clock reads before it or
/// beyond `i64`.
pub fn get_timestamp() -> (r: Option<i64>)
    ensures
        r matches Some(t) ==> t >= 0,
{
    timestamp_from(seconds_since_epoch(system_now()))
}

/// Where the API lives.
pub const BASE_URL: &'static str = "https://api.dandanplay.net";

/// The credentials of this application at the API.
pub struct DandanplayService {
    pub app_id: String,
    pub app_secret: String,
}

/// The three authentication headers, in order: application id,
/// signature and timestamp.
pub open spec fn auth_headers_for(
    s: DandanplayService,
    path: Seq<char>,
    h: [(String, String); 3],
    t: i64,
) -> bool {
    &&& h@[0].0@ == seq!['X', '-', 'A', 'p', 'p', 'I', 'd']
    &&& h@[0].1@ == s.app_id@
    &&& h@[1].0@ == seq!['X', '-', 'S', 'i', 'g', 'n', 'a', 't', 'u', 'r', 'e']
    &&& h@[1].1@ == signature_spec(s.app_id@, t as int, path, s.app_secret@)
    &&& h@[2].0@ == seq!['X', '-', 'T', 'i', 'm', 'e', 's', 't', 'a', 'm', 'p']
    &&& h@[2].1@ == signed_decimal(t as int)
}

impl DandanplayService {
    /// Credentials are configured when neither part is empty.
    pub open spec fn configured(&self) -> bool {
        self.app_id@.len() > 0 && self.app_secret@.len() > 0
    }

    /// Whether both the application id and the secret are set.
    pub fn is_auth_configured(&self) -> (r: bool)
        ensures
            r == self.configured(),
    {
        !self.app_id.as_str().is_empty() && !self.app_secret.as_str().is_empty()
    }

    /// Fails with a configuration error unless both parts are set.
    pub fn ensure_auth_configured(&self) -> (r: Result<(), ResolveError>)
        ensures
            r is Ok <==> self.configured(),
            r is Err ==> r == Err::<(), ResolveError>(ResolveError::ConfigurationError),
    {
        if !self.is_auth_configured() {
            return Err(ResolveError::ConfigurationError);
        }
        Ok(())
    }

    /// The full URL of an API path.
    pub fn url(path: &str) -> (r: String)
        ensures
            r@ == BASE_URL@ + path@,
    {
        let mut r = String::from_str(BASE_URL);
        r.append(path);
        r
    }
}

/// The authentication headers for a request to `path` signed at
/// `timestamp`.
pub fn auth_headers_at(service: &DandanplayService, path: &str, timestamp: i64) -> (r: [(
    String,
    String,
); 3])
    requires
        service.configured(),
    ensures
        auth_headers_for(*service, path@, r, timestamp),
{
    let signature = calculate_signature(
        service.app_id.as_str(),
        timestamp,
        path,
        service.app_secret.as_str(),
    );
    [
        (string_of(&vec!['X', '-', 'A', 'p', 'p', 'I', 'd']), service.app_id.clone()),
        (
            string_of(&vec!['X', '-', 'S', 'i', 'g', 'n', 'a', 't', 'u', 'r', 'e']),
            signature,
        ),
        (
            string_of(&vec!['X', '-', 'T', 'i', 'm', 'e', 's', 't', 'a', 'm', 'p']),
            string_of(&signed_decimal_chars(timestamp)),
        ),
    ]
}

/// The authentication headers for a request to `path`, signed at the
/// current time. Missing credentials are a configuration error; a clock
/// that reads before the epoch (or beyond `i64`) is a clock error; with
/// credentials and a usable reading the headers are those of that reading.
pub fn build_auth_headers(service: &DandanplayService, path: &str) -> (r: Result<
    [(String, String); 3],
    ResolveError,
>)
    ensures
        !service.configured() ==> r == Err::<[(String, String); 3], ResolveError>(
            ResolveError::ConfigurationError,
        ),
        service.configured() ==> (r is Ok || r == Err::<[(String, String); 3], ResolveError>(
            ResolveError::ClockError,
        )),
        r is Ok ==> exists|t: i64| t >= 0 && auth_headers_for(*service, path@, r->Ok_0, t),
{
    if !service.is_auth_configured() {
        return Err(ResolveError::ConfigurationError);
    }
    match get_timestamp() {
        Some(t) => {
            let h = auth_headers_at(service, path, t);
            let r: Result<[(String, String); 3], ResolveError> = Ok(h);
            assert(r->Ok_0 == h);
            assert(exists|t: i64| t >= 0 && auth_headers_for(*service, path@, r->Ok_0, t));
            r
        },
        None => Err(ResolveError::ClockError),
    }
}
/// The characters that `byte` becomes in form encoding: unreserved bytes
/// stay, a space becomes `+`, anything else is `%` and two upper-case hex
/// digits.
pub open spec fn form_byte(b: u8) -> Seq<char> {
    if b == 42 || b == 45 || b == 46 || b == 95 || (48 <= b <= 57) || (65 <= b <= 90) || (97 <= b
        <= 122) {
        seq![b as char]
    } else if b == 32 {
        seq!['+']
    } else {
        seq!['%', hex_upper((b / 16) as int), hex_upper((b % 16) as int)]
    }
}

/// An upper-case hexadecimal digit.
pub open spec fn hex_upper(d: int) -> char {
    if d < 10 {
        digit_char(d)
    } else if d == 10 {
        'A'
    } else if d == 11 {
        'B'
    } else if d == 12 {
        'C'
    } else if d == 13 {
        'D'
    } else if d == 14 {
        'E'
    } else {
        'F'
    }
}

/// The `application/x-www-form-urlencoded` form of a byte string.
pub open spec fn form_encoded(b: Seq<u8>) -> Seq<char>
    decreases b.len(),
{
    if b.len() == 0 {
        Seq::empty()
    } else {
        form_encoded(b.drop_last()) + form_byte(b.last())
    }
}

/// Relies on `form_urlencoded::byte_serialize`, collected into one string:
/// each byte encoded as `form_byte` says.
#[verifier::external_body]
fn form_encode(data: &[u8]) -> (r: String)
    ensures
        r@ == form_encoded(data@),
{
    url::form_urlencoded::byte_serialize(data).collect()
}

/// The name under which the API knows an episode kind.
pub open spec fn kind_name(kind: EpisodeKind) -> Seq<char> {
    match kind {
        EpisodeKind::Tv => seq!['t', 'v'],
        EpisodeKind::Movie => seq!['m', 'o', 'v', 'i', 'e'],
        EpisodeKind::Ova => seq!['o', 'v', 'a'],
    }
}

/// `/api/v2/search/anime?keyword=<form-encoded name>&type=<kind>`.
pub open spec fn search_path_spec(series_name: Seq<char>, kind: EpisodeKind) -> Seq<char> {
    seq!['/', 'a', 'p', 'i', '/', 'v', '2', '/', 's', 'e', 'a', 'r', 'c', 'h', '/', 'a', 'n', 'i', 'm', 'e', '?', 'k', 'e', 'y', 'w', 'o', 'r', 'd', '=']
        + form_encoded(encode_utf8(series_name)) + seq!['&', 't', 'y', 'p', 'e', '='] + kind_name(
        kind,
    )
}

/// The search path for a series by name and kind.
pub fn search_path(series_name: &str, kind: EpisodeKind) -> (r: String)
    ensures
        r@ == search_path_spec(series_name@, kind),
{
    let mut v: Vec<char> = vec![
        '/', 'a', 'p', 'i', '/', 'v', '2', '/', 's', 'e', 'a', 'r', 'c', 'h', '/', 'a', 'n', 'i', 'm', 'e', '?', 'k', 'e', 'y', 'w', 'o', 'r', 'd', '=',
    ];
    let enc = form_encode(series_name.as_bytes());
    append_chars(&mut v, &chars_of(enc.as_str()));
    append_chars(&mut v, &vec!['&', 't', 'y', 'p', 'e', '=']);
    let kind_chars = match kind {
        EpisodeKind::Tv => vec!['t', 'v'],
        EpisodeKind::Movie => vec!['m', 'o', 'v', 'i', 'e'],
        EpisodeKind::Ova => vec!['o', 'v', 'a'],
    };
    append_chars(&mut v, &kind_chars);
    string_of(&v)
}

/// `/api/v2/comment/<episode id>?withRelated=true`.
pub open spec fn comment_path_spec(episode_id: nat) -> Seq<char> {
    seq!['/', 'a', 'p', 'i', '/', 'v', '2', '/', 'c', 'o', 'm', 'm', 'e', 'n', 't', '/']
        + decimal(episode_id) + seq!['?', 'w', 'i', 't', 'h', 'R', 'e', 'l', 'a', 't', 'e', 'd', '=', 't', 'r', 'u', 'e']
}

/// The path that fetches the comments of an episode.
pub fn comment_path(episode_id: u64) -> (r: String)
    ensures
        r@ == comment_path_spec(episode_id as nat),
{
    let mut v: Vec<char> = vec![
        '/', 'a', 'p', 'i', '/', 'v', '2', '/', 'c', 'o', 'm', 'm', 'e', 'n', 't', '/',
    ];
    append_chars(&mut v, &decimal_chars(episode_id));
    append_chars(
        &mut v,
        &vec!['?', 'w', 'i', 't', 'h', 'R', 'e', 'l', 'a', 't', 'e', 'd', '=', 't', 'r', 'u', 'e'],
    );
    string_of(&v)
}

} // verus!
