//! Sessions and credentials: token generation, expiry arithmetic,
//! password hashing, and the session cookie.
//!
//! A session token is 32 random bytes rendered as URL-safe base64
//! without padding. Expiry is creation time plus a fixed duration,
//! saturating rather than overflowing. Passwords are stored as bcrypt
//! hashes and checked against them.

use vstd::prelude::*;
use base64::Engine;
use crate::error::EngineError;
use crate::model::Session;
use crate::text::{str_eq, trim, trim_spec};
use vstd::string::{
    StrSliceExecFns, StringExecFns, StringSliceAdditionalSpecFns,
};

verus! {

/// How long a session stays valid, in days.
pub const SESSION_DURATION_DAYS: i64 = 30;

/// One day in milliseconds.
pub const MILLIS_PER_DAY: i64 = 86400000;

/// Relies on rand::random::<u8>: one byte drawn from the thread-local
/// generator. Nothing can be promised of its value.
#[verifier::external_body]
fn random_byte() -> u8 {
    rand::random()
}

/// The URL-safe unpadded base64 rendering of a byte sequence. Names
/// the result of base64's URL_SAFE_NO_PAD encode, a function of the
/// bytes alone.
pub uninterp spec fn b64url_of(b: Seq<u8>) -> Seq<char>;

/// Relies on base64's URL_SAFE_NO_PAD engine: encodes the bytes as
/// URL-safe base64 without padding; three bytes become four characters
/// and a final one or two bytes become two or three. The length bound
/// keeps the encoded size computation far from overflowing, where the
/// engine would panic.
#[verifier::external_body]
fn b64_url_nopad(b: &Vec<u8>) -> (r: String)
    requires
        b@.len() <= 100000000,
    ensures
        r@ == b64url_of(b@),
        r@.len() == (4 * b@.len() + 2) / 3,
{
    base64::engine::general_purpose::URL_SAFE_NO_PAD.encode(b)
}

/// Relies on chrono::Utc::now and timestamp_millis for the wall
/// clock; nothing is promised of its reading.
#[verifier::external_body]
fn now_millis() -> i64 {
    chrono::Utc::now().timestamp_millis()
}

/// Draws a fresh session token: 32 random bytes in URL-safe base64,
/// always 43 characters.
pub fn generate_session_token() -> (r: String)
    ensures
        r@.len() == 43,
{
    let mut bytes: Vec<u8> = Vec::new();
    let mut i: usize = 0;
    while i < 32
        invariant
            i <= 32,
            bytes@.len() == i,
        decreases 32 - i,
    {
        bytes.push(random_byte());
        i = i + 1;
    }
    b64_url_nopad(&bytes)
}

/// Creation time plus a duration in days, saturating at the largest
/// timestamp instead of overflowing.
pub open spec fn expiry_spec(created_at: i64, days: i64) -> int {
    if created_at + days * MILLIS_PER_DAY > i64::MAX {
        i64::MAX as int
    } else {
        created_at + days * MILLIS_PER_DAY
    }
}

/// Computes a session's expiry timestamp.
pub fn session_expires_at(created_at: i64, days: i64) -> (r: i64)
    requires
        0 <= days <= 100000,
    ensures
        r == expiry_spec(created_at, days),
{
    let ms = days * MILLIS_PER_DAY;
    if created_at > i64::MAX - ms {
        i64::MAX
    } else {
        created_at + ms
    }
}

/// A session is valid while its expiry has not passed.
pub fn session_is_valid(expires_at: i64, now: i64) -> (r: bool)
    ensures
        r == (expires_at >= now),
{
    expires_at >= now
}

/// Builds a new session for a user: fresh token, current time, expiry
/// after the configured duration.
pub fn create_session(user_id: String) -> (r: Session)
    ensures
        r.id is None,
        r.user_id == user_id,
        r.session_token@.len() == 43,
        r.expires_at == expiry_spec(r.created_at, SESSION_DURATION_DAYS),
{
    let session_token = generate_session_token();
    let created_at = now_millis();
    let expires_at = session_expires_at(created_at, SESSION_DURATION_DAYS);
    Session { id: None, user_id, session_token, created_at, expires_at }
}

/// What bcrypt::verify answers for a password and a stored hash:
/// `Some(true)` when they match, `Some(false)` when they do not, and
/// no verdict for an unparsable hash. Deterministic in its arguments.
pub uninterp spec fn bcrypt_check(pw: Seq<u8>, hash: Seq<char>) -> Option<bool>;

/// Relies on bcrypt::hash with DEFAULT_COST: a freshly salted hash of
/// the password, which bcrypt::verify accepts against that password.
#[verifier::external_body]
fn bcrypt_hash(pw: &[u8]) -> (r: Option<String>)
    ensures
        r matches Some(h) ==> bcrypt_check(pw@, h@) == Some(true),
{
    bcrypt::hash(pw, bcrypt::DEFAULT_COST).ok()
}

/// Relies on bcrypt::verify: recomputes the hash with the stored salt
/// and compares; deterministic in the password and the hash text.
#[verifier::external_body]
fn bcrypt_verify(pw: &[u8], hash: &str) -> (r: Option<bool>)
    ensures
        r == bcrypt_check(pw@, hash@),
{
    bcrypt::verify(pw, hash).ok()
}

/// Hashes a password for storage. A returned hash always verifies
/// against the password it was made from.
pub fn hash_password(password: &str) -> (r: Result<String, EngineError>)
    ensures
        match r {
            Ok(h) => bcrypt_check(password.spec_bytes(), h@) == Some(true),
            Err(e) => e is HashingFailed,
        },
{
    match bcrypt_hash(password.as_bytes()) {
        Some(h) => Ok(h),
        None => Err(EngineError::HashingFailed),
    }
}

/// Checks a password against a stored hash; an unparsable stored hash
/// is an error, not a mismatch.
pub fn check_password(password: &str, stored_hash: &str) -> (r: Result<bool, EngineError>)
    ensures
        match r {
            Ok(b) => bcrypt_check(password.spec_bytes(), stored_hash@) == Some(b),
            Err(e) => e is StoredHashInvalid && bcrypt_check(
                password.spec_bytes(),
                stored_hash@,
            ) is None,
        },
{
    match bcrypt_verify(password.as_bytes(), stored_hash) {
        Some(b) => Ok(b),
        None => Err(EngineError::StoredHashInvalid),
    }
}

/// Changes a password: the old password must match the stored hash,
/// and the returned hash verifies against the new password. A wrong
/// old password, an unusable stored hash, and a hashing failure are
/// told apart in the error.
pub fn change_password(stored_hash: &str, old_password: &str, new_password: &str) -> (r:
    Result<String, EngineError>)
    ensures
        match r {
            Ok(h) => bcrypt_check(old_password.spec_bytes(), stored_hash@) == Some(true)
                && bcrypt_check(new_password.spec_bytes(), h@) == Some(true),
            Err(e) => match e {
                EngineError::InvalidCredentials => bcrypt_check(
                    old_password.spec_bytes(),
                    stored_hash@,
                ) == Some(false),
                EngineError::StoredHashInvalid => bcrypt_check(
                    old_password.spec_bytes(),
                    stored_hash@,
                ) is None,
                EngineError::HashingFailed => bcrypt_check(
                    old_password.spec_bytes(),
                    stored_hash@,
                ) == Some(true),
                _ => false,
            },
        },
{
    match check_password(old_password, stored_hash) {
        Ok(true) => hash_password(new_password),
        Ok(false) => Err(EngineError::InvalidCredentials),
        Err(e) => Err(e),
    }
}

/// Index of the first occurrence of `c` in `s`, or -1.
pub open spec fn index_of_char(s: Seq<char>, c: char) -> int
    decreases s.len(),
{
    if s.len() == 0 {
        -1
    } else if s[0] == c {
        0
    } else {
        let r = index_of_char(s.skip(1), c);
        if r == -1 {
            -1
        } else {
            r + 1
        }
    }
}

proof fn lemma_index_of_char_spec(s: Seq<char>, c: char)
    ensures
        index_of_char(s, c) == -1 ==> forall|j: int| 0 <= j < s.len() ==> s[j] != c,
        index_of_char(s, c) != -1 ==> {
            let i = index_of_char(s, c);
            &&& 0 <= i < s.len()
            &&& s[i] == c
            &&& forall|j: int| 0 <= j < i ==> s[j] != c
        },
    decreases s.len(),
{
    if s.len() > 0 && s[0] != c {
        lemma_index_of_char_spec(s.skip(1), c);
        let r = index_of_char(s.skip(1), c);
        if r == -1 {
            assert forall|j: int| 0 <= j < s.len() implies s[j] != c by {
                if j > 0 {
                    assert(s.skip(1)[j - 1] == s[j]);
                }
            }
        } else {
            assert(s.skip(1)[r] == s[r + 1]);
            assert forall|j: int| 0 <= j < r + 1 implies s[j] != c by {
                if j > 0 {
                    assert(s.skip(1)[j - 1] == s[j]);
                }
            }
        }
    }
}

/// Finds the first occurrence of a character.
fn find_char(s: &str, c: char) -> (r: Option<usize>)
    ensures
        match r {
            Some(i) => index_of_char(s@, c) == i,
            None => index_of_char(s@, c) == -1,
        },
{
    proof {
        lemma_index_of_char_spec(s@, c);
    }
    let n = s.unicode_len();
    let mut i: usize = 0;
    while i < n
        invariant
            i <= n,
            n == s@.len(),
            index_of_char(s@, c) == -1 ==> forall|j: int| 0 <= j < s@.len() ==> s@[j] != c,
            index_of_char(s@, c) != -1 ==> {
                let k = index_of_char(s@, c);
                &&& 0 <= k < s@.len()
                &&& s@[k] == c
                &&& forall|j: int| 0 <= j < k ==> s@[j] != c
            },
            forall|j: int| 0 <= j < i ==> s@[j] != c,
        decreases n - i,
    {
        if s.get_char(i) == c {
            return Some(i);
        }
        i = i + 1;
    }
    None
}

/// The value of the session cookie within one trimmed cookie entry:
/// the text after the first `=`, when the text before it is exactly
/// the session cookie's name.
pub open spec fn entry_value(e: Seq<char>) -> Option<Seq<char>> {
    let t = trim_spec(e);
    let i = index_of_char(t, '=');
    if i == -1 {
        None
    } else if t.take(i) == "skillforge_session"@ {
        Some(t.skip(i + 1))
    } else {
        None
    }
}

/// The session token carried in a `;`-separated cookie header, if any:
/// the value of the first entry named `skillforge_session`.
pub open spec fn cookie_value(s: Seq<char>) -> Option<Seq<char>>
    decreases s.len(),
    via cookie_value_decreases
{
    let i = index_of_char(s, ';');
    let entry = if i == -1 {
        s
    } else {
        s.take(i)
    };
    match entry_value(entry) {
        Some(v) => Some(v),
        None => if i == -1 {
            None
        } else {
            cookie_value(s.skip(i + 1))
        },
    }
}

#[via_fn]
proof fn cookie_value_decreases(s: Seq<char>) {
    lemma_index_of_char_spec(s, ';');
}

/// Reads the session token out of a cookie header string, if present.
pub fn get_session_token(cookies: &str) -> (r: Option<String>)
    ensures
        r.deep_view() == cookie_value(cookies@),
{
    let mut s: &str = cookies;
    loop
        invariant
            cookie_value(cookies@) == cookie_value(s@),
        decreases s@.len(),
    {
        let ghost sv = s@;
        proof {
            lemma_index_of_char_spec(sv, ';');
        }
        let semi = find_char(s, ';');
        let entry: &str = match semi {
            Some(i) => s.substring_char(0, i),
            None => s,
        };
        let ghost entryv = entry@;
        proof {
            if index_of_char(sv, ';') != -1 {
                assert(entryv =~= sv.take(index_of_char(sv, ';')));
            }
        }
        let t = trim(entry);
        let ghost tv = t@;
        proof {
            lemma_index_of_char_spec(tv, '=');
        }
        match find_char(t, '=') {
            Some(i) => {
                let name = t.substring_char(0, i);
                if str_eq(name, "skillforge_session") {
                    let tl = t.unicode_len();
                    let value = t.substring_char(i + 1, tl);
                    proof {
                        assert(name@ =~= tv.take(i as int));
                        assert(value@ =~= tv.skip(i + 1));
                        assert(entry_value(entryv) == Some(value@));
                    }
                    return Some(value.to_owned());
                }
                proof {
                    assert(name@ =~= tv.take(i as int));
                    assert(entry_value(entryv) is None);
                }
            },
            None => {
                proof {
                    assert(entry_value(entryv) is None);
                }
            },
        }
        match semi {
            Some(i) => {
                let n = s.unicode_len();
                s = s.substring_char(i + 1, n);
                proof {
                    assert(s@ =~= sv.skip(i + 1));
                }
            },
            None => {
                return None;
            },
        }
    }
}

/// Builds the session cookie string the client stores: the token under
/// the session cookie's name, with the given expiry text, for the whole
/// site, with lax same-site semantics.
pub fn set_session_cookie(token: &str, expires: &str) -> (r: String)
    ensures
        r@ == "skillforge_session="@ + token@ + "; expires="@ + expires@
            + "; path=/; SameSite=Lax"@,
{
    let mut m = String::from_str("skillforge_session=");
    m.append(token);
    m.append("; expires=");
    m.append(expires);
    m.append("; path=/; SameSite=Lax");
    proof {
        assert(m@ =~= "skillforge_session="@ + token@ + "; expires="@ + expires@
            + "; path=/; SameSite=Lax"@);
    }
    m
}

} // verus!
