use argon2::password_hash::{PasswordHasher, PasswordVerifier};
use vstd::prelude::*;

use crate::error::KohakuError;
use crate::text::{
    chars_of, count_char, lemma_count_absent, lemma_count_concat, lemma_count_prefix_le, lemma_count_step, push_char,
    string_of_range,
};

verus! {

/// The characters that generated key material is drawn from.
pub const CHARSET: &'static str = "abcdefghijklmnopqrstuvwxyzABCDEFGHIJKLMNOPQRSTUVWXYZ0123456789!#$%&*+-/=";

/// Tag that every generated key starts with.
pub const KEY_TAG: &'static str = "khk_";

/// Length of a generated key, tag included.
pub const KEY_LEN: usize = 42;

/// Length of the lookup prefix of a generated key.
pub const PREFIX_LEN: usize = 10;

/// Whether `c` is one of the characters of [`CHARSET`].
pub open spec fn in_charset(c: char) -> bool {
    CHARSET@.contains(c)
}

/// The charset has 72 characters and no `_`; the tag is `khk_`.
pub proof fn lemma_charset_facts()
    ensures
        CHARSET@.len() == 72,
        !CHARSET@.contains('_'),
        KEY_TAG@ == seq!['k', 'h', 'k', '_'],
{
    reveal_strlit("abcdefghijklmnopqrstuvwxyzABCDEFGHIJKLMNOPQRSTUVWXYZ0123456789!#$%&*+-/=");
    reveal_strlit("khk_");
    assert(KEY_TAG@ =~= seq!['k', 'h', 'k', '_']);
}

/// Relies on `rand::random_range`: a value drawn from the thread-local
/// cryptographically secure generator, inside the half-open range.
#[verifier::external_body]
fn random_below(bound: usize) -> (r: usize)
    requires
        bound > 0,
    ensures
        r < bound,
{
    rand::random_range(0..bound)
}

/// A random string of `length` characters, each drawn from [`CHARSET`].
pub fn random_string(length: usize) -> (r: String)
    ensures
        r@.len() == length,
        forall|i: int| 0 <= i < r@.len() ==> in_charset(#[trigger] r@[i]),
{
    proof {
        lemma_charset_facts();
    }
    let n = CHARSET.unicode_len();
    let mut r = String::new();
    let mut i: usize = 0;
    while i < length
        invariant
            n == CHARSET@.len(),
            n == 72,
            i <= length,
            r@.len() == i,
            forall|j: int| 0 <= j < r@.len() ==> in_charset(#[trigger] r@[j]),
        decreases length - i,
    {
        let idx = random_below(n);
        let c = CHARSET.get_char(idx);
        push_char(&mut r, c);
        assert(r@[i as int] == c);
        i = i + 1;
    }
    r
}


/// Whether `p` is the lookup prefix of `key`: the text before the second `_`.
pub open spec fn is_key_prefix(key: Seq<char>, p: Seq<char>) -> bool {
    &&& p.len() < key.len()
    &&& key.subrange(0, p.len() as int) == p
    &&& key[p.len() as int] == '_'
    &&& count_char(p, '_') == 1
}

/// Generates a key and its lookup prefix: the prefix is the tag followed by
/// six random characters, the key is the prefix, `_`, and thirty-one random
/// characters.
pub fn generate_key() -> (r: (String, String))
    ensures
        r.0@.len() == KEY_LEN,
        r.1@.len() == PREFIX_LEN,
        r.0@.subrange(0, PREFIX_LEN as int) == r.1@,
        r.1@.subrange(0, 4) == KEY_TAG@,
        count_char(r.0@, '_') == 2,
        count_char(r.1@, '_') == 1,
        is_key_prefix(r.0@, r.1@),
        forall|i: int| 4 <= i < KEY_LEN && i != PREFIX_LEN ==> in_charset(#[trigger] r.0@[i]),
{
    proof {
        lemma_charset_facts();
        reveal_strlit("_");
    }
    let head = random_string(6);
    let mut prefix = String::from_str(KEY_TAG);
    prefix.append(head.as_str());
    let secret = random_string(31);
    let mut full_key = prefix.clone();
    full_key.append("_");
    full_key.append(secret.as_str());
    proof {
        assert forall|i: int| 0 <= i < head@.len() implies head@[i] != '_' by {
            assert(in_charset(head@[i]));
        }
        assert forall|i: int| 0 <= i < secret@.len() implies secret@[i] != '_' by {
            assert(in_charset(secret@[i]));
        }
        lemma_count_absent(head@, '_');
        lemma_count_absent(secret@, '_');
        lemma_count_absent(KEY_TAG@.drop_last(), '_');
        assert(count_char(KEY_TAG@, '_') == 1);
        lemma_count_concat(KEY_TAG@, head@, '_');
        assert(count_char("_"@, '_') == 1) by {
            assert("_"@ =~= seq!['_']);
            assert("_"@.drop_last() =~= Seq::<char>::empty());
            assert(count_char(Seq::<char>::empty(), '_') == 0);
        }
        lemma_count_concat(prefix@, "_"@, '_');
        lemma_count_concat(prefix@ + "_"@, secret@, '_');
        assert(full_key@ =~= prefix@ + "_"@ + secret@);
        assert(full_key@.subrange(0, 10) =~= prefix@);
        assert(prefix@.subrange(0, 4) =~= KEY_TAG@);
        assert forall|i: int| 4 <= i < KEY_LEN && i != PREFIX_LEN implies in_charset(
            #[trigger] full_key@[i],
        ) by {
            if i < 10 {
                assert(full_key@[i] == head@[i - 4]);
            } else {
                assert(full_key@[i] == secret@[i - 11]);
            }
        }
    }
    (full_key, prefix)
}

/// The lookup prefix of a key: the first two of its three `_`-separated
/// segments, joined by `_`. A key that does not have exactly three segments
/// is refused.
pub fn extract_prefix(key: &str) -> (r: Result<String, KohakuError>)
    ensures
        r is Ok <==> count_char(key@, '_') == 2,
        r matches Ok(p) ==> is_key_prefix(key@, p@),
        r matches Err(e) ==> e is ValidationError,
{
    let v = chars_of(key);
    let mut count: usize = 0;
    let mut second: usize = 0;
    let mut i: usize = 0;
    while i < v.len()
        invariant
            v@ == key@,
            i <= v@.len(),
            count == count_char(v@.subrange(0, i as int), '_'),
            count <= i,
            count >= 2 ==> second < i && v@[second as int] == '_' && count_char(
                v@.subrange(0, second as int),
                '_',
            ) == 1,
        decreases v.len() - i,
    {
        proof {
            lemma_count_step(v@, i as int, '_');
        }
        if v[i] == '_' {
            if count == 1 {
                second = i;
            }
            count = count + 1;
        }
        i = i + 1;
    }
    assert(v@.subrange(0, v@.len() as int) =~= v@);
    if count != 2 {
        return Err(KohakuError::ValidationError(String::from_str("Invalid API key format")));
    }
    let p = string_of_range(&v, 0, second);
    Ok(p)
}

/// The outcome of checking `key` against the password-hash string `phc`:
/// `Some(true)` on a match, `Some(false)` on a well-formed hash that does not
/// match, `None` where the hash string cannot be used.
pub uninterp spec fn argon2_verdict(key: Seq<char>, phc: Seq<char>) -> Option<bool>;

/// Relies on `SaltString::generate` with the operating system's generator
/// (`OsRng`): a fresh random salt on each call; nothing else is known of it.
#[verifier::external_body]
fn fresh_salt() -> (r: String) {
    argon2::password_hash::SaltString::generate(&mut argon2::password_hash::rand_core::OsRng).as_str().to_string()
}

/// Relies on `Argon2::hash_password` with default parameters: the PHC string
/// of `key` under `salt`, which the same parameters verify against `key`.
/// `Display for PasswordHash` starts the string with the `$` separator.
#[verifier::external_body]
fn argon2_hash(key: &str, salt: &str) -> (r: Result<String, String>)
    ensures
        r matches Ok(h) ==> argon2_verdict(key@, h@) == Some(true),
        r matches Ok(h) ==> h@.len() > 0 && h@[0] == '$',
{
    let salt = argon2::password_hash::Salt::from_b64(salt).map_err(|e| e.to_string())?;
    argon2::Argon2::default().hash_password(key.as_bytes(), salt).map(|h| h.to_string()).map_err(|e| e.to_string())
}

/// Relies on `PasswordHash::new` and `Argon2::verify_password`: a mismatch is
/// `Error::Password`, any other failure is an unusable hash string.
#[verifier::external_body]
fn argon2_verify(key: &str, phc: &str) -> (r: Result<bool, String>)
    ensures
        r matches Ok(b) ==> argon2_verdict(key@, phc@) == Some(b),
        r is Err ==> argon2_verdict(key@, phc@) is None,
{
    let parsed = argon2::password_hash::PasswordHash::new(phc).map_err(|e| e.to_string())?;
    match argon2::Argon2::default().verify_password(key.as_bytes(), &parsed) {
        Ok(()) => Ok(true),
        Err(argon2::password_hash::Error::Password) => Ok(false),
        Err(e) => Err(e.to_string()),
    }
}

/// Hashes a key with a memory-hard password hash under a fresh random salt.
/// A hash that comes back verifies against the key, and is a PHC string
/// (it starts with `$`).
pub fn hash_key(key: &str) -> (r: Result<String, KohakuError>)
    ensures
        r matches Ok(h) ==> argon2_verdict(key@, h@) == Some(true),
        r matches Ok(h) ==> h@.len() > 0 && h@[0] == '$',
        r matches Err(e) ==> e is InternalServerError,
{
    let salt = fresh_salt();
    match argon2_hash(key, salt.as_str()) {
        Ok(h) => Ok(h),
        Err(msg) => Err(KohakuError::InternalServerError(msg)),
    }
}

/// Checks a key against a stored hash: `Ok(false)` for a well-formed hash
/// that does not match, an error for a hash string that cannot be used.
pub fn verify_key(key: &str, hash: &str) -> (r: Result<bool, KohakuError>)
    ensures
        r matches Ok(b) ==> argon2_verdict(key@, hash@) == Some(b),
        r is Err <==> argon2_verdict(key@, hash@) is None,
        r matches Err(e) ==> e is InternalServerError,
{
    match argon2_verify(key, hash) {
        Ok(b) => Ok(b),
        Err(msg) => Err(KohakuError::InternalServerError(msg)),
    }
}

} // verus!

verus! {

/// A key has at most one lookup prefix.
pub proof fn lemma_key_prefix_unique(key: Seq<char>, p: Seq<char>, q: Seq<char>)
    requires
        is_key_prefix(key, p),
        is_key_prefix(key, q),
    ensures
        p == q,
{
    lemma_prefix_order(key, p, q);
    lemma_prefix_order(key, q, p);
    assert(p =~= q);
}

proof fn lemma_prefix_order(key: Seq<char>, p: Seq<char>, q: Seq<char>)
    requires
        is_key_prefix(key, p),
        is_key_prefix(key, q),
    ensures
        p.len() >= q.len(),
{
    if p.len() >= q.len() {
        return;
    }
    let a = p.len() as int;
    assert(q.subrange(0, a) =~= p);
    lemma_count_step(q, a, '_');
    assert(q[a] == key[a]);
    lemma_count_prefix_le(q, a + 1, q.len() as int, '_');
    assert(q.subrange(0, q.len() as int) =~= q);
}

} // verus!
