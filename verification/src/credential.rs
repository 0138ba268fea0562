//! Provider credentials bound to the endpoint they were stored for.
//!
//! A bound credential is `v1:<fingerprint>:<secret>`, where the fingerprint is the
//! lowercase hexadecimal SHA-256 of the length-prefixed base URL and action path. A stored
//! credential only resolves for the endpoint whose fingerprint it carries.

use vstd::prelude::*;
use vstd::string::*;

use crate::digest::{char_is_hex, hex_lower, hex_lower_chars, is_hex_char, sha256, sha256_digest};
use crate::strings::{push_chars, string_from_chars, string_push};
use crate::text::{chars_equal, slice_chars, chars_of, is_bounded_clean, is_bounded_clean_chars, is_bounded_clean_text, byte_len};

verus! {

/// The credential-store target under which the provider secret is kept.
pub const PROVIDER_CREDENTIAL_TARGET: &'static str = "CodexAdministrator/provider-api-key";

pub const MAX_BASE_URL_BYTES: usize = 2048;

pub const MAX_ACTION_PATH_BYTES: usize = 256;

pub const MAX_PROVIDER_SECRET_BYTES: usize = 2048;

pub const MAX_STORED_CREDENTIAL_BYTES: usize = 2304;

/// Why a credential could not be bound or resolved.
#[derive(Debug, Clone, Copy, PartialEq, Eq)]
pub enum CredentialError {
    InvalidBaseUrl,
    InvalidActionPath,
    InvalidSecret,
    StorageLimitExceeded,
    InvalidBinding,
}

/// The `count` low bytes of `n`, least significant first.
pub open spec fn le_bytes(n: nat, count: nat) -> Seq<u8>
    decreases count,
{
    if count == 0 {
        Seq::empty()
    } else {
        seq![(n % 256) as u8] + le_bytes(n / 256, (count - 1) as nat)
    }
}

/// What the fingerprint hashes: each part preceded by its byte length as a little-endian
/// 64-bit number.
pub open spec fn fingerprint_input(base_url: Seq<u8>, action_path: Seq<u8>) -> Seq<u8> {
    le_bytes(base_url.len(), 8) + base_url + le_bytes(action_path.len(), 8) + action_path
}

/// The endpoint fingerprint of `base_url` and `action_path`.
pub open spec fn endpoint_fingerprint_spec(base_url: &str, action_path: &str) -> Seq<char> {
    hex_lower(sha256_digest(fingerprint_input(base_url.spec_bytes(), action_path.spec_bytes())))
}

/// The text of a credential bound to an endpoint with the given fingerprint.
pub open spec fn bound_credential_text(fingerprint: Seq<char>, secret: Seq<char>) -> Seq<char> {
    seq!['v', '1', ':'] + fingerprint + seq![':'] + secret
}

/// What `bind_provider_credential` gives for these inputs.
pub open spec fn bind_outcome(base_url: &str, action_path: &str, secret: &str) -> Result<Seq<char>, CredentialError> {
    if !is_bounded_clean_text(base_url, MAX_BASE_URL_BYTES) {
        Err(CredentialError::InvalidBaseUrl)
    } else if !is_bounded_clean_text(action_path, MAX_ACTION_PATH_BYTES) {
        Err(CredentialError::InvalidActionPath)
    } else if !is_bounded_clean_text(secret, MAX_PROVIDER_SECRET_BYTES) {
        Err(CredentialError::InvalidSecret)
    } else {
        let text = bound_credential_text(endpoint_fingerprint_spec(base_url, action_path), secret@);
        if vstd::utf8::encode_utf8(text).len() > MAX_STORED_CREDENTIAL_BYTES {
            Err(CredentialError::StorageLimitExceeded)
        } else {
            Ok(text)
        }
    }
}

/// The index of the first `:` of `s`, or its length when it holds none.
pub open spec fn first_colon(s: Seq<char>) -> int
    decreases s.len(),
{
    if s.len() == 0 {
        0
    } else if s[0] == ':' {
        0
    } else {
        1 + first_colon(s.drop_first())
    }
}

proof fn lemma_first_colon_bounds(s: Seq<char>)
    ensures
        0 <= first_colon(s) <= s.len(),
        first_colon(s) < s.len() ==> s[first_colon(s)] == ':',
        forall|i: int| 0 <= i < first_colon(s) ==> s[i] != ':',
    decreases s.len(),
{
    if s.len() > 0 && s[0] != ':' {
        lemma_first_colon_bounds(s.drop_first());
        assert forall|i: int| 0 <= i < first_colon(s) implies s[i] != ':' by {
            if i > 0 {
                assert(s[i] == s.drop_first()[i - 1]);
            }
        }
    }
}

/// The first `:` of `s` is at `index` when `s` has one there and none before.
pub proof fn lemma_first_colon_at(s: Seq<char>, index: int)
    requires
        0 <= index < s.len(),
        s[index] == ':',
        forall|i: int| 0 <= i < index ==> s[i] != ':',
    ensures
        first_colon(s) == index,
    decreases index,
{
    if index > 0 {
        assert(s[0] != ':');
        assert forall|i: int| 0 <= i < index - 1 implies s.drop_first()[i] != ':' by {
            assert(s.drop_first()[i] == s[i + 1]);
        }
        lemma_first_colon_at(s.drop_first(), index - 1);
    }
}

/// When `s` holds no `:`, its first `:` is at its end.
pub proof fn lemma_first_colon_absent(s: Seq<char>)
    requires
        forall|i: int| 0 <= i < s.len() ==> s[i] != ':',
    ensures
        first_colon(s) == s.len(),
    decreases s.len(),
{
    if s.len() > 0 {
        assert forall|i: int| 0 <= i < s.len() - 1 implies s.drop_first()[i] != ':' by {
            assert(s.drop_first()[i] == s[i + 1]);
        }
        lemma_first_colon_absent(s.drop_first());
    }
}

/// A fingerprint field: 64 hexadecimal digits.
pub open spec fn is_fingerprint_field(s: Seq<char>) -> bool {
    s.len() == 64 && forall|i: int| 0 <= i < s.len() ==> is_hex_char(#[trigger] s[i])
}

/// What `resolve_bound_provider_credential` gives for these inputs.
pub open spec fn resolve_outcome(base_url: &str, action_path: &str, stored: Seq<char>) -> Result<Option<Seq<char>>, CredentialError> {
    if !is_bounded_clean_text(base_url, MAX_BASE_URL_BYTES) {
        Err(CredentialError::InvalidBaseUrl)
    } else if !is_bounded_clean_text(action_path, MAX_ACTION_PATH_BYTES) {
        Err(CredentialError::InvalidActionPath)
    } else if !(stored.len() >= 3 && stored.take(3) == seq!['v', '1', ':']) {
        Ok(None)
    } else {
        resolve_fields_outcome(endpoint_fingerprint_spec(base_url, action_path), stored.skip(3))
    }
}

/// Resolving what follows the `v1:` prefix against the endpoint fingerprint `expected`.
pub open spec fn resolve_fields_outcome(expected: Seq<char>, rest: Seq<char>) -> Result<Option<Seq<char>>, CredentialError> {
    let index = first_colon(rest);
    if index >= rest.len() {
        Err(CredentialError::InvalidBinding)
    } else {
        let fingerprint = rest.take(index);
        let secret = rest.skip(index + 1);
        if !is_fingerprint_field(fingerprint) {
            Err(CredentialError::InvalidBinding)
        } else if !is_bounded_clean_chars(secret, MAX_PROVIDER_SECRET_BYTES) {
            Err(CredentialError::InvalidSecret)
        } else if fingerprint != expected {
            Ok(None)
        } else {
            Ok(Some(secret))
        }
    }
}

fn u64_le_bytes(value: u64) -> (result: Vec<u8>)
    ensures
        result@ == le_bytes(value as nat, 8),
{
    let mut out: Vec<u8> = Vec::new();
    let mut rest = value;
    let mut count: usize = 0;
    while count < 8
        invariant
            count <= 8,
            out@ + le_bytes(rest as nat, (8 - count) as nat) == le_bytes(value as nat, 8),
        decreases 8 - count,
    {
        proof {
            assert(le_bytes(rest as nat, (8 - count) as nat) == seq![(rest % 256) as u8] + le_bytes(
                (rest / 256) as nat,
                (8 - count - 1) as nat,
            ));
            assert(out@.push((rest % 256) as u8) + le_bytes((rest / 256) as nat, (8 - count - 1) as nat)
                =~= out@ + le_bytes(rest as nat, (8 - count) as nat));
        }
        out.push((rest % 256) as u8);
        rest = rest / 256;
        count += 1;
    }
    proof {
        assert(le_bytes(rest as nat, 0) == Seq::<u8>::empty());
        assert(out@ =~= le_bytes(value as nat, 8));
    }
    out
}

fn extend_bytes(target: &mut Vec<u8>, bytes: &[u8])
    ensures
        final(target)@ == old(target)@ + bytes@,
{
    let ghost start = target@;
    for index in 0..bytes.len()
        invariant
            target@ == start + bytes@.take(index as int),
    {
        proof {
            assert(start + bytes@.take(index + 1) == (start + bytes@.take(index as int)).push(bytes@[index as int]));
        }
        target.push(bytes[index]);
    }
    proof {
        assert(bytes@.take(bytes@.len() as int) == bytes@);
    }
}

/// The endpoint fingerprint as characters.
fn endpoint_fingerprint(base_url: &str, action_path: &str) -> (result: Vec<char>)
    ensures
        result@ == endpoint_fingerprint_spec(base_url, action_path),
        sha256_digest(fingerprint_input(base_url.spec_bytes(), action_path.spec_bytes())).len() == 32,
{
    let base_bytes = base_url.as_bytes();
    let path_bytes = action_path.as_bytes();
    let mut input = u64_le_bytes(base_bytes.len() as u64);
    extend_bytes(&mut input, base_bytes);
    let path_len = u64_le_bytes(path_bytes.len() as u64);
    extend_bytes(&mut input, path_len.as_slice());
    extend_bytes(&mut input, path_bytes);
    proof {
        assert(input@ =~= fingerprint_input(base_url.spec_bytes(), action_path.spec_bytes()));
    }
    let digest = sha256(input.as_slice());
    hex_lower_chars(digest.as_slice())
}

/// Binds `secret` to the endpoint `base_url` + `action_path`.
pub fn bind_provider_credential(base_url: &str, action_path: &str, secret: &str) -> (result: Result<String, CredentialError>)
    ensures
        match (result, bind_outcome(base_url, action_path, secret)) {
            (Ok(stored), Ok(text)) => stored@ == text,
            (Err(error), Err(expected)) => error == expected,
            _ => false,
        },
        result matches Ok(stored) ==> resolve_outcome(base_url, action_path, stored@) == Ok::<
            Option<Seq<char>>,
            CredentialError,
        >(Some(secret@)),
{
    if !is_bounded_clean(base_url, MAX_BASE_URL_BYTES) {
        return Err(CredentialError::InvalidBaseUrl);
    }
    if !is_bounded_clean(action_path, MAX_ACTION_PATH_BYTES) {
        return Err(CredentialError::InvalidActionPath);
    }
    if !is_bounded_clean(secret, MAX_PROVIDER_SECRET_BYTES) {
        return Err(CredentialError::InvalidSecret);
    }
    let fingerprint = endpoint_fingerprint(base_url, action_path);
    let mut stored = String::new();
    string_push(&mut stored, 'v');
    string_push(&mut stored, '1');
    string_push(&mut stored, ':');
    push_chars(&mut stored, fingerprint.as_slice());
    string_push(&mut stored, ':');
    let secret_chars = chars_of(secret);
    push_chars(&mut stored, secret_chars.as_slice());
    proof {
        assert(stored@ =~= bound_credential_text(endpoint_fingerprint_spec(base_url, action_path), secret@));
    }
    if byte_len(stored.as_str()) > MAX_STORED_CREDENTIAL_BYTES {
        return Err(CredentialError::StorageLimitExceeded);
    }
    proof {
        lemma_bound_credential_resolves(base_url, action_path, secret);
    }
    Ok(stored)
}

fn all_hex(chars: &[char]) -> (result: bool)
    ensures
        result == forall|i: int| 0 <= i < chars@.len() ==> is_hex_char(#[trigger] chars@[i]),
{
    for index in 0..chars.len()
        invariant
            forall|i: int| 0 <= i < index ==> is_hex_char(#[trigger] chars@[i]),
    {
        if !char_is_hex(chars[index]) {
            return false;
        }
    }
    true
}

/// The part of resolving that follows the `v1:` prefix, with the first `:` after it at
/// `index`.
#[verifier::rlimit(40)]
fn resolve_binding_fields(base_url: &str, action_path: &str, stored: &str, chars: &[char], index: usize) -> (result: Result<Option<String>, CredentialError>)
    requires
        chars@ == stored@,
        3 <= index < chars@.len(),
        first_colon(stored@.skip(3)) == index - 3,
    ensures
        match (result, resolve_fields_outcome(endpoint_fingerprint_spec(base_url, action_path), stored@.skip(3))) {
            (Ok(Some(secret)), Ok(Some(expected))) => secret@ == expected,
            (Ok(None), Ok(None)) => true,
            (Err(error), Err(expected)) => error == expected,
            _ => false,
        },
{
    let ghost rest = stored@.skip(3);
    let fingerprint = slice_chars(chars, 3, index);
    let len = chars.len();
    let after = index + 1;
    let secret_chars = slice_chars(chars, after, len);
    proof {
        let found = (index - 3) as int;
        assert(fingerprint@ =~= rest.take(found));
        assert(secret_chars@ =~= rest.skip(found + 1));
    }
    if fingerprint.len() != 64 {
        return Err(CredentialError::InvalidBinding);
    }
    if !all_hex(fingerprint.as_slice()) {
        return Err(CredentialError::InvalidBinding);
    }
    let secret = string_from_chars(secret_chars.as_slice());
    if !is_bounded_clean(secret.as_str(), MAX_PROVIDER_SECRET_BYTES) {
        return Err(CredentialError::InvalidSecret);
    }
    let expected = endpoint_fingerprint(base_url, action_path);
    if !chars_equal(fingerprint.as_slice(), expected.as_slice()) {
        return Ok(None);
    }
    Ok(Some(secret))
}

/// Resolves a stored credential for the endpoint `base_url` + `action_path`: the secret when
/// the stored binding names this endpoint, nothing when it names another endpoint or is not
/// a binding at all.
#[verifier::rlimit(40)]
pub fn resolve_bound_provider_credential(base_url: &str, action_path: &str, stored: &str) -> (result: Result<Option<String>, CredentialError>)
    ensures
        match (result, resolve_outcome(base_url, action_path, stored@)) {
            (Ok(Some(secret)), Ok(Some(expected))) => secret@ == expected,
            (Ok(None), Ok(None)) => true,
            (Err(error), Err(expected)) => error == expected,
            _ => false,
        },
{
    if !is_bounded_clean(base_url, MAX_BASE_URL_BYTES) {
        return Err(CredentialError::InvalidBaseUrl);
    }
    if !is_bounded_clean(action_path, MAX_ACTION_PATH_BYTES) {
        return Err(CredentialError::InvalidActionPath);
    }
    let chars = chars_of(stored);
    if !(chars.len() >= 3 && chars[0] == 'v' && chars[1] == '1' && chars[2] == ':') {
        proof {
            if stored@.len() >= 3 && stored@.take(3) == seq!['v', '1', ':'] {
                assert(stored@.take(3)[0] == 'v');
                assert(stored@.take(3)[1] == '1');
                assert(stored@.take(3)[2] == ':');
            }
        }
        return Ok(None);
    }
    proof {
        assert(stored@.take(3) =~= seq!['v', '1', ':']);
    }
    let ghost rest = stored@.skip(3);
    let mut index: usize = 3;
    while index < chars.len() && chars[index] != ':'
        invariant
            chars@ == stored@,
            3 <= index <= chars@.len(),
            rest == stored@.skip(3),
            forall|i: int| 0 <= i < index - 3 ==> rest[i] != ':',
        decreases chars.len() - index,
    {
        index += 1;
    }
    if index == chars.len() {
        proof {
            lemma_first_colon_absent(rest);
        }
        return Err(CredentialError::InvalidBinding);
    }
    proof {
        lemma_first_colon_at(rest, (index - 3) as int);
    }
    resolve_binding_fields(base_url, action_path, stored, chars.as_slice(), index)
}

/// A credential bound to an endpoint resolves, for that same endpoint, to the secret that
/// was bound (given the 32-byte digest that SHA-256 always yields).
pub proof fn lemma_bound_credential_resolves(base_url: &str, action_path: &str, secret: &str)
    requires
        bind_outcome(base_url, action_path, secret) is Ok,
        sha256_digest(fingerprint_input(base_url.spec_bytes(), action_path.spec_bytes())).len() == 32,
    ensures
        resolve_outcome(base_url, action_path, bind_outcome(base_url, action_path, secret)->Ok_0) == Ok::<
            Option<Seq<char>>,
            CredentialError,
        >(Some(secret@)),
{
    let fingerprint = endpoint_fingerprint_spec(base_url, action_path);
    let digest = sha256_digest(fingerprint_input(base_url.spec_bytes(), action_path.spec_bytes()));
    crate::digest::lemma_hex_lower_len(digest);
    crate::digest::lemma_hex_lower_chars(digest);
    let stored = bound_credential_text(fingerprint, secret@);
    let rest = stored.skip(3);
    assert(stored.take(3) =~= seq!['v', '1', ':']);
    assert(rest =~= fingerprint + seq![':'] + secret@);
    assert forall|i: int| 0 <= i < fingerprint.len() implies rest[i] != ':' by {
        assert(rest[i] == fingerprint[i]);
        assert(crate::digest::is_lower_hex_char(fingerprint[i]));
    }
    assert(rest[fingerprint.len() as int] == ':');
    let found = fingerprint.len() as int;
    lemma_first_colon_at(rest, found);
    assert(rest.take(found) =~= fingerprint);
    assert(rest.skip(found + 1) =~= secret@);
    assert forall|i: int| 0 <= i < fingerprint.len() implies is_hex_char(#[trigger] fingerprint[i]) by {
        assert(crate::digest::is_lower_hex_char(fingerprint[i]));
    }
}

/// A credential bound to one endpoint resolves to nothing for a valid endpoint with another
/// fingerprint (given the 32-byte digest that SHA-256 always yields for the first).
pub proof fn lemma_other_endpoint_unresolved(
    base_url: &str,
    action_path: &str,
    secret: &str,
    other_base_url: &str,
    other_action_path: &str,
)
    requires
        bind_outcome(base_url, action_path, secret) is Ok,
        sha256_digest(fingerprint_input(base_url.spec_bytes(), action_path.spec_bytes())).len() == 32,
        is_bounded_clean_text(other_base_url, MAX_BASE_URL_BYTES),
        is_bounded_clean_text(other_action_path, MAX_ACTION_PATH_BYTES),
        endpoint_fingerprint_spec(other_base_url, other_action_path) != endpoint_fingerprint_spec(base_url, action_path),
    ensures
        resolve_outcome(other_base_url, other_action_path, bind_outcome(base_url, action_path, secret)->Ok_0) == Ok::<
            Option<Seq<char>>,
            CredentialError,
        >(None),
{
    lemma_bound_credential_resolves(base_url, action_path, secret);
    let fingerprint = endpoint_fingerprint_spec(base_url, action_path);
    let stored = bound_credential_text(fingerprint, secret@);
    let rest = stored.skip(3);
    assert(stored.take(3) =~= seq!['v', '1', ':']);
    assert(rest =~= fingerprint + seq![':'] + secret@);
    let digest = sha256_digest(fingerprint_input(base_url.spec_bytes(), action_path.spec_bytes()));
    crate::digest::lemma_hex_lower_len(digest);
    crate::digest::lemma_hex_lower_chars(digest);
    assert forall|i: int| 0 <= i < fingerprint.len() implies rest[i] != ':' by {
        assert(rest[i] == fingerprint[i]);
        assert(crate::digest::is_lower_hex_char(fingerprint[i]));
    }
    let found = fingerprint.len() as int;
    lemma_first_colon_at(rest, found);
    assert(rest.take(found) =~= fingerprint);
    assert(rest.skip(found + 1) =~= secret@);
}

/// `count` bytes hold every number below `256` to the power `count`.
pub open spec fn byte_bound(count: nat) -> nat
    decreases count,
{
    if count == 0 {
        1
    } else {
        256 * byte_bound((count - 1) as nat)
    }
}

proof fn lemma_le_bytes_injective(n: nat, m: nat, count: nat)
    requires
        n < byte_bound(count),
        m < byte_bound(count),
        le_bytes(n, count) == le_bytes(m, count),
    ensures
        n == m,
    decreases count,
{
    if count > 0 {
        assert(le_bytes(n, count)[0] == (n % 256) as u8);
        assert(le_bytes(m, count)[0] == (m % 256) as u8);
        assert(le_bytes(n / 256, (count - 1) as nat) =~= le_bytes(n, count).skip(1));
        assert(le_bytes(m / 256, (count - 1) as nat) =~= le_bytes(m, count).skip(1));
        assert(n / 256 < byte_bound((count - 1) as nat)) by (nonlinear_arith)
            requires
                n < 256 * byte_bound((count - 1) as nat),
        ;
        assert(m / 256 < byte_bound((count - 1) as nat)) by (nonlinear_arith)
            requires
                m < 256 * byte_bound((count - 1) as nat),
        ;
        lemma_le_bytes_injective(n / 256, m / 256, (count - 1) as nat);
        assert(n == 256 * (n / 256) + n % 256) by (nonlinear_arith);
        assert(m == 256 * (m / 256) + m % 256) by (nonlinear_arith);
    }
}

proof fn lemma_le_bytes_len(n: nat, count: nat)
    ensures
        le_bytes(n, count).len() == count,
    decreases count,
{
    if count > 0 {
        lemma_le_bytes_len(n / 256, (count - 1) as nat);
    }
}

/// Distinct endpoints hash distinct inputs: the length-prefixed input of a base URL and an
/// action path determines both (for parts shorter than 2^64 bytes), so telling endpoints
/// apart rests on SHA-256 alone.
pub proof fn lemma_fingerprint_input_injective(base_url: Seq<u8>, action_path: Seq<u8>, other_base_url: Seq<u8>, other_action_path: Seq<u8>)
    requires
        base_url.len() < byte_bound(8),
        action_path.len() < byte_bound(8),
        other_base_url.len() < byte_bound(8),
        other_action_path.len() < byte_bound(8),
        fingerprint_input(base_url, action_path) == fingerprint_input(other_base_url, other_action_path),
    ensures
        base_url == other_base_url,
        action_path == other_action_path,
{
    let a = fingerprint_input(base_url, action_path);
    lemma_le_bytes_len(base_url.len(), 8);
    lemma_le_bytes_len(other_base_url.len(), 8);
    lemma_le_bytes_len(action_path.len(), 8);
    lemma_le_bytes_len(other_action_path.len(), 8);
    assert(a.take(8) =~= le_bytes(base_url.len(), 8));
    assert(fingerprint_input(other_base_url, other_action_path).take(8) =~= le_bytes(other_base_url.len(), 8));
    lemma_le_bytes_injective(base_url.len(), other_base_url.len(), 8);
    let k: int = 8 + base_url.len() as int;
    assert(a.subrange(8, k) =~= base_url);
    assert(fingerprint_input(other_base_url, other_action_path).subrange(8, k) =~= other_base_url);
    assert(a.subrange(k, k + 8) =~= le_bytes(action_path.len(), 8));
    assert(fingerprint_input(other_base_url, other_action_path).subrange(k, k + 8) =~= le_bytes(
        other_action_path.len(),
        8,
    ));
    lemma_le_bytes_injective(action_path.len(), other_action_path.len(), 8);
    assert(a.skip(k + 8) =~= action_path);
    assert(fingerprint_input(other_base_url, other_action_path).skip(k + 8) =~= other_action_path);
}

/// Reads, writes and deletes the stored provider credential.
pub trait CredentialStore {
    fn read(&self) -> Result<Option<String>, String>;

    fn write(&self, secret: &str) -> Result<(), String>;

    fn delete(&self) -> Result<bool, String>;
}

} // verus!
