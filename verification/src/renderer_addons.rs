//! Renderer addons: reviewed scripts from an external checkout that are injected into the
//! official renderer beside the primary bootstrap.
//!
//! The reviewed policy lists each addon's revision: its assets with their SHA-256
//! identities, the placeholders that its entrypoint substitutes, its exclusive slots and
//! conflicts, and its load order. Preparing addons turns the user's settings, the policy
//! and what was read from the checkouts into the scripts to inject and one report per
//! addon.

use vstd::prelude::*;
use vstd::utf8::{decode_utf8, valid_utf8};

use crate::codec::{base64_encode, base64_standard, json_quote, json_string_literal, utf8_decode};
use crate::compatibility::{ascii_lower, ascii_lower_char, to_ascii_lower_char};
use crate::digest::{hex_lower, hex_lower_chars, sha256, sha256_digest};
use crate::host::HostAdapterKind;
use crate::strings::{push_chars, string_from_chars, string_push};
use crate::text::{text_less, text_lt, lemma_text_lt_total, lemma_text_lt_transitive, lemma_text_lt_irreflexive, chars_equal, chars_of, is_bounded_clean, is_bounded_clean_chars, slice_chars};
use crate::winpath::{
    is_absolute_path, path_is_absolute, dot_dot, has_physical_root, parse_prefix, parse_windows_path, path_raw_parts, parsed_matches,
};

verus! {

broadcast use vstd::string::group_string_axioms;

pub const MAX_ADDONS: usize = 16;

pub const MAX_ASSETS_PER_ADDON: usize = 32;

pub const MAX_ASSET_BYTES: u64 = 67108864;

/// Why a renderer addon setting, revision or manifest was refused.
#[derive(Debug, Clone, Copy, PartialEq, Eq, Structural)]
pub enum RendererAddonError {
    InvalidId,
    InvalidSourceRoot,
    InvalidDisplayName,
    InvalidProjectRevision,
    NotExternalCheckout,
    NoHostAdapters,
    DuplicateHostAdapters,
    DuplicateExclusiveSlots,
    DuplicateConflicts,
    SelfConflict,
    InvalidAssetPath,
    InvalidAssetIdentity,
    InvalidAssetSizeLimit,
    TooManySubstitutions,
    InvalidPlaceholder,
    MediaTypeOnUtf8Asset,
    MissingMediaType,
    InvalidMediaType,
    DuplicatePlaceholders,
    InvalidStateKey,
    InvalidDisposeMethod,
    UnsupportedSchemaVersion,
    TooManyEntries,
    DuplicateIds,
}

// ----- character classes -----

pub open spec fn is_id_char(c: char) -> bool {
    ('a' <= c && c <= 'z') || ('0' <= c && c <= '9') || c == '-'
}

pub open spec fn is_placeholder_char(c: char) -> bool {
    ('A' <= c && c <= 'Z') || ('0' <= c && c <= '9') || c == '_'
}

pub open spec fn is_identifier_start(c: char) -> bool {
    ('a' <= c && c <= 'z') || ('A' <= c && c <= 'Z') || c == '_' || c == '$'
}

pub open spec fn is_identifier_char(c: char) -> bool {
    is_identifier_start(c) || ('0' <= c && c <= '9')
}

pub open spec fn is_media_type_char(c: char) -> bool {
    ('a' <= c && c <= 'z') || ('0' <= c && c <= '9') || c == '/' || c == '-' || c == '+' || c == '.'
}

/// An addon, slot or conflict id: 1 to 64 characters of `a-z`, `0-9` and `-`.
pub open spec fn is_addon_id(s: Seq<char>) -> bool {
    0 < s.len() <= 64 && forall|i: int| 0 <= i < s.len() ==> is_id_char(#[trigger] s[i])
}

/// An asset placeholder: 5 to 128 characters of `A-Z`, `0-9` and `_`, starting and ending
/// with `__`.
pub open spec fn is_placeholder(s: Seq<char>) -> bool {
    &&& 5 <= s.len() <= 128
    &&& s[0] == '_' && s[1] == '_'
    &&& s[s.len() - 2] == '_' && s[s.len() - 1] == '_'
    &&& forall|i: int| 0 <= i < s.len() ==> is_placeholder_char(#[trigger] s[i])
}

/// A JavaScript identifier of at most 128 ASCII characters.
pub open spec fn is_js_identifier(s: Seq<char>) -> bool {
    &&& 0 < s.len() <= 128
    &&& is_identifier_start(s[0])
    &&& forall|i: int| 1 <= i < s.len() ==> is_identifier_char(#[trigger] s[i])
}

/// The number of `c` in `s`.
pub open spec fn count_char(s: Seq<char>, c: char) -> nat
    decreases s.len(),
{
    if s.len() == 0 {
        0
    } else {
        count_char(s.drop_last(), c) + if s.last() == c {
            1nat
        } else {
            0nat
        }
    }
}

/// A media type of at most 96 characters of `a-z`, `0-9`, `/`, `-`, `+` and `.`, with
/// exactly one `/`.
pub open spec fn is_media_type(s: Seq<char>) -> bool {
    &&& 0 < s.len() <= 96
    &&& count_char(s, '/') == 1
    &&& forall|i: int| 0 <= i < s.len() ==> is_media_type_char(#[trigger] s[i])
}

/// A path that stays inside its checkout: not empty, without prefix or root, and without
/// parent components.
pub open spec fn is_checkout_relative(s: Seq<char>) -> bool {
    &&& s.len() > 0
    &&& parse_prefix(s) is None
    &&& !has_physical_root(s)
    &&& forall|i: int| 0 <= i < path_raw_parts(s).len() ==> #[trigger] path_raw_parts(s)[i] != dot_dot()
}

/// A SHA-256 value: 64 hexadecimal digits.
pub open spec fn is_sha256_text(s: Seq<char>) -> bool {
    s.len() == 64 && forall|i: int| 0 <= i < s.len() ==> crate::digest::is_hex_char(#[trigger] s[i])
}

fn all_chars(chars: &[char], class: u8) -> (result: bool)
    requires
        class < 4,
    ensures
        result == forall|i: int| 0 <= i < chars@.len() ==> char_class(class, #[trigger] chars@[i]),
{
    for index in 0..chars.len()
        invariant
            class < 4,
            forall|i: int| 0 <= i < index ==> char_class(class, #[trigger] chars@[i]),
    {
        if !char_in_class(class, chars[index]) {
            return false;
        }
    }
    true
}

/// The character classes that `all_chars` checks, by number.
pub open spec fn char_class(class: u8, c: char) -> bool {
    if class == 0 {
        is_id_char(c)
    } else if class == 1 {
        is_placeholder_char(c)
    } else if class == 2 {
        is_identifier_char(c)
    } else {
        is_media_type_char(c)
    }
}

fn char_in_class(class: u8, c: char) -> (result: bool)
    ensures
        result == char_class(class, c),
{
    if class == 0 {
        ('a' <= c && c <= 'z') || ('0' <= c && c <= '9') || c == '-'
    } else if class == 1 {
        ('A' <= c && c <= 'Z') || ('0' <= c && c <= '9') || c == '_'
    } else if class == 2 {
        ('a' <= c && c <= 'z') || ('A' <= c && c <= 'Z') || c == '_' || c == '$' || ('0' <= c && c <= '9')
    } else {
        ('a' <= c && c <= 'z') || ('0' <= c && c <= '9') || c == '/' || c == '-' || c == '+' || c == '.'
    }
}

/// Whether `value` is an addon, slot or conflict id.
pub fn valid_addon_id(value: &str) -> (result: bool)
    ensures
        result == is_addon_id(value@),
{
    let chars = chars_of(value);
    chars.len() > 0 && chars.len() <= 64 && all_chars(chars.as_slice(), 0)
}

fn valid_placeholder(value: &str) -> (result: bool)
    ensures
        result == is_placeholder(value@),
{
    let chars = chars_of(value);
    let n = chars.len();
    n >= 5 && n <= 128 && chars[0] == '_' && chars[1] == '_' && chars[n - 2] == '_' && chars[n - 1] == '_'
        && all_chars(chars.as_slice(), 1)
}

fn valid_js_identifier(value: &str) -> (result: bool)
    ensures
        result == is_js_identifier(value@),
{
    let chars = chars_of(value);
    let n = chars.len();
    if n == 0 || n > 128 {
        return false;
    }
    let c = chars[0];
    if !(('a' <= c && c <= 'z') || ('A' <= c && c <= 'Z') || c == '_' || c == '$') {
        return false;
    }
    for index in 1..n
        invariant
            n == chars@.len(),
            chars@ == value@,
            forall|i: int| 1 <= i < index ==> is_identifier_char(#[trigger] chars@[i]),
    {
        if !char_in_class(2, chars[index]) {
            return false;
        }
    }
    true
}

fn valid_media_type(value: &str) -> (result: bool)
    ensures
        result == is_media_type(value@),
{
    let chars = chars_of(value);
    let n = chars.len();
    if n == 0 || n > 96 {
        return false;
    }
    let mut slashes: usize = 0;
    for index in 0..n
        invariant
            n == chars@.len(),
            slashes == count_char(chars@.take(index as int), '/'),
            slashes <= index,
    {
        proof {
            assert(chars@.take(index + 1).drop_last() =~= chars@.take(index as int));
        }
        if chars[index] == '/' {
            slashes += 1;
        }
    }
    proof {
        assert(chars@.take(n as int) =~= chars@);
    }
    slashes == 1 && all_chars(chars.as_slice(), 3)
}

fn valid_checkout_path(value: &str) -> (result: bool)
    ensures
        result == is_checkout_relative(value@),
{
    let chars = chars_of(value);
    if chars.len() == 0 {
        return false;
    }
    let parsed = parse_windows_path(chars.as_slice());
    if parsed.prefix.is_some() || parsed.physical_root {
        return false;
    }
    let parts = &parsed.parts;
    for index in 0..parts.len()
        invariant
            parsed_matches(parsed, chars@),
            parts == &parsed.parts,
            chars@ == value@,
            forall|i: int| 0 <= i < index ==> #[trigger] path_raw_parts(chars@)[i] != dot_dot(),
    {
        let part = &parts[index];
        proof {
            assert(parsed.parts_view()[index as int] == part@);
        }
        if part.len() == 2 && part[0] == '.' && part[1] == '.' {
            proof {
                assert(part@ =~= dot_dot());
            }
            return false;
        }
        proof {
            if part@ == dot_dot() {
                assert(part@[0] == '.' && part@[1] == '.');
            }
        }
    }
    proof {
        assert(parts@.len() == path_raw_parts(chars@).len());
    }
    true
}

fn valid_sha256_text(value: &str) -> (result: bool)
    ensures
        result == is_sha256_text(value@),
{
    let chars = chars_of(value);
    if chars.len() != 64 {
        return false;
    }
    for index in 0..chars.len()
        invariant
            chars@ == value@,
            chars@.len() == 64,
            forall|i: int| 0 <= i < index ==> crate::digest::is_hex_char(#[trigger] chars@[i]),
    {
        if !crate::digest::char_is_hex(chars[index]) {
            return false;
        }
    }
    true
}

// ----- settings, revisions and the reviewed policy -----

/// A user's setting for one addon: whether it is enabled and where its checkout is.
#[derive(Debug, Clone, PartialEq, Eq)]
pub struct RendererAddonSettings {
    pub id: String,
    pub enabled: bool,
    pub source_root: String,
}

pub open spec fn settings_outcome(setting: &RendererAddonSettings) -> Result<(), RendererAddonError> {
    if !is_addon_id(setting.id@) {
        Err(RendererAddonError::InvalidId)
    } else if setting.enabled && !is_absolute_path(setting.source_root@) {
        Err(RendererAddonError::InvalidSourceRoot)
    } else {
        Ok(())
    }
}

impl RendererAddonSettings {
    /// Checks the id, and that an enabled addon's checkout is absolute.
    pub fn validate(&self) -> (result: Result<(), RendererAddonError>)
        ensures
            result == settings_outcome(self),
    {
        if !valid_addon_id(self.id.as_str()) {
            return Err(RendererAddonError::InvalidId);
        }
        if self.enabled && !path_is_absolute(self.source_root.as_str()) {
            return Err(RendererAddonError::InvalidSourceRoot);
        }
        Ok(())
    }
}

/// How an addon's state is kept and disposed of in the renderer.
#[derive(Debug, Clone, PartialEq, Eq)]
pub struct RendererAddonLifecycle {
    pub state_key: String,
    pub dispose_method: String,
}

pub open spec fn lifecycle_error(lifecycle: &RendererAddonLifecycle) -> Option<RendererAddonError> {
    if !is_js_identifier(lifecycle.state_key@) {
        Some(RendererAddonError::InvalidStateKey)
    } else if !is_js_identifier(lifecycle.dispose_method@) {
        Some(RendererAddonError::InvalidDisposeMethod)
    } else {
        None
    }
}

/// A reviewed file of an addon checkout: where it is, its identity and its size limit.
#[derive(Debug, Clone, PartialEq, Eq)]
pub struct RendererAddonAsset {
    pub path: String,
    pub sha256: String,
    pub max_bytes: u64,
}

pub open spec fn asset_error(asset: &RendererAddonAsset) -> Option<RendererAddonError> {
    if !is_checkout_relative(asset.path@) {
        Some(RendererAddonError::InvalidAssetPath)
    } else if !is_sha256_text(asset.sha256@) {
        Some(RendererAddonError::InvalidAssetIdentity)
    } else if asset.max_bytes == 0 || asset.max_bytes > MAX_ASSET_BYTES {
        Some(RendererAddonError::InvalidAssetSizeLimit)
    } else {
        None
    }
}

#[derive(Debug, Clone, Copy, PartialEq, Eq, Structural)]
pub enum RendererAddonAssetEncoding {
    JsonUtf8,
    DataUrlBase64,
}

/// An asset whose encoded content replaces a placeholder of the entrypoint.
#[derive(Debug, Clone, PartialEq, Eq)]
pub struct RendererAddonSubstitution {
    pub placeholder: String,
    pub encoding: RendererAddonAssetEncoding,
    pub media_type: Option<String>,
    pub asset: RendererAddonAsset,
}

pub open spec fn substitution_error(substitution: &RendererAddonSubstitution) -> Option<RendererAddonError> {
    if !is_placeholder(substitution.placeholder@) {
        Some(RendererAddonError::InvalidPlaceholder)
    } else if asset_error(&substitution.asset) is Some {
        asset_error(&substitution.asset)
    } else {
        match (substitution.encoding, substitution.media_type) {
            (RendererAddonAssetEncoding::JsonUtf8, Some(_)) => Some(RendererAddonError::MediaTypeOnUtf8Asset),
            (RendererAddonAssetEncoding::JsonUtf8, None) => None,
            (RendererAddonAssetEncoding::DataUrlBase64, None) => Some(RendererAddonError::MissingMediaType),
            (RendererAddonAssetEncoding::DataUrlBase64, Some(media)) => if is_media_type(media@) {
                None
            } else {
                Some(RendererAddonError::InvalidMediaType)
            },
        }
    }
}

/// A reviewed revision of an addon.
#[derive(Debug, Clone, PartialEq, Eq)]
pub struct RendererAddonRevision {
    pub id: String,
    pub display_name: String,
    pub project_revision: String,
    pub distribution: String,
    pub load_order: u16,
    pub host_adapters: Vec<HostAdapterKind>,
    pub exclusive_slots: Vec<String>,
    pub conflicts_with: Vec<String>,
    pub entrypoint: RendererAddonAsset,
    pub substitutions: Vec<RendererAddonSubstitution>,
    pub lifecycle: RendererAddonLifecycle,
}

pub open spec fn external_checkout_only() -> Seq<char> {
    seq!['e', 'x', 't', 'e', 'r', 'n', 'a', 'l', '_', 'c', 'h', 'e', 'c', 'k', 'o', 'u', 't', '_', 'o', 'n', 'l', 'y']
}

/// The first refusal among ids in `values`, in order: an invalid id, or an id that an
/// earlier one repeats.
pub open spec fn id_collection_error(values: Seq<String>, duplicate: RendererAddonError) -> Option<RendererAddonError>
    decreases values.len(),
{
    if values.len() == 0 {
        None
    } else if id_collection_error(values.drop_last(), duplicate) is Some {
        id_collection_error(values.drop_last(), duplicate)
    } else if !is_addon_id(values.last()@) {
        Some(RendererAddonError::InvalidId)
    } else if exists|j: int| 0 <= j < values.len() - 1 && #[trigger] values[j]@ == values.last()@ {
        Some(duplicate)
    } else {
        None
    }
}

/// The first refusal among substitutions, in order: an invalid one, or a placeholder that an
/// earlier one repeats.
pub open spec fn substitutions_error(values: Seq<RendererAddonSubstitution>) -> Option<RendererAddonError>
    decreases values.len(),
{
    if values.len() == 0 {
        None
    } else if substitutions_error(values.drop_last()) is Some {
        substitutions_error(values.drop_last())
    } else if substitution_error(&values.last()) is Some {
        substitution_error(&values.last())
    } else if exists|j: int| 0 <= j < values.len() - 1 && #[trigger] values[j].placeholder@ == values.last().placeholder@ {
        Some(RendererAddonError::DuplicatePlaceholders)
    } else {
        None
    }
}

pub open spec fn has_duplicate_host(hosts: Seq<HostAdapterKind>) -> bool {
    exists|i: int, j: int| 0 <= i < j < hosts.len() && hosts[i] == hosts[j]
}

/// Why a revision is refused, checked in the order of its fields.
pub open spec fn revision_error(revision: &RendererAddonRevision) -> Option<RendererAddonError> {
    if !is_addon_id(revision.id@) {
        Some(RendererAddonError::InvalidId)
    } else if !is_bounded_clean_chars(revision.display_name@, 96) {
        Some(RendererAddonError::InvalidDisplayName)
    } else if !is_bounded_clean_chars(revision.project_revision@, 128) {
        Some(RendererAddonError::InvalidProjectRevision)
    } else if revision.distribution@ != external_checkout_only() {
        Some(RendererAddonError::NotExternalCheckout)
    } else if revision.host_adapters@.len() == 0 {
        Some(RendererAddonError::NoHostAdapters)
    } else if has_duplicate_host(revision.host_adapters@) {
        Some(RendererAddonError::DuplicateHostAdapters)
    } else if id_collection_error(revision.exclusive_slots@, RendererAddonError::DuplicateExclusiveSlots) is Some {
        id_collection_error(revision.exclusive_slots@, RendererAddonError::DuplicateExclusiveSlots)
    } else if id_collection_error(revision.conflicts_with@, RendererAddonError::DuplicateConflicts) is Some {
        id_collection_error(revision.conflicts_with@, RendererAddonError::DuplicateConflicts)
    } else if exists|j: int| 0 <= j < revision.conflicts_with@.len() && #[trigger] revision.conflicts_with@[j]@ == revision.id@ {
        Some(RendererAddonError::SelfConflict)
    } else if asset_error(&revision.entrypoint) is Some {
        asset_error(&revision.entrypoint)
    } else if revision.substitutions@.len() > MAX_ASSETS_PER_ADDON {
        Some(RendererAddonError::TooManySubstitutions)
    } else if substitutions_error(revision.substitutions@) is Some {
        substitutions_error(revision.substitutions@)
    } else {
        lifecycle_error(&revision.lifecycle)
    }
}

impl RendererAddonLifecycle {
    fn validate(&self) -> (result: Result<(), RendererAddonError>)
        ensures
            match result {
                Ok(()) => lifecycle_error(self) is None,
                Err(e) => lifecycle_error(self) == Some(e),
            },
    {
        if !valid_js_identifier(self.state_key.as_str()) {
            return Err(RendererAddonError::InvalidStateKey);
        }
        if !valid_js_identifier(self.dispose_method.as_str()) {
            return Err(RendererAddonError::InvalidDisposeMethod);
        }
        Ok(())
    }
}

impl RendererAddonAsset {
    fn validate(&self) -> (result: Result<(), RendererAddonError>)
        ensures
            match result {
                Ok(()) => asset_error(self) is None,
                Err(e) => asset_error(self) == Some(e),
            },
    {
        if !valid_checkout_path(self.path.as_str()) {
            return Err(RendererAddonError::InvalidAssetPath);
        }
        if !valid_sha256_text(self.sha256.as_str()) {
            return Err(RendererAddonError::InvalidAssetIdentity);
        }
        if self.max_bytes == 0 || self.max_bytes > MAX_ASSET_BYTES {
            return Err(RendererAddonError::InvalidAssetSizeLimit);
        }
        Ok(())
    }
}

impl RendererAddonSubstitution {
    fn validate(&self) -> (result: Result<(), RendererAddonError>)
        ensures
            match result {
                Ok(()) => substitution_error(self) is None,
                Err(e) => substitution_error(self) == Some(e),
            },
    {
        if !valid_placeholder(self.placeholder.as_str()) {
            return Err(RendererAddonError::InvalidPlaceholder);
        }
        self.asset.validate()?;
        match (self.encoding, &self.media_type) {
            (RendererAddonAssetEncoding::JsonUtf8, Some(_)) => Err(RendererAddonError::MediaTypeOnUtf8Asset),
            (RendererAddonAssetEncoding::JsonUtf8, None) => Ok(()),
            (RendererAddonAssetEncoding::DataUrlBase64, None) => Err(RendererAddonError::MissingMediaType),
            (RendererAddonAssetEncoding::DataUrlBase64, Some(media)) => {
                if valid_media_type(media.as_str()) {
                    Ok(())
                } else {
                    Err(RendererAddonError::InvalidMediaType)
                }
            },
        }
    }
}

fn text_eq(left: &String, right: &String) -> (result: bool)
    ensures
        result == (left@ == right@),
{
    let l = chars_of(left.as_str());
    let r = chars_of(right.as_str());
    chars_equal(l.as_slice(), r.as_slice())
}

/// Whether some text of `values` before `end` equals `value`.
fn contains_text_before(values: &Vec<String>, end: usize, value: &String) -> (result: bool)
    requires
        end <= values@.len(),
    ensures
        result == exists|j: int| 0 <= j < end && #[trigger] values@[j]@ == value@,
{
    for index in 0..end
        invariant
            end <= values@.len(),
            forall|j: int| 0 <= j < index ==> #[trigger] values@[j]@ != value@,
    {
        if text_eq(&values[index], value) {
            return true;
        }
    }
    false
}

fn validate_id_collection(values: &Vec<String>, duplicate: RendererAddonError) -> (result: Result<(), RendererAddonError>)
    ensures
        match result {
            Ok(()) => id_collection_error(values@, duplicate) is None,
            Err(e) => id_collection_error(values@, duplicate) == Some(e),
        },
{
    proof {
        assert(values@.take(0) =~= Seq::<String>::empty());
    }
    for index in 0..values.len()
        invariant
            id_collection_error(values@.take(index as int), duplicate) is None,
    {
        let ghost next = values@.take(index + 1);
        proof {
            assert(next.drop_last() =~= values@.take(index as int));
            assert(next.last() == values@[index as int]);
        }
        if !valid_addon_id(values[index].as_str()) {
            proof {
                lemma_id_collection_error_extends(values@, index as int + 1, duplicate);
            }
            return Err(RendererAddonError::InvalidId);
        }
        if contains_text_before(values, index, &values[index]) {
            proof {
                let j = choose|j: int| 0 <= j < index && #[trigger] values@[j]@ == values@[index as int]@;
                assert(next[j]@ == next.last()@);
                lemma_id_collection_error_extends(values@, index as int + 1, duplicate);
            }
            return Err(duplicate);
        }
        proof {
            assert forall|j: int| 0 <= j < next.len() - 1 implies #[trigger] next[j]@ != next.last()@ by {
                assert(next[j] == values@[j]);
            }
        }
    }
    proof {
        assert(values@.take(values@.len() as int) =~= values@);
    }
    Ok(())
}

/// A refusal found in a leading run of ids stays the refusal of the whole list.
proof fn lemma_id_collection_error_extends(values: Seq<String>, count: int, duplicate: RendererAddonError)
    requires
        0 <= count <= values.len(),
        id_collection_error(values.take(count), duplicate) is Some,
    ensures
        id_collection_error(values, duplicate) == id_collection_error(values.take(count), duplicate),
    decreases values.len() - count,
{
    if count < values.len() {
        assert(values.take(count + 1).take(count) =~= values.take(count));
        assert(values.take(count + 1).drop_last() =~= values.take(count));
        lemma_id_collection_error_extends(values, count + 1, duplicate);
    } else {
        assert(values.take(count) =~= values);
    }
}

proof fn lemma_substitutions_error_extends(values: Seq<RendererAddonSubstitution>, count: int)
    requires
        0 <= count <= values.len(),
        substitutions_error(values.take(count)) is Some,
    ensures
        substitutions_error(values) == substitutions_error(values.take(count)),
    decreases values.len() - count,
{
    if count < values.len() {
        assert(values.take(count + 1).drop_last() =~= values.take(count));
        lemma_substitutions_error_extends(values, count + 1);
    } else {
        assert(values.take(count) =~= values);
    }
}

fn placeholder_before(values: &Vec<RendererAddonSubstitution>, end: usize, value: &String) -> (result: bool)
    requires
        end <= values@.len(),
    ensures
        result == exists|j: int| 0 <= j < end && #[trigger] values@[j].placeholder@ == value@,
{
    for index in 0..end
        invariant
            end <= values@.len(),
            forall|j: int| 0 <= j < index ==> #[trigger] values@[j].placeholder@ != value@,
    {
        if text_eq(&values[index].placeholder, value) {
            return true;
        }
    }
    false
}

fn validate_substitutions(values: &Vec<RendererAddonSubstitution>) -> (result: Result<(), RendererAddonError>)
    ensures
        match result {
            Ok(()) => substitutions_error(values@) is None,
            Err(e) => substitutions_error(values@) == Some(e),
        },
{
    proof {
        assert(values@.take(0) =~= Seq::<RendererAddonSubstitution>::empty());
    }
    for index in 0..values.len()
        invariant
            substitutions_error(values@.take(index as int)) is None,
    {
        let ghost next = values@.take(index + 1);
        proof {
            assert(next.drop_last() =~= values@.take(index as int));
            assert(next.last() == values@[index as int]);
        }
        if let Err(e) = values[index].validate() {
            proof {
                lemma_substitutions_error_extends(values@, index as int + 1);
            }
            return Err(e);
        }
        if placeholder_before(values, index, &values[index].placeholder) {
            proof {
                let j = choose|j: int| 0 <= j < index && #[trigger] values@[j].placeholder@
                    == values@[index as int].placeholder@;
                assert(next[j].placeholder@ == next.last().placeholder@);
                lemma_substitutions_error_extends(values@, index as int + 1);
            }
            return Err(RendererAddonError::DuplicatePlaceholders);
        }
        proof {
            assert forall|j: int| 0 <= j < next.len() - 1 implies #[trigger] next[j].placeholder@
                != next.last().placeholder@ by {
                assert(next[j] == values@[j]);
            }
        }
    }
    proof {
        assert(values@.take(values@.len() as int) =~= values@);
    }
    Ok(())
}

fn duplicate_host(hosts: &Vec<HostAdapterKind>) -> (result: bool)
    ensures
        result == has_duplicate_host(hosts@),
{
    for j in 0..hosts.len()
        invariant
            forall|a: int, b: int| 0 <= a < b < j ==> hosts@[a] != hosts@[b],
    {
        for i in 0..j
            invariant
                j < hosts@.len(),
                forall|a: int, b: int| 0 <= a < b < j ==> hosts@[a] != hosts@[b],
                forall|a: int| 0 <= a < i ==> hosts@[a] != hosts@[j as int],
        {
            if hosts[i] == hosts[j] {
                return true;
            }
        }
    }
    false
}

impl RendererAddonRevision {
    /// Checks every field of the revision, in order.
    pub fn validate(&self) -> (result: Result<(), RendererAddonError>)
        ensures
            match result {
                Ok(()) => revision_error(self) is None,
                Err(e) => revision_error(self) == Some(e),
            },
    {
        if !valid_addon_id(self.id.as_str()) {
            return Err(RendererAddonError::InvalidId);
        }
        if !is_bounded_clean(self.display_name.as_str(), 96) {
            return Err(RendererAddonError::InvalidDisplayName);
        }
        if !is_bounded_clean(self.project_revision.as_str(), 128) {
            return Err(RendererAddonError::InvalidProjectRevision);
        }
        let distribution = chars_of(self.distribution.as_str());
        let expected = [
            'e', 'x', 't', 'e', 'r', 'n', 'a', 'l', '_', 'c', 'h', 'e', 'c', 'k', 'o', 'u', 't', '_', 'o', 'n', 'l', 'y',
        ];
        proof {
            assert(expected@ =~= external_checkout_only());
        }
        if !chars_equal(distribution.as_slice(), &expected) {
            return Err(RendererAddonError::NotExternalCheckout);
        }
        if self.host_adapters.len() == 0 {
            return Err(RendererAddonError::NoHostAdapters);
        }
        if duplicate_host(&self.host_adapters) {
            return Err(RendererAddonError::DuplicateHostAdapters);
        }
        validate_id_collection(&self.exclusive_slots, RendererAddonError::DuplicateExclusiveSlots)?;
        validate_id_collection(&self.conflicts_with, RendererAddonError::DuplicateConflicts)?;
        if contains_text_before(&self.conflicts_with, self.conflicts_with.len(), &self.id) {
            return Err(RendererAddonError::SelfConflict);
        }
        self.entrypoint.validate()?;
        if self.substitutions.len() > MAX_ASSETS_PER_ADDON {
            return Err(RendererAddonError::TooManySubstitutions);
        }
        validate_substitutions(&self.substitutions)?;
        self.lifecycle.validate()
    }

    /// Whether the revision supports `host`.
    pub fn supports_host(&self, host: HostAdapterKind) -> (result: bool)
        ensures
            result == self.host_adapters@.contains(host),
    {
        for index in 0..self.host_adapters.len()
            invariant
                forall|j: int| 0 <= j < index ==> self.host_adapters@[j] != host,
        {
            if self.host_adapters[index] == host {
                return true;
            }
        }
        false
    }
}

/// The reviewed manifest of addon revisions, as read from its JSON.
#[derive(Debug, Clone, PartialEq, Eq)]
pub struct RendererAddonManifest {
    pub schema_version: u8,
    pub addons: Vec<RendererAddonRevision>,
}

/// The first refusal among revisions, in order: an invalid one, or an id that an earlier
/// one repeats.
pub open spec fn revisions_error(values: Seq<RendererAddonRevision>) -> Option<RendererAddonError>
    decreases values.len(),
{
    if values.len() == 0 {
        None
    } else if revisions_error(values.drop_last()) is Some {
        revisions_error(values.drop_last())
    } else if revision_error(&values.last()) is Some {
        revision_error(&values.last())
    } else if exists|j: int| 0 <= j < values.len() - 1 && #[trigger] values[j].id@ == values.last().id@ {
        Some(RendererAddonError::DuplicateIds)
    } else {
        None
    }
}

/// Why a manifest is refused: its schema, its size, or its revisions.
pub open spec fn manifest_error(manifest: &RendererAddonManifest) -> Option<RendererAddonError> {
    if manifest.schema_version != 2 {
        Some(RendererAddonError::UnsupportedSchemaVersion)
    } else if manifest.addons@.len() > MAX_ADDONS {
        Some(RendererAddonError::TooManyEntries)
    } else {
        revisions_error(manifest.addons@)
    }
}

/// Every revision is valid and no two share an id.
pub open spec fn is_reviewed_policy(entries: Seq<RendererAddonRevision>) -> bool {
    &&& entries.len() <= MAX_ADDONS
    &&& forall|i: int| 0 <= i < entries.len() ==> revision_error(&#[trigger] entries[i]) is None
    &&& forall|i: int, j: int| 0 <= i < j < entries.len() ==> entries[i].id@ != entries[j].id@
}

proof fn lemma_revisions_error_extends(values: Seq<RendererAddonRevision>, count: int)
    requires
        0 <= count <= values.len(),
        revisions_error(values.take(count)) is Some,
    ensures
        revisions_error(values) == revisions_error(values.take(count)),
    decreases values.len() - count,
{
    if count < values.len() {
        assert(values.take(count + 1).drop_last() =~= values.take(count));
        lemma_revisions_error_extends(values, count + 1);
    } else {
        assert(values.take(count) =~= values);
    }
}

proof fn lemma_revisions_error_none(values: Seq<RendererAddonRevision>)
    requires
        revisions_error(values) is None,
    ensures
        forall|i: int| 0 <= i < values.len() ==> revision_error(&#[trigger] values[i]) is None,
        forall|i: int, j: int| 0 <= i < j < values.len() ==> values[i].id@ != values[j].id@,
    decreases values.len(),
{
    if values.len() > 0 {
        lemma_revisions_error_none(values.drop_last());
        assert forall|i: int| 0 <= i < values.len() implies revision_error(&#[trigger] values[i]) is None by {
            if i < values.len() - 1 {
                assert(values[i] == values.drop_last()[i]);
            }
        }
        assert forall|i: int, j: int| 0 <= i < j < values.len() implies values[i].id@ != values[j].id@ by {
            if j < values.len() - 1 {
                assert(values[i] == values.drop_last()[i]);
                assert(values[j] == values.drop_last()[j]);
            }
        }
    }
}

fn revision_id_before(values: &Vec<RendererAddonRevision>, end: usize, value: &String) -> (result: bool)
    requires
        end <= values@.len(),
    ensures
        result == exists|j: int| 0 <= j < end && #[trigger] values@[j].id@ == value@,
{
    for index in 0..end
        invariant
            end <= values@.len(),
            forall|j: int| 0 <= j < index ==> #[trigger] values@[j].id@ != value@,
    {
        if text_eq(&values[index].id, value) {
            return true;
        }
    }
    false
}

/// The reviewed addon revisions, by id.
#[derive(Debug, PartialEq, Eq)]
pub struct RendererAddonPolicy {
    entries: Vec<RendererAddonRevision>,
}

impl RendererAddonPolicy {
    #[verifier::type_invariant]
    closed spec fn is_reviewed(&self) -> bool {
        is_reviewed_policy(self.entries@)
    }

    /// The reviewed revisions, in manifest order.
    pub closed spec fn entries(&self) -> Seq<RendererAddonRevision> {
        self.entries@
    }

    /// Checks a manifest and makes its revisions the policy.
    pub fn from_manifest(manifest: RendererAddonManifest) -> (result: Result<Self, RendererAddonError>)
        ensures
            match result {
                Ok(policy) => manifest_error(&manifest) is None && policy.entries() == manifest.addons@,
                Err(e) => manifest_error(&manifest) == Some(e),
            },
    {
        if manifest.schema_version != 2 {
            return Err(RendererAddonError::UnsupportedSchemaVersion);
        }
        if manifest.addons.len() > MAX_ADDONS {
            return Err(RendererAddonError::TooManyEntries);
        }
        let values = &manifest.addons;
        proof {
            assert(values@.take(0) =~= Seq::<RendererAddonRevision>::empty());
        }
        for index in 0..values.len()
            invariant
                revisions_error(values@.take(index as int)) is None,
                values == &manifest.addons,
                manifest.schema_version == 2,
                manifest.addons@.len() <= MAX_ADDONS,
        {
            let ghost next = values@.take(index + 1);
            proof {
                assert(next.drop_last() =~= values@.take(index as int));
                assert(next.last() == values@[index as int]);
            }
            if let Err(e) = values[index].validate() {
                proof {
                    lemma_revisions_error_extends(values@, index as int + 1);
                }
                return Err(e);
            }
            if revision_id_before(values, index, &values[index].id) {
                proof {
                    let j = choose|j: int| 0 <= j < index && #[trigger] values@[j].id@ == values@[index as int].id@;
                    assert(next[j].id@ == next.last().id@);
                    lemma_revisions_error_extends(values@, index as int + 1);
                }
                return Err(RendererAddonError::DuplicateIds);
            }
            proof {
                assert forall|j: int| 0 <= j < next.len() - 1 implies #[trigger] next[j].id@ != next.last().id@ by {
                    assert(next[j] == values@[j]);
                }
            }
        }
        proof {
            assert(values@.take(values@.len() as int) =~= values@);
            lemma_revisions_error_none(values@);
        }
        Ok(RendererAddonPolicy { entries: manifest.addons })
    }
}

/// An addon offered to the user for a host.
#[derive(Debug, Clone, PartialEq, Eq)]
pub struct RendererAddonCatalogEntry {
    pub id: String,
    pub display_name: String,
    pub project_revision: String,
}

pub open spec fn catalog_entry_of(entry: &RendererAddonCatalogEntry, revision: &RendererAddonRevision) -> bool {
    &&& entry.id@ == revision.id@
    &&& entry.display_name@ == revision.display_name@
    &&& entry.project_revision@ == revision.project_revision@
}

/// `entry` describes a revision of `entries` that supports `host`.
pub open spec fn is_listed(entry: RendererAddonCatalogEntry, entries: Seq<RendererAddonRevision>, host: HostAdapterKind) -> bool {
    exists|k: int| 0 <= k < entries.len() && entries[k].host_adapters@.contains(host) && catalog_entry_of(&entry, &#[trigger] entries[k])
}

/// Some entry of `result` has the id `id`.
pub open spec fn is_offered(id: Seq<char>, result: Seq<RendererAddonCatalogEntry>) -> bool {
    exists|i: int| 0 <= i < result.len() && #[trigger] result[i].id@ == id
}

/// `result` lists, sorted by id, exactly the revisions of `entries` that support `host`.
pub open spec fn is_catalog(entries: Seq<RendererAddonRevision>, host: HostAdapterKind, result: Seq<RendererAddonCatalogEntry>) -> bool {
    &&& forall|i: int| 0 <= i < result.len() ==> is_listed(#[trigger] result[i], entries, host)
    &&& forall|k: int| 0 <= k < entries.len() && #[trigger] entries[k].host_adapters@.contains(host) ==> is_offered(entries[k].id@, result)
    &&& forall|i: int, j: int| 0 <= i < j < result.len() ==> text_lt(result[i].id@, result[j].id@)
}

fn sorted_position(entries: &Vec<RendererAddonCatalogEntry>, id: &Vec<char>) -> (result: usize)
    ensures
        result <= entries@.len(),
        forall|i: int| 0 <= i < result ==> !text_lt(id@, #[trigger] entries@[i].id@),
        result < entries@.len() ==> text_lt(id@, entries@[result as int].id@),
{
    let mut index: usize = 0;
    while index < entries.len()
        invariant
            index <= entries@.len(),
            forall|i: int| 0 <= i < index ==> !text_lt(id@, #[trigger] entries@[i].id@),
        decreases entries@.len() - index,
    {
        let other = chars_of(entries[index].id.as_str());
        if text_less(id.as_slice(), other.as_slice()) {
            return index;
        }
        index += 1;
    }
    index
}

pub open spec fn unique_ids(entries: Seq<RendererAddonRevision>) -> bool {
    forall|i: int, j: int| 0 <= i < j < entries.len() ==> entries[i].id@ != entries[j].id@
}

#[verifier::spinoff_prover]
proof fn lemma_catalog_insert(
    entries: Seq<RendererAddonRevision>,
    k: int,
    host: HostAdapterKind,
    before: Seq<RendererAddonCatalogEntry>,
    position: int,
    item: RendererAddonCatalogEntry,
)
    requires
        0 <= k < entries.len(),
        unique_ids(entries),
        is_catalog(entries.take(k), host, before),
        entries[k].host_adapters@.contains(host),
        catalog_entry_of(&item, &entries[k]),
        0 <= position <= before.len(),
        forall|i: int| 0 <= i < position ==> !text_lt(item.id@, #[trigger] before[i].id@),
        position < before.len() ==> text_lt(item.id@, before[position].id@),
    ensures
        is_catalog(entries.take(k + 1), host, before.insert(position, item)),
{
    let prefix = entries.take(k);
    let next = entries.take(k + 1);
    let after = before.insert(position, item);
    assert forall|j: int| 0 <= j < prefix.len() implies #[trigger] prefix[j] == next[j] by {}
    assert(next[k] == entries[k]);
    assert forall|i: int| 0 <= i < before.len() implies before[i].id@ != item.id@ by {
        assert(is_listed(before[i], prefix, host));
        let kk = choose|kk: int| 0 <= kk < prefix.len() && prefix[kk].host_adapters@.contains(host) && catalog_entry_of(&before[i], &#[trigger] prefix[kk]);
        assert(entries[kk].id@ != entries[k].id@);
    }
    assert forall|i: int| 0 <= i < position implies text_lt(#[trigger] before[i].id@, item.id@) by {
        lemma_text_lt_total(before[i].id@, item.id@);
    }
    assert forall|i: int, j: int| 0 <= i < j < after.len() implies text_lt(after[i].id@, after[j].id@) by {
        if j < position {
        } else if j == position {
        } else if i < position {
            assert(after[j] == before[j - 1]);
            if j - 1 > position {
                lemma_text_lt_transitive(item.id@, before[position].id@, before[j - 1].id@);
            }
            lemma_text_lt_transitive(before[i].id@, item.id@, before[j - 1].id@);
        } else if i == position {
            assert(after[j] == before[j - 1]);
            if j - 1 > position {
                lemma_text_lt_transitive(item.id@, before[position].id@, before[j - 1].id@);
            }
        } else {
            assert(after[i] == before[i - 1]);
            assert(after[j] == before[j - 1]);
        }
    }
    assert forall|i: int| 0 <= i < after.len() implies is_listed(#[trigger] after[i], next, host) by {
        if i == position {
            assert(catalog_entry_of(&after[i], &next[k]));
        } else {
            let bi = if i < position {
                i
            } else {
                i - 1
            };
            assert(after[i] == before[bi]);
            assert(is_listed(before[bi], prefix, host));
            let kk = choose|kk: int| 0 <= kk < prefix.len() && prefix[kk].host_adapters@.contains(host) && catalog_entry_of(&before[bi], &#[trigger] prefix[kk]);
            assert(catalog_entry_of(&after[i], &next[kk]));
        }
    }
    assert forall|kk: int| 0 <= kk < next.len() && #[trigger] next[kk].host_adapters@.contains(host) implies is_offered(next[kk].id@, after) by {
        if kk == k {
            assert(after[position].id@ == next[kk].id@);
        } else {
            assert(next[kk] == prefix[kk]);
            assert(prefix[kk].host_adapters@.contains(host));
            assert(is_offered(prefix[kk].id@, before));
            let i = choose|i: int| 0 <= i < before.len() && #[trigger] before[i].id@ == prefix[kk].id@;
            if i < position {
                assert(after[i] == before[i]);
            } else {
                assert(after[i + 1] == before[i]);
            }
        }
    }
}

proof fn lemma_catalog_skip(entries: Seq<RendererAddonRevision>, k: int, host: HostAdapterKind, before: Seq<RendererAddonCatalogEntry>)
    requires
        0 <= k < entries.len(),
        is_catalog(entries.take(k), host, before),
        !entries[k].host_adapters@.contains(host),
    ensures
        is_catalog(entries.take(k + 1), host, before),
{
    let prefix = entries.take(k);
    let next = entries.take(k + 1);
    assert forall|j: int| 0 <= j < prefix.len() implies #[trigger] prefix[j] == next[j] by {}
    assert(next[k] == entries[k]);
    assert forall|i: int| 0 <= i < before.len() implies is_listed(#[trigger] before[i], next, host) by {
        assert(is_listed(before[i], prefix, host));
        let kk = choose|kk: int| 0 <= kk < prefix.len() && prefix[kk].host_adapters@.contains(host) && catalog_entry_of(&before[i], &#[trigger] prefix[kk]);
        assert(next[kk] == prefix[kk]);
    }
    assert forall|kk: int| 0 <= kk < next.len() && #[trigger] next[kk].host_adapters@.contains(host) implies is_offered(next[kk].id@, before) by {
        if kk < k {
            assert(next[kk] == prefix[kk]);
            assert(prefix[kk].host_adapters@.contains(host));
        }
    }
}

impl RendererAddonPolicy {
    /// The reviewed addons that support `host`, sorted by id.
    pub fn catalog(&self, host: HostAdapterKind) -> (result: Vec<RendererAddonCatalogEntry>)
        ensures
            is_catalog(self.entries(), host, result@),
    {
        proof {
            use_type_invariant(self);
        }
        let entries = &self.entries;
        let mut result: Vec<RendererAddonCatalogEntry> = Vec::new();
        proof {
            assert(unique_ids(entries@));
        }
        for k in 0..entries.len()
            invariant
                entries@ == self.entries(),
                unique_ids(entries@),
                is_catalog(entries@.take(k as int), host, result@),
        {
            let revision = &entries[k];
            if revision.supports_host(host) {
                let id_chars = chars_of(revision.id.as_str());
                let position = sorted_position(&result, &id_chars);
                let item = RendererAddonCatalogEntry {
                    id: revision.id.clone(),
                    display_name: revision.display_name.clone(),
                    project_revision: revision.project_revision.clone(),
                };
                proof {
                    lemma_catalog_insert(entries@, k as int, host, result@, position as int, item);
                }
                result.insert(position, item);
            } else {
                proof {
                    lemma_catalog_skip(entries@, k as int, host, result@);
                }
            }
        }
        proof {
            assert(entries@.take(entries@.len() as int) =~= entries@);
        }
        result
    }
}

// ----- loading an addon's script -----

/// What was read from an addon's checkout: its entrypoint and the asset of each of its
/// substitutions, in order, each `None` where the file could not be read from inside the
/// checkout.
#[derive(Debug, Clone, PartialEq, Eq)]
pub struct RendererAddonSourceReads {
    pub id: String,
    pub entrypoint: Option<Vec<u8>>,
    pub substitutions: Vec<Option<Vec<u8>>>,
}

/// Why an addon's script could not be assembled.
#[derive(Debug, Clone, Copy, PartialEq, Eq, Structural)]
pub enum AddonLoadError {
    SourceUnavailable,
    SourceIdentityMismatch,
    InvalidEntrypoint,
    InvalidSubstitution,
}

pub open spec fn read_at(reads: Seq<Option<Vec<u8>>>, i: int) -> Option<Vec<u8>> {
    if 0 <= i < reads.len() {
        reads[i]
    } else {
        None
    }
}

/// The content of a reviewed asset, if it was read, fits its size limit and has its
/// identity.
pub open spec fn asset_content(read: Option<Vec<u8>>, asset: &RendererAddonAsset) -> Result<Seq<u8>, AddonLoadError> {
    match read {
        None => Err(AddonLoadError::SourceUnavailable),
        Some(bytes) => if bytes@.len() > asset.max_bytes {
            Err(AddonLoadError::SourceUnavailable)
        } else if hex_lower(sha256_digest(bytes@)) != ascii_lower(asset.sha256@) {
            Err(AddonLoadError::SourceIdentityMismatch)
        } else {
            Ok(bytes@)
        },
    }
}

/// `p` occurs in `s` at `i`.
pub open spec fn matches_at(s: Seq<char>, p: Seq<char>, i: int) -> bool {
    0 <= i && i + p.len() <= s.len() && s.subrange(i, i + p.len()) == p
}

/// The first index at or after `i` where the non-empty `p` occurs in `s`.
pub open spec fn first_match_from(s: Seq<char>, p: Seq<char>, i: int) -> Option<int>
    decreases s.len() - i,
{
    if p.len() == 0 || i < 0 || i + p.len() > s.len() {
        None
    } else if matches_at(s, p, i) {
        Some(i)
    } else {
        first_match_from(s, p, i + 1)
    }
}

/// `p` occurs exactly once in `s`, counting occurrences that do not overlap.
pub open spec fn has_single_match(s: Seq<char>, p: Seq<char>) -> bool {
    first_match_from(s, p, 0) matches Some(k) && first_match_from(s, p, k + p.len()) is None
}

/// `s` with its first occurrence of `p` replaced by `r`.
pub open spec fn replace_first(s: Seq<char>, p: Seq<char>, r: Seq<char>) -> Seq<char> {
    match first_match_from(s, p, 0) {
        Some(k) => s.take(k) + r + s.skip(k + p.len()),
        None => s,
    }
}

/// The `data:` URL of base64 content with a media type.
pub open spec fn data_url(media_type: Seq<char>, encoded: Seq<char>) -> Seq<char> {
    seq!['d', 'a', 't', 'a', ':'] + media_type + seq![';', 'b', 'a', 's', 'e', '6', '4', ','] + encoded
}

/// The JavaScript string literal that stands for an asset's content.
pub open spec fn replacement_text(substitution: &RendererAddonSubstitution, bytes: Seq<u8>) -> Option<Seq<char>> {
    match substitution.encoding {
        RendererAddonAssetEncoding::JsonUtf8 => if valid_utf8(bytes) {
            Some(json_string_literal(decode_utf8(bytes)))
        } else {
            None
        },
        RendererAddonAssetEncoding::DataUrlBase64 => match substitution.media_type {
            Some(media) => Some(json_string_literal(data_url(media@, base64_standard(bytes)))),
            None => None,
        },
    }
}

/// The script after the substitutions from the `i`-th on, in order.
pub open spec fn substitute_from(
    script: Seq<char>,
    substitutions: Seq<RendererAddonSubstitution>,
    reads: Seq<Option<Vec<u8>>>,
    i: int,
) -> Result<Seq<char>, AddonLoadError>
    decreases substitutions.len() - i,
{
    if i < 0 || i >= substitutions.len() {
        Ok(script)
    } else if !has_single_match(script, substitutions[i].placeholder@) {
        Err(AddonLoadError::InvalidSubstitution)
    } else {
        match asset_content(read_at(reads, i), &substitutions[i].asset) {
            Err(e) => Err(e),
            Ok(bytes) => match replacement_text(&substitutions[i], bytes) {
                None => Err(AddonLoadError::InvalidSubstitution),
                Some(r) => substitute_from(
                    replace_first(script, substitutions[i].placeholder@, r),
                    substitutions,
                    reads,
                    i + 1,
                ),
            },
        }
    }
}

/// The script of an addon: its entrypoint as UTF-8 text, with each placeholder replaced
/// by its asset's content.
pub open spec fn load_outcome(
    revision: &RendererAddonRevision,
    entrypoint: Option<Vec<u8>>,
    reads: Seq<Option<Vec<u8>>>,
) -> Result<Seq<char>, AddonLoadError> {
    match asset_content(entrypoint, &revision.entrypoint) {
        Err(e) => Err(e),
        Ok(bytes) => if !valid_utf8(bytes) {
            Err(AddonLoadError::InvalidEntrypoint)
        } else {
            substitute_from(decode_utf8(bytes), revision.substitutions@, reads, 0)
        },
    }
}

fn copy_bytes(bytes: &[u8]) -> (result: Vec<u8>)
    ensures
        result@ == bytes@,
{
    let mut out: Vec<u8> = Vec::new();
    for index in 0..bytes.len()
        invariant
            out@ == bytes@.take(index as int),
    {
        proof {
            assert(bytes@.take(index + 1) =~= bytes@.take(index as int).push(bytes@[index as int]));
        }
        out.push(bytes[index]);
    }
    proof {
        assert(bytes@.take(bytes@.len() as int) =~= bytes@);
    }
    out
}

fn read_asset(read: &Option<Vec<u8>>, asset: &RendererAddonAsset) -> (result: Result<Vec<u8>, AddonLoadError>)
    ensures
        match result {
            Ok(bytes) => asset_content(*read, asset) == Ok::<Seq<u8>, AddonLoadError>(bytes@),
            Err(e) => asset_content(*read, asset) == Err::<Seq<u8>, AddonLoadError>(e),
        },
{
    match read {
        None => Err(AddonLoadError::SourceUnavailable),
        Some(bytes) => {
            if bytes.len() as u64 > asset.max_bytes {
                return Err(AddonLoadError::SourceUnavailable);
            }
            let digest = sha256(bytes.as_slice());
            let observed = hex_lower_chars(digest.as_slice());
            let expected = chars_of(asset.sha256.as_str());
            let mut lowered: Vec<char> = Vec::new();
            for index in 0..expected.len()
                invariant
                    lowered@ == ascii_lower(expected@.take(index as int)),
            {
                proof {
                    assert(ascii_lower(expected@.take(index + 1)) =~= ascii_lower(expected@.take(index as int)).push(
                        ascii_lower_char(expected@[index as int]),
                    ));
                }
                lowered.push(to_ascii_lower_char(expected[index]));
            }
            proof {
                assert(expected@.take(expected@.len() as int) =~= expected@);
            }
            if !chars_equal(observed.as_slice(), lowered.as_slice()) {
                return Err(AddonLoadError::SourceIdentityMismatch);
            }
            Ok(copy_bytes(bytes.as_slice()))
        },
    }
}

fn matches_here(s: &[char], p: &[char], i: usize) -> (result: bool)
    requires
        i + p@.len() <= s@.len(),
    ensures
        result == matches_at(s@, p@, i as int),
{
    let m = p.len();
    let n = s.len();
    for k in 0..m
        invariant
            m == p@.len(),
            n == s@.len(),
            i + m <= n,
            forall|t: int| 0 <= t < k ==> s@[i + t] == p@[t],
    {
        if s[i + k] != p[k] {
            proof {
                assert(s@.subrange(i as int, i + p@.len())[k as int] == s@[i + k]);
            }
            return false;
        }
    }
    proof {
        assert(s@.subrange(i as int, i + p@.len()) =~= p@);
    }
    true
}

pub(crate) fn find_from(s: &[char], p: &[char], from: usize) -> (result: Option<usize>)
    ensures
        match result {
            Some(k) => first_match_from(s@, p@, from as int) == Some(k as int),
            None => first_match_from(s@, p@, from as int) is None,
        },
{
    let n = s.len();
    let m = p.len();
    if m == 0 {
        return None;
    }
    let mut i = from;
    while i <= n && m <= n - i
        invariant
            n == s@.len(),
            m == p@.len(),
            m > 0,
            from <= i,
            first_match_from(s@, p@, from as int) == first_match_from(s@, p@, i as int),
        decreases n - i,
    {
        if matches_here(s, p, i) {
            return Some(i);
        }
        i += 1;
    }
    None
}

pub(crate) fn replace_at(s: &[char], p_len: usize, k: usize, r: &[char]) -> (result: Vec<char>)
    requires
        k + p_len <= s@.len(),
    ensures
        result@ == s@.take(k as int) + r@ + s@.skip(k + p_len),
{
    let n = s.len();
    let mut out = slice_chars(s, 0, k);
    let mut index: usize = 0;
    let ghost start = out@;
    while index < r.len()
        invariant
            index <= r@.len(),
            out@ == start + r@.take(index as int),
        decreases r@.len() - index,
    {
        proof {
            assert(start + r@.take(index + 1) =~= (start + r@.take(index as int)).push(r@[index as int]));
        }
        out.push(r[index]);
        index += 1;
    }
    let tail = slice_chars(s, k + p_len, n);
    let ghost middle = out@;
    let mut t: usize = 0;
    while t < tail.len()
        invariant
            t <= tail@.len(),
            out@ == middle + tail@.take(t as int),
        decreases tail@.len() - t,
    {
        proof {
            assert(middle + tail@.take(t + 1) =~= (middle + tail@.take(t as int)).push(tail@[t as int]));
        }
        out.push(tail[t]);
        t += 1;
    }
    proof {
        assert(r@.take(r@.len() as int) =~= r@);
        assert(tail@.take(tail@.len() as int) =~= tail@);
        assert(s@.subrange(0, k as int) =~= s@.take(k as int));
        assert(tail@ =~= s@.skip(k + p_len));
    }
    out
}

fn replacement_for(substitution: &RendererAddonSubstitution, bytes: Vec<u8>) -> (result: Option<Vec<char>>)
    requires
        bytes@.len() <= MAX_ASSET_BYTES,
    ensures
        match result {
            Some(r) => replacement_text(substitution, bytes@) == Some(r@),
            None => replacement_text(substitution, bytes@) is None,
        },
{
    let ghost content = bytes@;
    match substitution.encoding {
        RendererAddonAssetEncoding::JsonUtf8 => {
            match utf8_decode(bytes) {
                Some(text) => match json_quote(text.as_str()) {
                    Ok(quoted) => Some(chars_of(quoted.as_str())),
                    Err(_) => None,
                },
                None => None,
            }
        },
        RendererAddonAssetEncoding::DataUrlBase64 => {
            match &substitution.media_type {
                Some(media) => {
                    let encoded = base64_encode(bytes.as_slice());
                    let mut url = String::from_str("data:");
                    proof {
                        reveal_strlit("data:");
                        reveal_strlit(";base64,");
                    }
                    let media_chars = chars_of(media.as_str());
                    push_chars(&mut url, media_chars.as_slice());
                    let separator = chars_of(";base64,");
                    push_chars(&mut url, separator.as_slice());
                    let encoded_chars = chars_of(encoded.as_str());
                    push_chars(&mut url, encoded_chars.as_slice());
                    proof {
                        assert(url@ =~= data_url(media@, base64_standard(content)));
                    }
                    match json_quote(url.as_str()) {
                        Ok(quoted) => Some(chars_of(quoted.as_str())),
                        Err(_) => None,
                    }
                },
                None => None,
            }
        },
    }
}

/// Assembles the script of `revision` from what was read of its checkout.
pub fn load_addon_script(revision: &RendererAddonRevision, reads: &RendererAddonSourceReads) -> (result: Result<String, AddonLoadError>)
    requires
        forall|i: int| 0 <= i < revision.substitutions@.len() ==> (#[trigger] revision.substitutions@[i]).asset.max_bytes
            <= MAX_ASSET_BYTES,
    ensures
        match result {
            Ok(script) => load_outcome(revision, reads.entrypoint, reads.substitutions@) == Ok::<Seq<char>, AddonLoadError>(script@),
            Err(e) => load_outcome(revision, reads.entrypoint, reads.substitutions@) == Err::<Seq<char>, AddonLoadError>(e),
        },
{
    let entry = read_asset(&reads.entrypoint, &revision.entrypoint)?;
    let text = match utf8_decode(entry) {
        Some(text) => text,
        None => {
            return Err(AddonLoadError::InvalidEntrypoint);
        },
    };
    let mut script = chars_of(text.as_str());
    let subs = &revision.substitutions;
    let ghost initial = script@;
    for i in 0..subs.len()
        invariant
            subs == &revision.substitutions,
            load_outcome(revision, reads.entrypoint, reads.substitutions@) == substitute_from(initial, subs@, reads.substitutions@, 0),
            forall|t: int| 0 <= t < subs@.len() ==> (#[trigger] subs@[t]).asset.max_bytes <= MAX_ASSET_BYTES,
            substitute_from(initial, subs@, reads.substitutions@, 0) == substitute_from(
                script@,
                subs@,
                reads.substitutions@,
                i as int,
            ),
    {
        let substitution = &subs[i];
        let placeholder = chars_of(substitution.placeholder.as_str());
        let first = find_from(script.as_slice(), placeholder.as_slice(), 0);
        let k = match first {
            Some(k) => k,
            None => {
                return Err(AddonLoadError::InvalidSubstitution);
            },
        };
        proof {
            assert(matches_at(script@, placeholder@, k as int)) by {
                lemma_first_match_found(script@, placeholder@, 0, k as int);
            }
        }
        let n = script.len();
        if find_from(script.as_slice(), placeholder.as_slice(), k + placeholder.len()).is_some() {
            return Err(AddonLoadError::InvalidSubstitution);
        }
        let read = if i < reads.substitutions.len() {
            &reads.substitutions[i]
        } else {
            &None
        };
        let content = read_asset(read, &substitution.asset)?;
        let replacement = match replacement_for(substitution, content) {
            Some(r) => r,
            None => {
                return Err(AddonLoadError::InvalidSubstitution);
            },
        };
        script = replace_at(script.as_slice(), placeholder.len(), k, replacement.as_slice());
    }
    Ok(string_from_chars(script.as_slice()))
}

pub proof fn lemma_first_match_found(s: Seq<char>, p: Seq<char>, i: int, k: int)
    requires
        first_match_from(s, p, i) == Some(k),
    ensures
        matches_at(s, p, k),
        i <= k,
    decreases s.len() - i,
{
    if !matches_at(s, p, i) {
        lemma_first_match_found(s, p, i + 1, k);
    }
}

// ----- reports -----

#[derive(Debug, Clone, Copy, PartialEq, Eq, Structural)]
pub enum RendererAddonState {
    Enabled,
    Disabled,
}

/// What became of one addon, and why.
#[derive(Debug, Clone, PartialEq, Eq)]
pub struct RendererAddonReport {
    pub id: String,
    pub state: RendererAddonState,
    pub project_revision: Option<String>,
    pub reason: Option<String>,
    pub blocked_by: Option<String>,
}

/// A report as values.
pub ghost struct ReportView {
    pub id: Seq<char>,
    pub state: RendererAddonState,
    pub project_revision: Option<Seq<char>>,
    pub reason: Option<Seq<char>>,
    pub blocked_by: Option<Seq<char>>,
}

pub open spec fn text_view(value: Option<String>) -> Option<Seq<char>> {
    match value {
        Some(text) => Some(text@),
        None => None,
    }
}

pub open spec fn report_view(report: RendererAddonReport) -> ReportView {
    ReportView {
        id: report.id@,
        state: report.state,
        project_revision: text_view(report.project_revision),
        reason: text_view(report.reason),
        blocked_by: text_view(report.blocked_by),
    }
}

pub open spec fn reports_view(reports: Seq<RendererAddonReport>) -> Seq<ReportView> {
    reports.map_values(|report: RendererAddonReport| report_view(report))
}

/// Why an addon was not injected.
#[derive(Debug, Clone, Copy, PartialEq, Eq, Structural)]
pub enum DisabledReason {
    DuplicateAddon,
    InvalidSettings,
    DisabledByUser,
    HostAdapterUnsupported,
    UnreviewedAddon,
    TooManyAddons,
    AddonConflict,
    ExclusiveSlotConflict,
    SourceUnavailable,
    SourceIdentityMismatch,
    InvalidEntrypoint,
    InvalidSubstitution,
}

/// The reason code that a report carries.
pub open spec fn reason_text(reason: DisabledReason) -> Seq<char> {
    match reason {
        DisabledReason::DuplicateAddon => seq!['d', 'u', 'p', 'l', 'i', 'c', 'a', 't', 'e', '_', 'a', 'd', 'd', 'o', 'n'],
        DisabledReason::InvalidSettings => seq!['i', 'n', 'v', 'a', 'l', 'i', 'd', '_', 's', 'e', 't', 't', 'i', 'n', 'g', 's'],
        DisabledReason::DisabledByUser => seq!['d', 'i', 's', 'a', 'b', 'l', 'e', 'd', '_', 'b', 'y', '_', 'u', 's', 'e', 'r'],
        DisabledReason::HostAdapterUnsupported => seq![
            'h', 'o', 's', 't', '_', 'a', 'd', 'a', 'p', 't', 'e', 'r', '_', 'u', 'n', 's', 'u', 'p', 'p', 'o', 'r', 't', 'e', 'd',
        ],
        DisabledReason::UnreviewedAddon => seq!['u', 'n', 'r', 'e', 'v', 'i', 'e', 'w', 'e', 'd', '_', 'a', 'd', 'd', 'o', 'n'],
        DisabledReason::TooManyAddons => seq!['t', 'o', 'o', '_', 'm', 'a', 'n', 'y', '_', 'a', 'd', 'd', 'o', 'n', 's'],
        DisabledReason::AddonConflict => seq!['a', 'd', 'd', 'o', 'n', '_', 'c', 'o', 'n', 'f', 'l', 'i', 'c', 't'],
        DisabledReason::ExclusiveSlotConflict => seq![
            'e', 'x', 'c', 'l', 'u', 's', 'i', 'v', 'e', '_', 's', 'l', 'o', 't', '_', 'c', 'o', 'n', 'f', 'l', 'i', 'c', 't',
        ],
        DisabledReason::SourceUnavailable => seq![
            's', 'o', 'u', 'r', 'c', 'e', '_', 'u', 'n', 'a', 'v', 'a', 'i', 'l', 'a', 'b', 'l', 'e',
        ],
        DisabledReason::SourceIdentityMismatch => seq![
            's', 'o', 'u', 'r', 'c', 'e', '_', 'i', 'd', 'e', 'n', 't', 'i', 't', 'y', '_', 'm', 'i', 's', 'm', 'a', 't', 'c', 'h',
        ],
        DisabledReason::InvalidEntrypoint => seq![
            'i', 'n', 'v', 'a', 'l', 'i', 'd', '_', 'e', 'n', 't', 'r', 'y', 'p', 'o', 'i', 'n', 't',
        ],
        DisabledReason::InvalidSubstitution => seq![
            'i', 'n', 'v', 'a', 'l', 'i', 'd', '_', 's', 'u', 'b', 's', 't', 'i', 't', 'u', 't', 'i', 'o', 'n',
        ],
    }
}

fn reason_string(reason: DisabledReason) -> (result: String)
    ensures
        result@ == reason_text(reason),
{
    let text = match reason {
        DisabledReason::DuplicateAddon => "duplicate_addon",
        DisabledReason::InvalidSettings => "invalid_settings",
        DisabledReason::DisabledByUser => "disabled_by_user",
        DisabledReason::HostAdapterUnsupported => "host_adapter_unsupported",
        DisabledReason::UnreviewedAddon => "unreviewed_addon",
        DisabledReason::TooManyAddons => "too_many_addons",
        DisabledReason::AddonConflict => "addon_conflict",
        DisabledReason::ExclusiveSlotConflict => "exclusive_slot_conflict",
        DisabledReason::SourceUnavailable => "source_unavailable",
        DisabledReason::SourceIdentityMismatch => "source_identity_mismatch",
        DisabledReason::InvalidEntrypoint => "invalid_entrypoint",
        DisabledReason::InvalidSubstitution => "invalid_substitution",
    };
    proof {
        reveal_strlit("duplicate_addon");
        reveal_strlit("invalid_settings");
        reveal_strlit("disabled_by_user");
        reveal_strlit("host_adapter_unsupported");
        reveal_strlit("unreviewed_addon");
        reveal_strlit("too_many_addons");
        reveal_strlit("addon_conflict");
        reveal_strlit("exclusive_slot_conflict");
        reveal_strlit("source_unavailable");
        reveal_strlit("source_identity_mismatch");
        reveal_strlit("invalid_entrypoint");
        reveal_strlit("invalid_substitution");
    }
    let result = String::from_str(text);
    proof {
        assert(result@ =~= reason_text(reason));
    }
    result
}

/// The reason that a load error is reported under.
pub open spec fn load_reason(error: AddonLoadError) -> DisabledReason {
    match error {
        AddonLoadError::SourceUnavailable => DisabledReason::SourceUnavailable,
        AddonLoadError::SourceIdentityMismatch => DisabledReason::SourceIdentityMismatch,
        AddonLoadError::InvalidEntrypoint => DisabledReason::InvalidEntrypoint,
        AddonLoadError::InvalidSubstitution => DisabledReason::InvalidSubstitution,
    }
}

/// The report of an addon that was not injected.
pub open spec fn disabled_view(
    id: Seq<char>,
    revision: Option<Seq<char>>,
    reason: DisabledReason,
    blocked_by: Option<Seq<char>>,
) -> ReportView {
    ReportView {
        id,
        state: RendererAddonState::Disabled,
        project_revision: revision,
        reason: Some(reason_text(reason)),
        blocked_by,
    }
}

/// The report of an injected addon.
pub open spec fn enabled_view(id: Seq<char>, revision: Seq<char>) -> ReportView {
    ReportView {
        id,
        state: RendererAddonState::Enabled,
        project_revision: Some(revision),
        reason: None,
        blocked_by: None,
    }
}

fn copy_text(text: &String) -> (result: String)
    ensures
        result@ == text@,
{
    text.clone()
}

fn disabled_report(id: &String, revision: Option<&String>, reason: DisabledReason, blocked_by: Option<&String>) -> (result: RendererAddonReport)
    ensures
        report_view(result) == disabled_view(
            id@,
            match revision {
                Some(r) => Some(r@),
                None => None,
            },
            reason,
            match blocked_by {
                Some(b) => Some(b@),
                None => None,
            },
        ),
{
    RendererAddonReport {
        id: copy_text(id),
        state: RendererAddonState::Disabled,
        project_revision: match revision {
            Some(r) => Some(copy_text(r)),
            None => None,
        },
        reason: Some(reason_string(reason)),
        blocked_by: match blocked_by {
            Some(b) => Some(copy_text(b)),
            None => None,
        },
    }
}

// ----- preparing addons -----

/// The index of the reviewed revision with id `id`, if there is one.
pub open spec fn entry_for(entries: Seq<RendererAddonRevision>, id: Seq<char>) -> Option<int> {
    if exists|k: int| 0 <= k < entries.len() && #[trigger] entries[k].id@ == id {
        Some(choose|k: int| 0 <= k < entries.len() && #[trigger] entries[k].id@ == id)
    } else {
        None
    }
}

/// How many settings are considered: at most `MAX_ADDONS`.
pub open spec fn screened_count(settings: Seq<RendererAddonSettings>) -> int {
    if settings.len() > MAX_ADDONS {
        MAX_ADDONS as int
    } else {
        settings.len() as int
    }
}

/// An earlier setting has the id of the `j`-th.
pub open spec fn repeats_earlier(settings: Seq<RendererAddonSettings>, j: int) -> bool {
    exists|i: int| 0 <= i < j && #[trigger] settings[i].id@ == settings[j].id@
}

/// What screening makes of the `j`-th setting: the index of its revision when it is a
/// candidate for injection, else its report.
pub open spec fn screen_setting(
    settings: Seq<RendererAddonSettings>,
    entries: Seq<RendererAddonRevision>,
    host: HostAdapterKind,
    j: int,
) -> Result<int, ReportView> {
    let setting = settings[j];
    if repeats_earlier(settings, j) {
        Err(disabled_view(setting.id@, None, DisabledReason::DuplicateAddon, None))
    } else if settings_outcome(&setting) is Err {
        Err(disabled_view(setting.id@, None, DisabledReason::InvalidSettings, None))
    } else if !setting.enabled {
        Err(disabled_view(setting.id@, None, DisabledReason::DisabledByUser, None))
    } else {
        match entry_for(entries, setting.id@) {
            Some(k) => if entries[k].host_adapters@.contains(host) {
                Ok(k)
            } else {
                Err(
                    disabled_view(
                        setting.id@,
                        Some(entries[k].project_revision@),
                        DisabledReason::HostAdapterUnsupported,
                        None,
                    ),
                )
            },
            None => Err(disabled_view(setting.id@, None, DisabledReason::UnreviewedAddon, None)),
        }
    }
}

/// The reports and the candidates (setting index, revision index) of screening the first
/// `count` settings, in order.
pub ghost struct Screening {
    pub reports: Seq<ReportView>,
    pub candidates: Seq<(int, int)>,
}

pub open spec fn screen(
    settings: Seq<RendererAddonSettings>,
    entries: Seq<RendererAddonRevision>,
    host: HostAdapterKind,
    count: int,
) -> Screening
    decreases count,
{
    if count <= 0 {
        Screening { reports: Seq::empty(), candidates: Seq::empty() }
    } else {
        let before = screen(settings, entries, host, count - 1);
        match screen_setting(settings, entries, host, count - 1) {
            Ok(k) => Screening { reports: before.reports, candidates: before.candidates.push((count - 1, k)) },
            Err(report) => Screening { reports: before.reports.push(report), candidates: before.candidates },
        }
    }
}

pub open spec fn additional_addons_id() -> Seq<char> {
    seq!['a', 'd', 'd', 'i', 't', 'i', 'o', 'n', 'a', 'l', '-', 'a', 'd', 'd', 'o', 'n', 's']
}

/// Revision `a` loads before revision `b`: by load order, then by id.
pub open spec fn loads_before(entries: Seq<RendererAddonRevision>, a: int, b: int) -> bool {
    entries[a].load_order < entries[b].load_order || (entries[a].load_order == entries[b].load_order && text_lt(
        entries[a].id@,
        entries[b].id@,
    ))
}

/// Revisions load by their load order, and those with the same load order by id in
/// dictionary order: the smaller id first.
pub proof fn lemma_load_order_then_id(entries: Seq<RendererAddonRevision>, a: int, b: int)
    ensures
        entries[a].load_order < entries[b].load_order ==> loads_before(entries, a, b),
        entries[a].load_order > entries[b].load_order ==> !loads_before(entries, a, b),
        entries[a].load_order == entries[b].load_order ==> (loads_before(entries, a, b) <==> crate::text::lex_before(
            entries[a].id@,
            entries[b].id@,
        )),
{
    crate::text::lemma_text_lt_is_lexicographic(entries[a].id@, entries[b].id@);
}

/// `order` holds the candidates sorted so that each revision loads before the next.
pub open spec fn is_load_order(entries: Seq<RendererAddonRevision>, candidates: Seq<(int, int)>, order: Seq<(int, int)>) -> bool {
    &&& order.len() == candidates.len()
    &&& forall|x: (int, int)| candidates.contains(x) ==> order.contains(x)
    &&& forall|x: (int, int)| order.contains(x) ==> candidates.contains(x)
    &&& forall|i: int, j: int| 0 <= i < j < order.len() ==> loads_before(entries, order[i].1, order[j].1)
}

/// A script to inject, as values.
pub ghost struct PreparedView {
    pub id: Seq<char>,
    pub project_revision: Seq<char>,
    pub script: Seq<char>,
    pub state_key: Seq<char>,
    pub dispose_method: Seq<char>,
}

/// The state of activating candidates in load order.
pub ghost struct Activation {
    pub active: Seq<int>,
    pub occupied: Seq<(Seq<char>, Seq<char>)>,
    pub reports: Seq<ReportView>,
    pub scripts: Seq<PreparedView>,
}

pub open spec fn lists_id(ids: Seq<String>, id: Seq<char>) -> bool {
    exists|i: int| 0 <= i < ids.len() && #[trigger] ids[i]@ == id
}

/// Either revision declares a conflict with the other.
pub open spec fn in_conflict(a: RendererAddonRevision, b: RendererAddonRevision) -> bool {
    lists_id(a.conflicts_with@, b.id@) || lists_id(b.conflicts_with@, a.id@)
}

/// The first active revision, in activation order, that conflicts with the candidate.
pub open spec fn conflict_blocker(entries: Seq<RendererAddonRevision>, candidate: int, active: Seq<int>) -> Option<Seq<char>>
    decreases active.len(),
{
    if active.len() == 0 {
        None
    } else if in_conflict(entries[candidate], entries[active[0]]) {
        Some(entries[active[0]].id@)
    } else {
        conflict_blocker(entries, candidate, active.drop_first())
    }
}

/// The revision that holds `slot`.
pub open spec fn slot_owner(occupied: Seq<(Seq<char>, Seq<char>)>, slot: Seq<char>) -> Option<Seq<char>>
    decreases occupied.len(),
{
    if occupied.len() == 0 {
        None
    } else if occupied[0].0 == slot {
        Some(occupied[0].1)
    } else {
        slot_owner(occupied.drop_first(), slot)
    }
}

/// The holder of the first of `slots`, in order, that is already held.
pub open spec fn slot_blocker(slots: Seq<String>, occupied: Seq<(Seq<char>, Seq<char>)>) -> Option<Seq<char>>
    decreases slots.len(),
{
    if slots.len() == 0 {
        None
    } else {
        match slot_owner(occupied, slots[0]@) {
            Some(owner) => Some(owner),
            None => slot_blocker(slots.drop_first(), occupied),
        }
    }
}

pub open spec fn slot_claims(revision: RendererAddonRevision) -> Seq<(Seq<char>, Seq<char>)> {
    revision.exclusive_slots@.map_values(|slot: String| (slot@, revision.id@))
}

/// The index of the first reads for `id`.
pub open spec fn reads_for(reads: Seq<RendererAddonSourceReads>, id: Seq<char>) -> Option<int> {
    if exists|r: int| 0 <= r < reads.len() && #[trigger] reads[r].id@ == id && forall|i: int| 0 <= i < r ==> reads[i].id@ != id {
        Some(choose|r: int| 0 <= r < reads.len() && #[trigger] reads[r].id@ == id && forall|i: int| 0 <= i < r ==> reads[i].id@ != id)
    } else {
        None
    }
}

/// Loading the revision with what was read for `id`; nothing read for it makes its
/// source unavailable.
pub open spec fn addon_load(revision: RendererAddonRevision, reads: Seq<RendererAddonSourceReads>, id: Seq<char>) -> Result<Seq<char>, AddonLoadError> {
    match reads_for(reads, id) {
        Some(r) => load_outcome(&revision, reads[r].entrypoint, reads[r].substitutions@),
        None => Err(AddonLoadError::SourceUnavailable),
    }
}

/// Activating one candidate: refused on a conflict with an active addon, then on a held
/// exclusive slot, then when its script cannot be loaded; else injected, holding its
/// slots.
pub open spec fn activation_step(
    state: Activation,
    settings: Seq<RendererAddonSettings>,
    entries: Seq<RendererAddonRevision>,
    reads: Seq<RendererAddonSourceReads>,
    candidate: (int, int),
) -> Activation {
    let id = settings[candidate.0].id@;
    let revision = entries[candidate.1];
    match conflict_blocker(entries, candidate.1, state.active) {
        Some(blocker) => Activation {
            reports: state.reports.push(
                disabled_view(id, Some(revision.project_revision@), DisabledReason::AddonConflict, Some(blocker)),
            ),
            ..state
        },
        None => match slot_blocker(revision.exclusive_slots@, state.occupied) {
            Some(blocker) => Activation {
                reports: state.reports.push(
                    disabled_view(id, Some(revision.project_revision@), DisabledReason::ExclusiveSlotConflict, Some(blocker)),
                ),
                ..state
            },
            None => match addon_load(revision, reads, id) {
                Ok(script) => Activation {
                    active: state.active.push(candidate.1),
                    occupied: state.occupied + slot_claims(revision),
                    reports: state.reports.push(enabled_view(id, revision.project_revision@)),
                    scripts: state.scripts.push(
                        PreparedView {
                            id,
                            project_revision: revision.project_revision@,
                            script,
                            state_key: revision.lifecycle.state_key@,
                            dispose_method: revision.lifecycle.dispose_method@,
                        },
                    ),
                },
                Err(e) => Activation {
                    reports: state.reports.push(disabled_view(id, Some(revision.project_revision@), load_reason(e), None)),
                    ..state
                },
            },
        },
    }
}

pub open spec fn activate(
    state: Activation,
    settings: Seq<RendererAddonSettings>,
    entries: Seq<RendererAddonRevision>,
    reads: Seq<RendererAddonSourceReads>,
    order: Seq<(int, int)>,
    count: int,
) -> Activation
    decreases count,
{
    if count <= 0 {
        state
    } else {
        activation_step(activate(state, settings, entries, reads, order, count - 1), settings, entries, reads, order[count - 1])
    }
}

/// The reports and scripts of a bundle.
pub ghost struct BundleView {
    pub reports: Seq<ReportView>,
    pub scripts: Seq<PreparedView>,
}

/// The bundle that preparing gives for candidates activated in `order`: the screening
/// reports, a report for settings beyond `MAX_ADDONS`, then one report per candidate.
pub open spec fn prepared_bundle(
    settings: Seq<RendererAddonSettings>,
    entries: Seq<RendererAddonRevision>,
    host: HostAdapterKind,
    reads: Seq<RendererAddonSourceReads>,
    order: Seq<(int, int)>,
) -> BundleView {
    let screening = screen(settings, entries, host, screened_count(settings));
    let reports = screening.reports + if settings.len() > MAX_ADDONS {
        seq![disabled_view(additional_addons_id(), None, DisabledReason::TooManyAddons, None)]
    } else {
        Seq::empty()
    };
    let done = activate(
        Activation { active: Seq::empty(), occupied: Seq::empty(), reports, scripts: Seq::empty() },
        settings,
        entries,
        reads,
        order,
        order.len() as int,
    );
    BundleView { reports: done.reports, scripts: done.scripts }
}

pub open spec fn candidates_view(candidates: Seq<(usize, usize)>) -> Seq<(int, int)> {
    candidates.map_values(|c: (usize, usize)| (c.0 as int, c.1 as int))
}

/// The candidates name distinct settings, each with the revision of its id.
pub open spec fn well_formed_candidates(
    settings: Seq<RendererAddonSettings>,
    entries: Seq<RendererAddonRevision>,
    candidates: Seq<(int, int)>,
) -> bool {
    &&& forall|i: int| 0 <= i < candidates.len() ==> {
        let c = #[trigger] candidates[i];
        &&& 0 <= c.0 < settings.len()
        &&& 0 <= c.1 < entries.len()
        &&& entries[c.1].id@ == settings[c.0].id@
    }
    &&& forall|i: int, j: int| 0 <= i < j < candidates.len() ==> entries[candidates[i].1].id@ != entries[candidates[j].1].id@
}

fn find_entry(entries: &Vec<RendererAddonRevision>, id: &String) -> (result: Option<usize>)
    requires
        unique_ids(entries@),
    ensures
        match result {
            Some(k) => entry_for(entries@, id@) == Some(k as int),
            None => entry_for(entries@, id@) is None,
        },
{
    for k in 0..entries.len()
        invariant
            unique_ids(entries@),
            forall|i: int| 0 <= i < k ==> #[trigger] entries@[i].id@ != id@,
    {
        if text_eq(&entries[k].id, id) {
            proof {
                assert(entries@[k as int].id@ == id@);
                let c = choose|c: int| 0 <= c < entries@.len() && #[trigger] entries@[c].id@ == id@;
                if c != k {
                    assert(entries@[c].id@ != entries@[k as int].id@);
                }
            }
            return Some(k);
        }
    }
    None
}

fn repeats_before(settings: &[RendererAddonSettings], j: usize) -> (result: bool)
    requires
        j < settings@.len(),
    ensures
        result == repeats_earlier(settings@, j as int),
{
    for i in 0..j
        invariant
            j < settings@.len(),
            forall|t: int| 0 <= t < i ==> #[trigger] settings@[t].id@ != settings@[j as int].id@,
    {
        if text_eq(&settings[i].id, &settings[j].id) {
            proof {
                assert(settings@[i as int].id@ == settings@[j as int].id@);
            }
            return true;
        }
    }
    false
}

proof fn lemma_screen_step(
    settings: Seq<RendererAddonSettings>,
    entries: Seq<RendererAddonRevision>,
    host: HostAdapterKind,
    j: int,
)
    requires
        0 <= j < settings.len(),
        unique_ids(entries),
        well_formed_candidates(settings, entries, screen(settings, entries, host, j).candidates),
        forall|i: int| 0 <= i < screen(settings, entries, host, j).candidates.len() ==> (#[trigger] screen(settings, entries, host, j).candidates[i]).0 < j,
    ensures
        well_formed_candidates(settings, entries, screen(settings, entries, host, j + 1).candidates),
        forall|i: int| 0 <= i < screen(settings, entries, host, j + 1).candidates.len() ==> (#[trigger] screen(settings, entries, host, j + 1).candidates[i]).0 < j + 1,
{
    let before = screen(settings, entries, host, j).candidates;
    let after = screen(settings, entries, host, j + 1).candidates;
    match screen_setting(settings, entries, host, j) {
        Ok(k) => {
            assert(after == before.push((j, k)));
            assert(!repeats_earlier(settings, j));
            assert(entry_for(entries, settings[j].id@) == Some(k));
            assert(entries[k].id@ == settings[j].id@);
            assert forall|a: int, b: int| 0 <= a < b < after.len() implies entries[after[a].1].id@ != entries[after[b].1].id@ by {
                if b == after.len() - 1 {
                    assert(after[a] == before[a]);
                    let sa = before[a].0;
                    assert(0 <= sa < j);
                    assert(settings[sa].id@ != settings[j].id@);
                } else {
                    assert(after[a] == before[a]);
                    assert(after[b] == before[b]);
                }
            }
            assert forall|i: int| 0 <= i < after.len() implies {
                let c = #[trigger] after[i];
                &&& 0 <= c.0 < settings.len()
                &&& 0 <= c.1 < entries.len()
                &&& entries[c.1].id@ == settings[c.0].id@
            } by {
                if i < before.len() {
                    assert(after[i] == before[i]);
                }
            }
            assert forall|i: int| 0 <= i < after.len() implies (#[trigger] after[i]).0 < j + 1 by {
                if i < before.len() {
                    assert(after[i] == before[i]);
                }
            }
        },
        Err(_) => {
            assert(after == before);
        },
    }
}

/// Screens the first `MAX_ADDONS` settings in order.
fn screen_settings(settings: &[RendererAddonSettings], entries: &Vec<RendererAddonRevision>, host: HostAdapterKind) -> (result: (
    Vec<RendererAddonReport>,
    Vec<(usize, usize)>,
))
    requires
        unique_ids(entries@),
    ensures
        reports_view(result.0@) == screen(settings@, entries@, host, screened_count(settings@)).reports,
        candidates_view(result.1@) == screen(settings@, entries@, host, screened_count(settings@)).candidates,
        well_formed_candidates(settings@, entries@, candidates_view(result.1@)),
{
    let count = if settings.len() > MAX_ADDONS {
        MAX_ADDONS
    } else {
        settings.len()
    };
    let mut reports: Vec<RendererAddonReport> = Vec::new();
    let mut candidates: Vec<(usize, usize)> = Vec::new();
    proof {
        assert(reports_view(reports@) =~= Seq::<ReportView>::empty());
        assert(candidates_view(candidates@) =~= Seq::<(int, int)>::empty());
    }
    for j in 0..count
        invariant
            count == screened_count(settings@),
            count <= settings@.len(),
            unique_ids(entries@),
            reports_view(reports@) == screen(settings@, entries@, host, j as int).reports,
            candidates_view(candidates@) == screen(settings@, entries@, host, j as int).candidates,
            well_formed_candidates(settings@, entries@, candidates_view(candidates@)),
            forall|i: int| 0 <= i < candidates_view(candidates@).len() ==> (#[trigger] candidates_view(candidates@)[i]).0 < j,
    {
        proof {
            lemma_screen_step(settings@, entries@, host, j as int);
        }
        let setting = &settings[j];
        let ghost before_reports = reports@;
        let ghost before_candidates = candidates@;
        let mut report: Option<RendererAddonReport> = None;
        if repeats_before(settings, j) {
            report = Some(disabled_report(&setting.id, None, DisabledReason::DuplicateAddon, None));
        } else if setting.validate().is_err() {
            report = Some(disabled_report(&setting.id, None, DisabledReason::InvalidSettings, None));
        } else if !setting.enabled {
            report = Some(disabled_report(&setting.id, None, DisabledReason::DisabledByUser, None));
        } else {
            match find_entry(entries, &setting.id) {
                Some(k) => {
                    if entries[k].supports_host(host) {
                        candidates.push((j, k));
                        proof {
                            assert(candidates_view(candidates@) =~= candidates_view(before_candidates).push((j as int, k as int)));
                        }
                    } else {
                        report = Some(
                            disabled_report(
                                &setting.id,
                                Some(&entries[k].project_revision),
                                DisabledReason::HostAdapterUnsupported,
                                None,
                            ),
                        );
                    }
                },
                None => {
                    report = Some(disabled_report(&setting.id, None, DisabledReason::UnreviewedAddon, None));
                },
            }
        }
        match report {
            Some(r) => {
                let ghost rv = report_view(r);
                reports.push(r);
                proof {
                    assert(reports_view(reports@) =~= reports_view(before_reports).push(rv));
                }
            },
            None => {},
        }
    }
    (reports, candidates)
}

proof fn lemma_loads_before_total(entries: Seq<RendererAddonRevision>, a: int, b: int)
    requires
        entries[a].id@ != entries[b].id@,
    ensures
        loads_before(entries, a, b) || loads_before(entries, b, a),
{
    lemma_text_lt_total(entries[a].id@, entries[b].id@);
}

proof fn lemma_loads_before_transitive(entries: Seq<RendererAddonRevision>, a: int, b: int, c: int)
    requires
        loads_before(entries, a, b),
        loads_before(entries, b, c),
    ensures
        loads_before(entries, a, c),
{
    if entries[a].load_order == entries[b].load_order && entries[b].load_order == entries[c].load_order {
        lemma_text_lt_transitive(entries[a].id@, entries[b].id@, entries[c].id@);
    }
}

proof fn lemma_order_insert(
    settings: Seq<RendererAddonSettings>,
    entries: Seq<RendererAddonRevision>,
    candidates: Seq<(int, int)>,
    m: int,
    order: Seq<(int, int)>,
    position: int,
)
    requires
        0 <= m < candidates.len(),
        well_formed_candidates(settings, entries, candidates),
        is_load_order(entries, candidates.take(m), order),
        0 <= position <= order.len(),
        forall|i: int| 0 <= i < position ==> !loads_before(entries, candidates[m].1, #[trigger] order[i].1),
        position < order.len() ==> loads_before(entries, candidates[m].1, order[position].1),
    ensures
        is_load_order(entries, candidates.take(m + 1), order.insert(position, candidates[m])),
{
    let item = candidates[m];
    let prefix = candidates.take(m);
    let next = candidates.take(m + 1);
    let after = order.insert(position, item);
    assert forall|j: int| 0 <= j < prefix.len() implies #[trigger] prefix[j] == next[j] by {}
    assert(next[m] == item);
    assert forall|i: int| 0 <= i < order.len() implies entries[(#[trigger] order[i]).1].id@ != entries[item.1].id@ by {
        assert(order.contains(order[i]));
        assert(prefix.contains(order[i]));
        let t = choose|t: int| 0 <= t < prefix.len() && prefix[t] == order[i];
        assert(candidates[t] == order[i]);
    }
    assert forall|i: int| 0 <= i < position implies loads_before(entries, (#[trigger] order[i]).1, item.1) by {
        lemma_loads_before_total(entries, order[i].1, item.1);
    }
    assert forall|i: int, j: int| 0 <= i < j < after.len() implies loads_before(entries, after[i].1, after[j].1) by {
        if j < position {
        } else if j == position {
        } else if i < position {
            assert(after[j] == order[j - 1]);
            if j - 1 > position {
                lemma_loads_before_transitive(entries, item.1, order[position].1, order[j - 1].1);
            }
            lemma_loads_before_transitive(entries, order[i].1, item.1, order[j - 1].1);
        } else if i == position {
            assert(after[j] == order[j - 1]);
            if j - 1 > position {
                lemma_loads_before_transitive(entries, item.1, order[position].1, order[j - 1].1);
            }
        } else {
            assert(after[i] == order[i - 1]);
            assert(after[j] == order[j - 1]);
        }
    }
    assert forall|x: (int, int)| next.contains(x) implies after.contains(x) by {
        let t = choose|t: int| 0 <= t < next.len() && next[t] == x;
        if t == m {
            assert(after[position] == x);
        } else {
            assert(prefix[t] == x);
            assert(prefix.contains(x));
            assert(order.contains(x));
            let i = choose|i: int| 0 <= i < order.len() && order[i] == x;
            if i < position {
                assert(after[i] == x);
            } else {
                assert(after[i + 1] == x);
            }
        }
    }
    assert forall|x: (int, int)| after.contains(x) implies next.contains(x) by {
        let i = choose|i: int| 0 <= i < after.len() && after[i] == x;
        if i == position {
            assert(next[m] == x);
        } else {
            let oi = if i < position {
                i
            } else {
                i - 1
            };
            assert(after[i] == order[oi]);
            assert(order.contains(x));
            assert(prefix.contains(x));
            let t = choose|t: int| 0 <= t < prefix.len() && prefix[t] == x;
            assert(next[t] == x);
        }
    }
}

fn load_precedes(entries: &Vec<RendererAddonRevision>, a: usize, b: usize) -> (result: bool)
    requires
        a < entries@.len(),
        b < entries@.len(),
    ensures
        result == loads_before(entries@, a as int, b as int),
{
    let left = &entries[a];
    let right = &entries[b];
    if left.load_order != right.load_order {
        return left.load_order < right.load_order;
    }
    let l = chars_of(left.id.as_str());
    let r = chars_of(right.id.as_str());
    text_less(l.as_slice(), r.as_slice())
}

/// The candidates sorted into load order.
fn order_candidates(
    settings: &[RendererAddonSettings],
    entries: &Vec<RendererAddonRevision>,
    candidates: &Vec<(usize, usize)>,
) -> (result: Vec<(usize, usize)>)
    requires
        well_formed_candidates(settings@, entries@, candidates_view(candidates@)),
    ensures
        is_load_order(entries@, candidates_view(candidates@), candidates_view(result@)),
        well_formed_candidates(settings@, entries@, candidates_view(result@)),
{
    let ghost all = candidates_view(candidates@);
    let mut order: Vec<(usize, usize)> = Vec::new();
    proof {
        assert(all.take(0) =~= Seq::<(int, int)>::empty());
        assert(candidates_view(order@) =~= Seq::<(int, int)>::empty());
    }
    for m in 0..candidates.len()
        invariant
            all == candidates_view(candidates@),
            well_formed_candidates(settings@, entries@, all),
            is_load_order(entries@, all.take(m as int), candidates_view(order@)),
            forall|i: int| 0 <= i < order@.len() ==> (#[trigger] order@[i]).1 < entries@.len(),
    {
        let item = candidates[m];
        proof {
            assert(all[m as int] == (item.0 as int, item.1 as int));
        }
        let mut position: usize = 0;
        while position < order.len() && !load_precedes(entries, item.1, order[position].1)
            invariant
                position <= order@.len(),
                item.1 < entries@.len(),
                forall|i: int| 0 <= i < order@.len() ==> (#[trigger] order@[i]).1 < entries@.len(),
                forall|i: int| 0 <= i < position ==> !loads_before(entries@, item.1 as int, (#[trigger] order@[i]).1 as int),
            decreases order@.len() - position,
        {
            position += 1;
        }
        let ghost before = order@;
        proof {
            let view = candidates_view(before);
            assert forall|i: int| 0 <= i < position implies !loads_before(entries@, all[m as int].1, #[trigger] view[i].1) by {
                assert(view[i].1 == before[i].1 as int);
            }
            lemma_order_insert(settings@, entries@, all, m as int, view, position as int);
        }
        order.insert(position, item);
        proof {
            assert(candidates_view(order@) =~= candidates_view(before).insert(position as int, all[m as int]));
        }
    }
    proof {
        assert(all.take(all.len() as int) =~= all);
        let result = candidates_view(order@);
        assert forall|i: int, j: int| 0 <= i < j < result.len() implies entries@[result[i].1].id@ != entries@[result[j].1].id@ by {
            lemma_text_lt_irreflexive(entries@[result[i].1].id@);
            assert(result.contains(result[i]));
            assert(result.contains(result[j]));
            let ti = choose|t: int| 0 <= t < all.len() && all[t] == result[i];
            let tj = choose|t: int| 0 <= t < all.len() && all[t] == result[j];
            assert(loads_before(entries@, result[i].1, result[j].1));
            if ti == tj {
                assert(result[i] == result[j]);
            } else if ti < tj {
                assert(entries@[all[ti].1].id@ != entries@[all[tj].1].id@);
            } else {
                assert(entries@[all[tj].1].id@ != entries@[all[ti].1].id@);
            }
        }
        assert forall|i: int| 0 <= i < result.len() implies {
            let c = #[trigger] result[i];
            &&& 0 <= c.0 < settings@.len()
            &&& 0 <= c.1 < entries@.len()
            &&& entries@[c.1].id@ == settings@[c.0].id@
        } by {
            assert(result.contains(result[i]));
            assert(all.contains(result[i]));
        }
    }
    order
}

proof fn lemma_substitutions_error_none(values: Seq<RendererAddonSubstitution>)
    requires
        substitutions_error(values) is None,
    ensures
        forall|i: int| 0 <= i < values.len() ==> substitution_error(&#[trigger] values[i]) is None,
    decreases values.len(),
{
    if values.len() > 0 {
        lemma_substitutions_error_none(values.drop_last());
        assert forall|i: int| 0 <= i < values.len() implies substitution_error(&#[trigger] values[i]) is None by {
            if i < values.len() - 1 {
                assert(values[i] == values.drop_last()[i]);
            }
        }
    }
}

proof fn lemma_revision_assets_bounded(revision: RendererAddonRevision)
    requires
        revision_error(&revision) is None,
    ensures
        forall|i: int| 0 <= i < revision.substitutions@.len() ==> (#[trigger] revision.substitutions@[i]).asset.max_bytes
            <= MAX_ASSET_BYTES,
{
    lemma_substitutions_error_none(revision.substitutions@);
}

/// A script to inject: the addon's id and revision, its assembled script, and its
/// lifecycle.
#[derive(Debug, Clone, PartialEq, Eq)]
pub struct PreparedRendererAddon {
    pub id: String,
    pub project_revision: String,
    pub script: String,
    pub state_key: String,
    pub dispose_method: String,
}

pub open spec fn prepared_view(addon: PreparedRendererAddon) -> PreparedView {
    PreparedView {
        id: addon.id@,
        project_revision: addon.project_revision@,
        script: addon.script@,
        state_key: addon.state_key@,
        dispose_method: addon.dispose_method@,
    }
}

pub open spec fn scripts_view(scripts: Seq<PreparedRendererAddon>) -> Seq<PreparedView> {
    scripts.map_values(|addon: PreparedRendererAddon| prepared_view(addon))
}

pub open spec fn active_view(active: Seq<usize>) -> Seq<int> {
    active.map_values(|k: usize| k as int)
}

pub open spec fn occupied_view(occupied: Seq<(Vec<char>, Vec<char>)>) -> Seq<(Seq<char>, Seq<char>)> {
    occupied.map_values(|pair: (Vec<char>, Vec<char>)| (pair.0@, pair.1@))
}

#[derive(Debug, Clone, PartialEq, Eq)]
struct Activating {
    active: Vec<usize>,
    occupied: Vec<(Vec<char>, Vec<char>)>,
    reports: Vec<RendererAddonReport>,
    scripts: Vec<PreparedRendererAddon>,
}

spec fn activating_view(state: Activating) -> Activation {
    Activation {
        active: active_view(state.active@),
        occupied: occupied_view(state.occupied@),
        reports: reports_view(state.reports@),
        scripts: scripts_view(state.scripts@),
    }
}

fn revisions_conflict(a: &RendererAddonRevision, b: &RendererAddonRevision) -> (result: bool)
    ensures
        result == in_conflict(*a, *b),
{
    contains_text_before(&a.conflicts_with, a.conflicts_with.len(), &b.id) || contains_text_before(
        &b.conflicts_with,
        b.conflicts_with.len(),
        &a.id,
    )
}

fn conflicting_active(entries: &Vec<RendererAddonRevision>, candidate: usize, active: &Vec<usize>) -> (result: Option<usize>)
    requires
        candidate < entries@.len(),
        forall|i: int| 0 <= i < active@.len() ==> (#[trigger] active@[i]) < entries@.len(),
    ensures
        match result {
            Some(k) => k < entries@.len() && conflict_blocker(entries@, candidate as int, active_view(active@)) == Some(
                entries@[k as int].id@,
            ),
            None => conflict_blocker(entries@, candidate as int, active_view(active@)) is None,
        },
{
    let ghost all = active_view(active@);
    proof {
        assert(all.skip(0) =~= all);
    }
    for i in 0..active.len()
        invariant
            candidate < entries@.len(),
            all == active_view(active@),
            forall|t: int| 0 <= t < active@.len() ==> (#[trigger] active@[t]) < entries@.len(),
            conflict_blocker(entries@, candidate as int, all) == conflict_blocker(entries@, candidate as int, all.skip(i as int)),
    {
        proof {
            assert(all.skip(i as int).drop_first() =~= all.skip(i + 1));
            assert(all.skip(i as int)[0] == active@[i as int] as int);
        }
        if revisions_conflict(&entries[candidate], &entries[active[i]]) {
            return Some(active[i]);
        }
    }
    proof {
        assert(all.skip(all.len() as int) =~= Seq::<int>::empty());
    }
    None
}

fn slot_holder(occupied: &Vec<(Vec<char>, Vec<char>)>, slot: &Vec<char>) -> (result: Option<usize>)
    ensures
        match result {
            Some(i) => i < occupied@.len() && slot_owner(occupied_view(occupied@), slot@) == Some(occupied@[i as int].1@),
            None => slot_owner(occupied_view(occupied@), slot@) is None,
        },
{
    let ghost all = occupied_view(occupied@);
    proof {
        assert(all.skip(0) =~= all);
    }
    for i in 0..occupied.len()
        invariant
            all == occupied_view(occupied@),
            slot_owner(all, slot@) == slot_owner(all.skip(i as int), slot@),
    {
        proof {
            assert(all.skip(i as int).drop_first() =~= all.skip(i + 1));
            assert(all.skip(i as int)[0] == (occupied@[i as int].0@, occupied@[i as int].1@));
        }
        if chars_equal(occupied[i].0.as_slice(), slot.as_slice()) {
            return Some(i);
        }
    }
    proof {
        assert(all.skip(all.len() as int) =~= Seq::<(Seq<char>, Seq<char>)>::empty());
    }
    None
}

fn blocking_slot(slots: &Vec<String>, occupied: &Vec<(Vec<char>, Vec<char>)>) -> (result: Option<usize>)
    ensures
        match result {
            Some(i) => i < occupied@.len() && slot_blocker(slots@, occupied_view(occupied@)) == Some(occupied@[i as int].1@),
            None => slot_blocker(slots@, occupied_view(occupied@)) is None,
        },
{
    proof {
        assert(slots@.skip(0) =~= slots@);
    }
    for i in 0..slots.len()
        invariant
            slot_blocker(slots@, occupied_view(occupied@)) == slot_blocker(slots@.skip(i as int), occupied_view(occupied@)),
    {
        proof {
            assert(slots@.skip(i as int).drop_first() =~= slots@.skip(i + 1));
            assert(slots@.skip(i as int)[0] == slots@[i as int]);
        }
        let slot = chars_of(slots[i].as_str());
        match slot_holder(occupied, &slot) {
            Some(holder) => {
                return Some(holder);
            },
            None => {},
        }
    }
    proof {
        assert(slots@.skip(slots@.len() as int) =~= Seq::<String>::empty());
    }
    None
}

fn find_reads(reads: &[RendererAddonSourceReads], id: &String) -> (result: Option<usize>)
    ensures
        match result {
            Some(r) => reads_for(reads@, id@) == Some(r as int),
            None => reads_for(reads@, id@) is None,
        },
{
    for r in 0..reads.len()
        invariant
            forall|i: int| 0 <= i < r ==> reads@[i].id@ != id@,
    {
        if text_eq(&reads[r].id, id) {
            proof {
                assert(reads@[r as int].id@ == id@);
                let c = choose|c: int| 0 <= c < reads@.len() && #[trigger] reads@[c].id@ == id@ && forall|i: int| 0 <= i < c ==> reads@[i].id@ != id@;
                if c < r {
                    assert(reads@[c].id@ != id@);
                } else if c > r {
                    assert(reads@[r as int].id@ != id@);
                }
            }
            return Some(r);
        }
    }
    None
}

fn prepared_addon(id: &String, revision: &RendererAddonRevision, script: String) -> (result: PreparedRendererAddon)
    ensures
        prepared_view(result) == (PreparedView {
            id: id@,
            project_revision: revision.project_revision@,
            script: script@,
            state_key: revision.lifecycle.state_key@,
            dispose_method: revision.lifecycle.dispose_method@,
        }),
{
    PreparedRendererAddon {
        id: copy_text(id),
        project_revision: copy_text(&revision.project_revision),
        script,
        state_key: copy_text(&revision.lifecycle.state_key),
        dispose_method: copy_text(&revision.lifecycle.dispose_method),
    }
}

fn enabled_report(id: &String, revision: &String) -> (result: RendererAddonReport)
    ensures
        report_view(result) == enabled_view(id@, revision@),
{
    RendererAddonReport {
        id: copy_text(id),
        state: RendererAddonState::Enabled,
        project_revision: Some(copy_text(revision)),
        reason: None,
        blocked_by: None,
    }
}

fn load_reason_of(error: AddonLoadError) -> (result: DisabledReason)
    ensures
        result == load_reason(error),
{
    match error {
        AddonLoadError::SourceUnavailable => DisabledReason::SourceUnavailable,
        AddonLoadError::SourceIdentityMismatch => DisabledReason::SourceIdentityMismatch,
        AddonLoadError::InvalidEntrypoint => DisabledReason::InvalidEntrypoint,
        AddonLoadError::InvalidSubstitution => DisabledReason::InvalidSubstitution,
    }
}

impl Activating {
    fn push_report(&mut self, report: RendererAddonReport)
        ensures
            final(self).active == old(self).active,
            final(self).occupied == old(self).occupied,
            final(self).scripts == old(self).scripts,
            reports_view(final(self).reports@) == reports_view(old(self).reports@).push(report_view(report)),
    {
        let ghost before = self.reports@;
        self.reports.push(report);
        proof {
            assert(reports_view(self.reports@) =~= reports_view(before).push(report_view(report)));
        }
    }

    fn claim_slots(&mut self, revision: &RendererAddonRevision)
        ensures
            final(self).active == old(self).active,
            final(self).reports == old(self).reports,
            final(self).scripts == old(self).scripts,
            occupied_view(final(self).occupied@) == occupied_view(old(self).occupied@) + slot_claims(*revision),
    {
        let ghost start = occupied_view(self.occupied@);
        let slots = &revision.exclusive_slots;
        let ghost claims = slot_claims(*revision);
        proof {
            assert(claims.take(0) =~= Seq::<(Seq<char>, Seq<char>)>::empty());
            assert(start + claims.take(0) =~= start);
        }
        for i in 0..slots.len()
            invariant
                slots == &revision.exclusive_slots,
                claims == slot_claims(*revision),
                occupied_view(self.occupied@) == start + claims.take(i as int),
                self.active == old(self).active,
                self.reports == old(self).reports,
                self.scripts == old(self).scripts,
        {
            let ghost before = self.occupied@;
            let slot = chars_of(slots[i].as_str());
            let owner = chars_of(revision.id.as_str());
            self.occupied.push((slot, owner));
            proof {
                assert(claims[i as int] == (slots@[i as int]@, revision.id@));
                assert(occupied_view(self.occupied@) =~= occupied_view(before).push((slot@, owner@)));
                assert(start + claims.take(i + 1) =~= (start + claims.take(i as int)).push(claims[i as int]));
            }
        }
        proof {
            assert(claims.take(claims.len() as int) =~= claims);
        }
    }
}

fn activate_one(
    state: &mut Activating,
    settings: &[RendererAddonSettings],
    entries: &Vec<RendererAddonRevision>,
    reads: &[RendererAddonSourceReads],
    candidate: (usize, usize),
)
    requires
        candidate.0 < settings@.len(),
        candidate.1 < entries@.len(),
        is_reviewed_policy(entries@),
        forall|i: int| 0 <= i < old(state).active@.len() ==> (#[trigger] old(state).active@[i]) < entries@.len(),
    ensures
        activating_view(*final(state)) == activation_step(
            activating_view(*old(state)),
            settings@,
            entries@,
            reads@,
            (candidate.0 as int, candidate.1 as int),
        ),
        forall|i: int| 0 <= i < final(state).active@.len() ==> (#[trigger] final(state).active@[i]) < entries@.len(),
{
    let ghost start = activating_view(*state);
    let id = &settings[candidate.0].id;
    let revision = &entries[candidate.1];
    if let Some(blocker) = conflicting_active(entries, candidate.1, &state.active) {
        let report = disabled_report(id, Some(&revision.project_revision), DisabledReason::AddonConflict, Some(&entries[blocker].id));
        state.push_report(report);
        return;
    }
    if let Some(holder) = blocking_slot(&revision.exclusive_slots, &state.occupied) {
        let owner = string_from_chars(state.occupied[holder].1.as_slice());
        let report = disabled_report(id, Some(&revision.project_revision), DisabledReason::ExclusiveSlotConflict, Some(&owner));
        state.push_report(report);
        return;
    }
    proof {
        assert(revision_error(&entries@[candidate.1 as int]) is None);
        lemma_revision_assets_bounded(*revision);
    }
    let loaded = match find_reads(reads, id) {
        Some(r) => load_addon_script(revision, &reads[r]),
        None => Err(AddonLoadError::SourceUnavailable),
    };
    match loaded {
        Ok(script) => {
            let prepared = prepared_addon(id, revision, script);
            let report = enabled_report(id, &revision.project_revision);
            state.claim_slots(revision);
            let ghost before_active = state.active@;
            state.active.push(candidate.1);
            proof {
                assert(active_view(state.active@) =~= active_view(before_active).push(candidate.1 as int));
            }
            state.push_report(report);
            let ghost before_scripts = state.scripts@;
            state.scripts.push(prepared);
            proof {
                assert(scripts_view(state.scripts@) =~= scripts_view(before_scripts).push(prepared_view(prepared)));
            }
        },
        Err(e) => {
            let report = disabled_report(id, Some(&revision.project_revision), load_reason_of(e), None);
            state.push_report(report);
        },
    }
}

/// The scripts to inject and a report for every addon.
#[derive(Debug, Clone, PartialEq, Eq)]
pub struct RendererAddonBundle {
    scripts: Vec<PreparedRendererAddon>,
    reports: Vec<RendererAddonReport>,
}

impl View for RendererAddonBundle {
    type V = BundleView;

    closed spec fn view(&self) -> BundleView {
        BundleView { reports: reports_view(self.reports@), scripts: scripts_view(self.scripts@) }
    }
}

/// The runtime descriptor of an injected addon, as JSON.
pub open spec fn descriptor_text(addon: PreparedView) -> Seq<char> {
    "{\"id\":"@ + json_string_literal(addon.id) + ",\"revision\":"@ + json_string_literal(addon.project_revision)
        + ",\"stateKey\":"@ + json_string_literal(addon.state_key) + ",\"disposeMethod\":"@ + json_string_literal(
        addon.dispose_method,
    ) + "}"@
}

/// The text that applies one addon through the runtime.
pub open spec fn addon_block(addon: PreparedView) -> Seq<char> {
    "\n/* Codex Administrator renderer addon: "@ + addon.id + " */\nglobalThis.__codexAdministratorRendererAddons.apply("@
        + descriptor_text(addon) + ", () => {\n"@ + addon.script + "\n});\n"@
}

/// The primary script, the addon runtime, then every addon block in order.
pub open spec fn composed_text(primary: Seq<char>, runtime: Seq<char>, scripts: Seq<PreparedView>) -> Seq<char>
    decreases scripts.len(),
{
    if scripts.len() == 0 {
        primary + "\n/* Codex Administrator renderer addon runtime */\n"@ + runtime + "\n"@
    } else {
        composed_text(primary, runtime, scripts.drop_last()) + addon_block(scripts.last())
    }
}

fn append_text(target: &mut String, text: &str)
    ensures
        final(target)@ == old(target)@ + text@,
{
    let chars = chars_of(text);
    push_chars(target, chars.as_slice());
}

fn quoted(text: &String) -> (result: String)
    ensures
        result@ == json_string_literal(text@),
{
    match json_quote(text.as_str()) {
        Ok(q) => q,
        Err(_) => String::new(),
    }
}

fn append_addon_block(composed: &mut String, addon: &PreparedRendererAddon)
    ensures
        final(composed)@ == old(composed)@ + addon_block(prepared_view(*addon)),
{
    let ghost before = composed@;
    append_text(composed, "\n/* Codex Administrator renderer addon: ");
    append_text(composed, addon.id.as_str());
    append_text(composed, " */\nglobalThis.__codexAdministratorRendererAddons.apply(");
    append_text(composed, "{\"id\":");
    append_text(composed, quoted(&addon.id).as_str());
    append_text(composed, ",\"revision\":");
    append_text(composed, quoted(&addon.project_revision).as_str());
    append_text(composed, ",\"stateKey\":");
    append_text(composed, quoted(&addon.state_key).as_str());
    append_text(composed, ",\"disposeMethod\":");
    append_text(composed, quoted(&addon.dispose_method).as_str());
    append_text(composed, "}");
    append_text(composed, ", () => {\n");
    append_text(composed, addon.script.as_str());
    append_text(composed, "\n});\n");
    proof {
        assert(composed@ =~= before + addon_block(prepared_view(*addon)));
    }
}

impl RendererAddonBundle {
    /// A report for every addon, in the order they were decided.
    pub fn reports(&self) -> (result: &[RendererAddonReport])
        ensures
            reports_view(result@) == self@.reports,
    {
        self.reports.as_slice()
    }

    /// The scripts to inject, in load order.
    pub fn scripts(&self) -> (result: &[PreparedRendererAddon])
        ensures
            scripts_view(result@) == self@.scripts,
    {
        self.scripts.as_slice()
    }

    /// The primary script followed by the addon runtime and each addon applied through it.
    pub fn compose(&self, primary: &str, runtime: &str) -> (result: String)
        ensures
            result@ == composed_text(primary@, runtime@, self@.scripts),
    {
        let mut composed = String::new();
        append_text(&mut composed, primary);
        append_text(&mut composed, "\n/* Codex Administrator renderer addon runtime */\n");
        append_text(&mut composed, runtime);
        append_text(&mut composed, "\n");
        let ghost all = scripts_view(self.scripts@);
        proof {
            assert(all.take(0) =~= Seq::<PreparedView>::empty());
            assert(composed@ =~= composed_text(primary@, runtime@, all.take(0)));
        }
        for i in 0..self.scripts.len()
            invariant
                all == scripts_view(self.scripts@),
                composed@ == composed_text(primary@, runtime@, all.take(i as int)),
        {
            let addon = &self.scripts[i];
            proof {
                assert(all[i as int] == prepared_view(*addon));
                assert(all.take(i + 1).drop_last() =~= all.take(i as int));
            }
            append_addon_block(&mut composed, addon);
        }
        proof {
            assert(all.take(all.len() as int) =~= all);
        }
        composed
    }
}

/// Decides which addons to inject: screens the settings, orders the candidates, and
/// activates them with what was read from their checkouts.
pub fn prepare_renderer_addons(
    settings: &[RendererAddonSettings],
    policy: &RendererAddonPolicy,
    host: HostAdapterKind,
    reads: &[RendererAddonSourceReads],
) -> (result: RendererAddonBundle)
    ensures
        exists|order: Seq<(int, int)>|
            is_load_order(
                policy.entries(),
                screen(settings@, policy.entries(), host, screened_count(settings@)).candidates,
                order,
            ) && result@ == prepared_bundle(settings@, policy.entries(), host, reads@, order),
{
    proof {
        use_type_invariant(policy);
    }
    let entries = &policy.entries;
    let (mut reports, candidates) = screen_settings(settings, entries, host);
    if settings.len() > MAX_ADDONS {
        let id = String::from_str("additional-addons");
        proof {
            reveal_strlit("additional-addons");
            assert(id@ =~= additional_addons_id());
        }
        let ghost before = reports@;
        let report = disabled_report(&id, None, DisabledReason::TooManyAddons, None);
        reports.push(report);
        proof {
            assert(reports_view(reports@) =~= reports_view(before).push(report_view(report)));
        }
    }
    let ghost screened = screen(settings@, entries@, host, screened_count(settings@));
    let ghost initial_reports = screened.reports + if settings@.len() > MAX_ADDONS {
        seq![disabled_view(additional_addons_id(), None, DisabledReason::TooManyAddons, None)]
    } else {
        Seq::empty()
    };
    proof {
        assert(reports_view(reports@) =~= initial_reports);
    }
    let order = order_candidates(settings, entries, &candidates);
    let ghost order_view = candidates_view(order@);
    let mut state = Activating { active: Vec::new(), occupied: Vec::new(), reports, scripts: Vec::new() };
    let ghost initial = activating_view(state);
    proof {
        assert(active_view(state.active@) =~= Seq::<int>::empty());
        assert(occupied_view(state.occupied@) =~= Seq::<(Seq<char>, Seq<char>)>::empty());
        assert(scripts_view(state.scripts@) =~= Seq::<PreparedView>::empty());
        assert(initial == Activation {
            active: Seq::empty(),
            occupied: Seq::empty(),
            reports: initial_reports,
            scripts: Seq::empty(),
        });
    }
    for t in 0..order.len()
        invariant
            order_view == candidates_view(order@),
            well_formed_candidates(settings@, entries@, order_view),
            is_reviewed_policy(entries@),
            forall|i: int| 0 <= i < state.active@.len() ==> (#[trigger] state.active@[i]) < entries@.len(),
            activating_view(state) == activate(initial, settings@, entries@, reads@, order_view, t as int),
    {
        let candidate = order[t];
        proof {
            assert(order_view[t as int] == (candidate.0 as int, candidate.1 as int));
        }
        activate_one(&mut state, settings, entries, reads, candidate);
    }
    let bundle = RendererAddonBundle { scripts: state.scripts, reports: state.reports };
    proof {
        let done = activate(initial, settings@, entries@, reads@, order_view, order_view.len() as int);
        assert(bundle@ == BundleView { reports: done.reports, scripts: done.scripts });
        assert(bundle@ == prepared_bundle(settings@, entries@, host, reads@, order_view));
        assert(policy.entries() == entries@);
        assert(is_load_order(
            policy.entries(),
            screen(settings@, policy.entries(), host, screened_count(settings@)).candidates,
            order_view,
        ));
    }
    bundle
}


proof fn lemma_no_conflict_blocker(entries: Seq<RendererAddonRevision>, candidate: int, active: Seq<int>)
    requires
        conflict_blocker(entries, candidate, active) is None,
    ensures
        forall|k: int| 0 <= k < active.len() ==> !in_conflict(entries[candidate], entries[#[trigger] active[k]]),
    decreases active.len(),
{
    if active.len() > 0 {
        lemma_no_conflict_blocker(entries, candidate, active.drop_first());
        assert forall|k: int| 0 <= k < active.len() implies !in_conflict(entries[candidate], entries[#[trigger] active[k]]) by {
            if k > 0 {
                assert(active.drop_first()[k - 1] == active[k]);
            }
        }
    }
}

proof fn lemma_no_slot_owner(occupied: Seq<(Seq<char>, Seq<char>)>, slot: Seq<char>)
    requires
        slot_owner(occupied, slot) is None,
    ensures
        forall|m: int| 0 <= m < occupied.len() ==> (#[trigger] occupied[m]).0 != slot,
    decreases occupied.len(),
{
    if occupied.len() > 0 {
        lemma_no_slot_owner(occupied.drop_first(), slot);
        assert forall|m: int| 0 <= m < occupied.len() implies (#[trigger] occupied[m]).0 != slot by {
            if m > 0 {
                assert(occupied.drop_first()[m - 1] == occupied[m]);
            }
        }
    }
}

proof fn lemma_no_slot_blocker(slots: Seq<String>, occupied: Seq<(Seq<char>, Seq<char>)>)
    requires
        slot_blocker(slots, occupied) is None,
    ensures
        forall|a: int, m: int| 0 <= a < slots.len() && 0 <= m < occupied.len() ==> (#[trigger] occupied[m]).0 != (
        #[trigger] slots[a])@,
    decreases slots.len(),
{
    if slots.len() > 0 {
        lemma_no_slot_owner(occupied, slots[0]@);
        lemma_no_slot_blocker(slots.drop_first(), occupied);
        assert forall|a: int, m: int| 0 <= a < slots.len() && 0 <= m < occupied.len() implies (
        #[trigger] occupied[m]).0 != (#[trigger] slots[a])@ by {
            if a > 0 {
                assert(slots.drop_first()[a - 1] == slots[a]);
            }
        }
    }
}

/// The revisions an activation has enabled are compatible: no two are in conflict, and no
/// exclusive slot is claimed by two of them.
pub open spec fn compatible_active(entries: Seq<RendererAddonRevision>, active: Seq<int>) -> bool {
    &&& forall|i: int, j: int| 0 <= i < j < active.len() ==> !in_conflict(entries[#[trigger] active[i]], entries[#[trigger] active[j]])
    &&& forall|i: int, j: int, a: int, b: int|
        0 <= i < j < active.len() && 0 <= a < entries[active[i]].exclusive_slots@.len() && 0 <= b
            < entries[active[j]].exclusive_slots@.len() ==> (#[trigger] entries[active[i]].exclusive_slots@[a])@ != (
        #[trigger] entries[active[j]].exclusive_slots@[b])@
}

/// Every exclusive slot of an enabled revision is recorded as occupied.
pub open spec fn slots_recorded(entries: Seq<RendererAddonRevision>, active: Seq<int>, occupied: Seq<(Seq<char>, Seq<char>)>) -> bool {
    forall|i: int, a: int|
        0 <= i < active.len() && 0 <= a < entries[active[i]].exclusive_slots@.len() ==> slot_held(
            occupied,
            (#[trigger] entries[active[i]].exclusive_slots@[a])@,
        )
}

/// Some occupied entry holds `slot`.
pub open spec fn slot_held(occupied: Seq<(Seq<char>, Seq<char>)>, slot: Seq<char>) -> bool {
    exists|m: int| 0 <= m < occupied.len() && (#[trigger] occupied[m]).0 == slot
}

/// Activating addons in any order enables only compatible revisions: starting with none
/// enabled and no slot occupied, no two enabled revisions are in conflict (neither lists
/// the other in `conflicts_with`) and no exclusive slot is claimed twice.
pub proof fn lemma_activation_compatible(
    settings: Seq<RendererAddonSettings>,
    entries: Seq<RendererAddonRevision>,
    reads: Seq<RendererAddonSourceReads>,
    order: Seq<(int, int)>,
    reports: Seq<ReportView>,
    count: int,
)
    requires
        0 <= count <= order.len(),
        forall|k: int| 0 <= k < order.len() ==> 0 <= (#[trigger] order[k]).1 < entries.len(),
    ensures
        compatible_active(
            entries,
            activate(
                Activation { active: Seq::empty(), occupied: Seq::empty(), reports, scripts: Seq::empty() },
                settings,
                entries,
                reads,
                order,
                count,
            ).active,
        ),
        slots_recorded(
            entries,
            activate(
                Activation { active: Seq::empty(), occupied: Seq::empty(), reports, scripts: Seq::empty() },
                settings,
                entries,
                reads,
                order,
                count,
            ).active,
            activate(
                Activation { active: Seq::empty(), occupied: Seq::empty(), reports, scripts: Seq::empty() },
                settings,
                entries,
                reads,
                order,
                count,
            ).occupied,
        ),
    decreases count,
{
    let start = Activation { active: Seq::empty(), occupied: Seq::empty(), reports, scripts: Seq::empty() };
    if count > 0 {
        lemma_activation_compatible(settings, entries, reads, order, reports, count - 1);
        let before = activate(start, settings, entries, reads, order, count - 1);
        let candidate = order[count - 1];
        let revision = entries[candidate.1];
        let after = activate(start, settings, entries, reads, order, count);
        assert(after == activation_step(before, settings, entries, reads, candidate));
        if after.active.len() > before.active.len() {
            assert(conflict_blocker(entries, candidate.1, before.active) is None);
            assert(slot_blocker(revision.exclusive_slots@, before.occupied) is None);
            lemma_no_conflict_blocker(entries, candidate.1, before.active);
            lemma_no_slot_blocker(revision.exclusive_slots@, before.occupied);
            assert(after.active == before.active.push(candidate.1));
            assert(after.occupied == before.occupied + slot_claims(revision));
            let n = before.active.len() as int;
            assert forall|i: int, j: int| 0 <= i < j < after.active.len() implies !in_conflict(
                entries[#[trigger] after.active[i]],
                entries[#[trigger] after.active[j]],
            ) by {
                assert(after.active[i] == before.active[i]);
                if j == n {
                    assert(!in_conflict(entries[candidate.1], entries[before.active[i]]));
                } else {
                    assert(after.active[j] == before.active[j]);
                }
            }
            assert forall|i: int, j: int, a: int, b: int|
                0 <= i < j < after.active.len() && 0 <= a < entries[after.active[i]].exclusive_slots@.len() && 0 <= b
                    < entries[after.active[j]].exclusive_slots@.len() implies (
            #[trigger] entries[after.active[i]].exclusive_slots@[a])@ != (
            #[trigger] entries[after.active[j]].exclusive_slots@[b])@ by {
                assert(after.active[i] == before.active[i]);
                if j == n {
                    assert(slot_held(before.occupied, entries[before.active[i]].exclusive_slots@[a]@));
                    let m = choose|m: int|
                        0 <= m < before.occupied.len() && (#[trigger] before.occupied[m]).0
                            == entries[before.active[i]].exclusive_slots@[a]@;
                    assert(before.occupied[m].0 != revision.exclusive_slots@[b]@);
                } else {
                    assert(after.active[j] == before.active[j]);
                }
            }
            assert forall|i: int, a: int|
                0 <= i < after.active.len() && 0 <= a < entries[after.active[i]].exclusive_slots@.len() implies slot_held(
                after.occupied,
                (#[trigger] entries[after.active[i]].exclusive_slots@[a])@,
            ) by {
                if i < n {
                    assert(after.active[i] == before.active[i]);
                    assert(slot_held(before.occupied, entries[before.active[i]].exclusive_slots@[a]@));
                    let m = choose|m: int|
                        0 <= m < before.occupied.len() && (#[trigger] before.occupied[m]).0
                            == entries[before.active[i]].exclusive_slots@[a]@;
                    assert(after.occupied[m] == before.occupied[m]);
                } else {
                    let m = before.occupied.len() + a;
                    assert(after.active[i] == candidate.1);
                    assert(slot_claims(revision)[a] == (revision.exclusive_slots@[a]@, revision.id@));
                    assert(after.occupied[m] == slot_claims(revision)[a]);
                    assert(0 <= m < after.occupied.len() && after.occupied[m].0 == entries[after.active[i]].exclusive_slots@[a]@);
                }
            }
            assert(slots_recorded(entries, after.active, after.occupied));
        } else {
            assert(after.active == before.active);
            assert(after.occupied == before.occupied);
            assert forall|i: int, a: int|
                0 <= i < after.active.len() && 0 <= a < entries[after.active[i]].exclusive_slots@.len() implies slot_held(
                after.occupied,
                (#[trigger] entries[after.active[i]].exclusive_slots@[a])@,
            ) by {
                assert(slot_held(before.occupied, entries[before.active[i]].exclusive_slots@[a]@));
            }
            assert(slots_recorded(entries, after.active, after.occupied));
        }
    }
}


/// One of the first `count` candidates of `order` has revision `revision`.
pub open spec fn in_order(order: Seq<(int, int)>, count: int, revision: int) -> bool {
    exists|p: int| 0 <= p < count && (#[trigger] order[p]).1 == revision
}

/// The enabled revisions load one after the other, each came from `order`, and each script
/// carries the id of its revision.
pub open spec fn activation_ordered(
    settings: Seq<RendererAddonSettings>,
    entries: Seq<RendererAddonRevision>,
    order: Seq<(int, int)>,
    count: int,
    state: Activation,
) -> bool {
    &&& state.scripts.len() == state.active.len()
    &&& forall|a: int, b: int| 0 <= a < b < state.active.len() ==> loads_before(entries, #[trigger] state.active[a], #[trigger] state.active[b])
    &&& forall|k: int| 0 <= k < state.active.len() ==> in_order(order, count, #[trigger] state.active[k])
    &&& forall|k: int| 0 <= k < state.active.len() ==> (#[trigger] state.scripts[k]).id == entries[state.active[k]].id@
}

proof fn lemma_activation_ordered(
    settings: Seq<RendererAddonSettings>,
    entries: Seq<RendererAddonRevision>,
    reads: Seq<RendererAddonSourceReads>,
    order: Seq<(int, int)>,
    reports: Seq<ReportView>,
    count: int,
)
    requires
        0 <= count <= order.len(),
        forall|k: int| 0 <= k < order.len() ==> 0 <= (#[trigger] order[k]).0 < settings.len() && 0 <= order[k].1 < entries.len()
            && entries[order[k].1].id@ == settings[order[k].0].id@,
        forall|i: int, j: int| 0 <= i < j < order.len() ==> loads_before(entries, order[i].1, order[j].1),
    ensures
        activation_ordered(
            settings,
            entries,
            order,
            count,
            activate(
                Activation { active: Seq::empty(), occupied: Seq::empty(), reports, scripts: Seq::empty() },
                settings,
                entries,
                reads,
                order,
                count,
            ),
        ),
    decreases count,
{
    let start = Activation { active: Seq::empty(), occupied: Seq::empty(), reports, scripts: Seq::empty() };
    if count > 0 {
        lemma_activation_ordered(settings, entries, reads, order, reports, count - 1);
        let before = activate(start, settings, entries, reads, order, count - 1);
        let candidate = order[count - 1];
        let after = activate(start, settings, entries, reads, order, count);
        assert(after == activation_step(before, settings, entries, reads, candidate));
        let n = before.active.len() as int;
        if after.active.len() > before.active.len() {
            assert(after.active == before.active.push(candidate.1));
            assert(after.scripts.len() == before.scripts.len() + 1);
            assert(after.scripts[n].id == settings[candidate.0].id@);
            assert forall|a: int, b: int| 0 <= a < b < after.active.len() implies loads_before(
                entries,
                #[trigger] after.active[a],
                #[trigger] after.active[b],
            ) by {
                assert(after.active[a] == before.active[a]);
                if b == n {
                    assert(in_order(order, count - 1, before.active[a]));
                    let p = choose|p: int| 0 <= p < count - 1 && (#[trigger] order[p]).1 == before.active[a];
                    assert(loads_before(entries, order[p].1, order[count - 1].1));
                } else {
                    assert(after.active[b] == before.active[b]);
                }
            }
            assert forall|k: int| 0 <= k < after.active.len() implies in_order(order, count, #[trigger] after.active[k]) by {
                if k < n {
                    assert(after.active[k] == before.active[k]);
                    assert(in_order(order, count - 1, before.active[k]));
                    let p = choose|p: int| 0 <= p < count - 1 && (#[trigger] order[p]).1 == before.active[k];
                    assert(order[p].1 == after.active[k]);
                } else {
                    assert(order[count - 1].1 == after.active[k]);
                }
            }
            assert forall|k: int| 0 <= k < after.active.len() implies (#[trigger] after.scripts[k]).id
                == entries[after.active[k]].id@ by {
                if k < n {
                    assert(after.scripts[k] == before.scripts[k]);
                    assert(after.active[k] == before.active[k]);
                }
            }
        } else {
            assert(after.active == before.active);
            assert(after.scripts == before.scripts);
            assert forall|k: int| 0 <= k < after.active.len() implies in_order(order, count, #[trigger] after.active[k]) by {
                assert(in_order(order, count - 1, before.active[k]));
                let p = choose|p: int| 0 <= p < count - 1 && (#[trigger] order[p]).1 == before.active[k];
                assert(order[p].1 == after.active[k]);
            }
        }
    }
}

/// The scripts an activation injects have distinct ids when the policy's ids are unique
/// and the candidates come in load order, each with the revision of its setting's id.
pub proof fn lemma_activation_distinct_scripts(
    settings: Seq<RendererAddonSettings>,
    entries: Seq<RendererAddonRevision>,
    reads: Seq<RendererAddonSourceReads>,
    order: Seq<(int, int)>,
    reports: Seq<ReportView>,
)
    requires
        unique_ids(entries),
        forall|k: int| 0 <= k < order.len() ==> 0 <= (#[trigger] order[k]).0 < settings.len() && 0 <= order[k].1 < entries.len()
            && entries[order[k].1].id@ == settings[order[k].0].id@,
        forall|i: int, j: int| 0 <= i < j < order.len() ==> loads_before(entries, order[i].1, order[j].1),
    ensures
        ({
            let done = activate(
                Activation { active: Seq::empty(), occupied: Seq::empty(), reports, scripts: Seq::empty() },
                settings,
                entries,
                reads,
                order,
                order.len() as int,
            );
            forall|a: int, b: int| 0 <= a < b < done.scripts.len() ==> (#[trigger] done.scripts[a]).id != (
            #[trigger] done.scripts[b]).id
        }),
{
    lemma_activation_ordered(settings, entries, reads, order, reports, order.len() as int);
    let done = activate(
        Activation { active: Seq::empty(), occupied: Seq::empty(), reports, scripts: Seq::empty() },
        settings,
        entries,
        reads,
        order,
        order.len() as int,
    );
    assert forall|a: int, b: int| 0 <= a < b < done.scripts.len() implies (#[trigger] done.scripts[a]).id != (
    #[trigger] done.scripts[b]).id by {
        let x = done.active[a];
        let y = done.active[b];
        assert(loads_before(entries, x, y));
        assert(in_order(order, order.len() as int, x));
        assert(in_order(order, order.len() as int, y));
        let p = choose|p: int| 0 <= p < order.len() && (#[trigger] order[p]).1 == x;
        let q = choose|q: int| 0 <= q < order.len() && (#[trigger] order[q]).1 == y;
        if entries[x].load_order == entries[y].load_order {
            lemma_text_lt_irreflexive(entries[x].id@);
        } else {
            assert(x != y);
            if x < y {
                assert(entries[x].id@ != entries[y].id@);
            } else {
                assert(entries[y].id@ != entries[x].id@);
            }
        }
    }
}


proof fn lemma_screen_well_formed(
    settings: Seq<RendererAddonSettings>,
    entries: Seq<RendererAddonRevision>,
    host: HostAdapterKind,
    j: int,
)
    requires
        0 <= j <= settings.len(),
        unique_ids(entries),
    ensures
        well_formed_candidates(settings, entries, screen(settings, entries, host, j).candidates),
        forall|i: int| 0 <= i < screen(settings, entries, host, j).candidates.len() ==> (#[trigger] screen(settings, entries, host, j).candidates[i]).0 < j,
    decreases j,
{
    if j > 0 {
        lemma_screen_well_formed(settings, entries, host, j - 1);
        lemma_screen_step(settings, entries, host, j - 1);
    }
}

/// The scripts of a prepared bundle have distinct ids: whatever load order the candidates
/// are activated in, no addon is injected twice.
pub proof fn lemma_bundle_scripts_distinct(
    settings: Seq<RendererAddonSettings>,
    entries: Seq<RendererAddonRevision>,
    host: HostAdapterKind,
    reads: Seq<RendererAddonSourceReads>,
    order: Seq<(int, int)>,
)
    requires
        unique_ids(entries),
        is_load_order(entries, screen(settings, entries, host, screened_count(settings)).candidates, order),
    ensures
        forall|a: int, b: int|
            0 <= a < b < prepared_bundle(settings, entries, host, reads, order).scripts.len() ==> (
            #[trigger] prepared_bundle(settings, entries, host, reads, order).scripts[a]).id != (
            #[trigger] prepared_bundle(settings, entries, host, reads, order).scripts[b]).id,
{
    let candidates = screen(settings, entries, host, screened_count(settings)).candidates;
    lemma_screen_well_formed(settings, entries, host, screened_count(settings));
    assert forall|k: int| 0 <= k < order.len() implies 0 <= (#[trigger] order[k]).0 < settings.len() && 0 <= order[k].1
        < entries.len() && entries[order[k].1].id@ == settings[order[k].0].id@ by {
        assert(order.contains(order[k]));
        assert(candidates.contains(order[k]));
        let i = choose|i: int| 0 <= i < candidates.len() && candidates[i] == order[k];
        assert(candidates[i] == order[k]);
    }
    let reports = screen(settings, entries, host, screened_count(settings)).reports + if settings.len() > MAX_ADDONS {
        seq![disabled_view(additional_addons_id(), None, DisabledReason::TooManyAddons, None)]
    } else {
        Seq::empty()
    };
    lemma_activation_distinct_scripts(settings, entries, reads, order, reports);
}

/// Every candidate of screening the first `j` settings is a setting among them that
/// screening accepted, with the revision it accepted.
proof fn lemma_screen_candidates_accepted(
    settings: Seq<RendererAddonSettings>,
    entries: Seq<RendererAddonRevision>,
    host: HostAdapterKind,
    j: int,
)
    requires
        0 <= j <= settings.len(),
    ensures
        forall|i: int|
            0 <= i < screen(settings, entries, host, j).candidates.len() ==> {
                let c = #[trigger] screen(settings, entries, host, j).candidates[i];
                &&& 0 <= c.0 < j
                &&& screen_setting(settings, entries, host, c.0) == Ok::<int, ReportView>(c.1)
            },
    decreases j,
{
    if j > 0 {
        lemma_screen_candidates_accepted(settings, entries, host, j - 1);
    }
}

/// Each script that activating the first `count` candidates of `order` adds was loaded for
/// one of those candidates: it carries the id of the candidate's setting and the revision's
/// project revision, and its text is what loading that revision gave.
proof fn lemma_activation_scripts_loaded(
    settings: Seq<RendererAddonSettings>,
    entries: Seq<RendererAddonRevision>,
    reads: Seq<RendererAddonSourceReads>,
    order: Seq<(int, int)>,
    reports: Seq<ReportView>,
    count: int,
)
    requires
        0 <= count <= order.len(),
    ensures
        forall|i: int|
            0 <= i < activate(
                Activation { active: Seq::empty(), occupied: Seq::empty(), reports, scripts: Seq::empty() },
                settings,
                entries,
                reads,
                order,
                count,
            ).scripts.len() ==> exists|p: int|
                0 <= p < count && script_loaded_for(
                    settings,
                    entries,
                    reads,
                    #[trigger] order[p],
                    #[trigger] activate(
                        Activation { active: Seq::empty(), occupied: Seq::empty(), reports, scripts: Seq::empty() },
                        settings,
                        entries,
                        reads,
                        order,
                        count,
                    ).scripts[i],
                ),
    decreases count,
{
    if count > 0 {
        lemma_activation_scripts_loaded(settings, entries, reads, order, reports, count - 1);
        let start = Activation { active: Seq::empty(), occupied: Seq::empty(), reports, scripts: Seq::empty() };
        let before = activate(start, settings, entries, reads, order, count - 1);
        let after = activate(start, settings, entries, reads, order, count);
        assert forall|i: int| 0 <= i < after.scripts.len() implies exists|p: int|
            0 <= p < count && script_loaded_for(settings, entries, reads, #[trigger] order[p], #[trigger] after.scripts[i]) by {
            if i < before.scripts.len() {
                assert(after.scripts[i] == before.scripts[i]);
                let p = choose|p: int| 0 <= p < count - 1 && script_loaded_for(settings, entries, reads, #[trigger] order[p], before.scripts[i]);
                assert(script_loaded_for(settings, entries, reads, order[p], after.scripts[i]));
            } else {
                assert(script_loaded_for(settings, entries, reads, order[count - 1], after.scripts[i]));
            }
        }
    }
}

/// The script was loaded for the candidate (setting index, revision index).
pub open spec fn script_loaded_for(
    settings: Seq<RendererAddonSettings>,
    entries: Seq<RendererAddonRevision>,
    reads: Seq<RendererAddonSourceReads>,
    candidate: (int, int),
    script: PreparedView,
) -> bool {
    &&& script.id == settings[candidate.0].id@
    &&& script.project_revision == entries[candidate.1].project_revision@
    &&& addon_load(entries[candidate.1], reads, script.id) == Ok::<Seq<char>, AddonLoadError>(script.script)
}

/// The script is that of a reviewed addon the user enabled: it comes from one of the first
/// `MAX_ADDONS` settings, valid, enabled and the first with its id; the policy's revision
/// with that id supports the host and carries the script's project revision; and the script
/// is what loading that revision gave, its entrypoint and substitution assets found and
/// matching their declared digests.
pub open spec fn reviewed_script(
    settings: Seq<RendererAddonSettings>,
    entries: Seq<RendererAddonRevision>,
    host: HostAdapterKind,
    reads: Seq<RendererAddonSourceReads>,
    script: PreparedView,
) -> bool {
    exists|j: int, k: int|
        #![trigger settings[j], entries[k]]
        0 <= j < screened_count(settings) && 0 <= k < entries.len() && {
            &&& settings[j].enabled
            &&& settings_outcome(&settings[j]) is Ok
            &&& !repeats_earlier(settings, j)
            &&& settings[j].id@ == script.id
            &&& entries[k].id@ == script.id
            &&& entries[k].host_adapters@.contains(host)
            &&& entries[k].project_revision@ == script.project_revision
            &&& addon_load(entries[k], reads, script.id) == Ok::<Seq<char>, AddonLoadError>(script.script)
        }
}

/// Every script of a prepared bundle is that of a reviewed addon the user enabled, whatever
/// load order the candidates are activated in.
pub proof fn lemma_bundle_scripts_reviewed(
    settings: Seq<RendererAddonSettings>,
    entries: Seq<RendererAddonRevision>,
    host: HostAdapterKind,
    reads: Seq<RendererAddonSourceReads>,
    order: Seq<(int, int)>,
)
    requires
        is_load_order(entries, screen(settings, entries, host, screened_count(settings)).candidates, order),
    ensures
        forall|i: int|
            0 <= i < prepared_bundle(settings, entries, host, reads, order).scripts.len() ==> reviewed_script(
                settings,
                entries,
                host,
                reads,
                #[trigger] prepared_bundle(settings, entries, host, reads, order).scripts[i],
            ),
{
    let count = screened_count(settings);
    let candidates = screen(settings, entries, host, count).candidates;
    lemma_screen_candidates_accepted(settings, entries, host, count);
    let reports = screen(settings, entries, host, count).reports + if settings.len() > MAX_ADDONS {
        seq![disabled_view(additional_addons_id(), None, DisabledReason::TooManyAddons, None)]
    } else {
        Seq::empty()
    };
    lemma_activation_scripts_loaded(settings, entries, reads, order, reports, order.len() as int);
    let scripts = prepared_bundle(settings, entries, host, reads, order).scripts;
    assert forall|i: int| 0 <= i < scripts.len() implies reviewed_script(settings, entries, host, reads, #[trigger] scripts[i]) by {
        let p = choose|p: int| 0 <= p < order.len() && script_loaded_for(settings, entries, reads, #[trigger] order[p], scripts[i]);
        let c = order[p];
        assert(order.contains(c));
        assert(candidates.contains(c));
        let m = choose|m: int| 0 <= m < candidates.len() && candidates[m] == c;
        assert(candidates[m] == c);
        assert(screen_setting(settings, entries, host, c.0) == Ok::<int, ReportView>(c.1));
        assert(entry_for(entries, settings[c.0].id@) == Some(c.1));
        assert(settings[c.0] == settings[c.0] && entries[c.1] == entries[c.1]);
    }
}

/// The id and revision of each enabled report, in order.
pub open spec fn enabled_of(reports: Seq<ReportView>) -> Seq<(Seq<char>, Seq<char>)>
    decreases reports.len(),
{
    if reports.len() == 0 {
        Seq::empty()
    } else if reports.last().state == RendererAddonState::Enabled {
        enabled_of(reports.drop_last()).push((reports.last().id, reports.last().project_revision->0))
    } else {
        enabled_of(reports.drop_last())
    }
}

/// The id and revision of each script, in order.
pub open spec fn script_keys(scripts: Seq<PreparedView>) -> Seq<(Seq<char>, Seq<char>)> {
    scripts.map_values(|script: PreparedView| (script.id, script.project_revision))
}

proof fn lemma_screen_reports_disabled(
    settings: Seq<RendererAddonSettings>,
    entries: Seq<RendererAddonRevision>,
    host: HostAdapterKind,
    count: int,
)
    ensures
        enabled_of(screen(settings, entries, host, count).reports) == Seq::<(Seq<char>, Seq<char>)>::empty(),
    decreases count,
{
    if count > 0 {
        lemma_screen_reports_disabled(settings, entries, host, count - 1);
        let before = screen(settings, entries, host, count - 1).reports;
        match screen_setting(settings, entries, host, count - 1) {
            Ok(k) => {},
            Err(report) => {
                assert(report.state == RendererAddonState::Disabled);
                assert(before.push(report).drop_last() =~= before);
            },
        }
    }
}

proof fn lemma_activation_reports_scripts(
    settings: Seq<RendererAddonSettings>,
    entries: Seq<RendererAddonRevision>,
    reads: Seq<RendererAddonSourceReads>,
    order: Seq<(int, int)>,
    reports: Seq<ReportView>,
    count: int,
)
    ensures
        enabled_of(
            activate(
                Activation { active: Seq::empty(), occupied: Seq::empty(), reports, scripts: Seq::empty() },
                settings,
                entries,
                reads,
                order,
                count,
            ).reports,
        ) == enabled_of(reports) + script_keys(
            activate(
                Activation { active: Seq::empty(), occupied: Seq::empty(), reports, scripts: Seq::empty() },
                settings,
                entries,
                reads,
                order,
                count,
            ).scripts,
        ),
    decreases count,
{
    let start = Activation { active: Seq::empty(), occupied: Seq::empty(), reports, scripts: Seq::empty() };
    if count <= 0 {
        assert(script_keys(Seq::<PreparedView>::empty()) =~= Seq::<(Seq<char>, Seq<char>)>::empty());
        assert(enabled_of(reports) + Seq::<(Seq<char>, Seq<char>)>::empty() =~= enabled_of(reports));
    } else {
        lemma_activation_reports_scripts(settings, entries, reads, order, reports, count - 1);
        let before = activate(start, settings, entries, reads, order, count - 1);
        let after = activate(start, settings, entries, reads, order, count);
        assert(after == activation_step(before, settings, entries, reads, order[count - 1]));
        assert(after.reports.drop_last() =~= before.reports);
        if after.scripts.len() == before.scripts.len() + 1 {
            assert(after.scripts.drop_last() =~= before.scripts);
            assert(script_keys(after.scripts) =~= script_keys(before.scripts).push(
                (after.scripts.last().id, after.scripts.last().project_revision),
            ));
            assert(enabled_of(reports) + script_keys(after.scripts) =~= (enabled_of(reports) + script_keys(
                before.scripts,
            )).push((after.scripts.last().id, after.scripts.last().project_revision)));
        } else {
            assert(after.scripts == before.scripts);
        }
    }
}

/// The enabled reports of a prepared bundle are its scripts: the same ids and revisions, in
/// the same order. What holds of the scripts (each reviewed, enabled by the user, loaded
/// from assets that match their digests; distinct ids; compatible revisions) thus holds of
/// the addons reported enabled.
pub proof fn lemma_enabled_reports_are_scripts(
    settings: Seq<RendererAddonSettings>,
    entries: Seq<RendererAddonRevision>,
    host: HostAdapterKind,
    reads: Seq<RendererAddonSourceReads>,
    order: Seq<(int, int)>,
)
    ensures
        enabled_of(prepared_bundle(settings, entries, host, reads, order).reports) == script_keys(
            prepared_bundle(settings, entries, host, reads, order).scripts,
        ),
{
    let screening = screen(settings, entries, host, screened_count(settings));
    let extra = if settings.len() > MAX_ADDONS {
        seq![disabled_view(additional_addons_id(), None, DisabledReason::TooManyAddons, None)]
    } else {
        Seq::empty()
    };
    let reports = screening.reports + extra;
    lemma_screen_reports_disabled(settings, entries, host, screened_count(settings));
    if settings.len() > MAX_ADDONS {
        assert(reports.drop_last() =~= screening.reports);
    } else {
        assert(reports =~= screening.reports);
    }
    assert(enabled_of(reports) == Seq::<(Seq<char>, Seq<char>)>::empty());
    lemma_activation_reports_scripts(settings, entries, reads, order, reports, order.len() as int);
    let scripts = prepared_bundle(settings, entries, host, reads, order).scripts;
    assert(Seq::<(Seq<char>, Seq<char>)>::empty() + script_keys(scripts) =~= script_keys(scripts));
}

} // verus!
