//! Projection of the daily Skills tree into the isolated home: which paths take part,
//! what the projection manifest may hold, and, file by file, whether a projection is
//! made, kept, refreshed, removed or set aside as a conflict.
//!
//! The walk over the directories and the reads and writes of files belong to the caller;
//! each decision it needs, and the bookkeeping that follows from it, is made here.

use vstd::prelude::*;

use crate::compatibility::{ascii_lower, ascii_lower_char, to_ascii_lower_char};
use crate::digest::{hex_lower, sha256, sha256_digest, hex_lower_chars, is_lower_hex_char};
use crate::strings::string_from_chars;
use crate::text::{chars_equal, chars_of};
use crate::text_map::TextMap;
use crate::isolation::emits_root;
use crate::winpath::{
    dot, extension_of, extension_of_name, include_cur_dir, is_absolute_path, parse_prefix,
    path_is_absolute, path_is_verbatim, path_raw_parts, is_skipped_part, PrefixKind, PrefixSpec,
};

verus! {

/// The version of the projection manifest this library reads and writes.
pub const SKILL_MANIFEST_VERSION: u8 = 1;

/// The longest manifest key, in bytes.
pub const MAX_MANIFEST_KEY_BYTES: usize = 4096;

/// The longest conflict reason, in bytes.
pub const MAX_CONFLICT_REASON_BYTES: usize = 128;

/// Why projection cannot start, or why a stored manifest is refused.
#[derive(Debug, Clone, Copy, PartialEq, Eq, Structural)]
pub enum SkillSyncError {
    RootsNotAbsolute,
    RootsNotDisjoint,
    UnsupportedManifestVersion,
    InvalidManifestKey,
    DuplicateManifestKey,
    InvalidConflictReason,
    InvalidSha256,
}

// ---------------------------------------------------------------------------------------
// Paths
// ---------------------------------------------------------------------------------------

/// The one-letter tag that tells prefix kinds apart in a component text.
pub open spec fn prefix_tag(kind: PrefixKind) -> char {
    match kind {
        PrefixKind::Verbatim => 'v',
        PrefixKind::VerbatimUnc => 'u',
        PrefixKind::VerbatimDisk => 'k',
        PrefixKind::DeviceNs => 'n',
        PrefixKind::Unc => 'c',
        PrefixKind::Disk => 'd',
    }
}

/// A prefix as one component text: its kind and its parts.
pub open spec fn prefix_text(prefix: PrefixSpec) -> Seq<char> {
    seq![prefix_tag(prefix.kind)] + prefix.first + seq!['\\'] + prefix.second
}

/// The texts of the parts that the path keeps, in order.
pub open spec fn kept_part_texts(parts: Seq<Seq<char>>, verbatim: bool) -> Seq<Seq<char>>
    decreases parts.len(),
{
    if parts.len() == 0 {
        Seq::empty()
    } else if is_skipped_part(parts.last(), verbatim) {
        kept_part_texts(parts.drop_last(), verbatim)
    } else {
        kept_part_texts(parts.drop_last(), verbatim).push(parts.last())
    }
}

/// The components of a path, one text each: its prefix, its root, a leading current
/// directory, then its parts. Two paths have equal components exactly when these are equal,
/// and one starts with the other exactly when these start with the other's.
pub open spec fn component_texts(s: Seq<char>) -> Seq<Seq<char>> {
    (match parse_prefix(s) {
        Some(prefix) => seq![prefix_text(prefix)],
        None => Seq::empty(),
    }) + (if emits_root(s) {
        seq![seq!['\\']]
    } else {
        Seq::empty()
    }) + (if include_cur_dir(s) {
        seq![dot()]
    } else {
        Seq::empty()
    }) + kept_part_texts(path_raw_parts(s), path_is_verbatim(s))
}

/// `whole` begins with `start`.
pub open spec fn seq_starts_with<A>(whole: Seq<A>, start: Seq<A>) -> bool {
    start.len() <= whole.len() && whole.take(start.len() as int) == start
}

/// Why the daily and isolated homes cannot be projected between, if they cannot.
pub open spec fn roots_error(daily: Seq<char>, isolated: Seq<char>) -> Option<SkillSyncError> {
    if !is_absolute_path(daily) || !is_absolute_path(isolated) {
        Some(SkillSyncError::RootsNotAbsolute)
    } else if seq_starts_with(component_texts(daily), component_texts(isolated)) || seq_starts_with(
        component_texts(isolated),
        component_texts(daily),
    ) {
        Some(SkillSyncError::RootsNotDisjoint)
    } else {
        None
    }
}

proof fn lemma_kept_part_texts_step(parts: Seq<Seq<char>>, index: int, verbatim: bool)
    requires
        0 <= index < parts.len(),
    ensures
        kept_part_texts(parts.take(index + 1), verbatim) == if is_skipped_part(parts[index], verbatim) {
            kept_part_texts(parts.take(index), verbatim)
        } else {
            kept_part_texts(parts.take(index), verbatim).push(parts[index])
        },
{
    assert(parts.take(index + 1).drop_last() =~= parts.take(index));
}

fn prefix_tag_of(kind: PrefixKind) -> (result: char)
    ensures
        result == prefix_tag(kind),
{
    match kind {
        PrefixKind::Verbatim => 'v',
        PrefixKind::VerbatimUnc => 'u',
        PrefixKind::VerbatimDisk => 'k',
        PrefixKind::DeviceNs => 'n',
        PrefixKind::Unc => 'c',
        PrefixKind::Disk => 'd',
    }
}

fn copy_chars(chars: &[char]) -> (result: Vec<char>)
    ensures
        result@ == chars@,
{
    let mut result: Vec<char> = Vec::new();
    for i in 0..chars.len()
        invariant
            result@ == chars@.take(i as int),
    {
        result.push(chars[i]);
        proof {
            assert(chars@.take(i + 1) =~= chars@.take(i as int).push(chars@[i as int]));
        }
    }
    proof {
        assert(chars@.take(chars@.len() as int) =~= chars@);
    }
    result
}

pub open spec fn texts_view(texts: Seq<Vec<char>>) -> Seq<Seq<char>> {
    texts.map_values(|t: Vec<char>| t@)
}

/// The component texts of `path`.
pub fn component_texts_of(path: &str) -> (result: Vec<Vec<char>>)
    ensures
        texts_view(result@) == component_texts(path@),
{
    let chars = chars_of(path);
    let parsed = crate::winpath::parse_windows_path(chars.as_slice());
    let n = chars.len();
    let start = parsed.prefix_len;
    let verbatim = parsed.verbatim;
    let mut texts: Vec<Vec<char>> = Vec::new();
    let ghost s = chars@;
    let mut implied_root = false;
    match &parsed.prefix {
        Some((kind, first, second)) => {
            let mut text: Vec<char> = Vec::new();
            text.push(prefix_tag_of(*kind));
            let mut i: usize = 0;
            while i < first.len()
                invariant
                    text@ == seq![prefix_tag(*kind)] + first@.take(i as int),
                    i <= first@.len(),
                decreases first@.len() - i,
            {
                text.push(first[i]);
                proof {
                    assert(first@.take(i + 1) =~= first@.take(i as int).push(first@[i as int]));
                }
                i += 1;
            }
            text.push('\\');
            let mut j: usize = 0;
            while j < second.len()
                invariant
                    text@ == seq![prefix_tag(*kind)] + first@ + seq!['\\'] + second@.take(j as int),
                    j <= second@.len(),
                decreases second@.len() - j,
            {
                text.push(second[j]);
                proof {
                    assert(second@.take(j + 1) =~= second@.take(j as int).push(second@[j as int]));
                }
                j += 1;
            }
            proof {
                assert(first@.take(first@.len() as int) =~= first@);
                assert(second@.take(second@.len() as int) =~= second@);
                assert(text@ =~= prefix_text(parse_prefix(s).unwrap()));
            }
            texts.push(text);
            implied_root = *kind != PrefixKind::Disk && !verbatim;
        },
        None => {},
    }
    let rooted = parsed.physical_root || match &parsed.prefix {
        Some((kind, _, _)) => *kind != PrefixKind::Disk,
        None => false,
    };
    if parsed.physical_root || implied_root {
        let mut root: Vec<char> = Vec::new();
        root.push('\\');
        proof {
            assert(root@ =~= seq!['\\']);
        }
        texts.push(root);
    }
    proof {
        assert(crate::winpath::after_prefix(s) =~= s.subrange(start as int, n as int));
    }
    let cur_dir = !rooted && start < n && chars[start] == '.' && (start + 1 == n || chars[start + 1] == '\\'
        || (!verbatim && chars[start + 1] == '/'));
    if cur_dir {
        let mut d: Vec<char> = Vec::new();
        d.push('.');
        proof {
            assert(d@ =~= dot());
        }
        texts.push(d);
    }
    let ghost head = texts_view(texts@);
    let ghost raw = path_raw_parts(s);
    proof {
        let p: Seq<Seq<char>> = match parse_prefix(s) {
            Some(prefix) => seq![prefix_text(prefix)],
            None => Seq::empty(),
        };
        let r: Seq<Seq<char>> = if emits_root(s) {
            seq![seq!['\\']]
        } else {
            Seq::empty()
        };
        let c: Seq<Seq<char>> = if include_cur_dir(s) {
            seq![dot()]
        } else {
            Seq::empty()
        };
        assert(head =~= p + r + c);
        assert(raw.take(0) =~= Seq::<Seq<char>>::empty());
        assert(head + kept_part_texts(raw.take(0), verbatim) =~= head);
        assert forall|i: int| 0 <= i < parsed.parts@.len() implies #[trigger] parsed.parts@[i]@ == raw[i] by {
            assert(parsed.parts_view()[i] == parsed.parts@[i]@);
        }
    }
    let parts = &parsed.parts;
    for index in 0..parts.len()
        invariant
            parts@.len() == raw.len(),
            verbatim == path_is_verbatim(s),
            forall|i: int| 0 <= i < parts@.len() ==> #[trigger] parts@[i]@ == raw[i],
            texts_view(texts@) == head + kept_part_texts(raw.take(index as int), verbatim),
    {
        proof {
            lemma_kept_part_texts_step(raw, index as int, verbatim);
        }
        let part = &parts[index];
        let is_dot = part.len() == 1 && part[0] == '.';
        proof {
            assert(is_dot == (part@ == dot())) by {
                if part@.len() == 1 && part@[0] == '.' {
                    assert(part@ =~= dot());
                }
            }
        }
        if !(!verbatim && is_dot) {
            let ghost before = texts@;
            texts.push(copy_chars(part.as_slice()));
            proof {
                assert(texts_view(texts@) =~= texts_view(before).push(raw[index as int]));
                assert((head + kept_part_texts(raw.take(index as int), verbatim)).push(raw[index as int])
                    =~= head + kept_part_texts(raw.take(index as int), verbatim).push(raw[index as int]));
            }
        }
    }
    proof {
        assert(raw.take(raw.len() as int) =~= raw);
    }
    texts
}

fn texts_start_with(whole: &Vec<Vec<char>>, start: &Vec<Vec<char>>) -> (result: bool)
    ensures
        result == seq_starts_with(texts_view(whole@), texts_view(start@)),
{
    if start.len() > whole.len() {
        return false;
    }
    for i in 0..start.len()
        invariant
            start@.len() <= whole@.len(),
            forall|t: int| 0 <= t < i ==> #[trigger] whole@[t]@ == start@[t]@,
    {
        if !chars_equal(whole[i].as_slice(), start[i].as_slice()) {
            proof {
                assert(texts_view(whole@).take(start@.len() as int)[i as int] != texts_view(start@)[i as int]);
            }
            return false;
        }
    }
    proof {
        assert(texts_view(whole@).take(start@.len() as int) =~= texts_view(start@));
    }
    true
}

/// Checks that both homes are absolute and that neither lies within the other.
pub fn validate_sync_roots(daily: &str, isolated: &str) -> (result: Result<(), SkillSyncError>)
    ensures
        match roots_error(daily@, isolated@) {
            Some(error) => result == Err::<(), SkillSyncError>(error),
            None => result is Ok,
        },
{
    if !path_is_absolute(daily) || !path_is_absolute(isolated) {
        return Err(SkillSyncError::RootsNotAbsolute);
    }
    let d = component_texts_of(daily);
    let i = component_texts_of(isolated);
    if texts_start_with(&d, &i) || texts_start_with(&i, &d) {
        return Err(SkillSyncError::RootsNotDisjoint);
    }
    Ok(())
}


// ---------------------------------------------------------------------------------------
// Which paths take part
// ---------------------------------------------------------------------------------------

/// Directory names whose trees are never projected: version control, caches, builds and
/// scratch space.
pub open spec fn is_ignored_directory_name(name: Seq<char>) -> bool {
    ||| name == ".git"@
    ||| name == ".hg"@
    ||| name == ".svn"@
    ||| name == ".cache"@
    ||| name == ".mypy_cache"@
    ||| name == ".pytest_cache"@
    ||| name == ".ruff_cache"@
    ||| name == "__pycache__"@
    ||| name == "cache"@
    ||| name == "caches"@
    ||| name == "node_modules"@
    ||| name == "target"@
    ||| name == "temp"@
    ||| name == "tmp"@
}

/// Extensions of backup, bytecode, swap and scratch files.
pub open spec fn is_ignored_extension(extension: Seq<char>) -> bool {
    ||| extension == "bak"@
    ||| extension == "old"@
    ||| extension == "pyc"@
    ||| extension == "pyo"@
    ||| extension == "swp"@
    ||| extension == "swo"@
    ||| extension == "temp"@
    ||| extension == "tmp"@
}

/// Whether a file name, in lowercase, marks a file that is never projected.
pub open spec fn is_ignored_file_name(name: Seq<char>) -> bool {
    ||| name == ".ds_store"@
    ||| name == "thumbs.db"@
    ||| (name.len() > 0 && name.last() == '~')
    ||| (extension_of(name) matches Some(extension) && is_ignored_extension(extension))
}

/// Whether a relative path, given by its component names, stays out of the projection:
/// anything under `.system` at the top, anything under an ignored directory, an empty
/// path, and ignored file names; names compare in ASCII lowercase.
pub open spec fn ignored_path(components: Seq<Seq<char>>) -> bool {
    let names = components.map_values(|c: Seq<char>| ascii_lower(c));
    ||| names.len() == 0
    ||| names[0] == ".system"@
    ||| exists|i: int| 0 <= i < names.len() && is_ignored_directory_name(#[trigger] names[i])
    ||| is_ignored_file_name(names.last())
}

/// The ASCII lowercase form of `chars`.
pub fn ascii_lowercase(chars: &[char]) -> (result: Vec<char>)
    ensures
        result@ == ascii_lower(chars@),
{
    let mut result: Vec<char> = Vec::new();
    for i in 0..chars.len()
        invariant
            result@ == ascii_lower(chars@.take(i as int)),
    {
        result.push(to_ascii_lower_char(chars[i]));
        proof {
            assert(ascii_lower(chars@.take(i + 1)) =~= ascii_lower(chars@.take(i as int)).push(
                ascii_lower_char(chars@[i as int]),
            ));
        }
    }
    proof {
        assert(chars@.take(chars@.len() as int) =~= chars@);
    }
    result
}

fn is_text(chars: &Vec<char>, expected: &str) -> (result: bool)
    ensures
        result == (chars@ == expected@),
{
    let e = chars_of(expected);
    chars_equal(chars.as_slice(), e.as_slice())
}

fn is_ignored_directory(name: &Vec<char>) -> (result: bool)
    ensures
        result == is_ignored_directory_name(name@),
{
    is_text(name, ".git") || is_text(name, ".hg") || is_text(name, ".svn") || is_text(name, ".cache") || is_text(
        name,
        ".mypy_cache",
    ) || is_text(name, ".pytest_cache") || is_text(name, ".ruff_cache") || is_text(name, "__pycache__")
        || is_text(name, "cache") || is_text(name, "caches") || is_text(name, "node_modules") || is_text(
        name,
        "target",
    ) || is_text(name, "temp") || is_text(name, "tmp")
}

fn is_ignored_file(name: &Vec<char>) -> (result: bool)
    ensures
        result == is_ignored_file_name(name@),
{
    if is_text(name, ".ds_store") || is_text(name, "thumbs.db") {
        return true;
    }
    if name.len() > 0 && name[name.len() - 1] == '~' {
        return true;
    }
    match extension_of_name(name.as_slice()) {
        Some(extension) => is_text(&extension, "bak") || is_text(&extension, "old") || is_text(&extension, "pyc")
            || is_text(&extension, "pyo") || is_text(&extension, "swp") || is_text(&extension, "swo")
            || is_text(&extension, "temp") || is_text(&extension, "tmp"),
        None => false,
    }
}

pub open spec fn strings_view(values: Seq<String>) -> Seq<Seq<char>> {
    values.map_values(|value: String| value@)
}

/// Whether the relative path with these component names stays out of the projection.
pub fn should_ignore_relative_path(components: &Vec<String>) -> (result: bool)
    ensures
        result == ignored_path(strings_view(components@)),
{
    let ghost names = strings_view(components@).map_values(|c: Seq<char>| ascii_lower(c));
    if components.len() == 0 {
        return true;
    }
    let first = ascii_lowercase(chars_of(components[0].as_str()).as_slice());
    if is_text(&first, ".system") {
        return true;
    }
    for i in 0..components.len()
        invariant
            names == strings_view(components@).map_values(|c: Seq<char>| ascii_lower(c)),
            names.len() == components@.len(),
            forall|t: int| 0 <= t < i ==> !is_ignored_directory_name(#[trigger] names[t]),
    {
        let name = ascii_lowercase(chars_of(components[i].as_str()).as_slice());
        proof {
            assert(names[i as int] == name@);
        }
        if is_ignored_directory(&name) {
            return true;
        }
    }
    let last = ascii_lowercase(chars_of(components[components.len() - 1].as_str()).as_slice());
    proof {
        assert(names.last() == last@);
        assert(names[0] == first@);
    }
    is_ignored_file(&last)
}

/// The manifest key of a relative path: its component names joined by `/`.
pub open spec fn joined_key(components: Seq<Seq<char>>) -> Seq<char>
    decreases components.len(),
{
    if components.len() == 0 {
        Seq::empty()
    } else if components.len() == 1 {
        components[0]
    } else {
        joined_key(components.drop_last()) + seq!['/'] + components.last()
    }
}

/// The manifest key of the relative path with these component names.
pub fn relative_path_key(components: &Vec<String>) -> (result: String)
    ensures
        result@ == joined_key(strings_view(components@)),
{
    let ghost names = strings_view(components@);
    let mut key: Vec<char> = Vec::new();
    for i in 0..components.len()
        invariant
            names == strings_view(components@),
            key@ == joined_key(names.take(i as int)),
    {
        proof {
            assert(names.take(i + 1).drop_last() =~= names.take(i as int));
        }
        if i > 0 {
            key.push('/');
        }
        let part = chars_of(components[i].as_str());
        let mut j: usize = 0;
        let ghost start = key@;
        while j < part.len()
            invariant
                key@ == start + part@.take(j as int),
                j <= part@.len(),
            decreases part@.len() - j,
        {
            key.push(part[j]);
            proof {
                assert(part@.take(j + 1) =~= part@.take(j as int).push(part@[j as int]));
                assert(start + part@.take(j + 1) =~= (start + part@.take(j as int)).push(part@[j as int]));
            }
            j += 1;
        }
        proof {
            assert(part@.take(part@.len() as int) =~= part@);
            if i == 0 {
                assert(names.take(1) =~= seq![names[0]]);
                assert(key@ =~= names[0]);
            } else {
                assert(key@ =~= joined_key(names.take(i as int)) + seq!['/'] + names[i as int]);
            }
        }
    }
    proof {
        assert(names.take(components@.len() as int) =~= names);
    }
    string_from_chars(key.as_slice())
}


// ---------------------------------------------------------------------------------------
// The projection manifest
// ---------------------------------------------------------------------------------------

/// A projected file: the digest of the source it was made from and of what was written.
#[derive(Debug, Clone, PartialEq, Eq)]
pub struct SkillProjectionRecord {
    pub source_sha256: String,
    pub destination_sha256: String,
}

/// A path the projection set aside, why, and the digests seen at that time.
#[derive(Debug, Clone, PartialEq, Eq)]
pub struct SkillProjectionConflict {
    pub reason: String,
    pub source_sha256: Option<String>,
    pub destination_sha256: Option<String>,
}

/// The manifest the isolated home keeps of its projected Skills.
pub struct SkillProjectionManifest {
    pub version: u8,
    pub files: TextMap<SkillProjectionRecord>,
    pub conflicts: TextMap<SkillProjectionConflict>,
}

/// A record as two digests.
pub ghost struct RecordView {
    pub source: Seq<char>,
    pub destination: Seq<char>,
}

/// A conflict as its reason and digests.
pub ghost struct ConflictView {
    pub reason: Seq<char>,
    pub source: Option<Seq<char>>,
    pub destination: Option<Seq<char>>,
}

pub open spec fn optional_text(value: Option<String>) -> Option<Seq<char>> {
    match value {
        Some(text) => Some(text@),
        None => None,
    }
}

pub open spec fn record_view(record: SkillProjectionRecord) -> RecordView {
    RecordView { source: record.source_sha256@, destination: record.destination_sha256@ }
}

pub open spec fn conflict_view(conflict: SkillProjectionConflict) -> ConflictView {
    ConflictView {
        reason: conflict.reason@,
        source: optional_text(conflict.source_sha256),
        destination: optional_text(conflict.destination_sha256),
    }
}

/// The manifest's files and conflicts, keyed by relative path.
pub ghost struct ManifestView {
    pub version: u8,
    pub files: Map<Seq<char>, RecordView>,
    pub conflicts: Map<Seq<char>, ConflictView>,
}

impl SkillProjectionManifest {
    pub open spec fn view(&self) -> ManifestView {
        ManifestView {
            version: self.version,
            files: self.files.map().map_values(|record: SkillProjectionRecord| record_view(record)),
            conflicts: self.conflicts.map().map_values(|conflict: SkillProjectionConflict| conflict_view(conflict)),
        }
    }

    /// A manifest with no files and no conflicts.
    pub fn empty() -> (result: Self)
        ensures
            result.view().version == SKILL_MANIFEST_VERSION,
            result.view().files == Map::<Seq<char>, RecordView>::empty(),
            result.view().conflicts == Map::<Seq<char>, ConflictView>::empty(),
    {
        let result = SkillProjectionManifest {
            version: SKILL_MANIFEST_VERSION,
            files: TextMap::new(),
            conflicts: TextMap::new(),
        };
        proof {
            assert(result.view().files =~= Map::<Seq<char>, RecordView>::empty());
            assert(result.view().conflicts =~= Map::<Seq<char>, ConflictView>::empty());
        }
        result
    }
}

/// A SHA-256 digest as the manifest writes it: 64 lowercase hexadecimal digits.
pub open spec fn valid_sha256(text: Seq<char>) -> bool {
    text.len() == 64 && forall|i: int| 0 <= i < text.len() ==> is_lower_hex_char(#[trigger] text[i])
}

/// A conflict reason: 1 to 128 characters, each a lowercase ASCII letter or `_`.
pub open spec fn valid_reason(text: Seq<char>) -> bool {
    &&& 0 < text.len() <= MAX_CONFLICT_REASON_BYTES
    &&& forall|i: int| 0 <= i < text.len() ==> (('a' <= #[trigger] text[i] && text[i] <= 'z') || text[i] == '_')
}

/// Whether every component of `key` is a plain name: no prefix, no root, no leading `.`,
/// no `..`.
pub open spec fn plain_relative(key: Seq<char>) -> bool {
    &&& parse_prefix(key) is None
    &&& !emits_root(key)
    &&& !include_cur_dir(key)
    &&& forall|i: int| 0 <= i < component_texts(key).len() ==> #[trigger] component_texts(key)[i] != seq!['.', '.']
}

pub open spec fn optional_sha_valid(value: Option<Seq<char>>) -> bool {
    match value {
        Some(text) => valid_sha256(text),
        None => true,
    }
}

/// Why a stored manifest is refused, if it is; the checks run in this order: version,
/// file keys, file keys that differ only in ASCII case, file digests, conflict keys,
/// conflict reasons, conflict digests.
pub open spec fn manifest_error(m: ManifestView) -> Option<SkillSyncError> {
    if m.version != SKILL_MANIFEST_VERSION {
        Some(SkillSyncError::UnsupportedManifestVersion)
    } else if exists|k: Seq<char>| #[trigger] m.files.contains_key(k) && !valid_key_text(k) {
        Some(SkillSyncError::InvalidManifestKey)
    } else if exists|a: Seq<char>, b: Seq<char>| #[trigger] m.files.contains_key(a) && #[trigger] m.files.contains_key(b)
        && a != b && ascii_lower(a) == ascii_lower(b) {
        Some(SkillSyncError::DuplicateManifestKey)
    } else if exists|k: Seq<char>| #[trigger] m.files.contains_key(k) && !(valid_sha256(m.files[k].source)
        && valid_sha256(m.files[k].destination)) {
        Some(SkillSyncError::InvalidSha256)
    } else if exists|k: Seq<char>| #[trigger] m.conflicts.contains_key(k) && !valid_key_text(k) {
        Some(SkillSyncError::InvalidManifestKey)
    } else if exists|k: Seq<char>| #[trigger] m.conflicts.contains_key(k) && !valid_reason(m.conflicts[k].reason) {
        Some(SkillSyncError::InvalidConflictReason)
    } else if exists|k: Seq<char>| #[trigger] m.conflicts.contains_key(k) && !(optional_sha_valid(
        m.conflicts[k].source,
    ) && optional_sha_valid(m.conflicts[k].destination)) {
        Some(SkillSyncError::InvalidSha256)
    } else {
        None
    }
}

/// A manifest key: a nonempty relative path of plain names, separated by `/`, at most
/// 4096 bytes, with no `\\` and no NUL, that the projection does not ignore.
pub open spec fn valid_key_text(k: Seq<char>) -> bool {
    &&& k.len() > 0
    &&& vstd::utf8::encode_utf8(k).len() <= MAX_MANIFEST_KEY_BYTES
    &&& !k.contains('\\')
    &&& !k.contains('\0')
    &&& plain_relative(k)
    &&& !ignored_path(component_texts(k))
}

fn chars_valid_sha256(chars: &[char]) -> (result: bool)
    ensures
        result == valid_sha256(chars@),
{
    if chars.len() != 64 {
        return false;
    }
    for i in 0..chars.len()
        invariant
            forall|t: int| 0 <= t < i ==> is_lower_hex_char(#[trigger] chars@[t]),
    {
        let c = chars[i];
        if !(('0' <= c && c <= '9') || ('a' <= c && c <= 'f')) {
            return false;
        }
    }
    true
}

/// Whether `text` is a SHA-256 digest as the manifest writes it.
pub fn validate_sha256(text: &str) -> (result: bool)
    ensures
        result == valid_sha256(text@),
{
    let chars = chars_of(text);
    chars_valid_sha256(chars.as_slice())
}

fn optional_sha256_valid(value: &Option<String>) -> (result: bool)
    ensures
        result == optional_sha_valid(optional_text(*value)),
{
    match value {
        Some(text) => validate_sha256(text.as_str()),
        None => true,
    }
}

/// Whether `text` is a valid conflict reason.
pub fn validate_conflict_reason(text: &str) -> (result: bool)
    ensures
        result == valid_reason(text@),
{
    let chars = chars_of(text);
    if chars.len() == 0 || chars.len() > MAX_CONFLICT_REASON_BYTES {
        return false;
    }
    for i in 0..chars.len()
        invariant
            chars@ == text@,
            forall|t: int| 0 <= t < i ==> (('a' <= #[trigger] chars@[t] && chars@[t] <= 'z') || chars@[t] == '_'),
    {
        let c = chars[i];
        if !(('a' <= c && c <= 'z') || c == '_') {
            proof {
                assert(text@[i as int] == c);
            }
            return false;
        }
    }
    true
}

/// Whether every component of `key` is a plain name.
pub fn is_plain_relative(key: &str) -> (result: bool)
    ensures
        result == plain_relative(key@),
{
    let chars = chars_of(key);
    let parsed = crate::winpath::parse_windows_path(chars.as_slice());
    if parsed.prefix.is_some() || parsed.physical_root {
        return false;
    }
    if chars.len() > 0 && chars[0] == '.' && (chars.len() == 1 || chars[1] == '/' || chars[1] == '\\') {
        return false;
    }
    let texts = component_texts_of(key);
    for i in 0..texts.len()
        invariant
            texts_view(texts@) == component_texts(key@),
            forall|t: int| 0 <= t < i ==> #[trigger] texts@[t]@ != seq!['.', '.'],
    {
        let text = &texts[i];
        if text.len() == 2 && text[0] == '.' && text[1] == '.' {
            proof {
                assert(text@ =~= seq!['.', '.']);
                assert(component_texts(key@)[i as int] == text@);
            }
            return false;
        }
        proof {
            if text@ == seq!['.', '.'] {
                assert(text@.len() == 2 && text@[0] == '.' && text@[1] == '.');
            }
        }
    }
    proof {
        assert forall|i: int| 0 <= i < component_texts(key@).len() implies #[trigger] component_texts(key@)[i] != seq![
            '.',
            '.',
        ] by {
            assert(component_texts(key@)[i] == texts@[i]@);
        }
    }
    true
}

/// Whether `key` may stand in the manifest.
pub fn validate_manifest_key(key: &str) -> (result: bool)
    ensures
        result == valid_key_text(key@),
{
    let chars = chars_of(key);
    if chars.len() == 0 || crate::text::byte_len(key) > MAX_MANIFEST_KEY_BYTES {
        return false;
    }
    for i in 0..chars.len()
        invariant
            chars@ == key@,
            forall|t: int| 0 <= t < i ==> #[trigger] chars@[t] != '\\' && chars@[t] != '\0',
    {
        if chars[i] == '\\' || chars[i] == '\0' {
            proof {
                assert(key@.contains(chars@[i as int]));
            }
            return false;
        }
    }
    let parsed = crate::winpath::parse_windows_path(chars.as_slice());
    if parsed.prefix.is_some() || parsed.physical_root {
        return false;
    }
    if chars[0] == '.' && (chars.len() == 1 || chars[1] == '/') {
        return false;
    }
    let texts = component_texts_of(key);
    let mut names: Vec<String> = Vec::new();
    for i in 0..texts.len()
        invariant
            texts_view(texts@) == component_texts(key@),
            names@.len() == i,
            forall|t: int| 0 <= t < i ==> #[trigger] names@[t]@ == texts@[t]@,
            forall|t: int| 0 <= t < i ==> #[trigger] texts@[t]@ != seq!['.', '.'],
    {
        let text = &texts[i];
        if text.len() == 2 && text[0] == '.' && text[1] == '.' {
            proof {
                assert(text@ =~= seq!['.', '.']);
                assert(component_texts(key@)[i as int] == text@);
            }
            return false;
        }
        proof {
            if text@ == seq!['.', '.'] {
                assert(text@.len() == 2 && text@[0] == '.' && text@[1] == '.');
            }
        }
        names.push(string_from_chars(text.as_slice()));
    }
    proof {
        assert(strings_view(names@) =~= component_texts(key@));
        assert forall|c: char| !key@.contains(c) || (c != '\\' && c != '\0') by {}
    }
    !should_ignore_relative_path(&names)
}


spec fn file_keys_valid(m: ManifestView) -> bool {
    forall|k: Seq<char>| #[trigger] m.files.contains_key(k) ==> valid_key_text(k)
}

spec fn file_keys_distinct(m: ManifestView) -> bool {
    forall|a: Seq<char>, b: Seq<char>| #[trigger] m.files.contains_key(a) && #[trigger] m.files.contains_key(b) && a != b
        ==> ascii_lower(a) != ascii_lower(b)
}

spec fn file_digests_valid(m: ManifestView) -> bool {
    forall|k: Seq<char>| #[trigger] m.files.contains_key(k) ==> valid_sha256(m.files[k].source) && valid_sha256(
        m.files[k].destination,
    )
}

spec fn conflict_keys_valid(m: ManifestView) -> bool {
    forall|k: Seq<char>| #[trigger] m.conflicts.contains_key(k) ==> valid_key_text(k)
}

spec fn conflict_reasons_valid(m: ManifestView) -> bool {
    forall|k: Seq<char>| #[trigger] m.conflicts.contains_key(k) ==> valid_reason(m.conflicts[k].reason)
}

/// Checks a stored manifest: its version, keys, reasons and digests.
pub fn validate_manifest(manifest: &SkillProjectionManifest) -> (result: Result<(), SkillSyncError>)
    ensures
        match manifest_error(manifest.view()) {
            Some(error) => result == Err::<(), SkillSyncError>(error),
            None => result is Ok,
        },
{
    let ghost m = manifest.view();
    if manifest.version != SKILL_MANIFEST_VERSION {
        return Err(SkillSyncError::UnsupportedManifestVersion);
    }
    let file_keys = manifest.files.keys();
    let n = file_keys.len();
    for i in 0..n
        invariant
            m.version == SKILL_MANIFEST_VERSION,
            n == file_keys@.len(),
            m == manifest.view(),
            forall|t: int| 0 <= t < n ==> manifest.files.map().contains_key(#[trigger] file_keys@[t]@),
            forall|t: int| 0 <= t < i ==> valid_key_text(#[trigger] file_keys@[t]@),
    {
        if !validate_manifest_key(file_keys[i].as_str()) {
            proof {
                assert(m.files.contains_key(file_keys@[i as int]@));
            }
            return Err(SkillSyncError::InvalidManifestKey);
        }
    }
    proof {
        assert forall|k: Seq<char>| #[trigger] m.files.contains_key(k) implies valid_key_text(k) by {
            assert(manifest.files.map().contains_key(k));
            let t = choose|t: int| 0 <= t < file_keys@.len() && file_keys@[t]@ == k;
            assert(valid_key_text(file_keys@[t]@));
        }
    }
    let mut lowered: Vec<Vec<char>> = Vec::new();
    for i in 0..n
        invariant
            m.version == SKILL_MANIFEST_VERSION,
            file_keys_valid(m),
            n == file_keys@.len(),
            m == manifest.view(),
            forall|t: int| 0 <= t < n ==> manifest.files.map().contains_key(#[trigger] file_keys@[t]@),
            lowered@.len() == i,
            forall|t: int| 0 <= t < i ==> (#[trigger] lowered@[t])@ == ascii_lower(file_keys@[t]@),
    {
        lowered.push(ascii_lowercase(chars_of(file_keys[i].as_str()).as_slice()));
    }
    for i in 0..n
        invariant
            m.version == SKILL_MANIFEST_VERSION,
            file_keys_valid(m),
            forall|x: int, y: int| 0 <= x < y < n ==> file_keys@[x]@ != file_keys@[y]@,
            n == file_keys@.len() == lowered@.len(),
            m == manifest.view(),
            forall|t: int| 0 <= t < n ==> manifest.files.map().contains_key(#[trigger] file_keys@[t]@),
            forall|t: int| 0 <= t < n ==> (#[trigger] lowered@[t])@ == ascii_lower(file_keys@[t]@),
            forall|a: int, b: int| 0 <= a < i && 0 <= b < n && a != b ==> ascii_lower(#[trigger] file_keys@[a]@)
                != ascii_lower(#[trigger] file_keys@[b]@),
    {
        for j in 0..n
            invariant
                m.version == SKILL_MANIFEST_VERSION,
                file_keys_valid(m),
                forall|x: int, y: int| 0 <= x < y < n ==> file_keys@[x]@ != file_keys@[y]@,
                n == file_keys@.len() == lowered@.len(),
                m == manifest.view(),
                forall|t: int| 0 <= t < n ==> manifest.files.map().contains_key(#[trigger] file_keys@[t]@),
                0 <= i < n,
                forall|t: int| 0 <= t < n ==> (#[trigger] lowered@[t])@ == ascii_lower(file_keys@[t]@),
                forall|a: int, b: int| 0 <= a < i && 0 <= b < n && a != b ==> ascii_lower(#[trigger] file_keys@[a]@)
                    != ascii_lower(#[trigger] file_keys@[b]@),
                forall|b: int| 0 <= b < j && b != i ==> ascii_lower(file_keys@[i as int]@) != ascii_lower(
                    #[trigger] file_keys@[b]@,
                ),
        {
            if i != j && chars_equal(lowered[i].as_slice(), lowered[j].as_slice()) {
                proof {
                    let a = file_keys@[i as int]@;
                    let b = file_keys@[j as int]@;
                    assert(m.files.contains_key(a));
                    assert(m.files.contains_key(b));
                    assert(a != b);
                    assert(ascii_lower(a) == ascii_lower(b));
                }
                return Err(SkillSyncError::DuplicateManifestKey);
            }
        }
    }
    proof {
        assert forall|a: Seq<char>, b: Seq<char>| #[trigger] m.files.contains_key(a) && #[trigger] m.files.contains_key(b)
            && a != b implies ascii_lower(a) != ascii_lower(b) by {
            let ta = choose|t: int| 0 <= t < file_keys@.len() && file_keys@[t]@ == a;
            let tb = choose|t: int| 0 <= t < file_keys@.len() && file_keys@[t]@ == b;
            assert(ta != tb);
            assert(ascii_lower(file_keys@[ta]@) != ascii_lower(file_keys@[tb]@));
        }
    }
    for i in 0..n
        invariant
            m.version == SKILL_MANIFEST_VERSION,
            file_keys_valid(m),
            file_keys_distinct(m),
            n == file_keys@.len(),
            m == manifest.view(),
            forall|t: int| 0 <= t < n ==> manifest.files.map().contains_key(#[trigger] file_keys@[t]@),
            forall|t: int| 0 <= t < n ==> manifest.files.map().contains_key(#[trigger] file_keys@[t]@),
            forall|t: int| 0 <= t < i ==> valid_sha256(manifest.files.map()[#[trigger] file_keys@[t]@].source_sha256@)
                && valid_sha256(manifest.files.map()[file_keys@[t]@].destination_sha256@),
    {
        match manifest.files.get(file_keys[i].as_str()) {
            Some(record) => {
                if !validate_sha256(record.source_sha256.as_str()) || !validate_sha256(
                    record.destination_sha256.as_str(),
                ) {
                    proof {
                        assert(m.files.contains_key(file_keys@[i as int]@));
                    }
                    return Err(SkillSyncError::InvalidSha256);
                }
            },
            None => {},
        }
    }
    proof {
        assert forall|k: Seq<char>| #[trigger] m.files.contains_key(k) implies valid_sha256(m.files[k].source)
            && valid_sha256(m.files[k].destination) by {
            let t = choose|t: int| 0 <= t < file_keys@.len() && file_keys@[t]@ == k;
            assert(valid_sha256(manifest.files.map()[file_keys@[t]@].source_sha256@));
        }
    }
    let conflict_keys = manifest.conflicts.keys();
    let c = conflict_keys.len();
    for i in 0..c
        invariant
            m.version == SKILL_MANIFEST_VERSION,
            file_keys_valid(m),
            file_keys_distinct(m),
            file_digests_valid(m),
            c == conflict_keys@.len(),
            m == manifest.view(),
            forall|t: int| 0 <= t < c ==> manifest.conflicts.map().contains_key(#[trigger] conflict_keys@[t]@),
            forall|t: int| 0 <= t < i ==> valid_key_text(#[trigger] conflict_keys@[t]@),
    {
        if !validate_manifest_key(conflict_keys[i].as_str()) {
            proof {
                assert(m.conflicts.contains_key(conflict_keys@[i as int]@));
            }
            return Err(SkillSyncError::InvalidManifestKey);
        }
    }
    proof {
        assert forall|k: Seq<char>| #[trigger] m.conflicts.contains_key(k) implies valid_key_text(k) by {
            let t = choose|t: int| 0 <= t < conflict_keys@.len() && conflict_keys@[t]@ == k;
            assert(valid_key_text(conflict_keys@[t]@));
        }
    }
    for i in 0..c
        invariant
            m.version == SKILL_MANIFEST_VERSION,
            file_keys_valid(m),
            file_keys_distinct(m),
            file_digests_valid(m),
            conflict_keys_valid(m),
            c == conflict_keys@.len(),
            m == manifest.view(),
            forall|t: int| 0 <= t < c ==> manifest.conflicts.map().contains_key(#[trigger] conflict_keys@[t]@),
            forall|t: int| 0 <= t < c ==> manifest.conflicts.map().contains_key(#[trigger] conflict_keys@[t]@),
            forall|t: int| 0 <= t < i ==> valid_reason(manifest.conflicts.map()[#[trigger] conflict_keys@[t]@].reason@),
    {
        match manifest.conflicts.get(conflict_keys[i].as_str()) {
            Some(conflict) => {
                if !validate_conflict_reason(conflict.reason.as_str()) {
                    proof {
                        assert(m.conflicts.contains_key(conflict_keys@[i as int]@));
                    }
                    return Err(SkillSyncError::InvalidConflictReason);
                }
            },
            None => {},
        }
    }
    proof {
        assert forall|k: Seq<char>| #[trigger] m.conflicts.contains_key(k) implies valid_reason(m.conflicts[k].reason) by {
            let t = choose|t: int| 0 <= t < conflict_keys@.len() && conflict_keys@[t]@ == k;
            assert(valid_reason(manifest.conflicts.map()[conflict_keys@[t]@].reason@));
        }
    }
    for i in 0..c
        invariant
            m.version == SKILL_MANIFEST_VERSION,
            file_keys_valid(m),
            file_keys_distinct(m),
            file_digests_valid(m),
            conflict_keys_valid(m),
            conflict_reasons_valid(m),
            c == conflict_keys@.len(),
            m == manifest.view(),
            forall|t: int| 0 <= t < c ==> manifest.conflicts.map().contains_key(#[trigger] conflict_keys@[t]@),
            forall|t: int| 0 <= t < c ==> manifest.conflicts.map().contains_key(#[trigger] conflict_keys@[t]@),
            forall|t: int| 0 <= t < i ==> optional_sha_valid(
                optional_text(manifest.conflicts.map()[#[trigger] conflict_keys@[t]@].source_sha256),
            ) && optional_sha_valid(optional_text(manifest.conflicts.map()[conflict_keys@[t]@].destination_sha256)),
    {
        match manifest.conflicts.get(conflict_keys[i].as_str()) {
            Some(conflict) => {
                if !optional_sha256_valid(&conflict.source_sha256) || !optional_sha256_valid(
                    &conflict.destination_sha256,
                ) {
                    proof {
                        assert(m.conflicts.contains_key(conflict_keys@[i as int]@));
                    }
                    return Err(SkillSyncError::InvalidSha256);
                }
            },
            None => {},
        }
    }
    proof {
        assert forall|k: Seq<char>| #[trigger] m.conflicts.contains_key(k) implies optional_sha_valid(m.conflicts[k].source)
            && optional_sha_valid(m.conflicts[k].destination) by {
            let t = choose|t: int| 0 <= t < conflict_keys@.len() && conflict_keys@[t]@ == k;
            assert(optional_sha_valid(optional_text(manifest.conflicts.map()[conflict_keys@[t]@].source_sha256)));
        }
    }
    Ok(())
}


// ---------------------------------------------------------------------------------------
// Projecting, file by file
// ---------------------------------------------------------------------------------------

/// What a projection pass did, counted per outcome.
#[derive(Debug, Clone, PartialEq, Eq)]
pub struct NativeSkillSyncReceipt {
    pub projected: usize,
    pub updated: usize,
    pub removed: usize,
    pub unchanged: usize,
    pub conflicts: usize,
    pub skipped: usize,
}

/// The receipt of a pass that did nothing.
pub open spec fn zero_receipt() -> NativeSkillSyncReceipt {
    NativeSkillSyncReceipt { projected: 0, updated: 0, removed: 0, unchanged: 0, conflicts: 0, skipped: 0 }
}

impl NativeSkillSyncReceipt {
    /// A receipt with every count at zero.
    pub fn new() -> (result: Self)
        ensures
            result == zero_receipt(),
    {
        NativeSkillSyncReceipt { projected: 0, updated: 0, removed: 0, unchanged: 0, conflicts: 0, skipped: 0 }
    }

    /// No count is at its largest value, so each can grow by one.
    pub open spec fn can_count(&self) -> bool {
        &&& self.projected < usize::MAX
        &&& self.updated < usize::MAX
        &&& self.removed < usize::MAX
        &&& self.unchanged < usize::MAX
        &&& self.conflicts < usize::MAX
        &&& self.skipped < usize::MAX
    }
}

impl Default for NativeSkillSyncReceipt {
    fn default() -> (result: Self)
        ensures
            result == zero_receipt(),
    {
        NativeSkillSyncReceipt::new()
    }
}

/// What stands at a projection's destination.
#[derive(Debug, Clone, PartialEq, Eq)]
pub enum DestinationState {
    HardLink(String),
    Missing,
    NotRegular,
    ReparsePoint,
    Regular(String),
}

/// Why a source file cannot be projected.
#[derive(Debug, Clone, Copy, PartialEq, Eq, Structural)]
pub enum UnsafeSource {
    ReparsePoint,
    NotRegular,
    HardLink,
    TooLarge,
    Unstable,
}

/// What a directory entry of the source tree is.
#[derive(Debug, Clone, Copy, PartialEq, Eq, Structural)]
pub enum SourceEntryKind {
    ReparsePoint,
    Directory,
    File,
    Other,
}

/// What to do with a directory entry of the source tree.
#[derive(Debug, Clone, PartialEq, Eq)]
pub enum EntryPlan {
    /// The path is ignored.
    Skip,
    /// Walk into the directory.
    Descend,
    /// The source cannot be projected: set aside what was projected under this key.
    PreserveUnsafe { key: String, source: UnsafeSource },
    /// Read the file and project it under this key.
    ReadFile { key: String },
}

/// The reason recorded for an unsafe source.
pub open spec fn unsafe_reason(source: UnsafeSource) -> Seq<char> {
    match source {
        UnsafeSource::ReparsePoint => "source_reparse_point"@,
        UnsafeSource::NotRegular => "source_not_regular"@,
        UnsafeSource::HardLink => "source_hard_link"@,
        UnsafeSource::TooLarge => "source_too_large"@,
        UnsafeSource::Unstable => "source_changed_during_projection"@,
    }
}

impl UnsafeSource {
    /// The reason recorded for this source.
    pub fn reason(&self) -> (result: String)
        ensures
            result@ == unsafe_reason(*self),
    {
        match self {
            UnsafeSource::ReparsePoint => "source_reparse_point".to_string(),
            UnsafeSource::NotRegular => "source_not_regular".to_string(),
            UnsafeSource::HardLink => "source_hard_link".to_string(),
            UnsafeSource::TooLarge => "source_too_large".to_string(),
            UnsafeSource::Unstable => "source_changed_during_projection".to_string(),
        }
    }
}

/// The digest a destination shows, when it is a file that could be read.
pub open spec fn destination_digest(destination: DestinationState) -> Option<Seq<char>> {
    match destination {
        DestinationState::HardLink(digest) => Some(digest@),
        DestinationState::Regular(digest) => Some(digest@),
        _ => None,
    }
}

/// The lowercase hexadecimal SHA-256 digest of `content`.
pub open spec fn content_digest(content: Seq<u8>) -> Seq<char> {
    hex_lower(sha256_digest(content))
}

/// The lowercase hexadecimal SHA-256 digest of `content`.
pub fn sha256_bytes(content: &[u8]) -> (result: String)
    ensures
        result@ == content_digest(content@),
{
    let digest = sha256(content);
    let hex = hex_lower_chars(digest.as_slice());
    string_from_chars(hex.as_slice())
}

/// A destination file that could be read whole: a hard link when other names share it.
pub fn read_destination(link_count: u32, content: &[u8]) -> (result: DestinationState)
    ensures
        result == (if link_count != 1 {
            DestinationState::HardLink(result->HardLink_0)
        } else {
            DestinationState::Regular(result->Regular_0)
        }),
        destination_digest(result) == Some(content_digest(content@)),
{
    let digest = sha256_bytes(content);
    if link_count != 1 {
        DestinationState::HardLink(digest)
    } else {
        DestinationState::Regular(digest)
    }
}

/// What becomes of a source file, given the record of its last projection, the digest
/// of its content, and what stands at its destination.
pub ghost enum FileOutcome {
    Conflict(ConflictView),
    Unchanged,
    Project,
    Update,
}

/// The decision for a readable source file.
pub open spec fn file_outcome(previous: Option<RecordView>, source: Seq<char>, destination: DestinationState) -> FileOutcome {
    let seen = destination_digest(destination);
    match previous {
        Some(record) => if destination is HardLink || seen != Some(record.destination) {
            FileOutcome::Conflict(
                ConflictView {
                    reason: match destination {
                        DestinationState::HardLink(_) => "destination_hard_link"@,
                        DestinationState::Missing => "destination_missing"@,
                        DestinationState::NotRegular => "destination_not_regular"@,
                        DestinationState::ReparsePoint => "destination_reparse_point"@,
                        DestinationState::Regular(_) => "destination_modified"@,
                    },
                    source: Some(source),
                    destination: seen,
                },
            )
        } else if source == record.source {
            FileOutcome::Unchanged
        } else {
            FileOutcome::Update
        },
        None => match destination {
            DestinationState::Missing => FileOutcome::Project,
            DestinationState::HardLink(_) => FileOutcome::Conflict(
                ConflictView { reason: "destination_hard_link"@, source: Some(source), destination: seen },
            ),
            DestinationState::ReparsePoint => FileOutcome::Conflict(
                ConflictView { reason: "destination_reparse_point"@, source: Some(source), destination: None },
            ),
            DestinationState::NotRegular => FileOutcome::Conflict(
                ConflictView { reason: "unmanaged_destination"@, source: Some(source), destination: None },
            ),
            DestinationState::Regular(_) => FileOutcome::Conflict(
                ConflictView { reason: "unmanaged_destination"@, source: Some(source), destination: seen },
            ),
        },
    }
}

/// What becomes of a projection whose source is gone.
pub ghost enum DeletedOutcome {
    /// The destination is gone too: forget the projection.
    Forget,
    /// The destination is what was written: delete it and forget the projection.
    Remove,
    Conflict(ConflictView),
}

/// The decision for a projection whose source was deleted.
pub open spec fn deleted_outcome(record: RecordView, destination: DestinationState) -> DeletedOutcome {
    match destination {
        DestinationState::Missing => DeletedOutcome::Forget,
        DestinationState::HardLink(digest) => DeletedOutcome::Conflict(
            ConflictView {
                reason: "source_deleted_destination_hard_link"@,
                source: None,
                destination: Some(digest@),
            },
        ),
        DestinationState::ReparsePoint => DeletedOutcome::Conflict(
            ConflictView { reason: "source_deleted_destination_reparse_point"@, source: None, destination: None },
        ),
        DestinationState::NotRegular => DeletedOutcome::Conflict(
            ConflictView { reason: "source_deleted_destination_not_regular"@, source: None, destination: None },
        ),
        DestinationState::Regular(digest) => if digest@ != record.destination {
            DeletedOutcome::Conflict(
                ConflictView {
                    reason: "source_deleted_destination_modified"@,
                    source: None,
                    destination: Some(digest@),
                },
            )
        } else {
            DeletedOutcome::Remove
        },
    }
}

/// `key` names a projection at or under the source path `base`.
pub open spec fn managed_under(key: Seq<char>, base: Seq<char>) -> bool {
    key == base || (key.len() > base.len() && key.take(base.len() as int) == base && key[base.len() as int] == '/')
}

/// A projection pass in progress: the manifest as it stands, the keys whose sources were
/// met, and the counts so far.
pub struct SkillProjection {
    pub manifest: SkillProjectionManifest,
    pub seen: TextMap<()>,
    pub receipt: NativeSkillSyncReceipt,
}

impl SkillProjection {
    /// A pass over `manifest` that has met no source yet.
    pub fn new(manifest: SkillProjectionManifest) -> (result: Self)
        ensures
            result.manifest.view() == manifest.view(),
            result.seen.map().dom() == Set::<Seq<char>>::empty(),
            result.receipt == zero_receipt(),
    {
        let result = SkillProjection { manifest, seen: TextMap::new(), receipt: NativeSkillSyncReceipt::new() };
        proof {
            assert(result.seen.map().dom() =~= Set::<Seq<char>>::empty());
        }
        result
    }

    fn record_conflict(&mut self, key: String, conflict: SkillProjectionConflict)
        requires
            old(self).receipt.conflicts < usize::MAX,
        ensures
            final(self).manifest.view() == (ManifestView {
                conflicts: old(self).manifest.view().conflicts.insert(key@, conflict_view(conflict)),
                ..old(self).manifest.view()
            }),
            final(self).seen == old(self).seen,
            final(self).receipt == (NativeSkillSyncReceipt {
                conflicts: (old(self).receipt.conflicts + 1) as usize,
                ..old(self).receipt
            }),
    {
        let ghost before = self.manifest.conflicts.map();
        let ghost k = key@;
        self.manifest.conflicts.insert(key, conflict);
        self.receipt.conflicts = self.receipt.conflicts + 1;
        proof {
            assert(self.manifest.conflicts.map().map_values(|c: SkillProjectionConflict| conflict_view(c))
                =~= before.map_values(|c: SkillProjectionConflict| conflict_view(c)).insert(k, conflict_view(conflict)));
        }
    }

    /// Decides what to do with a directory entry at the relative path with these
    /// component names. An ignored path is counted as skipped; a file's key is marked as
    /// met before it is read.
    pub fn plan_entry(&mut self, components: &Vec<String>, kind: SourceEntryKind) -> (result: EntryPlan)
        requires
            old(self).receipt.skipped < usize::MAX,
        ensures
            final(self).manifest.view() == old(self).manifest.view(),
            ignored_path(strings_view(components@)) ==> {
                &&& result == EntryPlan::Skip
                &&& final(self).receipt == (NativeSkillSyncReceipt {
                    skipped: (old(self).receipt.skipped + 1) as usize,
                    ..old(self).receipt
                })
                &&& final(self).seen.map() == old(self).seen.map()
            },
            !ignored_path(strings_view(components@)) ==> {
                &&& final(self).receipt == old(self).receipt
                &&& match kind {
                    SourceEntryKind::ReparsePoint => result matches EntryPlan::PreserveUnsafe { key, source }
                        && key@ == joined_key(strings_view(components@)) && source == UnsafeSource::ReparsePoint
                        && final(self).seen.map() == old(self).seen.map(),
                    SourceEntryKind::Directory => result == EntryPlan::Descend && final(self).seen.map()
                        == old(self).seen.map(),
                    SourceEntryKind::Other => result matches EntryPlan::PreserveUnsafe { key, source }
                        && key@ == joined_key(strings_view(components@)) && source == UnsafeSource::NotRegular
                        && final(self).seen.map() == old(self).seen.map(),
                    SourceEntryKind::File => result matches EntryPlan::ReadFile { key } && key@ == joined_key(
                        strings_view(components@),
                    ) && final(self).seen.map() == old(self).seen.map().insert(key@, ()),
                }
            },
    {
        if should_ignore_relative_path(components) {
            self.receipt.skipped = self.receipt.skipped + 1;
            return EntryPlan::Skip;
        }
        let key = relative_path_key(components);
        match kind {
            SourceEntryKind::ReparsePoint => EntryPlan::PreserveUnsafe { key, source: UnsafeSource::ReparsePoint },
            SourceEntryKind::Directory => EntryPlan::Descend,
            SourceEntryKind::Other => EntryPlan::PreserveUnsafe { key, source: UnsafeSource::NotRegular },
            SourceEntryKind::File => {
                self.seen.insert(key.clone(), ());
                EntryPlan::ReadFile { key }
            },
        }
    }

    /// The keys of the manifest's projections at or under the source path `key`.
    pub fn managed_keys(&self, key: &str) -> (result: Vec<String>)
        ensures
            forall|i: int, j: int| 0 <= i < j < result@.len() ==> result@[i]@ != result@[j]@,
            forall|i: int| 0 <= i < result@.len() ==> self.manifest.view().files.contains_key(#[trigger] result@[i]@)
                && managed_under(result@[i]@, key@),
            forall|k: Seq<char>| #[trigger] self.manifest.view().files.contains_key(k) && managed_under(k, key@)
                ==> exists|i: int| 0 <= i < result@.len() && result@[i]@ == k,
    {
        let keys = self.manifest.files.keys();
        let base = chars_of(key);
        let mut result: Vec<String> = Vec::new();
        let ghost files = self.manifest.files.map();
        for i in 0..keys.len()
            invariant
                base@ == key@,
                files == self.manifest.files.map(),
                forall|x: int, y: int| 0 <= x < y < keys@.len() ==> keys@[x]@ != keys@[y]@,
                forall|t: int| 0 <= t < keys@.len() ==> files.contains_key(#[trigger] keys@[t]@),
                forall|a: int, t: int| 0 <= a < result@.len() && i <= t < keys@.len() ==> #[trigger] result@[a]@ != #[trigger] keys@[t]@,
                forall|a: int, b: int| 0 <= a < b < result@.len() ==> result@[a]@ != result@[b]@,
                forall|a: int| 0 <= a < result@.len() ==> files.contains_key(#[trigger] result@[a]@) && managed_under(
                    result@[a]@,
                    key@,
                ),
                forall|t: int| 0 <= t < i && managed_under(#[trigger] keys@[t]@, key@) ==> exists|a: int| 0 <= a < result@.len()
                    && result@[a]@ == keys@[t]@,
        {
            let candidate = chars_of(keys[i].as_str());
            let m = base.len();
            let mut under = candidate.len() == m || (candidate.len() > m && candidate[m] == '/');
            if under {
                let head = crate::text::slice_chars(candidate.as_slice(), 0, m);
                under = chars_equal(head.as_slice(), base.as_slice());
                proof {
                    assert(candidate@.take(m as int) =~= candidate@.subrange(0, m as int));
                    if candidate@.len() == m {
                        assert(candidate@.subrange(0, m as int) =~= candidate@);
                    }
                }
            }
            proof {
                assert(under == managed_under(keys@[i as int]@, key@)) by {
                    if managed_under(keys@[i as int]@, key@) && keys@[i as int]@ == key@ {
                        assert(candidate@.take(m as int) =~= candidate@);
                    }
                }
            }
            let ghost before = result@;
            if under {
                result.push(keys[i].clone());
                proof {
                    assert forall|a: int, b: int| 0 <= a < b < result@.len() implies result@[a]@ != result@[b]@ by {
                        if b == result@.len() - 1 {
                            assert(result@[a] == before[a]);
                        }
                    }
                }
            }
            proof {
                assert forall|a: int, t: int| 0 <= a < result@.len() && i + 1 <= t < keys@.len() implies #[trigger] result@[a]@
                    != #[trigger] keys@[t]@ by {
                    if a < before.len() {
                        assert(result@[a] == before[a]);
                    } else {
                        assert(result@[a]@ == keys@[i as int]@);
                    }
                }
                assert forall|t: int| 0 <= t < i + 1 && managed_under(#[trigger] keys@[t]@, key@) implies exists|a: int|
                    0 <= a < result@.len() && result@[a]@ == keys@[t]@ by {
                    if t < i {
                        let a = choose|a: int| 0 <= a < before.len() && before[a]@ == keys@[t]@;
                        assert(result@[a] == before[a]);
                    } else {
                        assert(result@[result@.len() - 1]@ == keys@[i as int]@);
                    }
                }
            }
        }
        proof {
            assert forall|k: Seq<char>| #[trigger] self.manifest.view().files.contains_key(k) && managed_under(k, key@)
                implies exists|i: int| 0 <= i < result@.len() && result@[i]@ == k by {
                assert(files.contains_key(k));
                let t = choose|t: int| 0 <= t < keys@.len() && keys@[t]@ == k;
                assert(managed_under(keys@[t]@, key@));
            }
        }
        result
    }

    /// Sets aside the projection under `key`, whose source cannot be projected; the key
    /// counts as met, so the projection is not removed.
    pub fn preserve_managed_projection(&mut self, key: &String, source: UnsafeSource, destination: DestinationState)
        requires
            old(self).receipt.conflicts < usize::MAX,
        ensures
            final(self).seen.map() == old(self).seen.map().insert(key@, ()),
            final(self).manifest.view() == (ManifestView {
                conflicts: old(self).manifest.view().conflicts.insert(
                    key@,
                    ConflictView { reason: unsafe_reason(source), source: None, destination: destination_digest(destination) },
                ),
                ..old(self).manifest.view()
            }),
            final(self).receipt == (NativeSkillSyncReceipt {
                conflicts: (old(self).receipt.conflicts + 1) as usize,
                ..old(self).receipt
            }),
    {
        self.seen.insert(key.clone(), ());
        let digest = match destination {
            DestinationState::HardLink(digest) => Some(digest),
            DestinationState::Regular(digest) => Some(digest),
            _ => None,
        };
        let conflict = SkillProjectionConflict { reason: source.reason(), source_sha256: None, destination_sha256: digest };
        self.record_conflict(key.clone(), conflict);
    }

    /// Counts an unsafe source, once its projections were set aside, as skipped.
    pub fn skip_unsafe_source(&mut self)
        requires
            old(self).receipt.skipped < usize::MAX,
        ensures
            final(self).manifest.view() == old(self).manifest.view(),
            final(self).seen.map() == old(self).seen.map(),
            final(self).receipt == (NativeSkillSyncReceipt {
                skipped: (old(self).receipt.skipped + 1) as usize,
                ..old(self).receipt
            }),
    {
        self.receipt.skipped = self.receipt.skipped + 1;
    }

    fn forget_conflict(&mut self, key: &String)
        ensures
            final(self).manifest.view() == (ManifestView {
                conflicts: old(self).manifest.view().conflicts.remove(key@),
                ..old(self).manifest.view()
            }),
            final(self).seen == old(self).seen,
            final(self).receipt == old(self).receipt,
    {
        let ghost before = self.manifest.conflicts.map();
        self.manifest.conflicts.remove(key.as_str());
        proof {
            assert(self.manifest.conflicts.map().map_values(|c: SkillProjectionConflict| conflict_view(c))
                =~= before.map_values(|c: SkillProjectionConflict| conflict_view(c)).remove(key@));
        }
    }

    fn record_projection(&mut self, key: &String, digest: String)
        ensures
            final(self).manifest.view() == (ManifestView {
                files: old(self).manifest.view().files.insert(key@, RecordView { source: digest@, destination: digest@ }),
                conflicts: old(self).manifest.view().conflicts.remove(key@),
                ..old(self).manifest.view()
            }),
            final(self).seen == old(self).seen,
            final(self).receipt == old(self).receipt,
    {
        self.forget_conflict(key);
        let ghost before = self.manifest.files.map();
        let record = SkillProjectionRecord { source_sha256: digest.clone(), destination_sha256: digest };
        self.manifest.files.insert(key.clone(), record);
        proof {
            assert(self.manifest.files.map().map_values(|r: SkillProjectionRecord| record_view(r))
                =~= before.map_values(|r: SkillProjectionRecord| record_view(r)).insert(key@, record_view(record)));
        }
    }

    /// Decides, for the file met under `key` whose content could be read whole, whether
    /// its projection is made, refreshed, kept or set aside, and records it. Returns
    /// whether `content` is to be written to the destination.
    pub fn project_source_file(&mut self, key: &String, content: &[u8], destination: DestinationState) -> (result: bool)
        requires
            old(self).receipt.can_count(),
        ensures
            final(self).seen.map() == old(self).seen.map(),
            ({
                let before = old(self).manifest.view();
                let after = final(self).manifest.view();
                let digest = content_digest(content@);
                let r = old(self).receipt;
                match file_outcome(before.files.get(key@), digest, destination) {
                    FileOutcome::Conflict(conflict) => {
                        &&& !result
                        &&& after == (ManifestView { conflicts: before.conflicts.insert(key@, conflict), ..before })
                        &&& final(self).receipt == (NativeSkillSyncReceipt { conflicts: (r.conflicts + 1) as usize, ..r })
                    },
                    FileOutcome::Unchanged => {
                        &&& !result
                        &&& after == (ManifestView { conflicts: before.conflicts.remove(key@), ..before })
                        &&& final(self).receipt == (NativeSkillSyncReceipt { unchanged: (r.unchanged + 1) as usize, ..r })
                    },
                    FileOutcome::Update => {
                        &&& result
                        &&& after == (ManifestView {
                            files: before.files.insert(key@, RecordView { source: digest, destination: digest }),
                            conflicts: before.conflicts.remove(key@),
                            ..before
                        })
                        &&& final(self).receipt == (NativeSkillSyncReceipt { updated: (r.updated + 1) as usize, ..r })
                    },
                    FileOutcome::Project => {
                        &&& result
                        &&& after == (ManifestView {
                            files: before.files.insert(key@, RecordView { source: digest, destination: digest }),
                            conflicts: before.conflicts.remove(key@),
                            ..before
                        })
                        &&& final(self).receipt == (NativeSkillSyncReceipt { projected: (r.projected + 1) as usize, ..r })
                    },
                }
            }),
    {
        let digest = sha256_bytes(content);
        let seen_digest: Option<String> = match &destination {
            DestinationState::HardLink(d) => Some(d.clone()),
            DestinationState::Regular(d) => Some(d.clone()),
            _ => None,
        };
        let previous = match self.manifest.files.get(key.as_str()) {
            Some(record) => Some(
                SkillProjectionRecord {
                    source_sha256: record.source_sha256.clone(),
                    destination_sha256: record.destination_sha256.clone(),
                },
            ),
            None => None,
        };
        proof {
            assert(self.manifest.view().files.get(key@) == match previous {
                Some(record) => Some(record_view(record)),
                None => None::<RecordView>,
            });
        }
        match previous {
            Some(record) => {
                let modified = match &seen_digest {
                    Some(d) => *d != record.destination_sha256,
                    None => true,
                };
                if destination.is_hard_link() || modified {
                    let reason = match destination {
                        DestinationState::HardLink(_) => "destination_hard_link".to_string(),
                        DestinationState::Missing => "destination_missing".to_string(),
                        DestinationState::NotRegular => "destination_not_regular".to_string(),
                        DestinationState::ReparsePoint => "destination_reparse_point".to_string(),
                        DestinationState::Regular(_) => "destination_modified".to_string(),
                    };
                    let conflict = SkillProjectionConflict {
                        reason,
                        source_sha256: Some(digest),
                        destination_sha256: seen_digest,
                    };
                    self.record_conflict(key.clone(), conflict);
                    return false;
                }
                if digest == record.source_sha256 {
                    self.forget_conflict(key);
                    self.receipt.unchanged = self.receipt.unchanged + 1;
                    return false;
                }
                self.record_projection(key, digest);
                self.receipt.updated = self.receipt.updated + 1;
                true
            },
            None => {
                let reason = match destination {
                    DestinationState::Missing => {
                        self.record_projection(key, digest);
                        self.receipt.projected = self.receipt.projected + 1;
                        return true;
                    },
                    DestinationState::HardLink(_) => "destination_hard_link".to_string(),
                    DestinationState::ReparsePoint => "destination_reparse_point".to_string(),
                    DestinationState::NotRegular => "unmanaged_destination".to_string(),
                    DestinationState::Regular(_) => "unmanaged_destination".to_string(),
                };
                let conflict = SkillProjectionConflict { reason, source_sha256: Some(digest), destination_sha256: seen_digest };
                self.record_conflict(key.clone(), conflict);
                false
            },
        }
    }

    /// The keys of projections whose sources were not met in this pass.
    pub fn deleted_keys(&self) -> (result: Vec<String>)
        ensures
            forall|i: int, j: int| 0 <= i < j < result@.len() ==> result@[i]@ != result@[j]@,
            forall|i: int| 0 <= i < result@.len() ==> self.manifest.view().files.contains_key(#[trigger] result@[i]@)
                && !self.seen.map().contains_key(result@[i]@),
            forall|k: Seq<char>| #[trigger] self.manifest.view().files.contains_key(k) && !self.seen.map().contains_key(k)
                ==> exists|i: int| 0 <= i < result@.len() && result@[i]@ == k,
    {
        let keys = self.manifest.files.keys();
        let mut result: Vec<String> = Vec::new();
        let ghost files = self.manifest.files.map();
        for i in 0..keys.len()
            invariant
                files == self.manifest.files.map(),
                forall|x: int, y: int| 0 <= x < y < keys@.len() ==> keys@[x]@ != keys@[y]@,
                forall|t: int| 0 <= t < keys@.len() ==> files.contains_key(#[trigger] keys@[t]@),
                forall|a: int, t: int| 0 <= a < result@.len() && i <= t < keys@.len() ==> #[trigger] result@[a]@
                    != #[trigger] keys@[t]@,
                forall|a: int, b: int| 0 <= a < b < result@.len() ==> result@[a]@ != result@[b]@,
                forall|a: int| 0 <= a < result@.len() ==> files.contains_key(#[trigger] result@[a]@)
                    && !self.seen.map().contains_key(result@[a]@),
                forall|t: int| 0 <= t < i && !self.seen.map().contains_key(#[trigger] keys@[t]@) ==> exists|a: int|
                    0 <= a < result@.len() && result@[a]@ == keys@[t]@,
        {
            let ghost before = result@;
            if !self.seen.contains_key(keys[i].as_str()) {
                result.push(keys[i].clone());
                proof {
                    assert forall|a: int, b: int| 0 <= a < b < result@.len() implies result@[a]@ != result@[b]@ by {
                        if b == result@.len() - 1 {
                            assert(result@[a] == before[a]);
                        }
                    }
                }
            }
            proof {
                assert forall|a: int, t: int| 0 <= a < result@.len() && i + 1 <= t < keys@.len() implies #[trigger] result@[a]@
                    != #[trigger] keys@[t]@ by {
                    if a < before.len() {
                        assert(result@[a] == before[a]);
                    } else {
                        assert(result@[a]@ == keys@[i as int]@);
                    }
                }
                assert forall|t: int| 0 <= t < i + 1 && !self.seen.map().contains_key(#[trigger] keys@[t]@) implies exists|a: int|
                    0 <= a < result@.len() && result@[a]@ == keys@[t]@ by {
                    if t < i {
                        let a = choose|a: int| 0 <= a < before.len() && before[a]@ == keys@[t]@;
                        assert(result@[a] == before[a]);
                    } else {
                        assert(result@[result@.len() - 1]@ == keys@[i as int]@);
                    }
                }
            }
        }
        proof {
            assert forall|k: Seq<char>| #[trigger] self.manifest.view().files.contains_key(k) && !self.seen.map().contains_key(k)
                implies exists|i: int| 0 <= i < result@.len() && result@[i]@ == k by {
                assert(files.contains_key(k));
                let t = choose|t: int| 0 <= t < keys@.len() && keys@[t]@ == k;
                assert(!self.seen.map().contains_key(keys@[t]@));
            }
        }
        result
    }

    /// Decides what becomes of the projection under `key`, whose source is gone, and
    /// records it. Returns whether the destination file is to be deleted.
    pub fn settle_deleted_projection(&mut self, key: &String, destination: DestinationState) -> (result: bool)
        requires
            old(self).manifest.view().files.contains_key(key@),
            old(self).receipt.can_count(),
        ensures
            final(self).seen.map() == old(self).seen.map(),
            ({
                let before = old(self).manifest.view();
                let after = final(self).manifest.view();
                let r = old(self).receipt;
                match deleted_outcome(before.files[key@], destination) {
                    DeletedOutcome::Forget => {
                        &&& !result
                        &&& after == (ManifestView {
                            files: before.files.remove(key@),
                            conflicts: before.conflicts.remove(key@),
                            ..before
                        })
                        &&& final(self).receipt == r
                    },
                    DeletedOutcome::Remove => {
                        &&& result
                        &&& after == (ManifestView {
                            files: before.files.remove(key@),
                            conflicts: before.conflicts.remove(key@),
                            ..before
                        })
                        &&& final(self).receipt == (NativeSkillSyncReceipt { removed: (r.removed + 1) as usize, ..r })
                    },
                    DeletedOutcome::Conflict(conflict) => {
                        &&& !result
                        &&& after == (ManifestView { conflicts: before.conflicts.insert(key@, conflict), ..before })
                        &&& final(self).receipt == (NativeSkillSyncReceipt { conflicts: (r.conflicts + 1) as usize, ..r })
                    },
                }
            }),
    {
        let recorded = match self.manifest.files.get(key.as_str()) {
            Some(record) => record.destination_sha256.clone(),
            None => String::new(),
        };
        let (reason, digest) = match destination {
            DestinationState::Missing => {
                self.forget_projection(key);
                return false;
            },
            DestinationState::HardLink(digest) => ("source_deleted_destination_hard_link".to_string(), Some(digest)),
            DestinationState::ReparsePoint => ("source_deleted_destination_reparse_point".to_string(), None),
            DestinationState::NotRegular => ("source_deleted_destination_not_regular".to_string(), None),
            DestinationState::Regular(digest) => {
                if digest == recorded {
                    self.forget_projection(key);
                    self.receipt.removed = self.receipt.removed + 1;
                    return true;
                }
                ("source_deleted_destination_modified".to_string(), Some(digest))
            },
        };
        let conflict = SkillProjectionConflict { reason, source_sha256: None, destination_sha256: digest };
        self.record_conflict(key.clone(), conflict);
        false
    }

    fn forget_projection(&mut self, key: &String)
        ensures
            final(self).manifest.view() == (ManifestView {
                files: old(self).manifest.view().files.remove(key@),
                conflicts: old(self).manifest.view().conflicts.remove(key@),
                ..old(self).manifest.view()
            }),
            final(self).seen == old(self).seen,
            final(self).receipt == old(self).receipt,
    {
        self.forget_conflict(key);
        let ghost before = self.manifest.files.map();
        self.manifest.files.remove(key.as_str());
        proof {
            assert(self.manifest.files.map().map_values(|r: SkillProjectionRecord| record_view(r))
                =~= before.map_values(|r: SkillProjectionRecord| record_view(r)).remove(key@));
        }
    }

    /// The manifest to store and the counts of the pass.
    pub fn into_parts(self) -> (result: (SkillProjectionManifest, NativeSkillSyncReceipt))
        ensures
            result.0.view() == self.manifest.view(),
            result.1 == self.receipt,
    {
        (self.manifest, self.receipt)
    }
}

impl DestinationState {
    pub fn is_hard_link(&self) -> (result: bool)
        ensures
            result == (*self is HardLink),
    {
        match self {
            DestinationState::HardLink(_) => true,
            _ => false,
        }
    }
}


/// The largest Skill file that is projected, in bytes.
pub const MAX_SKILL_FILE_BYTES: u64 = 67108864;

/// What an opened source file's metadata says before it is read: why it cannot be
/// projected, or `None` when it can be read.
pub fn classify_source_snapshot(reparse_point: bool, directory: bool, link_count: u32, len: u64) -> (result: Option<
    UnsafeSource,
>)
    ensures
        result == (if reparse_point {
            Some(UnsafeSource::ReparsePoint)
        } else if directory {
            Some(UnsafeSource::NotRegular)
        } else if link_count != 1 {
            Some(UnsafeSource::HardLink)
        } else if len > MAX_SKILL_FILE_BYTES {
            Some(UnsafeSource::TooLarge)
        } else {
            None
        }),
{
    if reparse_point {
        Some(UnsafeSource::ReparsePoint)
    } else if directory {
        Some(UnsafeSource::NotRegular)
    } else if link_count != 1 {
        Some(UnsafeSource::HardLink)
    } else if len > MAX_SKILL_FILE_BYTES {
        Some(UnsafeSource::TooLarge)
    } else {
        None
    }
}

/// What an opened destination's metadata says before it is read: what stands there when
/// it cannot be read, or `None` when it can.
pub fn classify_destination_snapshot(reparse_point: bool, directory: bool, len: u64) -> (result: Option<
    DestinationState,
>)
    ensures
        result == (if reparse_point {
            Some(DestinationState::ReparsePoint)
        } else if directory || len > MAX_SKILL_FILE_BYTES {
            Some(DestinationState::NotRegular)
        } else {
            None
        }),
{
    if reparse_point {
        Some(DestinationState::ReparsePoint)
    } else if directory || len > MAX_SKILL_FILE_BYTES {
        Some(DestinationState::NotRegular)
    } else {
        None
    }
}

} // verus!
