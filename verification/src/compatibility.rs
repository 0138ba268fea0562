//! Which host builds are verified to accept the provider injection.

use vstd::prelude::*;
use vstd::string::*;

use crate::digest::{char_is_hex, hex_lower, is_hex_char, sha256_digest};
use crate::skill_sync::sha256_bytes;
use crate::host::HostAdapterKind;
use crate::mode::AgentMode;
use crate::strings::string_from_chars;
use crate::text::{trim_chars, trimmed};

verus! {

/// The version of this project that compatibility entries must target.
pub const PROJECT_VERSION: &'static str = "0.1.0";

/// The largest number of host identities a manifest may list.
pub const MAX_MANIFEST_HOSTS: usize = 1024;

/// Why a compatibility identity or manifest was refused.
#[derive(Debug, Clone, Copy, PartialEq, Eq)]
pub enum CompatibilityError {
    InvalidHostIdentity,
    UnsupportedSchemaVersion,
    TooManyHosts,
    ProjectVersionMismatch,
    UnsupportedBootstrapVersion,
    InvalidEvidenceDigest,
}

/// The ASCII lowercase form of `c`.
pub open spec fn ascii_lower_char(c: char) -> char {
    if 'A' <= c && c <= 'Z' {
        (((c as u8) + 32) as u8) as char
    } else {
        c
    }
}

/// The ASCII lowercase form of `s`.
pub open spec fn ascii_lower(s: Seq<char>) -> Seq<char> {
    s.map_values(|c: char| ascii_lower_char(c))
}

pub fn to_ascii_lower_char(c: char) -> (result: char)
    ensures
        result == ascii_lower_char(c),
{
    if 'A' <= c && c <= 'Z' {
        ((c as u8) + 32) as char
    } else {
        c
    }
}

/// Whether `left` and `right` are equal up to ASCII case.
pub fn eq_ignore_ascii_case(left: &[char], right: &[char]) -> (result: bool)
    ensures
        result == (ascii_lower(left@) == ascii_lower(right@)),
{
    if left.len() != right.len() {
        proof {
            assert(ascii_lower(left@).len() != ascii_lower(right@).len());
        }
        return false;
    }
    for index in 0..left.len()
        invariant
            left@.len() == right@.len(),
            forall|i: int| 0 <= i < index ==> ascii_lower_char(left@[i]) == ascii_lower_char(right@[i]),
    {
        if to_ascii_lower_char(left[index]) != to_ascii_lower_char(right[index]) {
            proof {
                assert(ascii_lower(left@)[index as int] != ascii_lower(right@)[index as int]);
            }
            return false;
        }
    }
    proof {
        assert(ascii_lower(left@) =~= ascii_lower(right@));
    }
    true
}

/// The canonical SHA-256 text of `value`: trimmed, 64 hexadecimal digits, in lowercase.
pub open spec fn normalized_sha256(value: Seq<char>) -> Option<Seq<char>> {
    let t = trimmed(value);
    if t.len() == 64 && forall|i: int| 0 <= i < t.len() ==> is_hex_char(#[trigger] t[i]) {
        Some(ascii_lower(t))
    } else {
        None
    }
}

/// Canonicalizes a SHA-256 text, or fails when it is not one.
pub fn normalize_sha256(value: &str) -> (result: Result<String, CompatibilityError>)
    ensures
        match (result, normalized_sha256(value@)) {
            (Ok(text), Some(expected)) => text@ == expected,
            (Err(error), None) => error == CompatibilityError::InvalidHostIdentity,
            _ => false,
        },
{
    let t = trim_chars(value);
    if t.len() != 64 {
        return Err(CompatibilityError::InvalidHostIdentity);
    }
    let mut lowered: Vec<char> = Vec::new();
    for index in 0..t.len()
        invariant
            t@ == trimmed(value@),
            t@.len() == 64,
            forall|i: int| 0 <= i < index ==> is_hex_char(#[trigger] t@[i]),
            lowered@ == ascii_lower(t@.take(index as int)),
    {
        if !char_is_hex(t[index]) {
            return Err(CompatibilityError::InvalidHostIdentity);
        }
        proof {
            assert(ascii_lower(t@.take(index + 1)) =~= ascii_lower(t@.take(index as int)).push(
                ascii_lower_char(t@[index as int]),
            ));
        }
        lowered.push(to_ascii_lower_char(t[index]));
    }
    proof {
        assert(t@.take(64) =~= t@);
    }
    Ok(string_from_chars(lowered.as_slice()))
}

/// The allowed host digests, per adapter, each normalized and listed once.
pub struct CompatibilityPolicy {
    pub direct: Vec<String>,
    pub codex_plus_plus: Vec<String>,
}

/// The texts of a list of strings.
pub open spec fn texts(values: Seq<String>) -> Seq<Seq<char>> {
    values.map_values(|value: String| value@)
}

impl CompatibilityPolicy {
    /// The digests allowed for `adapter`.
    pub open spec fn allowed(&self, adapter: HostAdapterKind) -> Set<Seq<char>> {
        match adapter {
            HostAdapterKind::Direct => texts(self.direct@).to_set(),
            HostAdapterKind::CodexPlusPlus => texts(self.codex_plus_plus@).to_set(),
        }
    }

    /// A policy that allows nothing.
    pub fn new() -> (result: Self)
        ensures
            result.allowed(HostAdapterKind::Direct).is_empty(),
            result.allowed(HostAdapterKind::CodexPlusPlus).is_empty(),
    {
        let result = CompatibilityPolicy { direct: Vec::new(), codex_plus_plus: Vec::new() };
        proof {
            assert(texts(result.direct@).to_set() =~= Set::empty());
            assert(texts(result.codex_plus_plus@).to_set() =~= Set::empty());
        }
        result
    }

    /// Also allows the host digest `sha256` for `adapter`.
    pub fn allow_host_sha256(self, adapter: HostAdapterKind, sha256: &str) -> (result: Result<Self, CompatibilityError>)
        ensures
            match result {
                Ok(policy) => normalized_sha256(sha256@) is Some && policy.allowed(adapter) == self.allowed(
                    adapter,
                ).insert(normalized_sha256(sha256@)->Some_0) && policy.allowed(other_adapter(adapter))
                    == self.allowed(other_adapter(adapter)),
                Err(error) => normalized_sha256(sha256@) is None && error
                    == CompatibilityError::InvalidHostIdentity,
            },
    {
        let digest = normalize_sha256(sha256)?;
        let mut policy = self;
        match adapter {
            HostAdapterKind::Direct => {
                insert_text(&mut policy.direct, digest);
            },
            HostAdapterKind::CodexPlusPlus => {
                insert_text(&mut policy.codex_plus_plus, digest);
            },
        }
        Ok(policy)
    }

    /// Injection follows the requested mode only for a host whose digest the policy allows.
    pub fn evaluate(&self, adapter: HostAdapterKind, sha256: Option<&str>, requested: AgentMode) -> (result: CompatibilityDecision)
        ensures
            ({
                let verified = match sha256 {
                    Some(value) => normalized_sha256(value@) matches Some(digest) && self.allowed(
                        adapter,
                    ).contains(digest),
                    None => false,
                };
                if verified {
                    result == CompatibilityDecision::Enabled(requested)
                } else {
                    result matches CompatibilityDecision::NativeOnly { requested: r, reason } && r
                        == requested && reason@ == unverified_host_identity_reason()
                }
            }),
    {
        let verified = match sha256 {
            Some(value) => match normalize_sha256(value) {
                Ok(digest) => {
                    let list = match adapter {
                        HostAdapterKind::Direct => &self.direct,
                        HostAdapterKind::CodexPlusPlus => &self.codex_plus_plus,
                    };
                    contains_text(list, &digest)
                },
                Err(_) => false,
            },
            None => false,
        };
        if verified {
            CompatibilityDecision::Enabled(requested)
        } else {
            CompatibilityDecision::NativeOnly { requested, reason: unverified_host_identity() }
        }
    }
}

/// The adapter other than `adapter`.
pub open spec fn other_adapter(adapter: HostAdapterKind) -> HostAdapterKind {
    match adapter {
        HostAdapterKind::Direct => HostAdapterKind::CodexPlusPlus,
        HostAdapterKind::CodexPlusPlus => HostAdapterKind::Direct,
    }
}

/// The reason given when a host identity is not verified.
pub open spec fn unverified_host_identity_reason() -> Seq<char> {
    seq!['u', 'n', 'v', 'e', 'r', 'i', 'f', 'i', 'e', 'd', '_', 'h', 'o', 's', 't', '_', 'i', 'd', 'e', 'n', 't', 'i', 't', 'y']
}

fn unverified_host_identity() -> (result: String)
    ensures
        result@ == unverified_host_identity_reason(),
{
    let chars = vec!['u', 'n', 'v', 'e', 'r', 'i', 'f', 'i', 'e', 'd', '_', 'h', 'o', 's', 't', '_', 'i', 'd', 'e', 'n', 't', 'i', 't', 'y'];
    proof {
        assert(chars@ =~= unverified_host_identity_reason());
    }
    string_from_chars(chars.as_slice())
}

/// Whether `list` holds a string equal to `value`.
pub fn contains_text(list: &Vec<String>, value: &String) -> (result: bool)
    ensures
        result == texts(list@).to_set().contains(value@),
{
    for index in 0..list.len()
        invariant
            forall|i: int| 0 <= i < index ==> list@[i]@ != value@,
    {
        if list[index] == *value {
            proof {
                assert(texts(list@)[index as int] == value@);
            }
            return true;
        }
    }
    proof {
        if texts(list@).contains(value@) {
            let i = choose|i: int| 0 <= i < texts(list@).len() && texts(list@)[i] == value@;
            assert(list@[i]@ == value@);
        }
    }
    false
}

fn insert_text(list: &mut Vec<String>, value: String)
    ensures
        texts(final(list)@).to_set() == texts(old(list)@).to_set().insert(value@),
{
    if !contains_text(list, &value) {
        let ghost before = list@;
        list.push(value);
        proof {
            assert(texts(list@) =~= texts(before).push(value@));
            assert(texts(list@).to_set() =~= texts(before).to_set().insert(value@)) by {
                assert forall|t: Seq<char>| texts(list@).to_set().contains(t) <==> texts(before).to_set().insert(value@).contains(t) by {
                    if texts(list@).contains(t) {
                        let i = choose|i: int| 0 <= i < texts(list@).len() && texts(list@)[i] == t;
                        if i < before.len() {
                            assert(texts(before)[i] == t);
                        }
                    }
                    if texts(before).contains(t) {
                        let i = choose|i: int| 0 <= i < texts(before).len() && texts(before)[i] == t;
                        assert(texts(list@)[i] == t);
                    }
                    if t == value@ {
                        assert(texts(list@)[before.len() as int] == t);
                    }
                }
            }
        }
    } else {
        proof {
            assert(texts(list@).to_set() =~= texts(list@).to_set().insert(value@));
        }
    }
}

/// Whether injection runs, and in which mode.
#[derive(Debug, Clone, PartialEq, Eq)]
pub enum CompatibilityDecision {
    Enabled(AgentMode),
    NativeOnly { requested: AgentMode, reason: String },
}

impl CompatibilityDecision {
    /// The mode that actually runs: the requested one when enabled, the host's own GPT
    /// otherwise.
    pub fn effective_mode(&self) -> (result: AgentMode)
        ensures
            result == match self {
                CompatibilityDecision::Enabled(mode) => *mode,
                CompatibilityDecision::NativeOnly { .. } => AgentMode::NativeGptMain,
            },
    {
        match self {
            CompatibilityDecision::Enabled(mode) => *mode,
            CompatibilityDecision::NativeOnly { .. } => AgentMode::NativeGptMain,
        }
    }

    /// Injection runs only when enabled for the Grok mode.
    pub fn injection_enabled(&self) -> (result: bool)
        ensures
            result == (*self matches CompatibilityDecision::Enabled(mode) && mode == AgentMode::GrokNativeModel),
    {
        match self {
            CompatibilityDecision::Enabled(AgentMode::GrokNativeModel) => true,
            _ => false,
        }
    }
}


/// A host build as observed: its adapter and the lowercase hexadecimal SHA-256 digest of
/// its executable.
#[derive(Debug, Clone, PartialEq, Eq)]
pub struct HostIdentity {
    pub adapter: HostAdapterKind,
    pub sha256: String,
}

impl HostIdentity {
    /// The identity of the executable whose bytes are `content`.
    pub fn from_executable(adapter: HostAdapterKind, content: &[u8]) -> (result: Self)
        ensures
            result.adapter == adapter,
            result.sha256@ == hex_lower(sha256_digest(content@)),
    {
        HostIdentity { adapter, sha256: sha256_bytes(content) }
    }

    /// Whether the executable whose bytes are `content` is this build.
    pub fn matches_executable(&self, content: &[u8]) -> (result: bool)
        ensures
            result == (self.sha256@ == hex_lower(sha256_digest(content@))),
    {
        let observed = sha256_bytes(content);
        crate::text::chars_equal(
            crate::text::chars_of(self.sha256.as_str()).as_slice(),
            crate::text::chars_of(observed.as_str()).as_slice(),
        )
    }
}

/// One verified host build: its adapter, digest, the project and bootstrap versions it was
/// verified with, and the digest of the end-to-end evidence.
#[derive(Debug, Clone, PartialEq, Eq)]
pub struct CompatibilityManifestEntry {
    pub adapter: HostAdapterKind,
    pub sha256: String,
    pub project_version: String,
    pub bootstrap_version: u8,
    pub evidence_sha256: String,
}

/// The shipped list of verified host builds.
#[derive(Debug, Clone, PartialEq, Eq)]
pub struct CompatibilityManifest {
    pub schema_version: u8,
    pub hosts: Vec<CompatibilityManifestEntry>,
}

/// The characters of `PROJECT_VERSION`.
pub open spec fn project_version_text() -> Seq<char> {
    seq!['0', '.', '1', '.', '0']
}

/// Why an entry cannot become part of a policy, if it cannot.
pub open spec fn entry_error(entry: CompatibilityManifestEntry) -> Option<CompatibilityError> {
    if entry.project_version@ != project_version_text() {
        Some(CompatibilityError::ProjectVersionMismatch)
    } else if entry.bootstrap_version != 1 {
        Some(CompatibilityError::UnsupportedBootstrapVersion)
    } else if normalized_sha256(entry.evidence_sha256@) is None {
        Some(CompatibilityError::InvalidEvidenceDigest)
    } else if normalized_sha256(entry.sha256@) is None {
        Some(CompatibilityError::InvalidHostIdentity)
    } else {
        None
    }
}

/// The error of the first entry that has one.
pub open spec fn manifest_error(entries: Seq<CompatibilityManifestEntry>) -> Option<CompatibilityError>
    decreases entries.len(),
{
    if entries.len() == 0 {
        None
    } else {
        match entry_error(entries[0]) {
            Some(error) => Some(error),
            None => manifest_error(entries.drop_first()),
        }
    }
}

/// The digests that the entries allow for `adapter`.
pub open spec fn manifest_allowed(entries: Seq<CompatibilityManifestEntry>, adapter: HostAdapterKind) -> Set<Seq<char>> {
    Set::new(
        |digest: Seq<char>|
            exists|i: int|
                #![trigger entries[i]]
                0 <= i < entries.len() && entries[i].adapter == adapter && normalized_sha256(entries[i].sha256@)
                    == Some(digest),
    )
}

proof fn lemma_manifest_error_skip(entries: Seq<CompatibilityManifestEntry>, k: int)
    requires
        0 <= k <= entries.len(),
        forall|i: int| 0 <= i < k ==> entry_error(#[trigger] entries[i]) is None,
    ensures
        manifest_error(entries) == manifest_error(entries.skip(k)),
    decreases k,
{
    if k == 0 {
        assert(entries.skip(0) =~= entries);
    } else {
        assert(entry_error(entries[0]) is None);
        assert forall|i: int| 0 <= i < k - 1 implies entry_error(#[trigger] entries.drop_first()[i]) is None by {
            assert(entries.drop_first()[i] == entries[i + 1]);
        }
        lemma_manifest_error_skip(entries.drop_first(), k - 1);
        assert(entries.drop_first().skip(k - 1) =~= entries.skip(k));
    }
}

fn version_matches(version: &str) -> (result: bool)
    ensures
        result == (version@ == project_version_text()),
{
    let chars = crate::text::chars_of(version);
    let expected = vec!['0', '.', '1', '.', '0'];
    proof {
        assert(expected@ =~= project_version_text());
    }
    if chars.len() != expected.len() {
        return false;
    }
    for index in 0..chars.len()
        invariant
            chars@ == version@,
            expected@ == project_version_text(),
            chars@.len() == expected@.len(),
            forall|i: int| 0 <= i < index ==> chars@[i] == expected@[i],
    {
        if chars[index] != expected[index] {
            return false;
        }
    }
    proof {
        assert(chars@ =~= expected@);
    }
    true
}

impl CompatibilityManifest {
    /// A parsed manifest is usable when it has schema version 1 and at most
    /// `MAX_MANIFEST_HOSTS` entries.
    pub fn validate(&self) -> (result: Result<(), CompatibilityError>)
        ensures
            self.schema_version != 1 ==> result == Err::<(), CompatibilityError>(CompatibilityError::UnsupportedSchemaVersion),
            self.schema_version == 1 && self.hosts@.len() > MAX_MANIFEST_HOSTS ==> result == Err::<(), CompatibilityError>(CompatibilityError::TooManyHosts),
            result is Ok <==> self.schema_version == 1 && self.hosts@.len() <= MAX_MANIFEST_HOSTS,
    {
        if self.schema_version != 1 {
            return Err(CompatibilityError::UnsupportedSchemaVersion);
        }
        if self.hosts.len() > MAX_MANIFEST_HOSTS {
            return Err(CompatibilityError::TooManyHosts);
        }
        Ok(())
    }

    /// The policy that allows exactly the digests of the entries, when every entry targets
    /// this project version and bootstrap version 1 and carries valid digests.
    pub fn into_policy(self) -> (result: Result<CompatibilityPolicy, CompatibilityError>)
        ensures
            match (result, manifest_error(self.hosts@)) {
                (Ok(policy), None) => policy.allowed(HostAdapterKind::Direct) == manifest_allowed(
                    self.hosts@,
                    HostAdapterKind::Direct,
                ) && policy.allowed(HostAdapterKind::CodexPlusPlus) == manifest_allowed(
                    self.hosts@,
                    HostAdapterKind::CodexPlusPlus,
                ),
                (Err(error), Some(expected)) => error == expected,
                _ => false,
            },
    {
        let mut policy = CompatibilityPolicy::new();
        let ghost entries = self.hosts@;
        let hosts = self.hosts;
        for index in 0..hosts.len()
            invariant
                hosts@ == entries,
                entries == self.hosts@,
                forall|i: int| 0 <= i < index ==> entry_error(#[trigger] hosts@[i]) is None,
                policy.allowed(HostAdapterKind::Direct) == manifest_allowed(hosts@.take(index as int), HostAdapterKind::Direct),
                policy.allowed(HostAdapterKind::CodexPlusPlus) == manifest_allowed(
                    hosts@.take(index as int),
                    HostAdapterKind::CodexPlusPlus,
                ),
        {
            let host = &hosts[index];
            proof {
                lemma_manifest_error_skip(hosts@, index as int);
                assert(hosts@.skip(index as int)[0] == hosts@[index as int]);
            }
            if !version_matches(host.project_version.as_str()) {
                proof {
                    assert(hosts@[index as int].project_version@ != project_version_text());
                    assert(entry_error(hosts@[index as int]) == Some(CompatibilityError::ProjectVersionMismatch));
                    assert(manifest_error(hosts@.skip(index as int)) == Some(CompatibilityError::ProjectVersionMismatch));
                }
                return Err(CompatibilityError::ProjectVersionMismatch);
            }
            if host.bootstrap_version != 1 {
                return Err(CompatibilityError::UnsupportedBootstrapVersion);
            }
            if normalize_sha256(host.evidence_sha256.as_str()).is_err() {
                return Err(CompatibilityError::InvalidEvidenceDigest);
            }
            let ghost before = policy;
            policy = match policy.allow_host_sha256(host.adapter, host.sha256.as_str()) {
                Ok(next) => next,
                Err(error) => {
                    proof {
                        assert(entry_error(hosts@[index as int]) == Some(CompatibilityError::InvalidHostIdentity));
                        assert(manifest_error(hosts@.skip(index as int)) == Some(CompatibilityError::InvalidHostIdentity));
                    }
                    return Err(error);
                },
            };
            proof {
                let prefix = hosts@.take(index as int);
                let next = hosts@.take(index + 1);
                assert(next =~= prefix.push(hosts@[index as int]));
                let digest = normalized_sha256(hosts@[index as int].sha256@)->Some_0;
                assert forall|adapter: HostAdapterKind| #[trigger] manifest_allowed(next, adapter) == if adapter == hosts@[index as int].adapter {
                    manifest_allowed(prefix, adapter).insert(digest)
                } else {
                    manifest_allowed(prefix, adapter)
                } by {
                    assert forall|d: Seq<char>| manifest_allowed(next, adapter).contains(d) <==> (if adapter == hosts@[index as int].adapter {
                        manifest_allowed(prefix, adapter).insert(digest)
                    } else {
                        manifest_allowed(prefix, adapter)
                    }).contains(d) by {
                        if manifest_allowed(next, adapter).contains(d) {
                            let i = choose|i: int| #![trigger next[i]] 0 <= i < next.len() && next[i].adapter == adapter && normalized_sha256(next[i].sha256@) == Some(d);
                            if i < prefix.len() {
                                assert(prefix[i] == next[i]);
                            }
                        }
                        if manifest_allowed(prefix, adapter).contains(d) {
                            let i = choose|i: int| #![trigger prefix[i]] 0 <= i < prefix.len() && prefix[i].adapter == adapter && normalized_sha256(prefix[i].sha256@) == Some(d);
                            assert(next[i] == prefix[i]);
                        }
                        if adapter == hosts@[index as int].adapter && d == digest {
                            assert(next[index as int] == hosts@[index as int]);
                        }
                    }
                    assert(manifest_allowed(next, adapter) =~= (if adapter == hosts@[index as int].adapter {
                        manifest_allowed(prefix, adapter).insert(digest)
                    } else {
                        manifest_allowed(prefix, adapter)
                    }));
                }
                assert(manifest_allowed(next, HostAdapterKind::Direct) == if HostAdapterKind::Direct == hosts@[index as int].adapter {
                    manifest_allowed(prefix, HostAdapterKind::Direct).insert(digest)
                } else {
                    manifest_allowed(prefix, HostAdapterKind::Direct)
                });
                assert(manifest_allowed(next, HostAdapterKind::CodexPlusPlus) == if HostAdapterKind::CodexPlusPlus == hosts@[index as int].adapter {
                    manifest_allowed(prefix, HostAdapterKind::CodexPlusPlus).insert(digest)
                } else {
                    manifest_allowed(prefix, HostAdapterKind::CodexPlusPlus)
                });
            }
        }
        proof {
            lemma_manifest_error_skip(hosts@, hosts@.len() as int);
            assert(hosts@.skip(hosts@.len() as int).len() == 0);
            assert(hosts@.take(hosts@.len() as int) =~= hosts@);
        }
        Ok(policy)
    }
}


/// The reason given when the host changed between its evaluation and its launch.
pub const IDENTITY_CHANGED_REASON: &'static str = "host_identity_changed_before_launch";

/// The decision that stands once the host executable is checked again before launch: when
/// a bootstrap was prepared and the executable no longer has the evaluated identity, the
/// host runs natively with `IDENTITY_CHANGED_REASON` and the prepared bootstrap must be
/// removed; otherwise the decision stands and nothing is removed.
pub fn confirm_host_identity(decision: CompatibilityDecision, bootstrap_prepared: bool, identity_matches: bool) -> (result: (
    CompatibilityDecision,
    bool,
))
    ensures
        bootstrap_prepared && !identity_matches ==> {
            &&& result.1
            &&& result.0 matches CompatibilityDecision::NativeOnly { requested, reason } && reason@
                == IDENTITY_CHANGED_REASON@ && requested == match decision {
                CompatibilityDecision::Enabled(mode) => mode,
                CompatibilityDecision::NativeOnly { requested, .. } => requested,
            }
        },
        !(bootstrap_prepared && !identity_matches) ==> !result.1 && result.0 == decision,
{
    if bootstrap_prepared && !identity_matches {
        let requested = match &decision {
            CompatibilityDecision::Enabled(mode) => *mode,
            CompatibilityDecision::NativeOnly { requested, .. } => *requested,
        };
        (CompatibilityDecision::NativeOnly { requested, reason: String::from_str(IDENTITY_CHANGED_REASON) }, true)
    } else {
        (decision, false)
    }
}

} // verus!
