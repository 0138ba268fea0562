//! The isolation contract of a directly launched official app: which paths belong to the
//! daily instance, which to the isolated one, and the checks that keep them apart.
//!
//! Paths are compared by their normalized Windows components: the prefix as a labelled
//! lowercase component, the root as `\`, and each name with trailing spaces and dots
//! removed and in lowercase. Relative components are refused.

use vstd::prelude::*;
use vstd::std_specs::iter::IteratorSpec;
use std::collections::BTreeSet;

use crate::compatibility::{ascii_lower_char, to_ascii_lower_char};
use crate::strings::{lowercase, string_from_chars, to_lowercase};
use crate::text::{chars_equal, chars_of, slice_chars};
use crate::winpath::{
    PrefixKind, PrefixSpec, after_prefix, dot, dot_dot, has_physical_root, is_absolute_path,
    is_relative_part, is_separator, is_skipped_part, parse_prefix, parse_windows_path,
    parsed_matches, path_is_verbatim, path_raw_parts, prefix_length,
};

verus! {

broadcast use vstd::std_specs::btree::group_btree_axioms;

/// Why a path cannot be compared.
#[derive(Debug, Clone, Copy, PartialEq, Eq, Structural)]
pub enum PathError {
    NotAbsolute,
    RelativeComponent,
}

/// The paths that an isolation contract names.
#[derive(Debug, Clone, Copy, PartialEq, Eq, Structural)]
pub enum IsolationPathRole {
    OfficialExecutable,
    DailyProfile,
    IsolatedProfile,
    DailyCodexHome,
    IsolatedCodexHome,
    OwnedRoot,
    OwnedRootChild,
}

/// Why an isolation contract, an owned root or a running instance was refused.
#[derive(Debug, Clone, Copy, PartialEq, Eq, Structural)]
pub enum IsolationError {
    InvalidPath { role: IsolationPathRole, reason: PathError },
    ReservedCdpPort,
    IsolatedOverlapsDaily { isolated: IsolationPathRole, daily: IsolationPathRole },
    IsolatedPathsShared,
    OwnedRootOverlapsDaily { daily: IsolationPathRole },
    NotChildrenOfOwnedRoot,
    DailyInstanceGone,
    EmptyProcessTree,
    PreexistingProcessOwned,
    CdpListenerNotOwned,
    CdpPortMismatch,
    UnexpectedCdpTarget,
}

/// `s` with trailing spaces and dots removed.
pub open spec fn trim_end_dots(s: Seq<char>) -> Seq<char>
    decreases s.len(),
{
    if s.len() > 0 && (s.last() == ' ' || s.last() == '.') {
        trim_end_dots(s.drop_last())
    } else {
        s
    }
}

/// A name as it is compared: trailing spaces and dots removed, then in lowercase.
pub open spec fn normalize_name(s: Seq<char>) -> Seq<char> {
    lowercase(trim_end_dots(s))
}

pub open spec fn label(text: Seq<char>, value: Seq<char>) -> Seq<char> {
    text + value
}

/// The component that stands for a prefix.
pub open spec fn prefix_label(prefix: PrefixSpec) -> Seq<char> {
    match prefix.kind {
        PrefixKind::Disk | PrefixKind::VerbatimDisk => seq!['d', 'i', 's', 'k', ':'] + prefix.first.map_values(
            |c: char| ascii_lower_char(c),
        ),
        PrefixKind::Unc | PrefixKind::VerbatimUnc => seq!['u', 'n', 'c', ':'] + normalize_name(prefix.first)
            + seq!['\\'] + normalize_name(prefix.second),
        PrefixKind::DeviceNs => seq!['d', 'e', 'v', 'i', 'c', 'e', ':'] + normalize_name(prefix.first),
        PrefixKind::Verbatim => seq!['v', 'e', 'r', 'b', 'a', 't', 'i', 'm', ':'] + normalize_name(prefix.first),
    }
}

/// Whether the components of `s` include a root: a physical one, or the one that every
/// prefix but a drive implies outside verbatim paths.
pub open spec fn emits_root(s: Seq<char>) -> bool {
    has_physical_root(s) || (parse_prefix(s) matches Some(prefix) && prefix.kind != PrefixKind::Disk
        && !path_is_verbatim(s))
}

/// The normalized names of `parts`, in order, without the skipped ones.
pub open spec fn normal_names(parts: Seq<Seq<char>>, verbatim: bool) -> Seq<Seq<char>>
    decreases parts.len(),
{
    if parts.len() == 0 {
        Seq::empty()
    } else if is_skipped_part(parts.last(), verbatim) {
        normal_names(parts.drop_last(), verbatim)
    } else {
        normal_names(parts.drop_last(), verbatim).push(normalize_name(parts.last()))
    }
}

pub open spec fn has_relative_part(s: Seq<char>) -> bool {
    exists|i: int| 0 <= i < path_raw_parts(s).len() && is_relative_part(#[trigger] path_raw_parts(s)[i], path_is_verbatim(s))
}

/// The normalized components of the path `s`, or why it has none.
pub open spec fn normalized_path(s: Seq<char>) -> Result<Seq<Seq<char>>, PathError> {
    if !is_absolute_path(s) {
        Err(PathError::NotAbsolute)
    } else if has_relative_part(s) {
        Err(PathError::RelativeComponent)
    } else {
        Ok(seq![prefix_label(parse_prefix(s).unwrap())] + (if emits_root(s) {
            seq![seq!['\\']]
        } else {
            Seq::empty()
        }) + normal_names(path_raw_parts(s), path_is_verbatim(s)))
    }
}

pub open spec fn components_view(components: Seq<Vec<char>>) -> Seq<Seq<char>> {
    components.map_values(|c: Vec<char>| c@)
}

/// `prefix` is a leading run of `value`.
pub open spec fn is_prefix_of(prefix: Seq<Seq<char>>, value: Seq<Seq<char>>) -> bool {
    prefix.len() <= value.len() && value.take(prefix.len() as int) == prefix
}

/// Two paths overlap when the components of one lead the components of the other.
pub open spec fn overlap_outcome(left: Seq<char>, right: Seq<char>) -> Result<bool, PathError> {
    match (normalized_path(left), normalized_path(right)) {
        (Err(e), _) => Err(e),
        (Ok(_), Err(e)) => Err(e),
        (Ok(l), Ok(r)) => Ok(is_prefix_of(l, r) || is_prefix_of(r, l)),
    }
}

/// Two paths are equal when their components are.
pub open spec fn equal_outcome(left: Seq<char>, right: Seq<char>) -> Result<bool, PathError> {
    match (normalized_path(left), normalized_path(right)) {
        (Err(e), _) => Err(e),
        (Ok(_), Err(e)) => Err(e),
        (Ok(l), Ok(r)) => Ok(l == r),
    }
}

/// The parts of a verbatim path joined by `\`.
pub open spec fn join_parts(parts: Seq<Seq<char>>) -> Seq<char>
    decreases parts.len(),
{
    if parts.len() == 0 {
        Seq::empty()
    } else if parts.len() == 1 {
        parts[0]
    } else {
        join_parts(parts.drop_last()) + seq!['\\'] + parts.last()
    }
}

/// The path that joining the plain name `child` to `s` gives on Windows. A verbatim path
/// is rebuilt from its prefix and its parts; another path gets `child` after a separator,
/// unless it ends in one or is a bare drive.
pub open spec fn joined_path(s: Seq<char>, child: Seq<char>) -> Seq<char> {
    if path_is_verbatim(s) {
        s.take(prefix_length(s)) + seq!['\\'] + join_parts(path_raw_parts(s).push(child))
    } else if s.len() == 0 || is_separator(s.last(), false) || (parse_prefix(s) matches Some(prefix)
        && prefix.kind == PrefixKind::Disk && prefix.len == s.len()) {
        s + child
    } else {
        s + seq!['\\'] + child
    }
}

proof fn lemma_normal_names_step(parts: Seq<Seq<char>>, index: int, verbatim: bool)
    requires
        0 <= index < parts.len(),
    ensures
        normal_names(parts.take(index + 1), verbatim) == if is_skipped_part(parts[index], verbatim) {
            normal_names(parts.take(index), verbatim)
        } else {
            normal_names(parts.take(index), verbatim).push(normalize_name(parts[index]))
        },
{
    assert(parts.take(index + 1).drop_last() =~= parts.take(index));
}

fn literal(text: &[char]) -> (result: Vec<char>)
    ensures
        result@ == text@,
{
    let result = slice_chars(text, 0, text.len());
    proof {
        assert(text@.subrange(0, text@.len() as int) =~= text@);
    }
    result
}

fn append(target: &mut Vec<char>, chars: &[char])
    ensures
        final(target)@ == old(target)@ + chars@,
{
    let ghost start = target@;
    for index in 0..chars.len()
        invariant
            target@ == start + chars@.take(index as int),
    {
        proof {
            assert(start + chars@.take(index + 1) =~= (start + chars@.take(index as int)).push(chars@[index as int]));
        }
        target.push(chars[index]);
    }
    proof {
        assert(chars@.take(chars@.len() as int) =~= chars@);
    }
}

fn trim_end_dots_of(chars: &[char]) -> (result: Vec<char>)
    ensures
        result@ == trim_end_dots(chars@),
{
    let mut end = chars.len();
    proof {
        assert(chars@.take(chars@.len() as int) =~= chars@);
    }
    while end > 0 && (chars[end - 1] == ' ' || chars[end - 1] == '.')
        invariant
            end <= chars@.len(),
            trim_end_dots(chars@) == trim_end_dots(chars@.take(end as int)),
        decreases end,
    {
        proof {
            assert(chars@.take(end as int).drop_last() =~= chars@.take(end - 1));
        }
        end -= 1;
    }
    proof {
        assert(chars@.take(chars@.len() as int) =~= chars@);
    }
    slice_chars(chars, 0, end)
}

/// The normalized form of the name `chars`.
fn normalized_name(chars: &[char]) -> (result: Vec<char>)
    ensures
        result@ == normalize_name(chars@),
{
    let trimmed = trim_end_dots_of(chars);
    let text = string_from_chars(trimmed.as_slice());
    let lower = to_lowercase(text.as_str());
    chars_of(lower.as_str())
}

fn prefix_component(kind: PrefixKind, first: &Vec<char>, second: &Vec<char>) -> (result: Vec<char>)
    ensures
        result@ == prefix_label(PrefixSpec { kind, first: first@, second: second@, len: 0 }),
{
    match kind {
        PrefixKind::Disk | PrefixKind::VerbatimDisk => {
            let mut out = literal(&['d', 'i', 's', 'k', ':']);
            let ghost start = out@;
            for index in 0..first.len()
                invariant
                    out@ == start + first@.take(index as int).map_values(|c: char| ascii_lower_char(c)),
            {
                let lower = to_ascii_lower_char(first[index]);
                proof {
                    assert(first@.take(index + 1).map_values(|c: char| ascii_lower_char(c)) =~= first@.take(
                        index as int,
                    ).map_values(|c: char| ascii_lower_char(c)).push(lower));
                }
                out.push(lower);
            }
            proof {
                assert(first@.take(first@.len() as int) =~= first@);
            }
            out
        },
        PrefixKind::Unc | PrefixKind::VerbatimUnc => {
            let mut out = literal(&['u', 'n', 'c', ':']);
            let server = normalized_name(first.as_slice());
            let share = normalized_name(second.as_slice());
            append(&mut out, server.as_slice());
            out.push('\\');
            append(&mut out, share.as_slice());
            out
        },
        PrefixKind::DeviceNs => {
            let mut out = literal(&['d', 'e', 'v', 'i', 'c', 'e', ':']);
            let device = normalized_name(first.as_slice());
            append(&mut out, device.as_slice());
            out
        },
        PrefixKind::Verbatim => {
            let mut out = literal(&['v', 'e', 'r', 'b', 'a', 't', 'i', 'm', ':']);
            let name = normalized_name(first.as_slice());
            append(&mut out, name.as_slice());
            out
        },
    }
}

fn is_dot(part: &Vec<char>) -> (result: bool)
    ensures
        result == (part@ == dot()),
{
    let result = part.len() == 1 && part[0] == '.';
    proof {
        if part@.len() == 1 && part@[0] == '.' {
            assert(part@ =~= dot());
        }
    }
    result
}

fn is_dot_dot(part: &Vec<char>) -> (result: bool)
    ensures
        result == (part@ == dot_dot()),
{
    let result = part.len() == 2 && part[0] == '.' && part[1] == '.';
    proof {
        if part@.len() == 2 && part@[0] == '.' && part@[1] == '.' {
            assert(part@ =~= dot_dot());
        }
    }
    result
}

/// The normalized components of the Windows path `path`.
pub fn normalized_components(path: &str) -> (result: Result<Vec<Vec<char>>, PathError>)
    ensures
        match result {
            Ok(components) => normalized_path(path@) == Ok::<Seq<Seq<char>>, PathError>(components_view(components@)),
            Err(e) => normalized_path(path@) == Err::<Seq<Seq<char>>, PathError>(e),
        },
{
    let chars = chars_of(path);
    let parsed = parse_windows_path(chars.as_slice());
    let ghost s = chars@;
    let (kind, first, second) = match &parsed.prefix {
        Some((kind, first, second)) => (*kind, first, second),
        None => {
            return Err(PathError::NotAbsolute);
        },
    };
    if kind == PrefixKind::Disk && !parsed.physical_root {
        return Err(PathError::NotAbsolute);
    }
    let verbatim = parsed.verbatim;
    let parts = &parsed.parts;
    proof {
        let prefix = parse_prefix(s).unwrap();
        assert(prefix.kind == kind && prefix.first == first@ && prefix.second == second@);
        assert(is_absolute_path(s));
        assert(prefix_label(prefix) == prefix_label(PrefixSpec { kind, first: first@, second: second@, len: 0 }));
        assert(parts@.len() == path_raw_parts(s).len());
        assert forall|i: int| 0 <= i < parts@.len() implies #[trigger] parts@[i]@ == path_raw_parts(s)[i] by {
            assert(parsed.parts_view()[i] == parts@[i]@);
        }
    }
    for index in 0..parts.len()
        invariant
            parts@.len() == path_raw_parts(s).len(),
            verbatim == path_is_verbatim(s),
            s == path@,
            is_absolute_path(s),
            forall|i: int| 0 <= i < parts@.len() ==> #[trigger] parts@[i]@ == path_raw_parts(s)[i],
            forall|i: int| 0 <= i < index ==> !is_relative_part(#[trigger] path_raw_parts(s)[i], verbatim),
    {
        if is_dot_dot(&parts[index]) || (verbatim && is_dot(&parts[index])) {
            proof {
                assert(is_relative_part(path_raw_parts(s)[index as int], verbatim));
            }
            return Err(PathError::RelativeComponent);
        }
    }
    let mut components: Vec<Vec<char>> = Vec::new();
    let label_component = prefix_component(kind, first, second);
    let ghost label_view = label_component@;
    components.push(label_component);
    let emit_root = parsed.physical_root || (kind != PrefixKind::Disk && !verbatim);
    if emit_root {
        let root = literal(&['\\']);
        proof {
            assert(root@ =~= seq!['\\']);
        }
        components.push(root);
    }
    let ghost head = components_view(components@);
    proof {
        assert(head.len() == if emit_root { 2int } else { 1int });
        assert(head[0] == label_view);
        if emit_root {
            assert(head[1] == seq!['\\']);
        }
        let expected = seq![prefix_label(parse_prefix(s).unwrap())] + (if emits_root(s) {
            seq![seq!['\\']]
        } else {
            Seq::empty()
        });
        assert(emits_root(s) == emit_root);
        assert(head =~= expected);
        assert(parts@.take(0) =~= Seq::<Vec<char>>::empty());
        assert(path_raw_parts(s).take(0) =~= Seq::<Seq<char>>::empty());
        assert(head + normal_names(path_raw_parts(s).take(0), verbatim) =~= head);
    }
    for index in 0..parts.len()
        invariant
            parts@.len() == path_raw_parts(s).len(),
            forall|i: int| 0 <= i < parts@.len() ==> #[trigger] parts@[i]@ == path_raw_parts(s)[i],
            components_view(components@) == head + normal_names(path_raw_parts(s).take(index as int), verbatim),
    {
        proof {
            lemma_normal_names_step(path_raw_parts(s), index as int, verbatim);
        }
        if !(!verbatim && is_dot(&parts[index])) {
            let name = normalized_name(parts[index].as_slice());
            let ghost before = components@;
            components.push(name);
            proof {
                assert(components_view(components@) =~= components_view(before).push(name@));
                assert(head + normal_names(path_raw_parts(s).take(index as int), verbatim).push(name@) =~= (head
                    + normal_names(path_raw_parts(s).take(index as int), verbatim)).push(name@));
            }
        }
    }
    proof {
        assert(path_raw_parts(s).take(parts@.len() as int) =~= path_raw_parts(s));
        assert(!has_relative_part(s));
    }
    Ok(components)
}

fn is_prefix(prefix: &Vec<Vec<char>>, value: &Vec<Vec<char>>) -> (result: bool)
    ensures
        result == is_prefix_of(components_view(prefix@), components_view(value@)),
{
    if prefix.len() > value.len() {
        return false;
    }
    for index in 0..prefix.len()
        invariant
            prefix@.len() <= value@.len(),
            forall|i: int| 0 <= i < index ==> prefix@[i]@ == #[trigger] value@[i]@,
    {
        if !chars_equal(prefix[index].as_slice(), value[index].as_slice()) {
            proof {
                assert(components_view(value@).take(prefix@.len() as int)[index as int] == value@[index as int]@);
                assert(components_view(prefix@)[index as int] == prefix@[index as int]@);
            }
            return false;
        }
    }
    proof {
        assert(components_view(value@).take(prefix@.len() as int) =~= components_view(prefix@));
    }
    true
}

/// Whether one of the two paths contains the other.
pub fn paths_overlap(left: &str, right: &str) -> (result: Result<bool, PathError>)
    ensures
        result == overlap_outcome(left@, right@),
{
    let left_components = normalized_components(left)?;
    let right_components = normalized_components(right)?;
    Ok(is_prefix(&left_components, &right_components) || is_prefix(&right_components, &left_components))
}

/// Whether the two paths name the same place.
pub fn paths_equal(left: &str, right: &str) -> (result: Result<bool, PathError>)
    ensures
        result == equal_outcome(left@, right@),
{
    let left_components = normalized_components(left)?;
    let right_components = normalized_components(right)?;
    let equal = left_components.len() == right_components.len() && is_prefix(&left_components, &right_components);
    proof {
        let l = components_view(left_components@);
        let r = components_view(right_components@);
        assert(r.take(r.len() as int) =~= r);
        if l.len() == r.len() && is_prefix_of(l, r) {
            assert(l =~= r);
        }
    }
    Ok(equal)
}

proof fn lemma_join_parts_step(parts: Seq<Seq<char>>, index: int)
    requires
        0 <= index < parts.len(),
    ensures
        join_parts(parts.take(index + 1)) == if index == 0 {
            parts[0]
        } else {
            join_parts(parts.take(index)) + seq!['\\'] + parts[index]
        },
{
    let next = parts.take(index + 1);
    assert(next.drop_last() =~= parts.take(index));
    if index == 0 {
        assert(next[0] == parts[0]);
    }
}

/// `path` joined with the plain name `child`, as `Path::join` builds it on Windows.
pub fn join_child(path: &str, child: &[char]) -> (result: String)
    ensures
        result@ == joined_path(path@, child@),
{
    let chars = chars_of(path);
    let parsed = parse_windows_path(chars.as_slice());
    let n = chars.len();
    if parsed.verbatim {
        let mut out = slice_chars(chars.as_slice(), 0, parsed.prefix_len);
        out.push('\\');
        let ghost start = out@;
        let ghost all = path_raw_parts(chars@).push(child@);
        let parts = &parsed.parts;
        proof {
            assert(chars@.subrange(0, parsed.prefix_len as int) =~= chars@.take(prefix_length(chars@)));
            assert(parts@.len() == path_raw_parts(chars@).len());
            assert forall|i: int| 0 <= i < parts@.len() implies #[trigger] parts@[i]@ == all[i] by {
                assert(parsed.parts_view()[i] == parts@[i]@);
            }
            assert(all.take(0) =~= Seq::<Seq<char>>::empty());
            assert(start + join_parts(all.take(0)) =~= start);
        }
        for index in 0..parts.len()
            invariant
                parts@.len() + 1 == all.len(),
                forall|i: int| 0 <= i < parts@.len() ==> #[trigger] parts@[i]@ == all[i],
                out@ == start + join_parts(all.take(index as int)),
        {
            proof {
                lemma_join_parts_step(all, index as int);
            }
            let ghost before = out@;
            if index > 0 {
                out.push('\\');
            }
            append(&mut out, parts[index].as_slice());
            proof {
                if index > 0 {
                    assert(out@ =~= start + (join_parts(all.take(index as int)) + seq!['\\'] + all[index as int]));
                } else {
                    assert(out@ =~= start + all[0]);
                }
            }
        }
        proof {
            lemma_join_parts_step(all, parts@.len() as int);
            assert(all[parts@.len() as int] == child@);
            assert(all.take(all.len() as int) =~= all);
        }
        let ghost before = out@;
        if parts.len() > 0 {
            out.push('\\');
        }
        append(&mut out, child);
        proof {
            if parts@.len() > 0 {
                assert(out@ =~= start + (join_parts(all.take(parts@.len() as int)) + seq!['\\'] + child@));
            } else {
                assert(out@ =~= start + child@);
            }
        }
        return string_from_chars(out.as_slice());
    }
    let bare_drive = match &parsed.prefix {
        Some((kind, _, _)) => *kind == PrefixKind::Disk && parsed.prefix_len == n,
        None => false,
    };
    let mut out = chars;
    if !(n == 0 || is_separator_char_plain(out[n - 1]) || bare_drive) {
        out.push('\\');
    }
    append(&mut out, child);
    string_from_chars(out.as_slice())
}

fn is_separator_char_plain(c: char) -> (result: bool)
    ensures
        result == is_separator(c, false),
{
    c == '\\' || c == '/'
}

/// The paths and port of an isolation contract, as values.
pub ghost struct IsolationContractView {
    pub executable: Seq<char>,
    pub daily_profile: Seq<char>,
    pub isolated_profile: Seq<char>,
    pub daily_codex_home: Seq<char>,
    pub isolated_codex_home: Seq<char>,
    pub cdp_port: u16,
}

/// The refusal of `path` in `role`, if it cannot be normalized.
pub open spec fn path_error(path: Seq<char>, role: IsolationPathRole) -> Option<IsolationError> {
    match normalized_path(path) {
        Err(reason) => Some(IsolationError::InvalidPath { role, reason }),
        Ok(_) => None,
    }
}

pub open spec fn overlaps(left: Seq<char>, right: Seq<char>) -> bool {
    overlap_outcome(left, right) == Ok::<bool, PathError>(true)
}

/// Why the paths and port of `v` do not form an isolation contract, checked in order:
/// every path normalizes, the port is not a system port, no isolated path overlaps a daily
/// one, and the two isolated paths are apart.
pub open spec fn contract_error(v: IsolationContractView) -> Option<IsolationError> {
    if path_error(v.executable, IsolationPathRole::OfficialExecutable) is Some {
        path_error(v.executable, IsolationPathRole::OfficialExecutable)
    } else if path_error(v.daily_profile, IsolationPathRole::DailyProfile) is Some {
        path_error(v.daily_profile, IsolationPathRole::DailyProfile)
    } else if path_error(v.isolated_profile, IsolationPathRole::IsolatedProfile) is Some {
        path_error(v.isolated_profile, IsolationPathRole::IsolatedProfile)
    } else if path_error(v.daily_codex_home, IsolationPathRole::DailyCodexHome) is Some {
        path_error(v.daily_codex_home, IsolationPathRole::DailyCodexHome)
    } else if path_error(v.isolated_codex_home, IsolationPathRole::IsolatedCodexHome) is Some {
        path_error(v.isolated_codex_home, IsolationPathRole::IsolatedCodexHome)
    } else if v.cdp_port < 1024 {
        Some(IsolationError::ReservedCdpPort)
    } else if overlaps(v.daily_profile, v.isolated_profile) {
        Some(
            IsolationError::IsolatedOverlapsDaily {
                isolated: IsolationPathRole::IsolatedProfile,
                daily: IsolationPathRole::DailyProfile,
            },
        )
    } else if overlaps(v.daily_profile, v.isolated_codex_home) {
        Some(
            IsolationError::IsolatedOverlapsDaily {
                isolated: IsolationPathRole::IsolatedCodexHome,
                daily: IsolationPathRole::DailyProfile,
            },
        )
    } else if overlaps(v.daily_codex_home, v.isolated_profile) {
        Some(
            IsolationError::IsolatedOverlapsDaily {
                isolated: IsolationPathRole::IsolatedProfile,
                daily: IsolationPathRole::DailyCodexHome,
            },
        )
    } else if overlaps(v.daily_codex_home, v.isolated_codex_home) {
        Some(
            IsolationError::IsolatedOverlapsDaily {
                isolated: IsolationPathRole::IsolatedCodexHome,
                daily: IsolationPathRole::DailyCodexHome,
            },
        )
    } else if overlaps(v.isolated_profile, v.isolated_codex_home) {
        Some(IsolationError::IsolatedPathsShared)
    } else {
        None
    }
}

pub open spec fn profile_name() -> Seq<char> {
    seq!['p', 'r', 'o', 'f', 'i', 'l', 'e']
}

pub open spec fn codex_home_name() -> Seq<char> {
    seq!['c', 'o', 'd', 'e', 'x', '-', 'h', 'o', 'm', 'e']
}

/// The answer to whether `root` may own the isolated instance of `v`: it normalizes, it
/// overlaps neither daily path, and the isolated profile and CODEX_HOME are exactly its
/// `profile` and `codex-home` children.
pub open spec fn owned_root_outcome(v: IsolationContractView, root: Seq<char>) -> Result<(), IsolationError> {
    match normalized_path(root) {
        Err(reason) => Err(IsolationError::InvalidPath { role: IsolationPathRole::OwnedRoot, reason }),
        Ok(_) => if overlaps(root, v.daily_profile) {
            Err(IsolationError::OwnedRootOverlapsDaily { daily: IsolationPathRole::DailyProfile })
        } else if overlaps(root, v.daily_codex_home) {
            Err(IsolationError::OwnedRootOverlapsDaily { daily: IsolationPathRole::DailyCodexHome })
        } else {
            match equal_outcome(joined_path(root, profile_name()), v.isolated_profile) {
                Err(reason) => Err(IsolationError::InvalidPath { role: IsolationPathRole::OwnedRootChild, reason }),
                Ok(false) => Err(IsolationError::NotChildrenOfOwnedRoot),
                Ok(true) => match equal_outcome(joined_path(root, codex_home_name()), v.isolated_codex_home) {
                    Err(reason) => Err(
                        IsolationError::InvalidPath { role: IsolationPathRole::OwnedRootChild, reason },
                    ),
                    Ok(false) => Err(IsolationError::NotChildrenOfOwnedRoot),
                    Ok(true) => Ok(()),
                },
            }
        },
    }
}

/// The paths of a directly launched official app, with the guarantee that the isolated
/// ones are apart from the daily ones and from each other.
#[derive(Debug, PartialEq, Eq)]
pub struct DirectIsolationContract {
    executable: String,
    daily_profile: String,
    isolated_profile: String,
    daily_codex_home: String,
    isolated_codex_home: String,
    cdp_port: u16,
}

impl View for DirectIsolationContract {
    type V = IsolationContractView;

    closed spec fn view(&self) -> IsolationContractView {
        IsolationContractView {
            executable: self.executable@,
            daily_profile: self.daily_profile@,
            isolated_profile: self.isolated_profile@,
            daily_codex_home: self.daily_codex_home@,
            isolated_codex_home: self.isolated_codex_home@,
            cdp_port: self.cdp_port,
        }
    }
}

fn check_path(path: &str, role: IsolationPathRole) -> (result: Result<(), IsolationError>)
    ensures
        match result {
            Ok(()) => path_error(path@, role) is None,
            Err(e) => path_error(path@, role) == Some(e),
        },
{
    match normalized_components(path) {
        Ok(_) => Ok(()),
        Err(reason) => Err(IsolationError::InvalidPath { role, reason }),
    }
}

fn overlap_checked(left: &str, right: &str) -> (result: bool)
    requires
        normalized_path(left@) is Ok,
        normalized_path(right@) is Ok,
    ensures
        result == overlaps(left@, right@),
{
    match paths_overlap(left, right) {
        Ok(overlap) => overlap,
        Err(_) => false,
    }
}

impl DirectIsolationContract {
    #[verifier::type_invariant]
    closed spec fn is_sound(&self) -> bool {
        contract_error(self@) is None
    }

    /// Checks the paths and port of a direct launch and forms its contract.
    pub fn new(
        executable: String,
        daily_profile: String,
        isolated_profile: String,
        daily_codex_home: String,
        isolated_codex_home: String,
        cdp_port: u16,
    ) -> (result: Result<Self, IsolationError>)
        ensures
            ({
                let v = IsolationContractView {
                    executable: executable@,
                    daily_profile: daily_profile@,
                    isolated_profile: isolated_profile@,
                    daily_codex_home: daily_codex_home@,
                    isolated_codex_home: isolated_codex_home@,
                    cdp_port,
                };
                match result {
                    Ok(contract) => contract_error(v) is None && contract@ == v,
                    Err(e) => contract_error(v) == Some(e),
                }
            }),
    {
        check_path(executable.as_str(), IsolationPathRole::OfficialExecutable)?;
        check_path(daily_profile.as_str(), IsolationPathRole::DailyProfile)?;
        check_path(isolated_profile.as_str(), IsolationPathRole::IsolatedProfile)?;
        check_path(daily_codex_home.as_str(), IsolationPathRole::DailyCodexHome)?;
        check_path(isolated_codex_home.as_str(), IsolationPathRole::IsolatedCodexHome)?;
        if cdp_port < 1024 {
            return Err(IsolationError::ReservedCdpPort);
        }
        if overlap_checked(daily_profile.as_str(), isolated_profile.as_str()) {
            return Err(
                IsolationError::IsolatedOverlapsDaily {
                    isolated: IsolationPathRole::IsolatedProfile,
                    daily: IsolationPathRole::DailyProfile,
                },
            );
        }
        if overlap_checked(daily_profile.as_str(), isolated_codex_home.as_str()) {
            return Err(
                IsolationError::IsolatedOverlapsDaily {
                    isolated: IsolationPathRole::IsolatedCodexHome,
                    daily: IsolationPathRole::DailyProfile,
                },
            );
        }
        if overlap_checked(daily_codex_home.as_str(), isolated_profile.as_str()) {
            return Err(
                IsolationError::IsolatedOverlapsDaily {
                    isolated: IsolationPathRole::IsolatedProfile,
                    daily: IsolationPathRole::DailyCodexHome,
                },
            );
        }
        if overlap_checked(daily_codex_home.as_str(), isolated_codex_home.as_str()) {
            return Err(
                IsolationError::IsolatedOverlapsDaily {
                    isolated: IsolationPathRole::IsolatedCodexHome,
                    daily: IsolationPathRole::DailyCodexHome,
                },
            );
        }
        if overlap_checked(isolated_profile.as_str(), isolated_codex_home.as_str()) {
            return Err(IsolationError::IsolatedPathsShared);
        }
        Ok(
            DirectIsolationContract {
                executable,
                daily_profile,
                isolated_profile,
                daily_codex_home,
                isolated_codex_home,
                cdp_port,
            },
        )
    }

    pub fn executable(&self) -> (result: &str)
        ensures
            result@ == self@.executable,
    {
        self.executable.as_str()
    }

    pub fn daily_profile(&self) -> (result: &str)
        ensures
            result@ == self@.daily_profile,
    {
        self.daily_profile.as_str()
    }

    pub fn isolated_profile(&self) -> (result: &str)
        ensures
            result@ == self@.isolated_profile,
    {
        self.isolated_profile.as_str()
    }

    pub fn daily_codex_home(&self) -> (result: &str)
        ensures
            result@ == self@.daily_codex_home,
    {
        self.daily_codex_home.as_str()
    }

    pub fn isolated_codex_home(&self) -> (result: &str)
        ensures
            result@ == self@.isolated_codex_home,
    {
        self.isolated_codex_home.as_str()
    }

    pub fn cdp_port(&self) -> (result: u16)
        ensures
            result == self@.cdp_port,
    {
        self.cdp_port
    }

    /// Checks that `root` may own the isolated instance of this contract.
    pub fn verify_owned_root(&self, root: &str) -> (result: Result<(), IsolationError>)
        ensures
            result == owned_root_outcome(self@, root@),
    {
        proof {
            use_type_invariant(self);
        }
        if let Err(reason) = normalized_components(root) {
            return Err(IsolationError::InvalidPath { role: IsolationPathRole::OwnedRoot, reason });
        }
        if overlap_checked(root, self.daily_profile.as_str()) {
            return Err(IsolationError::OwnedRootOverlapsDaily { daily: IsolationPathRole::DailyProfile });
        }
        if overlap_checked(root, self.daily_codex_home.as_str()) {
            return Err(IsolationError::OwnedRootOverlapsDaily { daily: IsolationPathRole::DailyCodexHome });
        }
        let profile_chars = ['p', 'r', 'o', 'f', 'i', 'l', 'e'];
        let home_chars = ['c', 'o', 'd', 'e', 'x', '-', 'h', 'o', 'm', 'e'];
        proof {
            assert(profile_chars@ =~= profile_name());
            assert(home_chars@ =~= codex_home_name());
        }
        let profile = join_child(root, &profile_chars);
        match paths_equal(profile.as_str(), self.isolated_profile.as_str()) {
            Err(reason) => {
                return Err(IsolationError::InvalidPath { role: IsolationPathRole::OwnedRootChild, reason });
            },
            Ok(false) => {
                return Err(IsolationError::NotChildrenOfOwnedRoot);
            },
            Ok(true) => {},
        }
        let home = join_child(root, &home_chars);
        match paths_equal(home.as_str(), self.isolated_codex_home.as_str()) {
            Err(reason) => Err(IsolationError::InvalidPath { role: IsolationPathRole::OwnedRootChild, reason }),
            Ok(false) => Err(IsolationError::NotChildrenOfOwnedRoot),
            Ok(true) => Ok(()),
        }
    }

    /// Checks what was observed of a running isolated instance against this contract.
    pub fn verify_runtime(&self, observation: &IsolatedRuntimeObservation) -> (result: Result<(), IsolationError>)
        ensures
            result == runtime_outcome(self@.cdp_port, observation),
    {
        if !observation.daily_root_alive {
            return Err(IsolationError::DailyInstanceGone);
        }
        if observation.owned_pids.is_empty() {
            return Err(IsolationError::EmptyProcessTree);
        }
        if !disjoint(&observation.owned_pids, &observation.preexisting_pids) {
            return Err(IsolationError::PreexistingProcessOwned);
        }
        if !observation.owned_pids.contains(&observation.cdp_listener_pid) {
            return Err(IsolationError::CdpListenerNotOwned);
        }
        if observation.cdp_port != self.cdp_port {
            return Err(IsolationError::CdpPortMismatch);
        }
        let expected = ['a', 'p', 'p', ':', '/', '/', '-', '/', 'i', 'n', 'd', 'e', 'x', '.', 'h', 't', 'm', 'l'];
        proof {
            assert(expected@ =~= app_renderer_url());
        }
        match &observation.cdp_target_url {
            Some(url) => {
                let url_chars = chars_of(url.as_str());
                if chars_equal(url_chars.as_slice(), &expected) {
                    Ok(())
                } else {
                    Err(IsolationError::UnexpectedCdpTarget)
                }
            },
            None => Err(IsolationError::UnexpectedCdpTarget),
        }
    }
}

/// What was observed of a running isolated instance.
#[derive(Debug, Clone, PartialEq, Eq)]
pub struct IsolatedRuntimeObservation {
    pub preexisting_pids: BTreeSet<u32>,
    pub owned_pids: BTreeSet<u32>,
    pub cdp_listener_pid: u32,
    pub daily_root_alive: bool,
    pub cdp_port: u16,
    pub cdp_target_url: Option<String>,
}

/// The URL of the official app renderer.
pub open spec fn app_renderer_url() -> Seq<char> {
    seq!['a', 'p', 'p', ':', '/', '/', '-', '/', 'i', 'n', 'd', 'e', 'x', '.', 'h', 't', 'm', 'l']
}

/// The answer to whether a running instance keeps the contract whose port is `port`: the
/// daily instance is alive, the isolated tree is non-empty, owns no process that existed
/// before, owns the CDP listener, listens on the contract's port and shows the official
/// renderer.
pub open spec fn runtime_outcome(port: u16, observation: &IsolatedRuntimeObservation) -> Result<(), IsolationError> {
    if !observation.daily_root_alive {
        Err(IsolationError::DailyInstanceGone)
    } else if observation.owned_pids@.is_empty() {
        Err(IsolationError::EmptyProcessTree)
    } else if !observation.owned_pids@.disjoint(observation.preexisting_pids@) {
        Err(IsolationError::PreexistingProcessOwned)
    } else if !observation.owned_pids@.contains(observation.cdp_listener_pid) {
        Err(IsolationError::CdpListenerNotOwned)
    } else if observation.cdp_port != port {
        Err(IsolationError::CdpPortMismatch)
    } else if !(observation.cdp_target_url matches Some(url) && url@ == app_renderer_url()) {
        Err(IsolationError::UnexpectedCdpTarget)
    } else {
        Ok(())
    }
}

fn disjoint(left: &BTreeSet<u32>, right: &BTreeSet<u32>) -> (result: bool)
    ensures
        result == left@.disjoint(right@),
{
    let ghost keys = vstd::std_specs::btree::spec_btree_keys_iter(left).remaining();
    let ghost mut seen: int = 0;
    for pid in it: left.iter()
        invariant
            it.seq() == keys,
            seen == it.index(),
            keys.unref().to_set() == left@,
            forall|j: int| 0 <= j < seen ==> !right@.contains(*#[trigger] keys[j]),
    {
        if right.contains(pid) {
            proof {
                assert(keys.unref().contains(*pid));
            }
            return false;
        }
        proof {
            seen = seen + 1;
        }
    }
    proof {
        assert(seen == keys.len());
        assert forall|pid: u32| left@.contains(pid) implies !right@.contains(pid) by {
            assert(keys.unref().to_set().contains(pid));
            let j = choose|j: int| 0 <= j < keys.unref().len() && keys.unref()[j] == pid;
            assert(*keys[j] == pid);
        }
    }
    true
}

} // verus!
