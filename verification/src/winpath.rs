//! Windows path syntax: prefixes, roots and components, as the host platform reads them.
//!
//! A path starts with an optional prefix (`C:`, `\\server\share`, `\\.\device`, or one of
//! the verbatim forms `\\?\C:`, `\\?\UNC\server\share`, `\\?\name`), then an optional root
//! separator, then components separated by `\` (and `/`, except in verbatim paths).

use vstd::prelude::*;

use crate::text::slice_chars;

verus! {

/// The kinds of Windows path prefix.
#[derive(Debug, Clone, Copy, PartialEq, Eq, Structural)]
pub enum PrefixKind {
    Verbatim,
    VerbatimUnc,
    VerbatimDisk,
    DeviceNs,
    Unc,
    Disk,
}

/// A parsed prefix: its kind, its one or two named parts, and how many characters it spans.
pub ghost struct PrefixSpec {
    pub kind: PrefixKind,
    pub first: Seq<char>,
    pub second: Seq<char>,
    pub len: int,
}

/// A component separator; verbatim paths only separate on `\`.
pub open spec fn is_separator(c: char, verbatim: bool) -> bool {
    c == '\\' || (!verbatim && c == '/')
}

/// The index of the first separator of `s`, or its length.
pub open spec fn first_separator(s: Seq<char>, verbatim: bool) -> int
    decreases s.len(),
{
    if s.len() == 0 {
        0
    } else if is_separator(s[0], verbatim) {
        0
    } else {
        1 + first_separator(s.drop_first(), verbatim)
    }
}

pub proof fn lemma_first_separator_bounds(s: Seq<char>, verbatim: bool)
    ensures
        0 <= first_separator(s, verbatim) <= s.len(),
        first_separator(s, verbatim) < s.len() ==> is_separator(s[first_separator(s, verbatim)], verbatim),
        forall|i: int| 0 <= i < first_separator(s, verbatim) ==> !is_separator(#[trigger] s[i], verbatim),
    decreases s.len(),
{
    if s.len() > 0 && !is_separator(s[0], verbatim) {
        lemma_first_separator_bounds(s.drop_first(), verbatim);
        assert forall|i: int| 0 <= i < first_separator(s, verbatim) implies !is_separator(#[trigger] s[i], verbatim) by {
            if i > 0 {
                assert(s[i] == s.drop_first()[i - 1]);
            }
        }
    }
}

proof fn lemma_first_separator_at(s: Seq<char>, verbatim: bool, index: int)
    requires
        0 <= index <= s.len(),
        index < s.len() ==> is_separator(s[index], verbatim),
        forall|i: int| 0 <= i < index ==> !is_separator(#[trigger] s[i], verbatim),
    ensures
        first_separator(s, verbatim) == index,
    decreases index,
{
    if index > 0 {
        assert(!is_separator(s[0], verbatim));
        assert forall|i: int| 0 <= i < index - 1 implies !is_separator(#[trigger] s.drop_first()[i], verbatim) by {
            assert(s.drop_first()[i] == s[i + 1]);
        }
        lemma_first_separator_at(s.drop_first(), verbatim, index - 1);
    }
}

/// The component that `s` starts with.
pub open spec fn next_component(s: Seq<char>, verbatim: bool) -> Seq<char> {
    s.take(first_separator(s, verbatim))
}

/// What follows the component that `s` starts with and its separator.
pub open spec fn after_component(s: Seq<char>, verbatim: bool) -> Seq<char> {
    let i = first_separator(s, verbatim);
    if i < s.len() {
        s.skip(i + 1)
    } else {
        Seq::empty()
    }
}

/// `s` starts with `p`.
pub open spec fn starts_with(s: Seq<char>, p: Seq<char>) -> bool {
    s.len() >= p.len() && s.take(p.len() as int) == p
}

pub open spec fn is_ascii_alpha(c: char) -> bool {
    ('a' <= c && c <= 'z') || ('A' <= c && c <= 'Z')
}

/// A drive designator such as `C:`.
pub open spec fn is_drive(s: Seq<char>) -> bool {
    s.len() == 2 && s[1] == ':' && is_ascii_alpha(s[0])
}

/// The length a two-part prefix spans after its leading marker.
pub open spec fn two_part_len(first: Seq<char>, second: Seq<char>) -> int {
    if second.len() > 0 {
        (first.len() + 1 + second.len()) as int
    } else {
        first.len() as int
    }
}

/// The prefix of `s`, if it has one.
pub open spec fn parse_prefix(s: Seq<char>) -> Option<PrefixSpec> {
    if starts_with(s, seq!['\\', '\\']) {
        let p = s.skip(2);
        if starts_with(p, seq!['?', '\\']) {
            let p2 = p.skip(2);
            if starts_with(p2, seq!['U', 'N', 'C', '\\']) {
                let p3 = p2.skip(4);
                let server = next_component(p3, true);
                let share = next_component(after_component(p3, true), true);
                Some(PrefixSpec { kind: PrefixKind::VerbatimUnc, first: server, second: share, len: 8 + two_part_len(server, share) })
            } else {
                let name = next_component(p2, true);
                if is_drive(name) {
                    Some(PrefixSpec { kind: PrefixKind::VerbatimDisk, first: name.take(1), second: Seq::empty(), len: 6 })
                } else {
                    Some(PrefixSpec { kind: PrefixKind::Verbatim, first: name, second: Seq::empty(), len: 4 + name.len() as int })
                }
            }
        } else if starts_with(p, seq!['.', '\\']) {
            let device = next_component(p.skip(2), false);
            Some(PrefixSpec { kind: PrefixKind::DeviceNs, first: device, second: Seq::empty(), len: 4 + device.len() as int })
        } else {
            let server = next_component(p, false);
            let share = next_component(after_component(p, false), false);
            if server.len() > 0 && share.len() > 0 {
                Some(PrefixSpec { kind: PrefixKind::Unc, first: server, second: share, len: 2 + two_part_len(server, share) })
            } else {
                None
            }
        }
    } else if s.len() >= 2 && s[1] == ':' && is_ascii_alpha(s[0]) {
        Some(PrefixSpec { kind: PrefixKind::Disk, first: s.take(1), second: Seq::empty(), len: 2 })
    } else {
        None
    }
}

pub open spec fn is_verbatim_kind(kind: PrefixKind) -> bool {
    kind == PrefixKind::Verbatim || kind == PrefixKind::VerbatimUnc || kind == PrefixKind::VerbatimDisk
}

/// Whether components of `s` separate on `/` too.
pub open spec fn path_is_verbatim(s: Seq<char>) -> bool {
    parse_prefix(s) matches Some(prefix) && is_verbatim_kind(prefix.kind)
}

/// How many characters the prefix of `s` spans.
pub open spec fn prefix_length(s: Seq<char>) -> int {
    match parse_prefix(s) {
        Some(prefix) => prefix.len,
        None => 0,
    }
}

/// What follows the prefix of `s`.
pub open spec fn after_prefix(s: Seq<char>) -> Seq<char> {
    match parse_prefix(s) {
        Some(prefix) => s.skip(prefix.len),
        None => s,
    }
}

/// `s` has a root separator right after its prefix.
pub open spec fn has_physical_root(s: Seq<char>) -> bool {
    let rest = after_prefix(s);
    rest.len() > 0 && is_separator(rest[0], path_is_verbatim(s))
}

/// A Windows path is absolute when it has a prefix and a root, where every prefix but a
/// drive implies a root.
pub open spec fn is_absolute_path(s: Seq<char>) -> bool {
    match parse_prefix(s) {
        Some(prefix) => prefix.kind != PrefixKind::Disk || has_physical_root(s),
        None => false,
    }
}

/// One step of splitting on separators: the finished parts and the part being read.
pub open spec fn split_step(state: (Seq<Seq<char>>, Seq<char>), c: char, verbatim: bool) -> (Seq<Seq<char>>, Seq<char>) {
    if is_separator(c, verbatim) {
        (if state.1.len() > 0 {
            state.0.push(state.1)
        } else {
            state.0
        }, Seq::empty())
    } else {
        (state.0, state.1.push(c))
    }
}

pub open spec fn split_state(s: Seq<char>, verbatim: bool) -> (Seq<Seq<char>>, Seq<char>)
    decreases s.len(),
{
    if s.len() == 0 {
        (Seq::empty(), Seq::empty())
    } else {
        split_step(split_state(s.drop_last(), verbatim), s.last(), verbatim)
    }
}

/// The non-empty pieces of `s` between separators, in order.
pub open spec fn raw_parts(s: Seq<char>, verbatim: bool) -> Seq<Seq<char>> {
    let state = split_state(s, verbatim);
    if state.1.len() > 0 {
        state.0.push(state.1)
    } else {
        state.0
    }
}

/// The raw parts of the path after its prefix.
pub open spec fn path_raw_parts(s: Seq<char>) -> Seq<Seq<char>> {
    raw_parts(after_prefix(s), path_is_verbatim(s))
}

/// The character sequences of `.` and `..`.
pub open spec fn dot() -> Seq<char> {
    seq!['.']
}

pub open spec fn dot_dot() -> Seq<char> {
    seq!['.', '.']
}

/// Whether `part` is a component that refers to a current or parent directory. A `.` is
/// skipped in ordinary paths and kept as a current-directory component in verbatim ones.
pub open spec fn is_relative_part(part: Seq<char>, verbatim: bool) -> bool {
    part == dot_dot() || (verbatim && part == dot())
}

/// Whether an ordinary path skips `part`.
pub open spec fn is_skipped_part(part: Seq<char>, verbatim: bool) -> bool {
    !verbatim && part == dot()
}

/// The parsed shape of a path, computed by `parse_windows_path`.
#[derive(Debug, Clone, PartialEq, Eq)]
pub struct ParsedPath {
    pub prefix: Option<(PrefixKind, Vec<char>, Vec<char>)>,
    pub prefix_len: usize,
    pub verbatim: bool,
    pub physical_root: bool,
    pub parts: Vec<Vec<char>>,
}

impl ParsedPath {
    /// The parts as character sequences.
    pub open spec fn parts_view(&self) -> Seq<Seq<char>> {
        self.parts@.map_values(|part: Vec<char>| part@)
    }
}

/// `path` parsed as its prefix, verbatim flag, root and raw parts.
pub open spec fn parsed_matches(parsed: ParsedPath, s: Seq<char>) -> bool {
    &&& match (parsed.prefix, parse_prefix(s)) {
        (Some((kind, first, second)), Some(prefix)) => kind == prefix.kind && first@ == prefix.first && second@
            == prefix.second,
        (None, None) => true,
        _ => false,
    }
    &&& parsed.prefix_len == prefix_length(s)
    &&& parsed.verbatim == path_is_verbatim(s)
    &&& parsed.physical_root == has_physical_root(s)
    &&& parsed.parts_view() == path_raw_parts(s)
}

fn is_separator_char(c: char, verbatim: bool) -> (result: bool)
    ensures
        result == is_separator(c, verbatim),
{
    c == '\\' || (!verbatim && c == '/')
}

/// The index of the first separator at or after `from`, or the length.
fn find_separator(chars: &[char], from: usize, verbatim: bool) -> (result: usize)
    requires
        from <= chars@.len(),
    ensures
        from <= result <= chars@.len(),
        result == from + first_separator(chars@.skip(from as int), verbatim),
{
    let mut index = from;
    while index < chars.len() && !is_separator_char(chars[index], verbatim)
        invariant
            from <= index <= chars@.len(),
            forall|i: int| from <= i < index ==> !is_separator(#[trigger] chars@[i], verbatim),
        decreases chars.len() - index,
    {
        index += 1;
    }
    proof {
        let rest = chars@.skip(from as int);
        assert forall|i: int| 0 <= i < index - from implies !is_separator(#[trigger] rest[i], verbatim) by {
            assert(rest[i] == chars@[from + i]);
        }
        if index < chars@.len() {
            assert(rest[index - from] == chars@[index as int]);
        }
        lemma_first_separator_at(rest, verbatim, index - from);
    }
    index
}

fn starts_with_at(chars: &[char], from: usize, pattern: &[char]) -> (result: bool)
    requires
        from <= chars@.len(),
    ensures
        result == starts_with(chars@.skip(from as int), pattern@),
{
    let n = chars.len();
    if n - from < pattern.len() {
        return false;
    }
    for index in 0..pattern.len()
        invariant
            n == chars@.len(),
            from + pattern@.len() <= n,
            forall|i: int| 0 <= i < index ==> chars@[from + i] == pattern@[i],
    {
        if chars[from + index] != pattern[index] {
            proof {
                assert(chars@.skip(from as int).take(pattern@.len() as int)[index as int] == chars@[from + index]);
            }
            return false;
        }
    }
    proof {
        assert(chars@.skip(from as int).take(pattern@.len() as int) =~= pattern@);
    }
    true
}

fn char_is_ascii_alpha(c: char) -> (result: bool)
    ensures
        result == is_ascii_alpha(c),
{
    ('a' <= c && c <= 'z') || ('A' <= c && c <= 'Z')
}

/// Reads the component starting at `from` and the next one after its separator.
fn two_components(chars: &[char], from: usize, verbatim: bool) -> (result: (Vec<char>, Vec<char>))
    requires
        from <= chars@.len(),
    ensures
        result.0@ == next_component(chars@.skip(from as int), verbatim),
        result.1@ == next_component(after_component(chars@.skip(from as int), verbatim), verbatim),
        two_part_len(result.0@, result.1@) <= chars@.len() - from,
{
    let ghost rest = chars@.skip(from as int);
    let first_end = find_separator(chars, from, verbatim);
    let first = slice_chars(chars, from, first_end);
    proof {
        assert(first@ =~= rest.take(first_end - from));
    }
    if first_end == chars.len() {
        proof {
            assert(after_component(rest, verbatim) =~= Seq::<char>::empty());
            assert(first_separator(Seq::<char>::empty(), verbatim) == 0);
            assert(next_component(Seq::<char>::empty(), verbatim) =~= Seq::<char>::empty());
        }
        return (first, Vec::new());
    }
    let second_start = first_end + 1;
    let second_end = find_separator(chars, second_start, verbatim);
    let second = slice_chars(chars, second_start, second_end);
    proof {
        let after = after_component(rest, verbatim);
        assert(after =~= chars@.skip(second_start as int));
        assert(second@ =~= after.take(second_end - second_start));
    }
    (first, second)
}


fn two_part_length(first: &Vec<char>, second: &Vec<char>) -> (result: usize)
    requires
        two_part_len(first@, second@) <= usize::MAX,
    ensures
        result == two_part_len(first@, second@),
{
    if second.len() > 0 {
        first.len() + 1 + second.len()
    } else {
        first.len()
    }
}

/// The prefix of `chars` with the number of characters it spans.
#[verifier::rlimit(60)]
fn prefix_of(chars: &[char]) -> (result: (Option<(PrefixKind, Vec<char>, Vec<char>)>, usize))
    ensures
        match (result.0, parse_prefix(chars@)) {
            (Some((kind, first, second)), Some(prefix)) => kind == prefix.kind && first@ == prefix.first
                && second@ == prefix.second && result.1 == prefix.len,
            (None, None) => result.1 == 0,
            _ => false,
        },
        result.1 <= chars@.len(),
{
    let n = chars.len();
    let two_backslashes = ['\\', '\\'];
    let question = ['?', '\\'];
    let unc = ['U', 'N', 'C', '\\'];
    let dot_sep = ['.', '\\'];
    proof {
        assert(two_backslashes@ =~= seq!['\\', '\\']);
        assert(question@ =~= seq!['?', '\\']);
        assert(unc@ =~= seq!['U', 'N', 'C', '\\']);
        assert(dot_sep@ =~= seq!['.', '\\']);
        assert(chars@.skip(0) =~= chars@);
    }
    if starts_with_at(chars, 0, &two_backslashes) {
        let ghost p = chars@.skip(2);
        if starts_with_at(chars, 2, &question) {
            proof {
                assert(chars@.skip(2).skip(2) =~= chars@.skip(4));
            }
            let ghost p2 = chars@.skip(4);
            if starts_with_at(chars, 4, &unc) {
                proof {
                    assert(chars@.skip(4).skip(4) =~= chars@.skip(8));
                }
                let (server, share) = two_components(chars, 8, true);
                proof {
                    assert(p2.skip(4) =~= chars@.skip(8));
                    lemma_first_separator_bounds(chars@.skip(8), true);
                }
                let len = 8 + two_part_length(&server, &share);
                return (Some((PrefixKind::VerbatimUnc, server, share)), len);
            }
            let end = find_separator(chars, 4, true);
            let name = slice_chars(chars, 4, end);
            proof {
                assert(name@ =~= next_component(p2, true));
            }
            if name.len() == 2 && name[1] == ':' && char_is_ascii_alpha(name[0]) {
                let letter = slice_chars(name.as_slice(), 0, 1);
                proof {
                    assert(letter@ =~= name@.take(1));
                }
                return (Some((PrefixKind::VerbatimDisk, letter, Vec::new())), 6);
            }
            let len = 4 + name.len();
            return (Some((PrefixKind::Verbatim, name, Vec::new())), len);
        }
        if starts_with_at(chars, 2, &dot_sep) {
            proof {
                assert(chars@.skip(2).skip(2) =~= chars@.skip(4));
            }
            let end = find_separator(chars, 4, false);
            let device = slice_chars(chars, 4, end);
            proof {
                assert(device@ =~= next_component(p.skip(2), false));
            }
            let len = 4 + device.len();
            return (Some((PrefixKind::DeviceNs, device, Vec::new())), len);
        }
        let (server, share) = two_components(chars, 2, false);
        if server.len() > 0 && share.len() > 0 {
            proof {
                lemma_first_separator_bounds(chars@.skip(2), false);
            }
            let len = 2 + two_part_length(&server, &share);
            return (Some((PrefixKind::Unc, server, share)), len);
        }
        return (None, 0);
    }
    if n >= 2 && chars[1] == ':' && char_is_ascii_alpha(chars[0]) {
        proof {
            assert(!starts_with(chars@, seq!['\\', '\\']));
        }
        let letter = slice_chars(chars, 0, 1);
        proof {
            assert(letter@ =~= chars@.take(1));
        }
        return (Some((PrefixKind::Disk, letter, Vec::new())), 2);
    }
    (None, 0)
}

fn kind_is_verbatim(kind: PrefixKind) -> (result: bool)
    ensures
        result == is_verbatim_kind(kind),
{
    match kind {
        PrefixKind::Verbatim | PrefixKind::VerbatimUnc | PrefixKind::VerbatimDisk => true,
        _ => false,
    }
}

proof fn lemma_split_state_step(s: Seq<char>, start: int, index: int, verbatim: bool)
    requires
        0 <= start <= index < s.len(),
    ensures
        split_state(s.subrange(start, index + 1), verbatim) == split_step(
            split_state(s.subrange(start, index), verbatim),
            s[index],
            verbatim,
        ),
{
    let next = s.subrange(start, index + 1);
    assert(next.drop_last() =~= s.subrange(start, index));
    assert(next.last() == s[index]);
}

/// Splits `chars` into its prefix, root and raw parts.
pub fn parse_windows_path(chars: &[char]) -> (parsed: ParsedPath)
    ensures
        parsed_matches(parsed, chars@),
        parsed.prefix_len <= chars@.len(),
{
    let n = chars.len();
    let (prefix, start) = prefix_of(chars);
    let verbatim = match &prefix {
        Some((kind, _, _)) => kind_is_verbatim(*kind),
        None => false,
    };
    proof {
        assert(after_prefix(chars@) =~= chars@.subrange(start as int, n as int));
    }
    let physical_root = start < n && is_separator_char(chars[start], verbatim);
    let mut parts: Vec<Vec<char>> = Vec::new();
    let mut current: Vec<char> = Vec::new();
    let mut index = start;
    proof {
        assert(chars@.subrange(start as int, start as int) =~= Seq::<char>::empty());
        assert(parts@.map_values(|part: Vec<char>| part@) =~= Seq::<Seq<char>>::empty());
    }
    while index < n
        invariant
            n == chars@.len(),
            start <= index <= n,
            (parts@.map_values(|part: Vec<char>| part@), current@) == split_state(
                chars@.subrange(start as int, index as int),
                verbatim,
            ),
        decreases n - index,
    {
        proof {
            lemma_split_state_step(chars@, start as int, index as int, verbatim);
        }
        let c = chars[index];
        if is_separator_char(c, verbatim) {
            if current.len() > 0 {
                let ghost before = parts@;
                let finished = current;
                parts.push(finished);
                proof {
                    assert(parts@.map_values(|part: Vec<char>| part@) =~= before.map_values(
                        |part: Vec<char>| part@,
                    ).push(finished@));
                }
            }
            current = Vec::new();
        } else {
            current.push(c);
        }
        index += 1;
    }
    proof {
        assert(chars@.subrange(start as int, n as int) =~= after_prefix(chars@));
    }
    if current.len() > 0 {
        let ghost before = parts@;
        let ghost last = current@;
        parts.push(current);
        proof {
            assert(parts@.map_values(|part: Vec<char>| part@) =~= before.map_values(|part: Vec<char>| part@).push(
                last,
            ));
        }
    }
    ParsedPath { prefix, prefix_len: start, verbatim, physical_root, parts }
}

/// A path has a root when it has a physical one or a prefix other than a drive.
pub open spec fn has_root(s: Seq<char>) -> bool {
    has_physical_root(s) || (parse_prefix(s) matches Some(prefix) && prefix.kind != PrefixKind::Disk)
}

/// A rootless path that starts with `.` keeps it as a leading current-directory component.
pub open spec fn include_cur_dir(s: Seq<char>) -> bool {
    let rest = after_prefix(s);
    &&& !has_root(s)
    &&& rest.len() > 0
    &&& rest[0] == '.'
    &&& (rest.len() == 1 || is_separator(rest[1], path_is_verbatim(s)))
}

/// A part as a component: `None` for a current or parent directory, else its name.
pub open spec fn piece_of(part: Seq<char>, verbatim: bool) -> Option<Seq<char>> {
    if is_relative_part(part, verbatim) {
        None
    } else {
        Some(part)
    }
}

/// The components of `parts` after the root, without the skipped ones.
pub open spec fn kept_pieces(parts: Seq<Seq<char>>, verbatim: bool) -> Seq<Option<Seq<char>>>
    decreases parts.len(),
{
    if parts.len() == 0 {
        Seq::empty()
    } else if is_skipped_part(parts.last(), verbatim) {
        kept_pieces(parts.drop_last(), verbatim)
    } else {
        kept_pieces(parts.drop_last(), verbatim).push(piece_of(parts.last(), verbatim))
    }
}

/// The components of `s` that follow its prefix and root, in order: `None` for a current
/// or parent directory, else a name.
pub open spec fn path_pieces(s: Seq<char>) -> Seq<Option<Seq<char>>> {
    (if include_cur_dir(s) {
        seq![None]
    } else {
        Seq::empty()
    }) + kept_pieces(path_raw_parts(s), path_is_verbatim(s))
}

/// The file name of the `up`-th ancestor of a path with these components (`up == 0` for
/// the path itself), if that ancestor exists and ends in a name.
pub open spec fn ancestor_name(pieces: Seq<Option<Seq<char>>>, up: int) -> Option<Seq<char>> {
    if up < pieces.len() {
        pieces[pieces.len() - 1 - up]
    } else {
        None
    }
}

/// The extension of a file name: what follows its last `.`, when something precedes it.
pub open spec fn extension_of(name: Seq<char>) -> Option<Seq<char>> {
    if name == dot_dot() {
        None
    } else {
        match last_dot(name) {
            Some(i) => if i == 0 {
                None
            } else {
                Some(name.skip(i + 1))
            },
            None => None,
        }
    }
}

/// The index of the last `.` of `name`.
pub open spec fn last_dot(name: Seq<char>) -> Option<int>
    decreases name.len(),
{
    if name.len() == 0 {
        None
    } else if name.last() == '.' {
        Some(name.len() - 1)
    } else {
        last_dot(name.drop_last())
    }
}

proof fn lemma_kept_pieces_step(parts: Seq<Seq<char>>, index: int, verbatim: bool)
    requires
        0 <= index < parts.len(),
    ensures
        kept_pieces(parts.take(index + 1), verbatim) == if is_skipped_part(parts[index], verbatim) {
            kept_pieces(parts.take(index), verbatim)
        } else {
            kept_pieces(parts.take(index), verbatim).push(piece_of(parts[index], verbatim))
        },
{
    assert(parts.take(index + 1).drop_last() =~= parts.take(index));
}

pub open spec fn pieces_view(pieces: Seq<Option<Vec<char>>>) -> Seq<Option<Seq<char>>> {
    pieces.map_values(|p: Option<Vec<char>>| match p {
        Some(name) => Some(name@),
        None => None,
    })
}

/// The components of `chars` that follow its prefix and root.
pub fn path_pieces_of(chars: &[char]) -> (result: Vec<Option<Vec<char>>>)
    ensures
        pieces_view(result@) == path_pieces(chars@),
{
    let parsed = parse_windows_path(chars);
    let n = chars.len();
    let start = parsed.prefix_len;
    let verbatim = parsed.verbatim;
    let rooted = parsed.physical_root || match &parsed.prefix {
        Some((kind, _, _)) => *kind != PrefixKind::Disk,
        None => false,
    };
    proof {
        assert(after_prefix(chars@) =~= chars@.subrange(start as int, n as int));
    }
    let cur_dir = !rooted && start < n && chars[start] == '.' && (start + 1 == n || is_separator_char(
        chars[start + 1],
        verbatim,
    ));
    let mut pieces: Vec<Option<Vec<char>>> = Vec::new();
    if cur_dir {
        pieces.push(None);
    }
    let ghost head = pieces_view(pieces@);
    let ghost raw = path_raw_parts(chars@);
    proof {
        assert(head =~= if include_cur_dir(chars@) {
            seq![None]
        } else {
            Seq::<Option<Seq<char>>>::empty()
        });
        assert(raw.take(0) =~= Seq::<Seq<char>>::empty());
        assert(head + kept_pieces(raw.take(0), verbatim) =~= head);
        assert forall|i: int| 0 <= i < parsed.parts@.len() implies #[trigger] parsed.parts@[i]@ == raw[i] by {
            assert(parsed.parts_view()[i] == parsed.parts@[i]@);
        }
    }
    let parts = &parsed.parts;
    for index in 0..parts.len()
        invariant
            parts@.len() == raw.len(),
            verbatim == path_is_verbatim(chars@),
            forall|i: int| 0 <= i < parts@.len() ==> #[trigger] parts@[i]@ == raw[i],
            pieces_view(pieces@) == head + kept_pieces(raw.take(index as int), verbatim),
    {
        proof {
            lemma_kept_pieces_step(raw, index as int, verbatim);
        }
        let part = &parts[index];
        let is_dot = part.len() == 1 && part[0] == '.';
        let is_dot_dot = part.len() == 2 && part[0] == '.' && part[1] == '.';
        proof {
            assert(is_dot == (part@ == dot())) by {
                if part@.len() == 1 && part@[0] == '.' {
                    assert(part@ =~= dot());
                }
            }
            assert(is_dot_dot == (part@ == dot_dot())) by {
                if part@.len() == 2 && part@[0] == '.' && part@[1] == '.' {
                    assert(part@ =~= dot_dot());
                }
            }
        }
        if !(!verbatim && is_dot) {
            let ghost before = pieces@;
            let piece = if is_dot_dot || (verbatim && is_dot) {
                None
            } else {
                Some(slice_chars(part.as_slice(), 0, part.len()))
            };
            proof {
                if piece is Some {
                    assert(part@.subrange(0, part@.len() as int) =~= part@);
                }
            }
            pieces.push(piece);
            proof {
                assert(pieces_view(pieces@) =~= pieces_view(before).push(piece_of(raw[index as int], verbatim)));
                assert((head + kept_pieces(raw.take(index as int), verbatim)).push(
                    piece_of(raw[index as int], verbatim),
                ) =~= head + kept_pieces(raw.take(index as int), verbatim).push(piece_of(raw[index as int], verbatim)));
            }
        }
    }
    proof {
        assert(raw.take(raw.len() as int) =~= raw);
    }
    pieces
}

/// The extension of the file name `name`.
pub fn extension_of_name(name: &[char]) -> (result: Option<Vec<char>>)
    ensures
        match result {
            Some(ext) => extension_of(name@) == Some(ext@),
            None => extension_of(name@) is None,
        },
{
    let n = name.len();
    if n == 2 && name[0] == '.' && name[1] == '.' {
        proof {
            assert(name@ =~= dot_dot());
        }
        return None;
    }
    proof {
        if name@ == dot_dot() {
            assert(name@[0] == '.' && name@[1] == '.');
        }
    }
    let mut end = n;
    proof {
        assert(name@.take(n as int) =~= name@);
    }
    while end > 0 && name[end - 1] != '.'
        invariant
            end <= n == name@.len(),
            last_dot(name@) == last_dot(name@.take(end as int)),
        decreases end,
    {
        proof {
            assert(name@.take(end as int).drop_last() =~= name@.take(end - 1));
        }
        end -= 1;
    }
    if end <= 1 {
        proof {
            if end == 1 {
                assert(name@.take(1).last() == '.');
            }
        }
        return None;
    }
    proof {
        assert(name@.take(end as int).last() == '.');
    }
    Some(slice_chars(name, end, n))
}

/// Whether `path` is absolute on Windows.
pub fn path_is_absolute(path: &str) -> (result: bool)
    ensures
        result == is_absolute_path(path@),
{
    let chars = crate::text::chars_of(path);
    let parsed = parse_windows_path(chars.as_slice());
    match &parsed.prefix {
        Some((kind, _, _)) => *kind != PrefixKind::Disk || parsed.physical_root,
        None => false,
    }
}

} // verus!
