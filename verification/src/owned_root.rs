//! Whether a `git` command line reaches into the owned instance root. Paths are compared
//! as the runtime normalizes them: `/` read as `\`, the verbatim markers dropped, `.`
//! skipped, `..` taken back, and the whole in lowercase. A command names the root when
//! its working directory (`-C`), its `--git-dir`, `--work-tree` or `--shallow-file` lies
//! in it.

use vstd::prelude::*;

use crate::isolation::join_parts;
use crate::strings::{lowercase, string_from_chars, to_lowercase};
use crate::text::{chars_equal, chars_of, slice_chars};
use crate::winpath::{
    dot, dot_dot, is_absolute_path, is_separator, parse_prefix, parse_windows_path, path_raw_parts, prefix_length,
    starts_with, PrefixKind,
};

verus! {

/// `s` with every `/` read as `\`.
pub open spec fn backslashed(s: Seq<char>) -> Seq<char> {
    s.map_values(|c: char| if c == '/' { '\\' } else { c })
}

/// `s` without a leading verbatim marker: `\\?\UNC\` becomes `\\`, `\\?\` goes.
pub open spec fn without_verbatim(s: Seq<char>) -> Seq<char> {
    if starts_with(s, seq!['\\', '\\', '?', '\\', 'U', 'N', 'C', '\\']) {
        seq!['\\', '\\'] + s.skip(8)
    } else if starts_with(s, seq!['\\', '\\', '?', '\\']) {
        s.skip(4)
    } else {
        s
    }
}

/// Reading one more component: `.` changes nothing, `..` takes the last one back (and
/// fails with none to take), another is kept.
pub open spec fn pop_step(kept: Seq<Seq<char>>, part: Seq<char>) -> Option<Seq<Seq<char>>> {
    if part == dot() {
        Some(kept)
    } else if part == dot_dot() {
        if kept.len() == 0 {
            None
        } else {
            Some(kept.drop_last())
        }
    } else {
        Some(kept.push(part))
    }
}

/// The components that remain of `parts` once `.` and `..` are resolved.
pub open spec fn resolved_parts(parts: Seq<Seq<char>>) -> Option<Seq<Seq<char>>>
    decreases parts.len(),
{
    if parts.len() == 0 {
        Some(Seq::empty())
    } else {
        match resolved_parts(parts.drop_last()) {
            Some(kept) => pop_step(kept, parts.last()),
            None => None,
        }
    }
}

/// The normalized text of an absolute Windows path, or `None` for a path that is not
/// absolute or climbs above its root.
pub open spec fn normalized_windows_path(s: Seq<char>) -> Option<Seq<char>> {
    let t = without_verbatim(backslashed(s));
    if !is_absolute_path(t) {
        None
    } else {
        match resolved_parts(path_raw_parts(t)) {
            Some(parts) => Some(lowercase(t.take(prefix_length(t)) + seq!['\\'] + join_parts(parts))),
            None => None,
        }
    }
}

/// `value` lies in `root`: both normalize, and the value is the root or under it.
pub open spec fn within_root(value: Seq<char>, root: Seq<char>) -> bool {
    match (normalized_windows_path(value), normalized_windows_path(root)) {
        (Some(v), Some(r)) => v == r || starts_with(
            v,
            if r.len() > 0 && r.last() == '\\' {
                r
            } else {
                r.push('\\')
            },
        ),
        _ => false,
    }
}

/// `value` read against the directory `base`, as `PathBuf::push` places it: a path with a
/// prefix replaces the base, one with only a root keeps the base's prefix, and another is
/// appended after a separator when the base lacks one.
pub open spec fn placed_on(base: Seq<char>, value: Seq<char>) -> Seq<char> {
    if parse_prefix(value) is Some {
        value
    } else if value.len() > 0 && is_separator(value[0], false) {
        base.take(prefix_length(base)) + value
    } else if base.len() == 0 || is_separator(base.last(), false) {
        base + value
    } else {
        base + seq!['\\'] + value
    }
}

/// The directory a git path option names, read against the working directory when it is
/// relative; `None` when it is relative and no working directory is known, or when it
/// does not normalize.
pub open spec fn resolved_git_path(current: Option<Seq<char>>, value: Seq<char>) -> Option<Seq<char>> {
    if is_absolute_path(value) {
        normalized_windows_path(value)
    } else {
        match current {
            Some(base) => normalized_windows_path(placed_on(base, value)),
            None => None,
        }
    }
}

/// The paths a git command line has named so far.
pub ghost struct GitPaths {
    pub working_directory: Option<Seq<char>>,
    pub shallow_file: Option<Seq<char>>,
    pub git_dir: Option<Seq<char>>,
    pub work_tree: Option<Seq<char>>,
}

/// The named path, resolved, lies in `root`.
pub open spec fn git_path_in_root(working_directory: Option<Seq<char>>, path: Option<Seq<char>>, root: Seq<char>) -> bool {
    match path {
        Some(p) => match resolved_git_path(working_directory, p) {
            Some(q) => within_root(q, root),
            None => false,
        },
        None => false,
    }
}

/// The paths named reach into `root`: the working directory lies in it, or one of the
/// path options does.
pub open spec fn git_paths_reference_owned_root(paths: GitPaths, root: Seq<char>) -> bool {
    ||| (paths.working_directory matches Some(w) && within_root(w, root))
    ||| git_path_in_root(paths.working_directory, paths.shallow_file, root)
    ||| git_path_in_root(paths.working_directory, paths.git_dir, root)
    ||| git_path_in_root(paths.working_directory, paths.work_tree, root)
}

/// The index of the first `=` of `s`, if it has one.
pub open spec fn first_equals(s: Seq<char>) -> Option<int> {
    if exists|i: int| 0 <= i < s.len() && s[i] == '=' {
        Some(choose|i: int| 0 <= i < s.len() && s[i] == '=' && forall|j: int| 0 <= j < i ==> s[j] != '=')
    } else {
        None
    }
}

/// The value of `argument` written `option=value`.
pub open spec fn option_value(argument: Seq<char>, option: Seq<char>) -> Option<Seq<char>> {
    match first_equals(argument) {
        Some(i) => if argument.take(i) == option {
            Some(argument.skip(i + 1))
        } else {
            None
        },
        None => None,
    }
}

/// Git options that take their value in the next argument and name no path.
pub open spec fn skipped_with_value(argument: Seq<char>) -> bool {
    argument == "-c"@ || argument == "--config-env"@ || argument == "--exec-path"@ || argument == "--namespace"@
        || argument == "--super-prefix"@
}

/// Git options that stand alone, or carry their value after `=`, and name no path.
pub open spec fn skipped_alone(argument: Seq<char>) -> bool {
    ||| option_value(argument, "--config-env"@) is Some
    ||| option_value(argument, "--exec-path"@) is Some
    ||| option_value(argument, "--namespace"@) is Some
    ||| option_value(argument, "--super-prefix"@) is Some
    ||| argument == "-p"@ || argument == "-P"@ || argument == "--paginate"@ || argument == "--no-pager"@
    ||| argument == "--no-replace-objects"@ || argument == "--bare"@ || argument == "--literal-pathspecs"@
    ||| argument == "--glob-pathspecs"@ || argument == "--noglob-pathspecs"@ || argument == "--icase-pathspecs"@
    ||| argument == "--no-optional-locks"@ || argument == "--no-advice"@ || argument == "--version"@
    ||| argument == "--help"@
}

/// Reading the git options from `index` on: at `--`, a lone `-` or the first argument that
/// is not an option, the paths named so far decide; `-C` moves the working directory;
/// `--git-dir`, `--work-tree` and `--shallow-file` (apart or with `=`) name a path; the
/// options that name no path are passed over; a path option without its value, or an
/// option this reading does not know, means the command line is not recognised (`false`).
pub open spec fn git_references_root(arguments: Seq<Seq<char>>, index: int, paths: GitPaths, root: Seq<char>) -> bool
    decreases arguments.len() + 1 - index,
{
    if index < 1 || index >= arguments.len() {
        git_paths_reference_owned_root(paths, root)
    } else {
        let a = arguments[index];
        if a == "--"@ || !(a.len() > 0 && a[0] == '-') || a == "-"@ {
            git_paths_reference_owned_root(paths, root)
        } else if a == "-C"@ {
            if index + 1 >= arguments.len() {
                false
            } else {
                git_references_root(
                    arguments,
                    index + 2,
                    GitPaths {
                        working_directory: resolved_git_path(paths.working_directory, arguments[index + 1]),
                        ..paths
                    },
                    root,
                )
            }
        } else if a == "--shallow-file"@ || a == "--git-dir"@ || a == "--work-tree"@ {
            if index + 1 >= arguments.len() {
                false
            } else {
                let v = Some(arguments[index + 1]);
                git_references_root(
                    arguments,
                    index + 2,
                    if a == "--shallow-file"@ {
                        GitPaths { shallow_file: v, ..paths }
                    } else if a == "--git-dir"@ {
                        GitPaths { git_dir: v, ..paths }
                    } else {
                        GitPaths { work_tree: v, ..paths }
                    },
                    root,
                )
            }
        } else if option_value(a, "--shallow-file"@) is Some {
            git_references_root(arguments, index + 1, GitPaths { shallow_file: option_value(a, "--shallow-file"@), ..paths }, root)
        } else if option_value(a, "--git-dir"@) is Some {
            git_references_root(arguments, index + 1, GitPaths { git_dir: option_value(a, "--git-dir"@), ..paths }, root)
        } else if option_value(a, "--work-tree"@) is Some {
            git_references_root(arguments, index + 1, GitPaths { work_tree: option_value(a, "--work-tree"@), ..paths }, root)
        } else if skipped_with_value(a) {
            git_references_root(arguments, index + 2, paths, root)
        } else if skipped_alone(a) {
            git_references_root(arguments, index + 1, paths, root)
        } else {
            false
        }
    }
}

pub open spec fn texts(values: Seq<String>) -> Seq<Seq<char>> {
    values.map_values(|v: String| v@)
}

pub open spec fn no_git_paths() -> GitPaths {
    GitPaths { working_directory: None, shallow_file: None, git_dir: None, work_tree: None }
}


fn backslash_chars(chars: &[char]) -> (result: Vec<char>)
    ensures
        result@ == backslashed(chars@),
{
    let mut out: Vec<char> = Vec::new();
    for i in 0..chars.len()
        invariant
            out@ == backslashed(chars@.take(i as int)),
    {
        let c = chars[i];
        out.push(if c == '/' { '\\' } else { c });
        proof {
            assert(backslashed(chars@.take(i + 1)) =~= backslashed(chars@.take(i as int)).push(
                if c == '/' { '\\' } else { c },
            ));
        }
    }
    proof {
        assert(chars@.take(chars@.len() as int) =~= chars@);
    }
    out
}

fn starts_with_chars(chars: &Vec<char>, prefix: &[char]) -> (result: bool)
    ensures
        result == starts_with(chars@, prefix@),
{
    if chars.len() < prefix.len() {
        return false;
    }
    let head = slice_chars(chars.as_slice(), 0, prefix.len());
    proof {
        assert(head@ =~= chars@.take(prefix@.len() as int));
    }
    chars_equal(head.as_slice(), prefix)
}

fn drop_verbatim(chars: Vec<char>) -> (result: Vec<char>)
    ensures
        result@ == without_verbatim(chars@),
{
    let unc: [char; 8] = ['\\', '\\', '?', '\\', 'U', 'N', 'C', '\\'];
    let plain: [char; 4] = ['\\', '\\', '?', '\\'];
    proof {
        assert(unc@ =~= seq!['\\', '\\', '?', '\\', 'U', 'N', 'C', '\\']);
        assert(plain@ =~= seq!['\\', '\\', '?', '\\']);
    }
    if starts_with_chars(&chars, unc.as_slice()) {
        let mut out: Vec<char> = Vec::new();
        out.push('\\');
        out.push('\\');
        let rest = slice_chars(chars.as_slice(), 8, chars.len());
        let ghost head = out@;
        out.append(&mut rest.clone());
        proof {
            assert(head =~= seq!['\\', '\\']);
            assert(out@ =~= seq!['\\', '\\'] + chars@.skip(8));
        }
        out
    } else if starts_with_chars(&chars, plain.as_slice()) {
        let out = slice_chars(chars.as_slice(), 4, chars.len());
        proof {
            assert(out@ =~= chars@.skip(4));
        }
        out
    } else {
        chars
    }
}

fn is_dot(part: &Vec<char>) -> (result: bool)
    ensures
        result == (part@ == dot()),
{
    let r = part.len() == 1 && part[0] == '.';
    proof {
        if r {
            assert(part@ =~= dot());
        }
    }
    r
}

fn is_dot_dot(part: &Vec<char>) -> (result: bool)
    ensures
        result == (part@ == dot_dot()),
{
    let r = part.len() == 2 && part[0] == '.' && part[1] == '.';
    proof {
        if r {
            assert(part@ =~= dot_dot());
        }
    }
    r
}

pub open spec fn parts_view(parts: Seq<Vec<char>>) -> Seq<Seq<char>> {
    parts.map_values(|p: Vec<char>| p@)
}

fn resolve_parts(parts: &Vec<Vec<char>>) -> (result: Option<Vec<Vec<char>>>)
    ensures
        match result {
            Some(kept) => resolved_parts(parts_view(parts@)) == Some(parts_view(kept@)),
            None => resolved_parts(parts_view(parts@)) is None,
        },
{
    let mut kept: Vec<Vec<char>> = Vec::new();
    proof {
        assert(parts_view(parts@).take(0) =~= Seq::<Seq<char>>::empty());
        assert(parts_view(kept@) =~= Seq::<Seq<char>>::empty());
    }
    for i in 0..parts.len()
        invariant
            resolved_parts(parts_view(parts@).take(i as int)) == Some(parts_view(kept@)),
    {
        let part = &parts[i];
        proof {
            assert(parts_view(parts@).take(i + 1).drop_last() =~= parts_view(parts@).take(i as int));
            assert(parts_view(parts@).take(i + 1).last() == part@);
        }
        if is_dot(part) {
        } else if is_dot_dot(part) {
            if kept.len() == 0 {
                proof {
                    assert(parts_view(parts@).take(parts@.len() as int) =~= parts_view(parts@));
                    lemma_resolved_none_extends(parts_view(parts@), i + 1);
                }
                return None;
            }
            let ghost before = kept@;
            kept.pop();
            proof {
                assert(parts_view(kept@) =~= parts_view(before).drop_last());
            }
        } else {
            let ghost before = kept@;
            kept.push(part.clone());
            proof {
                assert(parts_view(kept@) =~= parts_view(before).push(part@));
            }
        }
    }
    proof {
        assert(parts_view(parts@).take(parts@.len() as int) =~= parts_view(parts@));
    }
    Some(kept)
}

proof fn lemma_resolved_none_extends(parts: Seq<Seq<char>>, count: int)
    requires
        0 <= count <= parts.len(),
        resolved_parts(parts.take(count)) is None,
    ensures
        resolved_parts(parts) is None,
    decreases parts.len() - count,
{
    if count < parts.len() {
        assert(parts.take(count + 1).drop_last() =~= parts.take(count));
        lemma_resolved_none_extends(parts, count + 1);
    } else {
        assert(parts.take(count) =~= parts);
    }
}

fn join_with_separators(parts: &Vec<Vec<char>>) -> (result: Vec<char>)
    ensures
        result@ == join_parts(parts_view(parts@)),
{
    let mut out: Vec<char> = Vec::new();
    if parts.len() == 0 {
        return out;
    }
    out.append(&mut parts[0].clone());
    proof {
        assert(parts_view(parts@).take(1) =~= seq![parts@[0]@]);
        assert(join_parts(parts_view(parts@).take(1)) == parts@[0]@);
    }
    for i in 1..parts.len()
        invariant
            1 <= parts@.len(),
            out@ == join_parts(parts_view(parts@).take(i as int)),
    {
        let ghost before = out@;
        out.push('\\');
        out.append(&mut parts[i].clone());
        proof {
            let t = parts_view(parts@).take(i + 1);
            assert(t.drop_last() =~= parts_view(parts@).take(i as int));
            assert(t.last() == parts@[i as int]@);
            assert(out@ =~= before + seq!['\\'] + parts@[i as int]@);
        }
    }
    proof {
        assert(parts_view(parts@).take(parts@.len() as int) =~= parts_view(parts@));
    }
    out
}

/// The normalized text of the path `path`, as `normalized_windows_path` gives it.
pub fn normalized_path_text(path: &[char]) -> (result: Option<Vec<char>>)
    ensures
        match result {
            Some(text) => normalized_windows_path(path@) == Some(text@),
            None => normalized_windows_path(path@) is None,
        },
{
    let t = drop_verbatim(backslash_chars(path));
    let parsed = parse_windows_path(t.as_slice());
    let absolute = match &parsed.prefix {
        Some((kind, _, _)) => *kind != PrefixKind::Disk || parsed.physical_root,
        None => false,
    };
    if !absolute {
        return None;
    }
    proof {
        assert(parts_view(parsed.parts@) =~= parsed.parts_view());
    }
    let kept = match resolve_parts(&parsed.parts) {
        Some(kept) => kept,
        None => return None,
    };
    let mut text = slice_chars(t.as_slice(), 0, parsed.prefix_len);
    let ghost head = text@;
    text.push('\\');
    let mut joined = join_with_separators(&kept);
    text.append(&mut joined);
    proof {
        assert(head =~= t@.take(prefix_length(t@)));
        assert(text@ =~= t@.take(prefix_length(t@)) + seq!['\\'] + join_parts(parts_view(kept@)));
    }
    let lowered = to_lowercase(string_from_chars(text.as_slice()).as_str());
    Some(chars_of(lowered.as_str()))
}

fn within_owned_root(value: &[char], root: &[char]) -> (result: bool)
    ensures
        result == within_root(value@, root@),
{
    let v = match normalized_path_text(value) {
        Some(v) => v,
        None => return false,
    };
    let r = match normalized_path_text(root) {
        Some(r) => r,
        None => return false,
    };
    if chars_equal(v.as_slice(), r.as_slice()) {
        return true;
    }
    let mut prefix = r.clone();
    if !(r.len() > 0 && r[r.len() - 1] == '\\') {
        prefix.push('\\');
    }
    proof {
        assert(prefix@ == if r@.len() > 0 && r@.last() == '\\' { r@ } else { r@.push('\\') });
    }
    starts_with_chars(&v, prefix.as_slice())
}

fn place_on(base: &Vec<char>, value: &[char]) -> (result: Vec<char>)
    ensures
        result@ == placed_on(base@, value@),
{
    let parsed_value = parse_windows_path(value);
    if parsed_value.prefix.is_some() {
        return slice_chars(value, 0, value.len());
    }
    let mut out: Vec<char>;
    if value.len() > 0 && (value[0] == '\\' || value[0] == '/') {
        let parsed_base = parse_windows_path(base.as_slice());
        out = slice_chars(base.as_slice(), 0, parsed_base.prefix_len);
    } else {
        out = base.clone();
        if !(base.len() == 0 || base[base.len() - 1] == '\\' || base[base.len() - 1] == '/') {
            out.push('\\');
        }
    }
    let ghost head = out@;
    out.append(&mut slice_chars(value, 0, value.len()));
    proof {
        assert(out@ =~= head + value@);
        if !(value@.len() > 0 && is_separator(value@[0], false)) && !(base@.len() == 0 || is_separator(base@.last(), false)) {
            assert(head =~= base@ + seq!['\\']);
        }
    }
    out
}

fn resolve_git_path(current: &Option<Vec<char>>, value: &[char]) -> (result: Option<Vec<char>>)
    ensures
        match result {
            Some(p) => resolved_git_path(opt_chars(*current), value@) == Some(p@),
            None => resolved_git_path(opt_chars(*current), value@) is None,
        },
{
    let parsed = parse_windows_path(value);
    let absolute = match &parsed.prefix {
        Some((kind, _, _)) => *kind != PrefixKind::Disk || parsed.physical_root,
        None => false,
    };
    if absolute {
        return normalized_path_text(value);
    }
    match current {
        Some(base) => {
            let candidate = place_on(base, value);
            normalized_path_text(candidate.as_slice())
        },
        None => None,
    }
}

pub open spec fn opt_chars(value: Option<Vec<char>>) -> Option<Seq<char>> {
    match value {
        Some(v) => Some(v@),
        None => None,
    }
}

fn option_value_of(argument: &Vec<char>, option: &str) -> (result: Option<Vec<char>>)
    ensures
        opt_chars(result) == option_value(argument@, option@),
{
    let mut i: usize = 0;
    while i < argument.len()
        invariant
            i <= argument@.len(),
            forall|j: int| 0 <= j < i ==> argument@[j] != '=',
        decreases argument@.len() - i,
    {
        if argument[i] == '=' {
            proof {
                let c = choose|c: int| 0 <= c < argument@.len() && argument@[c] == '=' && forall|j: int| 0 <= j < c ==> argument@[j] != '=';
                if c < i {
                    assert(argument@[c] != '=');
                } else if c > i {
                    assert(argument@[i as int] != '=');
                }
                assert(first_equals(argument@) == Some(i as int));
            }
            let name = slice_chars(argument.as_slice(), 0, i);
            let wanted = chars_of(option);
            proof {
                assert(name@ =~= argument@.take(i as int));
            }
            if chars_equal(name.as_slice(), wanted.as_slice()) {
                let value = slice_chars(argument.as_slice(), i + 1, argument.len());
                proof {
                    assert(value@ =~= argument@.skip(i + 1));
                }
                return Some(value);
            }
            return None;
        }
        i += 1;
    }
    None
}

fn is_text(argument: &Vec<char>, expected: &str) -> (result: bool)
    ensures
        result == (argument@ == expected@),
{
    let e = chars_of(expected);
    chars_equal(argument.as_slice(), e.as_slice())
}

pub open spec fn paths_view(
    working_directory: Option<Vec<char>>,
    shallow_file: Option<Vec<char>>,
    git_dir: Option<Vec<char>>,
    work_tree: Option<Vec<char>>,
) -> GitPaths {
    GitPaths {
        working_directory: opt_chars(working_directory),
        shallow_file: opt_chars(shallow_file),
        git_dir: opt_chars(git_dir),
        work_tree: opt_chars(work_tree),
    }
}

fn path_in_root(working_directory: &Option<Vec<char>>, path: &Option<Vec<char>>, root: &[char]) -> (result: bool)
    ensures
        result == git_path_in_root(opt_chars(*working_directory), opt_chars(*path), root@),
{
    match path {
        Some(p) => match resolve_git_path(working_directory, p.as_slice()) {
            Some(q) => within_owned_root(q.as_slice(), root),
            None => false,
        },
        None => false,
    }
}

fn paths_reference_root(
    working_directory: &Option<Vec<char>>,
    shallow_file: &Option<Vec<char>>,
    git_dir: &Option<Vec<char>>,
    work_tree: &Option<Vec<char>>,
    root: &[char],
) -> (result: bool)
    ensures
        result == git_paths_reference_owned_root(
            paths_view(*working_directory, *shallow_file, *git_dir, *work_tree),
            root@,
        ),
{
    let in_working = match working_directory {
        Some(w) => within_owned_root(w.as_slice(), root),
        None => false,
    };
    in_working || path_in_root(working_directory, shallow_file, root) || path_in_root(working_directory, git_dir, root)
        || path_in_root(working_directory, work_tree, root)
}

fn passes_with_value(a: &Vec<char>) -> (result: bool)
    ensures
        result == skipped_with_value(a@),
{
    is_text(a, "-c") || is_text(a, "--config-env") || is_text(a, "--exec-path") || is_text(a, "--namespace") || is_text(
        a,
        "--super-prefix",
    )
}

fn passes_alone(a: &Vec<char>) -> (result: bool)
    ensures
        result == skipped_alone(a@),
{
    option_value_of(a, "--config-env").is_some() || option_value_of(a, "--exec-path").is_some() || option_value_of(
        a,
        "--namespace",
    ).is_some() || option_value_of(a, "--super-prefix").is_some() || is_text(a, "-p") || is_text(a, "-P") || is_text(
        a,
        "--paginate",
    ) || is_text(a, "--no-pager") || is_text(a, "--no-replace-objects") || is_text(a, "--bare") || is_text(
        a,
        "--literal-pathspecs",
    ) || is_text(a, "--glob-pathspecs") || is_text(a, "--noglob-pathspecs") || is_text(a, "--icase-pathspecs")
        || is_text(a, "--no-optional-locks") || is_text(a, "--no-advice") || is_text(a, "--version") || is_text(
        a,
        "--help",
    )
}

/// Whether the git command line `arguments` (the program first) reaches into the owned
/// root `root`, as `git_references_root` reads it.
#[verifier::spinoff_prover]
#[verifier::rlimit(50)]
pub fn git_arguments_reference_owned_root(arguments: &Vec<String>, root: &str) -> (result: bool)
    ensures
        result == git_references_root(texts(arguments@), 1, no_git_paths(), root@),
{
    let root_chars = chars_of(root);
    let ghost args = texts(arguments@);
    let mut index: usize = 1;
    let mut working_directory: Option<Vec<char>> = None;
    let mut shallow_file: Option<Vec<char>> = None;
    let mut git_dir: Option<Vec<char>> = None;
    let mut work_tree: Option<Vec<char>> = None;
    while index < arguments.len()
        invariant
            args == texts(arguments@),
            root_chars@ == root@,
            1 <= index,
            git_references_root(args, 1, no_git_paths(), root@) == git_references_root(
                args,
                index as int,
                paths_view(working_directory, shallow_file, git_dir, work_tree),
                root@,
            ),
        decreases arguments@.len() - index,
    {
        let a = chars_of(arguments[index].as_str());
        proof {
            assert(a@ == args[index as int]);
        }
        if is_text(&a, "--") || !(a.len() > 0 && a[0] == '-') || is_text(&a, "-") {
            return paths_reference_root(&working_directory, &shallow_file, &git_dir, &work_tree, root_chars.as_slice());
        }
        if is_text(&a, "-C") {
            if index + 1 >= arguments.len() {
                return false;
            }
            let value = chars_of(arguments[index + 1].as_str());
            proof {
                assert(value@ == args[index + 1]);
            }
            working_directory = resolve_git_path(&working_directory, value.as_slice());
            index += 2;
            continue;
        }
        let shallow_flag = is_text(&a, "--shallow-file");
        let git_dir_flag = is_text(&a, "--git-dir");
        let work_tree_flag = is_text(&a, "--work-tree");
        if shallow_flag || git_dir_flag || work_tree_flag {
            if index + 1 >= arguments.len() {
                return false;
            }
            let value = chars_of(arguments[index + 1].as_str());
            proof {
                assert(value@ == args[index + 1]);
            }
            if shallow_flag {
                shallow_file = Some(value);
            } else if git_dir_flag {
                git_dir = Some(value);
            } else {
                work_tree = Some(value);
            }
            index += 2;
            continue;
        }
        let shallow_value = option_value_of(&a, "--shallow-file");
        if shallow_value.is_some() {
            shallow_file = shallow_value;
            index += 1;
            continue;
        }
        let git_dir_value = option_value_of(&a, "--git-dir");
        if git_dir_value.is_some() {
            git_dir = git_dir_value;
            index += 1;
            continue;
        }
        let work_tree_value = option_value_of(&a, "--work-tree");
        if work_tree_value.is_some() {
            work_tree = work_tree_value;
            index += 1;
            continue;
        }
        if passes_with_value(&a) {
            let ghost paths = paths_view(working_directory, shallow_file, git_dir, work_tree);
            proof {
                assert(git_references_root(args, index as int, paths, root@) == git_references_root(
                    args,
                    index + 2,
                    paths,
                    root@,
                ));
                if index + 1 >= arguments.len() {
                    assert(git_references_root(args, index + 2, paths, root@) == git_paths_reference_owned_root(
                        paths,
                        root@,
                    ));
                    assert(git_references_root(args, args.len() as int, paths, root@) == git_paths_reference_owned_root(
                        paths,
                        root@,
                    ));
                }
            }
            index = if index + 1 >= arguments.len() { arguments.len() } else { index + 2 };
            continue;
        }
        if passes_alone(&a) {
            index += 1;
            continue;
        }
        return false;
    }
    paths_reference_root(&working_directory, &shallow_file, &git_dir, &work_tree, root_chars.as_slice())
}

} // verus!
