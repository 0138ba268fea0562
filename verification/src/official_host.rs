//! Where the official ChatGPT/Codex app executable must live to be trusted and launched:
//! `ChatGPT.exe` in the `app` directory of an `OpenAI.Codex` package inside `WindowsApps`,
//! and for a direct launch that `WindowsApps` must be the system one.

use vstd::prelude::*;

use crate::compatibility::{ascii_lower, eq_ignore_ascii_case};
use crate::strings::{lowercase, to_lowercase};
use crate::text::{chars_equal, chars_of, slice_chars};
use crate::winpath::{ancestor_name, path_pieces, path_pieces_of, pieces_view, starts_with};

verus! {

/// Why an executable is not the official packaged app, or may not be launched directly.
#[derive(Debug, Clone, Copy, PartialEq, Eq, Structural)]
pub enum OfficialHostError {
    ExecutableMissing,
    NotPackagedExecutable,
    NotInOfficialPackage,
    NoWindowsAppsRoot,
    NoVolumeRoot,
    NotSystemPackageRoot,
}

/// `s` ends with `p`.
pub open spec fn ends_with(s: Seq<char>, p: Seq<char>) -> bool {
    s.len() >= p.len() && s.skip(s.len() - p.len()) == p
}

pub open spec fn chatgpt_exe_text() -> Seq<char> {
    seq!['C', 'h', 'a', 't', 'G', 'P', 'T', '.', 'e', 'x', 'e']
}

pub open spec fn app_text() -> Seq<char> {
    seq!['a', 'p', 'p']
}

pub open spec fn package_head_text() -> Seq<char> {
    seq!['O', 'p', 'e', 'n', 'A', 'I', '.', 'C', 'o', 'd', 'e', 'x', '_']
}

pub open spec fn package_tail_text() -> Seq<char> {
    seq!['_', '_', '2', 'p', '2', 'n', 'q', 's', 'd', '0', 'c', '7', '6', 'g', '0']
}

pub open spec fn windows_apps_text() -> Seq<char> {
    seq!['W', 'i', 'n', 'd', 'o', 'w', 's', 'A', 'p', 'p', 's']
}

pub open spec fn program_files_text() -> Seq<char> {
    seq!['P', 'r', 'o', 'g', 'r', 'a', 'm', ' ', 'F', 'i', 'l', 'e', 's']
}

/// The `up`-th ancestor of the path has a name equal to `text` up to ASCII case.
pub open spec fn ancestor_is(pieces: Seq<Option<Seq<char>>>, up: int, text: Seq<char>) -> bool {
    ancestor_name(pieces, up) matches Some(name) && ascii_lower(name) == ascii_lower(text)
}

/// The answer to whether `path`, a file when `is_file`, is the packaged official app.
pub open spec fn official_executable_outcome(path: Seq<char>, is_file: bool) -> Result<(), OfficialHostError> {
    let pieces = path_pieces(path);
    if !is_file {
        Err(OfficialHostError::ExecutableMissing)
    } else if !ancestor_is(pieces, 0, chatgpt_exe_text()) || !ancestor_is(pieces, 1, app_text()) {
        Err(OfficialHostError::NotPackagedExecutable)
    } else if !(ancestor_name(pieces, 2) matches Some(package) && starts_with(package, package_head_text())
        && ends_with(package, package_tail_text())) || !ancestor_is(pieces, 3, windows_apps_text()) {
        Err(OfficialHostError::NotInOfficialPackage)
    } else {
        Ok(())
    }
}

/// The answer to whether the packaged official app at `path` may be launched directly: its
/// `WindowsApps` directory must sit on a volume root or in `Program Files` on one.
pub open spec fn launchable_executable_outcome(path: Seq<char>, is_file: bool) -> Result<(), OfficialHostError> {
    let pieces = path_pieces(path);
    if official_executable_outcome(path, is_file) is Err {
        official_executable_outcome(path, is_file)
    } else if pieces.len() < 3 {
        Err(OfficialHostError::NoWindowsAppsRoot)
    } else if pieces.len() < 4 {
        Err(OfficialHostError::NoVolumeRoot)
    } else if !(pieces.len() == 4 || (pieces.len() == 5 && ancestor_is(pieces, 4, program_files_text()))) {
        Err(OfficialHostError::NotSystemPackageRoot)
    } else {
        Ok(())
    }
}

fn ancestor_of(pieces: &Vec<Option<Vec<char>>>, up: usize) -> (result: Option<&Vec<char>>)
    ensures
        match result {
            Some(name) => ancestor_name(pieces_view(pieces@), up as int) == Some(name@),
            None => ancestor_name(pieces_view(pieces@), up as int) is None,
        },
{
    if up < pieces.len() {
        let piece = &pieces[pieces.len() - 1 - up];
        proof {
            let view = pieces_view(pieces@);
            assert(view[view.len() - 1 - up] == match pieces@[pieces@.len() - 1 - up] {
                Some(name) => Some(name@),
                None => None::<Seq<char>>,
            });
        }
        match piece {
            Some(name) => Some(name),
            None => None,
        }
    } else {
        None
    }
}

fn ancestor_matches(pieces: &Vec<Option<Vec<char>>>, up: usize, text: &[char]) -> (result: bool)
    ensures
        result == ancestor_is(pieces_view(pieces@), up as int, text@),
{
    match ancestor_of(pieces, up) {
        Some(name) => eq_ignore_ascii_case(name.as_slice(), text),
        None => false,
    }
}

fn package_name_matches(name: &Vec<char>) -> (result: bool)
    ensures
        result == (starts_with(name@, package_head_text()) && ends_with(name@, package_tail_text())),
{
    let head = ['O', 'p', 'e', 'n', 'A', 'I', '.', 'C', 'o', 'd', 'e', 'x', '_'];
    let tail = ['_', '_', '2', 'p', '2', 'n', 'q', 's', 'd', '0', 'c', '7', '6', 'g', '0'];
    proof {
        assert(head@ =~= package_head_text());
        assert(tail@ =~= package_tail_text());
    }
    let n = name.len();
    if n < head.len() || n < tail.len() {
        return false;
    }
    let start = slice_chars(name.as_slice(), 0, head.len());
    let end = slice_chars(name.as_slice(), n - tail.len(), n);
    proof {
        assert(start@ =~= name@.take(head@.len() as int));
        assert(end@ =~= name@.skip(n - tail@.len()));
    }
    chars_equal(start.as_slice(), &head) && chars_equal(end.as_slice(), &tail)
}

fn check_official(pieces: &Vec<Option<Vec<char>>>, is_file: bool) -> (result: Result<(), OfficialHostError>)
    ensures
        forall|path: Seq<char>| path_pieces(path) == pieces_view(pieces@) ==> result == official_executable_outcome(path, is_file),
{
    if !is_file {
        return Err(OfficialHostError::ExecutableMissing);
    }
    let exe = ['C', 'h', 'a', 't', 'G', 'P', 'T', '.', 'e', 'x', 'e'];
    let app = ['a', 'p', 'p'];
    let windows_apps = ['W', 'i', 'n', 'd', 'o', 'w', 's', 'A', 'p', 'p', 's'];
    proof {
        assert(exe@ =~= chatgpt_exe_text());
        assert(app@ =~= app_text());
        assert(windows_apps@ =~= windows_apps_text());
    }
    if !ancestor_matches(pieces, 0, &exe) || !ancestor_matches(pieces, 1, &app) {
        return Err(OfficialHostError::NotPackagedExecutable);
    }
    let package_ok = match ancestor_of(pieces, 2) {
        Some(name) => package_name_matches(name),
        None => false,
    };
    if !package_ok || !ancestor_matches(pieces, 3, &windows_apps) {
        return Err(OfficialHostError::NotInOfficialPackage);
    }
    Ok(())
}

/// Checks that `path`, a file when `is_file`, is `ChatGPT.exe` in the `app` directory of an
/// `OpenAI.Codex` package inside `WindowsApps`.
pub fn validate_official_chatgpt_executable(path: &str, is_file: bool) -> (result: Result<(), OfficialHostError>)
    ensures
        result == official_executable_outcome(path@, is_file),
{
    let chars = chars_of(path);
    let pieces = path_pieces_of(chars.as_slice());
    check_official(&pieces, is_file)
}

/// Checks that the official app at `path` may be launched directly: it passes
/// `validate_official_chatgpt_executable`, and its `WindowsApps` sits on a volume root or
/// in `Program Files` on one.
pub fn validate_launchable_official_chatgpt_executable(path: &str, is_file: bool) -> (result: Result<(), OfficialHostError>)
    ensures
        result == launchable_executable_outcome(path@, is_file),
{
    let chars = chars_of(path);
    let pieces = path_pieces_of(chars.as_slice());
    check_official(&pieces, is_file)?;
    let n = pieces.len();
    if n < 3 {
        return Err(OfficialHostError::NoWindowsAppsRoot);
    }
    if n < 4 {
        return Err(OfficialHostError::NoVolumeRoot);
    }
    let program_files = ['P', 'r', 'o', 'g', 'r', 'a', 'm', ' ', 'F', 'i', 'l', 'e', 's'];
    proof {
        assert(program_files@ =~= program_files_text());
    }
    let directly_on_volume = n == 4;
    let under_program_files = n == 5 && ancestor_matches(&pieces, 4, &program_files);
    if !directly_on_volume && !under_program_files {
        return Err(OfficialHostError::NotSystemPackageRoot);
    }
    Ok(())
}

// ----- finding the running official app -----

/// A running `ChatGPT.exe` process: its id, the path of its image when it could be read,
/// and whether that path is a file.
#[derive(Debug, Clone, PartialEq, Eq)]
pub struct RunningHostCandidate {
    pub pid: u32,
    pub image_path: Option<String>,
    pub is_file: bool,
}

/// Why no running official app was chosen.
#[derive(Debug, Clone, Copy, PartialEq, Eq, Structural)]
pub enum HostSearchError {
    NoneRunning,
    MultipleVersionsRunning,
}

/// A candidate whose image may be launched directly.
pub open spec fn launchable_candidate(candidate: RunningHostCandidate) -> bool {
    candidate.image_path matches Some(path) && launchable_executable_outcome(path@, candidate.is_file) is Ok
}

/// The official app that is running: among the launchable candidates, whose paths are told
/// apart without regard to case, exactly one path must remain; the last candidate with it
/// is taken.
pub open spec fn host_search_outcome(candidates: Seq<RunningHostCandidate>) -> Result<Seq<char>, HostSearchError> {
    if !exists|i: int| 0 <= i < candidates.len() && launchable_candidate(#[trigger] candidates[i]) {
        Err(HostSearchError::NoneRunning)
    } else if exists|i: int, j: int|
        0 <= i < candidates.len() && 0 <= j < candidates.len() && launchable_candidate(#[trigger] candidates[i])
            && launchable_candidate(#[trigger] candidates[j]) && lowercase(candidates[i].image_path->0@) != lowercase(
            candidates[j].image_path->0@,
        ) {
        Err(HostSearchError::MultipleVersionsRunning)
    } else {
        let last = choose|i: int|
            0 <= i < candidates.len() && launchable_candidate(#[trigger] candidates[i]) && forall|j: int|
                i < j < candidates.len() ==> !launchable_candidate(#[trigger] candidates[j]);
        Ok(candidates[last].image_path->0@)
    }
}

/// The running official app among `candidates`, the running `ChatGPT.exe` processes.
pub fn find_official_chatgpt_executable(candidates: &[RunningHostCandidate]) -> (result: Result<String, HostSearchError>)
    ensures
        match result {
            Ok(path) => host_search_outcome(candidates@) == Ok::<Seq<char>, HostSearchError>(path@),
            Err(e) => host_search_outcome(candidates@) == Err::<Seq<char>, HostSearchError>(e),
        },
{
    let mut chosen: Option<(usize, String)> = None;
    let mut multiple = false;
    for i in 0..candidates.len()
        invariant
            match chosen {
                None => forall|t: int| 0 <= t < i ==> !launchable_candidate(#[trigger] candidates@[t]),
                Some((last, key)) => {
                    &&& last < i
                    &&& launchable_candidate(candidates@[last as int])
                    &&& forall|t: int| last < t < i ==> !launchable_candidate(#[trigger] candidates@[t])
                    &&& key@ == lowercase(candidates@[last as int].image_path->0@)
                    &&& multiple == exists|a: int, b: int|
                        0 <= a < i && 0 <= b < i && launchable_candidate(#[trigger] candidates@[a])
                            && launchable_candidate(#[trigger] candidates@[b]) && lowercase(
                            candidates@[a].image_path->0@,
                        ) != lowercase(candidates@[b].image_path->0@)
                    &&& !multiple ==> forall|t: int|
                        0 <= t < i && launchable_candidate(#[trigger] candidates@[t]) ==> lowercase(
                            candidates@[t].image_path->0@,
                        ) == key@
                },
            },
            chosen is None ==> !multiple,
    {
        let candidate = &candidates[i];
        let accepted = match &candidate.image_path {
            Some(path) => validate_launchable_official_chatgpt_executable(path.as_str(), candidate.is_file).is_ok(),
            None => false,
        };
        if accepted {
            let path = match &candidate.image_path {
                Some(path) => path,
                None => {
                    return Err(HostSearchError::NoneRunning);
                },
            };
            let key = to_lowercase(path.as_str());
            let differs = match &chosen {
                Some((_, previous)) => !chars_equal(chars_of(previous.as_str()).as_slice(), chars_of(key.as_str()).as_slice()),
                None => false,
            };
            proof {
                if let Some((last, previous)) = chosen {
                    if differs {
                        assert(launchable_candidate(candidates@[last as int]));
                        assert(launchable_candidate(candidates@[i as int]));
                    }
                }
            }
            multiple = multiple || differs;
            chosen = Some((i, key));
        }
    }
    match chosen {
        None => Err(HostSearchError::NoneRunning),
        Some((last, _)) => {
            if multiple {
                Err(HostSearchError::MultipleVersionsRunning)
            } else {
                proof {
                    assert(launchable_candidate(candidates@[last as int]));
                    let c = choose|c: int|
                        0 <= c < candidates@.len() && launchable_candidate(#[trigger] candidates@[c]) && forall|j: int|
                            c < j < candidates@.len() ==> !launchable_candidate(#[trigger] candidates@[j]);
                    assert(c == last as int) by {
                        if c < last as int {
                        } else if c > last as int {
                        }
                    }
                }
                match &candidates[last].image_path {
                    Some(path) => Ok(path.clone()),
                    None => Err(HostSearchError::NoneRunning),
                }
            }
        },
    }
}

} // verus!
