//! How an agent runtime is launched: its executable, arguments and wire protocol.

use vstd::prelude::*;

use crate::compatibility::{ascii_lower, eq_ignore_ascii_case};
use crate::text::chars_of;
use crate::winpath::{
    ancestor_name, extension_of, extension_of_name, is_absolute_path, parse_windows_path,
    path_pieces, path_pieces_of, pieces_view,
};

verus! {

#[derive(Debug, Clone, Copy, PartialEq, Eq, Structural)]
pub enum RuntimeKind {
    Grok,
    Codex,
}

#[derive(Debug, Clone, Copy, PartialEq, Eq, Structural)]
pub enum RuntimeProtocol {
    AcpV1JsonLines,
    CodexAppServerJsonLines,
}

/// Why a runtime executable path was refused.
#[derive(Debug, Clone, Copy, PartialEq, Eq, Structural)]
pub enum RuntimeError {
    NotAbsolute,
    NotWindowsExecutable,
}

/// A runtime process to start: its executable, its arguments, and the protocol it speaks
/// on its standard streams.
#[derive(Debug, Clone, PartialEq, Eq)]
pub struct RuntimeLaunchSpec {
    pub kind: RuntimeKind,
    pub executable: String,
    pub args: Vec<String>,
    pub protocol: RuntimeProtocol,
    pub use_shell: bool,
}

pub open spec fn texts_view(values: Seq<String>) -> Seq<Seq<char>> {
    values.map_values(|value: String| value@)
}

pub open spec fn grok_args() -> Seq<Seq<char>> {
    seq![
        seq!['a', 'g', 'e', 'n', 't'],
        seq!['-', '-', 'n', 'o', '-', 'l', 'e', 'a', 'd', 'e', 'r'],
        seq!['s', 't', 'd', 'i', 'o'],
    ]
}

pub open spec fn codex_args() -> Seq<Seq<char>> {
    seq![seq!['a', 'p', 'p', '-', 's', 'e', 'r', 'v', 'e', 'r'], seq!['-', '-', 's', 't', 'd', 'i', 'o']]
}

pub open spec fn exe_text() -> Seq<char> {
    seq!['e', 'x', 'e']
}

/// Whether `path` names a Windows `.exe` file: its file name has the extension `exe` in
/// any ASCII case.
pub open spec fn is_exe_path(path: Seq<char>) -> bool {
    ancestor_name(path_pieces(path), 0) matches Some(name) && extension_of(name) matches Some(ext)
        && ascii_lower(ext) == ascii_lower(exe_text())
}

/// The answer to whether `path` may be launched as a runtime executable.
pub open spec fn executable_path_outcome(path: Seq<char>) -> Result<(), RuntimeError> {
    if !is_absolute_path(path) {
        Err(RuntimeError::NotAbsolute)
    } else if !is_exe_path(path) {
        Err(RuntimeError::NotWindowsExecutable)
    } else {
        Ok(())
    }
}

impl RuntimeLaunchSpec {
    /// The Grok agent, speaking ACP over JSON lines on its standard streams.
    pub fn grok(executable: String) -> (result: Self)
        ensures
            result.kind == RuntimeKind::Grok,
            result.executable@ == executable@,
            texts_view(result.args@) == grok_args(),
            result.protocol == RuntimeProtocol::AcpV1JsonLines,
            !result.use_shell,
    {
        let first = String::from_str("agent");
        let second = String::from_str("--no-leader");
        let third = String::from_str("stdio");
        proof {
            reveal_strlit("agent");
            reveal_strlit("--no-leader");
            reveal_strlit("stdio");
            assert(first@ =~= grok_args()[0]);
            assert(second@ =~= grok_args()[1]);
            assert(third@ =~= grok_args()[2]);
        }
        let args = vec![first, second, third];
        proof {
            assert(texts_view(args@) =~= grok_args());
        }
        RuntimeLaunchSpec {
            kind: RuntimeKind::Grok,
            executable,
            args,
            protocol: RuntimeProtocol::AcpV1JsonLines,
            use_shell: false,
        }
    }

    /// The Codex app server, speaking its JSON-lines protocol on its standard streams.
    pub fn codex(executable: String) -> (result: Self)
        ensures
            result.kind == RuntimeKind::Codex,
            result.executable@ == executable@,
            texts_view(result.args@) == codex_args(),
            result.protocol == RuntimeProtocol::CodexAppServerJsonLines,
            !result.use_shell,
    {
        let first = String::from_str("app-server");
        let second = String::from_str("--stdio");
        proof {
            reveal_strlit("app-server");
            reveal_strlit("--stdio");
            assert(first@ =~= codex_args()[0]);
            assert(second@ =~= codex_args()[1]);
        }
        let args = vec![first, second];
        proof {
            assert(texts_view(args@) =~= codex_args());
        }
        RuntimeLaunchSpec {
            kind: RuntimeKind::Codex,
            executable,
            args,
            protocol: RuntimeProtocol::CodexAppServerJsonLines,
            use_shell: false,
        }
    }

    /// Checks that `path` is an absolute path to a Windows `.exe` file.
    pub fn validate_executable_path(path: &str) -> (result: Result<(), RuntimeError>)
        ensures
            result == executable_path_outcome(path@),
    {
        let chars = chars_of(path);
        let parsed = parse_windows_path(chars.as_slice());
        let absolute = match &parsed.prefix {
            Some((kind, _, _)) => *kind != crate::winpath::PrefixKind::Disk || parsed.physical_root,
            None => false,
        };
        if !absolute {
            return Err(RuntimeError::NotAbsolute);
        }
        let pieces = path_pieces_of(chars.as_slice());
        let is_exe = if pieces.len() == 0 {
            false
        } else {
            match &pieces[pieces.len() - 1] {
                Some(name) => match extension_of_name(name.as_slice()) {
                    Some(ext) => {
                        let exe = ['e', 'x', 'e'];
                        proof {
                            assert(exe@ =~= exe_text());
                        }
                        eq_ignore_ascii_case(ext.as_slice(), &exe)
                    },
                    None => false,
                },
                None => false,
            }
        };
        proof {
            let view = pieces_view(pieces@);
            if pieces@.len() > 0 {
                assert(view[view.len() - 1] == match pieces@[pieces@.len() - 1] {
                    Some(name) => Some(name@),
                    None => None::<Seq<char>>,
                });
            }
        }
        if !is_exe {
            return Err(RuntimeError::NotWindowsExecutable);
        }
        Ok(())
    }
}

} // verus!
