//! The owned layout of a directly launched isolated instance, and the checks on the
//! renderer target that the instance is driven through.

use vstd::prelude::*;

use crate::compatibility::{ascii_lower, eq_ignore_ascii_case};
use crate::isolation::{
    codex_home_name, contract_error, joined_path, join_child, owned_root_outcome, profile_name, DirectIsolationContract,
    IsolationContractView, IsolationError,
};
use crate::lineage_state::{elapsed_since, still_fresh};
use crate::model_discovery::{is_loopback_host, parse_uri, parsed_uri, starts_with, UriView};
use crate::text::{chars_equal, chars_of, slice_chars};
use crate::winpath::{ancestor_name, path_pieces, path_pieces_of, pieces_view};

verus! {

/// Why an instance layout or a renderer target was refused.
#[derive(Debug, Clone, Copy, PartialEq, Eq, Structural)]
pub enum DirectError {
    MissingSessionDirectory,
    InvalidSessionDirectory,
    NotUnderInstances,
    Isolation(IsolationError),
    ContractMismatch,
    NotAppRenderer,
    InvalidWebsocketUrl,
    NotIsolatedLoopback,
    TargetMismatch,
}

/// The up-th ancestor of the path is named `text`, up to ASCII case.
pub open spec fn ancestor_named(pieces: Seq<Option<Seq<char>>>, up: int, text: Seq<char>) -> bool {
    ancestor_name(pieces, up) matches Some(name) && ascii_lower(name) == ascii_lower(text)
}

/// Why `root` cannot be an instance root: it must be a session directory (whose name holds
/// no separator) in `instances` under `CodexAdministrator`.
pub open spec fn root_shape_error(root: Seq<char>) -> Option<DirectError> {
    let pieces = path_pieces(root);
    match ancestor_name(pieces, 0) {
        None => Some(DirectError::MissingSessionDirectory),
        Some(session) => if session.contains('/') || session.contains('\\') {
            Some(DirectError::InvalidSessionDirectory)
        } else if !ancestor_named(pieces, 1, "instances"@) || !ancestor_named(pieces, 2, "CodexAdministrator"@) {
            Some(DirectError::NotUnderInstances)
        } else {
            None
        },
    }
}

fn named(pieces: &Vec<Option<Vec<char>>>, up: usize, text: &str) -> (result: bool)
    ensures
        result == ancestor_named(pieces_view(pieces@), up as int, text@),
{
    if up >= pieces.len() {
        return false;
    }
    let view = Ghost(pieces_view(pieces@));
    proof {
        assert(view@[view@.len() - 1 - up] == match pieces@[pieces@.len() - 1 - up] {
            Some(name) => Some(name@),
            None => None::<Seq<char>>,
        });
    }
    match &pieces[pieces.len() - 1 - up] {
        Some(name) => {
            let expected = chars_of(text);
            eq_ignore_ascii_case(name.as_slice(), expected.as_slice())
        },
        None => false,
    }
}

/// Checks that `root` is a session directory in `CodexAdministrator/instances`.
pub fn verify_project_owned_root_shape(root: &str) -> (result: Result<(), DirectError>)
    ensures
        match result {
            Ok(()) => root_shape_error(root@) is None,
            Err(e) => root_shape_error(root@) == Some(e),
        },
{
    let chars = chars_of(root);
    let pieces = path_pieces_of(chars.as_slice());
    let n = pieces.len();
    let ghost view = pieces_view(pieces@);
    if n == 0 {
        return Err(DirectError::MissingSessionDirectory);
    }
    proof {
        assert(view[view.len() - 1] == match pieces@[n - 1] {
            Some(name) => Some(name@),
            None => None::<Seq<char>>,
        });
    }
    let session = match &pieces[n - 1] {
        Some(session) => session,
        None => {
            return Err(DirectError::MissingSessionDirectory);
        },
    };
    let mut separated = false;
    for i in 0..session.len()
        invariant
            separated == exists|t: int| 0 <= t < i && (session@[t] == '/' || session@[t] == '\\'),
    {
        if session[i] == '/' || session[i] == '\\' {
            separated = true;
        }
    }
    proof {
        if session@.contains('/') {
            let t = choose|t: int| 0 <= t < session@.len() && session@[t] == '/';
            assert(session@[t] == '/');
        }
        if session@.contains('\\') {
            let t = choose|t: int| 0 <= t < session@.len() && session@[t] == '\\';
            assert(session@[t] == '\\');
        }
    }
    if separated {
        return Err(DirectError::InvalidSessionDirectory);
    }
    if !named(&pieces, 1, "instances") || !named(&pieces, 2, "CodexAdministrator") {
        return Err(DirectError::NotUnderInstances);
    }
    Ok(())
}

/// The contract of an instance rooted at `root`: its profile and CODEX_HOME are the root's
/// `profile` and `codex-home` children.
pub open spec fn layout_contract(
    root: Seq<char>,
    executable: Seq<char>,
    daily_profile: Seq<char>,
    daily_codex_home: Seq<char>,
    cdp_port: u16,
) -> IsolationContractView {
    IsolationContractView {
        executable,
        daily_profile,
        isolated_profile: joined_path(root, profile_name()),
        daily_codex_home,
        isolated_codex_home: joined_path(root, codex_home_name()),
        cdp_port,
    }
}

/// Why an instance layout is refused: its root's shape, its contract, or its root's
/// ownership of the isolated paths, in that order.
pub open spec fn layout_error(
    root: Seq<char>,
    executable: Seq<char>,
    daily_profile: Seq<char>,
    daily_codex_home: Seq<char>,
    cdp_port: u16,
) -> Option<DirectError> {
    let contract = layout_contract(root, executable, daily_profile, daily_codex_home, cdp_port);
    if root_shape_error(root) is Some {
        root_shape_error(root)
    } else if contract_error(contract) is Some {
        Some(DirectError::Isolation(contract_error(contract).unwrap()))
    } else if owned_root_outcome(contract, root) is Err {
        Some(DirectError::Isolation(owned_root_outcome(contract, root)->Err_0))
    } else {
        None
    }
}

/// An isolated instance root with the contract it owns.
#[derive(Debug, PartialEq, Eq)]
pub struct DirectInstanceLayout {
    root: String,
    contract: DirectIsolationContract,
}

impl DirectInstanceLayout {
    pub closed spec fn spec_root(&self) -> Seq<char> {
        self.root@
    }

    pub closed spec fn spec_contract(&self) -> IsolationContractView {
        self.contract@
    }

    /// Lays out an instance at `root` and checks it.
    pub fn new(
        root: String,
        executable: String,
        daily_profile: String,
        daily_codex_home: String,
        cdp_port: u16,
    ) -> (result: Result<Self, DirectError>)
        ensures
            match result {
                Ok(layout) => {
                    &&& layout_error(root@, executable@, daily_profile@, daily_codex_home@, cdp_port) is None
                    &&& layout.spec_root() == root@
                    &&& layout.spec_contract() == layout_contract(
                        root@,
                        executable@,
                        daily_profile@,
                        daily_codex_home@,
                        cdp_port,
                    )
                },
                Err(e) => layout_error(root@, executable@, daily_profile@, daily_codex_home@, cdp_port) == Some(e),
            },
    {
        verify_project_owned_root_shape(root.as_str())?;
        let profile_chars = ['p', 'r', 'o', 'f', 'i', 'l', 'e'];
        let home_chars = ['c', 'o', 'd', 'e', 'x', '-', 'h', 'o', 'm', 'e'];
        proof {
            assert(profile_chars@ =~= profile_name());
            assert(home_chars@ =~= codex_home_name());
        }
        let profile = join_child(root.as_str(), &profile_chars);
        let home = join_child(root.as_str(), &home_chars);
        let contract = match DirectIsolationContract::new(executable, daily_profile, profile, daily_codex_home, home, cdp_port) {
            Ok(contract) => contract,
            Err(e) => {
                return Err(DirectError::Isolation(e));
            },
        };
        if let Err(e) = contract.verify_owned_root(root.as_str()) {
            return Err(DirectError::Isolation(e));
        }
        Ok(DirectInstanceLayout { root, contract })
    }

    pub fn root(&self) -> (result: &str)
        ensures
            result@ == self.spec_root(),
    {
        self.root.as_str()
    }

    pub fn contract(&self) -> (result: &DirectIsolationContract)
        ensures
            result@ == self.spec_contract(),
    {
        &self.contract
    }

    /// Checks that `contract` is this layout's contract and that the root still owns it.
    pub fn verify_contract(&self, contract: &DirectIsolationContract) -> (result: Result<(), DirectError>)
        ensures
            contract@ != self.spec_contract() ==> result == Err::<(), DirectError>(DirectError::ContractMismatch),
            contract@ == self.spec_contract() ==> match result {
                Ok(()) => owned_root_outcome(contract@, self.spec_root()) is Ok,
                Err(e) => owned_root_outcome(contract@, self.spec_root()) matches Err(i) && e == DirectError::Isolation(i),
            },
    {
        let same = same_text(contract.executable(), self.contract.executable()) && same_text(
            contract.daily_profile(),
            self.contract.daily_profile(),
        ) && same_text(contract.isolated_profile(), self.contract.isolated_profile()) && same_text(
            contract.daily_codex_home(),
            self.contract.daily_codex_home(),
        ) && same_text(contract.isolated_codex_home(), self.contract.isolated_codex_home()) && contract.cdp_port()
            == self.contract.cdp_port();
        if !same {
            return Err(DirectError::ContractMismatch);
        }
        match contract.verify_owned_root(self.root.as_str()) {
            Ok(()) => Ok(()),
            Err(e) => Err(DirectError::Isolation(e)),
        }
    }
}

fn same_text(left: &str, right: &str) -> (result: bool)
    ensures
        result == (left@ == right@),
{
    let l = chars_of(left);
    let r = chars_of(right);
    chars_equal(l.as_slice(), r.as_slice())
}

// ----- the renderer target -----

/// A CDP target of the isolated instance.
#[derive(Debug, Clone, PartialEq, Eq)]
pub struct DirectCdpTarget {
    pub id: String,
    pub page_url: String,
    pub websocket_url: String,
}

/// Why a target does not belong to the isolated instance on `port`: it must be the
/// official renderer, reached over `ws` on a loopback host at `port` without query, at
/// `/devtools/page/<its id>`.
pub open spec fn target_error(target: &DirectCdpTarget, port: u16) -> Option<DirectError> {
    if target.id@.len() == 0 || target.page_url@ != "app://-/index.html"@ {
        Some(DirectError::NotAppRenderer)
    } else {
        match parsed_uri(target.websocket_url@) {
            None => Some(DirectError::InvalidWebsocketUrl),
            Some(uri) => if !(uri.scheme == Some("ws"@) && (uri.host matches Some(host) && is_loopback_host(host))
                && uri.port == Some(port) && uri.query is None) {
                Some(DirectError::NotIsolatedLoopback)
            } else if !(starts_with(uri.path, "/devtools/page/"@) && uri.path.len() > "/devtools/page/"@.len()
                && uri.path.skip("/devtools/page/"@.len() as int) == target.id@) {
                Some(DirectError::TargetMismatch)
            } else {
                None
            },
        }
    }
}

fn text_is(value: &String, expected: &str) -> (result: bool)
    ensures
        result == (value@ == expected@),
{
    let v = chars_of(value.as_str());
    let e = chars_of(expected);
    chars_equal(v.as_slice(), e.as_slice())
}

impl DirectCdpTarget {
    /// Checks that the target belongs to the isolated instance on `expected_port`.
    pub fn validate_for_port(&self, expected_port: u16) -> (result: Result<(), DirectError>)
        ensures
            match result {
                Ok(()) => target_error(self, expected_port) is None,
                Err(e) => target_error(self, expected_port) == Some(e),
            },
    {
        if chars_of(self.id.as_str()).len() == 0 || !text_is(&self.page_url, "app://-/index.html") {
            return Err(DirectError::NotAppRenderer);
        }
        let uri = match parse_uri(self.websocket_url.as_str()) {
            Some(uri) => uri,
            None => {
                return Err(DirectError::InvalidWebsocketUrl);
            },
        };
        let scheme_ok = match &uri.scheme {
            Some(s) => text_is(s, "ws"),
            None => false,
        };
        let host_ok = match &uri.host {
            Some(h) => text_is(h, "127.0.0.1") || text_is(h, "localhost") || text_is(h, "::1"),
            None => false,
        };
        if !(scheme_ok && host_ok && uri.port == Some(expected_port) && uri.query.is_none()) {
            return Err(DirectError::NotIsolatedLoopback);
        }
        let path = chars_of(uri.path.as_str());
        let prefix = chars_of("/devtools/page/");
        let id = chars_of(self.id.as_str());
        if path.len() <= prefix.len() {
            return Err(DirectError::TargetMismatch);
        }
        let head = slice_chars(path.as_slice(), 0, prefix.len());
        let rest = slice_chars(path.as_slice(), prefix.len(), path.len());
        proof {
            assert(head@ =~= path@.take(prefix@.len() as int));
            assert(rest@ =~= path@.skip(prefix@.len() as int));
        }
        if !chars_equal(head.as_slice(), prefix.as_slice()) || !chars_equal(rest.as_slice(), id.as_slice()) {
            return Err(DirectError::TargetMismatch);
        }
        Ok(())
    }
}

#[derive(Debug, Clone, Copy, PartialEq, Eq, Structural)]
pub enum DirectMaintenance {
    Healthy,
    Reinjected,
    Recovering,
}

/// Whether a maintenance failure at `now` is still tolerated: failures are tolerated for
/// `timeout` milliseconds after the first of a run of them, whose time is kept in
/// `failed_since`.
pub fn tolerate_transient_maintenance_failure(failed_since: &mut Option<u64>, now: u64, timeout: u64) -> (result: bool)
    ensures
        *final(failed_since) == Some(
            match *old(failed_since) {
                Some(since) => since,
                None => now,
            },
        ),
        result == still_fresh(now, final(failed_since).unwrap(), timeout),
{
    let since = match *failed_since {
        Some(since) => since,
        None => now,
    };
    *failed_since = Some(since);
    let elapsed = if now >= since {
        now - since
    } else {
        0
    };
    elapsed < timeout
}

} // verus!
