//! The native model catalog: finding the catalog bundled in the official binary, cutting out
//! its JSON text, and the values that set a Grok entry apart from the official ones.
//!
//! The binary is read in chunks by the caller; the scanners here keep what they need
//! between chunks and say where the catalog starts and where its JSON value ends.

use vstd::prelude::*;

use crate::compatibility::{ascii_lower, eq_ignore_ascii_case};
use crate::renderer_addons::{find_from, first_match_from, replace_at, replace_first};
use crate::strings::string_from_chars;
use crate::text::{chars_of, is_blank, is_blank_text};

verus! {

/// The sentence by which the official instructions name the model.
pub const NATIVE_GPT_IDENTITY: &'static str = "You are Codex, an agent based on GPT-5.";

/// The context window an injected model advertises to the client.
pub const CONSERVATIVE_CLIENT_CONTEXT_WINDOW: u64 = 32768;

/// The largest official binary that is scanned, in bytes.
pub const MAX_OFFICIAL_BINARY_BYTES: u64 = 1073741824;

/// The largest bundled catalog, in bytes.
pub const MAX_MODEL_CATALOG_BYTES: usize = 4194304;

// ---------------------------------------------------------------------------------------
// Entries
// ---------------------------------------------------------------------------------------

/// The sentence by which a Grok entry's instructions name the model.
pub open spec fn grok_identity(display_name: Seq<char>) -> Seq<char> {
    "You are Codex, running "@ + display_name + " inside the official ChatGPT/Codex host."@
}

/// A Grok entry's instructions: the official ones with their identity sentence replaced by
/// the Grok one, or, when they have none, the Grok sentence, a blank line, and the
/// official instructions.
pub open spec fn grok_instructions(official: Seq<char>, display_name: Seq<char>) -> Seq<char> {
    if first_match_from(official, NATIVE_GPT_IDENTITY@, 0) is Some {
        replace_first(official, NATIVE_GPT_IDENTITY@, grok_identity(display_name))
    } else {
        grok_identity(display_name) + "\n\n"@ + official
    }
}

fn append(out: &mut Vec<char>, text: &[char])
    ensures
        final(out)@ == old(out)@ + text@,
{
    let ghost start = out@;
    for i in 0..text.len()
        invariant
            out@ == start + text@.take(i as int),
    {
        out.push(text[i]);
        proof {
            assert(text@.take(i + 1) =~= text@.take(i as int).push(text@[i as int]));
            assert(start + text@.take(i + 1) =~= (start + text@.take(i as int)).push(text@[i as int]));
        }
    }
    proof {
        assert(text@.take(text@.len() as int) =~= text@);
    }
}

/// The instructions of a Grok entry named `display_name`.
pub fn grok_base_instructions(official: &str, display_name: &str) -> (result: String)
    ensures
        result@ == grok_instructions(official@, display_name@),
{
    let mut identity: Vec<char> = Vec::new();
    append(&mut identity, chars_of("You are Codex, running ").as_slice());
    append(&mut identity, chars_of(display_name).as_slice());
    append(&mut identity, chars_of(" inside the official ChatGPT/Codex host.").as_slice());
    proof {
        assert(identity@ =~= grok_identity(display_name@));
    }
    let text = chars_of(official);
    let marker = chars_of(NATIVE_GPT_IDENTITY);
    match find_from(text.as_slice(), marker.as_slice(), 0) {
        Some(k) => {
            proof {
                crate::renderer_addons::lemma_first_match_found(text@, marker@, 0, k as int);
            }
            let replaced = replace_at(text.as_slice(), marker.len(), k, identity.as_slice());
            string_from_chars(replaced.as_slice())
        },
        None => {
            let mut out = identity;
            append(&mut out, chars_of("\n\n").as_slice());
            append(&mut out, text.as_slice());
            string_from_chars(out.as_slice())
        },
    }
}

/// Whether the official default entry's instructions can be built on: present and not
/// blank.
pub fn usable_official_instructions(instructions: Option<&str>) -> (result: bool)
    ensures
        result == match instructions {
            Some(text) => !is_blank(text@),
            None => false,
        },
{
    match instructions {
        Some(text) => !is_blank_text(text),
        None => false,
    }
}

/// The priority of the injected model at `index`: after every official entry.
pub fn catalog_priority(official_count: usize, index: usize) -> (result: i64)
    requires
        official_count + index <= usize::MAX,
    ensures
        result == if official_count + index <= i64::MAX {
            (official_count + index) as i64
        } else {
            i64::MAX
        },
{
    let total = official_count + index;
    if total as u64 <= i64::MAX as u64 {
        total as i64
    } else {
        i64::MAX
    }
}

pub open spec fn slug_is(slug: Option<String>, model: Seq<char>) -> bool {
    match slug {
        Some(s) => s@ == model,
        None => false,
    }
}

/// Whether an injected model's id is already an official slug.
pub fn collides_with_official(slugs: &Vec<Option<String>>, model: &str) -> (result: bool)
    ensures
        result == exists|i: int| 0 <= i < slugs@.len() && slug_is(#[trigger] slugs@[i], model@),
{
    let wanted = chars_of(model);
    for i in 0..slugs.len()
        invariant
            wanted@ == model@,
            forall|t: int| 0 <= t < i ==> !slug_is(#[trigger] slugs@[t], model@),
    {
        match &slugs[i] {
            Some(slug) => {
                let candidate = chars_of(slug.as_str());
                if crate::text::chars_equal(candidate.as_slice(), wanted.as_slice()) {
                    proof {
                        assert(slug_is(slugs@[i as int], model@));
                    }
                    return true;
                }
            },
            None => {},
        }
    }
    false
}

/// Whether an official entry that does not say so supports reasoning summaries: when its
/// default summary is given and is not `none` in any case.
pub fn supports_reasoning_summaries(default_summary: Option<&str>) -> (result: bool)
    ensures
        result == match default_summary {
            Some(text) => ascii_lower(text@) != ascii_lower("none"@),
            None => false,
        },
{
    match default_summary {
        Some(text) => {
            let chars = chars_of(text);
            let none = chars_of("none");
            !eq_ignore_ascii_case(chars.as_slice(), none.as_slice())
        },
        None => false,
    }
}


// ---------------------------------------------------------------------------------------
// Finding the bundled catalog
// ---------------------------------------------------------------------------------------

/// The opening of the bundled catalog with `\n` line ends.
pub open spec fn catalog_prefix_lf() -> Seq<u8> {
    seq![123u8, 10, 32, 32, 34, 109, 111, 100, 101, 108, 115, 34, 58, 32, 91]
}

/// The opening of the bundled catalog with `\r\n` line ends.
pub open spec fn catalog_prefix_crlf() -> Seq<u8> {
    seq![123u8, 13, 10, 32, 32, 34, 109, 111, 100, 101, 108, 115, 34, 58, 32, 91]
}

pub open spec fn bytes_at(s: Seq<u8>, i: int, p: Seq<u8>) -> bool {
    0 <= i && i + p.len() <= s.len() && s.subrange(i, i + p.len()) == p
}

/// The catalog opens at `i`.
pub open spec fn catalog_opens_at(s: Seq<u8>, i: int) -> bool {
    bytes_at(s, i, catalog_prefix_lf()) || bytes_at(s, i, catalog_prefix_crlf())
}

/// Where the catalog first opens in `s`, if it does.
pub open spec fn catalog_start(s: Seq<u8>) -> Option<int> {
    if exists|i: int| catalog_opens_at(s, i) {
        Some(choose|i: int| catalog_opens_at(s, i) && forall|j: int| 0 <= j < i ==> !catalog_opens_at(s, j))
    } else {
        None
    }
}

/// The bytes kept between chunks: enough for an opening that spans two chunks.
pub const CATALOG_SCAN_CARRY: usize = 15;

/// A scan of the official binary for the bundled catalog, fed chunk by chunk.
pub struct CatalogScanner {
    carry: Vec<u8>,
    absolute: u64,
    fed: Ghost<Seq<u8>>,
}

fn opens_here(s: &[u8], i: usize) -> (result: bool)
    ensures
        result == catalog_opens_at(s@, i as int),
{
    let lf: [u8; 15] = [123u8, 10, 32, 32, 34, 109, 111, 100, 101, 108, 115, 34, 58, 32, 91];
    let crlf: [u8; 16] = [123u8, 13, 10, 32, 32, 34, 109, 111, 100, 101, 108, 115, 34, 58, 32, 91];
    proof {
        assert(lf@ =~= catalog_prefix_lf());
        assert(crlf@ =~= catalog_prefix_crlf());
    }
    bytes_here(s, i, &lf) || bytes_here(s, i, &crlf)
}

fn bytes_here(s: &[u8], i: usize, p: &[u8]) -> (result: bool)
    ensures
        result == bytes_at(s@, i as int, p@),
{
    if i > s.len() || p.len() > s.len() - i {
        return false;
    }
    let n = s.len();
    let m = p.len();
    let mut k: usize = 0;
    while k < m
        invariant
            n == s@.len(),
            m == p@.len(),
            i + m <= n,
            k <= m,
            forall|t: int| 0 <= t < k ==> s@[i + t] == p@[t],
        decreases m - k,
    {
        if s[i + k] != p[k] {
            proof {
                assert(s@.subrange(i as int, i + p@.len())[k as int] == s@[i + k]);
            }
            return false;
        }
        k += 1;
    }
    proof {
        assert(s@.subrange(i as int, i + p@.len()) =~= p@);
    }
    true
}

fn concat_bytes(a: &[u8], b: &[u8]) -> (result: Vec<u8>)
    ensures
        result@ == a@ + b@,
{
    let mut out: Vec<u8> = Vec::new();
    for i in 0..a.len()
        invariant
            out@ == a@.take(i as int),
    {
        out.push(a[i]);
        proof {
            assert(a@.take(i + 1) =~= a@.take(i as int).push(a@[i as int]));
        }
    }
    for i in 0..b.len()
        invariant
            out@ == a@ + b@.take(i as int),
    {
        out.push(b[i]);
        proof {
            assert(b@.take(i + 1) =~= b@.take(i as int).push(b@[i as int]));
            assert(a@ + b@.take(i + 1) =~= (a@ + b@.take(i as int)).push(b@[i as int]));
        }
    }
    proof {
        assert(a@.take(a@.len() as int) =~= a@);
        assert(b@.take(b@.len() as int) =~= b@);
    }
    out
}

fn first_opening(s: &[u8]) -> (result: Option<usize>)
    ensures
        match result {
            Some(i) => catalog_opens_at(s@, i as int) && forall|j: int| 0 <= j < i ==> !catalog_opens_at(s@, j),
            None => forall|j: int| !catalog_opens_at(s@, j),
        },
{
    let n = s.len();
    let mut i: usize = 0;
    while i < n
        invariant
            n == s@.len(),
            forall|j: int| 0 <= j < i ==> !catalog_opens_at(s@, j),
        decreases n - i,
    {
        if opens_here(s, i) {
            return Some(i);
        }
        i += 1;
    }
    proof {
        assert forall|j: int| !catalog_opens_at(s@, j) by {
            if j >= n {
                assert(!bytes_at(s@, j, catalog_prefix_lf()));
            }
        }
    }
    None
}

fn tail_bytes(s: &[u8], keep: usize) -> (result: Vec<u8>)
    ensures
        result@ == s@.skip(if s@.len() > keep { s@.len() - keep } else { 0 }),
{
    let n = s.len();
    let from = if n > keep { n - keep } else { 0 };
    let mut out: Vec<u8> = Vec::new();
    for k in from..n
        invariant
            from <= n == s@.len(),
            out@ == s@.subrange(from as int, k as int),
    {
        out.push(s[k]);
        proof {
            assert(s@.subrange(from as int, k + 1) =~= s@.subrange(from as int, k as int).push(s@[k as int]));
        }
    }
    proof {
        assert(s@.subrange(from as int, n as int) =~= s@.skip(from as int));
    }
    out
}

impl CatalogScanner {
    /// The scanner's state: the carry is the last bytes fed, no opening was met yet, and
    /// the position counts every byte fed.
    pub closed spec fn wf(&self) -> bool {
        let fed = self.fed@;
        &&& self.absolute == fed.len()
        &&& self.carry@ == fed.skip(if fed.len() > CATALOG_SCAN_CARRY { fed.len() - CATALOG_SCAN_CARRY } else { 0 })
        &&& catalog_start(fed) is None
    }

    /// The bytes fed so far.
    pub closed spec fn fed(&self) -> Seq<u8> {
        self.fed@
    }

    /// A scan that has read nothing.
    pub fn new() -> (result: Self)
        ensures
            result.wf(),
            result.fed() == Seq::<u8>::empty(),
    {
        let result = CatalogScanner { carry: Vec::new(), absolute: 0, fed: Ghost(Seq::empty()) };
        proof {
            assert(result.carry@ =~= result.fed@.skip(0));
            assert(!exists|i: int| catalog_opens_at(result.fed@, i));
        }
        result
    }

    /// Feeds the next chunk: the offset in the binary where the catalog first opens, when
    /// this chunk completes it.
    pub fn feed(&mut self, chunk: &[u8]) -> (result: Option<u64>)
        requires
            old(self).wf(),
            old(self).fed().len() + chunk@.len() <= u64::MAX,
        ensures
            final(self).fed() == old(self).fed() + chunk@,
            match catalog_start(old(self).fed() + chunk@) {
                Some(start) => result == Some(start as u64),
                None => result is None && final(self).wf(),
            },
    {
        let ghost old_fed = self.fed@;
        let ghost fed = old_fed + chunk@;
        let carry_len = self.carry.len();
        let ghost base: int = old_fed.len() - carry_len;
        let combined = concat_bytes(self.carry.as_slice(), chunk);
        proof {
            assert(combined@ =~= fed.skip(base));
            lemma_no_opening_before(old_fed, chunk@, base);
            lemma_window_openings(fed, base, combined@);
        }
        self.fed = Ghost(fed);
        match first_opening(combined.as_slice()) {
            Some(i) => {
                proof {
                    let k = base + i;
                    assert(catalog_opens_at(fed, k));
                    assert forall|j: int| 0 <= j < k implies !catalog_opens_at(fed, j) by {
                        if j >= base {
                            assert(!catalog_opens_at(combined@, j - base));
                        }
                    }
                    lemma_catalog_start_is(fed, k);
                }
                Some(self.absolute - carry_len as u64 + i as u64)
            },
            None => {
                proof {
                    assert forall|j: int| !catalog_opens_at(fed, j) by {
                        if base <= j < fed.len() {
                            assert(!catalog_opens_at(combined@, j - base));
                        } else if j >= fed.len() {
                            assert(!bytes_at(fed, j, catalog_prefix_lf()));
                        }
                    }
                }
                self.carry = tail_bytes(combined.as_slice(), CATALOG_SCAN_CARRY);
                self.absolute = self.absolute + chunk.len() as u64;
                proof {
                    assert(self.carry@ =~= fed.skip(
                        if fed.len() > CATALOG_SCAN_CARRY {
                            fed.len() - CATALOG_SCAN_CARRY
                        } else {
                            0
                        },
                    ));
                }
                None
            },
        }
    }
}

proof fn lemma_no_opening_before(old_fed: Seq<u8>, chunk: Seq<u8>, base: int)
    requires
        !exists|i: int| catalog_opens_at(old_fed, i),
        base == old_fed.len() - (if old_fed.len() > CATALOG_SCAN_CARRY { CATALOG_SCAN_CARRY as int } else { old_fed.len() as int }),
    ensures
        forall|j: int| 0 <= j < base ==> !catalog_opens_at(old_fed + chunk, j),
{
    let fed = old_fed + chunk;
    assert forall|j: int| 0 <= j < base implies !catalog_opens_at(fed, j) by {
        assert(j + 16 <= old_fed.len());
        assert(fed.subrange(j, j + 15) =~= old_fed.subrange(j, j + 15));
        assert(fed.subrange(j, j + 16) =~= old_fed.subrange(j, j + 16));
        assert(!catalog_opens_at(old_fed, j));
    }
}

proof fn lemma_window_openings(fed: Seq<u8>, base: int, window: Seq<u8>)
    requires
        0 <= base <= fed.len(),
        window == fed.skip(base),
    ensures
        forall|j: int| 0 <= j < window.len() ==> catalog_opens_at(window, j) == catalog_opens_at(fed, base + j),
{
    assert forall|j: int| 0 <= j < window.len() implies catalog_opens_at(window, j) == catalog_opens_at(fed, base + j) by {
        if j + 15 <= window.len() {
            assert(window.subrange(j, j + 15) =~= fed.subrange(base + j, base + j + 15));
        }
        if j + 16 <= window.len() {
            assert(window.subrange(j, j + 16) =~= fed.subrange(base + j, base + j + 16));
        }
    }
}

proof fn lemma_catalog_start_is(s: Seq<u8>, k: int)
    requires
        catalog_opens_at(s, k),
        forall|j: int| 0 <= j < k ==> !catalog_opens_at(s, j),
    ensures
        catalog_start(s) == Some(k),
{
    let c = choose|i: int| catalog_opens_at(s, i) && forall|j: int| 0 <= j < i ==> !catalog_opens_at(s, j);
    assert(catalog_opens_at(s, k) && forall|j: int| 0 <= j < k ==> !catalog_opens_at(s, j));
    if c < k {
        assert(!catalog_opens_at(s, c));
    } else if c > k {
        assert(!catalog_opens_at(s, k));
    }
}


// ---------------------------------------------------------------------------------------
// Cutting out the catalog's JSON value
// ---------------------------------------------------------------------------------------

/// Where a scan of a JSON value stands: bracket depth, whether a bracket was opened, and
/// whether it is inside a string, just after a backslash.
pub ghost struct JsonScanState {
    pub depth: int,
    pub started: bool,
    pub in_string: bool,
    pub escaped: bool,
}

/// How a scan of a JSON value ended, or where it stands.
pub ghost enum JsonScanOutcome {
    Pending(JsonScanState),
    /// The value ends after this many bytes.
    Complete(int),
    TooLarge,
    ClosedEarly,
}

pub open spec fn is_open_bracket(b: u8) -> bool {
    b == 123 || b == 91
}

pub open spec fn is_close_bracket(b: u8) -> bool {
    b == 125 || b == 93
}

/// One byte of the scan: strings and their escapes are skipped, brackets counted.
pub open spec fn scan_step(state: JsonScanState, b: u8) -> JsonScanState {
    if state.in_string {
        if state.escaped {
            JsonScanState { escaped: false, ..state }
        } else if b == 92 {
            JsonScanState { escaped: true, ..state }
        } else if b == 34 {
            JsonScanState { in_string: false, ..state }
        } else {
            state
        }
    } else if b == 34 {
        JsonScanState { in_string: true, ..state }
    } else if is_open_bracket(b) {
        JsonScanState { started: true, depth: state.depth + 1, ..state }
    } else if is_close_bracket(b) {
        JsonScanState { depth: state.depth - 1, ..state }
    } else {
        state
    }
}

pub open spec fn initial_scan() -> JsonScanState {
    JsonScanState { depth: 0, started: false, in_string: false, escaped: false }
}

/// The scan of `bytes`: the value ends at the close bracket that brings an opened value
/// back to depth zero; a close bracket below depth zero, or more than 4 MiB, is an error.
pub open spec fn json_scan(bytes: Seq<u8>) -> JsonScanOutcome
    decreases bytes.len(),
{
    if bytes.len() == 0 {
        JsonScanOutcome::Pending(initial_scan())
    } else {
        match json_scan(bytes.drop_last()) {
            JsonScanOutcome::Pending(state) => {
                let b = bytes.last();
                if bytes.len() > MAX_MODEL_CATALOG_BYTES {
                    JsonScanOutcome::TooLarge
                } else {
                    let next = scan_step(state, b);
                    if !state.in_string && is_close_bracket(b) && next.started && next.depth == 0 {
                        JsonScanOutcome::Complete(bytes.len() as int)
                    } else if !state.in_string && is_close_bracket(b) && next.depth < 0 {
                        JsonScanOutcome::ClosedEarly
                    } else {
                        JsonScanOutcome::Pending(next)
                    }
                }
            },
            done => done,
        }
    }
}

/// How feeding a chunk to a JSON value scan ended.
#[derive(Debug, Clone, Copy, PartialEq, Eq, Structural)]
pub enum JsonScanProgress {
    /// The value continues past this chunk.
    Pending,
    /// The value ends after this many bytes of the chunk.
    Complete { used: usize },
    TooLarge,
    ClosedBeforeOpened,
}

/// A scan for the end of the JSON value that starts at the catalog's opening.
pub struct JsonValueScanner {
    depth: i64,
    started: bool,
    in_string: bool,
    escaped: bool,
    consumed: usize,
    fed: Ghost<Seq<u8>>,
}

impl JsonValueScanner {
    /// The scan has met no end or error in what it was fed.
    pub closed spec fn wf(&self) -> bool {
        &&& self.consumed == self.fed@.len()
        &&& self.consumed <= MAX_MODEL_CATALOG_BYTES
        &&& -1 < self.depth <= self.consumed
        &&& json_scan(self.fed@) == JsonScanOutcome::Pending(
            JsonScanState {
                depth: self.depth as int,
                started: self.started,
                in_string: self.in_string,
                escaped: self.escaped,
            },
        )
    }

    /// The bytes fed so far.
    pub closed spec fn fed(&self) -> Seq<u8> {
        self.fed@
    }

    /// A scan that has read nothing.
    pub fn new() -> (result: Self)
        ensures
            result.wf(),
            result.fed() == Seq::<u8>::empty(),
    {
        JsonValueScanner { depth: 0, started: false, in_string: false, escaped: false, consumed: 0, fed: Ghost(Seq::empty()) }
    }

    /// Feeds the next chunk of the value: whether it ends in this chunk, and where.
    pub fn feed(&mut self, chunk: &[u8]) -> (result: JsonScanProgress)
        requires
            old(self).wf(),
        ensures
            match json_scan(old(self).fed() + chunk@) {
                JsonScanOutcome::Pending(_) => result == JsonScanProgress::Pending && final(self).wf() && final(self).fed()
                    == old(self).fed() + chunk@,
                JsonScanOutcome::Complete(len) => result == (JsonScanProgress::Complete {
                    used: (len - old(self).fed().len()) as usize,
                }) && old(self).fed().len() < len <= old(self).fed().len() + chunk@.len(),
                JsonScanOutcome::TooLarge => result == JsonScanProgress::TooLarge,
                JsonScanOutcome::ClosedEarly => result == JsonScanProgress::ClosedBeforeOpened,
            },
    {
        let ghost start = self.fed@;
        let n = chunk.len();
        let mut k: usize = 0;
        proof {
            assert(start + chunk@.take(0) =~= start);
        }
        while k < n
            invariant
                n == chunk@.len(),
                k <= n,
                start == old(self).fed(),
                self.fed@ == start + chunk@.take(k as int),
                self.wf(),
                forall|j: int| 0 <= j <= k ==> json_scan(start + chunk@.take(j)) is Pending,
            decreases n - k,
        {
            let b = chunk[k];
            let ghost before = self.fed@;
            let ghost next_fed = start + chunk@.take(k + 1);
            proof {
                assert(chunk@.take(k + 1) =~= chunk@.take(k as int).push(b));
                assert(next_fed =~= before.push(b));
                assert(next_fed.drop_last() =~= before);
            }
            if self.consumed >= MAX_MODEL_CATALOG_BYTES {
                proof {
                    assert(next_fed.len() > MAX_MODEL_CATALOG_BYTES);
                    assert(json_scan(next_fed) == JsonScanOutcome::TooLarge);
                    lemma_scan_finished(start, chunk@, (k + 1) as int);
                }
                return JsonScanProgress::TooLarge;
            }
            self.consumed = self.consumed + 1;
            let was_in_string = self.in_string;
            if self.in_string {
                if self.escaped {
                    self.escaped = false;
                } else if b == 92 {
                    self.escaped = true;
                } else if b == 34 {
                    self.in_string = false;
                }
            } else if b == 34 {
                self.in_string = true;
            } else if b == 123 || b == 91 {
                self.started = true;
                self.depth = self.depth + 1;
            } else if b == 125 || b == 93 {
                self.depth = self.depth - 1;
            }
            self.fed = Ghost(next_fed);
            if !was_in_string && (b == 125 || b == 93) {
                if self.started && self.depth == 0 {
                    proof {
                        lemma_scan_finished(start, chunk@, (k + 1) as int);
                    }
                    return JsonScanProgress::Complete { used: k + 1 };
                }
                if self.depth < 0 {
                    proof {
                        assert(json_scan(next_fed) == JsonScanOutcome::ClosedEarly);
                        lemma_scan_finished(start, chunk@, (k + 1) as int);
                    }
                    return JsonScanProgress::ClosedBeforeOpened;
                }
            }
            k += 1;
        }
        proof {
            assert(chunk@.take(n as int) =~= chunk@);
        }
        JsonScanProgress::Pending
    }
}

/// Once a scan has ended, more bytes do not change how it ended.
proof fn lemma_scan_finished(start: Seq<u8>, chunk: Seq<u8>, k: int)
    requires
        0 < k <= chunk.len(),
        !(json_scan(start + chunk.take(k)) is Pending),
    ensures
        json_scan(start + chunk) == json_scan(start + chunk.take(k)),
    decreases chunk.len() - k,
{
    if k < chunk.len() {
        assert((start + chunk.take(k + 1)).drop_last() =~= start + chunk.take(k));
        lemma_scan_finished(start, chunk, k + 1);
    } else {
        assert(chunk.take(k) =~= chunk);
    }
}

} // verus!
