//! Finding the model catalog that the official Codex executable bundles: where its text
//! starts in the executable's bytes, read chunk by chunk, and where the JSON value that
//! starts there ends, read byte by byte.

use vstd::prelude::*;

verus! {

/// The largest catalog read from the executable, in bytes.
pub const MAX_MODEL_CATALOG_BYTES: usize = 4194304;

/// How the bundled catalog's text starts, with either line ending.
pub open spec fn catalog_prefix_lf() -> Seq<u8> {
    seq![123u8, 10u8, 32u8, 32u8, 34u8, 109u8, 111u8, 100u8, 101u8, 108u8, 115u8, 34u8, 58u8, 32u8, 91u8]
}

pub open spec fn catalog_prefix_crlf() -> Seq<u8> {
    seq![123u8, 13u8, 10u8, 32u8, 32u8, 34u8, 109u8, 111u8, 100u8, 101u8, 108u8, 115u8, 34u8, 58u8, 32u8, 91u8]
}

/// How many bytes of a chunk's end are kept, so that a start split between two chunks is
/// found: one less than the shorter start's length.
pub const CATALOG_SCAN_CARRY: usize = 15;

/// `bytes` holds `prefix` at `i`.
pub open spec fn holds_at(bytes: Seq<u8>, prefix: Seq<u8>, i: int) -> bool {
    0 <= i && i + prefix.len() <= bytes.len() && bytes.subrange(i, i + prefix.len() as int) == prefix
}

/// A catalog starts at `i`.
pub open spec fn catalog_starts_at(bytes: Seq<u8>, i: int) -> bool {
    holds_at(bytes, catalog_prefix_lf(), i) || holds_at(bytes, catalog_prefix_crlf(), i)
}

/// Where the scan of an executable stands: the last bytes read, kept to find a start that a
/// chunk boundary splits, and how many bytes were read.
pub struct CatalogScan {
    pub carry: Vec<u8>,
    pub read: u64,
}

/// What reading one more chunk tells.
#[derive(Debug, Clone, Copy, PartialEq, Eq)]
pub enum CatalogScanStep {
    /// The catalog starts at this offset of the executable.
    Found(u64),
    /// Not yet found; read on.
    Continue,
}

impl CatalogScan {
    /// The scan of an executable before any byte is read.
    pub fn new() -> (result: Self)
        ensures
            result.carry@.len() == 0,
            result.read == 0,
    {
        CatalogScan { carry: Vec::new(), read: 0 }
    }
}

fn prefix_lf() -> (result: Vec<u8>)
    ensures
        result@ == catalog_prefix_lf(),
{
    let result = vec![123u8, 10u8, 32u8, 32u8, 34u8, 109u8, 111u8, 100u8, 101u8, 108u8, 115u8, 34u8, 58u8, 32u8, 91u8];
    proof {
        assert(result@ =~= catalog_prefix_lf());
    }
    result
}

fn prefix_crlf() -> (result: Vec<u8>)
    ensures
        result@ == catalog_prefix_crlf(),
{
    let result = vec![123u8, 13u8, 10u8, 32u8, 32u8, 34u8, 109u8, 111u8, 100u8, 101u8, 108u8, 115u8, 34u8, 58u8, 32u8, 91u8];
    proof {
        assert(result@ =~= catalog_prefix_crlf());
    }
    result
}

fn bytes_at(bytes: &Vec<u8>, prefix: &Vec<u8>, i: usize) -> (result: bool)
    ensures
        result == holds_at(bytes@, prefix@, i as int),
{
    if i > bytes.len() || prefix.len() > bytes.len() - i {
        return false;
    }
    let end: usize = i + prefix.len();
    let mut j: usize = 0;
    while j < prefix.len()
        invariant
            i + prefix@.len() <= bytes@.len(),
            end == i + prefix@.len(),
            j <= prefix@.len(),
            forall|t: int| 0 <= t < j ==> bytes@[i + t] == prefix@[t],
        decreases prefix@.len() - j,
    {
        let at: usize = end - prefix.len() + j;
        if bytes[at] != prefix[j] {
            proof {
                assert(bytes@.subrange(i as int, i + prefix@.len())[j as int] != prefix@[j as int]);
            }
            return false;
        }
        j = j + 1;
    }
    proof {
        assert(bytes@.subrange(i as int, i + prefix@.len()) =~= prefix@);
    }
    true
}

/// Reads one more chunk of the executable: the offset at which the catalog starts when the
/// carried bytes and the chunk hold its first start, else the scan carrying their last
/// `CATALOG_SCAN_CARRY` bytes with the chunk counted as read.
pub fn catalog_scan_step(scan: &mut CatalogScan, chunk: &[u8]) -> (result: CatalogScanStep)
    requires
        old(scan).carry@.len() <= old(scan).read,
        old(scan).carry@.len() <= CATALOG_SCAN_CARRY,
        chunk@.len() <= usize::MAX - CATALOG_SCAN_CARRY,
        old(scan).read + chunk@.len() <= u64::MAX,
    ensures
        ({
            let combined = old(scan).carry@ + chunk@;
            match result {
                CatalogScanStep::Found(offset) => exists|i: int|
                    0 <= i < combined.len() && catalog_starts_at(combined, i) && (forall|j: int|
                        0 <= j < i ==> !catalog_starts_at(combined, j)) && offset == old(scan).read
                        - old(scan).carry@.len() + i,
                CatalogScanStep::Continue => {
                    &&& forall|i: int| 0 <= i < combined.len() ==> !catalog_starts_at(combined, i)
                    &&& final(scan).carry@ == combined.skip(
                        if combined.len() > CATALOG_SCAN_CARRY { combined.len() - CATALOG_SCAN_CARRY } else { 0 },
                    )
                    &&& final(scan).read == old(scan).read + chunk@.len()
                },
            }
        }),
{
    let mut combined: Vec<u8> = Vec::new();
    for i in 0..scan.carry.len()
        invariant
            combined@ == scan.carry@.take(i as int),
    {
        combined.push(scan.carry[i]);
    }
    let ghost carried = combined@;
    for i in 0..chunk.len()
        invariant
            carried == scan.carry@,
            combined@ == scan.carry@ + chunk@.take(i as int),
    {
        combined.push(chunk[i]);
    }
    proof {
        assert(scan.carry@.take(scan.carry@.len() as int) =~= scan.carry@);
        assert(chunk@.take(chunk@.len() as int) =~= chunk@);
    }
    let lf = prefix_lf();
    let crlf = prefix_crlf();
    for i in 0..combined.len()
        invariant
            lf@ == catalog_prefix_lf(),
            crlf@ == catalog_prefix_crlf(),
            combined@ == old(scan).carry@ + chunk@,
            *scan == *old(scan),
            old(scan).carry@.len() <= old(scan).read,
            old(scan).read + chunk@.len() <= u64::MAX,
            forall|j: int| 0 <= j < i ==> !catalog_starts_at(combined@, j),
    {
        if bytes_at(&combined, &lf, i) || bytes_at(&combined, &crlf, i) {
            let offset = scan.read - scan.carry.len() as u64 + i as u64;
            proof {
                assert(catalog_starts_at(combined@, i as int));
            }
            return CatalogScanStep::Found(offset);
        }
    }
    let keep_from = if combined.len() > CATALOG_SCAN_CARRY {
        combined.len() - CATALOG_SCAN_CARRY
    } else {
        0
    };
    let mut carry: Vec<u8> = Vec::new();
    for i in keep_from..combined.len()
        invariant
            keep_from <= combined@.len(),
            carry@ == combined@.subrange(keep_from as int, i as int),
    {
        carry.push(combined[i]);
    }
    proof {
        assert(carry@ =~= combined@.skip(keep_from as int));
    }
    scan.carry = carry;
    scan.read = scan.read + chunk.len() as u64;
    CatalogScanStep::Continue
}

/// Where reading a JSON value byte by byte stands.
#[derive(Debug, Clone, Copy, PartialEq, Eq)]
pub struct JsonScan {
    pub length: usize,
    pub depth: i64,
    pub started: bool,
    pub in_string: bool,
    pub escaped: bool,
}

/// What one more byte of a JSON value tells.
#[derive(Debug, Clone, Copy, PartialEq, Eq)]
pub enum JsonScanStep {
    Continue,
    /// The value closed with this byte.
    Complete,
    /// A bracket closed before any opened.
    ClosedEarly,
    /// The value is longer than `MAX_MODEL_CATALOG_BYTES`.
    TooLarge,
}

/// The scan after one more byte: refused past the size limit; inside a string, only its
/// end and escapes count; outside, `{` and `[` open, `}` and `]` close, and the value is
/// complete when a close brings an opened value back to depth zero.
pub open spec fn json_scan_next(scan: JsonScan, byte: u8) -> (JsonScan, JsonScanStep) {
    let counted = JsonScan { length: (scan.length + 1) as usize, ..scan };
    if scan.length + 1 > MAX_MODEL_CATALOG_BYTES {
        (counted, JsonScanStep::TooLarge)
    } else if scan.in_string {
        if scan.escaped {
            (JsonScan { escaped: false, ..counted }, JsonScanStep::Continue)
        } else if byte == 92 {
            (JsonScan { escaped: true, ..counted }, JsonScanStep::Continue)
        } else if byte == 34 {
            (JsonScan { in_string: false, ..counted }, JsonScanStep::Continue)
        } else {
            (counted, JsonScanStep::Continue)
        }
    } else if byte == 34 {
        (JsonScan { in_string: true, ..counted }, JsonScanStep::Continue)
    } else if byte == 123 || byte == 91 {
        (JsonScan { started: true, depth: (scan.depth + 1) as i64, ..counted }, JsonScanStep::Continue)
    } else if byte == 125 || byte == 93 {
        let depth = scan.depth - 1;
        let closed = JsonScan { depth: depth as i64, ..counted };
        if scan.started && depth == 0 {
            (closed, JsonScanStep::Complete)
        } else if depth < 0 {
            (closed, JsonScanStep::ClosedEarly)
        } else {
            (closed, JsonScanStep::Continue)
        }
    } else {
        (counted, JsonScanStep::Continue)
    }
}

impl JsonScan {
    /// The scan before the value's first byte.
    pub fn new() -> (result: Self)
        ensures
            result == (JsonScan { length: 0, depth: 0, started: false, in_string: false, escaped: false }),
    {
        JsonScan { length: 0, depth: 0, started: false, in_string: false, escaped: false }
    }
}

/// Reads one more byte of the JSON value.
pub fn json_scan_step(scan: &mut JsonScan, byte: u8) -> (result: JsonScanStep)
    requires
        old(scan).length <= MAX_MODEL_CATALOG_BYTES,
        0 <= old(scan).depth <= old(scan).length,
    ensures
        (*final(scan), result) == json_scan_next(*old(scan), byte),
        final(scan).length <= MAX_MODEL_CATALOG_BYTES + 1,
        result == JsonScanStep::Continue ==> final(scan).length <= MAX_MODEL_CATALOG_BYTES && 0 <= final(scan).depth
            <= final(scan).length,
{
    let length = scan.length + 1;
    if length > MAX_MODEL_CATALOG_BYTES {
        scan.length = length;
        return JsonScanStep::TooLarge;
    }
    scan.length = length;
    if scan.in_string {
        if scan.escaped {
            scan.escaped = false;
        } else if byte == 92 {
            scan.escaped = true;
        } else if byte == 34 {
            scan.in_string = false;
        }
        return JsonScanStep::Continue;
    }
    if byte == 34 {
        scan.in_string = true;
        JsonScanStep::Continue
    } else if byte == 123 || byte == 91 {
        scan.started = true;
        scan.depth = scan.depth + 1;
        JsonScanStep::Continue
    } else if byte == 125 || byte == 93 {
        scan.depth = scan.depth - 1;
        if scan.started && scan.depth == 0 {
            JsonScanStep::Complete
        } else if scan.depth < 0 {
            JsonScanStep::ClosedEarly
        } else {
            JsonScanStep::Continue
        }
    } else {
        JsonScanStep::Continue
    }
}

} // verus!
