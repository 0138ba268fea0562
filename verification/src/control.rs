//! The control channel between the renderer and the secure broker: which drained requests
//! are accepted, and how responses carry results and errors.

use vstd::prelude::*;

use crate::digest::{char_is_hex, is_hex_char};
use crate::text::{chars_equal, chars_of, char_is_control, is_blank, is_blank_text, is_control_char};
use crate::strings::string_from_chars;

verus! {

/// A JSON value of `serde_json`, carried through unread.
#[verifier::external_type_specification]
#[verifier::external_body]
pub struct ExJsonValue(serde_json::Value);

pub const CONTROL_VERSION: u8 = 1;

pub const MAX_CONTROL_REQUESTS: usize = 32;

pub const MAX_CONTROL_PAYLOAD_BYTES: usize = 65536;

#[derive(Debug, Clone, Copy, PartialEq, Eq, Structural)]
pub enum ControlOperation {
    ConfigApply,
    CredentialClear,
    ModelsDiscover,
    StateRead,
}

/// Why drained control requests were refused.
#[derive(Debug, Clone, Copy, PartialEq, Eq, Structural)]
pub enum ControlError {
    InvalidNonce,
    NotAnArray,
    TooManyRequests,
    InvalidShape,
    UnsupportedVersion,
    NonceMismatch,
    InvalidId,
    PayloadUnserializable,
    PayloadTooLarge,
    UnsupportedOperation,
}

/// The operation that an operation name names.
pub open spec fn operation_named(value: Seq<char>) -> Option<ControlOperation> {
    if value == "config.apply"@ {
        Some(ControlOperation::ConfigApply)
    } else if value == "credential.clear"@ {
        Some(ControlOperation::CredentialClear)
    } else if value == "models.discover"@ {
        Some(ControlOperation::ModelsDiscover)
    } else if value == "state.read"@ {
        Some(ControlOperation::StateRead)
    } else {
        None
    }
}

fn is_text(value: &str, expected: &str) -> (result: bool)
    ensures
        result == (value@ == expected@),
{
    let v = chars_of(value);
    let e = chars_of(expected);
    chars_equal(v.as_slice(), e.as_slice())
}

impl ControlOperation {
    /// The operation named `value`.
    pub fn parse(value: &str) -> (result: Result<Self, ControlError>)
        ensures
            match result {
                Ok(operation) => operation_named(value@) == Some(operation),
                Err(e) => operation_named(value@) is None && e == ControlError::UnsupportedOperation,
            },
    {
        if is_text(value, "config.apply") {
            Ok(ControlOperation::ConfigApply)
        } else if is_text(value, "credential.clear") {
            Ok(ControlOperation::CredentialClear)
        } else if is_text(value, "models.discover") {
            Ok(ControlOperation::ModelsDiscover)
        } else if is_text(value, "state.read") {
            Ok(ControlOperation::StateRead)
        } else {
            Err(ControlError::UnsupportedOperation)
        }
    }
}

/// A drained request as read from its JSON, with the size of its payload once serialized
/// (`None` when it could not be serialized).
pub struct RawControlRequest {
    pub version: u8,
    pub id: String,
    pub nonce: String,
    pub operation: String,
    pub payload: serde_json::Value,
    pub payload_bytes: Option<usize>,
}

/// An accepted control request.
pub struct ControlRequest {
    id: String,
    operation: ControlOperation,
    payload: serde_json::Value,
}

impl ControlRequest {
    pub closed spec fn spec_id(&self) -> Seq<char> {
        self.id@
    }

    pub closed spec fn spec_operation(&self) -> ControlOperation {
        self.operation
    }

    pub closed spec fn spec_payload(&self) -> serde_json::Value {
        self.payload
    }

    pub fn id(&self) -> (result: &str)
        ensures
            result@ == self.spec_id(),
    {
        self.id.as_str()
    }

    pub fn operation(&self) -> (result: ControlOperation)
        ensures
            result == self.spec_operation(),
    {
        self.operation
    }

    pub fn into_payload(self) -> (result: serde_json::Value)
        ensures
            result == self.spec_payload(),
    {
        self.payload
    }

    pub fn into_parts(self) -> (result: (String, ControlOperation, serde_json::Value))
        ensures
            result.0@ == self.spec_id(),
            result.1 == self.spec_operation(),
            result.2 == self.spec_payload(),
    {
        (self.id, self.operation, self.payload)
    }
}

/// A control nonce: 64 hexadecimal digits.
pub open spec fn is_control_nonce(s: Seq<char>) -> bool {
    s.len() == 64 && forall|i: int| 0 <= i < s.len() ==> is_hex_char(#[trigger] s[i])
}

pub open spec fn is_request_id_char(c: char) -> bool {
    ('a' <= c && c <= 'z') || ('A' <= c && c <= 'Z') || ('0' <= c && c <= '9') || c == '-' || c == '_'
}

/// A request id: 1 to 64 ASCII letters, digits, `-` and `_`.
pub open spec fn is_request_id(s: Seq<char>) -> bool {
    0 < s.len() <= 64 && forall|i: int| 0 <= i < s.len() ==> is_request_id_char(#[trigger] s[i])
}

/// Why a drained request is refused, checked in order.
pub open spec fn request_error(request: Option<RawControlRequest>, expected_nonce: Seq<char>) -> Option<ControlError> {
    match request {
        None => Some(ControlError::InvalidShape),
        Some(raw) => if raw.version != CONTROL_VERSION {
            Some(ControlError::UnsupportedVersion)
        } else if raw.nonce@ != expected_nonce {
            Some(ControlError::NonceMismatch)
        } else if !is_request_id(raw.id@) {
            Some(ControlError::InvalidId)
        } else if raw.payload_bytes is None {
            Some(ControlError::PayloadUnserializable)
        } else if raw.payload_bytes.unwrap() > MAX_CONTROL_PAYLOAD_BYTES {
            Some(ControlError::PayloadTooLarge)
        } else if operation_named(raw.operation@) is None {
            Some(ControlError::UnsupportedOperation)
        } else {
            None
        }
    }
}

/// The first refusal among the first `count` drained requests.
pub open spec fn requests_error(requests: Seq<Option<RawControlRequest>>, expected_nonce: Seq<char>, count: int) -> Option<ControlError>
    decreases count,
{
    if count <= 0 {
        None
    } else if requests_error(requests, expected_nonce, count - 1) is Some {
        requests_error(requests, expected_nonce, count - 1)
    } else {
        request_error(requests[count - 1], expected_nonce)
    }
}

/// Why a drain is refused: an invalid expected nonce, a drain that is not an array, more
/// than `MAX_CONTROL_REQUESTS` requests, or a refused request.
pub open spec fn drain_error(drained: Option<Seq<Option<RawControlRequest>>>, expected_nonce: Seq<char>) -> Option<ControlError> {
    if !is_control_nonce(expected_nonce) {
        Some(ControlError::InvalidNonce)
    } else {
        match drained {
            None => Some(ControlError::NotAnArray),
            Some(requests) => if requests.len() > MAX_CONTROL_REQUESTS {
                Some(ControlError::TooManyRequests)
            } else {
                requests_error(requests, expected_nonce, requests.len() as int)
            },
        }
    }
}

fn valid_nonce(nonce: &str) -> (result: bool)
    ensures
        result == is_control_nonce(nonce@),
{
    let chars = chars_of(nonce);
    if chars.len() != 64 {
        return false;
    }
    for i in 0..chars.len()
        invariant
            chars@ == nonce@,
            chars@.len() == 64,
            forall|t: int| 0 <= t < i ==> is_hex_char(#[trigger] chars@[t]),
    {
        if !char_is_hex(chars[i]) {
            return false;
        }
    }
    true
}

fn valid_request_id(id: &String) -> (result: bool)
    ensures
        result == is_request_id(id@),
{
    let chars = chars_of(id.as_str());
    if chars.len() == 0 || chars.len() > 64 {
        return false;
    }
    for i in 0..chars.len()
        invariant
            chars@ == id@,
            0 < chars@.len() <= 64,
            forall|t: int| 0 <= t < i ==> is_request_id_char(#[trigger] chars@[t]),
    {
        let c = chars[i];
        if !(('a' <= c && c <= 'z') || ('A' <= c && c <= 'Z') || ('0' <= c && c <= '9') || c == '-' || c == '_') {
            return false;
        }
    }
    true
}

proof fn lemma_requests_error_extends(requests: Seq<Option<RawControlRequest>>, nonce: Seq<char>, count: int, total: int)
    requires
        0 <= count <= total,
        requests_error(requests, nonce, count) is Some,
    ensures
        requests_error(requests, nonce, total) == requests_error(requests, nonce, count),
    decreases total - count,
{
    if count < total {
        lemma_requests_error_extends(requests, nonce, count + 1, total);
    }
}

pub open spec fn accepted_view(requests: Seq<ControlRequest>) -> Seq<(Seq<char>, ControlOperation, serde_json::Value)> {
    requests.map_values(|r: ControlRequest| (r.spec_id(), r.spec_operation(), r.spec_payload()))
}

pub open spec fn raw_view(requests: Seq<Option<RawControlRequest>>) -> Seq<(Seq<char>, ControlOperation, serde_json::Value)> {
    requests.map_values(
        |r: Option<RawControlRequest>| (r.unwrap().id@, operation_named(r.unwrap().operation@).unwrap(), r.unwrap().payload),
    )
}

/// Accepts the drained requests: `drained` is `None` when the drain was not an array, and
/// holds `None` for a request whose JSON had the wrong shape. The accepted requests keep
/// their order, ids and payloads.
pub fn parse_control_requests(
    drained: Option<Vec<Option<RawControlRequest>>>,
    expected_nonce: &str,
) -> (result: Result<Vec<ControlRequest>, ControlError>)
    ensures
        match result {
            Ok(accepted) => {
                &&& drain_error(
                    match drained {
                        Some(requests) => Some(requests@),
                        None => None,
                    },
                    expected_nonce@,
                ) is None
                &&& drained matches Some(requests) && accepted_view(accepted@) == raw_view(requests@)
            },
            Err(e) => drain_error(
                match drained {
                    Some(requests) => Some(requests@),
                    None => None,
                },
                expected_nonce@,
            ) == Some(e),
        },
{
    if !valid_nonce(expected_nonce) {
        return Err(ControlError::InvalidNonce);
    }
    let requests = match drained {
        Some(requests) => requests,
        None => {
            return Err(ControlError::NotAnArray);
        },
    };
    if requests.len() > MAX_CONTROL_REQUESTS {
        return Err(ControlError::TooManyRequests);
    }
    let ghost all = requests@;
    let total = requests.len();
    let mut accepted: Vec<ControlRequest> = Vec::new();
    let mut remaining = requests;
    let mut index: usize = 0;
    let expected = chars_of(expected_nonce);
    proof {
        assert(remaining@ =~= all.skip(0));
        assert(accepted_view(accepted@) =~= raw_view(all.take(0)));
    }
    while index < total
        invariant
            total == all.len(),
            drained matches Some(r) && r@ == all,
            remaining@ == all.skip(index as int),
            index <= all.len(),
            all.len() <= MAX_CONTROL_REQUESTS,
            is_control_nonce(expected_nonce@),
            expected@ == expected_nonce@,
            requests_error(all, expected_nonce@, index as int) is None,
            accepted_view(accepted@) == raw_view(all.take(index as int)),
        decreases all.len() - index,
    {
        proof {
            assert(remaining@.len() > 0);
            assert(remaining@[0] == all[index as int]);
        }
        let request = remaining.remove(0);
        proof {
            assert(remaining@ =~= all.skip(index + 1));
        }
        let raw = match request {
            Some(raw) => raw,
            None => {
                proof {
                    lemma_requests_error_extends(all, expected_nonce@, index + 1, all.len() as int);
                }
                return Err(ControlError::InvalidShape);
            },
        };
        let fail = if raw.version != CONTROL_VERSION {
            Some(ControlError::UnsupportedVersion)
        } else if !chars_equal(chars_of(raw.nonce.as_str()).as_slice(), expected.as_slice()) {
            Some(ControlError::NonceMismatch)
        } else if !valid_request_id(&raw.id) {
            Some(ControlError::InvalidId)
        } else {
            match raw.payload_bytes {
                None => Some(ControlError::PayloadUnserializable),
                Some(size) => if size > MAX_CONTROL_PAYLOAD_BYTES {
                    Some(ControlError::PayloadTooLarge)
                } else {
                    None
                },
            }
        };
        if let Some(e) = fail {
            proof {
                lemma_requests_error_extends(all, expected_nonce@, index + 1, all.len() as int);
            }
            return Err(e);
        }
        let operation = match ControlOperation::parse(raw.operation.as_str()) {
            Ok(operation) => operation,
            Err(e) => {
                proof {
                    lemma_requests_error_extends(all, expected_nonce@, index + 1, all.len() as int);
                }
                return Err(e);
            },
        };
        let ghost id_view = raw.id@;
        let ghost payload_view = raw.payload;
        let ghost before = accepted@;
        let item = ControlRequest { id: raw.id, operation, payload: raw.payload };
        accepted.push(item);
        proof {
            assert(all.take(index + 1) =~= all.take(index as int).push(all[index as int]));
            assert(accepted_view(accepted@) =~= accepted_view(before).push((id_view, operation, payload_view)));
            assert(raw_view(all.take(index + 1)) =~= raw_view(all.take(index as int)).push((id_view, operation, payload_view)));
        }
        index = index + 1;
    }
    proof {
        assert(all.take(all.len() as int) =~= all);
    }
    Ok(accepted)
}

// ----- responses -----

/// The answer to one control request.
pub struct ControlResponse {
    pub version: u8,
    pub id: String,
    pub nonce: String,
    pub ok: bool,
    pub result: Option<serde_json::Value>,
    pub error: Option<String>,
}

/// An error message as a response carries it: control characters become spaces, at most
/// 512 characters are kept, and a blank message is replaced by a generic one.
pub open spec fn response_error_text(error: Seq<char>) -> Seq<char> {
    let kept = error.take(if error.len() > 512 {
        512
    } else {
        error.len() as int
    }).map_values(|c: char| if is_control_char(c) {
        ' '
    } else {
        c
    });
    if is_blank(kept) {
        "secure broker request failed"@
    } else {
        kept
    }
}

impl ControlResponse {
    /// A successful response carrying `result`.
    pub fn success(id: String, nonce: String, result: serde_json::Value) -> (response: Self)
        ensures
            response.version == CONTROL_VERSION,
            response.id@ == id@,
            response.nonce@ == nonce@,
            response.ok,
            response.result is Some,
            response.error is None,
    {
        ControlResponse { version: CONTROL_VERSION, id, nonce, ok: true, result: Some(result), error: None }
    }

    /// A failed response carrying `error`, cleaned for display.
    pub fn error(id: String, nonce: String, error: &str) -> (response: Self)
        ensures
            response.version == CONTROL_VERSION,
            response.id@ == id@,
            response.nonce@ == nonce@,
            !response.ok,
            response.result is None,
            response.error matches Some(text) && text@ == response_error_text(error@),
    {
        let chars = chars_of(error);
        let limit: usize = if chars.len() > 512 {
            512
        } else {
            chars.len()
        };
        let mut kept: Vec<char> = Vec::new();
        for i in 0..limit
            invariant
                limit <= chars@.len(),
                chars@ == error@,
                limit == if error@.len() > 512 {
                    512
                } else {
                    error@.len() as int
                },
                kept@ == error@.take(i as int).map_values(|c: char| if is_control_char(c) {
                    ' '
                } else {
                    c
                }),
        {
            let c = chars[i];
            let mapped = if char_is_control(c) {
                ' '
            } else {
                c
            };
            proof {
                assert(error@.take(i + 1).map_values(|c: char| if is_control_char(c) {
                    ' '
                } else {
                    c
                }) =~= error@.take(i as int).map_values(|c: char| if is_control_char(c) {
                    ' '
                } else {
                    c
                }).push(mapped));
            }
            kept.push(mapped);
        }
        let text = string_from_chars(kept.as_slice());
        let message = if is_blank_text(text.as_str()) {
            String::from_str("secure broker request failed")
        } else {
            text
        };
        ControlResponse { version: CONTROL_VERSION, id, nonce, ok: false, result: None, error: Some(message) }
    }
}

} // verus!
