//! Importing a daily rollout into the isolated home: every line is kept byte for byte, except
//! the canonical session metadata on the first line, which is re-encoded with the isolated
//! model provider.

use vstd::prelude::*;

use crate::digest::{hex_lower, sha256_digest};
use crate::json::{
    encode_json, json_as_text, json_encoding, json_get, json_member, json_parse, json_set_member_text, json_text,
    json_with_member_text, parse_json,
};
use crate::skill_sync::sha256_bytes;
use crate::text::chars_of;

verus! {

/// Why a daily rollout could not be imported.
#[derive(Debug, Clone, Copy, PartialEq, Eq, Structural)]
pub enum RolloutError {
    Empty,
    PartialFinalLine,
    InvalidJson,
    InvalidSessionMeta,
    InvalidSessionPayload,
    Unserializable,
}

/// The end of the line that starts at `start`: just past its newline, or the end of the
/// bytes when none follows.
pub open spec fn line_end(bytes: Seq<u8>, start: int) -> int
    decreases bytes.len() - start,
{
    if start >= bytes.len() {
        bytes.len() as int
    } else if bytes[start] == 10u8 {
        start + 1
    } else {
        line_end(bytes, start + 1)
    }
}

pub proof fn lemma_line_end_bounds(bytes: Seq<u8>, start: int)
    requires
        0 <= start < bytes.len(),
    ensures
        start < line_end(bytes, start) <= bytes.len(),
        forall|i: int| start <= i < line_end(bytes, start) - 1 ==> bytes[i] != 10u8,
        line_end(bytes, start) < bytes.len() ==> bytes[line_end(bytes, start) - 1] == 10u8,
        bytes[line_end(bytes, start) - 1] != 10u8 ==> line_end(bytes, start) == bytes.len(),
    decreases bytes.len() - start,
{
    if bytes[start] != 10u8 {
        if start + 1 < bytes.len() {
            lemma_line_end_bounds(bytes, start + 1);
        } else {
            assert(line_end(bytes, start + 1) == bytes.len());
        }
    }
}

/// The JSON text of a line that ends in a newline: without the newline, and without a
/// carriage return before it.
pub open spec fn line_json(line: Seq<u8>) -> Seq<u8> {
    let body = line.drop_last();
    if body.len() > 0 && body.last() == 13u8 {
        body.drop_last()
    } else {
        body
    }
}

/// The canonical session metadata of `thread`: a value of type `session_meta` whose payload
/// has the thread's id.
pub open spec fn is_session_meta(value: serde_json::Value, thread: Seq<char>) -> bool {
    &&& json_member(value, "type"@) matches Some(kind) && json_text(kind) == Some("session_meta"@)
    &&& json_member(value, "payload"@) matches Some(payload) && json_member(payload, "id"@) matches Some(id)
        && json_text(id) == Some(thread)
}

/// The first line's JSON re-encoded with `provider` as the payload's `model_provider`, and a
/// newline; refused unless it parses as the session metadata of `thread`.
pub open spec fn session_meta_line(json: Seq<u8>, thread: Seq<char>, provider: Seq<char>) -> Result<
    Seq<u8>,
    RolloutError,
> {
    match json_parse(json) {
        None => Err(RolloutError::InvalidJson),
        Some(value) => if !is_session_meta(value, thread) {
            Err(RolloutError::InvalidSessionMeta)
        } else {
            match json_with_member_text(value, "payload"@, "model_provider"@, provider) {
                None => Err(RolloutError::InvalidSessionPayload),
                Some(updated) => match json_encoding(updated) {
                    None => Err(RolloutError::Unserializable),
                    Some(encoded) => Ok(encoded.push(10u8)),
                },
            }
        },
    }
}

/// How the line `line` is written: a blank line as it is; the first line as its session
/// metadata; any other line as it is, once it parses as JSON.
pub open spec fn rewritten_line(line: Seq<u8>, first: bool, thread: Seq<char>, provider: Seq<char>) -> Result<
    Seq<u8>,
    RolloutError,
> {
    let json = line_json(line);
    if json.len() == 0 {
        Ok(line)
    } else if first {
        session_meta_line(json, thread, provider)
    } else if json_parse(json) is None {
        Err(RolloutError::InvalidJson)
    } else {
        Ok(line)
    }
}

/// `prefix` before what `rest` holds, or its error.
pub open spec fn after(prefix: Seq<u8>, rest: Result<Seq<u8>, RolloutError>) -> Result<Seq<u8>, RolloutError> {
    match rest {
        Ok(bytes) => Ok(prefix + bytes),
        Err(e) => Err(e),
    }
}

/// The lines from `start` on, written in order; the first failing line decides the error,
/// and a last line without a newline fails.
pub open spec fn rewritten_from(bytes: Seq<u8>, start: int, first: bool, thread: Seq<char>, provider: Seq<char>) -> Result<
    Seq<u8>,
    RolloutError,
>
    decreases bytes.len() - start,
{
    if start < 0 || start >= bytes.len() {
        Ok(Seq::empty())
    } else {
        let end = line_end(bytes, start);
        let line = bytes.subrange(start, end);
        if line.last() != 10u8 {
            Err(RolloutError::PartialFinalLine)
        } else {
            match rewritten_line(line, first, thread, provider) {
                Err(e) => Err(e),
                Ok(written) => {
                    proof {
                        lemma_line_end_bounds(bytes, start);
                    }
                    after(written, rewritten_from(bytes, end, false, thread, provider))
                },
            }
        }
    }
}

/// The imported rollout: an empty rollout is refused; otherwise its lines, rewritten.
pub open spec fn rewritten_rollout(bytes: Seq<u8>, thread: Seq<char>, provider: Seq<char>) -> Result<
    Seq<u8>,
    RolloutError,
> {
    if bytes.len() == 0 {
        Err(RolloutError::Empty)
    } else {
        rewritten_from(bytes, 0, true, thread, provider)
    }
}

/// An imported rollout and the digests of what was read and what is written.
#[derive(Debug, Clone, PartialEq, Eq)]
pub struct RolloutRewrite {
    pub bytes: Vec<u8>,
    pub source_sha256: String,
    pub destination_sha256: String,
}

fn append_bytes(out: &mut Vec<u8>, more: &[u8])
    ensures
        final(out)@ == old(out)@ + more@,
{
    let ghost start = out@;
    for i in 0..more.len()
        invariant
            out@ == start + more@.take(i as int),
    {
        proof {
            assert(more@.take(i + 1) =~= more@.take(i as int).push(more@[i as int]));
        }
        out.push(more[i]);
    }
    proof {
        assert(more@.take(more@.len() as int) =~= more@);
    }
}

fn find_line_end(bytes: &[u8], start: usize) -> (end: usize)
    requires
        start < bytes@.len(),
    ensures
        end == line_end(bytes@, start as int),
        start < end <= bytes@.len(),
{
    proof {
        lemma_line_end_bounds(bytes@, start as int);
    }
    let mut i = start;
    while i < bytes.len() && bytes[i] != 10u8
        invariant
            start <= i <= bytes@.len(),
            line_end(bytes@, start as int) == line_end(bytes@, i as int),
        decreases bytes@.len() - i,
    {
        i += 1;
    }
    if i < bytes.len() {
        i + 1
    } else {
        i
    }
}

fn text_is(value: &String, expected: &str) -> (result: bool)
    ensures
        result == (value@ == expected@),
{
    crate::text::chars_equal(chars_of(value.as_str()).as_slice(), chars_of(expected).as_slice())
}

fn member_text_is(value: &serde_json::Value, key: &str, expected: &str) -> (result: bool)
    ensures
        result == (json_member(*value, key@) matches Some(member) && json_text(member) == Some(expected@)),
{
    match json_get(value, key) {
        Some(member) => match json_as_text(member) {
            Some(text) => text_is(&text, expected),
            None => false,
        },
        None => false,
    }
}

/// Re-encodes the first line's JSON as the session metadata of `thread_id` with
/// `provider_id` as its model provider.
pub fn rewrite_session_meta(json: &[u8], thread_id: &str, provider_id: &str) -> (result: Result<Vec<u8>, RolloutError>)
    ensures
        match result {
            Ok(bytes) => session_meta_line(json@, thread_id@, provider_id@) == Ok::<Seq<u8>, RolloutError>(bytes@),
            Err(e) => session_meta_line(json@, thread_id@, provider_id@) == Err::<Seq<u8>, RolloutError>(e),
        },
{
    let mut value = match parse_json(json) {
        Ok(value) => value,
        Err(_) => {
            return Err(RolloutError::InvalidJson);
        },
    };
    let typed = member_text_is(&value, "type", "session_meta");
    let owned = match json_get(&value, "payload") {
        Some(payload) => member_text_is(payload, "id", thread_id),
        None => false,
    };
    if !typed || !owned {
        return Err(RolloutError::InvalidSessionMeta);
    }
    if !json_set_member_text(&mut value, "payload", "model_provider", provider_id) {
        return Err(RolloutError::InvalidSessionPayload);
    }
    match encode_json(&value) {
        Ok(mut bytes) => {
            bytes.push(10u8);
            Ok(bytes)
        },
        Err(_) => Err(RolloutError::Unserializable),
    }
}

/// Rewrites the daily rollout `source` for the isolated home: checks every line, re-encodes
/// the first line's session metadata with `provider_id`, and digests what was read and what
/// is written.
pub fn rewrite_rollout(source: &[u8], thread_id: &str, provider_id: &str) -> (result: Result<RolloutRewrite, RolloutError>)
    ensures
        match result {
            Ok(rewrite) => {
                &&& rewritten_rollout(source@, thread_id@, provider_id@) == Ok::<Seq<u8>, RolloutError>(rewrite.bytes@)
                &&& rewrite.source_sha256@ == hex_lower(sha256_digest(source@))
                &&& rewrite.destination_sha256@ == hex_lower(sha256_digest(rewrite.bytes@))
            },
            Err(e) => rewritten_rollout(source@, thread_id@, provider_id@) == Err::<Seq<u8>, RolloutError>(e),
        },
{
    if source.len() == 0 {
        return Err(RolloutError::Empty);
    }
    let ghost thread = thread_id@;
    let ghost provider = provider_id@;
    let mut out: Vec<u8> = Vec::new();
    let mut start: usize = 0;
    let mut first = true;
    while start < source.len()
        invariant
            start <= source@.len(),
            first ==> start == 0,
            thread == thread_id@,
            provider == provider_id@,
            rewritten_from(source@, 0, true, thread, provider) == after(
                out@,
                rewritten_from(source@, start as int, first, thread, provider),
            ),
        decreases source@.len() - start,
    {
        let end = find_line_end(source, start);
        let line = &source[start..end];
        proof {
            assert(line@ == source@.subrange(start as int, end as int));
        }
        if source[end - 1] != 10u8 {
            return Err(RolloutError::PartialFinalLine);
        }
        let mut json_end = end - 1;
        if json_end > start && source[json_end - 1] == 13u8 {
            json_end = json_end - 1;
        }
        let json = &source[start..json_end];
        proof {
            assert(json@ =~= line_json(line@));
        }
        let ghost before = out@;
        let ghost written: Seq<u8>;
        if json_end == start {
            append_bytes(&mut out, line);
            proof {
                written = line@;
            }
        } else if first {
            let rendered = rewrite_session_meta(json, thread_id, provider_id)?;
            append_bytes(&mut out, rendered.as_slice());
            proof {
                written = rendered@;
            }
        } else {
            match parse_json(json) {
                Ok(_) => append_bytes(&mut out, line),
                Err(_) => {
                    return Err(RolloutError::InvalidJson);
                },
            }
            proof {
                written = line@;
            }
        }
        proof {
            assert(rewritten_line(line@, first, thread, provider) == Ok::<Seq<u8>, RolloutError>(written));
            assert(rewritten_from(source@, start as int, first, thread, provider) == after(
                written,
                rewritten_from(source@, end as int, false, thread, provider),
            ));
            assert(out@ == before + written);
            match rewritten_from(source@, end as int, false, thread, provider) {
                Ok(rest) => {
                    assert(before + (written + rest) =~= out@ + rest);
                },
                Err(_) => {},
            }
        }
        start = end;
        first = false;
    }
    let source_sha256 = sha256_bytes(source);
    let destination_sha256 = sha256_bytes(out.as_slice());
    proof {
        assert(out@ + Seq::<u8>::empty() =~= out@);
    }
    Ok(RolloutRewrite { bytes: out, source_sha256, destination_sha256 })
}

} // verus!
