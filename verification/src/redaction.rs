//! Why a launcher diagnostic never shows the provider credential: redaction leaves no
//! occurrence of it, and cleaning, trimming and shortening the text create none.

use vstd::prelude::*;

use crate::launcher::{
    clean_line, cleaned_lines_from, line_at, lemma_newline_bounds, newline_at_or_after, replaced_all, sanitized_diagnostic,
    sanitized_text, within_bytes,
};
use crate::renderer_addons::{first_match_from, lemma_first_match_found, matches_at};
use crate::compatibility::ascii_lower;
use crate::text::{is_control_char, trim_end, trim_start, trimmed};

verus! {

/// A character a credential may hold: an ASCII letter or digit, `-` or `_`.
pub open spec fn is_secret_char(c: char) -> bool {
    ('a' <= c && c <= 'z') || ('A' <= c && c <= 'Z') || ('0' <= c && c <= '9') || c == '-' || c == '_'
}

/// `p` occurs somewhere in `s`.
pub open spec fn occurs(s: Seq<char>, p: Seq<char>) -> bool {
    exists|i: int| #[trigger] matches_at(s, p, i)
}

pub open spec fn header_word() -> Seq<char> {
    seq!['A', 'u', 't', 'h', 'o', 'r', 'i', 'z', 'a', 't', 'i', 'o', 'n']
}

/// `secret` ends with the start of the word `Authorization`, which a redacted bearer header
/// shows right after the text before it.
pub open spec fn ends_with_header_start(secret: Seq<char>) -> bool {
    exists|m: int| 1 <= m <= 13 && m <= secret.len() && #[trigger] secret.skip(secret.len() - m) == header_word().take(m)
}

/// A credential the sanitizer keeps out of every diagnostic: at least 14 characters, each a
/// letter, digit, `-` or `_`, not ending with the start of `Authorization`.
pub open spec fn hidden_secret(secret: Seq<char>) -> bool {
    &&& secret.len() >= 14
    &&& forall|i: int| 0 <= i < secret.len() ==> is_secret_char(#[trigger] secret[i])
    &&& !ends_with_header_start(secret)
}

proof fn lemma_occurs_in_subrange(s: Seq<char>, a: int, b: int, p: Seq<char>)
    requires
        0 <= a <= b <= s.len(),
        occurs(s.subrange(a, b), p),
    ensures
        occurs(s, p),
{
    let t = s.subrange(a, b);
    let i = choose|i: int| #[trigger] matches_at(t, p, i);
    assert(s.subrange(a + i, a + i + p.len()) =~= t.subrange(i, i + p.len()));
    assert(matches_at(s, p, a + i));
}

proof fn lemma_replaced_prefix(u: Seq<char>, pat: Seq<char>, rep: Seq<char>, w: Seq<char>)
    requires
        pat.len() > 0,
        rep.len() > 0,
        !is_secret_char(rep[0]),
        forall|j: int| 0 <= j < w.len() ==> is_secret_char(#[trigger] w[j]),
        w.len() <= replaced_all(u, pat, rep).len(),
        replaced_all(u, pat, rep).take(w.len() as int) == w,
    ensures
        w.len() <= u.len(),
        u.take(w.len() as int) == w,
    decreases u.len(),
{
    let r = replaced_all(u, pat, rep);
    if w.len() == 0 {
        assert(u.take(0) =~= w);
    } else if u.len() < pat.len() {
    } else if u.take(pat.len() as int) == pat {
        assert(r[0] == rep[0]);
        assert(r.take(w.len() as int)[0] == w[0]);
    } else {
        let rest = replaced_all(u.skip(1), pat, rep);
        assert(r == seq![u[0]] + rest);
        assert(rest.take(w.len() - 1) =~= w.skip(1)) by {
            assert forall|j: int| 0 <= j < w.len() - 1 implies rest.take(w.len() - 1)[j] == w.skip(1)[j] by {
                assert(r.take(w.len() as int)[j + 1] == w[j + 1]);
            }
        }
        lemma_replaced_prefix(u.skip(1), pat, rep, w.skip(1));
        assert(r.take(w.len() as int)[0] == w[0]);
        assert(u.take(w.len() as int) =~= w) by {
            assert forall|j: int| 0 <= j < w.len() implies u.take(w.len() as int)[j] == w[j] by {
                if j > 0 {
                    assert(u.skip(1).take(w.len() - 1)[j - 1] == w.skip(1)[j - 1]);
                }
            }
        }
    }
}

/// Replacing every occurrence of a credential by a marker of other characters leaves none.
proof fn lemma_replaced_clean(text: Seq<char>, pat: Seq<char>, rep: Seq<char>)
    requires
        pat.len() > 0,
        forall|j: int| 0 <= j < pat.len() ==> is_secret_char(#[trigger] pat[j]),
        0 < rep.len() <= pat.len(),
        !is_secret_char(rep[0]),
        !is_secret_char(rep[rep.len() - 1]),
    ensures
        !occurs(replaced_all(text, pat, rep), pat),
    decreases text.len(),
{
    let r = replaced_all(text, pat, rep);
    if text.len() < pat.len() {
        assert(r == text);
    } else if text.take(pat.len() as int) == pat {
        let rest = replaced_all(text.skip(pat.len() as int), pat, rep);
        lemma_replaced_clean(text.skip(pat.len() as int), pat, rep);
        assert(r == rep + rest);
        if occurs(r, pat) {
            let i = choose|i: int| #[trigger] matches_at(r, pat, i);
            if i < rep.len() {
                let last = rep.len() - 1;
                assert(r[last] == rep[last]);
                assert(r.subrange(i, i + pat.len())[last - i] == pat[last - i]);
            } else {
                assert(rest.subrange(i - rep.len(), i - rep.len() + pat.len()) =~= r.subrange(i, i + pat.len()));
                assert(matches_at(rest, pat, i - rep.len()));
            }
        }
    } else {
        let rest = replaced_all(text.skip(1), pat, rep);
        lemma_replaced_clean(text.skip(1), pat, rep);
        assert(r == seq![text[0]] + rest);
        if occurs(r, pat) {
            let i = choose|i: int| #[trigger] matches_at(r, pat, i);
            if i >= 1 {
                assert(rest.subrange(i - 1, i - 1 + pat.len()) =~= r.subrange(i, i + pat.len()));
                assert(matches_at(rest, pat, i - 1));
            } else {
                assert(rest.take(pat.len() - 1) =~= pat.skip(1)) by {
                    assert forall|j: int| 0 <= j < pat.len() - 1 implies rest.take(pat.len() - 1)[j] == pat.skip(1)[j] by {
                        assert(r.subrange(0, pat.len() as int)[j + 1] == pat[j + 1]);
                    }
                }
                assert(r.subrange(0, pat.len() as int)[0] == pat[0]);
                lemma_replaced_prefix(text.skip(1), pat, rep, pat.skip(1));
                assert(text.take(pat.len() as int) =~= pat) by {
                    assert forall|j: int| 0 <= j < pat.len() implies text.take(pat.len() as int)[j] == pat[j] by {
                        if j > 0 {
                            assert(text.skip(1).take(pat.len() - 1)[j - 1] == pat.skip(1)[j - 1]);
                        }
                    }
                }
            }
        }
    }
}

proof fn lemma_clean_line_hides(line: Seq<char>, pat: Seq<char>)
    requires
        hidden_secret(pat),
        !occurs(line, pat),
    ensures
        !occurs(clean_line(line), pat),
{
    let n = pat.len() as int;
    match first_match_from(ascii_lower(line), "authorization: bearer"@, 0) {
        Some(k) => {
            lemma_first_match_found(ascii_lower(line), "authorization: bearer"@, 0, k);
            let b = "Authorization: [REDACTED]"@;
            reveal_strlit("Authorization: [REDACTED]");
            assert(b.len() == 25);
            assert(b[13] == ':');
            assert(b.take(13) =~= header_word());
            let c = line.take(k) + b;
            assert(c == clean_line(line));
            if occurs(c, pat) {
                let i = choose|i: int| #[trigger] matches_at(c, pat, i);
                if i + n <= k {
                    assert(line.subrange(i, i + n) =~= c.subrange(i, i + n));
                    assert(matches_at(line, pat, i));
                } else if i >= k {
                    assert(c[k + 13] == ':');
                    assert(c.subrange(i, i + n)[k + 13 - i] == pat[k + 13 - i]);
                } else {
                    let m = i + n - k;
                    if m <= 13 {
                        assert(pat.skip(n - m) =~= header_word().take(m)) by {
                            assert forall|j: int| 0 <= j < m implies pat.skip(n - m)[j] == header_word().take(m)[j] by {
                                assert(c.subrange(i, i + n)[n - m + j] == pat[n - m + j]);
                                assert(c[k + j] == b[j]);
                                assert(b.take(13)[j] == b[j]);
                            }
                        }
                        assert(ends_with_header_start(pat));
                    } else {
                        assert(c[k + 13] == ':');
                        assert(c.subrange(i, i + n)[k + 13 - i] == pat[k + 13 - i]);
                    }
                }
            }
        },
        None => {
            let c = line.map_values(|c: char| if is_control_char(c) && c != '\t' { ' ' } else { c });
            assert(c == clean_line(line));
            if occurs(c, pat) {
                let i = choose|i: int| #[trigger] matches_at(c, pat, i);
                assert(line.subrange(i, i + n) =~= pat) by {
                    assert forall|j: int| 0 <= j < n implies line.subrange(i, i + n)[j] == pat[j] by {
                        assert(c.subrange(i, i + n)[j] == pat[j]);
                        assert(is_secret_char(pat[j]));
                    }
                }
                assert(matches_at(line, pat, i));
            }
        },
    }
}

proof fn lemma_cleaned_lines_hide(text: Seq<char>, start: int, first: bool, pat: Seq<char>)
    requires
        hidden_secret(pat),
        !occurs(text, pat),
    ensures
        !occurs(cleaned_lines_from(text, start, first), pat),
    decreases text.len() + 1 - start,
{
    if start >= 0 && start < text.len() {
        let n = pat.len() as int;
        let end = newline_at_or_after(text, start);
        lemma_newline_bounds(text, start);
        let line = line_at(text, start);
        let raw = text.subrange(start, end);
        if end < text.len() && raw.len() > 0 && raw.last() == '\r' {
            assert(line =~= text.subrange(start, end - 1));
            if occurs(line, pat) {
                lemma_occurs_in_subrange(text, start, end - 1, pat);
            }
        } else {
            assert(line == raw);
            if occurs(line, pat) {
                lemma_occurs_in_subrange(text, start, end, pat);
            }
        }
        lemma_clean_line_hides(line, pat);
        lemma_cleaned_lines_hide(text, end + 1, false, pat);
        let l = clean_line(line);
        let rest = cleaned_lines_from(text, end + 1, false);
        assert(rest.len() > 0 ==> rest[0] == '\n');
        let sep: Seq<char> = if first { Seq::empty() } else { seq!['\n'] };
        let c = sep + l + rest;
        assert(c == cleaned_lines_from(text, start, first));
        if occurs(c, pat) {
            let i = choose|i: int| #[trigger] matches_at(c, pat, i);
            let a = sep.len() as int;
            let b = a + l.len();
            if i < a {
                assert(c[0] == '\n');
                assert(c.subrange(i, i + n)[0] == pat[0]);
                assert(is_secret_char(pat[0]));
            } else if i + n <= b {
                assert(l.subrange(i - a, i - a + n) =~= c.subrange(i, i + n));
                assert(matches_at(l, pat, i - a));
            } else if i >= b {
                assert(rest.subrange(i - b, i - b + n) =~= c.subrange(i, i + n));
                assert(matches_at(rest, pat, i - b));
            } else {
                assert(c[b] == rest[0]);
                assert(c.subrange(i, i + n)[b - i] == pat[b - i]);
                assert(is_secret_char(pat[b - i]));
            }
        }
    }
}

proof fn lemma_trim_start_skips(s: Seq<char>) -> (k: int)
    ensures
        0 <= k <= s.len(),
        trim_start(s) == s.skip(k),
    decreases s.len(),
{
    if s.len() > 0 && crate::text::is_whitespace_char(s[0]) {
        let k = lemma_trim_start_skips(s.drop_first());
        assert(s.drop_first().skip(k) =~= s.skip(k + 1));
        k + 1
    } else {
        assert(s.skip(0) =~= s);
        0
    }
}

proof fn lemma_trim_end_takes(s: Seq<char>) -> (k: int)
    ensures
        0 <= k <= s.len(),
        trim_end(s) == s.take(k),
    decreases s.len(),
{
    if s.len() > 0 && crate::text::is_whitespace_char(s[s.len() - 1]) {
        let k = lemma_trim_end_takes(s.drop_last());
        assert(s.drop_last().take(k) =~= s.take(k));
        k
    } else {
        assert(s.take(s.len() as int) =~= s);
        s.len() as int
    }
}

proof fn lemma_within_bytes_skips(s: Seq<char>, limit: int) -> (k: int)
    ensures
        0 <= k <= s.len(),
        within_bytes(s, limit) == s.skip(k),
    decreases s.len(),
{
    if s.len() == 0 || crate::launcher::utf8_len(s) <= limit {
        assert(s.skip(0) =~= s);
        0
    } else {
        let k = lemma_within_bytes_skips(s.drop_first(), limit);
        assert(s.drop_first().skip(k) =~= s.skip(k + 1));
        k + 1
    }
}

/// A diagnostic never shows the credential: whatever the child wrote, the text shown holds
/// no occurrence of a credential of at least 14 letters, digits, `-` or `_` that does not
/// end with the start of `Authorization`.
pub proof fn lemma_secret_never_shown(bytes: Seq<u8>, secret: Seq<char>)
    requires
        hidden_secret(secret),
    ensures
        !occurs(sanitized_diagnostic(bytes, secret), secret),
{
    let tail = if bytes.len() > crate::launcher::MAX_LAUNCHER_DIAGNOSTIC_INPUT_BYTES {
        bytes.skip(bytes.len() - crate::launcher::MAX_LAUNCHER_DIAGNOSTIC_INPUT_BYTES)
    } else {
        bytes
    };
    let text = crate::codec::lossy_utf8(tail);
    lemma_text_never_shows(text, secret);
}

/// The decoded diagnostic never shows the credential either.
pub proof fn lemma_text_never_shows(text: Seq<char>, secret: Seq<char>)
    requires
        hidden_secret(secret),
    ensures
        !occurs(sanitized_text(text, secret), secret),
{
    let marker = "[REDACTED]"@;
    reveal_strlit("[REDACTED]");
    assert(marker.len() == 10 && marker[0] == '[' && marker[9] == ']');
    lemma_replaced_clean(text, secret, marker);
    let redacted = replaced_all(text, secret, marker);
    lemma_cleaned_lines_hide(redacted, 0, true, secret);
    let cleaned = cleaned_lines_from(redacted, 0, true);
    let a = lemma_trim_start_skips(cleaned);
    let started = trim_start(cleaned);
    let b = lemma_trim_end_takes(started);
    let t = trimmed(cleaned);
    assert(t == cleaned.subrange(a, a + b)) by {
        assert(cleaned.skip(a).take(b) =~= cleaned.subrange(a, a + b));
    }
    if occurs(t, secret) {
        lemma_occurs_in_subrange(cleaned, a, a + b, secret);
    }
    let c = lemma_within_bytes_skips(t, crate::launcher::MAX_LAUNCHER_DIAGNOSTIC_DISPLAY_BYTES as int);
    let shown = sanitized_text(text, secret);
    assert(shown == t.subrange(c, t.len() as int)) by {
        assert(t.skip(c) =~= t.subrange(c, t.len() as int));
    }
    if occurs(shown, secret) {
        lemma_occurs_in_subrange(t, c, t.len() as int, secret);
    }
}

} // verus!
