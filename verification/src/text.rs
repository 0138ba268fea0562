//! Character classes and text shapes shared by the validators.

use vstd::prelude::*;
use vstd::std_specs::iter::IteratorSpec;
use vstd::string::*;

verus! {

broadcast use vstd::string::group_string_axioms;

/// Unicode `White_Space`, the class that `char::is_whitespace` and `str::trim` use.
pub open spec fn is_whitespace_char(c: char) -> bool {
    let v = c as u32;
    (0x09 <= v && v <= 0x0d) || v == 0x20 || v == 0x85 || v == 0xa0 || v == 0x1680 || (0x2000 <= v
        && v <= 0x200a) || v == 0x2028 || v == 0x2029 || v == 0x202f || v == 0x205f || v == 0x3000
}

/// Unicode general category `Cc`, the class that `char::is_control` uses.
pub open spec fn is_control_char(c: char) -> bool {
    let v = c as u32;
    v <= 0x1f || (0x7f <= v && v <= 0x9f)
}

pub fn char_is_whitespace(c: char) -> (result: bool)
    ensures
        result == is_whitespace_char(c),
{
    let v = c as u32;
    (0x09 <= v && v <= 0x0d) || v == 0x20 || v == 0x85 || v == 0xa0 || v == 0x1680 || (0x2000 <= v
        && v <= 0x200a) || v == 0x2028 || v == 0x2029 || v == 0x202f || v == 0x205f || v == 0x3000
}

pub fn char_is_control(c: char) -> (result: bool)
    ensures
        result == is_control_char(c),
{
    let v = c as u32;
    v <= 0x1f || (0x7f <= v && v <= 0x9f)
}

/// `s.trim() == s`: no whitespace at either end.
pub open spec fn is_trimmed(s: Seq<char>) -> bool {
    s.len() == 0 || (!is_whitespace_char(s[0]) && !is_whitespace_char(s[s.len() - 1]))
}

/// `s.trim().is_empty()`: every character is whitespace.
pub open spec fn is_blank(s: Seq<char>) -> bool {
    forall|i: int| 0 <= i < s.len() ==> is_whitespace_char(#[trigger] s[i])
}

/// No character of `s` is a control character.
pub open spec fn has_no_control(s: Seq<char>) -> bool {
    forall|i: int| 0 <= i < s.len() ==> !is_control_char(#[trigger] s[i])
}

/// The shape that names, secrets and endpoint parts must have: non-empty, at most
/// `max_len` bytes, no surrounding whitespace and no control characters.
pub open spec fn is_bounded_clean_text(s: &str, max_len: usize) -> bool {
    is_bounded_clean_chars(s@, max_len)
}

/// `is_bounded_clean_text` over the characters of a text.
#[verifier::opaque]
pub open spec fn is_bounded_clean_chars(s: Seq<char>, max_len: usize) -> bool {
    &&& s.len() > 0
    &&& vstd::utf8::encode_utf8(s).len() <= max_len
    &&& is_trimmed(s)
    &&& has_no_control(s)
}

/// The characters of `s`, in order.
pub fn chars_of(s: &str) -> (result: Vec<char>)
    ensures
        result@ == s@,
{
    let mut out = Vec::new();
    let ghost expected = s@;
    for c in it: s.chars()
        invariant
            it.seq() == expected,
            out@ == expected.take(it.index()),
    {
        proof {
            assert(expected.take(it.index() + 1) == expected.take(it.index()).push(c));
        }
        out.push(c);
    }
    proof {
        assert(expected.take(expected.len() as int) == expected);
    }
    out
}

pub fn is_blank_text(s: &str) -> (result: bool)
    ensures
        result == is_blank(s@),
{
    let chars = chars_of(s);
    let mut index: usize = 0;
    while index < chars.len()
        invariant
            chars@ == s@,
            index <= chars.len(),
            forall|i: int| 0 <= i < index ==> is_whitespace_char(#[trigger] s@[i]),
        decreases chars.len() - index,
    {
        if !char_is_whitespace(chars[index]) {
            return false;
        }
        index += 1;
    }
    true
}

pub fn is_trimmed_text(s: &str) -> (result: bool)
    ensures
        result == is_trimmed(s@),
{
    let chars = chars_of(s);
    if chars.len() == 0 {
        return true;
    }
    !char_is_whitespace(chars[0]) && !char_is_whitespace(chars[chars.len() - 1])
}

pub fn has_no_control_text(s: &str) -> (result: bool)
    ensures
        result == has_no_control(s@),
{
    let chars = chars_of(s);
    let mut index: usize = 0;
    while index < chars.len()
        invariant
            chars@ == s@,
            index <= chars.len(),
            forall|i: int| 0 <= i < index ==> !is_control_char(#[trigger] s@[i]),
        decreases chars.len() - index,
    {
        if char_is_control(chars[index]) {
            return false;
        }
        index += 1;
    }
    true
}

/// The length of `s` in bytes.
pub fn byte_len(s: &str) -> (result: usize)
    ensures
        result == s.spec_bytes().len(),
{
    s.as_bytes().len()
}

pub fn is_bounded_clean(s: &str, max_len: usize) -> (result: bool)
    ensures
        result == is_bounded_clean_text(s, max_len),
{
    proof {
        reveal(is_bounded_clean_chars);
    }
    !s.is_empty() && byte_len(s) <= max_len && is_trimmed_text(s) && has_no_control_text(s)
}


/// `s` without its leading whitespace.
pub open spec fn trim_start(s: Seq<char>) -> Seq<char>
    decreases s.len(),
{
    if s.len() > 0 && is_whitespace_char(s[0]) {
        trim_start(s.drop_first())
    } else {
        s
    }
}

/// `s` without its trailing whitespace.
pub open spec fn trim_end(s: Seq<char>) -> Seq<char>
    decreases s.len(),
{
    if s.len() > 0 && is_whitespace_char(s[s.len() - 1]) {
        trim_end(s.drop_last())
    } else {
        s
    }
}

/// What `str::trim` leaves of `s`.
pub open spec fn trimmed(s: Seq<char>) -> Seq<char> {
    trim_end(trim_start(s))
}

proof fn lemma_trim_start_skip(s: Seq<char>, k: int)
    requires
        0 <= k <= s.len(),
        forall|i: int| 0 <= i < k ==> is_whitespace_char(#[trigger] s[i]),
    ensures
        trim_start(s) == trim_start(s.skip(k)),
    decreases k,
{
    if k == 0 {
        assert(s.skip(0) =~= s);
    } else {
        assert(is_whitespace_char(s[0]));
        assert(s.skip(1) =~= s.drop_first());
        assert forall|i: int| 0 <= i < k - 1 implies is_whitespace_char(#[trigger] s.drop_first()[i]) by {
            assert(s.drop_first()[i] == s[i + 1]);
        }
        lemma_trim_start_skip(s.drop_first(), k - 1);
        assert(s.drop_first().skip(k - 1) =~= s.skip(k));
    }
}

proof fn lemma_trim_end_take(s: Seq<char>, k: int)
    requires
        0 <= k <= s.len(),
        forall|i: int| k <= i < s.len() ==> is_whitespace_char(#[trigger] s[i]),
    ensures
        trim_end(s) == trim_end(s.take(k)),
    decreases s.len() - k,
{
    if k == s.len() {
        assert(s.take(k) =~= s);
    } else {
        assert(is_whitespace_char(s[s.len() - 1]));
        assert forall|i: int| k <= i < s.len() - 1 implies is_whitespace_char(#[trigger] s.drop_last()[i]) by {
            assert(s.drop_last()[i] == s[i]);
        }
        lemma_trim_end_take(s.drop_last(), k);
        assert(s.drop_last().take(k) =~= s.take(k));
    }
}

/// The characters that `str::trim` leaves of `s`.
pub fn trim_chars(s: &str) -> (result: Vec<char>)
    ensures
        result@ == trimmed(s@),
{
    let chars = chars_of(s);
    let mut start: usize = 0;
    while start < chars.len() && char_is_whitespace(chars[start])
        invariant
            chars@ == s@,
            start <= chars@.len(),
            forall|i: int| 0 <= i < start ==> is_whitespace_char(#[trigger] s@[i]),
        decreases chars.len() - start,
    {
        start += 1;
    }
    proof {
        lemma_trim_start_skip(s@, start as int);
    }
    let ghost rest = s@.skip(start as int);
    let mut end: usize = chars.len();
    while end > start && char_is_whitespace(chars[end - 1])
        invariant
            chars@ == s@,
            start <= end <= chars@.len(),
            rest == s@.skip(start as int),
            forall|i: int| end - start <= i < rest.len() ==> is_whitespace_char(#[trigger] rest[i]),
        decreases end,
    {
        proof {
            assert(rest[end - 1 - start] == s@[end - 1]);
        }
        end -= 1;
    }
    proof {
        if start < chars.len() {
            assert(rest[0] == s@[start as int]);
            assert(!is_whitespace_char(rest[0]));
            assert(trim_start(rest) == rest);
        } else {
            assert(rest.len() == 0);
        }
        lemma_trim_end_take(rest, (end - start) as int);
        let kept = rest.take((end - start) as int);
        if end > start {
            assert(kept[kept.len() - 1] == s@[end - 1]);
        }
        assert(trim_end(kept) == kept);
    }
    let mut out: Vec<char> = Vec::new();
    let mut index = start;
    while index < end
        invariant
            chars@ == s@,
            start <= index <= end <= chars@.len(),
            out@ == s@.subrange(start as int, index as int),
        decreases end - index,
    {
        proof {
            assert(s@.subrange(start as int, index + 1) == s@.subrange(start as int, index as int).push(s@[index as int]));
        }
        out.push(chars[index]);
        index += 1;
    }
    proof {
        assert(out@ =~= s@.skip(start as int).take((end - start) as int));
    }
    out
}

/// Whether two character sequences are equal.
pub fn chars_equal(left: &[char], right: &[char]) -> (result: bool)
    ensures
        result == (left@ == right@),
{
    if left.len() != right.len() {
        return false;
    }
    for index in 0..left.len()
        invariant
            left@.len() == right@.len(),
            forall|i: int| 0 <= i < index ==> left@[i] == right@[i],
    {
        if left[index] != right[index] {
            return false;
        }
    }
    proof {
        assert(left@ =~= right@);
    }
    true
}

/// The characters of `chars` from `from` up to `to`.
pub fn slice_chars(chars: &[char], from: usize, to: usize) -> (result: Vec<char>)
    requires
        from <= to <= chars@.len(),
    ensures
        result@ == chars@.subrange(from as int, to as int),
{
    let mut out: Vec<char> = Vec::new();
    let mut index = from;
    while index < to
        invariant
            from <= index <= to <= chars@.len(),
            out@ == chars@.subrange(from as int, index as int),
        decreases to - index,
    {
        proof {
            assert(chars@.subrange(from as int, index + 1) == chars@.subrange(from as int, index as int).push(
                chars@[index as int],
            ));
        }
        out.push(chars[index]);
        index += 1;
    }
    out
}

/// The order of `str` comparison: lexicographic by code point.
pub open spec fn text_lt(a: Seq<char>, b: Seq<char>) -> bool
    decreases a.len(),
{
    if a.len() == 0 {
        b.len() > 0
    } else if b.len() == 0 {
        false
    } else if a[0] != b[0] {
        a[0] < b[0]
    } else {
        text_lt(a.drop_first(), b.drop_first())
    }
}

pub proof fn lemma_text_lt_irreflexive(a: Seq<char>)
    ensures
        !text_lt(a, a),
    decreases a.len(),
{
    if a.len() > 0 {
        lemma_text_lt_irreflexive(a.drop_first());
    }
}

pub proof fn lemma_text_lt_transitive(a: Seq<char>, b: Seq<char>, c: Seq<char>)
    requires
        text_lt(a, b),
        text_lt(b, c),
    ensures
        text_lt(a, c),
    decreases a.len(),
{
    if a.len() > 0 && b.len() > 0 && c.len() > 0 && a[0] == b[0] && b[0] == c[0] {
        lemma_text_lt_transitive(a.drop_first(), b.drop_first(), c.drop_first());
    }
}

pub proof fn lemma_text_lt_total(a: Seq<char>, b: Seq<char>)
    requires
        a != b,
    ensures
        text_lt(a, b) || text_lt(b, a),
    decreases a.len(),
{
    if a.len() > 0 && b.len() > 0 && a[0] == b[0] {
        if a.drop_first() == b.drop_first() {
            assert(a =~= seq![a[0]] + a.drop_first());
            assert(b =~= seq![b[0]] + b.drop_first());
        }
        lemma_text_lt_total(a.drop_first(), b.drop_first());
    } else if a.len() == 0 && b.len() == 0 {
        assert(a =~= b);
    }
}

pub proof fn lemma_text_lt_asymmetric(a: Seq<char>, b: Seq<char>)
    requires
        text_lt(a, b),
    ensures
        !text_lt(b, a),
{
    if text_lt(b, a) {
        lemma_text_lt_transitive(a, b, a);
        lemma_text_lt_irreflexive(a);
    }
}

/// `a` comes before `b` in dictionary order: it is a proper prefix of `b`, or at the first
/// position where they differ its character is the smaller.
pub open spec fn lex_before(a: Seq<char>, b: Seq<char>) -> bool {
    ||| (a.len() < b.len() && b.take(a.len() as int) == a)
    ||| exists|i: int| 0 <= i < a.len() && i < b.len() && a.take(i) == b.take(i) && #[trigger] a[i] < #[trigger] b[i]
}

/// The order of `str` comparison is dictionary order by code point.
pub proof fn lemma_text_lt_is_lexicographic(a: Seq<char>, b: Seq<char>)
    ensures
        text_lt(a, b) <==> lex_before(a, b),
    decreases a.len(),
{
    if a.len() == 0 {
        assert(b.take(0) =~= a);
    } else if b.len() == 0 {
    } else if a[0] != b[0] {
        if a.len() < b.len() && b.take(a.len() as int) == a {
            assert(b.take(a.len() as int)[0] == b[0]);
        }
        if a[0] < b[0] {
            assert(a.take(0) =~= b.take(0));
            assert(0 < a.len() && 0 < b.len() && a.take(0) == b.take(0) && a[0] < b[0]);
        }
        if exists|i: int| 0 <= i < a.len() && i < b.len() && a.take(i) == b.take(i) && #[trigger] a[i] < #[trigger] b[i] {
            let i = choose|i: int| 0 <= i < a.len() && i < b.len() && a.take(i) == b.take(i) && #[trigger] a[i] < #[trigger] b[i];
            if i > 0 {
                assert(a.take(i)[0] == b.take(i)[0]);
            }
        }
    } else {
        let a1 = a.drop_first();
        let b1 = b.drop_first();
        lemma_text_lt_is_lexicographic(a1, b1);
        if a1.len() < b1.len() && b1.take(a1.len() as int) == a1 {
            assert(b.take(a.len() as int) =~= a) by {
                assert forall|j: int| 0 <= j < a.len() implies #[trigger] b.take(a.len() as int)[j] == a[j] by {
                    if j > 0 {
                        assert(b1.take(a1.len() as int)[j - 1] == a1[j - 1]);
                    }
                }
            }
        }
        if a.len() < b.len() && b.take(a.len() as int) == a {
            assert(b1.take(a1.len() as int) =~= a1) by {
                assert forall|j: int| 0 <= j < a1.len() implies #[trigger] b1.take(a1.len() as int)[j] == a1[j] by {
                    assert(b.take(a.len() as int)[j + 1] == a[j + 1]);
                }
            }
        }
        if exists|i: int| 0 <= i < a1.len() && i < b1.len() && a1.take(i) == b1.take(i) && #[trigger] a1[i] < #[trigger] b1[i] {
            let i = choose|i: int|
                0 <= i < a1.len() && i < b1.len() && a1.take(i) == b1.take(i) && #[trigger] a1[i] < #[trigger] b1[i];
            assert(a.take(i + 1) =~= b.take(i + 1)) by {
                assert forall|j: int| 0 <= j < i + 1 implies #[trigger] a.take(i + 1)[j] == b.take(i + 1)[j] by {
                    if j > 0 {
                        assert(a1.take(i)[j - 1] == b1.take(i)[j - 1]);
                    }
                }
            }
            assert(a[i + 1] == a1[i] && b[i + 1] == b1[i]);
            assert(0 <= i + 1 < a.len() && i + 1 < b.len() && a.take(i + 1) == b.take(i + 1) && a[i + 1] < b[i + 1]);
        }
        if exists|i: int| 0 <= i < a.len() && i < b.len() && a.take(i) == b.take(i) && #[trigger] a[i] < #[trigger] b[i] {
            let i = choose|i: int| 0 <= i < a.len() && i < b.len() && a.take(i) == b.take(i) && #[trigger] a[i] < #[trigger] b[i];
            assert(i > 0);
            assert(a1.take(i - 1) =~= b1.take(i - 1)) by {
                assert forall|j: int| 0 <= j < i - 1 implies #[trigger] a1.take(i - 1)[j] == b1.take(i - 1)[j] by {
                    assert(a.take(i)[j + 1] == b.take(i)[j + 1]);
                }
            }
            assert(a1[i - 1] == a[i] && b1[i - 1] == b[i]);
            assert(0 <= i - 1 < a1.len() && i - 1 < b1.len() && a1.take(i - 1) == b1.take(i - 1) && a1[i - 1] < b1[i - 1]);
        }
    }
}

/// Whether `a` sorts before `b` as `str` comparison orders them.
pub fn text_less(a: &[char], b: &[char]) -> (result: bool)
    ensures
        result == text_lt(a@, b@),
{
    let mut index: usize = 0;
    proof {
        assert(a@.skip(0) =~= a@);
        assert(b@.skip(0) =~= b@);
    }
    while index < a.len() && index < b.len() && a[index] == b[index]
        invariant
            index <= a@.len(),
            index <= b@.len(),
            text_lt(a@, b@) == text_lt(a@.skip(index as int), b@.skip(index as int)),
        decreases a@.len() - index,
    {
        proof {
            assert(a@.skip(index as int).drop_first() =~= a@.skip(index + 1));
            assert(b@.skip(index as int).drop_first() =~= b@.skip(index + 1));
        }
        index += 1;
    }
    if index == a.len() {
        index < b.len()
    } else if index == b.len() {
        false
    } else {
        proof {
            assert(a@.skip(index as int)[0] == a@[index as int]);
            assert(b@.skip(index as int)[0] == b@[index as int]);
        }
        a[index] < b[index]
    }
}

} // verus!
