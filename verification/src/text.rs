//! Text, as sequences of characters.
//!
//! Every function here states what it does to the characters of its argument,
//! so that the modules above can say what a URL, a remote or a request line
//! means without talking about bytes and offsets.
use vstd::prelude::*;
use vstd::string::*;
use vstd::utf8::*;

verus! {

// ---------------------------------------------------------------------------
// Vocabulary
// ---------------------------------------------------------------------------

/// The characters of each string.
pub open spec fn texts(strings: Seq<String>) -> Seq<Seq<char>> {
    strings.map_values(|s: String| s@)
}

/// The characters of a string that may be absent.
pub open spec fn optional(text: Option<String>) -> Option<Seq<char>> {
    match text {
        Some(s) => Some(s@),
        None => None,
    }
}

/// The characters of a borrowed string that may be absent.
pub open spec fn optional_str(text: Option<&str>) -> Option<Seq<char>> {
    match text {
        Some(s) => Some(s@),
        None => None,
    }
}

/// The Unicode property `White_Space`.
pub open spec fn whitespace(c: char) -> bool {
    ||| '\u{9}' <= c <= '\u{d}'
    ||| c == '\u{20}'
    ||| c == '\u{85}'
    ||| c == '\u{a0}'
    ||| c == '\u{1680}'
    ||| '\u{2000}' <= c <= '\u{200a}'
    ||| c == '\u{2028}'
    ||| c == '\u{2029}'
    ||| c == '\u{202f}'
    ||| c == '\u{205f}'
    ||| c == '\u{3000}'
}

/// `s` without the whitespace it starts with.
pub open spec fn trimmed_start(s: Seq<char>) -> Seq<char>
    decreases s.len(),
{
    if s.len() > 0 && whitespace(s[0]) {
        trimmed_start(s.drop_first())
    } else {
        s
    }
}

/// `s` without the whitespace it ends with.
pub open spec fn trimmed_end(s: Seq<char>) -> Seq<char>
    decreases s.len(),
{
    if s.len() > 0 && whitespace(s.last()) {
        trimmed_end(s.drop_last())
    } else {
        s
    }
}

/// `s` without the whitespace around it.
pub open spec fn trimmed(s: Seq<char>) -> Seq<char> {
    trimmed_end(trimmed_start(s))
}

/// `s` without the run of `c` it ends with.
pub open spec fn without_trailing(s: Seq<char>, c: char) -> Seq<char>
    decreases s.len(),
{
    if s.len() > 0 && s.last() == c {
        without_trailing(s.drop_last(), c)
    } else {
        s
    }
}

/// `s` begins with `prefix`.
pub open spec fn has_prefix(s: Seq<char>, prefix: Seq<char>) -> bool {
    prefix.len() <= s.len() && s.take(prefix.len() as int) == prefix
}

/// `s` ends with `suffix`.
pub open spec fn has_suffix(s: Seq<char>, suffix: Seq<char>) -> bool {
    suffix.len() <= s.len() && s.skip(s.len() - suffix.len()) == suffix
}

/// Where `c` first occurs in `s`.
pub open spec fn first_index(s: Seq<char>, c: char) -> Option<int>
    decreases s.len(),
{
    if s.len() == 0 {
        None
    } else if s[0] == c {
        Some(0)
    } else {
        match first_index(s.drop_first(), c) {
            Some(i) => Some(i + 1),
            None => None,
        }
    }
}

/// Where `c` last occurs in `s`.
pub open spec fn last_index(s: Seq<char>, c: char) -> Option<int>
    decreases s.len(),
{
    if s.len() == 0 {
        None
    } else if s.last() == c {
        Some(s.len() - 1)
    } else {
        last_index(s.drop_last(), c)
    }
}

/// What stands before and after the first `c`.
pub open spec fn cut_first(s: Seq<char>, c: char) -> Option<(Seq<char>, Seq<char>)> {
    match first_index(s, c) {
        Some(i) => Some((s.take(i), s.skip(i + 1))),
        None => None,
    }
}

/// What stands before and after the last `c`.
pub open spec fn cut_last(s: Seq<char>, c: char) -> Option<(Seq<char>, Seq<char>)> {
    match last_index(s, c) {
        Some(i) => Some((s.take(i), s.skip(i + 1))),
        None => None,
    }
}

/// The pieces of `s` between the `c`s; one piece when there is none.
pub open spec fn pieces(s: Seq<char>, c: char) -> Seq<Seq<char>>
    decreases s.len(),
{
    match first_index(s, c) {
        Some(i) => if 0 <= i < s.len() {
            seq![s.take(i)] + pieces(s.skip(i + 1), c)
        } else {
            seq![s]
        },
        None => seq![s],
    }
}

/// `parts`, with `separator` between each two.
pub open spec fn joined(parts: Seq<Seq<char>>, separator: Seq<char>) -> Seq<char>
    decreases parts.len(),
{
    if parts.len() == 0 {
        Seq::empty()
    } else if parts.len() == 1 {
        parts[0]
    } else {
        joined(parts.drop_last(), separator) + separator + parts.last()
    }
}

/// Where `needle` first occurs in `s`.
pub open spec fn first_occurrence(s: Seq<char>, needle: Seq<char>) -> Option<int>
    decreases s.len(),
{
    if has_prefix(s, needle) {
        Some(0)
    } else if s.len() == 0 {
        None
    } else {
        match first_occurrence(s.drop_first(), needle) {
            Some(i) => Some(i + 1),
            None => None,
        }
    }
}

/// `s` with the first occurrence of `from` replaced by `to`; `s` itself when
/// there is none.
pub open spec fn replaced_first(s: Seq<char>, from: Seq<char>, to: Seq<char>) -> Seq<char> {
    match first_occurrence(s, from) {
        Some(i) => s.take(i) + to + s.skip(i + from.len()),
        None => s,
    }
}

/// What is left of `s` behind each `needle` in turn: the last of the pieces
/// that `needle` cuts `s` into.
pub open spec fn after_last(s: Seq<char>, needle: Seq<char>) -> Seq<char>
    decreases s.len(),
{
    match first_occurrence(s, needle) {
        Some(i) => if needle.len() > 0 && 0 <= i && i + needle.len() <= s.len() {
            after_last(s.skip(i + needle.len()), needle)
        } else {
            s
        },
        None => s,
    }
}

/// `s` in lower case by the Unicode tables, where it is more than ASCII.
pub uninterp spec fn unicode_lowercased(s: Seq<char>) -> Seq<char>;

/// `s` in lower case.
pub open spec fn lowercased(s: Seq<char>) -> Seq<char> {
    if is_ascii_chars(s) {
        ascii_lowercased(s)
    } else {
        unicode_lowercased(s)
    }
}

/// None of the letters `A` to `Z` is in `s`.
pub open spec fn no_capitals(s: Seq<char>) -> bool {
    forall|i: int| 0 <= i < s.len() ==> !('A' <= #[trigger] s[i] <= 'Z')
}

/// `s` with the letters `A` to `Z` in lower case.
pub open spec fn ascii_lowercased(s: Seq<char>) -> Seq<char> {
    s.map_values(|c: char| if 'A' <= c <= 'Z' { ((c as u32) + 32) as char } else { c })
}

/// The text that replacement characters make of bytes that are not UTF-8.
pub uninterp spec fn repaired(bytes: Seq<u8>) -> Seq<char>;

/// The text that bytes hold, repaired where they are not UTF-8.
pub open spec fn decoded(bytes: Seq<u8>) -> Seq<char> {
    if valid_utf8(bytes) {
        decode_utf8(bytes)
    } else {
        repaired(bytes)
    }
}

/// The digit `d`, which is below ten.
pub open spec fn digit(d: nat) -> char {
    (('0' as u32) + d) as char
}

/// `n` in decimal.
pub open spec fn decimal(n: nat) -> Seq<char>
    decreases n,
{
    if n < 10 {
        seq![digit(n)]
    } else {
        decimal(n / 10).push(digit(n % 10))
    }
}

// ---------------------------------------------------------------------------
// What the standard library does, where nothing else says it
// ---------------------------------------------------------------------------

/// `String::push`: the string gains one character at its end.
pub assume_specification[ String::push ](s: &mut String, c: char)
    ensures
        final(s)@ == old(s)@.push(c),
;

/// `str::to_lowercase`: a new string, in lower case by the Unicode tables, so
/// that none of the letters `A` to `Z` is left. Of a text that is all ASCII the
/// tables change those letters alone.
#[verifier::external_body]
pub(crate) fn lowercase(s: &str) -> (r: String)
    ensures
        is_ascii_chars(s@) ==> r@ == ascii_lowercased(s@),
        !is_ascii_chars(s@) ==> r@ == unicode_lowercased(s@),
        no_capitals(r@),
{
    s.to_lowercase()
}

/// `String::from_utf8`: the text, exactly when the bytes are UTF-8.
#[verifier::external_body]
pub(crate) fn utf8(bytes: Vec<u8>) -> (r: Option<String>)
    ensures
        r is Some <==> valid_utf8(bytes@),
        r is Some ==> r->0@ == decode_utf8(bytes@),
{
    String::from_utf8(bytes).ok()
}

/// `String::from_utf8_lossy`: the text when the bytes are UTF-8; otherwise a
/// text with U+FFFD in place of what is not, which depends on the bytes alone.
#[verifier::external_body]
pub(crate) fn utf8_lossy(bytes: &[u8]) -> (r: String)
    ensures
        valid_utf8(bytes@) ==> r@ == decode_utf8(bytes@),
        !valid_utf8(bytes@) ==> r@ == repaired(bytes@),
{
    String::from_utf8_lossy(bytes).into_owned()
}

// ---------------------------------------------------------------------------
// Facts
// ---------------------------------------------------------------------------

/// Where the first occurrence is: at the first index that holds `c`.
pub proof fn lemma_first_index(s: Seq<char>, c: char)
    ensures
        match first_index(s, c) {
            Some(i) => 0 <= i < s.len() && s[i] == c && forall|j: int|
                0 <= j < i ==> s[j] != c,
            None => forall|j: int| 0 <= j < s.len() ==> s[j] != c,
        },
    decreases s.len(),
{
    if s.len() > 0 && s[0] != c {
        let rest = s.drop_first();
        lemma_first_index(rest, c);
        assert forall|j: int| 0 < j < s.len() implies s[j] == rest[j - 1] by {}
    }
}

/// Where the last occurrence is: at the last index that holds `c`.
pub proof fn lemma_last_index(s: Seq<char>, c: char)
    ensures
        match last_index(s, c) {
            Some(i) => 0 <= i < s.len() && s[i] == c && forall|j: int|
                i < j < s.len() ==> s[j] != c,
            None => forall|j: int| 0 <= j < s.len() ==> s[j] != c,
        },
    decreases s.len(),
{
    if s.len() > 0 && s.last() != c {
        let rest = s.drop_last();
        lemma_last_index(rest, c);
        assert forall|j: int| 0 <= j < s.len() - 1 implies s[j] == rest[j] by {}
    }
}

/// What is left of a text does not end with what was taken off its end.
pub proof fn lemma_without_trailing(s: Seq<char>, c: char)
    ensures
        without_trailing(s, c).len() > 0 ==> without_trailing(s, c).last() != c,
    decreases s.len(),
{
    if s.len() > 0 && s.last() == c {
        lemma_without_trailing(s.drop_last(), c);
    }
}

/// A text is cut where `c` first stands.
pub proof fn lemma_cut_first(head: Seq<char>, c: char, tail: Seq<char>)
    requires
        forall|j: int| 0 <= j < head.len() ==> head[j] != c,
    ensures
        cut_first(head + seq![c] + tail, c) == Some((head, tail)),
{
    let s = head + seq![c] + tail;
    lemma_first_index(s, c);
    assert(s[head.len() as int] == c);
    assert forall|j: int| 0 <= j < head.len() implies s[j] != c by {
        assert(s[j] == head[j]);
    }
    assert(first_index(s, c) == Some(head.len() as int));
    assert(s.take(head.len() as int) =~= head);
    assert(s.skip(head.len() as int + 1) =~= tail);
}

/// A text is cut where `c` last stands.
pub proof fn lemma_cut_last(head: Seq<char>, c: char, tail: Seq<char>)
    requires
        forall|j: int| 0 <= j < tail.len() ==> tail[j] != c,
    ensures
        cut_last(head + seq![c] + tail, c) == Some((head, tail)),
{
    let s = head + seq![c] + tail;
    let n = head.len() as int;
    lemma_last_index(s, c);
    assert(s[n] == c);
    assert forall|j: int| n < j < s.len() implies s[j] != c by {
        assert(s[j] == tail[j - n - 1]);
    }
    assert(last_index(s, c) == Some(n));
    assert(s.take(n) =~= head);
    assert(s.skip(n + 1) =~= tail);
}

/// Where `c` does not stand, nothing is cut.
pub proof fn lemma_uncut(s: Seq<char>, c: char)
    requires
        forall|j: int| 0 <= j < s.len() ==> s[j] != c,
    ensures
        cut_last(s, c) is None,
        cut_first(s, c) is None,
{
    lemma_last_index(s, c);
    lemma_first_index(s, c);
}

/// Nothing is trimmed off a text that neither begins nor ends with whitespace.
pub proof fn lemma_trimmed(s: Seq<char>)
    requires
        s.len() > 0,
        !whitespace(s[0]),
        !whitespace(s.last()),
    ensures
        trimmed(s) == s,
{
}

/// A text does not occur where its first character does not.
pub proof fn lemma_no_occurrence(s: Seq<char>, needle: Seq<char>)
    requires
        needle.len() > 0,
        forall|j: int| 0 <= j < s.len() ==> s[j] != needle[0],
    ensures
        first_occurrence(s, needle) is None,
    decreases s.len(),
{
    if has_prefix(s, needle) {
        assert(s.take(needle.len() as int)[0] == s[0]);
    }
    if s.len() > 0 {
        assert forall|j: int| 0 <= j < s.drop_first().len() implies s.drop_first()[j]
            != needle[0] by {
            assert(s.drop_first()[j] == s[j + 1]);
        }
        lemma_no_occurrence(s.drop_first(), needle);
    }
}

/// What a text holds behind characters that are not its first is found where it
/// is.
pub proof fn lemma_occurrence_behind(head: Seq<char>, needle: Seq<char>, tail: Seq<char>)
    requires
        needle.len() > 0,
        forall|j: int| 0 <= j < head.len() ==> head[j] != needle[0],
    ensures
        first_occurrence(head + tail, needle) == match first_occurrence(tail, needle) {
            Some(i) => Some(head.len() + i),
            None => None,
        },
    decreases head.len(),
{
    let s = head + tail;
    if head.len() == 0 {
        assert(s =~= tail);
    } else {
        assert(s[0] == head[0]);
        if has_prefix(s, needle) {
            assert(s.take(needle.len() as int)[0] == s[0]);
        }
        let rest = head.drop_first();
        assert(s.drop_first() =~= rest + tail);
        assert forall|j: int| 0 <= j < rest.len() implies rest[j] != needle[0] by {
            assert(rest[j] == head[j + 1]);
        }
        lemma_occurrence_behind(rest, needle, tail);
    }
}

/// A text first occurs behind a text that does not hold its first character.
pub proof fn lemma_first_occurrence(head: Seq<char>, needle: Seq<char>, tail: Seq<char>)
    requires
        needle.len() > 0,
        forall|j: int| 0 <= j < head.len() ==> head[j] != needle[0],
    ensures
        first_occurrence(head + needle + tail, needle) == Some(head.len() as int),
{
    assert((needle + tail).take(needle.len() as int) =~= needle);
    assert(head + needle + tail =~= head + (needle + tail));
    lemma_occurrence_behind(head, needle, needle + tail);
}

/// Two pieces, where `c` stands once.
pub proof fn lemma_two_pieces(head: Seq<char>, c: char, tail: Seq<char>)
    requires
        forall|j: int| 0 <= j < head.len() ==> head[j] != c,
        forall|j: int| 0 <= j < tail.len() ==> tail[j] != c,
    ensures
        pieces(head + seq![c] + tail, c) == seq![head, tail],
{
    let s = head + seq![c] + tail;
    lemma_cut_first(head, c, tail);
    lemma_first_index(s, c);
    lemma_first_index(tail, c);
    assert(pieces(tail, c) == seq![tail]);
    assert(seq![head] + seq![tail] =~= seq![head, tail]);
}

// ---------------------------------------------------------------------------
// Functions
// ---------------------------------------------------------------------------

/// Whether two texts are the same.
pub fn same(a: &str, b: &str) -> (r: bool)
    ensures
        r == (a@ == b@),
{
    let x = a.as_bytes();
    let y = b.as_bytes();
    proof {
        encode_utf8_decode_utf8(a@);
        encode_utf8_decode_utf8(b@);
    }
    if x.len() != y.len() {
        return false;
    }
    let mut i: usize = 0;
    while i < x.len()
        invariant
            i <= x.len(),
            x.len() == y.len(),
            x@ == a.spec_bytes(),
            y@ == b.spec_bytes(),
            forall|j: int| 0 <= j < i ==> x@[j] == y@[j],
        decreases x.len() - i,
    {
        if x[i] != y[i] {
            return false;
        }
        i = i + 1;
    }
    assert(x@ =~= y@);
    true
}

/// The characters of a text.
pub fn chars(s: &str) -> (r: Vec<char>)
    ensures
        r@ == s@,
{
    let mut v: Vec<char> = Vec::new();
    for c in it: s.chars()
        invariant
            v@ == s@.take(it.index()),
            it.seq() == s@,
    {
        v.push(c);
    }
    v
}

/// Whether a character is whitespace.
pub fn is_whitespace(c: char) -> (r: bool)
    ensures
        r == whitespace(c),
{
    ('\u{9}' <= c && c <= '\u{d}') || c == '\u{20}' || c == '\u{85}' || c == '\u{a0}' || c
        == '\u{1680}' || ('\u{2000}' <= c && c <= '\u{200a}') || c == '\u{2028}' || c == '\u{2029}'
        || c == '\u{202f}' || c == '\u{205f}' || c == '\u{3000}'
}

/// A text without the whitespace around it.
pub fn trim(s: &str) -> (r: &str)
    ensures
        r@ == trimmed(s@),
{
    let v = chars(s);
    let n = v.len();
    let mut start: usize = 0;
    assert(s@.skip(0) =~= s@);
    while start < n && is_whitespace(v[start])
        invariant
            start <= n,
            n == v@.len(),
            v@ == s@,
            trimmed_start(s@) == trimmed_start(s@.skip(start as int)),
        decreases n - start,
    {
        assert(s@.skip(start as int).drop_first() =~= s@.skip(start + 1));
        start = start + 1;
    }
    let mut end: usize = n;
    assert(s@.subrange(start as int, end as int) =~= s@.skip(start as int));
    while start < end && is_whitespace(v[end - 1])
        invariant
            start <= end <= n,
            n == v@.len(),
            v@ == s@,
            trimmed(s@) == trimmed_end(s@.subrange(start as int, end as int)),
        decreases end,
    {
        assert(s@.subrange(start as int, end as int).drop_last() =~= s@.subrange(
            start as int,
            end - 1,
        ));
        end = end - 1;
    }
    s.substring_char(start, end)
}

/// A text without the run of `c` it ends with.
pub fn trim_end_of(s: &str, c: char) -> (r: &str)
    ensures
        r@ == without_trailing(s@, c),
{
    let v = chars(s);
    let mut end: usize = v.len();
    assert(s@.take(end as int) =~= s@);
    while end > 0 && v[end - 1] == c
        invariant
            end <= v@.len(),
            v@ == s@,
            without_trailing(s@, c) == without_trailing(s@.take(end as int), c),
        decreases end,
    {
        assert(s@.take(end as int).drop_last() =~= s@.take(end - 1));
        end = end - 1;
    }
    assert(s@.take(end as int) =~= s@.subrange(0, end as int));
    s.substring_char(0, end)
}

/// Whether a text begins with `prefix`.
pub fn starts_with(s: &str, prefix: &str) -> (r: bool)
    ensures
        r == has_prefix(s@, prefix@),
{
    let n = s.unicode_len();
    let m = prefix.unicode_len();
    if m > n {
        return false;
    }
    assert(s@.take(m as int) =~= s@.subrange(0, m as int));
    same(s.substring_char(0, m), prefix)
}

/// What stands before `suffix`, when the text ends with it.
pub fn strip_suffix<'a>(s: &'a str, suffix: &str) -> (r: Option<&'a str>)
    ensures
        r is Some <==> has_suffix(s@, suffix@),
        r is Some ==> r->0@ == s@.take(s@.len() - suffix@.len()),
{
    let n = s.unicode_len();
    let m = suffix.unicode_len();
    if m > n {
        return None;
    }
    assert(s@.skip(n - m) =~= s@.subrange(n - m, n as int));
    assert(s@.take(n - m) =~= s@.subrange(0, n - m));
    if same(s.substring_char(n - m, n), suffix) {
        Some(s.substring_char(0, n - m))
    } else {
        None
    }
}

/// Whether `c` occurs in a text.
pub fn has_char(s: &str, c: char) -> (r: bool)
    ensures
        r == s@.contains(c),
{
    let v = chars(s);
    let mut i: usize = 0;
    while i < v.len()
        invariant
            i <= v@.len(),
            v@ == s@,
            forall|j: int| 0 <= j < i ==> s@[j] != c,
        decreases v@.len() - i,
    {
        if v[i] == c {
            assert(s@[i as int] == c);
            return true;
        }
        i = i + 1;
    }
    false
}

/// What stands before and after the first `c`.
pub fn split_once(s: &str, c: char) -> (r: Option<(&str, &str)>)
    ensures
        match r {
            Some((head, tail)) => cut_first(s@, c) == Some((head@, tail@)),
            None => cut_first(s@, c) is None,
        },
{
    let v = chars(s);
    let mut i: usize = 0;
    while i < v.len()
        invariant
            i <= v@.len(),
            v@ == s@,
            forall|j: int| 0 <= j < i ==> s@[j] != c,
        decreases v@.len() - i,
    {
        if v[i] == c {
            proof {
                lemma_first_index(s@, c);
            }
            assert(s@.take(i as int) =~= s@.subrange(0, i as int));
            assert(s@.skip(i + 1) =~= s@.subrange(i + 1, v@.len() as int));
            return Some((s.substring_char(0, i), s.substring_char(i + 1, v.len())));
        }
        i = i + 1;
    }
    proof {
        lemma_first_index(s@, c);
    }
    None
}

/// What stands before and after the last `c`.
pub fn rsplit_once(s: &str, c: char) -> (r: Option<(&str, &str)>)
    ensures
        match r {
            Some((head, tail)) => cut_last(s@, c) == Some((head@, tail@)),
            None => cut_last(s@, c) is None,
        },
{
    let v = chars(s);
    let mut i: usize = v.len();
    while i > 0
        invariant
            i <= v@.len(),
            v@ == s@,
            forall|j: int| i <= j < v@.len() ==> s@[j] != c,
        decreases i,
    {
        i = i - 1;
        if v[i] == c {
            proof {
                lemma_last_index(s@, c);
            }
            assert(s@.take(i as int) =~= s@.subrange(0, i as int));
            assert(s@.skip(i + 1) =~= s@.subrange(i + 1, v@.len() as int));
            return Some((s.substring_char(0, i), s.substring_char(i + 1, v.len())));
        }
    }
    proof {
        lemma_last_index(s@, c);
    }
    None
}

/// The pieces of a text between the `c`s.
pub fn split(s: &str, c: char) -> (r: Vec<String>)
    ensures
        texts(r@) == pieces(s@, c),
{
    let v = chars(s);
    let mut out: Vec<String> = Vec::new();
    let mut start: usize = 0;
    let mut i: usize = 0;
    assert(s@.skip(0) =~= s@);
    assert(texts(out@) + pieces(s@.skip(0), c) =~= pieces(s@, c));
    while i < v.len()
        invariant
            start <= i <= v@.len(),
            v@ == s@,
            forall|j: int| start <= j < i ==> s@[j] != c,
            texts(out@) + pieces(s@.skip(start as int), c) == pieces(s@, c),
        decreases v@.len() - i,
    {
        if v[i] == c {
            let piece = s.substring_char(start, i);
            let ghost rest = s@.skip(start as int);
            let ghost before = out@;
            proof {
                lemma_first_index(rest, c);
                assert(rest[i - start] == c);
                assert forall|j: int| 0 <= j < i - start implies rest[j] != c by {}
                assert(first_index(rest, c) == Some(i - start));
                assert(rest.take(i - start) =~= s@.subrange(start as int, i as int));
                assert(rest.skip(i - start + 1) =~= s@.skip(i + 1));
            }
            out.push(piece.to_owned());
            assert(texts(out@) =~= texts(before).push(piece@));
            assert(texts(out@) + pieces(s@.skip(i + 1), c) =~= texts(before) + (seq![piece@]
                + pieces(s@.skip(i + 1), c)));
            start = i + 1;
        }
        i = i + 1;
    }
    let piece = s.substring_char(start, v.len());
    let ghost rest = s@.skip(start as int);
    let ghost before = out@;
    proof {
        lemma_first_index(rest, c);
        assert forall|j: int| 0 <= j < rest.len() implies rest[j] != c by {}
        assert(rest =~= s@.subrange(start as int, v@.len() as int));
    }
    out.push(piece.to_owned());
    assert(texts(out@) =~= texts(before) + seq![piece@]);
    out
}

/// Texts, with `separator` between each two.
pub fn join(parts: &Vec<String>, separator: &str) -> (r: String)
    ensures
        r@ == joined(texts(parts@), separator@),
{
    let mut out: String = String::new();
    let mut i: usize = 0;
    while i < parts.len()
        invariant
            i <= parts@.len(),
            out@ == joined(texts(parts@).take(i as int), separator@),
        decreases parts@.len() - i,
    {
        let ghost upto = texts(parts@).take(i + 1);
        assert(upto.drop_last() =~= texts(parts@).take(i as int));
        assert(upto.last() == parts@[i as int]@);
        if i > 0 {
            out.append(separator);
        }
        out.append(parts[i].as_str());
        assert(i == 0 ==> out@ =~= upto[0]);
        i = i + 1;
    }
    assert(texts(parts@).take(i as int) =~= texts(parts@));
    out
}

/// Where `needle` first occurs in a text, counted in characters.
pub fn find(s: &str, needle: &str) -> (r: Option<usize>)
    ensures
        match r {
            Some(i) => first_occurrence(s@, needle@) == Some(i as int) && i + needle@.len()
                <= s@.len(),
            None => first_occurrence(s@, needle@) is None,
        },
{
    let n = s.unicode_len();
    let mut i: usize = 0;
    assert(s@.skip(0) =~= s@);
    loop
        invariant
            i <= n,
            n == s@.len(),
            match first_occurrence(s@.skip(i as int), needle@) {
                Some(k) => first_occurrence(s@, needle@) == Some(k + i),
                None => first_occurrence(s@, needle@) is None,
            },
        decreases n - i,
    {
        let rest = s.substring_char(i, n);
        assert(rest@ =~= s@.skip(i as int));
        if starts_with(rest, needle) {
            return Some(i);
        }
        if i == n {
            return None;
        }
        assert(rest@.drop_first() =~= s@.skip(i + 1));
        i = i + 1;
    }
}

/// A text with the first occurrence of `from` replaced by `to`.
pub fn replace_first(s: &str, from: &str, to: &str) -> (r: String)
    ensures
        r@ == replaced_first(s@, from@, to@),
{
    match find(s, from) {
        Some(i) => {
            let n = s.unicode_len();
            let m = from.unicode_len();
            assert(s@.take(i as int) =~= s@.subrange(0, i as int));
            assert(s@.skip(i + m) =~= s@.subrange(i + m, n as int));
            let mut out: String = s.substring_char(0, i).to_owned();
            out.append(to);
            out.append(s.substring_char(i + m, n));
            out
        },
        None => s.to_owned(),
    }
}

/// What stands behind the last `needle`; the text itself when there is none.
pub fn behind_last<'a>(s: &'a str, needle: &str) -> (r: &'a str)
    requires
        needle@.len() > 0,
    ensures
        r@ == after_last(s@, needle@),
{
    let n = s.unicode_len();
    let m = needle.unicode_len();
    let mut start: usize = 0;
    assert(s@.skip(0) =~= s@);
    loop
        invariant
            start <= n,
            n == s@.len(),
            m == needle@.len(),
            m > 0,
            after_last(s@.skip(start as int), needle@) == after_last(s@, needle@),
        decreases n - start,
    {
        let rest = s.substring_char(start, n);
        assert(rest@ =~= s@.skip(start as int));
        match find(rest, needle) {
            Some(i) => {
                assert(rest@.skip(i + m) =~= s@.skip(start + i + m));
                start = start + i + m;
            },
            None => {
                return rest;
            },
        }
    }
}

/// A number in decimal.
pub fn number(n: u64) -> (r: String)
    ensures
        r@ == decimal(n as nat),
    decreases n,
{
    let d: u8 = (n % 10) as u8;
    let c: char = (48u8 + d) as char;
    if n < 10 {
        let mut out: String = String::new();
        out.push(c);
        assert(out@ =~= seq![c]);
        out
    } else {
        let mut out = number(n / 10);
        out.push(c);
        out
    }
}

// ---------------------------------------------------------------------------
// What the vocabulary amounts to
// ---------------------------------------------------------------------------

/// Nothing but whitespace is in a text.
pub open spec fn blank(s: Seq<char>) -> bool {
    forall|i: int| 0 <= i < s.len() ==> whitespace(#[trigger] s[i])
}

proof fn lemma_trimmed_start_off(before: Seq<char>, s: Seq<char>)
    requires
        blank(before),
    ensures
        trimmed_start(before + s) == trimmed_start(s),
    decreases before.len(),
{
    if before.len() == 0 {
        assert(before + s =~= s);
    } else {
        assert((before + s)[0] == before[0]);
        assert((before + s).drop_first() =~= before.drop_first() + s);
        assert(blank(before.drop_first())) by {
            assert forall|i: int| 0 <= i < before.drop_first().len() implies whitespace(
                #[trigger] before.drop_first()[i],
            ) by {
                assert(whitespace(before[i + 1]));
            }
        }
        lemma_trimmed_start_off(before.drop_first(), s);
    }
}

proof fn lemma_trimmed_end_off(s: Seq<char>, after: Seq<char>)
    requires
        blank(after),
    ensures
        trimmed_end(s + after) == trimmed_end(s),
    decreases after.len(),
{
    if after.len() == 0 {
        assert(s + after =~= s);
    } else {
        assert((s + after).last() == after[after.len() - 1]);
        assert((s + after).drop_last() =~= s + after.drop_last());
        assert(blank(after.drop_last())) by {
            assert forall|i: int| 0 <= i < after.drop_last().len() implies whitespace(
                #[trigger] after.drop_last()[i],
            ) by {
                assert(whitespace(after[i]));
            }
        }
        lemma_trimmed_end_off(s, after.drop_last());
    }
}

/// Trimming takes off exactly the whitespace around a text.
pub proof fn whitespace_around_a_text_is_trimmed(
    before: Seq<char>,
    s: Seq<char>,
    after: Seq<char>,
)
    requires
        blank(before),
        blank(after),
        s.len() > 0,
        !whitespace(s[0]),
        !whitespace(s.last()),
    ensures
        trimmed(before + s + after) == s,
{
    assert(before + s + after =~= before + (s + after));
    lemma_trimmed_start_off(before, s + after);
    assert((s + after)[0] == s[0]);
    assert(trimmed_start(s + after) == s + after);
    lemma_trimmed_end_off(s, after);
}

/// Nothing is left of a text that is blank.
pub proof fn a_blank_text_is_trimmed_away(s: Seq<char>)
    requires
        blank(s),
    ensures
        trimmed(s).len() == 0,
{
    assert(s + Seq::<char>::empty() =~= s);
    lemma_trimmed_start_off(s, Seq::empty());
}

proof fn lemma_first_part(parts: Seq<Seq<char>>, separator: Seq<char>)
    requires
        parts.len() > 1,
    ensures
        joined(parts, separator) == parts[0] + separator + joined(parts.drop_first(), separator),
    decreases parts.len(),
{
    let front = parts.drop_last();
    let rest = parts.drop_first();
    if parts.len() == 2 {
        assert(front =~= seq![parts[0]]);
        assert(rest =~= seq![parts[1]]);
        assert(joined(front, separator) == parts[0]);
        assert(joined(rest, separator) == parts[1]);
    } else {
        lemma_first_part(front, separator);
        assert(front.drop_first() =~= rest.drop_last());
        assert(rest.last() == parts.last());
        let middle = joined(front.drop_first(), separator);
        assert(joined(rest, separator) == middle + separator + parts.last());
        assert(parts[0] + separator + middle + separator + parts.last() =~= parts[0] + separator
            + (middle + separator + parts.last()));
    }
}

/// Texts that were put together with a character between them are found again
/// where that character is cut at, when none of them holds it.
pub proof fn what_was_joined_is_cut_again(parts: Seq<Seq<char>>, c: char)
    requires
        parts.len() > 0,
        forall|i: int, j: int|
            #![trigger parts[i][j]]
            0 <= i < parts.len() && 0 <= j < parts[i].len() ==> parts[i][j] != c,
    ensures
        pieces(joined(parts, seq![c]), c) == parts,
    decreases parts.len(),
{
    let whole = joined(parts, seq![c]);
    let head = parts[0];
    if parts.len() == 1 {
        lemma_first_index(whole, c);
        assert(pieces(whole, c) =~= parts);
    } else {
        let rest = parts.drop_first();
        lemma_first_part(parts, seq![c]);
        assert forall|i: int, j: int|
            #![trigger rest[i][j]]
            0 <= i < rest.len() && 0 <= j < rest[i].len() implies rest[i][j] != c by {
            assert(rest[i] == parts[i + 1]);
            assert(parts[i + 1][j] != c);
        }
        what_was_joined_is_cut_again(rest, c);
        let tail = joined(rest, seq![c]);
        assert forall|j: int| 0 <= j < head.len() implies head[j] != c by {
            assert(parts[0][j] != c);
        }
        lemma_cut_first(head, c, tail);
        lemma_first_index(whole, c);
        assert(pieces(whole, c) == seq![head] + pieces(tail, c));
        assert(seq![head] + rest =~= parts);
    }
}

/// The pieces of two texts with the character between them that is cut at.
pub proof fn lemma_pieces_apart(a: Seq<char>, c: char, b: Seq<char>)
    ensures
        pieces(a + seq![c] + b, c) == pieces(a, c) + pieces(b, c),
    decreases a.len(),
{
    let s = a + seq![c] + b;
    lemma_first_index(s, c);
    lemma_first_index(a, c);
    assert(s[a.len() as int] == c);
    match first_index(a, c) {
        Some(i) => {
            assert forall|j: int| 0 <= j < i implies s[j] != c by {
                assert(s[j] == a[j]);
            }
            assert(s[i] == a[i]);
            assert(first_index(s, c) == Some(i));
            let rest = a.skip(i + 1);
            assert(s.take(i) =~= a.take(i));
            assert(s.skip(i + 1) =~= rest + seq![c] + b);
            lemma_pieces_apart(rest, c, b);
            assert(seq![a.take(i)] + (pieces(rest, c) + pieces(b, c)) =~= seq![a.take(i)] + pieces(
                rest,
                c,
            ) + pieces(b, c));
        },
        None => {
            assert forall|j: int| 0 <= j < a.len() implies s[j] != c by {
                assert(s[j] == a[j]);
            }
            assert(first_index(s, c) == Some(a.len() as int));
            assert(s.take(a.len() as int) =~= a);
            assert(s.skip(a.len() as int + 1) =~= b);
        },
    }
}

/// The number that decimal digits stand for.
pub open spec fn number_read(s: Seq<char>) -> int
    decreases s.len(),
{
    if s.len() == 0 {
        0
    } else {
        10 * number_read(s.drop_last()) + (s.last() as int - '0' as int)
    }
}

/// Whoever reads a number that was written finds the number.
pub proof fn a_number_is_read_back(n: nat)
    ensures
        number_read(decimal(n)) == n,
        decimal(n).len() > 0,
        forall|i: int| 0 <= i < decimal(n).len() ==> '0' <= #[trigger] decimal(n)[i] <= '9',
    decreases n,
{
    let s = decimal(n);
    if n < 10 {
        assert(s.drop_last() =~= Seq::empty());
        assert(s.last() == digit(n));
        assert(number_read(s.drop_last()) == 0);
    } else {
        a_number_is_read_back(n / 10);
        assert(s.drop_last() =~= decimal(n / 10));
        assert(s.last() == digit(n % 10));
        assert forall|i: int| 0 <= i < s.len() implies '0' <= #[trigger] s[i] <= '9' by {
            if i < s.len() - 1 {
                assert(s[i] == decimal(n / 10)[i]);
            }
        }
    }
}

/// `part` stands somewhere in `whole`.
pub open spec fn stands_in(part: Seq<char>, whole: Seq<char>) -> bool {
    exists|i: int|
        0 <= i && i + part.len() <= whole.len() && #[trigger] whole.subrange(i, i + part.len())
            == part
}

/// What stands between two texts stands in the whole of them.
pub proof fn lemma_stands_in(before: Seq<char>, part: Seq<char>, after: Seq<char>)
    ensures
        stands_in(part, before + part + after),
{
    let whole = before + part + after;
    let i = before.len() as int;
    assert(whole.subrange(i, i + part.len()) =~= part);
}

/// What stands in a text stands in every text that holds that text.
pub proof fn lemma_stands_in_more(
    part: Seq<char>,
    inner: Seq<char>,
    before: Seq<char>,
    after: Seq<char>,
)
    requires
        stands_in(part, inner),
    ensures
        stands_in(part, before + inner + after),
{
    let whole = before + inner + after;
    let i = choose|i: int|
        0 <= i && i + part.len() <= inner.len() && #[trigger] inner.subrange(i, i + part.len())
            == part;
    let j = before.len() + i;
    assert(whole.subrange(j, j + part.len()) =~= inner.subrange(i, i + part.len()));
}

/// Each of the texts that were put together stands in the whole.
pub proof fn what_was_joined_stands_in_the_whole(
    parts: Seq<Seq<char>>,
    separator: Seq<char>,
    i: int,
)
    requires
        0 <= i < parts.len(),
    ensures
        stands_in(parts[i], joined(parts, separator)),
    decreases parts.len(),
{
    let nothing = Seq::<char>::empty();
    if parts.len() == 1 {
        lemma_stands_in(nothing, parts[0], nothing);
        assert(nothing + parts[0] + nothing =~= parts[0]);
    } else {
        let front = joined(parts.drop_last(), separator);
        if i == parts.len() - 1 {
            lemma_stands_in(front + separator, parts[i], nothing);
            assert(front + separator + parts[i] + nothing =~= joined(parts, separator));
        } else {
            what_was_joined_stands_in_the_whole(parts.drop_last(), separator, i);
            assert(parts.drop_last()[i] == parts[i]);
            lemma_stands_in_more(parts[i], front, nothing, separator + parts.last());
            assert(nothing + front + (separator + parts.last()) =~= joined(parts, separator));
        }
    }
}

/// Only a blank text is trimmed away.
pub proof fn only_a_blank_text_is_trimmed_away(s: Seq<char>)
    requires
        trimmed(s).len() == 0,
    ensures
        blank(s),
{
    let rest = trimmed_start(s);
    lemma_blank_end(rest);
    lemma_blank_start(s);
}

proof fn lemma_blank_end(s: Seq<char>)
    requires
        trimmed_end(s).len() == 0,
    ensures
        blank(s),
    decreases s.len(),
{
    if s.len() > 0 {
        let rest = s.drop_last();
        lemma_blank_end(rest);
        assert forall|i: int| 0 <= i < s.len() implies whitespace(#[trigger] s[i]) by {
            if i < s.len() - 1 {
                assert(rest[i] == s[i]);
            }
        }
    }
}

proof fn lemma_blank_start(s: Seq<char>)
    requires
        blank(trimmed_start(s)),
    ensures
        blank(s),
    decreases s.len(),
{
    if s.len() > 0 && whitespace(s[0]) {
        let rest = s.drop_first();
        lemma_blank_start(rest);
        assert forall|i: int| 0 <= i < s.len() implies whitespace(#[trigger] s[i]) by {
            if i > 0 {
                assert(rest[i - 1] == s[i]);
            }
        }
    }
}

/// Of the characters on a keyboard a space, a tab and what ends a line or a page
/// are whitespace; beyond them it is the spaces and separators of Unicode, and
/// what a text is trimmed of is nothing else.
pub proof fn whitespace_is_what_cannot_be_seen(c: char, r: bool)
    requires
        call_ensures(is_whitespace, (c,), r),
    ensures
        c < '\u{80}' ==> (r <==> c == ' ' || c == '\t' || c == '\n' || c == '\r' || c == '\u{b}' || c
            == '\u{c}'),
        c >= '\u{80}' && r ==> c == '\u{85}' || c == '\u{a0}' || c == '\u{1680}' || ('\u{2000}' <= c
            <= '\u{200a}') || c == '\u{2028}' || c == '\u{2029}' || c == '\u{202f}' || c
            == '\u{205f}' || c == '\u{3000}',
        c == '\u{85}' || c == '\u{a0}' || c == '\u{1680}' || ('\u{2000}' <= c <= '\u{200a}') || c
            == '\u{2028}' || c == '\u{2029}' || c == '\u{202f}' || c == '\u{205f}' || c
            == '\u{3000}' ==> r,
{
}

/// A number is written in digits alone, and without a zero in front.
pub proof fn a_number_is_written_without_zeros_in_front(n: nat)
    ensures
        decimal(n).len() > 0,
        forall|i: int| 0 <= i < decimal(n).len() ==> '0' <= #[trigger] decimal(n)[i] <= '9',
        n > 0 ==> decimal(n)[0] != '0',
        n == 0 ==> decimal(n).len() == 1,
    decreases n,
{
    if n >= 10 {
        a_number_is_written_without_zeros_in_front(n / 10);
        let front = decimal(n / 10);
        assert forall|i: int| 0 <= i < decimal(n).len() implies '0' <= #[trigger] decimal(n)[i]
            <= '9' by {
            if i < front.len() {
                assert(decimal(n)[i] == front[i]);
            }
        }
        assert(decimal(n)[0] == front[0]);
    }
}

/// Texts that are joined begin with the first of them and end with the last, and
/// between these and the others there is the separator.
pub proof fn a_joined_text_begins_and_ends_with_its_parts(a: &Vec<String>, separator: &str, r: String)
    requires
        call_ensures(join, (a, separator), r),
    ensures
        a@.len() == 0 ==> r@.len() == 0,
        a@.len() == 1 ==> r@ == a@[0]@,
        a@.len() > 1 ==> has_prefix(r@, a@[0]@ + separator@) && has_suffix(
            r@,
            separator@ + a@[a@.len() - 1]@,
        ),
{
    let parts = texts(a@);
    assert(parts.len() == a@.len());
    if a@.len() > 0 {
        assert(parts[0] == a@[0]@);
        assert(parts.last() == a@[a@.len() - 1]@);
        lemma_joined_ends(parts, separator@);
    }
}

proof fn lemma_joined_ends(parts: Seq<Seq<char>>, separator: Seq<char>)
    requires
        parts.len() > 0,
    ensures
        parts.len() == 1 ==> joined(parts, separator) == parts[0],
        parts.len() > 1 ==> has_prefix(joined(parts, separator), parts[0] + separator)
            && has_suffix(joined(parts, separator), separator + parts.last()),
    decreases parts.len(),
{
    let whole = joined(parts, separator);
    if parts.len() > 1 {
        let rest = parts.drop_last();
        lemma_joined_ends(rest, separator);
        let end = separator + parts.last();
        let front = joined(rest, separator);
        assert(whole =~= front + end);
        assert(whole.skip(whole.len() - end.len()) =~= end);
        let start = parts[0] + separator;
        if rest.len() == 1 {
            assert(whole.take(start.len() as int) =~= start);
        } else {
            assert(front.take(start.len() as int) == start);
            assert(whole.take(start.len() as int) =~= front.take(start.len() as int));
        }
    }
}

} // verus!
