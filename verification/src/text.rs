//! Text as sequences of characters: searching, splitting, trimming, and
//! numbers written in digits.

use vstd::prelude::*;
use vstd::string::*;

verus! {

/// `String::push` appends one character.
pub assume_specification[ String::push ](s: &mut String, c: char)
    ensures
        final(s)@ == old(s)@.push(c),
;

/// The characters of each text in a list.
pub open spec fn texts(v: Seq<String>) -> Seq<Seq<char>> {
    Seq::new(v.len(), |i: int| v[i]@)
}

/// The characters of a text, in order.
pub fn chars_of(s: &str) -> (r: Vec<char>)
    ensures
        r@ == s@,
{
    broadcast use vstd::string::axiom_spec_iter;

    let mut out: Vec<char> = Vec::new();
    for c in it: s.chars()
        invariant
            it.seq() == s@,
            out@ == s@.take(it.index() as int),
    {
        out.push(c);
        assert(s@.take(it.index() + 1) =~= s@.take(it.index() as int).push(s@[it.index() as int]));
    }
    assert(s@.take(s@.len() as int) =~= s@);
    out
}

/// The text made of the characters `chars[from..to]`.
pub fn text_of(chars: &Vec<char>, from: usize, to: usize) -> (r: String)
    requires
        from <= to <= chars@.len(),
    ensures
        r@ == chars@.subrange(from as int, to as int),
{
    let mut out = String::new();
    let mut i: usize = from;
    while i < to
        invariant
            from <= i <= to <= chars@.len(),
            out@ == chars@.subrange(from as int, i as int),
        decreases to - i,
    {
        out.push(chars[i]);
        i += 1;
        assert(chars@.subrange(from as int, i as int) =~= chars@.subrange(
            from as int,
            i - 1,
        ).push(chars@[i - 1]));
    }
    out
}

/// Whether two texts hold the same characters.
pub fn same(a: &str, b: &str) -> (r: bool)
    ensures
        r == (a@ == b@),
{
    let x = a.as_bytes();
    let y = b.as_bytes();
    proof {
        vstd::utf8::encode_utf8_decode_utf8(a@);
        vstd::utf8::encode_utf8_decode_utf8(b@);
    }
    if x.len() != y.len() {
        return false;
    }
    let mut i: usize = 0;
    while i < x.len()
        invariant
            i <= x@.len() == y@.len(),
            x@.take(i as int) == y@.take(i as int),
            x@ == vstd::utf8::encode_utf8(a@),
            y@ == vstd::utf8::encode_utf8(b@),
        decreases x.len() - i,
    {
        if x[i] != y[i] {
            assert(x@[i as int] != y@[i as int]);
            return false;
        }
        i += 1;
        assert(x@.take(i as int) =~= x@.take(i - 1).push(x@[i - 1]));
        assert(y@.take(i as int) =~= y@.take(i - 1).push(y@[i - 1]));
    }
    assert(x@.take(i as int) =~= x@);
    assert(y@.take(i as int) =~= y@);
    true
}

/// The first position at or after `from` that holds `c`, or the length of `s`.
pub open spec fn find_char(s: Seq<char>, c: char, from: int) -> int
    decreases s.len() - from,
{
    if from >= s.len() {
        s.len() as int
    } else if s[from] == c {
        from
    } else {
        find_char(s, c, from + 1)
    }
}

/// What stands at and before the position that [`find_char`] gives.
pub proof fn lemma_find_char(s: Seq<char>, c: char, from: int)
    requires
        0 <= from <= s.len(),
    ensures
        from <= find_char(s, c, from) <= s.len(),
        find_char(s, c, from) < s.len() ==> s[find_char(s, c, from)] == c,
        forall|k: int| from <= k < find_char(s, c, from) ==> s[k] != c,
    decreases s.len() - from,
{
    if from < s.len() && s[from] != c {
        lemma_find_char(s, c, from + 1);
    }
}

/// The position found by [`find_char`].
pub fn find_char_in(s: &Vec<char>, c: char, from: usize) -> (r: usize)
    requires
        from <= s@.len(),
    ensures
        r == find_char(s@, c, from as int),
        from <= r <= s@.len(),
        r < s@.len() ==> s@[r as int] == c,
        forall|k: int| from <= k < r ==> s@[k] != c,
{
    let mut i: usize = from;
    while i < s.len()
        invariant
            from <= i <= s@.len(),
            find_char(s@, c, from as int) == find_char(s@, c, i as int),
            forall|k: int| from <= k < i ==> s@[k] != c,
        decreases s@.len() - i,
    {
        if s[i] == c {
            return i;
        }
        i += 1;
    }
    i
}

/// The last position before `end` that holds `c`, or -1.
pub open spec fn rfind_char(s: Seq<char>, c: char, end: int) -> int
    decreases end,
{
    if end <= 0 {
        -1
    } else if s[end - 1] == c {
        end - 1
    } else {
        rfind_char(s, c, end - 1)
    }
}

/// The position found by [`rfind_char`] over the whole of `s`.
pub fn rfind_char_in(s: &Vec<char>, c: char) -> (r: Option<usize>)
    ensures
        match r {
            Some(i) => i < s@.len() && i == rfind_char(s@, c, s@.len() as int) && s@[i as int] == c
                && forall|k: int| i < k < s@.len() ==> s@[k] != c,
            None => rfind_char(s@, c, s@.len() as int) == -1 && forall|k: int|
                0 <= k < s@.len() ==> s@[k] != c,
        },
{
    let mut i: usize = s.len();
    while i > 0
        invariant
            i <= s@.len(),
            rfind_char(s@, c, s@.len() as int) == rfind_char(s@, c, i as int),
            forall|k: int| i <= k < s@.len() ==> s@[k] != c,
        decreases i,
    {
        if s[i - 1] == c {
            return Some(i - 1);
        }
        i -= 1;
    }
    None
}

/// Whether `needle` stands in `s` at position `at`.
pub open spec fn occurs_at<T>(s: Seq<T>, needle: Seq<T>, at: int) -> bool {
    0 <= at && at + needle.len() <= s.len() && s.subrange(at, at + needle.len()) == needle
}

/// Whether `needle` stands anywhere in `s`.
pub open spec fn contains_text(s: Seq<char>, needle: Seq<char>) -> bool {
    exists|at: int| occurs_at(s, needle, at)
}

/// Whether `needle` stands in `s` at `at`.
pub fn occurs_at_in(s: &Vec<char>, needle: &Vec<char>, at: usize) -> (r: bool)
    ensures
        r == occurs_at(s@, needle@, at as int),
{
    if at > s.len() || s.len() - at < needle.len() {
        return false;
    }
    let len = needle.len();
    let end = s.len();
    let mut i: usize = 0;
    while i < len
        invariant
            i <= len == needle@.len(),
            at + len <= end == s@.len(),
            forall|k: int| 0 <= k < i ==> s@[at + k] == needle@[k],
        decreases len - i,
    {
        if s[at + i] != needle[i] {
            assert(s@.subrange(at as int, at + needle@.len())[i as int] != needle@[i as int]);
            return false;
        }
        i += 1;
    }
    assert(s@.subrange(at as int, at + needle@.len()) =~= needle@);
    true
}

/// Whether `s` contains `needle`.
pub fn contains(s: &str, needle: &str) -> (r: bool)
    ensures
        r == contains_text(s@, needle@),
{
    let hay = chars_of(s);
    let pin = chars_of(needle);
    let end = hay.len();
    let mut at: usize = 0;
    loop
        invariant
            hay@ == s@,
            pin@ == needle@,
            at <= end == hay@.len(),
            forall|k: int| 0 <= k < at ==> !occurs_at(s@, needle@, k),
        decreases end - at,
    {
        if occurs_at_in(&hay, &pin, at) {
            assert(occurs_at(s@, needle@, at as int));
            return true;
        }
        if at == end {
            return false;
        }
        at += 1;
    }
}

/// Whether `s` begins with `prefix`.
pub open spec fn has_prefix(s: Seq<char>, prefix: Seq<char>) -> bool {
    occurs_at(s, prefix, 0)
}

/// Whether `s` ends with `suffix`.
pub open spec fn has_suffix(s: Seq<char>, suffix: Seq<char>) -> bool {
    occurs_at(s, suffix, s.len() - suffix.len())
}

/// Whether `s` begins with `prefix`.
pub fn starts_with(s: &str, prefix: &str) -> (r: bool)
    ensures
        r == has_prefix(s@, prefix@),
{
    let a = chars_of(s);
    let b = chars_of(prefix);
    occurs_at_in(&a, &b, 0)
}

/// Whether `s` ends with `suffix`.
pub fn ends_with(s: &str, suffix: &str) -> (r: bool)
    ensures
        r == has_suffix(s@, suffix@),
{
    let a = chars_of(s);
    let b = chars_of(suffix);
    if b.len() > a.len() {
        return false;
    }
    occurs_at_in(&a, &b, a.len() - b.len())
}

/// What follows `prefix` at the start of `s`, if it stands there.
pub open spec fn after_prefix(s: Seq<char>, prefix: Seq<char>) -> Option<Seq<char>> {
    if has_prefix(s, prefix) {
        Some(s.skip(prefix.len() as int))
    } else {
        None
    }
}

/// What follows `prefix` at the start of `s`, if it stands there.
pub fn strip_prefix(s: &str, prefix: &str) -> (r: Option<String>)
    ensures
        match r {
            Some(t) => after_prefix(s@, prefix@) == Some(t@),
            None => after_prefix(s@, prefix@) is None,
        },
{
    let a = chars_of(s);
    let b = chars_of(prefix);
    if occurs_at_in(&a, &b, 0) {
        Some(text_of(&a, b.len(), a.len()))
    } else {
        None
    }
}

/// `s` parted at the first `c`, which neither part keeps.
pub open spec fn parted(s: Seq<char>, c: char) -> Option<(Seq<char>, Seq<char>)> {
    let i = find_char(s, c, 0);
    if i < s.len() {
        Some((s.take(i), s.skip(i + 1)))
    } else {
        None
    }
}

/// `s` parted at the first `c`, which neither part keeps.
pub fn split_once(s: &str, c: char) -> (r: Option<(String, String)>)
    ensures
        match r {
            Some((a, b)) => parted(s@, c) == Some((a@, b@)),
            None => parted(s@, c) is None,
        },
{
    let v = chars_of(s);
    let i = find_char_in(&v, c, 0);
    if i < v.len() {
        Some((text_of(&v, 0, i), text_of(&v, i + 1, v.len())))
    } else {
        None
    }
}

/// The pieces of `s` between the characters `c`: one more than there are `c`s.
pub open spec fn pieces(s: Seq<char>, c: char) -> Seq<Seq<char>>
    decreases s.len(),
    when true
    via pieces_decreases
{
    let i = find_char(s, c, 0);
    if i >= s.len() {
        seq![s]
    } else {
        seq![s.take(i)] + pieces(s.skip(i + 1), c)
    }
}

#[via_fn]
proof fn pieces_decreases(s: Seq<char>, c: char) {
    lemma_find_char(s, c, 0);
}

proof fn lemma_find_char_skip(s: Seq<char>, c: char, start: int, from: int)
    requires
        0 <= start <= from <= s.len(),
    ensures
        find_char(s.skip(start), c, from - start) == find_char(s, c, from) - start,
    decreases s.len() - from,
{
    if from < s.len() && s[from] != c {
        lemma_find_char_skip(s, c, start, from + 1);
    }
}

/// The pieces of `s` between the characters `c`.
pub fn split_on(s: &str, c: char) -> (r: Vec<String>)
    ensures
        texts(r@) == pieces(s@, c),
{
    let v = chars_of(s);
    let mut out: Vec<String> = Vec::new();
    let mut start: usize = 0;
    assert(v@.skip(0) =~= v@);
    assert(texts(out@) + pieces(v@, c) =~= pieces(v@, c));
    loop
        invariant
            v@ == s@,
            start <= v@.len(),
            texts(out@) + pieces(v@.skip(start as int), c) == pieces(s@, c),
        decreases v@.len() - start,
    {
        let i = find_char_in(&v, c, start);
        proof {
            lemma_find_char_skip(v@, c, start as int, start as int);
        }
        let piece = text_of(&v, start, i);
        let ghost before = out@;
        out.push(piece);
        assert(texts(out@) =~= texts(before).push(piece@));
        if i >= v.len() {
            assert(piece@ =~= v@.skip(start as int));
            assert(texts(out@) =~= texts(before) + seq![piece@]);
            return out;
        }
        assert(piece@ =~= v@.skip(start as int).take(i - start));
        assert(v@.skip(start as int).skip(i - start + 1) =~= v@.skip(i + 1));
        assert(texts(out@) + pieces(v@.skip(i + 1), c) =~= texts(before) + (seq![piece@] + pieces(
            v@.skip(i + 1),
            c,
        )));
        start = i + 1;
    }
}

/// Whether a character is white space, as Unicode's `White_Space` has it.
pub open spec fn is_white(c: char) -> bool {
    let n = c as u32;
    (9 <= n && n <= 13) || n == 0x20 || n == 0x85 || n == 0xa0 || n == 0x1680 || (0x2000 <= n && n
        <= 0x200a) || n == 0x2028 || n == 0x2029 || n == 0x202f || n == 0x205f || n == 0x3000
}

/// Whether a character is white space.
pub fn is_whitespace(c: char) -> (r: bool)
    ensures
        r == is_white(c),
{
    let n: u32 = c as u32;
    (9 <= n && n <= 13) || n == 0x20 || n == 0x85 || n == 0xa0 || n == 0x1680 || (0x2000 <= n && n
        <= 0x200a) || n == 0x2028 || n == 0x2029 || n == 0x202f || n == 0x205f || n == 0x3000
}

/// The first position at or after `from` whose character is not white space,
/// or the length of `s`.
pub open spec fn white_end(s: Seq<char>, from: int) -> int
    decreases s.len() - from,
{
    if from < s.len() && is_white(s[from]) {
        white_end(s, from + 1)
    } else {
        from
    }
}

/// The first position at or after `from` whose character is white space, or
/// the length of `s`.
pub open spec fn word_end(s: Seq<char>, from: int) -> int
    decreases s.len() - from,
{
    if from < s.len() && !is_white(s[from]) {
        word_end(s, from + 1)
    } else {
        from
    }
}

/// The end of `s[..end]` once the white space at its end is left off.
pub open spec fn trimmed_end(s: Seq<char>, end: int) -> int
    decreases end,
{
    if end > 0 && is_white(s[end - 1]) {
        trimmed_end(s, end - 1)
    } else {
        end
    }
}

/// `s` without white space at its start.
pub open spec fn without_leading(s: Seq<char>) -> Seq<char> {
    s.skip(white_end(s, 0))
}

/// `s` without white space at its end.
pub open spec fn without_trailing(s: Seq<char>) -> Seq<char> {
    s.take(trimmed_end(s, s.len() as int))
}

/// `s` without white space at either end.
pub open spec fn trimmed(s: Seq<char>) -> Seq<char> {
    without_trailing(without_leading(s))
}

fn white_end_in(s: &Vec<char>, from: usize) -> (r: usize)
    requires
        from <= s@.len(),
    ensures
        r == white_end(s@, from as int),
        from <= r <= s@.len(),
        r < s@.len() ==> !is_white(s@[r as int]),
        forall|k: int| from <= k < r ==> is_white(s@[k]),
{
    let mut i: usize = from;
    while i < s.len() && is_whitespace(s[i])
        invariant
            from <= i <= s@.len(),
            white_end(s@, from as int) == white_end(s@, i as int),
            forall|k: int| from <= k < i ==> is_white(s@[k]),
        decreases s@.len() - i,
    {
        i += 1;
    }
    i
}

fn word_end_in(s: &Vec<char>, from: usize) -> (r: usize)
    requires
        from <= s@.len(),
    ensures
        r == word_end(s@, from as int),
        from <= r <= s@.len(),
        r < s@.len() ==> is_white(s@[r as int]),
        forall|k: int| from <= k < r ==> !is_white(s@[k]),
{
    let mut i: usize = from;
    while i < s.len() && !is_whitespace(s[i])
        invariant
            from <= i <= s@.len(),
            word_end(s@, from as int) == word_end(s@, i as int),
            forall|k: int| from <= k < i ==> !is_white(s@[k]),
        decreases s@.len() - i,
    {
        i += 1;
    }
    i
}

proof fn lemma_white_end(s: Seq<char>, from: int)
    requires
        0 <= from <= s.len(),
    ensures
        from <= white_end(s, from) <= s.len(),
        white_end(s, from) < s.len() ==> !is_white(s[white_end(s, from)]),
    decreases s.len() - from,
{
    if from < s.len() && is_white(s[from]) {
        lemma_white_end(s, from + 1);
    }
}

proof fn lemma_trimmed_end_skip(s: Seq<char>, start: int, end: int)
    requires
        0 <= start <= end <= s.len(),
    ensures
        trimmed_end(s.skip(start), end - start) == if trimmed_end(s, end) < start {
            0
        } else {
            trimmed_end(s, end) - start
        },
        0 <= trimmed_end(s, end) <= end,
    decreases end - start,
{
    if end > start && is_white(s[end - 1]) {
        lemma_trimmed_end_skip(s, start, end - 1);
    } else {
        lemma_trimmed_end_bounds(s, end);
    }
}

proof fn lemma_trimmed_end_bounds(s: Seq<char>, end: int)
    requires
        0 <= end <= s.len(),
    ensures
        0 <= trimmed_end(s, end) <= end,
        trimmed_end(s, end) > 0 ==> !is_white(s[trimmed_end(s, end) - 1]),
    decreases end,
{
    if end > 0 && is_white(s[end - 1]) {
        lemma_trimmed_end_bounds(s, end - 1);
    }
}

fn trimmed_end_in(s: &Vec<char>) -> (r: usize)
    ensures
        r == trimmed_end(s@, s@.len() as int),
        r <= s@.len(),
{
    let mut i: usize = s.len();
    while i > 0 && is_whitespace(s[i - 1])
        invariant
            i <= s@.len(),
            trimmed_end(s@, s@.len() as int) == trimmed_end(s@, i as int),
        decreases i,
    {
        i -= 1;
    }
    i
}

/// `s` without white space at either end.
pub fn trim(s: &str) -> (r: String)
    ensures
        r@ == trimmed(s@),
{
    let v = chars_of(s);
    let from = white_end_in(&v, 0);
    let to = trimmed_end_in(&v);
    proof {
        lemma_trimmed_end_skip(s@, from as int, s@.len() as int);
        lemma_trimmed_end_bounds(s@, s@.len() as int);
    }
    if to <= from {
        proof {
            assert(trimmed(s@) =~= Seq::<char>::empty());
        }
        return String::new();
    }
    assert(s@.skip(from as int).take(to - from) =~= s@.subrange(from as int, to as int));
    text_of(&v, from, to)
}

proof fn lemma_trimmed_end_covers(s: Seq<char>, end: int, k: int)
    requires
        0 <= k < end <= s.len(),
        !is_white(s[k]),
    ensures
        trimmed_end(s, end) > k,
    decreases end,
{
    if k < end - 1 {
        lemma_trimmed_end_covers(s, end - 1, k);
    }
}

/// A text without white space at either end stays as it is.
pub proof fn lemma_trim_tight(s: Seq<char>)
    requires
        s.len() == 0 || (!is_white(s[0]) && !is_white(s.last())),
    ensures
        trimmed(s) == s,
{
    assert(without_leading(s) =~= s);
    assert(without_trailing(s) =~= s);
}

/// A trimmed text has nothing left to trim.
pub proof fn law_trimmed_again(s: Seq<char>)
    ensures
        trimmed(trimmed(s)) == trimmed(s),
{
    let u = without_leading(s);
    let t = trimmed(s);
    lemma_white_end(s, 0);
    lemma_trimmed_end_bounds(u, u.len() as int);
    if u.len() > 0 {
        lemma_trimmed_end_covers(u, u.len() as int, 0);
    }
    lemma_trim_tight(t);
}

/// The words of `s`: its longest stretches without white space, in order.
pub open spec fn words(s: Seq<char>) -> Seq<Seq<char>>
    decreases s.len(),
    via words_decreases
{
    let from = white_end(s, 0);
    if from >= s.len() {
        seq![]
    } else {
        let to = word_end(s, from);
        seq![s.subrange(from, to)] + words(s.skip(to))
    }
}

#[via_fn]
proof fn words_decreases(s: Seq<char>) {
    lemma_white_end(s, 0);
    let from = white_end(s, 0);
    if from < s.len() {
        lemma_word_end(s, from);
        lemma_word_end(s, from + 1);
    }
}

proof fn lemma_word_end(s: Seq<char>, from: int)
    requires
        0 <= from <= s.len(),
    ensures
        from <= word_end(s, from) <= s.len(),
    decreases s.len() - from,
{
    if from < s.len() && !is_white(s[from]) {
        lemma_word_end(s, from + 1);
    }
}

proof fn lemma_ends_skip(s: Seq<char>, start: int, from: int)
    requires
        0 <= start <= from <= s.len(),
    ensures
        white_end(s.skip(start), from - start) == white_end(s, from) - start,
        word_end(s.skip(start), from - start) == word_end(s, from) - start,
    decreases s.len() - from,
{
    if from < s.len() {
        lemma_ends_skip(s, start, from + 1);
    }
}

/// The words of `s`.
pub fn split_whitespace(s: &str) -> (r: Vec<String>)
    ensures
        texts(r@) == words(s@),
{
    let v = chars_of(s);
    let mut out: Vec<String> = Vec::new();
    let mut start: usize = 0;
    assert(v@.skip(0) =~= v@);
    assert(texts(out@) + words(v@) =~= words(v@));
    loop
        invariant
            v@ == s@,
            start <= v@.len(),
            texts(out@) + words(v@.skip(start as int)) == words(s@),
        decreases v@.len() - start,
    {
        let from = white_end_in(&v, start);
        proof {
            lemma_ends_skip(v@, start as int, start as int);
        }
        if from >= v.len() {
            assert(texts(out@) + words(v@.skip(start as int)) =~= texts(out@));
            return out;
        }
        let to = word_end_in(&v, from);
        proof {
            lemma_ends_skip(v@, start as int, from as int);
            lemma_word_end(v@, from + 1);
        }
        let ghost before = out@;
        let piece = text_of(&v, from, to);
        out.push(piece);
        assert(texts(out@) =~= texts(before).push(piece@));
        assert(piece@ =~= v@.skip(start as int).subrange(from - start, to - start));
        assert(v@.skip(start as int).skip(to - start) =~= v@.skip(to as int));
        assert(texts(out@) + words(v@.skip(to as int)) =~= texts(before) + (seq![piece@] + words(
            v@.skip(to as int),
        )));
        start = to;
    }
}

/// A line without the carriage return that may end it.
pub open spec fn without_return(s: Seq<char>) -> Seq<char> {
    if s.len() > 0 && s.last() == '\r' {
        s.drop_last()
    } else {
        s
    }
}

/// The lines of `s`: each ends at a line feed, with or without a carriage
/// return before it; what follows the last line feed is a line unless empty.
pub open spec fn lines_of(s: Seq<char>) -> Seq<Seq<char>>
    decreases s.len(),
    via lines_decreases
{
    let i = find_char(s, '\n', 0);
    if s.len() == 0 {
        seq![]
    } else if i >= s.len() {
        seq![s]
    } else {
        seq![without_return(s.take(i))] + lines_of(s.skip(i + 1))
    }
}

#[via_fn]
proof fn lines_decreases(s: Seq<char>) {
    lemma_find_char(s, '\n', 0);
}

/// The lines of `s`.
pub fn lines(s: &str) -> (r: Vec<String>)
    ensures
        texts(r@) == lines_of(s@),
{
    let v = chars_of(s);
    let mut out: Vec<String> = Vec::new();
    let mut start: usize = 0;
    assert(v@.skip(0) =~= v@);
    assert(texts(out@) + lines_of(v@) =~= lines_of(v@));
    loop
        invariant
            v@ == s@,
            start <= v@.len(),
            texts(out@) + lines_of(v@.skip(start as int)) == lines_of(s@),
        decreases v@.len() - start,
    {
        if start >= v.len() {
            assert(texts(out@) + lines_of(v@.skip(start as int)) =~= texts(out@));
            return out;
        }
        let i = find_char_in(&v, '\n', start);
        proof {
            lemma_find_char_skip(v@, '\n', start as int, start as int);
        }
        let ghost before = out@;
        if i >= v.len() {
            let line = text_of(&v, start, i);
            out.push(line);
            assert(texts(out@) =~= texts(before).push(line@));
            assert(line@ =~= v@.skip(start as int));
            assert(texts(out@) =~= texts(before) + seq![line@]);
            return out;
        }
        let end = if i > start && v[i - 1] == '\r' {
            i - 1
        } else {
            i
        };
        let line = text_of(&v, start, end);
        out.push(line);
        assert(texts(out@) =~= texts(before).push(line@));
        assert(line@ =~= without_return(v@.skip(start as int).take(i - start)));
        assert(v@.skip(start as int).skip(i - start + 1) =~= v@.skip(i + 1));
        assert(texts(out@) + lines_of(v@.skip(i + 1)) =~= texts(before) + (seq![line@] + lines_of(
            v@.skip(i + 1),
        )));
        start = i + 1;
    }
}

/// The digit that stands for `n`, below sixteen.
pub open spec fn digit_char(n: int) -> char {
    if n < 10 {
        (48 + n) as char
    } else {
        (87 + n) as char
    }
}

/// The digit that stands for `n`.
pub fn digit(n: u8) -> (r: char)
    requires
        n < 16,
    ensures
        r == digit_char(n as int),
{
    if n < 10 {
        (48 + n) as char
    } else {
        (87 + n) as char
    }
}

/// `n` written in digits of `base`, without leading zeros.
pub open spec fn digits(n: nat, base: nat) -> Seq<char>
    decreases n,
{
    if base < 2 || n < base {
        seq![digit_char(n as int)]
    } else {
        proof {
            assert(n / base < n) by (nonlinear_arith)
                requires
                    base >= 2,
                    n >= base,
            ;
        }
        digits(n / base, base).push(digit_char((n % base) as int))
    }
}

/// `n` in decimal.
pub open spec fn decimal(n: nat) -> Seq<char> {
    digits(n, 10)
}

/// `s` with zeros before it up to `width` characters.
pub open spec fn zero_padded(s: Seq<char>, width: nat) -> Seq<char>
    decreases width - s.len(),
{
    if s.len() >= width {
        s
    } else {
        zero_padded(seq!['0'] + s, width)
    }
}

/// `n` written in digits of `base`.
pub fn to_digits(n: u64, base: u64) -> (r: String)
    requires
        2 <= base <= 16,
    ensures
        r@ == digits(n as nat, base as nat),
    decreases n,
{
    if n < base {
        let mut s = String::new();
        s.push(digit(n as u8));
        assert(s@ =~= seq![digit_char(n as int)]);
        s
    } else {
        assert(n / base < n) by (nonlinear_arith)
            requires
                base >= 2,
                n >= base,
        ;
        let mut s = to_digits(n / base, base);
        s.push(digit((n % base) as u8));
        s
    }
}

/// `n` in decimal.
pub fn to_decimal(n: u64) -> (r: String)
    ensures
        r@ == decimal(n as nat),
{
    to_digits(n, 10)
}

/// `s` with zeros before it up to `width` characters.
pub fn pad_zeros(s: &str, width: usize) -> (r: String)
    ensures
        r@ == zero_padded(s@, width as nat),
{
    let mut out: Vec<char> = chars_of(s);
    while out.len() < width
        invariant
            zero_padded(out@, width as nat) == zero_padded(s@, width as nat),
        decreases width - out@.len(),
    {
        let ghost before = out@;
        out.insert(0, '0');
        assert(out@ =~= seq!['0'] + before);
    }
    text_of(&out, 0, out.len())
}

/// The value of a digit, upper or lower case.
pub open spec fn digit_value(c: char) -> Option<nat> {
    let n = c as u32;
    if 48 <= n && n <= 57 {
        Some((n - 48) as nat)
    } else if 97 <= n && n <= 122 {
        Some((n - 87) as nat)
    } else if 65 <= n && n <= 90 {
        Some((n - 55) as nat)
    } else {
        None
    }
}

/// The number that `s[..end]` writes in `base`, if all of it are digits.
pub open spec fn digits_value(s: Seq<char>, base: nat, end: int) -> Option<nat>
    decreases end,
{
    if end <= 0 {
        Some(0)
    } else {
        match (digits_value(s, base, end - 1), digit_value(s[end - 1])) {
            (Some(n), Some(d)) => if d < base {
                Some(n * base + d)
            } else {
                None
            },
            _ => None,
        }
    }
}

/// The digits of a number written with an optional plus sign.
pub open spec fn unsigned_body(s: Seq<char>) -> Seq<char> {
    if s.len() > 0 && s[0] == '+' {
        s.skip(1)
    } else {
        s
    }
}

/// The number that `s` writes in `base`: digits after an optional plus sign,
/// at least one of them, and no more than `max`.
pub open spec fn number_in(s: Seq<char>, base: nat, max: nat) -> Option<nat> {
    let body = unsigned_body(s);
    if body.len() == 0 {
        None
    } else {
        match digits_value(body, base, body.len() as int) {
            Some(n) => if n <= max {
                Some(n)
            } else {
                None
            },
            None => None,
        }
    }
}

fn digit_value_in(c: char) -> (r: Option<u64>)
    ensures
        match r {
            Some(d) => digit_value(c) == Some(d as nat) && d < 36,
            None => digit_value(c) is None,
        },
{
    let n: u32 = c as u32;
    if 48 <= n && n <= 57 {
        Some((n - 48) as u64)
    } else if 97 <= n && n <= 122 {
        Some((n - 87) as u64)
    } else if 65 <= n && n <= 90 {
        Some((n - 55) as u64)
    } else {
        None
    }
}

proof fn lemma_digits_value_grows(s: Seq<char>, base: nat, i: int, end: int)
    requires
        0 <= i <= end <= s.len(),
        base >= 1,
    ensures
        digits_value(s, base, i) is None ==> digits_value(s, base, end) is None,
        digits_value(s, base, end) is Some ==> digits_value(s, base, i) is Some && digits_value(
            s,
            base,
            i,
        )->0 <= digits_value(s, base, end)->0,
    decreases end - i,
{
    if i < end {
        lemma_digits_value_grows(s, base, i, end - 1);
        if let (Some(n), Some(d)) = (digits_value(s, base, end - 1), digit_value(s[end - 1])) {
            assert(n <= n * base) by (nonlinear_arith)
                requires
                    base >= 1,
            ;
        }
    }
}

/// The number that `s` writes in `base`, no more than `max`.
pub fn parse_number(s: &str, base: u64, max: u64) -> (r: Option<u64>)
    requires
        2 <= base <= 36,
    ensures
        match r {
            Some(n) => number_in(s@, base as nat, max as nat) == Some(n as nat),
            None => number_in(s@, base as nat, max as nat) is None,
        },
{
    let v = chars_of(s);
    let from: usize = if v.len() > 0 && v[0] == '+' {
        1
    } else {
        0
    };
    if v.len() == from {
        assert(unsigned_body(s@).len() == 0);
        return None;
    }
    let ghost body = unsigned_body(s@);
    assert(body =~= s@.skip(from as int));
    let end = v.len();
    let mut i: usize = from;
    let mut n: u64 = 0;
    while i < end
        invariant
            v@ == s@,
            end == v@.len(),
            from <= i <= end,
            body == s@.skip(from as int),
            body == unsigned_body(s@),
            body.len() > 0,
            2 <= base <= 36,
            n <= max,
            digits_value(body, base as nat, i - from) == Some(n as nat),
        decreases end - i,
    {
        proof {
            lemma_digits_value_grows(body, base as nat, i - from + 1, body.len() as int);
            assert(body[i - from] == v@[i as int]);
        }
        let d: u64 = match digit_value_in(v[i]) {
            Some(d) => d,
            None => return None,
        };
        if d >= base {
            return None;
        }
        assert(n * base <= n * 36) by (nonlinear_arith)
            requires
                base <= 36,
        ;
        let wide: u128 = (n as u128) * (base as u128) + (d as u128);
        if wide > max as u128 {
            return None;
        }
        n = wide as u64;
        i += 1;
    }
    Some(n)
}

/// The number that `s` writes in decimal with an optional sign, between
/// `-(max + 1)` and `max`.
pub open spec fn signed_number_in(s: Seq<char>, max: nat) -> Option<int> {
    if s.len() > 0 && s[0] == '-' {
        let body = s.skip(1);
        match digits_value(body, 10, body.len() as int) {
            Some(n) => if body.len() > 0 && n <= max + 1 {
                Some(-(n as int))
            } else {
                None
            },
            None => None,
        }
    } else {
        match number_in(s, 10, max) {
            Some(n) => Some(n as int),
            None => None,
        }
    }
}

/// The number that `s` writes in decimal with an optional sign.
pub fn parse_i32(s: &str) -> (r: Option<i32>)
    ensures
        match r {
            Some(n) => signed_number_in(s@, i32::MAX as nat) == Some(n as int),
            None => signed_number_in(s@, i32::MAX as nat) is None,
        },
{
    let v = chars_of(s);
    if v.len() > 0 && v[0] == '-' {
        let body = text_of(&v, 1, v.len());
        assert(body@ =~= s@.skip(1));
        let w = chars_of(body.as_str());
        // A second sign is no digit.
        if w.len() > 0 && w[0] == '+' {
            proof {
                lemma_digits_value_grows(body@, 10, 1, body@.len() as int);
                reveal_with_fuel(digits_value, 2);
            }
            return None;
        }
        match parse_number(body.as_str(), 10, 0x8000_0000) {
            Some(n) => Some((-(n as i64)) as i32),
            None => None,
        }
    } else {
        match parse_number(s, 10, i32::MAX as u64) {
            Some(n) => Some(n as i32),
            None => None,
        }
    }
}

proof fn lemma_digit_back(n: int, base: nat)
    requires
        0 <= n < base <= 16,
    ensures
        digit_value(digit_char(n)) == Some(n as nat),
        digit_char(n) != '+',
        digit_char(n) != '-',
        digit_char(n) != '/',
        !is_white(digit_char(n)),
{
}

proof fn lemma_digits_value_prefix(s: Seq<char>, t: Seq<char>, base: nat, end: int)
    requires
        0 <= end <= s.len(),
        end <= t.len(),
        s.take(end) == t.take(end),
    ensures
        digits_value(s, base, end) == digits_value(t, base, end),
    decreases end,
{
    if end > 0 {
        assert(s.take(end - 1) =~= s.take(end).take(end - 1));
        assert(t.take(end - 1) =~= t.take(end).take(end - 1));
        assert(s[end - 1] == s.take(end)[end - 1]);
        assert(t[end - 1] == t.take(end)[end - 1]);
        lemma_digits_value_prefix(s, t, base, end - 1);
    }
}

/// The digits of a number give its value, and none is a sign, a slash or
/// white space.
pub proof fn lemma_digits_back(n: nat, base: nat)
    requires
        2 <= base <= 16,
    ensures
        digits(n, base).len() > 0,
        digits_value(digits(n, base), base, digits(n, base).len() as int) == Some(n),
        forall|i: int|
            0 <= i < digits(n, base).len() ==> {
                let c = #[trigger] digits(n, base)[i];
                c != '+' && c != '-' && c != '/' && !is_white(c)
            },
    decreases n,
{
    let s = digits(n, base);
    if n < base {
        lemma_digit_back(n as int, base);
        reveal_with_fuel(digits_value, 2);
        assert(0 * base + n == n) by (nonlinear_arith);
    } else {
        let q = n / base;
        let d = n % base;
        assert(q < n && n == q * base + d && d < base) by (nonlinear_arith)
            requires
                q == n / base,
                d == n % base,
                base >= 2,
                n >= base,
        ;
        lemma_digits_back(q, base);
        lemma_digit_back(d as int, base);
        let head = digits(q, base);
        assert(s.take(head.len() as int) =~= head.take(head.len() as int));
        lemma_digits_value_prefix(s, head, base, head.len() as int);
    }
}

/// A number written in digits reads back as itself.
pub proof fn law_digits_read_back(n: nat, base: nat, max: nat)
    requires
        2 <= base <= 16,
        n <= max,
    ensures
        number_in(digits(n, base), base, max) == Some(n),
{
    lemma_digits_back(n, base);
    assert(digits(n, base)[0] != '+');
}

/// The character `c` with an ASCII capital made small.
pub open spec fn ascii_small(c: char) -> char {
    if 'A' <= c && c <= 'Z' {
        ((c as u32) + 32) as char
    } else {
        c
    }
}

/// `s` with its ASCII capitals made small.
pub open spec fn ascii_lower(s: Seq<char>) -> Seq<char> {
    Seq::new(s.len(), |i: int| ascii_small(s[i]))
}

/// `s` with its ASCII capitals made small.
pub fn to_ascii_lower(s: &str) -> (r: String)
    ensures
        r@ == ascii_lower(s@),
{
    let v = chars_of(s);
    let mut out = String::new();
    let mut i: usize = 0;
    while i < v.len()
        invariant
            v@ == s@,
            i <= v@.len(),
            out@ == ascii_lower(s@).take(i as int),
        decreases v@.len() - i,
    {
        let c = v[i];
        if 'A' <= c && c <= 'Z' {
            out.push(((c as u8) + 32) as char);
        } else {
            out.push(c);
        }
        i += 1;
        assert(ascii_lower(s@).take(i as int) =~= ascii_lower(s@).take(i - 1).push(
            ascii_lower(s@)[i - 1],
        ));
    }
    assert(ascii_lower(s@).take(i as int) =~= ascii_lower(s@));
    out
}

/// What `str::to_lowercase` makes of a text.
pub uninterp spec fn lowercase(s: Seq<char>) -> Seq<char>;

/// `str::to_lowercase`: the text in small letters, by Unicode's rules. The
/// result is a function of the text alone.
#[verifier::external_body]
pub(crate) fn to_lower(s: &str) -> (r: String)
    ensures
        r@ == lowercase(s@),
{
    s.to_lowercase()
}

/// A character that is not in a text is not found in it; one that is, is found
/// at its first place.
pub proof fn law_find_char(a: Seq<char>, b: Seq<char>, c: char)
    requires
        !a.contains(c),
    ensures
        find_char(a, c, 0) == a.len(),
        find_char(a + seq![c] + b, c, 0) == a.len(),
{
    let s = a + seq![c] + b;
    lemma_find_char(a, c, 0);
    lemma_find_char(s, c, 0);
    let i = find_char(a, c, 0);
    if i < a.len() {
        assert(a.contains(a[i]));
    }
    let k = find_char(s, c, 0);
    assert(s[a.len() as int] == c);
    if k < a.len() {
        assert(s[k] == a[k]);
        assert(a.contains(a[k]));
    }
}

/// A text is parted at the first of the characters, which is left out, and not
/// at all where there is none.
pub proof fn law_parted(a: Seq<char>, b: Seq<char>, c: char)
    requires
        !a.contains(c),
    ensures
        parted(a + seq![c] + b, c) == Some((a, b)),
        parted(a, c) is None,
{
    law_find_char(a, b, c);
    let s = a + seq![c] + b;
    assert(s.take(a.len() as int) =~= a);
    assert(s.skip(a.len() as int + 1) =~= b);
}

/// The pieces of a text are what stands between the characters it is cut at.
/// None of them is lost, the empty ones no more than the others.
pub proof fn law_pieces(a: Seq<char>, b: Seq<char>, c: char)
    requires
        !a.contains(c),
    ensures
        pieces(a, c) == seq![a],
        pieces(a + seq![c] + b, c) == seq![a] + pieces(b, c),
{
    law_find_char(a, b, c);
    let s = a + seq![c] + b;
    assert(s.take(a.len() as int) =~= a);
    assert(s.skip(a.len() as int + 1) =~= b);
}

/// Each line ends with a line feed, with or without a carriage return before
/// it, or with the text. Neither is part of the line. Nothing behind the last
/// line feed is no line.
pub proof fn law_lines_of(line: Seq<char>, rest: Seq<char>)
    requires
        !line.contains('\n'),
    ensures
        lines_of(Seq::empty()).len() == 0,
        line.len() > 0 ==> lines_of(line) == seq![line],
        !(line.len() > 0 && line.last() == '\r') ==> lines_of(line + seq!['\n'] + rest) == seq![line]
            + lines_of(rest),
        lines_of(line.push('\r') + seq!['\n'] + rest) == seq![line] + lines_of(rest),
{
    law_find_char(line, rest, '\n');
    let s = line + seq!['\n'] + rest;
    assert(s.take(line.len() as int) =~= line);
    assert(s.skip(line.len() as int + 1) =~= rest);
    let back = line.push('\r');
    assert(!back.contains('\n')) by {
        if back.contains('\n') {
            let i = choose|i: int| 0 <= i < back.len() && back[i] == '\n';
            assert(i < line.len());
            assert(line.contains(line[i]));
        }
    }
    law_find_char(back, rest, '\n');
    let t = back + seq!['\n'] + rest;
    assert(t.take(back.len() as int) =~= back);
    assert(t.skip(back.len() as int + 1) =~= rest);
    assert(back.drop_last() =~= line);
}

proof fn lemma_white_run(s: Seq<char>, from: int, to: int)
    requires
        0 <= from <= to <= s.len(),
        forall|i: int| from <= i < to ==> is_white(s[i]),
        to < s.len() ==> !is_white(s[to]),
    ensures
        white_end(s, from) == to,
    decreases to - from,
{
    if from < to {
        lemma_white_run(s, from + 1, to);
    }
}

proof fn lemma_word_run(s: Seq<char>, from: int, to: int)
    requires
        0 <= from <= to <= s.len(),
        forall|i: int| from <= i < to ==> !is_white(s[i]),
        to < s.len() ==> is_white(s[to]),
    ensures
        word_end(s, from) == to,
    decreases to - from,
{
    if from < to {
        lemma_word_run(s, from + 1, to);
    }
}

proof fn lemma_white_tail(s: Seq<char>, keep: int, end: int)
    requires
        0 <= keep <= end <= s.len(),
        forall|i: int| keep <= i < end ==> is_white(s[i]),
        keep > 0 ==> !is_white(s[keep - 1]),
    ensures
        trimmed_end(s, end) == keep,
    decreases end - keep,
{
    if keep < end {
        lemma_white_tail(s, keep, end - 1);
    }
}

/// Trimming takes the white space off both ends, all of it and nothing else.
pub proof fn law_trimmed(before: Seq<char>, s: Seq<char>, after: Seq<char>)
    requires
        forall|i: int| 0 <= i < before.len() ==> is_white(before[i]),
        forall|i: int| 0 <= i < after.len() ==> is_white(after[i]),
        s.len() > 0,
        !is_white(s[0]),
        !is_white(s.last()),
    ensures
        trimmed(before + s + after) == s,
        trimmed(before).len() == 0,
{
    let whole = before + s + after;
    let b = before.len() as int;
    assert forall|i: int| 0 <= i < b implies is_white(whole[i]) by {
        assert(whole[i] == before[i]);
    }
    assert(whole[b] == s[0]);
    lemma_white_run(whole, 0, b);
    let rest = without_leading(whole);
    assert(rest =~= s + after);
    let n = s.len() as int;
    assert forall|i: int| n <= i < rest.len() implies is_white(rest[i]) by {
        assert(rest[i] == after[i - n]);
    }
    assert(rest[n - 1] == s.last());
    lemma_white_tail(rest, n, rest.len() as int);
    assert(rest.take(n) =~= s);
    lemma_white_run(before, 0, b);
    assert(without_leading(before) =~= Seq::<char>::empty());
    assert(trimmed(before) =~= Seq::<char>::empty());
}

/// The words of a text are the runs between its white space, however much of
/// that there is.
pub proof fn law_words(gap: Seq<char>, word: Seq<char>, rest: Seq<char>)
    requires
        forall|i: int| 0 <= i < gap.len() ==> is_white(gap[i]),
        word.len() > 0,
        forall|i: int| 0 <= i < word.len() ==> !is_white(word[i]),
        rest.len() > 0 ==> is_white(rest[0]),
    ensures
        words(gap).len() == 0,
        words(gap + word + rest) == seq![word] + words(rest),
{
    let s = gap + word + rest;
    let g = gap.len() as int;
    let w = g + word.len();
    assert forall|i: int| 0 <= i < g implies is_white(s[i]) by {
        assert(s[i] == gap[i]);
    }
    assert forall|i: int| g <= i < w implies !is_white(s[i]) by {
        assert(s[i] == word[i - g]);
    }
    assert(s[g] == word[0]);
    assert(w < s.len() ==> s[w] == rest[0]);
    lemma_white_run(s, 0, g);
    lemma_word_run(s, g, w);
    assert(s.subrange(g, w) =~= word);
    assert(s.skip(w) =~= rest);
    lemma_white_run(gap, 0, g);
}

/// A text holds, begins with and ends with a part of it that stands there, and
/// what stands behind a beginning is the rest.
pub proof fn law_parts(a: Seq<char>, b: Seq<char>, c: Seq<char>)
    ensures
        contains_text(a + b + c, b),
        has_prefix(a + b, a),
        has_suffix(a + b, b),
        after_prefix(a + b, a) == Some(b),
        has_prefix(a, b) ==> a == b + a.skip(b.len() as int),
        has_suffix(a, b) ==> a == a.take(a.len() - b.len()) + b,
        !has_prefix(a, b) ==> after_prefix(a, b) is None,
{
    let s = a + b + c;
    assert(s.subrange(a.len() as int, a.len() as int + b.len()) =~= b);
    assert(occurs_at(s, b, a.len() as int));
    let t = a + b;
    assert(t.subrange(0, a.len() as int) =~= a);
    assert(t.subrange(t.len() - b.len(), t.len() as int) =~= b);
    assert(t.skip(a.len() as int) =~= b);
    if has_prefix(a, b) {
        assert(a =~= a.subrange(0, b.len() as int) + a.skip(b.len() as int));
    }
    if has_suffix(a, b) {
        assert(a =~= a.take(a.len() - b.len()) + a.subrange(a.len() - b.len(), a.len() as int));
    }
}

/// Only digits make a number, and only as many as fit: a text with any other
/// character in it, an empty one, and one whose value is too large are none. A
/// plus sign before a number changes nothing.
pub proof fn law_number_rejects(s: Seq<char>, i: int, base: nat, max: nat)
    requires
        1 <= base <= 16,
        0 <= i < s.len(),
        digit_value(s[i]) is None || digit_value(s[i])->0 >= base,
        s[0] != '+',
    ensures
        number_in(s, base, max) is None,
        number_in(Seq::empty(), base, max) is None,
{
    lemma_digits_value_grows(s, base, i + 1, s.len() as int);
}

/// A number that is too large is none, and a plus sign before one is left out.
pub proof fn law_number_bounds(n: nat, base: nat, max: nat)
    requires
        2 <= base <= 16,
    ensures
        n > max ==> number_in(digits(n, base), base, max) is None,
        n <= max ==> number_in(seq!['+'] + digits(n, base), base, max) == Some(n),
{
    lemma_digits_back(n, base);
    assert(digits(n, base)[0] != '+');
    let signed = seq!['+'] + digits(n, base);
    assert(signed.skip(1) =~= digits(n, base));
}

/// Signed numbers read back too, with their sign.
pub proof fn law_signed_reads_back(n: nat, max: nat)
    requires
        n <= max,
    ensures
        signed_number_in(decimal(n), max) == Some(n as int),
        signed_number_in(seq!['-'] + decimal(n), max) == Some(-(n as int)),
{
    lemma_digits_back(n, 10);
    law_digits_read_back(n, 10, max);
    assert(decimal(n)[0] != '-');
    let signed = seq!['-'] + decimal(n);
    assert(signed.skip(1) =~= decimal(n));
}

/// Padding adds zeros in front up to the width and no others, and takes
/// nothing away.
pub proof fn law_zero_padded(s: Seq<char>, width: nat)
    ensures
        zero_padded(s, width).len() == if s.len() >= width {
            s.len()
        } else {
            width
        },
        zero_padded(s, width).skip(zero_padded(s, width).len() - s.len()) == s,
        forall|i: int|
            0 <= i < zero_padded(s, width).len() - s.len() ==> zero_padded(s, width)[i] == '0',
    decreases width - s.len(),
{
    if s.len() < width {
        let t = seq!['0'] + s;
        law_zero_padded(t, width);
        let p = zero_padded(t, width);
        assert(p.skip(p.len() - s.len()) =~= p.skip(p.len() - t.len()).skip(1));
        assert(t.skip(1) =~= s);
        assert forall|i: int| 0 <= i < p.len() - s.len() implies p[i] == '0' by {
            if i == p.len() - t.len() {
                assert(p[i] == p.skip(p.len() - t.len())[0]);
            }
        }
    } else {
        assert(s.skip(0) =~= s);
    }
}

/// Small letters stand for the capital ones and themselves, and every other
/// character for itself: doing it again changes nothing, and texts that differ
/// only in case become the same.
pub proof fn law_ascii_lower(s: Seq<char>, i: int)
    requires
        0 <= i < s.len(),
    ensures
        ascii_lower(s).len() == s.len(),
        'A' <= s[i] && s[i] <= 'Z' ==> ascii_lower(s)[i] as u32 == s[i] as u32 + 32,
        !('A' <= s[i] && s[i] <= 'Z') ==> ascii_lower(s)[i] == s[i],
        ascii_lower(ascii_lower(s)) == ascii_lower(s),
{
    let once = ascii_lower(s);
    assert forall|k: int| 0 <= k < s.len() implies ascii_lower(once)[k] == once[k] by {
        let c = s[k];
        assert(once[k] == ascii_small(c));
    }
    assert(ascii_lower(once) =~= once);
}

proof fn lemma_zero_before(s: Seq<char>, base: nat, end: int)
    requires
        0 <= end <= s.len(),
        base >= 2,
    ensures
        digits_value(seq!['0'] + s, base, end + 1) == digits_value(s, base, end),
    decreases end,
{
    let t = seq!['0'] + s;
    if end == 0 {
        reveal_with_fuel(digits_value, 2);
        assert(t[0] == '0');
        assert(0 * base == 0) by (nonlinear_arith);
    } else {
        lemma_zero_before(s, base, end - 1);
        assert(t[end] == s[end - 1]);
    }
}

proof fn lemma_padded_value(s: Seq<char>, base: nat, width: nat)
    requires
        base >= 2,
        s.len() > 0,
        s[0] != '+',
    ensures
        digits_value(zero_padded(s, width), base, zero_padded(s, width).len() as int)
            == digits_value(s, base, s.len() as int),
        zero_padded(s, width).len() > 0,
        zero_padded(s, width)[0] != '+',
    decreases width - s.len(),
{
    if s.len() < width {
        lemma_padded_value(seq!['0'] + s, base, width);
        lemma_zero_before(s, base, s.len() as int);
    }
}

/// A number reads back as itself however many zeros it was padded with.
pub proof fn law_padded_read_back(n: nat, base: nat, width: nat, max: nat)
    requires
        2 <= base <= 16,
        n <= max,
    ensures
        number_in(zero_padded(digits(n, base), width), base, max) == Some(n),
{
    lemma_digits_back(n, base);
    assert(digits(n, base)[0] != '+');
    lemma_padded_value(digits(n, base), base, width);
}

/// A text holds another exactly when it is something, then the other, and then
/// something again.
pub proof fn law_contains(s: Seq<char>, needle: Seq<char>)
    ensures
        contains_text(s, needle) <==> exists|a: Seq<char>, b: Seq<char>| s == #[trigger] (a + needle
            + b),
{
    if contains_text(s, needle) {
        let at = choose|at: int| occurs_at(s, needle, at);
        let a = s.take(at);
        let b = s.skip(at + needle.len());
        assert(s =~= a + s.subrange(at, at + needle.len()) + b);
        assert(s == a + needle + b);
    }
    if exists|a: Seq<char>, b: Seq<char>| s == #[trigger] (a + needle + b) {
        let (a, b) = choose|a: Seq<char>, b: Seq<char>| s == #[trigger] (a + needle + b);
        law_parts(a, needle, b);
    }
}

/// Blanks, tabs and line ends are white space, and so is a no-break space; no
/// letter, digit or sign is.
pub proof fn law_white(c: char)
    ensures
        c == ' ' || c == '\t' || c == '\n' || c == '\r' || c == '\u{a0}' ==> is_white(c),
        '!' <= c && c <= '~' ==> !is_white(c),
{
}

/// Numbers are written as usual: a digit below ten by its own sign, the digits
/// from ten on by the small letters, and a longer number by its first digits
/// and then its last.
pub proof fn law_digits(n: nat, d: nat, base: nat)
    requires
        2 <= base <= 16,
        d < base,
    ensures
        d < 10 ==> digits(d, base) == seq![(48 + d) as char],
        d >= 10 ==> digits(d, base) == seq![(87 + d) as char],
        n > 0 ==> digits(n * base + d, base) == digits(n, base) + digits(d, base),
{
    let whole = n * base + d;
    if n > 0 {
        assert(whole / base == n && whole % base == d && whole >= base) by (nonlinear_arith)
            requires
                whole == n * base + d,
                d < base,
                n > 0,
                base >= 2,
        ;
        assert(digits(whole, base) =~= digits(n, base) + digits(d, base));
    }
}

} // verus!
