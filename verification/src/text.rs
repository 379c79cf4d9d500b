//! Operations on text, stated over the sequence of characters of a string.

use vstd::prelude::*;

verus! {

/// `String::push` appends one character.
pub assume_specification[ String::push ](s: &mut String, c: char)
    ensures
        final(s)@ == old(s)@.push(c),
;

/// The result of `str::to_lowercase`, by the lower-case mappings of Unicode.
pub uninterp spec fn lowercased(s: Seq<char>) -> Seq<char>;

/// Calls `str::to_lowercase`: the result is a function of the text.
#[verifier::external_body]
pub(crate) fn to_lowercase(s: &str) -> (r: String)
    ensures
        r@ == lowercased(s@),
{
    s.to_lowercase()
}

// ── Characters ─────────────────────────────────────────────────────────────

/// The lower case of an ASCII capital; every other character is itself.
pub open spec fn lower(c: char) -> char {
    if 'A' <= c && c <= 'Z' {
        ((c as u8) + 32u8) as char
    } else {
        c
    }
}

/// The characters with the Unicode property `White_Space`.
pub open spec fn is_space(c: char) -> bool {
    ||| '\u{9}' <= c && c <= '\u{d}'
    ||| c == ' '
    ||| c == '\u{85}'
    ||| c == '\u{a0}'
    ||| c == '\u{1680}'
    ||| '\u{2000}' <= c && c <= '\u{200a}'
    ||| c == '\u{2028}'
    ||| c == '\u{2029}'
    ||| c == '\u{202f}'
    ||| c == '\u{205f}'
    ||| c == '\u{3000}'
}

/// A decimal digit.
pub open spec fn is_digit(c: char) -> bool {
    '0' <= c && c <= '9'
}

/// Lower-cases an ASCII capital.
pub fn to_lower(c: char) -> (r: char)
    ensures
        r == lower(c),
{
    if 'A' <= c && c <= 'Z' {
        ((c as u8) + 32u8) as char
    } else {
        c
    }
}

/// Tells whether a character is white space.
pub fn char_is_space(c: char) -> (r: bool)
    ensures
        r == is_space(c),
{
    ('\u{9}' <= c && c <= '\u{d}') || c == ' ' || c == '\u{85}' || c == '\u{a0}' || c == '\u{1680}'
        || ('\u{2000}' <= c && c <= '\u{200a}') || c == '\u{2028}' || c == '\u{2029}' || c
        == '\u{202f}' || c == '\u{205f}' || c == '\u{3000}'
}

/// Tells whether a character is a decimal digit.
pub fn char_is_digit(c: char) -> (r: bool)
    ensures
        r == is_digit(c),
{
    '0' <= c && c <= '9'
}

// ── Conversions ────────────────────────────────────────────────────────────

/// The characters of a string.
pub fn chars_of(s: &str) -> (r: Vec<char>)
    ensures
        r@ == s@,
{
    let mut out: Vec<char> = Vec::new();
    for c in it: s.chars()
        invariant
            it.seq() == s@,
            out@ == s@.take(it.index()),
    {
        proof {
            assert(s@.take(it.index() + 1) =~= s@.take(it.index()).push(s@[it.index()]));
        }
        out.push(c);
    }
    assert(s@.take(s@.len() as int) =~= s@);
    out
}

/// The string of the characters from `from` up to `to`.
pub fn text_between(chars: &Vec<char>, from: usize, to: usize) -> (r: String)
    requires
        from <= to <= chars.len(),
    ensures
        r@ == chars@.subrange(from as int, to as int),
{
    let mut out = String::new();
    let mut i: usize = from;
    while i < to
        invariant
            from <= i <= to <= chars.len(),
            out@ == chars@.subrange(from as int, i as int),
        decreases to - i,
    {
        proof {
            assert(chars@.subrange(from as int, i + 1) =~= chars@.subrange(
                from as int,
                i as int,
            ).push(chars@[i as int]));
        }
        out.push(chars[i]);
        i += 1;
    }
    out
}

/// The string of all characters.
pub fn text_of(chars: &Vec<char>) -> (r: String)
    ensures
        r@ == chars@,
{
    let r = text_between(chars, 0, chars.len());
    assert(chars@.subrange(0, chars@.len() as int) =~= chars@);
    r
}

/// A copy of a list of strings.
pub fn copy_texts(texts: &[String]) -> (r: Vec<String>)
    ensures
        r.deep_view() == texts.deep_view(),
{
    let mut out: Vec<String> = Vec::new();
    let mut i: usize = 0;
    while i < texts.len()
        invariant
            i <= texts.len(),
            out.len() == i,
            forall|k: int| 0 <= k < i ==> (#[trigger] out[k])@ == texts[k]@,
        decreases texts.len() - i,
    {
        out.push(texts[i].clone());
        i += 1;
    }
    assert(out.deep_view() =~= texts.deep_view());
    out
}

/// A copy of an optional string.
pub fn copy_option(text: &Option<String>) -> (r: Option<String>)
    ensures
        r.deep_view() == text.deep_view(),
{
    match text {
        Some(t) => Some(t.clone()),
        None => None,
    }
}

// ── Comparisons ────────────────────────────────────────────────────────────

/// The text with its ASCII capitals in lower case.
pub open spec fn lowered(s: Seq<char>) -> Seq<char> {
    s.map_values(|c: char| lower(c))
}

/// Equality up to the case of ASCII letters.
pub open spec fn same_ignoring_case(a: Seq<char>, b: Seq<char>) -> bool {
    lowered(a) == lowered(b)
}

/// Tells whether two texts are equal.
pub fn same(a: &str, b: &str) -> (r: bool)
    ensures
        r == (a@ == b@),
{
    let x = chars_of(a);
    let y = chars_of(b);
    if x.len() != y.len() {
        return false;
    }
    let mut i: usize = 0;
    while i < x.len()
        invariant
            x@ == a@,
            y@ == b@,
            x.len() == y.len(),
            i <= x.len(),
            forall|k: int| 0 <= k < i ==> x[k] == y[k],
        decreases x.len() - i,
    {
        if x[i] != y[i] {
            assert(a@[i as int] != b@[i as int]);
            return false;
        }
        i += 1;
    }
    assert(a@ =~= b@);
    true
}

/// Tells whether two texts are equal up to the case of ASCII letters.
pub fn eq_ignore_case(a: &str, b: &str) -> (r: bool)
    ensures
        r == same_ignoring_case(a@, b@),
{
    let x = chars_of(a);
    let y = chars_of(b);
    if x.len() != y.len() {
        assert(lowered(a@).len() != lowered(b@).len());
        return false;
    }
    let mut i: usize = 0;
    while i < x.len()
        invariant
            x@ == a@,
            y@ == b@,
            x.len() == y.len(),
            i <= x.len(),
            forall|k: int| 0 <= k < i ==> lower(x[k]) == lower(y[k]),
        decreases x.len() - i,
    {
        if to_lower(x[i]) != to_lower(y[i]) {
            assert(lowered(a@)[i as int] != lowered(b@)[i as int]);
            return false;
        }
        i += 1;
    }
    assert(lowered(a@) =~= lowered(b@));
    true
}

/// Lower-cases the ASCII letters of a text.
pub fn to_lowered(s: &str) -> (r: String)
    ensures
        r@ == lowered(s@),
{
    let x = chars_of(s);
    let mut out = String::new();
    let mut i: usize = 0;
    while i < x.len()
        invariant
            x@ == s@,
            i <= x.len(),
            out@ == lowered(s@.take(i as int)),
        decreases x.len() - i,
    {
        proof {
            assert(lowered(s@.take(i + 1)) =~= lowered(s@.take(i as int)).push(
                lower(s@[i as int]),
            ));
        }
        out.push(to_lower(x[i]));
        i += 1;
    }
    assert(s@.take(s@.len() as int) =~= s@);
    out
}

/// The text comes first by the code points of its characters.
pub open spec fn comes_before(a: Seq<char>, b: Seq<char>) -> bool
    decreases a.len(),
{
    if b.len() == 0 {
        false
    } else if a.len() == 0 {
        true
    } else if a[0] != b[0] {
        a[0] < b[0]
    } else {
        comes_before(a.drop_first(), b.drop_first())
    }
}

/// Compares two texts by the code points of their characters.
pub fn is_before(a: &str, b: &str) -> (r: bool)
    ensures
        r == comes_before(a@, b@),
{
    let x = chars_of(a);
    let y = chars_of(b);
    let mut i: usize = 0;
    assert(a@.skip(0) =~= a@);
    assert(b@.skip(0) =~= b@);
    while i < x.len() && i < y.len() && x[i] == y[i]
        invariant
            x@ == a@,
            y@ == b@,
            i <= x.len(),
            i <= y.len(),
            comes_before(a@, b@) == comes_before(a@.skip(i as int), b@.skip(i as int)),
        decreases x.len() - i,
    {
        proof {
            assert(a@.skip(i as int).drop_first() =~= a@.skip(i + 1));
            assert(b@.skip(i as int).drop_first() =~= b@.skip(i + 1));
        }
        i += 1;
    }
    if i == y.len() {
        false
    } else if i == x.len() {
        true
    } else {
        x[i] < y[i]
    }
}

/// The order of texts is irreflexive, and two different texts are ordered one
/// way or the other.
pub proof fn lemma_comes_before_total(a: Seq<char>, b: Seq<char>)
    ensures
        comes_before(a, b) ==> !comes_before(b, a),
        a != b ==> comes_before(a, b) || comes_before(b, a),
        a == b ==> !comes_before(a, b),
    decreases a.len(),
{
    if a.len() > 0 && b.len() > 0 && a[0] == b[0] {
        lemma_comes_before_total(a.drop_first(), b.drop_first());
        if a.drop_first() == b.drop_first() {
            assert(a =~= seq![a[0]] + a.drop_first());
            assert(b =~= seq![b[0]] + b.drop_first());
        }
    } else if a.len() == 0 && b.len() == 0 {
        assert(a =~= b);
    }
}

/// The order of texts is transitive.
pub proof fn lemma_comes_before_transitive(a: Seq<char>, b: Seq<char>, c: Seq<char>)
    requires
        comes_before(a, b),
        comes_before(b, c),
    ensures
        comes_before(a, c),
    decreases a.len(),
{
    if a.len() > 0 && a[0] == b[0] && b[0] == c[0] {
        lemma_comes_before_transitive(a.drop_first(), b.drop_first(), c.drop_first());
    }
}

// ── Parts ──────────────────────────────────────────────────────────────────

/// `s` starts with `p`.
pub open spec fn starts_with(s: Seq<char>, p: Seq<char>) -> bool {
    p.len() <= s.len() && s.take(p.len() as int) == p
}

/// `s` starts with `p` up to the case of ASCII letters.
pub open spec fn starts_with_ignoring_case(s: Seq<char>, p: Seq<char>) -> bool {
    p.len() <= s.len() && same_ignoring_case(s.take(p.len() as int), p)
}

/// The text behind its first `n` characters.
pub fn rest(s: &str, n: usize) -> (r: String)
    requires
        n <= s@.len(),
    ensures
        r@ == s@.skip(n as int),
{
    let x = chars_of(s);
    let r = text_between(&x, n, x.len());
    assert(x@.subrange(n as int, x@.len() as int) =~= s@.skip(n as int));
    r
}

/// The first `n` characters of a text.
pub fn start(s: &str, n: usize) -> (r: String)
    requires
        n <= s@.len(),
    ensures
        r@ == s@.take(n as int),
{
    let x = chars_of(s);
    let r = text_between(&x, 0, n);
    assert(x@.subrange(0, n as int) =~= s@.take(n as int));
    r
}

/// Tells whether a text starts with another.
pub fn has_prefix(s: &str, p: &str) -> (r: bool)
    ensures
        r == starts_with(s@, p@),
{
    let n = p.unicode_len();
    if s.unicode_len() < n {
        return false;
    }
    let head = start(s, n);
    same(&head, p)
}

/// Tells whether a text starts with another up to the case of ASCII letters.
pub fn has_prefix_ignoring_case(s: &str, p: &str) -> (r: bool)
    ensures
        r == starts_with_ignoring_case(s@, p@),
{
    let n = p.unicode_len();
    if s.unicode_len() < n {
        return false;
    }
    let head = start(s, n);
    eq_ignore_case(&head, p)
}

/// The text behind a prefix, if it has that prefix.
pub open spec fn without_prefix(s: Seq<char>, p: Seq<char>) -> Option<Seq<char>> {
    if starts_with(s, p) {
        Some(s.skip(p.len() as int))
    } else {
        None
    }
}

/// Strips a prefix.
pub fn strip_prefix(s: &str, p: &str) -> (r: Option<String>)
    ensures
        r.deep_view() == without_prefix(s@, p@),
{
    if has_prefix(s, p) {
        Some(rest(s, p.unicode_len()))
    } else {
        None
    }
}

/// `c` occurs in `s`.
pub open spec fn has_char(s: Seq<char>, c: char) -> bool {
    exists|i: int| 0 <= i < s.len() && #[trigger] s[i] == c
}

/// Tells whether a character occurs in a text.
pub fn contains_char(s: &str, c: char) -> (r: bool)
    ensures
        r == has_char(s@, c),
{
    let x = chars_of(s);
    let mut i: usize = 0;
    while i < x.len()
        invariant
            x@ == s@,
            i <= x.len(),
            forall|k: int| 0 <= k < i ==> x[k] != c,
        decreases x.len() - i,
    {
        if x[i] == c {
            assert(s@[i as int] == c);
            return true;
        }
        i += 1;
    }
    false
}

/// `p` stands in `s` at place `i`.
pub open spec fn occurs_at(s: Seq<char>, p: Seq<char>, i: int) -> bool {
    0 <= i && i + p.len() <= s.len() && s.subrange(i, i + p.len()) == p
}

/// The first place from `i` on at which `p` stands in `s`.
pub open spec fn found_from(s: Seq<char>, p: Seq<char>, i: int) -> Option<int>
    decreases s.len() + 1 - i,
{
    if i < 0 || i + p.len() > s.len() {
        None
    } else if occurs_at(s, p, i) {
        Some(i)
    } else {
        found_from(s, p, i + 1)
    }
}

/// The first place at which `p` stands in `s`.
pub open spec fn found(s: Seq<char>, p: Seq<char>) -> Option<int> {
    found_from(s, p, 0)
}

fn matches_at(s: &Vec<char>, p: &Vec<char>, i: usize) -> (r: bool)
    requires
        i <= s.len(),
    ensures
        r == occurs_at(s@, p@, i as int),
{
    if s.len() - i < p.len() {
        return false;
    }
    let mut k: usize = 0;
    while k < p.len()
        invariant
            i + p.len() <= s.len(),
            k <= p.len(),
            forall|j: int| 0 <= j < k ==> s[i + j] == p[j],
        decreases p.len() - k,
    {
        if s[i + k] != p[k] {
            assert(s@.subrange(i as int, i + p@.len())[k as int] != p@[k as int]);
            return false;
        }
        k += 1;
    }
    assert(s@.subrange(i as int, i + p@.len()) =~= p@);
    true
}

/// Finds the first occurrence of a text.
pub fn find(s: &str, p: &str) -> (r: Option<usize>)
    ensures
        r == match found(s@, p@) {
            Some(i) => Some(i as usize),
            None => None,
        },
        r matches Some(i) ==> found(s@, p@) == Some(i as int) && i + p@.len() <= s@.len(),
        r matches Some(i) ==> i + p@.len() <= usize::MAX,
{
    let x = chars_of(s);
    let y = chars_of(p);
    if x.len() < y.len() {
        return None;
    }
    let last = x.len() - y.len();
    let mut i: usize = 0;
    loop
        invariant
            x@ == s@,
            y@ == p@,
            y.len() <= x.len(),
            last == x.len() - y.len(),
            i <= last,
            found(s@, p@) == found_from(s@, p@, i as int),
        decreases last - i,
    {
        if matches_at(&x, &y, i) {
            return Some(i);
        }
        if i == last {
            return None;
        }
        i += 1;
    }
}

/// The place of the first of the characters `c` from `i` on, or the end.
pub open spec fn index_from(s: Seq<char>, c: char, i: int) -> int
    decreases s.len() - i,
{
    if i < 0 || i >= s.len() {
        s.len() as int
    } else if s[i] == c {
        i
    } else {
        index_from(s, c, i + 1)
    }
}

/// The text before the first `c`; the whole text without one.
pub open spec fn before_first(s: Seq<char>, c: char) -> Seq<char> {
    s.take(index_from(s, c, 0))
}

pub proof fn lemma_index_from(s: Seq<char>, c: char, i: int)
    requires
        0 <= i <= s.len(),
    ensures
        i <= index_from(s, c, i) <= s.len(),
        index_from(s, c, i) < s.len() ==> s[index_from(s, c, i)] == c,
        forall|k: int| i <= k < index_from(s, c, i) ==> s[k] != c,
    decreases s.len() - i,
{
    if i < s.len() && s[i] != c {
        lemma_index_from(s, c, i + 1);
    }
}

fn first_index(s: &Vec<char>, c: char, from: usize) -> (r: usize)
    requires
        from <= s.len(),
    ensures
        r == index_from(s@, c, from as int),
        from <= r <= s.len(),
{
    let mut i: usize = from;
    while i < s.len() && s[i] != c
        invariant
            from <= i <= s.len(),
            index_from(s@, c, from as int) == index_from(s@, c, i as int),
        decreases s.len() - i,
    {
        i += 1;
    }
    i
}

/// The place of the last `c` before `i`, or -1.
pub open spec fn last_index_before(s: Seq<char>, c: char, i: int) -> int
    decreases i,
{
    if i <= 0 {
        -1
    } else if s[i - 1] == c {
        i - 1
    } else {
        last_index_before(s, c, i - 1)
    }
}

/// The two sides of the last `c`.
pub open spec fn split_at_last(s: Seq<char>, c: char) -> Option<(Seq<char>, Seq<char>)> {
    let i = last_index_before(s, c, s.len() as int);
    if i < 0 {
        None
    } else {
        Some((s.take(i), s.skip(i + 1)))
    }
}

/// Splits a text at the last occurrence of a character.
pub fn rsplit_once(s: &str, c: char) -> (r: Option<(String, String)>)
    ensures
        r.deep_view() == split_at_last(s@, c),
{
    let x = chars_of(s);
    let mut i: usize = x.len();
    while i > 0 && x[i - 1] != c
        invariant
            x@ == s@,
            i <= x.len(),
            last_index_before(s@, c, s@.len() as int) == last_index_before(s@, c, i as int),
        decreases i,
    {
        i -= 1;
    }
    if i == 0 {
        None
    } else {
        let left = text_between(&x, 0, i - 1);
        let right = text_between(&x, i, x.len());
        assert(s@.subrange(0, i - 1) =~= s@.take(i - 1));
        assert(s@.subrange(i as int, s@.len() as int) =~= s@.skip(i as int));
        Some((left, right))
    }
}

/// The part before the first `c`.
pub fn until_char(s: &str, c: char) -> (r: String)
    ensures
        r@ == before_first(s@, c),
{
    let x = chars_of(s);
    let i = first_index(&x, c, 0);
    let r = text_between(&x, 0, i);
    assert(s@.subrange(0, i as int) =~= s@.take(i as int));
    r
}

/// The pieces between the characters `c`.
pub open spec fn pieces(s: Seq<char>, c: char) -> Seq<Seq<char>>
    decreases s.len(),
{
    let i = index_from(s, c, 0);
    if 0 <= i < s.len() {
        seq![s.take(i)] + pieces(s.skip(i + 1), c)
    } else {
        seq![s]
    }
}

pub proof fn lemma_index_shift(s: Seq<char>, c: char, n: int, i: int)
    requires
        0 <= n <= s.len(),
        0 <= i <= s.len() - n,
    ensures
        index_from(s.skip(n), c, i) + n == index_from(s, c, n + i),
    decreases s.len() - n - i,
{
    if i < s.len() - n && s[n + i] != c {
        lemma_index_shift(s, c, n, i + 1);
    }
}

/// Splits a text at each occurrence of a character.
pub fn split(s: &str, c: char) -> (r: Vec<String>)
    ensures
        r.deep_view() == pieces(s@, c),
{
    let x = chars_of(s);
    let mut out: Vec<String> = Vec::new();
    let mut from: usize = 0;
    assert(s@.skip(0) =~= s@);
    assert(out.deep_view() =~= Seq::<Seq<char>>::empty());
    loop
        invariant
            x@ == s@,
            from <= x.len(),
            pieces(s@, c) == out.deep_view() + pieces(s@.skip(from as int), c),
        decreases x.len() - from,
    {
        let i = first_index(&x, c, from);
        let ghost out0 = out.deep_view();
        let ghost tail = s@.skip(from as int);
        proof {
            lemma_index_shift(s@, c, from as int, 0);
            lemma_index_from(s@, c, from as int);
        }
        let piece = text_between(&x, from, i);
        out.push(piece);
        proof {
            assert(piece@ =~= tail.take(i - from));
            assert(out.deep_view() =~= out0.push(piece@));
        }
        if i < x.len() {
            proof {
                assert(tail.skip(i - from + 1) =~= s@.skip(i + 1));
                assert(out.deep_view() + pieces(s@.skip(i + 1), c) =~= out0 + (seq![piece@]
                    + pieces(s@.skip(i + 1), c)));
            }
            from = i + 1;
        } else {
            proof {
                assert(tail.take(i - from) =~= tail);
                assert(out.deep_view() =~= out0 + seq![tail]);
            }
            return out;
        }
    }
}

// ── White space ────────────────────────────────────────────────────────────

/// The text behind its leading white space.
pub open spec fn trimmed_start(s: Seq<char>) -> Seq<char>
    decreases s.len(),
{
    if s.len() > 0 && is_space(s[0]) {
        trimmed_start(s.drop_first())
    } else {
        s
    }
}

/// The text before its trailing white space.
pub open spec fn trimmed_end(s: Seq<char>) -> Seq<char>
    decreases s.len(),
{
    if s.len() > 0 && is_space(s.last()) {
        trimmed_end(s.drop_last())
    } else {
        s
    }
}

/// The text without white space around it.
pub open spec fn trimmed(s: Seq<char>) -> Seq<char> {
    trimmed_end(trimmed_start(s))
}

/// Removes the white space around a text.
pub fn trim(s: &str) -> (r: String)
    ensures
        r@ == trimmed(s@),
{
    let x = chars_of(s);
    let mut from: usize = 0;
    assert(s@.skip(0) =~= s@);
    while from < x.len() && char_is_space(x[from])
        invariant
            x@ == s@,
            from <= x.len(),
            trimmed_start(s@) == trimmed_start(s@.skip(from as int)),
        decreases x.len() - from,
    {
        assert(s@.skip(from as int).drop_first() =~= s@.skip(from + 1));
        from += 1;
    }
    let ghost body = s@.skip(from as int);
    let mut to: usize = x.len();
    assert(body =~= s@.subrange(from as int, to as int));
    while to > from && char_is_space(x[to - 1])
        invariant
            x@ == s@,
            from <= to <= x.len(),
            trimmed_end(body) == trimmed_end(s@.subrange(from as int, to as int)),
        decreases to,
    {
        assert(s@.subrange(from as int, to as int).drop_last() =~= s@.subrange(
            from as int,
            to - 1,
        ));
        to -= 1;
    }
    text_between(&x, from, to)
}

/// The length of the leading run without white space.
pub open spec fn word_length(s: Seq<char>) -> nat
    decreases s.len(),
{
    if s.len() > 0 && !is_space(s[0]) {
        1 + word_length(s.drop_first())
    } else {
        0
    }
}

pub proof fn lemma_word_length(s: Seq<char>)
    ensures
        word_length(s) <= s.len(),
        forall|k: int| 0 <= k < word_length(s) ==> !is_space(#[trigger] s[k]),
        word_length(s) < s.len() ==> is_space(s[word_length(s) as int]),
    decreases s.len(),
{
    if s.len() > 0 && !is_space(s[0]) {
        lemma_word_length(s.drop_first());
        assert forall|k: int| 0 <= k < word_length(s) implies !is_space(#[trigger] s[k]) by {
            if k > 0 {
                assert(s.drop_first()[k - 1] == s[k]);
            }
        }
    }
}

pub proof fn lemma_trimmed_start(s: Seq<char>)
    ensures
        trimmed_start(s).len() <= s.len(),
        trimmed_start(s).len() > 0 ==> !is_space(trimmed_start(s)[0]),
    decreases s.len(),
{
    if s.len() > 0 && is_space(s[0]) {
        lemma_trimmed_start(s.drop_first());
    }
}

/// The runs of a text between white space.
pub open spec fn words(s: Seq<char>) -> Seq<Seq<char>>
    decreases s.len(),
{
    let t = trimmed_start(s);
    let n = word_length(t);
    if t.len() == 0 || t.len() > s.len() || n == 0 || n > t.len() {
        seq![]
    } else {
        seq![t.take(n as int)] + words(t.skip(n as int))
    }
}

/// Splits a text at its white space.
pub fn split_words(s: &str) -> (r: Vec<String>)
    ensures
        r.deep_view() == words(s@),
{
    let x = chars_of(s);
    let mut out: Vec<String> = Vec::new();
    let mut from: usize = 0;
    assert(s@.skip(0) =~= s@);
    assert(out.deep_view() =~= Seq::<Seq<char>>::empty());
    loop
        invariant
            x@ == s@,
            from <= x.len(),
            words(s@) == out.deep_view() + words(s@.skip(from as int)),
        decreases x.len() - from,
    {
        let ghost tail = s@.skip(from as int);
        let ghost out0 = out.deep_view();
        let mut a: usize = from;
        while a < x.len() && char_is_space(x[a])
            invariant
                x@ == s@,
                from <= a <= x.len(),
                tail == s@.skip(from as int),
                trimmed_start(tail) == trimmed_start(s@.skip(a as int)),
            decreases x.len() - a,
        {
            assert(s@.skip(a as int).drop_first() =~= s@.skip(a + 1));
            a += 1;
        }
        let ghost body = s@.skip(a as int);
        assert(trimmed_start(tail) == body);
        if a == x.len() {
            assert(words(tail) =~= Seq::<Seq<char>>::empty());
            assert(out.deep_view() + Seq::<Seq<char>>::empty() =~= out.deep_view());
            return out;
        }
        let mut b: usize = a;
        while b < x.len() && !char_is_space(x[b])
            invariant
                x@ == s@,
                a <= b <= x.len(),
                body == s@.skip(a as int),
                word_length(body) == (b - a) + word_length(s@.skip(b as int)),
            decreases x.len() - b,
        {
            assert(s@.skip(b as int).drop_first() =~= s@.skip(b + 1));
            b += 1;
        }
        assert(word_length(body) == b - a);
        let word = text_between(&x, a, b);
        out.push(word);
        proof {
            assert(word@ =~= body.take(b - a));
            assert(body.skip(b - a) =~= s@.skip(b as int));
            assert(out.deep_view() =~= out0.push(word@));
            assert(out.deep_view() + words(s@.skip(b as int)) =~= out0 + (seq![word@] + words(
                s@.skip(b as int),
            )));
        }
        from = b;
    }
}

/// The texts one behind the other, with `sep` between them.
pub open spec fn joined(texts: Seq<Seq<char>>, sep: Seq<char>) -> Seq<char>
    decreases texts.len(),
{
    if texts.len() == 0 {
        seq![]
    } else if texts.len() == 1 {
        texts[0]
    } else {
        joined(texts.drop_last(), sep) + sep + texts.last()
    }
}

/// Joins texts.
pub fn join(texts: &Vec<String>, sep: &str) -> (r: String)
    ensures
        r@ == joined(texts.deep_view(), sep@),
{
    let mut out = String::new();
    let mut i: usize = 0;
    let ghost all = texts.deep_view();
    while i < texts.len()
        invariant
            i <= texts.len(),
            all == texts.deep_view(),
            out@ == joined(all.take(i as int), sep@),
        decreases texts.len() - i,
    {
        proof {
            assert(all.take(i + 1).drop_last() =~= all.take(i as int));
        }
        if i > 0 {
            out.append(sep);
        }
        out.append(texts[i].as_str());
        assert(all[i as int] == texts[i as int]@);
        assert(Seq::<char>::empty() + texts[i as int]@ =~= texts[i as int]@);
        i += 1;
    }
    assert(all.take(all.len() as int) =~= all);
    out
}

// ── Replacement ────────────────────────────────────────────────────────────

/// The text with each `from` replaced by `to`, taken from the left.
pub open spec fn replaced(s: Seq<char>, from: Seq<char>, to: Seq<char>) -> Seq<char>
    decreases s.len(),
{
    if s.len() == 0 || from.len() == 0 {
        s
    } else if occurs_at(s, from, 0) {
        to + replaced(s.skip(from.len() as int), from, to)
    } else {
        seq![s[0]] + replaced(s.drop_first(), from, to)
    }
}

/// Replaces each occurrence of a nonempty text.
pub fn replace(s: &str, from: &str, to: &str) -> (r: String)
    requires
        from@.len() > 0,
    ensures
        r@ == replaced(s@, from@, to@),
{
    let x = chars_of(s);
    let p = chars_of(from);
    let mut out = String::new();
    let mut i: usize = 0;
    assert(s@.skip(0) =~= s@);
    assert(out@ + replaced(s@, from@, to@) =~= replaced(s@, from@, to@));
    while i < x.len()
        invariant
            x@ == s@,
            p@ == from@,
            p.len() > 0,
            i <= x.len(),
            replaced(s@, from@, to@) == out@ + replaced(s@.skip(i as int), from@, to@),
        decreases x.len() - i,
    {
        let ghost tail = s@.skip(i as int);
        let ghost out0 = out@;
        let here = matches_at(&x, &p, i);
        proof {
            if occurs_at(s@, from@, i as int) {
                assert(tail.subrange(0, from@.len() as int) =~= s@.subrange(
                    i as int,
                    i + from@.len(),
                ));
            }
            if occurs_at(tail, from@, 0) {
                assert(tail.subrange(0, from@.len() as int) =~= s@.subrange(
                    i as int,
                    i + from@.len(),
                ));
            }
            assert(here == occurs_at(tail, from@, 0));
        }
        if here {
            out.append(to);
            proof {
                assert(tail.skip(from@.len() as int) =~= s@.skip(i + from@.len()));
                assert(out@ + replaced(s@.skip(i + from@.len()), from@, to@) =~= out0 + (to@
                    + replaced(s@.skip(i + from@.len()), from@, to@)));
            }
            i += p.len();
        } else {
            out.push(x[i]);
            proof {
                assert(tail.drop_first() =~= s@.skip(i + 1));
                assert(out@ + replaced(s@.skip(i + 1), from@, to@) =~= out0 + (seq![tail[0]]
                    + replaced(s@.skip(i + 1), from@, to@)));
            }
            i += 1;
        }
    }
    assert(s@.skip(s@.len() as int) =~= Seq::<char>::empty());
    assert(out@ + Seq::<char>::empty() =~= out@);
    out
}

// ── Numbers ────────────────────────────────────────────────────────────────

/// The decimal digits of a number.
pub open spec fn digits(n: nat) -> Seq<char>
    decreases n,
{
    if n < 10 {
        seq![(48 + n) as char]
    } else {
        digits(n / 10).push((48 + n % 10) as char)
    }
}

/// The decimal text of a number.
pub open spec fn decimal(n: int) -> Seq<char> {
    if n < 0 {
        seq!['-'] + digits((-n) as nat)
    } else {
        digits(n as nat)
    }
}

/// The value of a row of digits.
pub open spec fn value_of(s: Seq<char>) -> nat
    decreases s.len(),
{
    if s.len() == 0 {
        0
    } else {
        (value_of(s.drop_last()) * 10 + (s.last() as int - 48)) as nat
    }
}

/// A nonempty row of digits.
pub open spec fn is_digits(s: Seq<char>) -> bool {
    s.len() > 0 && forall|i: int| 0 <= i < s.len() ==> is_digit(#[trigger] s[i])
}

/// A decimal number of 32 bits with an optional sign.
pub open spec fn is_i32_text(s: Seq<char>) -> bool {
    if s.len() > 0 && s[0] == '-' {
        is_digits(s.drop_first()) && value_of(s.drop_first()) <= 0x8000_0000
    } else if s.len() > 0 && s[0] == '+' {
        is_digits(s.drop_first()) && value_of(s.drop_first()) <= 0x7fff_ffff
    } else {
        is_digits(s) && value_of(s) <= 0x7fff_ffff
    }
}

fn push_digits(out: &mut String, n: u64)
    ensures
        final(out)@ == old(out)@ + digits(n as nat),
    decreases n,
{
    if n >= 10 {
        push_digits(out, n / 10);
    }
    let d: u8 = (n % 10) as u8;
    let c = (48u8 + d) as char;
    assert(c == (48 + n % 10) as char);
    let ghost out0 = out@;
    out.push(c);
    proof {
        if n < 10 {
            assert(out@ =~= old(out)@ + digits(n as nat));
        } else {
            assert(out@ =~= old(out)@ + digits((n / 10) as nat).push(c));
        }
    }
}

/// The decimal text of a number.
pub fn number_text(n: i64) -> (r: String)
    ensures
        r@ == decimal(n as int),
{
    let mut out = String::new();
    if n < 0 {
        out.push('-');
        let m: u64 = (-(n as i128)) as u64;
        push_digits(&mut out, m);
        assert(out@ =~= seq!['-'] + digits((-n) as nat));
    } else {
        push_digits(&mut out, n as u64);
        assert(out@ =~= digits(n as nat));
    }
    out
}

/// The decimal text of a count.
pub fn count_text(n: usize) -> (r: String)
    ensures
        r@ == digits(n as nat),
{
    let mut out = String::new();
    push_digits(&mut out, n as u64);
    assert(out@ =~= digits(n as nat));
    out
}

proof fn lemma_value_grows(s: Seq<char>, n: int)
    requires
        0 <= n <= s.len(),
        forall|i: int| n <= i < s.len() ==> is_digit(#[trigger] s[i]),
    ensures
        value_of(s.take(n)) <= value_of(s),
    decreases s.len() - n,
{
    if n < s.len() {
        lemma_value_grows(s, n + 1);
        assert(s.take(n + 1).drop_last() =~= s.take(n));
        assert(is_digit(s[n]));
    } else {
        assert(s.take(n) =~= s);
    }
}

/// The value of the digits from `from` on, unless it exceeds `limit`.
fn bounded_value(x: &Vec<char>, from: usize, limit: u64) -> (r: Option<u64>)
    requires
        from <= x.len(),
        limit <= 0xffff_ffff_ffff,
    ensures
        ({
            let s = x@.skip(from as int);
            if is_digits(s) && value_of(s) <= limit {
                r == Some(value_of(s) as u64) && value_of(s) == r->0
            } else {
                r is None
            }
        }),
{
    let ghost s = x@.skip(from as int);
    if from == x.len() {
        return None;
    }
    let mut i: usize = from;
    let mut all = true;
    while i < x.len()
        invariant
            from <= i <= x.len(),
            s == x@.skip(from as int),
            all == (forall|k: int| 0 <= k < i - from ==> is_digit(#[trigger] s[k])),
        decreases x.len() - i,
    {
        assert(s[i - from] == x@[i as int]);
        if !char_is_digit(x[i]) {
            all = false;
        }
        i += 1;
    }
    if !all {
        return None;
    }
    let mut value: u64 = 0;
    let mut i: usize = from;
    while i < x.len()
        invariant
            from <= i <= x.len(),
            s == x@.skip(from as int),
            limit <= 0xffff_ffff_ffff,
            is_digits(s),
            value <= limit,
            value == value_of(s.take(i - from)),
        decreases x.len() - i,
    {
        assert(s[i - from] == x@[i as int]);
        assert(is_digit(s[i - from]));
        let d: u64 = (x[i] as u32 - 48) as u64;
        value = value * 10 + d;
        proof {
            assert(s.take(i - from + 1).drop_last() =~= s.take(i - from));
            lemma_value_grows(s, i - from + 1);
        }
        if value > limit {
            return None;
        }
        i += 1;
    }
    assert(s.take(s.len() as int) =~= s);
    Some(value)
}

/// Tells whether a text is a decimal number of 32 bits.
pub fn is_i32(s: &str) -> (r: bool)
    ensures
        r == is_i32_text(s@),
{
    let x = chars_of(s);
    assert(s@.skip(0) =~= s@);
    if x.len() > 0 && x[0] == '-' {
        assert(s@.skip(1) =~= s@.drop_first());
        bounded_value(&x, 1, 0x8000_0000).is_some()
    } else if x.len() > 0 && x[0] == '+' {
        assert(s@.skip(1) =~= s@.drop_first());
        bounded_value(&x, 1, 0x7fff_ffff).is_some()
    } else {
        bounded_value(&x, 0, 0x7fff_ffff).is_some()
    }
}

/// Tells whether a text is a nonempty row of digits.
pub fn all_digits(s: &str) -> (r: bool)
    ensures
        r == is_digits(s@),
{
    let x = chars_of(s);
    let mut i: usize = 0;
    while i < x.len()
        invariant
            x@ == s@,
            i <= x.len(),
            forall|k: int| 0 <= k < i ==> is_digit(#[trigger] s@[k]),
        decreases x.len() - i,
    {
        assert(s@[i as int] == x@[i as int]);
        if !char_is_digit(x[i]) {
            return false;
        }
        i += 1;
    }
    x.len() > 0
}

/// The number that an unsigned decimal text stands for; a plus may lead it.
pub open spec fn unsigned_value(s: Seq<char>) -> Option<nat> {
    let body = if s.len() > 0 && s[0] == '+' {
        s.drop_first()
    } else {
        s
    };
    if is_digits(body) {
        Some(value_of(body))
    } else {
        None
    }
}

/// The number of an unsigned decimal text, up to a limit.
pub open spec fn number_up_to(s: Seq<char>, limit: int) -> Option<nat> {
    match unsigned_value(s) {
        Some(n) => if n <= limit {
            Some(n)
        } else {
            None
        },
        None => None,
    }
}

/// Reads an unsigned decimal number of 64 bits.
pub fn parse_u64(s: &str) -> (r: Option<u64>)
    ensures
        match r {
            Some(n) => number_up_to(s@, u64::MAX as int) == Some(n as nat),
            None => number_up_to(s@, u64::MAX as int) is None,
        },
{
    let x = chars_of(s);
    let from: usize = if x.len() > 0 && x[0] == '+' {
        1
    } else {
        0
    };
    let ghost body = s@.skip(from as int);
    proof {
        if from == 1 {
            assert(body =~= s@.drop_first());
        } else {
            assert(body =~= s@);
        }
    }
    let tail = text_between(&x, from, x.len());
    assert(tail@ =~= body);
    if !all_digits(tail.as_str()) {
        return None;
    }
    let y = chars_of(tail.as_str());
    let mut value: u64 = 0;
    let mut i: usize = 0;
    assert(body.take(0) =~= Seq::<char>::empty());
    while i < y.len()
        invariant
            y@ == body,
            is_digits(body),
            number_up_to(s@, u64::MAX as int) == (if value_of(body) <= u64::MAX {
                Some(value_of(body))
            } else {
                None
            }),
            i <= y.len(),
            value == value_of(body.take(i as int)),
        decreases y.len() - i,
    {
        assert(is_digit(body[i as int]));
        let d: u64 = (y[i] as u32 - 48) as u64;
        proof {
            assert(body.take(i + 1).drop_last() =~= body.take(i as int));
            lemma_value_grows(body, i + 1);
        }
        match value.checked_mul(10) {
            Some(tenfold) => match tenfold.checked_add(d) {
                Some(next) => {
                    value = next;
                },
                None => {
                    return None;
                },
            },
            None => {
                return None;
            },
        }
        i += 1;
    }
    assert(body.take(body.len() as int) =~= body);
    Some(value)
}

} // verus!
