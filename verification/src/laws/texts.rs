//! Texts taken apart and put together.

use crate::laws::settings;
use crate::paths;
use crate::text;
use vstd::prelude::*;

verus! {

// ── Pieces ─────────────────────────────────────────────────────────────────

/// A character stands nowhere in a text.
pub open spec fn is_free_of(s: Seq<char>, c: char) -> bool {
    forall|i: int| 0 <= i < s.len() ==> #[trigger] s[i] != c
}

proof fn lemma_index_is(s: Seq<char>, c: char, from: int, at: int)
    requires
        0 <= from <= at <= s.len(),
        forall|k: int| from <= k < at ==> s[k] != c,
        at < s.len() ==> s[at] == c,
    ensures
        text::index_from(s, c, from) == at,
    decreases at - from,
{
    if from < at {
        lemma_index_is(s, c, from + 1, at);
    }
}

/// Texts with a separator between them are split where it stands: the pieces
/// of the whole are those of the one and those of the other.
pub proof fn law_pieces_of_two_texts(a: Seq<char>, c: char, b: Seq<char>)
    ensures
        text::pieces(a + seq![c] + b, c) == text::pieces(a, c) + text::pieces(b, c),
    decreases a.len(),
{
    let s = a + seq![c] + b;
    let i = text::index_from(a, c, 0);
    text::lemma_index_from(a, c, 0);
    assert forall|k: int| 0 <= k < i implies s[k] != c by {
        assert(s[k] == a[k]);
    }
    if i < a.len() {
        assert(s[i] == a[i]);
        lemma_index_is(s, c, 0, i);
        law_pieces_of_two_texts(a.skip(i + 1), c, b);
        assert(s.skip(i + 1) =~= a.skip(i + 1) + seq![c] + b);
        assert(s.take(i) =~= a.take(i));
        assert(text::pieces(s, c) =~= text::pieces(a, c) + text::pieces(b, c));
    } else {
        assert(s[i] == c);
        lemma_index_is(s, c, 0, i);
        assert(s.skip(i + 1) =~= b);
        assert(s.take(i) =~= a);
        assert(text::pieces(s, c) =~= text::pieces(a, c) + text::pieces(b, c));
    }
}

/// A text without the separator is one piece.
pub proof fn law_text_without_separator_is_one_piece(s: Seq<char>, c: char)
    requires
        is_free_of(s, c),
    ensures
        text::pieces(s, c) == seq![s],
{
    lemma_index_is(s, c, 0, s.len() as int);
}

/// Pieces hold no separator, and joined with it they make the text again.
pub proof fn law_pieces_make_the_text(s: Seq<char>, c: char)
    ensures
        text::pieces(s, c).len() > 0,
        forall|i: int|
            0 <= i < text::pieces(s, c).len() ==> is_free_of(#[trigger] text::pieces(s, c)[i], c),
        text::joined(text::pieces(s, c), seq![c]) == s,
    decreases s.len(),
{
    let i = text::index_from(s, c, 0);
    text::lemma_index_from(s, c, 0);
    if i < s.len() {
        let rest = s.skip(i + 1);
        law_pieces_make_the_text(rest, c);
        let all = text::pieces(s, c);
        assert(is_free_of(s.take(i), c));
        assert forall|k: int| 0 <= k < all.len() implies is_free_of(#[trigger] all[k], c) by {
            if k > 0 {
                assert(all[k] == text::pieces(rest, c)[k - 1]);
            }
        }
        lemma_joined_front(s.take(i), text::pieces(rest, c), seq![c]);
        assert(s.take(i) + seq![c] + rest =~= s);
    }
}

/// Joining puts the first text, the separator and the joined rest together.
pub(crate) proof fn lemma_joined_front(first: Seq<char>, rest: Seq<Seq<char>>, sep: Seq<char>)
    requires
        rest.len() > 0,
    ensures
        text::joined(seq![first] + rest, sep) == first + sep + text::joined(rest, sep),
    decreases rest.len(),
{
    let all = seq![first] + rest;
    if rest.len() == 1 {
        assert(all.drop_last() =~= seq![first]);
        assert(text::joined(all.drop_last(), sep) == first);
        assert(all.last() == rest[0]);
    } else {
        assert(all.drop_last() =~= seq![first] + rest.drop_last());
        lemma_joined_front(first, rest.drop_last(), sep);
        assert(first + sep + text::joined(rest.drop_last(), sep) + sep + rest.last() =~= first + sep
            + (text::joined(rest.drop_last(), sep) + sep + rest.last()));
    }
}

// ── Words ──────────────────────────────────────────────────────────────────

/// A nonempty text without white space.
pub open spec fn is_word(s: Seq<char>) -> bool {
    s.len() > 0 && forall|i: int| 0 <= i < s.len() ==> !text::is_space(#[trigger] s[i])
}

proof fn lemma_word_length_is(s: Seq<char>, n: nat)
    requires
        n <= s.len(),
        forall|i: int| 0 <= i < n ==> !text::is_space(#[trigger] s[i]),
        n < s.len() ==> text::is_space(s[n as int]),
    ensures
        text::word_length(s) == n,
    decreases n,
{
    if n > 0 {
        let rest = s.drop_first();
        assert(!text::is_space(s[0]));
        assert forall|i: int| 0 <= i < n - 1 implies !text::is_space(#[trigger] rest[i]) by {
            assert(rest[i] == s[i + 1]);
        }
        lemma_word_length_is(rest, (n - 1) as nat);
    }
}

/// White space before a text leaves its words as they are, and a word before
/// white space is the first of all.
pub proof fn law_words_are_split_by_white_space(word: Seq<char>, rest: Seq<char>)
    requires
        is_word(word),
        rest.len() > 0 ==> text::is_space(rest[0]),
    ensures
        text::words(word + rest) == seq![word] + text::words(rest),
{
    let s = word + rest;
    assert(s[0] == word[0]);
    assert(text::trimmed_start(s) == s);
    assert forall|i: int| 0 <= i < word.len() implies !text::is_space(#[trigger] s[i]) by {
        assert(s[i] == word[i]);
    }
    lemma_word_length_is(s, word.len());
    assert(s.take(word.len() as int) =~= word);
    assert(s.skip(word.len() as int) =~= rest);
}

/// White space before a text leaves its words as they are.
pub proof fn law_leading_white_space_is_no_word(c: char, s: Seq<char>)
    requires
        text::is_space(c),
    ensures
        text::words(seq![c] + s) == text::words(s),
        text::words(Seq::<char>::empty()).len() == 0,
{
    let t = seq![c] + s;
    assert(t.drop_first() =~= s);
    assert(text::trimmed_start(t) == text::trimmed_start(s));
    text::lemma_trimmed_start(s);
    text::lemma_word_length(text::trimmed_start(s));
}

/// Words with one blank between them are read back.
pub proof fn law_joined_words_are_read_back(words: Seq<Seq<char>>)
    requires
        forall|i: int| 0 <= i < words.len() ==> is_word(#[trigger] words[i]),
    ensures
        text::words(text::joined(words, " "@)) == words,
    decreases words.len(),
{
    reveal_strlit(" ");
    assert(" "@ =~= seq![' ']);
    if words.len() == 0 {
        law_leading_white_space_is_no_word(' ', Seq::<char>::empty());
    } else {
        let first = words[0];
        let rest = words.drop_first();
        assert(is_word(first));
        assert forall|i: int| 0 <= i < rest.len() implies is_word(#[trigger] rest[i]) by {
            assert(rest[i] == words[i + 1]);
        }
        law_joined_words_are_read_back(rest);
        law_leading_white_space_is_no_word(' ', text::joined(rest, " "@));
        assert(words =~= seq![first] + rest);
        if rest.len() > 0 {
            lemma_joined_front(first, rest, " "@);
            let behind = seq![' '] + text::joined(rest, " "@);
            assert(text::joined(words, " "@) =~= first + behind);
            law_words_are_split_by_white_space(first, behind);
        } else {
            law_words_are_split_by_white_space(first, Seq::<char>::empty());
            assert(first + Seq::<char>::empty() =~= first);
        }
    }
}

// ── Paths ──────────────────────────────────────────────────────────────────

/// A name that can stand in a path.
pub open spec fn is_file_name(name: Seq<char>) -> bool {
    name.len() > 0 && is_free_of(name, '/') && name != "."@ && name != ".."@
}

/// Nothing, or the path of a directory up to its last slash.
pub open spec fn is_directory_part(s: Seq<char>) -> bool {
    s.len() == 0 || s.last() == '/'
}

/// The last name of a path is what stands behind its last slash, and the whole
/// of a bare name; slashes at the end do not count.
pub proof fn law_last_name_of_a_path(directory: Seq<char>, name: Seq<char>)
    requires
        is_directory_part(directory),
        is_file_name(name),
    ensures
        paths::base_name(directory + name) == Some(name),
        paths::base_name(directory + name + seq!['/']) == Some(name),
{
    reveal_strlit(".");
    reveal_strlit("..");
    assert("."@ =~= seq!['.']);
    assert(".."@ =~= seq!['.', '.']);
    law_text_without_separator_is_one_piece(name, '/');
    let path = directory + name;
    let rooted = paths::is_rooted(path);
    if directory.len() == 0 {
        assert(path =~= name);
        assert(seq![name].drop_last() =~= Seq::<Seq<char>>::empty());
    } else {
        let d = directory.drop_last();
        assert(path =~= d + seq!['/'] + name);
        law_pieces_of_two_texts(d, '/', name);
        law_pieces_make_the_text(d, '/');
    }
    let all = text::pieces(path, '/');
    assert(all.len() > 0 && all.last() == name);
    assert(paths::counted(all, rooted).last() == name);
    let longer = path + seq!['/'];
    assert(longer =~= path + seq!['/'] + Seq::<char>::empty());
    law_pieces_of_two_texts(path, '/', Seq::<char>::empty());
    law_text_without_separator_is_one_piece(Seq::<char>::empty(), '/');
    let more = text::pieces(longer, '/');
    assert(more.drop_last() =~= all);
    assert(paths::is_rooted(longer) == rooted) by {
        assert(longer[0] == path[0]);
    }
    assert(more.last() =~= Seq::<char>::empty());
    assert(paths::counted(more, rooted) == paths::counted(all, rooted));
}

/// A slash at the end does not change a path, nor does one where a slash
/// stands already, nor a dot behind a slash; a path is itself.
pub proof fn law_same_paths(a: Seq<char>, b: Seq<char>)
    requires
        a.len() > 0,
    ensures
        paths::same_path(a, a),
        paths::same_path(a, a + seq!['/']),
        paths::same_path(a + seq!['/'] + b, a + seq!['/', '/'] + b),
        paths::same_path(a + seq!['/'] + b, a + seq!['/', '.', '/'] + b),
{
    let end = Seq::<char>::empty();
    let slash = seq!['/'];
    let rooted = paths::is_rooted(a);
    let first = text::pieces(a, '/');
    let last = text::pieces(b, '/');
    law_pieces_make_the_text(a, '/');
    law_text_without_separator_is_one_piece(end, '/');
    law_text_without_separator_is_one_piece(seq!['.'], '/');
    assert(a + slash =~= a + slash + end);
    law_pieces_of_two_texts(a, '/', end);
    assert((a + slash)[0] == a[0]);
    lemma_counted_concat(first, seq![end], rooted);
    lemma_uncounted(end);
    lemma_uncounted(seq!['.']);
    assert(paths::counted(first, rooted) + Seq::<Seq<char>>::empty() =~= paths::counted(
        first,
        rooted,
    ));
    law_pieces_of_two_texts(a, '/', b);
    lemma_counted_concat(first, last, rooted);
    assert((a + slash + b)[0] == a[0]);
    // Two slashes.
    let two = a + seq!['/', '/'] + b;
    assert(two =~= a + slash + (end + slash + b));
    assert(two[0] == a[0]);
    law_pieces_of_two_texts(end, '/', b);
    law_pieces_of_two_texts(a, '/', end + slash + b);
    assert(first + (seq![end] + last) =~= (first + seq![end]) + last);
    lemma_counted_concat(first + seq![end], last, rooted);
    // A dot between two slashes.
    let dot = seq!['.'];
    let dotted = a + seq!['/', '.', '/'] + b;
    assert(dotted =~= a + slash + (dot + slash + b));
    assert(dotted[0] == a[0]);
    law_pieces_of_two_texts(dot, '/', b);
    law_pieces_of_two_texts(a, '/', dot + slash + b);
    assert(first + (seq![dot] + last) =~= (first + seq![dot]) + last);
    lemma_counted_concat(first + seq![dot], last, rooted);
    lemma_counted_concat(first, seq![dot], rooted);
}

proof fn lemma_uncounted(piece: Seq<char>)
    requires
        piece.len() == 0 || piece == seq!['.'],
    ensures
        counted_behind(seq![piece]) == Seq::<Seq<char>>::empty(),
{
    assert(seq![piece].drop_last() =~= Seq::<Seq<char>>::empty());
    assert(counted_behind(seq![piece].drop_last()) == Seq::<Seq<char>>::empty());
}

spec fn counted_behind(all: Seq<Seq<char>>) -> Seq<Seq<char>>
    decreases all.len(),
{
    if all.len() == 0 {
        seq![]
    } else if paths::counts(all.last(), false) {
        counted_behind(all.drop_last()).push(all.last())
    } else {
        counted_behind(all.drop_last())
    }
}

proof fn lemma_counted_concat(a: Seq<Seq<char>>, b: Seq<Seq<char>>, rooted: bool)
    requires
        a.len() > 0,
    ensures
        paths::counted(a + b, rooted) == paths::counted(a, rooted) + counted_behind(b),
    decreases b.len(),
{
    if b.len() == 0 {
        assert(a + b =~= a);
        assert(paths::counted(a, rooted) + counted_behind(b) =~= paths::counted(a, rooted));
    } else {
        assert((a + b).drop_last() =~= a + b.drop_last());
        assert((a + b).last() == b.last());
        lemma_counted_concat(a, b.drop_last(), rooted);
        assert(paths::counted(a, rooted) + counted_behind(b.drop_last()).push(b.last())
            =~= (paths::counted(a, rooted) + counted_behind(b.drop_last())).push(b.last()));
    }
}

/// Paths that differ in their last name differ.
pub proof fn law_other_names_are_other_paths(directory: Seq<char>, a: Seq<char>, b: Seq<char>)
    requires
        is_directory_part(directory),
        is_file_name(a),
        is_file_name(b),
        a != b,
    ensures
        !paths::same_path(directory + a, directory + b),
{
    law_last_name_of_a_path(directory, a);
    law_last_name_of_a_path(directory, b);
}

// ── Letters ────────────────────────────────────────────────────────────────

/// An ASCII letter in the other case.
pub open spec fn is_other_case(a: char, b: char) -> bool {
    ||| 'A' <= a && a <= 'Z' && b as int == a as int + 32
    ||| 'a' <= a && a <= 'z' && b as int == a as int - 32
}

/// Texts are the same up to case exactly if they are equally long and agree
/// at each place, but for the case of ASCII letters.
pub proof fn law_same_up_to_case(a: Seq<char>, b: Seq<char>)
    ensures
        text::same_ignoring_case(a, b) <==> a.len() == b.len() && forall|i: int|
            0 <= i < a.len() ==> #[trigger] a[i] == b[i] || is_other_case(a[i], b[i]),
{
    let x = text::lowered(a);
    let y = text::lowered(b);
    if text::same_ignoring_case(a, b) {
        assert(x.len() == a.len());
        assert(y.len() == b.len());
        assert forall|i: int| 0 <= i < a.len() implies #[trigger] a[i] == b[i] || is_other_case(
            a[i],
            b[i],
        ) by {
            assert(x[i] == y[i]);
            lemma_lower(a[i]);
            lemma_lower(b[i]);
        }
    }
    if a.len() == b.len() && forall|i: int|
        0 <= i < a.len() ==> #[trigger] a[i] == b[i] || is_other_case(a[i], b[i]) {
        assert forall|i: int| 0 <= i < x.len() implies #[trigger] x[i] == y[i] by {
            assert(a[i] == b[i] || is_other_case(a[i], b[i]));
            lemma_lower(a[i]);
            lemma_lower(b[i]);
        }
        assert(x =~= y);
    }
}

proof fn lemma_lower(c: char)
    ensures
        'A' <= c && c <= 'Z' ==> text::lower(c) as int == c as int + 32,
        !('A' <= c && c <= 'Z') ==> text::lower(c) == c,
{
}

/// A text starts with another up to case exactly if its front does.
pub proof fn law_start_up_to_case(front: Seq<char>, rest: Seq<char>, p: Seq<char>)
    requires
        front.len() == p.len(),
    ensures
        text::starts_with_ignoring_case(front + rest, p) <==> text::same_ignoring_case(front, p),
        text::starts_with(front + rest, p) <==> front == p,
        text::without_prefix(front + rest, front) == Some(rest),
{
    let s = front + rest;
    assert(s.take(p.len() as int) =~= front);
    assert(s.skip(front.len() as int) =~= rest);
}

// ── White space ────────────────────────────────────────────────────────────

/// Nothing but white space.
pub open spec fn is_blank(s: Seq<char>) -> bool {
    forall|i: int| 0 <= i < s.len() ==> text::is_space(#[trigger] s[i])
}

/// Trimming takes the white space around a text away, and nothing else.
pub proof fn law_trimming_takes_white_space_away(
    before: Seq<char>,
    body: Seq<char>,
    after: Seq<char>,
)
    requires
        is_blank(before),
        is_blank(after),
        body.len() > 0 ==> !text::is_space(body[0]) && !text::is_space(body.last()),
    ensures
        text::trimmed(before + body + after) == body,
{
    let s = before + body + after;
    if body.len() == 0 {
        assert(s =~= before + after);
        assert(is_blank(s));
        lemma_blank_start(s, Seq::<char>::empty());
        assert(s + Seq::<char>::empty() =~= s);
        assert(text::trimmed_start(s) == Seq::<char>::empty());
        assert(body =~= Seq::<char>::empty());
    } else {
        assert(s =~= before + (body + after));
        assert((body + after)[0] == body[0]);
        lemma_blank_start(before, body + after);
        lemma_blank_end(body, after);
    }
}

proof fn lemma_blank_start(before: Seq<char>, s: Seq<char>)
    requires
        is_blank(before),
        s.len() > 0 ==> !text::is_space(s[0]),
    ensures
        text::trimmed_start(before + s) == s,
    decreases before.len(),
{
    if before.len() == 0 {
        assert(before + s =~= s);
    } else {
        assert((before + s)[0] == before[0]);
        assert((before + s).drop_first() =~= before.drop_first() + s);
        assert forall|i: int| 0 <= i < before.drop_first().len() implies text::is_space(
            #[trigger] before.drop_first()[i],
        ) by {
            assert(before.drop_first()[i] == before[i + 1]);
        }
        lemma_blank_start(before.drop_first(), s);
    }
}

proof fn lemma_blank_end(s: Seq<char>, after: Seq<char>)
    requires
        is_blank(after),
        s.len() > 0,
        !text::is_space(s.last()),
    ensures
        text::trimmed_end(s + after) == s,
    decreases after.len(),
{
    if after.len() == 0 {
        assert(s + after =~= s);
    } else {
        let front = after.drop_last();
        assert((s + after).last() == after[after.len() - 1]);
        assert((s + after).drop_last() =~= s + front);
        assert forall|i: int| 0 <= i < front.len() implies text::is_space(#[trigger] front[i]) by {
            assert(front[i] == after[i]);
        }
        lemma_blank_end(s, front);
    }
}

/// Blanks, tabs and the ends of lines are white space; letters, digits and
/// the marks of paths and commands are not.
pub proof fn law_white_space(c: char)
    ensures
        c == ' ' || c == '\t' || c == '\n' || c == '\r' ==> text::is_space(c),
        'a' <= c && c <= 'z' || 'A' <= c && c <= 'Z' || '0' <= c && c <= '9' ==> !text::is_space(c),
        c == '/' || c == '-' || c == '_' || c == '.' || c == ',' || c == ':' || c == '='
            ==> !text::is_space(c),
{
}

// ── Numbers ────────────────────────────────────────────────────────────────

/// A number that fits is read from its digits, with a plus or without; one
/// that does not fit, and any text with another character in it, is not.
pub proof fn law_numbers_are_read(n: nat, limit: int, s: Seq<char>, i: int)
    requires
        limit >= 0,
    ensures
        n <= limit ==> text::number_up_to(text::digits(n), limit) == Some(n),
        n <= limit ==> text::number_up_to(seq!['+'] + text::digits(n), limit) == Some(n),
        n > limit ==> text::number_up_to(text::digits(n), limit) is None,
        text::number_up_to(seq![], limit) is None,
        0 < i < s.len() && !('0' <= s[i] && s[i] <= '9') ==> text::number_up_to(s, limit) is None,
        n <= 0x7fff_ffff ==> text::is_i32_text(text::digits(n)),
        0 < n <= 0x8000_0000 ==> text::is_i32_text(seq!['-'] + text::digits(n)),
        n > 0x7fff_ffff ==> !text::is_i32_text(text::digits(n)),
        0 < i < s.len() && !('0' <= s[i] && s[i] <= '9') ==> !text::is_i32_text(s),
{
    settings::lemma_digits_value(n);
    let d = text::digits(n);
    assert(text::is_digit(d[0]));
    assert((seq!['+'] + d).drop_first() =~= d);
    assert((seq!['-'] + d).drop_first() =~= d);
    if 0 < i < s.len() && !('0' <= s[i] && s[i] <= '9') {
        assert(!text::is_digit(s[i]));
        assert(s.drop_first()[i - 1] == s[i]);
    }
}

// ── Order ──────────────────────────────────────────────────────────────────

/// Texts are ordered as in a dictionary: by the first character in which they
/// differ, and a text before any longer one that starts with it.
pub proof fn law_dictionary_order(front: Seq<char>, a: Seq<char>, b: Seq<char>)
    requires
        a.len() == 0 || b.len() == 0 || a[0] != b[0],
    ensures
        a.len() == 0 && b.len() > 0 ==> text::comes_before(front + a, front + b),
        b.len() == 0 ==> !text::comes_before(front + a, front + b),
        a.len() > 0 && b.len() > 0 ==> (text::comes_before(front + a, front + b) <==> a[0] < b[0]),
    decreases front.len(),
{
    if front.len() == 0 {
        assert(front + a =~= a);
        assert(front + b =~= b);
    } else {
        let rest = front.drop_first();
        law_dictionary_order(rest, a, b);
        assert((front + a).drop_first() =~= rest + a);
        assert((front + b).drop_first() =~= rest + b);
        assert((front + a)[0] == (front + b)[0]);
    }
}

} // verus!
