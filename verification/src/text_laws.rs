//! What holds of texts: trimming, splitting, searching, joining and counting.

use crate::laws::{
    all_white, lemma_no_words, lemma_one_word, lemma_trimmed_end_cut, lemma_trimmed_end_white,
    lemma_words_follow, none_white,
};
use crate::text::{
    ascii_lowercase, before, content, decimal, digit, has_part, is_ascii_text, joined, len_before,
    lemma_len_before, lines, part_at, str_content, trimmed, trimmed_end, trimmed_start, white_space,
    words,
};
use vstd::prelude::*;

verus! {

/// Whether a text is white space, a core, and white space again.
pub open spec fn is_core(text: Seq<char>, front: Seq<char>, core: Seq<char>, back: Seq<char>) -> bool {
    text == front + core + back && all_white(front) && all_white(back)
}

proof fn lemma_trimmed_start_cut(text: Seq<char>)
    ensures
        trimmed_start(text).len() <= text.len(),
        all_white(text.take(text.len() - trimmed_start(text).len())),
        trimmed_start(text) == text.skip(text.len() - trimmed_start(text).len()),
        trimmed_start(text).len() > 0 ==> !white_space(trimmed_start(text)[0]),
    decreases text.len(),
{
    if text.len() > 0 && white_space(text[0]) {
        let rest = text.drop_first();
        lemma_trimmed_start_cut(rest);
        let n = text.len() - trimmed_start(text).len();
        assert forall|i: int| 0 <= i < n implies white_space(#[trigger] text.take(n)[i]) by {
            if i > 0 {
                assert(text.take(n)[i] == rest.take(n - 1)[i - 1]);
            }
        }
        assert(text.skip(n) =~= rest.skip(n - 1));
    } else {
        assert(text.skip(0) =~= text);
    }
}

/// Trimming takes white space off both ends, and only that: what is left neither starts nor ends in
/// white space.
pub proof fn law_trimming_takes_white_space_only(text: Seq<char>)
    ensures
        exists|front: Seq<char>, back: Seq<char>| #[trigger]
            is_core(text, front, trimmed(text), back),
        trimmed(text).len() > 0 ==> !white_space(trimmed(text)[0]) && !white_space(
            trimmed(text).last(),
        ),
        exists|back: Seq<char>| #[trigger]
            is_core(text, Seq::empty(), trimmed_end(text), back),
        trimmed_end(text).len() > 0 ==> !white_space(trimmed_end(text).last()),
{
    let head = trimmed_end(text);
    let back = text.skip(head.len() as int);
    lemma_trimmed_end_cut(text);
    lemma_trimmed_end_white(text);
    lemma_trimmed_start_cut(head);
    let n = head.len() - trimmed(text).len();
    let front = head.take(n);
    assert(head =~= front + trimmed(text));
    assert(text =~= front + trimmed(text) + back);
    assert(is_core(text, front, trimmed(text), back));
    assert(text =~= Seq::<char>::empty() + head + back);
    assert(is_core(text, Seq::empty(), head, back));
    if trimmed(text).len() > 0 {
        assert(trimmed(text).last() == head.last());
    }
}

/// Trimming white space leaves nothing.
pub proof fn law_trimming_white_space_leaves_nothing(text: Seq<char>)
    requires
        all_white(text),
    ensures
        trimmed(text).len() == 0,
        trimmed_end(text).len() == 0,
{
    let head = trimmed_end(text);
    lemma_trimmed_end_white(text);
    lemma_trimmed_end_cut(text);
    if head.len() > 0 {
        assert(text[head.len() - 1] == head.last());
    }
}

/// White space has no words; a text without white space is one word; and the words of two texts
/// follow each other where white space stands between.
pub proof fn law_words_are_what_white_space_parts(a: Seq<char>, b: Seq<char>, word: Seq<char>)
    requires
        a.len() == 0 || white_space(a.last()),
        word.len() > 0,
        none_white(word),
    ensures
        all_white(b) ==> words(b).len() == 0,
        words(word) == seq![word],
        words(a + b) == words(a) + words(b),
{
    if all_white(b) {
        lemma_no_words(b);
    }
    lemma_one_word(word);
    lemma_words_follow(a, b);
}

/// A text without words is white space only.
pub proof fn law_no_words_is_white_space(text: Seq<char>)
    requires
        words(text).len() == 0,
    ensures
        all_white(text),
    decreases text.len(),
{
    if text.len() > 0 {
        let rest = text.drop_first();
        law_no_words_is_white_space(rest);
        assert forall|i: int| 0 <= i < text.len() implies white_space(#[trigger] text[i]) by {
            if i > 0 {
                assert(text[i] == rest[i - 1]);
            }
        }
    }
}

proof fn lemma_before(text: Seq<char>, mark: char)
    ensures
        len_before(text, mark) <= text.len(),
        forall|i: int| 0 <= i < len_before(text, mark) ==> #[trigger] text[i] != mark,
        len_before(text, mark) < text.len() ==> text[len_before(text, mark) as int] == mark,
    decreases text.len(),
{
    if text.len() > 0 && text[0] != mark {
        let rest = text.drop_first();
        lemma_before(rest, mark);
        assert forall|i: int| 0 <= i < len_before(text, mark) implies #[trigger] text[i]
            != mark by {
            if i > 0 {
                assert(text[i] == rest[i - 1]);
            }
        }
        if len_before(text, mark) < text.len() {
            assert(rest[len_before(rest, mark) as int] == text[len_before(rest, mark) as int + 1]);
        }
    }
}

/// What stands before a mark: the start of the text up to the first mark, or all of it.
pub proof fn law_before_ends_at_the_first_mark(text: Seq<char>, mark: char)
    ensures
        before(text, mark).len() <= text.len(),
        before(text, mark) == text.take(before(text, mark).len() as int),
        !before(text, mark).contains(mark),
        text.contains(mark) ==> before(text, mark).len() < text.len()
            && text[before(text, mark).len() as int] == mark,
{
    lemma_before(text, mark);
    assert(before(text, mark) =~= text.take(before(text, mark).len() as int));
    if text.contains(mark) {
        let i = choose|i: int| 0 <= i < text.len() && text[i] == mark;
        assert(len_before(text, mark) <= i);
    }
}

/// Whether a text is a part with something before and behind it.
pub open spec fn is_around(text: Seq<char>, front: Seq<char>, part: Seq<char>, back: Seq<char>) -> bool {
    text == front + part + back
}

/// A text holds a part exactly where it is the part with something before and behind it.
pub proof fn law_parts(text: Seq<char>, part: Seq<char>)
    ensures
        has_part(text, part) <==> exists|front: Seq<char>, back: Seq<char>| #[trigger]
            is_around(text, front, part, back),
{
    if has_part(text, part) {
        let at = choose|at: int| #[trigger] part_at(text, part, at);
        let (front, back) = (text.take(at), text.skip(at + part.len()));
        assert(text =~= front + text.subrange(at, at + part.len()) + back);
        assert(is_around(text, front, part, back));
    }
    if exists|front: Seq<char>, back: Seq<char>| #[trigger] is_around(text, front, part, back) {
        let (front, back) = choose|front: Seq<char>, back: Seq<char>| #[trigger]
            is_around(text, front, part, back);
        assert(text.subrange(front.len() as int, (front.len() + part.len()) as int) =~= part);
        assert(part_at(text, part, front.len() as int));
    }
}

/// Joined pieces are the one, then the separator, then the others joined.
pub proof fn law_joined(pieces: Seq<Seq<char>>, others: Seq<Seq<char>>, separator: Seq<char>)
    ensures
        pieces.len() == 0 ==> joined(pieces, separator).len() == 0,
        pieces.len() == 1 ==> joined(pieces, separator) == pieces[0],
        pieces.len() > 0 && others.len() > 0 ==> joined(pieces + others, separator) == joined(
            pieces,
            separator,
        ) + separator + joined(others, separator),
    decreases others.len(),
{
    if pieces.len() > 0 && others.len() > 0 {
        let init = others.drop_last();
        assert((pieces + others).drop_last() =~= pieces + init);
        assert((pieces + others).last() == others.last());
        if others.len() > 1 {
            law_joined(pieces, init, separator);
            assert(joined(pieces + others, separator) =~= joined(pieces, separator) + separator
                + joined(others, separator));
        } else {
            assert(pieces + init =~= pieces);
        }
    }
}

/// Each piece is a part of the joined text.
pub proof fn law_joined_holds_each_piece(pieces: Seq<Seq<char>>, separator: Seq<char>, k: int)
    requires
        0 <= k < pieces.len(),
    ensures
        has_part(joined(pieces, separator), pieces[k]),
    decreases pieces.len(),
{
    let whole = joined(pieces, separator);
    law_parts(whole, pieces[k]);
    if pieces.len() == 1 {
        let none = Seq::<char>::empty();
        assert(whole =~= none + pieces[k] + none);
        assert(is_around(whole, none, pieces[k], none));
    } else if k == pieces.len() - 1 {
        let front = joined(pieces.drop_last(), separator) + separator;
        assert(whole =~= front + pieces[k] + Seq::<char>::empty());
        assert(is_around(whole, front, pieces[k], Seq::empty()));
    } else {
        let init = pieces.drop_last();
        let head = joined(init, separator);
        law_joined_holds_each_piece(init, separator, k);
        law_parts(head, init[k]);
        let (front, back) = choose|front: Seq<char>, back: Seq<char>| #[trigger]
            is_around(head, front, init[k], back);
        let rest = back + separator + pieces.last();
        assert(whole =~= front + pieces[k] + rest);
        assert(is_around(whole, front, pieces[k], rest));
    }
}

/// A line feed ends a line, and a carriage return before it belongs to the end.
pub proof fn law_lines_end_at_line_feeds(line: Seq<char>, rest: Seq<char>)
    requires
        !line.contains('\n'),
    ensures
        lines(Seq::empty()).len() == 0,
        line.len() > 0 ==> lines(line) == seq![line],
        line.len() == 0 || line.last() != '\r' ==> lines(line + seq!['\n'] + rest) == seq![line]
            + lines(rest),
        lines(line + seq!['\r', '\n'] + rest) == seq![line] + lines(rest),
{
    let plain = line + seq!['\n'] + rest;
    let long = line + seq!['\r'];
    let other = line + seq!['\r', '\n'] + rest;
    lemma_before(line, '\n');
    lemma_len_before(line, '\n');
    assert(forall|i: int| 0 <= i < line.len() ==> #[trigger] line[i] != '\n') by {
        assert forall|i: int| 0 <= i < line.len() implies #[trigger] line[i] != '\n' by {
            assert(line.contains(line[i]));
        }
    }
    if line.len() > 0 {
        assert(len_before(line, '\n') == line.len());
    }
    lemma_first_mark(plain, '\n', line.len() as int);
    assert(before(plain, '\n') =~= line);
    assert(plain.skip(line.len() as int + 1) =~= rest);
    assert forall|i: int| 0 <= i < long.len() implies #[trigger] other[i] != '\n' by {
        if i < line.len() {
            assert(other[i] == line[i]);
        }
    }
    lemma_first_mark(other, '\n', long.len() as int);
    assert(before(other, '\n') =~= long);
    assert(long.drop_last() =~= line);
    assert(other.skip(long.len() as int + 1) =~= rest);
}

proof fn lemma_first_mark(text: Seq<char>, mark: char, at: int)
    requires
        0 <= at < text.len(),
        text[at] == mark,
        forall|i: int| 0 <= i < at ==> #[trigger] text[i] != mark,
    ensures
        len_before(text, mark) == at,
{
    lemma_before(text, mark);
    let n = len_before(text, mark) as int;
    if n > at {
        assert(text[at] != mark);
    } else if n < at {
        assert(text[n] != mark);
    }
}

/// Lowering an ASCII text replaces its capital letters by the small ones and keeps all else.
pub proof fn law_capital_letters_are_lowered(text: Seq<char>, i: int)
    ensures
        is_ascii_text(text) <==> forall|k: int| 0 <= k < text.len() ==> (#[trigger] text[k]) as int
            <= 127,
        ascii_lowercase(text).len() == text.len(),
        0 <= i < text.len() && 'A' <= text[i] <= 'Z' ==> ascii_lowercase(text)[i] as int == text[i] as int
            + 32,
        0 <= i < text.len() && !('A' <= text[i] <= 'Z') ==> ascii_lowercase(text)[i] == text[i],
{
    if is_ascii_text(text) {
        assert forall|k: int| 0 <= k < text.len() implies (#[trigger] text[k]) as int <= 127 by {
            assert(text[k] <= '\u{7f}');
        }
    }
    if forall|k: int| 0 <= k < text.len() ==> (#[trigger] text[k]) as int <= 127 {
        assert forall|k: int| 0 <= k < text.len() implies #[trigger] text[k] <= '\u{7f}' by {
            assert(text[k] as int <= 127);
        }
    }
}

/// What an optional text says is what it holds, where it is there.
pub proof fn law_optional_texts_say_what_they_hold(owned: String, borrowed: &str)
    ensures
        content(Some(owned)) == Some(owned@),
        content(None) is None,
        str_content(Some(borrowed)) == Some(borrowed@),
        str_content(None) is None,
{
}

/// The number that a text of decimal digits says.
pub open spec fn number_of(digits: Seq<char>) -> int
    decreases digits.len(),
{
    if digits.len() == 0 {
        0
    } else {
        10 * number_of(digits.drop_last()) + (digits.last() as int - '0' as int)
    }
}

/// A number in decimal is made of digits, says that number, and has no leading zero.
pub proof fn law_decimal_says_the_number(n: nat)
    ensures
        decimal(n).len() > 0,
        number_of(decimal(n)) == n,
        forall|i: int| 0 <= i < decimal(n).len() ==> '0' <= #[trigger] decimal(n)[i] <= '9',
        n > 0 ==> decimal(n)[0] != '0',
    decreases n,
{
    assert(forall|d: nat| d < 10 ==> #[trigger] digit(d) as int - '0' as int == d);
    if n < 10 {
        assert(decimal(n).drop_last() =~= Seq::empty());
        assert(number_of(decimal(n).drop_last()) == 0);
        assert(digit(n) as int - '0' as int == n);
    } else {
        law_decimal_says_the_number(n / 10);
        assert(decimal(n).drop_last() =~= decimal(n / 10));
        assert(digit(n % 10) as int - '0' as int == n % 10);
        assert forall|i: int| 0 <= i < decimal(n).len() implies '0' <= #[trigger] decimal(n)[i]
            <= '9' by {
            if i < decimal(n / 10).len() {
                assert(decimal(n)[i] == decimal(n / 10)[i]);
            }
        }
        assert(decimal(n)[0] == decimal(n / 10)[0]);
    }
}

} // verus!
