//! Text helpers on sequences of characters: trimming, splitting, searching and joining.

use vstd::prelude::*;
use vstd::string::StringExecFns;
use vstd::string::StrSliceExecFns;

verus! {

/// What `str::to_lowercase` makes of a text.
pub uninterp spec fn lowercase(text: Seq<char>) -> Seq<char>;

/// Whether all characters of a text are ASCII.
pub open spec fn is_ascii_text(text: Seq<char>) -> bool {
    forall|i: int| 0 <= i < text.len() ==> #[trigger] text[i] <= '\u{7f}'
}

/// An ASCII character in lower case.
pub open spec fn ascii_lower(c: char) -> char {
    if 'A' <= c <= 'Z' {
        (c as int - 'A' as int + 'a' as int) as char
    } else {
        c
    }
}

/// An ASCII text in lower case.
pub open spec fn ascii_lowercase(text: Seq<char>) -> Seq<char> {
    text.map_values(|c: char| ascii_lower(c))
}

/// `str::to_lowercase` gives the lowercase equivalent of a text, which depends on the text alone. In
/// an ASCII text the letters from `A` to `Z` change to those from `a` to `z`, and nothing else
/// does. For other texts Unicode's tables say which text that is, and this contract does not.
pub assume_specification[ str::to_lowercase ](text: &str) -> (lower: String)
    ensures
        lower@ == lowercase(text@),
        is_ascii_text(text@) ==> lower@ == ascii_lowercase(text@),
;

/// Whether a character has Unicode's `White_Space` property.
pub open spec fn white_space(c: char) -> bool {
    ||| '\u{9}' <= c <= '\u{d}'
    ||| c == '\u{20}'
    ||| c == '\u{85}'
    ||| c == '\u{a0}'
    ||| c == '\u{1680}'
    ||| '\u{2000}' <= c <= '\u{200a}'
    ||| c == '\u{2028}'
    ||| c == '\u{2029}'
    ||| c == '\u{202f}'
    ||| c == '\u{205f}'
    ||| c == '\u{3000}'
}

/// `char::is_whitespace` tells whether a character has Unicode's `White_Space` property.
pub assume_specification[ char::is_whitespace ](c: char) -> (white: bool)
    ensures
        white == white_space(c),
;

/// `String::push` appends one character to the end of the string.
pub assume_specification[ String::push ](text: &mut String, c: char)
    ensures
        final(text)@ == old(text)@.push(c),
;

/// The text that `String::from_utf8_lossy` makes of bytes.
pub uninterp spec fn utf8_lossy(bytes: Seq<u8>) -> Seq<char>;

/// `String::from_utf8_lossy` reads bytes as UTF-8. Valid ones give the text that they encode; in
/// others replacement characters stand for what is invalid, which this contract does not spell out.
#[verifier::external_body]
pub(crate) fn lossy_text(bytes: &Vec<u8>) -> (text: String)
    ensures
        text@ == utf8_lossy(bytes@),
        vstd::utf8::valid_utf8(bytes@) ==> text@ == vstd::utf8::decode_utf8(bytes@),
{
    String::from_utf8_lossy(bytes).into_owned()
}

/// `str::from_utf8` takes bytes as a text where they are valid UTF-8, and as the text that they
/// encode.
#[verifier::external_body]
pub(crate) fn strict_text(bytes: &Vec<u8>) -> (text: Option<String>)
    ensures
        text is Some <==> vstd::utf8::valid_utf8(bytes@),
        text matches Some(t) ==> t@ == vstd::utf8::decode_utf8(bytes@),
{
    std::str::from_utf8(bytes).ok().map(|text| text.to_owned())
}

/// The text without its trailing white space.
pub open spec fn trimmed_end(text: Seq<char>) -> Seq<char>
    decreases text.len(),
{
    if text.len() > 0 && white_space(text.last()) {
        trimmed_end(text.drop_last())
    } else {
        text
    }
}

/// The text without its leading white space.
pub open spec fn trimmed_start(text: Seq<char>) -> Seq<char>
    decreases text.len(),
{
    if text.len() > 0 && white_space(text[0]) {
        trimmed_start(text.drop_first())
    } else {
        text
    }
}

/// The text without its leading and trailing white space.
pub open spec fn trimmed(text: Seq<char>) -> Seq<char> {
    trimmed_start(trimmed_end(text))
}

/// How many characters of the text come before its first white space.
pub open spec fn word_len(text: Seq<char>) -> nat
    decreases text.len(),
{
    if text.len() == 0 || white_space(text[0]) {
        0
    } else {
        1 + word_len(text.drop_first())
    }
}

/// The maximal runs of characters that are not white space, in order.
pub open spec fn words(text: Seq<char>) -> Seq<Seq<char>>
    decreases text.len(),
{
    if text.len() == 0 {
        Seq::empty()
    } else if white_space(text[0]) {
        words(text.drop_first())
    } else {
        proof {
            lemma_word_len(text);
        }
        seq![text.take(word_len(text) as int)] + words(text.skip(word_len(text) as int))
    }
}

/// A word's length is at most that of its text, and not zero where the text starts a word.
pub proof fn lemma_word_len(text: Seq<char>)
    ensures
        word_len(text) <= text.len(),
        text.len() > 0 && !white_space(text[0]) ==> word_len(text) > 0,
    decreases text.len(),
{
    if text.len() > 0 && !white_space(text[0]) {
        lemma_word_len(text.drop_first());
    }
}

/// How many characters of the text come before the first `mark`.
pub open spec fn len_before(text: Seq<char>, mark: char) -> nat
    decreases text.len(),
{
    if text.len() == 0 || text[0] == mark {
        0
    } else {
        1 + len_before(text.drop_first(), mark)
    }
}

/// The characters before a mark are at most those of the text.
pub proof fn lemma_len_before(text: Seq<char>, mark: char)
    ensures
        len_before(text, mark) <= text.len(),
    decreases text.len(),
{
    if text.len() > 0 && text[0] != mark {
        lemma_len_before(text.drop_first(), mark);
    }
}

/// The text up to the first `mark`, or all of it where there is none.
pub open spec fn before(text: Seq<char>, mark: char) -> Seq<char> {
    text.take(len_before(text, mark) as int)
}

/// Whether `part` occurs in `text` as one piece.
pub open spec fn has_part(text: Seq<char>, part: Seq<char>) -> bool {
    exists|at: int| #[trigger] part_at(text, part, at)
}

/// Whether `part` occurs in `text` from position `at` on.
pub open spec fn part_at(text: Seq<char>, part: Seq<char>, at: int) -> bool {
    0 <= at && at + part.len() <= text.len() && text.subrange(at, at + part.len()) == part
}

/// The pieces with `separator` between each two of them.
pub open spec fn joined(pieces: Seq<Seq<char>>, separator: Seq<char>) -> Seq<char>
    decreases pieces.len(),
{
    if pieces.len() == 0 {
        Seq::empty()
    } else if pieces.len() == 1 {
        pieces[0]
    } else {
        joined(pieces.drop_last(), separator) + separator + pieces.last()
    }
}

/// A line without the carriage return at its end.
pub open spec fn without_return(line: Seq<char>) -> Seq<char> {
    if line.len() > 0 && line.last() == '\r' {
        line.drop_last()
    } else {
        line
    }
}

/// The lines of a text. A line ends in a line feed, or in a carriage return and a line feed, but
/// the last one need not.
pub open spec fn lines(text: Seq<char>) -> Seq<Seq<char>>
    decreases text.len(),
{
    if text.len() == 0 {
        Seq::empty()
    } else if len_before(text, '\n') >= text.len() {
        seq![text]
    } else {
        seq![without_return(before(text, '\n'))] + lines(
            text.skip(len_before(text, '\n') as int + 1),
        )
    }
}

/// The contents of each string.
pub open spec fn contents(strings: Seq<String>) -> Seq<Seq<char>> {
    Seq::new(strings.len(), |i: int| strings[i]@)
}

/// The contents of a string, where there is one.
pub open spec fn content(string: Option<String>) -> Option<Seq<char>> {
    match string {
        Some(s) => Some(s@),
        None => None,
    }
}

/// The contents of a borrowed text, where there is one.
pub open spec fn str_content(text: Option<&str>) -> Option<Seq<char>> {
    match text {
        Some(s) => Some(s@),
        None => None,
    }
}

/// The decimal digit for a number below ten.
pub open spec fn digit(n: nat) -> char {
    if n == 0 {
        '0'
    } else if n == 1 {
        '1'
    } else if n == 2 {
        '2'
    } else if n == 3 {
        '3'
    } else if n == 4 {
        '4'
    } else if n == 5 {
        '5'
    } else if n == 6 {
        '6'
    } else if n == 7 {
        '7'
    } else if n == 8 {
        '8'
    } else {
        '9'
    }
}

/// The number in decimal, without leading zeros.
pub open spec fn decimal(n: nat) -> Seq<char>
    decreases n,
{
    if n < 10 {
        seq![digit(n)]
    } else {
        decimal(n / 10).push(digit(n % 10))
    }
}

/// The characters of a text.
pub fn chars_of(text: &str) -> (chars: Vec<char>)
    ensures
        chars@ == text@,
{
    let mut chars: Vec<char> = Vec::new();
    for c in it: text.chars()
        invariant
            it.seq() == text@,
            chars@ == text@.take(it.index() as int),
    {
        chars.push(c);
    }
    assert(text@.take(text@.len() as int) == text@);
    chars
}

/// Whether two texts are equal.
pub fn same(left: &str, right: &str) -> (equal: bool)
    ensures
        equal == (left@ == right@),
{
    let a: Vec<char> = chars_of(left);
    let b: Vec<char> = chars_of(right);
    if a.len() != b.len() {
        return false;
    }
    let mut i: usize = 0;
    while i < a.len()
        invariant
            a@ == left@,
            b@ == right@,
            a.len() == b.len(),
            i <= a.len(),
            left@.take(i as int) == right@.take(i as int),
        decreases a.len() - i,
    {
        if a[i] != b[i] {
            assert(left@[i as int] != right@[i as int]);
            return false;
        }
        assert(left@.take(i + 1) =~= left@.take(i as int).push(left@[i as int]));
        assert(right@.take(i + 1) =~= right@.take(i as int).push(right@[i as int]));
        i += 1;
    }
    assert(left@.take(i as int) == left@);
    assert(right@.take(i as int) == right@);
    true
}

/// Whether two optional texts are equal.
pub fn same_option(left: &Option<String>, right: Option<&str>) -> (equal: bool)
    ensures
        equal == (content(*left) == str_content(right)),
{
    match (left, right) {
        (Some(a), Some(b)) => same(a.as_str(), b),
        (None, None) => true,
        _ => false,
    }
}

/// `str::trim_end`: the text without its trailing white space.
pub fn trim_end(text: &str) -> (rest: &str)
    ensures
        rest@ == trimmed_end(text@),
{
    let chars: Vec<char> = chars_of(text);
    let mut end: usize = chars.len();
    assert(text@.take(end as int) == text@);
    while end > 0 && chars[end - 1].is_whitespace()
        invariant
            chars@ == text@,
            end <= chars.len(),
            trimmed_end(text@.take(end as int)) == trimmed_end(text@),
        ensures
            end <= chars.len(),
            trimmed_end(text@.take(end as int)) == trimmed_end(text@),
            end > 0 ==> !white_space(text@[end - 1]),
        decreases end,
    {
        assert(text@.take(end as int).drop_last() =~= text@.take(end - 1));
        end -= 1;
    }
    text.substring_char(0, end)
}

/// `str::trim`: the text without its leading and trailing white space.
pub fn trim(text: &str) -> (rest: &str)
    ensures
        rest@ == trimmed(text@),
{
    let head: &str = trim_end(text);
    let chars: Vec<char> = chars_of(head);
    let mut start: usize = 0;
    assert(head@.skip(0) == head@);
    while start < chars.len() && chars[start].is_whitespace()
        invariant
            chars@ == head@,
            start <= chars.len(),
            trimmed_start(head@.skip(start as int)) == trimmed_start(head@),
        ensures
            start <= chars.len(),
            trimmed_start(head@.skip(start as int)) == trimmed_start(head@),
            start < chars.len() ==> !white_space(head@[start as int]),
        decreases chars.len() - start,
    {
        assert(head@.skip(start as int).drop_first() =~= head@.skip(start + 1));
        start += 1;
    }
    assert(head@.skip(start as int) =~= head@.subrange(start as int, head@.len() as int));
    head.substring_char(start, chars.len())
}

/// `str::split_whitespace`, collected: the words of the text.
pub fn split_words(text: &str) -> (found: Vec<String>)
    ensures
        contents(found@) == words(text@),
{
    let chars: Vec<char> = chars_of(text);
    let mut found: Vec<String> = Vec::new();
    let mut at: usize = 0;
    assert(text@.skip(0) == text@);
    assert(contents(found@) + words(text@) =~= words(text@));
    while at < chars.len()
        invariant
            chars@ == text@,
            at <= chars.len(),
            contents(found@) + words(text@.skip(at as int)) == words(text@),
        decreases chars.len() - at,
    {
        let ghost rest = text@.skip(at as int);
        if chars[at].is_whitespace() {
            assert(rest.drop_first() =~= text@.skip(at + 1));
            at += 1;
        } else {
            let end: usize = word_end(&chars, at);
            let word: &str = text.substring_char(at, end);
            let ghost before_push = found@;
            found.push(word.to_owned());
            proof {
                lemma_word_len(rest);
                assert(rest.take(word_len(rest) as int) =~= word@);
                assert(rest.skip(word_len(rest) as int) =~= text@.skip(end as int));
                assert(contents(found@) =~= contents(before_push).push(word@));
                assert(contents(found@) + words(text@.skip(end as int)) =~= contents(before_push)
                    + (seq![word@] + words(text@.skip(end as int))));
            }
            at = end;
        }
    }
    assert(contents(found@) + words(text@.skip(at as int)) =~= contents(found@));
    found
}

/// Where the word that starts at `at` ends.
fn word_end(chars: &Vec<char>, at: usize) -> (end: usize)
    requires
        at < chars.len(),
    ensures
        at <= end <= chars.len(),
        end - at == word_len(chars@.skip(at as int)),
{
    let mut end: usize = at;
    while end < chars.len() && !chars[end].is_whitespace()
        invariant
            at <= end <= chars.len(),
            word_len(chars@.skip(at as int)) == (end - at) + word_len(chars@.skip(end as int)),
        ensures
            at <= end <= chars.len(),
            word_len(chars@.skip(at as int)) == (end - at) + word_len(chars@.skip(end as int)),
            end < chars.len() ==> white_space(chars@[end as int]),
        decreases chars.len() - end,
    {
        assert(chars@.skip(end as int).drop_first() =~= chars@.skip(end + 1));
        end += 1;
    }
    end
}

/// The text up to the first `mark`, or all of it where there is none.
pub fn text_before(text: &str, mark: char) -> (head: &str)
    ensures
        head@ == before(text@, mark),
{
    let chars: Vec<char> = chars_of(text);
    let mut end: usize = 0;
    assert(text@.skip(0) == text@);
    while end < chars.len() && chars[end] != mark
        invariant
            chars@ == text@,
            end <= chars.len(),
            len_before(text@, mark) == end + len_before(text@.skip(end as int), mark),
        ensures
            end <= chars.len(),
            len_before(text@, mark) == end + len_before(text@.skip(end as int), mark),
            end < chars.len() ==> text@[end as int] == mark,
        decreases chars.len() - end,
    {
        assert(text@.skip(end as int).drop_first() =~= text@.skip(end + 1));
        end += 1;
    }
    text.substring_char(0, end)
}

/// `str::contains`: whether `part` occurs in `text` as one piece.
pub fn contains(text: &str, part: &str) -> (found: bool)
    ensures
        found == has_part(text@, part@),
{
    let chars: Vec<char> = chars_of(text);
    let wanted: Vec<char> = chars_of(part);
    if wanted.len() > chars.len() {
        return false;
    }
    let last: usize = chars.len() - wanted.len();
    let mut at: usize = 0;
    loop
        invariant
            chars@ == text@,
            wanted@ == part@,
            last == chars.len() - wanted.len(),
            at <= last,
            forall|i: int| 0 <= i < at ==> !#[trigger] part_at(text@, part@, i),
        decreases last - at,
    {
        if occurs_at(&chars, &wanted, at) {
            assert(part_at(text@, part@, at as int));
            return true;
        }
        if at == last {
            return false;
        }
        at += 1;
    }
}

/// Whether `wanted` occurs in `chars` from position `at` on.
fn occurs_at(chars: &Vec<char>, wanted: &Vec<char>, at: usize) -> (found: bool)
    requires
        at + wanted.len() <= chars.len(),
    ensures
        found == part_at(chars@, wanted@, at as int),
{
    let mut i: usize = 0;
    while i < wanted.len()
        invariant
            at + wanted.len() <= chars.len(),
            i <= wanted.len(),
            forall|j: int| 0 <= j < i ==> chars@[at + j] == wanted@[j],
        decreases wanted.len() - i,
    {
        if chars[at + i] != wanted[i] {
            assert(chars@.subrange(at as int, at + wanted.len())[i as int] != wanted@[i as int]);
            return false;
        }
        i += 1;
    }
    assert(chars@.subrange(at as int, at + wanted.len()) =~= wanted@);
    true
}

/// `[String]::join`: the pieces with `separator` between each two of them.
pub fn join(pieces: &Vec<String>, separator: &str) -> (whole: String)
    ensures
        whole@ == joined(contents(pieces@), separator@),
{
    let mut whole: String = String::new();
    let mut i: usize = 0;
    while i < pieces.len()
        invariant
            i <= pieces.len(),
            whole@ == joined(contents(pieces@).take(i as int), separator@),
        decreases pieces.len() - i,
    {
        if i > 0 {
            whole.append(separator);
        }
        whole.append(pieces[i].as_str());
        assert(contents(pieces@).take(i + 1).drop_last() =~= contents(pieces@).take(i as int));
        i += 1;
    }
    assert(contents(pieces@).take(i as int) =~= contents(pieces@));
    whole
}

/// `str::lines`, collected: the lines of a text.
pub fn lines_of(text: &str) -> (found: Vec<String>)
    ensures
        contents(found@) == lines(text@),
{
    let mut found: Vec<String> = Vec::new();
    let mut rest: &str = text;
    assert(contents(found@) + lines(text@) =~= lines(text@));
    while !rest.is_empty()
        invariant
            contents(found@) + lines(rest@) == lines(text@),
        decreases rest@.len(),
    {
        let chars: Vec<char> = chars_of(rest);
        let head: &str = text_before(rest, '\n');
        let end: usize = head.unicode_len();
        let ghost held = found@;
        proof {
            lemma_len_before(rest@, '\n');
        }
        if end == chars.len() {
            found.push(rest.to_owned());
            assert(contents(found@) =~= contents(held).push(rest@));
            assert(contents(found@) =~= contents(held) + lines(rest@));
            return found;
        }
        let line: &str = if end > 0 && chars[end - 1] == '\r' {
            rest.substring_char(0, end - 1)
        } else {
            head
        };
        let left: &str = rest.substring_char(end + 1, chars.len());
        found.push(line.to_owned());
        proof {
            assert(line@ =~= without_return(head@));
            assert(left@ =~= rest@.skip(end + 1));
            assert(contents(found@) =~= contents(held).push(line@));
            assert(contents(found@) + lines(left@) =~= contents(held) + lines(rest@));
        }
        rest = left;
    }
    assert(contents(found@) + lines(rest@) =~= contents(found@));
    found
}

/// Adds a text to a list.
pub fn push_text(list: &mut Vec<String>, text: &str)
    ensures
        contents(final(list)@) == contents(old(list)@).push(text@),
{
    list.push(text.to_owned());
    assert(contents(list@) =~= contents(old(list)@).push(text@));
}

/// A list of three texts.
pub fn list3(first: &str, second: &str, third: &str) -> (list: Vec<String>)
    ensures
        contents(list@) == seq![first@, second@, third@],
{
    let mut list: Vec<String> = Vec::new();
    list.push(first.to_owned());
    list.push(second.to_owned());
    list.push(third.to_owned());
    assert(contents(list@) =~= seq![first@, second@, third@]);
    list
}

/// Two texts, one after the other.
pub fn concat2(first: &str, second: &str) -> (whole: String)
    ensures
        whole@ == first@ + second@,
{
    let mut whole: String = first.to_owned();
    whole.append(second);
    whole
}

/// Three texts, one after the other.
pub fn concat3(first: &str, second: &str, third: &str) -> (whole: String)
    ensures
        whole@ == first@ + second@ + third@,
{
    let mut whole: String = concat2(first, second);
    whole.append(third);
    whole
}

fn digit_char(n: u64) -> (c: char)
    requires
        n < 10,
    ensures
        c == digit(n as nat),
{
    match n {
        0 => '0',
        1 => '1',
        2 => '2',
        3 => '3',
        4 => '4',
        5 => '5',
        6 => '6',
        7 => '7',
        8 => '8',
        _ => '9',
    }
}

/// The number in decimal, without leading zeros.
pub fn decimal_text(n: u64) -> (shown: String)
    ensures
        shown@ == decimal(n as nat),
    decreases n,
{
    let mut shown: String = if n < 10 {
        String::new()
    } else {
        decimal_text(n / 10)
    };
    shown.push(digit_char(n % 10));
    assert(n < 10 ==> shown@ =~= seq![digit(n as nat)]);
    shown
}

/// An owned copy of an optional text.
pub fn copy_option(text: &Option<String>) -> (copy: Option<String>)
    ensures
        copy == *text,
{
    match text {
        Some(s) => Some(s.clone()),
        None => None,
    }
}

} // verus!
