//! Text as sequences of characters: trimming, splitting and ASCII case.

use vstd::prelude::*;
use vstd::slice::slice_subrange;

verus! {

/// Which characters to look for.
#[derive(Debug, Clone, Copy, PartialEq, Eq, Structural)]
pub enum Pattern {
    /// Any character with the Unicode property White_Space.
    WhiteSpace,
    /// This character.
    Char(char),
}

/// The characters with the Unicode property White_Space.
pub open spec fn white_space(c: char) -> bool {
    let code = c as u32;
    ||| 0x09 <= code <= 0x0d
    ||| code == 0x20
    ||| code == 0x85
    ||| code == 0xa0
    ||| code == 0x1680
    ||| 0x2000 <= code <= 0x200a
    ||| code == 0x2028
    ||| code == 0x2029
    ||| code == 0x202f
    ||| code == 0x205f
    ||| code == 0x3000
}

impl Pattern {
    /// Whether a character is one of those looked for.
    pub open spec fn has(self, c: char) -> bool {
        match self {
            Pattern::WhiteSpace => white_space(c),
            Pattern::Char(wanted) => c == wanted,
        }
    }

    /// Whether a character is one of those looked for.
    pub fn matches(self, c: char) -> (r: bool)
        ensures
            r == self.has(c),
    {
        match self {
            Pattern::WhiteSpace => is_white_space(c),
            Pattern::Char(wanted) => c == wanted,
        }
    }
}

/// `s` without the matching characters at its start.
pub open spec fn start_trimmed(s: Seq<char>, pattern: Pattern) -> Seq<char>
    decreases s.len(),
{
    if s.len() > 0 && pattern.has(s[0]) {
        start_trimmed(s.skip(1), pattern)
    } else {
        s
    }
}

/// `s` without the matching characters at its end.
pub open spec fn end_trimmed(s: Seq<char>, pattern: Pattern) -> Seq<char>
    decreases s.len(),
{
    if s.len() > 0 && pattern.has(s.last()) {
        end_trimmed(s.drop_last(), pattern)
    } else {
        s
    }
}

/// `s` without the matching characters at either end.
pub open spec fn trimmed(s: Seq<char>, pattern: Pattern) -> Seq<char> {
    end_trimmed(start_trimmed(s, pattern), pattern)
}

/// `s` without white space at either end.
pub open spec fn bare(s: Seq<char>) -> Seq<char> {
    trimmed(s, Pattern::WhiteSpace)
}

/// The place of the first matching character, or the length of `s` where none matches.
pub open spec fn first_match(s: Seq<char>, pattern: Pattern) -> nat
    decreases s.len(),
{
    if s.len() == 0 || pattern.has(s[0]) {
        0
    } else {
        1 + first_match(s.skip(1), pattern)
    }
}

/// What stands before the first matching character and what stands behind it.
pub open spec fn parted(s: Seq<char>, pattern: Pattern) -> Option<(Seq<char>, Seq<char>)> {
    let i = first_match(s, pattern);
    if i < s.len() {
        Some((s.take(i as int), s.skip(i as int + 1)))
    } else {
        None
    }
}

/// A line without the carriage return that belongs to its line feed.
pub open spec fn without_return(line: Seq<char>) -> Seq<char> {
    if line.len() > 0 && line.last() == '\r' {
        line.drop_last()
    } else {
        line
    }
}

/// The lines of a text. Each ends in a line feed, with or without a carriage return ahead of it;
/// the last one may do without.
pub open spec fn text_lines(s: Seq<char>) -> Seq<Seq<char>>
    decreases s.len(),
{
    if s.len() == 0 {
        Seq::empty()
    } else {
        match parted(s, Pattern::Char('\n')) {
            Some((line, rest)) => seq![without_return(line)] + text_lines(rest),
            None => seq![s],
        }
    }
}

/// The first of the words that white space parts, or nothing where there is none.
pub open spec fn leading_word(s: Seq<char>) -> Seq<char> {
    let start = start_trimmed(s, Pattern::WhiteSpace);
    start.take(first_match(start, Pattern::WhiteSpace) as int)
}

/// A character with ASCII letters in lower case.
pub open spec fn ascii_lower(c: char) -> char {
    if 'A' <= c <= 'Z' {
        (c as u8 + 32) as char
    } else {
        c
    }
}

/// A text with ASCII letters in lower case.
pub open spec fn lowered(s: Seq<char>) -> Seq<char> {
    Seq::new(s.len(), |i: int| ascii_lower(s[i]))
}

/// A hexadecimal digit of either case.
pub open spec fn hex_char(c: char) -> bool {
    ||| '0' <= c <= '9'
    ||| 'a' <= c <= 'f'
    ||| 'A' <= c <= 'F'
}

/// Nothing but hexadecimal digits.
pub open spec fn all_hex(s: Seq<char>) -> bool {
    forall|i: int| 0 <= i < s.len() ==> hex_char(#[trigger] s[i])
}

pub proof fn lemma_first_match(s: Seq<char>, pattern: Pattern)
    ensures
        0 <= first_match(s, pattern) <= s.len(),
        first_match(s, pattern) < s.len() ==> pattern.has(s[first_match(s, pattern) as int]),
        forall|i: int| 0 <= i < first_match(s, pattern) ==> !pattern.has(#[trigger] s[i]),
    decreases s.len(),
{
    if s.len() > 0 && !pattern.has(s[0]) {
        lemma_first_match(s.skip(1), pattern);
        assert forall|i: int| 0 <= i < first_match(s, pattern) implies !pattern.has(
            #[trigger] s[i],
        ) by {
            if i > 0 {
                assert(s[i] == s.skip(1)[i - 1]);
            }
        }
    }
}

pub proof fn lemma_first_match_is(s: Seq<char>, pattern: Pattern, at: int)
    requires
        0 <= at <= s.len(),
        at < s.len() ==> pattern.has(s[at]),
        forall|i: int| 0 <= i < at ==> !pattern.has(#[trigger] s[i]),
    ensures
        first_match(s, pattern) == at,
{
    lemma_first_match(s, pattern);
    let found = first_match(s, pattern) as int;
    if found < at {
        assert(!pattern.has(s[found]));
    }
    if at < found {
        assert(!pattern.has(s[at]));
    }
}

/// A text that is part of one line.
pub open spec fn one_line(s: Seq<char>) -> bool {
    forall|i: int| 0 <= i < s.len() ==> #[trigger] s[i] != '\n'
}

/// The lines of a text are lines.
pub proof fn lemma_lines_are_lines(s: Seq<char>)
    ensures
        forall|i: int| 0 <= i < text_lines(s).len() ==> one_line(#[trigger] text_lines(s)[i]),
    decreases s.len(),
{
    if s.len() > 0 {
        lemma_first_match(s, Pattern::Char('\n'));
        let at = first_match(s, Pattern::Char('\n')) as int;
        match parted(s, Pattern::Char('\n')) {
            Some((line, rest)) => {
                lemma_lines_are_lines(rest);
                assert(one_line(line)) by {
                    assert forall|i: int| 0 <= i < line.len() implies #[trigger] line[i]
                        != '\n' by {
                        assert(!Pattern::Char('\n').has(s[i]));
                    }
                }
                assert(one_line(without_return(line))) by {
                    assert forall|i: int| 0 <= i < without_return(line).len() implies
                        #[trigger] without_return(line)[i] != '\n' by {
                        assert(without_return(line)[i] == line[i]);
                    }
                }
                assert forall|i: int| 0 <= i < text_lines(s).len() implies one_line(
                    #[trigger] text_lines(s)[i],
                ) by {
                    if i > 0 {
                        assert(text_lines(s)[i] == text_lines(rest)[i - 1]);
                    }
                }
            },
            None => {
                assert forall|i: int| 0 <= i < s.len() implies #[trigger] s[i] != '\n' by {
                    assert(!Pattern::Char('\n').has(s[i]));
                }
            },
        }
    }
}

/// A line ends at its line feed.
pub proof fn lemma_line_ends(line: Seq<char>, rest: Seq<char>)
    requires
        one_line(line),
    ensures
        parted(line + "\n"@ + rest, Pattern::Char('\n')) == Some((line, rest)),
{
    reveal_strlit("\n");
    let whole = line + "\n"@ + rest;
    assert forall|i: int| 0 <= i < line.len() implies !Pattern::Char('\n').has(
        #[trigger] whole[i],
    ) by {
        assert(whole[i] == line[i]);
    }
    lemma_first_match_is(whole, Pattern::Char('\n'), line.len() as int);
    assert(whole.take(line.len() as int) =~= line);
    assert(whole.skip(line.len() as int + 1) =~= rest);
}

/// Whether a character has the Unicode property White_Space.
pub fn is_white_space(c: char) -> (r: bool)
    ensures
        r == white_space(c),
{
    let code: u32 = c as u32;
    (0x09 <= code && code <= 0x0d) || code == 0x20 || code == 0x85 || code == 0xa0 || code
        == 0x1680 || (0x2000 <= code && code <= 0x200a) || code == 0x2028 || code == 0x2029 || code
        == 0x202f || code == 0x205f || code == 0x3000
}

/// The characters of a string.
pub fn chars_of(s: &str) -> (chars: Vec<char>)
    ensures
        chars@ == s@,
{
    let mut chars: Vec<char> = Vec::new();
    for c in iter: s.chars()
        invariant
            iter.seq() == s@,
            chars@ == s@.take(iter.index() as int),
    {
        chars.push(c);
        assert(s@.take(iter.index() + 1) =~= s@.take(iter.index() as int).push(c));
    }
    assert(s@.take(s@.len() as int) =~= s@);
    chars
}

/// The string of the given characters.
pub fn text_of(chars: &[char]) -> (s: String)
    ensures
        s@ == chars@,
{
    let mut s: String = String::new();
    let mut i: usize = 0;
    while i < chars.len()
        invariant
            i <= chars@.len(),
            s@ == chars@.take(i as int),
        decreases chars@.len() - i,
    {
        s.push(chars[i]);
        assert(chars@.take(i + 1) =~= chars@.take(i as int).push(chars@[i as int]));
        i = i + 1;
    }
    assert(chars@.take(chars@.len() as int) =~= chars@);
    s
}

/// Cuts matching characters off the end.
pub fn trim_end(s: &[char], pattern: Pattern) -> (r: &[char])
    ensures
        r@ == end_trimmed(s@, pattern),
{
    let mut end: usize = s.len();
    assert(s@.take(end as int) =~= s@);
    while end > 0 && pattern.matches(s[end - 1])
        invariant
            end <= s@.len(),
            end_trimmed(s@, pattern) == end_trimmed(s@.take(end as int), pattern),
        decreases end,
    {
        assert(s@.take(end as int).drop_last() =~= s@.take(end - 1));
        end = end - 1;
    }
    assert(s@.subrange(0, end as int) =~= s@.take(end as int));
    slice_subrange(s, 0, end)
}

/// Cuts matching characters off the start.
pub fn trim_start(s: &[char], pattern: Pattern) -> (r: &[char])
    ensures
        r@ == start_trimmed(s@, pattern),
{
    let mut start: usize = 0;
    assert(s@.skip(0) =~= s@);
    while start < s.len() && pattern.matches(s[start])
        invariant
            start <= s@.len(),
            start_trimmed(s@, pattern) == start_trimmed(s@.skip(start as int), pattern),
        decreases s@.len() - start,
    {
        assert(s@.skip(start as int).skip(1) =~= s@.skip(start + 1));
        start = start + 1;
    }
    assert(s@.subrange(start as int, s@.len() as int) =~= s@.skip(start as int));
    slice_subrange(s, start, s.len())
}

/// Cuts matching characters off both ends.
pub fn trim(s: &[char], pattern: Pattern) -> (r: &[char])
    ensures
        r@ == trimmed(s@, pattern),
{
    trim_end(trim_start(s, pattern), pattern)
}

/// The place of the first matching character, or the length where none matches.
pub fn find(s: &[char], pattern: Pattern) -> (at: usize)
    ensures
        at == first_match(s@, pattern),
        at <= s@.len(),
{
    let mut at: usize = 0;
    while at < s.len() && !pattern.matches(s[at])
        invariant
            at <= s@.len(),
            forall|i: int| 0 <= i < at ==> !pattern.has(#[trigger] s@[i]),
        decreases s@.len() - at,
    {
        at = at + 1;
    }
    proof {
        lemma_first_match_is(s@, pattern, at as int);
    }
    at
}

/// Parts a text at the first matching character.
pub fn split_once(s: &[char], pattern: Pattern) -> (r: Option<(&[char], &[char])>)
    ensures
        match r {
            Some((before, behind)) => parted(s@, pattern) == Some((before@, behind@)),
            None => parted(s@, pattern) is None,
        },
{
    let at: usize = find(s, pattern);
    if at < s.len() {
        assert(s@.subrange(0, at as int) =~= s@.take(at as int));
        assert(s@.subrange(at + 1, s@.len() as int) =~= s@.skip(at + 1));
        Some((slice_subrange(s, 0, at), slice_subrange(s, at + 1, s.len())))
    } else {
        None
    }
}

/// The lines of a text.
pub fn lines(s: &[char]) -> (r: Vec<&[char]>)
    ensures
        r@.len() == text_lines(s@).len(),
        forall|i: int| 0 <= i < r@.len() ==> (#[trigger] r@[i])@ == text_lines(s@)[i],
{
    let mut r: Vec<&[char]> = Vec::new();
    let mut rest: &[char] = s;
    let ghost mut done: Seq<Seq<char>> = Seq::empty();
    assert(done + text_lines(s@) =~= text_lines(s@));
    while rest.len() > 0
        invariant
            text_lines(s@) == done + text_lines(rest@),
            r@.len() == done.len(),
            forall|i: int| 0 <= i < r@.len() ==> (#[trigger] r@[i])@ == done[i],
        decreases rest@.len(),
    {
        let ghost before = rest@;
        match split_once(rest, Pattern::Char('\n')) {
            Some((line, behind)) => {
                let end: usize = if line.len() > 0 && line[line.len() - 1] == '\r' {
                    line.len() - 1
                } else {
                    line.len()
                };
                let kept: &[char] = slice_subrange(line, 0, end);
                proof {
                    lemma_first_match(before, Pattern::Char('\n'));
                    assert(kept@ =~= without_return(line@));
                    assert(text_lines(before) =~= seq![kept@] + text_lines(behind@));
                    assert(done + text_lines(before) =~= done.push(kept@) + text_lines(behind@));
                    done = done.push(kept@);
                }
                r.push(kept);
                rest = behind;
            },
            None => {
                proof {
                    assert(done + text_lines(before) =~= done.push(before));
                    done = done.push(before);
                }
                r.push(rest);
                rest = slice_subrange(rest, 0, 0);
                assert(text_lines(rest@) =~= Seq::<Seq<char>>::empty());
                assert(done + text_lines(rest@) =~= done);
            },
        }
    }
    assert(text_lines(rest@) =~= Seq::<Seq<char>>::empty());
    assert(done + text_lines(rest@) =~= done);
    r
}

/// The first word of a text.
pub fn first_word(s: &[char]) -> (r: &[char])
    ensures
        r@ == leading_word(s@),
{
    let start: &[char] = trim_start(s, Pattern::WhiteSpace);
    let end: usize = find(start, Pattern::WhiteSpace);
    assert(start@.subrange(0, end as int) =~= start@.take(end as int));
    slice_subrange(start, 0, end)
}

/// The text in lower case, as far as ASCII letters go.
pub fn lower(s: &[char]) -> (r: Vec<char>)
    ensures
        r@ == lowered(s@),
{
    let mut r: Vec<char> = Vec::new();
    let mut i: usize = 0;
    while i < s.len()
        invariant
            i <= s@.len(),
            r@ == lowered(s@).take(i as int),
        decreases s@.len() - i,
    {
        let c: char = s[i];
        let low: char = if 'A' <= c && c <= 'Z' {
            (c as u8 + 32) as char
        } else {
            c
        };
        r.push(low);
        assert(lowered(s@).take(i + 1) =~= lowered(s@).take(i as int).push(low));
        i = i + 1;
    }
    assert(lowered(s@).take(s@.len() as int) =~= lowered(s@));
    r
}

/// Whether a text starts with another.
pub fn starts_with(s: &[char], start: &[char]) -> (r: bool)
    ensures
        r == start@.is_prefix_of(s@),
{
    if s.len() < start.len() {
        return false;
    }
    let mut i: usize = 0;
    while i < start.len()
        invariant
            i <= start@.len() <= s@.len(),
            forall|j: int| 0 <= j < i ==> start@[j] == s@[j],
        decreases start@.len() - i,
    {
        if s[i] != start[i] {
            assert(s@.take(start@.len() as int)[i as int] != start@[i as int]);
            return false;
        }
        i = i + 1;
    }
    assert(start@ =~= s@.take(start@.len() as int));
    true
}

/// Whether two texts are the same.
pub fn same(s: &[char], other: &[char]) -> (r: bool)
    ensures
        r == (s@ == other@),
{
    if s.len() != other.len() {
        return false;
    }
    assert(s@.take(other@.len() as int) =~= s@);
    starts_with(s, other)
}

/// Whether the characters are those of a string.
pub fn is_text(s: &[char], text: &str) -> (r: bool)
    ensures
        r == (s@ == text@),
{
    same(s, chars_of(text).as_slice())
}

/// What is left of a text behind a given start.
pub fn strip_prefix<'a>(s: &'a [char], start: &str) -> (r: Option<&'a [char]>)
    ensures
        match r {
            Some(rest) => start@.is_prefix_of(s@) && rest@ == s@.skip(start@.len() as int),
            None => !start@.is_prefix_of(s@),
        },
{
    let start_chars: Vec<char> = chars_of(start);
    if starts_with(s, start_chars.as_slice()) {
        assert(s@.subrange(start@.len() as int, s@.len() as int) =~= s@.skip(start@.len() as int));
        Some(slice_subrange(s, start_chars.len(), s.len()))
    } else {
        None
    }
}

/// Whether a text holds nothing but hexadecimal digits.
pub fn is_all_hex(s: &[char]) -> (r: bool)
    ensures
        r == all_hex(s@),
{
    let mut i: usize = 0;
    while i < s.len()
        invariant
            i <= s@.len(),
            forall|j: int| 0 <= j < i ==> hex_char(#[trigger] s@[j]),
        decreases s@.len() - i,
    {
        let c: char = s[i];
        if !(('0' <= c && c <= '9') || ('a' <= c && c <= 'f') || ('A' <= c && c <= 'F')) {
            assert(!hex_char(s@[i as int]));
            return false;
        }
        i = i + 1;
    }
    true
}

} // verus!
