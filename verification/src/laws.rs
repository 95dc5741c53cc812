//! What holds of the texts, paths and numbers that the library reads and writes, said of them
//! directly: what is written can be read back, and what is read is what stands there.

use vstd::prelude::*;

use crate::text::Pattern;

verus! {

/// Cutting characters off the start of a text leaves the rest of it: all that is cut off matches,
/// and what is left starts with a character that does not.
pub proof fn start_is_cut_off(s: Seq<char>, pattern: Pattern) -> (at: int)
    ensures
        0 <= at <= s.len(),
        crate::text::start_trimmed(s, pattern) == s.skip(at),
        forall|i: int| 0 <= i < at ==> pattern.has(#[trigger] s[i]),
        at < s.len() ==> !pattern.has(s[at]),
    decreases s.len(),
{
    if s.len() > 0 && pattern.has(s[0]) {
        let rest = start_is_cut_off(s.skip(1), pattern);
        assert(s.skip(1).skip(rest) =~= s.skip(rest + 1));
        assert forall|i: int| 0 <= i < rest + 1 implies pattern.has(#[trigger] s[i]) by {
            if i > 0 {
                assert(s.skip(1)[i - 1] == s[i]);
            }
        }
        rest + 1
    } else {
        assert(s.skip(0) =~= s);
        0
    }
}

/// Cutting characters off the end of a text leaves its beginning: all that is cut off matches, and
/// what is left ends with a character that does not.
pub proof fn end_is_cut_off(s: Seq<char>, pattern: Pattern) -> (at: int)
    ensures
        0 <= at <= s.len(),
        crate::text::end_trimmed(s, pattern) == s.take(at),
        forall|i: int| at <= i < s.len() ==> pattern.has(#[trigger] s[i]),
        at > 0 ==> !pattern.has(s[at - 1]),
    decreases s.len(),
{
    if s.len() > 0 && pattern.has(s.last()) {
        let at = end_is_cut_off(s.drop_last(), pattern);
        assert(s.drop_last().take(at) =~= s.take(at));
        assert forall|i: int| at <= i < s.len() implies pattern.has(#[trigger] s[i]) by {
            if i < s.len() - 1 {
                assert(s.drop_last()[i] == s[i]);
            }
        }
        at
    } else {
        assert(s.take(s.len() as int) =~= s);
        s.len() as int
    }
}

/// Trimming leaves the part of a text from its first character that does not match to its last.
pub proof fn ends_are_cut_off(s: Seq<char>, pattern: Pattern) -> (r: (int, int))
    ensures
        0 <= r.0 <= r.1 <= s.len(),
        crate::text::trimmed(s, pattern) == s.subrange(r.0, r.1),
        forall|i: int| 0 <= i < r.0 || r.1 <= i < s.len() ==> pattern.has(#[trigger] s[i]),
        r.0 < r.1 ==> !pattern.has(s[r.0]) && !pattern.has(s[r.1 - 1]),
{
    let start = start_is_cut_off(s, pattern);
    let rest = s.skip(start);
    let len = end_is_cut_off(rest, pattern);
    assert(rest.take(len) =~= s.subrange(start, start + len));
    assert forall|i: int| 0 <= i < start || start + len <= i < s.len() implies pattern.has(
        #[trigger] s[i],
    ) by {
        if i >= start {
            assert(rest[i - start] == s[i]);
        }
    }
    if len > 0 {
        assert(rest[0] == s[start]);
        assert(rest[len - 1] == s[start + len - 1]);
    }
    (start, start + len)
}

/// A text between characters that match, and with none at its own ends, is what trimming leaves.
pub proof fn trimming_finds_the_text(
    before: Seq<char>,
    text: Seq<char>,
    behind: Seq<char>,
    pattern: Pattern,
)
    requires
        forall|i: int| 0 <= i < before.len() ==> pattern.has(#[trigger] before[i]),
        forall|i: int| 0 <= i < behind.len() ==> pattern.has(#[trigger] behind[i]),
        text.len() > 0 ==> !pattern.has(text[0]) && !pattern.has(text.last()),
    ensures
        crate::text::trimmed(before + text + behind, pattern) == text,
{
    let s = before + text + behind;
    let (from, to) = ends_are_cut_off(s, pattern);
    let start = before.len() as int;
    let end = start + text.len();
    if text.len() > 0 {
        assert(s[start] == text[0]);
        assert(s[end - 1] == text.last());
        if from < start {
            assert(s[from] == before[from]);
        }
        if to > end {
            assert(s[to - 1] == behind[to - 1 - end]);
        }
        assert(from == start);
        assert(to == end);
    } else {
        if from < to {
            if from < start {
                assert(s[from] == before[from]);
            } else {
                assert(s[from] == behind[from - start]);
            }
        }
    }
    assert(s.subrange(from, to) =~= text);
}

/// White space in ASCII is the space and the five control characters from the tab on.
pub proof fn ascii_white_space(c: char)
    requires
        (c as u32) < 128,
    ensures
        Pattern::WhiteSpace.has(c) <==> c as u32 == 32 || 9 <= c as u32 <= 13,
{
}

/// A text is parted at its first match: what stands before it has none, and both parts and the
/// match between them make up the text.
pub proof fn parts_make_up_the_text(s: Seq<char>, pattern: Pattern)
    ensures
        match crate::text::parted(s, pattern) {
            Some((before, behind)) => {
                &&& before.len() < s.len()
                &&& s == before + seq![s[before.len() as int]] + behind
                &&& pattern.has(s[before.len() as int])
                &&& forall|i: int| 0 <= i < before.len() ==> !pattern.has(#[trigger] before[i])
            },
            None => forall|i: int| 0 <= i < s.len() ==> !pattern.has(#[trigger] s[i]),
        },
{
    crate::text::lemma_first_match(s, pattern);
    match crate::text::parted(s, pattern) {
        Some((before, behind)) => {
            assert(s =~= before + seq![s[before.len() as int]] + behind);
        },
        None => {},
    }
}

/// Two texts with a match between them, of which the first has none, are parted there.
pub proof fn parts_are_found(before: Seq<char>, c: char, behind: Seq<char>, pattern: Pattern)
    requires
        pattern.has(c),
        forall|i: int| 0 <= i < before.len() ==> !pattern.has(#[trigger] before[i]),
    ensures
        crate::text::parted(before + seq![c] + behind, pattern) == Some((before, behind)),
{
    let s = before + seq![c] + behind;
    assert forall|i: int| 0 <= i < before.len() implies !pattern.has(#[trigger] s[i]) by {
        assert(s[i] == before[i]);
    }
    crate::text::lemma_first_match_is(s, pattern, before.len() as int);
    assert(s.take(before.len() as int) =~= before);
    assert(s.skip(before.len() as int + 1) =~= behind);
}

/// Lines are read as they are written: each ends at its line feed, without the carriage return
/// that may stand ahead of it, and the last may do without either.
pub proof fn lines_are_read_as_written(line: Seq<char>, rest: Seq<char>)
    requires
        crate::text::one_line(line),
    ensures
        crate::text::text_lines(Seq::empty()) == Seq::<Seq<char>>::empty(),
        line.len() > 0 ==> crate::text::text_lines(line) == seq![line],
        line.len() == 0 || line.last() != '\r' ==> crate::text::text_lines(line + "\n"@ + rest)
            == seq![line] + crate::text::text_lines(rest),
        crate::text::text_lines(line + "\r\n"@ + rest) == seq![line] + crate::text::text_lines(
            rest,
        ),
{
    reveal_strlit("\n");
    reveal_strlit("\r\n");
    crate::text::lemma_line_ends(line, rest);
    let with_return = line.push('\r');
    assert(crate::text::one_line(with_return)) by {
        assert forall|i: int| 0 <= i < with_return.len() implies #[trigger] with_return[i]
            != '\n' by {
            if i < line.len() {
                assert(with_return[i] == line[i]);
            }
        }
    }
    crate::text::lemma_line_ends(with_return, rest);
    assert(line + "\r\n"@ + rest =~= with_return + "\n"@ + rest);
    assert(with_return.drop_last() =~= line);
    if line.len() > 0 {
        parts_make_up_the_text(line, Pattern::Char('\n'));
        match crate::text::parted(line, Pattern::Char('\n')) {
            Some((before, behind)) => {
                assert(line[before.len() as int] != '\n');
            },
            None => {},
        }
    }
}

/// Lower case changes the letters from `A` to `Z`, each to the letter 32 places behind it, and
/// nothing else.
pub proof fn lower_case_changes_capitals_only(s: Seq<char>, i: int)
    requires
        0 <= i < s.len(),
    ensures
        crate::text::lowered(s).len() == s.len(),
        65 <= s[i] as u32 <= 90 ==> crate::text::lowered(s)[i] as u32 == s[i] as u32 + 32,
        !(65 <= s[i] as u32 <= 90) ==> crate::text::lowered(s)[i] == s[i],
{
}

/// The first word of a text is what stands between the white space at its start and the next.
pub proof fn first_word_is_found(before: Seq<char>, word: Seq<char>, behind: Seq<char>)
    requires
        forall|i: int| 0 <= i < before.len() ==> Pattern::WhiteSpace.has(#[trigger] before[i]),
        forall|i: int| 0 <= i < word.len() ==> !Pattern::WhiteSpace.has(#[trigger] word[i]),
        word.len() > 0,
        behind.len() > 0 ==> Pattern::WhiteSpace.has(behind[0]),
    ensures
        crate::text::leading_word(before + word + behind) == word,
{
    let s = before + word + behind;
    let at = start_is_cut_off(s, Pattern::WhiteSpace);
    assert(at == before.len()) by {
        assert(s[before.len() as int] == word[0]);
        if at < before.len() {
            assert(s[at] == before[at]);
        }
    }
    let rest = s.skip(at);
    assert(rest =~= word + behind);
    assert forall|i: int| 0 <= i < word.len() implies !Pattern::WhiteSpace.has(
        #[trigger] rest[i],
    ) by {
        assert(rest[i] == word[i]);
    }
    if behind.len() > 0 {
        assert(rest[word.len() as int] == behind[0]);
    }
    crate::text::lemma_first_match_is(rest, Pattern::WhiteSpace, word.len() as int);
    assert(rest.take(word.len() as int) =~= word);
}

/// White space is the 25 characters that Unicode counts as such.
pub proof fn white_space_is_that_of_unicode(c: char)
    ensures
        Pattern::WhiteSpace.has(c) <==> seq![
            0x9u32,
            0xa,
            0xb,
            0xc,
            0xd,
            0x20,
            0x85,
            0xa0,
            0x1680,
            0x2000,
            0x2001,
            0x2002,
            0x2003,
            0x2004,
            0x2005,
            0x2006,
            0x2007,
            0x2008,
            0x2009,
            0x200a,
            0x2028,
            0x2029,
            0x202f,
            0x205f,
            0x3000,
        ].contains(c as u32),
{
    let codes = seq![
        0x9u32,
        0xa,
        0xb,
        0xc,
        0xd,
        0x20,
        0x85,
        0xa0,
        0x1680,
        0x2000,
        0x2001,
        0x2002,
        0x2003,
        0x2004,
        0x2005,
        0x2006,
        0x2007,
        0x2008,
        0x2009,
        0x200a,
        0x2028,
        0x2029,
        0x202f,
        0x205f,
        0x3000,
    ];
    let code = c as u32;
    assert forall|i: int| 0 <= i < codes.len() implies 0x9 <= #[trigger] codes[i] <= 0xd || codes[i]
        == 0x20 || codes[i] == 0x85 || codes[i] == 0xa0 || codes[i] == 0x1680 || 0x2000 <= codes[i]
        <= 0x200a || codes[i] == 0x2028 || codes[i] == 0x2029 || codes[i] == 0x202f || codes[i]
        == 0x205f || codes[i] == 0x3000 by {}
    if Pattern::WhiteSpace.has(c) {
        let i: int = if code <= 0xd {
            code - 0x9
        } else if code == 0x20 {
            5
        } else if code == 0x85 {
            6
        } else if code == 0xa0 {
            7
        } else if code == 0x1680 {
            8
        } else if code <= 0x200a {
            code - 0x2000 + 9
        } else if code == 0x2028 {
            20
        } else if code == 0x2029 {
            21
        } else if code == 0x202f {
            22
        } else if code == 0x205f {
            23
        } else {
            24
        };
        assert(codes[i] == code);
    }
}

} // verus!
