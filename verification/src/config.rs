//! The object format that a repository's configuration file asks for.

use vstd::prelude::*;
use vstd::slice::slice_subrange;

use crate::format::{format_named, ObjectFormat, UnsupportedFormat};
use crate::text::{
    chars_of, first_word, is_text, lines, lower, split_once, trim, Pattern,
};

verus! {

/// A line that opens a section.
pub open spec fn is_header(line: Seq<char>) -> bool {
    line.len() > 0 && line[0] == '[' && line.last() == ']'
}

/// The section that a header opens: its first word without quotes, in lower case.
pub open spec fn header_section(line: Seq<char>) -> Seq<char> {
    crate::text::lowered(
        crate::text::trimmed(
            crate::text::leading_word(line.subrange(1, line.len() - 1)),
            Pattern::Char('"'),
        ),
    )
}

/// The section that is open behind the given lines.
pub open spec fn open_section(lines: Seq<Seq<char>>) -> Seq<char>
    decreases lines.len(),
{
    if lines.len() == 0 {
        Seq::empty()
    } else {
        let line = crate::text::bare(lines.last());
        if is_header(line) {
            header_section(line)
        } else {
            open_section(lines.drop_last())
        }
    }
}

/// A line's key and value: parted by an equals sign, or else by white space, or else all key.
pub open spec fn key_and_value(line: Seq<char>) -> (Seq<char>, Seq<char>) {
    match crate::text::parted(line, Pattern::Char('=')) {
        Some(pair) => pair,
        None => match crate::text::parted(line, Pattern::WhiteSpace) {
            Some(pair) => pair,
            None => (line, Seq::empty()),
        },
    }
}

/// Whether a line, inside the right section, names the object format.
pub open spec fn sets_format(line: Seq<char>) -> bool {
    &&& line.len() > 0
    &&& line[0] != '#'
    &&& line[0] != ';'
    &&& crate::text::lowered(crate::text::bare(key_and_value(line).0)) == "objectformat"@
}

/// The format that such a line names.
pub open spec fn format_value(line: Seq<char>) -> Seq<char> {
    crate::text::lowered(
        crate::text::trimmed(crate::text::bare(key_and_value(line).1), Pattern::Char('"')),
    )
}

/// The format that the last setting in a section `extensions` names, if there is one.
pub open spec fn format_setting(lines: Seq<Seq<char>>) -> Option<Seq<char>>
    decreases lines.len(),
{
    if lines.len() == 0 {
        None
    } else {
        let line = crate::text::bare(lines.last());
        if !is_header(line) && open_section(lines.drop_last()) == "extensions"@ && sets_format(
            line,
        ) {
            Some(format_value(line))
        } else {
            format_setting(lines.drop_last())
        }
    }
}

/// Reads the object format out of a configuration file. Without a setting it is SHA-1.
pub fn read_object_format(config: &str) -> (r: Result<ObjectFormat, UnsupportedFormat>)
    ensures
        match (format_setting(crate::text::text_lines(config@)), r) {
            (None, Ok(format)) => format == ObjectFormat::Sha1,
            (Some(name), Ok(format)) => crate::format::named_format(name) == Some(format),
            (Some(name), Err(error)) => crate::format::named_format(name) is None && error.name@
                == name,
            (None, Err(_)) => false,
        },
{
    let chars: Vec<char> = chars_of(config);
    let raw_lines: Vec<&[char]> = lines(chars.as_slice());
    let ghost all = crate::text::text_lines(config@);
    let mut section: Vec<char> = Vec::new();
    let mut format: Option<Vec<char>> = None;
    let mut i: usize = 0;
    while i < raw_lines.len()
        invariant
            i <= raw_lines@.len(),
            raw_lines@.len() == all.len(),
            forall|j: int| 0 <= j < all.len() ==> (#[trigger] raw_lines@[j])@ == all[j],
            section@ == open_section(all.take(i as int)),
            match format {
                Some(name) => format_setting(all.take(i as int)) == Some(name@),
                None => format_setting(all.take(i as int)) is None,
            },
        decreases raw_lines@.len() - i,
    {
        let line: &[char] = trim(raw_lines[i], Pattern::WhiteSpace);
        proof {
            assert(all.take(i + 1).drop_last() =~= all.take(i as int));
            assert(all.take(i + 1).last() == all[i as int]);
            assert(raw_lines@[i as int]@ == all[i as int]);
        }
        i = i + 1;
        if line.len() > 0 && line[0] == '[' && line[line.len() - 1] == ']' {
            let inner: &[char] = slice_subrange(line, 1, line.len() - 1);
            section = lower(trim(first_word(inner), Pattern::Char('"')));
            continue ;
        }
        if !is_text(section.as_slice(), "extensions") || line.len() == 0 || line[0] == '#'
            || line[0] == ';' {
            continue ;
        }
        let (key, value): (&[char], &[char]) = match split_once(line, Pattern::Char('=')) {
            Some(pair) => pair,
            None => match split_once(line, Pattern::WhiteSpace) {
                Some(pair) => pair,
                None => {
                    assert(line@.subrange(0, 0) =~= Seq::<char>::empty());
                    (line, slice_subrange(line, 0, 0))
                },
            },
        };
        if is_text(lower(trim(key, Pattern::WhiteSpace)).as_slice(), "objectformat") {
            format = Some(lower(trim(trim(value, Pattern::WhiteSpace), Pattern::Char('"'))));
        }
    }
    assert(all.take(all.len() as int) =~= all);
    match format {
        None => Ok(ObjectFormat::Sha1),
        Some(name) => format_named(name.as_slice()),
    }
}

/// Line `i` sets the object format: it stands in a section `extensions`, opens none and has the
/// key for it.
pub open spec fn is_setting(lines: Seq<Seq<char>>, i: int) -> bool {
    &&& !is_header(crate::text::bare(lines[i]))
    &&& open_section(lines.take(i)) == "extensions"@
    &&& sets_format(crate::text::bare(lines[i]))
}

/// The last line that sets the object format counts, whatever other lines come before or behind
/// it.
pub proof fn last_setting_counts(lines: Seq<Seq<char>>, i: int)
    requires
        0 <= i < lines.len(),
        is_setting(lines, i),
        forall|j: int| i < j < lines.len() ==> !is_setting(lines, j),
    ensures
        format_setting(lines) == Some(format_value(crate::text::bare(lines[i]))),
    decreases lines.len(),
{
    let last = lines.len() - 1;
    assert(lines.drop_last() =~= lines.take(last));
    assert(lines.last() == lines[last]);
    if i < last {
        let front = lines.drop_last();
        assert(!is_setting(lines, last));
        assert(front.take(i) =~= lines.take(i));
        assert forall|j: int| i < j < front.len() implies !is_setting(front, j) by {
            assert(front.take(j) =~= lines.take(j));
            assert(!is_setting(lines, j));
        }
        last_setting_counts(front, i);
    }
}

/// Where no line sets the object format, nothing does.
pub proof fn nothing_else_sets_the_format(lines: Seq<Seq<char>>)
    requires
        forall|j: int| 0 <= j < lines.len() ==> !is_setting(lines, j),
    ensures
        format_setting(lines) is None,
    decreases lines.len(),
{
    if lines.len() > 0 {
        let last = lines.len() - 1;
        let front = lines.drop_last();
        assert(front =~= lines.take(last));
        assert(!is_setting(lines, last));
        assert forall|j: int| 0 <= j < front.len() implies !is_setting(front, j) by {
            assert(front.take(j) =~= lines.take(j));
            assert(!is_setting(lines, j));
        }
        nothing_else_sets_the_format(front);
    }
}

/// A line that is not between brackets leaves the section open that is open.
pub proof fn section_stays_open(lines: Seq<Seq<char>>, line: Seq<char>)
    requires
        crate::text::bare(line).len() == 0 || crate::text::bare(line)[0] != '['
            || crate::text::bare(line).last() != ']',
    ensures
        open_section(lines.push(line)) == open_section(lines),
{
    assert(lines.push(line).drop_last() =~= lines);
}

/// Without a line there is no section open, and a line between brackets opens the section of its
/// first word, whatever was open before: quotes around the word and the case of its letters do not
/// matter, nor does what follows it behind white space.
pub proof fn brackets_open_a_section(
    lines: Seq<Seq<char>>,
    line: Seq<char>,
    word: Seq<char>,
    rest: Seq<char>,
)
    requires
        crate::text::bare(line) == seq!['['] + word + rest + seq![']']
            || crate::text::bare(line) == seq!['['] + (seq!['"'] + word + seq!['"']) + rest
            + seq![']'],
        word.len() > 0,
        forall|i: int|
            0 <= i < word.len() ==> !Pattern::WhiteSpace.has(#[trigger] word[i]) && word[i] != '"',
        rest.len() > 0 ==> Pattern::WhiteSpace.has(rest[0]),
    ensures
        open_section(Seq::empty()) == Seq::<char>::empty(),
        open_section(lines.push(line)) == crate::text::lowered(word),
{
    let text = crate::text::bare(line);
    let inner = text.subrange(1, text.len() - 1);
    let nothing = Seq::<char>::empty();
    let quoted = seq!['"'] + word + seq!['"'];
    assert(lines.push(line).drop_last() =~= lines);
    assert(is_header(text));
    if text == seq!['['] + word + rest + seq![']'] {
        assert(inner =~= nothing + word + rest);
        crate::laws::first_word_is_found(nothing, word, rest);
        crate::laws::trimming_finds_the_text(nothing, word, nothing, Pattern::Char('"'));
        assert(nothing + word + nothing =~= word);
    } else {
        assert(inner =~= nothing + quoted + rest);
        assert forall|i: int| 0 <= i < quoted.len() implies !Pattern::WhiteSpace.has(
            #[trigger] quoted[i],
        ) by {
            if 0 < i < quoted.len() - 1 {
                assert(quoted[i] == word[i - 1]);
            }
        }
        crate::laws::first_word_is_found(nothing, quoted, rest);
        crate::laws::trimming_finds_the_text(seq!['"'], word, seq!['"'], Pattern::Char('"'));
    }
}

/// A line with a key, an equals sign and a value, with or without white space around the sign, sets
/// the object format if and only if the key is `objectformat` in letters of either case, and the
/// format is the value in lower case, without quotes around it.
pub proof fn keys_set_values(
    key: Seq<char>,
    before: Seq<char>,
    behind: Seq<char>,
    value: Seq<char>,
    quotes: Seq<char>,
    line: Seq<char>,
)
    requires
        line == key + before + seq!['='] + behind + (quotes + value + quotes),
        key.len() > 0,
        key[0] != '#' && key[0] != ';',
        !Pattern::WhiteSpace.has(key[0]) && !Pattern::WhiteSpace.has(key.last()),
        forall|i: int| 0 <= i < key.len() ==> #[trigger] key[i] != '=',
        forall|i: int| 0 <= i < before.len() ==> Pattern::WhiteSpace.has(#[trigger] before[i]),
        forall|i: int| 0 <= i < behind.len() ==> Pattern::WhiteSpace.has(#[trigger] behind[i]),
        forall|i: int| 0 <= i < quotes.len() ==> #[trigger] quotes[i] == '"',
        value.len() > 0,
        !Pattern::WhiteSpace.has(value[0]) && !Pattern::WhiteSpace.has(value.last()),
        value[0] != '"' && value.last() != '"',
    ensures
        sets_format(line) <==> crate::text::lowered(key) == "objectformat"@,
        format_value(line) == crate::text::lowered(value),
{
    let left = key + before;
    let right = behind + (quotes + value + quotes);
    assert(line =~= left + seq!['='] + right);
    assert forall|i: int| 0 <= i < left.len() implies !Pattern::Char('=').has(
        #[trigger] left[i],
    ) by {
        if i < key.len() {
            assert(left[i] == key[i]);
        } else {
            assert(left[i] == before[i - key.len()]);
        }
    }
    crate::laws::parts_are_found(left, '=', right, Pattern::Char('='));
    lemma_key_and_value(key, before, behind, value, quotes, line);
}

/// A line with a key and a value and nothing but white space between them, and no equals sign
/// anywhere, sets the object format in the same way.
pub proof fn white_space_parts_key_and_value(
    key: Seq<char>,
    c: char,
    behind: Seq<char>,
    value: Seq<char>,
    quotes: Seq<char>,
    line: Seq<char>,
)
    requires
        line == key + seq![c] + behind + (quotes + value + quotes),
        key.len() > 0,
        key[0] != '#' && key[0] != ';',
        forall|i: int| 0 <= i < key.len() ==> !Pattern::WhiteSpace.has(#[trigger] key[i]),
        forall|i: int| 0 <= i < line.len() ==> #[trigger] line[i] != '=',
        Pattern::WhiteSpace.has(c),
        forall|i: int| 0 <= i < behind.len() ==> Pattern::WhiteSpace.has(#[trigger] behind[i]),
        forall|i: int| 0 <= i < quotes.len() ==> #[trigger] quotes[i] == '"',
        value.len() > 0,
        !Pattern::WhiteSpace.has(value[0]) && !Pattern::WhiteSpace.has(value.last()),
        value[0] != '"' && value.last() != '"',
    ensures
        sets_format(line) <==> crate::text::lowered(key) == "objectformat"@,
        format_value(line) == crate::text::lowered(value),
{
    let nothing = Seq::<char>::empty();
    let right = behind + (quotes + value + quotes);
    assert(line =~= key + seq![c] + right);
    crate::laws::parts_make_up_the_text(line, Pattern::Char('='));
    match crate::text::parted(line, Pattern::Char('=')) {
        Some((left, rest)) => {
            assert(line[left.len() as int] != '=');
        },
        None => {},
    }
    crate::laws::parts_are_found(key, c, right, Pattern::WhiteSpace);
    assert(key + nothing =~= key);
    lemma_key_and_value(key, nothing, behind, value, quotes, line);
}

proof fn lemma_key_and_value(
    key: Seq<char>,
    before: Seq<char>,
    behind: Seq<char>,
    value: Seq<char>,
    quotes: Seq<char>,
    line: Seq<char>,
)
    requires
        key_and_value(line) == (key + before, behind + (quotes + value + quotes)),
        line.len() > 0,
        line[0] == key[0],
        key.len() > 0,
        key[0] != '#' && key[0] != ';',
        !Pattern::WhiteSpace.has(key[0]) && !Pattern::WhiteSpace.has(key.last()),
        forall|i: int| 0 <= i < before.len() ==> Pattern::WhiteSpace.has(#[trigger] before[i]),
        forall|i: int| 0 <= i < behind.len() ==> Pattern::WhiteSpace.has(#[trigger] behind[i]),
        forall|i: int| 0 <= i < quotes.len() ==> #[trigger] quotes[i] == '"',
        value.len() > 0,
        !Pattern::WhiteSpace.has(value[0]) && !Pattern::WhiteSpace.has(value.last()),
        value[0] != '"' && value.last() != '"',
    ensures
        sets_format(line) <==> crate::text::lowered(key) == "objectformat"@,
        format_value(line) == crate::text::lowered(value),
{
    let nothing = Seq::<char>::empty();
    let quoted = quotes + value + quotes;
    crate::laws::trimming_finds_the_text(nothing, key, before, Pattern::WhiteSpace);
    assert(nothing + key + before =~= key + before);
    if quotes.len() > 0 {
        assert(quoted[0] == quotes[0]);
        assert(quoted.last() == quotes.last());
    } else {
        assert(quoted =~= value);
    }
    crate::laws::trimming_finds_the_text(behind, quoted, nothing, Pattern::WhiteSpace);
    assert(behind + quoted + nothing =~= behind + quoted);
    crate::laws::trimming_finds_the_text(quotes, value, quotes, Pattern::Char('"'));
}

/// Empty lines and comments set nothing.
pub proof fn comments_set_nothing(line: Seq<char>)
    requires
        line.len() == 0 || line[0] == '#' || line[0] == ';',
    ensures
        !sets_format(line),
{
}

/// The two formats have the names that Git gives them, and no other name is one.
pub proof fn formats_have_their_names(name: Seq<char>)
    ensures
        match crate::format::named_format(name) {
            Some(ObjectFormat::Sha1) => name == "sha1"@,
            Some(ObjectFormat::Sha256) => name == "sha256"@,
            None => name != "sha1"@ && name != "sha256"@,
        },
        crate::format::named_format("sha1"@) == Some(ObjectFormat::Sha1),
        crate::format::named_format("sha256"@) == Some(ObjectFormat::Sha256),
{
    reveal_strlit("sha1");
    reveal_strlit("sha256");
    assert("sha1"@.len() != "sha256"@.len());
}

/// A configuration with a section `extensions` that sets the object format, and other settings
/// before and behind it, has that object format.
pub proof fn other_settings_do_not_matter(
    before: Seq<Seq<char>>,
    between: Seq<Seq<char>>,
    setting: Seq<char>,
    behind: Seq<Seq<char>>,
)
    requires
        forall|i: int|
            0 <= i < between.len() ==> (crate::text::bare(#[trigger] between[i]).len() == 0
                || crate::text::bare(between[i])[0] != '['),
        forall|i: int|
            0 <= i < behind.len() ==> (crate::text::bare(#[trigger] behind[i]).len() == 0
                || crate::text::bare(behind[i])[0] != '['),
        forall|i: int|
            0 <= i < behind.len() ==> !sets_format(crate::text::bare(#[trigger] behind[i])),
        !is_header(crate::text::bare(setting)),
        sets_format(crate::text::bare(setting)),
    ensures
        format_setting(before + seq!["[extensions]"@] + between + seq![setting] + behind) == Some(
            format_value(crate::text::bare(setting)),
        ),
{
    let header = "[extensions]"@;
    let lines = before + seq![header] + between + seq![setting] + behind;
    let at = before.len() + 1 + between.len() as int;
    lemma_extensions_opens(before);
    lemma_section_kept(before.push(header), between);
    assert(lines.take(at) =~= before.push(header) + between);
    assert(lines[at] == setting);
    assert(is_setting(lines, at));
    assert forall|j: int| at < j < lines.len() implies !is_setting(lines, j) by {
        assert(lines[j] == behind[j - at - 1]);
    }
    last_setting_counts(lines, at);
}

proof fn lemma_extensions_opens(before: Seq<Seq<char>>)
    ensures
        open_section(before.push("[extensions]"@)) == "extensions"@,
{
    reveal_strlit("[extensions]");
    reveal_strlit("extensions");
    let nothing = Seq::<char>::empty();
    let header = "[extensions]"@;
    let word = "extensions"@;
    assert(header =~= seq!['['] + word + nothing + seq![']']);
    crate::laws::trimming_finds_the_text(nothing, header, nothing, Pattern::WhiteSpace);
    assert(nothing + header + nothing =~= header);
    brackets_open_a_section(before, header, word, nothing);
    assert(crate::text::lowered(word) =~= word);
}

proof fn lemma_section_kept(lines: Seq<Seq<char>>, more: Seq<Seq<char>>)
    requires
        forall|i: int|
            0 <= i < more.len() ==> (crate::text::bare(#[trigger] more[i]).len() == 0
                || crate::text::bare(more[i])[0] != '['),
    ensures
        open_section(lines + more) == open_section(lines),
    decreases more.len(),
{
    if more.len() == 0 {
        assert(lines + more =~= lines);
    } else {
        let front = more.drop_last();
        lemma_section_kept(lines, front);
        assert(lines + more =~= (lines + front).push(more.last()));
        assert(more.last() == more[more.len() - 1]);
        section_stays_open(lines + front, more.last());
    }
}

} // verus!
