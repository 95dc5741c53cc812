//! What the command line takes as a message and what it prints.

use vstd::prelude::*;

use crate::path::{components, same_bytes};
use crate::refs::subject_or;
use crate::text::{chars_of, strip_prefix, text_of};

verus! {

/// Paragraphs with an empty line between each two.
pub open spec fn paragraphs(texts: Seq<String>) -> Seq<char>
    decreases texts.len(),
{
    if texts.len() == 0 {
        Seq::empty()
    } else if texts.len() == 1 {
        texts[0]@
    } else {
        paragraphs(texts.drop_last()) + "\n\n"@ + texts.last()@
    }
}

/// Where the commit message comes from.
#[derive(Debug)]
pub enum MessageSource {
    /// From the command line.
    Inline { message: String },
    /// From standard input.
    StandardInput,
    /// From the file that was named.
    File,
    /// From nowhere.
    Missing,
}

/// The message for the user where there is no commit message.
pub fn describe_missing() -> (text: &'static str)
    ensures
        text@ == "provide a commit message with -m or -F"@,
{
    "provide a commit message with -m or -F"
}

/// The path `-`, which stands for standard input.
pub open spec fn stands_for_input(path: Seq<u8>) -> bool {
    crate::path::path_components(path) == seq![seq![45u8]]
}

/// Puts paragraphs together.
pub fn join_paragraphs(texts: &Vec<String>) -> (message: String)
    ensures
        message@ == paragraphs(texts@),
{
    let mut message: String = String::new();
    let mut i: usize = 0;
    while i < texts.len()
        invariant
            i <= texts@.len(),
            message@ == paragraphs(texts@.take(i as int)),
        decreases texts@.len() - i,
    {
        proof {
            assert(texts@.take(i + 1).drop_last() =~= texts@.take(i as int));
            assert(texts@.take(i + 1).last() == texts@[i as int]);
        }
        if i > 0 {
            message.append("\n\n");
        } else {
            assert(message@ + texts@[0]@ =~= texts@[0]@);
        }
        message.append(texts[i].as_str());
        i = i + 1;
    }
    assert(texts@.take(texts@.len() as int) =~= texts@);
    message
}

/// Decides where the message comes from: messages on the command line come first, then the file.
pub fn message_source(messages: &Vec<String>, file: Option<&[u8]>) -> (source: MessageSource)
    ensures
        match source {
            MessageSource::Inline { message } => messages@.len() > 0 && message@ == paragraphs(
                messages@,
            ),
            MessageSource::StandardInput => messages@.len() == 0 && (file matches Some(path)
                && stands_for_input(path@)),
            MessageSource::File => messages@.len() == 0 && (file matches Some(path)
                && !stands_for_input(path@)),
            MessageSource::Missing => messages@.len() == 0 && file is None,
        },
{
    if messages.len() > 0 {
        return MessageSource::Inline { message: join_paragraphs(messages) };
    }
    match file {
        None => MessageSource::Missing,
        Some(path) => {
            let parts: Vec<Vec<u8>> = components(path);
            let dash: Vec<u8> = vec![45];
            assert(dash@ =~= seq![45u8]);
            if parts.len() == 1 {
                assert(parts@[0]@ == crate::path::path_components(path@)[0]);
                if same_bytes(parts[0].as_slice(), dash.as_slice()) {
                    assert(crate::path::path_components(path@) =~= seq![seq![45u8]]);
                    return MessageSource::StandardInput;
                }
            }
            MessageSource::File
        },
    }
}

/// A reference without `refs/heads/`.
pub open spec fn short_name(reference: Seq<char>) -> Seq<char> {
    if "refs/heads/"@.is_prefix_of(reference) {
        reference.skip("refs/heads/"@.len() as int)
    } else {
        reference
    }
}

/// The first line of the report: the branch, the prefix and the subject.
pub fn headline(reference: &str, prefix: &str, message: &str) -> (text: String)
    ensures
        text@ == "["@ + short_name(reference@) + " "@ + prefix@ + "] "@
            + crate::refs::first_line_or(message@, ""@),
{
    let chars: Vec<char> = chars_of(reference);
    let mut text: String = "[".to_owned();
    match strip_prefix(chars.as_slice(), "refs/heads/") {
        Some(name) => text.append(text_of(name).as_str()),
        None => text.append(reference),
    }
    text.append(" ");
    text.append(prefix);
    text.append("] ");
    text.append(subject_or(message, "").as_str());
    text
}

/// The last line of the report: the version file as it is shown, what it holds, and the commit.
pub fn closing_line(version_file: &str, prefix: &str, oid: &str) -> (text: String)
    ensures
        text@ == version_file@ + " contains "@ + prefix@ + "; full commit is "@ + oid@,
{
    let mut text: String = version_file.to_owned();
    text.append(" contains ");
    text.append(prefix);
    text.append("; full commit is ");
    text.append(oid);
    text
}

/// No paragraphs make an empty message, one makes itself, and the paragraphs of two groups stand
/// with an empty line between them.
pub proof fn empty_lines_part_paragraphs(text: String, first: Seq<String>, second: Seq<String>)
    requires
        first.len() > 0,
        second.len() > 0,
    ensures
        paragraphs(Seq::empty()) == Seq::<char>::empty(),
        paragraphs(seq![text]) == text@,
        paragraphs(first + second) == paragraphs(first) + "\n\n"@ + paragraphs(second),
    decreases second.len(),
{
    let whole = first + second;
    assert(whole.drop_last() =~= first + second.drop_last());
    if second.len() == 1 {
        assert(first + second.drop_last() =~= first);
    } else {
        empty_lines_part_paragraphs(text, first, second.drop_last());
        let front = paragraphs(first) + "\n\n"@;
        let middle = paragraphs(second.drop_last());
        assert(front + middle + "\n\n"@ + second.last()@ =~= front + (middle + "\n\n"@
            + second.last()@));
    }
}

/// A branch is shown by its name alone, any other reference in full.
pub proof fn branches_are_shown_by_name(name: Seq<char>, reference: Seq<char>)
    requires
        forall|rest: Seq<char>| reference != #[trigger] ("refs/heads/"@ + rest),
    ensures
        short_name("refs/heads/"@ + name) == name,
        short_name(reference) == reference,
{
    let start = "refs/heads/"@;
    let full = start + name;
    assert(start =~= full.take(start.len() as int));
    assert(full.skip(start.len() as int) =~= name);
    if start.is_prefix_of(reference) {
        assert(reference =~= start + reference.skip(start.len() as int));
    }
}

/// The file `-` is standard input, and no other name of an entry is.
pub proof fn dash_is_standard_input(name: Seq<u8>)
    requires
        crate::path::entry_name(name),
    ensures
        stands_for_input(name) <==> name == seq![45u8],
        !stands_for_input(Seq::empty()),
        !stands_for_input(seq![47u8] + name),
{
    crate::path::pieces_are_components(name, Seq::empty());
    if stands_for_input(name) {
        assert(seq![name][0] == seq![seq![45u8]][0]);
    }
    assert(seq![seq![47u8], name].len() != seq![seq![45u8]].len());
}

} // verus!
