//! Commit objects: what is written, hashed and stored.

use vstd::prelude::*;
use vstd::slice::slice_to_vec;

use crate::format::ObjectFormat;
use crate::hash::digest;
use crate::hex::{encode_nonce, hex_encode};
use crate::path::append_bytes;
use crate::text::{chars_of, text_of, trim_end, Pattern};

verus! {

/// A number in decimal digits.
pub open spec fn decimal(value: nat) -> Seq<u8>
    decreases value,
{
    if value < 10 {
        seq![(48 + value) as u8]
    } else {
        decimal(value / 10).push((48 + value % 10) as u8)
    }
}

/// The header of a commit object with a body of the given length.
pub open spec fn header(body_len: nat) -> Seq<u8> {
    vstd::utf8::encode_utf8("commit "@) + decimal(body_len) + seq![0u8]
}

/// A body with its header: what is hashed and stored.
pub open spec fn commit_object(body: Seq<u8>) -> Seq<u8> {
    header(body.len()) + body
}

/// The text of a commit ahead of its nonce.
pub open spec fn body_text(
    tree_oid: Seq<char>,
    parent_oid: Option<Seq<char>>,
    author: Seq<char>,
    committer: Seq<char>,
    message: Seq<char>,
) -> Seq<char> {
    let parent = match parent_oid {
        Some(oid) => "parent "@ + oid + "\n"@,
        None => Seq::empty(),
    };
    "tree "@ + tree_oid + "\n"@ + parent + "author "@ + author + "\n"@ + "committer "@ + committer
        + "\n\n"@ + crate::text::end_trimmed(message, Pattern::Char('\n')) + "\n\n"@
        + "Shasha-Nonce: "@
}

/// A body with its nonce and the newline that ends it.
pub open spec fn finished_body(body_prefix: Seq<u8>, nonce: u64) -> Seq<u8> {
    body_prefix + crate::hex::hex_fixed(nonce as nat, 16) + seq![10u8]
}

/// The object ahead of its nonce. Its header counts the nonce and the newline.
pub open spec fn unfinished_object(body_prefix: Seq<u8>) -> Seq<u8> {
    header(body_prefix.len() + 17) + body_prefix
}

/// What is mined is what is stored: the object ahead of the nonce, with the nonce, is the object
/// of the finished body.
pub proof fn mined_object_is_stored_object(body_prefix: Seq<u8>, nonce: u64)
    ensures
        crate::prepared::nonce_message(unfinished_object(body_prefix), nonce) == commit_object(
            finished_body(body_prefix, nonce),
        ),
{
    crate::hex::lemma_hex_fixed_len(nonce as nat, 16);
    assert(crate::prepared::nonce_message(unfinished_object(body_prefix), nonce) =~= commit_object(
        finished_body(body_prefix, nonce),
    ));
}

/// Different nonces make different bodies of the same length.
pub proof fn nonces_make_different_bodies(body_prefix: Seq<u8>, first: u64, second: u64)
    ensures
        finished_body(body_prefix, first).len() == body_prefix.len() + 17,
        finished_body(body_prefix, first) == finished_body(body_prefix, second) ==> first == second,
{
    let a = crate::hex::hex_fixed(first as nat, 16);
    let b = crate::hex::hex_fixed(second as nat, 16);
    crate::hex::lemma_hex_fixed_len(first as nat, 16);
    crate::hex::lemma_hex_fixed_len(second as nat, 16);
    if finished_body(body_prefix, first) == finished_body(body_prefix, second) {
        let start = body_prefix.len() as int;
        assert(finished_body(body_prefix, first).subrange(start, start + 16) =~= a);
        assert(finished_body(body_prefix, second).subrange(start, start + 16) =~= b);
        crate::hex::lemma_pow16_is_pow2(16);
        vstd::arithmetic::power2::lemma2_to64();
        crate::hex::lemma_hex_fixed_injective(first as nat, second as nat, 16);
    }
}

/// The parents that the header of a commit names: the lines up to the first empty one that start
/// with `parent`.
pub open spec fn parents(text: Seq<char>) -> Seq<Seq<char>>
    decreases text.len(),
{
    match crate::text::parted(text, Pattern::Char('\n')) {
        None => Seq::empty(),
        Some((line, rest)) => if line.len() == 0 {
            Seq::empty()
        } else if "parent "@.is_prefix_of(line) {
            seq![line.skip("parent "@.len() as int)] + parents(rest)
        } else {
            parents(rest)
        },
    }
}

/// The parents of a commit with the given body.
pub open spec fn body_parents(body: Seq<u8>) -> Seq<Seq<char>> {
    parents(vstd::utf8::decode_utf8(body))
}

proof fn lemma_other_line(word: Seq<char>, value: Seq<char>, rest: Seq<char>)
    requires
        crate::text::one_line(word),
        crate::text::one_line(value),
        word.len() > 0,
        word[0] != 'p',
    ensures
        parents(word + value + "\n"@ + rest) == parents(rest),
{
    let line = word + value;
    reveal_strlit("parent ");
    assert(crate::text::one_line(line)) by {
        assert forall|i: int| 0 <= i < line.len() implies #[trigger] line[i] != '\n' by {
            if i < word.len() {
                assert(line[i] == word[i]);
            } else {
                assert(line[i] == value[i - word.len()]);
            }
        }
    }
    crate::text::lemma_line_ends(line, rest);
    if "parent "@.is_prefix_of(line) {
        assert("parent "@[0] == line[0]);
    }
}

proof fn lemma_parent_line(oid: Seq<char>, rest: Seq<char>)
    requires
        crate::text::one_line(oid),
    ensures
        parents("parent "@ + oid + "\n"@ + rest) == seq![oid] + parents(rest),
{
    let line = "parent "@ + oid;
    reveal_strlit("parent ");
    assert(crate::text::one_line(line)) by {
        assert forall|i: int| 0 <= i < line.len() implies #[trigger] line[i] != '\n' by {
            if i >= "parent "@.len() {
                assert(line[i] == oid[i - "parent "@.len()]);
            }
        }
    }
    crate::text::lemma_line_ends(line, rest);
    assert("parent "@ =~= line.take("parent "@.len() as int));
    assert(line.skip("parent "@.len() as int) =~= oid);
}

proof fn lemma_text_parents(
    tree_oid: Seq<char>,
    parent_oid: Option<Seq<char>>,
    author: Seq<char>,
    committer: Seq<char>,
    message: Seq<char>,
    end: Seq<char>,
)
    requires
        crate::text::one_line(tree_oid),
        parent_oid matches Some(oid) ==> crate::text::one_line(oid),
        crate::text::one_line(author),
        crate::text::one_line(committer),
    ensures
        parents(body_text(tree_oid, parent_oid, author, committer, message) + end)
            == match parent_oid {
            Some(oid) => seq![oid],
            None => Seq::empty(),
        },
{
    reveal_strlit("tree ");
    reveal_strlit("author ");
    reveal_strlit("committer ");
    reveal_strlit("\n");
    reveal_strlit("\n\n");
    let nothing = Seq::<char>::empty();
    let behind_committer = nothing + "\n"@ + (crate::text::end_trimmed(
        message,
        Pattern::Char('\n'),
    ) + "\n\n"@ + "Shasha-Nonce: "@ + end);
    let behind_author = "committer "@ + committer + "\n"@ + behind_committer;
    let behind_parent = "author "@ + author + "\n"@ + behind_author;
    crate::text::lemma_line_ends(
        nothing,
        crate::text::end_trimmed(message, Pattern::Char('\n')) + "\n\n"@ + "Shasha-Nonce: "@ + end,
    );
    lemma_other_line("committer "@, committer, behind_committer);
    lemma_other_line("author "@, author, behind_author);
    let whole = body_text(tree_oid, parent_oid, author, committer, message) + end;
    match parent_oid {
        Some(oid) => {
            let behind_tree = "parent "@ + oid + "\n"@ + behind_parent;
            lemma_parent_line(oid, behind_parent);
            lemma_other_line("tree "@, tree_oid, behind_tree);
            assert(whole =~= "tree "@ + tree_oid + "\n"@ + behind_tree);
            assert(seq![oid] + Seq::<Seq<char>>::empty() =~= seq![oid]);
        },
        None => {
            lemma_other_line("tree "@, tree_oid, behind_parent);
            assert(whole =~= "tree "@ + tree_oid + "\n"@ + behind_parent);
        },
    }
}

proof fn lemma_encoded_concat(first: Seq<char>, second: Seq<char>)
    ensures
        vstd::utf8::encode_utf8(first + second) == vstd::utf8::encode_utf8(first)
            + vstd::utf8::encode_utf8(second),
    decreases first.len(),
{
    if first.len() == 0 {
        assert(first + second =~= second);
        assert(vstd::utf8::encode_utf8(first) =~= Seq::<u8>::empty());
        assert(Seq::<u8>::empty() + vstd::utf8::encode_utf8(second) =~= vstd::utf8::encode_utf8(
            second,
        ));
    } else {
        assert((first + second).drop_first() =~= first.drop_first() + second);
        lemma_encoded_concat(first.drop_first(), second);
        let head = vstd::utf8::encode_scalar(first[0] as u32);
        let middle = vstd::utf8::encode_utf8(first.drop_first());
        let tail = vstd::utf8::encode_utf8(second);
        assert(head + (middle + tail) =~= head + middle + tail);
    }
}

/// A finished commit has exactly the parent that it was written with, or none.
pub proof fn commit_has_the_given_parent(
    tree_oid: Seq<char>,
    parent_oid: Option<Seq<char>>,
    author: Seq<char>,
    committer: Seq<char>,
    message: Seq<char>,
    nonce: u64,
)
    requires
        crate::text::one_line(tree_oid),
        parent_oid matches Some(oid) ==> crate::text::one_line(oid),
        crate::text::one_line(author),
        crate::text::one_line(committer),
    ensures
        body_parents(
            finished_body(
                vstd::utf8::encode_utf8(
                    body_text(tree_oid, parent_oid, author, committer, message),
                ),
                nonce,
            ),
        ) == match parent_oid {
            Some(oid) => seq![oid],
            None => Seq::empty(),
        },
{
    let text = body_text(tree_oid, parent_oid, author, committer, message);
    let digits = crate::hex::as_chars(crate::hex::hex_fixed(nonce as nat, 16));
    let end = digits + "\n"@;
    lemma_finished_text(text, nonce);
    assert(text + digits + "\n"@ =~= text + end);
    lemma_text_parents(tree_oid, parent_oid, author, committer, message, end);
}

/// The decimal digits of a number.
pub fn decimal_digits(value: usize) -> (digits: Vec<u8>)
    ensures
        digits@ == decimal(value as nat),
    decreases value,
{
    if value < 10 {
        let digits: Vec<u8> = vec![48 + value as u8];
        assert(digits@ =~= decimal(value as nat));
        digits
    } else {
        let mut digits: Vec<u8> = decimal_digits(value / 10);
        digits.push(48 + (value % 10) as u8);
        digits
    }
}

/// The header of a commit object.
fn object_header(body_len: usize) -> (bytes: Vec<u8>)
    ensures
        bytes@ == header(body_len as nat),
{
    let mut bytes: Vec<u8> = slice_to_vec("commit ".as_bytes());
    append_bytes(&mut bytes, decimal_digits(body_len).as_slice());
    bytes.push(0);
    assert(bytes@ =~= header(body_len as nat));
    bytes
}

/// Writes a commit up to its nonce.
pub fn commit_body_prefix(
    tree_oid: &str,
    parent_oid: Option<&str>,
    author: &str,
    committer: &str,
    message: &str,
) -> (body: Vec<u8>)
    ensures
        body@ == vstd::utf8::encode_utf8(
            body_text(
                tree_oid@,
                match parent_oid {
                    Some(oid) => Some(oid@),
                    None => None,
                },
                author@,
                committer@,
                message@,
            ),
        ),
{
    let mut body: String = "tree ".to_owned();
    body.append(tree_oid);
    body.append("\n");
    let ghost start = body@;
    match parent_oid {
        Some(oid) => {
            body.append("parent ");
            body.append(oid);
            body.append("\n");
            assert(body@ =~= start + ("parent "@ + oid@ + "\n"@));
        },
        None => {
            assert(body@ =~= start + Seq::<char>::empty());
        },
    }
    body.append("author ");
    body.append(author);
    body.append("\n");
    body.append("committer ");
    body.append(committer);
    body.append("\n\n");
    let chars: Vec<char> = chars_of(message);
    body.append(text_of(trim_end(chars.as_slice(), Pattern::Char('\n'))).as_str());
    body.append("\n\n");
    body.append("Shasha-Nonce: ");
    slice_to_vec(body.as_str().as_bytes())
}

/// Adds the nonce and the final newline.
pub fn finish_commit_body(body_prefix: Vec<u8>, nonce: u64) -> (body: Vec<u8>)
    ensures
        body@ == finished_body(body_prefix@, nonce),
{
    let mut body: Vec<u8> = body_prefix;
    let encoded: [u8; 16] = encode_nonce(nonce);
    append_bytes(&mut body, encoded.as_slice());
    body.push(10);
    assert(body@ =~= finished_body(body_prefix@, nonce));
    body
}

/// The object ahead of its nonce.
pub fn object_prefix(body_prefix: &[u8]) -> (object: Vec<u8>)
    requires
        body_prefix@.len() + 17 <= usize::MAX,
    ensures
        object@ == unfinished_object(body_prefix@),
{
    let mut object: Vec<u8> = object_header(body_prefix.len() + 17);
    append_bytes(&mut object, body_prefix);
    object
}

/// Why a finished commit is not stored.
#[derive(Debug)]
pub struct OidMismatch {
    pub computed: String,
    pub expected: String,
}

impl OidMismatch {
    /// The message for the user.
    pub fn describe(&self) -> (text: String)
        ensures
            text@ == "the object writer computed "@ + self.computed@ + ", but the miner computed "@
                + self.expected@,
    {
        let mut text: String = "the object writer computed ".to_owned();
        text.append(self.computed.as_str());
        text.append(", but the miner computed ");
        text.append(self.expected.as_str());
        text
    }
}

/// The object of a finished body, once a digest taken in one go confirms its ID.
pub fn write_commit_object(format: ObjectFormat, body: &[u8], expected_oid: &str) -> (r: Result<
    Vec<u8>,
    OidMismatch,
>)
    requires
        crate::hash::hashable(commit_object(body@).len()),
    ensures
        match r {
            Ok(object) => object@ == commit_object(body@) && expected_oid@
                == crate::miner::oid_text(format, commit_object(body@)),
            Err(error) => {
                &&& expected_oid@ != crate::miner::oid_text(format, commit_object(body@))
                &&& error.computed@ == crate::miner::oid_text(format, commit_object(body@))
                &&& error.expected@ == expected_oid@
            },
        },
{
    let mut object: Vec<u8> = object_header(body.len());
    append_bytes(&mut object, body);
    let computed: String = hex_encode(digest(format, object.as_slice()).as_slice());
    let expected: String = expected_oid.to_owned();
    if computed == expected {
        Ok(object)
    } else {
        Err(OidMismatch { computed, expected })
    }
}

/// The lines of a commit's header: those up to the first empty one.
pub open spec fn header_lines(text: Seq<char>) -> Seq<Seq<char>>
    decreases text.len(),
{
    match crate::text::parted(text, Pattern::Char('\n')) {
        None => Seq::empty(),
        Some((line, rest)) => if line.len() == 0 {
            Seq::empty()
        } else {
            seq![line] + header_lines(rest)
        },
    }
}

/// What a commit says behind its header: the text behind the first empty line.
pub open spec fn said(text: Seq<char>) -> Seq<char>
    decreases text.len(),
{
    match crate::text::parted(text, Pattern::Char('\n')) {
        None => Seq::empty(),
        Some((line, rest)) => if line.len() == 0 {
            rest
        } else {
            said(rest)
        },
    }
}

/// What stands behind a word in the lines that start with it.
pub open spec fn named(lines: Seq<Seq<char>>, word: Seq<char>) -> Seq<Seq<char>>
    decreases lines.len(),
{
    if lines.len() == 0 {
        Seq::empty()
    } else if word.is_prefix_of(lines[0]) {
        seq![lines[0].skip(word.len() as int)] + named(lines.skip(1), word)
    } else {
        named(lines.skip(1), word)
    }
}

/// The number that decimal digits spell.
pub open spec fn decimal_value(digits: Seq<u8>) -> nat
    decreases digits.len(),
{
    if digits.len() == 0 {
        0
    } else {
        10 * decimal_value(digits.drop_last()) + (digits.last() - 48) as nat
    }
}

proof fn lemma_header_line(line: Seq<char>, rest: Seq<char>)
    requires
        crate::text::one_line(line),
    ensures
        line.len() > 0 ==> header_lines(line + "\n"@ + rest) == seq![line] + header_lines(rest),
        line.len() > 0 ==> said(line + "\n"@ + rest) == said(rest),
        line.len() == 0 ==> header_lines(line + "\n"@ + rest) == Seq::<Seq<char>>::empty(),
        line.len() == 0 ==> said(line + "\n"@ + rest) == rest,
{
    crate::text::lemma_line_ends(line, rest);
}

proof fn lemma_one_line(first: Seq<char>, second: Seq<char>)
    requires
        crate::text::one_line(first),
        crate::text::one_line(second),
    ensures
        crate::text::one_line(first + second),
{
    let line = first + second;
    assert forall|i: int| 0 <= i < line.len() implies #[trigger] line[i] != '\n' by {
        if i < first.len() {
            assert(line[i] == first[i]);
        } else {
            assert(line[i] == second[i - first.len()]);
        }
    }
}

proof fn lemma_named(lines: Seq<Seq<char>>, word: Seq<char>, value: Seq<char>)
    requires
        lines.len() > 0,
    ensures
        lines[0] == word + value ==> named(lines, word) == seq![value] + named(
            lines.skip(1),
            word,
        ),
        lines[0].len() > 0 && word.len() > 0 && lines[0][0] != word[0] ==> named(lines, word)
            == named(lines.skip(1), word),
{
    if lines[0] == word + value {
        assert((word + value).take(word.len() as int) =~= word);
        assert(word.is_prefix_of(lines[0]));
        assert((word + value).skip(word.len() as int) =~= value);
    }
    if word.is_prefix_of(lines[0]) && word.len() > 0 {
        assert(lines[0][0] == word[0]);
    }
}

/// The text of a finished commit is the text ahead of the nonce, the digits of the nonce and a
/// line feed.
proof fn lemma_finished_text(text: Seq<char>, nonce: u64)
    ensures
        vstd::utf8::decode_utf8(finished_body(vstd::utf8::encode_utf8(text), nonce)) == text
            + crate::hex::as_chars(crate::hex::hex_fixed(nonce as nat, 16)) + "\n"@,
{
    let digits = crate::hex::hex_fixed(nonce as nat, 16);
    let end = crate::hex::as_chars(digits + seq![10u8]);
    reveal_strlit("\n");
    crate::hex::lemma_hex_fixed_digits(nonce as nat, 16);
    assert(vstd::utf8::is_ascii_chars(end)) by {
        assert forall|i: int| 0 <= i < end.len() implies (#[trigger] end[i] as u32) < 128 by {
            if i < digits.len() {
                assert(crate::hex::is_digit(digits[i]));
            }
        }
    }
    vstd::utf8::is_ascii_chars_encode_utf8(end);
    assert(vstd::utf8::encode_utf8(end) =~= digits + seq![10u8]);
    lemma_encoded_concat(text, end);
    assert(finished_body(vstd::utf8::encode_utf8(text), nonce) =~= vstd::utf8::encode_utf8(
        text + end,
    ));
    vstd::utf8::encode_utf8_decode_utf8(text + end);
    assert(text + end =~= text + crate::hex::as_chars(digits) + "\n"@);
}

/// Read back, the header of a finished commit has a line for the tree, one for the parent where
/// there is one, one for the author and one for the committer, in this order, each with what the
/// commit was written with. Behind the first empty line stand the message without the newlines at
/// its end, which is returned, and behind another empty line the trailer with the nonce in sixteen
/// hexadecimal digits and the newline that ends the commit.
pub proof fn commit_is_read_back(
    tree_oid: Seq<char>,
    parent_oid: Option<Seq<char>>,
    author: Seq<char>,
    committer: Seq<char>,
    message: Seq<char>,
    nonce: u64,
) -> (r: (Seq<char>, Seq<u8>))
    requires
        crate::text::one_line(tree_oid),
        parent_oid matches Some(oid) ==> crate::text::one_line(oid),
        crate::text::one_line(author),
        crate::text::one_line(committer),
    ensures
        ({
            let text = vstd::utf8::decode_utf8(
                finished_body(
                    vstd::utf8::encode_utf8(
                        body_text(tree_oid, parent_oid, author, committer, message),
                    ),
                    nonce,
                ),
            );
            let lines = header_lines(text);
            &&& lines.len() == (if parent_oid is Some {
                4int
            } else {
                3int
            })
            &&& lines[0] == "tree "@ + tree_oid
            &&& parent_oid matches Some(oid) ==> lines[1] == "parent "@ + oid
            &&& lines[lines.len() - 2] == "author "@ + author
            &&& lines.last() == "committer "@ + committer
            &&& said(text) == r.0 + "\n\nShasha-Nonce: "@ + crate::hex::as_chars(r.1) + "\n"@
        }),
        r.0.is_prefix_of(message),
        forall|i: int| r.0.len() <= i < message.len() ==> #[trigger] message[i] == '\n',
        r.0.len() > 0 ==> r.0.last() != '\n',
        r.1.len() == 16,
        forall|i: int| 0 <= i < 16 ==> crate::hex::is_digit(#[trigger] r.1[i]),
        crate::hex::hex_value(r.1) == nonce,
{
    let digits = crate::hex::hex_fixed(nonce as nat, 16);
    vstd::arithmetic::power2::lemma2_to64();
    crate::hex::digits_spell_the_number(nonce as nat, 16);
    assert forall|i: int| 0 <= i < 16 implies crate::hex::is_digit(#[trigger] digits[i]) by {}
    let at = crate::laws::end_is_cut_off(message, Pattern::Char('\n'));
    let kept = message.take(at);
    assert forall|i: int| at <= i < message.len() implies #[trigger] message[i] == '\n' by {
        assert(Pattern::Char('\n').has(message[i]));
    }
    let whole = body_text(tree_oid, parent_oid, author, committer, message);
    lemma_finished_text(whole, nonce);
    let end = kept + "\n\nShasha-Nonce: "@ + crate::hex::as_chars(digits) + "\n"@;
    let tree_line = "tree "@ + tree_oid;
    let author_line = "author "@ + author;
    let committer_line = "committer "@ + committer;
    let last = author_line + "\n"@ + (committer_line + "\n"@ + (Seq::<char>::empty() + "\n"@
        + end));
    lemma_given_lines(tree_oid, parent_oid, author, committer);
    lemma_last_lines(author_line, committer_line, end);
    assert(whole + crate::hex::as_chars(digits) + "\n"@ == tree_line + "\n"@ + (match parent_oid {
        Some(oid) => "parent "@ + oid + "\n"@ + last,
        None => last,
    })) by {
        lemma_trailer(whole, tree_oid, parent_oid, author, committer, kept, digits);
    }
    match parent_oid {
        Some(oid) => {
            let parent_line = "parent "@ + oid;
            lemma_header_line(parent_line, last);
            lemma_header_line(tree_line, parent_line + "\n"@ + last);
        },
        None => {
            lemma_header_line(tree_line, last);
        },
    }
    (kept, digits)
}

proof fn lemma_given_lines(
    tree_oid: Seq<char>,
    parent_oid: Option<Seq<char>>,
    author: Seq<char>,
    committer: Seq<char>,
)
    requires
        crate::text::one_line(tree_oid),
        parent_oid matches Some(oid) ==> crate::text::one_line(oid),
        crate::text::one_line(author),
        crate::text::one_line(committer),
    ensures
        ("tree "@ + tree_oid).len() > 0,
        crate::text::one_line("tree "@ + tree_oid),
        parent_oid matches Some(oid) ==> ("parent "@ + oid).len() > 0 && crate::text::one_line(
            "parent "@ + oid,
        ),
        ("author "@ + author).len() > 0,
        crate::text::one_line("author "@ + author),
        ("committer "@ + committer).len() > 0,
        crate::text::one_line("committer "@ + committer),
{
    reveal_strlit("tree ");
    reveal_strlit("parent ");
    reveal_strlit("author ");
    reveal_strlit("committer ");
    lemma_one_line("tree "@, tree_oid);
    lemma_one_line("author "@, author);
    lemma_one_line("committer "@, committer);
    match parent_oid {
        Some(oid) => {
            lemma_one_line("parent "@, oid);
        },
        None => {},
    }
}

proof fn lemma_last_lines(author_line: Seq<char>, committer_line: Seq<char>, end: Seq<char>)
    requires
        author_line.len() > 0,
        committer_line.len() > 0,
        crate::text::one_line(author_line),
        crate::text::one_line(committer_line),
    ensures
        ({
            let last = author_line + "\n"@ + (committer_line + "\n"@ + (Seq::<char>::empty() + "\n"@
                + end));
            header_lines(last) == seq![author_line, committer_line] && said(last) == end
        }),
{
    let nothing = Seq::<char>::empty();
    let behind_committer = nothing + "\n"@ + end;
    lemma_header_line(nothing, end);
    lemma_header_line(committer_line, behind_committer);
    lemma_header_line(author_line, committer_line + "\n"@ + behind_committer);
    assert(seq![author_line] + (seq![committer_line] + Seq::<Seq<char>>::empty()) =~= seq![
        author_line,
        committer_line,
    ]);
}

proof fn lemma_trailer(
    whole: Seq<char>,
    tree_oid: Seq<char>,
    parent_oid: Option<Seq<char>>,
    author: Seq<char>,
    committer: Seq<char>,
    kept: Seq<char>,
    digits: Seq<u8>,
)
    requires
        whole == "tree "@ + tree_oid + "\n"@ + (match parent_oid {
            Some(oid) => "parent "@ + oid + "\n"@,
            None => Seq::empty(),
        }) + "author "@ + author + "\n"@ + "committer "@ + committer + "\n\n"@ + kept + "\n\n"@
            + "Shasha-Nonce: "@,
    ensures
        ({
            let end = kept + "\n\nShasha-Nonce: "@ + crate::hex::as_chars(digits) + "\n"@;
            let last = "author "@ + author + "\n"@ + ("committer "@ + committer + "\n"@
                + (Seq::<char>::empty() + "\n"@ + end));
            whole + crate::hex::as_chars(digits) + "\n"@ == "tree "@ + tree_oid + "\n"@ + (
            match parent_oid {
                Some(oid) => "parent "@ + oid + "\n"@ + last,
                None => last,
            })
        }),
{
    assert("\n\n"@ =~= "\n"@ + "\n"@) by {
        reveal_strlit("\n");
        reveal_strlit("\n\n");
    }
    assert("\n\nShasha-Nonce: "@ =~= "\n\n"@ + "Shasha-Nonce: "@) by {
        reveal_strlit("\n\n");
        reveal_strlit("Shasha-Nonce: ");
        reveal_strlit("\n\nShasha-Nonce: ");
    }
    let nonce = crate::hex::as_chars(digits);
    let nothing = Seq::<char>::empty();
    let parent = match parent_oid {
        Some(oid) => "parent "@ + oid + "\n"@,
        None => nothing,
    };
    let front = "tree "@ + tree_oid + "\n"@;
    let to_author = front + parent + "author "@;
    let to_committer = to_author + author + "\n"@ + "committer "@;
    let to_message = to_committer + committer + "\n\n"@;
    let to_nonce = to_message + kept + "\n\n"@ + "Shasha-Nonce: "@;
    let from_nonce = nonce + "\n"@;
    let from_trailer = "\n\nShasha-Nonce: "@ + from_nonce;
    lemma_join(to_nonce, nonce, "\n"@);
    lemma_join(to_message + kept + "\n\n"@, "Shasha-Nonce: "@, from_nonce);
    lemma_join(to_message + kept, "\n\n"@, "Shasha-Nonce: "@ + from_nonce);
    lemma_join("\n\n"@, "Shasha-Nonce: "@, from_nonce);
    lemma_join(to_message, kept, from_trailer);
    let end = kept + from_trailer;
    lemma_join(kept, "\n\nShasha-Nonce: "@, from_nonce);
    lemma_join(kept + "\n\nShasha-Nonce: "@, nonce, "\n"@);
    lemma_join(to_committer + committer, "\n\n"@, end);
    lemma_join("\n"@, "\n"@, end);
    assert(nothing + "\n"@ =~= "\n"@);
    let empty_line = nothing + "\n"@ + end;
    lemma_join(to_committer, committer, "\n"@ + empty_line);
    lemma_join(to_author + author + "\n"@, "committer "@, committer + ("\n"@ + empty_line));
    lemma_join("committer "@, committer, "\n"@ + empty_line);
    lemma_join("committer "@ + committer, "\n"@, empty_line);
    let from_committer = "committer "@ + committer + "\n"@ + empty_line;
    lemma_join(to_author + author, "\n"@, from_committer);
    lemma_join(to_author, author, "\n"@ + from_committer);
    lemma_join(front + parent, "author "@, author + ("\n"@ + from_committer));
    lemma_join("author "@, author, "\n"@ + from_committer);
    lemma_join("author "@ + author, "\n"@, from_committer);
    let last = "author "@ + author + "\n"@ + from_committer;
    lemma_join(front, parent, last);
    assert(nothing + last =~= last);
}

proof fn lemma_join(first: Seq<char>, second: Seq<char>, third: Seq<char>)
    ensures
        first + second + third == first + (second + third),
{
    assert(first + second + third =~= first + (second + third));
}

/// A finished commit names exactly the tree, the author and the committer that it was written
/// with.
pub proof fn commit_names_what_it_was_given(
    tree_oid: Seq<char>,
    parent_oid: Option<Seq<char>>,
    author: Seq<char>,
    committer: Seq<char>,
    message: Seq<char>,
    nonce: u64,
)
    requires
        crate::text::one_line(tree_oid),
        parent_oid matches Some(oid) ==> crate::text::one_line(oid),
        crate::text::one_line(author),
        crate::text::one_line(committer),
    ensures
        ({
            let lines = header_lines(
                vstd::utf8::decode_utf8(
                    finished_body(
                        vstd::utf8::encode_utf8(
                            body_text(tree_oid, parent_oid, author, committer, message),
                        ),
                        nonce,
                    ),
                ),
            );
            &&& named(lines, "tree "@) == seq![tree_oid]
            &&& named(lines, "author "@) == seq![author]
            &&& named(lines, "committer "@) == seq![committer]
            &&& named(lines, "parent "@) == match parent_oid {
                Some(oid) => seq![oid],
                None => Seq::empty(),
            }
        }),
{
    let text = vstd::utf8::decode_utf8(
        finished_body(
            vstd::utf8::encode_utf8(body_text(tree_oid, parent_oid, author, committer, message)),
            nonce,
        ),
    );
    let lines = header_lines(text);
    reveal_strlit("tree ");
    reveal_strlit("parent ");
    reveal_strlit("author ");
    reveal_strlit("committer ");
    let _ = commit_is_read_back(tree_oid, parent_oid, author, committer, message, nonce);
    let n = lines.len() as int;
    lemma_all_named(lines, "tree "@, tree_oid, 0);
    lemma_all_named(lines, "author "@, author, n - 2);
    lemma_all_named(lines, "committer "@, committer, n - 1);
    match parent_oid {
        Some(oid) => {
            lemma_all_named(lines, "parent "@, oid, 1);
        },
        None => {
            lemma_none_named(lines, "parent "@);
        },
    }
}

proof fn lemma_none_named(lines: Seq<Seq<char>>, word: Seq<char>)
    requires
        word.len() > 0,
        forall|j: int|
            0 <= j < lines.len() ==> (#[trigger] lines[j]).len() > 0 && lines[j][0] != word[0],
    ensures
        named(lines, word) == Seq::<Seq<char>>::empty(),
    decreases lines.len(),
{
    if lines.len() > 0 {
        lemma_named(lines, word, Seq::empty());
        lemma_none_named(lines.skip(1), word);
    }
}

proof fn lemma_all_named(lines: Seq<Seq<char>>, word: Seq<char>, value: Seq<char>, i: int)
    requires
        word.len() > 0,
        0 <= i < lines.len(),
        lines[i] == word + value,
        forall|j: int|
            0 <= j < lines.len() && j != i ==> (#[trigger] lines[j]).len() > 0 && lines[j][0]
                != word[0],
    ensures
        named(lines, word) == seq![value],
    decreases lines.len(),
{
    let rest = lines.skip(1);
    lemma_named(lines, word, value);
    if i == 0 {
        lemma_none_named(rest, word);
        assert(seq![value] + Seq::<Seq<char>>::empty() =~= seq![value]);
    } else {
        assert(lines[0].len() > 0);
        lemma_all_named(rest, word, value, i - 1);
    }
}

/// The parents of a commit are what its header names as such.
pub proof fn parents_are_named_in_the_header(text: Seq<char>)
    ensures
        parents(text) == named(header_lines(text), "parent "@),
    decreases text.len(),
{
    match crate::text::parted(text, Pattern::Char('\n')) {
        None => {},
        Some((line, rest)) => if line.len() > 0 {
            crate::laws::parts_make_up_the_text(text, Pattern::Char('\n'));
            parents_are_named_in_the_header(rest);
            assert((seq![line] + header_lines(rest)).skip(1) =~= header_lines(rest));
        },
    }
}

/// A number in decimal digits can be read back, and has no zeros ahead of it.
pub proof fn decimal_digits_spell_the_number(value: nat)
    ensures
        decimal_value(decimal(value)) == value,
        decimal(value).len() > 0,
        forall|i: int| 0 <= i < decimal(value).len() ==> 48 <= #[trigger] decimal(value)[i] <= 57,
        decimal(value).len() > 1 ==> decimal(value)[0] != 48,
    decreases value,
{
    if value < 10 {
        assert(decimal(value).drop_last() =~= Seq::<u8>::empty());
        assert(decimal(value).last() == (48 + value) as u8);
        reveal_with_fuel(decimal_value, 2);
    } else {
        let front = decimal(value / 10);
        decimal_digits_spell_the_number(value / 10);
        assert(decimal(value).drop_last() =~= front);
        assert forall|i: int| 0 <= i < decimal(value).len() implies 48 <= #[trigger] decimal(
            value,
        )[i] <= 57 by {
            if i < front.len() {
                assert(decimal(value)[i] == front[i]);
            }
        }
        if front.len() == 1 {
            assert(decimal_value(front) == value / 10);
            reveal_with_fuel(decimal_value, 2);
            assert(front.drop_last() =~= Seq::<u8>::empty());
        }
    }
}

/// An object is the word `commit`, a space, the length of the body in decimal digits, which are
/// returned, a zero byte and the body.
pub proof fn object_says_its_length(body: Seq<u8>) -> (digits: Seq<u8>)
    ensures
        commit_object(body) == seq![99u8, 111u8, 109u8, 109u8, 105u8, 116u8, 32u8] + digits + seq![
            0u8,
        ] + body,
        digits.len() > 0,
        forall|i: int| 0 <= i < digits.len() ==> 48 <= #[trigger] digits[i] <= 57,
        digits.len() > 1 ==> digits[0] != 48,
        decimal_value(digits) == body.len(),
{
    reveal_strlit("commit ");
    decimal_digits_spell_the_number(body.len());
    let word = "commit "@;
    vstd::utf8::is_ascii_chars_encode_utf8(word);
    assert(vstd::utf8::encode_utf8(word) =~= seq![99u8, 111u8, 109u8, 109u8, 105u8, 116u8, 32u8]);
    decimal(body.len())
}

} // verus!
