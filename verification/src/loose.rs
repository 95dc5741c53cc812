//! Loose objects: whether one with a given prefix exists, and how one is stored.

use std::io::{Read, Write};

use vstd::prelude::*;
use vstd::slice::{slice_subrange, slice_to_vec};

use crate::format::ObjectFormat;
use crate::git::{trim_stdout, GitError};
use crate::path::join_text;
use crate::repository::Repository;
use crate::text::{chars_of, is_all_hex, is_text, starts_with, text_of};

verus! {

/// A file whose presence means that there are packed objects.
pub open spec fn is_pack_index(name: Seq<char>) -> bool {
    ||| ".idx"@.len() <= name.len() && name.skip(name.len() - ".idx"@.len()) == ".idx"@
    ||| name == "multi-pack-index"@
}

/// The file of a loose object whose ID goes on with `suffix` behind the directory's two digits.
pub open spec fn is_loose_match(format: ObjectFormat, name: Seq<char>, suffix: Seq<char>) -> bool {
    &&& name.len() == format.hex_len() - 2
    &&& crate::text::all_hex(name)
    &&& suffix.is_prefix_of(name)
}

/// The characters that make up the first two bytes of a text.
pub open spec fn head_len(text: Seq<char>) -> nat {
    if text[0] as u32 >= 0x80 {
        1
    } else {
        2
    }
}

/// The first two bytes of a text are characters of their own.
pub open spec fn has_head(text: Seq<char>) -> bool {
    ||| text.len() >= 1 && 0x80 <= text[0] as u32 && (text[0] as u32) < 0x800
    ||| text.len() >= 2 && (text[0] as u32) < 0x80 && (text[1] as u32) < 0x80
}

/// The head of a text is two bytes long.
pub proof fn head_has_two_bytes(text: Seq<char>)
    requires
        has_head(text),
    ensures
        vstd::utf8::encode_utf8(text.take(head_len(text) as int)).len() == 2,
{
    let head = text.take(head_len(text) as int);
    reveal_with_fuel(vstd::utf8::encode_utf8, 3);
    assert(head[0] == text[0]);
    if head_len(text) == 2 {
        assert(head.drop_first()[0] == text[1]);
        assert(head.drop_first().drop_first().len() == 0);
    } else {
        assert(head.drop_first().len() == 0);
    }
}

/// Parts a text behind its first two bytes.
fn head_and_rest(text: &str) -> (r: (String, Vec<char>))
    requires
        has_head(text@),
    ensures
        r.0@ == text@.take(head_len(text@) as int),
        r.1@ == text@.skip(head_len(text@) as int),
{
    let chars: Vec<char> = chars_of(text);
    let at: usize = if chars[0] as u32 >= 0x80 {
        1
    } else {
        2
    };
    assert(text@.subrange(0, at as int) =~= text@.take(at as int));
    assert(text@.subrange(at as int, text@.len() as int) =~= text@.skip(at as int));
    (
        text_of(slice_subrange(chars.as_slice(), 0, at)),
        slice_to_vec(slice_subrange(chars.as_slice(), at, chars.len())),
    )
}

/// What a scan waits for, or what it came to. It comes to nothing where loose objects alone
/// cannot give the answer.
#[derive(Debug, Clone, Copy, PartialEq, Eq, Structural)]
pub enum LooseStage {
    /// The names in the pack directory.
    Packs,
    /// The names in the directory of the prefix.
    Objects,
    /// Nothing.
    Decided(Option<bool>),
}

/// The stage behind one name.
pub open spec fn after_name(
    format: ObjectFormat,
    suffix: Seq<char>,
    stage: LooseStage,
    name: Seq<char>,
) -> LooseStage {
    match stage {
        LooseStage::Packs if is_pack_index(name) => LooseStage::Decided(None),
        LooseStage::Objects if is_loose_match(format, name, suffix) => LooseStage::Decided(
            Some(true),
        ),
        _ => stage,
    }
}

/// The stage behind the last name of a directory, or behind a directory that does not exist.
pub open spec fn after_directory(stage: LooseStage) -> LooseStage {
    match stage {
        LooseStage::Packs => LooseStage::Objects,
        LooseStage::Objects => LooseStage::Decided(Some(false)),
        _ => stage,
    }
}

/// The stage behind a whole directory.
pub open spec fn after_names(
    format: ObjectFormat,
    suffix: Seq<char>,
    stage: LooseStage,
    names: Seq<Seq<char>>,
) -> LooseStage
    decreases names.len(),
{
    if names.len() == 0 {
        stage
    } else {
        let before = after_names(format, suffix, stage, names.drop_last());
        after_name(format, suffix, before, names.last())
    }
}

proof fn lemma_after_names(
    format: ObjectFormat,
    suffix: Seq<char>,
    stage: LooseStage,
    names: Seq<Seq<char>>,
)
    ensures
        after_names(format, suffix, stage, names) == match stage {
            LooseStage::Packs => if exists|i: int|
                0 <= i < names.len() && is_pack_index(#[trigger] names[i]) {
                LooseStage::Decided(None)
            } else {
                stage
            },
            LooseStage::Objects => if exists|i: int|
                0 <= i < names.len() && is_loose_match(format, #[trigger] names[i], suffix) {
                LooseStage::Decided(Some(true))
            } else {
                stage
            },
            LooseStage::Decided(_) => stage,
        },
    decreases names.len(),
{
    if names.len() > 0 {
        let front = names.drop_last();
        lemma_after_names(format, suffix, stage, front);
        let last = names.len() - 1;
        assert(names.last() == names[last]);
        assert forall|i: int| 0 <= i < last implies #[trigger] names[i] == front[i] by {}
        if exists|i: int| 0 <= i < front.len() && is_pack_index(#[trigger] front[i]) {
            let i = choose|i: int| 0 <= i < front.len() && is_pack_index(#[trigger] front[i]);
            assert(is_pack_index(names[i]));
        }
        if exists|i: int|
            0 <= i < front.len() && is_loose_match(format, #[trigger] front[i], suffix) {
            let i = choose|i: int|
                0 <= i < front.len() && is_loose_match(format, #[trigger] front[i], suffix);
            assert(is_loose_match(format, names[i], suffix));
        }
    }
}

/// A scan of both directories finds a loose object with the prefix if and only if there is one,
/// unless there is a pack index, which leaves the question open.
pub proof fn scan_finds_what_is_there(
    format: ObjectFormat,
    suffix: Seq<char>,
    packs: Seq<Seq<char>>,
    objects: Seq<Seq<char>>,
)
    ensures
        after_directory(
            after_names(
                format,
                suffix,
                after_directory(after_names(format, suffix, LooseStage::Packs, packs)),
                objects,
            ),
        ) == LooseStage::Decided(
            if exists|i: int| 0 <= i < packs.len() && is_pack_index(#[trigger] packs[i]) {
                None
            } else {
                Some(
                    exists|i: int|
                        0 <= i < objects.len() && is_loose_match(
                            format,
                            #[trigger] objects[i],
                            suffix,
                        ),
                )
            },
        ),
{
    lemma_after_names(format, suffix, LooseStage::Packs, packs);
    let stage = after_directory(after_names(format, suffix, LooseStage::Packs, packs));
    lemma_after_names(format, suffix, stage, objects);
}

/// A scan for loose objects with a given prefix. Whoever scans lists the directory that `path`
/// names and reports each name and the end.
#[derive(Debug)]
pub struct LooseScan {
    objects_dir: Vec<u8>,
    format: ObjectFormat,
    directory: String,
    suffix: Vec<char>,
    stage: LooseStage,
}

impl LooseScan {
    /// The object directory.
    pub closed spec fn objects_dir(&self) -> Seq<u8> {
        self.objects_dir@
    }

    /// The format of the object IDs.
    pub closed spec fn format(&self) -> ObjectFormat {
        self.format
    }

    /// The first two digits of the prefix.
    pub closed spec fn directory(&self) -> Seq<char> {
        self.directory@
    }

    /// The other digits of the prefix.
    pub closed spec fn suffix(&self) -> Seq<char> {
        self.suffix@
    }

    /// What the scan waits for, or what it came to.
    pub closed spec fn waits_for(&self) -> LooseStage {
        self.stage
    }

    /// The same scan.
    pub open spec fn in_place_of(&self, before: &Self) -> bool {
        &&& self.objects_dir() == before.objects_dir()
        &&& self.format() == before.format()
        &&& self.directory() == before.directory()
        &&& self.suffix() == before.suffix()
    }

    /// A scan for `prefix`. With objects borrowed from elsewhere, because the environment or a
    /// file says so, it is over at once.
    pub fn new(
        repository: &Repository,
        prefix: &str,
        alternates_set: bool,
        alternates_listed: bool,
    ) -> (scan: LooseScan)
        requires
            has_head(prefix@),
        ensures
            scan.objects_dir() == repository.objects_dir@,
            scan.format() == repository.object_format,
            scan.directory() == prefix@.take(head_len(prefix@) as int),
            scan.suffix() == prefix@.skip(head_len(prefix@) as int),
            scan.waits_for() == if alternates_set || alternates_listed {
                LooseStage::Decided(None)
            } else {
                LooseStage::Packs
            },
    {
        let stage: LooseStage = if alternates_set || alternates_listed {
            LooseStage::Decided(None)
        } else {
            LooseStage::Packs
        };
        let (directory, suffix): (String, Vec<char>) = head_and_rest(prefix);
        LooseScan {
            objects_dir: slice_to_vec(repository.objects_dir.as_slice()),
            format: repository.object_format,
            directory,
            suffix,
            stage,
        }
    }

    /// What the scan waits for, or what it came to.
    pub fn stage(&self) -> (stage: LooseStage)
        ensures
            stage == self.waits_for(),
    {
        self.stage
    }

    /// The directory to list; nothing once the scan is over.
    pub fn path(&self) -> (path: Option<Vec<u8>>)
        ensures
            match (self.waits_for(), path) {
                (LooseStage::Packs, Some(p)) => p@ == crate::path::joined(
                    self.objects_dir(),
                    vstd::utf8::encode_utf8("pack"@),
                ),
                (LooseStage::Objects, Some(p)) => p@ == crate::path::joined(
                    self.objects_dir(),
                    vstd::utf8::encode_utf8(self.directory()),
                ),
                (LooseStage::Decided(_), None) => true,
                _ => false,
            },
    {
        match self.stage {
            LooseStage::Packs => Some(join_text(self.objects_dir.as_slice(), "pack")),
            LooseStage::Objects => Some(
                join_text(self.objects_dir.as_slice(), self.directory.as_str()),
            ),
            LooseStage::Decided(_) => None,
        }
    }

    /// Takes in a name from the directory. Reports whether the rest of it still matters.
    pub fn name(&mut self, name: &str) -> (goes_on: bool)
        ensures
            final(self).in_place_of(old(self)),
            final(self).waits_for() == after_name(
                old(self).format(),
                old(self).suffix(),
                old(self).waits_for(),
                name@,
            ),
            goes_on == !(final(self).waits_for() is Decided),
    {
        let chars: Vec<char> = chars_of(name);
        match self.stage {
            LooseStage::Packs => {
                if has_index_name(chars.as_slice()) {
                    self.stage = LooseStage::Decided(None);
                    false
                } else {
                    true
                }
            },
            LooseStage::Objects => {
                if chars.len() == self.format.oid_hex_len() - 2 && is_all_hex(chars.as_slice())
                    && starts_with(chars.as_slice(), self.suffix.as_slice()) {
                    self.stage = LooseStage::Decided(Some(true));
                    false
                } else {
                    true
                }
            },
            LooseStage::Decided(_) => false,
        }
    }

    /// Takes in that the directory has no more names, or does not exist.
    pub fn directory_end(&mut self)
        ensures
            final(self).in_place_of(old(self)),
            final(self).waits_for() == after_directory(old(self).waits_for()),
    {
        match self.stage {
            LooseStage::Packs => {
                self.stage = LooseStage::Objects;
            },
            LooseStage::Objects => {
                self.stage = LooseStage::Decided(Some(false));
            },
            LooseStage::Decided(_) => {},
        }
    }
}

/// Whether a name in the pack directory is that of an index.
fn has_index_name(name: &[char]) -> (r: bool)
    ensures
        r == is_pack_index(name@),
{
    let ending: Vec<char> = chars_of(".idx");
    if ending.len() <= name.len() {
        let start: usize = name.len() - ending.len();
        let end: &[char] = slice_subrange(name, start, name.len());
        assert(end@ =~= name@.skip(start as int));
        if crate::text::same(end, ending.as_slice()) {
            return true;
        }
    }
    is_text(name, "multi-pack-index")
}

/// The argument that makes Git list the objects with a prefix.
pub fn disambiguate_argument(prefix: &str) -> (argument: String)
    ensures
        argument@ == "--disambiguate="@ + prefix@,
{
    let mut argument: String = "--disambiguate=".to_owned();
    argument.append(prefix);
    argument
}

impl Repository {
    /// Whether Git lists any object with the prefix it was asked for. It fails where there is none.
    pub fn object_prefix_exists(&self, success: bool, stdout: &[u8]) -> (r: Result<bool, GitError>)
        ensures
            match r {
                Ok(exists) => {
                    &&& success ==> vstd::utf8::valid_utf8(stdout@)
                    &&& exists == (success && crate::text::bare(
                        vstd::utf8::decode_utf8(stdout@),
                    ).len() > 0)
                },
                Err(error) => success && !vstd::utf8::valid_utf8(stdout@) && error is NotUtf8,
            },
    {
        if !success {
            return Ok(false);
        }
        match trim_stdout(stdout) {
            Ok(text) => Ok(!text.as_str().is_empty()),
            Err(error) => Err(error),
        }
    }
}

/// What `flate2::write::ZlibEncoder` at its fast level makes of a byte string, or nothing where
/// it fails.
pub uninterp spec fn zlib_stream(bytes: Seq<u8>) -> Option<Seq<u8>>;

/// What `flate2::read::ZlibDecoder` reads out of a stream, or nothing where it fails.
pub uninterp spec fn zlib_contents(stream: Seq<u8>) -> Option<Seq<u8>>;

/// Calls `flate2::write::ZlibEncoder` with `Compression::fast`, into memory. The stream is named,
/// not described: it depends on the bytes alone. It decompresses to them.
#[verifier::external_body]
fn compress_zlib(bytes: &[u8]) -> (stream: Option<Vec<u8>>)
    ensures
        match stream {
            Some(stream) => zlib_stream(bytes@) == Some(stream@) && zlib_contents(stream@) == Some(
                bytes@,
            ),
            None => zlib_stream(bytes@) is None,
        },
{
    let level = flate2::Compression::fast();
    let mut encoder = flate2::write::ZlibEncoder::new(Vec::new(), level);
    match encoder.write_all(bytes) {
        Ok(()) => encoder.finish().ok(),
        Err(_) => None,
    }
}

/// Calls `flate2::read::ZlibDecoder` and reads it to its end. What is read is named, not
/// described: it depends on the stream alone.
#[verifier::external_body]
fn decompress_zlib(stream: &[u8]) -> (bytes: Option<Vec<u8>>)
    ensures
        match bytes {
            Some(bytes) => zlib_contents(stream@) == Some(bytes@),
            None => zlib_contents(stream@) is None,
        },
{
    let mut bytes = Vec::new();
    match flate2::read::ZlibDecoder::new(stream).read_to_end(&mut bytes) {
        Ok(_) => Some(bytes),
        Err(_) => None,
    }
}

/// Where a loose object goes.
#[derive(Debug)]
pub struct LoosePlace {
    pub directory: Vec<u8>,
    pub destination: Vec<u8>,
}

impl LoosePlace {
    /// The place of an object in a repository: in the directory of the first two digits of its ID,
    /// under the name of the others.
    pub open spec fn belongs_to(&self, objects_dir: Seq<u8>, oid: Seq<char>) -> bool {
        let len = head_len(oid) as int;
        &&& self.directory@ == crate::path::joined(
            objects_dir,
            vstd::utf8::encode_utf8(oid.take(len)),
        )
        &&& self.destination@ == crate::path::joined(
            self.directory@,
            vstd::utf8::encode_utf8(oid.skip(len)),
        )
    }
}

/// The place of the object with the given ID.
pub fn loose_place(repository: &Repository, oid: &str) -> (place: LoosePlace)
    requires
        has_head(oid@),
    ensures
        place.belongs_to(repository.objects_dir@, oid@),
{
    let (start, rest): (String, Vec<char>) = head_and_rest(oid);
    let directory: Vec<u8> = join_text(repository.objects_dir.as_slice(), start.as_str());
    let destination: Vec<u8> = join_text(
        directory.as_slice(),
        text_of(rest.as_slice()).as_str(),
    );
    LoosePlace { directory, destination }
}

/// A loose object, ready to be put into its place.
#[derive(Debug)]
pub struct LooseObject {
    pub place: LoosePlace,
    pub stream: Vec<u8>,
}

impl LooseObject {
    /// Reads the object back out of its stream, unless it cannot be decompressed.
    pub fn contents(&self) -> (r: Option<Vec<u8>>)
        ensures
            match r {
                Some(object) => zlib_contents(self.stream@) == Some(object@),
                None => zlib_contents(self.stream@) is None,
            },
    {
        decompress_zlib(self.stream.as_slice())
    }
}

/// Compresses an object and says where it goes.
pub fn write_loose_object(repository: &Repository, object: &[u8], oid: &str) -> (r: Option<
    LooseObject,
>)
    requires
        has_head(oid@),
    ensures
        match r {
            Some(loose) => {
                &&& zlib_stream(object@) == Some(loose.stream@)
                &&& zlib_contents(loose.stream@) == Some(object@)
                &&& loose.place.belongs_to(repository.objects_dir@, oid@)
            },
            None => zlib_stream(object@) is None,
        },
{
    let place: LoosePlace = loose_place(repository, oid);
    match compress_zlib(object) {
        Some(stream) => Some(LooseObject { place, stream }),
        None => None,
    }
}

/// The files of a pack directory that mean packed objects are those that end in `.idx` and the
/// index of several packs.
pub proof fn indexes_end_in_idx(name: Seq<char>, stem: Seq<char>)
    ensures
        is_pack_index(stem + ".idx"@),
        is_pack_index("multi-pack-index"@),
        is_pack_index(name) && name != "multi-pack-index"@ ==> exists|rest: Seq<char>|
            name == #[trigger] (rest + ".idx"@),
{
    let full = stem + ".idx"@;
    assert(full.skip(full.len() - ".idx"@.len()) =~= ".idx"@);
    if is_pack_index(name) && name != "multi-pack-index"@ {
        let rest = name.take(name.len() - ".idx"@.len());
        assert(name =~= rest + ".idx"@);
    }
}

/// A file in the directory of two digits is a match if and only if the digits and its name are a
/// full object ID that starts with the prefix.
pub proof fn matches_are_ids_with_the_prefix(
    format: ObjectFormat,
    directory: Seq<char>,
    name: Seq<char>,
    suffix: Seq<char>,
)
    requires
        directory.len() == 2,
        crate::text::all_hex(directory),
    ensures
        is_loose_match(format, name, suffix) <==> crate::refs::full_oid(format, directory + name)
            && (directory + suffix).is_prefix_of(directory + name),
        has_head(directory + suffix),
        (directory + suffix).take(head_len(directory + suffix) as int) == directory,
        (directory + suffix).skip(head_len(directory + suffix) as int) == suffix,
{
    let id = directory + name;
    let prefix = directory + suffix;
    assert(crate::text::hex_char(directory[0]) && crate::text::hex_char(directory[1]));
    assert(prefix[0] == directory[0] && prefix[1] == directory[1]);
    assert(prefix.take(2) =~= directory);
    assert(prefix.skip(2) =~= suffix);
    if crate::text::all_hex(name) {
        assert forall|i: int| 0 <= i < id.len() implies crate::text::hex_char(
            #[trigger] id[i],
        ) by {
            if i < 2 {
                assert(id[i] == directory[i]);
            } else {
                assert(id[i] == name[i - 2]);
            }
        }
    }
    if crate::text::all_hex(id) {
        assert forall|i: int| 0 <= i < name.len() implies crate::text::hex_char(
            #[trigger] name[i],
        ) by {
            assert(id[i + 2] == name[i]);
        }
    }
    if suffix.is_prefix_of(name) {
        assert(prefix =~= id.take(prefix.len() as int));
    }
    if prefix.is_prefix_of(id) {
        assert(suffix =~= name.take(suffix.len() as int)) by {
            assert forall|i: int| 0 <= i < suffix.len() implies suffix[i] == name[i] by {
                assert(prefix[i + 2] == id.take(prefix.len() as int)[i + 2]);
                assert(prefix[i + 2] == suffix[i]);
            }
        }
    }
}

/// A loose object lies two levels below the object directory: in a directory with the first two
/// digits of its ID for a name, under the others.
pub proof fn loose_objects_lie_two_levels_down(
    place: LoosePlace,
    objects_dir: Seq<u8>,
    start: Seq<u8>,
    rest: Seq<u8>,
)
    requires
        objects_dir.len() > 0,
        start.len() == 2,
        rest.len() > 0,
        forall|i: int| 0 <= i < 2 ==> crate::hex::is_digit(#[trigger] start[i]),
        forall|i: int| 0 <= i < rest.len() ==> crate::hex::is_digit(#[trigger] rest[i]),
        place.belongs_to(objects_dir, crate::hex::as_chars(start + rest)),
    ensures
        crate::path::path_components(place.directory@) == crate::path::path_components(
            objects_dir,
        ).push(start),
        crate::path::path_components(place.destination@) == crate::path::path_components(
            objects_dir,
        ).push(start).push(rest),
        objects_dir.is_prefix_of(place.directory@),
        place.directory@.is_prefix_of(place.destination@),
{
    let oid = crate::hex::as_chars(start + rest);
    assert(crate::hex::is_digit(start[0]) && crate::hex::is_digit(start[1]));
    assert(oid[0] == start[0] as char);
    assert(head_len(oid) == 2);
    assert(oid.take(2) =~= crate::hex::as_chars(start));
    assert(oid.skip(2) =~= crate::hex::as_chars(rest));
    lemma_digits_encoded(start);
    lemma_digits_encoded(rest);
    lemma_digits_are_names(start);
    lemma_digits_are_names(rest);
    crate::path::entries_add_a_component(objects_dir, start);
    crate::path::paths_lie_below_their_base(objects_dir, start);
    assert(place.directory@.len() > 0);
    crate::path::entries_add_a_component(place.directory@, rest);
    crate::path::paths_lie_below_their_base(place.directory@, rest);
}

proof fn lemma_digits_encoded(digits: Seq<u8>)
    requires
        forall|i: int| 0 <= i < digits.len() ==> crate::hex::is_digit(#[trigger] digits[i]),
    ensures
        vstd::utf8::encode_utf8(crate::hex::as_chars(digits)) == digits,
{
    let text = crate::hex::as_chars(digits);
    assert(vstd::utf8::is_ascii_chars(text)) by {
        assert forall|i: int| 0 <= i < text.len() implies (#[trigger] text[i] as u32) < 128 by {
            assert(crate::hex::is_digit(digits[i]));
        }
    }
    vstd::utf8::is_ascii_chars_encode_utf8(text);
    assert(vstd::utf8::encode_utf8(text) =~= digits);
}

proof fn lemma_digits_are_names(digits: Seq<u8>)
    requires
        digits.len() > 0,
        forall|i: int| 0 <= i < digits.len() ==> crate::hex::is_digit(#[trigger] digits[i]),
    ensures
        crate::path::entry_name(digits),
{
    assert forall|i: int| 0 <= i < digits.len() implies #[trigger] digits[i] != 47 by {
        assert(crate::hex::is_digit(digits[i]));
    }
    assert(crate::hex::is_digit(digits[0]));
}

/// Where the first characters of a text make two bytes, they are its head.
pub proof fn heads_are_the_first_two_bytes(text: Seq<char>, count: int)
    requires
        0 <= count <= text.len(),
        vstd::utf8::encode_utf8(text.take(count)).len() == 2,
    ensures
        has_head(text),
        head_len(text) == count,
{
    let head = text.take(count);
    lemma_encoded_len(head);
    reveal_with_fuel(vstd::utf8::encode_utf8, 3);
    if count >= 1 {
        assert(head[0] == text[0]);
    }
    if count == 2 {
        assert(head.drop_first()[0] == text[1]);
        assert(head.drop_first().drop_first().len() == 0);
        lemma_encoded_len(head.drop_first());
    }
    if count == 1 {
        assert(head.drop_first().len() == 0);
    }
}

proof fn lemma_encoded_len(text: Seq<char>)
    ensures
        vstd::utf8::encode_utf8(text).len() >= text.len(),
    decreases text.len(),
{
    reveal_with_fuel(vstd::utf8::encode_utf8, 2);
    if text.len() > 0 {
        lemma_encoded_len(text.drop_first());
    }
}

} // verus!
