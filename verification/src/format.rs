//! The two object formats.

use vstd::prelude::*;

use crate::text::is_text;

verus! {

/// The hash function that names the objects of a repository.
#[derive(Debug, Clone, Copy, PartialEq, Eq, Structural)]
pub enum ObjectFormat {
    Sha1,
    Sha256,
}

impl ObjectFormat {
    /// Hexadecimal digits in a full object ID.
    pub open spec fn hex_len(self) -> nat {
        match self {
            ObjectFormat::Sha1 => 40,
            ObjectFormat::Sha256 => 64,
        }
    }

    /// The number of hexadecimal digits in a full object ID.
    pub fn oid_hex_len(self) -> (len: usize)
        ensures
            len == self.hex_len(),
    {
        match self {
            ObjectFormat::Sha1 => 40,
            ObjectFormat::Sha256 => 64,
        }
    }
}

/// A format that Git knows and this library does not.
#[derive(Debug)]
pub struct UnsupportedFormat {
    pub name: String,
}

impl UnsupportedFormat {
    /// The message for the user.
    pub fn describe(&self) -> (text: String)
        ensures
            text@ == "unsupported Git object format: "@ + self.name@,
    {
        let mut text: String = "unsupported Git object format: ".to_owned();
        text.append(self.name.as_str());
        text
    }
}

/// The format with the given name.
pub open spec fn named_format(name: Seq<char>) -> Option<ObjectFormat> {
    if name == "sha1"@ {
        Some(ObjectFormat::Sha1)
    } else if name == "sha256"@ {
        Some(ObjectFormat::Sha256)
    } else {
        None
    }
}

/// The format with the given name.
pub fn format_named(name: &[char]) -> (r: Result<ObjectFormat, UnsupportedFormat>)
    ensures
        match r {
            Ok(format) => named_format(name@) == Some(format),
            Err(error) => named_format(name@) is None && error.name@ == name@,
        },
{
    if is_text(name, "sha1") {
        Ok(ObjectFormat::Sha1)
    } else if is_text(name, "sha256") {
        Ok(ObjectFormat::Sha256)
    } else {
        Err(UnsupportedFormat { name: crate::text::text_of(name) })
    }
}

} // verus!
