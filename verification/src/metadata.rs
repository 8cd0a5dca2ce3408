//! Song-file metadata carried between the library and its callers.
//!
//! The tag-reading and image work around these records belongs to
//! outside collaborators; the library only holds the plain fields,
//! builds the full path of a file, and bounds tag-like fields.

use vstd::prelude::*;

use crate::errors::Error;

verus! {

/// Cover art: raw image bytes and their MIME type.
#[derive(Debug, Clone)]
pub struct FilePicture {
    pub data: Vec<u8>,
    pub mime_type: Option<String>,
}

/// Metadata of one song file; every field is optional.
///
/// `xorname` holds the 32-byte network address of the file's content,
/// as plain bytes.
#[derive(Debug, Clone, Default)]
pub struct FileMetadata {
    pub folder_path: Option<String>,
    pub file_name: Option<String>,
    pub extension: Option<String>,
    pub xorname: Option<Vec<u8>>,
    pub size: Option<u32>,
    pub title: Option<String>,
    pub artist: Option<String>,
    pub album: Option<String>,
    pub genre: Option<String>,
    pub year: Option<u32>,
    pub track_number: Option<u32>,
    /// Duration in seconds.
    pub duration: Option<u64>,
    pub channels: Option<u8>,
    pub sample_rate: Option<u32>,
    pub picture: Option<FilePicture>,
}

/// The path that `full_path` builds once all three parts are present:
/// `<folder>/<name>.<extension>`.
pub open spec fn spec_full_path(folder: Seq<char>, name: Seq<char>, ext: Seq<char>) -> Seq<char> {
    folder + "/"@ + name + "."@ + ext
}

/// The first `max` characters of `s`, or all of `s` if it is shorter.
pub open spec fn spec_truncate_chars(s: Seq<char>, max: nat) -> Seq<char> {
    if s.len() <= max {
        s
    } else {
        s.subrange(0, max as int)
    }
}

/// Ten to the power `n`.
pub open spec fn pow10(n: nat) -> nat
    decreases n,
{
    if n == 0 {
        1
    } else {
        10 * pow10((n - 1) as nat)
    }
}

/// What `truncate_number` keeps: the value itself if it has at most
/// `n` decimal digits, else its last `n` digits.
pub open spec fn spec_truncate_number(v: u32, n: nat) -> int {
    if v >= pow10(n) {
        v as int % pow10(n) as int
    } else {
        v as int
    }
}

proof fn lemma_pow10_pos(n: nat)
    ensures
        pow10(n) >= 1,
    decreases n,
{
    if n > 0 {
        lemma_pow10_pos((n - 1) as nat);
    }
}

proof fn lemma_pow10_mono(a: nat, b: nat)
    requires
        a <= b,
    ensures
        pow10(a) <= pow10(b),
    decreases b,
{
    if a < b {
        lemma_pow10_mono(a, (b - 1) as nat);
        lemma_pow10_pos((b - 1) as nat);
    }
}

/// Caps a tag string: a value whose byte length exceeds `max_length`
/// is cut down to its first `max_length` characters.
pub fn truncate_to_max_length(value: String, max_length: usize) -> (r: String)
    ensures
        r@ == (if vstd::utf8::encode_utf8(value@).len() as usize > max_length {
            spec_truncate_chars(value@, max_length as nat)
        } else {
            value@
        }),
{
    let byte_len = value.as_str().len();
    if byte_len > max_length {
        let n = value.as_str().unicode_len();
        let k = if max_length < n {
            max_length
        } else {
            n
        };
        let sub = value.as_str().substring_char(0, k);
        let r = String::from_str(sub);
        proof {
            if value@.len() <= max_length {
                assert(value@.subrange(0, value@.len() as int) =~= value@);
            }
        }
        r
    } else {
        value
    }
}

/// Caps a tag number at `max_length` decimal digits, keeping the last
/// digits of an over-long value.
pub fn truncate_number(value: u32, max_length: usize) -> (r: u32)
    requires
        max_length <= 9,
    ensures
        r == spec_truncate_number(value, max_length as nat),
{
    let mut p: u32 = 1;
    let mut i: usize = 0;
    while i < max_length
        invariant
            i <= max_length <= 9,
            p == pow10(i as nat),
        decreases max_length - i,
    {
        proof {
            lemma_pow10_mono(i as nat, 8);
            reveal_with_fuel(pow10, 10);
            assert(pow10(8) == 100000000);
        }
        p = p * 10;
        i = i + 1;
    }
    proof {
        lemma_pow10_pos(max_length as nat);
    }
    let max_value = p - 1;
    if value > max_value {
        value % p
    } else {
        value
    }
}

impl FileMetadata {
    /// Joins folder path, file name and extension into one path string;
    /// reports whichever of the three is missing.
    pub fn full_path(&self) -> (r: Result<String, Error>)
        ensures
            match r {
                Ok(p) => {
                    &&& self.folder_path is Some
                    &&& self.file_name is Some
                    &&& self.extension is Some
                    &&& p@ == spec_full_path(
                        self.folder_path.unwrap()@,
                        self.file_name.unwrap()@,
                        self.extension.unwrap()@,
                    )
                },
                Err(e) => {
                    &&& e == Error::MissingField
                    &&& (self.folder_path is None || self.file_name is None
                        || self.extension is None)
                },
            },
    {
        let folder = match &self.folder_path {
            Some(f) => f,
            None => {
                return Err(Error::MissingField);
            },
        };
        let name = match &self.file_name {
            Some(n) => n,
            None => {
                return Err(Error::MissingField);
            },
        };
        let ext = match &self.extension {
            Some(e) => e,
            None => {
                return Err(Error::MissingField);
            },
        };
        let mut path = folder.clone();
        path.append("/");
        path.append(name.as_str());
        path.append(".");
        path.append(ext.as_str());
        Ok(path)
    }
}

} // verus!
