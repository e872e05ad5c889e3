//! The closed set of camera encodings, derived from a filename's two-letter
//! prefix.

use vstd::prelude::*;

verus! {

/// Failure to recognize an encoding prefix.
#[derive(Debug)]
pub enum Error {
    /// The name carries no known encoding prefix; carries the name.
    InvalidEncoding(String),
}

/// A recording's video encoding, named by its filename prefix.
#[derive(Debug, PartialEq, Eq, Structural, Clone, Copy, Hash)]
pub enum Encoding {
    Avc,
    Hevc,
}

/// The prefix that names an encoding.
pub open spec fn encoding_prefix(e: Encoding) -> Seq<char> {
    match e {
        Encoding::Avc => seq!['G', 'H'],
        Encoding::Hevc => seq!['G', 'X'],
    }
}

/// `name` starts with the two-character prefix of `e`.
pub open spec fn has_encoding_prefix(name: Seq<char>, e: Encoding) -> bool {
    name.len() >= 2 && name.subrange(0, 2) == encoding_prefix(e)
}

impl Encoding {
    /// The encoding's filename prefix.
    pub fn as_str(&self) -> (r: &'static str)
        ensures
            r@ == encoding_prefix(*self),
    {
        match self {
            Encoding::Avc => {
                let s = "GH";
                proof {
                    reveal_strlit("GH");
                    assert(s@ =~= encoding_prefix(Encoding::Avc));
                }
                s
            },
            Encoding::Hevc => {
                let s = "GX";
                proof {
                    reveal_strlit("GX");
                    assert(s@ =~= encoding_prefix(Encoding::Hevc));
                }
                s
            },
        }
    }

    /// Derive the encoding from a name's prefix; unknown prefixes are
    /// rejected with the name.
    pub fn try_from(name: &str) -> (r: Result<Encoding, Error>)
        ensures
            match r {
                Ok(e) => has_encoding_prefix(name@, e),
                Err(e) => !has_encoding_prefix(name@, Encoding::Avc) && !has_encoding_prefix(
                    name@,
                    Encoding::Hevc,
                ) && match e {
                    Error::InvalidEncoding(n) => n@ == name@,
                },
            },
    {
        let n = name.unicode_len();
        if n >= 2 && name.get_char(0) == 'G' {
            let c1 = name.get_char(1);
            if c1 == 'H' {
                proof {
                    assert(name@.subrange(0, 2) =~= encoding_prefix(Encoding::Avc));
                }
                return Ok(Encoding::Avc);
            }
            if c1 == 'X' {
                proof {
                    assert(name@.subrange(0, 2) =~= encoding_prefix(Encoding::Hevc));
                }
                return Ok(Encoding::Hevc);
            }
        }
        proof {
            if name@.len() >= 2 {
                assert(name@.subrange(0, 2)[0] == name@[0]);
                assert(name@.subrange(0, 2)[1] == name@[1]);
            }
        }
        Err(Error::InvalidEncoding(String::from_str(name)))
    }
}

} // verus!
