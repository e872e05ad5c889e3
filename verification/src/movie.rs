//! The filename grammar: one camera filename parses to a movie — an identity
//! fingerprint plus one chapter identifier — or is rejected with a
//! value-level error.
//!
//! A filename splits at its last dot into an eight-character stem and an
//! extension. The stem reads: characters 0..2 the encoding prefix, 2..4 the
//! chapter code, 4..8 the file code. Numeric file code 0 and numeric chapter
//! code 0 are rejected; alphabetic (loop) chapter codes are exempt.

use crate::encoding::{self, encoding_prefix, has_encoding_prefix, Encoding};
use crate::identifier::{self, id_canon, id_wf, kind_of, IdModel, Identifier};
use crate::text::{last_index_of, lemma_last_index_of, parse_usize_spec, rfind_char};
use vstd::prelude::*;

verus! {

/// Failure to parse a filename.
#[derive(Debug)]
pub enum Error {
    /// No extension, or a stem that is not exactly eight characters; carries
    /// the offending text.
    InvalidFileName(String),
    /// The numeric file code is zero.
    InvalidMovieFileNumberZero,
    /// The numeric chapter code is zero.
    InvalidMovieChapterNumberZero,
    /// An identifier inside the stem was rejected.
    Identifier(identifier::Error),
    /// The stem carries no known encoding prefix.
    Encoding(encoding::Error),
}

/// The filename has an extension separator.
pub open spec fn has_dot(s: Seq<char>) -> bool {
    last_index_of(s, '.') >= 0
}

/// The stem: everything before the last dot.
pub open spec fn stem_of(s: Seq<char>) -> Seq<char> {
    s.take(last_index_of(s, '.'))
}

/// The extension: everything after the last dot.
pub open spec fn ext_of(s: Seq<char>) -> Seq<char> {
    s.skip(last_index_of(s, '.') + 1)
}

/// All characters are ASCII.
pub open spec fn ascii_chars(s: Seq<char>) -> bool {
    forall|i: int| 0 <= i < s.len() ==> (#[trigger] s[i] as u32) < 128
}

/// An admissible stem: exactly eight ASCII characters.
pub open spec fn stem_ok(stem: Seq<char>) -> bool {
    stem.len() == 8 && ascii_chars(stem)
}

/// The chapter code: stem characters 2..4.
pub open spec fn chapter_code(stem: Seq<char>) -> Seq<char> {
    stem.subrange(2, 4)
}

/// The file code: stem characters 4..8.
pub open spec fn file_code(stem: Seq<char>) -> Seq<char> {
    stem.subrange(4, 8)
}

/// The encoding named by the stem's prefix, if any.
pub open spec fn stem_encoding(stem: Seq<char>) -> Option<Encoding> {
    if has_encoding_prefix(stem, Encoding::Avc) {
        Some(Encoding::Avc)
    } else if has_encoding_prefix(stem, Encoding::Hevc) {
        Some(Encoding::Hevc)
    } else {
        None
    }
}

/// Mathematical model of a fingerprint.
pub struct FingerprintModel {
    pub encoding: Encoding,
    pub file: IdModel,
    pub extension: Seq<char>,
}

/// Mathematical model of a parsed movie filename.
pub struct MovieModel {
    pub fingerprint: FingerprintModel,
    pub chapter: IdModel,
}

/// The filename is accepted by the grammar.
pub open spec fn movie_valid(s: Seq<char>) -> bool {
    &&& has_dot(s)
    &&& stem_ok(stem_of(s))
    &&& stem_encoding(stem_of(s)) is Some
    &&& parse_usize_spec(file_code(stem_of(s))) != Some(0usize)
    &&& parse_usize_spec(chapter_code(stem_of(s))) != Some(0usize)
}

/// The movie an accepted filename parses to.
pub open spec fn movie_of(s: Seq<char>) -> MovieModel {
    let stem = stem_of(s);
    MovieModel {
        fingerprint: FingerprintModel {
            encoding: stem_encoding(stem)->0,
            file: IdModel { raw: file_code(stem), kind: kind_of(file_code(stem)) },
            extension: ext_of(s),
        },
        chapter: IdModel { raw: chapter_code(stem), kind: kind_of(chapter_code(stem)) },
    }
}

/// The canonical filename a movie renders back to.
pub open spec fn render_movie(m: MovieModel) -> Seq<char> {
    encoding_prefix(m.fingerprint.encoding) + id_canon(m.chapter) + id_canon(m.fingerprint.file)
        + seq!['.'] + m.fingerprint.extension
}

/// Identity of one logical multi-chapter recording.
#[derive(Debug, Hash)]
pub struct Fingerprint {
    pub encoding: Encoding,
    pub file: Identifier,
    pub extension: String,
}

impl View for Fingerprint {
    type V = FingerprintModel;

    open spec fn view(&self) -> FingerprintModel {
        FingerprintModel {
            encoding: self.encoding,
            file: self.file@,
            extension: self.extension@,
        }
    }
}

impl Clone for Fingerprint {
    fn clone(&self) -> (r: Fingerprint)
        ensures
            r@ == self@,
    {
        Fingerprint {
            encoding: self.encoding,
            file: self.file.clone(),
            extension: self.extension.clone(),
        }
    }
}

impl PartialEq for Fingerprint {
    fn eq(&self, other: &Fingerprint) -> (r: bool) {
        self.encoding == other.encoding && self.file == other.file && self.extension
            == other.extension
    }
}

impl vstd::std_specs::cmp::PartialEqSpecImpl for Fingerprint {
    open spec fn obeys_eq_spec() -> bool {
        true
    }

    open spec fn eq_spec(&self, other: &Fingerprint) -> bool {
        self@ == other@
    }
}

/// The parse result of one filename: a fingerprint plus one chapter.
#[derive(Debug)]
pub struct Movie {
    pub fingerprint: Fingerprint,
    pub chapter: Identifier,
}

impl View for Movie {
    type V = MovieModel;

    open spec fn view(&self) -> MovieModel {
        MovieModel { fingerprint: self.fingerprint@, chapter: self.chapter@ }
    }
}

impl Clone for Movie {
    fn clone(&self) -> (r: Movie)
        ensures
            r@ == self@,
    {
        Movie { fingerprint: self.fingerprint.clone(), chapter: self.chapter.clone() }
    }
}

impl PartialEq for Movie {
    fn eq(&self, other: &Movie) -> (r: bool) {
        self.fingerprint == other.fingerprint && self.chapter == other.chapter
    }
}

impl vstd::std_specs::cmp::PartialEqSpecImpl for Movie {
    open spec fn obeys_eq_spec() -> bool {
        true
    }

    open spec fn eq_spec(&self, other: &Movie) -> bool {
        self@ == other@
    }
}

impl Movie {
    /// Parse a filename; every failure is a value-level error that says
    /// which rule broke.
    pub fn try_from(name: &str) -> (r: Result<Movie, Error>)
        ensures
            match r {
                Ok(m) => movie_valid(name@) && m@ == movie_of(name@) && id_wf(m@.chapter) && id_wf(
                    m@.fingerprint.file,
                ),
                Err(e) => !movie_valid(name@) && match e {
                    Error::InvalidFileName(t) => (!has_dot(name@) && t@ == name@) || (has_dot(name@)
                        && !stem_ok(stem_of(name@)) && t@ == stem_of(name@)),
                    Error::Encoding(enc_err) => has_dot(name@) && stem_ok(stem_of(name@))
                        && stem_encoding(stem_of(name@)) is None,
                    Error::InvalidMovieFileNumberZero => has_dot(name@) && stem_ok(stem_of(name@))
                        && stem_encoding(stem_of(name@)) is Some && parse_usize_spec(
                        file_code(stem_of(name@)),
                    ) == Some(0usize),
                    Error::InvalidMovieChapterNumberZero => has_dot(name@) && stem_ok(
                        stem_of(name@),
                    ) && stem_encoding(stem_of(name@)) is Some && parse_usize_spec(
                        file_code(stem_of(name@)),
                    ) != Some(0usize) && parse_usize_spec(chapter_code(stem_of(name@))) == Some(
                        0usize,
                    ),
                    _ => false,
                },
            },
    {
        let n = name.unicode_len();
        let dot = match rfind_char(name, '.') {
            Some(d) => d,
            None => {
                return Err(Error::InvalidFileName(String::from_str(name)));
            },
        };
        proof {
            lemma_last_index_of(name@, '.');
        }
        let stem = name.substring_char(0, dot);
        let ext = name.substring_char(dot + 1, n);
        proof {
            assert(stem@ == stem_of(name@));
            assert(ext@ == ext_of(name@));
        }
        if stem.unicode_len() != 8 {
            return Err(Error::InvalidFileName(String::from_str(stem)));
        }
        let mut j: usize = 0;
        while j < 8
            invariant
                0 <= j <= 8,
                has_dot(name@),
                stem@ == stem_of(name@),
                stem@.len() == 8,
                forall|k: int| 0 <= k < j ==> (#[trigger] stem@[k] as u32) < 128,
            decreases 8 - j,
        {
            let cj = stem.get_char(j);
            if cj as u32 >= 128 {
                proof {
                    assert((stem@[j as int] as u32) >= 128);
                    assert(!ascii_chars(stem@));
                }
                return Err(Error::InvalidFileName(String::from_str(stem)));
            }
            j += 1;
        }
        let enc = match Encoding::try_from(stem) {
            Ok(e) => e,
            Err(e) => {
                return Err(Error::Encoding(e));
            },
        };
        proof {
            assert(encoding_prefix(Encoding::Avc)[1] != encoding_prefix(Encoding::Hevc)[1]);
            assert(stem_encoding(stem@) == Some(enc));
        }
        let file = match Identifier::try_from(stem.substring_char(4, 8)) {
            Ok(f) => f,
            Err(e) => {
                return Err(Error::Identifier(e));
            },
        };
        match file.numeric() {
            Ok(0) => {
                return Err(Error::InvalidMovieFileNumberZero);
            },
            _ => {},
        }
        let chapter = match Identifier::try_from(stem.substring_char(2, 4)) {
            Ok(c) => c,
            Err(e) => {
                return Err(Error::Identifier(e));
            },
        };
        match chapter.numeric() {
            Ok(0) => {
                return Err(Error::InvalidMovieChapterNumberZero);
            },
            _ => {},
        }
        Ok(
            Movie {
                fingerprint: Fingerprint {
                    encoding: enc,
                    file,
                    extension: String::from_str(ext),
                },
                chapter,
            },
        )
    }

    /// The filename this movie renders to.
    pub fn file_name(&self) -> (r: String)
        ensures
            r@ == render_movie(self@),
    {
        let mut r = String::from_str(self.fingerprint.encoding.as_str());
        let ch = self.chapter.string();
        r.append(ch.as_str());
        let f = self.fingerprint.file.string();
        r.append(f.as_str());
        r.append(".");
        proof {
            reveal_strlit(".");
        }
        r.append(self.fingerprint.extension.as_str());
        proof {
            assert(r@ =~= render_movie(self@));
        }
        r
    }
}

/// Round trip: a filename the grammar accepts is reproduced exactly by
/// rendering the parsed movie (the canonical zero-padded forms coincide with
/// the codes as written, which are already at full width).
pub proof fn lemma_parse_render_roundtrip(s: Seq<char>)
    requires
        movie_valid(s),
    ensures
        render_movie(movie_of(s)) == s,
{
    let d = last_index_of(s, '.');
    lemma_last_index_of(s, '.');
    let stem = stem_of(s);
    let m = movie_of(s);
    assert(id_canon(m.chapter) == chapter_code(stem));
    assert(id_canon(m.fingerprint.file) == file_code(stem));
    assert(encoding_prefix(m.fingerprint.encoding) == stem.subrange(0, 2)) by {
        if has_encoding_prefix(stem, Encoding::Avc) {
        } else {
            assert(has_encoding_prefix(stem, Encoding::Hevc));
        }
    };
    assert(stem.len() == 8);
    assert(d == 8);
    assert(render_movie(m) =~= s) by {
        assert(forall|i: int| 0 <= i < 8 ==> stem[i] == s[i]);
        assert(s[8] == '.');
        assert(forall|i: int| 9 <= i < s.len() ==> ext_of(s)[i - 9] == s[i]);
    };
}

} // verus!
