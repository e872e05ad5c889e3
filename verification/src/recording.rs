//! An earlier shape of the filename grammar's result, kept alongside
//! `movie`: the same grammar, the same model, under this module's own types
//! and error names.

use crate::encoding::{self, Encoding};
use crate::identifier::{self, Identifier};
use crate::movie::{
    chapter_code, ext_of, file_code, has_dot, movie_of, movie_valid, render_movie, stem_encoding,
    stem_of, stem_ok, FingerprintModel, MovieModel,
};
use crate::text::parse_usize_spec;
use vstd::prelude::*;

verus! {

/// Failure to parse a filename.
#[derive(Debug)]
pub enum Error {
    /// No extension, or a stem that is not exactly eight characters; carries
    /// the offending text.
    InvalidFileName(String),
    /// The numeric file code is zero.
    InvalidRecordingFileNumberZero,
    /// The numeric chapter code is zero.
    InvalidRecordingChapterNumberZero,
    /// An identifier inside the stem was rejected.
    Identifier(identifier::Error),
    /// The stem carries no known encoding prefix.
    Encoding(encoding::Error),
}

/// Identity of one logical multi-chapter recording.
#[derive(Debug, Hash)]
pub struct Fingerprint {
    pub encoding: Encoding,
    pub file: Identifier,
    pub extension: String,
}

impl View for Fingerprint {
    type V = FingerprintModel;

    open spec fn view(&self) -> FingerprintModel {
        FingerprintModel {
            encoding: self.encoding,
            file: self.file@,
            extension: self.extension@,
        }
    }
}

impl Clone for Fingerprint {
    fn clone(&self) -> (r: Fingerprint)
        ensures
            r@ == self@,
    {
        Fingerprint {
            encoding: self.encoding,
            file: self.file.clone(),
            extension: self.extension.clone(),
        }
    }
}

impl PartialEq for Fingerprint {
    fn eq(&self, other: &Fingerprint) -> (r: bool) {
        self.encoding == other.encoding && self.file == other.file && self.extension
            == other.extension
    }
}

impl vstd::std_specs::cmp::PartialEqSpecImpl for Fingerprint {
    open spec fn obeys_eq_spec() -> bool {
        true
    }

    open spec fn eq_spec(&self, other: &Fingerprint) -> bool {
        self@ == other@
    }
}

/// The parse result of one filename: a fingerprint plus one chapter.
#[derive(Debug)]
pub struct Recording {
    pub fingerprint: Fingerprint,
    pub chapter: Identifier,
}

impl View for Recording {
    type V = MovieModel;

    open spec fn view(&self) -> MovieModel {
        MovieModel { fingerprint: self.fingerprint@, chapter: self.chapter@ }
    }
}

impl Clone for Recording {
    fn clone(&self) -> (r: Recording)
        ensures
            r@ == self@,
    {
        Recording { fingerprint: self.fingerprint.clone(), chapter: self.chapter.clone() }
    }
}

impl PartialEq for Recording {
    fn eq(&self, other: &Recording) -> (r: bool) {
        self.fingerprint == other.fingerprint && self.chapter == other.chapter
    }
}

impl vstd::std_specs::cmp::PartialEqSpecImpl for Recording {
    open spec fn obeys_eq_spec() -> bool {
        true
    }

    open spec fn eq_spec(&self, other: &Recording) -> bool {
        self@ == other@
    }
}

impl Recording {
    /// Parse a filename under the same grammar as `Movie::try_from`, with
    /// this module's error names.
    pub fn try_from(name: &str) -> (r: Result<Recording, Error>)
        ensures
            match r {
                Ok(rec) => movie_valid(name@) && rec@ == movie_of(name@),
                Err(e) => !movie_valid(name@) && match e {
                    Error::InvalidFileName(t) => (!has_dot(name@) && t@ == name@) || (has_dot(name@)
                        && !stem_ok(stem_of(name@)) && t@ == stem_of(name@)),
                    Error::Encoding(enc_err) => has_dot(name@) && stem_ok(stem_of(name@))
                        && stem_encoding(stem_of(name@)) is None,
                    Error::InvalidRecordingFileNumberZero => has_dot(name@) && stem_ok(
                        stem_of(name@),
                    ) && stem_encoding(stem_of(name@)) is Some && parse_usize_spec(
                        file_code(stem_of(name@)),
                    ) == Some(0usize),
                    Error::InvalidRecordingChapterNumberZero => has_dot(name@) && stem_ok(
                        stem_of(name@),
                    ) && stem_encoding(stem_of(name@)) is Some && parse_usize_spec(
                        file_code(stem_of(name@)),
                    ) != Some(0usize) && parse_usize_spec(chapter_code(stem_of(name@))) == Some(
                        0usize,
                    ),
                    _ => false,
                },
            },
    {
        match crate::movie::Movie::try_from(name) {
            Ok(m) => Ok(
                Recording {
                    fingerprint: Fingerprint {
                        encoding: m.fingerprint.encoding,
                        file: m.fingerprint.file,
                        extension: m.fingerprint.extension,
                    },
                    chapter: m.chapter,
                },
            ),
            Err(e) => Err(
                match e {
                    crate::movie::Error::InvalidFileName(t) => Error::InvalidFileName(t),
                    crate::movie::Error::InvalidMovieFileNumberZero => Error::InvalidRecordingFileNumberZero,
                    crate::movie::Error::InvalidMovieChapterNumberZero => Error::InvalidRecordingChapterNumberZero,
                    crate::movie::Error::Identifier(ie) => Error::Identifier(ie),
                    crate::movie::Error::Encoding(ee) => Error::Encoding(ee),
                },
            ),
        }
    }

    /// The filename this recording renders to.
    pub fn file_name(&self) -> (r: String)
        ensures
            r@ == render_movie(self@),
    {
        let mut r = String::from_str(self.fingerprint.encoding.as_str());
        let ch = self.chapter.string();
        r.append(ch.as_str());
        let f = self.fingerprint.file.string();
        r.append(f.as_str());
        r.append(".");
        proof {
            reveal_strlit(".");
        }
        r.append(self.fingerprint.extension.as_str());
        proof {
            assert(r@ =~= render_movie(self@));
        }
        r
    }
}

} // verus!
