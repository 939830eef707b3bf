//! What can go wrong on the way from a page to a snapshot.

use vstd::prelude::*;

verus! {

/// A failure to read a timetable.
#[derive(Debug, PartialEq, Eq)]
pub enum ParserError {
    /// The page holds no table: the timetable is not published yet.
    NoTable,
    /// Anything else, in words.
    Unknown(String),
    /// The page could not be fetched; the transport's own words.
    NetworkError(String),
}

impl ParserError {
    /// The error in words.
    pub open spec fn text(&self) -> Seq<char> {
        match self {
            ParserError::NoTable => "HTML Table not found"@,
            ParserError::Unknown(why) => "An unknown error occured: "@ + why@,
            ParserError::NetworkError(why) => "An reqwest error occured: "@ + why@,
        }
    }

    /// The error in words.
    pub fn message(&self) -> (r: String)
        ensures
            r@ == self.text(),
    {
        match self {
            ParserError::NoTable => "HTML Table not found".to_owned(),
            ParserError::Unknown(why) => {
                let mut out = "An unknown error occured: ".to_owned();
                out.append(why.as_str());
                out
            },
            ParserError::NetworkError(why) => {
                let mut out = "An reqwest error occured: ".to_owned();
                out.append(why.as_str());
                out
            },
        }
    }
}

} // verus!
