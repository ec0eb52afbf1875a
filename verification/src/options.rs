//! The options of a run.

use vstd::prelude::*;
use crate::text::{opt_text, texts};

verus! {

/// The options of a run, as the contracts see them.
pub struct Settings {
    pub fields: Option<Seq<Seq<char>>>,
    pub delimiter: u8,
    pub flatten: bool,
    pub unwind_on: Option<Seq<char>>,
    pub samples: u32,
    pub no_header: bool,
    pub double_quote: bool,
}

/// The options of a run.
pub struct Options {
    /// The columns, where the caller names them; they are taken as they are.
    pub fields: Option<Vec<String>>,
    /// The byte between two cells.
    pub delimiter: u8,
    /// Whether nested objects and arrays are flattened.
    pub flatten: bool,
    /// The top-level key to unwind on, if any.
    pub unwind_on: Option<String>,
    /// How many documents are scanned for the columns where none are named.
    pub samples: u32,
    /// Whether the line of column names is left out.
    pub no_header: bool,
    /// Whether a quote inside a cell is doubled rather than escaped.
    pub double_quote: bool,
}

impl View for Options {
    type V = Settings;

    open spec fn view(&self) -> Settings {
        Settings {
            fields: match self.fields {
                Some(names) => Some(texts(names@)),
                None => None,
            },
            delimiter: self.delimiter,
            flatten: self.flatten,
            unwind_on: opt_text(self.unwind_on),
            samples: self.samples,
            no_header: self.no_header,
            double_quote: self.double_quote,
        }
    }
}

impl Default for Options {
    /// Columns detected from the first document, a comma between cells, no
    /// flattening, no unwinding, a line of column names, quotes escaped.
    fn default() -> (r: Options)
        ensures
            r@ == (Settings {
                fields: None,
                delimiter: 0x2c,
                flatten: false,
                unwind_on: None,
                samples: 1,
                no_header: false,
                double_quote: false,
            }),
    {
        Options {
            fields: None,
            delimiter: 0x2c,
            flatten: false,
            unwind_on: None,
            samples: 1,
            no_header: false,
            double_quote: false,
        }
    }
}

} // verus!
