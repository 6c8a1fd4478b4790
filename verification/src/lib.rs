//! Scripture corpus navigation and citation handling.
//!
//! A corpus is parsed from plain text into books, chapters and verses. A
//! citation such as `Alma 3:16-17, 18; Mosiah 1:1` is parsed into a collection
//! of ranges, which can be checked against a corpus, expanded into single
//! verses, put into canonical form and written out again.

pub mod books;
pub mod canonical;
pub mod citation;
pub mod collection;
pub mod corpus;
pub mod error;
pub mod gutenberg;
pub mod patterns;
pub mod reference;
pub mod roundtrip;
pub mod text;

pub use crate::collection::RangeCollection;
pub use crate::corpus::{Book, Chapter, Verse, VerseWithReference, WitnessTestimony, BOM};
pub use crate::error::{BOMError, ReferenceFault};
pub use crate::gutenberg::BOMParser;
pub use crate::reference::{RangeType, VerseRangeReference, VerseReference, Work};
