//! Streaming extractor for energy market time-series XML documents.
//!
//! The crate turns an ENTSO-E style publication document into a flat mapping
//! from column name to ordered column values: for every resolution code that
//! appears in the document, one column of absolute timestamps and one column
//! of decimal values.

pub mod duration;
pub mod events;
pub mod extract;
pub mod laws;
pub mod rows;
pub mod text;
pub mod timestamp;

pub use crate::duration::DurationSpan;
pub use crate::duration::resolution_to_timedelta;
pub use crate::extract::parse_timeseries_generic;
pub use crate::rows::Data;
pub use crate::rows::Rows;

use vstd::prelude::*;

verus! {

/// The reasons an extraction can fail. Any of these aborts the whole pass:
/// no partial output is returned.
#[derive(Debug, Clone, Copy, PartialEq, Eq, Structural)]
pub enum ExtractError {
    /// The document is not well-formed XML.
    XmlSyntax,
    /// A `position` element held text that is not a signed integer.
    InvalidPosition,
    /// A value element held text that is not a decimal number.
    InvalidValue,
    /// A period start that does not denote a timestamp once normalized,
    /// or a point whose instant cannot be represented.
    InvalidTimestamp,
    /// A resolution code outside the fixed vocabulary.
    UnknownResolution,
}

} // verus!
