//! The ways in which a document can fail to give a record.

use vstd::prelude::*;

verus! {

/// A field that a scan of the markup looks for.
#[derive(Clone, Copy, Debug, PartialEq, Eq, Structural)]
pub enum Field {
    Province,
    District,
    School,
    Subject,
    AreasThatRequireIntervention,
    Recommendations,
}

impl Field {
    /// The name of the field.
    pub fn name(&self) -> (r: &'static str)
        ensures
            r@ == match *self {
                Field::Province => "Province"@,
                Field::District => "District"@,
                Field::School => "School"@,
                Field::Subject => "Subject"@,
                Field::AreasThatRequireIntervention => "Areas That Require Intervention And Support"@,
                Field::Recommendations => "Recommendations For Improvement"@,
            },
    {
        match self {
            Field::Province => "Province",
            Field::District => "District",
            Field::School => "School",
            Field::Subject => "Subject",
            Field::AreasThatRequireIntervention => "Areas That Require Intervention And Support",
            Field::Recommendations => "Recommendations For Improvement",
        }
    }
}

/// Why a document yields no record. Each failure concerns one document only.
#[derive(Clone, Copy, Debug, PartialEq, Eq, Structural)]
pub enum ExtractError {
    /// No table of the document holds a header label.
    HeaderNotFound,
    /// A scan went on to the bound set for it without finding what it was
    /// after: `field` is the first field still missing, `position` the number
    /// of rows that the scan has read.
    MalformedScan { field: Field, position: u8 },
    /// The reader could not make sense of the markup.
    Markup,
    /// The document ended before the element that was looked for.
    ElementNotFound,
    /// Something else stood where text or a certain element had to stand.
    UnexpectedEvent,
    /// A text of the document is not valid UTF-8.
    InvalidText,
}

impl ExtractError {
    /// A sentence that says what went wrong.
    pub fn message(&self) -> (r: &'static str)
        ensures
            r@ == match *self {
                ExtractError::HeaderNotFound => "This doc does not have any of the header terms."@,
                ExtractError::MalformedScan { .. } => "The scan for the fields ran too long."@,
                ExtractError::Markup => "The markup of the document could not be read."@,
                ExtractError::ElementNotFound => "The document ended before the element looked for."@,
                ExtractError::UnexpectedEvent => "The document does not hold what was expected next."@,
                ExtractError::InvalidText => "A text of the document is not valid UTF-8."@,
            },
    {
        match self {
            ExtractError::HeaderNotFound => "This doc does not have any of the header terms.",
            ExtractError::MalformedScan { .. } => "The scan for the fields ran too long.",
            ExtractError::Markup => "The markup of the document could not be read.",
            ExtractError::ElementNotFound => "The document ended before the element looked for.",
            ExtractError::UnexpectedEvent => "The document does not hold what was expected next.",
            ExtractError::InvalidText => "A text of the document is not valid UTF-8.",
        }
    }
}

} // verus!
