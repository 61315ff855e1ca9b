//! Error type of the library as a whole.
use vstd::prelude::*;

verus! {

/// Error type for everything that can go wrong with a filter.
#[derive(Debug)]
pub enum Error {
    /// Error due to requesting buckets that are too big to represent.
    BucketTooBig,
    /// Error due to requesting too many bits for a field.
    BitCountTooHigh,
    /// Error due to requesting a field whose feature is not enabled.
    FeatureNotEnabled(String),
}

impl Error {
    /// The text of the error.
    pub open spec fn text(&self) -> Seq<char> {
        match self {
            Error::BucketTooBig => "Filter configuration requires buckets that are too big!"@,
            Error::BitCountTooHigh => "Bit count is too high! Max is 32."@,
            Error::FeatureNotEnabled(feature) => "Feature ("@ + feature@ + ") not enabled."@,
        }
    }

    /// Describes the error.
    pub fn message(&self) -> (text: String)
        ensures
            text@ == self.text(),
    {
        match self {
            Error::BucketTooBig =>
                "Filter configuration requires buckets that are too big!".to_owned(),
            Error::BitCountTooHigh => "Bit count is too high! Max is 32.".to_owned(),
            Error::FeatureNotEnabled(feature) => {
                let text = "Feature (".to_owned().concat(feature.as_str());
                text.concat(") not enabled.")
            },
        }
    }
}

} // verus!
