//! Looking up the summary of an image.

use vstd::prelude::*;
use vstd::string::StringExecFns;

verus! {

/// Why there is no summary.
#[derive(Debug)]
pub enum SummaryError {
    /// The image does not exist, and no summary of it was found.
    ImageNotFound { image_path: String },
    /// No summary of the image was generated.
    NotCached { image_id: String },
}

impl SummaryError {
    /// The message for the client.
    pub open spec fn text(self) -> Seq<char> {
        match self {
            SummaryError::ImageNotFound { image_path } => "Image file not found: "@ + image_path@,
            SummaryError::NotCached { image_id } => "No summary cached for image_id="@ + image_id@
                + ". Run: xdf-index summarize <archive_dir> --index <index_dir>"@,
        }
    }

    /// The message for the client.
    pub fn message(&self) -> (r: String)
        ensures
            r@ == self.text(),
    {
        let mut m: String = String::new();
        match self {
            SummaryError::ImageNotFound { image_path } => {
                m.append("Image file not found: ");
                m.append(image_path.as_str());
            },
            SummaryError::NotCached { image_id } => {
                m.append("No summary cached for image_id=");
                m.append(image_id.as_str());
                m.append(". Run: xdf-index summarize <archive_dir> --index <index_dir>");
            },
        }
        m
    }
}

/// The identifier as the message shows it; empty where there is none.
pub open spec fn shown_id(image_id: Option<&str>) -> Seq<char> {
    match image_id {
        Some(id) => id@,
        None => Seq::empty(),
    }
}

/// Hands on the summary that was found under the image's identifier; the image itself
/// need not be there. Where none was found, tells that the image is missing, or else
/// that it has no summary.
pub fn summary_of<T>(
    image_path: &str,
    exists: bool,
    image_id: Option<&str>,
    found: Option<T>,
) -> (r: Result<T, SummaryError>)
    ensures
        match r {
            Ok(summary) => found == Some(summary),
            Err(SummaryError::ImageNotFound { image_path: shown }) => {
                &&& found is None
                &&& !exists
                &&& shown@ == image_path@
            },
            Err(SummaryError::NotCached { image_id: shown }) => {
                &&& found is None
                &&& exists
                &&& shown@ == shown_id(image_id)
            },
        },
{
    match found {
        Some(summary) => Ok(summary),
        None => {
            if !exists {
                return Err(SummaryError::ImageNotFound { image_path: image_path.to_owned() });
            }
            let shown: String = match image_id {
                Some(id) => id.to_owned(),
                None => String::new(),
            };
            Err(SummaryError::NotCached { image_id: shown })
        },
    }
}

/// What the client is told of each error.
pub proof fn law_summary_messages(image_path: String, image_id: String, id: &str)
    ensures
        (SummaryError::ImageNotFound { image_path }).text() == "Image file not found: "@
            + image_path@,
        (SummaryError::NotCached { image_id }).text() == "No summary cached for image_id="@
            + image_id@ + ". Run: xdf-index summarize <archive_dir> --index <index_dir>"@,
        shown_id(Some(id)) == id@,
        shown_id(None) == Seq::<char>::empty(),
{
}

} // verus!
