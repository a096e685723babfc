//! What can go wrong while files are gathered into a bundle, and how it is told.

use vstd::prelude::*;
use vstd::string::StringExecFns;

use crate::text::decimal_of;
#[allow(unused_imports)]
use crate::text::{decimal, texts};

verus! {

/// Bytes in one of the megabytes that messages are counted in.
pub const MEGABYTE: u64 = 1048576;

/// The most that the files of one bundle may add up to: a hundred megabytes.
pub const MAX_TOTAL_SIZE: u64 = 104857600;

/// A sum that stays at the largest `u64` once it reaches it.
pub open spec fn capped_sum(a: nat, b: nat) -> nat {
    if a + b <= u64::MAX {
        a + b
    } else {
        u64::MAX as nat
    }
}

/// Why a bundle was refused.
#[derive(Debug)]
pub enum ExtractError {
    /// The request names no pattern at all.
    NoPaths,
    /// A pattern is not a well-formed glob.
    InvalidGlob { pattern: String, reason: String },
    /// The patterns are too large, or their braces too deep, to be compiled.
    GlobSetFailed,
    /// The files met so far add up to more than the limit.
    WalkTooLarge { limit: u64, running_total: u64, path: String },
    /// A selected file could not be read.
    ReadFailed { path: String, reason: String },
    /// No file matches any of the patterns.
    NoMatch { paths: Vec<String> },
    /// The bytes that were read add up to more than the limit.
    BundleTooLarge { limit: u64, total: u64 },
}

/// `format!("{:?}", ..)` of a list of strings.
pub uninterp spec fn debug_list(list: Seq<Seq<char>>) -> Seq<char>;

/// `std::fmt::Debug` of `Vec<String>`: the list in brackets, each text quoted and
/// escaped. The result is given a name; nothing more is said of it.
#[verifier::external_body]
fn list_shown(list: &Vec<String>) -> (r: String)
    ensures
        r@ == debug_list(list@.map_values(|s: String| s@)),
{
    format!("{:?}", list)
}

impl ExtractError {
    /// The message for the client.
    pub open spec fn text(self) -> Seq<char> {
        match self {
            ExtractError::NoPaths => "`paths` must contain at least one entry"@,
            ExtractError::InvalidGlob { pattern, reason } => "Invalid glob pattern '"@ + pattern@
                + "': "@ + reason@,
            ExtractError::GlobSetFailed => "Failed to compile globset"@,
            ExtractError::WalkTooLarge { limit, running_total, path } =>
                "Total uncompressed size exceeded "@ + decimal((limit / MEGABYTE) as nat)
                    + " MB cap (running total "@ + decimal((running_total / MEGABYTE) as nat)
                    + " MB at '"@ + path@ + "'). Narrow the `paths` patterns."@,
            ExtractError::ReadFailed { path, reason } => "Failed to read "@ + path@ + ": "@
                + reason@,
            ExtractError::NoMatch { paths } => "No files matched any of the provided paths: "@
                + debug_list(texts(paths@))
                + ". (Note: archive_extract does not look inside LZH archives — use archive_read for `outer.lzh!/inner` paths.)"@,
            ExtractError::BundleTooLarge { limit, total } => "Total uncompressed size exceeded "@
                + decimal((limit / MEGABYTE) as nat) + " MB cap (got "@ + decimal(
                (total / MEGABYTE) as nat,
            ) + " MB so far). Narrow the `paths` patterns to a smaller subset."@,
        }
    }

    /// The message for the client.
    pub fn message(&self) -> (r: String)
        ensures
            r@ == self.text(),
    {
        let mut m: String = String::new();
        match self {
            ExtractError::NoPaths => {
                m.append("`paths` must contain at least one entry");
            },
            ExtractError::InvalidGlob { pattern, reason } => {
                m.append("Invalid glob pattern '");
                m.append(pattern.as_str());
                m.append("': ");
                m.append(reason.as_str());
            },
            ExtractError::GlobSetFailed => {
                m.append("Failed to compile globset");
            },
            ExtractError::WalkTooLarge { limit, running_total, path } => {
                m.append("Total uncompressed size exceeded ");
                m.append(decimal_of(*limit / MEGABYTE).as_str());
                m.append(" MB cap (running total ");
                m.append(decimal_of(*running_total / MEGABYTE).as_str());
                m.append(" MB at '");
                m.append(path.as_str());
                m.append("'). Narrow the `paths` patterns.");
            },
            ExtractError::ReadFailed { path, reason } => {
                m.append("Failed to read ");
                m.append(path.as_str());
                m.append(": ");
                m.append(reason.as_str());
            },
            ExtractError::NoMatch { paths } => {
                m.append("No files matched any of the provided paths: ");
                m.append(list_shown(paths).as_str());
                m.append(
                    ". (Note: archive_extract does not look inside LZH archives — use archive_read for `outer.lzh!/inner` paths.)",
                );
            },
            ExtractError::BundleTooLarge { limit, total } => {
                m.append("Total uncompressed size exceeded ");
                m.append(decimal_of(*limit / MEGABYTE).as_str());
                m.append(" MB cap (got ");
                m.append(decimal_of(*total / MEGABYTE).as_str());
                m.append(" MB so far). Narrow the `paths` patterns to a smaller subset.");
            },
        }
        m
    }
}

/// Sizes are counted in units of 1024 times 1024 bytes, and a hundred of them are allowed.
/// A sum is capped at the largest `u64`.
pub proof fn law_sizes_are_counted_in_megabytes(a: nat, b: nat)
    ensures
        MEGABYTE == 1024 * 1024,
        MAX_TOTAL_SIZE == 100 * 1024 * 1024,
        a + b < 0x1_0000_0000_0000_0000 ==> capped_sum(a, b) == a + b,
        a + b >= 0x1_0000_0000_0000_0000 ==> capped_sum(a, b) == 0xffff_ffff_ffff_ffff,
{
}

/// What the client is told of each error.
pub proof fn law_extract_messages(
    pattern: String,
    reason: String,
    limit: u64,
    total: u64,
    path: String,
    paths: Vec<String>,
)
    ensures
        ExtractError::NoPaths.text() == "`paths` must contain at least one entry"@,
        (ExtractError::InvalidGlob { pattern, reason }).text() == "Invalid glob pattern '"@
            + pattern@ + "': "@ + reason@,
        ExtractError::GlobSetFailed.text() == "Failed to compile globset"@,
        (ExtractError::WalkTooLarge { limit, running_total: total, path }).text()
            == "Total uncompressed size exceeded "@ + decimal(limit as nat / 1048576)
            + " MB cap (running total "@ + decimal(total as nat / 1048576) + " MB at '"@ + path@
            + "'). Narrow the `paths` patterns."@,
        (ExtractError::ReadFailed { path, reason }).text() == "Failed to read "@ + path@ + ": "@
            + reason@,
        (ExtractError::NoMatch { paths }).text() == "No files matched any of the provided paths: "@
            + debug_list(paths@.map_values(|s: String| s@))
            + ". (Note: archive_extract does not look inside LZH archives — use archive_read for `outer.lzh!/inner` paths.)"@,
        (ExtractError::BundleTooLarge { limit, total }).text()
            == "Total uncompressed size exceeded "@ + decimal(limit as nat / 1048576)
            + " MB cap (got "@ + decimal(total as nat / 1048576)
            + " MB so far). Narrow the `paths` patterns to a smaller subset."@,
{
}

} // verus!
