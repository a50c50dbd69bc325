//! The formats as a user writes them on the command line, and as they are
//! shown.

use vstd::prelude::*;
use vstd::string::StringExecFns;
use std::str::FromStr;
use crate::sbom::{BomFormat, FileFormat};

verus! {

/// The text in lower case, as `str::to_lowercase` gives it.
pub uninterp spec fn lowercase(text: Seq<char>) -> Seq<char>;

/// Calls `str::to_lowercase`. The contract only gives the result its name:
/// the lower-case form of a text depends on the text alone.
#[verifier::external_body]
fn to_lowercase(text: &str) -> (lower: String)
    ensures
        lower@ == lowercase(text@),
{
    text.to_lowercase()
}

fn same_text(left: &str, right: &str) -> (same: bool)
    ensures
        same == (left@ == right@),
{
    left.to_owned() == right.to_owned()
}

/// The format that a name in lower case stands for.
pub open spec fn bom_format_named(lower: Seq<char>) -> Option<BomFormat> {
    if lower == "raw"@ {
        Some(BomFormat::Raw)
    } else if lower == "spdx"@ {
        Some(BomFormat::SPDX)
    } else if lower == "cdx"@ || lower == "cyclonedx"@ || lower == "cyclone-dx"@ {
        Some(BomFormat::CDX)
    } else {
        None
    }
}

/// The file format that a name in lower case stands for.
pub open spec fn file_format_named(lower: Seq<char>) -> Option<FileFormat> {
    if lower == "json"@ {
        Some(FileFormat::Json)
    } else {
        None
    }
}

impl BomFormat {
    /// The format that a name in lower case stands for, or a message that
    /// repeats the name.
    pub fn from_lowercase(lower: &str) -> (parsed: Result<BomFormat, String>)
        ensures
            match parsed {
                Ok(format) => bom_format_named(lower@) == Some(format),
                Err(message) => bom_format_named(lower@).is_none() && message@
                    == "Invalid or unsupported BOM format: "@ + lower@,
            },
    {
        if same_text(lower, "raw") {
            Ok(BomFormat::Raw)
        } else if same_text(lower, "spdx") {
            Ok(BomFormat::SPDX)
        } else if same_text(lower, "cdx") || same_text(lower, "cyclonedx") || same_text(
            lower,
            "cyclone-dx",
        ) {
            Ok(BomFormat::CDX)
        } else {
            Err("Invalid or unsupported BOM format: ".to_owned().concat(lower))
        }
    }

    /// The format that a name stands for, whatever its case.
    pub fn parse(name: &str) -> (parsed: Result<BomFormat, String>)
        ensures
            match parsed {
                Ok(format) => bom_format_named(lowercase(name@)) == Some(format),
                Err(message) => bom_format_named(lowercase(name@)).is_none() && message@
                    == "Invalid or unsupported BOM format: "@ + lowercase(name@),
            },
    {
        let lower = to_lowercase(name);
        BomFormat::from_lowercase(lower.as_str())
    }

    /// The format's name as it is shown.
    pub fn label(&self) -> (label: &'static str)
        ensures
            label@ == match *self {
                BomFormat::Raw => "Raw"@,
                BomFormat::SPDX => "SPDX"@,
                BomFormat::CDX => "Cyclone-DX"@,
            },
    {
        match self {
            BomFormat::Raw => "Raw",
            BomFormat::SPDX => "SPDX",
            BomFormat::CDX => "Cyclone-DX",
        }
    }
}

impl FileFormat {
    /// The file format that a name in lower case stands for, or a message
    /// that repeats the name.
    pub fn from_lowercase(lower: &str) -> (parsed: Result<FileFormat, String>)
        ensures
            match parsed {
                Ok(format) => file_format_named(lower@) == Some(format),
                Err(message) => file_format_named(lower@).is_none() && message@
                    == "Invalid or unsupported file format: "@ + lower@,
            },
    {
        if same_text(lower, "json") {
            Ok(FileFormat::Json)
        } else {
            Err("Invalid or unsupported file format: ".to_owned().concat(lower))
        }
    }

    /// The file format that a name stands for, whatever its case.
    pub fn parse(name: &str) -> (parsed: Result<FileFormat, String>)
        ensures
            match parsed {
                Ok(format) => file_format_named(lowercase(name@)) == Some(format),
                Err(message) => file_format_named(lowercase(name@)).is_none() && message@
                    == "Invalid or unsupported file format: "@ + lowercase(name@),
            },
    {
        let lower = to_lowercase(name);
        FileFormat::from_lowercase(lower.as_str())
    }

    /// The file format's name as it is shown, which is also the file's
    /// extension.
    pub fn label(&self) -> (label: &'static str)
        ensures
            label@ == match *self {
                FileFormat::Json => "json"@,
            },
    {
        match self {
            FileFormat::Json => "json",
        }
    }
}

impl FromStr for BomFormat {
    type Err = String;

    fn from_str(s: &str) -> (parsed: Result<Self, String>)
        ensures
            match parsed {
                Ok(format) => bom_format_named(lowercase(s@)) == Some(format),
                Err(message) => bom_format_named(lowercase(s@)).is_none() && message@
                    == "Invalid or unsupported BOM format: "@ + lowercase(s@),
            },
    {
        BomFormat::parse(s)
    }
}

impl FromStr for FileFormat {
    type Err = String;

    fn from_str(s: &str) -> (parsed: Result<Self, String>)
        ensures
            match parsed {
                Ok(format) => file_format_named(lowercase(s@)) == Some(format),
                Err(message) => file_format_named(lowercase(s@)).is_none() && message@
                    == "Invalid or unsupported file format: "@ + lowercase(s@),
            },
    {
        FileFormat::parse(s)
    }
}

} // verus!
