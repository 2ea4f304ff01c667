//! The decoded shape of an SBOM document: artifacts with optional name,
//! version, type and license data, and the row type the renderer consumes.

use vstd::prelude::*;

verus! {

/// One license entry of an artifact: either a bare string, or a structured
/// object carrying an optional free-form value and an optional formal SPDX
/// expression.
#[derive(Debug, Clone)]
pub enum SyftLicense {
    Simple(String),
    Detailed {
        value: Option<String>,
        spdx_expression: Option<String>,
        license_type: Option<String>,
    },
}

/// One scanned software component. Every field may be absent; absence
/// degrades to a placeholder downstream, never to a failure.
#[derive(Debug, Clone)]
pub struct Artifact {
    pub name: Option<String>,
    pub version: Option<String>,
    pub artifact_type: Option<String>,
    pub licenses: Option<Vec<SyftLicense>>,
    pub package_url: Option<String>,
    pub language: Option<String>,
}

/// The decoded document: an optional ordered list of artifacts.
#[derive(Debug, Clone)]
pub struct SyftOutput {
    pub artifacts: Option<Vec<Artifact>>,
}

/// One assembled output row, ready for the table printer or the CSV writer.
#[derive(Debug, Clone)]
pub struct CsvRecord {
    pub name: String,
    pub version: String,
    pub artifact_type: String,
    pub licenses: String,
}

/// The output target; it decides how license tokens are joined.
#[derive(Debug, Clone, Copy)]
pub enum OutputMode {
    Table,
    Csv,
}

/// The document held no artifact list at all: wrong input, not an empty SBOM.
#[derive(Debug, PartialEq, Eq)]
pub struct SchemaError;

/// Hand out the artifact list, or report the document as not being an SBOM
/// report. A present-but-empty list is fine; a missing list is the error.
pub fn require_artifacts(doc: SyftOutput) -> (r: Result<Vec<Artifact>, SchemaError>)
    ensures
        doc.artifacts is Some <==> r is Ok,
        (match r {
            Ok(a) => doc.artifacts == Some(a),
            Err(e) => e == SchemaError,
        }),
{
    match doc.artifacts {
        Some(a) => Ok(a),
        None => Err(SchemaError),
    }
}

} // verus!
