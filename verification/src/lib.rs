//! Verified core of an SBOM license report tool: schema types for the
//! decoded document, license extraction and normalization, expression
//! splitting, record assembly, CSV encoding, and argument parsing.

pub mod args;
pub mod license;
pub mod render;
pub mod schema;
pub mod text;

pub use args::{parse_args, ArgError, Args};
pub use license::{
    assemble_record, assemble_records, collect_license_tokens, extract_syft_license_info,
    format_licenses, split_license_expression, split_license_line,
};
pub use render::write_csv;
pub use schema::{
    require_artifacts, Artifact, CsvRecord, OutputMode, SchemaError, SyftLicense, SyftOutput,
};
