use sbom_licenses::{
    assemble_record, assemble_records, collect_license_tokens, extract_syft_license_info,
    format_licenses, require_artifacts, split_license_expression, split_license_line, Artifact,
    OutputMode, SchemaError, SyftLicense, SyftOutput,
};

fn artifact(
    name: Option<&str>,
    version: Option<&str>,
    artifact_type: Option<&str>,
    licenses: Option<Vec<SyftLicense>>,
) -> Artifact {
    Artifact {
        name: name.map(|s| s.to_string()),
        version: version.map(|s| s.to_string()),
        artifact_type: artifact_type.map(|s| s.to_string()),
        licenses,
        package_url: None,
        language: None,
    }
}

fn detailed(value: Option<&str>, spdx: Option<&str>) -> SyftLicense {
    SyftLicense::Detailed {
        value: value.map(|s| s.to_string()),
        spdx_expression: spdx.map(|s| s.to_string()),
        license_type: None,
    }
}

#[test]
fn absent_license_field_is_none() {
    let a = artifact(Some("lib"), Some("1.0"), Some("npm"), None);
    let table = assemble_record(&a, OutputMode::Table);
    assert_eq!(table.licenses, "None");
    let csv = assemble_record(&a, OutputMode::Csv);
    assert_eq!(csv.licenses, "None");
}

#[test]
fn blank_value_entry_contributes_nothing() {
    let entries = vec![detailed(Some("   \t "), None)];
    assert_eq!(extract_syft_license_info(&Some(entries.clone())), "None");
    assert!(collect_license_tokens(&Some(entries)).is_empty());
}

#[test]
fn entry_with_neither_field_contributes_nothing() {
    let entries = vec![detailed(None, None)];
    assert_eq!(extract_syft_license_info(&Some(entries)), "None");
}

#[test]
fn splitter_handles_spdx_and() {
    let toks = split_license_expression("MIT AND Apache-2.0");
    assert_eq!(toks, vec!["MIT".to_string(), "Apache-2.0".to_string()]);
    let toks = split_license_line("MIT AND Apache-2.0");
    assert_eq!(toks, vec!["MIT".to_string(), "Apache-2.0".to_string()]);
}

#[test]
fn splitter_handles_semicolon_list() {
    let toks = split_license_line("BSD-3-Clause; MIT");
    assert_eq!(toks, vec!["BSD-3-Clause".to_string(), "MIT".to_string()]);
}

#[test]
fn splitter_handles_parentheses_and_case() {
    let toks = split_license_line("MIT AND (ISC or BSD-2-Clause)");
    assert_eq!(
        toks,
        vec!["MIT".to_string(), "ISC".to_string(), "BSD-2-Clause".to_string()]
    );
}

#[test]
fn splitter_keeps_atomic_line_whole() {
    let toks = split_license_line("  Custom License  ");
    assert_eq!(toks, vec!["Custom License".to_string()]);
}

#[test]
fn splitter_drops_blank_and_none_lines() {
    assert!(split_license_line("").is_empty());
    assert!(split_license_line("   ").is_empty());
    assert!(split_license_line("None").is_empty());
}

#[test]
fn splitter_drops_empty_semicolon_parts() {
    let toks = split_license_line("MIT;; ISC ;");
    assert_eq!(toks, vec!["MIT".to_string(), "ISC".to_string()]);
}

#[test]
fn extractor_prefers_spdx_expression() {
    let entries = vec![detailed(Some("MIT"), Some("MIT"))];
    assert_eq!(extract_syft_license_info(&Some(entries)), "MIT");
    let entries = vec![detailed(Some("Custom License"), None)];
    assert_eq!(extract_syft_license_info(&Some(entries)), "Custom License");
}

#[test]
fn extractor_falls_back_on_blank_expression() {
    let entries = vec![detailed(Some("Zlib"), Some("   "))];
    assert_eq!(extract_syft_license_info(&Some(entries)), "Zlib");
}

#[test]
fn extractor_joins_entries_with_newlines() {
    let entries = vec![
        SyftLicense::Simple("MIT".to_string()),
        detailed(None, Some("Apache-2.0")),
        detailed(Some("  "), None),
    ];
    assert_eq!(extract_syft_license_info(&Some(entries)), "MIT\nApache-2.0");
}

#[test]
fn extractor_trims_simple_entries() {
    let entries = vec![SyftLicense::Simple("  MIT  ".to_string())];
    assert_eq!(extract_syft_license_info(&Some(entries)), "MIT");
}

#[test]
fn missing_name_becomes_unknown() {
    let a = artifact(None, Some("1.0"), Some("npm"), None);
    let rec = assemble_record(&a, OutputMode::Table);
    assert_eq!(rec.name, "Unknown");
    assert_eq!(rec.version, "1.0");
    assert_eq!(rec.artifact_type, "npm");
}

#[test]
fn one_artifact_end_to_end() {
    let a = artifact(
        Some("lib-a"),
        Some("1.0"),
        Some("npm"),
        Some(vec![SyftLicense::Simple("MIT".to_string())]),
    );
    let table = assemble_record(&a, OutputMode::Table);
    assert_eq!(table.name, "lib-a");
    assert_eq!(table.version, "1.0");
    assert_eq!(table.artifact_type, "npm");
    assert_eq!(table.licenses, "MIT");
    let csv = assemble_record(&a, OutputMode::Csv);
    assert_eq!(
        format!(
            "{},{},{},{}",
            csv.name, csv.version, csv.artifact_type, csv.licenses
        ),
        "lib-a,1.0,npm,MIT"
    );
}

#[test]
fn csv_mode_joins_with_semicolon_space() {
    let a = artifact(
        Some("lib"),
        None,
        None,
        Some(vec![SyftLicense::Simple("MIT AND Apache-2.0".to_string())]),
    );
    let rec = assemble_record(&a, OutputMode::Csv);
    assert_eq!(rec.licenses, "MIT; Apache-2.0");
    let rec = assemble_record(&a, OutputMode::Table);
    assert_eq!(rec.licenses, "MIT\nApache-2.0");
}

#[test]
fn empty_artifact_list_yields_no_records() {
    let records = assemble_records(&Vec::new(), OutputMode::Table);
    assert!(records.is_empty());
}

#[test]
fn records_keep_input_order() {
    let arts = vec![
        artifact(Some("a"), None, None, None),
        artifact(Some("b"), None, None, None),
    ];
    let records = assemble_records(&arts, OutputMode::Table);
    assert_eq!(records.len(), 2);
    assert_eq!(records[0].name, "a");
    assert_eq!(records[1].name, "b");
}

#[test]
fn missing_artifacts_key_is_schema_error() {
    let doc = SyftOutput { artifacts: None };
    assert!(matches!(require_artifacts(doc), Err(SchemaError)));
    let doc = SyftOutput { artifacts: Some(Vec::new()) };
    assert_eq!(require_artifacts(doc).map(|a| a.len()), Ok(0));
}

#[test]
fn none_entry_among_real_ones_is_dropped() {
    let entries = vec![
        SyftLicense::Simple("None".to_string()),
        SyftLicense::Simple("MIT".to_string()),
    ];
    assert_eq!(extract_syft_license_info(&Some(entries.clone())), "None\nMIT");
    assert_eq!(collect_license_tokens(&Some(entries)), vec!["MIT".to_string()]);
}

#[test]
fn none_token_from_expression_is_filtered() {
    let entries = vec![SyftLicense::Simple("None AND MIT".to_string())];
    assert_eq!(collect_license_tokens(&Some(entries)), vec!["MIT".to_string()]);
}

#[test]
fn table_mode_round_trip_on_tokens() {
    let entries = vec![
        SyftLicense::Simple("MIT".to_string()),
        SyftLicense::Simple("Apache-2.0".to_string()),
    ];
    let field = Some(entries);
    let tokens = collect_license_tokens(&field);
    assert_eq!(tokens, vec!["MIT".to_string(), "Apache-2.0".to_string()]);
    let joined = format_licenses(&tokens, OutputMode::Table);
    let again: Vec<String> = joined
        .split('\n')
        .flat_map(|line| split_license_line(line))
        .filter(|t| !t.is_empty() && t.as_str() != "None")
        .collect();
    assert_eq!(again, tokens);
}
