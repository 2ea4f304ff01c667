use sbom_licenses::{parse_args, ArgError};

fn argv(parts: &[&str]) -> Vec<String> {
    parts.iter().map(|s| s.to_string()).collect()
}

#[test]
fn input_file_alone() {
    let args = parse_args(&argv(&["prog", "-f", "in.json"])).unwrap();
    assert_eq!(args.input_file, "in.json");
    assert_eq!(args.csv_output, None);
}

#[test]
fn input_and_csv_output() {
    let args = parse_args(&argv(&["prog", "-f", "in.json", "--csv", "out.csv"])).unwrap();
    assert_eq!(args.input_file, "in.json");
    assert_eq!(args.csv_output, Some("out.csv".to_string()));
}

#[test]
fn flag_order_does_not_matter() {
    let args = parse_args(&argv(&["prog", "--csv", "out.csv", "-f", "in.json"])).unwrap();
    assert_eq!(args.input_file, "in.json");
    assert_eq!(args.csv_output, Some("out.csv".to_string()));
}

#[test]
fn too_few_arguments() {
    assert_eq!(parse_args(&argv(&["prog"])).unwrap_err(), ArgError::TooFewArgs);
    assert_eq!(parse_args(&argv(&["prog", "-f"])).unwrap_err(), ArgError::TooFewArgs);
}

#[test]
fn missing_value_after_flag() {
    assert_eq!(
        parse_args(&argv(&["prog", "-f", "in.json", "--csv"])).unwrap_err(),
        ArgError::MissingCsvValue
    );
    assert_eq!(
        parse_args(&argv(&["prog", "--csv", "out.csv", "-f"])).unwrap_err(),
        ArgError::MissingFileValue
    );
}

#[test]
fn unknown_argument_is_reported() {
    assert_eq!(
        parse_args(&argv(&["prog", "-f", "in.json", "--bogus"])).unwrap_err(),
        ArgError::UnknownArgument("--bogus".to_string())
    );
}

#[test]
fn csv_alone_misses_input_file() {
    assert_eq!(
        parse_args(&argv(&["prog", "--csv", "out.csv"])).unwrap_err(),
        ArgError::MissingInputFile
    );
}
