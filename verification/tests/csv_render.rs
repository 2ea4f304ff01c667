use sbom_licenses::{write_csv, CsvRecord};

fn record(name: &str, version: &str, artifact_type: &str, licenses: &str) -> CsvRecord {
    CsvRecord {
        name: name.to_string(),
        version: version.to_string(),
        artifact_type: artifact_type.to_string(),
        licenses: licenses.to_string(),
    }
}

#[test]
fn csv_of_no_records_is_header_only() {
    let bytes = write_csv(&Vec::new());
    assert_eq!(
        String::from_utf8(bytes).unwrap(),
        "Name,Version,Type,Licenses\n"
    );
}

#[test]
fn csv_second_line_is_the_record() {
    let records = vec![record("lib-a", "1.0", "npm", "MIT")];
    let text = String::from_utf8(write_csv(&records)).unwrap();
    let mut lines = text.lines();
    assert_eq!(lines.next(), Some("Name,Version,Type,Licenses"));
    assert_eq!(lines.next(), Some("lib-a,1.0,npm,MIT"));
    assert_eq!(lines.next(), None);
}

#[test]
fn csv_quotes_fields_that_need_it() {
    let records = vec![record("a,b", "1.0", "npm", "MIT; ISC")];
    let text = String::from_utf8(write_csv(&records)).unwrap();
    assert_eq!(
        text,
        "Name,Version,Type,Licenses\n\"a,b\",1.0,npm,MIT; ISC\n"
    );
}

#[test]
fn csv_rows_keep_record_order() {
    let records = vec![
        record("a", "1", "npm", "MIT"),
        record("b", "2", "python", "ISC"),
    ];
    let text = String::from_utf8(write_csv(&records)).unwrap();
    assert_eq!(
        text,
        "Name,Version,Type,Licenses\na,1,npm,MIT\nb,2,python,ISC\n"
    );
}
