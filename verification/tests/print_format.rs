use gage::print_format::{yaml_text, FormattedBatch, PrintFormat};

#[test]
fn format_names_parse() {
    assert_eq!("table".parse::<PrintFormat>(), Ok(PrintFormat::Table));
    assert_eq!("csv".parse::<PrintFormat>(), Ok(PrintFormat::Csv));
    assert_eq!("json".parse::<PrintFormat>(), Ok(PrintFormat::Json));
    assert_eq!("ndjson".parse::<PrintFormat>(), Ok(PrintFormat::NdJson));
    assert_eq!("yaml".parse::<PrintFormat>(), Ok(PrintFormat::Yaml));
}

#[test]
fn format_names_ignore_ascii_case() {
    assert_eq!(PrintFormat::parse_name("TABLE"), Ok(PrintFormat::Table));
    assert_eq!(PrintFormat::parse_name("NdJson"), Ok(PrintFormat::NdJson));
}

#[test]
fn unknown_format_is_rejected() {
    assert_eq!(PrintFormat::parse_name("nd-json"), Err("invalid variant: nd-json".to_string()));
    assert_eq!(PrintFormat::parse_name(""), Err("invalid variant: ".to_string()));
    assert_eq!(PrintFormat::parse_name("jsonx"), Err("invalid variant: jsonx".to_string()));
}

fn batch(fields: &[&str], rows: &[&[&str]]) -> FormattedBatch {
    FormattedBatch {
        fields: fields.iter().map(|f| f.to_string()).collect(),
        rows: rows.iter().map(|r| r.iter().map(|c| c.to_string()).collect()).collect(),
    }
}

#[test]
fn yaml_one_document_per_row() {
    let batches = vec![
        batch(&["id", "n"], &[&["a", "1"], &["b", "2"]]),
        batch(&["id", "n"], &[]),
        batch(&["id", "n"], &[&["c", ""]]),
    ];
    assert_eq!(
        yaml_text(&batches),
        "---\nid: a\nn: 1\n---\nid: b\nn: 2\n---\nid: c\nn: \n"
    );
}

#[test]
fn yaml_of_no_rows_is_empty() {
    assert_eq!(yaml_text(&vec![]), "");
    assert_eq!(yaml_text(&vec![batch(&["x"], &[])]), "");
}
