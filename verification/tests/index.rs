use refdata::{distinct_types, CsvRecord};

fn with_types(types: &[&str]) -> CsvRecord {
    CsvRecord {
        name: String::new(),
        notes: String::new(),
        url: String::new(),
        level: 0,
        example: None,
        platform: Vec::new(),
        type_: types.iter().map(|t| t.to_string()).collect(),
        os: Vec::new(),
        language: Vec::new(),
        category: Vec::new(),
    }
}

#[test]
fn types_of_two_records() {
    let records = vec![with_types(&["A", "B"]), with_types(&["B", "C"])];
    assert_eq!(distinct_types(&records), vec!["A", "B", "C"]);
}

#[test]
fn no_records_no_types() {
    assert!(distinct_types(&Vec::new()).is_empty());
    assert!(distinct_types(&vec![with_types(&[]), with_types(&[])]).is_empty());
}

#[test]
fn each_type_once_in_the_order_of_first_occurrence() {
    let records = vec![
        with_types(&["z", "a", "z"]),
        with_types(&[]),
        with_types(&["a", "", "m"]),
        with_types(&["", "A"]),
    ];
    assert_eq!(distinct_types(&records), vec!["z", "a", "", "m", "A"]);
}

#[test]
fn other_fields_do_not_count() {
    let mut record = with_types(&["T"]);
    record.platform = vec!["P".to_string()];
    record.category = vec!["C".to_string()];
    assert_eq!(distinct_types(&vec![record]), vec!["T"]);
}

#[test]
fn index_is_the_set_of_all_types() {
    let records: Vec<CsvRecord> = (0..50)
        .map(|k| with_types(&[&format!("t{}", k % 7), &format!("t{}", k % 5), "all"]))
        .collect();
    let types = distinct_types(&records);
    let found: std::collections::HashSet<String> = types.iter().cloned().collect();
    assert_eq!(found.len(), types.len());
    let mut expected = std::collections::HashSet::new();
    for record in &records {
        for value in &record.type_ {
            expected.insert(value.clone());
        }
    }
    assert_eq!(found, expected);
}
