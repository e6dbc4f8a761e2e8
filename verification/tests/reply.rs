use refdata::{
    envelope, parse_csv, serialized_fields, Column, CsvRecord, Envelope, ErrorKind, Field,
    LoadError, Value,
};

fn texts(values: &[&str]) -> Vec<String> {
    values.iter().map(|v| v.to_string()).collect()
}

fn json_of(record: &CsvRecord) -> String {
    let mut object = serde_json::Map::new();
    for field in serialized_fields(record) {
        let value = match field.value {
            Value::Text(text) => serde_json::Value::from(text),
            Value::Number(number) => serde_json::Value::from(number),
            Value::List(values) => serde_json::Value::from(values),
        };
        object.insert(field.column.name().to_string(), value);
    }
    serde_json::Value::Object(object).to_string()
}

#[test]
fn all_fields_of_a_full_record() {
    let record = CsvRecord {
        name: "n".to_string(),
        notes: "m".to_string(),
        url: "u".to_string(),
        level: 7,
        example: Some("e".to_string()),
        platform: texts(&["p", "q"]),
        type_: texts(&["t"]),
        os: texts(&["o"]),
        language: texts(&["l"]),
        category: texts(&["c"]),
    };
    assert_eq!(
        serialized_fields(&record),
        vec![
            Field { column: Column::Name, value: Value::Text("n".to_string()) },
            Field { column: Column::Notes, value: Value::Text("m".to_string()) },
            Field { column: Column::Url, value: Value::Text("u".to_string()) },
            Field { column: Column::Level, value: Value::Number(7) },
            Field { column: Column::Example, value: Value::Text("e".to_string()) },
            Field { column: Column::Platform, value: Value::List(texts(&["p", "q"])) },
            Field { column: Column::Type, value: Value::List(texts(&["t"])) },
            Field { column: Column::Os, value: Value::List(texts(&["o"])) },
            Field { column: Column::Language, value: Value::List(texts(&["l"])) },
            Field { column: Column::Category, value: Value::List(texts(&["c"])) },
        ]
    );
}

#[test]
fn empty_fields_are_left_out() {
    let record = CsvRecord {
        name: String::new(),
        notes: String::new(),
        url: String::new(),
        level: 0,
        example: None,
        platform: Vec::new(),
        type_: texts(&["t"]),
        os: Vec::new(),
        language: Vec::new(),
        category: texts(&[""]),
    };
    let columns: Vec<Column> = serialized_fields(&record).iter().map(|f| f.column).collect();
    assert_eq!(
        columns,
        vec![Column::Name, Column::Notes, Column::Url, Column::Level, Column::Type, Column::Category]
    );
}

#[test]
fn absent_cell_is_absent_from_what_is_shown() {
    let records = parse_csv(b"Name,Notes,URL,Level,Type\nn,m,u,1,\"a, b\"\n").unwrap();
    assert!(records[0].platform.is_empty());
    assert_eq!(
        json_of(&records[0]),
        "{\"Level\":1,\"Name\":\"n\",\"Notes\":\"m\",\"Type\":[\"a\",\"b\"],\"URL\":\"u\"}"
    );
}

#[test]
fn same_file_same_json() {
    let data = "Name,Notes,URL,Level,Example,Type\nn,\"m, \"\"x\"\"\",u,1,,\"a, b\"\no,p,q,2,ex,\n";
    let first: Vec<String> = parse_csv(data.as_bytes()).unwrap().iter().map(json_of).collect();
    let second: Vec<String> = parse_csv(data.as_bytes()).unwrap().iter().map(json_of).collect();
    assert_eq!(first, second);
    assert_eq!(first.len(), 2);
}

#[test]
fn envelope_of_a_result() {
    assert_eq!(envelope(Ok(vec![1, 2, 3])), Envelope::Result(vec![1, 2, 3]));
    assert_eq!(envelope(Ok(String::from("x"))), Envelope::Result(String::from("x")));
}

#[test]
fn envelope_of_a_failure() {
    let error = LoadError::new(ErrorKind::InvalidInput, "Filename cannot be empty".to_string());
    assert_eq!(error.to_string(), "Filename cannot be empty");
    let reply: Envelope<Vec<CsvRecord>> = envelope(Err(error));
    assert_eq!(reply, Envelope::Error("Filename cannot be empty".to_string()));
}
