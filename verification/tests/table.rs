use refdata::table::{describe_failure, push_row};
use refdata::record::header_columns;
use refdata::{parse_csv, Column, CsvRecord, DecodeError, ErrorKind};

fn texts(values: &[&str]) -> Vec<String> {
    values.iter().map(|v| v.to_string()).collect()
}

fn record(name: &str, level: u8) -> CsvRecord {
    CsvRecord {
        name: name.to_string(),
        notes: String::new(),
        url: String::new(),
        level,
        example: None,
        platform: Vec::new(),
        type_: Vec::new(),
        os: Vec::new(),
        language: Vec::new(),
        category: Vec::new(),
    }
}

#[test]
fn table_of_two_rows() {
    let data = "Name,Notes,URL,Level,Example,Platform,Type,OS,Language,Category\n\
                Rust,A language,https://www.rust-lang.org,3,cargo new,\"Windows, Linux\",\"Compiler,Tool\",Any,English,Dev\n\
                Vim,An editor,https://www.vim.org,0x10,,Linux,Editor,,,\n";
    let records = parse_csv(data.as_bytes()).unwrap();
    assert_eq!(
        records,
        vec![
            CsvRecord {
                name: "Rust".to_string(),
                notes: "A language".to_string(),
                url: "https://www.rust-lang.org".to_string(),
                level: 3,
                example: Some("cargo new".to_string()),
                platform: texts(&["Windows", "Linux"]),
                type_: texts(&["Compiler", "Tool"]),
                os: texts(&["Any"]),
                language: texts(&["English"]),
                category: texts(&["Dev"]),
            },
            CsvRecord {
                name: "Vim".to_string(),
                notes: "An editor".to_string(),
                url: "https://www.vim.org".to_string(),
                level: 16,
                example: None,
                platform: texts(&["Linux"]),
                type_: texts(&["Editor"]),
                os: texts(&[""]),
                language: texts(&[""]),
                category: texts(&[""]),
            },
        ]
    );
}

#[test]
fn rows_come_in_the_order_of_the_file() {
    let mut data = String::from("Level,Name,Notes,URL\n");
    for k in 0..200 {
        data.push_str(&format!("{},row{},,\n", k, k));
    }
    let records = parse_csv(data.as_bytes()).unwrap();
    assert_eq!(records.len(), 200);
    for (k, found) in records.iter().enumerate() {
        assert_eq!(found.name, format!("row{}", k));
        assert_eq!(found.level as usize, k);
    }
}

#[test]
fn absent_columns_give_empty_fields() {
    let data = "Name,Notes,URL,Level\nn,m,u,1\n";
    assert_eq!(
        parse_csv(data.as_bytes()).unwrap(),
        vec![CsvRecord {
            name: "n".to_string(),
            notes: "m".to_string(),
            url: "u".to_string(),
            ..record("", 1)
        }]
    );
}

#[test]
fn empty_text_has_no_records() {
    assert_eq!(parse_csv(b""), Ok(Vec::new()));
}

#[test]
fn header_alone_has_no_records() {
    assert_eq!(parse_csv(b"Name,Notes,URL,Level\n"), Ok(Vec::new()));
    assert_eq!(parse_csv(b"Nothing,Known\n"), Ok(Vec::new()));
}

#[test]
fn last_row_may_lack_a_line_end() {
    let records = parse_csv(b"Name,Notes,URL,Level\r\na,b,c,1\r\nd,e,f,2").unwrap();
    assert_eq!(records.len(), 2);
    assert_eq!(records[1].name, "d");
    assert_eq!(records[1].level, 2);
}

#[test]
fn quoted_cells_keep_commas_quotes_and_line_ends() {
    let data = "Name,Notes,URL,Level,Type\n\"a,b\",\"say \"\"hi\"\"\",\"line\nbreak\",1,\" x , y \"\n";
    let records = parse_csv(data.as_bytes()).unwrap();
    assert_eq!(records[0].name, "a,b");
    assert_eq!(records[0].notes, "say \"hi\"");
    assert_eq!(records[0].url, "line\nbreak");
    assert_eq!(records[0].type_, texts(&["x", "y"]));
}

#[test]
fn url_and_os_headers_in_small_letters() {
    let data = "Name,Notes,url,Level,os\nn,m,u,1,\"Linux, BSD\"\n";
    let records = parse_csv(data.as_bytes()).unwrap();
    assert_eq!(records[0].url, "u");
    assert_eq!(records[0].os, texts(&["Linux", "BSD"]));
}

#[test]
fn level_out_of_range_fails_the_whole_table() {
    for cell in ["256", "-1", "abc", "", "1.5", "999999999999"] {
        let data = format!("Name,Notes,URL,Level\na,b,c,1\nd,e,f,{}\ng,h,i,2\n", cell);
        let error = parse_csv(data.as_bytes()).unwrap_err();
        assert_eq!(error.kind, ErrorKind::InvalidData, "{:?}", cell);
        assert_eq!(error.message, "record 2: type mismatch in field `Level`", "{:?}", cell);
    }
}

#[test]
fn missing_column_fails_at_the_first_row() {
    let error = parse_csv(b"Name,Notes,Level\na,b,1\nc,d,2\n").unwrap_err();
    assert_eq!(error.kind, ErrorKind::InvalidData);
    assert_eq!(error.message, "record 1: missing field `URL`");
    let error = parse_csv(b"name,Notes,URL,Level\na,b,c,1\n").unwrap_err();
    assert_eq!(error.message, "record 1: missing field `Name`");
}

#[test]
fn duplicate_column_fails_at_the_first_row() {
    let error = parse_csv(b"Name,Notes,URL,Level,Name\na,b,c,1,e\n").unwrap_err();
    assert_eq!(error.kind, ErrorKind::InvalidData);
    assert_eq!(error.message, "record 1: duplicate field `Name`");
}

#[test]
fn row_of_another_length_fails() {
    let error = parse_csv(b"Name,Notes,URL,Level\na,b,c,1\nd,e,f\n").unwrap_err();
    assert_eq!(error.kind, ErrorKind::InvalidData);
    assert!(!error.message.is_empty());
    let error = parse_csv(b"Name,Notes,URL,Level\na,b,c,1,extra\n").unwrap_err();
    assert_eq!(error.kind, ErrorKind::InvalidData);
}

#[test]
fn row_that_is_not_utf8_fails() {
    let mut data = b"Name,Notes,URL,Level\na,b,c,1\n".to_vec();
    data.extend_from_slice(b"d,\xff\xfe,f,2\n");
    let error = parse_csv(&data).unwrap_err();
    assert_eq!(error.kind, ErrorKind::InvalidData);
    assert!(!error.message.is_empty());
}

#[test]
fn header_that_is_not_utf8_fails() {
    let error = parse_csv(b"Name,No\xfftes,URL,Level\na,b,c,1\n").unwrap_err();
    assert_eq!(error.kind, ErrorKind::InvalidData);
}

#[test]
fn first_failure_decides() {
    let error = parse_csv(b"Name,Notes,URL,Level\na,b,c,x\nd,e,f\n").unwrap_err();
    assert_eq!(error.message, "record 1: type mismatch in field `Level`");
    let error = parse_csv(b"Name,Notes,URL,Level\na,b,c\nd,e,f,x\n").unwrap_err();
    assert_ne!(error.message, "record 2: type mismatch in field `Level`");
}

#[test]
fn same_text_same_records() {
    let data = "Name,Notes,URL,Level,Type\na,b,c,1,\"x, y\"\nd,e,f,2,y\n";
    assert_eq!(parse_csv(data.as_bytes()), parse_csv(data.as_bytes()));
}

#[test]
fn pushing_rows() {
    let columns = header_columns(&texts(&["Name", "Notes", "URL", "Level"]));
    let mut records = vec![record("first", 1)];
    assert_eq!(push_row(&columns, &mut records, &texts(&["n", "", "", "2"])), Ok(()));
    assert_eq!(records, vec![record("first", 1), record("n", 2)]);
    let error = push_row(&columns, &mut records, &texts(&["n", "", "", "two"])).unwrap_err();
    assert_eq!(error.kind, ErrorKind::InvalidData);
    assert_eq!(error.message, "record 3: type mismatch in field `Level`");
    assert_eq!(records.len(), 2);
}

#[test]
fn failure_messages() {
    assert_eq!(
        describe_failure(1, DecodeError::MissingField(Column::Notes)),
        "record 1: missing field `Notes`"
    );
    assert_eq!(
        describe_failure(1234567890123, DecodeError::DuplicateField(Column::Os)),
        "record 1234567890123: duplicate field `OS`"
    );
    assert_eq!(
        describe_failure(u128::MAX, DecodeError::TypeMismatch(Column::Level)),
        format!("record {}: type mismatch in field `Level`", u128::MAX)
    );
}
