use refdata::record::{decode_row, header_column, header_columns, parse_level};
use refdata::{Column, CsvRecord, DecodeError};

fn texts(values: &[&str]) -> Vec<String> {
    values.iter().map(|v| v.to_string()).collect()
}

fn full_header() -> Vec<Option<Column>> {
    header_columns(&texts(&[
        "Name", "Notes", "URL", "Level", "Example", "Platform", "Type", "OS", "Language",
        "Category",
    ]))
}

#[test]
fn headers_name_their_columns() {
    assert_eq!(header_column("Name"), Some(Column::Name));
    assert_eq!(header_column("Notes"), Some(Column::Notes));
    assert_eq!(header_column("URL"), Some(Column::Url));
    assert_eq!(header_column("Level"), Some(Column::Level));
    assert_eq!(header_column("Example"), Some(Column::Example));
    assert_eq!(header_column("Platform"), Some(Column::Platform));
    assert_eq!(header_column("Type"), Some(Column::Type));
    assert_eq!(header_column("OS"), Some(Column::Os));
    assert_eq!(header_column("Language"), Some(Column::Language));
    assert_eq!(header_column("Category"), Some(Column::Category));
}

#[test]
fn column_names_are_their_own_headers() {
    let all = [
        Column::Name,
        Column::Notes,
        Column::Url,
        Column::Level,
        Column::Example,
        Column::Platform,
        Column::Type,
        Column::Os,
        Column::Language,
        Column::Category,
    ];
    for column in all {
        assert_eq!(header_column(column.name()), Some(column));
    }
}

#[test]
fn url_and_os_are_known_in_any_case() {
    for header in ["URL", "url", "Url", "uRl", "urL"] {
        assert_eq!(header_column(header), Some(Column::Url), "{}", header);
    }
    for header in ["OS", "os", "Os", "oS"] {
        assert_eq!(header_column(header), Some(Column::Os), "{}", header);
    }
}

#[test]
fn other_headers_are_exact() {
    for header in ["name", "NAME", " Name", "Name ", "level", "type", "Types", "", "URLs", "O S"] {
        assert_eq!(header_column(header), None, "{:?}", header);
    }
}

#[test]
fn levels_in_decimal() {
    assert_eq!(parse_level("0"), Some(0));
    assert_eq!(parse_level("7"), Some(7));
    assert_eq!(parse_level("255"), Some(255));
    assert_eq!(parse_level("007"), Some(7));
    assert_eq!(parse_level("+12"), Some(12));
    assert_eq!(parse_level("0000000000000000000255"), Some(255));
}

#[test]
fn levels_in_hexadecimal() {
    assert_eq!(parse_level("0x0"), Some(0));
    assert_eq!(parse_level("0xff"), Some(255));
    assert_eq!(parse_level("0xFF"), Some(255));
    assert_eq!(parse_level("0x1f"), Some(31));
    assert_eq!(parse_level("0x+a"), Some(10));
    assert_eq!(parse_level("0x100"), None);
    assert_eq!(parse_level("0x"), None);
    assert_eq!(parse_level("0xg"), None);
    assert_eq!(parse_level("0X10"), None);
}

#[test]
fn no_level() {
    for cell in ["", " ", "256", "1000", "-1", "-0", "+", "++1", "1 ", " 1", "1.0", "abc", "1e2", "١٢"] {
        assert_eq!(parse_level(cell), None, "{:?}", cell);
    }
}

#[test]
fn levels_agree_with_the_standard_parser() {
    let cells = ["0", "9", "10", "99", "100", "199", "200", "249", "250", "255", "256", "260", "999", "+0", "+255", "+256", "00", "0255", "a", "f", "1f", ""];
    for cell in cells {
        assert_eq!(parse_level(cell), cell.parse::<u8>().ok(), "{:?}", cell);
        let hex = format!("0x{}", cell);
        assert_eq!(parse_level(&hex), u8::from_str_radix(cell, 16).ok(), "{:?}", hex);
    }
}

#[test]
fn full_row() {
    let row = texts(&[
        "Rust",
        "A language",
        "https://www.rust-lang.org",
        "3",
        "cargo new",
        "Windows, Linux",
        "Compiler,Tool",
        "Any",
        "English",
        "Dev, Systems ",
    ]);
    let record = decode_row(&full_header(), &row).unwrap();
    assert_eq!(
        record,
        CsvRecord {
            name: "Rust".to_string(),
            notes: "A language".to_string(),
            url: "https://www.rust-lang.org".to_string(),
            level: 3,
            example: Some("cargo new".to_string()),
            platform: texts(&["Windows", "Linux"]),
            type_: texts(&["Compiler", "Tool"]),
            os: texts(&["Any"]),
            language: texts(&["English"]),
            category: texts(&["Dev", "Systems"]),
        }
    );
}

#[test]
fn only_the_required_columns() {
    let columns = header_columns(&texts(&["Level", "url", "Notes", "Name"]));
    let record = decode_row(&columns, &texts(&["0x10", "u", "", "n"])).unwrap();
    assert_eq!(record.name, "n");
    assert_eq!(record.notes, "");
    assert_eq!(record.url, "u");
    assert_eq!(record.level, 16);
    assert_eq!(record.example, None);
    assert!(record.platform.is_empty());
    assert!(record.type_.is_empty());
    assert!(record.os.is_empty());
    assert!(record.language.is_empty());
    assert!(record.category.is_empty());
}

#[test]
fn empty_example_is_none_and_empty_list_cell_is_one_empty_value() {
    let row = texts(&["n", "", "u", "1", "", "", "", "", "", ""]);
    let record = decode_row(&full_header(), &row).unwrap();
    assert_eq!(record.example, None);
    assert_eq!(record.platform, texts(&[""]));
    assert_eq!(record.type_, texts(&[""]));
    assert_eq!(record.category, texts(&[""]));
}

#[test]
fn unknown_columns_are_passed_over() {
    let columns = header_columns(&texts(&["Id", "Name", "Notes", "Extra", "URL", "Level"]));
    let record = decode_row(&columns, &texts(&["17", "n", "m", "x,y", "u", "9"])).unwrap();
    assert_eq!(record.name, "n");
    assert_eq!(record.level, 9);
}

#[test]
fn missing_fields_in_the_order_of_the_fields() {
    let row = texts(&["a", "b", "c"]);
    let cases: [(&[&str], Column); 4] = [
        (&["Notes", "URL", "Level"], Column::Name),
        (&["Name", "URL", "Level"], Column::Notes),
        (&["Name", "Notes", "Level"], Column::Url),
        (&["Name", "Notes", "URL"], Column::Level),
    ];
    for (header, missing) in cases {
        let mut cells = row.clone();
        if let Some(at) = header.iter().position(|h| *h == "Level") {
            cells[at] = "1".to_string();
        }
        let columns = header_columns(&texts(header));
        assert_eq!(decode_row(&columns, &cells), Err(DecodeError::MissingField(missing)));
    }
    let columns = header_columns(&texts(&["Type"]));
    assert_eq!(
        decode_row(&columns, &texts(&["t"])),
        Err(DecodeError::MissingField(Column::Name))
    );
}

#[test]
fn level_that_is_no_number_is_a_type_mismatch() {
    for cell in ["", "256", "-1", "high", "3.5"] {
        let row = texts(&["n", "m", "u", cell]);
        let columns = header_columns(&texts(&["Name", "Notes", "URL", "Level"]));
        assert_eq!(
            decode_row(&columns, &row),
            Err(DecodeError::TypeMismatch(Column::Level)),
            "{:?}",
            cell
        );
    }
}

#[test]
fn second_cell_under_a_column_is_a_duplicate() {
    let columns = header_columns(&texts(&["Name", "Notes", "URL", "Level", "url"]));
    assert_eq!(
        decode_row(&columns, &texts(&["n", "m", "u", "1", "v"])),
        Err(DecodeError::DuplicateField(Column::Url))
    );
}

#[test]
fn first_faulty_cell_decides() {
    let columns = header_columns(&texts(&["Level", "Name", "Name"]));
    assert_eq!(
        decode_row(&columns, &texts(&["x", "a", "b"])),
        Err(DecodeError::TypeMismatch(Column::Level))
    );
    let columns = header_columns(&texts(&["Name", "Name", "Level"]));
    assert_eq!(
        decode_row(&columns, &texts(&["a", "b", "x"])),
        Err(DecodeError::DuplicateField(Column::Name))
    );
    let columns = header_columns(&texts(&["Level", "Type"]));
    assert_eq!(
        decode_row(&columns, &texts(&["x", "t"])),
        Err(DecodeError::TypeMismatch(Column::Level))
    );
}

#[test]
fn cells_without_a_header_and_headers_without_a_cell_carry_nothing() {
    let columns = header_columns(&texts(&["Name", "Notes", "URL", "Level"]));
    let record = decode_row(&columns, &texts(&["n", "m", "u", "1", "extra"])).unwrap();
    assert_eq!(record.level, 1);
    assert_eq!(
        decode_row(&columns, &texts(&["n", "m", "u"])),
        Err(DecodeError::MissingField(Column::Level))
    );
    assert_eq!(decode_row(&columns, &texts(&[])), Err(DecodeError::MissingField(Column::Name)));
}

#[test]
fn failures_in_words() {
    assert_eq!(DecodeError::MissingField(Column::Name).to_string(), "missing field `Name`");
    assert_eq!(DecodeError::DuplicateField(Column::Url).to_string(), "duplicate field `URL`");
    assert_eq!(
        DecodeError::TypeMismatch(Column::Level).to_string(),
        "type mismatch in field `Level`"
    );
}
