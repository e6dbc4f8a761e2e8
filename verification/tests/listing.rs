use refdata::listing::{entry_names, sort_by_keys, sort_keys, sort_order, text_is_before};
use refdata::{folder_files, ErrorKind, LoadError};

fn texts(values: &[&str]) -> Vec<String> {
    values.iter().map(|v| v.to_string()).collect()
}

fn entries(values: &[&str]) -> Vec<Option<String>> {
    values.iter().map(|v| Some(v.to_string())).collect()
}

#[test]
fn files_in_order_whatever_the_case() {
    let files = folder_files(Ok(entries(&["b.csv", "A.csv", "a.csv"]))).unwrap();
    assert_eq!(files, texts(&["A.csv", "a.csv", "b.csv"]));
    let files = folder_files(Ok(entries(&["b.csv", "a.csv", "A.csv"]))).unwrap();
    assert_eq!(files, texts(&["a.csv", "A.csv", "b.csv"]));
}

#[test]
fn empty_folder() {
    assert_eq!(folder_files(Ok(Vec::new())), Ok(Vec::new()));
}

#[test]
fn entries_without_a_name_are_left_out() {
    let listing = vec![
        Some("zeta".to_string()),
        None,
        Some("Alpha".to_string()),
        None,
        Some("beta".to_string()),
    ];
    assert_eq!(folder_files(Ok(listing)), Ok(texts(&["Alpha", "beta", "zeta"])));
    assert_eq!(folder_files(Ok(vec![None, None])), Ok(Vec::new()));
}

#[test]
fn failure_to_open_the_folder_is_passed_on() {
    let error = LoadError::new(ErrorKind::NotFound, "No such file or directory".to_string());
    assert_eq!(folder_files(Err(error.clone())), Err(error));
    let error = LoadError::new(ErrorKind::PermissionDenied, "Permission denied".to_string());
    assert_eq!(folder_files(Err(error.clone())), Err(error));
}

#[test]
fn files_and_folders_alike() {
    let files = folder_files(Ok(entries(&["sub", "data.csv", "Sub2", "README"]))).unwrap();
    assert_eq!(files, texts(&["data.csv", "README", "sub", "Sub2"]));
}

#[test]
fn order_is_that_of_a_stable_sort_by_small_letters() {
    let names = texts(&[
        "b", "B", "a", "A", "É", "é", "e", "Z", "z", "ä", "Ä", "10", "9", "_x", "X_", "", "ß", "SS",
        "ss", "İ", "i", "ǅ", "ǆ", "a.csv", "A.CSV", "a.Csv", "日本", "Ω", "ω", "b", "B",
    ]);
    let mut expected = names.clone();
    expected.sort_by(|one, two| one.to_lowercase().cmp(&two.to_lowercase()));
    let listing: Vec<Option<String>> = names.iter().cloned().map(Some).collect();
    assert_eq!(folder_files(Ok(listing)), Ok(expected));
}

#[test]
fn many_names() {
    let mut names = Vec::new();
    let mut seed: u32 = 12345;
    for _ in 0..500 {
        seed = seed.wrapping_mul(1664525).wrapping_add(1013904223);
        let len = (seed >> 28) as usize % 4;
        let mut name = String::new();
        let mut bits = seed;
        for _ in 0..len {
            let c = ["a", "A", "b", "B", "c", "é", "É", "0"][(bits & 7) as usize];
            name.push_str(c);
            bits >>= 3;
        }
        names.push(name);
    }
    let mut expected = names.clone();
    expected.sort_by(|one, two| one.to_lowercase().cmp(&two.to_lowercase()));
    let listing: Vec<Option<String>> = names.iter().cloned().map(Some).collect();
    assert_eq!(folder_files(Ok(listing)), Ok(expected));
}

#[test]
fn keys_are_the_names_in_small_letters() {
    assert_eq!(
        sort_keys(&texts(&["ABC", "abc", "ÀÉÎ", "Straße", "ΣΑΣ", "x1Y2"])),
        texts(&["abc", "abc", "àéî", "straße", "σας", "x1y2"])
    );
}

#[test]
fn sorting_by_given_keys() {
    let names = texts(&["one", "two", "three", "four"]);
    let keys = texts(&["b", "a", "b", "a"]);
    assert_eq!(sort_by_keys(&names, &keys), texts(&["two", "four", "one", "three"]));
    assert_eq!(sort_order(&keys), vec![1, 3, 0, 2]);
    assert_eq!(sort_order(&Vec::new()), Vec::<usize>::new());
    assert_eq!(sort_order(&texts(&["only"])), vec![0]);
}

#[test]
fn texts_are_compared_character_by_character() {
    let pairs = [
        ("", ""),
        ("", "a"),
        ("a", ""),
        ("a", "a"),
        ("a", "b"),
        ("ab", "a"),
        ("a", "ab"),
        ("Z", "a"),
        ("é", "z"),
        ("z", "é"),
        ("日", "本"),
        ("\u{10000}", "\u{ffff}"),
    ];
    for (one, two) in pairs {
        let a: Vec<char> = one.chars().collect();
        let b: Vec<char> = two.chars().collect();
        assert_eq!(text_is_before(&a, &b), one < two, "{:?} {:?}", one, two);
    }
}

#[test]
fn names_of_entries() {
    assert_eq!(
        entry_names(vec![None, Some("a".to_string()), None, Some("b".to_string())]),
        texts(&["a", "b"])
    );
}
