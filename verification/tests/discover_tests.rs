use indexador::discover::{is_txt_file, select_txt_files};

#[test]
fn txt_extension_is_case_insensitive() {
    assert!(is_txt_file("notes.TXT"));
    assert!(is_txt_file("notes.txt"));
    assert!(is_txt_file("notes.tXt"));
    assert!(!is_txt_file("notes.md"));
}

#[test]
fn names_without_a_txt_extension_are_excluded() {
    assert!(!is_txt_file("txt"));
    assert!(!is_txt_file(".txt"));
    assert!(!is_txt_file("a.txt "));
    assert!(!is_txt_file("a.text"));
    assert!(!is_txt_file("atxt"));
    assert!(is_txt_file("a.txt"));
    assert!(is_txt_file("a.b.txt"));
}

#[test]
fn selection_keeps_only_txt_names_in_order() {
    let names = vec![
        "a.txt".to_string(),
        "b.md".to_string(),
        "c.TXT".to_string(),
        "d".to_string(),
    ];
    let picked = select_txt_files(&names);
    assert_eq!(picked, vec!["a.txt".to_string(), "c.TXT".to_string()]);
}

#[test]
fn empty_directory_listing_selects_no_work() {
    let names: Vec<String> = Vec::new();
    let picked = select_txt_files(&names);
    assert!(picked.is_empty());
}
