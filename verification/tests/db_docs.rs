use ase_ls_core::db_docs::{datatypes, functions, keywords, lookup, lookup_function, system_variables, DocCategory};

#[test]
fn db_docs_test_lookup_datatype() {
    let entry = lookup("VARCHAR").unwrap();
    assert_eq!(entry.name, "VARCHAR");
    assert_eq!(entry.category, DocCategory::DataType);
}

#[test]
fn db_docs_test_lookup_function() {
    let entry = lookup("SUBSTRING").unwrap();
    assert_eq!(entry.name, "SUBSTRING");
    assert_eq!(entry.category, DocCategory::Function);
    assert_eq!(entry.params, vec!["expression", "start", "length"]);
}

#[test]
fn db_docs_test_lookup_keyword_right() {
    let entry = lookup("RIGHT").unwrap();
    assert_eq!(entry.name, "RIGHT");
    assert_eq!(entry.category, DocCategory::Keyword);
}

#[test]
fn db_docs_test_lookup_case_sensitive() {
    assert!(lookup("select").is_none());
    assert!(lookup("SELECT").is_some());
}

#[test]
fn db_docs_test_lookup_not_found() {
    assert!(lookup("NONEXISTENT").is_none());
}

#[test]
fn mod_test_lookup_datatype() {
    let entry = lookup("VARCHAR").unwrap();
    assert_eq!(entry.name, "VARCHAR");
    assert_eq!(entry.category, DocCategory::DataType);
}

#[test]
fn mod_test_lookup_function() {
    let entry = lookup("SUBSTRING").unwrap();
    assert_eq!(entry.name, "SUBSTRING");
    assert_eq!(entry.category, DocCategory::Function);
    assert_eq!(entry.params, vec!["expression", "start", "length"]);
}

#[test]
fn mod_test_lookup_keyword_right() {
    let entry = lookup("RIGHT").unwrap();
    assert_eq!(entry.name, "RIGHT");
    assert_eq!(entry.category, DocCategory::Keyword);
}

#[test]
fn mod_test_lookup_case_sensitive() {
    assert!(lookup("select").is_none());
    assert!(lookup("SELECT").is_some());
}

#[test]
fn mod_test_lookup_not_found() {
    assert!(lookup("NONEXISTENT").is_none());
}

#[test]
fn test_data_submodules_expose_only_entry_tables() {
    for e in keywords() {
        assert_eq!(e.category, DocCategory::Keyword);
    }
    for e in datatypes() {
        assert_eq!(e.category, DocCategory::DataType);
    }
    for e in functions() {
        assert_eq!(e.category, DocCategory::Function);
    }
    for e in system_variables() {
        assert_eq!(e.category, DocCategory::SystemVariable);
    }
}

#[test]
fn lookup_agrees_with_tables_and_prefers_keywords() {
    let via_lookup = lookup("SELECT");
    let via_table = keywords().into_iter().find(|e| e.name == "SELECT");
    assert_eq!(via_lookup, via_table);
    assert_eq!(lookup_function("SUBSTRING").map(|e| e.name), Some("SUBSTRING"));
    assert!(lookup_function("SELECT").is_none());
    let rowcount = lookup("@@ROWCOUNT").unwrap();
    assert_eq!(rowcount.category, DocCategory::SystemVariable);
}

fn check_lookup_keyword() {
    let entry = lookup("SELECT").unwrap();
    assert_eq!(entry.name, "SELECT");
    assert_eq!(entry.category, DocCategory::Keyword);
    assert!(!entry.description.is_empty());
}

fn check_no_duplicate_names() {
    for table in [keywords(), datatypes(), functions()] {
        let mut names = std::collections::HashSet::new();
        for e in table.iter() {
            assert!(!names.contains(e.name), "Duplicate name: {}", e.name);
            names.insert(e.name);
        }
    }
}

fn check_all_entries_have_description() {
    for e in keywords().iter().chain(datatypes().iter()).chain(functions().iter()) {
        assert!(!e.description.is_empty(), "Missing description for: {}", e.name);
        assert!(!e.syntax.is_empty(), "Missing syntax for: {}", e.name);
    }
}

fn check_entry_counts() {
    assert!(!keywords().is_empty());
    assert!(!datatypes().is_empty());
    assert!(!functions().is_empty());
    assert!(keywords().len() >= 50);
    assert!(datatypes().len() >= 25);
    assert!(functions().len() >= 35);
}

#[test]
fn db_docs_test_lookup_keyword() {
    check_lookup_keyword();
}

#[test]
fn mod_test_lookup_keyword() {
    check_lookup_keyword();
}

#[test]
fn db_docs_test_no_duplicate_names() {
    check_no_duplicate_names();
}

#[test]
fn mod_test_no_duplicate_names() {
    check_no_duplicate_names();
}

#[test]
fn db_docs_test_all_entries_have_description() {
    check_all_entries_have_description();
}

#[test]
fn mod_test_all_entries_have_description() {
    check_all_entries_have_description();
}

#[test]
fn db_docs_test_entry_counts() {
    check_entry_counts();
}

#[test]
fn mod_test_entry_counts() {
    check_entry_counts();
}

#[test]
fn test_lookup_helpers_exist_only_in_mod() {
    let via_helper = lookup("SELECT");
    let via_direct = keywords().into_iter().find(|e| e.name == "SELECT");
    assert_eq!(via_helper, via_direct, "lookup must agree with the data table");
    assert_eq!(lookup_function("SUBSTRING").map(|e| e.name), Some("SUBSTRING"));
}

