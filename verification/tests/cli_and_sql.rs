use csvq::cli::parse_table_spec;
use csvq::errors::Failure;
use csvq::sqlgen::{create_table_sql, insert_sql};

#[test]
fn table_spec_splits_on_the_first_colon() {
    let ts = match parse_table_spec("T:data/file.csv") {
        Ok(ts) => ts,
        Err(_) => panic!("expected a valid table spec"),
    };
    assert_eq!(ts.name, "T");
    assert_eq!(ts.path, "data/file.csv");

    let ts2 = match parse_table_spec("T:C:separated") {
        Ok(ts) => ts,
        Err(_) => panic!("expected a valid table spec"),
    };
    assert_eq!(ts2.name, "T");
    assert_eq!(ts2.path, "C:separated");
}

#[test]
fn table_spec_without_a_file_is_a_usage_failure() {
    match parse_table_spec("T") {
        Err(Failure::Usage(m)) => assert!(m.contains("T")),
        _ => panic!("expected a usage failure"),
    }
    match parse_table_spec("T:") {
        Err(Failure::Usage(_)) => {}
        _ => panic!("expected a usage failure"),
    }
    match parse_table_spec(":file.csv") {
        Err(Failure::Usage(_)) => {}
        _ => panic!("expected a usage failure"),
    }
    match parse_table_spec("") {
        Err(Failure::Usage(_)) => {}
        _ => panic!("expected a usage failure"),
    }
}

#[test]
fn generated_ddl_matches_the_headers() {
    let headers: Vec<String> = vec!["A".to_string(), "B".to_string()];
    assert_eq!(create_table_sql("T", &headers), "CREATE TABLE T (A TEXT, B TEXT)");
    let one: Vec<String> = vec!["only".to_string()];
    assert_eq!(create_table_sql("U", &one), "CREATE TABLE U (only TEXT)");
}

#[test]
fn generated_insert_matches_the_column_count() {
    assert_eq!(insert_sql("T", 2), "INSERT INTO T VALUES (?, ?)");
    assert_eq!(insert_sql("T", 1), "INSERT INTO T VALUES (?)");
}

#[test]
fn failure_text_reports_the_diagnostic() {
    let e = Failure::Store("engine said no".to_string());
    assert_eq!(e.text(), "engine said no");
}
