use csvq::errors::Failure;
use csvq::loader::load_table;
use csvq::runner::run_query;

fn mem_conn() -> rusqlite::Connection {
    rusqlite::Connection::open_in_memory().unwrap()
}

#[test]
fn test_load_table() {
    let conn = mem_conn();
    assert!(load_table(&conn, "T", "A,B\n1,2\n3,4").is_ok());
    let mut stmt = conn.prepare("SELECT * FROM T").unwrap();
    let mut xss = stmt
        .query_map([], |row| {
            let a: String = row.get(0)?;
            let b: String = row.get(1)?;
            Ok((a.parse::<i64>().unwrap(), b.parse::<i64>().unwrap()))
        })
        .unwrap();
    assert_eq!(xss.next().unwrap().unwrap(), (1, 2));
    assert_eq!(xss.next().unwrap().unwrap(), (3, 4));
    assert!(xss.next().is_none());
}

#[test]
fn test_query() {
    let conn = mem_conn();
    conn.execute_batch(
        "CREATE TABLE T (a INTEGER, b TEXT);
         INSERT INTO T VALUES (1, 'foo');
         INSERT INTO T VALUES (2, 'bar');",
    )
    .unwrap();
    let (out, err) = run_query(&conn, "SELECT * FROM T");
    assert!(err.is_none());
    assert_eq!(out, "a,b\n1,foo\n2,bar\n");
}

#[test]
fn round_trip_load_then_select() {
    let conn = mem_conn();
    assert!(load_table(&conn, "T", "A,B\n1,2\n3,4").is_ok());
    let (out, err) = run_query(&conn, "SELECT * FROM T");
    assert!(err.is_none());
    assert_eq!(out, "A,B\n1,2\n3,4\n");
}

#[test]
fn column_names_follow_the_engine() {
    let conn = mem_conn();
    assert!(load_table(&conn, "T", "A,B\n1,2\n3,4").is_ok());
    let (out, err) = run_query(&conn, "SELECT B, A FROM T");
    assert!(err.is_none());
    assert_eq!(out, "B,A\n2,1\n4,3\n");
}

#[test]
fn empty_result_still_emits_the_header() {
    let conn = mem_conn();
    assert!(load_table(&conn, "T", "A,B\n1,2\n3,4").is_ok());
    let (out, err) = run_query(&conn, "SELECT * FROM T WHERE A = '999'");
    assert!(err.is_none());
    assert_eq!(out, "A,B\n");
}

#[test]
fn duplicate_table_is_a_store_failure() {
    let conn = mem_conn();
    assert!(load_table(&conn, "T", "A,B\n1,2").is_ok());
    match load_table(&conn, "T", "A,B\n3,4") {
        Err(Failure::Store(m)) => assert!(m.contains("T")),
        _ => panic!("expected a store failure on the second CREATE TABLE"),
    }
}

#[test]
fn malformed_row_aborts_without_inserting_it() {
    let conn = mem_conn();
    match load_table(&conn, "T", "A,B\n1,2\n3,4,5\n6,7") {
        Err(Failure::MalformedRow(m)) => assert!(m.contains("T")),
        _ => panic!("expected a malformed-row failure"),
    }
    let n: i64 = conn
        .query_row("SELECT COUNT(*) FROM T", [], |row| row.get(0))
        .unwrap();
    assert_eq!(n, 1);
}

#[test]
fn empty_input_is_a_schema_failure() {
    let conn = mem_conn();
    match load_table(&conn, "T", "") {
        Err(Failure::Schema(m)) => assert!(m.contains("T")),
        _ => panic!("expected a schema failure"),
    }
}

#[test]
fn unterminated_quote_is_a_parse_failure() {
    let conn = mem_conn();
    match load_table(&conn, "T", "A,B\n1,\"unterminated") {
        Err(Failure::CsvParse(_)) => {}
        _ => panic!("expected a CSV parse failure"),
    }
}

#[test]
fn bad_sql_is_a_compile_failure_with_no_output() {
    let conn = mem_conn();
    let (out, err) = run_query(&conn, "SELECT * FROM NoSuchTable");
    assert_eq!(out, "");
    match err {
        Some(Failure::QueryCompile(m)) => assert!(!m.is_empty()),
        _ => panic!("expected a query-compile failure"),
    }
}

#[test]
fn quoted_fields_survive_the_whole_pipeline() {
    let conn = mem_conn();
    let input = "A,B\n\"x,y\",\"he said \"\"hi\"\"\"\n\"line\nbreak\",plain\n";
    assert!(load_table(&conn, "T", input).is_ok());
    let (out, err) = run_query(&conn, "SELECT * FROM T");
    assert!(err.is_none());
    assert_eq!(out, input);
}

#[test]
fn runtime_failure_keeps_the_header_already_written() {
    let conn = mem_conn();
    let (out, err) = run_query(&conn, "SELECT ABS(-9223372036854775808)");
    match err {
        Some(Failure::QueryExec(m)) => assert!(!m.is_empty()),
        _ => panic!("expected a query-exec failure"),
    }
    assert_eq!(out, "ABS(-9223372036854775808)\n");
}
