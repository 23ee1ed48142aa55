use csvq::csvread::parse_csv;
use csvq::csvwrite::render_output;

fn strings(fields: &[&str]) -> Vec<String> {
    fields.iter().map(|s| s.to_string()).collect()
}

#[test]
fn writer_quotes_only_when_needed() {
    let header = strings(&["a", "b"]);
    let rows = vec![strings(&["x,y", "he said \"hi\""]), strings(&["line\nbreak", "plain"])];
    let out = render_output(&header, &rows);
    assert_eq!(out, "a,b\n\"x,y\",\"he said \"\"hi\"\"\"\n\"line\nbreak\",plain\n");
}

#[test]
fn writer_emits_header_alone_for_no_rows() {
    let out = render_output(&strings(&["a", "b"]), &Vec::new());
    assert_eq!(out, "a,b\n");
}

#[test]
fn reader_handles_quotes_and_crlf() {
    let recs = parse_csv("a,\"b,c\"\r\n\"he said \"\"hi\"\"\",d\n").unwrap_or_else(|_| panic!());
    assert_eq!(recs.len(), 2);
    assert_eq!(recs[0], strings(&["a", "b,c"]));
    assert_eq!(recs[1], strings(&["he said \"hi\"", "d"]));
}

#[test]
fn reader_accepts_a_missing_final_newline() {
    let recs = parse_csv("a,b\n1,2").unwrap_or_else(|_| panic!());
    assert_eq!(recs, vec![strings(&["a", "b"]), strings(&["1", "2"])]);
}

#[test]
fn reader_rejects_malformed_input() {
    assert!(parse_csv("\"unterminated").is_err());
    assert!(parse_csv("\"closed\"junk\n").is_err());
    assert!(parse_csv("bare\rreturn\n").is_err());
}

#[test]
fn reading_twice_gives_identical_records() {
    let input = "a,b\n\"x,y\",z\n";
    let first = parse_csv(input).unwrap_or_else(|_| panic!());
    let second = parse_csv(input).unwrap_or_else(|_| panic!());
    assert_eq!(first, second);
}

#[test]
fn escaping_round_trips_through_our_reader() {
    let header = strings(&["h"]);
    let tricky = strings(&["comma, quote \" and\nnewline and \r return"]);
    let out = render_output(&header, &vec![tricky.clone()]);
    let back = parse_csv(&out).unwrap_or_else(|_| panic!());
    assert_eq!(back, vec![header, tricky]);
}

#[test]
fn escaping_round_trips_through_a_conforming_reader() {
    let header = strings(&["h1", "h2"]);
    let row = strings(&["a,b", "say \"x\"\nplus \r end"]);
    let out = render_output(&header, &vec![row.clone()]);
    let mut rdr = csv::ReaderBuilder::new()
        .has_headers(false)
        .from_reader(out.as_bytes());
    let got: Vec<Vec<String>> = rdr
        .records()
        .map(|r| r.unwrap().iter().map(|f| f.to_string()).collect())
        .collect();
    assert_eq!(got, vec![header, row]);
}

#[test]
fn our_reader_accepts_a_conforming_writer() {
    let mut wtr = csv::WriterBuilder::new().from_writer(Vec::new());
    wtr.write_record(&["a", "b"]).unwrap();
    wtr.write_record(&["x,y", "q\"z"]).unwrap();
    let bytes = wtr.into_inner().unwrap();
    let text = String::from_utf8(bytes).unwrap();
    let recs = parse_csv(&text).unwrap_or_else(|_| panic!());
    assert_eq!(recs, vec![strings(&["a", "b"]), strings(&["x,y", "q\"z"])]);
}
