//! The CSV reader adapter: parses text into a sequence of records of string
//! fields, exactly as the model's parsing functions describe.
use vstd::prelude::*;
use vstd::string::StringExecFns;

use crate::csvmodel::{
    lemma_parse_record_len, parse_field, parse_record, parse_records, scan_quoted,
    raw_len, is_sep,
};
use crate::errors::Failure;
use crate::text::{chars_to_string, copy_range, str_to_chars};

verus! {

/// Prepends already-read content to the outcome of a quoted-field scan.
pub open spec fn scan_with_prefix(prefix: Seq<char>, o: Option<(Seq<char>, Seq<char>)>) -> Option<
    (Seq<char>, Seq<char>),
> {
    match o {
        Some(p) => Some((prefix + p.0, p.1)),
        None => None,
    }
}

/// Prepends already-read fields to the outcome of a record parse.
pub open spec fn record_with_prefix(
    prefix: Seq<Seq<char>>,
    o: Option<(Seq<Seq<char>>, Seq<char>)>,
) -> Option<(Seq<Seq<char>>, Seq<char>)> {
    match o {
        Some(p) => Some((prefix + p.0, p.1)),
        None => None,
    }
}

/// Prepends already-read records to the outcome of a whole-input parse.
pub open spec fn records_with_prefix(
    prefix: Seq<Seq<Seq<char>>>,
    o: Option<Seq<Seq<Seq<char>>>>,
) -> Option<Seq<Seq<Seq<char>>>> {
    match o {
        Some(rs) => Some(prefix + rs),
        None => None,
    }
}

/// Reads the content of a quoted field, starting just after the opening
/// quote; `None` on an unterminated quote, otherwise the content and the
/// index just after the closing quote.
fn scan_quoted_at(s: &Vec<char>, start: usize) -> (r: Option<(Vec<char>, usize)>)
    requires
        start <= s@.len(),
    ensures
        r matches Some(p) ==> start <= p.1 <= s@.len() && scan_quoted(s@.skip(start as int))
            == Some((p.0@, s@.skip(p.1 as int))),
        r is None ==> scan_quoted(s@.skip(start as int)) is None,
{
    let mut content: Vec<char> = Vec::new();
    let mut i: usize = start;
    proof {
        assert(content@ =~= Seq::<char>::empty());
    }
    while i < s.len()
        invariant
            start <= i <= s@.len(),
            scan_quoted(s@.skip(start as int)) == scan_with_prefix(
                content@,
                scan_quoted(s@.skip(i as int)),
            ),
        decreases s@.len() - i,
    {
        let c = s[i];
        proof {
            assert(s@.skip(i as int).len() == s@.len() - i);
            assert(s@.skip(i as int)[0] == s@[i as int]);
        }
        if c == '"' {
            if i + 1 < s.len() && s[i + 1] == '"' {
                proof {
                    assert(s@.skip(i as int)[1] == s@[i + 1]);
                    assert(s@.skip(i as int).skip(2) =~= s@.skip(i + 2));
                }
                let ghost content0 = content@;
                content.push('"');
                proof {
                    match scan_quoted(s@.skip(i + 2)) {
                        Some(p) => {
                            assert(content0 + (seq!['"'] + p.0) =~= content@ + p.0);
                        },
                        None => {},
                    }
                }
                i = i + 2;
            } else {
                proof {
                    assert(s@.skip(i as int).skip(1) =~= s@.skip(i + 1));
                    assert(scan_quoted(s@.skip(i as int)) == Some(
                        (Seq::<char>::empty(), s@.skip(i + 1)),
                    ));
                    assert(content@ + Seq::<char>::empty() =~= content@);
                }
                return Some((content, i + 1));
            }
        } else {
            proof {
                assert(s@.skip(i as int).skip(1) =~= s@.skip(i + 1));
            }
            let ghost content0 = content@;
            content.push(c);
            proof {
                match scan_quoted(s@.skip(i + 1)) {
                    Some(p) => {
                        assert(content0 + (seq![c] + p.0) =~= content@ + p.0);
                    },
                    None => {},
                }
            }
            i = i + 1;
        }
    }
    proof {
        assert(s@.skip(i as int).len() == 0);
    }
    None
}

/// The index just past the unquoted field that starts at `start`.
fn raw_end_at(s: &Vec<char>, start: usize) -> (end: usize)
    requires
        start <= s@.len(),
    ensures
        start <= end <= s@.len(),
        raw_len(s@.skip(start as int)) == end - start,
        s@.skip(start as int).take(end - start) == s@.subrange(start as int, end as int),
{
    let mut i: usize = start;
    while i < s.len() && !(s[i] == ',' || s[i] == '\n' || s[i] == '\r')
        invariant
            start <= i <= s@.len(),
            raw_len(s@.skip(start as int)) == (i - start) + raw_len(s@.skip(i as int)),
        decreases s@.len() - i,
    {
        proof {
            assert(s@.skip(i as int)[0] == s@[i as int]);
            assert(!is_sep(s@[i as int]));
            assert(s@.skip(i as int).drop_first() =~= s@.skip(i + 1));
        }
        i = i + 1;
    }
    proof {
        if i < s@.len() {
            assert(s@.skip(i as int)[0] == s@[i as int]);
            assert(raw_len(s@.skip(i as int)) == 0);
        } else {
            assert(s@.skip(i as int).len() == 0);
        }
        assert(s@.skip(start as int).take(i - start) =~= s@.subrange(start as int, i as int));
    }
    i
}

/// Reads one field beginning at `start`: the field's characters and the index
/// of what follows it.
fn parse_field_at(s: &Vec<char>, start: usize) -> (r: Option<(Vec<char>, usize)>)
    requires
        start <= s@.len(),
    ensures
        r matches Some(p) ==> start <= p.1 <= s@.len() && parse_field(s@.skip(start as int))
            == Some((p.0@, s@.skip(p.1 as int))),
        r is None ==> parse_field(s@.skip(start as int)) is None,
{
    if start < s.len() && s[start] == '"' {
        proof {
            assert(s@.skip(start as int)[0] == s@[start as int]);
            assert(s@.skip(start as int).skip(1) =~= s@.skip(start + 1));
        }
        scan_quoted_at(s, start + 1)
    } else {
        proof {
            if s@.skip(start as int).len() > 0 {
                assert(s@.skip(start as int)[0] == s@[start as int]);
            }
        }
        let end = raw_end_at(s, start);
        let f = copy_range(s, start, end);
        proof {
            assert(s@.skip(start as int).skip(end - start) =~= s@.skip(end as int));
        }
        Some((f, end))
    }
}

/// Reads one record beginning at `start`: its fields as strings and the index
/// of the record that follows it.
fn parse_record_at(s: &Vec<char>, start: usize) -> (r: Option<(Vec<String>, usize)>)
    requires
        start <= s@.len(),
    ensures
        r matches Some(p) ==> start <= p.1 <= s@.len() && parse_record(s@.skip(start as int))
            == Some((p.0.deep_view(), s@.skip(p.1 as int))),
        r is None ==> parse_record(s@.skip(start as int)) is None,
{
    let mut fields: Vec<String> = Vec::new();
    let mut i: usize = start;
    proof {
        assert(fields.deep_view() =~= Seq::<Seq<char>>::empty());
    }
    loop
        invariant
            start <= i <= s@.len(),
            parse_record(s@.skip(start as int)) == record_with_prefix(
                fields.deep_view(),
                parse_record(s@.skip(i as int)),
            ),
        decreases s@.len() - i,
    {
        let ghost fd0 = fields.deep_view();
        match parse_field_at(s, i) {
            None => {
                return None;
            },
            Some((f, j)) => {
                let fs = chars_to_string(&f);
                fields.push(fs);
                proof {
                    assert(fields.deep_view() =~= fd0.push(f@));
                }
                if j == s.len() {
                    proof {
                        assert(s@.skip(j as int).len() == 0);
                        assert(parse_record(s@.skip(i as int)) == Some(
                            (seq![f@], s@.skip(j as int)),
                        ));
                        assert(fd0 + seq![f@] =~= fields.deep_view());
                    }
                    return Some((fields, j));
                }
                let c = s[j];
                proof {
                    assert(s@.skip(j as int)[0] == s@[j as int]);
                }
                if c == ',' {
                    proof {
                        assert(s@.skip(j as int).skip(1) =~= s@.skip(j + 1));
                        match parse_record(s@.skip(j + 1)) {
                            Some(p) => {
                                assert(fd0 + (seq![f@] + p.0) =~= fields.deep_view() + p.0);
                            },
                            None => {},
                        }
                    }
                    i = j + 1;
                } else if c == '\n' {
                    proof {
                        assert(s@.skip(j as int).skip(1) =~= s@.skip(j + 1));
                        assert(parse_record(s@.skip(i as int)) == Some(
                            (seq![f@], s@.skip(j + 1)),
                        ));
                        assert(fd0 + seq![f@] =~= fields.deep_view());
                    }
                    return Some((fields, j + 1));
                } else if c == '\r' && j + 1 < s.len() && s[j + 1] == '\n' {
                    proof {
                        assert(s@.skip(j as int)[1] == s@[j + 1]);
                        assert(s@.skip(j as int).skip(2) =~= s@.skip(j + 2));
                        assert(parse_record(s@.skip(i as int)) == Some(
                            (seq![f@], s@.skip(j + 2)),
                        ));
                        assert(fd0 + seq![f@] =~= fields.deep_view());
                    }
                    return Some((fields, j + 2));
                } else {
                    proof {
                        if c == '\r' {
                            assert(s@.skip(j as int).len() >= 2 ==> s@.skip(j as int)[1] == s@[j
                                + 1]);
                        }
                    }
                    return None;
                }
            },
        }
    }
}

/// The CSV reader adapter: parses a whole input into its records. The result
/// is a function of the input text alone; malformed input (an unterminated
/// quote, a bare carriage return, text after a closing quote) is rejected.
pub fn parse_csv(text: &str) -> (r: Result<Vec<Vec<String>>, Failure>)
    ensures
        r matches Ok(recs) ==> parse_records(text@) == Some(recs.deep_view()),
        r is Err ==> parse_records(text@) is None,
        r matches Err(e) ==> e is CsvParse,
{
    let s = str_to_chars(text);
    let mut records: Vec<Vec<String>> = Vec::new();
    let mut i: usize = 0;
    proof {
        assert(records.deep_view() =~= Seq::<Seq<Seq<char>>>::empty());
        assert(s@.skip(0) =~= s@);
    }
    while i < s.len()
        invariant
            i <= s@.len(),
            s@ == text@,
            parse_records(text@) == records_with_prefix(
                records.deep_view(),
                parse_records(s@.skip(i as int)),
            ),
        decreases s@.len() - i,
    {
        let ghost rd0 = records.deep_view();
        proof {
            lemma_parse_record_len(s@.skip(i as int));
        }
        match parse_record_at(&s, i) {
            None => {
                return Err(
                    Failure::CsvParse(String::from_str("malformed CSV input")),
                );
            },
            Some((rec, end)) => {
                proof {
                    assert(s@.skip(end as int).len() < s@.skip(i as int).len());
                    match parse_records(s@.skip(end as int)) {
                        Some(rs) => {
                            assert(rd0 + (seq![rec.deep_view()] + rs) =~= rd0.push(rec.deep_view())
                                + rs);
                        },
                        None => {},
                    }
                }
                let ghost recd = rec.deep_view();
                records.push(rec);
                proof {
                    assert(records.deep_view() =~= rd0.push(recd));
                }
                i = end;
            },
        }
    }
    proof {
        assert(s@.skip(i as int).len() == 0);
        assert(parse_records(s@.skip(i as int)) == Some(Seq::<Seq<Seq<char>>>::empty()));
        assert(records.deep_view() + Seq::<Seq<Seq<char>>>::empty() =~= records.deep_view());
    }
    Ok(records)
}

} // verus!
