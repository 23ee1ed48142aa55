//! The mathematical model of the CSV format: what the writer emits for a
//! header and rows, what the reader accepts, and the laws that tie the two
//! together (the quote/unquote round trip).
//!
//! A record is a non-empty sequence of fields; a field is a sequence of
//! characters. The writer quotes a field exactly when it contains a comma, a
//! quote, or a line break, doubling embedded quotes; every record ends with a
//! single newline. The reader accepts that output, and is lenient the way
//! conforming parsers are: a final record may lack its newline, and records
//! may end with `\r\n`.
use vstd::prelude::*;

verus! {

/// A character that ends an unquoted field: the delimiter or a line break.
pub open spec fn is_sep(c: char) -> bool {
    c == ',' || c == '\n' || c == '\r'
}

/// Whether the writer must quote the field.
pub open spec fn needs_quoting(f: Seq<char>) -> bool {
    f.contains(',') || f.contains('"') || f.contains('\n') || f.contains('\r')
}

/// The field's characters with every quote doubled.
pub open spec fn escaped(f: Seq<char>) -> Seq<char>
    decreases f.len(),
{
    if f.len() == 0 {
        Seq::empty()
    } else if f[0] == '"' {
        seq!['"', '"'] + escaped(f.drop_first())
    } else {
        seq![f[0]] + escaped(f.drop_first())
    }
}

/// What the writer emits for one field.
pub open spec fn encoded_field(f: Seq<char>) -> Seq<char> {
    if needs_quoting(f) {
        seq!['"'] + escaped(f) + seq!['"']
    } else {
        f
    }
}

/// What the writer emits for one record: the fields joined by commas,
/// terminated by a single newline.
pub open spec fn encoded_record(r: Seq<Seq<char>>) -> Seq<char>
    decreases r.len(),
{
    if r.len() == 0 {
        seq!['\n']
    } else if r.len() == 1 {
        encoded_field(r[0]) + seq!['\n']
    } else {
        encoded_field(r[0]) + seq![','] + encoded_record(r.drop_first())
    }
}

/// What the writer emits for a sequence of records.
pub open spec fn encoded_rows(rs: Seq<Seq<Seq<char>>>) -> Seq<char>
    decreases rs.len(),
{
    if rs.len() == 0 {
        Seq::empty()
    } else {
        encoded_record(rs[0]) + encoded_rows(rs.drop_first())
    }
}

/// The whole CSV output: the header record first, then every data record.
pub open spec fn encoded_output(header: Seq<Seq<char>>, rows: Seq<Seq<Seq<char>>>) -> Seq<char> {
    encoded_record(header) + encoded_rows(rows)
}

/// Reads the content of a quoted field, starting just after the opening
/// quote: `None` on an unterminated quote, otherwise the unescaped content
/// and the remaining input after the closing quote.
pub open spec fn scan_quoted(s: Seq<char>) -> Option<(Seq<char>, Seq<char>)>
    decreases s.len(),
{
    if s.len() == 0 {
        None
    } else if s[0] == '"' {
        if s.len() >= 2 && s[1] == '"' {
            match scan_quoted(s.skip(2)) {
                Some(p) => Some((seq!['"'] + p.0, p.1)),
                None => None,
            }
        } else {
            Some((Seq::empty(), s.skip(1)))
        }
    } else {
        match scan_quoted(s.skip(1)) {
            Some(p) => Some((seq![s[0]] + p.0, p.1)),
            None => None,
        }
    }
}

/// How many leading characters of `s` belong to an unquoted field.
pub open spec fn raw_len(s: Seq<char>) -> int
    decreases s.len(),
{
    if s.len() == 0 {
        0
    } else if is_sep(s[0]) {
        0
    } else {
        1 + raw_len(s.drop_first())
    }
}

/// Reads one field: a quoted one if the input opens with a quote, otherwise
/// everything up to the next separator. Returns the field's value and the
/// remaining input.
pub open spec fn parse_field(s: Seq<char>) -> Option<(Seq<char>, Seq<char>)> {
    if s.len() > 0 && s[0] == '"' {
        scan_quoted(s.skip(1))
    } else {
        Some((s.take(raw_len(s)), s.skip(raw_len(s))))
    }
}

/// Reads one record: comma-separated fields up to a newline, a `\r\n`, or the
/// end of input, consuming the terminator. `None` on an unterminated quote,
/// on a bare `\r`, or on a quoted field not followed by a separator.
pub open spec fn parse_record(s: Seq<char>) -> Option<(Seq<Seq<char>>, Seq<char>)>
    decreases s.len(),
    via parse_record_decreases
{
    match parse_field(s) {
        None => None,
        Some((f, rest)) => {
            if rest.len() == 0 {
                Some((seq![f], rest))
            } else if rest[0] == ',' {
                match parse_record(rest.skip(1)) {
                    Some((r, rest2)) => Some((seq![f] + r, rest2)),
                    None => None,
                }
            } else if rest[0] == '\n' {
                Some((seq![f], rest.skip(1)))
            } else if rest[0] == '\r' && rest.len() >= 2 && rest[1] == '\n' {
                Some((seq![f], rest.skip(2)))
            } else {
                None
            }
        },
    }
}

#[via_fn]
proof fn parse_record_decreases(s: Seq<char>) {
    lemma_parse_field_len(s);
}

/// Reads a whole input: records until the input is exhausted.
pub open spec fn parse_records(s: Seq<char>) -> Option<Seq<Seq<Seq<char>>>>
    decreases s.len(),
    via parse_records_decreases
{
    if s.len() == 0 {
        Some(Seq::empty())
    } else {
        match parse_record(s) {
            None => None,
            Some((r, rest)) => match parse_records(rest) {
                Some(rs) => Some(seq![r] + rs),
                None => None,
            },
        }
    }
}

#[via_fn]
proof fn parse_records_decreases(s: Seq<char>) {
    if s.len() > 0 {
        lemma_parse_record_len(s);
    }
}

/// A quoted-field scan never hands back more input than it was given.
pub proof fn lemma_scan_quoted_len(s: Seq<char>)
    ensures
        scan_quoted(s) matches Some(p) ==> p.1.len() < s.len(),
    decreases s.len(),
{
    if s.len() == 0 {
    } else if s[0] == '"' {
        if s.len() >= 2 && s[1] == '"' {
            lemma_scan_quoted_len(s.skip(2));
        }
    } else {
        lemma_scan_quoted_len(s.skip(1));
    }
}

/// An unquoted field is a prefix of the input.
pub proof fn lemma_raw_len_bounds(s: Seq<char>)
    ensures
        0 <= raw_len(s) <= s.len(),
    decreases s.len(),
{
    if s.len() > 0 && !is_sep(s[0]) {
        lemma_raw_len_bounds(s.drop_first());
    }
}

/// A field parse never hands back more input than it was given, and consumes
/// at least the opening quote of a quoted field.
pub proof fn lemma_parse_field_len(s: Seq<char>)
    ensures
        parse_field(s) matches Some(p) ==> p.1.len() <= s.len() && ((s.len() > 0 && s[0]
            == '"') ==> p.1.len() < s.len()),
{
    if s.len() > 0 && s[0] == '"' {
        lemma_scan_quoted_len(s.skip(1));
    } else {
        lemma_raw_len_bounds(s);
    }
}

/// A record parse consumes at least one character of a non-empty input.
pub proof fn lemma_parse_record_len(s: Seq<char>)
    ensures
        parse_record(s) matches Some(p) ==> p.1.len() <= s.len() && (s.len() > 0 ==> p.1.len()
            < s.len()),
    decreases s.len(),
{
    lemma_parse_field_len(s);
    match parse_field(s) {
        None => {},
        Some((f, rest)) => {
            if rest.len() > 0 && rest[0] == ',' {
                lemma_parse_record_len(rest.skip(1));
            }
        },
    }
}

/// What the writer emits for one character of a quoted field's content.
pub open spec fn escaped_char(c: char) -> Seq<char> {
    if c == '"' {
        seq!['"', '"']
    } else {
        seq![c]
    }
}

/// Escaping works character by character: extending a field extends its
/// escaped form.
pub proof fn lemma_escaped_push(f: Seq<char>, c: char)
    ensures
        escaped(f.push(c)) == escaped(f) + escaped_char(c),
    decreases f.len(),
{
    if f.len() == 0 {
        reveal_with_fuel(escaped, 2);
        assert(f.push(c).drop_first() =~= Seq::<char>::empty());
        assert(escaped(f.push(c)) =~= escaped_char(c));
        assert(escaped(f) + escaped_char(c) =~= escaped_char(c));
    } else {
        assert(f.push(c).drop_first() =~= f.drop_first().push(c));
        lemma_escaped_push(f.drop_first(), c);
        if f[0] == '"' {
            assert(escaped(f.push(c)) =~= escaped(f) + escaped_char(c));
        } else {
            assert(escaped(f.push(c)) =~= escaped(f) + escaped_char(c));
        }
    }
}

/// Every record's encoding is non-empty (it ends with a newline).
pub proof fn lemma_encoded_record_len(r: Seq<Seq<char>>)
    ensures
        encoded_record(r).len() >= 1,
    decreases r.len(),
{
    if r.len() > 1 {
        lemma_encoded_record_len(r.drop_first());
    }
}

/// Reading a quoted field back from its escaped form recovers the field
/// exactly, provided what follows the closing quote is a separator or the end
/// of input — which is all the writer ever puts there.
pub proof fn lemma_scan_quoted_round(f: Seq<char>, rest: Seq<char>)
    requires
        rest.len() == 0 || rest[0] == ',' || rest[0] == '\n',
    ensures
        scan_quoted(escaped(f) + seq!['"'] + rest) == Some((f, rest)),
    decreases f.len(),
{
    let s = escaped(f) + seq!['"'] + rest;
    if f.len() == 0 {
        assert(s =~= seq!['"'] + rest);
        assert(s[0] == '"');
        assert(s.len() >= 2 ==> s[1] == rest[0]);
        assert(s.skip(1) =~= rest);
        assert(f =~= Seq::<char>::empty());
    } else if f[0] == '"' {
        lemma_scan_quoted_round(f.drop_first(), rest);
        assert(s[0] == '"' && s.len() >= 2 && s[1] == '"');
        assert(s.skip(2) =~= escaped(f.drop_first()) + seq!['"'] + rest);
        assert(seq!['"'] + f.drop_first() =~= f);
    } else {
        lemma_scan_quoted_round(f.drop_first(), rest);
        assert(s[0] == f[0]);
        assert(s.skip(1) =~= escaped(f.drop_first()) + seq!['"'] + rest);
        assert(seq![f[0]] + f.drop_first() =~= f);
    }
}

/// An unquoted field runs exactly up to what follows it, provided the field
/// itself contains no separator — which is why the writer quotes those.
pub proof fn lemma_raw_round(f: Seq<char>, rest: Seq<char>)
    requires
        !needs_quoting(f),
        rest.len() == 0 || is_sep(rest[0]),
    ensures
        raw_len(f + rest) == f.len(),
    decreases f.len(),
{
    if f.len() == 0 {
        assert(f + rest =~= rest);
    } else {
        assert(f.contains(f[0])) by {
            assert(f[0] == f[0]);
        }
        assert(!is_sep(f[0]));
        assert((f + rest)[0] == f[0]);
        assert(!needs_quoting(f.drop_first())) by {
            if f.drop_first().contains(',') {
                let i = choose|i: int| 0 <= i < f.drop_first().len() && f.drop_first()[i] == ',';
                assert(f[i + 1] == ',');
            }
            if f.drop_first().contains('"') {
                let i = choose|i: int| 0 <= i < f.drop_first().len() && f.drop_first()[i] == '"';
                assert(f[i + 1] == '"');
            }
            if f.drop_first().contains('\n') {
                let i = choose|i: int| 0 <= i < f.drop_first().len() && f.drop_first()[i] == '\n';
                assert(f[i + 1] == '\n');
            }
            if f.drop_first().contains('\r') {
                let i = choose|i: int| 0 <= i < f.drop_first().len() && f.drop_first()[i] == '\r';
                assert(f[i + 1] == '\r');
            }
        }
        lemma_raw_round(f.drop_first(), rest);
        assert((f + rest).drop_first() =~= f.drop_first() + rest);
    }
}

/// The quote/unquote round trip for one field: reading back what the writer
/// emitted recovers the original field exactly, commas, quotes and newlines
/// included.
pub proof fn lemma_field_round_trip(f: Seq<char>, rest: Seq<char>)
    requires
        rest.len() == 0 || rest[0] == ',' || rest[0] == '\n',
    ensures
        parse_field(encoded_field(f) + rest) == Some((f, rest)),
{
    let s = encoded_field(f) + rest;
    if needs_quoting(f) {
        assert(s[0] == '"');
        assert(s.skip(1) =~= escaped(f) + seq!['"'] + rest);
        lemma_scan_quoted_round(f, rest);
    } else {
        if f.len() > 0 {
            assert(f.contains(f[0])) by {
                assert(f[0] == f[0]);
            }
            assert(f[0] != '"');
        }
        assert(s =~= f + rest);
        lemma_raw_round(f, rest);
        assert(s.take(f.len() as int) =~= f);
        assert(s.skip(f.len() as int) =~= rest);
    }
}

/// The round trip for one record: parsing what the writer emitted recovers
/// the record and leaves exactly what followed it.
pub proof fn lemma_record_round_trip(r: Seq<Seq<char>>, rest: Seq<char>)
    requires
        r.len() >= 1,
    ensures
        parse_record(encoded_record(r) + rest) == Some((r, rest)),
    decreases r.len(),
{
    let s = encoded_record(r) + rest;
    if r.len() == 1 {
        let tail = seq!['\n'] + rest;
        assert(s =~= encoded_field(r[0]) + tail);
        lemma_field_round_trip(r[0], tail);
        assert(tail.skip(1) =~= rest);
        assert(seq![r[0]] =~= r);
    } else {
        let tail = seq![','] + (encoded_record(r.drop_first()) + rest);
        assert(s =~= encoded_field(r[0]) + tail);
        lemma_field_round_trip(r[0], tail);
        assert(tail.skip(1) =~= encoded_record(r.drop_first()) + rest);
        lemma_record_round_trip(r.drop_first(), rest);
        assert(seq![r[0]] + r.drop_first() =~= r);
    }
}

/// The round trip for a whole output: parsing what the writer emitted for a
/// sequence of records recovers exactly that sequence.
pub proof fn lemma_rows_round_trip(rs: Seq<Seq<Seq<char>>>)
    requires
        forall|i: int| 0 <= i < rs.len() ==> rs[i].len() >= 1,
    ensures
        parse_records(encoded_rows(rs)) == Some(rs),
    decreases rs.len(),
{
    if rs.len() == 0 {
        assert(encoded_rows(rs).len() == 0);
        assert(parse_records(encoded_rows(rs)) == Some(Seq::<Seq<Seq<char>>>::empty()));
        assert(rs =~= Seq::<Seq<Seq<char>>>::empty());
    } else {
        let s = encoded_rows(rs);
        lemma_encoded_record_len(rs[0]);
        assert(s.len() > 0);
        lemma_record_round_trip(rs[0], encoded_rows(rs.drop_first()));
        assert(forall|i: int|
            0 <= i < rs.drop_first().len() ==> #[trigger] rs.drop_first()[i].len() >= 1) by {
            assert(forall|i: int|
                0 <= i < rs.drop_first().len() ==> rs.drop_first()[i] == rs[i + 1]);
        }
        lemma_rows_round_trip(rs.drop_first());
        assert(seq![rs[0]] + rs.drop_first() =~= rs);
    }
}

/// The round trip for a full query output: a header and data rows written as
/// CSV parse back to exactly that header followed by those rows.
pub proof fn lemma_output_round_trip(header: Seq<Seq<char>>, rows: Seq<Seq<Seq<char>>>)
    requires
        header.len() >= 1,
        forall|i: int| 0 <= i < rows.len() ==> rows[i].len() >= 1,
    ensures
        parse_records(encoded_output(header, rows)) == Some(seq![header] + rows),
{
    let all = seq![header] + rows;
    assert(forall|i: int| 0 <= i < all.len() ==> #[trigger] all[i].len() >= 1) by {
        assert(all[0] == header);
        assert(forall|i: int| 1 <= i < all.len() ==> all[i] == rows[i - 1]);
    }
    lemma_rows_round_trip(all);
    assert(all[0] == header);
    assert(all.drop_first() =~= rows);
    assert(encoded_rows(all) =~= encoded_output(header, rows));
}

/// Column-name fidelity: whatever the rows are, the output begins with
/// exactly the engine-reported column names encoded as the header record, and
/// everything after that prefix is the data records.
pub proof fn lemma_header_fidelity(cols: Seq<Seq<char>>, rows: Seq<Seq<Seq<char>>>)
    ensures
        encoded_output(cols, rows).take(encoded_record(cols).len() as int) == encoded_record(cols),
        encoded_output(cols, rows).skip(encoded_record(cols).len() as int) == encoded_rows(rows),
{
    let n = encoded_record(cols).len() as int;
    assert(encoded_output(cols, rows).take(n) =~= encoded_record(cols));
    assert(encoded_output(cols, rows).skip(n) =~= encoded_rows(rows));
}

/// The empty-result invariant: a query matching zero rows still emits exactly
/// the header record — one newline-terminated line — and no data records.
pub proof fn lemma_empty_result(cols: Seq<Seq<char>>)
    ensures
        encoded_output(cols, Seq::empty()) == encoded_record(cols),
        encoded_output(cols, Seq::empty()).len() >= 1,
        encoded_output(cols, Seq::empty()).last() == '\n',
{
    assert(encoded_output(cols, Seq::empty()) =~= encoded_record(cols));
    lemma_encoded_record_last(cols);
}

/// Every record's encoding ends with exactly one terminating newline.
pub proof fn lemma_encoded_record_last(r: Seq<Seq<char>>)
    ensures
        encoded_record(r).len() >= 1,
        encoded_record(r).last() == '\n',
    decreases r.len(),
{
    if r.len() > 1 {
        lemma_encoded_record_last(r.drop_first());
    }
}

/// How many times `c` occurs in `s`.
pub open spec fn count_char(s: Seq<char>, c: char) -> nat
    decreases s.len(),
{
    if s.len() == 0 {
        0
    } else {
        (if s[0] == c {
            1nat
        } else {
            0nat
        }) + count_char(s.drop_first(), c)
    }
}

/// Occurrence counts add up over concatenation.
pub proof fn lemma_count_char_concat(a: Seq<char>, b: Seq<char>, c: char)
    ensures
        count_char(a + b, c) == count_char(a, c) + count_char(b, c),
    decreases a.len(),
{
    if a.len() == 0 {
        assert(a + b =~= b);
    } else {
        assert((a + b)[0] == a[0]);
        assert((a + b).drop_first() =~= a.drop_first() + b);
        lemma_count_char_concat(a.drop_first(), b, c);
    }
}

/// A character occurs zero times exactly when the sequence does not contain
/// it.
pub proof fn lemma_count_char_zero(s: Seq<char>, c: char)
    ensures
        (count_char(s, c) == 0) <==> !s.contains(c),
    decreases s.len(),
{
    if s.len() > 0 {
        lemma_count_char_zero(s.drop_first(), c);
        if s.contains(c) {
            let i = choose|i: int| 0 <= i < s.len() && s[i] == c;
            if i > 0 {
                assert(s.drop_first()[i - 1] == c);
            }
        }
        if s.drop_first().contains(c) {
            let i = choose|i: int| 0 <= i < s.drop_first().len() && s.drop_first()[i] == c;
            assert(s[i + 1] == c);
        }
    }
}

/// Escaping duplicates only quotes: any other character occurs in the escaped
/// form exactly as often as in the field.
pub proof fn lemma_escaped_count(f: Seq<char>, c: char)
    requires
        c != '"',
    ensures
        count_char(escaped(f), c) == count_char(f, c),
    decreases f.len(),
{
    if f.len() > 0 {
        lemma_escaped_count(f.drop_first(), c);
        if f[0] == '"' {
            reveal_with_fuel(count_char, 3);
            lemma_count_char_concat(seq!['"', '"'], escaped(f.drop_first()), c);
            assert(seq!['"', '"'].drop_first() =~= seq!['"']);
            assert(seq!['"'].drop_first() =~= Seq::<char>::empty());
        } else {
            reveal_with_fuel(count_char, 2);
            lemma_count_char_concat(seq![f[0]], escaped(f.drop_first()), c);
            assert(seq![f[0]].drop_first() =~= Seq::<char>::empty());
        }
    }
}

/// An encoded field holds exactly one newline fewer than none: no newline at
/// all, when the field has none.
pub proof fn lemma_encoded_field_no_newline(f: Seq<char>)
    requires
        !f.contains('\n'),
    ensures
        count_char(encoded_field(f), '\n') == 0,
{
    lemma_count_char_zero(f, '\n');
    if needs_quoting(f) {
        lemma_escaped_count(f, '\n');
        reveal_with_fuel(count_char, 2);
        lemma_count_char_concat(seq!['"'] + escaped(f), seq!['"'], '\n');
        lemma_count_char_concat(seq!['"'], escaped(f), '\n');
        assert(seq!['"'].drop_first() =~= Seq::<char>::empty());
        assert(encoded_field(f) =~= (seq!['"'] + escaped(f)) + seq!['"']);
    }
}

/// A record of newline-free fields encodes to exactly one line: its single
/// newline is the terminator.
pub proof fn lemma_encoded_record_single_line(r: Seq<Seq<char>>)
    requires
        forall|i: int| 0 <= i < r.len() ==> !(#[trigger] r[i]).contains('\n'),
    ensures
        count_char(encoded_record(r), '\n') == 1,
    decreases r.len(),
{
    reveal_with_fuel(count_char, 2);
    assert(seq!['\n'].drop_first() =~= Seq::<char>::empty());
    if r.len() == 0 {
    } else if r.len() == 1 {
        lemma_encoded_field_no_newline(r[0]);
        lemma_count_char_concat(encoded_field(r[0]), seq!['\n'], '\n');
    } else {
        lemma_encoded_field_no_newline(r[0]);
        assert(forall|i: int|
            0 <= i < r.drop_first().len() ==> !(#[trigger] r.drop_first()[i]).contains('\n'))
            by {
            assert(forall|i: int|
                0 <= i < r.drop_first().len() ==> r.drop_first()[i] == r[i + 1]);
        }
        lemma_encoded_record_single_line(r.drop_first());
        assert(seq![','].drop_first() =~= Seq::<char>::empty());
        lemma_count_char_concat(encoded_field(r[0]) + seq![','], encoded_record(r.drop_first()),
            '\n');
        lemma_count_char_concat(encoded_field(r[0]), seq![','], '\n');
        assert(encoded_record(r) =~= (encoded_field(r[0]) + seq![',']) + encoded_record(
            r.drop_first()));
    }
}

/// The empty-result invariant, line-counted: when no column name contains a
/// newline, a query matching zero rows emits exactly one line.
pub proof fn lemma_empty_result_single_line(cols: Seq<Seq<char>>)
    requires
        forall|i: int| 0 <= i < cols.len() ==> !(#[trigger] cols[i]).contains('\n'),
    ensures
        count_char(encoded_output(cols, Seq::empty()), '\n') == 1,
{
    lemma_empty_result(cols);
    lemma_encoded_record_single_line(cols);
}

/// Reading is a function of the input alone: the reader applied twice to the
/// same immutable input produces identical header and row sequences.
pub proof fn lemma_reader_deterministic(a: Seq<char>, b: Seq<char>)
    requires
        a == b,
    ensures
        parse_records(a) == parse_records(b),
{
}

/// Appending one record to a sequence appends its encoding to the output.
pub proof fn lemma_encoded_rows_snoc(rs: Seq<Seq<Seq<char>>>, r: Seq<Seq<char>>)
    ensures
        encoded_rows(rs.push(r)) == encoded_rows(rs) + encoded_record(r),
    decreases rs.len(),
{
    if rs.len() == 0 {
        reveal_with_fuel(encoded_rows, 2);
        assert(rs.push(r).drop_first() =~= Seq::<Seq<Seq<char>>>::empty());
        assert(rs.push(r)[0] == r);
        assert(encoded_rows(rs.push(r)) =~= encoded_rows(rs) + encoded_record(r));
    } else {
        assert(rs.push(r).drop_first() =~= rs.drop_first().push(r));
        assert(rs.push(r)[0] == rs[0]);
        lemma_encoded_rows_snoc(rs.drop_first(), r);
        assert(encoded_rows(rs.push(r)) == encoded_record(rs[0]) + encoded_rows(
            rs.drop_first().push(r),
        ));
        assert(encoded_rows(rs) == encoded_record(rs[0]) + encoded_rows(rs.drop_first()));
        assert(encoded_record(rs[0]) + (encoded_rows(rs.drop_first()) + encoded_record(r)) =~= (
        encoded_record(rs[0]) + encoded_rows(rs.drop_first())) + encoded_record(r));
    }
}

} // verus!
