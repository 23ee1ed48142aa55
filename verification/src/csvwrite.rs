//! The CSV writer adapter: serializes a header and result rows to text,
//! quoting a field only when it contains the delimiter, a quote, or a line
//! break, and doubling embedded quotes.
use vstd::prelude::*;
use vstd::string::*;

use crate::csvmodel::{
    encoded_field, encoded_output, encoded_record, encoded_rows, escaped, is_sep,
    lemma_encoded_rows_snoc, lemma_escaped_push, needs_quoting,
};
use crate::text::chars_to_string;

verus! {

/// Whether the writer must quote `f` before emitting it.
pub fn field_needs_quoting(f: &str) -> (b: bool)
    ensures
        b == needs_quoting(f@),
{
    let n = f.unicode_len();
    let mut i: usize = 0;
    while i < n
        invariant
            i <= n,
            n == f@.len(),
            forall|j: int| 0 <= j < i ==> !is_sep(f@[j]) && f@[j] != '"',
        decreases n - i,
    {
        let c = f.get_char(i);
        if c == ',' || c == '"' || c == '\n' || c == '\r' {
            assert(needs_quoting(f@)) by {
                assert(f@[i as int] == c);
            }
            return true;
        }
        i = i + 1;
    }
    assert(!needs_quoting(f@)) by {
        if f@.contains(',') {
            let j = choose|j: int| 0 <= j < f@.len() && f@[j] == ',';
            assert(is_sep(f@[j]));
        }
        if f@.contains('"') {
            let j = choose|j: int| 0 <= j < f@.len() && f@[j] == '"';
        }
        if f@.contains('\n') {
            let j = choose|j: int| 0 <= j < f@.len() && f@[j] == '\n';
            assert(is_sep(f@[j]));
        }
        if f@.contains('\r') {
            let j = choose|j: int| 0 <= j < f@.len() && f@[j] == '\r';
            assert(is_sep(f@[j]));
        }
    }
    false
}

/// Appends the encoding of one field to the output.
pub fn push_field(out: &mut Vec<char>, f: &str)
    ensures
        final(out)@ == old(out)@ + encoded_field(f@),
{
    let n = f.unicode_len();
    if field_needs_quoting(f) {
        out.push('"');
        let mut i: usize = 0;
        while i < n
            invariant
                i <= n,
                n == f@.len(),
                out@ == old(out)@ + seq!['"'] + escaped(f@.take(i as int)),
            decreases n - i,
        {
            let c = f.get_char(i);
            if c == '"' {
                out.push('"');
                out.push('"');
            } else {
                out.push(c);
            }
            proof {
                lemma_escaped_push(f@.take(i as int), c);
                assert(f@.take(i + 1) =~= f@.take(i as int).push(c));
                assert(out@ =~= old(out)@ + seq!['"'] + escaped(f@.take(i + 1)));
            }
            i = i + 1;
        }
        out.push('"');
        proof {
            assert(f@.take(n as int) =~= f@);
            assert(out@ =~= old(out)@ + encoded_field(f@));
        }
    } else {
        let mut i: usize = 0;
        while i < n
            invariant
                i <= n,
                n == f@.len(),
                out@ == old(out)@ + f@.take(i as int),
            decreases n - i,
        {
            out.push(f.get_char(i));
            i = i + 1;
            proof {
                assert(out@ =~= old(out)@ + f@.take(i as int));
            }
        }
        proof {
            assert(f@.take(n as int) =~= f@);
        }
    }
}

/// Appends the encoding of one record: the fields joined by commas, then a
/// newline.
pub fn push_record(out: &mut Vec<char>, r: &Vec<String>)
    ensures
        final(out)@ == old(out)@ + encoded_record(r.deep_view()),
{
    let ghost v = r.deep_view();
    if r.len() == 0 {
        out.push('\n');
        proof {
            assert(out@ =~= old(out)@ + encoded_record(v));
        }
        return ;
    }
    let mut i: usize = 0;
    proof {
        assert(v.skip(0) =~= v);
    }
    while i < r.len() - 1
        invariant
            i < r@.len(),
            v == r.deep_view(),
            v.len() == r@.len(),
            old(out)@ + encoded_record(v) == out@ + encoded_record(v.skip(i as int)),
        decreases r@.len() - i,
    {
        proof {
            assert(v.skip(i as int).len() > 1);
            assert(v.skip(i as int)[0] == v[i as int]);
            assert(v.skip(i as int).drop_first() =~= v.skip(i + 1));
            assert(r@[i as int].deep_view() == v[i as int]);
        }
        let ghost out0 = out@;
        push_field(out, r[i].as_str());
        out.push(',');
        proof {
            assert(out@ =~= out0 + (encoded_field(v[i as int]) + seq![',']));
            assert(encoded_record(v.skip(i as int)) =~= (encoded_field(v[i as int]) + seq![','])
                + encoded_record(v.skip(i + 1)));
            assert(old(out)@ + encoded_record(v) =~= out@ + encoded_record(v.skip(i + 1)));
        }
        i = i + 1;
    }
    proof {
        assert(v.skip(i as int).len() == 1);
        assert(v.skip(i as int)[0] == v[i as int]);
        assert(r@[i as int].deep_view() == v[i as int]);
    }
    let ghost out1 = out@;
    push_field(out, r[i].as_str());
    out.push('\n');
    proof {
        assert(encoded_record(v.skip(i as int)) == encoded_field(v[i as int]) + seq!['\n']);
        assert(out@ =~= out1 + (encoded_field(v[i as int]) + seq!['\n']));
        assert(out@ =~= old(out)@ + encoded_record(v));
    }
}

/// The CSV writer adapter's whole output for a header and data rows: the
/// header record first, then every data record, each terminated by a single
/// newline and nothing after the last.
pub fn render_output(header: &Vec<String>, rows: &Vec<Vec<String>>) -> (out: String)
    ensures
        out@ == encoded_output(header.deep_view(), rows.deep_view()),
{
    let ghost rd = rows.deep_view();
    let mut buf: Vec<char> = Vec::new();
    push_record(&mut buf, header);
    let mut i: usize = 0;
    while i < rows.len()
        invariant
            i <= rows@.len(),
            rd == rows.deep_view(),
            rd.len() == rows@.len(),
            buf@ == encoded_record(header.deep_view()) + encoded_rows(rd.take(i as int)),
        decreases rows@.len() - i,
    {
        proof {
            assert(rows@[i as int].deep_view() == rd[i as int]);
        }
        push_record(&mut buf, &rows[i]);
        proof {
            lemma_encoded_rows_snoc(rd.take(i as int), rd[i as int]);
            assert(rd.take(i + 1) =~= rd.take(i as int).push(rd[i as int]));
        }
        i = i + 1;
    }
    proof {
        assert(rd.take(rows@.len() as int) =~= rd);
    }
    chars_to_string(&buf)
}

} // verus!
