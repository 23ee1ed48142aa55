//! Parsing of one `-t/--table TABLE:FILE` option value: it must split into
//! exactly two non-empty parts on the first colon.
use vstd::prelude::*;
use vstd::string::{StrSliceExecFns, StringExecFns};

use crate::errors::Failure;

verus! {

/// A parsed `-t` option value: a table name and the CSV file that fills it.
pub struct TableSpec {
    pub name: String,
    pub path: String,
}

/// The index of the first colon in `s`, if any.
pub open spec fn first_colon(s: Seq<char>) -> Option<int>
    decreases s.len(),
{
    if s.len() == 0 {
        None
    } else if s[0] == ':' {
        Some(0)
    } else {
        match first_colon(s.drop_first()) {
            Some(i) => Some(i + 1),
            None => None,
        }
    }
}

/// `first_colon` names the first colon: the character there is a colon and no
/// earlier one is; `None` means there is no colon at all.
pub proof fn lemma_first_colon(s: Seq<char>)
    ensures
        first_colon(s) matches Some(i) ==> 0 <= i < s.len() && s[i] == ':' && (forall|j: int|
            0 <= j < i ==> s[j] != ':'),
        first_colon(s) is None ==> forall|j: int| 0 <= j < s.len() ==> s[j] != ':',
    decreases s.len(),
{
    if s.len() > 0 && s[0] != ':' {
        lemma_first_colon(s.drop_first());
        assert(forall|j: int| 1 <= j < s.len() ==> s[j] == s.drop_first()[j - 1]);
    }
}

/// Whether a `-t` option value is well-formed: a first colon exists with a
/// non-empty table name before it and a non-empty file path after it.
pub open spec fn valid_table_spec(s: Seq<char>) -> bool {
    match first_colon(s) {
        Some(i) => 0 < i && i + 1 < s.len(),
        None => false,
    }
}

/// Splits one `TABLE:FILE` option value on its first colon. Accepts exactly
/// the well-formed values: anything else (no colon, empty name, empty path)
/// is a usage failure, reported before any table is created.
pub fn parse_table_spec(s: &str) -> (r: Result<TableSpec, Failure>)
    ensures
        r is Ok <==> valid_table_spec(s@),
        r matches Ok(ts) ==> first_colon(s@) matches Some(i) && ts.name@ == s@.take(i)
            && ts.path@ == s@.skip(i + 1),
        r matches Err(e) ==> e is Usage,
{
    proof {
        lemma_first_colon(s@);
    }
    let n = s.unicode_len();
    let mut i: usize = 0;
    let mut found = false;
    while i < n && !found
        invariant
            i <= n,
            n == s@.len(),
            !found ==> forall|j: int| 0 <= j < i ==> s@[j] != ':',
            found ==> i < n && s@[i as int] == ':' && (forall|j: int| 0 <= j < i ==> s@[j] != ':'),
        decreases n - i, if found { 0int } else { 1int },
    {
        if s.get_char(i) == ':' {
            found = true;
        } else {
            i = i + 1;
        }
    }
    if !found {
        proof {
            match first_colon(s@) {
                Some(k) => {
                    assert(s@[k] != ':');
                },
                None => {},
            }
        }
        let mut m = String::from_str("invalid table definition: ");
        m.append(s);
        return Err(Failure::Usage(m));
    }
    proof {
        match first_colon(s@) {
            Some(k) => {
                if k < i {
                    assert(s@[k] != ':');
                }
                if k > i {
                    assert(s@[i as int] != ':');
                }
                assert(k == i);
            },
            None => {
                assert(s@[i as int] != ':');
            },
        }
    }
    if i == 0 || i + 1 == n {
        let mut m = String::from_str("invalid table definition: ");
        m.append(s);
        return Err(Failure::Usage(m));
    }
    let name = s.substring_char(0, i).to_owned();
    let path = s.substring_char(i + 1, n).to_owned();
    proof {
        assert(name@ =~= s@.take(i as int));
        assert(path@ =~= s@.skip(i + 1));
    }
    Ok(TableSpec { name, path })
}

} // verus!
