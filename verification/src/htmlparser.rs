//! Flat entry points over the HTML listing-table ingestion: a one-call
//! lenient parse, and a bare reader for a raw time cell.

use vstd::prelude::*;

use crate::models::CourseDB;
use crate::parser::htmlparser::{html_table_rows, parse_rows, spec_parse_html};
use crate::parser::htmlparser::lemma_ingest_lenient_ok;
use crate::text::{dec_val, digits_of, digits_value};

verus! {

/// Parses an HTML listing table leniently: offending rows are dropped and
/// every input yields a database.
pub fn parse_html(input: &str) -> (db: CourseDB)
    ensures
        db@ == spec_parse_html(input@),
{
    proof {
        reveal_strlit("\n");
    }
    let stripped = crate::text::replace_all(input, "\n", "");
    let rows = html_table_rows(stripped.as_str());
    proof {
        lemma_ingest_lenient_ok(rows.deep_view());
    }
    match parse_rows(&rows, false) {
        Ok(p) => p.0,
        Err(_) => {
            proof {
                assert(false);
            }
            CourseDB { courses: Vec::new() }
        },
    }
}

/// Whether the text says `pm` anywhere.
pub open spec fn has_pm(s: Seq<char>) -> bool {
    exists|i: int| 0 <= i && i + 2 <= s.len() && #[trigger] s.subrange(i, i + 2) == "pm"@
}

/// Whether `s` holds the substring `pm`.
fn contains_pm(s: &str) -> (r: bool)
    ensures
        r == has_pm(s@),
{
    proof {
        reveal_strlit("pm");
    }
    let n = s.unicode_len();
    if n < 2 {
        return false;
    }
    let mut i: usize = 0;
    while i <= n - 2
        invariant
            0 <= i,
            n >= 2,
            i <= n - 1,
            n == s@.len(),
            "pm"@ == seq!['p', 'm'],
            forall|j: int| 0 <= j < i ==> #[trigger] s@.subrange(j, j + 2) != "pm"@,
        decreases n - i,
    {
        if s.get_char(i) == 'p' && s.get_char(i + 1) == 'm' {
            proof {
                assert(s@.subrange(i as int, i + 2) =~= "pm"@);
            }
            return true;
        }
        proof {
            assert(s@.subrange(i as int, i + 2)[0] == s@[i as int]);
            assert(s@.subrange(i as int, i + 2)[1] == s@[i + 1]);
            assert(s@.subrange(i as int, i + 2) != "pm"@);
        }
        i = i + 1;
    }
    proof {
        assert forall|j: int| 0 <= j && j + 2 <= s@.len() implies #[trigger] s@.subrange(j, j + 2)
            != "pm"@ by {
            assert(j < i);
        }
    }
    false
}

/// Reads a raw time cell the blunt way: the digit characters are read as
/// a number, shifted to the afternoon — 1200 added — when the text says
/// `pm` anywhere and the number is still a morning one, below 1200. The
/// caller owes a cell whose digits denote a number that fits a `u16`.
pub fn parse_time(s: &str) -> (r: u16)
    requires
        digits_of(s@).len() > 0,
        dec_val(digits_of(s@)) <= u16::MAX,
    ensures
        r == dec_val(digits_of(s@)) + (if has_pm(s@) && dec_val(digits_of(s@)) < 1200 {
            1200int
        } else {
            0int
        }),
{
    let pm = contains_pm(s);
    match digits_value(s) {
        Some(v) => {
            let raw = v as u16;
            if pm && raw < 1200 {
                raw + 1200
            } else {
                raw
            }
        },
        None => {
            proof {
                assert(false);
            }
            0
        },
    }
}

} // verus!
