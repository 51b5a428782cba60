//! Keeping the catalogue database's schema current.
//!
//! The catalogue records the version of its schema in a metadata table.  When
//! the stored version differs from the current one, every table is dropped
//! (dependents first) and created anew; then the current version is stored.

use vstd::prelude::*;

use crate::text::{decimal, digit_char, push_decimal};

verus! {

/// Whether every character is an ASCII digit.
pub open spec fn all_digits(s: Seq<char>) -> bool {
    forall|i: int| 0 <= i < s.len() ==> '0' <= #[trigger] s[i] <= '9'
}

/// The number that a sequence of ASCII digits spells in decimal.
pub open spec fn digits_value(s: Seq<char>) -> nat
    decreases s.len(),
{
    if s.len() == 0 {
        0
    } else {
        digits_value(s.drop_last()) * 10 + (s.last() as nat - '0' as nat) as nat
    }
}

/// What parsing a `u32` from text gives: an optional `+` sign, then one or
/// more ASCII digits whose value fits in 32 bits; anything else is refused.
pub open spec fn parsed_u32(s: Seq<char>) -> Option<u32> {
    let body = if s.len() > 0 && s[0] == '+' {
        s.drop_first()
    } else {
        s
    };
    if body.len() > 0 && all_digits(body) && digits_value(body) <= u32::MAX {
        Some(digits_value(body) as u32)
    } else {
        None
    }
}

proof fn lemma_digits_value_grows(s: Seq<char>, k: int)
    requires
        0 <= k <= s.len(),
        all_digits(s),
    ensures
        digits_value(s.take(k)) <= digits_value(s),
    decreases s.len(),
{
    if k < s.len() {
        assert(s.drop_last().take(k) =~= s.take(k));
        assert(all_digits(s.drop_last()));
        lemma_digits_value_grows(s.drop_last(), k);
    } else {
        assert(s.take(k) =~= s);
    }
}

/// Parses a `u32` from text (see `parsed_u32`).
pub fn parse_u32(s: &str) -> (r: Option<u32>)
    ensures
        r == parsed_u32(s@),
{
    let n = s.unicode_len();
    let mut start: usize = 0;
    if n > 0 && s.get_char(0) == '+' {
        start = 1;
    }
    let ghost body = if start == 1 {
        s@.drop_first()
    } else {
        s@
    };
    proof {
        if start == 1 {
            assert(body =~= s@.subrange(1, n as int));
        } else {
            assert(body =~= s@.subrange(0, n as int));
        }
    }
    if start >= n {
        return None;
    }
    let mut value: u64 = 0;
    let mut i: usize = start;
    while i < n
        invariant
            start <= i <= n,
            n == s@.len(),
            start == 0 || start == 1,
            body == s@.subrange(start as int, n as int),
            body == (if s@.len() > 0 && s@[0] == '+' {
                s@.drop_first()
            } else {
                s@
            }),
            all_digits(body.take(i - start)),
            value as nat == digits_value(body.take(i - start)),
            value <= u32::MAX,
        decreases n - i,
    {
        let c = s.get_char(i);
        if c < '0' || c > '9' {
            proof {
                assert(body[i - start] == c);
                assert(!all_digits(body));
            }
            return None;
        }
        let d = (c as u32 - '0' as u32) as u64;
        let next = value * 10 + d;
        proof {
            let t = body.take(i - start + 1);
            assert(t.drop_last() =~= body.take(i - start));
            assert(t.last() == c);
            assert(all_digits(t));
        }
        if next > 4294967295 {
            proof {
                if all_digits(body) {
                    lemma_digits_value_grows(body, i - start + 1);
                }
            }
            return None;
        }
        value = next;
        i = i + 1;
    }
    proof {
        assert(body.take(n - start) =~= body);
        if start == 1 {
            assert(body =~= s@.drop_first());
        } else {
            assert(body =~= s@);
        }
    }
    Some(value as u32)
}

/// The schema version stored in the metadata table: the stored text read
/// as a number, or 0 when there is none or it is no number.
pub fn stored_version(value: Option<&str>) -> (v: u32)
    ensures
        v == match value {
            Some(t) => match parsed_u32(t@) {
                Some(x) => x,
                None => 0,
            },
            None => 0,
        },
{
    match value {
        Some(t) => match parse_u32(t) {
            Some(x) => x,
            None => 0,
        },
        None => 0,
    }
}

/// The tables of the catalogue, dependents first: the order in which they
/// are dropped.
pub open spec fn table_names() -> Seq<Seq<char>> {
    seq![
        "collection_clip"@,
        "clip"@,
        "collection"@,
        "preset"@,
        "file_attachment"@,
        "file_metadata"@,
        "file"@,
    ]
}

/// The statement that drops a table if it exists.
pub open spec fn drop_statement(table: Seq<char>) -> Seq<char> {
    "DROP TABLE IF EXISTS \""@ + table + "\""@
}

/// The statements that bring the tables to the current schema before they
/// are created: every table dropped when the stored version differs from the
/// current one, none otherwise.
pub open spec fn reset_plan(stored: u32, current: u32) -> Seq<Seq<char>> {
    if stored == current {
        Seq::empty()
    } else {
        table_names().map_values(|t: Seq<char>| drop_statement(t))
    }
}

fn drop_of(table: &str) -> (s: String)
    ensures
        s@ == drop_statement(table@),
{
    let mut s = String::from_str("DROP TABLE IF EXISTS \"");
    s.append(table);
    s.append("\"");
    s
}

/// The drop statements to run (see `reset_plan`).
pub fn reset_statements(stored: u32, current: u32) -> (out: Vec<String>)
    ensures
        out@.map_values(|s: String| s@) == reset_plan(stored, current),
{
    let mut out: Vec<String> = Vec::new();
    if stored == current {
        proof {
            assert(out@.map_values(|s: String| s@) =~= reset_plan(stored, current));
        }
        return out;
    }
    out.push(drop_of("collection_clip"));
    out.push(drop_of("clip"));
    out.push(drop_of("collection"));
    out.push(drop_of("preset"));
    out.push(drop_of("file_attachment"));
    out.push(drop_of("file_metadata"));
    out.push(drop_of("file"));
    proof {
        assert(out@.map_values(|s: String| s@) =~= reset_plan(stored, current));
    }
    out
}

/// The statement that records `version` as the stored schema version.
pub open spec fn version_statement_text(version: nat) -> Seq<char> {
    "INSERT OR REPLACE INTO _musicum_meta VALUES ('schema_version', '"@ + decimal(version)
        + "')"@
}

/// The statement that records the schema version (see
/// `version_statement_text`).
pub fn version_statement(version: u32) -> (s: String)
    ensures
        s@ == version_statement_text(version as nat),
{
    let mut s = String::from_str("INSERT OR REPLACE INTO _musicum_meta VALUES ('schema_version', '");
    push_decimal(&mut s, version as u64);
    s.append("')");
    s
}

proof fn lemma_digit_value(d: nat)
    requires
        d < 10,
    ensures
        '0' <= digit_char(d) <= '9',
        digit_char(d) as nat - '0' as nat == d,
{
}

pub proof fn lemma_decimal_digits(n: nat)
    ensures
        decimal(n).len() > 0,
        all_digits(decimal(n)),
        digits_value(decimal(n)) == n,
        decimal(n)[0] != '+',
    decreases n,
{
    if n < 10 {
        assert(decimal(n) == seq![digit_char(n)]);
        assert(decimal(n).drop_last() =~= Seq::<char>::empty());
        lemma_digit_value(n);
        assert(digits_value(decimal(n).drop_last()) == 0);
        assert(decimal(n).last() == digit_char(n));
        assert(digits_value(decimal(n)) == digits_value(decimal(n).drop_last()) * 10 + (
        decimal(n).last() as nat - '0' as nat) as nat);
    } else {
        lemma_decimal_digits(n / 10);
        let d = decimal(n / 10);
        assert(decimal(n) == d.push(digit_char(n % 10)));
        assert(decimal(n).drop_last() =~= d);
        assert(decimal(n)[0] == d[0]);
        lemma_digit_value(n % 10);
        assert(decimal(n).last() == digit_char(n % 10));
        assert(n == (n / 10) * 10 + n % 10);
        assert(digits_value(decimal(n)) == digits_value(d) * 10 + (digit_char(n % 10) as nat
            - '0' as nat) as nat);
        assert forall|i: int| 0 <= i < decimal(n).len() implies '0' <= #[trigger] decimal(n)[i]
            <= '9' by {
            if i < d.len() {
                assert(decimal(n)[i] == d[i]);
            }
        }
    }
}

/// Reading back a number written in decimal gives the number: the stored
/// schema version is read as the version that was written.
pub proof fn law_decimal_parses_back(n: u32)
    ensures
        parsed_u32(decimal(n as nat)) == Some(n),
{
    lemma_decimal_digits(n as nat);
}

} // verus!
