//! Options of a run given as words: what to count, how to output, which
//! tables to show.
use vstd::prelude::*;

use crate::filterer::Key;
use crate::log_base::contains_text;
use crate::text::{chars_of, find_char, first_index_of, lemma_first_index_of, range_equals, string_of, substring};

verus! {

/// The lower case of a text, as Unicode defines it.
pub uninterp spec fn lower_of(s: Seq<char>) -> Seq<char>;

/// Relies on `str::to_lowercase`: the result depends on the characters alone.
#[verifier::external_body]
fn lowercase(s: &str) -> (r: String)
    ensures
        r@ == lower_of(s@),
{
    s.to_lowercase()
}

fn is_word(s: &str, w: &str) -> (r: bool)
    ensures
        r == (s@ == w@),
{
    let c = chars_of(s);
    assert(c@.subrange(0, c@.len() as int) =~= c@);
    range_equals(&c, 0, c.len(), w)
}

/// Why a key could not be read.
#[derive(Debug, Clone, PartialEq, Eq)]
pub enum ParseKeyError {
    UnrecognizedKey(String),
}

/// The key that a lower case word names.
pub open spec fn key_of(s: Seq<char>) -> Option<Key> {
    if s == "h"@ || s == "hit"@ || s == "hits"@ {
        Some(Key::Hits)
    } else if s == "b"@ || s == "byte"@ || s == "bytes"@ {
        Some(Key::Bytes)
    } else {
        None
    }
}

impl Key {
    /// The key that a lower case word names: `h`, `hit`, `hits`, `b`, `byte`, `bytes`.
    pub fn from_lowercase(s: &str) -> (r: Option<Key>)
        ensures
            r == key_of(s@),
    {
        if is_word(s, "h") || is_word(s, "hit") || is_word(s, "hits") {
            Some(Key::Hits)
        } else if is_word(s, "b") || is_word(s, "byte") || is_word(s, "bytes") {
            Some(Key::Bytes)
        } else {
            None
        }
    }

    /// Reads a key, whatever its case.
    pub fn from_str(value: &str) -> (r: Result<Key, ParseKeyError>)
        ensures
            match r {
                Ok(k) => key_of(lower_of(value@)) == Some(k),
                Err(ParseKeyError::UnrecognizedKey(s)) => key_of(lower_of(value@)) is None && s@ == value@,
            },
    {
        let lower = lowercase(value);
        match Key::from_lowercase(lower.as_str()) {
            Some(k) => Ok(k),
            None => Err(ParseKeyError::UnrecognizedKey(string_of(chars_of(value).as_slice()))),
        }
    }
}

/// The kind of output of a run.
#[derive(Debug, Clone, Copy, PartialEq, Eq, Structural, Default)]
pub enum Output {
    /// The log lines as they are.
    Raw,
    /// Tables of counts.
    #[default]
    Tables,
    /// Comma separated values, a row per hit.
    Csv,
    /// An array of objects, one per hit.
    Json,
}

/// Why an output could not be read.
#[derive(Debug, Clone, PartialEq, Eq)]
pub enum ParseOutputError {
    UnrecognizedValue(String),
}

pub open spec fn output_of(s: Seq<char>) -> Option<Output> {
    if s == "r"@ || s == "raw"@ {
        Some(Output::Raw)
    } else if s == "t"@ || s == "tbl"@ || s == "tables"@ {
        Some(Output::Tables)
    } else if s == "c"@ || s == "csv"@ {
        Some(Output::Csv)
    } else if s == "j"@ || s == "json"@ {
        Some(Output::Json)
    } else {
        None
    }
}

impl Output {
    /// The output that a lower case word names.
    pub fn from_lowercase(s: &str) -> (r: Option<Output>)
        ensures
            r == output_of(s@),
    {
        if is_word(s, "r") || is_word(s, "raw") {
            Some(Output::Raw)
        } else if is_word(s, "t") || is_word(s, "tbl") || is_word(s, "tables") {
            Some(Output::Tables)
        } else if is_word(s, "c") || is_word(s, "csv") {
            Some(Output::Csv)
        } else if is_word(s, "j") || is_word(s, "json") {
            Some(Output::Json)
        } else {
            None
        }
    }

    /// Reads an output, whatever its case.
    pub fn from_str(value: &str) -> (r: Result<Output, ParseOutputError>)
        ensures
            match r {
                Ok(o) => output_of(lower_of(value@)) == Some(o),
                Err(ParseOutputError::UnrecognizedValue(s)) => output_of(lower_of(value@)) is None && s@ == value@,
            },
    {
        let lower = lowercase(value);
        match Output::from_lowercase(lower.as_str()) {
            Some(o) => Ok(o),
            None => Err(ParseOutputError::UnrecognizedValue(string_of(chars_of(value).as_slice()))),
        }
    }
}

/// One of the tables that can be shown.
#[derive(Debug, Clone, Copy, PartialEq, Eq, Structural)]
pub enum Table {
    Dates,
    Status,
    RemoteAddresses,
    Referers,
    Paths,
    Methods,
}

/// The tables to show, in order.
#[derive(Debug, Clone, PartialEq)]
pub struct Tables(pub Vec<Table>);

pub open spec fn all_tables() -> Seq<Table> {
    seq![Table::Dates, Table::Methods, Table::Status, Table::RemoteAddresses, Table::Referers, Table::Paths]
}

pub open spec fn default_tables() -> Seq<Table> {
    seq![Table::Dates, Table::Status, Table::RemoteAddresses, Table::Referers, Table::Paths]
}

/// The table that a part of a list names: the first of `date`, `stat`,
/// `addr`, `ref`, `path`, `method` that it holds.
pub open spec fn table_of(s: Seq<char>) -> Option<Table> {
    if contains_text(s, "date"@) {
        Some(Table::Dates)
    } else if contains_text(s, "stat"@) {
        Some(Table::Status)
    } else if contains_text(s, "addr"@) {
        Some(Table::RemoteAddresses)
    } else if contains_text(s, "ref"@) {
        Some(Table::Referers)
    } else if contains_text(s, "path"@) {
        Some(Table::Paths)
    } else if contains_text(s, "method"@) {
        Some(Table::Methods)
    } else {
        None
    }
}

/// The tables of the comma-separated parts of `s` from `from` on, or the
/// first part that names none.
pub open spec fn tables_from(s: Seq<char>, from: int) -> Result<Seq<Table>, Seq<char>>
    decreases s.len() - from,
{
    if from < 0 || from > s.len() {
        Ok(Seq::empty())
    } else {
        let end = match first_index_of(s, from, s.len() as int, ',') {
            Some(i) => i,
            None => s.len() as int,
        };
        match table_of(s.subrange(from, end)) {
            None => Err(s.subrange(from, end)),
            Some(t) => if end >= s.len() || end < from {
                Ok(seq![t])
            } else {
                match tables_from(s, end + 1) {
                    Err(p) => Err(p),
                    Ok(rest) => Ok(seq![t] + rest),
                }
            },
        }
    }
}

/// What a lower case list of tables gives.
pub open spec fn spec_tables(s: Seq<char>) -> Result<Seq<Table>, Seq<char>> {
    if s == "all"@ || s == "a"@ {
        Ok(all_tables())
    } else {
        tables_from(s, 0)
    }
}

fn contains_word(s: &str, w: &str) -> (r: bool)
    ensures
        r == contains_text(s@, w@),
{
    let c = chars_of(s);
    let k = chars_of(w).len();
    if k == 0 {
        assert(c@.subrange(0, 0 + w@.len() as int) =~= w@);
        assert(contains_text(s@, w@));
        return true;
    }
    if c.len() < k {
        return false;
    }
    let mut i: usize = 0;
    while i <= c.len() - k
        invariant
            k == w@.len(),
            1 <= k <= c.len(),
            i <= c.len() - k + 1,
            c@ == s@,
            forall|j: int| 0 <= j < i ==> #[trigger] c@.subrange(j, j + k as int) != w@,
        decreases c.len() + 1 - i,
    {
        if range_equals(&c, i, i + k, w) {
            return true;
        }
        i = i + 1;
    }
    proof {
        assert forall|j: int| 0 <= j && j + w@.len() <= c@.len() implies #[trigger] c@.subrange(j, j + w@.len()) != w@ by {
            assert(j <= i);
        }
    }
    false
}

fn table_of_part(s: &str) -> (r: Option<Table>)
    ensures
        r == table_of(s@),
{
    if contains_word(s, "date") {
        Some(Table::Dates)
    } else if contains_word(s, "stat") {
        Some(Table::Status)
    } else if contains_word(s, "addr") {
        Some(Table::RemoteAddresses)
    } else if contains_word(s, "ref") {
        Some(Table::Referers)
    } else if contains_word(s, "path") {
        Some(Table::Paths)
    } else if contains_word(s, "method") {
        Some(Table::Methods)
    } else {
        None
    }
}

fn tables_of(c: &Vec<char>, from: usize) -> (r: Result<Vec<Table>, String>)
    requires
        from <= c.len(),
    ensures
        match r {
            Ok(v) => tables_from(c@, from as int) == Ok::<Seq<Table>, Seq<char>>(v@),
            Err(p) => tables_from(c@, from as int) == Err::<Seq<Table>, Seq<char>>(p@),
        },
    decreases c.len() - from,
{
    let n = c.len();
    proof {
        lemma_first_index_of(c@, from as int, n as int, ',');
    }
    let end = match find_char(c, from, n, ',') {
        Some(i) => i,
        None => n,
    };
    let part = substring(c, from, end);
    match table_of_part(part.as_str()) {
        None => Err(part),
        Some(t) => {
            if end >= n {
                let v = vec![t];
                assert(v@ =~= seq![t]);
                Ok(v)
            } else {
                match tables_of(c, end + 1) {
                    Err(p) => Err(p),
                    Ok(rest) => {
                        let mut v = vec![t];
                        let mut rest = rest;
                        let ghost r0 = rest@;
                        v.append(&mut rest);
                        assert(v@ =~= seq![t] + r0);
                        Ok(v)
                    },
                }
            }
        },
    }
}

impl Tables {
    pub fn all() -> (r: Tables)
        ensures
            r.0@ == all_tables(),
    {
        let v = vec![Table::Dates, Table::Methods, Table::Status, Table::RemoteAddresses, Table::Referers, Table::Paths];
        assert(v@ =~= all_tables());
        Tables(v)
    }

    pub fn default() -> (r: Tables)
        ensures
            r.0@ == default_tables(),
    {
        let v = vec![Table::Dates, Table::Status, Table::RemoteAddresses, Table::Referers, Table::Paths];
        assert(v@ =~= default_tables());
        Tables(v)
    }

    /// Reads a lower case list of tables: `all` (or `a`), or parts
    /// separated by commas, each naming a table by a word it holds. The
    /// error names the first part that names none.
    pub fn from_lowercase(value: &str) -> (r: Result<Tables, String>)
        ensures
            match r {
                Ok(t) => spec_tables(value@) == Ok::<Seq<Table>, Seq<char>>(t.0@),
                Err(p) => spec_tables(value@) == Err::<Seq<Table>, Seq<char>>(p@),
            },
    {
        if is_word(value, "all") || is_word(value, "a") {
            return Ok(Tables::all());
        }
        let c = chars_of(value);
        match tables_of(&c, 0) {
            Ok(v) => Ok(Tables(v)),
            Err(p) => Err(p),
        }
    }

    /// Reads a list of tables, whatever its case; the error is a message
    /// naming the part that names no table.
    pub fn from_arg_value(value: &str) -> (r: Result<Tables, String>)
        ensures
            match r {
                Ok(t) => spec_tables(lower_of(value@)) == Ok::<Seq<Table>, Seq<char>>(t.0@),
                Err(_) => spec_tables(lower_of(value@)) is Err,
            },
    {
        let lower = lowercase(value);
        match Tables::from_lowercase(lower.as_str()) {
            Ok(t) => Ok(t),
            Err(part) => {
                let mut msg = chars_of("Unrecognized table : \"");
                let mut p = chars_of(part.as_str());
                msg.append(&mut p);
                msg.push('"');
                Err(string_of(msg.as_slice()))
            },
        }
    }
}

} // verus!
