//! The fields of hits that can be shown, and the parsing of a list of them.
use vstd::prelude::*;

use crate::text::chars_of;

verus! {

/// One of the tables that can be shown.
#[derive(Debug, Clone, Copy, PartialEq, Eq, Structural)]
pub enum Field {
    Dates,
    Times,
    Methods,
    Status,
    Ip,
    Referers,
    Paths,
}

pub open spec fn default_fields() -> Seq<Field> {
    seq![Field::Dates, Field::Status, Field::Referers, Field::Paths]
}

pub open spec fn all_fields() -> Seq<Field> {
    seq![Field::Dates, Field::Times, Field::Methods, Field::Status, Field::Ip, Field::Referers, Field::Paths]
}

/// The sequence without `f`.
pub open spec fn without(s: Seq<Field>, f: Field) -> Seq<Field>
    decreases s.len(),
{
    if s.len() == 0 {
        s
    } else if s.last() == f {
        without(s.drop_last(), f)
    } else {
        without(s.drop_last(), f).push(s.last())
    }
}

/// A list of fields, in the order they are shown.
#[derive(Debug, Clone, PartialEq)]
pub struct Fields(pub Vec<Field>);

/// Why a list of fields could not be read.
#[derive(Debug, Clone, Copy, PartialEq, Eq, Structural)]
pub enum ParseFieldError {
    UnrecognizedFieldStart(char),
}

/// The lower case of an ASCII letter; other characters stay.
pub open spec fn ascii_lower(c: char) -> char {
    if 'A' <= c && c <= 'Z' { (((c as u32) + 32) as u8) as char } else { c }
}

fn ascii_lower_exec(c: char) -> (r: char)
    ensures
        r == ascii_lower(c),
{
    if 'A' <= c && c <= 'Z' {
        (((c as u32) + 32) as u8) as char
    } else {
        c
    }
}

/// The field that a name starting with `c` means, if any.
pub open spec fn field_of_initial(c: char) -> Option<Field> {
    if c == 'd' {
        Some(Field::Dates)
    } else if c == 't' {
        Some(Field::Times)
    } else if c == 's' {
        Some(Field::Status)
    } else if c == 'a' || c == 'i' {
        Some(Field::Ip)
    } else if c == 'r' {
        Some(Field::Referers)
    } else if c == 'p' {
        Some(Field::Paths)
    } else if c == 'm' {
        Some(Field::Methods)
    } else {
        None
    }
}

/// The state of the reading of a field list: the fields, whether the rest
/// of the current name is skipped, whether it is removed.
pub ghost struct FieldsState {
    pub fields: Seq<Field>,
    pub skip_alpha: bool,
    pub negative: bool,
}

pub open spec fn fields_step(st: FieldsState, c0: char) -> Result<FieldsState, char> {
    let c = ascii_lower(c0);
    if c == '+' || c == ' ' || c == ',' {
        Ok(FieldsState { skip_alpha: false, negative: false, ..st })
    } else if c == '-' {
        Ok(FieldsState { skip_alpha: false, negative: true, ..st })
    } else if st.skip_alpha {
        Ok(st)
    } else if c == 'a' {
        Ok(FieldsState { fields: if st.negative { Seq::empty() } else { all_fields() }, skip_alpha: true, ..st })
    } else {
        match field_of_initial(c) {
            None => Err(c),
            Some(f) => Ok(FieldsState {
                fields: if st.negative { without(st.fields, f) } else { without(st.fields, f).push(f) },
                skip_alpha: true,
                ..st
            }),
        }
    }
}

/// The state after the first `i` characters of `s`.
pub open spec fn fields_state(s: Seq<char>, i: int) -> Result<FieldsState, char>
    decreases i,
{
    if i <= 0 {
        Ok(FieldsState {
            fields: if s.len() > 0 && (s[0] == '+' || s[0] == '-') { default_fields() } else { Seq::empty() },
            skip_alpha: false,
            negative: false,
        })
    } else {
        match fields_state(s, i - 1) {
            Err(c) => Err(c),
            Ok(st) => fields_step(st, s[i - 1]),
        }
    }
}

fn remove_from(v: &Vec<Field>, f: Field) -> (r: Vec<Field>)
    ensures
        r@ == without(v@, f),
{
    let mut out: Vec<Field> = Vec::new();
    let mut i: usize = 0;
    while i < v.len()
        invariant
            0 <= i <= v.len(),
            out@ == without(v@.subrange(0, i as int), f),
        decreases v.len() - i,
    {
        assert(v@.subrange(0, i + 1).drop_last() =~= v@.subrange(0, i as int));
        if v[i] != f {
            out.push(v[i]);
        }
        i = i + 1;
    }
    assert(v@.subrange(0, i as int) =~= v@);
    out
}

impl Fields {
    /// The default fields: dates, status, referers, paths.
    pub fn default() -> (r: Fields)
        ensures
            r.0@ == default_fields(),
    {
        let v = vec![Field::Dates, Field::Status, Field::Referers, Field::Paths];
        assert(v@ =~= default_fields());
        Fields(v)
    }

    pub fn empty() -> (r: Fields)
        ensures
            r.0@ == Seq::<Field>::empty(),
    {
        Fields(Vec::new())
    }

    pub fn all() -> (r: Fields)
        ensures
            r.0@ == all_fields(),
    {
        let v = vec![Field::Dates, Field::Times, Field::Methods, Field::Status, Field::Ip, Field::Referers, Field::Paths];
        assert(v@ =~= all_fields());
        Fields(v)
    }

    pub fn contains(&self, tbl: Field) -> (r: bool)
        ensures
            r == self.0@.contains(tbl),
    {
        let mut i: usize = 0;
        while i < self.0.len()
            invariant
                0 <= i <= self.0.len(),
                forall|k: int| 0 <= k < i ==> self.0@[k] != tbl,
            decreases self.0.len() - i,
        {
            if self.0[i] == tbl {
                return true;
            }
            i = i + 1;
        }
        false
    }

    /// Removes every occurrence of the field.
    pub fn remove(&mut self, removed: Field)
        ensures
            final(self).0@ == without(old(self).0@, removed),
    {
        self.0 = remove_from(&self.0, removed);
    }

    /// Adds the field at the end, removing it from where it was.
    pub fn add(&mut self, added: Field)
        ensures
            final(self).0@ == without(old(self).0@, added).push(added),
    {
        self.remove(added);
        self.0.push(added);
    }

    /// Reads a list of fields: names (only their first letter counts)
    /// separated by `,`, `+` or spaces, `-` before the ones to remove, and
    /// `all` for all of them. A list that starts with `+` or `-` changes
    /// the default fields.
    pub fn from_str(value: &str) -> (r: Result<Fields, ParseFieldError>)
        ensures
            match r {
                Ok(f) => fields_state(value@, value@.len() as int) matches Ok(st) && st.fields == f.0@,
                Err(ParseFieldError::UnrecognizedFieldStart(c)) => fields_state(value@, value@.len() as int)
                    == Err::<FieldsState, char>(c),
            },
    {
        let c = chars_of(value);
        let mut fields = if c.len() > 0 && (c[0] == '+' || c[0] == '-') { Fields::default() } else { Fields::empty() };
        let mut skip_alpha = false;
        let mut negative = false;
        let mut i: usize = 0;
        while i < c.len()
            invariant
                0 <= i <= c.len(),
                c@ == value@,
                fields_state(c@, i as int) == Ok::<FieldsState, char>(FieldsState { fields: fields.0@, skip_alpha, negative }),
            decreases c.len() - i,
        {
            let ch = ascii_lower_exec(c[i]);
            if ch == '+' || ch == ' ' || ch == ',' {
                skip_alpha = false;
                negative = false;
            } else if ch == '-' {
                skip_alpha = false;
                negative = true;
            } else if skip_alpha {
            } else if ch == 'a' {
                fields = if negative { Fields::empty() } else { Fields::all() };
                skip_alpha = true;
            } else {
                let field = if ch == 'd' {
                    Field::Dates
                } else if ch == 't' {
                    Field::Times
                } else if ch == 's' {
                    Field::Status
                } else if ch == 'i' {
                    Field::Ip
                } else if ch == 'r' {
                    Field::Referers
                } else if ch == 'p' {
                    Field::Paths
                } else if ch == 'm' {
                    Field::Methods
                } else {
                    proof {
                        lemma_fields_error_persists(c@, i as int + 1, c@.len() as int, ch);
                    }
                    return Err(ParseFieldError::UnrecognizedFieldStart(ch));
                };
                if negative {
                    fields.remove(field);
                } else {
                    fields.add(field);
                }
                skip_alpha = true;
            }
            i = i + 1;
        }
        Ok(fields)
    }
}

/// Once reading fails, it stays failed.
pub proof fn lemma_fields_error_persists(s: Seq<char>, i: int, j: int, c: char)
    requires
        0 < i <= j,
        fields_state(s, i) == Err::<FieldsState, char>(c),
    ensures
        fields_state(s, j) == Err::<FieldsState, char>(c),
    decreases j - i,
{
    if i < j {
        lemma_fields_error_persists(s, i, j - 1, c);
    }
}

} // verus!
