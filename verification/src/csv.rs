//! Comma- or tab-separated text of a table.

use vstd::prelude::*;
use crate::text::string_of;
use crate::file::{needs_quotes_spec, push_row, row_text, rows_text};

verus! {

/// The separator of a delimited text.
#[derive(Clone, Copy, PartialEq, Eq, Debug, Structural)]
pub enum Delim {
    /// Comma.
    Csv,
    /// Tab.
    Tsv,
}

pub open spec fn delim_char(d: Delim) -> char {
    match d {
        Delim::Csv => ',',
        Delim::Tsv => '\t',
    }
}

fn sep_of(delim: &Delim) -> (c: char)
    ensures
        c == delim_char(*delim),
{
    match delim {
        Delim::Csv => ',',
        Delim::Tsv => '\t',
    }
}

/// Whether `field` must be quoted with this separator.
pub fn needs_quotes(field: &str, delim: &Delim) -> (b: bool)
    ensures
        b == needs_quotes_spec(field@, delim_char(*delim)),
{
    crate::file::needs_quotes(field, sep_of(delim))
}

/// Append one row, with this separator, to `out`.
pub fn write_row(out: &mut String, row: &[String], delim: &Delim)
    ensures
        final(out)@ == old(out)@ + row_text(row.deep_view(), delim_char(*delim)),
{
    crate::file::write_row(out, row, sep_of(delim))
}

/// The header row, when there is one, then the rows.
pub open spec fn table_text(rows: Seq<Seq<Seq<char>>>, headers: Option<Seq<Seq<char>>>, sep: char) -> Seq<char> {
    match headers {
        Some(h) => row_text(h, sep) + rows_text(rows, sep),
        None => rows_text(rows, sep),
    }
}

/// Text of a table: the header row (when present) and the rows.
pub fn rows_to_string(rows: &[Vec<String>], headers: &Option<Vec<String>>, delim: &Delim) -> (s: String)
    ensures
        s@ == table_text(rows.deep_view(), crate::text::opt_texts(*headers), delim_char(*delim)),
{
    let sep = sep_of(delim);
    let mut v: Vec<char> = Vec::new();
    match headers {
        Some(h) => {
            push_row(&mut v, h.as_slice(), sep);
        },
        None => {},
    }
    let body = crate::file::rows_text_vec(rows, sep);
    crate::text::push_all(&mut v, &body);
    string_of(&v)
}

} // verus!
