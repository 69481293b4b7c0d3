//! Errors of the collectors and parsers.
use crate::text::{chars_of, string_from_chars};
use vstd::prelude::*;

verus! {

/// What can go wrong while collecting metrics.
#[derive(Debug)]
pub enum DgxTopError {
    Gpu(String),
    /// A data source could not be read; the text says which and why.
    Collector(String),
    /// A data source was read but a value in it could not be understood.
    Parse { field: String, message: String },
    Config(String),
    Terminal(String),
    Process(String),
}

/// A string made of a literal followed by more characters.
pub fn str_then_chars(a: &str, b: &[char]) -> (r: String)
    ensures
        r@ == a@ + b@,
{
    let mut v = chars_of(a);
    let mut i: usize = 0;
    let ghost start = v@;
    while i < b.len()
        invariant
            i <= b@.len(),
            v@ == start + b@.take(i as int),
        decreases b.len() - i,
    {
        v.push(b[i]);
        assert(start + b@.take(i + 1) =~= (start + b@.take(i as int)).push(b@[i as int]));
        i += 1;
    }
    assert(b@.take(b@.len() as int) =~= b@);
    string_from_chars(&v)
}

/// A parse error naming the field and saying what was wrong with it.
pub fn parse_error(field: &str, message_head: &str, message_tail: &[char]) -> (e: DgxTopError)
    ensures
        e matches DgxTopError::Parse { field: f, message: m } && f@ == field@ && m@
            == message_head@ + message_tail@,
{
    let empty: Vec<char> = Vec::new();
    let f = str_then_chars(field, &empty);
    assert(field@ + empty@ =~= field@);
    DgxTopError::Parse { field: f, message: str_then_chars(message_head, message_tail) }
}

} // verus!
