//! The prompt of the terminal client.
use vstd::prelude::*;

use crate::text::{trim_end, trim_end_str};

verus! {

/// The prompt that lines are read from.
pub struct Input;

impl Input {
    /// A prompt.
    pub fn new() -> Self {
        Input
    }

    /// What a read at the prompt gives: nothing at the end of input (no byte
    /// read), else the line without its trailing white space.
    pub fn line_from(bytes_read: usize, line: &str) -> (r: Option<String>)
        ensures
            bytes_read == 0 ==> r is None,
            bytes_read != 0 ==> (r matches Some(l) && l@ == trim_end(line@)),
    {
        if bytes_read == 0 {
            return None;
        }
        Some(trim_end_str(line))
    }
}

} // verus!
