//! Choosing the HTML export directory from the configuration.
use crate::config::{opt_str, opt_view};
use crate::text::{chars_of, trim, trim_slice};
use vstd::prelude::*;

verus! {

broadcast use vstd::string::group_string_axioms;

/// The configured directory, trimmed, when it is set and not blank.
pub open spec fn html_dir(value: Option<Seq<char>>) -> Option<Seq<char>> {
    match value {
        Some(v) => if trim(v).len() > 0 {
            Some(trim(v))
        } else {
            None
        },
        None => None,
    }
}

/// Parse an optional config string into a directory path (None if missing or blank).
pub fn html_dir_from_config(value: &Option<String>) -> (r: Option<&str>)
    ensures
        opt_str(r) == html_dir(opt_view(*value)),
{
    match value {
        Some(s) => {
            let t = trim_slice(s.as_str());
            let tv = chars_of(t);
            if tv.len() > 0 {
                Some(t)
            } else {
                None
            }
        },
        None => None,
    }
}

} // verus!
