//! Command-line arguments and where the patched XAPK is written.
use vstd::prelude::*;
use crate::archive::{file_stem, file_stem_of};
use crate::config::{is_absolute_path, join_path, path_is_absolute, path_join, path_with_file_name, with_file_name};
use crate::text::string_of;

verus! {

/// The command line: the source XAPK, the configuration file and an optional
/// destination.
#[derive(Debug, Clone, PartialEq, Eq)]
pub struct Cli {
    pub input: String,
    pub config: String,
    pub output: Option<String>,
}

/// `STEM-garcia-HOST.xapk`, where the stem defaults to `allfiring`.
pub open spec fn default_output_name(stem: Option<Seq<char>>, host: Seq<char>) -> Seq<char> {
    (match stem {
        Some(s) => s,
        None => "allfiring"@,
    }) + "-garcia-"@ + host + ".xapk"@
}

/// The destination before it is made absolute: the one given, else the
/// default name beside the input.
pub open spec fn output_candidate(
    output: Option<String>,
    input: Seq<char>,
    input_file_name: Option<Seq<char>>,
    host: Seq<char>,
) -> Seq<char> {
    match output {
        Some(o) => o@,
        None => path_with_file_name(
            input,
            default_output_name(
                match input_file_name {
                    Some(f) => Some(file_stem(f)),
                    None => None,
                },
                host,
            ),
        ),
    }
}

/// `p` made absolute: kept when absolute, else joined to the current
/// directory, which must then be known.
pub open spec fn absolute_from(p: Seq<char>, current_dir: Option<Seq<char>>) -> Option<Seq<char>> {
    if path_is_absolute(p) {
        Some(p)
    } else {
        match current_dir {
            Some(c) => Some(path_join(c, p)),
            None => None,
        }
    }
}

impl Cli {
    /// The absolute destination of the patched XAPK: the one given, else a
    /// host-qualified name beside `input`; a relative destination is taken
    /// from `current_dir`. `input_file_name` is the input's file name, if it
    /// has one that is valid text. `None` when the destination is relative and
    /// the current directory is unknown.
    pub fn output_path(
        &self,
        input: &str,
        input_file_name: Option<&str>,
        host: &str,
        current_dir: Option<&str>,
    ) -> (r: Option<String>)
        ensures
            match absolute_from(
                output_candidate(
                    self.output,
                    input@,
                    match input_file_name {
                        Some(f) => Some(f@),
                        None => None,
                    },
                    host@,
                ),
                match current_dir {
                    Some(c) => Some(c@),
                    None => None,
                },
            ) {
                Some(p) => r matches Some(q) && q@ == p,
                None => r is None,
            },
    {
        let candidate = match &self.output {
            Some(o) => o.clone(),
            None => {
                let mut name = match input_file_name {
                    Some(f) => file_stem_of(f),
                    None => string_of("allfiring"),
                };
                name.append("-garcia-");
                name.append(host);
                name.append(".xapk");
                with_file_name(input, name.as_str())
            },
        };
        if is_absolute_path(candidate.as_str()) {
            Some(candidate)
        } else {
            match current_dir {
                Some(c) => Some(join_path(c, candidate.as_str())),
                None => None,
            }
        }
    }
}

} // verus!
