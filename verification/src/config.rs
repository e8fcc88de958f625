//! Configuration values: filter blocks and output descriptors, with the
//! validation that runs before any decoding begins.

use vstd::prelude::*;
use vstd::string::{StrSliceExecFns, StringExecFnsIsAscii};

verus! {

/// Whether an optional identifier is ASCII and at most four characters.
pub open spec fn id_valid(id: Option<String>) -> bool {
    match id {
        Some(s) => vstd::utf8::is_ascii_chars(s@) && s@.len() <= 4,
        None => true,
    }
}

/// Whether a delimiter character is one of the accepted set.
pub open spec fn delimiter_ok(c: char) -> bool {
    c == ',' || c == ';' || c == ' ' || c == '\t' || c == ':' || c == '|'
}

/// The whole configuration: an ordered list of filter blocks.
pub struct Config {
    pub filters: Option<Vec<Filter>>,
}

/// One configured filter block.
pub struct Filter {
    pub name: String,
    pub ecu_id: Option<String>,
    pub app_id: Option<String>,
    pub context_id: Option<String>,
    pub patterns: Option<Vec<String>>,
    pub output: Option<Output>,
}

/// The output section of a filter block.
pub struct Output {
    pub csv: Option<Csv>,
    pub stdout: Option<Stdout>,
}

/// A file sink: its path, delimiter and optional format string.
pub struct Csv {
    pub file_path: String,
    pub delimiter: char,
    pub format: Option<String>,
}

/// The standard-output sink: whether it is enabled, its delimiter and its
/// format string.
pub struct Stdout {
    pub enabled: bool,
    pub delimiter: char,
    pub format: String,
}

/// Whether a filter block passes validation.
pub open spec fn filter_valid(f: &Filter) -> bool {
    &&& id_valid(f.ecu_id)
    &&& id_valid(f.app_id)
    &&& id_valid(f.context_id)
    &&& (f.output matches Some(o) ==> output_valid(&o))
}

/// Whether an output section passes validation.
pub open spec fn output_valid(o: &Output) -> bool {
    &&& (o.csv matches Some(c) ==> delimiter_ok(c.delimiter))
    &&& (o.stdout is Some ==> true)
}

/// Whether the whole configuration passes validation.
pub open spec fn config_valid(c: &Config) -> bool {
    match c.filters {
        Some(fs) => forall|i: int| 0 <= i < fs.len() ==> filter_valid(&fs[i]),
        None => true,
    }
}

/// Whether an optional identifier is ASCII and at most four characters
/// long; absent identifiers pass.
pub fn validate_id(name: &str, id: &Option<String>) -> (r: bool)
    ensures
        r == id_valid(*id),
{
    let _ = name;
    match id {
        Some(s) => {
            if !s.is_ascii() {
                false
            } else {
                s.as_str().unicode_len() <= 4
            }
        },
        None => true,
    }
}

impl Config {
    pub fn filters(&self) -> (r: &Option<Vec<Filter>>)
        ensures
            r == self.filters,
    {
        &self.filters
    }

    /// Checks every filter block, rejecting the configuration when any
    /// fails.
    pub fn is_valid(&self) -> (r: Result<(), &'static str>)
        ensures
            r is Ok <==> config_valid(self),
    {
        let is_filter_valid = match &self.filters {
            Some(filters) => {
                let mut ok = true;
                let mut i: usize = 0;
                while i < filters.len()
                    invariant
                        i <= filters@.len(),
                        ok == (forall|k: int| 0 <= k < i ==> filter_valid(&filters@[k])),
                    decreases filters@.len() - i,
                {
                    let this_ok = filters[i].is_valid();
                    ok = ok && this_ok;
                    i = i + 1;
                }
                ok
            },
            None => true,
        };
        if is_filter_valid {
            Ok(())
        } else {
            Err("config file invalid")
        }
    }
}

impl Filter {
    pub fn name(&self) -> (r: &String)
        ensures
            r == self.name,
    {
        &self.name
    }

    pub fn ecu_id(&self) -> (r: &Option<String>)
        ensures
            r == self.ecu_id,
    {
        &self.ecu_id
    }

    pub fn app_id(&self) -> (r: &Option<String>)
        ensures
            r == self.app_id,
    {
        &self.app_id
    }

    pub fn context_id(&self) -> (r: &Option<String>)
        ensures
            r == self.context_id,
    {
        &self.context_id
    }

    pub fn patterns(&self) -> (r: &Option<Vec<String>>)
        ensures
            r == self.patterns,
    {
        &self.patterns
    }

    pub fn output(&self) -> (r: &Option<Output>)
        ensures
            r == self.output,
    {
        &self.output
    }

    pub fn is_valid(&self) -> (r: bool)
        ensures
            r == filter_valid(self),
    {
        let is_ecu_id_valid = validate_id("ecu_id", &self.ecu_id);
        let is_app_id_valid = validate_id("app_id", &self.app_id);
        let is_context_id_valid = validate_id("context_id", &self.context_id);
        let is_output_valid = match &self.output {
            Some(out) => out.is_valid(),
            None => true,
        };
        is_ecu_id_valid && is_app_id_valid && is_context_id_valid && is_output_valid
    }
}

impl Output {
    pub fn csv(&self) -> (r: &Option<Csv>)
        ensures
            r == self.csv,
    {
        &self.csv
    }

    pub fn stdout(&self) -> (r: &Option<Stdout>)
        ensures
            r == self.stdout,
    {
        &self.stdout
    }

    pub fn is_valid(&self) -> (r: bool)
        ensures
            r == output_valid(self),
    {
        let is_csv_valid = match &self.csv {
            Some(csv) => csv.is_valid(),
            None => true,
        };
        let is_stdout_valid = match &self.stdout {
            Some(stdout) => stdout.is_valid(),
            None => true,
        };
        is_csv_valid && is_stdout_valid
    }
}

impl Csv {
    pub fn default_delimiter() -> (r: char)
        ensures
            r == ',',
    {
        ','
    }

    pub fn is_valid(&self) -> (r: bool)
        ensures
            r == delimiter_ok(self.delimiter),
    {
        match self.delimiter {
            ',' => true,
            ';' => true,
            ' ' => true,
            '\t' => true,
            ':' => true,
            '|' => true,
            _ => false,
        }
    }
}

impl Stdout {
    pub fn default_enabled() -> (r: bool)
        ensures
            r == false,
    {
        false
    }

    pub fn is_enabled(&self) -> (r: bool)
        ensures
            r == self.enabled,
    {
        self.enabled
    }

    pub fn delimiter(&self) -> (r: char)
        ensures
            r == self.delimiter,
    {
        self.delimiter
    }

    pub fn format_string(&self) -> (r: &String)
        ensures
            r == self.format,
    {
        &self.format
    }

    pub fn is_valid(&self) -> (r: bool)
        ensures
            r == true,
    {
        if self.enabled {
            true
        } else {
            true
        }
    }
}

} // verus!
