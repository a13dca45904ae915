//! The command line of a run, and the decisions and messages that follow from it.
use crate::filter::{opt_chars, FilterConfig};
use crate::text::{decimal, push_decimal, push_str, string_from_chars};
use crate::types::{LogFormat, OutputFormat};
use std::path::PathBuf;
use vstd::prelude::*;

verus! {

/// std's owned file path.
#[verifier::external_type_specification]
#[verifier::external_body]
pub struct ExPathBuf(std::path::PathBuf);

/// What the command line asks for: the log file, its format (`Auto` to detect it), the output
/// format and file, and the filters, strictness, verbosity and colour switches.
pub struct Cli {
    pub file: PathBuf,
    pub format: LogFormat,
    pub output: OutputFormat,
    pub output_file: Option<PathBuf>,
    pub force: bool,
    pub status: Option<u16>,
    pub contains: Option<String>,
    pub regex: Option<String>,
    pub from: Option<String>,
    pub to: Option<String>,
    pub fail_on_parse_errors: bool,
    pub verbose: bool,
    pub ip: Option<String>,
    pub cidr: Option<String>,
    pub no_color: bool,
}

fn copy_text(o: &Option<String>) -> (r: Option<String>)
    ensures
        opt_chars(r) == opt_chars(*o),
{
    match o {
        Some(s) => Some(s.clone()),
        None => None,
    }
}

impl Cli {
    /// The filter criteria given on the command line.
    pub fn filter_config(&self) -> (c: FilterConfig)
        ensures
            c.status == self.status,
            opt_chars(c.contains) == opt_chars(self.contains),
            opt_chars(c.regex) == opt_chars(self.regex),
            opt_chars(c.from) == opt_chars(self.from),
            opt_chars(c.to) == opt_chars(self.to),
            opt_chars(c.ip) == opt_chars(self.ip),
            opt_chars(c.cidr) == opt_chars(self.cidr),
    {
        FilterConfig {
            status: self.status,
            contains: copy_text(&self.contains),
            regex: copy_text(&self.regex),
            from: copy_text(&self.from),
            to: copy_text(&self.to),
            ip: copy_text(&self.ip),
            cidr: copy_text(&self.cidr),
        }
    }

    /// Timestamps are read only when a time bound is given: nothing else uses them.
    pub fn needs_timestamps(&self) -> (b: bool)
        ensures
            b == (self.from is Some || self.to is Some),
    {
        self.from.is_some() || self.to.is_some()
    }

    /// Colour is used only when it is not switched off, the output goes to standard output,
    /// and standard output is a terminal.
    pub fn use_color(&self, stdout_is_terminal: bool) -> (b: bool)
        ensures
            b == (!self.no_color && self.output_file is None && stdout_is_terminal),
    {
        !self.no_color && self.output_file.is_none() && stdout_is_terminal
    }

    /// An existing output file is overwritten only with `--force`.
    pub fn refuses_overwrite(&self, output_exists: bool) -> (b: bool)
        ensures
            b == (output_exists && !self.force),
    {
        output_exists && !self.force
    }

    /// In strict mode a run with parse errors fails (after its summary is written).
    pub fn fails_strictly(&self, parse_errors: usize) -> (b: bool)
        ensures
            b == (self.fail_on_parse_errors && parse_errors > 0),
    {
        self.fail_on_parse_errors && parse_errors > 0
    }
}

/// The name of a format as it is shown.
pub open spec fn format_name(f: LogFormat) -> Seq<char> {
    match f {
        LogFormat::Auto => "Auto"@,
        LogFormat::Apache => "Apache"@,
        LogFormat::Nginx => "Nginx"@,
        LogFormat::Json => "Json"@,
    }
}

/// The note a verbose run gives about the format it reads.
pub fn format_note(f: LogFormat) -> (s: String)
    ensures
        s@ == "using format: "@ + format_name(f),
{
    let mut out: Vec<char> = Vec::new();
    push_str(&mut out, "using format: ");
    match f {
        LogFormat::Auto => push_str(&mut out, "Auto"),
        LogFormat::Apache => push_str(&mut out, "Apache"),
        LogFormat::Nginx => push_str(&mut out, "Nginx"),
        LogFormat::Json => push_str(&mut out, "Json"),
    }
    string_from_chars(&out)
}

/// The note a verbose run gives about a line that failed to parse.
pub fn parse_error_note(line_no: usize, reason: &str) -> (s: String)
    ensures
        s@ == "parse error at line "@ + decimal(line_no as nat) + ": "@ + reason@,
{
    let mut out: Vec<char> = Vec::new();
    push_str(&mut out, "parse error at line ");
    push_decimal(&mut out, line_no);
    push_str(&mut out, ": ");
    push_str(&mut out, reason);
    string_from_chars(&out)
}

/// The error of a run that would overwrite the existing file `shown_path` without `--force`.
pub fn overwrite_refusal(shown_path: &str) -> (s: String)
    ensures
        s@ == "output file '"@ + shown_path@ + "' already exists; use --force to overwrite"@,
{
    let mut out: Vec<char> = Vec::new();
    push_str(&mut out, "output file '");
    push_str(&mut out, shown_path);
    push_str(&mut out, "' already exists; use --force to overwrite");
    string_from_chars(&out)
}

/// The error of a strict run that met `parse_errors` parse errors.
pub fn strict_failure(parse_errors: usize) -> (s: String)
    ensures
        s@ == "encountered "@ + decimal(parse_errors as nat) + " parse error(s) with strict mode enabled"@,
{
    let mut out: Vec<char> = Vec::new();
    push_str(&mut out, "encountered ");
    push_decimal(&mut out, parse_errors);
    push_str(&mut out, " parse error(s) with strict mode enabled");
    string_from_chars(&out)
}

} // verus!
