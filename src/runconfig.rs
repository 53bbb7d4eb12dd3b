//! The options of one run, resolved once from the command line.

use vstd::prelude::*;

verus! {

#[verifier::external_type_specification]
#[verifier::external_body]
pub struct ExArgvMap(docopt::ArgvMap);

/// What parsed arguments hold: for each key that docopt knows, its value
/// read as a switch (`Value::as_bool`) and as text (`Value::as_str`).
pub uninterp spec fn argv_values(m: docopt::ArgvMap) -> Map<Seq<char>, (bool, Seq<char>)>;

/// The switch `key` of parsed arguments: false for a key docopt does not know.
pub open spec fn argv_switch(m: docopt::ArgvMap, key: Seq<char>) -> bool {
    if argv_values(m).contains_key(key) {
        argv_values(m)[key].0
    } else {
        false
    }
}

/// The text of `key` in parsed arguments: empty for a key docopt does not know.
pub open spec fn argv_text(m: docopt::ArgvMap, key: Seq<char>) -> Seq<char> {
    if argv_values(m).contains_key(key) {
        argv_values(m)[key].1
    } else {
        Seq::empty()
    }
}

/// Relies on `docopt::ArgvMap::get_bool`: `find(key)` read with `as_bool`,
/// or false when the key is not there.
pub assume_specification[ docopt::ArgvMap::get_bool ](m: &docopt::ArgvMap, key: &str) -> (r: bool)
    ensures
        r == if argv_values(*m).contains_key(key@) {
            argv_values(*m)[key@].0
        } else {
            false
        },
;

/// Relies on `docopt::ArgvMap::get_str`: `find(key)` read with `as_str`,
/// or the empty string when the key is not there.
pub assume_specification<'a>[ docopt::ArgvMap::get_str ](
    m: &'a docopt::ArgvMap,
    key: &str,
) -> (r: &'a str)
    ensures
        r@ == if argv_values(*m).contains_key(key@) {
            argv_values(*m)[key@].1
        } else {
            Seq::empty()
        },
;

/// The command-line grammar of the tool, in docopt's notation.
pub const USAGE: &'static str = "
Usage: lsha [options] <PATH>
       lsha (-h | --help)
       lsha --version

Options: -c   Checksum file contents
         -r   Recursive
         -t   Use timestamps in checksum
         -l   Include hidden files
         -q   quiet (don't output file details)
  --help -h   Shows help screen
";

/// The version banner.
pub const VERSION: &'static str =
    "lsha version 0.1 originally by Eduardo ES Riccardi (https://github.com/kuking/lsha)";

/// How one traversal is run; never changed once built.
pub struct LshaRunConfig {
    /// The root directory of the traversal.
    pub path: String,
    /// Put a digest of each regular file's contents in its line.
    pub do_file_checksum: bool,
    /// Descend into subdirectories, each announced by a header line.
    pub be_recursive: bool,
    /// Print nothing but the final digest.
    pub be_quiet: bool,
    /// Reserved: read from the command line, used by nothing.
    pub incl_timestamps: bool,
    /// Keep entries whose name starts with a dot.
    pub incl_hidden: bool,
}

impl LshaRunConfig {
    /// The run's options from parsed arguments: `PATH` and the switches
    /// `-c`, `-r`, `-q`, `-t`, `-l`.
    pub fn from_docopt(args: &docopt::ArgvMap) -> (r: LshaRunConfig)
        ensures
            r.path@ == argv_text(*args, "PATH"@),
            r.do_file_checksum == argv_switch(*args, "-c"@),
            r.be_recursive == argv_switch(*args, "-r"@),
            r.be_quiet == argv_switch(*args, "-q"@),
            r.incl_timestamps == argv_switch(*args, "-t"@),
            r.incl_hidden == argv_switch(*args, "-l"@),
    {
        LshaRunConfig {
            path: String::from_str(args.get_str("PATH")),
            do_file_checksum: args.get_bool("-c"),
            be_recursive: args.get_bool("-r"),
            be_quiet: args.get_bool("-q"),
            incl_timestamps: args.get_bool("-t"),
            incl_hidden: args.get_bool("-l"),
        }
    }
}

} // verus!
