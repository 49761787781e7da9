//! The configuration of one run: what to look for, where, and whether case
//! counts.

use vstd::prelude::*;
use vstd::std_specs::iter::IteratorSpec;

verus! {

/// Why no configuration could be made of the arguments.
#[derive(Debug, Clone, Copy, PartialEq, Eq, Structural)]
pub enum ConfigError {
    /// The argument list holds fewer than three entries.
    InsufficientArguments,
    /// The argument source ended before it gave a query.
    MissingQuery,
    /// The argument source ended before it gave a file path.
    MissingFilePath,
}

impl ConfigError {
    /// The message of each error, as a sequence of characters.
    pub open spec fn message_text(self) -> Seq<char> {
        match self {
            ConfigError::InsufficientArguments => "not enough arguments"@,
            ConfigError::MissingQuery => "Didn't get a query string"@,
            ConfigError::MissingFilePath => "Didn't get a file path"@,
        }
    }

    /// A one-line message for the user.
    pub fn message(&self) -> (text: &'static str)
        ensures
            text@ == self.message_text(),
    {
        match self {
            ConfigError::InsufficientArguments => "not enough arguments",
            ConfigError::MissingQuery => "Didn't get a query string",
            ConfigError::MissingFilePath => "Didn't get a file path",
        }
    }
}

/// What a configuration holds.
pub struct ConfigView {
    /// The text to look for. It may be empty, and then every line holds it.
    pub query: Seq<char>,
    /// The path of the file to look in. Whether such a file exists is not
    /// looked into here.
    pub file_path: Seq<char>,
    /// Whether the search ignores case.
    pub ignore_case: bool,
}

/// The parameters of one run. A configuration is made once, by `new` or by
/// `build`, and never changes.
#[derive(Debug)]
pub struct Config {
    query: String,
    file_path: String,
    ignore_case: bool,
}

impl View for Config {
    type V = ConfigView;

    closed spec fn view(&self) -> ConfigView {
        ConfigView {
            query: self.query@,
            file_path: self.file_path@,
            ignore_case: self.ignore_case,
        }
    }
}

/// What each argument holds, in the same order.
pub open spec fn argument_texts(args: Seq<String>) -> Seq<Seq<char>> {
    args.map_values(|arg: String| arg@)
}

/// What is made of a list of arguments that is there as a whole: the entry
/// at index 1 is the query, the one at index 2 the file path; the entry at
/// index 0, the name of the program, and any entry after index 2 are
/// ignored. A list of fewer than three entries makes no configuration.
pub open spec fn from_list(args: Seq<Seq<char>>, ignore_case: bool) -> Result<
    ConfigView,
    ConfigError,
> {
    if args.len() < 3 {
        Err(ConfigError::InsufficientArguments)
    } else {
        Ok(ConfigView { query: args[1], file_path: args[2], ignore_case })
    }
}

/// What is made of the arguments that a source gives one by one: the first,
/// the name of the program, is dropped, the second is the query, the third
/// the file path. A source that ends before the query or before the file
/// path makes no configuration, and the error says which of the two it
/// ended before.
pub open spec fn from_source(args: Seq<Seq<char>>, ignore_case: bool) -> Result<
    ConfigView,
    ConfigError,
> {
    if args.len() < 2 {
        Err(ConfigError::MissingQuery)
    } else if args.len() < 3 {
        Err(ConfigError::MissingFilePath)
    } else {
        Ok(ConfigView { query: args[1], file_path: args[2], ignore_case })
    }
}

/// The result of making a configuration, with the configuration taken by
/// what it holds.
pub open spec fn outcome(result: Result<Config, ConfigError>) -> Result<ConfigView, ConfigError> {
    match result {
        Ok(config) => Ok(config@),
        Err(error) => Err(error),
    }
}

/// From the same arguments the list and the source make the same
/// configuration, or both make none.
pub proof fn lemma_list_and_source_agree(args: Seq<Seq<char>>, ignore_case: bool)
    ensures
        from_list(args, ignore_case) is Ok <==> from_source(args, ignore_case) is Ok,
        from_list(args, ignore_case) is Ok ==> from_list(args, ignore_case) == from_source(
            args,
            ignore_case,
        ),
{
}

impl Config {
    /// Makes a configuration from a list of arguments, as `from_list` says.
    /// Both texts are copied. `signal` is the value of the ignore-case
    /// signal where it is set: case is ignored exactly when it is set,
    /// whatever its value.
    pub fn new(args: &[String], signal: Option<&str>) -> (result: Result<Config, ConfigError>)
        ensures
            outcome(result) == from_list(argument_texts(args@), signal is Some),
    {
        if args.len() < 3 {
            return Err(ConfigError::InsufficientArguments);
        }
        let query = args[1].clone();
        let file_path = args[2].clone();
        let ignore_case = signal.is_some();
        Ok(Config { query, file_path, ignore_case })
    }

    /// Makes a configuration from a source of arguments that is read once,
    /// front to back, as `from_source` says; no argument after the file
    /// path is taken. Both texts are moved into the configuration. `signal`
    /// is the value of the ignore-case signal where it is set: case is
    /// ignored exactly when it is set, whatever its value.
    ///
    /// Of a source that keeps the iterator laws, that is one that gives a
    /// finite run of arguments and then nothing, the result is fixed by
    /// that run. Of any source at all, the error is never
    /// `InsufficientArguments`, and a configuration ignores case exactly
    /// when the signal is set.
    pub fn build<I: Iterator<Item = String>>(args: I, signal: Option<&str>) -> (result: Result<
        Config,
        ConfigError,
    >)
        ensures
            args.obeys_prophetic_iter_laws() ==> outcome(result) == from_source(
                argument_texts(args.remaining()),
                signal is Some,
            ),
            result matches Ok(config) ==> config@.ignore_case == (signal is Some),
            result matches Err(error) ==> error != ConfigError::InsufficientArguments,
    {
        let mut args = args;
        args.next();
        let query = match args.next() {
            Some(arg) => arg,
            None => return Err(ConfigError::MissingQuery),
        };
        let file_path = match args.next() {
            Some(arg) => arg,
            None => return Err(ConfigError::MissingFilePath),
        };
        let ignore_case = signal.is_some();
        Ok(Config { query, file_path, ignore_case })
    }

    /// The text to look for.
    pub fn query(&self) -> (query: &str)
        ensures
            query@ == self@.query,
    {
        self.query.as_str()
    }

    /// The path of the file to look in.
    pub fn file_path(&self) -> (file_path: &str)
        ensures
            file_path@ == self@.file_path,
    {
        self.file_path.as_str()
    }

    /// Whether the search ignores case.
    pub fn ignore_case(&self) -> (ignore_case: bool)
        ensures
            ignore_case == self@.ignore_case,
    {
        self.ignore_case
    }
}

} // verus!
