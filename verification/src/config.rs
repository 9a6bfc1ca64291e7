//! What one run is asked to do, and where: the operation named by the
//! arguments, the place of the store and the directory to work from.

use crate::assoc::{same_text, texts};
use std::path::Path;
use vstd::prelude::*;

verus! {

/// One of the operations on the store.
#[derive(Debug, PartialEq, Eq)]
pub enum Operation {
    /// Print the value of one key, or every visible key where none is named.
    Print(Option<String>),
    /// Set a key to a value.
    Add(String, String),
    /// Remove a key.
    Remove(String),
}

/// An operation with its texts as plain sequences.
pub enum OperationModel {
    Print(Option<Seq<char>>),
    Add(Seq<char>, Seq<char>),
    Remove(Seq<char>),
}

impl View for Operation {
    type V = OperationModel;

    open spec fn view(&self) -> OperationModel {
        match *self {
            Operation::Print(None) => OperationModel::Print(None),
            Operation::Print(Some(key)) => OperationModel::Print(Some(key@)),
            Operation::Add(key, value) => OperationModel::Add(key@, value@),
            Operation::Remove(key) => OperationModel::Remove(key@),
        }
    }
}

/// Arguments that name an operation with the wrong number of operands.
/// Each variant holds the number of operands that were given.
#[derive(Debug, PartialEq, Eq, Clone, Copy)]
pub enum ArgsError {
    /// `add` takes a key and a value.
    Add(usize),
    /// `rmv` takes a key.
    Remove(usize),
    /// Printing takes one key or none.
    Print(usize),
}

/// Why the configuration of a run could not be made.
#[derive(Debug, PartialEq, Eq, Clone, Copy)]
pub enum ConfigError {
    /// The arguments name no operation.
    Args(ArgsError),
    /// No place for the store was given, and no home directory is known
    /// to put the default place under.
    NoHome,
    /// No directory was given, and the current directory is not known.
    NoCurrentDir,
}

/// The operation that the arguments name. No argument prints every key;
/// `add` with a key and a value sets, `rmv` with a key removes; any other
/// single argument is a key to print.
pub open spec fn parse_args(args: Seq<Seq<char>>) -> Result<OperationModel, ArgsError> {
    if args.len() == 0 {
        Ok(OperationModel::Print(None))
    } else if args[0] == "add"@ {
        if args.len() == 3 {
            Ok(OperationModel::Add(args[1], args[2]))
        } else {
            Err(ArgsError::Add((args.len() - 1) as usize))
        }
    } else if args[0] == "rmv"@ {
        if args.len() == 2 {
            Ok(OperationModel::Remove(args[1]))
        } else {
            Err(ArgsError::Remove((args.len() - 1) as usize))
        }
    } else if args.len() == 1 {
        Ok(OperationModel::Print(Some(args[0])))
    } else {
        Err(ArgsError::Print((args.len() - 1) as usize))
    }
}

impl Operation {
    /// Reads the operation that the arguments name.
    pub fn try_from(value: Vec<String>) -> (r: Result<Operation, ArgsError>)
        ensures
            match r {
                Ok(op) => parse_args(texts(value@)) == Ok::<OperationModel, ArgsError>(op@),
                Err(e) => parse_args(texts(value@)) == Err::<OperationModel, ArgsError>(e),
            },
    {
        let mut value = value;
        let n: usize = value.len();
        if n == 0 {
            return Ok(Operation::Print(None));
        }
        if same_text(value[0].as_str(), "add") {
            if n != 3 {
                return Err(ArgsError::Add(n - 1));
            }
            let second = value.pop().unwrap();
            let first = value.pop().unwrap();
            return Ok(Operation::Add(first, second));
        }
        if same_text(value[0].as_str(), "rmv") {
            if n != 2 {
                return Err(ArgsError::Remove(n - 1));
            }
            let arg = value.pop().unwrap();
            return Ok(Operation::Remove(arg));
        }
        if n > 1 {
            return Err(ArgsError::Print(n - 1));
        }
        let arg = value.pop().unwrap();
        Ok(Operation::Print(Some(arg)))
    }
}

/// The path `base` with `part` pushed onto it, as the platform's path
/// rules give it.
pub uninterp spec fn path_join(base: Seq<char>, part: Seq<char>) -> Seq<char>;

/// The path `base` with `part` pushed onto it.
///
/// Wraps `std::path::Path::join`. Trusted: the result is the named join of
/// the two texts.
#[verifier::external_body]
fn join_path(base: &str, part: &str) -> (r: String)
    ensures
        r@ == path_join(base@, part@),
{
    Path::new(base).join(part).to_string_lossy().into_owned()
}

/// The place of the store where none is given: `projector/projector.json`
/// under the home directory.
pub open spec fn default_location(home: Seq<char>) -> Seq<char> {
    path_join(path_join(home, "projector"@), "projector.json"@)
}

/// The place of the store: the one given, else the default place under the
/// home directory, which then has to be known.
pub open spec fn location_of(config: Option<String>, home: Option<String>) -> Result<
    Seq<char>,
    ConfigError,
> {
    match (config, home) {
        (Some(v), _) => Ok(v@),
        (None, Some(h)) => Ok(default_location(h@)),
        (None, None) => Err(ConfigError::NoHome),
    }
}

/// The directory to work from: the one given, else the current directory,
/// which then has to be known.
pub open spec fn directory_of(pwd: Option<String>, current_dir: Option<String>) -> Result<
    Seq<char>,
    ConfigError,
> {
    match (pwd, current_dir) {
        (Some(v), _) => Ok(v@),
        (None, Some(c)) => Ok(c@),
        (None, None) => Err(ConfigError::NoCurrentDir),
    }
}

/// The place of the store, given or default.
pub fn get_config(config: Option<String>, home: Option<String>) -> (r: Result<String, ConfigError>)
    ensures
        match r {
            Ok(v) => location_of(config, home) == Ok::<Seq<char>, ConfigError>(v@),
            Err(e) => location_of(config, home) == Err::<Seq<char>, ConfigError>(e),
        },
{
    if let Some(v) = config {
        return Ok(v);
    }
    match home {
        Some(h) => {
            let under = join_path(h.as_str(), "projector");
            Ok(join_path(under.as_str(), "projector.json"))
        },
        None => Err(ConfigError::NoHome),
    }
}

/// The directory to work from, given or current.
pub fn get_pwd(pwd: Option<String>, current_dir: Option<String>) -> (r: Result<String, ConfigError>)
    ensures
        match r {
            Ok(v) => directory_of(pwd, current_dir) == Ok::<Seq<char>, ConfigError>(v@),
            Err(e) => directory_of(pwd, current_dir) == Err::<Seq<char>, ConfigError>(e),
        },
{
    if let Some(pwd) = pwd {
        return Ok(pwd);
    }
    match current_dir {
        Some(c) => Ok(c),
        None => Err(ConfigError::NoCurrentDir),
    }
}

/// What was given on the command line.
#[derive(Debug)]
pub struct Opts {
    /// The arguments that name the operation.
    pub args: Vec<String>,
    /// The place of the store, if one was given.
    pub config: Option<String>,
    /// The directory to work from, if one was given.
    pub pwd: Option<String>,
}

/// The configuration of one run.
#[derive(Debug)]
pub struct Config {
    /// What to do.
    pub operation: Operation,
    /// The directory to work from.
    pub pwd: String,
    /// The place of the store.
    pub config: String,
}

/// The configuration with its texts as plain sequences.
pub struct ConfigModel {
    pub operation: OperationModel,
    pub pwd: Seq<char>,
    pub config: Seq<char>,
}

impl View for Config {
    type V = ConfigModel;

    open spec fn view(&self) -> ConfigModel {
        ConfigModel { operation: self.operation@, pwd: self.pwd@, config: self.config@ }
    }
}

/// The configuration that the options and the surroundings give: the
/// operation is read first, then the place of the store, then the
/// directory, and the first that fails gives the error.
pub open spec fn configure(
    value: Opts,
    home: Option<String>,
    current_dir: Option<String>,
) -> Result<ConfigModel, ConfigError> {
    match parse_args(texts(value.args@)) {
        Err(e) => Err(ConfigError::Args(e)),
        Ok(operation) => match location_of(value.config, home) {
            Err(e) => Err(e),
            Ok(config) => match directory_of(value.pwd, current_dir) {
                Err(e) => Err(e),
                Ok(pwd) => Ok(ConfigModel { operation, pwd, config }),
            },
        },
    }
}

impl Config {
    /// Makes the configuration of a run from what was given on the command
    /// line, the home directory and the current directory, the last two as
    /// far as they are known.
    pub fn try_from(value: Opts, home: Option<String>, current_dir: Option<String>) -> (r: Result<
        Config,
        ConfigError,
    >)
        ensures
            match r {
                Ok(c) => configure(value, home, current_dir) == Ok::<ConfigModel, ConfigError>(c@),
                Err(e) => configure(value, home, current_dir) == Err::<ConfigModel, ConfigError>(e),
            },
    {
        let operation = match Operation::try_from(value.args) {
            Ok(op) => op,
            Err(e) => {
                return Err(ConfigError::Args(e));
            },
        };
        let config = match get_config(value.config, home) {
            Ok(v) => v,
            Err(e) => {
                return Err(e);
            },
        };
        let pwd = match get_pwd(value.pwd, current_dir) {
            Ok(v) => v,
            Err(e) => {
                return Err(e);
            },
        };
        Ok(Config { operation, pwd, config })
    }
}

} // verus!
