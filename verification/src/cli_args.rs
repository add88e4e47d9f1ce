//! What the command line asks for, once its arguments are parsed: where the
//! lock file is read from, where the result goes, and how it is written.
//!
//! A path is held as text. The argument `-` stands for the standard stream;
//! every other argument is the path of a file.

use vstd::prelude::*;

verus! {

/// Where the lock file is read from.
#[derive(Debug, PartialEq)]
pub enum Input {
    Stdin,
    File(String),
}

/// Where the result is written to.
#[derive(Debug, PartialEq)]
pub enum Output {
    Stdout,
    File(String),
}

impl Clone for Input {
    fn clone(&self) -> (copy: Self)
        ensures
            copy == *self,
    {
        match self {
            Input::Stdin => Input::Stdin,
            Input::File(path) => Input::File(path.clone()),
        }
    }
}

impl Clone for Output {
    fn clone(&self) -> (copy: Self)
        ensures
            copy == *self,
    {
        match self {
            Output::Stdout => Output::Stdout,
            Output::File(path) => Output::File(path.clone()),
        }
    }
}

impl Default for Output {
    fn default() -> (output: Self)
        ensures
            output == Output::Stdout,
    {
        Output::Stdout
    }
}

impl Input {
    /// The input that the argument `arg` names.
    pub open spec fn of_arg(arg: String) -> Input {
        if arg@ == "-"@ {
            Input::Stdin
        } else {
            Input::File(arg)
        }
    }

    /// The input that the argument `arg` names: standard input for `-`, the
    /// file at the path `arg` for anything else.
    pub fn from_arg(arg: String) -> (input: Self)
        ensures
            input == Input::of_arg(arg),
    {
        if *arg.as_str() == *"-" {
            Input::Stdin
        } else {
            Input::File(arg)
        }
    }
}

impl Output {
    /// The output that the argument `arg` names.
    pub open spec fn of_arg(arg: String) -> Output {
        if arg@ == "-"@ {
            Output::Stdout
        } else {
            Output::File(arg)
        }
    }

    /// The output that goes back to where `input` came from.
    pub open spec fn of_input(input: Input) -> Output {
        match input {
            Input::Stdin => Output::Stdout,
            Input::File(path) => Output::File(path),
        }
    }

    /// The output that the argument `arg` names: standard output for `-`,
    /// the file at the path `arg` for anything else.
    pub fn from_arg(arg: String) -> (output: Self)
        ensures
            output == Output::of_arg(arg),
    {
        if *arg.as_str() == *"-" {
            Output::Stdout
        } else {
            Output::File(arg)
        }
    }
}

impl<'a> From<&'a str> for Input {
    fn from(value: &'a str) -> (input: Self)
        ensures
            match input {
                Input::Stdin => value@ == "-"@,
                Input::File(path) => value@ != "-"@ && path@ == value@,
            },
    {
        Input::from_arg(value.to_owned())
    }
}

impl<'a> vstd::std_specs::convert::FromSpecImpl<&'a str> for Input {
    open spec fn obeys_from_spec() -> bool {
        false
    }

    open spec fn from_spec(value: &'a str) -> Input {
        arbitrary()
    }
}

impl From<String> for Input {
    fn from(value: String) -> (input: Self) {
        Input::from_arg(value)
    }
}

impl vstd::std_specs::convert::FromSpecImpl<String> for Input {
    open spec fn obeys_from_spec() -> bool {
        true
    }

    open spec fn from_spec(value: String) -> Input {
        Input::of_arg(value)
    }
}

impl<'a> From<&'a str> for Output {
    fn from(value: &'a str) -> (output: Self)
        ensures
            match output {
                Output::Stdout => value@ == "-"@,
                Output::File(path) => value@ != "-"@ && path@ == value@,
            },
    {
        Output::from_arg(value.to_owned())
    }
}

impl<'a> vstd::std_specs::convert::FromSpecImpl<&'a str> for Output {
    open spec fn obeys_from_spec() -> bool {
        false
    }

    open spec fn from_spec(value: &'a str) -> Output {
        arbitrary()
    }
}

impl From<String> for Output {
    fn from(value: String) -> (output: Self) {
        Output::from_arg(value)
    }
}

impl vstd::std_specs::convert::FromSpecImpl<String> for Output {
    open spec fn obeys_from_spec() -> bool {
        true
    }

    open spec fn from_spec(value: String) -> Output {
        Output::of_arg(value)
    }
}

impl From<Input> for Output {
    fn from(value: Input) -> (output: Self) {
        match value {
            Input::Stdin => Output::Stdout,
            Input::File(path) => Output::File(path),
        }
    }
}

impl vstd::std_specs::convert::FromSpecImpl<Input> for Output {
    open spec fn obeys_from_spec() -> bool {
        true
    }

    open spec fn from_spec(value: Input) -> Output {
        Output::of_input(value)
    }
}

/// How and where the result is written.
#[derive(Clone, Debug, PartialEq)]
pub struct JsonOutputOptions {
    /// Write the new lock file back to where it was read from.
    pub in_place: bool,
    /// Overwrite the output file if it exists.
    pub overwrite: bool,
    /// Do not minify the output.
    pub pretty: bool,
    /// Where the new lock file is written.
    pub output: Output,
}

impl JsonOutputOptions {
    /// The options as they hold for a lock file read from `lock_file`:
    /// writing in place means writing to where the lock file came from,
    /// and overwriting what is there.
    pub open spec fn settled_for(self, lock_file: Input) -> JsonOutputOptions {
        if self.in_place {
            JsonOutputOptions {
                in_place: true,
                overwrite: true,
                pretty: self.pretty,
                output: Output::of_input(lock_file),
            }
        } else {
            self
        }
    }

    /// Settles the options for a lock file read from `lock_file`. Where the
    /// result is to be written in place, the output becomes the place that
    /// the lock file was read from, and overwriting is switched on; the
    /// output and the permission given on the command line are then
    /// ignored. Otherwise the options stay as they are.
    pub fn settle(self, lock_file: &Input) -> (settled: Self)
        ensures
            settled == self.settled_for(*lock_file),
    {
        if self.in_place {
            JsonOutputOptions {
                in_place: true,
                overwrite: true,
                pretty: self.pretty,
                output: Output::from(lock_file.clone()),
            }
        } else {
            self
        }
    }

    /// Whether an output file that is already there stands in the way: it
    /// does unless overwriting is allowed.
    pub fn must_be_new(&self) -> (fresh: bool)
        ensures
            fresh == !self.overwrite,
    {
        !self.overwrite
    }
}

/// What the program is asked to do.
#[derive(Clone, Debug, PartialEq)]
pub enum Command {
    /// Redirect inputs to the root's inputs, then remove what is no longer
    /// reachable.
    Prune {
        /// Copy the root's references instead of following them.
        no_follows: bool,
        output_opts: JsonOutputOptions,
        lock_file: Input,
    },
    /// Report how often each node is reached.
    Count {
        /// Report as JSON.
        json: bool,
        output_opts: JsonOutputOptions,
        lock_file: Input,
    },
}

impl Command {
    /// The command with its output options settled for its lock file.
    pub open spec fn settled(self) -> Command {
        match self {
            Command::Prune { no_follows, output_opts, lock_file } => Command::Prune {
                no_follows,
                output_opts: output_opts.settled_for(lock_file),
                lock_file,
            },
            Command::Count { json, output_opts, lock_file } => Command::Count {
                json,
                output_opts: output_opts.settled_for(lock_file),
                lock_file,
            },
        }
    }

    /// Settles a command as the arguments gave it: a command that writes in
    /// place writes to where its lock file came from and may overwrite it.
    pub fn from_parsed(parsed: Command) -> (command: Self)
        ensures
            command == parsed.settled(),
    {
        match parsed {
            Command::Prune { no_follows, output_opts, lock_file } => {
                let output_opts = output_opts.settle(&lock_file);
                Command::Prune { no_follows, output_opts, lock_file }
            },
            Command::Count { json, output_opts, lock_file } => {
                let output_opts = output_opts.settle(&lock_file);
                Command::Count { json, output_opts, lock_file }
            },
        }
    }
}

} // verus!
