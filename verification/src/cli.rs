//! The arguments of the command line: what they are, how they are read from
//! the words that the program was started with, and when they are refused.

pub mod text;

use vstd::prelude::*;
use vstd::string::*;
use crate::johansen_models::JohansenModel;
use text::{
    find_comma,
    parse_unsigned,
    spec_comma_index,
    spec_parse_unsigned,
    spec_trim,
    spec_trim_start,
    spec_without,
    text_chars,
    trim_bounds,
};

verus! {

/// An option that takes a value.
#[derive(Debug, Clone, Copy, PartialEq, Eq, Structural)]
pub enum Parameter {
    /// `--threads`
    Threads,
    /// `--steps`
    Steps,
    /// `--runs`
    Runs,
    /// `--dim-start`
    DimStart,
    /// `--dim-end`
    DimEnd,
    /// `--dim`
    Dim,
    /// `--model`
    Model,
}

/// Why the arguments are refused.
#[derive(Debug, Clone, Copy, PartialEq, Eq, Structural)]
pub enum CliError {
    /// The option is the last word, and its value is missing.
    MissingValue { parameter: Parameter },
    /// The value of the option is no number.
    InvalidNumber { parameter: Parameter },
    /// The characters from `start` up to `end` of the model list name no
    /// model. The list is the word at `word`; zero where it is no word of a
    /// command line.
    InvalidModel { word: usize, start: usize, end: usize },
    /// The model list names no model at all.
    EmptyModelList { word: usize },
    /// The word at `index` is no option.
    UnknownArgument { index: usize },
    /// The first dimension is greater than the last.
    DimensionRange { start: usize, end: usize },
    /// A number of steps, of runs or a first dimension of zero.
    ZeroParameter,
}

/// What is to be done about the number of threads.
#[derive(Debug, Clone, Copy, PartialEq, Eq, Structural)]
pub enum ThreadVerdict {
    /// The machine has that many cores.
    Accepted,
    /// The machine has fewer cores, but at least half as many: the user is to
    /// be asked.
    NeedsConfirmation { threads: usize, available: usize },
    /// The machine has less than half as many cores.
    Rejected { threads: usize, available: usize },
}

/// The arguments of a run.
#[derive(Debug, Clone)]
pub struct CliArgs {
    /// The number of threads, where it is given.
    pub num_threads: Option<usize>,
    /// The number of time steps of a simulation.
    pub steps: usize,
    /// The number of runs per model.
    pub num_runs: usize,
    /// The first dimension.
    pub dim_start: usize,
    /// The last dimension.
    pub dim_end: usize,
    /// The models, where they are given; all of them where they are not.
    pub models: Option<Vec<JohansenModel>>,
    /// Whether progress is kept silent.
    pub quiet: bool,
}

/// `CliArgs` as plain values.
pub struct CliArgsView {
    pub num_threads: Option<usize>,
    pub steps: usize,
    pub num_runs: usize,
    pub dim_start: usize,
    pub dim_end: usize,
    pub models: Option<Seq<JohansenModel>>,
    pub quiet: bool,
}

impl View for CliArgs {
    type V = CliArgsView;

    open spec fn view(&self) -> CliArgsView {
        CliArgsView {
            num_threads: self.num_threads,
            steps: self.steps,
            num_runs: self.num_runs,
            dim_start: self.dim_start,
            dim_end: self.dim_end,
            models: match self.models {
                Some(models) => Some(models@),
                None => None,
            },
            quiet: self.quiet,
        }
    }
}

/// The arguments of a run that is started without any: ten thousand steps,
/// ten million runs, the dimensions from 1 to 12, every model.
pub open spec fn spec_default_args() -> CliArgsView {
    CliArgsView {
        num_threads: None,
        steps: 10_000,
        num_runs: 10_000_000,
        dim_start: 1,
        dim_end: 12,
        models: None,
        quiet: false,
    }
}

/// The words of the command line as sequences of characters.
pub open spec fn spec_words(args: Seq<String>) -> Seq<Seq<char>> {
    Seq::new(args.len(), |i: int| args[i]@)
}

/// The option that a word names, where it names one that takes a value.
pub open spec fn spec_parameter(word: Seq<char>) -> Option<Parameter> {
    if word == "--threads"@ {
        Some(Parameter::Threads)
    } else if word == "--steps"@ {
        Some(Parameter::Steps)
    } else if word == "--runs"@ {
        Some(Parameter::Runs)
    } else if word == "--dim-start"@ {
        Some(Parameter::DimStart)
    } else if word == "--dim-end"@ {
        Some(Parameter::DimEnd)
    } else if word == "--dim"@ {
        Some(Parameter::Dim)
    } else if word == "--model"@ {
        Some(Parameter::Model)
    } else {
        None
    }
}

/// The arguments with the number `value` given to `parameter`.
pub open spec fn spec_with_number(args: CliArgsView, parameter: Parameter, value: usize)
    -> CliArgsView {
    match parameter {
        Parameter::Threads => CliArgsView { num_threads: Some(value), ..args },
        Parameter::Steps => CliArgsView { steps: value, ..args },
        Parameter::Runs => CliArgsView { num_runs: value, ..args },
        Parameter::DimStart => CliArgsView { dim_start: value, ..args },
        Parameter::DimEnd => CliArgsView { dim_end: value, ..args },
        Parameter::Dim => CliArgsView { dim_start: value, dim_end: value, ..args },
        Parameter::Model => args,
    }
}

/// The models that the list from `pos` on names, behind those `found`
/// before. The names are numbers between commas, white space around them and
/// empty places between commas count for nothing.
pub open spec fn spec_parse_models_from(text: Seq<char>, pos: int, found: Seq<JohansenModel>)
    -> Result<Seq<JohansenModel>, CliError>
    decreases text.len() - pos,
{
    if pos < 0 || pos > text.len() {
        Ok(found)
    } else {
        let end = pos + spec_comma_index(text.skip(pos));
        let part = text.subrange(pos, end);
        let name = spec_trim(part);
        let start = pos + part.len() - spec_trim_start(part).len();
        let model = match spec_parse_unsigned(name, 255) {
            Some(number) => JohansenModel::spec_from_number(number as u8),
            None => None,
        };
        if name.len() > 0 && model is None {
            Err(
                CliError::InvalidModel {
                    word: 0,
                    start: start as usize,
                    end: (start + name.len()) as usize,
                },
            )
        } else {
            let models = if name.len() > 0 {
                found.push(model->Some_0)
            } else {
                found
            };
            if end >= text.len() {
                if models.len() == 0 {
                    Err(CliError::EmptyModelList { word: 0 })
                } else {
                    Ok(models)
                }
            } else {
                spec_parse_models_from(text, end + 1, models)
            }
        }
    }
}

/// The models that a list names.
pub open spec fn spec_parse_models(text: Seq<char>) -> Result<Seq<JohansenModel>, CliError> {
    spec_parse_models_from(text, 0, Seq::empty())
}

/// An error of a model list, told of the list that is the word at `word`.
pub open spec fn spec_in_word(error: CliError, word: usize) -> CliError {
    match error {
        CliError::InvalidModel { start, end, .. } => CliError::InvalidModel { word, start, end },
        CliError::EmptyModelList { .. } => CliError::EmptyModelList { word },
        _ => error,
    }
}

/// The arguments that the words from `index` on make of `args`.
pub open spec fn spec_parse_from(words: Seq<Seq<char>>, index: int, args: CliArgsView) -> Result<
    CliArgsView,
    CliError,
>
    decreases words.len() - index,
{
    if index < 0 || index >= words.len() {
        Ok(args)
    } else if words[index] == "--quiet"@ {
        spec_parse_from(words, index + 1, CliArgsView { quiet: true, ..args })
    } else {
        match spec_parameter(words[index]) {
            None => Err(CliError::UnknownArgument { index: index as usize }),
            Some(parameter) => if index + 1 >= words.len() {
                Err(CliError::MissingValue { parameter })
            } else if parameter == Parameter::Model {
                match spec_parse_models(words[index + 1]) {
                    Err(e) => Err(spec_in_word(e, (index + 1) as usize)),
                    Ok(models) => spec_parse_from(
                        words,
                        index + 2,
                        CliArgsView { models: Some(models), ..args },
                    ),
                }
            } else {
                match spec_parse_unsigned(
                    spec_without(words[index + 1], ','),
                    usize::MAX as nat,
                ) {
                    None => Err(CliError::InvalidNumber { parameter }),
                    Some(value) => spec_parse_from(
                        words,
                        index + 2,
                        spec_with_number(args, parameter, value as usize),
                    ),
                }
            },
        }
    }
}

/// Whether the first argument asks for help.
pub open spec fn spec_asks_for_help(words: Seq<Seq<char>>) -> bool {
    words.len() > 1 && (words[1] == "--help"@ || words[1] == "-h"@)
}

/// What makes arguments unusable, the number of threads apart: a first
/// dimension above the last, or a zero among steps, runs and first
/// dimension.
pub open spec fn spec_invalid(args: CliArgsView) -> Option<CliError> {
    if args.dim_start > args.dim_end {
        Some(CliError::DimensionRange { start: args.dim_start, end: args.dim_end })
    } else if args.steps == 0 || args.num_runs == 0 || args.dim_start == 0 {
        Some(CliError::ZeroParameter)
    } else {
        None
    }
}

/// What is to be done about `threads` threads on a machine with `available`
/// cores.
pub open spec fn spec_thread_verdict(threads: usize, available: usize) -> ThreadVerdict {
    if threads <= available {
        ThreadVerdict::Accepted
    } else if threads > 2 * available {
        ThreadVerdict::Rejected { threads, available }
    } else {
        ThreadVerdict::NeedsConfirmation { threads, available }
    }
}

/// Calls `num_cpus::get`: the number of logical cores that this process may
/// use. The number depends on the machine, and nothing is claimed of it.
#[verifier::external_body]
fn logical_cores() -> usize {
    num_cpus::get()
}

/// Whether two texts are the same.
fn same_text(a: &str, b: &str) -> (same: bool)
    ensures
        same == (a@ == b@),
{
    let left = String::from_str(a);
    let right = String::from_str(b);
    left == right
}

/// The option that a word names, where it names one that takes a value.
pub fn parameter_of(word: &str) -> (parameter: Option<Parameter>)
    ensures
        parameter == spec_parameter(word@),
{
    if same_text(word, "--threads") {
        Some(Parameter::Threads)
    } else if same_text(word, "--steps") {
        Some(Parameter::Steps)
    } else if same_text(word, "--runs") {
        Some(Parameter::Runs)
    } else if same_text(word, "--dim-start") {
        Some(Parameter::DimStart)
    } else if same_text(word, "--dim-end") {
        Some(Parameter::DimEnd)
    } else if same_text(word, "--dim") {
        Some(Parameter::Dim)
    } else if same_text(word, "--model") {
        Some(Parameter::Model)
    } else {
        None
    }
}

/// An error of a model list, told of the list that is the word at `word`.
pub fn in_word(error: CliError, word: usize) -> (told: CliError)
    ensures
        told == spec_in_word(error, word),
{
    match error {
        CliError::InvalidModel { start, end, .. } => CliError::InvalidModel { word, start, end },
        CliError::EmptyModelList { .. } => CliError::EmptyModelList { word },
        _ => error,
    }
}

/// What is to be done about `threads` threads on a machine with `available`
/// cores.
pub fn thread_verdict(threads: usize, available: usize) -> (verdict: ThreadVerdict)
    ensures
        verdict == spec_thread_verdict(threads, available),
{
    if threads <= available {
        ThreadVerdict::Accepted
    } else if threads - available > available {
        ThreadVerdict::Rejected { threads, available }
    } else {
        ThreadVerdict::NeedsConfirmation { threads, available }
    }
}

impl CliArgs {
    /// Reads a list of models: their numbers, with commas between them.
    pub fn parse_models(s: &str) -> (result: Result<Vec<JohansenModel>, CliError>)
        ensures
            match result {
                Ok(models) => spec_parse_models(s@) == Ok::<Seq<JohansenModel>, CliError>(
                    models@,
                ),
                Err(e) => spec_parse_models(s@) == Err::<Seq<JohansenModel>, CliError>(e),
            },
    {
        let chars = text_chars(s);
        let mut models: Vec<JohansenModel> = Vec::new();
        let mut pos: usize = 0;
        loop
            invariant_except_break
                pos <= chars@.len(),
                chars@ == s@,
                spec_parse_models(s@) == spec_parse_models_from(s@, pos as int, models@),
            ensures
                spec_parse_models(s@) == if models@.len() == 0 {
                    Err::<Seq<JohansenModel>, CliError>(CliError::EmptyModelList { word: 0 })
                } else {
                    Ok::<Seq<JohansenModel>, CliError>(models@)
                },
            decreases chars@.len() - pos,
        {
            let end: usize = find_comma(&chars, pos);
            let (start, stop) = trim_bounds(&chars, pos, end);
            if start < stop {
                let model = match parse_unsigned(&chars, start, stop, 255, false) {
                    Some(number) => JohansenModel::from_number(number as u8),
                    None => None,
                };
                match model {
                    Some(model) => models.push(model),
                    None => {
                        return Err(CliError::InvalidModel { word: 0, start, end: stop });
                    },
                }
            }
            if end >= chars.len() {
                break ;
            }
            pos = end + 1;
        }
        if models.len() == 0 {
            Err(CliError::EmptyModelList { word: 0 })
        } else {
            Ok(models)
        }
    }

    /// What makes these arguments unusable, the number of threads apart.
    pub fn invalid(&self) -> (error: Option<CliError>)
        ensures
            error == spec_invalid(self@),
    {
        if self.dim_start > self.dim_end {
            Some(CliError::DimensionRange { start: self.dim_start, end: self.dim_end })
        } else if self.steps == 0 || self.num_runs == 0 || self.dim_start == 0 {
            Some(CliError::ZeroParameter)
        } else {
            None
        }
    }

    /// What is to be done about the number of threads of these arguments on
    /// this machine: nothing where none is given.
    pub fn validate_thread_count(&self) -> (verdict: ThreadVerdict)
        ensures
            self.num_threads is None ==> verdict is Accepted,
            self.num_threads is Some ==> exists|available: usize|
                verdict == spec_thread_verdict(self.num_threads->Some_0, available),
    {
        match self.num_threads {
            None => ThreadVerdict::Accepted,
            Some(threads) => {
                let available: usize = logical_cores();
                thread_verdict(threads, available)
            },
        }
    }

    /// Reads the arguments from the words of the command line, the first of
    /// which is the name of the program. `None` says that help was asked for.
    /// What is read is refused where it is unusable.
    pub fn parse_from(args: &Vec<String>) -> (result: Result<Option<Self>, CliError>)
        ensures
            spec_asks_for_help(spec_words(args@)) ==> result == Ok::<Option<Self>, CliError>(None),
            !spec_asks_for_help(spec_words(args@)) ==> match spec_parse_from(
                spec_words(args@),
                1,
                spec_default_args(),
            ) {
                Err(e) => result == Err::<Option<Self>, CliError>(e),
                Ok(parsed) => match spec_invalid(parsed) {
                    Some(e) => result == Err::<Option<Self>, CliError>(e),
                    None => result is Ok && result->Ok_0 is Some && result->Ok_0->Some_0@
                        == parsed,
                },
            },
    {
        let ghost words = spec_words(args@);
        if args.len() > 1 {
            assert(words[1] == args@[1]@);
            if same_text(args[1].as_str(), "--help") || same_text(args[1].as_str(), "-h") {
                return Ok(None);
            }
        }
        assert(!spec_asks_for_help(words));
        let mut config = CliArgs::default();
        let mut i: usize = 1;
        while i < args.len()
            invariant
                1 <= i,
                words == spec_words(args@),
                !spec_asks_for_help(words),
                spec_parse_from(words, 1, spec_default_args()) == spec_parse_from(
                    words,
                    i as int,
                    config@,
                ),
            decreases args.len() - i,
        {
            assert(words[i as int] == args@[i as int]@);
            let word: &str = args[i].as_str();
            if same_text(word, "--quiet") {
                config.quiet = true;
                i = i + 1;
            } else {
                let parameter = match parameter_of(word) {
                    None => {
                        return Err(CliError::UnknownArgument { index: i });
                    },
                    Some(parameter) => parameter,
                };
                if i + 1 >= args.len() {
                    return Err(CliError::MissingValue { parameter });
                }
                assert(words[i + 1] == args@[i + 1]@);
                let value: &str = args[i + 1].as_str();
                match parameter {
                    Parameter::Model => {
                        match Self::parse_models(value) {
                            Err(e) => {
                                return Err(in_word(e, i + 1));
                            },
                            Ok(models) => {
                                config.models = Some(models);
                            },
                        }
                    },
                    _ => {
                        let chars = text_chars(value);
                        assert(chars@.subrange(0, chars@.len() as int) =~= chars@);
                        let number = match parse_unsigned(
                            &chars,
                            0,
                            chars.len(),
                            usize::MAX,
                            true,
                        ) {
                            None => {
                                return Err(CliError::InvalidNumber { parameter });
                            },
                            Some(number) => number,
                        };
                        match parameter {
                            Parameter::Threads => {
                                config.num_threads = Some(number);
                            },
                            Parameter::Steps => {
                                config.steps = number;
                            },
                            Parameter::Runs => {
                                config.num_runs = number;
                            },
                            Parameter::DimStart => {
                                config.dim_start = number;
                            },
                            Parameter::DimEnd => {
                                config.dim_end = number;
                            },
                            _ => {
                                config.dim_start = number;
                                config.dim_end = number;
                            },
                        }
                    },
                }
                i = i + 2;
            }
        }
        match config.invalid() {
            Some(e) => Err(e),
            None => Ok(Some(config)),
        }
    }
}

impl Default for CliArgs {
    fn default() -> (args: Self)
        ensures
            args@ == spec_default_args(),
    {
        CliArgs {
            num_threads: None,
            steps: 10_000,
            num_runs: 10_000_000,
            dim_start: 1,
            dim_end: 12,
            models: None,
            quiet: false,
        }
    }
}

} // verus!
