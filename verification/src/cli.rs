//! The command line: a verbosity and one of the subcommands `build`, `clean`,
//! `new`, `run` and `update`, read from the list of arguments.
use vstd::prelude::*;
use vstd::string::{axiom_spec_iter, next_postcondition};

verus! {

/// Why a command line was refused.
#[derive(Clone, Copy, Debug, PartialEq, Eq, Structural)]
pub enum CliError {
    /// No subcommand was given.
    MissingCommand,
    /// The subcommand is not one of `build`, `clean`, `new`, `run`, `update`.
    UnknownCommand,
    /// An option that takes a value was given none.
    MissingValue,
    /// The verbosity is not a decimal number from 0 to 255.
    InvalidVerbosity,
    /// An option was given that the command does not take.
    UnknownOption,
    /// An option was given twice.
    DuplicateOption,
    /// A required argument is missing.
    MissingArgument,
    /// An argument was given that the command does not take.
    UnexpectedArgument,
}

/// The arguments of `run`.
pub struct RunView {
    pub function: Seq<char>,
    pub inputs: Seq<Seq<char>>,
    pub endpoint: Option<Seq<char>>,
    pub offline: bool,
}

/// A subcommand with its arguments.
pub enum CommandView {
    Build,
    Clean,
    New(Seq<char>),
    Run(RunView),
    Update,
}

/// A parsed command line.
pub struct CliView {
    pub verbosity: u8,
    pub command: CommandView,
}

/// The verbosity when none is given.
pub const DEFAULT_VERBOSITY: u8 = 2;

/// An argument that starts with `-` is an option.
pub open spec fn is_option(t: Seq<char>) -> bool {
    t.len() > 0 && t[0] == '-'
}

/// Every character is a decimal digit, and there is at least one.
pub open spec fn is_digits(s: Seq<char>) -> bool {
    s.len() > 0 && forall|i: int| 0 <= i < s.len() ==> '0' <= #[trigger] s[i] <= '9'
}

/// The number that a string of decimal digits writes.
pub open spec fn digits_value(s: Seq<char>) -> int
    decreases s.len(),
{
    if s.len() == 0 {
        0
    } else {
        digits_value(s.drop_last()) * 10 + (s.last() as int - '0' as int)
    }
}

/// The `u8` that a string writes in decimal, if it writes one.
pub open spec fn parse_u8_spec(s: Seq<char>) -> Option<u8> {
    if is_digits(s) && digits_value(s) <= 255 {
        Some(digits_value(s) as u8)
    } else {
        None
    }
}

/// `t` begins with `p`.
pub open spec fn starts_with(t: Seq<char>, p: Seq<char>) -> bool {
    p.len() <= t.len() && t.subrange(0, p.len() as int) == p
}

/// What follows the first `p.len()` characters of `t`.
pub open spec fn after(t: Seq<char>, p: Seq<char>) -> Seq<char> {
    t.subrange(p.len() as int, t.len() as int)
}

/// The verbosity written in the same argument as its option:
/// `--verbosity=<n>`, `-v<n>` or `-v=<n>`.
pub open spec fn attached_verbosity(t: Seq<char>) -> Option<Seq<char>> {
    if starts_with(t, "--verbosity="@) {
        Some(after(t, "--verbosity="@))
    } else if starts_with(t, "-v"@) && t.len() > 2 {
        let r = after(t, "-v"@);
        if starts_with(r, "="@) {
            Some(after(r, "="@))
        } else {
            Some(r)
        }
    } else {
        None
    }
}

/// The state of reading the arguments of `run`.
pub struct RunState {
    pub function: Option<Seq<char>>,
    pub inputs: Seq<Seq<char>>,
    pub endpoint: Option<Seq<char>>,
    pub offline: bool,
}

/// Reads the arguments of `run` from position `i` on: `--endpoint <url>` or
/// `--endpoint=<url>`, `--offline`, the function name and then its inputs.
pub open spec fn run_from(args: Seq<Seq<char>>, i: int, st: RunState) -> Result<RunView, CliError>
    decreases args.len() - i,
{
    if i >= args.len() || i < 0 {
        match st.function {
            None => Err(CliError::MissingArgument),
            Some(f) => Ok(RunView { function: f, inputs: st.inputs, endpoint: st.endpoint, offline: st.offline }),
        }
    } else if args[i] == "--endpoint"@ {
        if st.endpoint is Some {
            Err(CliError::DuplicateOption)
        } else if i + 1 >= args.len() || is_option(args[i + 1]) {
            Err(CliError::MissingValue)
        } else {
            run_from(args, i + 2, RunState { endpoint: Some(args[i + 1]), ..st })
        }
    } else if starts_with(args[i], "--endpoint="@) {
        if st.endpoint is Some {
            Err(CliError::DuplicateOption)
        } else {
            run_from(args, i + 1, RunState { endpoint: Some(after(args[i], "--endpoint="@)), ..st })
        }
    } else if args[i] == "--offline"@ {
        if st.offline {
            Err(CliError::DuplicateOption)
        } else {
            run_from(args, i + 1, RunState { offline: true, ..st })
        }
    } else if is_option(args[i]) {
        Err(CliError::UnknownOption)
    } else {
        match st.function {
            None => run_from(args, i + 1, RunState { function: Some(args[i]), ..st }),
            Some(_) => run_from(args, i + 1, RunState { inputs: st.inputs.push(args[i]), ..st }),
        }
    }
}

/// Reads the arguments of `new` from position `i` on: exactly one name.
pub open spec fn new_from(args: Seq<Seq<char>>, i: int) -> Result<Seq<char>, CliError> {
    if i >= args.len() || i < 0 {
        Err(CliError::MissingArgument)
    } else if is_option(args[i]) {
        Err(CliError::UnknownOption)
    } else if i + 1 < args.len() {
        if is_option(args[i + 1]) {
            Err(CliError::UnknownOption)
        } else {
            Err(CliError::UnexpectedArgument)
        }
    } else {
        Ok(args[i])
    }
}

/// Checks that nothing follows position `i`.
pub open spec fn none_from(args: Seq<Seq<char>>, i: int) -> Result<(), CliError> {
    if i >= args.len() || i < 0 {
        Ok(())
    } else if is_option(args[i]) {
        Err(CliError::UnknownOption)
    } else {
        Err(CliError::UnexpectedArgument)
    }
}

/// The subcommand named by `name`, with its arguments from position `i` on.
pub open spec fn command_from(args: Seq<Seq<char>>, name: Seq<char>, i: int) -> Result<CommandView, CliError> {
    if name == "run"@ {
        match run_from(args, i, RunState { function: None, inputs: Seq::empty(), endpoint: None, offline: false }) {
            Ok(r) => Ok(CommandView::Run(r)),
            Err(e) => Err(e),
        }
    } else if name == "new"@ {
        match new_from(args, i) {
            Ok(n) => Ok(CommandView::New(n)),
            Err(e) => Err(e),
        }
    } else if name == "build"@ || name == "clean"@ || name == "update"@ {
        match none_from(args, i) {
            Err(e) => Err(e),
            Ok(_) => Ok(
                if name == "build"@ {
                    CommandView::Build
                } else if name == "clean"@ {
                    CommandView::Clean
                } else {
                    CommandView::Update
                },
            ),
        }
    } else {
        Err(CliError::UnknownCommand)
    }
}

/// Reads the command line from position `i` on: `-v <n>` or
/// `--verbosity <n>` (or the value in the same argument, as
/// `attached_verbosity` reads it) at most once, then the subcommand and its
/// arguments.
pub open spec fn cli_from(args: Seq<Seq<char>>, i: int, verbosity: Option<u8>) -> Result<CliView, CliError>
    decreases args.len() - i,
{
    if i >= args.len() || i < 0 {
        Err(CliError::MissingCommand)
    } else if args[i] == "-v"@ || args[i] == "--verbosity"@ {
        if verbosity is Some {
            Err(CliError::DuplicateOption)
        } else if i + 1 >= args.len() || is_option(args[i + 1]) {
            Err(CliError::MissingValue)
        } else {
            match parse_u8_spec(args[i + 1]) {
                None => Err(CliError::InvalidVerbosity),
                Some(v) => cli_from(args, i + 2, Some(v)),
            }
        }
    } else if attached_verbosity(args[i]) is Some {
        if verbosity is Some {
            Err(CliError::DuplicateOption)
        } else {
            match parse_u8_spec(attached_verbosity(args[i])->0) {
                None => Err(CliError::InvalidVerbosity),
                Some(v) => cli_from(args, i + 1, Some(v)),
            }
        }
    } else if is_option(args[i]) {
        Err(CliError::UnknownOption)
    } else {
        match command_from(args, args[i], i + 1) {
            Err(e) => Err(e),
            Ok(c) => Ok(
                CliView {
                    verbosity: match verbosity {
                        Some(v) => v,
                        None => DEFAULT_VERBOSITY,
                    },
                    command: c,
                },
            ),
        }
    }
}

/// The command line that a list of arguments gives; the first argument is
/// the program's own name.
pub open spec fn parse_spec(args: Seq<Seq<char>>) -> Result<CliView, CliError> {
    cli_from(args, 1, None)
}

/// The characters of each argument.
pub open spec fn args_view(args: Seq<String>) -> Seq<Seq<char>> {
    args.map_values(|s: String| s@)
}

/// A longer string of digits writes no smaller a number.
proof fn lemma_digits_grow(s: Seq<char>, k: int)
    requires
        is_digits(s),
        0 <= k <= s.len(),
    ensures
        digits_value(s.subrange(0, k)) <= digits_value(s),
        0 <= digits_value(s.subrange(0, k)),
    decreases s.len() - k,
{
    if k < s.len() {
        lemma_digits_grow(s, k + 1);
        let p = s.subrange(0, k + 1);
        assert(p.drop_last() =~= s.subrange(0, k));
        assert('0' <= s[k] <= '9');
    } else {
        assert(s.subrange(0, k) =~= s);
        lemma_digits_nonneg(s);
    }
}

/// A string of digits writes a number of at least zero.
proof fn lemma_digits_nonneg(s: Seq<char>)
    requires
        forall|i: int| 0 <= i < s.len() ==> '0' <= #[trigger] s[i] <= '9',
    ensures
        0 <= digits_value(s),
    decreases s.len(),
{
    if s.len() > 0 {
        assert forall|i: int| 0 <= i < s.drop_last().len() implies '0' <= #[trigger] s.drop_last()[i] <= '9' by {
            assert(s.drop_last()[i] == s[i]);
        }
        lemma_digits_nonneg(s.drop_last());
        assert('0' <= s[s.len() - 1] <= '9');
    }
}

/// Returns the first character of `s`, if any.
fn first_char(s: &String) -> (r: Option<char>)
    ensures
        r == (if s@.len() > 0 {
            Some(s@[0])
        } else {
            None::<char>
        }),
{
    broadcast use axiom_spec_iter, next_postcondition;

    let mut it = s.as_str().chars();
    it.next()
}

/// Returns `true` if `s` starts with `-`.
fn is_option_exec(s: &String) -> (b: bool)
    ensures
        b == is_option(s@),
{
    match first_char(s) {
        Some(c) => c == '-',
        None => false,
    }
}

/// Returns what follows `p` in `t`, where `t` begins with `p`.
fn strip_prefix(t: &String, p: &String) -> (r: Option<String>)
    ensures
        match r {
            Some(s) => starts_with(t@, p@) && s@ == after(t@, p@),
            None => !starts_with(t@, p@),
        },
{
    let n = t.as_str().unicode_len();
    let m = p.as_str().unicode_len();
    if m > n {
        return None;
    }
    let mut i: usize = 0;
    while i < m
        invariant
            n == t@.len(),
            m == p@.len(),
            m <= n,
            i <= m,
            forall|j: int| 0 <= j < i ==> t@[j] == p@[j],
        decreases m - i,
    {
        if t.as_str().get_char(i) != p.as_str().get_char(i) {
            proof {
                assert(t@.subrange(0, m as int)[i as int] != p@[i as int]);
            }
            return None;
        }
        i = i + 1;
    }
    proof {
        assert(t@.subrange(0, m as int) =~= p@);
    }
    Some(t.as_str().substring_char(m, n).to_owned())
}

/// The verbosity written in the same argument as its option.
fn attached_verbosity_exec(t: &String) -> (r: Option<String>)
    ensures
        match r {
            Some(s) => attached_verbosity(t@) == Some(s@),
            None => attached_verbosity(t@) is None,
        },
{
    let long = "--verbosity=".to_owned();
    let short = "-v".to_owned();
    let eq = "=".to_owned();
    if let Some(rest) = strip_prefix(t, &long) {
        return Some(rest);
    }
    if t.as_str().unicode_len() > 2 {
        if let Some(rest) = strip_prefix(t, &short) {
            return match strip_prefix(&rest, &eq) {
                Some(v) => Some(v),
                None => Some(rest),
            };
        }
    }
    None
}

/// Reads a `u8` written in decimal.
pub fn parse_u8(s: &String) -> (r: Option<u8>)
    ensures
        r == parse_u8_spec(s@),
{
    broadcast use axiom_spec_iter, next_postcondition;

    let ghost cs = s@;
    let mut it = s.as_str().chars();
    let mut value: u32 = 0;
    let mut any = false;
    let ghost mut count: int = 0;
    proof {
        assert(cs.subrange(0, 0) =~= Seq::<char>::empty());
    }
    loop
        invariant
            cs == s@,
            0 <= count <= cs.len(),
            any == (count > 0),
            vstd::std_specs::iter::IteratorSpec::remaining(&it) == cs.subrange(count, cs.len() as int),
            vstd::std_specs::iter::IteratorSpec::obeys_prophetic_iter_laws(&it),
            forall|i: int| 0 <= i < count ==> '0' <= #[trigger] cs[i] <= '9',
            value == digits_value(cs.subrange(0, count)),
            value <= 255,
        decreases cs.len() - count,
    {
        match it.next() {
            None => {
                proof {
                    assert(count == cs.len());
                    assert(cs.subrange(0, count) =~= cs);
                }
                if !any {
                    return None;
                }
                return Some(value as u8);
            },
            Some(c) => {
                proof {
                    assert(count < cs.len());
                    assert(c == cs[count]);
                }
                if c < '0' || c > '9' {
                    proof {
                        assert(!is_digits(cs));
                    }
                    return None;
                }
                let d = (c as u32) - ('0' as u32);
                let next = value * 10 + d;
                proof {
                    assert(cs.subrange(0, count + 1).drop_last() =~= cs.subrange(0, count));
                    assert(cs.subrange(0, count + 1).last() == c);
                }
                if next > 255 {
                    proof {
                        if is_digits(cs) {
                            lemma_digits_grow(cs, count + 1);
                        }
                    }
                    return None;
                }
                value = next;
                any = true;
                proof {
                    count = count + 1;
                }
            },
        }
    }
}

/// The arguments of `run`: the function to run, its inputs, the endpoint to
/// fetch programs from and whether to stay offline.
#[derive(Debug, PartialEq, Eq)]
pub struct Run {
    function: String,
    inputs: Vec<String>,
    endpoint: Option<String>,
    offline: bool,
}

impl View for Run {
    type V = RunView;

    closed spec fn view(&self) -> RunView {
        RunView {
            function: self.function@,
            inputs: self.inputs@.map_values(|s: String| s@),
            endpoint: match self.endpoint {
                Some(e) => Some(e@),
                None => None,
            },
            offline: self.offline,
        }
    }
}

impl Run {
    /// Creates the arguments of `run`.
    pub fn new(function: String, inputs: Vec<String>, endpoint: Option<String>, offline: bool) -> (r: Run)
        ensures
            r@.function == function@,
            r@.inputs == inputs@.map_values(|s: String| s@),
            r@.endpoint == (match endpoint {
                Some(e) => Some(e@),
                None => None::<Seq<char>>,
            }),
            r@.offline == offline,
    {
        Run { function, inputs, endpoint, offline }
    }

    /// Returns the name of the function to run.
    pub fn function(&self) -> (f: &String)
        ensures
            f@ == self@.function,
    {
        &self.function
    }

    /// Returns the inputs of the function.
    pub fn inputs(&self) -> (v: &Vec<String>)
        ensures
            v@.map_values(|s: String| s@) == self@.inputs,
    {
        &self.inputs
    }

    /// Returns the endpoint, if one was given.
    pub fn endpoint(&self) -> (e: Option<&String>)
        ensures
            match e {
                Some(s) => self@.endpoint == Some(s@),
                None => self@.endpoint is None,
            },
    {
        match &self.endpoint {
            Some(s) => Some(s),
            None => None,
        }
    }

    /// Returns `true` if the run stays offline.
    pub fn offline(&self) -> (b: bool)
        ensures
            b == self@.offline,
    {
        self.offline
    }
}

/// A subcommand with its arguments.
#[derive(Debug, PartialEq, Eq)]
pub enum Command {
    /// Builds the package.
    Build,
    /// Cleans the build files of the package.
    Clean,
    /// Creates a package with the given name.
    New(String),
    /// Runs a function of the package.
    Run(Run),
    /// Updates the tool.
    Update,
}

/// The view of a subcommand.
pub open spec fn command_view(c: Command) -> CommandView {
    match c {
        Command::Build => CommandView::Build,
        Command::Clean => CommandView::Clean,
        Command::New(n) => CommandView::New(n@),
        Command::Run(r) => CommandView::Run(r@),
        Command::Update => CommandView::Update,
    }
}

/// A command line: the verbosity and the subcommand.
#[derive(Debug, PartialEq, Eq)]
pub struct CLI {
    /// The verbosity, from 0 to 3.
    pub verbosity: u8,
    /// The subcommand.
    pub command: Command,
}

/// The view of a parsed command line.
pub open spec fn cli_result_view(r: Result<CLI, CliError>) -> Result<CliView, CliError> {
    match r {
        Ok(c) => Ok(CliView { verbosity: c.verbosity, command: command_view(c.command) }),
        Err(e) => Err(e),
    }
}

/// The view of the parsed arguments of `run`.
pub open spec fn run_result_view(r: Result<Run, CliError>) -> Result<RunView, CliError> {
    match r {
        Ok(run) => Ok(run@),
        Err(e) => Err(e),
    }
}

/// The state of reading the arguments of `run`, as a view.
pub open spec fn run_state(function: Option<String>, inputs: Seq<String>, endpoint: Option<String>, offline: bool) -> RunState {
    RunState {
        function: match function {
            Some(f) => Some(f@),
            None => None,
        },
        inputs: inputs.map_values(|s: String| s@),
        endpoint: match endpoint {
            Some(e) => Some(e@),
            None => None,
        },
        offline,
    }
}

/// Reads the arguments of `run` from position `start` on.
fn run_args(args: &Vec<String>, start: usize) -> (r: Result<Run, CliError>)
    requires
        start <= args@.len(),
    ensures
        run_result_view(r) == run_from(
            args_view(args@),
            start as int,
            RunState { function: None, inputs: Seq::empty(), endpoint: None, offline: false },
        ),
{
    let ghost a = args_view(args@);
    let endpoint_flag = "--endpoint".to_owned();
    let offline_flag = "--offline".to_owned();
    let endpoint_eq = "--endpoint=".to_owned();
    let mut function: Option<String> = None;
    let mut inputs: Vec<String> = Vec::new();
    let mut endpoint: Option<String> = None;
    let mut offline = false;
    let mut i: usize = start;
    proof {
        assert(inputs@.map_values(|s: String| s@) =~= Seq::<Seq<char>>::empty());
        assert(run_state(function, inputs@, endpoint, offline) == (RunState {
            function: None,
            inputs: Seq::empty(),
            endpoint: None,
            offline: false,
        }));
    }
    loop
        invariant
            a == args_view(args@),
            a.len() == args@.len(),
            endpoint_flag@ == "--endpoint"@,
            offline_flag@ == "--offline"@,
            endpoint_eq@ == "--endpoint="@,
            start <= i <= args@.len(),
            run_from(a, start as int, RunState { function: None, inputs: Seq::empty(), endpoint: None, offline: false })
                == run_from(a, i as int, run_state(function, inputs@, endpoint, offline)),
        decreases args@.len() - i,
    {
        if i >= args.len() {
            return match function {
                None => Err(CliError::MissingArgument),
                Some(f) => {
                    let r = Run { function: f, inputs, endpoint, offline };
                    proof {
                        assert(r@ == (RunView {
                            function: f@,
                            inputs: inputs@.map_values(|s: String| s@),
                            endpoint: run_state(function, inputs@, endpoint, offline).endpoint,
                            offline,
                        }));
                    }
                    Ok(r)
                },
            };
        }
        let t = &args[i];
        proof {
            assert(a[i as int] == t@);
        }
        if *t == endpoint_flag {
            if endpoint.is_some() {
                return Err(CliError::DuplicateOption);
            }
            if i + 1 >= args.len() {
                return Err(CliError::MissingValue);
            }
            proof {
                assert(a[i + 1] == args@[i + 1]@);
            }
            if is_option_exec(&args[i + 1]) {
                return Err(CliError::MissingValue);
            }
            endpoint = Some(args[i + 1].clone());
            i = i + 2;
        } else if let Some(url) = strip_prefix(t, &endpoint_eq) {
            if endpoint.is_some() {
                return Err(CliError::DuplicateOption);
            }
            endpoint = Some(url);
            i = i + 1;
        } else if *t == offline_flag {
            if offline {
                return Err(CliError::DuplicateOption);
            }
            offline = true;
            i = i + 1;
        } else if is_option_exec(t) {
            return Err(CliError::UnknownOption);
        } else {
            match function {
                None => {
                    function = Some(t.clone());
                },
                Some(_) => {
                    let ghost before = inputs@;
                    inputs.push(t.clone());
                    proof {
                        assert(inputs@.map_values(|s: String| s@) =~= before.map_values(|s: String| s@).push(t@));
                    }
                },
            }
            i = i + 1;
        }
    }
}

/// Reads the arguments of `new` from position `start` on.
fn new_args(args: &Vec<String>, start: usize) -> (r: Result<String, CliError>)
    requires
        start <= args@.len(),
    ensures
        match r {
            Ok(n) => new_from(args_view(args@), start as int) == Ok::<Seq<char>, CliError>(n@),
            Err(e) => new_from(args_view(args@), start as int) == Err::<Seq<char>, CliError>(e),
        },
{
    let ghost a = args_view(args@);
    if start >= args.len() {
        return Err(CliError::MissingArgument);
    }
    proof {
        assert(a[start as int] == args@[start as int]@);
    }
    if is_option_exec(&args[start]) {
        return Err(CliError::UnknownOption);
    }
    if start + 1 < args.len() {
        proof {
            assert(a[start + 1] == args@[start + 1]@);
        }
        if is_option_exec(&args[start + 1]) {
            return Err(CliError::UnknownOption);
        }
        return Err(CliError::UnexpectedArgument);
    }
    Ok(args[start].clone())
}

/// Checks that no argument follows position `start`.
fn no_args(args: &Vec<String>, start: usize) -> (r: Result<(), CliError>)
    requires
        start <= args@.len(),
    ensures
        r == none_from(args_view(args@), start as int),
{
    let ghost a = args_view(args@);
    if start >= args.len() {
        return Ok(());
    }
    proof {
        assert(a[start as int] == args@[start as int]@);
    }
    if is_option_exec(&args[start]) {
        Err(CliError::UnknownOption)
    } else {
        Err(CliError::UnexpectedArgument)
    }
}

/// Reads the subcommand named `name` with its arguments from position `start` on.
fn command_args(args: &Vec<String>, name: &String, start: usize) -> (r: Result<Command, CliError>)
    requires
        start <= args@.len(),
    ensures
        match r {
            Ok(c) => command_from(args_view(args@), name@, start as int) == Ok::<CommandView, CliError>(command_view(c)),
            Err(e) => command_from(args_view(args@), name@, start as int) == Err::<CommandView, CliError>(e),
        },
{
    let run = "run".to_owned();
    let new = "new".to_owned();
    let build = "build".to_owned();
    let clean = "clean".to_owned();
    let update = "update".to_owned();
    if *name == run {
        match run_args(args, start) {
            Ok(r) => Ok(Command::Run(r)),
            Err(e) => Err(e),
        }
    } else if *name == new {
        match new_args(args, start) {
            Ok(n) => Ok(Command::New(n)),
            Err(e) => Err(e),
        }
    } else if *name == build || *name == clean || *name == update {
        match no_args(args, start) {
            Err(e) => Err(e),
            Ok(_) => Ok(
                if *name == build {
                    Command::Build
                } else if *name == clean {
                    Command::Clean
                } else {
                    Command::Update
                },
            ),
        }
    } else {
        Err(CliError::UnknownCommand)
    }
}

impl CLI {
    /// Reads a command line from a list of arguments whose first is the
    /// program's own name.
    pub fn parse_from(args: &Vec<String>) -> (r: Result<CLI, CliError>)
        ensures
            cli_result_view(r) == parse_spec(args_view(args@)),
    {
        let ghost a = args_view(args@);
        let short = "-v".to_owned();
        let long = "--verbosity".to_owned();
        if args.len() < 1 {
            return Err(CliError::MissingCommand);
        }
        let mut verbosity: Option<u8> = None;
        let mut i: usize = 1;
        loop
            invariant
                a == args_view(args@),
                a.len() == args@.len(),
                short@ == "-v"@,
                long@ == "--verbosity"@,
                1 <= i <= args@.len(),
                parse_spec(a) == cli_from(a, i as int, verbosity),
            decreases args@.len() - i,
        {
            if i >= args.len() {
                return Err(CliError::MissingCommand);
            }
            let t = &args[i];
            proof {
                assert(a[i as int] == t@);
            }
            if *t == short || *t == long {
                if verbosity.is_some() {
                    return Err(CliError::DuplicateOption);
                }
                if i + 1 >= args.len() {
                    return Err(CliError::MissingValue);
                }
                proof {
                    assert(a[i + 1] == args@[i + 1]@);
                }
                if is_option_exec(&args[i + 1]) {
                    return Err(CliError::MissingValue);
                }
                match parse_u8(&args[i + 1]) {
                    None => {
                        return Err(CliError::InvalidVerbosity);
                    },
                    Some(v) => {
                        verbosity = Some(v);
                    },
                }
                i = i + 2;
            } else if let Some(value) = attached_verbosity_exec(t) {
                if verbosity.is_some() {
                    return Err(CliError::DuplicateOption);
                }
                match parse_u8(&value) {
                    None => {
                        return Err(CliError::InvalidVerbosity);
                    },
                    Some(v) => {
                        verbosity = Some(v);
                    },
                }
                i = i + 1;
            } else if is_option_exec(t) {
                return Err(CliError::UnknownOption);
            } else {
                let command = match command_args(args, t, i + 1) {
                    Ok(c) => c,
                    Err(e) => {
                        return Err(e);
                    },
                };
                let v = match verbosity {
                    Some(v) => v,
                    None => DEFAULT_VERBOSITY,
                };
                return Ok(CLI { verbosity: v, command });
            }
        }
    }
}

} // verus!
