//! The command line: what a list of arguments asks for.
//!
//! An argument that begins with `-` holds flags, one character each: `c`
//! creates an archive, `t` lists one, `x` extracts one, and `f` says that
//! the archive is a file that is named among the other arguments. Every
//! other argument is a path.

use vstd::prelude::*;
use vstd::string::StrSliceExecFns;
use crate::models::{name_view, strings_view, TarError};

verus! {

/// What a command line asks for.
#[derive(Debug)]
pub enum Command {
    /// Write the files `sources` into the archive `destination`.
    Create { destination: String, sources: Vec<String> },
    /// Print the names of the entries of an archive: of the file `archive`,
    /// or of what comes in on standard input.
    List { archive: Option<String> },
    /// Write the entries of an archive out as files: those of the file
    /// `archive`, or of what comes in on standard input.
    Extract { archive: Option<String> },
}

/// What a command line asks for, as mathematical values.
pub enum CommandView {
    Create { destination: Seq<char>, sources: Seq<Seq<char>> },
    List { archive: Option<Seq<char>> },
    Extract { archive: Option<Seq<char>> },
}

impl View for Command {
    type V = CommandView;

    open spec fn view(&self) -> CommandView {
        match self {
            Command::Create { destination, sources } => CommandView::Create {
                destination: destination@,
                sources: strings_view(sources@),
            },
            Command::List { archive } => CommandView::List {
                archive: name_view(*archive),
            },
            Command::Extract { archive } => CommandView::Extract {
                archive: name_view(*archive),
            },
        }
    }
}

/// True when an argument holds flags: it begins with `-`.
pub open spec fn is_flag_argument(argument: Seq<char>) -> bool {
    argument.len() > 0 && argument[0] == '-'
}

/// True when `flag` is one of the characters of `argument` after the first
/// and before the one with index `end`.
pub open spec fn flag_within(argument: Seq<char>, flag: char, end: int) -> bool {
    exists|i: int| 1 <= i < end && argument[i] == flag
}

/// True when `argument` holds flags and `flag` is one of them.
pub open spec fn argument_has_flag(argument: Seq<char>, flag: char) -> bool {
    is_flag_argument(argument) && flag_within(argument, flag, argument.len() as int)
}

/// True when one of the first `end` arguments holds `flag`.
pub open spec fn flag_among(arguments: Seq<Seq<char>>, flag: char, end: int) -> bool {
    exists|k: int| 0 <= k < end && #[trigger] argument_has_flag(arguments[k], flag)
}

/// True when one of the arguments holds `flag`.
pub open spec fn has_flag(arguments: Seq<Seq<char>>, flag: char) -> bool {
    flag_among(arguments, flag, arguments.len() as int)
}

/// The arguments that are paths, in their order.
pub open spec fn paths_of(arguments: Seq<Seq<char>>) -> Seq<Seq<char>>
    decreases arguments.len(),
{
    if arguments.len() == 0 {
        Seq::empty()
    } else if is_flag_argument(arguments.last()) {
        paths_of(arguments.drop_last())
    } else {
        paths_of(arguments.drop_last()).push(arguments.last())
    }
}

/// The archive that a reading command reads: the first path where `f` is
/// given, standard input where it is not.
pub open spec fn archive_of(arguments: Seq<Seq<char>>) -> Option<Seq<char>> {
    if has_flag(arguments, 'f') {
        Some(paths_of(arguments)[0])
    } else {
        None
    }
}

/// What a list of arguments asks for.
///
/// `c` goes before everything else: the first path is the archive, the
/// others are the files to put into it. Otherwise `t` goes before `x`.
/// An argument is missing where `c` or `f` is given without a path, and
/// where none of `c`, `t` and `x` is given.
pub open spec fn command_of(arguments: Seq<Seq<char>>) -> Result<CommandView, TarError> {
    let paths = paths_of(arguments);
    if has_flag(arguments, 'c') {
        if paths.len() == 0 {
            Err(TarError::MissingArgument)
        } else {
            Ok(CommandView::Create { destination: paths[0], sources: paths.drop_first() })
        }
    } else if has_flag(arguments, 'f') && paths.len() == 0 {
        Err(TarError::MissingArgument)
    } else if has_flag(arguments, 't') {
        Ok(CommandView::List { archive: archive_of(arguments) })
    } else if has_flag(arguments, 'x') {
        Ok(CommandView::Extract { archive: archive_of(arguments) })
    } else {
        Err(TarError::MissingArgument)
    }
}

/// What a command that was read asks for, or the error.
pub open spec fn command_result_view(result: Result<Command, TarError>) -> Result<
    CommandView,
    TarError,
> {
    match result {
        Ok(command) => Ok(command@),
        Err(error) => Err(error),
    }
}

/// Tells whether an argument holds flags.
pub fn holds_flags(argument: &str) -> (r: bool)
    ensures
        r == is_flag_argument(argument@),
{
    argument.unicode_len() > 0 && argument.get_char(0) == '-'
}

/// Tells whether an argument holds flags and `flag` is one of them.
pub fn argument_holds(argument: &str, flag: char) -> (r: bool)
    ensures
        r == argument_has_flag(argument@, flag),
{
    if !holds_flags(argument) {
        return false;
    }
    let len: usize = argument.unicode_len();
    let mut i: usize = 1;
    while i < len
        invariant
            1 <= i <= len == argument@.len(),
            is_flag_argument(argument@),
            !flag_within(argument@, flag, i as int),
        decreases len - i,
    {
        if argument.get_char(i) == flag {
            assert(flag_within(argument@, flag, len as int));
            return true;
        }
        i += 1;
    }
    false
}

/// Tells whether one of the arguments holds `flag`.
pub fn arguments_hold(arguments: &[String], flag: char) -> (r: bool)
    ensures
        r == has_flag(strings_view(arguments@), flag),
{
    let mut k: usize = 0;
    while k < arguments.len()
        invariant
            k <= arguments@.len(),
            !flag_among(strings_view(arguments@), flag, k as int),
        decreases arguments@.len() - k,
    {
        if argument_holds(arguments[k].as_str(), flag) {
            assert(argument_has_flag(strings_view(arguments@)[k as int], flag));
            return true;
        }
        k += 1;
    }
    false
}

/// Picks the arguments that are paths, in their order.
pub fn path_arguments(arguments: &[String]) -> (paths: Vec<String>)
    ensures
        strings_view(paths@) == paths_of(strings_view(arguments@)),
{
    let mut paths: Vec<String> = Vec::new();
    let mut k: usize = 0;
    let ghost all = strings_view(arguments@);
    while k < arguments.len()
        invariant
            k <= arguments@.len(),
            all == strings_view(arguments@),
            strings_view(paths@) =~= paths_of(all.take(k as int)),
        decreases arguments@.len() - k,
    {
        assert(all.take(k + 1).drop_last() =~= all.take(k as int));
        if !holds_flags(arguments[k].as_str()) {
            paths.push(arguments[k].clone());
        }
        k += 1;
    }
    assert(all.take(k as int) =~= all);
    paths
}

/// Copies the strings of a list from index `from` on.
pub fn strings_from(strings: &Vec<String>, from: usize) -> (rest: Vec<String>)
    requires
        from <= strings@.len(),
    ensures
        strings_view(rest@) == strings_view(strings@).subrange(
            from as int,
            strings@.len() as int,
        ),
{
    let mut rest: Vec<String> = Vec::new();
    let mut i: usize = from;
    while i < strings.len()
        invariant
            from <= i <= strings@.len(),
            strings_view(rest@) =~= strings_view(strings@).subrange(from as int, i as int),
        decreases strings@.len() - i,
    {
        let ghost before = strings_view(rest@);
        let string = strings[i].clone();
        rest.push(string);
        assert(strings_view(rest@) =~= before.push(string@));
        i += 1;
    }
    rest
}

/// Reads what a list of arguments asks for.
pub fn parse_command(arguments: &[String]) -> (result: Result<Command, TarError>)
    ensures
        command_result_view(result) == command_of(strings_view(arguments@)),
{
    let paths = path_arguments(arguments);
    if arguments_hold(arguments, 'c') {
        if paths.len() == 0 {
            return Err(TarError::MissingArgument);
        }
        let destination = paths[0].clone();
        let sources = strings_from(&paths, 1);
        return Ok(Command::Create { destination, sources });
    }
    let from_file = arguments_hold(arguments, 'f');
    if from_file && paths.len() == 0 {
        return Err(TarError::MissingArgument);
    }
    let list = arguments_hold(arguments, 't');
    let extract = arguments_hold(arguments, 'x');
    if !list && !extract {
        return Err(TarError::MissingArgument);
    }
    let archive = if from_file {
        Some(paths[0].clone())
    } else {
        None
    };
    if list {
        Ok(Command::List { archive })
    } else {
        Ok(Command::Extract { archive })
    }
}

} // verus!
