use vstd::prelude::*;
use crate::chars::{chars_of, chars_eq, parse_u32_chars, parse_u32_spec};

verus! {

/// Which tasks a `list` command shows.
#[derive(Clone, Copy, Debug, PartialEq, Eq, Structural)]
pub enum ListFilter {
    All,
    Pending,
    Completed,
    Overdue,
}

/// One parsed command line.
#[derive(Debug)]
pub enum Commands {
    Add { title: String, priority: String, due: Option<String> },
    List { filter: Option<ListFilter> },
    Complete { id: u32 },
    Delete { id: u32 },
    Show { id: u32 },
    Clear { force: bool },
}

/// The mathematical value of a command.
#[verifier::ext_equal]
pub enum CommandsV {
    Add { title: Seq<char>, priority: Seq<char>, due: Option<Seq<char>> },
    List { filter: Option<ListFilter> },
    Complete { id: u32 },
    Delete { id: u32 },
    Show { id: u32 },
    Clear { force: bool },
}

impl View for Commands {
    type V = CommandsV;

    open spec fn view(&self) -> CommandsV {
        match self {
            Commands::Add { title, priority, due } => CommandsV::Add {
                title: title@,
                priority: priority@,
                due: match due {
                    Some(d) => Some(d@),
                    None => None,
                },
            },
            Commands::List { filter } => CommandsV::List { filter: *filter },
            Commands::Complete { id } => CommandsV::Complete { id: *id },
            Commands::Delete { id } => CommandsV::Delete { id: *id },
            Commands::Show { id } => CommandsV::Show { id: *id },
            Commands::Clear { force } => CommandsV::Clear { force: *force },
        }
    }
}

/// A parsed invocation: what `main` dispatches on.
#[derive(Debug)]
pub struct Cli {
    pub command: Commands,
}

impl View for Cli {
    type V = CommandsV;

    open spec fn view(&self) -> CommandsV {
        self.command@
    }
}

/// The flags an `add` accepts after its title, read left to right; a
/// repeated flag keeps its last value.
pub open spec fn add_flags_spec(
    args: Seq<Seq<char>>,
    i: int,
    priority: Seq<char>,
    due: Option<Seq<char>>,
) -> Option<(Seq<char>, Option<Seq<char>>)>
    decreases args.len() - i when 0 <= i <= args.len()
{
    if i == args.len() {
        Some((priority, due))
    } else if (args[i] == "--priority"@ || args[i] == "-p"@) && i + 2 <= args.len() {
        add_flags_spec(args, i + 2, args[i + 1], due)
    } else if (args[i] == "--due"@ || args[i] == "-d"@) && i + 2 <= args.len() {
        add_flags_spec(args, i + 2, priority, Some(args[i + 1]))
    } else {
        None
    }
}

/// The one flag a `clear` accepts, any number of times.
pub open spec fn clear_flags_spec(args: Seq<Seq<char>>, i: int, force: bool) -> Option<bool>
    decreases args.len() - i when 0 <= i <= args.len()
{
    if i == args.len() {
        Some(force)
    } else if args[i] == "--force"@ || args[i] == "-f"@ {
        clear_flags_spec(args, i + 1, true)
    } else {
        None
    }
}

pub open spec fn filter_spec(w: Seq<char>) -> Option<ListFilter> {
    if w == "all"@ {
        Some(ListFilter::All)
    } else if w == "pending"@ {
        Some(ListFilter::Pending)
    } else if w == "completed"@ {
        Some(ListFilter::Completed)
    } else if w == "overdue"@ {
        Some(ListFilter::Overdue)
    } else {
        None
    }
}

/// The command grammar: the program name, then a subcommand or its
/// alias, then that subcommand's arguments.
pub open spec fn parse_args_spec(args: Seq<Seq<char>>) -> Option<CommandsV> {
    if args.len() < 2 {
        None
    } else {
        let w = args[1];
        if w == "add"@ || w == "a"@ {
            if args.len() >= 3 {
                match add_flags_spec(args, 3, "medium"@, None) {
                    Some((priority, due)) => Some(
                        CommandsV::Add { title: args[2], priority, due },
                    ),
                    None => None,
                }
            } else {
                None
            }
        } else if w == "list"@ || w == "ls"@ {
            if args.len() == 2 {
                Some(CommandsV::List { filter: None })
            } else if args.len() == 3 {
                match filter_spec(args[2]) {
                    Some(f) => Some(CommandsV::List { filter: Some(f) }),
                    None => None,
                }
            } else {
                None
            }
        } else if w == "complete"@ || w == "c"@ {
            if args.len() == 3 {
                match parse_u32_spec(args[2]) {
                    Some(id) => Some(CommandsV::Complete { id }),
                    None => None,
                }
            } else {
                None
            }
        } else if w == "delete"@ || w == "d"@ {
            if args.len() == 3 {
                match parse_u32_spec(args[2]) {
                    Some(id) => Some(CommandsV::Delete { id }),
                    None => None,
                }
            } else {
                None
            }
        } else if w == "show"@ || w == "s"@ {
            if args.len() == 3 {
                match parse_u32_spec(args[2]) {
                    Some(id) => Some(CommandsV::Show { id }),
                    None => None,
                }
            } else {
                None
            }
        } else if w == "clear"@ {
            match clear_flags_spec(args, 2, false) {
                Some(force) => Some(CommandsV::Clear { force }),
                None => None,
            }
        } else {
            None
        }
    }
}

fn arg_is(a: &String, lit: &str) -> (r: bool)
    ensures
        r == (a@ == lit@),
{
    let x = chars_of(a.as_str());
    let y = chars_of(lit);
    chars_eq(&x, &y)
}

fn add_flags(args: &Vec<String>, i: usize, priority: String, due: Option<String>) -> (r: Option<
    (String, Option<String>),
>)
    requires
        i <= args@.len(),
    ensures
        match r {
            Some((p, d)) => add_flags_spec(
                args.deep_view(),
                i as int,
                priority@,
                match due {
                    Some(x) => Some(x@),
                    None => None,
                },
            ) == Some(
                (
                    p@,
                    match d {
                        Some(x) => Some(x@),
                        None => None,
                    },
                ),
            ),
            None => add_flags_spec(
                args.deep_view(),
                i as int,
                priority@,
                match due {
                    Some(x) => Some(x@),
                    None => None,
                },
            ) is None,
        },
    decreases args@.len() - i,
{
    if i == args.len() {
        return Some((priority, due));
    }
    let a = &args[i];
    proof {
        assert(args.deep_view()[i as int] == a@);
    }
    if (arg_is(a, "--priority") || arg_is(a, "-p")) && args.len() - i >= 2 {
        let v = args[i + 1].clone();
        proof {
            assert(args.deep_view()[i + 1 as int] == v@);
        }
        add_flags(args, i + 2, v, due)
    } else if (arg_is(a, "--due") || arg_is(a, "-d")) && args.len() - i >= 2 {
        let v = args[i + 1].clone();
        proof {
            assert(args.deep_view()[i + 1 as int] == v@);
        }
        add_flags(args, i + 2, priority, Some(v))
    } else {
        None
    }
}

fn clear_flags(args: &Vec<String>, i: usize, force: bool) -> (r: Option<bool>)
    requires
        i <= args@.len(),
    ensures
        r == clear_flags_spec(args.deep_view(), i as int, force),
    decreases args@.len() - i,
{
    if i == args.len() {
        return Some(force);
    }
    let a = &args[i];
    proof {
        assert(args.deep_view()[i as int] == a@);
    }
    if arg_is(a, "--force") || arg_is(a, "-f") {
        clear_flags(args, i + 1, true)
    } else {
        None
    }
}

impl Cli {
    /// Reads a command line, program name first, against the grammar
    /// `parse_args_spec`; anything else is rejected with a usage
    /// message.
    pub fn parse_from(args: Vec<String>) -> (r: Result<Cli, String>)
        ensures
            match r {
                Ok(c) => parse_args_spec(args.deep_view()) == Some(c@),
                Err(_) => parse_args_spec(args.deep_view()) is None,
            },
    {
        let ghost av = args.deep_view();
        if args.len() < 2 {
            return Err("usage: todo <command> [arguments]".to_owned());
        }
        let w = &args[1];
        proof {
            assert(av[1] == w@);
        }
        if arg_is(w, "add") || arg_is(w, "a") {
            if args.len() >= 3 {
                match add_flags(&args, 3, "medium".to_owned(), None) {
                    Some((priority, due)) => {
                        let title = args[2].clone();
                        proof {
                            assert(av[2] == title@);
                        }
                        Ok(Cli { command: Commands::Add { title, priority, due } })
                    },
                    None => Err("invalid arguments to add".to_owned()),
                }
            } else {
                Err("add needs a title".to_owned())
            }
        } else if arg_is(w, "list") || arg_is(w, "ls") {
            if args.len() == 2 {
                Ok(Cli { command: Commands::List { filter: None } })
            } else if args.len() == 3 {
                let f = &args[2];
                proof {
                    assert(av[2] == f@);
                }
                if arg_is(f, "all") {
                    Ok(Cli { command: Commands::List { filter: Some(ListFilter::All) } })
                } else if arg_is(f, "pending") {
                    Ok(Cli { command: Commands::List { filter: Some(ListFilter::Pending) } })
                } else if arg_is(f, "completed") {
                    Ok(Cli { command: Commands::List { filter: Some(ListFilter::Completed) } })
                } else if arg_is(f, "overdue") {
                    Ok(Cli { command: Commands::List { filter: Some(ListFilter::Overdue) } })
                } else {
                    Err("unknown list filter".to_owned())
                }
            } else {
                Err("too many arguments to list".to_owned())
            }
        } else if arg_is(w, "complete") || arg_is(w, "c") {
            match Self::id_argument(&args) {
                Some(id) => Ok(Cli { command: Commands::Complete { id } }),
                None => Err("complete needs a task id".to_owned()),
            }
        } else if arg_is(w, "delete") || arg_is(w, "d") {
            match Self::id_argument(&args) {
                Some(id) => Ok(Cli { command: Commands::Delete { id } }),
                None => Err("delete needs a task id".to_owned()),
            }
        } else if arg_is(w, "show") || arg_is(w, "s") {
            match Self::id_argument(&args) {
                Some(id) => Ok(Cli { command: Commands::Show { id } }),
                None => Err("show needs a task id".to_owned()),
            }
        } else if arg_is(w, "clear") {
            match clear_flags(&args, 2, false) {
                Some(force) => Ok(Cli { command: Commands::Clear { force } }),
                None => Err("invalid arguments to clear".to_owned()),
            }
        } else {
            Err("unknown command".to_owned())
        }
    }

    /// The single identifier argument of `complete`, `delete` and
    /// `show`.
    fn id_argument(args: &Vec<String>) -> (r: Option<u32>)
        requires
            args@.len() >= 2,
        ensures
            match r {
                Some(id) => args.deep_view().len() == 3 && parse_u32_spec(args.deep_view()[2])
                    == Some(id),
                None => args.deep_view().len() != 3 || parse_u32_spec(args.deep_view()[2])
                    is None,
            },
    {
        if args.len() != 3 {
            return None;
        }
        let v = chars_of(args[2].as_str());
        proof {
            assert(args.deep_view()[2] == args@[2]@);
        }
        parse_u32_chars(&v)
    }
}

} // verus!
