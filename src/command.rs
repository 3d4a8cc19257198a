use vstd::prelude::*;
use crate::query::{Kind, SearchQuery};
use crate::walker::paths_view;

verus! {

/// Why a command line was refused before any tool ran.
#[derive(Clone, Copy, Debug, PartialEq, Eq, Structural)]
pub enum ArgumentError {
    /// Fewer arguments than the tool needs.
    MissingArguments,
    /// `find` was given no name, or an empty one.
    MissingName,
}

/// A tool invocation, with its arguments checked.
#[derive(Clone, Debug)]
pub enum Command {
    /// Print `text`.
    Echo { text: String },
    /// Print the contents of the file at `path`.
    PrintFile { path: String },
    /// Append the contents of each of `sources`, each followed by a newline,
    /// to the existing file `target`.
    AppendFiles { target: String, sources: Vec<String> },
    /// List the entries of the directory at `path`.
    List { path: String },
    /// Search below `root`.
    Find { root: String, query: SearchQuery, type_arg: String },
    /// Scan the file at `path` for `pattern`.
    Grep { pattern: String, path: String, case_insensitive: bool },
    /// A tool name that no tool has.
    Unknown { tool: String },
}

/// The value that follows the last of the first `n` occurrences of `flag`
/// in `opts`: empty when `flag` does not occur there or its last occurrence
/// ends `opts`.
pub open spec fn option_value_upto(opts: Seq<Seq<char>>, flag: Seq<char>, n: int) -> Seq<char>
    decreases n,
{
    if n <= 0 {
        seq![]
    } else if opts[n - 1] == flag {
        if n < opts.len() {
            opts[n]
        } else {
            seq![]
        }
    } else {
        option_value_upto(opts, flag, n - 1)
    }
}

/// The value given to `flag` in `opts`; the last occurrence wins.
pub open spec fn option_value(opts: Seq<Seq<char>>, flag: Seq<char>) -> Seq<char> {
    option_value_upto(opts, flag, opts.len() as int)
}

/// `-type d` asks for directories; any other type, or none, for files.
pub open spec fn kind_of_type(t: Seq<char>) -> Kind {
    if t == "d"@ {
        Kind::Directory
    } else {
        Kind::File
    }
}

fn is_word(s: &String, word: &str) -> (r: bool)
    ensures
        r == (s@ == word@),
{
    *s == word.to_owned()
}

/// Reads `-name` and `-type` from the options of `find`. A missing or empty
/// name is refused.
pub fn parse_find_options(options: &[String]) -> (r: Result<(SearchQuery, String), ArgumentError>)
    ensures
        r is Err <==> option_value(paths_view(options@), "-name"@).len() == 0,
        r matches Err(e) ==> e == ArgumentError::MissingName,
        r matches Ok(p) ==> {
            &&& p.0.name@ == option_value(paths_view(options@), "-name"@)
            &&& p.1@ == option_value(paths_view(options@), "-type"@)
            &&& p.0.kind == kind_of_type(p.1@)
        },
{
    let ghost opts = paths_view(options@);
    let mut name = String::new();
    let mut type_arg = String::new();
    let mut i: usize = 0;
    while i < options.len()
        invariant
            0 <= i <= options@.len(),
            opts == paths_view(options@),
            name@ == option_value_upto(opts, "-name"@, i as int),
            type_arg@ == option_value_upto(opts, "-type"@, i as int),
        decreases options.len() - i,
    {
        let is_type = is_word(&options[i], "-type");
        let is_name = is_word(&options[i], "-name");
        if is_type || is_name {
            let value = if i + 1 < options.len() {
                options[i + 1].clone()
            } else {
                String::new()
            };
            if is_type {
                type_arg = value;
            } else {
                name = value;
            }
        }
        proof {
            reveal_strlit("-type");
            reveal_strlit("-name");
            assert("-type"@[1] != "-name"@[1]);
            assert(opts[i as int] == options@[i as int]@);
            if i + 1 < options.len() {
                assert(opts[i + 1] == options@[i + 1]@);
            }
        }
        i = i + 1;
    }
    if name.as_str().is_empty() {
        Err(ArgumentError::MissingName)
    } else {
        let kind = if is_word(&type_arg, "d") {
            Kind::Directory
        } else {
            Kind::File
        };
        Ok((SearchQuery { name, kind }, type_arg))
    }
}

/// Reads a command line: the program name, the tool's name, then the tool's
/// arguments.
pub fn parse_command(args: &Vec<String>) -> (r: Result<Command, ArgumentError>)
    ensures
        ({
            let a = paths_view(args@);
            &&& a.len() < 3 ==> r == Err::<Command, ArgumentError>(ArgumentError::MissingArguments)
            &&& a.len() >= 3 && a[1] == "echo"@ ==> (r matches Ok(Command::Echo { text })
                && text@ == a[2])
            &&& a.len() == 3 && a[1] == "cat"@ ==> (r matches Ok(Command::PrintFile { path })
                && path@ == a[2])
            &&& a.len() > 3 && a[1] == "cat"@ ==> (r matches Ok(
                Command::AppendFiles { target, sources },
            ) && target@ == a.last() && paths_view(sources@) == a.subrange(2, a.len() - 1))
            &&& a.len() >= 3 && a[1] == "ls"@ ==> (r matches Ok(Command::List { path }) && path@
                == a[2])
            &&& a.len() >= 3 && a[1] == "find"@ ==> {
                &&& r is Err <==> option_value(a.skip(3), "-name"@).len() == 0
                &&& r matches Err(e) ==> e == ArgumentError::MissingName
                &&& r is Ok ==> (r matches Ok(Command::Find { root, query, type_arg }) && root@
                    == a[2] && query.name@ == option_value(a.skip(3), "-name"@) && type_arg@
                    == option_value(a.skip(3), "-type"@) && query.kind == kind_of_type(type_arg@))
            }
            &&& a.len() == 3 && a[1] == "grep"@ ==> r == Err::<Command, ArgumentError>(
                ArgumentError::MissingArguments,
            )
            &&& a.len() >= 4 && a[1] == "grep"@ ==> (r matches Ok(
                Command::Grep { pattern, path, case_insensitive },
            ) && pattern@ == a[2] && path@ == a[3] && case_insensitive == (a.len() >= 5 && a[4]
                == "-i"@))
            &&& a.len() >= 3 && a[1] != "echo"@ && a[1] != "cat"@ && a[1] != "ls"@ && a[1]
                != "find"@ && a[1] != "grep"@ ==> (r matches Ok(Command::Unknown { tool }) && tool@
                == a[1])
        }),
{
    let ghost a = paths_view(args@);
    if args.len() < 3 {
        return Err(ArgumentError::MissingArguments);
    }
    proof {
        reveal_strlit("echo");
        reveal_strlit("cat");
        reveal_strlit("ls");
        reveal_strlit("find");
        reveal_strlit("grep");
        assert("echo"@[0] != "cat"@[0] && "echo"@[0] != "ls"@[0] && "echo"@[0] != "find"@[0]
            && "echo"@[0] != "grep"@[0]);
        assert("cat"@[0] != "ls"@[0] && "cat"@[0] != "find"@[0] && "cat"@[0] != "grep"@[0]);
        assert("ls"@[0] != "find"@[0] && "ls"@[0] != "grep"@[0]);
        assert("find"@[0] != "grep"@[0]);
        assert(a[1] == args@[1]@);
        assert(a[2] == args@[2]@);
    }
    let tool = &args[1];
    if is_word(tool, "echo") {
        Ok(Command::Echo { text: args[2].clone() })
    } else if is_word(tool, "cat") {
        if args.len() == 3 {
            Ok(Command::PrintFile { path: args[2].clone() })
        } else {
            let last = args.len() - 1;
            let mut sources: Vec<String> = Vec::new();
            let mut i: usize = 2;
            while i < last
                invariant
                    2 <= i <= last,
                    last == args@.len() - 1,
                    a == paths_view(args@),
                    paths_view(sources@) == a.subrange(2, i as int),
                decreases last - i,
            {
                let ghost before = sources@;
                sources.push(args[i].clone());
                proof {
                    assert(a[i as int] == args@[i as int]@);
                    assert(paths_view(sources@) =~= paths_view(before).push(a[i as int]));
                    assert(paths_view(sources@) =~= a.subrange(2, i + 1));
                }
                i = i + 1;
            }
            proof {
                assert(a.last() == args@[last as int]@);
            }
            Ok(Command::AppendFiles { target: args[last].clone(), sources })
        }
    } else if is_word(tool, "ls") {
        Ok(Command::List { path: args[2].clone() })
    } else if is_word(tool, "find") {
        let (_, options) = args.as_slice().split_at(3);
        proof {
            assert(paths_view(options@) =~= a.skip(3));
        }
        match parse_find_options(options) {
            Ok((query, type_arg)) => Ok(Command::Find { root: args[2].clone(), query, type_arg }),
            Err(e) => Err(e),
        }
    } else if is_word(tool, "grep") {
        if args.len() < 4 {
            Err(ArgumentError::MissingArguments)
        } else {
            proof {
                assert(a[3] == args@[3]@);
            }
            let case_insensitive = args.len() >= 5 && is_word(&args[4], "-i");
            proof {
                if args.len() >= 5 {
                    assert(a[4] == args@[4]@);
                }
            }
            Ok(
                Command::Grep {
                    pattern: args[2].clone(),
                    path: args[3].clone(),
                    case_insensitive,
                },
            )
        }
    } else {
        Ok(Command::Unknown { tool: tool.clone() })
    }
}

} // verus!
