//! The command line: `[--sqlite]... serve <directory> [address]`.
use vstd::prelude::*;
use vstd::string::*;
use crate::ranking::same_text;

verus! {

/// The address served when none is given.
pub open spec fn default_address() -> Seq<char> {
    "127.0.0.1:6969"@
}

/// What `serve` was asked to do.
pub struct ServeOptions {
    pub dir: String,
    pub address: String,
    /// Whether the database-backed model is wanted.
    pub sqlite: bool,
}

/// Why the command line was refused.
#[derive(Debug, PartialEq, Eq)]
pub enum CliError {
    /// Nothing but flags was given.
    NoSubcommand,
    /// `serve` came without a directory.
    NoDirectory,
    /// The subcommand is not known.
    UnknownSubcommand(String),
}

/// Whether `args[i]` is the subcommand: the first argument that is not `--sqlite`.
pub open spec fn subcommand_at(args: Seq<String>, i: int) -> bool {
    &&& 0 <= i < args.len()
    &&& args[i]@ != "--sqlite"@
    &&& forall|j: int| 0 <= j < i ==> (#[trigger] args[j])@ == "--sqlite"@
}

/// Reads the arguments that follow the program's name.
pub fn parse_args(args: &Vec<String>) -> (r: Result<ServeOptions, CliError>)
    ensures
        match r {
            Ok(o) => exists|i: int| {
                &&& #[trigger] subcommand_at(args@, i)
                &&& args@[i]@ == "serve"@
                &&& i + 1 < args@.len()
                &&& o.dir@ == args@[i + 1]@
                &&& o.address@ == if i + 2 < args@.len() { args@[i + 2]@ } else { default_address() }
                &&& o.sqlite == (i > 0)
            },
            Err(CliError::NoSubcommand) => forall|j: int| 0 <= j < args@.len() ==> (#[trigger] args@[j])@ == "--sqlite"@,
            Err(CliError::NoDirectory) => exists|i: int| #[trigger] subcommand_at(args@, i) && args@[i]@ == "serve"@ && i + 1 == args@.len(),
            Err(CliError::UnknownSubcommand(s)) => exists|i: int| #[trigger] subcommand_at(args@, i) && args@[i]@ != "serve"@ && s@ == args@[i]@,
        },
{
    let mut i: usize = 0;
    while i < args.len() && same_text(args[i].as_str(), "--sqlite")
        invariant
            i <= args@.len(),
            forall|j: int| 0 <= j < i ==> (#[trigger] args@[j])@ == "--sqlite"@,
        decreases args@.len() - i,
    {
        i = i + 1;
    }
    if i == args.len() {
        return Err(CliError::NoSubcommand);
    }
    assert(subcommand_at(args@, i as int));
    if !same_text(args[i].as_str(), "serve") {
        return Err(CliError::UnknownSubcommand(args[i].clone()));
    }
    if i + 1 == args.len() {
        return Err(CliError::NoDirectory);
    }
    let address = if i + 2 < args.len() {
        args[i + 2].clone()
    } else {
        String::from_str("127.0.0.1:6969")
    };
    Ok(ServeOptions { dir: args[i + 1].clone(), address, sqlite: i > 0 })
}

} // verus!
