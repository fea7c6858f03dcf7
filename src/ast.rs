//! The command tree that the parser builds, and its mathematical view.

use vstd::prelude::*;

verus! {

/// A variable assignment `var=val` written before a command's words.
pub struct Assign {
    pub var: String,
    pub val: String,
}

/// A parsed command line.
pub enum Command {
    /// One external command: its assignments and its argument vector, whose
    /// first element names the program.
    Simple { assigns: Vec<Assign>, args: Vec<String> },
    /// Two commands, the standard output of the first feeding the standard
    /// input of the second.
    Pipeline(Box<Command>, Box<Command>),
    /// The first command runs as a background job; the rest, if any, follows.
    AsyncList(Box<Command>, Option<Box<Command>>),
    /// The empty command of a blank line.
    Empty,
}

/// The view of a command: strings become character sequences.
pub enum SCommand {
    Simple { assigns: Seq<(Seq<char>, Seq<char>)>, args: Seq<Seq<char>> },
    Pipeline(Box<SCommand>, Box<SCommand>),
    AsyncList(Box<SCommand>, Option<Box<SCommand>>),
    Empty,
}

pub open spec fn assign_view(a: Assign) -> (Seq<char>, Seq<char>) {
    (a.var@, a.val@)
}

pub open spec fn strings_view(v: Seq<String>) -> Seq<Seq<char>> {
    v.map_values(|s: String| s@)
}

pub open spec fn assigns_view(v: Seq<Assign>) -> Seq<(Seq<char>, Seq<char>)> {
    v.map_values(|a: Assign| assign_view(a))
}

pub open spec fn command_view(c: Command) -> SCommand
    decreases c,
{
    match c {
        Command::Simple { assigns, args } => SCommand::Simple {
            assigns: assigns_view(assigns@),
            args: strings_view(args@),
        },
        Command::Pipeline(a, b) => SCommand::Pipeline(
            Box::new(command_view(*a)),
            Box::new(command_view(*b)),
        ),
        Command::AsyncList(a, b) => SCommand::AsyncList(
            Box::new(command_view(*a)),
            match b {
                Some(b) => Some(Box::new(command_view(*b))),
                None => None,
            },
        ),
        Command::Empty => SCommand::Empty,
    }
}

/// A simple command or a pipeline: a tree that yields at least one process.
pub open spec fn is_stage_tree(c: SCommand) -> bool {
    c is Simple || c is Pipeline
}

/// Every simple command in the tree has at least one word, and both sides
/// of every pipeline are simple commands or pipelines.
pub open spec fn well_formed(c: SCommand) -> bool
    decreases c,
{
    match c {
        SCommand::Simple { args, .. } => args.len() > 0,
        SCommand::Pipeline(a, b) => is_stage_tree(*a) && is_stage_tree(*b) && well_formed(*a) && well_formed(*b),
        SCommand::AsyncList(a, b) => well_formed(*a) && match b {
            Some(b) => well_formed(*b),
            None => true,
        },
        SCommand::Empty => true,
    }
}

} // verus!
