//! The command surface as plain data: each command's arguments, free of any
//! argument-parser machinery.  The binary parses the command line into copies
//! of these and converts before calling into the library.

use vstd::prelude::*;

verus! {

/// Arguments of `init`: start a new stack.
pub struct Init {
    pub name: String,
    pub base: Option<String>,
    pub verbose: bool,
}

/// Arguments of `branch`: create a new branch in the current stack.
pub struct Branch {
    pub name: String,
    pub from: Option<String>,
    pub verbose: bool,
}

/// Arguments of `log`: show the current stack.
pub struct Log {
    pub graph: bool,
    pub verbose: bool,
    pub json: bool,
    pub pretty: bool,
}

/// Arguments of `prev`: step to the parent branch.
pub struct Prev;

/// Arguments of `next`: step to a child branch.
pub struct Next;

/// Arguments of `goto`: switch to a stack, branch or commit.
pub struct Goto {
    pub name: String,
}

/// Arguments of `restack`: cascade-rebase the stack.
pub struct Restack {
    pub all: bool,
    pub submit: bool,
}

/// Arguments of `submit`: push and reconcile pull requests.
pub struct Submit {
    pub all: bool,
    pub force: bool,
    pub no_push: bool,
}

/// One parsed command.
pub enum Cmd {
    Init(Init),
    Branch(Branch),
    Log(Log),
    Prev(Prev),
    Next(Next),
    Goto(Goto),
    Restack(Restack),
    Submit(Submit),
}

} // verus!
