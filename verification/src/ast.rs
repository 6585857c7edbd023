//! The data model: a pipeline is a non-empty sequence of commands, and a
//! command is a non-empty sequence of arguments. A pipeline holds no
//! resources; it is built fresh from each input line and discarded after use.

use vstd::prelude::*;

verus! {

/// One executable invocation: the first argument names the executable, the
/// rest are passed to it. A parsed command always has at least one argument.
#[derive(Debug, Clone, PartialEq, Eq)]
pub struct Command {
    pub args: Vec<String>,
}

impl View for Command {
    type V = Seq<Seq<char>>;

    open spec fn view(&self) -> Seq<Seq<char>> {
        self.args.deep_view()
    }
}

impl DeepView for Command {
    type V = Seq<Seq<char>>;

    open spec fn deep_view(&self) -> Seq<Seq<char>> {
        self.args.deep_view()
    }
}

impl Command {
    /// A command is well formed when it has an executable name.
    pub open spec fn wf(self) -> bool {
        self.args.len() >= 1
    }
}

/// An ordered chain of commands whose standard output and input streams are
/// to be connected in sequence. A parsed pipeline has at least one command.
#[derive(Debug, Clone, PartialEq, Eq)]
pub struct Pipeline {
    pub cmds: Vec<Command>,
}

impl View for Pipeline {
    type V = Seq<Seq<Seq<char>>>;

    open spec fn view(&self) -> Seq<Seq<Seq<char>>> {
        self.cmds.deep_view()
    }
}

impl Pipeline {
    /// A pipeline is well formed when it has at least one command and every
    /// command is itself well formed.
    pub open spec fn wf(self) -> bool {
        &&& self.cmds.len() >= 1
        &&& forall|i: int| 0 <= i < self.cmds.len() ==> self.cmds[i].wf()
    }
}

} // verus!
