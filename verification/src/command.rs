use vstd::prelude::*;

verus! {

/// A command tree built from one semicolon-delimited segment of an input
/// line. Redirect nodes exclusively own their single child.
#[derive(Debug, PartialEq, Eq)]
pub enum Command {
    /// No-op; what an empty line builds to.
    Empty,
    /// A non-empty argument word list; the first word is the program or
    /// built-in name.
    Tokens(Box<Vec<String>>),
    /// Bind standard input to the named file before the inner command runs.
    InputRedirect(String, Box<Command>),
    /// Bind standard output to the named file (create/truncate) before the
    /// inner command runs.
    OutputRedirect(String, Box<Command>),
}

/// The mathematical shape of a `Command`: the same tree over sequences of
/// characters instead of heap-allocated strings and vectors.
pub enum CmdModel {
    Empty,
    Tokens(Seq<Seq<char>>),
    InputRedirect(Seq<char>, Box<CmdModel>),
    OutputRedirect(Seq<char>, Box<CmdModel>),
}

impl View for Command {
    type V = CmdModel;

    open spec fn view(&self) -> CmdModel
        decreases self,
    {
        match self {
            Command::Empty => CmdModel::Empty,
            Command::Tokens(ws) => CmdModel::Tokens(ws.deep_view()),
            Command::InputRedirect(path, inner) => CmdModel::InputRedirect(
                path@,
                Box::new((**inner)@),
            ),
            Command::OutputRedirect(path, inner) => CmdModel::OutputRedirect(
                path@,
                Box::new((**inner)@),
            ),
        }
    }
}

impl DeepView for Command {
    type V = CmdModel;

    open spec fn deep_view(&self) -> CmdModel {
        self.view()
    }
}

impl Command {
    /// A deep copy of the tree; the interactive loop keeps one so that the
    /// `prev` built-in can replay the remembered command.
    pub fn duplicate(&self) -> (r: Command)
        ensures
            r@ == self@,
        decreases self,
    {
        match self {
            Command::Empty => Command::Empty,
            Command::Tokens(ws) => {
                let mut out: Vec<String> = Vec::new();
                let mut k: usize = 0;
                while k < ws.len()
                    invariant
                        k <= ws@.len(),
                        out@ == ws@.subrange(0, k as int),
                    decreases ws@.len() - k,
                {
                    let s = ws[k].clone();
                    out.push(s);
                    k = k + 1;
                    proof {
                        assert(out@ =~= ws@.subrange(0, k as int));
                    }
                }
                proof {
                    assert(out@ =~= ws@);
                }
                Command::Tokens(Box::new(out))
            },
            Command::InputRedirect(path, inner) => Command::InputRedirect(
                path.clone(),
                Box::new(inner.duplicate()),
            ),
            Command::OutputRedirect(path, inner) => Command::OutputRedirect(
                path.clone(),
                Box::new(inner.duplicate()),
            ),
        }
    }
}

/// The nesting invariant of a built command: sequencing has already been
/// split away, output redirection is outermost, then input redirection, then
/// a non-empty word list; or the command is `Empty`.
pub open spec fn wf_command(m: CmdModel) -> bool {
    match m {
        CmdModel::Empty => true,
        CmdModel::Tokens(ws) => ws.len() > 0,
        CmdModel::InputRedirect(_path, inner) => {
            &&& *inner matches CmdModel::Tokens(ws)
            &&& ws.len() > 0
        },
        CmdModel::OutputRedirect(_path, inner) => match *inner {
            CmdModel::Tokens(ws) => ws.len() > 0,
            CmdModel::InputRedirect(_inner_path, innermost) => {
                &&& *innermost matches CmdModel::Tokens(ws)
                &&& ws.len() > 0
            },
            _ => false,
        },
    }
}

} // verus!
