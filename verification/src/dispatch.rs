use vstd::prelude::*;
use vstd::string::StrSliceExecFns;
use crate::builder::{get_command, spec_get_command};
use crate::command::{CmdModel, Command};
use crate::error::ShellError;

verus! {

/// ASCII lowercasing of one character, as the built-in lookup applies it.
pub open spec fn lower_char(c: char) -> char {
    if 'A' <= c && c <= 'Z' {
        ((c as int) + 32) as char
    } else {
        c
    }
}

/// ASCII lowercasing of a whole line.
pub open spec fn ascii_lower(s: Seq<char>) -> Seq<char> {
    s.map_values(|c: char| lower_char(c))
}

/// What the interactive loop does with a raw line before any command is
/// built: the three argument-less built-ins are recognized against the
/// lowercased line; every other line is dispatched normally.
#[derive(Clone, Copy, Debug, PartialEq, Eq, Structural)]
pub enum LineAction {
    /// `quit`: leave the loop.
    Quit,
    /// `prev`: replay the remembered command, then prompt again.
    RunPrev,
    /// `help`: print the help text, then prompt again.
    ShowHelp,
    /// Anything else: build the line and dispatch its commands.
    Dispatch,
}

pub open spec fn spec_line_action(s: Seq<char>) -> LineAction {
    if ascii_lower(s) == "quit"@ {
        LineAction::Quit
    } else if ascii_lower(s) == "prev"@ {
        LineAction::RunPrev
    } else if ascii_lower(s) == "help"@ {
        LineAction::ShowHelp
    } else {
        LineAction::Dispatch
    }
}

/// Does `b` equal the ASCII-lowercased `a`, character for character?
fn lower_char_eq(a: char, b: char) -> (r: bool)
    ensures
        r == (lower_char(a) == b),
{
    let au = a as u32;
    if 65 <= au && au <= 90 {
        proof {
            assert('A' <= a && a <= 'Z');
            assert(lower_char(a) as u32 == au + 32);
        }
        au + 32 == (b as u32)
    } else {
        proof {
            assert(!('A' <= a && a <= 'Z'));
        }
        a == b
    }
}

/// Case-insensitive comparison of a line against a lowercase keyword.
fn eq_ignore_ascii(a: &str, b: &str) -> (r: bool)
    ensures
        r == (ascii_lower(a@) == b@),
{
    let n = a.unicode_len();
    let m = b.unicode_len();
    if n != m {
        proof {
            assert(ascii_lower(a@).len() == a@.len());
        }
        return false;
    }
    let mut i: usize = 0;
    while i < n
        invariant
            n == a@.len(),
            n == b@.len(),
            i <= n,
            forall|k: int| 0 <= k < i ==> lower_char(a@[k]) == b@[k],
        decreases n - i,
    {
        let ca = a.get_char(i);
        let cb = b.get_char(i);
        if !lower_char_eq(ca, cb) {
            proof {
                assert(ascii_lower(a@)[i as int] != b@[i as int]);
            }
            return false;
        }
        i = i + 1;
    }
    proof {
        assert(ascii_lower(a@) =~= b@);
    }
    true
}

/// Decide how the interactive loop treats a raw line: one of the
/// argument-less built-ins (`quit`, `prev`, `help`, matched after ASCII
/// lowercasing), or ordinary dispatch.
pub fn handle_single_arg_built_in(input: &str) -> (a: LineAction)
    ensures
        a == spec_line_action(input@),
{
    if eq_ignore_ascii(input, "quit") {
        LineAction::Quit
    } else if eq_ignore_ascii(input, "prev") {
        LineAction::RunPrev
    } else if eq_ignore_ascii(input, "help") {
        LineAction::ShowHelp
    } else {
        LineAction::Dispatch
    }
}

/// The work at the leaf of a command tree.
#[derive(Debug, PartialEq, Eq)]
pub enum LeafAction {
    /// An `Empty` command or an empty word list: nothing to run.
    DoNothing,
    /// The `cd` built-in with its word list: no child process is forked.
    ChangeDir(Vec<String>),
    /// The `source` built-in with its word list: no child process is forked.
    RunSource(Vec<String>),
    /// An external program: fork, exec the word list, wait.
    Spawn(Vec<String>),
}

/// The mathematical shape of a `LeafAction`.
pub enum LeafActionModel {
    DoNothing,
    ChangeDir(Seq<Seq<char>>),
    RunSource(Seq<Seq<char>>),
    Spawn(Seq<Seq<char>>),
}

impl View for LeafAction {
    type V = LeafActionModel;

    open spec fn view(&self) -> LeafActionModel {
        match self {
            LeafAction::DoNothing => LeafActionModel::DoNothing,
            LeafAction::ChangeDir(ws) => LeafActionModel::ChangeDir(ws.deep_view()),
            LeafAction::RunSource(ws) => LeafActionModel::RunSource(ws.deep_view()),
            LeafAction::Spawn(ws) => LeafActionModel::Spawn(ws.deep_view()),
        }
    }
}

/// Everything the dispatcher needs in order to run one built command: the
/// leaf work, and the files that standard input and standard output are
/// rebound to first. With at most one redirect of each kind per segment the
/// two rebindings are independent, so a single fork may apply both.
#[derive(Debug, PartialEq, Eq)]
pub struct ExecPlan {
    pub action: LeafAction,
    pub stdin_path: Option<String>,
    pub stdout_path: Option<String>,
}

/// The mathematical shape of an `ExecPlan`.
pub struct PlanModel {
    pub action: LeafActionModel,
    pub stdin_path: Option<Seq<char>>,
    pub stdout_path: Option<Seq<char>>,
}

impl View for ExecPlan {
    type V = PlanModel;

    open spec fn view(&self) -> PlanModel {
        PlanModel {
            action: self.action@,
            stdin_path: match self.stdin_path {
                Some(p) => Some(p@),
                None => None,
            },
            stdout_path: match self.stdout_path {
                Some(p) => Some(p@),
                None => None,
            },
        }
    }
}

/// The leaf work of a word list: `cd` and `source` are resolved by their
/// first word before any fork; anything else spawns an external program.
pub open spec fn spec_leaf_action(ws: Seq<Seq<char>>) -> LeafActionModel {
    if ws.len() == 0 {
        LeafActionModel::DoNothing
    } else if ws[0] == "cd"@ {
        LeafActionModel::ChangeDir(ws)
    } else if ws[0] == "source"@ {
        LeafActionModel::RunSource(ws)
    } else {
        LeafActionModel::Spawn(ws)
    }
}

/// The plan of a command tree: the leaf decides the work; walking outward,
/// each redirect node fills its descriptor's file only when no node closer
/// to the leaf already did, so the innermost redirect of each kind wins,
/// exactly as nested forked rebindings would behave.
pub open spec fn spec_plan(m: CmdModel) -> PlanModel
    decreases m,
{
    match m {
        CmdModel::Empty => PlanModel {
            action: LeafActionModel::DoNothing,
            stdin_path: None,
            stdout_path: None,
        },
        CmdModel::Tokens(ws) => PlanModel {
            action: spec_leaf_action(ws),
            stdin_path: None,
            stdout_path: None,
        },
        CmdModel::InputRedirect(path, inner) => {
            let q = spec_plan(*inner);
            PlanModel {
                action: q.action,
                stdin_path: if q.stdin_path is None {
                    Some(path)
                } else {
                    q.stdin_path
                },
                stdout_path: q.stdout_path,
            }
        },
        CmdModel::OutputRedirect(path, inner) => {
            let q = spec_plan(*inner);
            PlanModel {
                action: q.action,
                stdin_path: q.stdin_path,
                stdout_path: if q.stdout_path is None {
                    Some(path)
                } else {
                    q.stdout_path
                },
            }
        },
    }
}

/// Are the two strings equal, character for character?
fn str_eq(a: &str, b: &str) -> (r: bool)
    ensures
        r == (a@ == b@),
{
    let n = a.unicode_len();
    let m = b.unicode_len();
    if n != m {
        return false;
    }
    let mut i: usize = 0;
    while i < n
        invariant
            n == a@.len(),
            n == b@.len(),
            i <= n,
            forall|k: int| 0 <= k < i ==> a@[k] == b@[k],
        decreases n - i,
    {
        if a.get_char(i) != b.get_char(i) {
            return false;
        }
        i = i + 1;
    }
    proof {
        assert(a@ =~= b@);
    }
    true
}

/// Turn a built command tree into the plan the dispatcher runs.
pub fn plan_command(cmd: Command) -> (p: ExecPlan)
    ensures
        p@ == spec_plan(cmd@),
    decreases cmd,
{
    match cmd {
        Command::Empty => ExecPlan {
            action: LeafAction::DoNothing,
            stdin_path: None,
            stdout_path: None,
        },
        Command::Tokens(ws_box) => {
            let ws: Vec<String> = *ws_box;
            let action = if ws.len() == 0 {
                LeafAction::DoNothing
            } else if str_eq(ws[0].as_str(), "cd") {
                LeafAction::ChangeDir(ws)
            } else if str_eq(ws[0].as_str(), "source") {
                LeafAction::RunSource(ws)
            } else {
                LeafAction::Spawn(ws)
            };
            ExecPlan { action, stdin_path: None, stdout_path: None }
        },
        Command::InputRedirect(path, inner) => {
            let q = plan_command(*inner);
            let stdin_path = if q.stdin_path.is_none() {
                Some(path)
            } else {
                q.stdin_path
            };
            ExecPlan { action: q.action, stdin_path, stdout_path: q.stdout_path }
        },
        Command::OutputRedirect(path, inner) => {
            let q = plan_command(*inner);
            let stdout_path = if q.stdout_path.is_none() {
                Some(path)
            } else {
                q.stdout_path
            };
            ExecPlan { action: q.action, stdin_path: q.stdin_path, stdout_path }
        },
    }
}

/// What building a sourced file's lines yields: the commands of the lines
/// before the first malformed one, in file order, and that line's error when
/// there is one. A failing line aborts the rest of the file; commands already
/// built are still run.
pub struct ScriptBuild {
    pub commands: Vec<Command>,
    pub error: Option<ShellError>,
}

/// The commands and first error of a sourced file's lines.
pub open spec fn spec_build_script(lines: Seq<Seq<char>>) -> (Seq<CmdModel>, Option<ShellError>)
    decreases lines.len(),
{
    if lines.len() == 0 {
        (Seq::empty(), None)
    } else {
        match spec_get_command(lines[0]) {
            Err(e) => (Seq::empty(), Some(e)),
            Ok(cs) => {
                let rest = spec_build_script(lines.subrange(1, lines.len() as int));
                (cs + rest.0, rest.1)
            },
        }
    }
}

/// Build every line of a sourced file, in file order, stopping at the first
/// line that fails to build.
pub fn build_script(lines: &Vec<String>) -> (r: ScriptBuild)
    ensures
        r.commands.deep_view() == spec_build_script(lines.deep_view()).0,
        r.error == spec_build_script(lines.deep_view()).1,
{
    let ghost dv = lines.deep_view();
    let mut commands: Vec<Command> = Vec::new();
    let mut i: usize = 0;
    proof {
        assert(dv.subrange(0, dv.len() as int) =~= dv);
        assert(commands.deep_view() =~= Seq::<CmdModel>::empty());
        assert(commands.deep_view() + spec_build_script(dv).0 =~= spec_build_script(dv).0);
    }
    while i < lines.len()
        invariant
            dv == lines.deep_view(),
            i <= lines@.len(),
            spec_build_script(dv).0 == commands.deep_view() + spec_build_script(
                dv.subrange(i as int, dv.len() as int),
            ).0,
            spec_build_script(dv).1 == spec_build_script(
                dv.subrange(i as int, dv.len() as int),
            ).1,
        decreases lines@.len() - i,
    {
        let ghost sub = dv.subrange(i as int, dv.len() as int);
        let ghost cmds0 = commands.deep_view();
        proof {
            assert(sub[0] == dv[i as int]);
            assert(sub.subrange(1, sub.len() as int) =~= dv.subrange(
                i as int + 1,
                dv.len() as int,
            ));
        }
        match get_command(lines[i].as_str()) {
            Ok(mut cs) => {
                let ghost cs_dv = cs.deep_view();
                let ghost cs_len = cs@.len();
                commands.append(&mut cs);
                proof {
                    assert forall|k: int| 0 <= k < commands@.len() implies commands.deep_view()[k]
                        == (cmds0 + cs_dv)[k] by {
                        if k < cmds0.len() {
                            assert(commands.deep_view()[k] == cmds0[k]);
                        } else {
                            assert(commands.deep_view()[k] == cs_dv[k - cmds0.len()]);
                        }
                    }
                    assert(commands.deep_view() =~= cmds0 + cs_dv);
                    assert(cmds0 + (cs_dv + spec_build_script(
                        dv.subrange(i as int + 1, dv.len() as int),
                    ).0) =~= (cmds0 + cs_dv) + spec_build_script(
                        dv.subrange(i as int + 1, dv.len() as int),
                    ).0);
                }
            },
            Err(e) => {
                proof {
                    assert(commands.deep_view() + Seq::<CmdModel>::empty() =~= commands.deep_view());
                }
                return ScriptBuild { commands, error: Some(e) };
            },
        }
        i = i + 1;
    }
    proof {
        assert(dv.subrange(dv.len() as int, dv.len() as int).len() == 0);
        assert(commands.deep_view() + Seq::<CmdModel>::empty() =~= commands.deep_view());
    }
    ScriptBuild { commands, error: None }
}

} // verus!
