//! The decisions taken while a pipeline runs: which commands the shell
//! carries out itself, and how each of the others is started.

use std::collections::VecDeque;
use vstd::prelude::*;
use regex::Regex;
use crate::environment::{value_in, Environment};
use crate::parser::{command_views, holds_char, Command, CommandView};
use crate::pattern::{compiles, found_in, pattern_of, PatternError};
use crate::text::{split_on, split_seq, strings};

verus! {

/// The pattern that an argument of `export` has to hold: letters and
/// digits, an equals sign, letters and digits.
pub const EXPORT_PATTERN: &'static str = "[A-Za-z0-9]+=[A-Za-z0-9]+";

/// Where a stage reads from.
#[derive(Clone, Copy, Debug, PartialEq, Eq, Structural)]
pub enum Input {
    /// From where the shell reads.
    Inherit,
    /// From what the stage before it writes.
    Previous,
}

/// Where a stage writes to, unless it is redirected to a file.
#[derive(Clone, Copy, Debug, PartialEq, Eq, Structural)]
pub enum Output {
    /// To where the shell writes.
    Inherit,
    /// To the stage after it.
    Pipe,
}

/// One argument of a stage, before wildcards are looked up.
#[derive(Debug, PartialEq, Eq)]
pub enum Argument {
    /// An argument that is handed on as it stands.
    Plain(String),
    /// A pattern that stands for the paths it matches.
    Wildcard(String),
}

/// What an `Argument` holds.
pub enum ArgumentView {
    Plain(Seq<char>),
    Wildcard(Seq<char>),
}

impl View for Argument {
    type V = ArgumentView;

    open spec fn view(&self) -> ArgumentView {
        match *self {
            Argument::Plain(s) => ArgumentView::Plain(s@),
            Argument::Wildcard(s) => ArgumentView::Wildcard(s@),
        }
    }
}

/// What the shell says when a builtin is used wrongly.
#[derive(Clone, Copy, Debug, PartialEq, Eq, Structural)]
pub enum Complaint {
    /// `cd` was given more than one directory.
    TooManyDirections,
    /// An argument of `export` does not hold the pattern.
    WrongUsage,
}

/// One process to start.
#[derive(Debug, PartialEq, Eq)]
pub struct Stage {
    /// The program to run.
    pub program: String,
    /// Its arguments, in order.
    pub args: Vec<Argument>,
    /// Where it reads from.
    pub input: Input,
    /// Where it writes to when it is not redirected, or when the file
    /// cannot be made.
    pub output: Output,
    /// The file that it writes to instead, made anew.
    pub redirect: Option<String>,
}

/// What the caller is to do next.
#[derive(Debug, PartialEq, Eq)]
pub enum Action {
    /// Nothing: the pipeline is through.
    Done,
    /// End the shell.
    Exit,
    /// Make this directory the current one.
    ChangeDir(String),
    /// Bind these variables, in order, in the environment of the process,
    /// and then, where the flag is set, tell the user that `export` was
    /// used wrongly.
    Export(Vec<(String, String)>, bool),
    /// Tell the user what was wrong.
    Complain(Complaint),
    /// Start this process, wait for it, and come back with whether its
    /// output can be read by the next stage.
    Spawn(Stage),
}

/// The plans of `args` as specifications see them.
pub open spec fn plan_views(args: Seq<Argument>) -> Seq<ArgumentView> {
    args.map_values(|a: Argument| a@)
}

/// The pairs of `pairs` as specifications see them.
pub open spec fn pair_views(pairs: Seq<(String, String)>) -> Seq<(Seq<char>, Seq<char>)> {
    pairs.map_values(|p: (String, String)| (p.0@, p.1@))
}

/// The home directory, and the root directory when none is known.
pub open spec fn home_or_root(env: Map<Seq<char>, Seq<char>>) -> Seq<char> {
    if value_in(env, "HOME"@).len() == 0 {
        "/"@
    } else {
        value_in(env, "HOME"@)
    }
}

/// The directory that `cd` goes to: the home directory without an argument
/// or with a tilde, else the one argument.
pub open spec fn cd_target(args: Seq<Seq<char>>, env: Map<Seq<char>, Seq<char>>) -> Seq<char> {
    if args.len() == 1 && args[0] != "~"@ {
        args[0]
    } else {
        home_or_root(env)
    }
}

/// What becomes of one argument: a tilde alone is the home directory, an
/// argument with a star and without a space is a pattern, and every other
/// argument stays.
pub open spec fn planned(arg: Seq<char>, env: Map<Seq<char>, Seq<char>>) -> ArgumentView {
    if arg == "~"@ {
        ArgumentView::Plain(value_in(env, "HOME"@))
    } else if arg.contains('*') && !arg.contains(' ') {
        ArgumentView::Wildcard(arg)
    } else {
        ArgumentView::Plain(arg)
    }
}

/// The arguments that a program is given: those of the command, and for
/// `ls` and `grep` the flag for colours behind them.
pub open spec fn given_args(cmd: CommandView) -> Seq<Seq<char>> {
    if cmd.name == "ls"@ || cmd.name == "grep"@ {
        cmd.args.push("--color=auto"@)
    } else {
        cmd.args
    }
}

/// Whether an argument of `export` can be carried out: it holds the
/// pattern, and an equals sign to cut it at.
pub open spec fn binds(arg: Seq<char>) -> bool {
    found_in(EXPORT_PATTERN@, arg) && split_seq(arg, '=').len() >= 2
}

/// The index of the first of `args` that cannot be carried out; the length
/// of `args` when all can.
pub open spec fn first_unbound(args: Seq<Seq<char>>) -> int
    decreases args.len(),
{
    if args.len() == 0 {
        0
    } else if !binds(args[0]) {
        0
    } else {
        1 + first_unbound(args.drop_first())
    }
}

/// The name and the value that an argument of `export` gives: what stands
/// before its first equals sign, and what stands between that and the
/// next.
pub open spec fn binding_of(arg: Seq<char>) -> (Seq<char>, Seq<char>) {
    (split_seq(arg, '=')[0], split_seq(arg, '=')[1])
}

/// The variables of `env` after `pairs` have been bound in order.
pub open spec fn bound_all(env: Map<Seq<char>, Seq<char>>, pairs: Seq<(Seq<char>, Seq<char>)>) -> Map<
    Seq<char>,
    Seq<char>,
>
    decreases pairs.len(),
{
    if pairs.len() == 0 {
        env
    } else {
        bound_all(env, pairs.drop_last()).insert(pairs.last().0, pairs.last().1)
    }
}

/// The value of the variable `name`, empty when it is not bound.
pub fn get_env(env: &Environment, name: String) -> (value: String)
    requires
        env.wf(),
    ensures
        value@ == value_in(env@, name@),
{
    env.get(name.as_str())
}

/// What becomes of one argument.
fn plan_argument(arg: &String, env: &Environment) -> (a: Argument)
    requires
        env.wf(),
    ensures
        a@ == planned(arg@, env@),
{
    let tilde = "~".to_owned();
    if *arg == tilde {
        Argument::Plain(env.get("HOME"))
    } else if holds_char(arg.as_str(), '*') && !holds_char(arg.as_str(), ' ') {
        Argument::Wildcard(arg.clone())
    } else {
        Argument::Plain(arg.clone())
    }
}

/// The stage that starts a command which is not a builtin.
pub open spec fn stage_of(cmd: CommandView, more: bool, upstream: bool, env: Map<Seq<char>, Seq<char>>, stage: Stage)
    -> bool {
    &&& stage.program@ == cmd.name
    &&& plan_views(stage.args@) == given_args(cmd).map_values(|a: Seq<char>| planned(a, env))
    &&& stage.input == (if upstream { Input::Previous } else { Input::Inherit })
    &&& stage.output == (if more { Output::Pipe } else { Output::Inherit })
    &&& cmd.redirect_file.len() == 0 ==> stage.redirect is None
    &&& cmd.redirect_file.len() > 0 ==> (stage.redirect matches Some(file) && file@ == cmd.redirect_file)
}

/// What `export` does with its arguments: the arguments up to the first
/// that cannot be carried out are bound, and when there is such an
/// argument the user is told.
pub open spec fn exported(args: Seq<Seq<char>>, pairs: Seq<(Seq<char>, Seq<char>)>) -> bool {
    pairs == args.take(first_unbound(args)).map_values(|a: Seq<char>| binding_of(a))
}

/// What one step of a pipeline does.
///
/// With no command left, nothing. Else the first command is taken. A
/// builtin is carried out and ends the pipeline: `cd` asks for a change of
/// directory or complains of too many arguments, `export` binds variables,
/// `exit` ends the shell, and a command without a name does nothing. Any
/// other command is to be started as a process, and the rest of the
/// pipeline stays for the next step.
pub open spec fn stepped(
    cmds: Seq<CommandView>,
    env: Map<Seq<char>, Seq<char>>,
    upstream: bool,
    left: Seq<CommandView>,
    env_after: Map<Seq<char>, Seq<char>>,
    action: Action,
) -> bool {
    if cmds.len() == 0 {
        left.len() == 0 && env_after == env && action is Done
    } else if cmds[0].name == "cd"@ {
        &&& left.len() == 0
        &&& env_after == env
        &&& cmds[0].args.len() <= 1 ==> (action matches Action::ChangeDir(dir) && dir@ == cd_target(
            cmds[0].args,
            env,
        ))
        &&& cmds[0].args.len() > 1 ==> action == Action::Complain(Complaint::TooManyDirections)
    } else if cmds[0].name == "export"@ {
        &&& left.len() == 0
        &&& action matches Action::Export(pairs, undone) && exported(cmds[0].args, pair_views(pairs@))
            && env_after == bound_all(env, pair_views(pairs@)) && undone == (first_unbound(cmds[0].args)
            < cmds[0].args.len())
    } else if cmds[0].name == "exit"@ {
        left.len() == 0 && env_after == env && action is Exit
    } else if cmds[0].name.len() == 0 {
        left.len() == 0 && env_after == env && action is Done
    } else {
        &&& left == cmds.skip(1)
        &&& env_after == env
        &&& action matches Action::Spawn(stage) && stage_of(cmds[0], cmds.len() > 1, upstream, env, stage)
    }
}

/// `first_unbound` finds the first argument that cannot be carried out.
pub proof fn lemma_first_unbound(args: Seq<Seq<char>>, i: int)
    requires
        0 <= i <= args.len(),
        forall|k: int| 0 <= k < i ==> binds(#[trigger] args[k]),
        i < args.len() ==> !binds(args[i]),
    ensures
        first_unbound(args) == i,
    decreases args.len(),
{
    if args.len() > 0 && i > 0 {
        let rest = args.drop_first();
        assert forall|k: int| 0 <= k < i - 1 implies binds(#[trigger] rest[k]) by {}
        lemma_first_unbound(rest, i - 1);
    }
}

/// The variable that an argument of `export` binds, given whether the
/// argument holds the pattern: none where it does not, or where it has no
/// equals sign to cut it at.
pub fn binding(arg: &str, holds_pattern: bool) -> (r: Option<(String, String)>)
    ensures
        r is Some <==> holds_pattern && split_seq(arg@, '=').len() >= 2,
        r matches Some(pair) ==> (pair.0@, pair.1@) == binding_of(arg@),
{
    if !holds_pattern {
        return None;
    }
    let pieces = split_on(arg, '=');
    if pieces.len() < 2 {
        return None;
    }
    Some((pieces[0].clone(), pieces[1].clone()))
}

/// Carries out the arguments of `export` up to the first that cannot be.
/// Returns the variables bound and whether an argument was left undone.
fn export(re: &Regex, args: &Vec<String>, env: &mut Environment) -> (r: (Vec<(String, String)>, bool))
    requires
        old(env).wf(),
        pattern_of(*re) == EXPORT_PATTERN@,
    ensures
        final(env).wf(),
        exported(strings(args@), pair_views(r.0@)),
        final(env)@ == bound_all(old(env)@, pair_views(r.0@)),
        r.1 == (first_unbound(strings(args@)) < args@.len()),
{
    let mut pairs: Vec<(String, String)> = Vec::new();
    let mut i: usize = 0;
    let ghost all = strings(args@);
    while i < args.len()
        invariant
            i <= args.len(),
            env.wf(),
            all == strings(args@),
            pattern_of(*re) == EXPORT_PATTERN@,
            forall|k: int| 0 <= k < i ==> binds(#[trigger] all[k]),
            pair_views(pairs@) == all.take(i as int).map_values(|a: Seq<char>| binding_of(a)),
            env@ == bound_all(old(env)@, pair_views(pairs@)),
        decreases args.len() - i,
    {
        let arg = &args[i];
        let (name, value) = match binding(arg.as_str(), re.is_match(arg.as_str())) {
            Some(pair) => pair,
            None => {
                proof {
                    lemma_first_unbound(all, i as int);
                }
                return (pairs, true);
            },
        };
        let ghost had = pair_views(pairs@);
        env.set(name.clone(), value.clone());
        pairs.push((name, value));
        proof {
            assert(pair_views(pairs@).drop_last() =~= had);
            assert(all.take(i + 1).map_values(|a: Seq<char>| binding_of(a)) =~= all.take(i as int).map_values(
                |a: Seq<char>| binding_of(a),
            ).push(binding_of(all[i as int])));
        }
        i += 1;
    }
    proof {
        lemma_first_unbound(all, i as int);
    }
    (pairs, false)
}

/// The flag for colours is handed on as it stands.
proof fn lemma_flag_stays(env: Map<Seq<char>, Seq<char>>)
    ensures
        planned("--color=auto"@, env) == ArgumentView::Plain("--color=auto"@),
{
    reveal_strlit("--color=auto");
    reveal_strlit("~");
    let flag = "--color=auto"@;
    assert(flag.len() == 12 && "~"@.len() == 1);
    assert forall|k: int| 0 <= k < flag.len() implies flag[k] != '*' by {}
}

/// Takes one step of a pipeline.
///
/// `upstream` says whether the stage started by the step before left
/// output that can be read. The only failure is that of the pattern for
/// `export`, which does not depend on the pipeline.
pub fn exec_command(cmds: &mut VecDeque<Command>, env: &mut Environment, upstream: bool) -> (r: Result<
    Action,
    PatternError,
>)
    requires
        old(env).wf(),
    ensures
        final(env).wf(),
        r is Err <==> old(cmds)@.len() > 0 && old(cmds)@[0].name@ == "export"@ && !compiles(EXPORT_PATTERN@),
        r is Err ==> final(cmds)@.len() == 0 && final(env)@ == old(env)@,
        r matches Ok(action) ==> stepped(
            command_views(old(cmds)@),
            old(env)@,
            upstream,
            command_views(final(cmds)@),
            final(env)@,
            action,
        ),
{
    proof {
        reveal_strlit("cd");
        reveal_strlit("export");
        reveal_strlit("exit");
    }
    let ghost before = command_views(cmds@);
    let first = cmds.pop_front();
    let cmd = match first {
        Some(cmd) => cmd,
        None => {
            return Ok(Action::Done);
        },
    };
    assert(command_views(cmds@) =~= before.skip(1));
    let more = cmds.len() > 0;
    let cd = "cd".to_owned();
    let export_name = "export".to_owned();
    let exit = "exit".to_owned();
    let nothing = String::new();
    if cmd.name == cd {
        assert("cd"@.len() == 2 && "export"@.len() == 6);
        cmds.clear();
        if cmd.args.len() > 1 {
            return Ok(Action::Complain(Complaint::TooManyDirections));
        }
        let tilde = "~".to_owned();
        if cmd.args.len() == 1 && cmd.args[0] != tilde {
            return Ok(Action::ChangeDir(cmd.args[0].clone()));
        }
        let home = env.get("HOME");
        assert(home@.len() == 0 ==> home@ =~= nothing@);
        if home == nothing {
            return Ok(Action::ChangeDir("/".to_owned()));
        }
        return Ok(Action::ChangeDir(home));
    }
    if cmd.name == export_name {
        cmds.clear();
        let re = match Regex::new(EXPORT_PATTERN) {
            Ok(re) => re,
            Err(_) => {
                return Err(PatternError::Rejected);
            },
        };
        let (pairs, undone) = export(&re, &cmd.args, env);
        return Ok(Action::Export(pairs, undone));
    }
    if cmd.name == exit {
        cmds.clear();
        return Ok(Action::Exit);
    }
    if cmd.name == nothing {
        cmds.clear();
        return Ok(Action::Done);
    }
    let ls = "ls".to_owned();
    let grep = "grep".to_owned();
    let coloured = cmd.name == ls || cmd.name == grep;
    let mut args: Vec<Argument> = Vec::new();
    let ghost given = given_args(cmd@);
    let ghost plan = |a: Seq<char>| planned(a, env@);
    let mut i: usize = 0;
    while i < cmd.args.len()
        invariant
            i <= cmd.args.len(),
            env.wf(),
            plan == (|a: Seq<char>| planned(a, env@)),
            given.len() >= cmd.args.len(),
            forall|k: int| 0 <= k < cmd.args.len() ==> given[k] == #[trigger] cmd.args[k]@,
            plan_views(args@) == given.take(i as int).map_values(plan),
        decreases cmd.args.len() - i,
    {
        let a = plan_argument(&cmd.args[i], env);
        args.push(a);
        proof {
            assert(given.take(i + 1).map_values(plan) =~= given.take(i as int).map_values(plan).push(
                plan(given[i as int]),
            ));
        }
        i += 1;
    }
    if coloured {
        let flag = "--color=auto".to_owned();
        proof {
            lemma_flag_stays(env@);
        }
        args.push(Argument::Plain(flag));
        proof {
            assert(given.map_values(plan) =~= given.drop_last().map_values(plan).push(plan(given.last())));
        }
    }
    proof {
        assert(cmd.name@.len() == 0 ==> cmd.name@ =~= nothing@);
        assert(cmd.redirect_file@.len() == 0 ==> cmd.redirect_file@ =~= nothing@);
        assert(plan_views(args@) =~= given.map_values(|a: Seq<char>| planned(a, env@)));
    }
    let redirect = if cmd.redirect_file == nothing { None } else { Some(cmd.redirect_file) };
    let stage = Stage {
        program: cmd.name,
        args,
        input: if upstream { Input::Previous } else { Input::Inherit },
        output: if more { Output::Pipe } else { Output::Inherit },
        redirect,
    };
    Ok(Action::Spawn(stage))
}

impl Complaint {
    /// The words in which the user is told.
    pub fn text(&self) -> (s: String)
        ensures
            s@ == (match *self {
                Complaint::TooManyDirections => "To many directions provided; see cd man"@,
                Complaint::WrongUsage => "Wrong command usage"@,
            }),
    {
        match self {
            Complaint::TooManyDirections => "To many directions provided; see cd man".to_owned(),
            Complaint::WrongUsage => "Wrong command usage".to_owned(),
        }
    }
}

/// The paths that were found for the argument with index `i`; none when
/// `found` does not reach that far.
pub open spec fn found_for(found: Seq<Vec<String>>, i: int) -> Seq<Seq<char>> {
    if 0 <= i < found.len() {
        strings(found[i]@)
    } else {
        Seq::empty()
    }
}

/// What one argument stands for once the patterns have been looked up.
pub open spec fn filled(arg: ArgumentView, found: Seq<Vec<String>>, i: int) -> Seq<Seq<char>> {
    match arg {
        ArgumentView::Plain(s) => seq![s],
        ArgumentView::Wildcard(_) => found_for(found, i),
    }
}

/// The arguments that a process is started with once the patterns have
/// been looked up: a plain argument as it stands, and in place of a pattern
/// the paths that were found for it.
pub open spec fn filled_in(plan: Seq<ArgumentView>, found: Seq<Vec<String>>) -> Seq<Seq<char>>
    decreases plan.len(),
{
    if plan.len() == 0 {
        Seq::empty()
    } else {
        filled_in(plan.drop_last(), found) + filled(plan.last(), found, plan.len() - 1)
    }
}

/// A copy of `v`.
fn copy_strings(v: &Vec<String>) -> (r: Vec<String>)
    ensures
        strings(r@) == strings(v@),
{
    let mut r: Vec<String> = Vec::new();
    let mut i: usize = 0;
    while i < v.len()
        invariant
            i <= v.len(),
            strings(r@) == strings(v@).take(i as int),
        decreases v.len() - i,
    {
        let ghost had = strings(r@);
        r.push(v[i].clone());
        i += 1;
        assert(strings(r@) =~= had.push(v[i - 1]@));
    }
    r
}

/// What the argument with index `i` stands for.
fn fill(arg: &Argument, found: &Vec<Vec<String>>, i: usize) -> (r: Vec<String>)
    ensures
        strings(r@) == filled(arg@, found@, i as int),
{
    let mut r: Vec<String> = Vec::new();
    match arg {
        Argument::Plain(s) => {
            r.push(s.clone());
            r
        },
        Argument::Wildcard(_) => if i < found.len() {
            copy_strings(&found[i])
        } else {
            r
        },
    }
}

impl Stage {
    /// The arguments that the process is started with. `found` holds, at
    /// the index of each pattern among the arguments, the paths that match
    /// it, in the order in which they were found; what it holds at other
    /// indexes does not count, and a pattern beyond its end has no match.
    pub fn arguments(&self, found: &Vec<Vec<String>>) -> (args: Vec<String>)
        ensures
            strings(args@) == filled_in(plan_views(self.args@), found@),
    {
        let mut out: Vec<String> = Vec::new();
        let mut i: usize = 0;
        let ghost plan = plan_views(self.args@);
        while i < self.args.len()
            invariant
                i <= self.args.len(),
                plan == plan_views(self.args@),
                strings(out@) == filled_in(plan.take(i as int), found@),
            decreases self.args.len() - i,
        {
            let mut more = fill(&self.args[i], found, i);
            out.append(&mut more);
            assert(plan.take(i + 1).drop_last() =~= plan.take(i as int));
            i += 1;
        }
        assert(plan.take(self.args.len() as int) =~= plan);
        out
    }
}

} // verus!
