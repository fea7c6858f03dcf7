//! Turns a command tree into the processes to spawn: for each one its
//! program, its arguments and where its standard input and output go.

use vstd::prelude::*;
use crate::ast::{Command, SCommand, command_view, strings_view, is_stage_tree, well_formed};
use crate::jobs::{has_job, ForegroundAction, JobError, JobManager, JobView, ProcessGroup};
use crate::lang::PosixError;
use crate::lexer::{is_single, is_word_text};
use crate::parser::{is_assignment, lemma_line_without_amp_is_pipeline, lemma_single_word, parse_texts};

verus! {

/// Where a process reads its standard input.
#[derive(PartialEq, Eq, Structural, Clone, Copy, Debug)]
pub enum Stdin {
    /// The shell's own standard input.
    Inherit,
    /// The read end of the pipe of the process just before it.
    Pipe,
}

/// Where a process writes its standard output.
#[derive(PartialEq, Eq, Structural, Clone, Copy, Debug)]
pub enum Output {
    /// The shell's own standard output.
    Inherit,
    /// A new pipe, read by the process just after it.
    CreatePipe,
}

/// One process to spawn.
pub struct Stage {
    pub program: String,
    pub args: Vec<String>,
    pub stdin: Stdin,
    pub stdout: Output,
}

/// What a command line evaluates to: the jobs to launch in the background,
/// in order, and then the processes returned to the caller.
pub struct Plan {
    pub background: Vec<Vec<Stage>>,
    pub processes: Vec<Stage>,
}

pub struct SStage {
    pub program: Seq<char>,
    pub args: Seq<Seq<char>>,
    pub stdin: Stdin,
    pub stdout: Output,
}

pub open spec fn stage_view(s: Stage) -> SStage {
    SStage { program: s.program@, args: strings_view(s.args@), stdin: s.stdin, stdout: s.stdout }
}

pub open spec fn stages_view(v: Seq<Stage>) -> Seq<SStage> {
    v.map_values(|s: Stage| stage_view(s))
}

pub open spec fn jobs_view(v: Seq<Vec<Stage>>) -> Seq<Seq<SStage>> {
    v.map_values(|j: Vec<Stage>| stages_view(j@))
}

pub open spec fn stdin_or_inherit(o: Option<Stdin>) -> Stdin {
    match o {
        Some(i) => i,
        None => Stdin::Inherit,
    }
}

pub open spec fn output_or_inherit(o: Option<Output>) -> Output {
    match o {
        Some(o) => o,
        None => Output::Inherit,
    }
}

/// The evaluation of `c` with the given overrides of standard input and
/// output: the background jobs it launches, and the processes it returns.
pub open spec fn evaluation(c: SCommand, stdin: Option<Stdin>, stdout: Option<Output>) -> (
    Seq<Seq<SStage>>,
    Seq<SStage>,
)
    decreases c,
{
    match c {
        SCommand::Simple { args, .. } => (
            Seq::empty(),
            seq![
                SStage {
                    program: args[0],
                    args: args.skip(1),
                    stdin: stdin_or_inherit(stdin),
                    stdout: output_or_inherit(stdout),
                },
            ],
        ),
        SCommand::Pipeline(a, b) => {
            let (ja, pa) = evaluation(*a, stdin, Some(Output::CreatePipe));
            let (jb, pb) = evaluation(*b, Some(Stdin::Pipe), stdout);
            (ja + jb, pa + pb)
        },
        SCommand::AsyncList(a, rest) => {
            let (ja, pa) = evaluation(*a, None, None);
            let launched = ja.push(pa);
            match rest {
                Some(r) => {
                    let (jr, pr) = evaluation(*r, None, None);
                    (launched + jr, pr)
                },
                None => (launched, Seq::empty()),
            }
        },
        SCommand::Empty => (Seq::empty(), Seq::empty()),
    }
}

/// Number of simple commands in a tree.
pub open spec fn simple_count(c: SCommand) -> nat
    decreases c,
{
    match c {
        SCommand::Simple { .. } => 1,
        SCommand::Pipeline(a, b) => simple_count(*a) + simple_count(*b),
        SCommand::AsyncList(a, rest) => simple_count(*a) + match rest {
            Some(r) => simple_count(*r),
            None => 0,
        },
        SCommand::Empty => 0,
    }
}

fn tail_args(args: &Vec<String>) -> (r: Vec<String>)
    requires
        args@.len() > 0,
    ensures
        strings_view(r@) == strings_view(args@).skip(1),
{
    let mut r: Vec<String> = Vec::new();
    let mut i: usize = 1;
    while i < args.len()
        invariant
            1 <= i <= args@.len(),
            strings_view(r@) == strings_view(args@).subrange(1, i as int),
        decreases args@.len() - i,
    {
        let ghost before = r@;
        r.push(args[i].clone());
        assert(strings_view(r@) =~= strings_view(before).push(args@[i as int]@));
        assert(strings_view(args@).subrange(1, i + 1) =~= strings_view(args@).subrange(
            1,
            i as int,
        ).push(args@[i as int]@));
        i = i + 1;
    }
    assert(strings_view(args@).subrange(1, args@.len() as int) =~= strings_view(args@).skip(1));
    r
}

/// Evaluates a command tree into the processes to spawn. A simple command
/// is one process, with the given standard input and output, or the
/// shell's own where none is given. A pipeline evaluates its left side with
/// its output to a new pipe, then its right side reading that pipe. An
/// asynchronous list launches its first command as a background job, then
/// evaluates the rest, whose processes it returns.
pub fn eval_command(cmd: &Command, stdin: Option<Stdin>, stdout: Option<Output>) -> (r: Plan)
    requires
        well_formed(command_view(*cmd)),
    ensures
        (jobs_view(r.background@), stages_view(r.processes@)) == evaluation(
            command_view(*cmd),
            stdin,
            stdout,
        ),
    decreases cmd,
{
    match cmd {
        Command::Simple { args, .. } => {
            let program = args[0].clone();
            let rest = tail_args(args);
            let proc_stdin = match stdin {
                Some(i) => i,
                None => Stdin::Inherit,
            };
            let proc_stdout = match stdout {
                Some(o) => o,
                None => Output::Inherit,
            };
            let mut processes: Vec<Stage> = Vec::new();
            processes.push(Stage { program, args: rest, stdin: proc_stdin, stdout: proc_stdout });
            let r = Plan { background: Vec::new(), processes };
            assert(stages_view(r.processes@) =~= evaluation(command_view(*cmd), stdin, stdout).1);
            assert(jobs_view(r.background@) =~= evaluation(command_view(*cmd), stdin, stdout).0);
            r
        },
        Command::Pipeline(a, b) => {
            let pa = eval_command(a, stdin, Some(Output::CreatePipe));
            let pb = eval_command(b, Some(Stdin::Pipe), stdout);
            let Plan { background: mut ja, processes: mut sa } = pa;
            let Plan { background: mut jb, processes: mut sb } = pb;
            let ghost (ja0, sa0, jb0, sb0) = (ja@, sa@, jb@, sb@);
            ja.append(&mut jb);
            sa.append(&mut sb);
            assert(jobs_view(ja@) =~= jobs_view(ja0) + jobs_view(jb0));
            assert(stages_view(sa@) =~= stages_view(sa0) + stages_view(sb0));
            Plan { background: ja, processes: sa }
        },
        Command::AsyncList(a, rest) => {
            let pa = eval_command(a, None, None);
            let Plan { background: mut launched, processes } = pa;
            let ghost (l0, p0) = (launched@, processes@);
            launched.push(processes);
            assert(jobs_view(launched@) =~= jobs_view(l0).push(stages_view(p0)));
            match rest {
                Some(r) => {
                    let pr = eval_command(r, None, None);
                    let Plan { background: mut jr, processes: sr } = pr;
                    let ghost (l1, jr0) = (launched@, jr@);
                    launched.append(&mut jr);
                    assert(jobs_view(launched@) =~= jobs_view(l1) + jobs_view(jr0));
                    Plan { background: launched, processes: sr }
                },
                None => {
                    let r = Plan { background: launched, processes: Vec::new() };
                    assert(stages_view(r.processes@) =~= Seq::empty());
                    r
                },
            }
        },
        Command::Empty => {
            let r = Plan { background: Vec::new(), processes: Vec::new() };
            assert(stages_view(r.processes@) =~= Seq::empty());
            assert(jobs_view(r.background@) =~= Seq::empty());
            r
        },
    }
}

/// Where a new job was placed.
pub enum Placement {
    /// In the foreground: the caller carries out the action and waits.
    Foreground(u64, ForegroundAction),
    /// In the background: the flag says whether to send the continue signal.
    Background(u64, bool),
}

/// Registers the spawned group as a new job and places it in the
/// foreground or the background, as the group asks.
pub fn run_job(job_manager: &mut JobManager, group: ProcessGroup) -> (r: Result<Placement, PosixError>)
    requires
        old(job_manager).wf(),
    ensures
        final(job_manager).wf(),
        old(job_manager).next_id() == u64::MAX ==> (r matches Err(PosixError::Job(JobError::IdsExhausted))
            && final(job_manager).jobs() == old(job_manager).jobs()
            && final(job_manager).terminal() == old(job_manager).terminal()),
        old(job_manager).next_id() < u64::MAX ==> final(job_manager).jobs()
            == old(job_manager).jobs().push(JobView {
                id: old(job_manager).next_id(),
                name: Seq::empty(),
                group: group.id,
                processes: group.processes@,
                stopped: false,
            }),
        old(job_manager).next_id() < u64::MAX && group.foreground ==> (r matches Ok(Placement::Foreground(id, a))
            && id == old(job_manager).next_id() && a.group == group.id && !a.resume
            && final(job_manager).terminal() == Some(id)),
        old(job_manager).next_id() < u64::MAX && !group.foreground ==> (r matches Ok(Placement::Background(id, resume))
            && id == old(job_manager).next_id() && !resume
            && final(job_manager).terminal() == old(job_manager).terminal()),
{
    let foreground = group.foreground;
    let ghost before = *job_manager;
    let id = match job_manager.create_job(String::new(), group) {
        Ok(id) => id,
        Err(e) => {
            return Err(PosixError::Job(e));
        },
    };
    let ghost created = job_manager.jobs();
    let ghost last = created.len() - 1;
    assert(created[last].id == id);
    if foreground {
        match job_manager.put_job_in_foreground(id, false) {
            Ok(a) => {
                assert(job_manager.jobs() =~= created);
                Ok(Placement::Foreground(id, a))
            },
            Err(e) => Err(PosixError::Job(e)),
        }
    } else {
        proof {
            before.lemma_terminal_is_job();
            if let Some(t) = before.terminal() {
                assert(t != id);
            }
        }
        match job_manager.put_job_in_background(id, false) {
            Ok(resume) => {
                assert(job_manager.jobs() =~= created);
                Ok(Placement::Background(id, resume))
            },
            Err(e) => Err(PosixError::Job(e)),
        }
    }
}

/// Each process but the last writes to a new pipe, which the next one reads.
pub open spec fn chained(ps: Seq<SStage>) -> bool {
    &&& forall|i: int| 0 <= i < ps.len() - 1 ==> (#[trigger] ps[i]).stdout == Output::CreatePipe
    &&& forall|i: int| 1 <= i < ps.len() ==> (#[trigger] ps[i]).stdin == Stdin::Pipe
}

proof fn lemma_chained_concat(pa: Seq<SStage>, pb: Seq<SStage>)
    requires
        chained(pa),
        chained(pb),
        pa.len() > 0,
        pb.len() > 0,
        pa.last().stdout == Output::CreatePipe,
        pb[0].stdin == Stdin::Pipe,
    ensures
        chained(pa + pb),
{
    let ps = pa + pb;
    assert forall|i: int| 0 <= i < ps.len() - 1 implies (#[trigger] ps[i]).stdout
        == Output::CreatePipe by {
        if i < pa.len() {
            assert(ps[i] == pa[i]);
        } else {
            assert(ps[i] == pb[i - pa.len()]);
        }
    }
    assert forall|i: int| 1 <= i < ps.len() implies (#[trigger] ps[i]).stdin == Stdin::Pipe by {
        if i < pa.len() {
            assert(ps[i] == pa[i]);
        } else {
            assert(ps[i] == pb[i - pa.len()]);
        }
    }
}

/// A pipeline of n simple commands evaluates to exactly n processes and no
/// background job; each process but the last writes to a new pipe that the
/// next one reads; the first reads the given input, the last writes the
/// given output.
pub proof fn lemma_pipeline_wiring(c: SCommand, stdin: Option<Stdin>, stdout: Option<Output>)
    requires
        is_stage_tree(c),
        well_formed(c),
    ensures
        evaluation(c, stdin, stdout).0.len() == 0,
        evaluation(c, stdin, stdout).1.len() == simple_count(c),
        simple_count(c) > 0,
        evaluation(c, stdin, stdout).1[0].stdin == stdin_or_inherit(stdin),
        evaluation(c, stdin, stdout).1.last().stdout == output_or_inherit(stdout),
        chained(evaluation(c, stdin, stdout).1),
    decreases c,
{
    if let SCommand::Pipeline(a, b) = c {
        lemma_pipeline_wiring(*a, stdin, Some(Output::CreatePipe));
        lemma_pipeline_wiring(*b, Some(Stdin::Pipe), stdout);
        let pa = evaluation(*a, stdin, Some(Output::CreatePipe)).1;
        let pb = evaluation(*b, Some(Stdin::Pipe), stdout).1;
        let ps = pa + pb;
        assert(ps == evaluation(c, stdin, stdout).1);
        assert(ps[0] == pa[0]);
        assert(ps.last() == pb.last());
        lemma_chained_concat(pa, pb);
    } else {
        let ps = evaluation(c, stdin, stdout).1;
        assert(ps.len() == 1);
    }
}

/// The empty command evaluates to no process and no background job.
pub proof fn lemma_empty_evaluates_to_nothing(stdin: Option<Stdin>, stdout: Option<Output>)
    ensures
        evaluation(SCommand::Empty, stdin, stdout) == (
            Seq::<Seq<SStage>>::empty(),
            Seq::<SStage>::empty(),
        ),
{
}

/// A line of one plain word evaluates to exactly one process: that word's
/// program with no arguments, on the shell's own input and output, and no
/// background job.
pub proof fn lemma_single_word_is_one_process(ts: Seq<Seq<char>>)
    requires
        ts.len() == 1,
        is_word_text(ts[0]),
        !is_assignment(ts[0]),
    ensures
        parse_texts(ts) matches Some(c) && evaluation(c, None, None) == (
            Seq::<Seq<SStage>>::empty(),
            seq![
                SStage {
                    program: ts[0],
                    args: Seq::empty(),
                    stdin: Stdin::Inherit,
                    stdout: Output::Inherit,
                },
            ],
        ),
{
    lemma_single_word(ts);
    assert(ts.skip(1) =~= Seq::<Seq<char>>::empty());
}

/// A line without `&` that parses evaluates to one process per simple
/// command and no background job, each process but the last writing to a
/// new pipe that the next one reads, the first reading the shell's input and
/// the last writing the shell's output.
pub proof fn lemma_line_pipeline_wiring(ts: Seq<Seq<char>>)
    requires
        ts.len() > 0,
        forall|j: int| 0 <= j < ts.len() ==> !is_single(#[trigger] ts[j], '&'),
        parse_texts(ts) is Some,
    ensures
        ({
            let c = parse_texts(ts)->0;
            let (jobs, ps) = evaluation(c, None, None);
            &&& jobs.len() == 0
            &&& ps.len() == simple_count(c)
            &&& ps[0].stdin == Stdin::Inherit
            &&& ps.last().stdout == Output::Inherit
            &&& chained(ps)
        }),
{
    lemma_line_without_amp_is_pipeline(ts);
    lemma_pipeline_wiring(parse_texts(ts)->0, None, None);
}

} // verus!
