//! The job table: jobs, their process groups, and which one owns the terminal.
//!
//! Spawning, signals, terminal control and waiting are the caller's: the
//! table decides what is to be done and records what happened.

use vstd::prelude::*;

verus! {

/// A failure of the job table or of terminal control.
pub enum JobError {
    /// No job has this id.
    NoSuchJob(u64),
    /// Every job id has been handed out.
    IdsExhausted,
    /// The operating system refused a process-group or terminal operation.
    Os(String),
}

/// The processes of one job, and the group they share.
pub struct ProcessGroup {
    /// The group id: none until the first process joins, whose process id
    /// then names the group.
    pub id: Option<u32>,
    pub processes: Vec<u32>,
    pub foreground: bool,
}

impl ProcessGroup {
    pub fn new(foreground: bool) -> (r: ProcessGroup)
        ensures
            r.id is None,
            r.processes@ == Seq::<u32>::empty(),
            r.foreground == foreground,
    {
        ProcessGroup { id: None, processes: Vec::new(), foreground }
    }

    /// Records a spawned process. The first process defines the group id.
    pub fn add_process(&mut self, pid: u32)
        ensures
            final(self).processes@ == old(self).processes@.push(pid),
            final(self).id == (match old(self).id {
                Some(g) => Some(g),
                None => Some(pid),
            }),
            final(self).foreground == old(self).foreground,
    {
        if self.id.is_none() {
            self.id = Some(pid);
        }
        self.processes.push(pid);
    }
}

/// A job as the table sees it.
pub struct JobView {
    pub id: u64,
    pub name: Seq<char>,
    pub group: Option<u32>,
    pub processes: Seq<u32>,
    pub stopped: bool,
}

pub struct Job {
    pub id: u64,
    pub name: String,
    pub group: ProcessGroup,
    pub stopped: bool,
}

pub open spec fn job_view(j: Job) -> JobView {
    JobView {
        id: j.id,
        name: j.name@,
        group: j.group.id,
        processes: j.group.processes@,
        stopped: j.stopped,
    }
}

pub open spec fn has_job(s: Seq<JobView>, id: u64) -> bool {
    exists|i: int| 0 <= i < s.len() && (#[trigger] s[i]).id == id
}

pub open spec fn with_stopped(j: JobView, stopped: bool) -> JobView {
    JobView { stopped, ..j }
}

/// What the caller does to put a job in the foreground: give the terminal
/// to its group, send it the continue signal if `resume`, and wait for it.
pub struct ForegroundAction {
    pub group: Option<u32>,
    pub resume: bool,
}

/// The jobs of a shell session, in order of creation, and the job that owns
/// the terminal, if any.
pub struct JobManager {
    jobs: Vec<Job>,
    next_id: u64,
    terminal: Option<u64>,
}

impl JobManager {
    pub closed spec fn jobs(&self) -> Seq<JobView> {
        self.jobs@.map_values(|j: Job| job_view(j))
    }

    /// The job that owns the terminal; `None` while the shell owns it.
    pub closed spec fn terminal(&self) -> Option<u64> {
        self.terminal
    }

    /// The id the next job will get.
    pub closed spec fn next_id(&self) -> u64 {
        self.next_id
    }

    /// Job ids are unique and below the next id; the terminal owner is a job.
    pub closed spec fn wf(&self) -> bool {
        let s = self.jobs();
        &&& forall|i: int, j: int| 0 <= i < j < s.len() ==> s[i].id != s[j].id
        &&& forall|i: int| 0 <= i < s.len() ==> (#[trigger] s[i]).id < self.next_id
        &&& (self.terminal matches Some(t) ==> has_job(s, t))
    }

    /// In a well-formed table the terminal owner, if any, is one of its jobs.
    pub proof fn lemma_terminal_is_job(&self)
        requires
            self.wf(),
        ensures
            self.terminal() matches Some(t) ==> has_job(self.jobs(), t),
    {
    }

    pub fn new() -> (r: JobManager)
        ensures
            r.wf(),
            r.jobs() == Seq::<JobView>::empty(),
            r.terminal() is None,
            r.next_id() == 0,
    {
        let r = JobManager { jobs: Vec::new(), next_id: 0, terminal: None };
        assert(r.jobs() =~= Seq::<JobView>::empty());
        r
    }

    fn index_of(&self, id: u64) -> (r: Option<usize>)
        ensures
            r matches Some(i) ==> i < self.jobs().len() && self.jobs()[i as int].id == id,
            r is None ==> !has_job(self.jobs(), id),
    {
        let mut i: usize = 0;
        while i < self.jobs.len()
            invariant
                i <= self.jobs@.len(),
                forall|k: int| 0 <= k < i ==> (#[trigger] self.jobs()[k]).id != id,
            decreases self.jobs@.len() - i,
        {
            if self.jobs[i].id == id {
                return Some(i);
            }
            i = i + 1;
        }
        None
    }

    /// Registers a job for a group whose processes were already spawned,
    /// under a fresh id. It owns no terminal yet.
    pub fn create_job(&mut self, name: String, group: ProcessGroup) -> (r: Result<u64, JobError>)
        requires
            old(self).wf(),
        ensures
            final(self).wf(),
            final(self).terminal() == old(self).terminal(),
            old(self).next_id() == u64::MAX ==> (r matches Err(JobError::IdsExhausted)
                && final(self).jobs() == old(self).jobs()),
            old(self).next_id() < u64::MAX ==> (r matches Ok(id) && id == old(self).next_id()
                && !has_job(old(self).jobs(), id) && final(self).jobs() == old(self).jobs().push(
                JobView {
                    id,
                    name: name@,
                    group: group.id,
                    processes: group.processes@,
                    stopped: false,
                },
            )),
    {
        if self.next_id == u64::MAX {
            return Err(JobError::IdsExhausted);
        }
        let id = self.next_id;
        let ghost before = self.jobs();
        self.jobs.push(Job { id, name, group, stopped: false });
        self.next_id = id + 1;
        assert(self.jobs() =~= before.push(job_view(self.jobs@.last())));
        proof {
            if has_job(before, id) {
                let i = choose|i: int| 0 <= i < before.len() && (#[trigger] before[i]).id == id;
                assert(before[i].id < id);
            }
            if let Some(t) = self.terminal {
                let i = choose|i: int| 0 <= i < before.len() && (#[trigger] before[i]).id == t;
                assert(self.jobs()[i] == before[i]);
            }
        }
        Ok(id)
    }

    fn set_stopped(&mut self, i: usize, stopped: bool)
        requires
            old(self).wf(),
            i < old(self).jobs().len(),
        ensures
            final(self).wf(),
            final(self).jobs() == old(self).jobs().update(i as int, with_stopped(old(self).jobs()[i as int], stopped)),
            final(self).terminal() == old(self).terminal(),
            final(self).next_id() == old(self).next_id(),
    {
        let ghost before = self.jobs();
        let mut job = self.jobs.remove(i);
        job.stopped = stopped;
        self.jobs.insert(i, job);
        assert(self.jobs() =~= before.update(i as int, with_stopped(before[i as int], stopped)));
        proof {
            if let Some(t) = self.terminal {
                let k = choose|k: int| 0 <= k < before.len() && (#[trigger] before[k]).id == t;
                assert(self.jobs()[k].id == t);
            }
        }
    }

    /// Gives the terminal to a job. The caller then hands the terminal to its
    /// group, resumes it when `continue_existing` is set, waits for it, and
    /// reports with `foreground_finished`.
    pub fn put_job_in_foreground(&mut self, id: u64, continue_existing: bool) -> (r: Result<
        ForegroundAction,
        JobError,
    >)
        requires
            old(self).wf(),
        ensures
            final(self).wf(),
            !has_job(old(self).jobs(), id) ==> (r matches Err(JobError::NoSuchJob(e)) && e == id
                && final(self).jobs() == old(self).jobs() && final(self).terminal()
                == old(self).terminal()),
            has_job(old(self).jobs(), id) ==> (r matches Ok(a) && a.resume == continue_existing
                && final(self).terminal() == Some(id)),
            forall|i: int|
                0 <= i < old(self).jobs().len() && (#[trigger] old(self).jobs()[i]).id == id ==> (
                r matches Ok(a) && a.group == old(self).jobs()[i].group && final(self).jobs()
                    == old(self).jobs().update(
                    i,
                    with_stopped(old(self).jobs()[i], old(self).jobs()[i].stopped && !continue_existing),
                )),
    {
        match self.index_of(id) {
            None => Err(JobError::NoSuchJob(id)),
            Some(i) => {
                let stopped = self.jobs[i].stopped && !continue_existing;
                let group = self.jobs[i].group.id;
                self.set_stopped(i, stopped);
                self.terminal = Some(id);
                assert(self.jobs()[i as int].id == id);
                Ok(ForegroundAction { group, resume: continue_existing })
            },
        }
    }

    /// Records that the foreground job `id` stopped or exited, and gives the
    /// terminal back to the shell. A job that exited leaves the table.
    pub fn foreground_finished(&mut self, id: u64, stopped: bool) -> (r: Result<(), JobError>)
        requires
            old(self).wf(),
        ensures
            final(self).wf(),
            final(self).terminal() is None,
            r is Ok <==> has_job(old(self).jobs(), id),
            forall|i: int|
                0 <= i < old(self).jobs().len() && (#[trigger] old(self).jobs()[i]).id == id ==> (
                final(self).jobs() == if stopped {
                    old(self).jobs().update(i, with_stopped(old(self).jobs()[i], true))
                } else {
                    old(self).jobs().remove(i)
                }),
            !has_job(old(self).jobs(), id) ==> final(self).jobs() == old(self).jobs(),
    {
        self.terminal = None;
        match self.index_of(id) {
            None => Err(JobError::NoSuchJob(id)),
            Some(i) => {
                if stopped {
                    self.set_stopped(i, true);
                } else {
                    self.remove_at(i);
                }
                Ok(())
            },
        }
    }

    /// Records that the job `id` has exited: it leaves the table, and the
    /// terminal goes back to the shell if the job held it.
    pub fn job_exited(&mut self, id: u64) -> (r: Result<(), JobError>)
        requires
            old(self).wf(),
        ensures
            final(self).wf(),
            final(self).terminal() == (if old(self).terminal() == Some(id) {
                None
            } else {
                old(self).terminal()
            }),
            r is Ok <==> has_job(old(self).jobs(), id),
            forall|i: int|
                0 <= i < old(self).jobs().len() && (#[trigger] old(self).jobs()[i]).id == id ==> final(self).jobs() == old(self).jobs().remove(i),
            !has_job(old(self).jobs(), id) ==> final(self).jobs() == old(self).jobs(),
    {
        match self.index_of(id) {
            None => Err(JobError::NoSuchJob(id)),
            Some(i) => {
                if self.terminal == Some(id) {
                    self.terminal = None;
                }
                self.remove_at(i);
                Ok(())
            },
        }
    }

    fn remove_at(&mut self, i: usize)
        requires
            old(self).wf(),
            i < old(self).jobs().len(),
            old(self).terminal() != Some(old(self).jobs()[i as int].id),
        ensures
            final(self).wf(),
            final(self).jobs() == old(self).jobs().remove(i as int),
            final(self).terminal() == old(self).terminal(),
    {
        let ghost before = self.jobs();
        self.jobs.remove(i);
        assert(self.jobs() =~= before.remove(i as int));
        proof {
            let s = self.jobs();
            assert forall|a: int, b: int| 0 <= a < b < s.len() implies s[a].id != s[b].id by {
                let a0 = if a < i { a } else { a + 1 };
                let b0 = if b < i { b } else { b + 1 };
                assert(s[a] == before[a0] && s[b] == before[b0]);
            }
            assert forall|a: int| 0 <= a < s.len() implies (#[trigger] s[a]).id < self.next_id by {
                let a0 = if a < i { a } else { a + 1 };
                assert(s[a] == before[a0]);
            }
            if let Some(t) = self.terminal {
                let k = choose|k: int| 0 <= k < before.len() && (#[trigger] before[k]).id == t;
                let k1 = if k < i { k } else { k - 1 };
                assert(s[k1] == before[k]);
            }
        }
    }

    /// Lets a job run without the terminal: the terminal goes back to the
    /// shell if the job held it, and the job is resumed when
    /// `continue_existing` is set. The result says whether the caller sends
    /// the continue signal.
    pub fn put_job_in_background(&mut self, id: u64, continue_existing: bool) -> (r: Result<bool, JobError>)
        requires
            old(self).wf(),
        ensures
            final(self).wf(),
            r is Ok <==> has_job(old(self).jobs(), id),
            r matches Ok(resume) ==> resume == continue_existing,
            has_job(old(self).jobs(), id) ==> final(self).terminal() == (if old(self).terminal() == Some(id) {
                None
            } else {
                old(self).terminal()
            }),
            forall|i: int|
                0 <= i < old(self).jobs().len() && (#[trigger] old(self).jobs()[i]).id == id ==> final(self).jobs() == old(self).jobs().update(
                    i,
                    with_stopped(old(self).jobs()[i], old(self).jobs()[i].stopped && !continue_existing),
                ),
            !has_job(old(self).jobs(), id) ==> final(self).jobs() == old(self).jobs() && final(self).terminal() == old(self).terminal(),
    {
        match self.index_of(id) {
            None => Err(JobError::NoSuchJob(id)),
            Some(i) => {
                let stopped = self.jobs[i].stopped && !continue_existing;
                self.set_stopped(i, stopped);
                if self.terminal == Some(id) {
                    self.terminal = None;
                }
                Ok(continue_existing)
            },
        }
    }
}

} // verus!
