//! Running many inspections with a bound on how many run at once.
//!
//! A [`Scheduler`] never runs anything. It says which file may be started
//! next, keeps count of the inspections in flight, and collects exactly one
//! finding per file.

use crate::args::Args;
use crate::report::{Finding, FindingView};
use crate::text::texts;
use vstd::prelude::*;

verus! {

/// The number of concurrent inspections on a machine with `cpus`
/// processors, when none is asked for: four per processor, at least eight.
pub open spec fn default_jobs(cpus: int) -> int {
    let fourfold = if cpus * 4 > usize::MAX {
        usize::MAX as int
    } else {
        cpus * 4
    };
    if fourfold < 8 {
        8
    } else {
        fourfold
    }
}

/// The number of concurrent inspections: the one asked for, or else
/// [`default_jobs`] for `cpus` processors.
pub fn jobs_for(requested: Option<usize>, cpus: usize) -> (r: usize)
    ensures
        r == match requested {
            Some(n) => n as int,
            None => default_jobs(cpus as int),
        },
{
    match requested {
        Some(n) => n,
        None => {
            let fourfold = if cpus > usize::MAX / 4 {
                usize::MAX
            } else {
                cpus * 4
            };
            if fourfold < 8 {
                8
            } else {
                fourfold
            }
        },
    }
}

/// Calls `num_cpus::get`, the number of processors available to this
/// process. Nothing is claimed of the number.
#[verifier::external_body]
fn available_cpus() -> usize {
    num_cpus::get()
}

/// The number of concurrent inspections for `args`: `args.jobs`, or else the
/// default for this machine, which is at least eight.
pub fn effective_jobs(args: &Args) -> (r: usize)
    ensures
        match args.jobs {
            Some(n) => r == n,
            None => exists|cpus: int| 0 <= cpus <= usize::MAX && r == #[trigger] default_jobs(cpus),
        },
{
    match args.jobs {
        Some(n) => n,
        None => {
            let cpus = available_cpus();
            let r = jobs_for(None, cpus);
            assert(r == default_jobs(cpus as int));
            r
        },
    }
}

/// How many of `results` are still missing.
pub open spec fn missing(results: Seq<Option<Finding>>) -> nat
    decreases results.len(),
{
    if results.len() == 0 {
        0
    } else {
        missing(results.drop_last()) + if results.last() is None {
            1nat
        } else {
            0nat
        }
    }
}

/// A result that comes in makes one less missing.
proof fn lemma_missing_update(results: Seq<Option<Finding>>, i: int, finding: Finding)
    requires
        0 <= i < results.len(),
        results[i] is None,
    ensures
        missing(results.update(i, Some(finding))) + 1 == missing(results),
    decreases results.len(),
{
    let updated = results.update(i, Some(finding));
    if i == results.len() - 1 {
        assert(updated.drop_last() == results.drop_last());
    } else {
        lemma_missing_update(results.drop_last(), i, finding);
        assert(updated.drop_last() == results.drop_last().update(i, Some(finding)));
    }
}

/// Where none is missing, every result is in.
proof fn lemma_none_missing(results: Seq<Option<Finding>>)
    requires
        missing(results) == 0,
    ensures
        forall|i: int| 0 <= i < results.len() ==> results[i] is Some,
    decreases results.len(),
{
    if results.len() > 0 {
        lemma_none_missing(results.drop_last());
        assert forall|i: int| 0 <= i < results.len() implies results[i] is Some by {
            if i < results.len() - 1 {
                assert(results.drop_last()[i] == results[i]);
            }
        }
    }
}

/// The bookkeeping of a bounded, concurrent run of inspections.
///
/// Files are started in order, one per call of [`Scheduler::start_next`], and
/// only while fewer than the limit are running. Each started file takes
/// exactly one finding ([`Scheduler::complete`]). When all are in,
/// [`Scheduler::into_findings`] hands them out, one per file.
pub struct Scheduler {
    files: Vec<String>,
    limit: usize,
    next: usize,
    running: usize,
    results: Vec<Option<Finding>>,
}

impl Scheduler {
    /// The invariant of a scheduler: no more inspections are running than
    /// the limit allows, the count of those running is right, and each
    /// finding that is in belongs to its file.
    pub closed spec fn wf(self) -> bool {
        &&& self.results.len() == self.files.len()
        &&& self.next <= self.files.len()
        &&& self.running == missing(self.results@.take(self.next as int))
        &&& self.running <= self.limit
        &&& forall|i: int| self.next <= i < self.results.len() ==> self.results[i] is None
        &&& forall|i: int|
            0 <= i < self.results.len() && self.results[i] is Some ==> (
            #[trigger] self.results[i])->0.desktop_file@ == self.files[i]@
    }

    /// The files to inspect.
    pub closed spec fn files(self) -> Seq<Seq<char>> {
        texts(self.files@)
    }

    /// The most inspections that may run at once.
    pub closed spec fn limit(self) -> nat {
        self.limit as nat
    }

    /// How many files have been started: those at the positions below.
    pub closed spec fn started(self) -> nat {
        self.next as nat
    }

    /// How many inspections have been started and not completed.
    pub closed spec fn running(self) -> nat {
        self.running as nat
    }

    /// The finding on the file at position `i`, once it is in.
    pub closed spec fn finding_at(self, i: int) -> Option<FindingView> {
        if 0 <= i < self.results.len() {
            match self.results[i] {
                Some(finding) => Some(finding@),
                None => None,
            }
        } else {
            None
        }
    }

    /// Whether every file has been started and has its finding.
    pub open spec fn done(self) -> bool {
        self.started() == self.files().len() && self.running() == 0
    }

    /// A scheduler for `files` that lets at most `limit` inspections run at
    /// once. Nothing is started yet.
    pub fn new(files: Vec<String>, limit: usize) -> (r: Scheduler)
        ensures
            r.wf(),
            r.files() == texts(files@),
            r.limit() == limit,
            r.started() == 0,
            r.running() == 0,
            forall|i: int| r.finding_at(i) is None,
    {
        let mut results: Vec<Option<Finding>> = Vec::new();
        let mut i: usize = 0;
        while i < files.len()
            invariant
                i <= files.len(),
                results.len() == i,
                forall|k: int| 0 <= k < i ==> results[k] is None,
            decreases files.len() - i,
        {
            results.push(None);
            i += 1;
        }
        assert(results@.take(0) == Seq::<Option<Finding>>::empty());
        Scheduler { files, limit, next: 0, running: 0, results }
    }

    /// The position of the file to start next, if one is left and fewer
    /// inspections than the limit are running. The file then counts as
    /// running.
    pub fn start_next(&mut self) -> (r: Option<usize>)
        requires
            old(self).wf(),
        ensures
            final(self).wf(),
            final(self).files() == old(self).files(),
            final(self).limit() == old(self).limit(),
            final(self).running() <= final(self).limit(),
            forall|i: int| final(self).finding_at(i) == old(self).finding_at(i),
            match r {
                Some(index) => {
                    &&& old(self).running() < old(self).limit()
                    &&& index == old(self).started()
                    &&& index < old(self).files().len()
                    &&& old(self).finding_at(index as int) is None
                    &&& final(self).started() == old(self).started() + 1
                    &&& final(self).running() == old(self).running() + 1
                },
                None => {
                    &&& old(self).running() >= old(self).limit() || old(self).started() == old(
                        self,
                    ).files().len()
                    &&& final(self).started() == old(self).started()
                    &&& final(self).running() == old(self).running()
                },
            },
    {
        if self.running < self.limit && self.next < self.files.len() {
            let index = self.next;
            proof {
                let longer = self.results@.take(index + 1);
                assert(longer.drop_last() == self.results@.take(index as int));
                assert(longer.last() is None);
            }
            self.next = index + 1;
            self.running = self.running + 1;
            Some(index)
        } else {
            None
        }
    }

    /// The path of the file at position `index`.
    pub fn file(&self, index: usize) -> (r: Option<String>)
        ensures
            match r {
                Some(path) => index < self.files().len() && path@ == self.files()[index as int],
                None => index >= self.files().len(),
            },
    {
        if index < self.files.len() {
            Some(self.files[index].clone())
        } else {
            None
        }
    }

    /// Takes the finding on the file at position `index`.
    ///
    /// It is accepted, and `true` returned, if that file is running and the
    /// finding names it. Otherwise nothing changes: no file ever gets a
    /// second finding, or one that belongs to another file.
    pub fn complete(&mut self, index: usize, finding: Finding) -> (r: bool)
        requires
            old(self).wf(),
        ensures
            final(self).wf(),
            final(self).files() == old(self).files(),
            final(self).limit() == old(self).limit(),
            final(self).started() == old(self).started(),
            final(self).running() <= final(self).limit(),
            r == (index < old(self).started() && old(self).finding_at(index as int) is None
                && finding.desktop_file@ == old(self).files()[index as int]),
            r ==> final(self).running() + 1 == old(self).running() && final(self).finding_at(
                index as int,
            ) == Some(finding@),
            !r ==> final(self).running() == old(self).running(),
            forall|i: int| i != index || !r ==> final(self).finding_at(i) == old(self).finding_at(i),
    {
        if index < self.next && self.results[index].is_none() && finding.desktop_file
            == self.files[index] {
            proof {
                let started = self.results@.take(self.next as int);
                lemma_missing_update(started, index as int, finding);
                assert(self.results@.update(index as int, Some(finding)).take(self.next as int)
                    == started.update(index as int, Some(finding)));
            }
            self.results.set(index, Some(finding));
            self.running = self.running - 1;
            true
        } else {
            false
        }
    }

    /// Whether every file has its finding.
    pub fn is_finished(&self) -> (r: bool)
        ensures
            r == self.done(),
    {
        self.next == self.files.len() && self.running == 0
    }

    /// The findings, one per file and in the order of the files, once every
    /// file has its finding; until then the scheduler is handed back.
    pub fn into_findings(self) -> (r: Result<Vec<Finding>, Scheduler>)
        requires
            self.wf(),
        ensures
            match r {
                Ok(findings) => {
                    &&& self.done()
                    &&& findings.len() == self.files().len()
                    &&& forall|i: int|
                        0 <= i < findings.len() ==> self.finding_at(i) == Some(
                            (#[trigger] findings[i])@,
                        ) && findings[i].desktop_file@ == self.files()[i]
                },
                Err(unfinished) => !self.done() && unfinished == self,
            },
    {
        if !self.is_finished() {
            return Err(self);
        }
        let ghost all = self.results@;
        proof {
            assert(all.take(self.next as int) == all);
            lemma_none_missing(all);
        }
        let mut findings: Vec<Finding> = Vec::new();
        for result in it: self.results
            invariant
                it.seq() == all,
                forall|i: int| 0 <= i < all.len() ==> all[i] is Some,
                findings.len() == it.index(),
                forall|i: int| 0 <= i < findings.len() ==> Some(#[trigger] findings[i]) == all[i],
        {
            match result {
                Some(finding) => {
                    findings.push(finding);
                },
                None => {
                    vstd::pervasive::unreached::<()>();
                },
            }
        }
        Ok(findings)
    }
}

/// Starts a concurrent run of inspections over `files`.
///
/// At most `args.jobs` inspections run at once; without that option, the
/// limit is the default for this machine.
pub fn inspect_files_concurrently(files: Vec<String>, args: &Args) -> (r: Scheduler)
    ensures
        r.wf(),
        r.files() == texts(files@),
        r.started() == 0,
        r.running() == 0,
        forall|i: int| r.finding_at(i) is None,
        match args.jobs {
            Some(n) => r.limit() == n,
            None => exists|cpus: int|
                0 <= cpus <= usize::MAX && r.limit() == #[trigger] default_jobs(cpus),
        },
{
    Scheduler::new(files, effective_jobs(args))
}

/// Where no file is listed twice, the findings of a finished run hold
/// exactly one finding for each file: the findings are as many as the files,
/// and the one at the position of a file is the only one that names it.
pub proof fn one_finding_per_file(files: Seq<Seq<char>>, findings: Seq<Finding>, at: int)
    requires
        findings.len() == files.len(),
        forall|i: int| 0 <= i < files.len() ==> (#[trigger] findings[i]).desktop_file@ == files[i],
        forall|i: int, j: int| 0 <= i < j < files.len() ==> #[trigger] files[i] != #[trigger] files[j],
        0 <= at < files.len(),
    ensures
        findings[at].desktop_file@ == files[at],
        forall|j: int|
            0 <= j < findings.len() && (#[trigger] findings[j]).desktop_file@ == files[at] ==> j
                == at,
{
    assert forall|j: int|
        0 <= j < findings.len() && (#[trigger] findings[j]).desktop_file@ == files[at] implies j
        == at by {
        if j < at {
            assert(files[j] != files[at]);
        } else if at < j {
            assert(files[at] != files[j]);
        }
    }
}

} // verus!
