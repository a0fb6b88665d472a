//! Job configuration: identifiers, per-job definitions, and the loaded
//! set of jobs.
//!
//! Parsing the configuration file is an external collaborator's work;
//! the values arrive here already shaped, and the validating
//! constructors decide whether they are accepted.

use vstd::prelude::*;
use crate::frequency::Frequency;
use crate::notify_definition::NotifyDefinition;
use crate::text::check_kebab;
use crate::text::is_kebab;

verus! {

/// The name of a job: a non-empty kebab-case string.
#[derive(Debug)]
pub struct JobDefinitionId {
    id: String,
}

impl View for JobDefinitionId {
    type V = Seq<char>;

    closed spec fn view(&self) -> Seq<char> {
        self.id@
    }
}

impl JobDefinitionId {
    /// Identifiers are kebab-case; the constructor admits nothing else.
    pub open spec fn wf(self) -> bool {
        is_kebab(self@)
    }

    /// Accept a kebab-case string as an identifier.
    pub fn try_new(s: String) -> (r: Result<Self, String>)
        ensures
            r is Ok <==> is_kebab(s@),
            r is Ok ==> r->Ok_0@ == s@ && r->Ok_0.wf(),
    {
        if check_kebab(s.as_str()) {
            Ok(JobDefinitionId { id: s })
        } else {
            Err(String::from_str("Not kebab case."))
        }
    }

    pub fn as_str(&self) -> (r: &str)
        ensures
            r@ == self@,
    {
        self.id.as_str()
    }
}

impl Clone for JobDefinitionId {
    fn clone(&self) -> (r: Self)
        ensures
            r@ == self@,
    {
        JobDefinitionId { id: self.id.clone() }
    }
}

impl PartialEq for JobDefinitionId {
    fn eq(&self, other: &Self) -> (r: bool) {
        self.id == other.id
    }
}

impl vstd::std_specs::cmp::PartialEqSpecImpl for JobDefinitionId {
    open spec fn obeys_eq_spec() -> bool {
        true
    }

    open spec fn eq_spec(&self, other: &Self) -> bool {
        self@ == other@
    }
}

/// One job: its command, concurrency policy, recurrence and
/// notification policy.
#[derive(Debug)]
pub struct JobDefinition {
    pub cmd: String,
    pub allow_parallel: bool,
    pub frequency: Frequency,
    pub notify_definition: NotifyDefinition,
}

impl JobDefinition {
    pub open spec fn wf(self) -> bool {
        self.frequency.wf()
    }

    pub fn new(
        cmd: String,
        allow_parallel: bool,
        frequency: Frequency,
        notify_definition: NotifyDefinition,
    ) -> (r: Self)
        ensures
            r == (JobDefinition { cmd, allow_parallel, frequency, notify_definition }),
    {
        JobDefinition { cmd, allow_parallel, frequency, notify_definition }
    }

    pub fn get_cmd(&self) -> (r: &String)
        ensures
            r == &self.cmd,
    {
        &self.cmd
    }

    pub fn get_frequency(&self) -> (r: &Frequency)
        ensures
            r == &self.frequency,
    {
        &self.frequency
    }

    pub fn get_notify_definition(&self) -> (r: &NotifyDefinition)
        ensures
            r == &self.notify_definition,
    {
        &self.notify_definition
    }

    pub fn allow_parallel(&self) -> (r: bool)
        ensures
            r == self.allow_parallel,
    {
        self.allow_parallel
    }
}

/// The loaded set of jobs, keyed by identifier; keys are unique, order
/// carries no meaning.
pub struct Config {
    jobs: Vec<(JobDefinitionId, JobDefinition)>,
}

impl Config {
    /// The entry list as values.
    pub closed spec fn entries_spec(self) -> Seq<(JobDefinitionId, JobDefinition)> {
        self.jobs@
    }

    /// No two entries share an identifier, every identifier is
    /// well-formed, and every definition is well-formed.
    pub open spec fn wf(self) -> bool {
        &&& forall|i: int, j: int|
            0 <= i < j < self.entries_spec().len() ==> (#[trigger] self.entries_spec()[i]).0@ != (
            #[trigger] self.entries_spec()[j]).0@
        &&& forall|i: int|
            0 <= i < self.entries_spec().len() ==> (#[trigger] self.entries_spec()[i]).0.wf()
        &&& forall|i: int|
            0 <= i < self.entries_spec().len() ==> (#[trigger] self.entries_spec()[i]).1.wf()
    }

    /// Accept an entry list whose identifiers are distinct and whose
    /// definitions are well-formed.
    pub fn new(jobs: Vec<(JobDefinitionId, JobDefinition)>) -> (r: Option<Config>)
        ensures
            r is Some ==> r->0.wf() && r->0.entries_spec() == jobs@,
    {
        let n = jobs.len();
        let mut i: usize = 0;
        while i < n
            invariant
                0 <= i <= n,
                n == jobs@.len(),
                forall|a: int, b: int|
                    0 <= a < b < i ==> (#[trigger] jobs@[a]).0@ != (#[trigger] jobs@[b]).0@,
                forall|a: int| 0 <= a < i ==> (#[trigger] jobs@[a]).1.wf(),
                forall|a: int| 0 <= a < i ==> (#[trigger] jobs@[a]).0.wf(),
            decreases n - i,
        {
            if !crate::frequency::frequency_is_wf(&jobs[i].1.frequency) {
                return None;
            }
            if !check_kebab(jobs[i].0.as_str()) {
                return None;
            }
            let mut j: usize = 0;
            while j < i
                invariant
                    0 <= j <= i < n,
                    n == jobs@.len(),
                    forall|b: int| 0 <= b < j ==> (#[trigger] jobs@[b]).0@ != jobs@[i as int].0@,
                decreases i - j,
            {
                if jobs[j].0 == jobs[i].0 {
                    return None;
                }
                j = j + 1;
            }
            i = i + 1;
        }
        Some(Config { jobs })
    }

    pub fn entries(&self) -> (r: &Vec<(JobDefinitionId, JobDefinition)>)
        ensures
            r@ == self.entries_spec(),
    {
        &self.jobs
    }
}

} // verus!
