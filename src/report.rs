use vstd::prelude::*;

verus! {

/// How long a build spent waiting before it ran, split four ways.
/// Every duration is held in whole milliseconds.
#[derive(Debug, Clone, Copy, PartialEq, Eq, Structural, Hash)]
pub struct QueuingDetails {
    pub duration: u64,
    pub blocked: u64,
    pub waiting: u64,
    pub buildable: u64,
}

impl QueuingDetails {
    /// Total queuing time, in milliseconds.
    pub fn duration(&self) -> (r: u64)
        ensures
            r == self.duration,
    {
        self.duration
    }

    /// Time spent blocked, in milliseconds.
    pub fn blocked(&self) -> (r: u64)
        ensures
            r == self.blocked,
    {
        self.blocked
    }

    /// Time spent waiting for an executor, in milliseconds.
    pub fn waiting(&self) -> (r: u64)
        ensures
            r == self.waiting,
    {
        self.waiting
    }

    /// Time spent buildable, in milliseconds.
    pub fn buildable(&self) -> (r: u64)
        ensures
            r == self.buildable,
    {
        self.buildable
    }
}

/// Outcome of one build run, in the order in which outcomes compare.
#[derive(Debug, Clone, Copy, PartialEq, Eq, Structural, Hash, PartialOrd, Ord)]
pub enum BuildResult {
    Unknown,
    Aborted,
    Failure,
    NotBuild,
    Success,
    Unstable,
}

/// The lower-case label under which an outcome is shown.
pub open spec fn result_label(r: BuildResult) -> Seq<char> {
    match r {
        BuildResult::Unknown => "unknown"@,
        BuildResult::Aborted => "aborted"@,
        BuildResult::Failure => "failure"@,
        BuildResult::NotBuild => "not_build"@,
        BuildResult::Success => "success"@,
        BuildResult::Unstable => "unstable"@,
    }
}

impl Default for BuildResult {
    /// A record that names no outcome counts as `Unknown`.
    fn default() -> (r: Self)
        ensures
            r == BuildResult::Unknown,
    {
        BuildResult::Unknown
    }
}

impl BuildResult {
    /// The label of this outcome, as a table shows it.
    pub fn label(&self) -> (r: &'static str)
        ensures
            r@ == result_label(*self),
    {
        match self {
            BuildResult::Unknown => "unknown",
            BuildResult::Aborted => "aborted",
            BuildResult::Failure => "failure",
            BuildResult::NotBuild => "not_build",
            BuildResult::Success => "success",
            BuildResult::Unstable => "unstable",
        }
    }
}

/// One build execution.
///
/// `time` is the instant of the run in milliseconds since the Unix epoch (UTC).
/// Durations are whole milliseconds; `executor_utilization` is the utilization
/// ratio in millionths (`1_000_000` stands for `1.0`).
///
/// A record's identity is its build name alone: two records with the same
/// `build` are the same entity, whatever their other fields hold.
#[derive(Debug)]
pub struct Report {
    pub build: String,
    pub time: i64,
    pub result: BuildResult,
    pub duration: u64,
    pub executing: u64,
    pub executor_utilization: u64,
    pub queuing: QueuingDetails,
}

impl Report {
    /// Builds a record from its fields.
    pub fn new(
        build: String,
        time: i64,
        result: BuildResult,
        duration: u64,
        executing: u64,
        executor_utilization: u64,
        queuing: QueuingDetails,
    ) -> (r: Report)
        ensures
            r.build@ == build@,
            r.time == time,
            r.result == result,
            r.duration == duration,
            r.executing == executing,
            r.executor_utilization == executor_utilization,
            r.queuing == queuing,
    {
        Report { build, time, result, duration, executing, executor_utilization, queuing }
    }

    /// The build name, which is the record's identity.
    pub fn build(&self) -> (r: &str)
        ensures
            r@ == self.build@,
    {
        self.build.as_str()
    }

    /// The instant of the run, in milliseconds since the Unix epoch.
    pub fn time(&self) -> (r: i64)
        ensures
            r == self.time,
    {
        self.time
    }

    /// Wall-clock duration of the build, in milliseconds.
    pub fn duration(&self) -> (r: u64)
        ensures
            r == self.duration,
    {
        self.duration
    }

    /// Time the build actually executed, in milliseconds.
    pub fn executing(&self) -> (r: u64)
        ensures
            r == self.executing,
    {
        self.executing
    }

    /// The queuing breakdown of the build.
    pub fn queuing(&self) -> (r: &QueuingDetails)
        ensures
            *r == self.queuing,
    {
        &self.queuing
    }

    /// Executor utilization, in millionths.
    pub fn executor_utilization(&self) -> (r: u64)
        ensures
            r == self.executor_utilization,
    {
        self.executor_utilization
    }

    /// Outcome of the build.
    pub fn result(&self) -> (r: &BuildResult)
        ensures
            *r == self.result,
    {
        &self.result
    }
}

impl PartialEq for Report {
    /// Records are equal when their build names are: the name is the
    /// record's identity.
    fn eq(&self, other: &Report) -> (r: bool) {
        self.build == other.build
    }
}

impl vstd::std_specs::cmp::PartialEqSpecImpl for Report {
    open spec fn obeys_eq_spec() -> bool {
        true
    }

    open spec fn eq_spec(&self, other: &Report) -> bool {
        self.build@ == other.build@
    }
}

impl Eq for Report {

}

} // verus!
