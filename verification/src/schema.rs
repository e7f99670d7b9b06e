use vstd::prelude::*;

verus! {

/// When the build started, in epoch seconds.
#[derive(Clone, Debug, PartialEq, Eq)]
pub struct Start {
    pub time: u64,
}

/// When the build finished, in epoch seconds, and whether it succeeded.
#[derive(Clone, Debug, PartialEq, Eq)]
pub struct Finish {
    pub time: u64,
    pub ok: bool,
}

/// One build report, as the report endpoint serves it. `finish` is absent
/// while the build is still running. Nothing upstream guarantees
/// `finish.time >= start.time`, so readers treat a violation as a defect
/// instead of rendering a negative duration.
#[derive(Clone, Debug, PartialEq, Eq)]
pub struct Report {
    pub artifacts: String,
    pub message: String,
    pub refname: String,
    pub start: Start,
    pub finish: Option<Finish>,
}

/// The mathematical value of a `Finish`.
pub ghost struct FinishV {
    pub time: u64,
    pub ok: bool,
}

/// The mathematical value of a `Report`: its strings as character sequences.
pub ghost struct ReportV {
    pub artifacts: Seq<char>,
    pub message: Seq<char>,
    pub refname: Seq<char>,
    pub start_time: u64,
    pub finish: Option<FinishV>,
}

impl View for Finish {
    type V = FinishV;

    open spec fn view(&self) -> FinishV {
        FinishV { time: self.time, ok: self.ok }
    }
}

impl View for Report {
    type V = ReportV;

    open spec fn view(&self) -> ReportV {
        ReportV {
            artifacts: self.artifacts@,
            message: self.message@,
            refname: self.refname@,
            start_time: self.start.time,
            finish: match self.finish {
                Option::None => Option::None,
                Option::Some(f) => Option::Some(f@),
            },
        }
    }
}

/// What a report says about the build: still running, or finished and how.
#[derive(Clone, Copy, Debug, PartialEq, Eq, Structural)]
pub enum BuildStatus {
    InProgress,
    Succeeded,
    Failed,
}

impl Report {
    /// The build's status: in progress while `finish` is absent, otherwise
    /// decided by the finish record's `ok` flag.
    pub fn status(&self) -> (r: BuildStatus)
        ensures
            (r == BuildStatus::InProgress) <==> self.finish is None,
            (r == BuildStatus::Succeeded) <==> (self.finish matches Some(f) && f.ok),
            (r == BuildStatus::Failed) <==> (self.finish matches Some(f) && !f.ok),
    {
        match &self.finish {
            Option::None => BuildStatus::InProgress,
            Option::Some(f) => if f.ok {
                BuildStatus::Succeeded
            } else {
                BuildStatus::Failed
            },
        }
    }

    /// The run time in seconds, by checked subtraction: `None` while the
    /// build still runs, `Some(Err(()))` when the finish time lies before the
    /// start time (clock skew), never a wrapped-around difference.
    pub fn run_seconds(&self) -> (r: Option<Result<u64, ()>>)
        ensures
            self.finish is None ==> r is None,
            forall|f: Finish|
                (self.finish == Some(f) && f.time >= self.start.time) ==> r == Some(
                    Result::<u64, ()>::Ok((f.time - self.start.time) as u64),
                ),
            forall|f: Finish|
                (self.finish == Some(f) && f.time < self.start.time) ==> r == Some(
                    Result::<u64, ()>::Err(()),
                ),
    {
        match &self.finish {
            Option::None => Option::None,
            Option::Some(f) => if f.time >= self.start.time {
                Option::Some(Result::Ok(f.time - self.start.time))
            } else {
                Option::Some(Result::Err(()))
            },
        }
    }
}

impl BuildStatus {
    /// The label the status line shows for this status.
    pub fn label(&self) -> (r: &'static str)
        ensures
            self is InProgress ==> r@ == "in progress... "@,
            self is Succeeded ==> r@ == "OK"@,
            self is Failed ==> r@ == "ERR"@,
    {
        match self {
            BuildStatus::InProgress => "in progress... ",
            BuildStatus::Succeeded => "OK",
            BuildStatus::Failed => "ERR",
        }
    }
}

} // verus!
