//! How a process is put into a job that ends with all its members.

use vstd::prelude::*;

use crate::text;

verus! {

/// Why a process could not be started in a job.
#[derive(Debug, PartialEq)]
pub struct JobError {
    pub message: String,
    /// What lies behind the message.
    pub cause: String,
}

/// Why a process could not be started in a job, in characters.
#[verifier::ext_equal]
pub struct JobFault {
    pub message: Seq<char>,
    pub cause: Seq<char>,
}

impl View for JobError {
    type V = JobFault;

    open spec fn view(&self) -> JobFault {
        JobFault { message: self.message@, cause: self.cause@ }
    }
}

/// What is done in order to start a process in a job. The process is created
/// suspended, between the second and the third.
#[derive(Clone, Copy, Debug, PartialEq, Eq, Structural)]
pub enum StartStage {
    /// A job is created.
    Create,
    /// The job is set up to end its members when it is closed.
    Configure,
    /// The process is put into the job.
    Assign,
    /// The process is let run.
    Resume,
}

/// What comes of a stage.
pub enum StageReply {
    Done,
    /// The process was let run, and had been suspended so many times.
    Resumed { previous_suspend_count: u32 },
    Failed { message: String },
}

/// What is done next.
pub enum StartStep {
    Next(StartStage),
    /// The process runs in the job.
    Running,
    /// The process could not be started. Where it was created, it is ended and
    /// waited for.
    Fail { error: JobError, terminate: bool },
}

/// What is told where a stage fails.
pub open spec fn stage_context(stage: StartStage) -> Seq<char> {
    match stage {
        StartStage::Create => "failed to create job object"@,
        StartStage::Configure => "failed to configure kill-on-close job object"@,
        StartStage::Assign => "failed to assign suspended process to job"@,
        StartStage::Resume => "failed to resume suspended process"@,
    }
}

/// Whether the process was created before the stage.
pub open spec fn has_process(stage: StartStage) -> bool {
    stage == StartStage::Assign || stage == StartStage::Resume
}

/// What is told of a process that had not been suspended exactly once.
pub open spec fn count_text(count: u32) -> Seq<char> {
    "expected suspended process thread count 1, got "@ + text::decimal(count as nat)
}

/// Whether the step follows what came of the stage.
pub open spec fn start_step_follows(step: StartStep, stage: StartStage, reply: StageReply) -> bool {
    match reply {
        StageReply::Failed { message } => step matches StartStep::Fail { error, terminate } && terminate == has_process(
            stage,
        ) && error@ == (JobFault { message: stage_context(stage), cause: message@ }),
        StageReply::Resumed { previous_suspend_count } => if previous_suspend_count == 1 {
            step is Running
        } else {
            step matches StartStep::Fail { error, terminate } && terminate && error@ == (JobFault {
                message: stage_context(StartStage::Resume),
                cause: count_text(previous_suspend_count),
            })
        },
        StageReply::Done => step == StartStep::Next(
            match stage {
                StartStage::Create => StartStage::Configure,
                StartStage::Configure => StartStage::Assign,
                StartStage::Assign => StartStage::Resume,
                StartStage::Resume => StartStage::Resume,
            },
        ),
    }
}

fn context_of(stage: StartStage) -> (r: String)
    ensures
        r@ == stage_context(stage),
{
    match stage {
        StartStage::Create => "failed to create job object".to_string(),
        StartStage::Configure => "failed to configure kill-on-close job object".to_string(),
        StartStage::Assign => "failed to assign suspended process to job".to_string(),
        StartStage::Resume => "failed to resume suspended process".to_string(),
    }
}

/// What to do after a stage.
pub fn start_step(stage: StartStage, reply: StageReply) -> (r: StartStep)
    requires
        reply is Resumed ==> stage == StartStage::Resume,
        reply is Done ==> stage != StartStage::Resume,
    ensures
        start_step_follows(r, stage, reply),
{
    match reply {
        StageReply::Failed { message } => {
            let terminate = match stage {
                StartStage::Assign => true,
                StartStage::Resume => true,
                _ => false,
            };
            StartStep::Fail { error: JobError { message: context_of(stage), cause: message }, terminate }
        },
        StageReply::Resumed { previous_suspend_count } => {
            if previous_suspend_count == 1 {
                StartStep::Running
            } else {
                let mut cause = "expected suspended process thread count 1, got ".to_string();
                text::push_decimal(&mut cause, previous_suspend_count as u64);
                StartStep::Fail {
                    error: JobError { message: context_of(StartStage::Resume), cause },
                    terminate: true,
                }
            }
        },
        StageReply::Done => match stage {
            StartStage::Create => StartStep::Next(StartStage::Configure),
            StartStage::Configure => StartStep::Next(StartStage::Assign),
            StartStage::Assign => StartStep::Next(StartStage::Resume),
            StartStage::Resume => StartStep::Next(StartStage::Resume),
        },
    }
}

/// A process that was created is let run only in the job that it was put into,
/// and is ended where anything fails: none runs outside a job.
pub proof fn law_no_process_escapes(step: StartStep, stage: StartStage, reply: StageReply)
    requires
        start_step_follows(step, stage, reply),
        reply is Resumed ==> stage == StartStage::Resume,
        reply is Done ==> stage != StartStage::Resume,
    ensures
        step is Running ==> stage == StartStage::Resume,
        step == StartStep::Next(StartStage::Resume) ==> stage == StartStage::Assign && reply is Done,
        step matches StartStep::Fail { error, terminate } ==> (terminate <==> has_process(stage)),
{
}

/// A job that ends its members when it is closed. All who share it close it but
/// once.
pub struct KillOnCloseJob {
    pub open: bool,
}

/// What is done in order to close a job.
#[derive(Clone, Copy, Debug, PartialEq, Eq, Structural)]
pub struct ClosePlan {
    /// The code with which its members are ended before, if any.
    pub terminate: Option<u32>,
}

/// How the two parts of closing a job come out together: what went wrong first
/// is told.
pub open spec fn close_outcome<E>(terminated: Option<Result<(), E>>, closed: Result<(), E>) -> Result<(), E> {
    match terminated {
        Some(Err(e)) => Err(e),
        _ => closed,
    }
}

impl KillOnCloseJob {
    /// A job that was created and set up.
    pub fn new() -> (r: Self)
        ensures
            r.open,
    {
        KillOnCloseJob { open: true }
    }

    /// Whether a process may be put into the job, or why not.
    pub fn accepts(&self) -> (r: Result<(), String>)
        ensures
            match r {
                Ok(()) => self.open,
                Err(e) => !self.open && e@ == "job handle is already closed"@,
            },
    {
        if self.open {
            Ok(())
        } else {
            Err("job handle is already closed".to_string())
        }
    }

    /// Closes the job, and says what is to be done for that: nothing where it is
    /// closed already.
    pub fn take_and_close(&mut self, exit_code: Option<u32>) -> (r: Option<ClosePlan>)
        ensures
            !final(self).open,
            r == (if old(self).open {
                Some(ClosePlan { terminate: exit_code })
            } else {
                None
            }),
    {
        if !self.open {
            return None;
        }
        self.open = false;
        Some(ClosePlan { terminate: exit_code })
    }

    /// Closes the job, which ends its members.
    pub fn close(&mut self) -> (r: Option<ClosePlan>)
        ensures
            !final(self).open,
            r == (if old(self).open {
                Some(ClosePlan { terminate: None })
            } else {
                None
            }),
    {
        self.take_and_close(None)
    }

    /// Ends the members with the code and closes the job.
    pub fn terminate_and_close(&mut self, exit_code: u32) -> (r: Option<ClosePlan>)
        ensures
            !final(self).open,
            r == (if old(self).open {
                Some(ClosePlan { terminate: Some(exit_code) })
            } else {
                None
            }),
    {
        self.take_and_close(Some(exit_code))
    }
}

/// How the two parts of closing a job come out together.
pub fn close_result<E>(terminated: Option<Result<(), E>>, closed: Result<(), E>) -> (r: Result<(), E>)
    ensures
        r == close_outcome(terminated, closed),
{
    match terminated {
        Some(Err(e)) => Err(e),
        _ => closed,
    }
}

/// A process is started in four stages, each behind the one before: a job is
/// created, then set up, then the process is put into it, then let run. It runs
/// exactly where it had been suspended once.
pub proof fn law_stages_come_one_behind_the_other(step: StartStep, stage: StartStage, reply: StageReply)
    requires
        start_step_follows(step, stage, reply),
    ensures
        reply is Done && stage is Create ==> step == StartStep::Next(StartStage::Configure),
        reply is Done && stage is Configure ==> step == StartStep::Next(StartStage::Assign),
        reply is Done && stage is Assign ==> step == StartStep::Next(StartStage::Resume),
        reply matches StageReply::Resumed { previous_suspend_count } ==> (step is Running <==> previous_suspend_count
            == 1),
        reply is Failed ==> step is Fail,
        step matches StartStep::Fail { error, terminate } ==> (reply is Failed ==> (terminate <==> stage is Assign
            || stage is Resume)) && (reply is Resumed ==> terminate),
{
}

/// A failure tells the stage that failed and why.
pub proof fn law_start_failure_says_why(step: StartStep, stage: StartStage, reply: StageReply)
    requires
        start_step_follows(step, stage, reply),
        reply is Resumed ==> stage == StartStage::Resume,
    ensures
        step matches StartStep::Fail { error, terminate } ==> {
            &&& stage is Create ==> error@.message == "failed to create job object"@
            &&& stage is Configure ==> error@.message == "failed to configure kill-on-close job object"@
            &&& stage is Assign ==> error@.message == "failed to assign suspended process to job"@
            &&& stage is Resume ==> error@.message == "failed to resume suspended process"@
            &&& reply matches StageReply::Failed { message } ==> error@.cause == message@
            &&& reply matches StageReply::Resumed { previous_suspend_count } ==> error@.cause
                == "expected suspended process thread count 1, got "@ + text::decimal(previous_suspend_count as nat)
        },
{
}

/// Closing a job has gone well exactly where ending its members, if that was
/// asked for, and closing it both have; of two failures the earlier is told.
pub proof fn law_close_tells_the_earlier_failure<E>(terminated: Option<Result<(), E>>, closed: Result<(), E>)
    ensures
        close_outcome(terminated, closed) is Ok <==> closed is Ok && (terminated matches Some(ended) ==> ended is Ok),
        terminated matches Some(Err(e)) ==> close_outcome(terminated, closed) == Err::<(), E>(e),
        (terminated matches Some(ended) ==> ended is Ok) ==> close_outcome(terminated, closed) == closed,
{
}

} // verus!
