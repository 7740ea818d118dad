//! The steps of a transcription job: fetch the model if it is missing, load
//! it, read the recording, transcribe the microphone channel, then the
//! system channel, then write the transcript. The outside work of each step
//! is done by the caller, which reports back; a cancel request is looked at
//! once the model is at hand and again after the microphone channel.
use vstd::prelude::*;

verus! {

/// Where a transcription job stands.
#[derive(Clone, Copy, PartialEq, Eq, Structural, Debug)]
pub enum JobStage {
    Start,
    FetchingModel,
    LoadingModel,
    ReadingAudio,
    TranscribingMic,
    TranscribingSys,
    Writing,
    Finished,
}

/// What the outside work reports.
#[derive(Clone, Copy, PartialEq, Eq, Structural, Debug)]
pub enum JobEvent {
    /// The job is asked for; whether the model is already on disk.
    Begin { model_cached: bool },
    ModelFetched,
    ModelLoaded,
    AudioRead,
    MicTranscribed,
    SysTranscribed,
    Written,
}

/// What the caller does next.
#[derive(Clone, Copy, PartialEq, Eq, Structural, Debug)]
pub enum JobAction {
    FetchModel,
    LoadModel,
    ReadAudio,
    TranscribeMic,
    TranscribeSys,
    WriteTranscript,
    /// The transcript is written: the job succeeded.
    Complete,
    /// Cancellation was asked for: the job ends with the cancel error.
    Cancel,
    /// The report does not belong to this stage: nothing happens.
    Stay,
}

/// The status shown from this step on.
#[derive(Clone, Copy, PartialEq, Eq, Structural, Debug)]
pub enum JobStatus {
    /// Left as it is.
    Keep,
    /// Downloading the model, nothing received yet.
    Downloading,
    LoadingModel,
    /// Transcribing, with the percentage done.
    Progress(u8),
}

/// The step once the model is on disk: stop if cancelled, else load it.
pub open spec fn model_ready_step(cancelled: bool) -> (JobStage, JobAction, JobStatus) {
    if cancelled {
        (JobStage::Finished, JobAction::Cancel, JobStatus::Keep)
    } else {
        (JobStage::LoadingModel, JobAction::LoadModel, JobStatus::LoadingModel)
    }
}

/// The next stage, the action and the status, for a report at a stage,
/// `cancelled` telling whether cancellation has been asked for.
pub open spec fn job_step_spec(stage: JobStage, cancelled: bool, event: JobEvent) -> (
    JobStage,
    JobAction,
    JobStatus,
) {
    match (stage, event) {
        (JobStage::Start, JobEvent::Begin { model_cached }) => if model_cached {
            model_ready_step(cancelled)
        } else {
            (JobStage::FetchingModel, JobAction::FetchModel, JobStatus::Downloading)
        },
        (JobStage::FetchingModel, JobEvent::ModelFetched) => model_ready_step(cancelled),
        (JobStage::LoadingModel, JobEvent::ModelLoaded) => (
            JobStage::ReadingAudio,
            JobAction::ReadAudio,
            JobStatus::Progress(0),
        ),
        (JobStage::ReadingAudio, JobEvent::AudioRead) => (
            JobStage::TranscribingMic,
            JobAction::TranscribeMic,
            JobStatus::Progress(5),
        ),
        (JobStage::TranscribingMic, JobEvent::MicTranscribed) => if cancelled {
            (JobStage::Finished, JobAction::Cancel, JobStatus::Keep)
        } else {
            (JobStage::TranscribingSys, JobAction::TranscribeSys, JobStatus::Progress(50))
        },
        (JobStage::TranscribingSys, JobEvent::SysTranscribed) => (
            JobStage::Writing,
            JobAction::WriteTranscript,
            JobStatus::Progress(95),
        ),
        (JobStage::Writing, JobEvent::Written) => (
            JobStage::Finished,
            JobAction::Complete,
            JobStatus::Keep,
        ),
        _ => (stage, JobAction::Stay, JobStatus::Keep),
    }
}

fn model_ready_step_exec(cancelled: bool) -> (r: (JobStage, JobAction, JobStatus))
    ensures
        r == model_ready_step(cancelled),
{
    if cancelled {
        (JobStage::Finished, JobAction::Cancel, JobStatus::Keep)
    } else {
        (JobStage::LoadingModel, JobAction::LoadModel, JobStatus::LoadingModel)
    }
}

/// One step of a transcription job.
pub fn job_step(stage: JobStage, cancelled: bool, event: JobEvent) -> (r: (
    JobStage,
    JobAction,
    JobStatus,
))
    ensures
        r == job_step_spec(stage, cancelled, event),
{
    match (stage, event) {
        (JobStage::Start, JobEvent::Begin { model_cached }) => if model_cached {
            model_ready_step_exec(cancelled)
        } else {
            (JobStage::FetchingModel, JobAction::FetchModel, JobStatus::Downloading)
        },
        (JobStage::FetchingModel, JobEvent::ModelFetched) => model_ready_step_exec(cancelled),
        (JobStage::LoadingModel, JobEvent::ModelLoaded) => (
            JobStage::ReadingAudio,
            JobAction::ReadAudio,
            JobStatus::Progress(0),
        ),
        (JobStage::ReadingAudio, JobEvent::AudioRead) => (
            JobStage::TranscribingMic,
            JobAction::TranscribeMic,
            JobStatus::Progress(5),
        ),
        (JobStage::TranscribingMic, JobEvent::MicTranscribed) => if cancelled {
            (JobStage::Finished, JobAction::Cancel, JobStatus::Keep)
        } else {
            (JobStage::TranscribingSys, JobAction::TranscribeSys, JobStatus::Progress(50))
        },
        (JobStage::TranscribingSys, JobEvent::SysTranscribed) => (
            JobStage::Writing,
            JobAction::WriteTranscript,
            JobStatus::Progress(95),
        ),
        (JobStage::Writing, JobEvent::Written) => (
            JobStage::Finished,
            JobAction::Complete,
            JobStatus::Keep,
        ),
        _ => (stage, JobAction::Stay, JobStatus::Keep),
    }
}

/// The order of the stages.
pub open spec fn stage_rank(s: JobStage) -> int {
    match s {
        JobStage::Start => 0,
        JobStage::FetchingModel => 1,
        JobStage::LoadingModel => 2,
        JobStage::ReadingAudio => 3,
        JobStage::TranscribingMic => 4,
        JobStage::TranscribingSys => 5,
        JobStage::Writing => 6,
        JobStage::Finished => 7,
    }
}

/// A job only moves forward: every step that acts moves it to a later
/// stage, a step that does not leaves it where it is, and a finished job
/// stays finished whatever is reported.
pub proof fn lemma_job_moves_forward(stage: JobStage, cancelled: bool, event: JobEvent)
    ensures
        ({
            let (next, action, _) = job_step_spec(stage, cancelled, event);
            &&& action is Stay ==> next == stage
            &&& !(action is Stay) ==> stage_rank(next) > stage_rank(stage)
            &&& stage is Finished ==> action is Stay
        }),
{
}

/// The progress shown only grows: a step that shows a percentage shows more
/// than any step from an earlier stage.
pub proof fn lemma_progress_grows(
    s1: JobStage,
    c1: bool,
    e1: JobEvent,
    s2: JobStage,
    c2: bool,
    e2: JobEvent,
    p1: u8,
    p2: u8,
)
    requires
        job_step_spec(s1, c1, e1).2 == JobStatus::Progress(p1),
        job_step_spec(s2, c2, e2).2 == JobStatus::Progress(p2),
        stage_rank(s1) < stage_rank(s2),
    ensures
        p1 < p2,
{
}

/// A cancel request is honoured: with one pending, no step loads the model
/// or starts on the system channel, and the steps that look at it end the
/// job with the cancel error.
pub proof fn lemma_cancel_stops_job(stage: JobStage, event: JobEvent)
    ensures
        ({
            let (next, action, _) = job_step_spec(stage, true, event);
            &&& !(action is LoadModel)
            &&& !(action is TranscribeSys)
            &&& action is Cancel ==> next is Finished
            &&& (stage is FetchingModel && event is ModelFetched) ==> action is Cancel
            &&& (stage is TranscribingMic && event is MicTranscribed) ==> action is Cancel
        }),
{
}

} // verus!
