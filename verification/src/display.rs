//! What the display tests and the driver do, step by step.
//!
//! Each procedure is a list of steps that the driver carries out; what it learns
//! from one decides which comes next. A session that takes the display and then
//! stops leaves a screen with no way back, so the order is the substance: the
//! target is picked before anything is touched, the watchdog is armed before the
//! display is taken, and once it is taken every way out leads through putting it
//! back.

use vstd::prelude::*;

use crate::chars;

verus! {

/// Something the driver does.
#[derive(Debug, Clone, Copy, PartialEq, Eq, Structural)]
pub enum Step {
    /// Take a session through the seat manager.
    JoinSession,
    /// Pick a device.
    FindDevice,
    /// Open it; what is told of a failure starts with its path.
    OpenDevice,
    ReadResources,
    /// Choose a connector and its preferred mode.
    PickOutput,
    ReadConnector,
    PickCrtc,
    /// Note what the CRTC shows, to put it back later.
    ReadCrtc,
    DupForEgl,
    GbmForEgl,
    DupForAllocation,
    GbmForAllocation,
    EglDisplay,
    EglContext,
    Renderer,
    AllocateBuffer,
    ExportBuffer,
    /// Say what is about to happen.
    Announce,
    /// Start what restores the display whatever becomes of this run.
    ArmWatchdog,
    OpenKeyboard,
    /// Take the display over.
    TakeMaster,
    /// Map the buffer, and fill it.
    MapBuffer,
    AddFramebuffer,
    BindBuffer,
    StartFrame,
    ClearFrame,
    SetMode,
    /// Leave the picture up.
    Hold,
    /// Put back what the CRTC showed.
    Restore,
    DestroyFramebuffer,
    DestroyBuffer,
    ReleaseMaster,
    ReportKeys,
    /// Open the render node; what is told of a failure starts with its path.
    OpenNode,
    BindForReadback,
    CopyFramebuffer,
    MapCopy,
    CompareColour,
    ReopenNode,
    /// See what modifier an allocation reports.
    AllocateLinear,
}

/// What a failed step leads to.
#[derive(Debug, Clone, Copy, PartialEq, Eq, Structural)]
pub enum OnFailure {
    /// The run ends there.
    Stop,
    /// The run fails, and goes on with a later step of the list.
    CleanUp(usize),
    /// Nothing: the next step follows.
    Ignore,
}

/// A step, what is said around the reason when it fails, and what follows.
#[derive(Debug, Clone, Copy, PartialEq)]
pub struct Stage {
    pub step: Step,
    pub before: &'static str,
    pub after: &'static str,
    pub on_failure: OnFailure,
}

/// A stage, as a mathematical value.
pub struct Planned {
    pub step: Step,
    pub before: Seq<char>,
    pub after: Seq<char>,
    pub on_failure: OnFailure,
}

impl View for Stage {
    type V = Planned;

    open spec fn view(&self) -> Planned {
        Planned {
            step: self.step,
            before: self.before@,
            after: self.after@,
            on_failure: self.on_failure,
        }
    }
}

pub open spec fn planned(stages: Seq<Stage>) -> Seq<Planned> {
    Seq::new(stages.len(), |i: int| stages[i]@)
}

pub open spec fn planned_stage(
    step: Step,
    before: Seq<char>,
    after: Seq<char>,
    on_failure: OnFailure,
) -> Planned {
    Planned { step, before, after, on_failure }
}

fn stage(step: Step, before: &'static str, after: &'static str, on_failure: OnFailure) -> (s: Stage)
    ensures
        s@ == planned_stage(step, before@, after@, on_failure),
{
    Stage { step, before, after, on_failure }
}

/// What can be run.
#[derive(Debug, Clone, Copy, PartialEq, Eq, Structural)]
pub enum Procedure {
    /// Set a mode, show a colour for some seconds, and put the display back.
    Modeset,
    /// Draw with the GPU, scan that buffer out, and put the display back.
    Scanout,
    /// Open everything that a session on the tty needs. Nothing here takes the
    /// display.
    Open,
    /// Draw with the GPU on the render node, and read the picture back.
    Render,
}

pub open spec fn modeset_plan() -> Seq<Planned> {
    seq![
        planned_stage(Step::JoinSession, "could not join a session: "@, "\n  This needs its own VT — see --probe-drm."@, OnFailure::Stop),
        planned_stage(Step::FindDevice, "no DRM device under /dev/dri"@, ""@, OnFailure::Stop),
        planned_stage(Step::OpenDevice, "session refused "@, ""@, OnFailure::Stop),
        planned_stage(Step::ReadResources, "could not read resources: "@, ""@, OnFailure::Stop),
        planned_stage(Step::PickOutput, "no connected output with a mode"@, ""@, OnFailure::Stop),
        planned_stage(Step::ReadConnector, "could not re-read the connector: "@, ""@, OnFailure::Stop),
        planned_stage(Step::PickCrtc, "no CRTC available for that connector"@, ""@, OnFailure::Stop),
        planned_stage(Step::ReadCrtc, "could not read the CRTC: "@, ""@, OnFailure::Stop),
        planned_stage(Step::Announce, ""@, ""@, OnFailure::Stop),
        planned_stage(Step::ArmWatchdog, ""@, ""@, OnFailure::Stop),
        planned_stage(Step::OpenKeyboard, "  no keyboard ("@, "); the watchdog is the only way out"@, OnFailure::Ignore),
        planned_stage(Step::TakeMaster, "could not become DRM master: "@, "\n  Another compositor holds it — this needs its own VT."@, OnFailure::CleanUp(20)),
        planned_stage(Step::AllocateBuffer, "could not allocate a buffer: "@, ""@, OnFailure::CleanUp(20)),
        planned_stage(Step::MapBuffer, "could not map the buffer: "@, ""@, OnFailure::CleanUp(20)),
        planned_stage(Step::AddFramebuffer, "could not add a framebuffer: "@, ""@, OnFailure::CleanUp(20)),
        planned_stage(Step::SetMode, "could not set the mode: "@, ""@, OnFailure::CleanUp(17)),
        planned_stage(Step::Hold, ""@, ""@, OnFailure::Ignore),
        planned_stage(Step::Restore, ""@, ""@, OnFailure::Ignore),
        planned_stage(Step::DestroyFramebuffer, ""@, ""@, OnFailure::Ignore),
        planned_stage(Step::DestroyBuffer, ""@, ""@, OnFailure::Ignore),
        planned_stage(Step::Restore, ""@, ""@, OnFailure::Ignore),
        planned_stage(Step::ReleaseMaster, ""@, ""@, OnFailure::Ignore),
        planned_stage(Step::ReportKeys, ""@, ""@, OnFailure::Ignore),
    ]
}

fn modeset_stages() -> (stages: Vec<Stage>)
    ensures
        planned(stages@) == modeset_plan(),
{
    let mut stages: Vec<Stage> = Vec::new();
    stages.push(stage(Step::JoinSession, "could not join a session: ", "\n  This needs its own VT — see --probe-drm.", OnFailure::Stop));
    stages.push(stage(Step::FindDevice, "no DRM device under /dev/dri", "", OnFailure::Stop));
    stages.push(stage(Step::OpenDevice, "session refused ", "", OnFailure::Stop));
    stages.push(stage(Step::ReadResources, "could not read resources: ", "", OnFailure::Stop));
    stages.push(stage(Step::PickOutput, "no connected output with a mode", "", OnFailure::Stop));
    stages.push(stage(Step::ReadConnector, "could not re-read the connector: ", "", OnFailure::Stop));
    stages.push(stage(Step::PickCrtc, "no CRTC available for that connector", "", OnFailure::Stop));
    stages.push(stage(Step::ReadCrtc, "could not read the CRTC: ", "", OnFailure::Stop));
    stages.push(stage(Step::Announce, "", "", OnFailure::Stop));
    stages.push(stage(Step::ArmWatchdog, "", "", OnFailure::Stop));
    stages.push(stage(Step::OpenKeyboard, "  no keyboard (", "); the watchdog is the only way out", OnFailure::Ignore));
    stages.push(stage(Step::TakeMaster, "could not become DRM master: ", "\n  Another compositor holds it — this needs its own VT.", OnFailure::CleanUp(20)));
    stages.push(stage(Step::AllocateBuffer, "could not allocate a buffer: ", "", OnFailure::CleanUp(20)));
    stages.push(stage(Step::MapBuffer, "could not map the buffer: ", "", OnFailure::CleanUp(20)));
    stages.push(stage(Step::AddFramebuffer, "could not add a framebuffer: ", "", OnFailure::CleanUp(20)));
    stages.push(stage(Step::SetMode, "could not set the mode: ", "", OnFailure::CleanUp(17)));
    stages.push(stage(Step::Hold, "", "", OnFailure::Ignore));
    stages.push(stage(Step::Restore, "", "", OnFailure::Ignore));
    stages.push(stage(Step::DestroyFramebuffer, "", "", OnFailure::Ignore));
    stages.push(stage(Step::DestroyBuffer, "", "", OnFailure::Ignore));
    stages.push(stage(Step::Restore, "", "", OnFailure::Ignore));
    stages.push(stage(Step::ReleaseMaster, "", "", OnFailure::Ignore));
    stages.push(stage(Step::ReportKeys, "", "", OnFailure::Ignore));
    assert(planned(stages@) =~= modeset_plan());
    stages
}

pub open spec fn scanout_plan() -> Seq<Planned> {
    seq![
        planned_stage(Step::JoinSession, "could not join a session: "@, "\n  This needs its own VT — see --probe-drm."@, OnFailure::Stop),
        planned_stage(Step::FindDevice, "no DRM device"@, ""@, OnFailure::Stop),
        planned_stage(Step::OpenDevice, "session refused "@, ""@, OnFailure::Stop),
        planned_stage(Step::ReadResources, "could not read resources: "@, ""@, OnFailure::Stop),
        planned_stage(Step::PickOutput, "no connected output with a mode"@, ""@, OnFailure::Stop),
        planned_stage(Step::ReadConnector, "could not re-read the connector: "@, ""@, OnFailure::Stop),
        planned_stage(Step::PickCrtc, "no CRTC for that connector"@, ""@, OnFailure::Stop),
        planned_stage(Step::ReadCrtc, "could not read the CRTC: "@, ""@, OnFailure::Stop),
        planned_stage(Step::DupForEgl, "could not dup the card for EGL: "@, ""@, OnFailure::Stop),
        planned_stage(Step::GbmForEgl, "no GBM device: "@, ""@, OnFailure::Stop),
        planned_stage(Step::DupForAllocation, "could not dup the card for allocation: "@, ""@, OnFailure::Stop),
        planned_stage(Step::GbmForAllocation, "no GBM device: "@, ""@, OnFailure::Stop),
        planned_stage(Step::EglDisplay, "no EGL display: "@, ""@, OnFailure::Stop),
        planned_stage(Step::EglContext, "no EGL context: "@, ""@, OnFailure::Stop),
        planned_stage(Step::Renderer, "no GL renderer: "@, ""@, OnFailure::Stop),
        planned_stage(Step::AllocateBuffer, "could not allocate a scanout buffer: "@, ""@, OnFailure::Stop),
        planned_stage(Step::ExportBuffer, "could not export the buffer as a dmabuf: "@, ""@, OnFailure::Stop),
        planned_stage(Step::Announce, ""@, ""@, OnFailure::Stop),
        planned_stage(Step::ArmWatchdog, ""@, ""@, OnFailure::Stop),
        planned_stage(Step::TakeMaster, "could not become DRM master: "@, "\n  This needs its own VT."@, OnFailure::Stop),
        planned_stage(Step::BindBuffer, "the renderer would not bind the dmabuf: "@, ""@, OnFailure::CleanUp(27)),
        planned_stage(Step::StartFrame, "could not start a frame: "@, ""@, OnFailure::CleanUp(27)),
        planned_stage(Step::ClearFrame, "could not clear: "@, ""@, OnFailure::CleanUp(27)),
        planned_stage(Step::AddFramebuffer, "the display controller refused the buffer: "@, ""@, OnFailure::CleanUp(27)),
        planned_stage(Step::SetMode, "could not set the mode: "@, ""@, OnFailure::CleanUp(27)),
        planned_stage(Step::Hold, ""@, ""@, OnFailure::Ignore),
        planned_stage(Step::DestroyFramebuffer, ""@, ""@, OnFailure::Ignore),
        planned_stage(Step::Restore, ""@, ""@, OnFailure::Ignore),
        planned_stage(Step::ReleaseMaster, ""@, ""@, OnFailure::Ignore),
    ]
}

fn scanout_stages() -> (stages: Vec<Stage>)
    ensures
        planned(stages@) == scanout_plan(),
{
    let mut stages: Vec<Stage> = Vec::new();
    stages.push(stage(Step::JoinSession, "could not join a session: ", "\n  This needs its own VT — see --probe-drm.", OnFailure::Stop));
    stages.push(stage(Step::FindDevice, "no DRM device", "", OnFailure::Stop));
    stages.push(stage(Step::OpenDevice, "session refused ", "", OnFailure::Stop));
    stages.push(stage(Step::ReadResources, "could not read resources: ", "", OnFailure::Stop));
    stages.push(stage(Step::PickOutput, "no connected output with a mode", "", OnFailure::Stop));
    stages.push(stage(Step::ReadConnector, "could not re-read the connector: ", "", OnFailure::Stop));
    stages.push(stage(Step::PickCrtc, "no CRTC for that connector", "", OnFailure::Stop));
    stages.push(stage(Step::ReadCrtc, "could not read the CRTC: ", "", OnFailure::Stop));
    stages.push(stage(Step::DupForEgl, "could not dup the card for EGL: ", "", OnFailure::Stop));
    stages.push(stage(Step::GbmForEgl, "no GBM device: ", "", OnFailure::Stop));
    stages.push(stage(Step::DupForAllocation, "could not dup the card for allocation: ", "", OnFailure::Stop));
    stages.push(stage(Step::GbmForAllocation, "no GBM device: ", "", OnFailure::Stop));
    stages.push(stage(Step::EglDisplay, "no EGL display: ", "", OnFailure::Stop));
    stages.push(stage(Step::EglContext, "no EGL context: ", "", OnFailure::Stop));
    stages.push(stage(Step::Renderer, "no GL renderer: ", "", OnFailure::Stop));
    stages.push(stage(Step::AllocateBuffer, "could not allocate a scanout buffer: ", "", OnFailure::Stop));
    stages.push(stage(Step::ExportBuffer, "could not export the buffer as a dmabuf: ", "", OnFailure::Stop));
    stages.push(stage(Step::Announce, "", "", OnFailure::Stop));
    stages.push(stage(Step::ArmWatchdog, "", "", OnFailure::Stop));
    stages.push(stage(Step::TakeMaster, "could not become DRM master: ", "\n  This needs its own VT.", OnFailure::Stop));
    stages.push(stage(Step::BindBuffer, "the renderer would not bind the dmabuf: ", "", OnFailure::CleanUp(27)));
    stages.push(stage(Step::StartFrame, "could not start a frame: ", "", OnFailure::CleanUp(27)));
    stages.push(stage(Step::ClearFrame, "could not clear: ", "", OnFailure::CleanUp(27)));
    stages.push(stage(Step::AddFramebuffer, "the display controller refused the buffer: ", "", OnFailure::CleanUp(27)));
    stages.push(stage(Step::SetMode, "could not set the mode: ", "", OnFailure::CleanUp(27)));
    stages.push(stage(Step::Hold, "", "", OnFailure::Ignore));
    stages.push(stage(Step::DestroyFramebuffer, "", "", OnFailure::Ignore));
    stages.push(stage(Step::Restore, "", "", OnFailure::Ignore));
    stages.push(stage(Step::ReleaseMaster, "", "", OnFailure::Ignore));
    assert(planned(stages@) =~= scanout_plan());
    stages
}

pub open spec fn open_plan() -> Seq<Planned> {
    seq![
        planned_stage(Step::FindDevice, "no DRM device"@, ""@, OnFailure::Stop),
        planned_stage(Step::OpenDevice, "session refused "@, ""@, OnFailure::Stop),
        planned_stage(Step::ReadResources, "could not read resources: "@, ""@, OnFailure::Stop),
        planned_stage(Step::PickOutput, "no connected output with a mode"@, ""@, OnFailure::Stop),
        planned_stage(Step::ReadConnector, "could not re-read the connector: "@, ""@, OnFailure::Stop),
        planned_stage(Step::PickCrtc, "no CRTC for that connector"@, ""@, OnFailure::Stop),
        planned_stage(Step::ReadCrtc, "could not read the CRTC: "@, ""@, OnFailure::Stop),
        planned_stage(Step::DupForEgl, "could not dup the card for EGL: "@, ""@, OnFailure::Stop),
        planned_stage(Step::GbmForEgl, "no GBM: "@, ""@, OnFailure::Stop),
        planned_stage(Step::DupForAllocation, "could not dup the card for allocation: "@, ""@, OnFailure::Stop),
        planned_stage(Step::GbmForAllocation, "no GBM: "@, ""@, OnFailure::Stop),
        planned_stage(Step::EglDisplay, "no EGL display: "@, ""@, OnFailure::Stop),
        planned_stage(Step::EglContext, "no EGL context: "@, ""@, OnFailure::Stop),
        planned_stage(Step::Renderer, "no GL renderer: "@, ""@, OnFailure::Stop),
        planned_stage(Step::AllocateBuffer, "could not allocate a scanout buffer: "@, ""@, OnFailure::Stop),
        planned_stage(Step::AddFramebuffer, "the display controller refused the buffer: "@, ""@, OnFailure::Stop),
        planned_stage(Step::ExportBuffer, "could not export the buffer: "@, ""@, OnFailure::Stop),
        planned_stage(Step::AllocateBuffer, "could not allocate a scanout buffer: "@, ""@, OnFailure::Stop),
        planned_stage(Step::AddFramebuffer, "the display controller refused the buffer: "@, ""@, OnFailure::Stop),
        planned_stage(Step::ExportBuffer, "could not export the buffer: "@, ""@, OnFailure::Stop),
    ]
}

fn open_stages() -> (stages: Vec<Stage>)
    ensures
        planned(stages@) == open_plan(),
{
    let mut stages: Vec<Stage> = Vec::new();
    stages.push(stage(Step::FindDevice, "no DRM device", "", OnFailure::Stop));
    stages.push(stage(Step::OpenDevice, "session refused ", "", OnFailure::Stop));
    stages.push(stage(Step::ReadResources, "could not read resources: ", "", OnFailure::Stop));
    stages.push(stage(Step::PickOutput, "no connected output with a mode", "", OnFailure::Stop));
    stages.push(stage(Step::ReadConnector, "could not re-read the connector: ", "", OnFailure::Stop));
    stages.push(stage(Step::PickCrtc, "no CRTC for that connector", "", OnFailure::Stop));
    stages.push(stage(Step::ReadCrtc, "could not read the CRTC: ", "", OnFailure::Stop));
    stages.push(stage(Step::DupForEgl, "could not dup the card for EGL: ", "", OnFailure::Stop));
    stages.push(stage(Step::GbmForEgl, "no GBM: ", "", OnFailure::Stop));
    stages.push(stage(Step::DupForAllocation, "could not dup the card for allocation: ", "", OnFailure::Stop));
    stages.push(stage(Step::GbmForAllocation, "no GBM: ", "", OnFailure::Stop));
    stages.push(stage(Step::EglDisplay, "no EGL display: ", "", OnFailure::Stop));
    stages.push(stage(Step::EglContext, "no EGL context: ", "", OnFailure::Stop));
    stages.push(stage(Step::Renderer, "no GL renderer: ", "", OnFailure::Stop));
    stages.push(stage(Step::AllocateBuffer, "could not allocate a scanout buffer: ", "", OnFailure::Stop));
    stages.push(stage(Step::AddFramebuffer, "the display controller refused the buffer: ", "", OnFailure::Stop));
    stages.push(stage(Step::ExportBuffer, "could not export the buffer: ", "", OnFailure::Stop));
    stages.push(stage(Step::AllocateBuffer, "could not allocate a scanout buffer: ", "", OnFailure::Stop));
    stages.push(stage(Step::AddFramebuffer, "the display controller refused the buffer: ", "", OnFailure::Stop));
    stages.push(stage(Step::ExportBuffer, "could not export the buffer: ", "", OnFailure::Stop));
    assert(planned(stages@) =~= open_plan());
    stages
}

pub open spec fn render_plan() -> Seq<Planned> {
    seq![
        planned_stage(Step::OpenNode, "could not open "@, ""@, OnFailure::Stop),
        planned_stage(Step::GbmForEgl, "no GBM device: "@, ""@, OnFailure::Stop),
        planned_stage(Step::EglDisplay, "no EGL display on the GPU: "@, ""@, OnFailure::Stop),
        planned_stage(Step::EglContext, "no EGL context: "@, ""@, OnFailure::Stop),
        planned_stage(Step::Renderer, "no GL renderer: "@, ""@, OnFailure::Stop),
        planned_stage(Step::AllocateBuffer, "could not allocate a render target: "@, ""@, OnFailure::Stop),
        planned_stage(Step::BindBuffer, "could not bind the target: "@, ""@, OnFailure::Stop),
        planned_stage(Step::StartFrame, "could not start a frame: "@, ""@, OnFailure::Stop),
        planned_stage(Step::ClearFrame, "could not clear: "@, ""@, OnFailure::Stop),
        planned_stage(Step::BindForReadback, "could not re-bind for readback: "@, ""@, OnFailure::Stop),
        planned_stage(Step::CopyFramebuffer, "could not copy the framebuffer: "@, ""@, OnFailure::Stop),
        planned_stage(Step::MapCopy, "could not map the copy: "@, ""@, OnFailure::Stop),
        planned_stage(Step::CompareColour, ""@, ""@, OnFailure::Stop),
        planned_stage(Step::ReopenNode, "could not reopen for allocation: "@, ""@, OnFailure::Stop),
        planned_stage(Step::GbmForAllocation, "no GBM device for allocation: "@, ""@, OnFailure::Stop),
        planned_stage(Step::AllocateLinear, "; could not test allocation here ("@, ")"@, OnFailure::Ignore),
    ]
}

fn render_stages() -> (stages: Vec<Stage>)
    ensures
        planned(stages@) == render_plan(),
{
    let mut stages: Vec<Stage> = Vec::new();
    stages.push(stage(Step::OpenNode, "could not open ", "", OnFailure::Stop));
    stages.push(stage(Step::GbmForEgl, "no GBM device: ", "", OnFailure::Stop));
    stages.push(stage(Step::EglDisplay, "no EGL display on the GPU: ", "", OnFailure::Stop));
    stages.push(stage(Step::EglContext, "no EGL context: ", "", OnFailure::Stop));
    stages.push(stage(Step::Renderer, "no GL renderer: ", "", OnFailure::Stop));
    stages.push(stage(Step::AllocateBuffer, "could not allocate a render target: ", "", OnFailure::Stop));
    stages.push(stage(Step::BindBuffer, "could not bind the target: ", "", OnFailure::Stop));
    stages.push(stage(Step::StartFrame, "could not start a frame: ", "", OnFailure::Stop));
    stages.push(stage(Step::ClearFrame, "could not clear: ", "", OnFailure::Stop));
    stages.push(stage(Step::BindForReadback, "could not re-bind for readback: ", "", OnFailure::Stop));
    stages.push(stage(Step::CopyFramebuffer, "could not copy the framebuffer: ", "", OnFailure::Stop));
    stages.push(stage(Step::MapCopy, "could not map the copy: ", "", OnFailure::Stop));
    stages.push(stage(Step::CompareColour, "", "", OnFailure::Stop));
    stages.push(stage(Step::ReopenNode, "could not reopen for allocation: ", "", OnFailure::Stop));
    stages.push(stage(Step::GbmForAllocation, "no GBM device for allocation: ", "", OnFailure::Stop));
    stages.push(stage(Step::AllocateLinear, "; could not test allocation here (", ")", OnFailure::Ignore));
    assert(planned(stages@) =~= render_plan());
    stages
}

/// The steps of a procedure, in order.
pub open spec fn plan(procedure: Procedure) -> Seq<Planned> {
    match procedure {
        Procedure::Modeset => modeset_plan(),
        Procedure::Scanout => scanout_plan(),
        Procedure::Open => open_plan(),
        Procedure::Render => render_plan(),
    }
}

/// A procedure under way.
#[derive(Debug)]
pub struct Run {
    stages: Vec<Stage>,
    at: usize,
    failure: Option<String>,
    notes: Vec<String>,
}

/// A run, as a mathematical value.
#[verifier::ext_equal]
pub struct Progress {
    pub plan: Seq<Planned>,
    pub at: int,
    pub failure: Option<Seq<char>>,
    /// What was said of failures that ended nothing.
    pub notes: Seq<Seq<char>>,
}

/// What is said of a failed step.
pub open spec fn failure_text(stage: Planned, reason: Seq<char>) -> Seq<char> {
    stage.before + reason + stage.after
}

impl Progress {
    pub open spec fn started(procedure: Procedure) -> Progress {
        Progress { plan: plan(procedure), at: 0, failure: None, notes: Seq::empty() }
    }

    pub open spec fn done(self) -> bool {
        self.at >= self.plan.len()
    }

    /// Where the run is once a step went well, or did not and why.
    pub open spec fn after(self, failure: Option<Seq<char>>) -> Progress {
        match failure {
            None => Progress { at: self.at + 1, ..self },
            Some(reason) => {
                let text = failure_text(self.plan[self.at], reason);
                match self.plan[self.at].on_failure {
                    OnFailure::Stop => Progress {
                        at: self.plan.len() as int,
                        failure: Some(text),
                        ..self
                    },
                    OnFailure::CleanUp(next) => Progress {
                        at: next as int,
                        failure: Some(text),
                        ..self
                    },
                    OnFailure::Ignore => Progress {
                        at: self.at + 1,
                        notes: self.notes.push(text),
                        ..self
                    },
                }
            },
        }
    }

    /// Whether the step that the run is at stands in its list, and every
    /// clean-up leads forward.
    pub open spec fn valid(self) -> bool {
        &&& 0 <= self.at <= self.plan.len() < usize::MAX
        &&& leads_forward(self.plan)
    }
}

/// Whether every clean-up of a plan stands later in it than what leads there.
pub open spec fn leads_forward(stages: Seq<Planned>) -> bool {
    forall|i: int|
        0 <= i < stages.len() ==> match (#[trigger] stages[i]).on_failure {
            OnFailure::CleanUp(next) => i < next < stages.len(),
            _ => true,
        }
}

impl View for Run {
    type V = Progress;

    closed spec fn view(&self) -> Progress {
        Progress {
            plan: planned(self.stages@),
            at: self.at as int,
            failure: match self.failure {
                Some(text) => Some(text@),
                None => None,
            },
            notes: chars::views(self.notes@),
        }
    }
}

impl Run {
    pub fn new(procedure: Procedure) -> (run: Run)
        ensures
            run@ == Progress::started(procedure),
            run@.valid(),
    {
        let stages: Vec<Stage> = match procedure {
            Procedure::Modeset => modeset_stages(),
            Procedure::Scanout => scanout_stages(),
            Procedure::Open => open_stages(),
            Procedure::Render => render_stages(),
        };
        let run: Run = Run { stages, at: 0, failure: None, notes: Vec::new() };
        assert(run@ =~= Progress::started(procedure));
        run
    }

    /// The step to carry out; none once the run is over.
    pub fn step(&self) -> (step: Option<Step>)
        requires
            self@.valid(),
        ensures
            step == if self@.done() {
                None
            } else {
                Some(self@.plan[self@.at].step)
            },
    {
        if self.at < self.stages.len() {
            assert(planned(self.stages@)[self.at as int] == self.stages@[self.at as int]@);
            Some(self.stages[self.at].step)
        } else {
            None
        }
    }

    /// Take note of how the step went.
    pub fn report(&mut self, outcome: Result<(), String>)
        requires
            old(self)@.valid(),
            !old(self)@.done(),
        ensures
            final(self)@ == old(self)@.after(
                match outcome {
                    Ok(_) => None,
                    Err(reason) => Some(reason@),
                },
            ),
            final(self)@.valid(),
            final(self)@.at > old(self)@.at,
    {
        let ghost before = self@;
        assert(before.plan[before.at] == self.stages@[self.at as int]@);
        match outcome {
            Ok(_) => {
                self.at = self.at + 1;
            },
            Err(reason) => {
                let stage: Stage = self.stages[self.at];
                let mut text: Vec<char> = chars::chars_of(stage.before);
                chars::append(&mut text, reason.as_str());
                chars::append(&mut text, stage.after);
                let text: String = chars::text_of(&text);
                let ghost told = text@;
                match stage.on_failure {
                    OnFailure::Stop => {
                        self.failure = Some(text);
                        self.at = self.stages.len();
                    },
                    OnFailure::CleanUp(next) => {
                        assert(before.plan[before.at].on_failure == OnFailure::CleanUp(next));
                        self.failure = Some(text);
                        self.at = next;
                    },
                    OnFailure::Ignore => {
                        self.notes.push(text);
                        self.at = self.at + 1;
                        assert(chars::views(self.notes@) =~= before.notes.push(told));
                    },
                }
            },
        }
    }

    /// What was said of failures that ended nothing.
    pub fn notes(&self) -> (notes: &Vec<String>)
        ensures
            chars::views(notes@) == self@.notes,
    {
        &self.notes
    }

    /// Why the run failed, if it did.
    pub fn failure(&self) -> (text: Option<String>)
        ensures
            match text {
                Some(text) => self@.failure == Some(text@),
                None => self@.failure is None,
            },
    {
        match &self.failure {
            Some(text) => Some(text.clone()),
            None => None,
        }
    }
}

/// Whether a step changes what the screen shows, or who may change it.
pub open spec fn takes_display(step: Step) -> bool {
    step == Step::TakeMaster || step == Step::SetMode
}

/// Before the display is taken the watchdog is armed, and before the watchdog is
/// armed nothing touches the display: a machine with nothing connected fails
/// having changed nothing.
pub proof fn the_watchdog_is_armed_before_the_display_is_taken(procedure: Procedure, i: int)
    requires
        0 <= i < plan(procedure).len(),
        takes_display(plan(procedure)[i].step),
    ensures
        exists|k: int|
            0 <= k < i && (#[trigger] plan(procedure)[k]).step == Step::ArmWatchdog && forall|j: int|
                0 <= j <= k ==> !takes_display((#[trigger] plan(procedure)[j]).step),
{
    if procedure == Procedure::Modeset {
        let k = 9int;
        assert(plan(procedure)[k].step == Step::ArmWatchdog);
    } else if procedure == Procedure::Scanout {
        let k = 18int;
        assert(plan(procedure)[k].step == Step::ArmWatchdog);
    }
}

/// Whether a run that has come to a step goes on until the display has been put
/// back and given up.
pub open spec fn gives_display_back(progress: Progress, restore: int) -> bool {
    &&& 0 <= progress.at <= restore
    &&& restore + 1 < progress.plan.len()
    &&& progress.plan[restore].step == Step::Restore
    &&& progress.plan[restore + 1].step == Step::ReleaseMaster
    &&& forall|i: int|
        progress.at <= i <= restore + 1 ==> match (#[trigger] progress.plan[i]).on_failure {
            OnFailure::Stop => false,
            OnFailure::CleanUp(next) => next <= restore,
            OnFailure::Ignore => true,
        }
}

/// Once the display has been taken, the run goes on until it is given back.
pub proof fn a_taken_display_is_given_back(procedure: Procedure, progress: Progress)
    requires
        progress.plan == plan(procedure),
        0 <= progress.at < progress.plan.len(),
        progress.plan[progress.at].step == Step::TakeMaster,
    ensures
        exists|restore: int| #[trigger] gives_display_back(progress.after(None), restore),
{
    if procedure == Procedure::Modeset {
        assert(gives_display_back(progress.after(None), 20));
    } else if procedure == Procedure::Scanout {
        assert(gives_display_back(progress.after(None), 27));
    }
}

/// Whatever becomes of a step, such a run is still one that gives the display
/// back, until it has come to do so.
pub proof fn giving_back_cannot_be_skipped(
    progress: Progress,
    restore: int,
    failure: Option<Seq<char>>,
)
    requires
        gives_display_back(progress, restore),
        progress.at < restore,
        leads_forward(progress.plan),
    ensures
        gives_display_back(progress.after(failure), restore),
{
    match progress.plan[progress.at].on_failure {
        OnFailure::CleanUp(next) => {
            assert(progress.plan[progress.at].on_failure == OnFailure::CleanUp(next));
        },
        _ => {},
    }
}

/// A step that fails is told of, with the reason it gave in what is said: as the
/// failure of the run where it ends it, and as a note where the run goes on as if
/// it had gone well. One that goes well says nothing and leads to the next.
pub proof fn a_failed_step_is_told_of(run: Progress, reason: Seq<char>)
    requires
        0 <= run.at < run.plan.len(),
    ensures
        ({
            let stage = run.plan[run.at];
            let (well, ill) = (run.after(None), run.after(Some(reason)));
            let text = stage.before + reason + stage.after;
            &&& well.at == run.at + 1
            &&& well.failure == run.failure
            &&& well.notes == run.notes
            &&& ill.plan == run.plan && well.plan == run.plan
            &&& stage.on_failure is Ignore ==> ill.at == well.at && ill.failure == run.failure
                && ill.notes == run.notes.push(text)
            &&& !(stage.on_failure is Ignore) ==> ill.failure == Some(text) && ill.notes
                == run.notes
            &&& stage.on_failure is Stop ==> ill.done()
        }),
{
}

} // verus!
