//! The task model: one task renders one set of frames of one parent job.
//! Tasks arrive from the broker, carry a renderer or a generic command, and
//! walk the monotone status lattice
//! `Waiting -> Queued -> Running -> {Finished, Errored}`.

use vstd::prelude::*;
use crate::textutil::{spec_u64_digits, spec_padded5, u64_to_string, u64_to_padded5};

verus! {

/// The status of a task.  `Finished` and `Errored` are terminal.
#[derive(Clone, Copy, PartialEq, Eq, Structural, Debug)]
pub enum TaskStatus {
    Waiting,
    Queued,
    Running,
    Finished,
    Errored,
}

impl TaskStatus {
    /// Position in the status lattice; both terminal statuses share the top.
    pub open spec fn rank(&self) -> int {
        match self {
            TaskStatus::Waiting => 0,
            TaskStatus::Queued => 1,
            TaskStatus::Running => 2,
            TaskStatus::Finished => 3,
            TaskStatus::Errored => 3,
        }
    }

    /// Whether `other` is reachable from `self` in the lattice: equal, or
    /// strictly higher.  A terminal status reaches only itself.
    pub open spec fn can_reach(&self, other: TaskStatus) -> bool {
        *self == other || self.rank() < other.rank()
    }

    /// Whether the status is terminal.
    pub open spec fn spec_is_ended(&self) -> bool {
        *self == TaskStatus::Finished || *self == TaskStatus::Errored
    }
}

/// One expected output frame of a renderer command: the frame number, the
/// path the renderer will write, and the attributes computed after the
/// render (byte size, content hash, uploaded flag).
#[derive(Debug)]
pub struct FrameOutput {
    /// The frame number.
    pub frame: u64,
    /// Where the rendered frame is written.
    pub path: String,
    /// Byte size of the rendered file, once computed.
    pub filesize: Option<u64>,
    /// Content hash of the rendered file, once computed.
    pub hash: Option<String>,
    /// Whether the frame was uploaded to the coordinator.
    pub uploaded: bool,
}

/// The renderer arguments for the frames of `frames`, appended to the base
/// command: one ` -f <n>` per frame.
pub open spec fn spec_frame_args(frames: Seq<u64>) -> Seq<char>
    decreases frames.len(),
{
    if frames.len() == 0 {
        Seq::<char>::empty()
    } else {
        spec_frame_args(frames.drop_last()) + " -f "@ + spec_u64_digits(frames.last() as int)
    }
}

/// The command string a constructed renderer command holds: the renderer
/// binary, the quoted scene path, script execution switched off, the quoted
/// pattern, and one `-f` argument per frame.
pub open spec fn spec_command_string(scene: Seq<char>, outdir: Seq<char>, frames: Seq<u64>) -> Seq<
    char,
> {
    "blender -b \""@ + scene + "\" --disable-autoexec -o \""@ + outdir + "/#####\""@
        + spec_frame_args(frames)
}

/// The path a rendered frame is written to: the output directory, the
/// frame number zero-padded to five digits, and the image extension.
pub open spec fn spec_output_path(outdir: Seq<char>, frame: u64) -> Seq<char> {
    outdir + "/"@ + spec_padded5(frame as int) + ".png"@
}

/// A renderer command.  It starts bare, holding only frame numbers; once
/// the scene is on disk it takes the scene path, the output directory,
/// the command string and the expected outputs.
#[derive(Debug)]
pub struct RenderCommand {
    /// The frame numbers to render.
    pub frames: Vec<u64>,
    /// Where the scene lies on disk, once known.
    pub scene: Option<String>,
    /// Where the rendered frames go, once known.
    pub outdir: Option<String>,
    /// The full renderer command line, once known.
    pub command_string: Option<String>,
    /// One expected output per frame.
    pub outputs: Vec<FrameOutput>,
}

impl RenderCommand {
    /// Shape invariant: an unconstructed command has no outputs; a
    /// constructed one has its scene, directory and command string set, and
    /// one output per frame carrying that frame's number and path.
    pub open spec fn wf(&self) -> bool {
        match self.command_string {
            Option::None => {
                &&& self.scene is None
                &&& self.outdir is None
                &&& self.outputs@.len() == 0
            },
            Option::Some(cmd) => {
                &&& self.scene is Some
                &&& self.outdir is Some
                &&& cmd@ == spec_command_string(
                    self.scene->0@,
                    self.outdir->0@,
                    self.frames@,
                )
                &&& self.outputs@.len() == self.frames@.len()
                &&& forall|i: int|
                    0 <= i < self.outputs@.len() ==> (#[trigger] self.outputs@[i]).frame
                        == self.frames@[i] && self.outputs@[i].path@ == spec_output_path(
                        self.outdir->0@,
                        self.frames@[i],
                    )
            },
        }
    }

    /// Whether the command string was materialized.
    pub open spec fn spec_is_constructed(&self) -> bool {
        self.command_string is Some
    }

    /// Whether every output has its byte size computed.
    pub open spec fn spec_all_filesize(&self) -> bool {
        forall|i: int| 0 <= i < self.outputs@.len() ==> (#[trigger] self.outputs@[i]).filesize is Some
    }

    /// Whether every output has its content hash computed.
    pub open spec fn spec_all_hashed(&self) -> bool {
        forall|i: int| 0 <= i < self.outputs@.len() ==> (#[trigger] self.outputs@[i]).hash is Some
    }

    /// Whether every output was uploaded.
    pub open spec fn spec_all_uploaded(&self) -> bool {
        forall|i: int| 0 <= i < self.outputs@.len() ==> (#[trigger] self.outputs@[i]).uploaded
    }

    /// Create an unconstructed renderer command for `frames`.
    pub fn new(frames: Vec<u64>) -> (r: Self)
        ensures
            r.wf(),
            !r.spec_is_constructed(),
            r.frames == frames,
    {
        RenderCommand {
            frames,
            scene: Option::None,
            outdir: Option::None,
            command_string: Option::None,
            outputs: Vec::new(),
        }
    }

    /// Whether every output has its byte size computed.
    pub fn all_filesize(&self) -> (r: bool)
        ensures
            r == self.spec_all_filesize(),
    {
        let mut i: usize = 0;
        while i < self.outputs.len()
            invariant
                0 <= i <= self.outputs@.len(),
                forall|k: int| 0 <= k < i ==> (#[trigger] self.outputs@[k]).filesize is Some,
            decreases self.outputs@.len() - i,
        {
            if self.outputs[i].filesize.is_none() {
                return false;
            }
            i = i + 1;
        }
        true
    }

    /// Whether every output has its content hash computed.
    pub fn all_hashed(&self) -> (r: bool)
        ensures
            r == self.spec_all_hashed(),
    {
        let mut i: usize = 0;
        while i < self.outputs.len()
            invariant
                0 <= i <= self.outputs@.len(),
                forall|k: int| 0 <= k < i ==> (#[trigger] self.outputs@[k]).hash is Some,
            decreases self.outputs@.len() - i,
        {
            if self.outputs[i].hash.is_none() {
                return false;
            }
            i = i + 1;
        }
        true
    }

    /// Whether every output was uploaded.
    pub fn all_uploaded(&self) -> (r: bool)
        ensures
            r == self.spec_all_uploaded(),
    {
        let mut i: usize = 0;
        while i < self.outputs.len()
            invariant
                0 <= i <= self.outputs@.len(),
                forall|k: int| 0 <= k < i ==> (#[trigger] self.outputs@[k]).uploaded,
            decreases self.outputs@.len() - i,
        {
            if !self.outputs[i].uploaded {
                return false;
            }
            i = i + 1;
        }
        true
    }
}

/// The command of a task: a renderer invocation, or generic work this
/// worker does not dispatch.
#[derive(Debug)]
pub enum TaskCommand {
    Renderer(RenderCommand),
    Generic { constructed: bool },
}

impl TaskCommand {
    /// Shape invariant; trivial for generic commands.
    pub open spec fn wf(&self) -> bool {
        match self {
            TaskCommand::Renderer(rc) => rc.wf(),
            TaskCommand::Generic { .. } => true,
        }
    }

    /// Whether this is a renderer command.
    pub open spec fn spec_is_blender(&self) -> bool {
        self is Renderer
    }

    /// Whether the command was constructed.
    pub open spec fn spec_is_constructed(&self) -> bool {
        match self {
            TaskCommand::Renderer(rc) => rc.spec_is_constructed(),
            TaskCommand::Generic { constructed } => *constructed,
        }
    }

    /// Whether every output was uploaded; a generic command has none.
    pub open spec fn spec_all_uploaded(&self) -> bool {
        match self {
            TaskCommand::Renderer(rc) => rc.spec_all_uploaded(),
            TaskCommand::Generic { .. } => true,
        }
    }

    /// Whether every output has its byte size; a generic command has none.
    pub open spec fn spec_all_filesize(&self) -> bool {
        match self {
            TaskCommand::Renderer(rc) => rc.spec_all_filesize(),
            TaskCommand::Generic { .. } => true,
        }
    }

    /// Whether every output has its hash; a generic command has none.
    pub open spec fn spec_all_hashed(&self) -> bool {
        match self {
            TaskCommand::Renderer(rc) => rc.spec_all_hashed(),
            TaskCommand::Generic { .. } => true,
        }
    }

    /// Whether this is a renderer command.
    pub fn is_blender(&self) -> (r: bool)
        ensures
            r == self.spec_is_blender(),
    {
        match self {
            TaskCommand::Renderer(_) => true,
            _ => false,
        }
    }

    /// Whether the command was constructed.
    pub fn is_constructed(&self) -> (r: bool)
        ensures
            r == self.spec_is_constructed(),
    {
        match self {
            TaskCommand::Renderer(rc) => rc.command_string.is_some(),
            TaskCommand::Generic { constructed } => *constructed,
        }
    }

    /// Whether every output was uploaded; true of a generic command.
    pub fn all_uploaded(&self) -> (r: bool)
        ensures
            r == self.spec_all_uploaded(),
    {
        match self {
            TaskCommand::Renderer(rc) => rc.all_uploaded(),
            TaskCommand::Generic { .. } => true,
        }
    }

    /// Whether every output has its byte size; true of a generic command.
    pub fn all_filesize(&self) -> (r: bool)
        ensures
            r == self.spec_all_filesize(),
    {
        match self {
            TaskCommand::Renderer(rc) => rc.all_filesize(),
            TaskCommand::Generic { .. } => true,
        }
    }

    /// Whether every output has its hash; true of a generic command.
    pub fn all_hashed(&self) -> (r: bool)
        ensures
            r == self.spec_all_hashed(),
    {
        match self {
            TaskCommand::Renderer(rc) => rc.all_hashed(),
            TaskCommand::Generic { .. } => true,
        }
    }
}

/// One task received from the broker.
#[derive(Debug)]
pub struct Task {
    /// Identity of the task.
    pub id: String,
    /// Identity of the parent job.
    pub parent_id: String,
    /// Where the task stands in its lifecycle.
    pub status: TaskStatus,
    /// What the task runs.
    pub command: TaskCommand,
    /// The broker delivery tag, stamped at intake, acknowledged at finish.
    pub delivery_tag: Option<u64>,
    /// The scene-file path, once the parent job's scene is on disk.
    pub scene_path: Option<String>,
}

impl Task {
    /// Shape invariant of the command.
    pub open spec fn wf(&self) -> bool {
        self.command.wf()
    }

    /// Whether the status is terminal.
    pub open spec fn spec_is_ended(&self) -> bool {
        self.status.spec_is_ended()
    }

    /// Create a fresh task as the broker delivers it: waiting, untagged,
    /// with an unconstructed command.
    pub fn new(id: String, parent_id: String, command: TaskCommand) -> (r: Self)
        requires
            command.wf(),
        ensures
            r.wf(),
            r.id == id,
            r.parent_id == parent_id,
            r.status == TaskStatus::Waiting,
            r.command == command,
            r.delivery_tag is None,
            r.scene_path is None,
    {
        Task {
            id,
            parent_id,
            status: TaskStatus::Waiting,
            command,
            delivery_tag: Option::None,
            scene_path: Option::None,
        }
    }

    /// Move a waiting task to `Queued`.
    pub fn queue(&mut self)
        requires
            old(self).status == TaskStatus::Waiting,
        ensures
            *final(self) == (Task { status: TaskStatus::Queued, ..*old(self) }),
    {
        self.status = TaskStatus::Queued;
    }

    /// Move a queued task to `Running`.
    pub fn start(&mut self)
        requires
            old(self).status == TaskStatus::Queued || old(self).status == TaskStatus::Running,
        ensures
            *final(self) == (Task { status: TaskStatus::Running, ..*old(self) }),
    {
        self.status = TaskStatus::Running;
    }

    /// Move a running task to `Finished`.
    pub fn finish(&mut self)
        requires
            old(self).status == TaskStatus::Running,
        ensures
            *final(self) == (Task { status: TaskStatus::Finished, ..*old(self) }),
    {
        self.status = TaskStatus::Finished;
    }

    /// Move a running task to `Errored`.
    pub fn error(&mut self)
        requires
            old(self).status == TaskStatus::Running,
        ensures
            *final(self) == (Task { status: TaskStatus::Errored, ..*old(self) }),
    {
        self.status = TaskStatus::Errored;
    }

    pub fn is_waiting(&self) -> (r: bool)
        ensures
            r == (self.status == TaskStatus::Waiting),
    {
        self.status == TaskStatus::Waiting
    }

    pub fn is_queued(&self) -> (r: bool)
        ensures
            r == (self.status == TaskStatus::Queued),
    {
        self.status == TaskStatus::Queued
    }

    pub fn is_running(&self) -> (r: bool)
        ensures
            r == (self.status == TaskStatus::Running),
    {
        self.status == TaskStatus::Running
    }

    pub fn is_finished(&self) -> (r: bool)
        ensures
            r == (self.status == TaskStatus::Finished),
    {
        self.status == TaskStatus::Finished
    }

    pub fn is_errored(&self) -> (r: bool)
        ensures
            r == (self.status == TaskStatus::Errored),
    {
        self.status == TaskStatus::Errored
    }

    /// Whether the task reached a terminal status.
    pub fn is_ended(&self) -> (r: bool)
        ensures
            r == self.spec_is_ended(),
    {
        self.status == TaskStatus::Finished || self.status == TaskStatus::Errored
    }

    /// Materialize the command from the scene path and the output
    /// directory: build the command string and one expected output per
    /// frame.  A generic command is merely marked constructed.
    pub fn construct(&mut self, scene: &String, outdir: &String)
        requires
            old(self).wf(),
            !old(self).command.spec_is_constructed(),
        ensures
            final(self).wf(),
            final(self).id == old(self).id,
            final(self).parent_id == old(self).parent_id,
            final(self).status == old(self).status,
            final(self).delivery_tag == old(self).delivery_tag,
            final(self).scene_path == old(self).scene_path,
            final(self).command.spec_is_constructed(),
            final(self).command is Renderer <==> old(self).command is Renderer,
            final(self).command matches TaskCommand::Renderer(rc) ==> {
                &&& rc.frames == old(self).command->Renderer_0.frames
                &&& rc.scene matches Option::Some(s) && s@ == scene@
                &&& rc.outdir matches Option::Some(o) && o@ == outdir@
                &&& forall|i: int|
                    0 <= i < rc.outputs@.len() ==> (#[trigger] rc.outputs@[i]).filesize is None
                        && rc.outputs@[i].hash is None && !rc.outputs@[i].uploaded
            },
    {
        match &mut self.command {
            TaskCommand::Generic { constructed } => {
                *constructed = true;
            },
            TaskCommand::Renderer(rc) => {
                let cmd = build_command_string(scene, outdir, &rc.frames);
                let outs = build_outputs(outdir, &rc.frames);
                rc.scene = Option::Some(scene.clone());
                rc.outdir = Option::Some(outdir.clone());
                rc.command_string = Option::Some(cmd);
                rc.outputs = outs;
            },
        }
    }
}

/// Build the renderer command string for `frames` of the scene at `scene`
/// written under `outdir`.
fn build_command_string(scene: &String, outdir: &String, frames: &Vec<u64>) -> (r: String)
    ensures
        r@ == spec_command_string(scene@, outdir@, frames@),
{
    proof {
        reveal_strlit("blender -b \"");
        reveal_strlit("\" --disable-autoexec -o \"");
        reveal_strlit("/#####\"");
        reveal_strlit(" -f ");
    }
    let mut r = "blender -b \"".to_owned();
    r.append(scene.as_str());
    r.append("\" --disable-autoexec -o \"");
    r.append(outdir.as_str());
    r.append("/#####\"");
    proof {
        assert(r@ =~= "blender -b \""@ + scene@ + "\" --disable-autoexec -o \""@ + outdir@
            + "/#####\""@);
        assert(frames@.subrange(0, 0) =~= Seq::<u64>::empty());
    }
    let ghost base = r@;
    let mut i: usize = 0;
    while i < frames.len()
        invariant
            0 <= i <= frames@.len(),
            r@ == base + spec_frame_args(frames@.subrange(0, i as int)),
        decreases frames@.len() - i,
    {
        r.append(" -f ");
        let digits = u64_to_string(frames[i]);
        r.append(digits.as_str());
        proof {
            let sub = frames@.subrange(0, i + 1);
            assert(sub.drop_last() =~= frames@.subrange(0, i as int));
            assert(r@ =~= base + spec_frame_args(sub));
        }
        i = i + 1;
    }
    proof {
        assert(frames@.subrange(0, frames@.len() as int) =~= frames@);
        assert(r@ =~= spec_command_string(scene@, outdir@, frames@));
    }
    r
}

/// Build one fresh expected output per frame.
fn build_outputs(outdir: &String, frames: &Vec<u64>) -> (r: Vec<FrameOutput>)
    ensures
        r@.len() == frames@.len(),
        forall|i: int|
            0 <= i < r@.len() ==> (#[trigger] r@[i]).frame == frames@[i] && r@[i].path@
                == spec_output_path(outdir@, frames@[i]) && r@[i].filesize is None
                && r@[i].hash is None && !r@[i].uploaded,
{
    proof {
        reveal_strlit("/");
        reveal_strlit(".png");
    }
    let mut r: Vec<FrameOutput> = Vec::new();
    let mut i: usize = 0;
    while i < frames.len()
        invariant
            0 <= i <= frames@.len(),
            r@.len() == i,
            forall|k: int|
                0 <= k < i ==> (#[trigger] r@[k]).frame == frames@[k] && r@[k].path@
                    == spec_output_path(outdir@, frames@[k]) && r@[k].filesize is None
                    && r@[k].hash is None && !r@[k].uploaded,
        decreases frames@.len() - i,
    {
        let frame = frames[i];
        let mut path = outdir.clone();
        path.append("/");
        let padded = u64_to_padded5(frame);
        path.append(padded.as_str());
        path.append(".png");
        proof {
            assert(path@ =~= spec_output_path(outdir@, frame));
        }
        r.push(
            FrameOutput {
                frame,
                path,
                filesize: Option::None,
                hash: Option::None,
                uploaded: false,
            },
        );
        i = i + 1;
    }
    r
}

} // verus!
