use vstd::prelude::*;

use crate::launch::{grid_for, launch_config, BLOCK_SIZE};

verus! {

/// Status code the driver reports for a call that succeeded.
pub const SUCCESS: u32 = 0;

/// Status code the driver uses for an argument it cannot accept; reported
/// when the grid for the element count does not fit the launch dimension.
pub const INVALID_VALUE: u32 = 1;

/// The one device this pipeline targets.
pub const DEVICE_ORDINAL: i32 = 0;

/// Upper bound on the driver calls of one invocation, cleanup included.
pub const MAX_DRIVER_STEPS: usize = 27;

/// The three device buffers of one invocation.
#[derive(Clone, Copy, Debug, PartialEq, Eq, Structural)]
pub enum Buffer {
    InputA,
    InputB,
    Output,
}

/// The forward steps of the pipeline, in the order they are issued.
#[derive(Clone, Copy, Debug, PartialEq, Eq, Structural)]
pub enum Step {
    Initialize,
    GetDevice,
    CreateContext,
    LoadModule,
    GetFunction,
    AllocInputA,
    AllocInputB,
    AllocOutput,
    CopyInputA,
    CopyInputB,
    Launch,
    Synchronize,
    CopyOutput,
}

/// The class of a failure, by the step at which it happened.
#[derive(Clone, Copy, Debug, PartialEq, Eq, Structural)]
pub enum ErrorKind {
    DeviceUnavailable,
    Resolution,
    Allocation,
    Transfer,
    Launch,
    Synchronization,
}

impl Step {
    pub open spec fn index(self) -> nat {
        match self {
            Step::Initialize => 0,
            Step::GetDevice => 1,
            Step::CreateContext => 2,
            Step::LoadModule => 3,
            Step::GetFunction => 4,
            Step::AllocInputA => 5,
            Step::AllocInputB => 6,
            Step::AllocOutput => 7,
            Step::CopyInputA => 8,
            Step::CopyInputB => 9,
            Step::Launch => 10,
            Step::Synchronize => 11,
            Step::CopyOutput => 12,
        }
    }

    pub open spec fn kind_spec(self) -> ErrorKind {
        match self {
            Step::Initialize | Step::GetDevice => ErrorKind::DeviceUnavailable,
            Step::CreateContext | Step::LoadModule | Step::GetFunction => ErrorKind::Resolution,
            Step::AllocInputA | Step::AllocInputB | Step::AllocOutput => ErrorKind::Allocation,
            Step::CopyInputA | Step::CopyInputB | Step::CopyOutput => ErrorKind::Transfer,
            Step::Launch => ErrorKind::Launch,
            Step::Synchronize => ErrorKind::Synchronization,
        }
    }

    pub open spec fn name_spec(self) -> Seq<char> {
        match self {
            Step::Initialize => "cuInit"@,
            Step::GetDevice => "cuDeviceGet"@,
            Step::CreateContext => "cuCtxCreate"@,
            Step::LoadModule => "cuModuleLoadData"@,
            Step::GetFunction => "cuModuleGetFunction"@,
            Step::AllocInputA => "cuMemAlloc d_a"@,
            Step::AllocInputB => "cuMemAlloc d_b"@,
            Step::AllocOutput => "cuMemAlloc d_c"@,
            Step::CopyInputA => "cuMemcpyHtoD a"@,
            Step::CopyInputB => "cuMemcpyHtoD b"@,
            Step::Launch => "cuLaunchKernel"@,
            Step::Synchronize => "cuCtxSynchronize"@,
            Step::CopyOutput => "cuMemcpyDtoH"@,
        }
    }

    /// The name of the driver operation this step performs, as error
    /// messages report it.
    pub fn name(&self) -> (r: &'static str)
        ensures
            r@ == self.name_spec(),
    {
        match self {
            Step::Initialize => "cuInit",
            Step::GetDevice => "cuDeviceGet",
            Step::CreateContext => "cuCtxCreate",
            Step::LoadModule => "cuModuleLoadData",
            Step::GetFunction => "cuModuleGetFunction",
            Step::AllocInputA => "cuMemAlloc d_a",
            Step::AllocInputB => "cuMemAlloc d_b",
            Step::AllocOutput => "cuMemAlloc d_c",
            Step::CopyInputA => "cuMemcpyHtoD a",
            Step::CopyInputB => "cuMemcpyHtoD b",
            Step::Launch => "cuLaunchKernel",
            Step::Synchronize => "cuCtxSynchronize",
            Step::CopyOutput => "cuMemcpyDtoH",
        }
    }

    /// Which class of failure a failure at this step is.
    pub fn kind(&self) -> (r: ErrorKind)
        ensures
            r == self.kind_spec(),
    {
        match self {
            Step::Initialize | Step::GetDevice => ErrorKind::DeviceUnavailable,
            Step::CreateContext | Step::LoadModule | Step::GetFunction => ErrorKind::Resolution,
            Step::AllocInputA | Step::AllocInputB | Step::AllocOutput => ErrorKind::Allocation,
            Step::CopyInputA | Step::CopyInputB | Step::CopyOutput => ErrorKind::Transfer,
            Step::Launch => ErrorKind::Launch,
            Step::Synchronize => ErrorKind::Synchronization,
        }
    }
}

/// A failed driver call: the step that failed and the status it reported.
#[derive(Clone, Copy, Debug, PartialEq, Eq, Structural)]
pub struct PipelineError {
    pub step: Step,
    pub status: u32,
}

impl PipelineError {
    /// The class of this failure.
    pub fn kind(&self) -> (r: ErrorKind)
        ensures
            r == self.step.kind_spec(),
    {
        self.step.kind()
    }
}

/// What the pipeline asks its driver to do next.
#[derive(Clone, Copy, Debug, PartialEq, Eq, Structural)]
pub enum Action {
    Initialize,
    GetDevice { ordinal: i32 },
    CreateContext,
    LoadModule,
    GetFunction,
    Allocate { buffer: Buffer, bytes: usize },
    CopyToDevice { buffer: Buffer, bytes: usize },
    Launch { grid: u32, block: u32, count: usize },
    Synchronize,
    CopyToHost { buffer: Buffer, bytes: usize },
    Free { buffer: Buffer },
    UnloadModule,
    DestroyContext,
    /// The invocation is over: `None` on success, else the first failure.
    Finish { failure: Option<PipelineError> },
}

/// Where an invocation stands: issuing forward steps, releasing what it
/// holds, or finished.
#[derive(Clone, Copy, Debug, PartialEq, Eq, Structural)]
pub enum Stage {
    Forward(Step),
    Cleanup,
    Done,
}

/// The decisions of one offloaded elementwise computation over `count`
/// elements: which driver call comes next, and how its status moves the
/// invocation on. The flags record which device resources are held; the
/// counters record acquisitions and releases over the invocation.
#[derive(Clone, Copy, Debug, PartialEq, Eq, Structural)]
pub struct Pipeline {
    pub count: usize,
    pub bytes: usize,
    pub stage: Stage,
    pub context: bool,
    pub module: bool,
    pub input_a: bool,
    pub input_b: bool,
    pub output: bool,
    pub failure: Option<PipelineError>,
    pub allocations: u32,
    pub frees: u32,
    pub contexts_created: u32,
    pub contexts_destroyed: u32,
}

pub open spec fn flag(b: bool) -> nat {
    if b { 1 } else { 0 }
}

/// `len` successful reports.
pub open spec fn successes(len: nat) -> Seq<u32> {
    Seq::new(len, |i: int| SUCCESS)
}

/// `outcomes` followed by enough successes to carry any invocation to its end.
pub open spec fn padded(outcomes: Seq<u32>) -> Seq<u32> {
    outcomes + successes(MAX_DRIVER_STEPS as nat)
}

impl Pipeline {
    /// An invocation that has not issued anything yet. With no elements
    /// there is no work for the device, and it finishes at once.
    pub open spec fn start(count: usize) -> Pipeline {
        Pipeline {
            count,
            bytes: (count * 4) as usize,
            stage: if count == 0 { Stage::Cleanup } else { Stage::Forward(Step::Initialize) },
            context: false,
            module: false,
            input_a: false,
            input_b: false,
            output: false,
            failure: None,
            allocations: 0,
            frees: 0,
            contexts_created: 0,
            contexts_destroyed: 0,
        }
    }

    pub open spec fn live_buffers(self) -> nat {
        flag(self.input_a) + flag(self.input_b) + flag(self.output)
    }

    pub open spec fn held(self) -> nat {
        self.live_buffers() + flag(self.module) + flag(self.context)
    }

    pub open spec fn holds_nothing(self) -> bool {
        !self.context && !self.module && !self.input_a && !self.input_b && !self.output
    }

    pub open spec fn balanced(self) -> bool {
        self.allocations == self.frees && self.contexts_created == self.contexts_destroyed
    }

    pub open spec fn wf(self) -> bool {
        &&& self.count as nat * 4 <= usize::MAX as nat
        &&& self.bytes as nat == self.count as nat * 4
        &&& self.count == 0 ==> !(self.stage is Forward)
        &&& (self.input_a || self.input_b || self.output || self.module) ==> self.context
        &&& self.allocations as nat == self.frees as nat + self.live_buffers()
        &&& self.allocations <= 3
        &&& self.contexts_created as nat == self.contexts_destroyed as nat + flag(self.context)
        &&& self.contexts_created <= 1
        &&& match self.stage {
            Stage::Forward(step) => {
                &&& self.failure is None
                &&& self.frees == 0
                &&& self.contexts_destroyed == 0
                &&& self.context == (step.index() > 2)
                &&& self.module == (step.index() > 3)
                &&& self.input_a == (step.index() > 5)
                &&& self.input_b == (step.index() > 6)
                &&& self.output == (step.index() > 7)
                &&& step.index() >= 10 ==> grid_for(self.count as nat) <= u32::MAX as nat
            },
            Stage::Cleanup => true,
            Stage::Done => self.holds_nothing(),
        }
    }

    /// Forward steps still to issue, releases still owed, and the final report.
    pub open spec fn measure(self) -> nat {
        let forward_left: nat = match self.stage {
            Stage::Forward(step) => (13 - step.index()) as nat,
            _ => 0,
        };
        2 * forward_left + self.held() + if self.stage is Done { 0nat } else { 1nat }
    }

    /// The driver call this state asks for.
    pub open spec fn action(self) -> Action {
        match self.stage {
            Stage::Forward(step) => match step {
                Step::Initialize => Action::Initialize,
                Step::GetDevice => Action::GetDevice { ordinal: DEVICE_ORDINAL },
                Step::CreateContext => Action::CreateContext,
                Step::LoadModule => Action::LoadModule,
                Step::GetFunction => Action::GetFunction,
                Step::AllocInputA => Action::Allocate { buffer: Buffer::InputA, bytes: self.bytes },
                Step::AllocInputB => Action::Allocate { buffer: Buffer::InputB, bytes: self.bytes },
                Step::AllocOutput => Action::Allocate { buffer: Buffer::Output, bytes: self.bytes },
                Step::CopyInputA => Action::CopyToDevice { buffer: Buffer::InputA, bytes: self.bytes },
                Step::CopyInputB => Action::CopyToDevice { buffer: Buffer::InputB, bytes: self.bytes },
                Step::Launch => Action::Launch {
                    grid: grid_for(self.count as nat) as u32,
                    block: BLOCK_SIZE,
                    count: self.count,
                },
                Step::Synchronize => Action::Synchronize,
                Step::CopyOutput => Action::CopyToHost { buffer: Buffer::Output, bytes: self.bytes },
            },
            Stage::Cleanup => if self.input_a {
                Action::Free { buffer: Buffer::InputA }
            } else if self.input_b {
                Action::Free { buffer: Buffer::InputB }
            } else if self.output {
                Action::Free { buffer: Buffer::Output }
            } else if self.module {
                Action::UnloadModule
            } else if self.context {
                Action::DestroyContext
            } else {
                Action::Finish { failure: self.failure }
            },
            Stage::Done => Action::Finish { failure: self.failure },
        }
    }

    pub open spec fn failed(self, step: Step, status: u32) -> Pipeline {
        Pipeline {
            stage: Stage::Cleanup,
            failure: Some(PipelineError { step, status }),
            ..self
        }
    }

    pub open spec fn succeeded(self, step: Step) -> Pipeline {
        match step {
            Step::Initialize => Pipeline { stage: Stage::Forward(Step::GetDevice), ..self },
            Step::GetDevice => Pipeline { stage: Stage::Forward(Step::CreateContext), ..self },
            Step::CreateContext => Pipeline {
                stage: Stage::Forward(Step::LoadModule),
                context: true,
                contexts_created: (self.contexts_created + 1) as u32,
                ..self
            },
            Step::LoadModule => Pipeline {
                stage: Stage::Forward(Step::GetFunction),
                module: true,
                ..self
            },
            Step::GetFunction => Pipeline { stage: Stage::Forward(Step::AllocInputA), ..self },
            Step::AllocInputA => Pipeline {
                stage: Stage::Forward(Step::AllocInputB),
                input_a: true,
                allocations: (self.allocations + 1) as u32,
                ..self
            },
            Step::AllocInputB => Pipeline {
                stage: Stage::Forward(Step::AllocOutput),
                input_b: true,
                allocations: (self.allocations + 1) as u32,
                ..self
            },
            Step::AllocOutput => Pipeline {
                stage: Stage::Forward(Step::CopyInputA),
                output: true,
                allocations: (self.allocations + 1) as u32,
                ..self
            },
            Step::CopyInputA => Pipeline { stage: Stage::Forward(Step::CopyInputB), ..self },
            Step::CopyInputB => if grid_for(self.count as nat) <= u32::MAX as nat {
                Pipeline { stage: Stage::Forward(Step::Launch), ..self }
            } else {
                self.failed(Step::Launch, INVALID_VALUE)
            },
            Step::Launch => Pipeline { stage: Stage::Forward(Step::Synchronize), ..self },
            Step::Synchronize => Pipeline { stage: Stage::Forward(Step::CopyOutput), ..self },
            Step::CopyOutput => Pipeline { stage: Stage::Cleanup, ..self },
        }
    }

    pub open spec fn released(self) -> Pipeline {
        if self.input_a {
            Pipeline { input_a: false, frees: (self.frees + 1) as u32, ..self }
        } else if self.input_b {
            Pipeline { input_b: false, frees: (self.frees + 1) as u32, ..self }
        } else if self.output {
            Pipeline { output: false, frees: (self.frees + 1) as u32, ..self }
        } else if self.module {
            Pipeline { module: false, ..self }
        } else if self.context {
            Pipeline {
                context: false,
                contexts_destroyed: (self.contexts_destroyed + 1) as u32,
                ..self
            }
        } else {
            Pipeline { stage: Stage::Done, ..self }
        }
    }

    /// The state after the driver reported `status` for `self.action()`.
    /// A forward step that does not succeed starts the cleanup; the status
    /// of a release is not looked at.
    pub open spec fn after(self, status: u32) -> Pipeline {
        match self.stage {
            Stage::Forward(step) => if status == SUCCESS {
                self.succeeded(step)
            } else {
                self.failed(step, status)
            },
            Stage::Cleanup => self.released(),
            Stage::Done => self,
        }
    }

    /// The state after the driver reported each of `statuses` in turn.
    pub open spec fn run(self, statuses: Seq<u32>) -> Pipeline
        decreases statuses.len(),
    {
        if statuses.len() == 0 {
            self
        } else {
            self.after(statuses[0]).run(statuses.drop_first())
        }
    }

    /// The calls asked for while the driver reports `statuses`, one per
    /// report, up to and including the final report if it is reached.
    pub open spec fn trace(self, statuses: Seq<u32>) -> Seq<Action>
        decreases statuses.len(),
    {
        if statuses.len() == 0 || self.stage is Done {
            seq![]
        } else {
            seq![self.action()] + self.after(statuses[0]).trace(statuses.drop_first())
        }
    }
}


/// Each driver report keeps the invariant, and moves an unfinished
/// invocation strictly closer to its end; a finished one stays as it is.
pub proof fn lemma_after(p: Pipeline, status: u32)
    requires
        p.wf(),
    ensures
        p.after(status).wf(),
        p.stage is Done ==> p.after(status) == p,
        !(p.stage is Done) ==> p.after(status).measure() < p.measure(),
{
}

/// A finished invocation ignores any further reports.
pub proof fn lemma_done_stays(p: Pipeline, statuses: Seq<u32>)
    requires
        p.stage is Done,
    ensures
        p.run(statuses) == p,
    decreases statuses.len(),
{
    if statuses.len() > 0 {
        lemma_done_stays(p.after(statuses[0]), statuses.drop_first());
    }
}

/// Given at least as many reports as its measure, an invocation finishes,
/// whatever the reports say, with the invariant intact.
pub proof fn lemma_run_finishes(p: Pipeline, statuses: Seq<u32>)
    requires
        p.wf(),
        statuses.len() >= p.measure(),
    ensures
        p.run(statuses).wf(),
        p.run(statuses).stage is Done,
    decreases statuses.len(),
{
    if p.stage is Done {
        lemma_done_stays(p, statuses);
    } else {
        lemma_after(p, statuses[0]);
        lemma_run_finishes(p.after(statuses[0]), statuses.drop_first());
    }
}


impl Pipeline {
    /// A fresh invocation over `count` elements of four bytes each.
    pub fn new(count: usize) -> (r: Pipeline)
        requires
            count as nat * 4 <= usize::MAX as nat,
        ensures
            r == Pipeline::start(count),
            r.wf(),
    {
        Pipeline {
            count,
            bytes: count * 4,
            stage: if count == 0 { Stage::Cleanup } else { Stage::Forward(Step::Initialize) },
            context: false,
            module: false,
            input_a: false,
            input_b: false,
            output: false,
            failure: None,
            allocations: 0,
            frees: 0,
            contexts_created: 0,
            contexts_destroyed: 0,
        }
    }

    /// Whether the final report has been handed out and acknowledged.
    pub fn is_done(&self) -> (r: bool)
        ensures
            r == (self.stage is Done),
    {
        match self.stage {
            Stage::Done => true,
            _ => false,
        }
    }

    /// The driver call to make next.
    pub fn next_action(&self) -> (r: Action)
        requires
            self.wf(),
        ensures
            r == self.action(),
    {
        match self.stage {
            Stage::Forward(step) => match step {
                Step::Initialize => Action::Initialize,
                Step::GetDevice => Action::GetDevice { ordinal: DEVICE_ORDINAL },
                Step::CreateContext => Action::CreateContext,
                Step::LoadModule => Action::LoadModule,
                Step::GetFunction => Action::GetFunction,
                Step::AllocInputA => Action::Allocate { buffer: Buffer::InputA, bytes: self.bytes },
                Step::AllocInputB => Action::Allocate { buffer: Buffer::InputB, bytes: self.bytes },
                Step::AllocOutput => Action::Allocate { buffer: Buffer::Output, bytes: self.bytes },
                Step::CopyInputA => Action::CopyToDevice { buffer: Buffer::InputA, bytes: self.bytes },
                Step::CopyInputB => Action::CopyToDevice { buffer: Buffer::InputB, bytes: self.bytes },
                Step::Launch => match launch_config(self.count) {
                    Some(c) => Action::Launch { grid: c.grid, block: c.block, count: self.count },
                    None => {
                        assert(false);
                        Action::Synchronize
                    },
                },
                Step::Synchronize => Action::Synchronize,
                Step::CopyOutput => Action::CopyToHost { buffer: Buffer::Output, bytes: self.bytes },
            },
            Stage::Cleanup => if self.input_a {
                Action::Free { buffer: Buffer::InputA }
            } else if self.input_b {
                Action::Free { buffer: Buffer::InputB }
            } else if self.output {
                Action::Free { buffer: Buffer::Output }
            } else if self.module {
                Action::UnloadModule
            } else if self.context {
                Action::DestroyContext
            } else {
                Action::Finish { failure: self.failure }
            },
            Stage::Done => Action::Finish { failure: self.failure },
        }
    }

    fn fail(&mut self, step: Step, status: u32)
        ensures
            *final(self) == old(self).failed(step, status),
    {
        self.stage = Stage::Cleanup;
        self.failure = Some(PipelineError { step, status });
    }

    fn succeed(&mut self, step: Step)
        requires
            old(self).wf(),
            old(self).stage == Stage::Forward(step),
        ensures
            *final(self) == old(self).succeeded(step),
    {
        match step {
            Step::Initialize => self.stage = Stage::Forward(Step::GetDevice),
            Step::GetDevice => self.stage = Stage::Forward(Step::CreateContext),
            Step::CreateContext => {
                self.stage = Stage::Forward(Step::LoadModule);
                self.context = true;
                self.contexts_created = self.contexts_created + 1;
            },
            Step::LoadModule => {
                self.stage = Stage::Forward(Step::GetFunction);
                self.module = true;
            },
            Step::GetFunction => self.stage = Stage::Forward(Step::AllocInputA),
            Step::AllocInputA => {
                self.stage = Stage::Forward(Step::AllocInputB);
                self.input_a = true;
                self.allocations = self.allocations + 1;
            },
            Step::AllocInputB => {
                self.stage = Stage::Forward(Step::AllocOutput);
                self.input_b = true;
                self.allocations = self.allocations + 1;
            },
            Step::AllocOutput => {
                self.stage = Stage::Forward(Step::CopyInputA);
                self.output = true;
                self.allocations = self.allocations + 1;
            },
            Step::CopyInputA => self.stage = Stage::Forward(Step::CopyInputB),
            Step::CopyInputB => match launch_config(self.count) {
                Some(_) => self.stage = Stage::Forward(Step::Launch),
                None => self.fail(Step::Launch, INVALID_VALUE),
            },
            Step::Launch => self.stage = Stage::Forward(Step::Synchronize),
            Step::Synchronize => self.stage = Stage::Forward(Step::CopyOutput),
            Step::CopyOutput => self.stage = Stage::Cleanup,
        }
    }

    fn release(&mut self)
        requires
            old(self).wf(),
            old(self).stage == Stage::Cleanup,
        ensures
            *final(self) == old(self).released(),
    {
        if self.input_a {
            self.input_a = false;
            self.frees = self.frees + 1;
        } else if self.input_b {
            self.input_b = false;
            self.frees = self.frees + 1;
        } else if self.output {
            self.output = false;
            self.frees = self.frees + 1;
        } else if self.module {
            self.module = false;
        } else if self.context {
            self.context = false;
            self.contexts_destroyed = self.contexts_destroyed + 1;
        } else {
            self.stage = Stage::Done;
        }
    }

    /// Takes the status the driver reported for `next_action()`. A failed
    /// forward step is recorded and starts the release of everything held.
    pub fn advance(&mut self, status: u32)
        requires
            old(self).wf(),
        ensures
            *final(self) == old(self).after(status),
            final(self).wf(),
    {
        proof {
            lemma_after(*self, status);
        }
        match self.stage {
            Stage::Forward(step) => {
                if status == SUCCESS {
                    self.succeed(step);
                } else {
                    self.fail(step, status);
                }
            },
            Stage::Cleanup => self.release(),
            Stage::Done => {},
        }
    }
}




/// Resource balance: whatever the driver reports, an invocation ends holding
/// no context, module or buffer, having freed every buffer it allocated and
/// destroyed every context it created.
pub proof fn lemma_resource_balance(count: usize, statuses: Seq<u32>)
    requires
        count as nat * 4 <= usize::MAX as nat,
        statuses.len() >= MAX_DRIVER_STEPS,
    ensures
        Pipeline::start(count).run(statuses).stage is Done,
        Pipeline::start(count).run(statuses).holds_nothing(),
        Pipeline::start(count).run(statuses).balanced(),
{
    lemma_run_finishes(Pipeline::start(count), statuses);
}

pub open spec fn total_allocations(runs: Seq<Pipeline>) -> nat
    decreases runs.len(),
{
    if runs.len() == 0 {
        0
    } else {
        total_allocations(runs.drop_last()) + runs.last().allocations as nat
    }
}

pub open spec fn total_frees(runs: Seq<Pipeline>) -> nat
    decreases runs.len(),
{
    if runs.len() == 0 {
        0
    } else {
        total_frees(runs.drop_last()) + runs.last().frees as nat
    }
}

pub open spec fn total_contexts_created(runs: Seq<Pipeline>) -> nat
    decreases runs.len(),
{
    if runs.len() == 0 {
        0
    } else {
        total_contexts_created(runs.drop_last()) + runs.last().contexts_created as nat
    }
}

pub open spec fn total_contexts_destroyed(runs: Seq<Pipeline>) -> nat
    decreases runs.len(),
{
    if runs.len() == 0 {
        0
    } else {
        total_contexts_destroyed(runs.drop_last()) + runs.last().contexts_destroyed as nat
    }
}

/// The end states of the invocations `counts[i]` run against the reports
/// `scripts[i]`, one after another.
pub open spec fn invocations(counts: Seq<usize>, scripts: Seq<Seq<u32>>) -> Seq<Pipeline> {
    Seq::new(counts.len(), |i: int| Pipeline::start(counts[i]).run(scripts[i]))
}

proof fn lemma_totals_balanced(runs: Seq<Pipeline>)
    requires
        forall|i: int| 0 <= i < runs.len() ==> (#[trigger] runs[i]).balanced(),
    ensures
        total_allocations(runs) == total_frees(runs),
        total_contexts_created(runs) == total_contexts_destroyed(runs),
    decreases runs.len(),
{
    if runs.len() > 0 {
        let prefix = runs.drop_last();
        assert forall|i: int| 0 <= i < prefix.len() implies (#[trigger] prefix[i]).balanced() by {
            assert(prefix[i] == runs[i]);
        }
        lemma_totals_balanced(prefix);
        assert(runs.last() == runs[runs.len() - 1]);
    }
}

/// Resource balance over a process: for any series of invocations, each
/// driven to its end whatever its driver reported, allocations and frees of
/// device buffers are equal in number, and so are context creations and
/// destructions.
pub proof fn lemma_process_balance(counts: Seq<usize>, scripts: Seq<Seq<u32>>)
    requires
        counts.len() == scripts.len(),
        forall|i: int| 0 <= i < counts.len() ==> #[trigger] counts[i] as nat * 4 <= usize::MAX as nat,
        forall|i: int| 0 <= i < scripts.len() ==> #[trigger] scripts[i].len() >= MAX_DRIVER_STEPS,
    ensures
        total_allocations(invocations(counts, scripts)) == total_frees(invocations(counts, scripts)),
        total_contexts_created(invocations(counts, scripts)) == total_contexts_destroyed(
            invocations(counts, scripts),
        ),
{
    let runs = invocations(counts, scripts);
    assert forall|i: int| 0 <= i < runs.len() implies (#[trigger] runs[i]).balanced() by {
        assert(counts[i] as nat * 4 <= usize::MAX as nat);
        assert(scripts[i].len() >= MAX_DRIVER_STEPS);
        lemma_resource_balance(counts[i], scripts[i]);
    }
    lemma_totals_balanced(runs);
}

/// Lifetimes: a buffer is only written, read or freed while it is allocated,
/// and the kernel only dispatched while the module and all buffers are held;
/// the module is unloaded only once no buffer remains, the context destroyed
/// only once nothing it backs remains, and the final report comes with
/// nothing held.
pub proof fn lemma_lifetimes(p: Pipeline)
    requires
        p.wf(),
    ensures
        p.action() is Allocate ==> p.context,
        p.action() is CopyToDevice ==> p.module && p.input_a && p.input_b && p.output,
        p.action() is Launch ==> p.module && p.input_a && p.input_b && p.output,
        p.action() is Synchronize ==> p.module && p.input_a && p.input_b && p.output,
        p.action() is CopyToHost ==> p.context && p.output,
        p.action() == (Action::Free { buffer: Buffer::InputA }) ==> p.input_a && p.context,
        p.action() == (Action::Free { buffer: Buffer::InputB }) ==> p.input_b && p.context,
        p.action() == (Action::Free { buffer: Buffer::Output }) ==> p.output && p.context,
        p.action() is UnloadModule ==> p.module && p.live_buffers() == 0,
        p.action() is DestroyContext ==> p.context && !p.module && p.live_buffers() == 0,
        p.action() is Finish ==> p.holds_nothing(),
{
}

/// Sizes follow the input: every buffer allocation and transfer covers
/// exactly four bytes per element, and the dispatch is told the element count.
pub proof fn lemma_sizes_follow_count(p: Pipeline)
    requires
        p.wf(),
    ensures
        p.action() matches Action::Allocate { bytes, .. } ==> bytes as nat == 4 * p.count as nat,
        p.action() matches Action::CopyToDevice { bytes, .. } ==> bytes as nat == 4 * p.count as nat,
        p.action() matches Action::CopyToHost { bytes, .. } ==> bytes as nat == 4 * p.count as nat,
        p.action() matches Action::Launch { grid, block, count } ==> count == p.count
            && grid as nat == grid_for(p.count as nat) && block == BLOCK_SIZE,
{
}

/// An empty input asks nothing of the device: the first call asked for is
/// the final report, without failure.
pub proof fn lemma_empty_input(statuses: Seq<u32>)
    requires
        statuses.len() >= 1,
    ensures
        Pipeline::start(0).trace(statuses) == seq![Action::Finish { failure: None }],
{
    let p = Pipeline::start(0);
    let q = p.after(statuses[0]);
    assert(q.stage is Done);
    assert(q.trace(statuses.drop_first()) == Seq::<Action>::empty());
    assert(p.trace(statuses) == seq![p.action()] + q.trace(statuses.drop_first()));
    assert(seq![p.action()] + Seq::<Action>::empty() =~= seq![Action::Finish { failure: None }]);
}


/// Success is owed: when the grid for the element count fits the launch
/// dimension and the driver reports success for every call, the invocation
/// finishes without failure.
pub proof fn lemma_all_succeed(p: Pipeline, statuses: Seq<u32>)
    requires
        p.wf(),
        p.failure is None,
        grid_for(p.count as nat) <= u32::MAX as nat,
        forall|i: int| 0 <= i < statuses.len() ==> #[trigger] statuses[i] == SUCCESS,
    ensures
        p.run(statuses).failure is None,
    decreases statuses.len(),
{
    if statuses.len() > 0 {
        lemma_after(p, statuses[0]);
        let rest = statuses.drop_first();
        assert forall|i: int| 0 <= i < rest.len() implies #[trigger] rest[i] == SUCCESS by {
            assert(rest[i] == statuses[i + 1]);
        }
        lemma_all_succeed(p.after(statuses[0]), rest);
    }
}



proof fn lemma_success_step(p: Pipeline, len: nat)
    requires
        len >= 1,
        !(p.stage is Done),
    ensures
        p.trace(successes(len)) == seq![p.action()] + p.after(SUCCESS).trace(successes((len - 1) as nat)),
{
    assert(successes(len).drop_first() =~= successes((len - 1) as nat));
}

/// The calls of an invocation over `count` elements when every call succeeds.
pub open spec fn success_calls(count: usize) -> Seq<Action> {
    let bytes = (count * 4) as usize;
    seq![
        Action::Initialize,
        Action::GetDevice { ordinal: DEVICE_ORDINAL },
        Action::CreateContext,
        Action::LoadModule,
        Action::GetFunction,
        Action::Allocate { buffer: Buffer::InputA, bytes },
        Action::Allocate { buffer: Buffer::InputB, bytes },
        Action::Allocate { buffer: Buffer::Output, bytes },
        Action::CopyToDevice { buffer: Buffer::InputA, bytes },
        Action::CopyToDevice { buffer: Buffer::InputB, bytes },
        Action::Launch { grid: grid_for(count as nat) as u32, block: BLOCK_SIZE, count },
        Action::Synchronize,
        Action::CopyToHost { buffer: Buffer::Output, bytes },
        Action::Free { buffer: Buffer::InputA },
        Action::Free { buffer: Buffer::InputB },
        Action::Free { buffer: Buffer::Output },
        Action::UnloadModule,
        Action::DestroyContext,
        Action::Finish { failure: None },
    ]
}

/// Order of work: when every driver call succeeds, an invocation over a
/// non-empty input acquires device, context, module and kernel, allocates
/// and fills the buffers, dispatches, waits, reads the result back, then
/// frees the three buffers, unloads the module and destroys the context, in
/// that order, and reports success.
pub proof fn lemma_success_order(count: usize)
    requires
        count >= 1,
        count as nat * 4 <= usize::MAX as nat,
        grid_for(count as nat) <= u32::MAX as nat,
    ensures
        Pipeline::start(count).trace(successes(MAX_DRIVER_STEPS as nat)) == success_calls(count),
{
    let p0 = Pipeline::start(count);
    let p1 = p0.after(SUCCESS);
    let p2 = p1.after(SUCCESS);
    let p3 = p2.after(SUCCESS);
    let p4 = p3.after(SUCCESS);
    let p5 = p4.after(SUCCESS);
    let p6 = p5.after(SUCCESS);
    let p7 = p6.after(SUCCESS);
    let p8 = p7.after(SUCCESS);
    let p9 = p8.after(SUCCESS);
    let p10 = p9.after(SUCCESS);
    let p11 = p10.after(SUCCESS);
    let p12 = p11.after(SUCCESS);
    let p13 = p12.after(SUCCESS);
    let p14 = p13.after(SUCCESS);
    let p15 = p14.after(SUCCESS);
    let p16 = p15.after(SUCCESS);
    let p17 = p16.after(SUCCESS);
    let p18 = p17.after(SUCCESS);
    let p19 = p18.after(SUCCESS);
    lemma_success_step(p0, (MAX_DRIVER_STEPS - 0) as nat);
    lemma_success_step(p1, (MAX_DRIVER_STEPS - 1) as nat);
    lemma_success_step(p2, (MAX_DRIVER_STEPS - 2) as nat);
    lemma_success_step(p3, (MAX_DRIVER_STEPS - 3) as nat);
    lemma_success_step(p4, (MAX_DRIVER_STEPS - 4) as nat);
    lemma_success_step(p5, (MAX_DRIVER_STEPS - 5) as nat);
    lemma_success_step(p6, (MAX_DRIVER_STEPS - 6) as nat);
    lemma_success_step(p7, (MAX_DRIVER_STEPS - 7) as nat);
    lemma_success_step(p8, (MAX_DRIVER_STEPS - 8) as nat);
    lemma_success_step(p9, (MAX_DRIVER_STEPS - 9) as nat);
    lemma_success_step(p10, (MAX_DRIVER_STEPS - 10) as nat);
    lemma_success_step(p11, (MAX_DRIVER_STEPS - 11) as nat);
    lemma_success_step(p12, (MAX_DRIVER_STEPS - 12) as nat);
    lemma_success_step(p13, (MAX_DRIVER_STEPS - 13) as nat);
    lemma_success_step(p14, (MAX_DRIVER_STEPS - 14) as nat);
    lemma_success_step(p15, (MAX_DRIVER_STEPS - 15) as nat);
    lemma_success_step(p16, (MAX_DRIVER_STEPS - 16) as nat);
    lemma_success_step(p17, (MAX_DRIVER_STEPS - 17) as nat);
    lemma_success_step(p18, (MAX_DRIVER_STEPS - 18) as nat);
    assert(p19.stage is Done);
    assert(p19.trace(successes((MAX_DRIVER_STEPS - 19) as nat)) == Seq::<Action>::empty());
    assert(seq![p0.action()] + seq![p1.action()] + seq![p2.action()] + seq![p3.action()] + seq![p4.action()] + seq![p5.action()] + seq![p6.action()] + seq![p7.action()] + seq![p8.action()] + seq![p9.action()] + seq![p10.action()] + seq![p11.action()] + seq![p12.action()] + seq![p13.action()] + seq![p14.action()] + seq![p15.action()] + seq![p16.action()] + seq![p17.action()] + seq![p18.action()] =~= success_calls(count));
}

/// One report of a replay: the call asked for is appended, and the rest of
/// the run goes on from the state after `script[i]`.
proof fn lemma_replay_step(
    first: Pipeline,
    p: Pipeline,
    script: Seq<u32>,
    i: int,
    calls: Seq<Action>,
    status: u32,
)
    requires
        0 <= i < script.len(),
        script[i] == status,
        !(p.stage is Done),
        first.run(script) == p.run(script.subrange(i, script.len() as int)),
        first.trace(script) == calls + p.trace(script.subrange(i, script.len() as int)),
    ensures
        first.run(script) == p.after(status).run(script.subrange(i + 1, script.len() as int)),
        first.trace(script) == calls.push(p.action()) + p.after(status).trace(
            script.subrange(i + 1, script.len() as int),
        ),
{
    let rest = script.subrange(i, script.len() as int);
    let next = script.subrange(i + 1, script.len() as int);
    assert(rest.drop_first() =~= next);
    assert(rest[0] == status);
    assert(p.trace(rest) == seq![p.action()] + p.after(status).trace(next));
    assert(calls + (seq![p.action()] + p.after(status).trace(next)) =~= calls.push(p.action())
        + p.after(status).trace(next));
}

/// Drives one invocation over `count` elements to its end against scripted
/// driver statuses: the `i`-th driver call gets `outcomes[i]`, and every call
/// past the script succeeds. Returns the final state and the calls asked for,
/// which end with the final report.
#[verifier::rlimit(40)]
pub fn simulate(count: usize, outcomes: &Vec<u32>) -> (r: (Pipeline, Vec<Action>))
    requires
        count as nat * 4 <= usize::MAX as nat,
    ensures
        r.0 == Pipeline::start(count).run(padded(outcomes@)),
        r.0.wf(),
        r.0.stage is Done,
        r.1@ == Pipeline::start(count).trace(padded(outcomes@)),
{
    let ghost script = padded(outcomes@);
    let ghost first = Pipeline::start(count);
    let mut p = Pipeline::new(count);
    let mut calls: Vec<Action> = Vec::new();
    let mut i: usize = 0;
    proof {
        assert(script.subrange(0, script.len() as int) =~= script);
    }
    while !p.is_done()
        invariant
            p.wf(),
            i + p.measure() <= first.measure(),
            first.measure() <= MAX_DRIVER_STEPS,
            script == padded(outcomes@),
            script.len() == outcomes@.len() + MAX_DRIVER_STEPS,
            first.run(script) == p.run(script.subrange(i as int, script.len() as int)),
            first.trace(script) == calls@ + p.trace(script.subrange(i as int, script.len() as int)),
        decreases p.measure(),
    {
        let status: u32 = if i < outcomes.len() { outcomes[i] } else { SUCCESS };
        proof {
            lemma_after(p, status);
            lemma_replay_step(first, p, script, i as int, calls@, status);
        }
        calls.push(p.next_action());
        p.advance(status);
        i = i + 1;
    }
    proof {
        lemma_done_stays(p, script.subrange(i as int, script.len() as int));
        assert(calls@ =~= first.trace(script));
    }
    (p, calls)
}

} // verus!
