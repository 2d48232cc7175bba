//! The worker: registry, pipeline table, steps and the per-tick state
//! machine that decides when a cycle is recorded and read back.
use vstd::prelude::*;

use crate::command::{commands_model, Command, CommandModel};
use crate::error::Error;
use crate::pipeline_cache::{cache_lookup, AppPipelineCache};
use crate::staging::{
    check_paired, copy_commands, copy_staging, lemma_remapped_keeps_pairing, distinct_staging, map_all_staging, map_commands,
    keeps_pairing, paired, registered_staging, staging_apart, unmap_all_staging, unmap_commands, with_mapped,
    StagingBuffer,
};
use crate::steps::{
    allocation_of, allocations_below, distinct_allocations, entry, lemma_sequence_keeps_names, pass_of, put,
    put_entry,
    record_steps, registered, sequence_steps, BufferSlot, BufferUsage, ComputePass, PipelineSlot,
    Step,
};

verus! {

/// When the worker starts a new cycle.
#[derive(Debug, Clone, Copy, PartialEq, Eq, Structural)]
pub enum RunMode {
    /// A new cycle on every tick once the previous one has completed.
    Continuous,
    /// A cycle only when requested; the flag records a pending request.
    OneShot(bool),
    /// Cycles are driven to completion by the caller, see `execute_now`.
    Immediate,
}

/// Where the worker stands in its cycle.
#[derive(Debug, Clone, Copy, PartialEq, Eq, Structural)]
pub enum WorkerState {
    Created,
    Available,
    Working,
    FinishedWorking,
}

/// The abstract state of a worker.
pub struct WorkerView {
    pub state: WorkerState,
    pub run_mode: RunMode,
    pub wait_mode: bool,
    pub has_encoder: bool,
    pub next_allocation: u64,
    pub buffers: Seq<Option<BufferSlot>>,
    pub staging: Seq<Option<StagingBuffer>>,
    pub pipelines: Seq<Option<PipelineSlot>>,
    pub steps: Seq<Step>,
}

impl WorkerView {
    /// Every staging buffer is paired with a read/write buffer of its size,
    /// allocation handles are distinct and below the next one to be handed
    /// out, and a command encoder is ready.
    pub open spec fn wf(self) -> bool {
        &&& self.has_encoder
        &&& paired(self.buffers, self.staging)
        &&& forall|n: int|
            0 <= n < self.buffers.len() && #[trigger] self.buffers[n] is Some
                ==> self.buffers[n]->Some_0.allocation < self.next_allocation
        &&& forall|n: int|
            0 <= n < self.staging.len() && #[trigger] self.staging[n] is Some
                ==> self.staging[n]->Some_0.buffer < self.next_allocation
        &&& self.buffers.len() <= usize::MAX
        &&& self.staging.len() <= usize::MAX
        &&& distinct_allocations(self.buffers)
        &&& distinct_staging(self.staging)
        &&& staging_apart(self.buffers, self.staging)
    }

    /// A cycle may begin: no work is in flight and no one-shot request is missing.
    pub open spec fn ready_to_execute(self) -> bool {
        self.state != WorkerState::Working && self.run_mode != RunMode::OneShot(false)
    }

    /// What one cycle records, and the state after its submission.
    pub open spec fn cycle(self) -> Result<(Seq<CommandModel>, WorkerView), Error> {
        match sequence_steps(self.buffers, self.pipelines, self.steps) {
            Err(e) => Err(e),
            Ok((step_cmds, b)) => if !paired(b, self.staging) {
                Err(Error::StagingMismatch)
            } else {
                Ok(
                (
                    unmap_commands(self.staging) + step_cmds + copy_commands(b, self.staging)
                        + seq![CommandModel::Submit] + map_commands(self.staging)
                        + seq![CommandModel::NewEncoder],
                    WorkerView {
                        state: WorkerState::Working,
                        has_encoder: true,
                        buffers: b,
                        staging: with_mapped(self.staging, true),
                        ..self
                    },
                ),
            )
            },
        }
    }

    /// The start-of-tick demotion: finished results stay readable for one tick only.
    pub open spec fn demoted(self) -> WorkerView {
        if self.state == WorkerState::FinishedWorking {
            WorkerView { state: WorkerState::Available, ..self }
        } else {
            self
        }
    }

    /// What a scheduled run records, and the state after it.
    pub open spec fn run(self) -> Result<(Seq<CommandModel>, WorkerView), Error> {
        let d = self.demoted();
        if d.ready_to_execute() {
            d.cycle()
        } else {
            Ok((seq![], d))
        }
    }

    /// Whether the device is polled after a scheduled run.
    pub open spec fn polls(self) -> bool {
        self.run_mode != RunMode::OneShot(false)
    }

    /// The state after the poll that follows a scheduled run.
    pub open spec fn finish_run(self, queue_empty: bool) -> WorkerView {
        if self.polls() && queue_empty {
            WorkerView {
                state: WorkerState::FinishedWorking,
                run_mode: match self.run_mode {
                    RunMode::OneShot(_) => RunMode::OneShot(false),
                    m => m,
                },
                ..self
            }
        } else {
            self
        }
    }

    /// The state after a request for one cycle.
    pub open spec fn execute(self) -> WorkerView {
        match self.run_mode {
            RunMode::OneShot(_) => WorkerView { run_mode: RunMode::OneShot(true), ..self },
            _ => self,
        }
    }

    /// Whether the per-tick unmap step releases the staging buffers.
    pub open spec fn unmaps(self) -> bool {
        self.ready_to_execute() || self.run_mode == RunMode::Immediate
    }

    /// The state after a buffer of `usage` and `size` is registered under
    /// `name`: it takes the next allocation handle, and the name's staging
    /// buffer is dropped unless the new buffer can still back it.
    pub open spec fn with_buffer(self, name: usize, usage: BufferUsage, size: u64) -> WorkerView {
        WorkerView {
            buffers: put(
                self.buffers,
                name,
                BufferSlot { allocation: self.next_allocation, usage, size },
            ),
            staging: if keeps_pairing(self.staging, name, usage, size) {
                self.staging
            } else {
                self.staging.update(name as int, None)
            },
            next_allocation: (self.next_allocation + 1) as u64,
            ..self
        }
    }

    /// The allocation registered under `name`, which a new registration replaces.
    pub open spec fn replaced_buffer(self, name: usize) -> Option<u64> {
        match entry(self.buffers, name) {
            Some(slot) => Some(slot.allocation),
            None => None,
        }
    }

    /// The staging buffer that registering `usage` and `size` under `name` drops.
    pub open spec fn dropped_staging(self, name: usize, usage: BufferUsage, size: u64) -> Option<
        u64,
    > {
        if keeps_pairing(self.staging, name, usage, size) {
            None
        } else {
            Some(self.staging[name as int]->Some_0.buffer)
        }
    }

    /// The state after the pipelines were refreshed from a cache.
    pub open spec fn refreshed(self, cache: Seq<Option<u64>>) -> WorkerView {
        WorkerView { pipelines: refreshed_pipelines(self.pipelines, cache), ..self }
    }
}

/// An outcome that is a success, or the one error that only postpones the cycle.
pub open spec fn not_fatal<T>(r: Result<T, Error>) -> bool {
    r is Ok || r == Err::<T, Error>(Error::PipelineNotReady)
}

/// Pipelines still pending take what the cache now holds for their ticket;
/// resolved pipelines are kept.
pub open spec fn refreshed_pipelines(
    pipelines: Seq<Option<PipelineSlot>>,
    cache: Seq<Option<u64>>,
) -> Seq<Option<PipelineSlot>> {
    pipelines.map_values(
        |o: Option<PipelineSlot>|
            match o {
                Some(slot) => if slot.pipeline is None {
                    Some(
                        PipelineSlot {
                            cached_id: slot.cached_id,
                            pipeline: cache_lookup(cache, slot.cached_id),
                        },
                    )
                } else {
                    o
                },
                None => None,
            },
    )
}

/// A worker: the buffer registry, the pipeline table, the steps and the
/// state machine that runs them.
pub struct AppComputeWorker {
    state: WorkerState,
    pipelines: Vec<Option<PipelineSlot>>,
    buffers: Vec<Option<BufferSlot>>,
    staging_buffers: Vec<Option<StagingBuffer>>,
    steps: Vec<Step>,
    has_encoder: bool,
    run_mode: RunMode,
    wait_mode: bool,
    next_allocation: u64,
}

impl View for AppComputeWorker {
    type V = WorkerView;

    closed spec fn view(&self) -> WorkerView {
        WorkerView {
            state: self.state,
            run_mode: self.run_mode,
            wait_mode: self.wait_mode,
            has_encoder: self.has_encoder,
            next_allocation: self.next_allocation,
            buffers: self.buffers@,
            staging: self.staging_buffers@,
            pipelines: self.pipelines@,
            steps: self.steps@,
        }
    }
}

fn append_commands(cmds: &mut Vec<Command>, more: Vec<Command>)
    ensures
        commands_model(final(cmds)@) == commands_model(old(cmds)@) + commands_model(more@),
{
    let ghost added = more@;
    let mut more = more;
    cmds.append(&mut more);
    assert(commands_model(cmds@) =~= commands_model(old(cmds)@) + commands_model(added));
}

impl AppComputeWorker {
    /// A worker in state `Created` with nothing registered, no steps, and a
    /// command encoder ready.
    pub(crate) fn empty() -> (r: AppComputeWorker)
        ensures
            r@ == (WorkerView {
                state: WorkerState::Created,
                run_mode: RunMode::Continuous,
                wait_mode: true,
                has_encoder: true,
                next_allocation: 0,
                buffers: seq![],
                staging: seq![],
                pipelines: seq![],
                steps: seq![],
            }),
            r@.wf(),
    {
        let r = AppComputeWorker {
            state: WorkerState::Created,
            pipelines: Vec::new(),
            buffers: Vec::new(),
            staging_buffers: Vec::new(),
            steps: Vec::new(),
            has_encoder: true,
            run_mode: RunMode::Continuous,
            wait_mode: true,
            next_allocation: 0,
        };
        assert(r.buffers@ =~= seq![]);
        assert(r.staging_buffers@ =~= seq![]);
        assert(r.pipelines@ =~= seq![]);
        assert(r.steps@ =~= seq![]);
        r
    }

    pub(crate) fn push_step(&mut self, step: Step)
        requires
            old(self)@.wf(),
        ensures
            final(self)@ == (WorkerView { steps: old(self)@.steps.push(step), ..old(self)@ }),
            final(self)@.wf(),
    {
        self.steps.push(step);
    }

    pub(crate) fn set_modes(&mut self, run_mode: RunMode, wait_mode: bool)
        requires
            old(self)@.wf(),
        ensures
            final(self)@ == (WorkerView { run_mode, wait_mode, ..old(self)@ }),
            final(self)@.wf(),
    {
        self.run_mode = run_mode;
        self.wait_mode = wait_mode;
    }

    /// Whether a pipeline was requested for `shader`.
    pub fn has_pipeline(&self, shader: usize) -> (r: bool)
        ensures
            r == (entry(self@.pipelines, shader) is Some),
    {
        shader < self.pipelines.len() && self.pipelines[shader].is_some()
    }

    pub(crate) fn request_pipeline(&mut self, shader: usize, cached_id: usize)
        requires
            old(self)@.wf(),
            shader < usize::MAX,
        ensures
            final(self)@ == (WorkerView {
                pipelines: if entry(old(self)@.pipelines, shader) is Some {
                    old(self)@.pipelines
                } else {
                    put(old(self)@.pipelines, shader, PipelineSlot { cached_id, pipeline: None })
                },
                ..old(self)@
            }),
            final(self)@.wf(),
    {
        if !self.has_pipeline(shader) {
            put_entry(&mut self.pipelines, shader, PipelineSlot { cached_id, pipeline: None });
        }
    }

    /// The handle that the next registered allocation receives.
    pub fn next_allocation(&self) -> (r: u64)
        ensures
            r == self@.next_allocation,
    {
        self.next_allocation
    }

    /// The run mode.
    pub fn run_mode(&self) -> (r: RunMode)
        ensures
            r == self@.run_mode,
    {
        self.run_mode
    }

    /// Whether the worker was declared to wait for the device after each run.
    pub fn poll_waits(&self) -> (r: bool)
        ensures
            r == self@.wait_mode,
    {
        self.wait_mode
    }

    /// Whether the poll after a run waits for the device.
    pub fn poll_blocks(&self) -> (r: bool)
        ensures
            r == (self@.wait_mode || self@.run_mode == RunMode::Immediate),
    {
        self.wait_mode || self.run_mode == RunMode::Immediate
    }

    /// Whether the results of the last cycle can be read.
    pub fn ready(&self) -> (r: bool)
        ensures
            r == (self@.state == WorkerState::FinishedWorking),
    {
        self.state == WorkerState::FinishedWorking
    }

    fn ready_to_execute(&self) -> (r: bool)
        ensures
            r == self@.ready_to_execute(),
    {
        self.state != WorkerState::Working && self.run_mode != RunMode::OneShot(false)
    }

    /// Request one cycle on a coming tick. In immediate mode cycles are run
    /// with `execute_now` instead, and this fails.
    pub fn try_execute(&mut self) -> (r: Result<(), Error>)
        ensures
            r is Err <==> old(self)@.run_mode == RunMode::Immediate,
            r is Err ==> r == Err::<(), Error>(Error::WrongRunMode) && final(self)@ == old(self)@,
            r is Ok ==> final(self)@ == old(self)@.execute(),
    {
        match self.run_mode {
            RunMode::Continuous => Ok(()),
            RunMode::OneShot(_) => {
                self.run_mode = RunMode::OneShot(true);
                Ok(())
            },
            RunMode::Immediate => Err(Error::WrongRunMode),
        }
    }

    /// Change the workgroup count of the most recently declared pass that
    /// runs `shader`; every other step is kept.
    pub fn try_set_dispatch_size(
        &mut self,
        shader: usize,
        dispatch_size: [u32; 3],
    ) -> (r: Result<
        (),
        Error,
    >)
        requires
            old(self)@.wf(),
        ensures
            final(self)@.wf(),
            r is Err <==> forall|i: int|
                0 <= i < old(self)@.steps.len() ==> !pass_of(#[trigger] old(self)@.steps[i], shader),
            r is Err ==> r == Err::<(), Error>(Error::ShaderNotFound(shader)) && final(self)@
                == old(self)@,
            r is Ok ==> exists|i: int|
                0 <= i < old(self)@.steps.len() && pass_of(#[trigger] old(self)@.steps[i], shader)
                    && (forall|j: int|
                    i < j < old(self)@.steps.len() ==> !pass_of(#[trigger] old(self)@.steps[j], shader))
                    && final(self)@ == (WorkerView {
                    steps: old(self)@.steps.update(
                        i,
                        Step::ComputePass(
                            ComputePass {
                                dispatch_size,
                                vars: old(self)@.steps[i]->ComputePass_0.vars,
                                shader,
                            },
                        ),
                    ),
                    ..old(self)@
                }),
    {
        let mut k: usize = self.steps.len();
        while k > 0
            invariant
                k <= self.steps.len(),
                self@ == old(self)@,
                self@.wf(),
                forall|j: int| k <= j < self.steps@.len() ==> !pass_of(#[trigger] self.steps@[j], shader),
            decreases k,
        {
            let found = match &self.steps[k - 1] {
                Step::ComputePass(pass) => pass.shader == shader,
                Step::Swap(_, _) => false,
            };
            if found {
                let i = k - 1;
                let old_step = self.steps.remove(i);
                match old_step {
                    Step::ComputePass(pass) => {
                        self.steps.insert(
                            i,
                            Step::ComputePass(ComputePass { dispatch_size, vars: pass.vars, shader }),
                        );
                    },
                    Step::Swap(_, _) => {
                        proof {
                            assert(false);
                        }
                    },
                }
                assert(self.steps@ =~= old(self)@.steps.update(
                    i as int,
                    Step::ComputePass(
                        ComputePass {
                            dispatch_size,
                            vars: old(self)@.steps[i as int]->ComputePass_0.vars,
                            shader,
                        },
                    ),
                ));
                assert(pass_of(old(self)@.steps[i as int], shader));
                return Ok(());
            }
            k = k - 1;
        }
        Err(Error::ShaderNotFound(shader))
    }

    fn register(&mut self, name: usize, usage: BufferUsage, size: u64) -> (r: (
        u64,
        Option<u64>,
        Option<u64>,
    ))
        requires
            old(self)@.wf(),
            old(self)@.next_allocation < u64::MAX,
            name < usize::MAX,
        ensures
            final(self)@.wf(),
            final(self)@ == old(self)@.with_buffer(name, usage, size),
            r == (
                old(self)@.next_allocation,
                old(self)@.replaced_buffer(name),
                old(self)@.dropped_staging(name, usage, size),
            ),
    {
        let released = if name < self.buffers.len() {
            match self.buffers[name] {
                Some(slot) => Some(slot.allocation),
                None => None,
            }
        } else {
            None
        };
        let dropped = if name < self.staging_buffers.len() {
            match self.staging_buffers[name] {
                Some(s) => if usage == BufferUsage::ReadWriteStorage && s.size == size {
                    None
                } else {
                    self.staging_buffers.set(name, None);
                    Some(s.buffer)
                },
                None => None,
            }
        } else {
            None
        };
        let allocation = self.next_allocation;
        put_entry(&mut self.buffers, name, BufferSlot { allocation, usage, size });
        self.next_allocation = allocation + 1;
        proof {
            let pre = old(self)@;
            assert forall|n: usize| #[trigger]
                registered_staging(self.staging_buffers@, n) implies registered(self.buffers@, n)
                && self.buffers@[n as int]->Some_0.usage == BufferUsage::ReadWriteStorage
                && self.buffers@[n as int]->Some_0.size == self.staging_buffers@[n as int]->Some_0.size by {
                assert(registered_staging(pre.staging, n));
                assert(registered(pre.buffers, n));
            }
            assert forall|n: int|
                0 <= n < self.buffers@.len() && #[trigger] self.buffers@[n] is Some implies self.buffers@[n]->Some_0.allocation
                < self.next_allocation by {
                if n != name && n < old(self).buffers@.len() {
                    assert(old(self).buffers@[n] is Some);
                }
            }
            assert forall|n: int|
                0 <= n < self.staging_buffers@.len() && #[trigger] self.staging_buffers@[n] is Some implies self.staging_buffers@[n]->Some_0.buffer
                < self.next_allocation by {
                assert(pre.staging[n] is Some);
            }
        }
        (allocation, released, dropped)
    }

    /// Register a uniform buffer of `size` bytes under `name`. Returns the
    /// handle for its new allocation, the allocation it replaces, and the
    /// staging buffer that the name loses because a uniform buffer cannot back
    /// it; the host must release both.
    pub fn add_uniform(&mut self, name: usize, size: u64) -> (r: (u64, Option<u64>, Option<u64>))
        requires
            old(self)@.wf(),
            old(self)@.next_allocation < u64::MAX,
            name < usize::MAX,
        ensures
            final(self)@.wf(),
            final(self)@ == old(self)@.with_buffer(name, BufferUsage::Uniform, size),
            r == (
                old(self)@.next_allocation,
                old(self)@.replaced_buffer(name),
                old(self)@.dropped_staging(name, BufferUsage::Uniform, size),
            ),
    {
        self.register(name, BufferUsage::Uniform, size)
    }

    /// Register a storage buffer, read-only to shaders, as `add_uniform` does.
    pub fn add_storage(&mut self, name: usize, size: u64) -> (r: (u64, Option<u64>, Option<u64>))
        requires
            old(self)@.wf(),
            old(self)@.next_allocation < u64::MAX,
            name < usize::MAX,
        ensures
            final(self)@.wf(),
            final(self)@ == old(self)@.with_buffer(name, BufferUsage::Storage, size),
            r == (
                old(self)@.next_allocation,
                old(self)@.replaced_buffer(name),
                old(self)@.dropped_staging(name, BufferUsage::Storage, size),
            ),
    {
        self.register(name, BufferUsage::Storage, size)
    }

    /// Register a read/write storage buffer, as `add_uniform` does; the name
    /// keeps its staging buffer if that has the same size.
    pub fn add_rw_storage(&mut self, name: usize, size: u64) -> (r: (u64, Option<u64>, Option<u64>))
        requires
            old(self)@.wf(),
            old(self)@.next_allocation < u64::MAX,
            name < usize::MAX,
        ensures
            final(self)@.wf(),
            final(self)@ == old(self)@.with_buffer(name, BufferUsage::ReadWriteStorage, size),
            r == (
                old(self)@.next_allocation,
                old(self)@.replaced_buffer(name),
                old(self)@.dropped_staging(name, BufferUsage::ReadWriteStorage, size),
            ),
    {
        self.register(name, BufferUsage::ReadWriteStorage, size)
    }

    /// Register a read/write storage buffer of `size` bytes under `name`,
    /// paired with a staging buffer of the same size that starts mapped, so
    /// that it can be read before any cycle ran. Returns the handles of the
    /// two new allocations, each with the allocation it replaces.
    pub fn add_staging(&mut self, name: usize, size: u64) -> (r: (
        (u64, Option<u64>),
        (u64, Option<u64>),
    ))
        requires
            old(self)@.wf(),
            old(self)@.next_allocation < u64::MAX - 1,
            name < usize::MAX,
        ensures
            final(self)@.wf(),
            r.0.0 == old(self)@.next_allocation,
            r.1.0 == old(self)@.next_allocation + 1,
            r.0.1 == old(self)@.replaced_buffer(name),
            r.1.1 == match entry(old(self)@.staging, name) {
                Some(s) => Some(s.buffer),
                None => None::<u64>,
            },
            final(self)@ == (WorkerView {
                buffers: put(
                    old(self)@.buffers,
                    name,
                    BufferSlot {
                        allocation: old(self)@.next_allocation,
                        usage: BufferUsage::ReadWriteStorage,
                        size,
                    },
                ),
                staging: put(
                    old(self)@.staging,
                    name,
                    StagingBuffer {
                        mapped: true,
                        buffer: (old(self)@.next_allocation + 1) as u64,
                        size,
                    },
                ),
                next_allocation: (old(self)@.next_allocation + 2) as u64,
                ..old(self)@
            }),
            final(self)@.staging[name as int]->Some_0.size == final(self)@.buffers[name as int]->Some_0.size,
    {
        let released = if name < self.staging_buffers.len() {
            match self.staging_buffers[name] {
                Some(s) => Some(s.buffer),
                None => None,
            }
        } else {
            None
        };
        let (buffer, replaced, _) = self.register(name, BufferUsage::ReadWriteStorage, size);
        let ghost mid = self.staging_buffers@;
        let allocation = self.next_allocation;
        put_entry(&mut self.staging_buffers, name, StagingBuffer { mapped: true, buffer: allocation, size });
        self.next_allocation = allocation + 1;
        proof {
            let pre = old(self)@;
            let st = StagingBuffer { mapped: true, buffer: allocation, size };
            assert(self.staging_buffers@ =~= put(pre.staging, name, st));
            assert forall|n: usize| #[trigger]
                registered_staging(self.staging_buffers@, n) implies registered(self.buffers@, n)
                && self.buffers@[n as int]->Some_0.usage == BufferUsage::ReadWriteStorage
                && self.buffers@[n as int]->Some_0.size == self.staging_buffers@[n as int]->Some_0.size by {
                if n != name {
                    assert(registered_staging(mid, n));
                }
            }
            assert forall|n: int|
                0 <= n < self.buffers@.len() && #[trigger] self.buffers@[n] is Some implies self.buffers@[n]->Some_0.allocation
                < self.next_allocation by {
                assert(self.buffers@[n]->Some_0.allocation < allocation);
            }
            assert forall|n: int|
                0 <= n < self.staging_buffers@.len() && #[trigger] self.staging_buffers@[n] is Some implies self.staging_buffers@[n]->Some_0.buffer
                < self.next_allocation by {
                if n != name && n < mid.len() {
                    assert(mid[n] is Some);
                }
            }
        }
        ((buffer, replaced), (allocation, released))
    }

    /// The staging buffer to read the results of `target` from, which must be
    /// mapped into host memory.
    pub fn try_read_raw(&self, target: usize) -> (r: Result<u64, Error>)
        ensures
            match entry(self@.staging, target) {
                Some(s) => if s.mapped {
                    r == Ok::<u64, Error>(s.buffer)
                } else {
                    r == Err::<u64, Error>(Error::StagingBufferNotFound(target))
                },
                None => r == Err::<u64, Error>(Error::StagingBufferNotFound(target)),
            },
    {
        if target < self.staging_buffers.len() {
            match self.staging_buffers[target] {
                Some(s) => if s.mapped {
                    Ok(s.buffer)
                } else {
                    Err(Error::StagingBufferNotFound(target))
                },
                None => Err(Error::StagingBufferNotFound(target)),
            }
        } else {
            Err(Error::StagingBufferNotFound(target))
        }
    }

    /// The staging buffer of `target`, which must have one that is mapped.
    pub fn read_raw(&self, target: usize) -> (r: u64)
        requires
            registered_staging(self@.staging, target),
            self@.staging[target as int]->Some_0.mapped,
        ensures
            r == self@.staging[target as int]->Some_0.buffer,
    {
        self.staging_buffers[target].unwrap().buffer
    }

    /// The write of `bytes` to the start of the buffer `target`, for the host
    /// to queue.
    pub fn try_write(&self, target: usize, bytes: Vec<u8>) -> (r: Result<Command, Error>)
        ensures
            match entry(self@.buffers, target) {
                Some(slot) => r is Ok && r->Ok_0@ == (CommandModel::Write {
                    allocation: slot.allocation,
                    bytes: bytes@,
                }),
                None => r == Err::<Command, Error>(Error::BufferNotFound(target)),
            },
    {
        if target < self.buffers.len() {
            match self.buffers[target] {
                Some(slot) => Ok(Command::Write { allocation: slot.allocation, bytes }),
                None => Err(Error::BufferNotFound(target)),
            }
        } else {
            Err(Error::BufferNotFound(target))
        }
    }

    /// The write of `bytes` to the buffer `target`, which must be registered.
    pub fn write(&self, target: usize, bytes: Vec<u8>) -> (r: Command)
        requires
            registered(self@.buffers, target),
        ensures
            r@ == (CommandModel::Write {
                allocation: allocation_of(self@.buffers, target),
                bytes: bytes@,
            }),
    {
        Command::Write { allocation: self.buffers[target].unwrap().allocation, bytes }
    }

    /// Copy the compiled pipelines that the cache now holds into every
    /// pending entry of the pipeline table.
    pub fn extract_pipelines(&mut self, cache: &AppPipelineCache)
        requires
            old(self)@.wf(),
        ensures
            final(self)@ == old(self)@.refreshed(cache.pipeline_cache@),
            final(self)@.wf(),
    {
        let mut i: usize = 0;
        let ghost old_pipelines = self.pipelines@;
        let ghost target = refreshed_pipelines(old_pipelines, cache.pipeline_cache@);
        while i < self.pipelines.len()
            invariant
                i <= self.pipelines.len(),
                self.pipelines@.len() == old_pipelines.len(),
                target.len() == old_pipelines.len(),
                target == refreshed_pipelines(old_pipelines, cache.pipeline_cache@),
                forall|j: int| 0 <= j < i ==> self.pipelines@[j] == target[j],
                forall|j: int| i <= j < self.pipelines@.len() ==> self.pipelines@[j] == old_pipelines[j],
                self@ == (WorkerView { pipelines: self.pipelines@, ..old(self)@ }),
            decreases self.pipelines.len() - i,
        {
            match self.pipelines[i] {
                Some(slot) => {
                    if slot.pipeline.is_none() {
                        let pipeline = cache.get_compute_pipeline(slot.cached_id);
                        self.pipelines.set(
                            i,
                            Some(PipelineSlot { cached_id: slot.cached_id, pipeline }),
                        );
                    }
                },
                None => {},
            }
            i = i + 1;
        }
        assert(self.pipelines@ =~= target);
    }

    /// The per-tick unmap step: once no work is in flight (or in immediate
    /// mode), release the host mapping of every staging buffer.
    pub fn unmap_all(&mut self) -> (r: Vec<Command>)
        requires
            old(self)@.wf(),
        ensures
            final(self)@.wf(),
            old(self)@.unmaps() ==> commands_model(r@) == unmap_commands(old(self)@.staging)
                && final(self)@ == (WorkerView {
                staging: with_mapped(old(self)@.staging, false),
                ..old(self)@
            }),
            !old(self)@.unmaps() ==> r@.len() == 0 && final(self)@ == old(self)@,
    {
        if self.ready_to_execute() || self.run_mode == RunMode::Immediate {
            let (cmds, unmapped) = unmap_all_staging(&self.staging_buffers);
            self.staging_buffers = unmapped;
            proof {
                lemma_remapped_keeps_pairing(self.buffers@, old(self)@.staging, false);
            }
            cmds
        } else {
            Vec::new()
        }
    }

    /// The scheduled run of one tick: demote finished results, and start a
    /// cycle when one may start. On `Ok` the host performs the commands, then
    /// polls the device if `polls` says so and reports the outcome to
    /// `finish_run`. `Err(PipelineNotReady)` skips the tick.
    pub fn try_run(&mut self) -> (r: Result<Vec<Command>, Error>)
        requires
            old(self)@.wf(),
        ensures
            final(self)@.wf(),
            match r {
                Ok(cmds) => old(self)@.run() == Ok::<_, Error>((commands_model(cmds@), final(self)@)),
                Err(e) => old(self)@.run() == Err::<(Seq<CommandModel>, WorkerView), Error>(e)
                    && final(self)@ == old(self)@.demoted(),
            },
    {
        if self.state == WorkerState::FinishedWorking {
            self.state = WorkerState::Available;
        }
        if self.ready_to_execute() {
            self.record_cycle()
        } else {
            let cmds: Vec<Command> = Vec::new();
            assert(commands_model(cmds@) =~= seq![]);
            Ok(cmds)
        }
    }

    /// Whether the host polls the device after a scheduled run.
    pub fn polls(&self) -> (r: bool)
        ensures
            r == self@.polls(),
    {
        self.run_mode != RunMode::OneShot(false)
    }

    /// Take the outcome of the poll after a scheduled run: once the queue is
    /// empty the results are readable and a one-shot request is used up.
    pub fn finish_run(&mut self, queue_empty: bool)
        requires
            old(self)@.wf(),
        ensures
            final(self)@.wf(),
            final(self)@ == old(self)@.finish_run(queue_empty),
    {
        if self.run_mode != RunMode::OneShot(false) && queue_empty {
            self.state = WorkerState::FinishedWorking;
            match self.run_mode {
                RunMode::OneShot(_) => self.run_mode = RunMode::OneShot(false),
                _ => {},
            }
        }
    }

    /// Run a cycle at once, in immediate mode only: refresh the pipelines from
    /// the cache, then record the cycle. `Ok(None)` means a pipeline is still
    /// compiling and nothing ran. On `Ok(Some(..))` the host performs the
    /// commands and waits for the device.
    pub fn try_execute_now(&mut self, cache: &AppPipelineCache) -> (r: Result<
        Option<Vec<Command>>,
        Error,
    >)
        requires
            old(self)@.wf(),
        ensures
            final(self)@.wf(),
            old(self)@.run_mode != RunMode::Immediate ==> r == Err::<Option<Vec<Command>>, Error>(
                Error::WrongRunMode,
            ) && final(self)@ == old(self)@,
            old(self)@.run_mode == RunMode::Immediate ==> {
                let v = old(self)@.refreshed(cache.pipeline_cache@);
                match v.cycle() {
                    Ok((cmds, after)) => r is Ok && r->Ok_0 is Some && commands_model(
                        r->Ok_0->Some_0@,
                    ) == cmds && final(self)@ == after,
                    Err(Error::PipelineNotReady) => r == Ok::<Option<Vec<Command>>, Error>(None)
                        && final(self)@ == v,
                    Err(e) => r == Err::<Option<Vec<Command>>, Error>(e) && final(self)@ == v,
                }
            },
    {
        if self.run_mode != RunMode::Immediate {
            return Err(Error::WrongRunMode);
        }
        self.extract_pipelines(cache);
        match self.record_cycle() {
            Ok(cmds) => Ok(Some(cmds)),
            Err(Error::PipelineNotReady) => Ok(None),
            Err(e) => Err(e),
        }
    }

    /// Request one cycle on a coming tick; the worker must not be in
    /// immediate mode, which runs cycles with `execute_now`.
    pub fn execute(&mut self)
        requires
            old(self)@.wf(),
            old(self)@.run_mode != RunMode::Immediate,
        ensures
            final(self)@.wf(),
            final(self)@ == old(self)@.execute(),
    {
        let _ = self.try_execute();
    }

    /// Change the workgroup count of the most recently declared pass that
    /// runs `shader`, which some pass must run; every other step is kept.
    pub fn set_dispatch_size(&mut self, shader: usize, dispatch_size: [u32; 3])
        requires
            old(self)@.wf(),
            exists|i: int| 0 <= i < old(self)@.steps.len() && pass_of(#[trigger] old(self)@.steps[i], shader),
        ensures
            final(self)@.wf(),
            exists|i: int|
                0 <= i < old(self)@.steps.len() && pass_of(#[trigger] old(self)@.steps[i], shader)
                    && (forall|j: int|
                    i < j < old(self)@.steps.len() ==> !pass_of(#[trigger] old(self)@.steps[j], shader))
                    && final(self)@ == (WorkerView {
                    steps: old(self)@.steps.update(
                        i,
                        Step::ComputePass(
                            ComputePass {
                                dispatch_size,
                                vars: old(self)@.steps[i]->ComputePass_0.vars,
                                shader,
                            },
                        ),
                    ),
                    ..old(self)@
                }),
    {
        let _ = self.try_set_dispatch_size(shader, dispatch_size);
    }

    /// The scheduled run of one tick, for a worker whose configuration is
    /// sound: no step of a cycle it starts names an unknown buffer or a
    /// shader without a pipeline. `None` means a pipeline is still compiling
    /// and the tick is skipped; otherwise the host performs the commands as
    /// with `try_run`.
    pub fn run(&mut self) -> (r: Option<Vec<Command>>)
        requires
            old(self)@.wf(),
            not_fatal(old(self)@.run()),
        ensures
            final(self)@.wf(),
            match old(self)@.run() {
                Ok((cmds, after)) => r is Some && commands_model(r->Some_0@) == cmds && final(self)@
                    == after,
                Err(_) => r is None && final(self)@ == old(self)@.demoted(),
            },
    {
        match self.try_run() {
            Ok(cmds) => Some(cmds),
            Err(_) => None,
        }
    }

    /// Run a cycle at once, for a worker in immediate mode whose
    /// configuration is sound once its pipelines are refreshed from `cache`.
    /// `None` means a pipeline is still compiling and nothing ran.
    pub fn execute_now(&mut self, cache: &AppPipelineCache) -> (r: Option<Vec<Command>>)
        requires
            old(self)@.wf(),
            old(self)@.run_mode == RunMode::Immediate,
            not_fatal(old(self)@.refreshed(cache.pipeline_cache@).cycle()),
        ensures
            final(self)@.wf(),
            ({
                let v = old(self)@.refreshed(cache.pipeline_cache@);
                match v.cycle() {
                    Ok((cmds, after)) => r is Some && commands_model(r->Some_0@) == cmds
                        && final(self)@ == after,
                    Err(_) => r is None && final(self)@ == v,
                }
            }),
    {
        match self.try_execute_now(cache) {
            Ok(r) => r,
            Err(_) => None,
        }
    }

    /// Record a whole cycle: release stale mappings, record the steps, copy
    /// every staging-backed buffer out, submit, request the mappings, and
    /// open a fresh encoder for the next cycle.
    fn record_cycle(&mut self) -> (r: Result<Vec<Command>, Error>)
        requires
            old(self)@.wf(),
        ensures
            final(self)@.wf(),
            match r {
                Ok(cmds) => old(self)@.cycle() == Ok::<_, Error>(
                    (commands_model(cmds@), final(self)@),
                ),
                Err(e) => old(self)@.cycle() == Err::<(Seq<CommandModel>, WorkerView), Error>(e)
                    && final(self)@ == old(self)@,
            },
    {
        let (step_cmds, buffers) = match record_steps(&self.buffers, &self.pipelines, &self.steps) {
            Ok(pair) => pair,
            Err(e) => {
                return Err(e);
            },
        };
        if !check_paired(&buffers, &self.staging_buffers) {
            return Err(Error::StagingMismatch);
        }
        proof {
            lemma_sequence_keeps_names(
                self.buffers@,
                self.pipelines@,
                self.steps@,
                self.next_allocation,
            );
        }
        let (mut cmds, _unmapped) = unmap_all_staging(&self.staging_buffers);
        append_commands(&mut cmds, step_cmds);
        append_commands(&mut cmds, copy_staging(&buffers, &self.staging_buffers));
        let ghost before = cmds@;
        cmds.push(Command::Submit);
        assert(commands_model(cmds@) =~= commands_model(before) + seq![CommandModel::Submit]);
        let (maps, mapped) = map_all_staging(&self.staging_buffers);
        append_commands(&mut cmds, maps);
        self.buffers = buffers;
        self.staging_buffers = mapped;
        self.state = WorkerState::Working;
        let ghost before = cmds@;
        cmds.push(Command::NewEncoder);
        assert(commands_model(cmds@) =~= commands_model(before) + seq![CommandModel::NewEncoder]);
        proof {
            lemma_remapped_keeps_pairing(self.buffers@, old(self)@.staging, true);
        }
        Ok(cmds)
    }
}

} // verus!
