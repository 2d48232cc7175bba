//! Declaring a worker's buffers, passes and swaps before it runs.
use vstd::prelude::*;

use crate::staging::StagingBuffer;
use crate::steps::{entry, put, BufferSlot, BufferUsage, ComputePass, PipelineSlot, Step};
use crate::worker::{AppComputeWorker, RunMode, WorkerState, WorkerView};

verus! {

/// The declaration with `pass` appended to the steps, and a pipeline entry
/// with ticket `cached_id` for its shader unless one was requested before.
pub open spec fn with_pass(v: WorkerView, cached_id: usize, pass: ComputePass) -> WorkerView {
    WorkerView {
        pipelines: if entry(v.pipelines, pass.shader) is Some {
            v.pipelines
        } else {
            put(v.pipelines, pass.shader, PipelineSlot { cached_id, pipeline: None })
        },
        steps: v.steps.push(Step::ComputePass(pass)),
        ..v
    }
}

/// No pipeline of the table has been compiled yet.
pub open spec fn all_pending(pipelines: Seq<Option<PipelineSlot>>) -> bool {
    forall|i: int|
        0 <= i < pipelines.len() && #[trigger] pipelines[i] is Some ==> pipelines[i]->Some_0.pipeline
            is None
}

/// Declares the buffers, passes and swaps of a worker, then builds it.
pub struct AppComputeWorkerBuilder {
    worker: AppComputeWorker,
}

impl View for AppComputeWorkerBuilder {
    type V = WorkerView;

    closed spec fn view(&self) -> WorkerView {
        self.worker@
    }
}

impl AppComputeWorkerBuilder {
    /// Whether the declaration is consistent.
    pub closed spec fn wf(&self) -> bool {
        &&& self.worker@.wf()
        &&& self.worker@.state == WorkerState::Created
        &&& all_pending(self.worker@.pipelines)
    }

    /// An empty declaration: continuous mode, waiting for the device.
    pub fn new() -> (r: AppComputeWorkerBuilder)
        ensures
            r.wf(),
            r@ == (WorkerView {
                state: WorkerState::Created,
                run_mode: RunMode::Continuous,
                wait_mode: true,
                has_encoder: true,
                next_allocation: 0,
                buffers: seq![],
                staging: seq![],
                pipelines: seq![],
                steps: seq![],
            }),
    {
        AppComputeWorkerBuilder { worker: AppComputeWorker::empty() }
    }

    /// The handle that the next declared allocation receives.
    pub fn next_allocation(&self) -> (r: u64)
        ensures
            r == self@.next_allocation,
    {
        self.worker.next_allocation()
    }

    /// Choose whether the poll after each run waits for the device.
    pub fn set_wait_mode(&mut self, wait: bool) -> (r: &mut Self)
        requires
            old(self).wf(),
        ensures
            r.wf(),
            r@ == (WorkerView { wait_mode: wait, ..old(self)@ }),
            *final(self) == *final(r),
    {
        let run_mode = self.worker.run_mode();
        self.worker.set_modes(run_mode, wait);
        self
    }

    /// Declare a uniform buffer of `size` bytes under `name`; returns the
    /// handle of its allocation, the one it replaces, and the name's staging
    /// buffer, which a uniform buffer cannot back.
    pub fn add_uniform(&mut self, name: usize, size: u64) -> (r: (u64, Option<u64>, Option<u64>))
        requires
            old(self).wf(),
            old(self)@.next_allocation < u64::MAX,
            name < usize::MAX,
        ensures
            final(self).wf(),
            final(self)@ == old(self)@.with_buffer(name, BufferUsage::Uniform, size),
            r == (
                old(self)@.next_allocation,
                old(self)@.replaced_buffer(name),
                old(self)@.dropped_staging(name, BufferUsage::Uniform, size),
            ),
    {
        self.worker.add_uniform(name, size)
    }

    /// Declare a storage buffer, read-only to shaders, as `add_uniform` does.
    pub fn add_storage(&mut self, name: usize, size: u64) -> (r: (u64, Option<u64>, Option<u64>))
        requires
            old(self).wf(),
            old(self)@.next_allocation < u64::MAX,
            name < usize::MAX,
        ensures
            final(self).wf(),
            final(self)@ == old(self)@.with_buffer(name, BufferUsage::Storage, size),
            r == (
                old(self)@.next_allocation,
                old(self)@.replaced_buffer(name),
                old(self)@.dropped_staging(name, BufferUsage::Storage, size),
            ),
    {
        self.worker.add_storage(name, size)
    }

    /// Declare a read/write storage buffer, as `add_uniform` does.
    pub fn add_rw_storage(&mut self, name: usize, size: u64) -> (r: (u64, Option<u64>, Option<u64>))
        requires
            old(self).wf(),
            old(self)@.next_allocation < u64::MAX,
            name < usize::MAX,
        ensures
            final(self).wf(),
            final(self)@ == old(self)@.with_buffer(name, BufferUsage::ReadWriteStorage, size),
            r == (
                old(self)@.next_allocation,
                old(self)@.replaced_buffer(name),
                old(self)@.dropped_staging(name, BufferUsage::ReadWriteStorage, size),
            ),
    {
        self.worker.add_rw_storage(name, size)
    }

    /// Declare a read/write storage buffer under `name` with a staging buffer
    /// of the same size for reading it back; returns the two new handles, each
    /// with the allocation it replaces.
    pub fn add_staging(&mut self, name: usize, size: u64) -> (r: (
        (u64, Option<u64>),
        (u64, Option<u64>),
    ))
        requires
            old(self).wf(),
            old(self)@.next_allocation < u64::MAX - 1,
            name < usize::MAX,
        ensures
            final(self).wf(),
            r.0.0 == old(self)@.next_allocation,
            r.1.0 == old(self)@.next_allocation + 1,
            r.0.1 == match entry(old(self)@.buffers, name) {
                Some(slot) => Some(slot.allocation),
                None => None::<u64>,
            },
            r.1.1 == match entry(old(self)@.staging, name) {
                Some(s) => Some(s.buffer),
                None => None::<u64>,
            },
            final(self)@ == (WorkerView {
                buffers: put(
                    old(self)@.buffers,
                    name,
                    BufferSlot {
                        allocation: old(self)@.next_allocation,
                        usage: BufferUsage::ReadWriteStorage,
                        size,
                    },
                ),
                staging: put(
                    old(self)@.staging,
                    name,
                    StagingBuffer {
                        mapped: true,
                        buffer: (old(self)@.next_allocation + 1) as u64,
                        size,
                    },
                ),
                next_allocation: (old(self)@.next_allocation + 2) as u64,
                ..old(self)@
            }),
            final(self)@.staging[name as int]->Some_0.size
                == final(self)@.buffers[name as int]->Some_0.size,
    {
        self.worker.add_staging(name, size)
    }

    /// Whether the compilation of `shader`'s pipeline must still be queued:
    /// a pipeline is requested once per shader, however many passes run it.
    pub fn needs_pipeline(&self, shader: usize) -> (r: bool)
        ensures
            r == (entry(self@.pipelines, shader) is None),
    {
        !self.worker.has_pipeline(shader)
    }

    /// Declare a compute pass as the next step. `cached_id` is the ticket of
    /// the queued compilation; it is used only when no pipeline was requested
    /// for `shader` before.
    pub fn add_pass(
        &mut self,
        shader: usize,
        cached_id: usize,
        dispatch_size: [u32; 3],
        vars: Vec<usize>,
    ) -> (r: &mut Self)
        requires
            old(self).wf(),
            shader < usize::MAX,
        ensures
            r.wf(),
            r@ == with_pass(old(self)@, cached_id, ComputePass { dispatch_size, vars, shader }),
            *final(self) == *final(r),
    {
        self.worker.request_pipeline(shader, cached_id);
        self.worker.push_step(Step::ComputePass(ComputePass { dispatch_size, vars, shader }));
        self
    }

    /// Declare a swap of two buffers as the next step.
    pub fn add_swap(&mut self, buffer_a: usize, buffer_b: usize) -> (r: &mut Self)
        requires
            old(self).wf(),
        ensures
            r.wf(),
            r@ == (WorkerView {
                steps: old(self)@.steps.push(Step::Swap(buffer_a, buffer_b)),
                ..old(self)@
            }),
            *final(self) == *final(r),
    {
        self.worker.push_step(Step::Swap(buffer_a, buffer_b));
        self
    }

    /// Run a cycle on every tick. This is the default.
    pub fn continuous(&mut self) -> (r: &mut Self)
        requires
            old(self).wf(),
        ensures
            r.wf(),
            r@ == (WorkerView { run_mode: RunMode::Continuous, ..old(self)@ }),
            *final(self) == *final(r),
    {
        let wait_mode = self.worker.poll_waits();
        self.worker.set_modes(RunMode::Continuous, wait_mode);
        self
    }

    /// Run a cycle only when requested with `execute`.
    pub fn one_shot(&mut self) -> (r: &mut Self)
        requires
            old(self).wf(),
        ensures
            r.wf(),
            r@ == (WorkerView { run_mode: RunMode::OneShot(false), ..old(self)@ }),
            *final(self) == *final(r),
    {
        let wait_mode = self.worker.poll_waits();
        self.worker.set_modes(RunMode::OneShot(false), wait_mode);
        self
    }

    /// Run cycles at once with `execute_now`, waiting for the device.
    pub fn immediate(&mut self) -> (r: &mut Self)
        requires
            old(self).wf(),
        ensures
            r.wf(),
            r@ == (WorkerView { run_mode: RunMode::Immediate, ..old(self)@ }),
            *final(self) == *final(r),
    {
        let wait_mode = self.worker.poll_waits();
        self.worker.set_modes(RunMode::Immediate, wait_mode);
        self
    }

    /// The worker declared so far: in state `Created`, with a command encoder
    /// ready and every requested pipeline still pending.
    pub fn build(self) -> (r: AppComputeWorker)
        requires
            self.wf(),
        ensures
            r@ == self@,
            r@.wf(),
            r@.state == WorkerState::Created,
            r@.has_encoder,
            all_pending(r@.pipelines),
    {
        self.worker
    }
}

} // verus!
