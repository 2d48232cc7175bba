//! Properties of the engine that relate several operations, proved over
//! the spec functions that the operations' contracts use.
use vstd::prelude::*;

use crate::command::{command_effect, executes, writes, CommandModel};
use crate::error::Error;
use crate::staging::{
    copy_commands, distinct_staging, map_commands, registered_staging, staging_apart,
    unmap_commands, StagingBuffer,
};
use crate::steps::{
    allocation_of, bind_vars, distinct_allocations, entries_from, entry,
    lemma_sequence_keeps_names, pass_result, registered, sequence_steps, step_result,
    swap_buffers, BufferSlot, ComputePass, PipelineSlot, Step,
};
use crate::worker::{RunMode, WorkerState, WorkerView};
use crate::worker_builder::with_pass;

verus! {

/// The compute passes among the steps, in declaration order.
pub open spec fn passes(steps: Seq<Step>) -> Seq<ComputePass>
    decreases steps.len(),
{
    if steps.len() == 0 {
        seq![]
    } else {
        match steps.last() {
            Step::ComputePass(p) => passes(steps.drop_last()).push(p),
            Step::Swap(_, _) => passes(steps.drop_last()),
        }
    }
}

/// The compiled pipeline of a shader, as the pipeline table holds it.
pub open spec fn pipeline_of(pipelines: Seq<Option<PipelineSlot>>, shader: usize) -> Option<u64> {
    match entry(pipelines, shader) {
        Some(slot) => slot.pipeline,
        None => None,
    }
}

/// Steps run in declaration order, each exactly once: the commands that the
/// steps record are one dispatch per compute pass, in the order the passes
/// were declared, each with that pass's pipeline and workgroup count.
pub proof fn lemma_steps_in_declaration_order(
    buffers: Seq<Option<BufferSlot>>,
    pipelines: Seq<Option<PipelineSlot>>,
    steps: Seq<Step>,
)
    requires
        sequence_steps(buffers, pipelines, steps) is Ok,
    ensures
        ({
            let cmds = sequence_steps(buffers, pipelines, steps)->Ok_0.0;
            &&& cmds.len() == passes(steps).len()
            &&& forall|k: int|
                0 <= k < cmds.len() ==> {
                    let p = #[trigger] passes(steps)[k];
                    &&& cmds[k] is Dispatch
                    &&& cmds[k]->Dispatch_workgroups == p.dispatch_size@
                    &&& Some(cmds[k]->Dispatch_pipeline) == pipeline_of(pipelines, p.shader)
                }
        }),
    decreases steps.len(),
{
    if steps.len() > 0 {
        lemma_steps_in_declaration_order(buffers, pipelines, steps.drop_last());
        let prev = sequence_steps(buffers, pipelines, steps.drop_last())->Ok_0;
        let cmds = sequence_steps(buffers, pipelines, steps)->Ok_0.0;
        match steps.last() {
            Step::ComputePass(p) => {
                assert(cmds =~= prev.0 + seq![step_result(prev.1, pipelines, steps.last())->Ok_0.0[0]]);
            },
            Step::Swap(_, _) => {
                assert(cmds =~= prev.0);
            },
        }
    }
}

/// A swap of `a` and `b` followed at once by the same swap restores the
/// registry, and neither records any device work.
pub proof fn lemma_swap_twice_restores(
    buffers: Seq<Option<BufferSlot>>,
    pipelines: Seq<Option<PipelineSlot>>,
    a: usize,
    b: usize,
)
    requires
        step_result(buffers, pipelines, Step::Swap(a, b)) is Ok,
    ensures
        ({
            let once = step_result(buffers, pipelines, Step::Swap(a, b))->Ok_0;
            &&& once.0 == Seq::<CommandModel>::empty()
            &&& step_result(once.1, pipelines, Step::Swap(a, b)) == Ok::<_, Error>(
                (Seq::<CommandModel>::empty(), buffers),
            )
        }),
{
    let once = swap_buffers(buffers, a, b);
    assert(swap_buffers(once, a, b) =~= buffers);
}

/// A one-shot worker starts no cycle until `execute` is requested; a
/// completed cycle uses the request up; requesting twice is requesting once.
pub proof fn lemma_one_shot_runs_on_request(v: WorkerView, queue_empty: bool)
    ensures
        v.run_mode == RunMode::OneShot(false) && v.state != WorkerState::Working ==> {
            &&& v.run() is Ok
            &&& v.run()->Ok_0.0 == Seq::<CommandModel>::empty()
            &&& v.run()->Ok_0.1.state != WorkerState::Working
            &&& v.run()->Ok_0.1.run_mode == RunMode::OneShot(false)
        },
        v.run_mode is OneShot && queue_empty ==> v.finish_run(queue_empty).run_mode
            == RunMode::OneShot(false),
        v.run_mode is OneShot ==> v.execute().run_mode == RunMode::OneShot(true),
        v.execute().execute() == v.execute(),
{
}

/// Every staging buffer that is still mapped when a cycle starts is unmapped
/// before any copy into a staging buffer is recorded.
pub proof fn lemma_unmap_before_copy(v: WorkerView)
    requires
        v.cycle() is Ok,
    ensures
        ({
            let cmds = v.cycle()->Ok_0.0;
            let unmaps = unmap_commands(v.staging);
            &&& unmaps.len() <= cmds.len()
            &&& cmds.take(unmaps.len() as int) == unmaps
            &&& forall|j: int| 0 <= j < cmds.len() && #[trigger] cmds[j] is Copy ==> j >= unmaps.len()
            &&& forall|n: usize|
                #[trigger] registered_staging(v.staging, n) && v.staging[n as int]->Some_0.mapped
                    ==> unmaps.contains(
                    CommandModel::Unmap { staging: v.staging[n as int]->Some_0.buffer },
                )
        }),
{
    let cmds = v.cycle()->Ok_0.0;
    let unmaps = unmap_commands(v.staging);
    assert(cmds.take(unmaps.len() as int) =~= unmaps);
    lemma_unmaps_only(v.staging);
    assert forall|j: int| 0 <= j < cmds.len() && #[trigger] cmds[j] is Copy implies j
        >= unmaps.len() by {
        if j < unmaps.len() {
            assert(cmds[j] == unmaps[j]);
        }
    }
    assert forall|n: usize|
        #[trigger] registered_staging(v.staging, n) && v.staging[n as int]->Some_0.mapped
            implies unmaps.contains(
        CommandModel::Unmap { staging: v.staging[n as int]->Some_0.buffer },
    ) by {
        lemma_unmap_listed(v.staging, n);
    }
}

proof fn lemma_unmaps_only(staging: Seq<Option<StagingBuffer>>)
    ensures
        forall|j: int| 0 <= j < unmap_commands(staging).len() ==> #[trigger] unmap_commands(staging)[j] is Unmap,
    decreases staging.len(),
{
    if staging.len() > 0 {
        lemma_unmaps_only(staging.drop_last());
    }
}

proof fn lemma_unmap_listed(staging: Seq<Option<StagingBuffer>>, n: usize)
    requires
        registered_staging(staging, n),
        staging[n as int]->Some_0.mapped,
    ensures
        unmap_commands(staging).contains(
            CommandModel::Unmap { staging: staging[n as int]->Some_0.buffer },
        ),
    decreases staging.len(),
{
    let c = CommandModel::Unmap { staging: staging[n as int]->Some_0.buffer };
    if n == staging.len() - 1 {
        assert(unmap_commands(staging).last() == c);
    } else {
        assert(registered_staging(staging.drop_last(), n));
        lemma_unmap_listed(staging.drop_last(), n);
        let i = choose|i: int|
            0 <= i < unmap_commands(staging.drop_last()).len() && unmap_commands(staging.drop_last())[i] == c;
        assert(unmap_commands(staging)[i] == c);
    }
}

/// The pass at step `i` with its workgroup count replaced by `size`.
pub open spec fn resized(steps: Seq<Step>, i: int, size: [u32; 3]) -> Seq<Step> {
    let p = steps[i]->ComputePass_0;
    steps.update(i, Step::ComputePass(ComputePass { dispatch_size: size, vars: p.vars, shader: p.shader }))
}

/// A dispatch command with its workgroup count replaced by `size`.
pub open spec fn resized_dispatch(c: CommandModel, size: [u32; 3]) -> CommandModel {
    CommandModel::Dispatch {
        pipeline: c->Dispatch_pipeline,
        bindings: c->Dispatch_bindings,
        workgroups: size@,
    }
}

/// Changing the workgroup count of one pass changes nothing else: the next
/// cycle fails or succeeds as before, leaves the same registry, and records
/// the same commands but for that pass's dispatch, which carries the new
/// count.
pub proof fn lemma_resize_changes_only_its_pass(
    buffers: Seq<Option<BufferSlot>>,
    pipelines: Seq<Option<PipelineSlot>>,
    steps: Seq<Step>,
    i: int,
    size: [u32; 3],
)
    requires
        0 <= i < steps.len(),
        steps[i] is ComputePass,
    ensures
        ({
            let before = sequence_steps(buffers, pipelines, steps);
            let after = sequence_steps(buffers, pipelines, resized(steps, i, size));
            let k = passes(steps.take(i)).len() as int;
            &&& before is Err ==> after == before
            &&& before is Ok ==> {
                &&& after is Ok
                &&& 0 <= k < before->Ok_0.0.len()
                &&& after->Ok_0.1 == before->Ok_0.1
                &&& after->Ok_0.0 == before->Ok_0.0.update(k, resized_dispatch(before->Ok_0.0[k], size))
                &&& after->Ok_0.0[k]->Dispatch_workgroups == size@
            }
        }),
    decreases steps.len(),
{
    let steps2 = resized(steps, i, size);
    let k = passes(steps.take(i)).len() as int;
    assert(steps2.drop_last().len() == steps.drop_last().len());
    if i == steps.len() - 1 {
        assert(steps2.drop_last() =~= steps.drop_last());
        assert(steps.take(i) =~= steps.drop_last());
        if sequence_steps(buffers, pipelines, steps.drop_last()) is Ok {
            lemma_steps_in_declaration_order(buffers, pipelines, steps.drop_last());
            let before = sequence_steps(buffers, pipelines, steps);
            let after = sequence_steps(buffers, pipelines, steps2);
            if before is Ok {
                assert(after->Ok_0.0 =~= before->Ok_0.0.update(k, resized_dispatch(before->Ok_0.0[k], size)));
            }
        }
    } else {
        assert(resized(steps.drop_last(), i, size) =~= steps2.drop_last());
        assert(steps.drop_last().take(i) =~= steps.take(i));
        assert(steps2.last() == steps.last());
        lemma_resize_changes_only_its_pass(buffers, pipelines, steps.drop_last(), i, size);
        let before = sequence_steps(buffers, pipelines, steps);
        let after = sequence_steps(buffers, pipelines, steps2);
        if before is Ok {
            let pb = sequence_steps(buffers, pipelines, steps.drop_last())->Ok_0;
            let pa = sequence_steps(buffers, pipelines, steps2.drop_last())->Ok_0;
            assert(after->Ok_0.0 =~= before->Ok_0.0.update(k, resized_dispatch(before->Ok_0.0[k], size)));
        }
    }
}

/// A pipeline is requested once per shader: a second pass with the same
/// shader leaves the pipeline table as the first left it, so both passes
/// share the one compiled pipeline.
pub proof fn lemma_one_pipeline_per_shader(
    v: WorkerView,
    first_ticket: usize,
    second_ticket: usize,
    first: ComputePass,
    second: ComputePass,
)
    requires
        first.shader == second.shader,
        first.shader < usize::MAX,
    ensures
        ({
            let v1 = with_pass(v, first_ticket, first);
            let v2 = with_pass(v1, second_ticket, second);
            &&& entry(v1.pipelines, first.shader) is Some
            &&& v2.pipelines == v1.pipelines
            &&& entry(v.pipelines, first.shader) is None ==> entry(v2.pipelines, second.shader)
                == Some(PipelineSlot { cached_id: first_ticket, pipeline: None })
            &&& v2.steps == v.steps.push(Step::ComputePass(first)).push(Step::ComputePass(second))
        }),
{
}

/// No step names `name`: no pass binds it and no swap exchanges it.
pub open spec fn untouched(steps: Seq<Step>, name: usize) -> bool {
    forall|i: int|
        0 <= i < steps.len() ==> match #[trigger] steps[i] {
            Step::ComputePass(p) => !p.vars@.contains(name),
            Step::Swap(a, b) => a != name && b != name,
        }
}

spec fn size_of(bytes: Seq<u8>) -> int {
    (bytes.len() as u64) as int
}

proof fn lemma_trace_reads_back(
    trace: Seq<Map<u64, Seq<u8>>>,
    cmds: Seq<CommandModel>,
    a: u64,
    st: u64,
    bytes: Seq<u8>,
    i: int,
)
    requires
        executes(trace, cmds),
        0 <= i <= cmds.len(),
        bytes.len() <= u64::MAX,
        a != st,
        trace[0].contains_key(a),
        trace[0].contains_key(st),
        trace[0][a] == bytes,
        trace[0][st].len() == bytes.len(),
        forall|k: int| 0 <= k < cmds.len() ==> !writes(#[trigger] cmds[k], a),
        forall|k: int|
            0 <= k < cmds.len() && writes(#[trigger] cmds[k], st) ==> cmds[k] == (
            CommandModel::Copy { source: a, staging: st, size: bytes.len() as u64 }),
    ensures
        trace[i].contains_key(a),
        trace[i].contains_key(st),
        trace[i][a] == bytes,
        trace[i][st].len() == bytes.len(),
        (exists|j: int| 0 <= j < i && #[trigger] cmds[j] == (CommandModel::Copy {
            source: a,
            staging: st,
            size: bytes.len() as u64,
        })) ==> trace[i][st] == bytes,
    decreases i,
{
    if i > 0 {
        lemma_trace_reads_back(trace, cmds, a, st, bytes, i - 1);
        let c = cmds[i - 1];
        let copy = CommandModel::Copy { source: a, staging: st, size: bytes.len() as u64 };
        assert(command_effect(trace[i - 1], c, trace[i]));
        assert(!writes(c, a));
        if c == copy {
            assert(trace[i - 1][a].take(size_of(bytes)) =~= bytes);
            assert(trace[i - 1][st].skip(size_of(bytes)) =~= Seq::<u8>::empty());
            assert(trace[i][st] =~= bytes);
        } else {
            assert(!writes(c, st));
            if exists|j: int| 0 <= j < i && #[trigger] cmds[j] == copy {
                let j = choose|j: int| 0 <= j < i && #[trigger] cmds[j] == copy;
                assert(j < i - 1);
            }
        }
    }
}

proof fn lemma_bound_vars(buffers: Seq<Option<BufferSlot>>, vars: Seq<usize>)
    requires
        bind_vars(buffers, vars) is Ok,
    ensures
        bind_vars(buffers, vars)->Ok_0.len() == vars.len(),
        forall|j: int|
            0 <= j < vars.len() ==> registered(buffers, #[trigger] vars[j])
                && bind_vars(buffers, vars)->Ok_0[j] == allocation_of(buffers, vars[j]),
    decreases vars.len(),
{
    if vars.len() > 0 {
        lemma_bound_vars(buffers, vars.drop_last());
        assert forall|j: int| 0 <= j < vars.len() implies registered(buffers, #[trigger] vars[j])
            && bind_vars(buffers, vars)->Ok_0[j] == allocation_of(buffers, vars[j]) by {
            if j < vars.len() - 1 {
                assert(vars[j] == vars.drop_last()[j]);
            }
        }
    }
}

proof fn lemma_pass_spares(
    buffers: Seq<Option<BufferSlot>>,
    b1: Seq<Option<BufferSlot>>,
    vars: Seq<usize>,
    name: usize,
    st: u64,
)
    requires
        bind_vars(b1, vars) is Ok,
        !vars.contains(name),
        registered(buffers, name),
        registered(b1, name),
        b1[name as int] == buffers[name as int],
        entries_from(b1, buffers),
        distinct_allocations(b1),
        forall|m: int|
            0 <= m < buffers.len() && #[trigger] buffers[m] is Some ==> buffers[m]->Some_0.allocation
                != st,
    ensures
        !bind_vars(b1, vars)->Ok_0.contains(allocation_of(buffers, name)),
        !bind_vars(b1, vars)->Ok_0.contains(st),
{
    lemma_bound_vars(b1, vars);
    let bs = bind_vars(b1, vars)->Ok_0;
    let a = allocation_of(buffers, name);
    assert forall|j: int| 0 <= j < bs.len() implies bs[j] != a && bs[j] != st by {
        let n = vars[j];
        assert(registered(b1, vars[j]));
        assert(b1[n as int] is Some);
        if n == name {
            assert(vars.contains(name));
        }
        assert(b1[name as int] is Some);
        let m = choose|m: int| 0 <= m < buffers.len() && buffers[m] == b1[n as int];
        assert(buffers[m] is Some);
    }
}

proof fn lemma_untouched_prefix(steps: Seq<Step>, name: usize)
    requires
        steps.len() > 0,
        untouched(steps, name),
    ensures
        untouched(steps.drop_last(), name),
        match steps.last() {
            Step::ComputePass(p) => !p.vars@.contains(name),
            Step::Swap(a, b) => a != name && b != name,
        },
{
    assert(steps[steps.len() - 1] == steps.last());
    assert forall|i: int| 0 <= i < steps.drop_last().len() implies match #[trigger] steps.drop_last()[i] {
        Step::ComputePass(p) => !p.vars@.contains(name),
        Step::Swap(a, b) => a != name && b != name,
    } by {
        assert(steps.drop_last()[i] == steps[i]);
    }
}

/// A dispatch that changes neither `a` nor `st`.
spec fn spared(c: CommandModel, a: u64, st: u64) -> bool {
    c is Dispatch && !writes(c, a) && !writes(c, st)
}

#[verifier::spinoff_prover]
#[verifier::rlimit(60)]
proof fn lemma_steps_spare(
    buffers: Seq<Option<BufferSlot>>,
    pipelines: Seq<Option<PipelineSlot>>,
    steps: Seq<Step>,
    name: usize,
    st: u64,
)
    requires
        sequence_steps(buffers, pipelines, steps) is Ok,
        untouched(steps, name),
        registered(buffers, name),
        distinct_allocations(buffers),
        forall|m: int|
            0 <= m < buffers.len() && #[trigger] buffers[m] is Some ==> buffers[m]->Some_0.allocation
                != st,
    ensures
        ({
            let (cmds, b2) = sequence_steps(buffers, pipelines, steps)->Ok_0;
            &&& b2[name as int] == buffers[name as int]
            &&& forall|k: int|
                0 <= k < cmds.len() ==> spared(#[trigger] cmds[k], allocation_of(buffers, name), st)
        }),
    decreases steps.len(),
{
    if steps.len() > 0 {
        lemma_untouched_prefix(steps, name);
        lemma_steps_spare(buffers, pipelines, steps.drop_last(), name, st);
        lemma_sequence_keeps_names(buffers, pipelines, steps.drop_last(), 0);
        let (c1, b1) = sequence_steps(buffers, pipelines, steps.drop_last())->Ok_0;
        let (cmds, b2) = sequence_steps(buffers, pipelines, steps)->Ok_0;
        match steps.last() {
            Step::ComputePass(p) => {
                assert(!p.vars@.contains(name));
                assert(b1[name as int] is Some);
                lemma_pass_spares(buffers, b1, p.vars@, name, st);
                let c = pass_result(b1, pipelines, p)->Ok_0;
                assert(spared(c, allocation_of(buffers, name), st));
                assert(cmds =~= c1.push(c));
            },
            Step::Swap(x, y) => {
                assert(cmds =~= c1);
                assert(b2[name as int] == b1[name as int]);
            },
        }
    }
}

proof fn lemma_copies_spare(
    b: Seq<Option<BufferSlot>>,
    staging: Seq<Option<StagingBuffer>>,
    name: usize,
)
    requires
        staging.len() <= usize::MAX,
        registered_staging(staging, name),
        forall|n: usize| #[trigger] registered_staging(staging, n) ==> registered(b, n),
        distinct_staging(staging),
        staging_apart(b, staging),
    ensures
        ({
            let cmds = copy_commands(b, staging);
            let a = allocation_of(b, name);
            let st = staging[name as int]->Some_0.buffer;
            let copy = CommandModel::Copy { source: a, staging: st, size: staging[name as int]->Some_0.size };
            &&& forall|k: int|
                0 <= k < cmds.len() ==> #[trigger] cmds[k] is Copy && !writes(cmds[k], a) && (
                writes(cmds[k], st) ==> cmds[k] == copy)
            &&& cmds.contains(copy)
        }),
    decreases staging.len(),
{
    let cmds = copy_commands(b, staging);
    let a = allocation_of(b, name);
    let st = staging[name as int]->Some_0.buffer;
    let copy = CommandModel::Copy { source: a, staging: st, size: staging[name as int]->Some_0.size };
    let last = (staging.len() - 1) as usize;
    let rest = staging.drop_last();
    assert(forall|n: usize| #[trigger] registered_staging(rest, n) ==> registered_staging(staging, n));
    assert(distinct_staging(rest)) by {
        assert forall|i: int, j: int|
            0 <= i < rest.len() && 0 <= j < rest.len() && i != j && #[trigger] rest[i] is Some
                && #[trigger] rest[j] is Some implies rest[i]->Some_0.buffer != rest[j]->Some_0.buffer by {
            assert(staging[i] is Some && staging[j] is Some);
        }
    }
    assert(staging_apart(b, rest)) by {
        assert forall|i: int, j: int|
            0 <= i < rest.len() && 0 <= j < b.len() && #[trigger] rest[i] is Some && #[trigger] b[j] is Some
                implies rest[i]->Some_0.buffer != b[j]->Some_0.allocation by {
            assert(staging[i] is Some);
        }
    }
    assert(registered(b, name));
    assert(b[name as int] is Some);
    assert(staging.last() == staging[last as int]);
    if name == last {
        assert forall|i: int| 0 <= i < rest.len() && #[trigger] rest[i] is Some implies rest[i]->Some_0.buffer != st by {
            assert(staging[i] is Some);
        }
        assert(b[name as int]->Some_0.allocation == a);
        lemma_rest_copies(b, rest, a, st);
        assert(cmds.last() == copy);
        assert(cmds[cmds.len() - 1] == copy);
    } else {
        assert(registered_staging(rest, name));
        assert(rest[name as int] == staging[name as int]);
        lemma_copies_spare(b, rest, name);
        let rc = copy_commands(b, rest);
        let i = choose|i: int| 0 <= i < rc.len() && rc[i] == copy;
        match staging.last() {
            Some(s) => {
                assert(registered_staging(staging, last));
                assert(b[last as int] is Some);
                assert(staging[last as int] is Some);
                assert(s.buffer != st);
                assert(s.buffer != a);
                assert(cmds == rc.push(CommandModel::Copy {
                    source: allocation_of(b, last),
                    staging: s.buffer,
                    size: s.size,
                }));
                assert(cmds[i] == copy);
            },
            None => {
                assert(cmds[i] == copy);
            },
        }
    }
}

proof fn lemma_rest_copies(
    b: Seq<Option<BufferSlot>>,
    rest: Seq<Option<StagingBuffer>>,
    a: u64,
    st: u64,
)
    requires
        rest.len() <= usize::MAX,
        forall|n: usize| #[trigger] registered_staging(rest, n) ==> registered(b, n),
        forall|i: int| 0 <= i < rest.len() && #[trigger] rest[i] is Some ==> rest[i]->Some_0.buffer != st,
        staging_apart(b, rest),
        exists|j: int| 0 <= j < b.len() && #[trigger] b[j] is Some && b[j]->Some_0.allocation == a,
    ensures
        forall|k: int|
            0 <= k < copy_commands(b, rest).len() ==> #[trigger] copy_commands(b, rest)[k] is Copy
                && !writes(copy_commands(b, rest)[k], a) && !writes(copy_commands(b, rest)[k], st),
    decreases rest.len(),
{
    if rest.len() > 0 {
        let r2 = rest.drop_last();
        assert(forall|n: usize| #[trigger] registered_staging(r2, n) ==> registered_staging(rest, n));
        assert(staging_apart(b, r2)) by {
            assert forall|i: int, j: int|
                0 <= i < r2.len() && 0 <= j < b.len() && #[trigger] r2[i] is Some && #[trigger] b[j] is Some
                    implies r2[i]->Some_0.buffer != b[j]->Some_0.allocation by {
                assert(rest[i] is Some);
            }
        }
        assert forall|i: int| 0 <= i < r2.len() && #[trigger] r2[i] is Some implies r2[i]->Some_0.buffer != st by {
            assert(rest[i] is Some);
        }
        lemma_rest_copies(b, r2, a, st);
        let j = choose|j: int| 0 <= j < b.len() && #[trigger] b[j] is Some && b[j]->Some_0.allocation == a;
        let last = (rest.len() - 1) as usize;
        assert(rest.last() == rest[last as int]);
        match rest.last() {
            Some(s) => {
                assert(rest[last as int] is Some);
                assert(registered_staging(rest, last));
                assert(s.buffer != a);
            },
            None => {},
        }
    }
}

proof fn lemma_maps_only(staging: Seq<Option<StagingBuffer>>)
    ensures
        forall|j: int| 0 <= j < map_commands(staging).len() ==> #[trigger] map_commands(staging)[j] is MapRead,
    decreases staging.len(),
{
    if staging.len() > 0 {
        lemma_maps_only(staging.drop_last());
    }
}

/// A buffer that no step binds or swaps reads back, after a completed cycle,
/// as the bytes last written to it: a write that fills the buffer, then a run
/// of the device through the cycle's commands, leaves those bytes in its
/// staging buffer.
pub proof fn lemma_untouched_buffer_reads_back(
    v: WorkerView,
    name: usize,
    bytes: Seq<u8>,
    before: Map<u64, Seq<u8>>,
    trace: Seq<Map<u64, Seq<u8>>>,
)
    requires
        v.wf(),
        registered_staging(v.staging, name),
        untouched(v.steps, name),
        v.cycle() is Ok,
        bytes.len() == v.buffers[name as int]->Some_0.size,
        before.contains_key(allocation_of(v.buffers, name)),
        before[allocation_of(v.buffers, name)].len() == bytes.len(),
        before.contains_key(v.staging[name as int]->Some_0.buffer),
        before[v.staging[name as int]->Some_0.buffer].len() == bytes.len(),
        command_effect(
            before,
            CommandModel::Write { allocation: allocation_of(v.buffers, name), bytes },
            trace[0],
        ),
        executes(trace, v.cycle()->Ok_0.0),
    ensures
        trace.last()[v.staging[name as int]->Some_0.buffer] == bytes,
{
    let a = allocation_of(v.buffers, name);
    let st = v.staging[name as int]->Some_0.buffer;
    let size = bytes.len() as u64;
    let copy = CommandModel::Copy { source: a, staging: st, size };
    assert(registered(v.buffers, name));
    assert(v.buffers[name as int] is Some);
    assert(v.staging[name as int]->Some_0.size == bytes.len());
    assert(a != st);
    assert(trace[0][a] =~= bytes);
    let (steps_cmds, b2) = sequence_steps(v.buffers, v.pipelines, v.steps)->Ok_0;
    lemma_steps_spare(v.buffers, v.pipelines, v.steps, name, st);
    lemma_sequence_keeps_names(v.buffers, v.pipelines, v.steps, 0);
    assert forall|n: usize| #[trigger] registered_staging(v.staging, n) implies registered(b2, n) by {
        assert(registered(v.buffers, n));
        assert(v.buffers[n as int] is Some);
    }
    assert(staging_apart(b2, v.staging)) by {
        assert forall|i: int, j: int|
            0 <= i < v.staging.len() && 0 <= j < b2.len() && #[trigger] v.staging[i] is Some
                && #[trigger] b2[j] is Some implies v.staging[i]->Some_0.buffer
            != b2[j]->Some_0.allocation by {
            let m = choose|m: int| 0 <= m < v.buffers.len() && v.buffers[m] == b2[j];
            assert(v.buffers[m] is Some);
        }
    }
    lemma_copies_spare(b2, v.staging, name);
    lemma_unmaps_only(v.staging);
    lemma_maps_only(v.staging);
    let u = unmap_commands(v.staging);
    let c = copy_commands(b2, v.staging);
    let m = map_commands(v.staging);
    let cmds = v.cycle()->Ok_0.0;
    assert(cmds == u + steps_cmds + c + seq![CommandModel::Submit] + m + seq![
        CommandModel::NewEncoder,
    ]);
    assert forall|k: int| 0 <= k < cmds.len() implies !writes(#[trigger] cmds[k], a) && (writes(
        cmds[k],
        st,
    ) ==> cmds[k] == copy) by {
        if k < u.len() {
            assert(cmds[k] == u[k]);
        } else if k < u.len() + steps_cmds.len() {
            assert(cmds[k] == steps_cmds[k - u.len()]);
        } else if k < u.len() + steps_cmds.len() + c.len() {
            assert(cmds[k] == c[k - u.len() - steps_cmds.len()]);
        } else if k == u.len() + steps_cmds.len() + c.len() {
            assert(cmds[k] == CommandModel::Submit);
        } else if k < u.len() + steps_cmds.len() + c.len() + 1 + m.len() {
            assert(cmds[k] == m[k - u.len() - steps_cmds.len() - c.len() - 1]);
        } else {
            assert(cmds[k] == CommandModel::NewEncoder);
        }
    }
    let i = choose|i: int| 0 <= i < c.len() && c[i] == copy;
    assert(cmds[u.len() + steps_cmds.len() + i] == copy);
    lemma_trace_reads_back(trace, cmds, a, st, bytes, cmds.len() as int);
}

} // verus!
