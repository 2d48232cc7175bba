//! The buffer registry and the step sequence: what each compute pass and
//! swap records, in declaration order.
use vstd::prelude::*;

use crate::command::{commands_model, Command, CommandModel};
use crate::error::Error;

verus! {

/// How the device may use a buffer.
#[derive(Debug, Clone, Copy, PartialEq, Eq, Structural)]
pub enum BufferUsage {
    Uniform,
    Storage,
    ReadWriteStorage,
}

/// A registered buffer: the handle of its device allocation, its usage and
/// its size in bytes.
#[derive(Debug, Clone, Copy, PartialEq, Eq, Structural)]
pub struct BufferSlot {
    pub allocation: u64,
    pub usage: BufferUsage,
    pub size: u64,
}

/// The pipeline of one shader: the ticket of its compilation, and the
/// compiled pipeline once the cache reports it ready.
#[derive(Debug, Clone, Copy, PartialEq, Eq, Structural)]
pub struct PipelineSlot {
    pub cached_id: usize,
    pub pipeline: Option<u64>,
}

/// A compute pass: the buffers it binds, in binding order, the workgroup
/// count it is dispatched with, and the shader whose pipeline it runs.
#[derive(Debug)]
pub struct ComputePass {
    pub dispatch_size: [u32; 3],
    pub vars: Vec<usize>,
    pub shader: usize,
}

/// One step of a cycle.
#[derive(Debug)]
pub enum Step {
    ComputePass(ComputePass),
    /// Exchange the allocations behind two buffer names.
    Swap(usize, usize),
}

/// Whether `name` names a registered buffer.
pub open spec fn registered(buffers: Seq<Option<BufferSlot>>, name: usize) -> bool {
    name < buffers.len() && buffers[name as int] is Some
}

/// The allocation registered under `name`.
pub open spec fn allocation_of(buffers: Seq<Option<BufferSlot>>, name: usize) -> u64 {
    buffers[name as int]->Some_0.allocation
}

/// The allocations bound by a pass, or the first name that is not registered.
pub open spec fn bind_vars(buffers: Seq<Option<BufferSlot>>, vars: Seq<usize>) -> Result<
    Seq<u64>,
    Error,
>
    decreases vars.len(),
{
    if vars.len() == 0 {
        Ok(seq![])
    } else {
        match bind_vars(buffers, vars.drop_last()) {
            Err(e) => Err(e),
            Ok(b) => if registered(buffers, vars.last()) {
                Ok(b.push(allocation_of(buffers, vars.last())))
            } else {
                Err(Error::BufferNotFound(vars.last()))
            },
        }
    }
}

/// The dispatch that a pass records, or why it cannot be recorded.
pub open spec fn pass_result(
    buffers: Seq<Option<BufferSlot>>,
    pipelines: Seq<Option<PipelineSlot>>,
    pass: ComputePass,
) -> Result<CommandModel, Error> {
    match bind_vars(buffers, pass.vars@) {
        Err(e) => Err(e),
        Ok(bindings) => if pass.shader >= pipelines.len() || pipelines[pass.shader as int] is None {
            Err(Error::PipelinesEmpty)
        } else {
            match pipelines[pass.shader as int]->Some_0.pipeline {
                None => Err(Error::PipelineNotReady),
                Some(p) => Ok(
                    CommandModel::Dispatch {
                        pipeline: p,
                        bindings,
                        workgroups: pass.dispatch_size@,
                    },
                ),
            }
        },
    }
}

/// The registry with the entries of `a` and `b` exchanged.
pub open spec fn swap_buffers(buffers: Seq<Option<BufferSlot>>, a: usize, b: usize) -> Seq<
    Option<BufferSlot>,
> {
    buffers.update(a as int, buffers[b as int]).update(b as int, buffers[a as int])
}

/// What one step records, and the registry after it.
pub open spec fn step_result(
    buffers: Seq<Option<BufferSlot>>,
    pipelines: Seq<Option<PipelineSlot>>,
    step: Step,
) -> Result<(Seq<CommandModel>, Seq<Option<BufferSlot>>), Error> {
    match step {
        Step::ComputePass(pass) => match pass_result(buffers, pipelines, pass) {
            Err(e) => Err(e),
            Ok(c) => Ok((seq![c], buffers)),
        },
        Step::Swap(a, b) => if !registered(buffers, a) {
            Err(Error::BufferNotFound(a))
        } else if !registered(buffers, b) {
            Err(Error::BufferNotFound(b))
        } else {
            Ok((seq![], swap_buffers(buffers, a, b)))
        },
    }
}

/// What the steps record, in declaration order, and the registry after them;
/// or the error of the first step that fails.
pub open spec fn sequence_steps(
    buffers: Seq<Option<BufferSlot>>,
    pipelines: Seq<Option<PipelineSlot>>,
    steps: Seq<Step>,
) -> Result<(Seq<CommandModel>, Seq<Option<BufferSlot>>), Error>
    decreases steps.len(),
{
    if steps.len() == 0 {
        Ok((seq![], buffers))
    } else {
        match sequence_steps(buffers, pipelines, steps.drop_last()) {
            Err(e) => Err(e),
            Ok((cmds, b)) => match step_result(b, pipelines, steps.last()) {
                Err(e) => Err(e),
                Ok((c, b2)) => Ok((cmds + c, b2)),
            },
        }
    }
}

/// A failing prefix fails the whole list of names with the same error.
proof fn lemma_bind_vars_failed_prefix(buffers: Seq<Option<BufferSlot>>, vars: Seq<usize>, k: int)
    requires
        0 <= k <= vars.len(),
        bind_vars(buffers, vars.take(k)) is Err,
    ensures
        bind_vars(buffers, vars) == bind_vars(buffers, vars.take(k)),
    decreases vars.len(),
{
    if k == vars.len() {
        assert(vars.take(k) =~= vars);
    } else {
        assert(vars.drop_last().take(k) =~= vars.take(k));
        lemma_bind_vars_failed_prefix(buffers, vars.drop_last(), k);
    }
}

fn bind_pass_vars(buffers: &Vec<Option<BufferSlot>>, vars: &Vec<usize>) -> (r: Result<
    Vec<u64>,
    Error,
>)
    ensures
        match r {
            Ok(b) => bind_vars(buffers@, vars@) == Ok::<Seq<u64>, Error>(b@),
            Err(e) => bind_vars(buffers@, vars@) == Err::<Seq<u64>, Error>(e),
        },
{
    let mut out: Vec<u64> = Vec::new();
    let mut i: usize = 0;
    while i < vars.len()
        invariant
            i <= vars.len(),
            bind_vars(buffers@, vars@.take(i as int)) == Ok::<Seq<u64>, Error>(out@),
        decreases vars.len() - i,
    {
        let name = vars[i];
        assert(vars@.take(i + 1).drop_last() =~= vars@.take(i as int));
        if name < buffers.len() {
            match buffers[name] {
                Some(slot) => {
                    out.push(slot.allocation);
                },
                None => {
                    proof {
                        lemma_bind_vars_failed_prefix(buffers@, vars@, i + 1);
                    }
                    return Err(Error::BufferNotFound(name));
                },
            }
        } else {
            proof {
                lemma_bind_vars_failed_prefix(buffers@, vars@, i + 1);
            }
            return Err(Error::BufferNotFound(name));
        }
        i = i + 1;
    }
    assert(vars@.take(i as int) =~= vars@);
    Ok(out)
}

/// A failing prefix of the steps fails the whole sequence with the same error.
proof fn lemma_sequence_failed_prefix(
    buffers: Seq<Option<BufferSlot>>,
    pipelines: Seq<Option<PipelineSlot>>,
    steps: Seq<Step>,
    k: int,
)
    requires
        0 <= k <= steps.len(),
        sequence_steps(buffers, pipelines, steps.take(k)) is Err,
    ensures
        sequence_steps(buffers, pipelines, steps) == sequence_steps(buffers, pipelines, steps.take(k)),
    decreases steps.len(),
{
    if k == steps.len() {
        assert(steps.take(k) =~= steps);
    } else {
        assert(steps.drop_last().take(k) =~= steps.take(k));
        lemma_sequence_failed_prefix(buffers, pipelines, steps.drop_last(), k);
    }
}

/// `s` with `v` stored at `index`, grown with empty entries as needed.
pub open spec fn put<T>(s: Seq<Option<T>>, index: usize, v: T) -> Seq<Option<T>> {
    let grown = if index < s.len() {
        s
    } else {
        s + Seq::new((index + 1 - s.len()) as nat, |i: int| None)
    };
    grown.update(index as int, Some(v))
}

/// Whether a step is a compute pass running `shader`.
pub open spec fn pass_of(step: Step, shader: usize) -> bool {
    step is ComputePass && step->ComputePass_0.shader == shader
}

/// The entry registered under `index`, if any.
pub open spec fn entry<T>(s: Seq<Option<T>>, index: usize) -> Option<T> {
    if index < s.len() {
        s[index as int]
    } else {
        None
    }
}

/// No allocation is registered under two names.
pub open spec fn distinct_allocations(b: Seq<Option<BufferSlot>>) -> bool {
    forall|i: int, j: int|
        0 <= i < b.len() && 0 <= j < b.len() && i != j && #[trigger] b[i] is Some
            && #[trigger] b[j] is Some ==> b[i]->Some_0.allocation != b[j]->Some_0.allocation
}

/// Every entry of `b2` is an entry of `b`.
pub open spec fn entries_from(b2: Seq<Option<BufferSlot>>, b: Seq<Option<BufferSlot>>) -> bool {
    forall|n: int|
        0 <= n < b2.len() && #[trigger] b2[n] is Some ==> exists|m: int|
            0 <= m < b.len() && b[m] == b2[n]
}

fn copy_slots(v: &Vec<Option<BufferSlot>>) -> (r: Vec<Option<BufferSlot>>)
    ensures
        r@ == v@,
{
    let mut r: Vec<Option<BufferSlot>> = Vec::new();
    let mut i: usize = 0;
    while i < v.len()
        invariant
            i <= v.len(),
            r@ == v@.take(i as int),
        decreases v.len() - i,
    {
        r.push(v[i]);
        i = i + 1;
        assert(r@ =~= v@.take(i as int));
    }
    assert(v@.take(i as int) =~= v@);
    r
}

/// Every allocation in the registry is below `bound`.
pub open spec fn allocations_below(buffers: Seq<Option<BufferSlot>>, bound: u64) -> bool {
    forall|n: int|
        0 <= n < buffers.len() && #[trigger] buffers[n] is Some ==> buffers[n]->Some_0.allocation
            < bound
}

/// The same names are registered in both registries.
pub open spec fn same_names(b1: Seq<Option<BufferSlot>>, b2: Seq<Option<BufferSlot>>) -> bool {
    &&& b1.len() == b2.len()
    &&& forall|n: int| 0 <= n < b1.len() ==> (#[trigger] b1[n] is Some <==> b2[n] is Some)
}

proof fn lemma_swap_keeps_entries(b: Seq<Option<BufferSlot>>, x: usize, y: usize, bound: u64)
    requires
        registered(b, x),
        registered(b, y),
    ensures
        same_names(b, swap_buffers(b, x, y)),
        entries_from(swap_buffers(b, x, y), b),
        distinct_allocations(b) ==> distinct_allocations(swap_buffers(b, x, y)),
        allocations_below(b, bound) ==> allocations_below(swap_buffers(b, x, y), bound),
{
    let b2 = swap_buffers(b, x, y);
    assert forall|n: int| 0 <= n < b2.len() && #[trigger] b2[n] is Some implies exists|m: int|
        0 <= m < b.len() && b[m] == b2[n] by {
        if n == y {
            assert(b[x as int] == b2[n]);
        } else if n == x {
            assert(b[y as int] == b2[n]);
        } else {
            assert(b[n] == b2[n]);
        }
    }
}

proof fn lemma_entries_from_trans(
    b3: Seq<Option<BufferSlot>>,
    b2: Seq<Option<BufferSlot>>,
    b: Seq<Option<BufferSlot>>,
)
    requires
        entries_from(b3, b2),
        entries_from(b2, b),
    ensures
        entries_from(b3, b),
{
    assert forall|n: int| 0 <= n < b3.len() && #[trigger] b3[n] is Some implies exists|m: int|
        0 <= m < b.len() && b[m] == b3[n] by {
        let k = choose|k: int| 0 <= k < b2.len() && b2[k] == b3[n];
        assert(b2[k] is Some);
    }
}

/// Steps only exchange registry entries: the registered names stay, every
/// entry comes from the registry before them, and distinct allocations and
/// any bound on them are kept.
pub(crate) proof fn lemma_sequence_keeps_names(
    buffers: Seq<Option<BufferSlot>>,
    pipelines: Seq<Option<PipelineSlot>>,
    steps: Seq<Step>,
    bound: u64,
)
    requires
        sequence_steps(buffers, pipelines, steps) is Ok,
    ensures
        same_names(buffers, sequence_steps(buffers, pipelines, steps)->Ok_0.1),
        entries_from(sequence_steps(buffers, pipelines, steps)->Ok_0.1, buffers),
        distinct_allocations(buffers) ==> distinct_allocations(
            sequence_steps(buffers, pipelines, steps)->Ok_0.1,
        ),
        allocations_below(buffers, bound) ==> allocations_below(
            sequence_steps(buffers, pipelines, steps)->Ok_0.1,
            bound,
        ),
    decreases steps.len(),
{
    if steps.len() == 0 {
        assert forall|n: int| 0 <= n < buffers.len() && #[trigger] buffers[n] is Some implies exists|m: int|
            0 <= m < buffers.len() && buffers[m] == buffers[n] by {}
    } else {
        lemma_sequence_keeps_names(buffers, pipelines, steps.drop_last(), bound);
        let b1 = sequence_steps(buffers, pipelines, steps.drop_last())->Ok_0.1;
        match steps.last() {
            Step::Swap(x, y) => {
                lemma_swap_keeps_entries(b1, x, y, bound);
                lemma_entries_from_trans(swap_buffers(b1, x, y), b1, buffers);
            },
            Step::ComputePass(_) => {},
        }
    }
}

pub(crate) fn put_entry<T: Copy>(v: &mut Vec<Option<T>>, index: usize, x: T)
    requires
        index < usize::MAX,
    ensures
        final(v)@ == put(old(v)@, index, x),
{
    let ghost grown = if index < old(v)@.len() {
        old(v)@
    } else {
        old(v)@ + Seq::new((index + 1 - old(v)@.len()) as nat, |i: int| None::<T>)
    };
    if v.len() <= index {
        while v.len() <= index
            invariant
                index < usize::MAX,
                old(v)@.len() <= v@.len() <= index + 1,
                v@ =~= old(v)@ + Seq::new((v@.len() - old(v)@.len()) as nat, |i: int| None::<T>),
            decreases index + 1 - v.len(),
        {
            v.push(None);
        }
    }
    assert(v@ =~= grown);
    v.set(index, Some(x));
}

/// Record the steps in declaration order against a copy of the registry.
pub(crate) fn record_steps(
    buffers: &Vec<Option<BufferSlot>>,
    pipelines: &Vec<Option<PipelineSlot>>,
    steps: &Vec<Step>,
) -> (r: Result<(Vec<Command>, Vec<Option<BufferSlot>>), Error>)
    ensures
        match r {
            Ok((cmds, b)) => sequence_steps(buffers@, pipelines@, steps@)
                == Ok::<_, Error>((commands_model(cmds@), b@)),
            Err(e) => sequence_steps(buffers@, pipelines@, steps@) == Err::<
                (Seq<CommandModel>, Seq<Option<BufferSlot>>),
                Error,
            >(e),
        },
{
    let mut registry = copy_slots(buffers);
    let mut cmds: Vec<Command> = Vec::new();
    let mut i: usize = 0;
    assert(steps@.take(0) =~= Seq::<Step>::empty());
    assert(commands_model(cmds@) =~= Seq::<CommandModel>::empty());
    while i < steps.len()
        invariant
            i <= steps.len(),
            sequence_steps(buffers@, pipelines@, steps@.take(i as int)) == Ok::<
                _,
                Error,
            >((commands_model(cmds@), registry@)),
        decreases steps.len() - i,
    {
        assert(steps@.take(i + 1).drop_last() =~= steps@.take(i as int));
        assert(steps@.take(i + 1).last() == steps@[i as int]);
        let ghost before = cmds@;
        match &steps[i] {
            Step::ComputePass(pass) => {
                let bindings = match bind_pass_vars(&registry, &pass.vars) {
                    Ok(b) => b,
                    Err(e) => {
                        proof {
                            lemma_sequence_failed_prefix(
                                buffers@,
                                pipelines@,
                                steps@,
                                i + 1,
                            );
                        }
                        return Err(e);
                    },
                };
                if pass.shader >= pipelines.len() || pipelines[pass.shader].is_none() {
                    proof {
                        lemma_sequence_failed_prefix(
                            buffers@,
                            pipelines@,
                            steps@,
                            i + 1,
                        );
                    }
                    return Err(Error::PipelinesEmpty);
                }
                let pipeline = match pipelines[pass.shader] {
                    Some(slot) => slot.pipeline,
                    None => None,
                };
                match pipeline {
                    Some(p) => {
                        cmds.push(
                            Command::Dispatch {
                                pipeline: p,
                                bindings,
                                workgroups: pass.dispatch_size,
                            },
                        );
                        assert(commands_model(cmds@) =~= commands_model(before) + seq![
                            cmds@.last()@,
                        ]);
                        assert(pass_result(registry@, pipelines@, *pass) == Ok::<
                            CommandModel,
                            Error,
                        >(cmds@.last()@));
                    },
                    None => {
                        proof {
                            lemma_sequence_failed_prefix(
                                buffers@,
                                pipelines@,
                                steps@,
                                i + 1,
                            );
                        }
                        return Err(Error::PipelineNotReady);
                    },
                }
            },
            Step::Swap(a, b) => {
                let ghost old_registry = registry@;
                let a = *a;
                let b = *b;
                if a >= registry.len() || registry[a].is_none() {
                    proof {
                        lemma_sequence_failed_prefix(
                            buffers@,
                            pipelines@,
                            steps@,
                            i + 1,
                        );
                    }
                    return Err(Error::BufferNotFound(a));
                }
                if b >= registry.len() || registry[b].is_none() {
                    proof {
                        lemma_sequence_failed_prefix(
                            buffers@,
                            pipelines@,
                            steps@,
                            i + 1,
                        );
                    }
                    return Err(Error::BufferNotFound(b));
                }
                let slot_a = registry[a];
                let slot_b = registry[b];
                registry.set(a, slot_b);
                registry.set(b, slot_a);
                assert(commands_model(cmds@) =~= commands_model(before) + seq![]);
                assert(registry@ =~= swap_buffers(old_registry, a, b));
            },
        }
        i = i + 1;
    }
    assert(steps@.take(i as int) =~= steps@);
    Ok((cmds, registry))
}

} // verus!
