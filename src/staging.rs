//! Staging buffers: the readback protocol that copies results out, maps
//! them for the host, and unmaps them before they are reused.
use vstd::prelude::*;

use crate::command::{commands_model, Command, CommandModel};
use crate::steps::{allocation_of, entry, registered, BufferSlot, BufferUsage};

verus! {

/// A host-readable buffer paired with the read/write buffer of the same name.
#[derive(Debug, Clone, Copy, PartialEq, Eq, Structural)]
pub struct StagingBuffer {
    /// Whether the buffer is mapped into host memory (or a mapping was requested).
    pub mapped: bool,
    pub buffer: u64,
    /// The size of the staging buffer in bytes; a readback copies this much.
    pub size: u64,
}

/// Unmap requests for every staging buffer that is still mapped, in name order.
pub open spec fn unmap_commands(staging: Seq<Option<StagingBuffer>>) -> Seq<CommandModel>
    decreases staging.len(),
{
    if staging.len() == 0 {
        seq![]
    } else {
        let rest = unmap_commands(staging.drop_last());
        match staging.last() {
            Some(s) => if s.mapped {
                rest.push(CommandModel::Unmap { staging: s.buffer })
            } else {
                rest
            },
            None => rest,
        }
    }
}

/// A copy of each read/write buffer into its staging buffer, as many bytes as
/// the staging buffer holds, in name order.
pub open spec fn copy_commands(
    buffers: Seq<Option<BufferSlot>>,
    staging: Seq<Option<StagingBuffer>>,
) -> Seq<CommandModel>
    decreases staging.len(),
{
    if staging.len() == 0 {
        seq![]
    } else {
        let rest = copy_commands(buffers, staging.drop_last());
        let name = (staging.len() - 1) as usize;
        match staging.last() {
            Some(s) => rest.push(
                CommandModel::Copy {
                    source: allocation_of(buffers, name),
                    staging: s.buffer,
                    size: s.size,
                },
            ),
            None => rest,
        }
    }
}

/// A map request for each staging buffer, in name order.
pub open spec fn map_commands(staging: Seq<Option<StagingBuffer>>) -> Seq<CommandModel>
    decreases staging.len(),
{
    if staging.len() == 0 {
        seq![]
    } else {
        let rest = map_commands(staging.drop_last());
        match staging.last() {
            Some(s) => rest.push(CommandModel::MapRead { staging: s.buffer }),
            None => rest,
        }
    }
}

/// The staging buffers with their mapped flag set to `mapped`.
pub open spec fn with_mapped(staging: Seq<Option<StagingBuffer>>, mapped: bool) -> Seq<
    Option<StagingBuffer>,
> {
    staging.map_values(
        |o: Option<StagingBuffer>|
            match o {
                Some(s) => Some(StagingBuffer { mapped, ..s }),
                None => None,
            },
    )
}

/// No staging allocation is paired with two names.
pub open spec fn distinct_staging(s: Seq<Option<StagingBuffer>>) -> bool {
    forall|i: int, j: int|
        0 <= i < s.len() && 0 <= j < s.len() && i != j && #[trigger] s[i] is Some
            && #[trigger] s[j] is Some ==> s[i]->Some_0.buffer != s[j]->Some_0.buffer
}

/// Staging allocations are never registered as buffers.
pub open spec fn staging_apart(b: Seq<Option<BufferSlot>>, s: Seq<Option<StagingBuffer>>) -> bool {
    forall|i: int, j: int|
        0 <= i < s.len() && 0 <= j < b.len() && #[trigger] s[i] is Some && #[trigger] b[j] is Some
            ==> s[i]->Some_0.buffer != b[j]->Some_0.allocation
}

/// Every staging buffer is paired with a read/write buffer of its own size
/// under the same name.
pub open spec fn paired(b: Seq<Option<BufferSlot>>, s: Seq<Option<StagingBuffer>>) -> bool {
    forall|n: usize| #[trigger]
        registered_staging(s, n) ==> registered(b, n) && b[n as int]->Some_0.usage
            == BufferUsage::ReadWriteStorage && b[n as int]->Some_0.size == s[n as int]->Some_0.size
}

/// Whether a buffer of `usage` and `size` registered under `name` can back
/// the staging buffer of that name, if there is one.
pub open spec fn keeps_pairing(
    s: Seq<Option<StagingBuffer>>,
    name: usize,
    usage: BufferUsage,
    size: u64,
) -> bool {
    match entry(s, name) {
        Some(st) => usage == BufferUsage::ReadWriteStorage && st.size == size,
        None => true,
    }
}

/// Whether a staging buffer is registered under `name`.
pub open spec fn registered_staging(staging: Seq<Option<StagingBuffer>>, name: usize) -> bool {
    name < staging.len() && staging[name as int] is Some
}

pub(crate) fn unmap_all_staging(staging: &Vec<Option<StagingBuffer>>) -> (r: (
    Vec<Command>,
    Vec<Option<StagingBuffer>>,
))
    ensures
        commands_model(r.0@) == unmap_commands(staging@),
        r.1@ == with_mapped(staging@, false),
{
    let mut cmds: Vec<Command> = Vec::new();
    let mut out: Vec<Option<StagingBuffer>> = Vec::new();
    let mut i: usize = 0;
    assert(commands_model(cmds@) =~= unmap_commands(staging@.take(0)));
    assert(out@ =~= with_mapped(staging@.take(0), false));
    while i < staging.len()
        invariant
            i <= staging.len(),
            commands_model(cmds@) == unmap_commands(staging@.take(i as int)),
            out@ == with_mapped(staging@.take(i as int), false),
        decreases staging.len() - i,
    {
        assert(staging@.take(i + 1).drop_last() =~= staging@.take(i as int));
        let ghost before = cmds@;
        match staging[i] {
            Some(s) => {
                if s.mapped {
                    cmds.push(Command::Unmap { staging: s.buffer });
                    assert(commands_model(cmds@) =~= commands_model(before).push(
                        CommandModel::Unmap { staging: s.buffer },
                    ));
                }
                out.push(Some(StagingBuffer { mapped: false, ..s }));
            },
            None => {
                out.push(None);
            },
        }
        i = i + 1;
        assert(out@ =~= with_mapped(staging@.take(i as int), false));
    }
    assert(staging@.take(i as int) =~= staging@);
    (cmds, out)
}

pub(crate) fn map_all_staging(staging: &Vec<Option<StagingBuffer>>) -> (r: (
    Vec<Command>,
    Vec<Option<StagingBuffer>>,
))
    ensures
        commands_model(r.0@) == map_commands(staging@),
        r.1@ == with_mapped(staging@, true),
{
    let mut cmds: Vec<Command> = Vec::new();
    let mut out: Vec<Option<StagingBuffer>> = Vec::new();
    let mut i: usize = 0;
    assert(commands_model(cmds@) =~= map_commands(staging@.take(0)));
    assert(out@ =~= with_mapped(staging@.take(0), true));
    while i < staging.len()
        invariant
            i <= staging.len(),
            commands_model(cmds@) == map_commands(staging@.take(i as int)),
            out@ == with_mapped(staging@.take(i as int), true),
        decreases staging.len() - i,
    {
        assert(staging@.take(i + 1).drop_last() =~= staging@.take(i as int));
        let ghost before = cmds@;
        match staging[i] {
            Some(s) => {
                cmds.push(Command::MapRead { staging: s.buffer });
                assert(commands_model(cmds@) =~= commands_model(before).push(
                    CommandModel::MapRead { staging: s.buffer },
                ));
                out.push(Some(StagingBuffer { mapped: true, ..s }));
            },
            None => {
                out.push(None);
            },
        }
        i = i + 1;
        assert(out@ =~= with_mapped(staging@.take(i as int), true));
    }
    assert(staging@.take(i as int) =~= staging@);
    (cmds, out)
}

pub(crate) fn copy_staging(buffers: &Vec<Option<BufferSlot>>, staging: &Vec<Option<StagingBuffer>>) -> (r: Vec<
    Command,
>)
    requires
        forall|n: usize| #[trigger]
            registered_staging(staging@, n) ==> registered(buffers@, n),
    ensures
        commands_model(r@) == copy_commands(buffers@, staging@),
{
    let mut cmds: Vec<Command> = Vec::new();
    let mut i: usize = 0;
    assert(commands_model(cmds@) =~= copy_commands(buffers@, staging@.take(0)));
    while i < staging.len()
        invariant
            i <= staging.len(),
            forall|n: usize| #[trigger]
                registered_staging(staging@, n) ==> registered(buffers@, n),
            commands_model(cmds@) == copy_commands(buffers@, staging@.take(i as int)),
        decreases staging.len() - i,
    {
        assert(staging@.take(i + 1).drop_last() =~= staging@.take(i as int));
        let ghost before = cmds@;
        match staging[i] {
            Some(s) => {
                assert(registered_staging(staging@, i));
                match buffers[i] {
                    Some(slot) => {
                        let c = Command::Copy {
                            source: slot.allocation,
                            staging: s.buffer,
                            size: s.size,
                        };
                        cmds.push(c);
                        assert(commands_model(cmds@) =~= commands_model(before).push(c@));
                    },
                    None => {},
                }
            },
            None => {},
        }
        i = i + 1;
    }
    assert(staging@.take(i as int) =~= staging@);
    cmds
}

/// Setting the mapped flags keeps the pairing of staging buffers and their
/// distinctness.
pub(crate) proof fn lemma_remapped_keeps_pairing(
    b: Seq<Option<BufferSlot>>,
    s: Seq<Option<StagingBuffer>>,
    mapped: bool,
)
    ensures
        paired(b, s) ==> paired(b, with_mapped(s, mapped)),
        distinct_staging(s) ==> distinct_staging(with_mapped(s, mapped)),
        staging_apart(b, s) ==> staging_apart(b, with_mapped(s, mapped)),
{
    let m = with_mapped(s, mapped);
    assert forall|n: usize| #[trigger] registered_staging(m, n) implies registered_staging(s, n) && m[n as int]->Some_0.size == s[n as int]->Some_0.size by {}
}

/// Whether every staging buffer is paired with a read/write buffer of its size.
pub(crate) fn check_paired(
    buffers: &Vec<Option<BufferSlot>>,
    staging: &Vec<Option<StagingBuffer>>,
) -> (r: bool)
    ensures
        r == paired(buffers@, staging@),
{
    let mut i: usize = 0;
    while i < staging.len()
        invariant
            i <= staging.len(),
            forall|n: usize|
                n < i && #[trigger] registered_staging(staging@, n) ==> registered(buffers@, n)
                    && buffers@[n as int]->Some_0.usage == BufferUsage::ReadWriteStorage
                    && buffers@[n as int]->Some_0.size == staging@[n as int]->Some_0.size,
        decreases staging.len() - i,
    {
        match staging[i] {
            Some(s) => {
                let fits = i < buffers.len() && match buffers[i] {
                    Some(slot) => slot.usage == BufferUsage::ReadWriteStorage && slot.size == s.size,
                    None => false,
                };
                if !fits {
                    assert(registered_staging(staging@, i));
                    return false;
                }
            },
            None => {},
        }
        i = i + 1;
    }
    true
}

} // verus!
