//! The device work that the engine hands to the host, and a model of what
//! that work may do to device memory.
use vstd::prelude::*;

verus! {

/// Work that the host performs on the device, in the order it is returned.
#[derive(Debug, Clone)]
pub enum Command {
    /// Unmap a staging buffer from host memory.
    Unmap { staging: u64 },
    /// Record a compute pass: `pipeline` over `bindings`, where a buffer's
    /// binding index is its position, dispatched with `workgroups`.
    Dispatch { pipeline: u64, bindings: Vec<u64>, workgroups: [u32; 3] },
    /// Record a copy of the first `size` bytes of `source` into `staging`.
    Copy { source: u64, staging: u64, size: u64 },
    /// Finish the current command encoder and submit it to the queue.
    Submit,
    /// Request an asynchronous host mapping of a staging buffer for reading.
    MapRead { staging: u64 },
    /// Create a fresh command encoder for the next cycle.
    NewEncoder,
    /// Queue a write of `bytes` at the start of a buffer.
    Write { allocation: u64, bytes: Vec<u8> },
}

/// The mathematical content of a [`Command`].
pub enum CommandModel {
    Unmap { staging: u64 },
    Dispatch { pipeline: u64, bindings: Seq<u64>, workgroups: Seq<u32> },
    Copy { source: u64, staging: u64, size: u64 },
    Submit,
    MapRead { staging: u64 },
    NewEncoder,
    Write { allocation: u64, bytes: Seq<u8> },
}

impl View for Command {
    type V = CommandModel;

    open spec fn view(&self) -> CommandModel {
        match *self {
            Command::Unmap { staging } => CommandModel::Unmap { staging },
            Command::Dispatch { pipeline, bindings, workgroups } => CommandModel::Dispatch {
                pipeline,
                bindings: bindings@,
                workgroups: workgroups@,
            },
            Command::Copy { source, staging, size } => CommandModel::Copy { source, staging, size },
            Command::Submit => CommandModel::Submit,
            Command::MapRead { staging } => CommandModel::MapRead { staging },
            Command::NewEncoder => CommandModel::NewEncoder,
            Command::Write { allocation, bytes } => CommandModel::Write {
                allocation,
                bytes: bytes@,
            },
        }
    }
}

/// The models of a list of commands.
pub open spec fn commands_model(cmds: Seq<Command>) -> Seq<CommandModel> {
    cmds.map_values(|c: Command| c@)
}

/// Whether a command may change the bytes of allocation `x`.
pub open spec fn writes(c: CommandModel, x: u64) -> bool {
    match c {
        CommandModel::Dispatch { bindings, .. } => bindings.contains(x),
        CommandModel::Copy { staging, .. } => staging == x,
        CommandModel::Write { allocation, .. } => allocation == x,
        _ => false,
    }
}

/// What a command may do to device memory, the bytes of each allocation:
/// a dispatch may change only the buffers it binds; a copy puts the first
/// `size` bytes of its source at the start of the staging buffer; a write
/// puts its bytes at the start of the buffer; the others leave memory as it is.
pub open spec fn command_effect(
    mem: Map<u64, Seq<u8>>,
    c: CommandModel,
    next: Map<u64, Seq<u8>>,
) -> bool {
    match c {
        CommandModel::Dispatch { bindings, .. } => next.dom() == mem.dom() && forall|x: u64|
            #[trigger] mem.contains_key(x) && !bindings.contains(x) ==> next[x] == mem[x],
        CommandModel::Copy { source, staging, size } => next == mem.insert(
            staging,
            mem[source].take(size as int) + mem[staging].skip(size as int),
        ),
        CommandModel::Write { allocation, bytes } => next == mem.insert(
            allocation,
            bytes + mem[allocation].skip(bytes.len() as int),
        ),
        _ => next == mem,
    }
}

/// `trace` is a run of the device through `cmds`: one memory before each
/// command and one after the last.
pub open spec fn executes(trace: Seq<Map<u64, Seq<u8>>>, cmds: Seq<CommandModel>) -> bool {
    &&& trace.len() == cmds.len() + 1
    &&& forall|i: int| 0 <= i < cmds.len() ==> command_effect(trace[i], #[trigger] cmds[i], trace[i + 1])
}

} // verus!
