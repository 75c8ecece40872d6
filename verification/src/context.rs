//! The GPU context that Merkle tree constructions share: whether it is there yet, and its staging
//! buffer for reading results back.
use crate::gpu::MAX_BUFFER_SIZE;
use vstd::prelude::*;

verus! {

/// What the host remembers of a device that is set up.
#[derive(Debug)]
pub struct MerkleTreeGpuContext {
    /// A staging buffer is there.
    pub readback_staging: bool,
    /// Bytes that the staging buffer holds; zero where there is none.
    pub readback_capacity: u64,
    /// A readback is under way.
    pub readback_busy: bool,
}

impl MerkleTreeGpuContext {
    /// Without a staging buffer there is no capacity.
    pub open spec fn wf(self) -> bool {
        !self.readback_staging ==> self.readback_capacity == 0
    }

    /// A context without a staging buffer and without a readback under way.
    pub fn new() -> (context: MerkleTreeGpuContext)
        ensures
            context.wf(),
            !context.readback_staging,
            context.readback_capacity == 0,
            !context.readback_busy,
    {
        MerkleTreeGpuContext {
            readback_staging: false,
            readback_capacity: 0,
            readback_busy: false,
        }
    }

    /// A readback of `size` bytes needs a new staging buffer.
    pub open spec fn needs_staging(self, size: u64) -> bool {
        !self.readback_staging || self.readback_capacity < size
    }

    /// The context after a staging buffer for `size` bytes was asked for: the one that is there
    /// stays where it is large enough, else one of just `size` bytes takes its place.
    pub open spec fn with_staging(self, size: u64) -> MerkleTreeGpuContext {
        MerkleTreeGpuContext {
            readback_staging: true,
            readback_capacity: if self.needs_staging(size) {
                size
            } else {
                self.readback_capacity
            },
            readback_busy: self.readback_busy,
        }
    }

    /// Settles which staging buffer a readback of `size` bytes uses. Returns whether a new one of
    /// that size has to be made.
    pub fn get_or_make_staging(&mut self, size: u64) -> (need_new: bool)
        ensures
            need_new == old(self).needs_staging(size),
            *final(self) == old(self).with_staging(size),
    {
        let need_new = !self.readback_staging || self.readback_capacity < size;
        if need_new {
            self.readback_staging = true;
            self.readback_capacity = size;
        }
        need_new
    }

    /// The staging buffer always holds the readback that it was asked for, it never shrinks, and
    /// asking again for no more keeps it.
    pub proof fn lemma_staging_suffices(self, size: u64, less: u64)
        requires
            self.wf(),
            less <= size,
        ensures
            self.with_staging(size).wf(),
            self.with_staging(size).readback_capacity >= size,
            self.with_staging(size).readback_capacity >= self.readback_capacity,
            !self.with_staging(size).needs_staging(less),
            self.with_staging(size).with_staging(less) == self.with_staging(size),
    {
    }

    /// A staging buffer is made just where none is there that holds the readback. Its size is then
    /// the greater of what was asked for and what was there, and no readback begins or ends.
    pub proof fn lemma_staging_exact(self, size: u64)
        requires
            self.wf(),
        ensures
            !self.needs_staging(size) <==> self.readback_staging && size <= self.readback_capacity,
            self.with_staging(size).readback_staging,
            size >= self.readback_capacity ==> self.with_staging(size).readback_capacity == size,
            size <= self.readback_capacity ==> self.with_staging(size).readback_capacity
                == self.readback_capacity,
            self.with_staging(size).readback_busy == self.readback_busy,
    {
    }
}

/// The place of the one context.
#[derive(Debug)]
pub struct GpuContextCell {
    pub context: Option<MerkleTreeGpuContext>,
}

/// Limits to ask of the device.
#[derive(Clone, Copy, Debug, PartialEq, Eq, Structural)]
pub struct DeviceRequest {
    pub max_buffer_size: u64,
    pub max_storage_buffer_binding_size: u64,
}

/// What initialization has to do.
#[derive(Clone, Copy, Debug, PartialEq, Eq, Structural)]
pub enum InitStep {
    /// Nothing: the context is there.
    AlreadyDone,
    /// Ask for a device with these limits and set the context up on it.
    CreateDevice(DeviceRequest),
}

/// The context was set up twice at the same time.
#[derive(Clone, Copy, Debug, PartialEq, Eq, Structural)]
pub struct AlreadyInitialized;

impl AlreadyInitialized {
    /// What the error says.
    pub fn message(&self) -> (message: &'static str)
        ensures
            message@ == "GPU context already initialized"@,
    {
        "GPU context already initialized"
    }
}

impl GpuContextCell {
    /// No context yet.
    pub fn empty() -> (cell: GpuContextCell)
        ensures
            cell.context is None,
    {
        GpuContextCell { context: None }
    }

    /// Puts the context in its place, unless there is one already; then that one stays.
    pub fn install(&mut self, context: MerkleTreeGpuContext) -> (result: Result<
        (),
        AlreadyInitialized,
    >)
        ensures
            old(self).context is None ==> result is Ok && final(self).context == Some(context),
            old(self).context is Some ==> result == Err::<(), AlreadyInitialized>(
                AlreadyInitialized,
            ) && *final(self) == *old(self),
    {
        match self.context {
            Some(_) => Err(AlreadyInitialized),
            None => {
                self.context = Some(context);
                Ok(())
            },
        }
    }
}

/// The context is ready for use.
pub fn is_initialized(cell: &GpuContextCell) -> (ready: bool)
    ensures
        ready == (cell.context is Some),
{
    match &cell.context {
        Some(_) => true,
        None => false,
    }
}

/// What initialization has to do; once the context is there, nothing.
pub fn initialize(cell: &GpuContextCell) -> (step: InitStep)
    ensures
        cell.context is Some ==> step == InitStep::AlreadyDone,
        cell.context is None ==> step == InitStep::CreateDevice(
            DeviceRequest {
                max_buffer_size: MAX_BUFFER_SIZE,
                max_storage_buffer_binding_size: MAX_BUFFER_SIZE,
            },
        ),
{
    if is_initialized(cell) {
        return InitStep::AlreadyDone;
    }
    InitStep::CreateDevice(
        DeviceRequest {
            max_buffer_size: MAX_BUFFER_SIZE,
            max_storage_buffer_binding_size: MAX_BUFFER_SIZE,
        },
    )
}

} // verus!
