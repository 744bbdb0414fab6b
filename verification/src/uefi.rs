//! The firmware's tables and the hand-over from firmware to hypervisor.
//!
//! As with the processor, the library never calls the firmware itself: the
//! loader's procedures say what to ask of it, and go on with what it answers.

use crate::serial::LogRecord;
use vstd::prelude::*;

verus! {

/// A handle of the firmware.
pub type EfiHandle = u64;

/// What a call of the firmware returns.
pub type EfiStatus = u64;

pub const EFI_SUCCESS: EfiStatus = 0;

pub const EFI_INVALID_PARAMETER: EfiStatus = 0x8000_0000_0000_0002;

pub const EFI_SYSTEM_TABLE_SIGNATURE: u64 = 0x5453_5953_2049_4249;

pub const EFI_BOOT_SERVICES_SIGNATURE: u64 = 0x5652_4553_544f_4f42;

/// Bytes in the system table.
pub const SYSTEM_TABLE_BYTES: u32 = 120;

/// Bytes in the boot services up to and with the call that leaves them.
pub const BOOT_SERVICES_BYTES: u32 = 240;

/// Bytes in a memory descriptor as this version of the interface defines it.
pub const DESCRIPTOR_BYTES: usize = 40;

/// Pages of the core's stack: one guard, and sixteen for use.
pub const STACK_PAGES: usize = 17;

pub const BOOTSTRAP_ARENA_PAGES: usize = 1024;

/// Bytes that the memory map may take.
pub const MEMORY_MAP_CAPACITY: usize = 262144;

/// How often leaving the boot services is tried.
pub const EXIT_RETRIES: u32 = 8;

/// What every table of the firmware starts with.
#[derive(Clone, Copy, Debug, PartialEq, Eq, Structural)]
pub struct EfiTableHeader {
    pub signature: u64,
    pub revision: u32,
    pub header_size: u32,
    pub crc32: u32,
    pub reserved: u32,
}

/// What the loader reads of the system table. `boot_services` is zero where
/// there are none.
#[derive(Clone, Copy, Debug, PartialEq, Eq, Structural)]
pub struct EfiSystemTable {
    pub header: EfiTableHeader,
    pub boot_services: u64,
}

/// What the loader reads of the boot services.
#[derive(Clone, Copy, Debug, PartialEq, Eq, Structural)]
pub struct EfiBootServices {
    pub header: EfiTableHeader,
}

/// One entry of the firmware's memory map.
#[derive(Clone, Copy, Debug, PartialEq, Eq, Structural)]
pub struct EfiMemoryDescriptor {
    pub memory_type: u32,
    pub _padding: u32,
    pub physical_start: u64,
    pub virtual_start: u64,
    pub number_of_pages: u64,
    pub attributes: u64,
}

/// What the loader leaves for the hypervisor core. Addresses are physical;
/// `memory_map` is zero where there is no map.
#[derive(Clone, Copy, Debug, PartialEq, Eq, Structural)]
pub struct Handoff {
    pub memory_map: u64,
    pub memory_map_size: usize,
    pub descriptor_size: usize,
    pub descriptor_version: u32,
    pub _padding: u32,
    pub stack_guard: u64,
    pub stack_base: u64,
    pub stack_top: u64,
    pub vmxon_region: u64,
    pub bootstrap_arena_base: u64,
    pub bootstrap_arena_size: u64,
}

/// The memory that the loader has taken for the core. `handoff` is the address
/// at which the core finds its hand-over.
#[derive(Clone, Copy, Debug, PartialEq, Eq, Structural)]
pub struct Prepared {
    pub stack_guard: u64,
    pub stack_base: u64,
    pub stack_top: u64,
    pub vmxon_region: u64,
    pub bootstrap_arena_base: u64,
    pub handoff: u64,
}

/// What the firmware says of the machine's memory, beside the map itself.
#[derive(Clone, Copy, Debug, PartialEq, Eq, Structural)]
pub struct MapInfo {
    pub map_size: usize,
    pub map_key: usize,
    pub descriptor_size: usize,
    pub descriptor_version: u32,
}

/// One thing to ask of the firmware, or to do while it is still there.
#[derive(Clone, Copy, Debug, PartialEq, Eq)]
pub enum FirmwareRequest {
    /// Send a message to the console.
    Log { record: LogRecord },
    /// Read the boot services at this address.
    ReadBootServices { address: u64 },
    /// Take pages, wherever they are, for the loader's data.
    AllocatePages { pages: usize },
    FreePages { address: u64, pages: usize },
    /// Fill pages with zeros.
    ZeroPages { address: u64, pages: usize },
    /// Write the memory map to the loader's buffer.
    GetMemoryMap { capacity: usize },
    StoreHandoff { address: u64, handoff: Handoff },
    ExitBootServices { image_handle: EfiHandle, map_key: usize },
}

/// The answer to a request.
#[derive(Clone, Copy, Debug, PartialEq, Eq, Structural)]
pub enum FirmwareReply {
    Done,
    BootServices { table: EfiBootServices },
    Allocated { status: EfiStatus, address: u64 },
    MemoryMap { status: EfiStatus, info: MapInfo },
    Status { status: EfiStatus },
}

/// The reply is of the kind that the request calls for. Pages that were taken
/// end below the top of the address space.
pub open spec fn answers(reply: FirmwareReply, request: FirmwareRequest) -> bool {
    match request {
        FirmwareRequest::ReadBootServices { .. } => reply is BootServices,
        FirmwareRequest::AllocatePages { pages } => reply matches FirmwareReply::Allocated {
            status,
            address,
        } && (status == EFI_SUCCESS ==> address + pages * 4096 <= u64::MAX),
        FirmwareRequest::GetMemoryMap { .. } => reply is MemoryMap,
        FirmwareRequest::ExitBootServices { .. } => reply is Status,
        _ => reply is Done,
    }
}

/// What a procedure of the loader does next.
#[derive(Debug, PartialEq, Eq)]
pub enum FirmwareStep<S, R> {
    Ask { state: S, request: FirmwareRequest },
    Finished { result: R },
}

/// A procedure of the loader, as far as statements about it are concerned.
pub trait FirmwareProcedure: Sized {
    type Output;

    /// What comes after the reply to the state's request.
    spec fn advance(self, reply: FirmwareReply) -> FirmwareStep<Self, Self::Output>;
}

impl FirmwareReply {
    /// The address of the pages that were taken, or the status of the failure.
    fn allocated(self) -> (result: Result<u64, EfiStatus>)
        requires
            self is Allocated,
        ensures
            result == if self->Allocated_status == EFI_SUCCESS {
                Ok::<u64, EfiStatus>(self->Allocated_address)
            } else {
                Err(self->Allocated_status)
            },
    {
        match self {
            FirmwareReply::Allocated { status, address } => {
                if status != EFI_SUCCESS {
                    return Err(status);
                }
                Ok(address)
            },
            _ => Err(EFI_INVALID_PARAMETER),
        }
    }
}

/// The loader: the image that the firmware started, and the boot services at its disposal.
#[derive(Clone, Copy, Debug, PartialEq, Eq, Structural)]
pub struct Loader {
    pub image_handle: EfiHandle,
    pub boot_services: u64,
}

/// The system table is what it should be, and has boot services.
pub open spec fn is_system_table(table: EfiSystemTable) -> bool {
    &&& table.header.signature == EFI_SYSTEM_TABLE_SIGNATURE
    &&& table.header.header_size >= SYSTEM_TABLE_BYTES
    &&& table.boot_services != 0
}

/// The boot services are what they should be.
pub open spec fn is_boot_services(table: EfiBootServices) -> bool {
    &&& table.header.signature == EFI_BOOT_SERVICES_SIGNATURE
    &&& table.header.header_size >= BOOT_SERVICES_BYTES
}

/// A loader whose boot services are being looked at.
#[derive(Clone, Copy, Debug, PartialEq, Eq, Structural)]
pub struct NewLoader {
    pub image_handle: EfiHandle,
    pub boot_services: u64,
}

/// A step of making a loader.
pub type NewLoaderStep = FirmwareStep<NewLoader, Result<Loader, EfiStatus>>;

/// The step that a loader starts with.
pub open spec fn new_loader_start(
    image_handle: EfiHandle,
    system_table: Option<EfiSystemTable>,
) -> NewLoaderStep {
    match system_table {
        Some(table) => if is_system_table(table) {
            FirmwareStep::Ask {
                state: NewLoader { image_handle, boot_services: table.boot_services },
                request: FirmwareRequest::ReadBootServices { address: table.boot_services },
            }
        } else {
            FirmwareStep::Finished { result: Err(EFI_INVALID_PARAMETER) }
        },
        None => FirmwareStep::Finished { result: Err(EFI_INVALID_PARAMETER) },
    }
}

impl FirmwareProcedure for NewLoader {
    type Output = Result<Loader, EfiStatus>;

    open spec fn advance(self, reply: FirmwareReply) -> NewLoaderStep {
        FirmwareStep::Finished {
            result: if is_boot_services(reply->table) {
                Ok(Loader { image_handle: self.image_handle, boot_services: self.boot_services })
            } else {
                Err(EFI_INVALID_PARAMETER)
            },
        }
    }
}

impl NewLoader {
    /// The reply is of the kind that the state waits for.
    pub open spec fn expects(self, reply: FirmwareReply) -> bool {
        reply is BootServices
    }

    /// Goes on with the reply to what was asked for.
    pub fn next(self, reply: FirmwareReply) -> (step: NewLoaderStep)
        requires
            self.expects(reply),
        ensures
            step == self.advance(reply),
    {
        if let FirmwareReply::BootServices { table } = reply {
            if table.header.signature == EFI_BOOT_SERVICES_SIGNATURE && table.header.header_size
                >= BOOT_SERVICES_BYTES {
                return FirmwareStep::Finished {
                    result: Ok(
                        Loader {
                            image_handle: self.image_handle,
                            boot_services: self.boot_services,
                        },
                    ),
                };
            }
        }
        FirmwareStep::Finished { result: Err(EFI_INVALID_PARAMETER) }
    }
}

/// How far the loader has come in taking memory for the core: what has been
/// asked for, and what is known so far.
#[derive(Clone, Copy, Debug, PartialEq, Eq, Structural)]
pub enum Prepare {
    Stack,
    Vmxon { stack: u64 },
    HandoffPage { stack: u64, vmxon: u64 },
    Arena { stack: u64, vmxon: u64, handoff: u64 },
    ZeroStack { stack: u64, vmxon: u64, handoff: u64, arena: u64 },
    ZeroVmxon { stack: u64, vmxon: u64, handoff: u64, arena: u64 },
    ZeroHandoff { stack: u64, vmxon: u64, handoff: u64, arena: u64 },
    ZeroArena { stack: u64, vmxon: u64, handoff: u64, arena: u64 },
    FreeHandoff { stack: u64, vmxon: u64, status: EfiStatus },
    FreeVmxon { stack: u64, status: EfiStatus },
    FreeStack { status: EfiStatus },
}

/// A step of taking memory for the core.
pub type PrepareStep = FirmwareStep<Prepare, Result<Prepared, EfiStatus>>;

/// The memory of the core, by the addresses of the four blocks.
pub open spec fn prepared(stack: u64, vmxon: u64, handoff: u64, arena: u64) -> Prepared {
    Prepared {
        stack_guard: stack,
        stack_base: (stack + 4096) as u64,
        stack_top: (stack + 17 * 4096) as u64,
        vmxon_region: vmxon,
        bootstrap_arena_base: arena,
        handoff,
    }
}

impl FirmwareProcedure for Prepare {
    type Output = Result<Prepared, EfiStatus>;

    open spec fn advance(self, reply: FirmwareReply) -> PrepareStep {
        let status = reply->Allocated_status;
        let address = reply->Allocated_address;
        match self {
            Prepare::Stack => if status != EFI_SUCCESS {
                FirmwareStep::Finished { result: Err(status) }
            } else {
                FirmwareStep::Ask {
                    state: Prepare::Vmxon { stack: address },
                    request: FirmwareRequest::AllocatePages { pages: 1 },
                }
            },
            Prepare::Vmxon { stack } => if status != EFI_SUCCESS {
                FirmwareStep::Ask {
                    state: Prepare::FreeStack { status },
                    request: FirmwareRequest::FreePages { address: stack, pages: STACK_PAGES },
                }
            } else {
                FirmwareStep::Ask {
                    state: Prepare::HandoffPage { stack, vmxon: address },
                    request: FirmwareRequest::AllocatePages { pages: 1 },
                }
            },
            Prepare::HandoffPage { stack, vmxon } => if status != EFI_SUCCESS {
                FirmwareStep::Ask {
                    state: Prepare::FreeVmxon { stack, status },
                    request: FirmwareRequest::FreePages { address: vmxon, pages: 1 },
                }
            } else {
                FirmwareStep::Ask {
                    state: Prepare::Arena { stack, vmxon, handoff: address },
                    request: FirmwareRequest::AllocatePages { pages: BOOTSTRAP_ARENA_PAGES },
                }
            },
            Prepare::Arena { stack, vmxon, handoff } => if status != EFI_SUCCESS {
                FirmwareStep::Ask {
                    state: Prepare::FreeHandoff { stack, vmxon, status },
                    request: FirmwareRequest::FreePages { address: handoff, pages: 1 },
                }
            } else {
                FirmwareStep::Ask {
                    state: Prepare::ZeroStack { stack, vmxon, handoff, arena: address },
                    request: FirmwareRequest::ZeroPages { address: stack, pages: STACK_PAGES },
                }
            },
            Prepare::ZeroStack { stack, vmxon, handoff, arena } => FirmwareStep::Ask {
                state: Prepare::ZeroVmxon { stack, vmxon, handoff, arena },
                request: FirmwareRequest::ZeroPages { address: vmxon, pages: 1 },
            },
            Prepare::ZeroVmxon { stack, vmxon, handoff, arena } => FirmwareStep::Ask {
                state: Prepare::ZeroHandoff { stack, vmxon, handoff, arena },
                request: FirmwareRequest::ZeroPages { address: handoff, pages: 1 },
            },
            Prepare::ZeroHandoff { stack, vmxon, handoff, arena } => FirmwareStep::Ask {
                state: Prepare::ZeroArena { stack, vmxon, handoff, arena },
                request: FirmwareRequest::ZeroPages {
                    address: arena,
                    pages: BOOTSTRAP_ARENA_PAGES,
                },
            },
            Prepare::ZeroArena { stack, vmxon, handoff, arena } => FirmwareStep::Finished {
                result: if handoff == 0 {
                    Err(EFI_INVALID_PARAMETER)
                } else {
                    Ok(prepared(stack, vmxon, handoff, arena))
                },
            },
            Prepare::FreeHandoff { stack, vmxon, status } => FirmwareStep::Ask {
                state: Prepare::FreeVmxon { stack, status },
                request: FirmwareRequest::FreePages { address: vmxon, pages: 1 },
            },
            Prepare::FreeVmxon { stack, status } => FirmwareStep::Ask {
                state: Prepare::FreeStack { status },
                request: FirmwareRequest::FreePages { address: stack, pages: STACK_PAGES },
            },
            Prepare::FreeStack { status } => FirmwareStep::Finished { result: Err(status) },
        }
    }
}

impl Prepare {
    /// The stack ends below the top of the address space.
    pub open spec fn wf(self) -> bool {
        match self {
            Prepare::Vmxon { stack }
            | Prepare::HandoffPage { stack, .. }
            | Prepare::Arena { stack, .. }
            | Prepare::ZeroStack { stack, .. }
            | Prepare::ZeroVmxon { stack, .. }
            | Prepare::ZeroHandoff { stack, .. }
            | Prepare::ZeroArena { stack, .. } => stack + 17 * 4096 <= u64::MAX,
            _ => true,
        }
    }

    /// The reply is of the kind that the state waits for.
    pub open spec fn expects(self, reply: FirmwareReply) -> bool {
        match self {
            Prepare::Stack => answers(
                reply,
                FirmwareRequest::AllocatePages { pages: STACK_PAGES },
            ),
            Prepare::Vmxon { .. }
            | Prepare::HandoffPage { .. }
            | Prepare::Arena { .. } => reply is Allocated,
            _ => reply is Done,
        }
    }

    /// Goes on with the reply to what was asked for.
    pub fn next(self, reply: FirmwareReply) -> (step: PrepareStep)
        requires
            self.wf(),
            self.expects(reply),
        ensures
            step == self.advance(reply),
            step matches FirmwareStep::Ask { state, request } ==> state.wf() && forall|
                answer: FirmwareReply,
            |
                answers(answer, request) ==> #[trigger] state.expects(answer),
    {
        match self {
            Prepare::Stack => match reply.allocated() {
                Ok(stack) => FirmwareStep::Ask {
                    state: Prepare::Vmxon { stack },
                    request: FirmwareRequest::AllocatePages { pages: 1 },
                },
                Err(status) => FirmwareStep::Finished { result: Err(status) },
            },
            Prepare::Vmxon { stack } => match reply.allocated() {
                Ok(vmxon) => FirmwareStep::Ask {
                    state: Prepare::HandoffPage { stack, vmxon },
                    request: FirmwareRequest::AllocatePages { pages: 1 },
                },
                Err(status) => FirmwareStep::Ask {
                    state: Prepare::FreeStack { status },
                    request: FirmwareRequest::FreePages { address: stack, pages: STACK_PAGES },
                },
            },
            Prepare::HandoffPage { stack, vmxon } => match reply.allocated() {
                Ok(handoff) => FirmwareStep::Ask {
                    state: Prepare::Arena { stack, vmxon, handoff },
                    request: FirmwareRequest::AllocatePages { pages: BOOTSTRAP_ARENA_PAGES },
                },
                Err(status) => FirmwareStep::Ask {
                    state: Prepare::FreeVmxon { stack, status },
                    request: FirmwareRequest::FreePages { address: vmxon, pages: 1 },
                },
            },
            Prepare::Arena { stack, vmxon, handoff } => match reply.allocated() {
                Ok(arena) => FirmwareStep::Ask {
                    state: Prepare::ZeroStack { stack, vmxon, handoff, arena },
                    request: FirmwareRequest::ZeroPages { address: stack, pages: STACK_PAGES },
                },
                Err(status) => FirmwareStep::Ask {
                    state: Prepare::FreeHandoff { stack, vmxon, status },
                    request: FirmwareRequest::FreePages { address: handoff, pages: 1 },
                },
            },
            Prepare::ZeroStack { stack, vmxon, handoff, arena } => FirmwareStep::Ask {
                state: Prepare::ZeroVmxon { stack, vmxon, handoff, arena },
                request: FirmwareRequest::ZeroPages { address: vmxon, pages: 1 },
            },
            Prepare::ZeroVmxon { stack, vmxon, handoff, arena } => FirmwareStep::Ask {
                state: Prepare::ZeroHandoff { stack, vmxon, handoff, arena },
                request: FirmwareRequest::ZeroPages { address: handoff, pages: 1 },
            },
            Prepare::ZeroHandoff { stack, vmxon, handoff, arena } => FirmwareStep::Ask {
                state: Prepare::ZeroArena { stack, vmxon, handoff, arena },
                request: FirmwareRequest::ZeroPages {
                    address: arena,
                    pages: BOOTSTRAP_ARENA_PAGES,
                },
            },
            Prepare::ZeroArena { stack, vmxon, handoff, arena } => {
                if handoff == 0 {
                    return FirmwareStep::Finished { result: Err(EFI_INVALID_PARAMETER) };
                }
                FirmwareStep::Finished {
                    result: Ok(
                        Prepared {
                            stack_guard: stack,
                            stack_base: stack + 4096,
                            stack_top: stack + (STACK_PAGES * 4096) as u64,
                            vmxon_region: vmxon,
                            bootstrap_arena_base: arena,
                            handoff,
                        },
                    ),
                }
            },
            Prepare::FreeHandoff { stack, vmxon, status } => FirmwareStep::Ask {
                state: Prepare::FreeVmxon { stack, status },
                request: FirmwareRequest::FreePages { address: vmxon, pages: 1 },
            },
            Prepare::FreeVmxon { stack, status } => FirmwareStep::Ask {
                state: Prepare::FreeStack { status },
                request: FirmwareRequest::FreePages { address: stack, pages: STACK_PAGES },
            },
            Prepare::FreeStack { status } => FirmwareStep::Finished { result: Err(status) },
        }
    }
}

/// How far the loader has come in leaving the boot services: what has been
/// asked for, and what is known so far. `tries` have failed before.
#[derive(Clone, Copy, Debug, PartialEq, Eq, Structural)]
pub enum ExitBoot {
    Mapping { image_handle: EfiHandle, prepared: Prepared, map_buffer: u64, tries: u32 },
    Stored {
        image_handle: EfiHandle,
        prepared: Prepared,
        map_buffer: u64,
        tries: u32,
        map_key: usize,
    },
    Exit { image_handle: EfiHandle, prepared: Prepared, map_buffer: u64, tries: u32 },
}

/// A step of leaving the boot services. The result is the address of the core's
/// hand-over.
pub type ExitBootStep = FirmwareStep<ExitBoot, Result<u64, EfiStatus>>;

/// What the core is handed: the memory that was taken for it, and the memory
/// map in the buffer at `map_buffer`.
pub open spec fn handoff_for(prepared: Prepared, map_buffer: u64, info: MapInfo) -> Handoff {
    Handoff {
        memory_map: map_buffer,
        memory_map_size: info.map_size,
        descriptor_size: info.descriptor_size,
        descriptor_version: info.descriptor_version,
        _padding: 0,
        stack_guard: prepared.stack_guard,
        stack_base: prepared.stack_base,
        stack_top: prepared.stack_top,
        vmxon_region: prepared.vmxon_region,
        bootstrap_arena_base: prepared.bootstrap_arena_base,
        bootstrap_arena_size: 0x40_0000,
    }
}

/// The map is made of whole descriptors.
pub open spec fn is_whole_map(info: MapInfo) -> bool {
    info.descriptor_size >= DESCRIPTOR_BYTES && info.map_size % info.descriptor_size == 0
}

/// The step that asks for the memory map.
pub open spec fn map_step(
    image_handle: EfiHandle,
    prepared: Prepared,
    map_buffer: u64,
    tries: u32,
) -> ExitBootStep {
    FirmwareStep::Ask {
        state: ExitBoot::Mapping { image_handle, prepared, map_buffer, tries },
        request: FirmwareRequest::GetMemoryMap { capacity: MEMORY_MAP_CAPACITY },
    }
}

impl FirmwareProcedure for ExitBoot {
    type Output = Result<u64, EfiStatus>;

    open spec fn advance(self, reply: FirmwareReply) -> ExitBootStep {
        match self {
            ExitBoot::Mapping { image_handle, prepared, map_buffer, tries } => {
                let info = reply->info;
                if reply->MemoryMap_status != EFI_SUCCESS {
                    FirmwareStep::Finished { result: Err(reply->MemoryMap_status) }
                } else if !is_whole_map(info) {
                    FirmwareStep::Finished { result: Err(EFI_INVALID_PARAMETER) }
                } else {
                    FirmwareStep::Ask {
                        state: ExitBoot::Stored {
                            image_handle,
                            prepared,
                            map_buffer,
                            tries,
                            map_key: info.map_key,
                        },
                        request: FirmwareRequest::StoreHandoff {
                            address: prepared.handoff,
                            handoff: handoff_for(prepared, map_buffer, info),
                        },
                    }
                }
            },
            ExitBoot::Stored { image_handle, prepared, map_buffer, tries, map_key } => {
                FirmwareStep::Ask {
                    state: ExitBoot::Exit { image_handle, prepared, map_buffer, tries },
                    request: FirmwareRequest::ExitBootServices { image_handle, map_key },
                }
            },
            ExitBoot::Exit { image_handle, prepared, map_buffer, tries } => {
                let status = reply->Status_status;
                if status == EFI_SUCCESS {
                    FirmwareStep::Finished { result: Ok(prepared.handoff) }
                } else if status != EFI_INVALID_PARAMETER || tries + 1 >= EXIT_RETRIES {
                    FirmwareStep::Finished { result: Err(status) }
                } else {
                    map_step(image_handle, prepared, map_buffer, (tries + 1) as u32)
                }
            },
        }
    }
}

impl ExitBoot {
    /// Fewer tries have failed than there may be.
    pub open spec fn wf(self) -> bool {
        match self {
            ExitBoot::Mapping { tries, .. }
            | ExitBoot::Stored { tries, .. }
            | ExitBoot::Exit { tries, .. } => tries < EXIT_RETRIES,
        }
    }

    /// The reply is of the kind that the state waits for.
    pub open spec fn expects(self, reply: FirmwareReply) -> bool {
        match self {
            ExitBoot::Mapping { .. } => reply is MemoryMap,
            ExitBoot::Stored { .. } => reply is Done,
            ExitBoot::Exit { .. } => reply is Status,
        }
    }

    /// Goes on with the reply to what was asked for.
    pub fn next(self, reply: FirmwareReply) -> (step: ExitBootStep)
        requires
            self.wf(),
            self.expects(reply),
        ensures
            step == self.advance(reply),
            step matches FirmwareStep::Ask { state, request } ==> state.wf() && forall|
                answer: FirmwareReply,
            |
                answers(answer, request) ==> #[trigger] state.expects(answer),
    {
        match self {
            ExitBoot::Mapping { image_handle, prepared, map_buffer, tries } => {
                if let FirmwareReply::MemoryMap { status, info } = reply {
                    if status != EFI_SUCCESS {
                        return FirmwareStep::Finished { result: Err(status) };
                    }
                    if info.descriptor_size < DESCRIPTOR_BYTES {
                        return FirmwareStep::Finished { result: Err(EFI_INVALID_PARAMETER) };
                    }
                    if info.map_size % info.descriptor_size != 0 {
                        return FirmwareStep::Finished { result: Err(EFI_INVALID_PARAMETER) };
                    }
                    return FirmwareStep::Ask {
                        state: ExitBoot::Stored {
                            image_handle,
                            prepared,
                            map_buffer,
                            tries,
                            map_key: info.map_key,
                        },
                        request: FirmwareRequest::StoreHandoff {
                            address: prepared.handoff,
                            handoff: hand_over(prepared, map_buffer, info),
                        },
                    };
                }
                FirmwareStep::Finished { result: Err(EFI_INVALID_PARAMETER) }
            },
            ExitBoot::Stored { image_handle, prepared, map_buffer, tries, map_key } => {
                FirmwareStep::Ask {
                    state: ExitBoot::Exit { image_handle, prepared, map_buffer, tries },
                    request: FirmwareRequest::ExitBootServices { image_handle, map_key },
                }
            },
            ExitBoot::Exit { image_handle, prepared, map_buffer, tries } => {
                if let FirmwareReply::Status { status } = reply {
                    if status == EFI_SUCCESS {
                        return FirmwareStep::Finished { result: Ok(prepared.handoff) };
                    }
                    if status != EFI_INVALID_PARAMETER {
                        return FirmwareStep::Finished { result: Err(status) };
                    }
                }
                if tries + 1 >= EXIT_RETRIES {
                    return FirmwareStep::Finished { result: Err(EFI_INVALID_PARAMETER) };
                }
                FirmwareStep::Ask {
                    state: ExitBoot::Mapping {
                        image_handle,
                        prepared,
                        map_buffer,
                        tries: tries + 1,
                    },
                    request: FirmwareRequest::GetMemoryMap { capacity: MEMORY_MAP_CAPACITY },
                }
            },
        }
    }
}

fn hand_over(prepared: Prepared, map_buffer: u64, info: MapInfo) -> (handoff: Handoff)
    ensures
        handoff == handoff_for(prepared, map_buffer, info),
{
    Handoff {
        memory_map: map_buffer,
        memory_map_size: info.map_size,
        descriptor_size: info.descriptor_size,
        descriptor_version: info.descriptor_version,
        _padding: 0,
        stack_guard: prepared.stack_guard,
        stack_base: prepared.stack_base,
        stack_top: prepared.stack_top,
        vmxon_region: prepared.vmxon_region,
        bootstrap_arena_base: prepared.bootstrap_arena_base,
        bootstrap_arena_size: (BOOTSTRAP_ARENA_PAGES * 4096) as u64,
    }
}

impl Loader {
    /// Starts to make a loader from what the firmware passed to the image.
    pub fn new(image_handle: EfiHandle, system_table: Option<EfiSystemTable>) -> (step:
        NewLoaderStep)
        ensures
            step == new_loader_start(image_handle, system_table),
            step matches FirmwareStep::Ask { state, request } ==> forall|answer: FirmwareReply|
                answers(answer, request) ==> #[trigger] state.expects(answer),
    {
        if let Some(table) = system_table {
            if table.header.signature == EFI_SYSTEM_TABLE_SIGNATURE && table.header.header_size
                >= SYSTEM_TABLE_BYTES && table.boot_services != 0 {
                return FirmwareStep::Ask {
                    state: NewLoader { image_handle, boot_services: table.boot_services },
                    request: FirmwareRequest::ReadBootServices { address: table.boot_services },
                };
            }
        }
        FirmwareStep::Finished { result: Err(EFI_INVALID_PARAMETER) }
    }

    /// Starts to take memory for the core.
    pub fn prepare(&self) -> (step: PrepareStep)
        ensures
            step == (PrepareStep::Ask {
                state: Prepare::Stack,
                request: FirmwareRequest::AllocatePages { pages: STACK_PAGES },
            }),
    {
        FirmwareStep::Ask {
            state: Prepare::Stack,
            request: FirmwareRequest::AllocatePages { pages: STACK_PAGES },
        }
    }

    /// Starts to leave the boot services; the memory map goes to the buffer at
    /// `map_buffer`.
    pub fn exit_boot_services(&self, prepared: Prepared, map_buffer: u64) -> (step: ExitBootStep)
        ensures
            step == map_step(self.image_handle, prepared, map_buffer, 0),
    {
        FirmwareStep::Ask {
            state: ExitBoot::Mapping {
                image_handle: self.image_handle,
                prepared,
                map_buffer,
                tries: 0,
            },
            request: FirmwareRequest::GetMemoryMap { capacity: MEMORY_MAP_CAPACITY },
        }
    }
}

} // verus!
