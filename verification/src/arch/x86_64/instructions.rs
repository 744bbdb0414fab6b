//! What the library asks of the processor, and what comes back.
//!
//! The library never executes a privileged instruction itself. A procedure that
//! needs some is a state that, given the reply to its last request, says what
//! to do next: make another request, or finish. For statements about whole
//! procedures there is a model of the processor that answers requests.

use crate::serial::LogRecord;
use vstd::prelude::*;

verus! {

/// What CPUID returns.
#[derive(Clone, Copy, Debug, PartialEq, Eq, Structural)]
pub struct CpuidResult {
    pub eax: u32,
    pub ebx: u32,
    pub ecx: u32,
    pub edx: u32,
}

/// The registers that the processor holds for the host.
#[derive(Clone, Copy, Debug, PartialEq, Eq, Structural)]
pub struct HostRegisters {
    pub cr0: u64,
    pub cr3: u64,
    pub cr4: u64,
    pub es: u16,
    pub cs: u16,
    pub ss: u16,
    pub ds: u16,
    pub fs: u16,
    pub gs: u16,
    pub tr: u16,
    pub tss_base: u64,
    pub gdtr_base: u64,
    pub idtr_base: u64,
    /// Where the processor continues when the guest exits.
    pub vmexit_entry: u64,
}

/// One thing for the processor to do.
#[derive(Clone, Copy, Debug, PartialEq, Eq)]
pub enum Request {
    /// Send a message to the console.
    Log { record: LogRecord },
    Cpuid { leaf: u32, subleaf: u32 },
    Rdmsr { msr: u32 },
    Wrmsr { msr: u32, value: u64 },
    ReadCr0,
    ReadCr4,
    WriteCr0 { value: u64 },
    WriteCr3 { value: u64 },
    WriteCr4 { value: u64 },
    ReadHostRegisters,
    /// Fill the page at this address with zeros.
    ZeroPage { address: u64 },
    /// Store a word of 32 bits at this address.
    StoreU32 { address: u64, word: u32 },
    Vmxon { region: u64 },
    Vmclear { vmcs: u64 },
    Vmptrld { vmcs: u64 },
    Vmwrite { field: u64, value: u64 },
    Vmread { field: u64 },
    Vmlaunch,
    Vmxoff,
}

/// The answer to a request. `failed` is not zero where the processor reports
/// that a virtualisation instruction failed.
#[derive(Clone, Copy, Debug, PartialEq, Eq, Structural)]
pub enum Reply {
    Done,
    Value { value: u64 },
    Cpuid { result: CpuidResult },
    Host { registers: HostRegisters },
    Status { failed: u8 },
    Read { failed: u8, value: u64 },
}

/// The reply is of the kind that the request calls for.
pub open spec fn answers(reply: Reply, request: Request) -> bool {
    match request {
        Request::Cpuid { .. } => reply is Cpuid,
        Request::Rdmsr { .. } | Request::ReadCr0 | Request::ReadCr4 => reply is Value,
        Request::ReadHostRegisters => reply is Host,
        Request::Vmxon { .. } | Request::Vmclear { .. } | Request::Vmptrld { .. }
        | Request::Vmwrite { .. } | Request::Vmlaunch => reply is Status,
        Request::Vmread { .. } => reply is Read,
        _ => reply is Done,
    }
}

impl Reply {
    /// The value that was read.
    pub fn value(self) -> (value: u64)
        requires
            self is Value,
        ensures
            value == self->Value_value,
    {
        match self {
            Reply::Value { value } => value,
            _ => 0,
        }
    }

    /// What CPUID returned.
    pub fn cpuid(self) -> (result: CpuidResult)
        requires
            self is Cpuid,
        ensures
            result == self->result,
    {
        match self {
            Reply::Cpuid { result } => result,
            _ => CpuidResult { eax: 0, ebx: 0, ecx: 0, edx: 0 },
        }
    }

    /// The host's registers.
    pub fn host(self) -> (registers: HostRegisters)
        requires
            self is Host,
        ensures
            registers == self->registers,
    {
        match self {
            Reply::Host { registers } => registers,
            _ => HostRegisters {
                cr0: 0,
                cr3: 0,
                cr4: 0,
                es: 0,
                cs: 0,
                ss: 0,
                ds: 0,
                fs: 0,
                gs: 0,
                tr: 0,
                tss_base: 0,
                gdtr_base: 0,
                idtr_base: 0,
                vmexit_entry: 0,
            },
        }
    }

    /// Whether a read failed, and what it gave.
    pub fn read(self) -> (read: (u8, u64))
        requires
            self is Read,
        ensures
            read == (self->Read_failed, self->Read_value),
    {
        match self {
            Reply::Read { failed, value } => (failed, value),
            _ => (0, 0),
        }
    }

    /// Whether a virtualisation instruction failed: not zero if it did.
    pub fn failed(self) -> (failed: u8)
        requires
            self is Status,
        ensures
            failed == self->Status_failed,
    {
        match self {
            Reply::Status { failed } => failed,
            _ => 0,
        }
    }
}

/// What a procedure does next: ask the processor for something and go on from
/// the given state when the reply is there, or finish.
#[derive(Debug, PartialEq, Eq)]
pub enum Step<S, R> {
    Ask { state: S, request: Request },
    Finished { result: R },
}

/// A processor: what its identification says, its registers, the fields of the
/// current virtual-machine control structure, and which virtualisation
/// instructions fail.
pub ghost struct Processor {
    pub cpuid: spec_fn(u32, u32) -> CpuidResult,
    pub msrs: Map<u32, u64>,
    pub cr0: u64,
    pub cr3: u64,
    pub cr4: u64,
    /// The host's registers, but for the control registers.
    pub host: HostRegisters,
    /// The messages that the console has been sent.
    pub console: Seq<LogRecord>,
    /// The pages that have been filled with zeros.
    pub zeroed: Set<u64>,
    /// The 32-bit words that have been stored.
    pub stored: Map<u64, u32>,
    /// The processor is in VMX operation.
    pub vmx_on: bool,
    pub vmcs: Map<u64, u64>,
    /// The guest has been launched.
    pub launched: bool,
    pub fails: spec_fn(Request) -> bool,
}

impl Processor {
    /// The host's registers.
    pub open spec fn host_registers(self) -> HostRegisters {
        HostRegisters { cr0: self.cr0, cr3: self.cr3, cr4: self.cr4, ..self.host }
    }

    /// The processor after one more message on the console.
    pub open spec fn logged(self, record: LogRecord) -> Processor {
        Processor { console: self.console.push(record), ..self }
    }

    /// What a virtualisation instruction answers.
    pub open spec fn status(self, request: Request) -> Reply {
        Reply::Status {
            failed: if (self.fails)(request) {
                1
            } else {
                0
            },
        }
    }

    /// The processor after a request, and its reply.
    pub open spec fn perform(self, request: Request) -> (Processor, Reply) {
        let fails = (self.fails)(request);
        match request {
            Request::Log { record } => (self.logged(record), Reply::Done),
            Request::Cpuid { leaf, subleaf } => (
                self,
                Reply::Cpuid { result: (self.cpuid)(leaf, subleaf) },
            ),
            Request::Rdmsr { msr } => (self, Reply::Value { value: self.msrs[msr] }),
            Request::Wrmsr { msr, value } => (
                Processor { msrs: self.msrs.insert(msr, value), ..self },
                Reply::Done,
            ),
            Request::ReadCr0 => (self, Reply::Value { value: self.cr0 }),
            Request::ReadCr4 => (self, Reply::Value { value: self.cr4 }),
            Request::WriteCr0 { value } => (Processor { cr0: value, ..self }, Reply::Done),
            Request::WriteCr4 { value } => (Processor { cr4: value, ..self }, Reply::Done),
            Request::WriteCr3 { value } => (Processor { cr3: value, ..self }, Reply::Done),
            Request::ReadHostRegisters => (
                self,
                Reply::Host { registers: self.host_registers() },
            ),
            Request::ZeroPage { address } => (
                Processor { zeroed: self.zeroed.insert(address), ..self },
                Reply::Done,
            ),
            Request::StoreU32 { address, word } => (
                Processor { stored: self.stored.insert(address, word), ..self },
                Reply::Done,
            ),
            Request::Vmxon { .. } => (
                Processor { vmx_on: self.vmx_on || !fails, ..self },
                self.status(request),
            ),
            Request::Vmclear { .. } => (self, self.status(request)),
            Request::Vmptrld { .. } => (self, self.status(request)),
            Request::Vmwrite { field, value } => (
                if fails {
                    self
                } else {
                    Processor { vmcs: self.vmcs.insert(field, value), ..self }
                },
                self.status(request),
            ),
            Request::Vmread { field } => (
                self,
                Reply::Read {
                    failed: if fails {
                        1
                    } else {
                        0
                    },
                    value: self.vmcs[field],
                },
            ),
            Request::Vmlaunch => (
                Processor { launched: self.launched || !fails, ..self },
                self.status(request),
            ),
            Request::Vmxoff => (Processor { vmx_on: false, ..self }, Reply::Done),
        }
    }
}

/// A procedure, as far as statements about it are concerned.
pub trait Procedure: Sized {
    type Output;

    /// What comes after the reply to the state's request.
    spec fn advance(self, reply: Reply) -> Step<Self, Self::Output>;
}

/// The processor, and the procedure's result, after at most `fuel` requests.
pub open spec fn run<P: Procedure>(
    step: Step<P, P::Output>,
    processor: Processor,
    fuel: nat,
) -> (Processor, Option<P::Output>)
    decreases fuel,
{
    match step {
        Step::Finished { result } => (processor, Some(result)),
        Step::Ask { state, request } => if fuel == 0 {
            (processor, None)
        } else {
            let (next, reply) = processor.perform(request);
            run(state.advance(reply), next, (fuel - 1) as nat)
        },
    }
}

/// A procedure that has finished stays finished.
pub proof fn lemma_more_fuel<P: Procedure>(
    step: Step<P, P::Output>,
    processor: Processor,
    fuel: nat,
    more: nat,
)
    requires
        fuel <= more,
        run(step, processor, fuel).1 is Some,
    ensures
        run(step, processor, more) == run(step, processor, fuel),
    decreases fuel,
{
    if let Step::Ask { state, request } = step {
        let (next, reply) = processor.perform(request);
        lemma_more_fuel(state.advance(reply), next, (fuel - 1) as nat, (more - 1) as nat);
    }
}

/// The processor answers every request as the request calls for.
pub proof fn law_processor_answers(processor: Processor, request: Request)
    ensures
        answers(processor.perform(request).1, request),
{
}

} // verus!
