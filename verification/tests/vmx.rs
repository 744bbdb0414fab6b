use hypewwisoww::arch::x86_64::instructions::{CpuidResult, Reply, Request, Step};
use hypewwisoww::arch::x86_64::vmx::{enter_root, leave_root, EnterRootStep, VmxError, VmxInfo};

/// Revision 0x11, regions of 4096 bytes, write-back memory, true controls.
const BASIC: u64 = 0x11 | 4096 << 32 | 6 << 50 | 1 << 55;

#[derive(Clone, Copy)]
struct Processor {
    ecx: u32,
    feature_control: u64,
    basic: u64,
    failed: u8,
}

const GOOD: Processor = Processor { ecx: 1 << 5, feature_control: 5, basic: BASIC, failed: 0 };

fn enter(processor: Processor, region: u64) -> (Result<VmxInfo, VmxError>, Vec<Request>) {
    let mut asked = Vec::new();
    let mut step: EnterRootStep = enter_root(region);
    loop {
        step = match step {
            Step::Ask { state, request } => {
                asked.push(request);
                state.next(match request {
                    Request::Cpuid { .. } => Reply::Cpuid {
                        result: CpuidResult { eax: 0, ebx: 0, ecx: processor.ecx, edx: 0 },
                    },
                    Request::Rdmsr { msr } => Reply::Value {
                        value: match msr {
                            0x3a => processor.feature_control,
                            0x480 => processor.basic,
                            0x486 => 0x8000_0021,
                            0x487 => 0xffff_ffff,
                            0x488 => 0x2000,
                            0x489 => 0x37_27ff,
                            _ => panic!("unexpected register {msr:#x}"),
                        },
                    },
                    Request::ReadCr0 => Reply::Value { value: 0x1_0000_0010 },
                    Request::ReadCr4 => Reply::Value { value: 0x8000_0620 },
                    Request::Vmxon { .. } => Reply::Status { failed: processor.failed },
                    _ => Reply::Done,
                })
            }
            Step::Finished { result } => return (result, asked),
        };
    }
}

#[test]
fn vmx_operation_is_entered() {
    let (result, asked) = enter(GOOD, 0x7000);
    assert_eq!(
        result,
        Ok(VmxInfo { revision_id: 0x11, true_controls: true, wide_physical_addresses: false })
    );
    assert_eq!(
        asked,
        vec![
            Request::Cpuid { leaf: 1, subleaf: 0 },
            Request::Rdmsr { msr: 0x3a },
            Request::Rdmsr { msr: 0x480 },
            Request::ZeroPage { address: 0x7000 },
            Request::StoreU32 { address: 0x7000, word: 0x11 },
            Request::Rdmsr { msr: 0x486 },
            Request::Rdmsr { msr: 0x487 },
            Request::Rdmsr { msr: 0x488 },
            Request::Rdmsr { msr: 0x489 },
            Request::ReadCr0,
            Request::ReadCr4,
            Request::WriteCr0 { value: 0x8000_0031 },
            Request::WriteCr4 { value: 0x2620 },
            Request::Vmxon { region: 0x7000 },
        ]
    );
}

#[test]
fn open_feature_control_is_set_and_locked() {
    let (result, asked) = enter(Processor { feature_control: 0x100, ..GOOD }, 0x7000);
    assert!(result.is_ok());
    assert_eq!(asked.len(), 15);
    assert_eq!(asked[2], Request::Wrmsr { msr: 0x3a, value: 0x105 });
}

#[test]
fn revision_has_31_bits() {
    let basic = BASIC | 0xffff_ffff;
    let (result, _) = enter(Processor { basic, ..GOOD }, 0x7000);
    assert_eq!(result.map(|info| info.revision_id), Ok(0x7fff_ffff));
}

#[test]
fn processor_without_vmx_is_refused() {
    let (result, asked) = enter(Processor { ecx: !(1 << 5), ..GOOD }, 0x7000);
    assert_eq!(result, Err(VmxError::Unsupported));
    assert_eq!(asked.len(), 1);
}

#[test]
fn region_off_the_pages_is_refused() {
    assert_eq!(enter(GOOD, 0x7008).0, Err(VmxError::RegionMisaligned));
}

#[test]
fn locked_out_vmx_is_refused() {
    let (result, asked) = enter(Processor { feature_control: 1, ..GOOD }, 0x7000);
    assert_eq!(result, Err(VmxError::FirmwareDisabled));
    assert_eq!(asked.len(), 2);
}

#[test]
fn unusable_basic_information_is_refused() {
    let without_size = 0x11 | 6 << 50;
    let too_large = 0x11 | 4097 << 32 | 6 << 50;
    let uncached = 0x11 | 4096 << 32;
    for basic in [without_size, too_large, uncached] {
        let (result, asked) = enter(Processor { basic, ..GOOD }, 0x7000);
        assert_eq!(result, Err(VmxError::InvalidBasicMsr));
        assert_eq!(asked.len(), 3);
    }
}

#[test]
fn high_region_needs_wide_addresses() {
    let region = 0x1_0000_0000;
    assert_eq!(enter(GOOD, region).0, Err(VmxError::RegionAddressWidth));
    assert!(enter(GOOD, 0xffff_f000).0.is_ok());
    let wide = Processor { basic: BASIC | 1 << 48, ..GOOD };
    let info = enter(wide, region).0.unwrap();
    assert!(info.wide_physical_addresses);
}

#[test]
fn failed_entry_is_reported() {
    let (result, _) = enter(Processor { failed: 1, ..GOOD }, 0x7000);
    assert_eq!(result, Err(VmxError::InstructionFailed));
}

#[test]
fn refused_entry_changes_no_control_register() {
    for processor in [
        Processor { ecx: 0, ..GOOD },
        Processor { feature_control: 1, ..GOOD },
        Processor { basic: 0, ..GOOD },
    ] {
        let (result, asked) = enter(processor, 0x7000);
        assert!(result.is_err());
        let changes = |request: &Request| {
            matches!(
                request,
                Request::WriteCr0 { .. } | Request::WriteCr4 { .. } | Request::StoreU32 { .. }
            )
        };
        assert!(!asked.iter().any(changes));
    }
}

#[test]
fn leaving_is_one_instruction() {
    assert_eq!(leave_root(), Request::Vmxoff);
}

#[test]
fn vmx_errors_have_their_numbers() {
    assert_eq!(VmxError::Unsupported.code(), 1);
    assert_eq!(VmxError::FirmwareDisabled.code(), 2);
    assert_eq!(VmxError::InvalidBasicMsr.code(), 3);
    assert_eq!(VmxError::RegionMisaligned.code(), 4);
    assert_eq!(VmxError::InstructionFailed.code(), 5);
    assert_eq!(VmxError::RegionAddressWidth.code(), 6);
}
