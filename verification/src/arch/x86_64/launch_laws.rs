//! What a launch leaves in the control structure, and when it fails, in the numbers of
//! the processor's manual.

use crate::arch::x86_64::instructions::{run, HostRegisters, Processor, Request};
use crate::arch::x86_64::launch::{
    law_launch, launch_writes, lemma_last_write, lemma_spared, lemma_write_all_frame, lemma_write_all_join, phase_values, spares, write_all,
};
use crate::arch::x86_64::vm::{
    capabilities_in, guest_msrs_in, host_msrs_in, launch_start, Phase, VmError, VmResourcesView,
};
use crate::arch::x86_64::vmcs::{
    adjusted, all_segment_writes, control_writes, controls_for, guest_register_writes,
    guest_segments, guest_table_writes, guest_writes, host_writes, segment_writes, Controls,
    GuestMsrs, HostMsrs, Segment, VmcsWrite,
};
use crate::arch::x86_64::vmx::VmxInfo;
use vstd::prelude::*;

verus! {

/// The processor after a launch, and how the launch ended.
pub open spec fn launched(resources: VmResourcesView, info: VmxInfo, processor: Processor) -> (
    Processor,
    Option<Result<(), VmError>>,
) {
    run(launch_start(resources, info), processor, 117)
}

/// `value` has just those bits of the wanted and the demanded ones that are allowed.
pub open spec fn is_within(value: u64, wanted: u64, demanded: u64, allowed: u64) -> bool {
    &&& value & !allowed == 0
    &&& value & !(wanted | demanded) == 0
    &&& (wanted | demanded) & allowed & !value == 0
}

/// The controls are the wanted ones as far as a capability register lets them be: its
/// low half demands bits, its high half allows them.
pub open spec fn suits(value: u64, wanted: u64, capability: u64) -> bool {
    value < 0x1_0000_0000 && is_within(
        value,
        wanted,
        capability % 0x1_0000_0000,
        capability / 0x1_0000_0000,
    )
}

/// Adjusted controls are the wanted ones as far as a capability register lets them be.
pub proof fn law_adjusted_controls_are_within(wanted: u32, capability: u64)
    ensures
        suits(adjusted(wanted, capability) as u64, wanted as u64, capability),
{
    let value = ((wanted | capability as u32) & ((capability >> 32) as u32)) as u64;
    let demanded = capability % 0x1_0000_0000;
    let allowed = capability / 0x1_0000_0000;
    assert(value & !allowed == 0 && value & !(wanted as u64 | demanded) == 0 && (wanted as u64
        | demanded) & allowed & !value == 0) by (bit_vector)
        requires
            value == ((wanted | capability as u32) & ((capability >> 32) as u32)) as u64,
            demanded == capability % 0x1_0000_0000,
            allowed == capability / 0x1_0000_0000,
    ;
}

pub proof fn lemma_registers(wanted: u64, demanded: u64, allowed: u64, efer: u64, selector: u16)
    ensures
        is_within((wanted | demanded) & allowed, wanted, demanded, allowed),
        (efer | 0x100 | 0x400) & 0x500 == 0x500,
        (efer | 0x100 | 0x400) & 0xffff_ffff_ffff_faff == efer & 0xffff_ffff_ffff_faff,
        efer | 0x30 | 0x18 == efer | 0x38,
        selector & !7u16 == selector - selector % 8,
{
    let value = (wanted | demanded) & allowed;
    let grown = efer | 0x100 | 0x400;
    assert(value & !allowed == 0 && value & !(wanted | demanded) == 0 && (wanted | demanded)
        & allowed & !value == 0 && grown & 0x500 == 0x500 && grown & 0xffff_ffff_ffff_faff == efer
        & 0xffff_ffff_ffff_faff && efer | 0x30 | 0x18 == efer | 0x38 && selector & !7u16 == selector - selector % 8) by (bit_vector)
        requires
            value == (wanted | demanded) & allowed,
            grown == efer | 0x100 | 0x400,
    ;
}

/// Where no field is written twice, each has the value that was written to it.
proof fn lemma_distinct_writes(processor: Processor, writes: Seq<VmcsWrite>)
    requires
        forall|one: int, two: int|
            0 <= one < two < writes.len() ==> (#[trigger] writes[one]).field != (
            #[trigger] writes[two]).field,
        write_all(processor, writes).1,
    ensures
        forall|index: int|
            0 <= index < writes.len() ==> write_all(processor, writes).0.vmcs[(
            #[trigger] writes[index]).field] == writes[index].value,
{
    assert forall|index: int| 0 <= index < writes.len() implies write_all(processor, writes).0.vmcs[
    (#[trigger] writes[index]).field] == writes[index].value by {
        let rest = writes.skip(index + 1);
        assert forall|later: int| 0 <= later < rest.len() implies (#[trigger] rest[later]).field
            != writes[index].field by {
            assert(rest[later] == writes[later + index + 1]);
        }
        lemma_last_write(processor, writes, index);
    }
}

/// Writes to fields of one kind spare the fields of another. The kind of a field is in
/// its bits 10 and 11.
spec fn all_of_kind(writes: Seq<VmcsWrite>, kind: u64) -> bool {
    forall|index: int|
        0 <= index < writes.len() ==> (#[trigger] writes[index]).field / 1024 % 4 == kind
}

proof fn lemma_other_kind(writes: Seq<VmcsWrite>, kind: u64, field: u64)
    requires
        all_of_kind(writes, kind),
        field / 1024 % 4 != kind,
    ensures
        spares(writes, field),
{
}

/// The place of a field among the writes of the controls.
spec fn control_place(field: u64) -> int {
    if field == 0x4000 {
        0
    } else if field == 0x4002 {
        1
    } else if field == 0x401e {
        2
    } else if field == 0x400c {
        3
    } else if field == 0x4012 {
        4
    } else if field == 0x4004 {
        5
    } else if field == 0x4006 {
        6
    } else if field == 0x4008 {
        7
    } else if field == 0x400a {
        8
    } else if field == 0x400e {
        9
    } else if field == 0x4010 {
        10
    } else if field == 0x4014 {
        11
    } else if field == 0x4016 {
        12
    } else if field == 0x6000 {
        13
    } else if field == 0x6002 {
        14
    } else if field == 0x6004 {
        15
    } else if field == 0x6006 {
        16
    } else if field == 0x201a {
        17
    } else {
        18
    }
}

#[verifier::spinoff_prover]
proof fn lemma_control_fields(controls: Controls, root: u64)
    ensures
        control_writes(controls, root).len() == 18,
        control_writes(controls, root)[0].field == 0x4000,
        control_writes(controls, root)[1].field == 0x4002,
        control_writes(controls, root)[2].field == 0x401e,
        control_writes(controls, root)[3].field == 0x400c,
        control_writes(controls, root)[4].field == 0x4012,
        control_writes(controls, root)[5].field == 0x4004,
        control_writes(controls, root)[6].field == 0x4006,
        control_writes(controls, root)[7].field == 0x4008,
        control_writes(controls, root)[8].field == 0x400a,
        control_writes(controls, root)[9].field == 0x400e,
        control_writes(controls, root)[10].field == 0x4010,
        control_writes(controls, root)[11].field == 0x4014,
        control_writes(controls, root)[12].field == 0x4016,
        control_writes(controls, root)[13].field == 0x6000,
        control_writes(controls, root)[14].field == 0x6002,
        control_writes(controls, root)[15].field == 0x6004,
        control_writes(controls, root)[16].field == 0x6006,
        control_writes(controls, root)[17].field == 0x201a,
{
}

#[verifier::spinoff_prover]
proof fn lemma_control_distinct(controls: Controls, root: u64)
    ensures
        control_writes(controls, root).len() == 18,
        all_of_kind(control_writes(controls, root), 0),
        forall|one: int, two: int|
            0 <= one < two < 18 ==> (#[trigger] control_writes(controls, root)[one]).field != (
            #[trigger] control_writes(controls, root)[two]).field,
{
    lemma_control_fields(controls, root);
    let writes = control_writes(controls, root);
    assert forall|index: int| 0 <= index < 18 implies control_place(
        (#[trigger] writes[index]).field,
    ) == index && writes[index].field / 1024 % 4 == 0 by {
    }
    assert forall|one: int, two: int| 0 <= one < two < 18 implies (#[trigger] writes[one]).field != (
    #[trigger] writes[two]).field by {
        assert(control_place(writes[one].field) == one);
        assert(control_place(writes[two].field) == two);
    }
}

/// The writes of the eight segments, one after the other.
proof fn lemma_segment_at(segments: Seq<Segment>, place: int)
    requires
        0 <= place < segments.len(),
    ensures
        all_segment_writes(segments).len() == 4 * segments.len(),
        forall|part: int|
            0 <= part < 4 ==> all_segment_writes(segments)[4 * place + part] == (
            #[trigger] segment_writes(segments[place])[part]),
    decreases segments.len(),
{
    reveal_with_fuel(all_segment_writes, 2);
    let fewer = segments.drop_last();
    if fewer.len() > 0 {
        lemma_segment_at(fewer, if place < fewer.len() {
            place
        } else {
            0
        });
    }
    assert forall|part: int| 0 <= part < 4 implies all_segment_writes(segments)[4 * place + part]
        == (#[trigger] segment_writes(segments[place])[part]) by {
        if place < fewer.len() {
            assert(fewer[place] == segments[place]);
            assert(all_segment_writes(fewer)[4 * place + part] == segment_writes(
                fewer[place],
            )[part]);
        }
    }
}

/// The place of a field among the writes of the guest's state.
spec fn guest_place(field: u64) -> int {
    if field == 0x6800 {
        0
    } else if field == 0x6802 {
        1
    } else if field == 0x6804 {
        2
    } else if field == 0x681a {
        3
    } else if field == 0x681c {
        4
    } else if field == 0x681e {
        5
    } else if field == 0x6820 {
        6
    } else if field == 0x6822 {
        7
    } else if field == 0x2800 {
        8
    } else if field == 0x2802 {
        9
    } else if field == 0x2804 {
        10
    } else if field == 0x2806 {
        11
    } else if field == 0x800 {
        12
    } else if field == 0x6806 {
        13
    } else if field == 0x4800 {
        14
    } else if field == 0x4814 {
        15
    } else if field == 0x802 {
        16
    } else if field == 0x6808 {
        17
    } else if field == 0x4802 {
        18
    } else if field == 0x4816 {
        19
    } else if field == 0x804 {
        20
    } else if field == 0x680a {
        21
    } else if field == 0x4804 {
        22
    } else if field == 0x4818 {
        23
    } else if field == 0x806 {
        24
    } else if field == 0x680c {
        25
    } else if field == 0x4806 {
        26
    } else if field == 0x481a {
        27
    } else if field == 0x808 {
        28
    } else if field == 0x680e {
        29
    } else if field == 0x4808 {
        30
    } else if field == 0x481c {
        31
    } else if field == 0x80a {
        32
    } else if field == 0x6810 {
        33
    } else if field == 0x480a {
        34
    } else if field == 0x481e {
        35
    } else if field == 0x80c {
        36
    } else if field == 0x6812 {
        37
    } else if field == 0x480c {
        38
    } else if field == 0x4820 {
        39
    } else if field == 0x80e {
        40
    } else if field == 0x6814 {
        41
    } else if field == 0x480e {
        42
    } else if field == 0x4822 {
        43
    } else if field == 0x6816 {
        44
    } else if field == 0x4810 {
        45
    } else if field == 0x6818 {
        46
    } else if field == 0x4812 {
        47
    } else if field == 0x4824 {
        48
    } else if field == 0x4826 {
        49
    } else if field == 0x482a {
        50
    } else if field == 0x6824 {
        51
    } else if field == 0x6826 {
        52
    } else {
        53
    }
}

#[verifier::spinoff_prover]
proof fn lemma_guest_fields(msrs: GuestMsrs)
    ensures
        guest_writes(msrs)[1].value == 0x1000,
        guest_writes(msrs)[3].value == 0x400,
        guest_writes(msrs)[4].value == 0x6000,
        guest_writes(msrs)[5].value == 0x4000,
        guest_writes(msrs)[6].value == 2,
        guest_writes(msrs)[7].value == 0,
        guest_writes(msrs)[8].value == 0xffff_ffff_ffff_ffff,
        guest_writes(msrs)[9].value == 0,
        guest_writes(msrs)[12].value == 0x10,
        guest_writes(msrs)[13].value == 0,
        guest_writes(msrs)[14].value == 0xffff_ffff,
        guest_writes(msrs)[15].value == 0xc093,
        guest_writes(msrs)[16].value == 8,
        guest_writes(msrs)[17].value == 0,
        guest_writes(msrs)[18].value == 0xffff_ffff,
        guest_writes(msrs)[19].value == 0xa09b,
        guest_writes(msrs)[20].value == 0x10,
        guest_writes(msrs)[21].value == 0,
        guest_writes(msrs)[22].value == 0xffff_ffff,
        guest_writes(msrs)[23].value == 0xc093,
        guest_writes(msrs)[24].value == 0x10,
        guest_writes(msrs)[25].value == 0,
        guest_writes(msrs)[26].value == 0xffff_ffff,
        guest_writes(msrs)[27].value == 0xc093,
        guest_writes(msrs)[28].value == 0x10,
        guest_writes(msrs)[29].value == 0,
        guest_writes(msrs)[30].value == 0xffff_ffff,
        guest_writes(msrs)[31].value == 0xc093,
        guest_writes(msrs)[32].value == 0x10,
        guest_writes(msrs)[33].value == 0,
        guest_writes(msrs)[34].value == 0xffff_ffff,
        guest_writes(msrs)[35].value == 0xc093,
        guest_writes(msrs)[36].value == 0,
        guest_writes(msrs)[37].value == 0,
        guest_writes(msrs)[38].value == 0,
        guest_writes(msrs)[39].value == 0x1_0000,
        guest_writes(msrs)[40].value == 0x18,
        guest_writes(msrs)[41].value == 0,
        guest_writes(msrs)[42].value == 0x67,
        guest_writes(msrs)[43].value == 0x8b,
        guest_writes(msrs)[44].value == 0,
        guest_writes(msrs)[45].value == 0,
        guest_writes(msrs)[46].value == 0,
        guest_writes(msrs)[47].value == 0,
        guest_writes(msrs)[48].value == 0,
        guest_writes(msrs)[49].value == 0,
        guest_writes(msrs)[50].value == 0,
        guest_writes(msrs)[51].value == 0,
        guest_writes(msrs)[52].value == 0,
        guest_writes(msrs)[0].value == (0x8001_0033u64 | msrs.cr0_fixed0) & msrs.cr0_fixed1,
        guest_writes(msrs)[2].value == (0x20u64 | msrs.cr4_fixed0) & msrs.cr4_fixed1,
        guest_writes(msrs)[10].value == msrs.pat,
        guest_writes(msrs)[11].value == msrs.efer | 0x100 | 0x400,
        guest_writes(msrs).len() == 53,
        guest_writes(msrs)[0].field == 0x6800,
        guest_writes(msrs)[1].field == 0x6802,
        guest_writes(msrs)[2].field == 0x6804,
        guest_writes(msrs)[3].field == 0x681a,
        guest_writes(msrs)[4].field == 0x681c,
        guest_writes(msrs)[5].field == 0x681e,
        guest_writes(msrs)[6].field == 0x6820,
        guest_writes(msrs)[7].field == 0x6822,
        guest_writes(msrs)[8].field == 0x2800,
        guest_writes(msrs)[9].field == 0x2802,
        guest_writes(msrs)[10].field == 0x2804,
        guest_writes(msrs)[11].field == 0x2806,
        guest_writes(msrs)[12].field == 0x800,
        guest_writes(msrs)[13].field == 0x6806,
        guest_writes(msrs)[14].field == 0x4800,
        guest_writes(msrs)[15].field == 0x4814,
        guest_writes(msrs)[16].field == 0x802,
        guest_writes(msrs)[17].field == 0x6808,
        guest_writes(msrs)[18].field == 0x4802,
        guest_writes(msrs)[19].field == 0x4816,
        guest_writes(msrs)[20].field == 0x804,
        guest_writes(msrs)[21].field == 0x680a,
        guest_writes(msrs)[22].field == 0x4804,
        guest_writes(msrs)[23].field == 0x4818,
        guest_writes(msrs)[24].field == 0x806,
        guest_writes(msrs)[25].field == 0x680c,
        guest_writes(msrs)[26].field == 0x4806,
        guest_writes(msrs)[27].field == 0x481a,
        guest_writes(msrs)[28].field == 0x808,
        guest_writes(msrs)[29].field == 0x680e,
        guest_writes(msrs)[30].field == 0x4808,
        guest_writes(msrs)[31].field == 0x481c,
        guest_writes(msrs)[32].field == 0x80a,
        guest_writes(msrs)[33].field == 0x6810,
        guest_writes(msrs)[34].field == 0x480a,
        guest_writes(msrs)[35].field == 0x481e,
        guest_writes(msrs)[36].field == 0x80c,
        guest_writes(msrs)[37].field == 0x6812,
        guest_writes(msrs)[38].field == 0x480c,
        guest_writes(msrs)[39].field == 0x4820,
        guest_writes(msrs)[40].field == 0x80e,
        guest_writes(msrs)[41].field == 0x6814,
        guest_writes(msrs)[42].field == 0x480e,
        guest_writes(msrs)[43].field == 0x4822,
        guest_writes(msrs)[44].field == 0x6816,
        guest_writes(msrs)[45].field == 0x4810,
        guest_writes(msrs)[46].field == 0x6818,
        guest_writes(msrs)[47].field == 0x4812,
        guest_writes(msrs)[48].field == 0x4824,
        guest_writes(msrs)[49].field == 0x4826,
        guest_writes(msrs)[50].field == 0x482a,
        guest_writes(msrs)[51].field == 0x6824,
        guest_writes(msrs)[52].field == 0x6826,
{
    let segments = guest_segments();
    let registers = guest_register_writes(msrs);
    let tables = guest_table_writes();
    let flat = all_segment_writes(segments);
    let all = guest_writes(msrs);
    lemma_segment_at(segments, 0);
    assert(all[12] == flat[0]);
    assert(flat[0] == segment_writes(segments[0])[0]);
    assert(all[13] == flat[1]);
    assert(flat[1] == segment_writes(segments[0])[1]);
    assert(all[14] == flat[2]);
    assert(flat[2] == segment_writes(segments[0])[2]);
    assert(all[15] == flat[3]);
    assert(flat[3] == segment_writes(segments[0])[3]);
    lemma_segment_at(segments, 1);
    assert(all[16] == flat[4]);
    assert(flat[4] == segment_writes(segments[1])[0]);
    assert(all[17] == flat[5]);
    assert(flat[5] == segment_writes(segments[1])[1]);
    assert(all[18] == flat[6]);
    assert(flat[6] == segment_writes(segments[1])[2]);
    assert(all[19] == flat[7]);
    assert(flat[7] == segment_writes(segments[1])[3]);
    lemma_segment_at(segments, 2);
    assert(all[20] == flat[8]);
    assert(flat[8] == segment_writes(segments[2])[0]);
    assert(all[21] == flat[9]);
    assert(flat[9] == segment_writes(segments[2])[1]);
    assert(all[22] == flat[10]);
    assert(flat[10] == segment_writes(segments[2])[2]);
    assert(all[23] == flat[11]);
    assert(flat[11] == segment_writes(segments[2])[3]);
    lemma_segment_at(segments, 3);
    assert(all[24] == flat[12]);
    assert(flat[12] == segment_writes(segments[3])[0]);
    assert(all[25] == flat[13]);
    assert(flat[13] == segment_writes(segments[3])[1]);
    assert(all[26] == flat[14]);
    assert(flat[14] == segment_writes(segments[3])[2]);
    assert(all[27] == flat[15]);
    assert(flat[15] == segment_writes(segments[3])[3]);
    lemma_segment_at(segments, 4);
    assert(all[28] == flat[16]);
    assert(flat[16] == segment_writes(segments[4])[0]);
    assert(all[29] == flat[17]);
    assert(flat[17] == segment_writes(segments[4])[1]);
    assert(all[30] == flat[18]);
    assert(flat[18] == segment_writes(segments[4])[2]);
    assert(all[31] == flat[19]);
    assert(flat[19] == segment_writes(segments[4])[3]);
    lemma_segment_at(segments, 5);
    assert(all[32] == flat[20]);
    assert(flat[20] == segment_writes(segments[5])[0]);
    assert(all[33] == flat[21]);
    assert(flat[21] == segment_writes(segments[5])[1]);
    assert(all[34] == flat[22]);
    assert(flat[22] == segment_writes(segments[5])[2]);
    assert(all[35] == flat[23]);
    assert(flat[23] == segment_writes(segments[5])[3]);
    lemma_segment_at(segments, 6);
    assert(all[36] == flat[24]);
    assert(flat[24] == segment_writes(segments[6])[0]);
    assert(all[37] == flat[25]);
    assert(flat[25] == segment_writes(segments[6])[1]);
    assert(all[38] == flat[26]);
    assert(flat[26] == segment_writes(segments[6])[2]);
    assert(all[39] == flat[27]);
    assert(flat[27] == segment_writes(segments[6])[3]);
    lemma_segment_at(segments, 7);
    assert(all[40] == flat[28]);
    assert(flat[28] == segment_writes(segments[7])[0]);
    assert(all[41] == flat[29]);
    assert(flat[29] == segment_writes(segments[7])[1]);
    assert(all[42] == flat[30]);
    assert(flat[30] == segment_writes(segments[7])[2]);
    assert(all[43] == flat[31]);
    assert(flat[31] == segment_writes(segments[7])[3]);
    assert(all[44] == tables[0]);
    assert(all[45] == tables[1]);
    assert(all[46] == tables[2]);
    assert(all[47] == tables[3]);
    assert(all[48] == tables[4]);
    assert(all[49] == tables[5]);
    assert(all[50] == tables[6]);
    assert(all[51] == tables[7]);
    assert(all[52] == tables[8]);
}

#[verifier::spinoff_prover]
proof fn lemma_guest_distinct(msrs: GuestMsrs)
    ensures
        guest_writes(msrs).len() == 53,
        all_of_kind(guest_writes(msrs), 2),
        forall|one: int, two: int|
            0 <= one < two < 53 ==> (#[trigger] guest_writes(msrs)[one]).field != (
            #[trigger] guest_writes(msrs)[two]).field,
{
    lemma_guest_fields(msrs);
    let writes = guest_writes(msrs);
    assert forall|index: int| 0 <= index < 53 implies guest_place(
        (#[trigger] writes[index]).field,
    ) == index && writes[index].field / 1024 % 4 == 2 by {
    }
    assert forall|one: int, two: int| 0 <= one < two < 53 implies (#[trigger] writes[one]).field != (
    #[trigger] writes[two]).field by {
        assert(guest_place(writes[one].field) == one);
        assert(guest_place(writes[two].field) == two);
    }
}

/// The place of a field among the writes of the host's state.
spec fn host_place(field: u64) -> int {
    if field == 0x6c00 {
        0
    } else if field == 0x6c02 {
        1
    } else if field == 0x6c04 {
        2
    } else if field == 0xc00 {
        3
    } else if field == 0xc02 {
        4
    } else if field == 0xc04 {
        5
    } else if field == 0xc06 {
        6
    } else if field == 0xc08 {
        7
    } else if field == 0xc0a {
        8
    } else if field == 0xc0c {
        9
    } else if field == 0x6c06 {
        10
    } else if field == 0x6c08 {
        11
    } else if field == 0x6c0a {
        12
    } else if field == 0x6c0c {
        13
    } else if field == 0x6c0e {
        14
    } else if field == 0x2c00 {
        15
    } else if field == 0x2c02 {
        16
    } else if field == 0x4c00 {
        17
    } else if field == 0x6c10 {
        18
    } else if field == 0x6c12 {
        19
    } else if field == 0x6c14 {
        20
    } else if field == 0x6c16 {
        21
    } else {
        22
    }
}

#[verifier::spinoff_prover]
proof fn lemma_host_fields(host: HostRegisters,
    msrs: HostMsrs,
    top: u64)
    ensures
        host_writes(host, msrs, top).len() == 22,
        host_writes(host, msrs, top)[0].field == 0x6c00,
        host_writes(host, msrs, top)[1].field == 0x6c02,
        host_writes(host, msrs, top)[2].field == 0x6c04,
        host_writes(host, msrs, top)[3].field == 0xc00,
        host_writes(host, msrs, top)[4].field == 0xc02,
        host_writes(host, msrs, top)[5].field == 0xc04,
        host_writes(host, msrs, top)[6].field == 0xc06,
        host_writes(host, msrs, top)[7].field == 0xc08,
        host_writes(host, msrs, top)[8].field == 0xc0a,
        host_writes(host, msrs, top)[9].field == 0xc0c,
        host_writes(host, msrs, top)[10].field == 0x6c06,
        host_writes(host, msrs, top)[11].field == 0x6c08,
        host_writes(host, msrs, top)[12].field == 0x6c0a,
        host_writes(host, msrs, top)[13].field == 0x6c0c,
        host_writes(host, msrs, top)[14].field == 0x6c0e,
        host_writes(host, msrs, top)[15].field == 0x2c00,
        host_writes(host, msrs, top)[16].field == 0x2c02,
        host_writes(host, msrs, top)[17].field == 0x4c00,
        host_writes(host, msrs, top)[18].field == 0x6c10,
        host_writes(host, msrs, top)[19].field == 0x6c12,
        host_writes(host, msrs, top)[20].field == 0x6c14,
        host_writes(host, msrs, top)[21].field == 0x6c16,
{
}

#[verifier::spinoff_prover]
proof fn lemma_host_distinct(host: HostRegisters,
    msrs: HostMsrs,
    top: u64)
    ensures
        host_writes(host, msrs, top).len() == 22,
        all_of_kind(host_writes(host, msrs, top), 3),
        forall|one: int, two: int|
            0 <= one < two < 22 ==> (#[trigger] host_writes(host, msrs, top)[one]).field != (
            #[trigger] host_writes(host, msrs, top)[two]).field,
{
    lemma_host_fields(host, msrs, top);
    let writes = host_writes(host, msrs, top);
    assert forall|index: int| 0 <= index < 22 implies host_place(
        (#[trigger] writes[index]).field,
    ) == index && writes[index].field / 1024 % 4 == 3 by {
    }
    assert forall|one: int, two: int| 0 <= one < two < 22 implies (#[trigger] writes[one]).field != (
    #[trigger] writes[two]).field by {
        assert(host_place(writes[one].field) == one);
        assert(host_place(writes[two].field) == two);
    }
}

/// The three runs of writes of a launch that succeeded: each field has what was written
/// to it.
#[verifier::spinoff_prover]
proof fn lemma_launched(resources: VmResourcesView, info: VmxInfo, before: Processor)
    requires
        launched(resources, info, before).1 == Some(Ok::<(), VmError>(())),
    ensures
        ({
            let vmcs = launched(resources, info, before).0.vmcs;
            let controls = controls_for(
                capabilities_in(phase_values(before, Phase::Controls, info)),
            );
            let first = control_writes(controls, resources.ept_root);
            let second = guest_writes(guest_msrs_in(phase_values(before, Phase::Guest, info)));
            let third = host_writes(
                before.host_registers(),
                host_msrs_in(phase_values(before, Phase::Host, info)),
                resources.vmexit_stack_top,
            );
            &&& forall|index: int|
                0 <= index < first.len() ==> vmcs[(#[trigger] first[index]).field]
                    == first[index].value
            &&& forall|index: int|
                0 <= index < second.len() ==> vmcs[(#[trigger] second[index]).field]
                    == second[index].value
            &&& forall|index: int|
                0 <= index < third.len() ==> vmcs[(#[trigger] third[index]).field]
                    == third[index].value
        }),
{
    law_launch(resources, info, before);
    let stored = Processor {
        stored: before.stored.insert(resources.vmcs, info.revision_id),
        ..before
    };
    let controls = controls_for(capabilities_in(phase_values(before, Phase::Controls, info)));
    let guest_msrs = guest_msrs_in(phase_values(before, Phase::Guest, info));
    let host_msrs = host_msrs_in(phase_values(before, Phase::Host, info));
    let first = control_writes(controls, resources.ept_root);
    let second = guest_writes(guest_msrs);
    let third = host_writes(before.host_registers(), host_msrs, resources.vmexit_stack_top);
    let vmcs = launched(resources, info, before).0.vmcs;
    lemma_control_distinct(controls, resources.ept_root);
    lemma_guest_distinct(guest_msrs);
    lemma_host_distinct(before.host_registers(), host_msrs, resources.vmexit_stack_top);
    lemma_write_all_join(stored, first, second);
    lemma_write_all_join(stored, first + second, third);
    let one = write_all(stored, first).0;
    let two = write_all(one, second).0;
    let three = write_all(two, third).0;
    assert(vmcs == three.vmcs);
    lemma_distinct_writes(stored, first);
    lemma_distinct_writes(one, second);
    lemma_distinct_writes(two, third);
    assert forall|index: int| 0 <= index < first.len() implies vmcs[(
    #[trigger] first[index]).field] == first[index].value by {
        let field = first[index].field;
        lemma_other_kind(second, 2, field);
        lemma_other_kind(third, 3, field);
        lemma_spared(one, second, field);
        lemma_spared(two, third, field);
    }
    assert forall|index: int| 0 <= index < second.len() implies vmcs[(
    #[trigger] second[index]).field] == second[index].value by {
        let field = second[index].field;
        lemma_other_kind(third, 3, field);
        lemma_spared(two, third, field);
    }
}

/// The registers that a launch reads, by number.
proof fn lemma_phase_values(processor: Processor, info: VmxInfo)
    ensures
        ({
            let msrs = processor.msrs;
            let controls = phase_values(processor, Phase::Controls, info);
            let guest = phase_values(processor, Phase::Guest, info);
            let host = phase_values(processor, Phase::Host, info);
            &&& info.true_controls ==> controls[0] == msrs[0x48d] && controls[1] == msrs[0x48e]
                && controls[3] == msrs[0x48f] && controls[4] == msrs[0x490]
            &&& !info.true_controls ==> controls[0] == msrs[0x481] && controls[1] == msrs[0x482]
                && controls[3] == msrs[0x483] && controls[4] == msrs[0x484]
            &&& controls[2] == msrs[0x48b]
            &&& guest[0] == msrs[0x486] && guest[1] == msrs[0x487]
            &&& guest[2] == msrs[0x488] && guest[3] == msrs[0x489]
            &&& guest[4] == msrs[0xc000_0080] && guest[5] == msrs[0x277]
            &&& host[0] == msrs[0xc000_0100] && host[1] == msrs[0xc000_0101]
            &&& host[2] == msrs[0x277] && host[3] == msrs[0xc000_0080]
            &&& host[4] == msrs[0x174] && host[5] == msrs[0x175] && host[6] == msrs[0x176]
        }),
{
}

/// The number of the capability register for a kind of control: that of the true
/// controls where the processor has them.
pub open spec fn capability_number(info: VmxInfo, plain: u32, precise: u32) -> u32 {
    if info.true_controls {
        precise
    } else {
        plain
    }
}

/// A guest that was launched exits on HLT, on moves to debug registers and on every
/// access to a port, as far as the processor lets it; it runs in extended page tables of
/// four levels, in long mode, and enters and leaves with its own extended features. No
/// exception and no change of a control register makes it exit by itself.
pub proof fn law_launched_controls(
    resources: VmResourcesView,
    info: VmxInfo,
    before: Processor,
)
    requires
        launched(resources, info, before).1 == Some(Ok::<(), VmError>(())),
    ensures
        ({
            let vmcs = launched(resources, info, before).0.vmcs;
            let msrs = before.msrs;
            &&& suits(vmcs[0x4000], 0, msrs[capability_number(info, 0x481, 0x48d)])
            &&& suits(vmcs[0x4002], 0x8180_0080, msrs[capability_number(info, 0x482, 0x48e)])
            &&& suits(vmcs[0x401e], 0x2, msrs[0x48b])
            &&& suits(vmcs[0x400c], 0x30_0200, msrs[capability_number(info, 0x483, 0x48f)])
            &&& suits(vmcs[0x4012], 0x8200, msrs[capability_number(info, 0x484, 0x490)])
            &&& vmcs[0x4004] == 0
            &&& vmcs[0x4006] == 0
            &&& vmcs[0x4008] == 0
            &&& vmcs[0x400a] == 0
            &&& vmcs[0x400e] == 0
            &&& vmcs[0x4010] == 0
            &&& vmcs[0x4014] == 0
            &&& vmcs[0x4016] == 0
            &&& vmcs[0x6000] == 0
            &&& vmcs[0x6002] == 0
            &&& vmcs[0x6004] == 0
            &&& vmcs[0x6006] == 0
            &&& vmcs[0x201a] == resources.ept_root | 0x38
        }),
{
    let root = resources.ept_root;
    let c = controls_for(capabilities_in(phase_values(before, Phase::Controls, info)));
    let capabilities = capabilities_in(phase_values(before, Phase::Controls, info));
    lemma_launched(resources, info, before);
    lemma_control_fields(c, root);
    lemma_phase_values(before, info);
    let first = control_writes(c, root);
    let vmcs = launched(resources, info, before).0.vmcs;
    lemma_sufficient(0, 0, 0, 0);
    lemma_registers(0, 0, 0, root, 0);
    law_adjusted_controls_are_within(0, capabilities.pin);
    law_adjusted_controls_are_within(0x8180_0080, capabilities.primary);
    law_adjusted_controls_are_within(0x2, capabilities.secondary);
    law_adjusted_controls_are_within(0x30_0200, capabilities.exit);
    law_adjusted_controls_are_within(0x8200, capabilities.entry);
    assert(vmcs[first[0].field] == first[0].value);
    assert(vmcs[first[1].field] == first[1].value);
    assert(vmcs[first[2].field] == first[2].value);
    assert(vmcs[first[3].field] == first[3].value);
    assert(vmcs[first[4].field] == first[4].value);
    assert(vmcs[first[5].field] == first[5].value);
    assert(vmcs[first[6].field] == first[6].value);
    assert(vmcs[first[7].field] == first[7].value);
    assert(vmcs[first[8].field] == first[8].value);
    assert(vmcs[first[9].field] == first[9].value);
    assert(vmcs[first[10].field] == first[10].value);
    assert(vmcs[first[11].field] == first[11].value);
    assert(vmcs[first[12].field] == first[12].value);
    assert(vmcs[first[13].field] == first[13].value);
    assert(vmcs[first[14].field] == first[14].value);
    assert(vmcs[first[15].field] == first[15].value);
    assert(vmcs[first[16].field] == first[16].value);
    assert(vmcs[first[17].field] == first[17].value);
}

/// A guest that was launched is in long mode with paging and write protection on, as the
/// processor demands and allows; its extended features are the host's with long mode on;
/// it starts at 0x4000, on a stack that ends at 0x6000, with its tables at 0x1000; its
/// segments are flat, and it has no tables of descriptors.
#[verifier::spinoff_prover]
pub proof fn law_launched_guest_state(
    resources: VmResourcesView,
    info: VmxInfo,
    before: Processor,
)
    requires
        launched(resources, info, before).1 == Some(Ok::<(), VmError>(())),
    ensures
        ({
            let vmcs = launched(resources, info, before).0.vmcs;
            let msrs = before.msrs;
            &&& is_within(vmcs[0x6800], 0x8001_0033, msrs[0x486], msrs[0x487])
            &&& is_within(vmcs[0x6804], 0x20, msrs[0x488], msrs[0x489])
            &&& vmcs[0x2806] & 0x500 == 0x500
            &&& vmcs[0x2806] & 0xffff_ffff_ffff_faff == msrs[0xc000_0080] & 0xffff_ffff_ffff_faff
            &&& vmcs[0x6802] == 0x1000
            &&& vmcs[0x681a] == 0x400
            &&& vmcs[0x681c] == 0x6000
            &&& vmcs[0x681e] == 0x4000
            &&& vmcs[0x6820] == 2
            &&& vmcs[0x6822] == 0
            &&& vmcs[0x2800] == 0xffff_ffff_ffff_ffff
            &&& vmcs[0x2802] == 0
            &&& vmcs[0x2804] == msrs[0x277]
            &&& vmcs[0x800] == 0x10
            &&& vmcs[0x6806] == 0
            &&& vmcs[0x4800] == 0xffff_ffff
            &&& vmcs[0x4814] == 0xc093
            &&& vmcs[0x802] == 8
            &&& vmcs[0x6808] == 0
            &&& vmcs[0x4802] == 0xffff_ffff
            &&& vmcs[0x4816] == 0xa09b
            &&& vmcs[0x804] == 0x10
            &&& vmcs[0x680a] == 0
            &&& vmcs[0x4804] == 0xffff_ffff
            &&& vmcs[0x4818] == 0xc093
            &&& vmcs[0x806] == 0x10
            &&& vmcs[0x680c] == 0
            &&& vmcs[0x4806] == 0xffff_ffff
            &&& vmcs[0x481a] == 0xc093
            &&& vmcs[0x808] == 0x10
            &&& vmcs[0x680e] == 0
            &&& vmcs[0x4808] == 0xffff_ffff
            &&& vmcs[0x481c] == 0xc093
            &&& vmcs[0x80a] == 0x10
            &&& vmcs[0x6810] == 0
            &&& vmcs[0x480a] == 0xffff_ffff
            &&& vmcs[0x481e] == 0xc093
            &&& vmcs[0x80c] == 0
            &&& vmcs[0x6812] == 0
            &&& vmcs[0x480c] == 0
            &&& vmcs[0x4820] == 0x1_0000
            &&& vmcs[0x80e] == 0x18
            &&& vmcs[0x6814] == 0
            &&& vmcs[0x480e] == 0x67
            &&& vmcs[0x4822] == 0x8b
            &&& vmcs[0x6816] == 0
            &&& vmcs[0x4810] == 0
            &&& vmcs[0x6818] == 0
            &&& vmcs[0x4812] == 0
            &&& vmcs[0x4824] == 0
            &&& vmcs[0x4826] == 0
            &&& vmcs[0x482a] == 0
            &&& vmcs[0x6824] == 0
            &&& vmcs[0x6826] == 0
        }),
{
    let msrs = guest_msrs_in(phase_values(before, Phase::Guest, info));
    lemma_launched(resources, info, before);
    lemma_guest_fields(msrs);
    lemma_phase_values(before, info);
    lemma_registers(0x8001_0033, msrs.cr0_fixed0, msrs.cr0_fixed1, msrs.efer, 0);
    lemma_registers(0x20, msrs.cr4_fixed0, msrs.cr4_fixed1, msrs.efer, 0);
    let second = guest_writes(msrs);
    let vmcs = launched(resources, info, before).0.vmcs;
    assert(vmcs[second[0].field] == second[0].value);
    assert(vmcs[second[1].field] == second[1].value);
    assert(vmcs[second[2].field] == second[2].value);
    assert(vmcs[second[3].field] == second[3].value);
    assert(vmcs[second[4].field] == second[4].value);
    assert(vmcs[second[5].field] == second[5].value);
    assert(vmcs[second[6].field] == second[6].value);
    assert(vmcs[second[7].field] == second[7].value);
    assert(vmcs[second[8].field] == second[8].value);
    assert(vmcs[second[9].field] == second[9].value);
    assert(vmcs[second[10].field] == second[10].value);
    assert(vmcs[second[11].field] == second[11].value);
    assert(vmcs[second[12].field] == second[12].value);
    assert(vmcs[second[13].field] == second[13].value);
    assert(vmcs[second[14].field] == second[14].value);
    assert(vmcs[second[15].field] == second[15].value);
    assert(vmcs[second[16].field] == second[16].value);
    assert(vmcs[second[17].field] == second[17].value);
    assert(vmcs[second[18].field] == second[18].value);
    assert(vmcs[second[19].field] == second[19].value);
    assert(vmcs[second[20].field] == second[20].value);
    assert(vmcs[second[21].field] == second[21].value);
    assert(vmcs[second[22].field] == second[22].value);
    assert(vmcs[second[23].field] == second[23].value);
    assert(vmcs[second[24].field] == second[24].value);
    assert(vmcs[second[25].field] == second[25].value);
    assert(vmcs[second[26].field] == second[26].value);
    assert(vmcs[second[27].field] == second[27].value);
    assert(vmcs[second[28].field] == second[28].value);
    assert(vmcs[second[29].field] == second[29].value);
    assert(vmcs[second[30].field] == second[30].value);
    assert(vmcs[second[31].field] == second[31].value);
    assert(vmcs[second[32].field] == second[32].value);
    assert(vmcs[second[33].field] == second[33].value);
    assert(vmcs[second[34].field] == second[34].value);
    assert(vmcs[second[35].field] == second[35].value);
    assert(vmcs[second[36].field] == second[36].value);
    assert(vmcs[second[37].field] == second[37].value);
    assert(vmcs[second[38].field] == second[38].value);
    assert(vmcs[second[39].field] == second[39].value);
    assert(vmcs[second[40].field] == second[40].value);
    assert(vmcs[second[41].field] == second[41].value);
    assert(vmcs[second[42].field] == second[42].value);
    assert(vmcs[second[43].field] == second[43].value);
    assert(vmcs[second[44].field] == second[44].value);
    assert(vmcs[second[45].field] == second[45].value);
    assert(vmcs[second[46].field] == second[46].value);
    assert(vmcs[second[47].field] == second[47].value);
    assert(vmcs[second[48].field] == second[48].value);
    assert(vmcs[second[49].field] == second[49].value);
    assert(vmcs[second[50].field] == second[50].value);
    assert(vmcs[second[51].field] == second[51].value);
    assert(vmcs[second[52].field] == second[52].value);
}

/// When a guest that was launched exits, the host goes on at its exit entry, on the top of
/// the exit stack, with the registers, selectors and bases that it had, the selectors
/// without their low three bits.
#[verifier::spinoff_prover]
pub proof fn law_launched_host_state(
    resources: VmResourcesView,
    info: VmxInfo,
    before: Processor,
)
    requires
        launched(resources, info, before).1 == Some(Ok::<(), VmError>(())),
    ensures
        ({
            let vmcs = launched(resources, info, before).0.vmcs;
            let msrs = before.msrs;
            &&& vmcs[0x6c00] == before.cr0
            &&& vmcs[0x6c02] == before.cr3
            &&& vmcs[0x6c04] == before.cr4
            &&& vmcs[0xc00] == (before.host.es - before.host.es % 8)
            &&& vmcs[0xc02] == (before.host.cs - before.host.cs % 8)
            &&& vmcs[0xc04] == (before.host.ss - before.host.ss % 8)
            &&& vmcs[0xc06] == (before.host.ds - before.host.ds % 8)
            &&& vmcs[0xc08] == (before.host.fs - before.host.fs % 8)
            &&& vmcs[0xc0a] == (before.host.gs - before.host.gs % 8)
            &&& vmcs[0xc0c] == (before.host.tr - before.host.tr % 8)
            &&& vmcs[0x6c06] == msrs[0xc000_0100]
            &&& vmcs[0x6c08] == msrs[0xc000_0101]
            &&& vmcs[0x6c0a] == before.host.tss_base
            &&& vmcs[0x6c0c] == before.host.gdtr_base
            &&& vmcs[0x6c0e] == before.host.idtr_base
            &&& vmcs[0x2c00] == msrs[0x277]
            &&& vmcs[0x2c02] == msrs[0xc000_0080]
            &&& vmcs[0x4c00] == msrs[0x174]
            &&& vmcs[0x6c10] == msrs[0x175]
            &&& vmcs[0x6c12] == msrs[0x176]
            &&& vmcs[0x6c14] == resources.vmexit_stack_top
            &&& vmcs[0x6c16] == before.host.vmexit_entry
        }),
{
    let host = before.host_registers();
    let msrs = host_msrs_in(phase_values(before, Phase::Host, info));
    let top = resources.vmexit_stack_top;
    lemma_launched(resources, info, before);
    lemma_host_fields(host, msrs, top);
    lemma_phase_values(before, info);
    lemma_registers(0, 0, 0, 0, host.es);
    lemma_registers(0, 0, 0, 0, host.cs);
    lemma_registers(0, 0, 0, 0, host.ss);
    lemma_registers(0, 0, 0, 0, host.ds);
    lemma_registers(0, 0, 0, 0, host.fs);
    lemma_registers(0, 0, 0, 0, host.gs);
    lemma_registers(0, 0, 0, 0, host.tr);
    let third = host_writes(host, msrs, top);
    let vmcs = launched(resources, info, before).0.vmcs;
    assert(vmcs[third[0].field] == third[0].value);
    assert(vmcs[third[1].field] == third[1].value);
    assert(vmcs[third[2].field] == third[2].value);
    assert(vmcs[third[3].field] == third[3].value);
    assert(vmcs[third[4].field] == third[4].value);
    assert(vmcs[third[5].field] == third[5].value);
    assert(vmcs[third[6].field] == third[6].value);
    assert(vmcs[third[7].field] == third[7].value);
    assert(vmcs[third[8].field] == third[8].value);
    assert(vmcs[third[9].field] == third[9].value);
    assert(vmcs[third[10].field] == third[10].value);
    assert(vmcs[third[11].field] == third[11].value);
    assert(vmcs[third[12].field] == third[12].value);
    assert(vmcs[third[13].field] == third[13].value);
    assert(vmcs[third[14].field] == third[14].value);
    assert(vmcs[third[15].field] == third[15].value);
    assert(vmcs[third[16].field] == third[16].value);
    assert(vmcs[third[17].field] == third[17].value);
    assert(vmcs[third[18].field] == third[18].value);
    assert(vmcs[third[19].field] == third[19].value);
    assert(vmcs[third[20].field] == third[20].value);
    assert(vmcs[third[21].field] == third[21].value);
}

/// The processor has what the guest cannot do without: secondary controls, extended page
/// tables, and long mode with the extended features on entry and exit.
pub open spec fn has_controls(info: VmxInfo, processor: Processor) -> bool {
    let msrs = processor.msrs;
    let primary = msrs[capability_number(info, 0x482, 0x48e)] / 0x1_0000_0000;
    let secondary = msrs[0x48b] / 0x1_0000_0000;
    let exit = msrs[capability_number(info, 0x483, 0x48f)] / 0x1_0000_0000;
    let entry = msrs[capability_number(info, 0x484, 0x490)] / 0x1_0000_0000;
    &&& primary & 0x8000_0000 == 0x8000_0000
    &&& secondary & 0x2 == 0x2
    &&& exit & 0x30_0200 == 0x30_0200
    &&& entry & 0x8200 == 0x8200
}

proof fn lemma_sufficient(primary: u64, secondary: u64, exit: u64, entry: u64)
    ensures
        adjusted(0x8180_0080, primary) & 0x8000_0000 != 0 <==> (primary / 0x1_0000_0000)
            & 0x8000_0000 == 0x8000_0000,
        adjusted(0x2, secondary) & 0x2 != 0 <==> (secondary / 0x1_0000_0000) & 0x2 == 0x2,
        adjusted(0x30_0200, exit) & 0x30_0200 == 0x30_0200 <==> (exit / 0x1_0000_0000) & 0x30_0200
            == 0x30_0200,
        adjusted(0x8200, entry) & 0x8200 == 0x8200 <==> (entry / 0x1_0000_0000) & 0x8200 == 0x8200,
        0x80u32 | 0x80_0000 | 0x100_0000 | 0x8000_0000 == 0x8180_0080,
        0x200u32 | 0x10_0000 | 0x20_0000 == 0x30_0200,
        0x200u32 | 0x8000 == 0x8200,
{
    let one = (0x8180_0080u32 | primary as u32) & ((primary >> 32) as u32);
    let two = (0x2u32 | secondary as u32) & ((secondary >> 32) as u32);
    let three = (0x30_0200u32 | exit as u32) & ((exit >> 32) as u32);
    let four = (0x8200u32 | entry as u32) & ((entry >> 32) as u32);
    assert((one & 0x8000_0000 != 0 <==> (primary / 0x1_0000_0000) & 0x8000_0000 == 0x8000_0000) && (
    two & 0x2 != 0 <==> (secondary / 0x1_0000_0000) & 0x2 == 0x2) && (three & 0x30_0200 == 0x30_0200
        <==> (exit / 0x1_0000_0000) & 0x30_0200 == 0x30_0200) && (four & 0x8200 == 0x8200 <==> (
    entry / 0x1_0000_0000) & 0x8200 == 0x8200) && 0x80u32 | 0x80_0000 | 0x100_0000 | 0x8000_0000
        == 0x8180_0080 && 0x200u32 | 0x10_0000 | 0x20_0000 == 0x30_0200 && 0x200u32 | 0x8000
        == 0x8200) by (bit_vector)
        requires
            one == (0x8180_0080u32 | primary as u32) & ((primary >> 32) as u32),
            two == (0x2u32 | secondary as u32) & ((secondary >> 32) as u32),
            three == (0x30_0200u32 | exit as u32) & ((exit >> 32) as u32),
            four == (0x8200u32 | entry as u32) & ((entry >> 32) as u32),
    ;
}

/// How a launch ends when every write to the control structure succeeds: the first thing
/// that the processor does not have or does not do decides, in this order. Nothing but the
/// control structure, the revision number in it, and the launch itself changes.
#[verifier::spinoff_prover]
pub proof fn law_launch_result(resources: VmResourcesView, info: VmxInfo, before: Processor)
    requires
        forall|field: u64, value: u64| !#[trigger] (before.fails)(Request::Vmwrite { field, value }),
    ensures
        ({
            let (after, result) = launched(resources, info, before);
            let narrow = !info.wide_physical_addresses && resources.vmcs >= 0x1_0000_0000;
            let ept = before.msrs[0x48c];
            &&& result == Some(
                if narrow {
                    Err::<(), VmError>(VmError::VmcsAddressWidth)
                } else if (before.fails)(Request::Vmclear { vmcs: resources.vmcs }) {
                    Err(VmError::VmclearFailed)
                } else if (before.fails)(Request::Vmptrld { vmcs: resources.vmcs }) {
                    Err(VmError::VmptrldFailed)
                } else if !has_controls(info, before) {
                    Err(VmError::ControlUnavailable)
                } else if ept & 0x40 == 0 || ept & 0x4000 == 0 {
                    Err(VmError::EptUnavailable)
                } else if (before.fails)(Request::Vmlaunch) {
                    Err(VmError::VmlaunchFailed)
                } else {
                    Ok(())
                },
            )
            &&& after == Processor {
                vmcs: after.vmcs,
                stored: if narrow {
                    before.stored
                } else {
                    before.stored.insert(resources.vmcs, info.revision_id)
                },
                launched: before.launched || result == Some(Ok::<(), VmError>(())),
                ..before
            }
        }),
{
    law_launch(resources, info, before);
    lemma_phase_values(before, info);
    let capabilities = capabilities_in(phase_values(before, Phase::Controls, info));
    lemma_sufficient(
        capabilities.primary,
        capabilities.secondary,
        capabilities.exit,
        capabilities.entry,
    );
    let stored = Processor {
        stored: before.stored.insert(resources.vmcs, info.revision_id),
        ..before
    };
    let writes = launch_writes(resources, info, before);
    lemma_write_all_frame(stored, writes);
    lemma_all_written(stored, writes);
}

proof fn lemma_all_written(processor: Processor, writes: Seq<VmcsWrite>)
    requires
        forall|field: u64, value: u64|
            !#[trigger] (processor.fails)(Request::Vmwrite { field, value }),
    ensures
        write_all(processor, writes).1,
    decreases writes.len(),
{
    if writes.len() > 0 {
        let request = Request::Vmwrite { field: writes[0].field, value: writes[0].value };
        lemma_all_written(processor.perform(request).0, writes.drop_first());
    }
}

/// A launch that ends because a write failed met a write that fails, and did not launch.
pub proof fn law_launch_stops_at_a_failed_write(
    resources: VmResourcesView,
    info: VmxInfo,
    before: Processor,
)
    requires
        launched(resources, info, before).1 == Some(
            Err::<(), VmError>(VmError::VmwriteFailed),
        ),
    ensures
        exists|field: u64, value: u64| #[trigger]
            (before.fails)(Request::Vmwrite { field, value }),
        launched(resources, info, before).0.launched == before.launched,
{
    law_launch(resources, info, before);
    if forall|field: u64, value: u64| !#[trigger] (before.fails)(Request::Vmwrite { field, value }) {
        law_launch_result(resources, info, before);
    }
    let stored = Processor {
        stored: before.stored.insert(resources.vmcs, info.revision_id),
        ..before
    };
    lemma_write_all_frame(stored, launch_writes(resources, info, before));
}

} // verus!
