//! What a launch does to the processor as a whole.

use crate::arch::x86_64::instructions::{run, Procedure, Processor, Request};
use crate::arch::x86_64::vm::{
    after_reading, after_writing, capabilities_in, guest_msrs_in, host_msrs_in, launch_start,
    phase_msrs, read_next, write_next, Phase, VmError, VmResourcesView, EPT_WRITE_BACK,
    GUEST_CODE_GPA, GUEST_PML4_GPA, GUEST_STACK_TOP, IA32_VMX_EPT_VPID_CAP,
};
use crate::arch::x86_64::vmcs::{
    all_segment_writes, are_sufficient, control_writes, controls_for, guest_register_writes,
    guest_segments, guest_table_writes, guest_writes, has_ept, host_writes, segment_writes,
    GuestMsrs, Segment, VmcsWrite, EPTP_PAGE_WALK_4, EPT_POINTER, GUEST_CR3, GUEST_RIP, GUEST_RSP,
    HOST_RIP, HOST_RSP,
};
use crate::arch::x86_64::vmx::VmxInfo;
use vstd::prelude::*;

verus! {

/// The processor after some writes to the control structure, made in order up
/// to the first that fails, and whether all were made.
pub open spec fn write_all(processor: Processor, writes: Seq<VmcsWrite>) -> (Processor, bool)
    decreases writes.len(),
{
    if writes.len() == 0 {
        (processor, true)
    } else {
        let request = Request::Vmwrite { field: writes[0].field, value: writes[0].value };
        if (processor.fails)(request) {
            (processor, false)
        } else {
            write_all(processor.perform(request).0, writes.drop_first())
        }
    }
}

/// What the processor's registers for a phase hold.
pub open spec fn phase_values(processor: Processor, phase: Phase, info: VmxInfo) -> Seq<u64> {
    phase_msrs(phase, info.true_controls).map_values(|msr: u32| processor.msrs[msr])
}

/// What a launch does to a processor, and how it ends: the first thing that the
/// processor does not have or does not do decides.
pub open spec fn launch_outcome(
    resources: VmResourcesView,
    info: VmxInfo,
    processor: Processor,
) -> (Processor, Result<(), VmError>) {
    let stored = Processor {
        stored: processor.stored.insert(resources.vmcs, info.revision_id),
        ..processor
    };
    let controls = controls_for(capabilities_in(phase_values(processor, Phase::Controls, info)));
    if !info.wide_physical_addresses && resources.vmcs > u32::MAX {
        (processor, Err(VmError::VmcsAddressWidth))
    } else if (processor.fails)(Request::Vmclear { vmcs: resources.vmcs }) {
        (stored, Err(VmError::VmclearFailed))
    } else if (processor.fails)(Request::Vmptrld { vmcs: resources.vmcs }) {
        (stored, Err(VmError::VmptrldFailed))
    } else if !are_sufficient(controls) {
        (stored, Err(VmError::ControlUnavailable))
    } else if !has_ept(processor.msrs[IA32_VMX_EPT_VPID_CAP]) {
        (stored, Err(VmError::EptUnavailable))
    } else {
        let (written, complete) = write_all(
            stored,
            launch_writes(resources, info, processor),
        );
        if !complete {
            (written, Err(VmError::VmwriteFailed))
        } else if (processor.fails)(Request::Vmlaunch) {
            (written, Err(VmError::VmlaunchFailed))
        } else {
            (Processor { launched: true, ..written }, Ok(()))
        }
    }
}

/// The writes to the control structure that a launch makes, in order.
pub open spec fn launch_writes(
    resources: VmResourcesView,
    info: VmxInfo,
    processor: Processor,
) -> Seq<VmcsWrite> {
    let controls = controls_for(capabilities_in(phase_values(processor, Phase::Controls, info)));
    control_writes(controls, resources.ept_root) + guest_writes(
        guest_msrs_in(phase_values(processor, Phase::Guest, info)),
    ) + host_writes(
        processor.host_registers(),
        host_msrs_in(phase_values(processor, Phase::Host, info)),
        resources.vmexit_stack_top,
    )
}

/// Writes change nothing but the fields of the control structure.
pub proof fn lemma_write_all_frame(processor: Processor, writes: Seq<VmcsWrite>)
    ensures
        ({
            let after = write_all(processor, writes).0;
            after == Processor { vmcs: after.vmcs, ..processor }
        }),
    decreases writes.len(),
{
    if writes.len() > 0 {
        let request = Request::Vmwrite { field: writes[0].field, value: writes[0].value };
        lemma_write_all_frame(processor.perform(request).0, writes.drop_first());
    }
}

/// Two runs of writes are one run.
pub proof fn lemma_write_all_join(processor: Processor, one: Seq<VmcsWrite>, two: Seq<VmcsWrite>)
    ensures
        write_all(processor, one + two) == if write_all(processor, one).1 {
            write_all(write_all(processor, one).0, two)
        } else {
            write_all(processor, one)
        },
    decreases one.len(),
{
    if one.len() == 0 {
        assert(one + two =~= two);
    } else {
        let request = Request::Vmwrite { field: one[0].field, value: one[0].value };
        assert((one + two).drop_first() =~= one.drop_first() + two);
        assert((one + two)[0] == one[0]);
        lemma_write_all_join(processor.perform(request).0, one.drop_first(), two);
    }
}

/// The part of a launch that reads the rest of a phase's registers.
proof fn lemma_run_reads(
    resources: VmResourcesView,
    info: VmxInfo,
    phase: Phase,
    values: Seq<u64>,
    processor: Processor,
    fuel: nat,
)
    requires
        values.len() < phase_msrs(phase, info.true_controls).len(),
        values == phase_values(processor, phase, info).take(values.len() as int),
        fuel >= phase_msrs(phase, info.true_controls).len() - values.len(),
    ensures
        run(read_next(resources, info, phase, values), processor, fuel) == run(
            after_reading(resources, info, phase, phase_values(processor, phase, info)),
            processor,
            (fuel - (phase_msrs(phase, info.true_controls).len() - values.len())) as nat,
        ),
    decreases phase_msrs(phase, info.true_controls).len() - values.len(),
{
    let all = phase_values(processor, phase, info);
    let value = all[values.len() as int];
    let more = values.push(value);
    assert(more =~= all.take(more.len() as int));
    if more.len() < all.len() {
        lemma_run_reads(resources, info, phase, more, processor, (fuel - 1) as nat);
    } else {
        assert(more =~= all);
    }
}

/// The part of a launch that makes the rest of a phase's writes.
proof fn lemma_run_writes(
    resources: VmResourcesView,
    info: VmxInfo,
    phase: Phase,
    writes: Seq<VmcsWrite>,
    written: int,
    processor: Processor,
    fuel: nat,
)
    requires
        0 <= written < writes.len(),
        fuel >= writes.len() - written,
    ensures
        ({
            let (after, complete) = write_all(processor, writes.skip(written));
            run(write_next(resources, info, phase, writes, written), processor, fuel)
                == if complete {
                run(
                    after_writing(resources, info, phase),
                    after,
                    (fuel - (writes.len() - written)) as nat,
                )
            } else {
                (after, Some(Err(VmError::VmwriteFailed)))
            }
        }),
    decreases writes.len() - written,
{
    let request = Request::Vmwrite {
        field: writes[written].field,
        value: writes[written].value,
    };
    let next = processor.perform(request).0;
    assert(writes.skip(written)[0] == writes[written]);
    assert(writes.skip(written).drop_first() =~= writes.skip(written + 1));
    if (processor.fails)(request) {
        reveal_with_fuel(run, 2);
    } else if written + 1 < writes.len() {
        lemma_run_writes(
            resources,
            info,
            phase,
            writes,
            written + 1,
            next,
            (fuel - 1) as nat,
        );
    } else {
        assert(write_all(next, writes.skip(written + 1)) == (next, true));
    }
}

/// A launch ends after at most 117 requests, and does to the processor what
/// `launch_outcome` says.
pub proof fn law_launch(resources: VmResourcesView, info: VmxInfo, processor: Processor)
    ensures
        ({
            let (after, result) = launch_outcome(resources, info, processor);
            run(launch_start(resources, info), processor, 117) == (after, Some(result))
        }),
{
    reveal_with_fuel(run, 4);
    let stored = Processor {
        stored: processor.stored.insert(resources.vmcs, info.revision_id),
        ..processor
    };
    let controls = controls_for(capabilities_in(phase_values(processor, Phase::Controls, info)));
    if launch_outcome(resources, info, processor).1 != Err::<(), VmError>(VmError::VmcsAddressWidth)
        && !(processor.fails)(Request::Vmclear { vmcs: resources.vmcs }) && !(processor.fails)(
        Request::Vmptrld { vmcs: resources.vmcs },
    ) {
        assert(phase_values(stored, Phase::Controls, info) =~= phase_values(
            processor,
            Phase::Controls,
            info,
        ));
        assert(Seq::<u64>::empty() =~= phase_values(stored, Phase::Controls, info).take(0));
        lemma_run_reads(resources, info, Phase::Controls, Seq::empty(), stored, 114);
        if are_sufficient(controls) && has_ept(processor.msrs[IA32_VMX_EPT_VPID_CAP]) {
            lemma_run_all_writes(resources, info, processor, stored);
        }
    }
}

/// The part of a launch from the first write on.
proof fn lemma_run_all_writes(
    resources: VmResourcesView,
    info: VmxInfo,
    processor: Processor,
    stored: Processor,
)
    requires
        stored == (Processor { stored: stored.stored, ..processor }),
    ensures
        ({
            let controls = controls_for(
                capabilities_in(phase_values(processor, Phase::Controls, info)),
            );
            let (written, complete) = write_all(
                stored,
                launch_writes(resources, info, processor),
            );
            run(
                write_next(
                    resources,
                    info,
                    Phase::Controls,
                    control_writes(controls, resources.ept_root),
                    0,
                ),
                stored,
                108,
            ) == if !complete {
                (written, Some(Err(VmError::VmwriteFailed)))
            } else if (processor.fails)(Request::Vmlaunch) {
                (written, Some(Err(VmError::VmlaunchFailed)))
            } else {
                (Processor { launched: true, ..written }, Some(Ok(())))
            }
        }),
{
    let controls = controls_for(capabilities_in(phase_values(processor, Phase::Controls, info)));
    let first = control_writes(controls, resources.ept_root);
    let second = guest_writes(guest_msrs_in(phase_values(processor, Phase::Guest, info)));
    let third = host_writes(
        processor.host_registers(),
        host_msrs_in(phase_values(processor, Phase::Host, info)),
        resources.vmexit_stack_top,
    );
    lemma_guest_writes_len(guest_msrs_in(phase_values(processor, Phase::Guest, info)));
    lemma_write_all_join(stored, first, second);
    lemma_write_all_join(stored, first + second, third);
    assert(first.skip(0) =~= first);
    assert(second.skip(0) =~= second);
    assert(third.skip(0) =~= third);
    assert(first.len() == 18);
    assert(third.len() == 22);
    lemma_run_writes(resources, info, Phase::Controls, first, 0, stored, 108);
    let (one, ok) = write_all(stored, first);
    lemma_write_all_frame(stored, first);
    if ok {
        assert(phase_values(one, Phase::Guest, info) =~= phase_values(
            processor,
            Phase::Guest,
            info,
        ));
        assert(Seq::<u64>::empty() =~= phase_values(one, Phase::Guest, info).take(0));
        lemma_run_reads(resources, info, Phase::Guest, Seq::empty(), one, 90);
        lemma_run_writes(resources, info, Phase::Guest, second, 0, one, 84);
        let (two, ok) = write_all(one, second);
        lemma_write_all_frame(one, second);
        if ok {
            assert(phase_values(two, Phase::Host, info) =~= phase_values(
                processor,
                Phase::Host,
                info,
            ));
            assert(Seq::<u64>::empty() =~= phase_values(two, Phase::Host, info).take(0));
            lemma_run_reads(resources, info, Phase::Host, Seq::empty(), two, 31);
            lemma_run_writes(resources, info, Phase::Host, third, 0, two, 23);
            let (three, ok) = write_all(two, third);
            lemma_write_all_frame(two, third);
            if ok {
                reveal_with_fuel(run, 2);
            }
        }
    }
}

/// There are 53 writes that set the guest's first state.
proof fn lemma_guest_writes_len(msrs: GuestMsrs)
    ensures
        guest_writes(msrs).len() == 53,
{
    lemma_segment_writes_len(guest_segments());
    assert(guest_segments().len() == 8);
    assert(guest_register_writes(msrs).len() == 12);
    assert(guest_table_writes().len() == 9);
}

proof fn lemma_segment_writes_len(segments: Seq<Segment>)
    ensures
        all_segment_writes(segments).len() == 4 * segments.len(),
    decreases segments.len(),
{
    if segments.len() > 0 {
        lemma_segment_writes_len(segments.drop_last());
    }
}

/// No write is to `field`.
pub open spec fn spares(writes: Seq<VmcsWrite>, field: u64) -> bool {
    forall|index: int| 0 <= index < writes.len() ==> (#[trigger] writes[index]).field != field
}

/// A field that no write is to keeps its value.
pub proof fn lemma_spared(processor: Processor, writes: Seq<VmcsWrite>, field: u64)
    requires
        spares(writes, field),
    ensures
        write_all(processor, writes).0.vmcs[field] == processor.vmcs[field],
    decreases writes.len(),
{
    if writes.len() > 0 {
        let request = Request::Vmwrite { field: writes[0].field, value: writes[0].value };
        assert(spares(writes.drop_first(), field)) by {
            assert forall|index: int| 0 <= index < writes.len() - 1 implies (
            #[trigger] writes.drop_first()[index]).field != field by {
                assert(writes[index + 1].field != field);
            }
        }
        lemma_spared(processor.perform(request).0, writes.drop_first(), field);
    }
}

/// A field has the value that was last written to it.
pub proof fn lemma_last_write(processor: Processor, writes: Seq<VmcsWrite>, index: int)
    requires
        0 <= index < writes.len(),
        spares(writes.skip(index + 1), writes[index].field),
        write_all(processor, writes).1,
    ensures
        write_all(processor, writes).0.vmcs[writes[index].field] == writes[index].value,
{
    let before = writes.take(index);
    let rest = writes.skip(index);
    assert(before + rest =~= writes);
    lemma_write_all_join(processor, before, rest);
    let middle = write_all(processor, before).0;
    let request = Request::Vmwrite { field: writes[index].field, value: writes[index].value };
    assert(rest.drop_first() =~= writes.skip(index + 1));
    lemma_spared(middle.perform(request).0, writes.skip(index + 1), writes[index].field);
}

/// The fields that hold segments.
spec fn is_segment_field(field: u64) -> bool {
    0x800 <= field < 0x810 || 0x4800 <= field < 0x4824 || 0x6806 <= field < 0x6816
}

proof fn lemma_segment_fields(segments: Seq<Segment>)
    requires
        forall|index: int|
            0 <= index < segments.len() ==> {
                let segment = #[trigger] segments[index];
                is_segment_field(segment.selector_field) && is_segment_field(segment.base_field)
                    && is_segment_field(segment.limit_field) && is_segment_field(
                    segment.access_field,
                )
            },
    ensures
        forall|index: int|
            0 <= index < all_segment_writes(segments).len() ==> is_segment_field(
                (#[trigger] all_segment_writes(segments)[index]).field,
            ),
    decreases segments.len(),
{
    if segments.len() > 0 {
        let fewer = segments.drop_last();
        assert forall|index: int| 0 <= index < fewer.len() implies {
            let segment = #[trigger] fewer[index];
            is_segment_field(segment.selector_field) && is_segment_field(segment.base_field)
                && is_segment_field(segment.limit_field) && is_segment_field(segment.access_field)
        } by {
            assert(fewer[index] == segments[index]);
        }
        lemma_segment_fields(fewer);
        let last = segments[segments.len() - 1];
        assert(segments.last() == last);
        let all = all_segment_writes(segments);
        assert forall|index: int| 0 <= index < all.len() implies is_segment_field(
            (#[trigger] all[index]).field,
        ) by {
            let before = all_segment_writes(fewer);
            if index < before.len() {
                assert(all[index] == before[index]);
            } else {
                assert(all[index] == segment_writes(last)[index - before.len()]);
            }
        }
    }
}

/// The writes of the guest's state after `index`, one of the first twelve, spare
/// the field of that write.
proof fn lemma_guest_register_kept(msrs: GuestMsrs, index: int)
    requires
        0 <= index < 12,
    ensures
        guest_writes(msrs)[index] == guest_register_writes(msrs)[index],
        spares(guest_writes(msrs).skip(index + 1), guest_register_writes(msrs)[index].field),
{
    lemma_guest_writes_len(msrs);
    lemma_segment_writes_len(guest_segments());
    lemma_segment_fields(guest_segments());
    let all = guest_writes(msrs);
    let field = guest_register_writes(msrs)[index].field;
    assert forall|later: int| 0 <= later < all.skip(index + 1).len() implies (
    #[trigger] all.skip(index + 1)[later]).field != field by {
        let at = later + index + 1;
        assert(all.skip(index + 1)[later] == all[at]);
        if at < 12 {
            assert(all[at] == guest_register_writes(msrs)[at]);
        } else if at < 44 {
            assert(all[at] == all_segment_writes(guest_segments())[at - 12]);
        } else {
            assert(all[at] == guest_table_writes()[at - 44]);
        }
    }
}

/// A guest that was launched starts at its program, on its stack, with its own
/// tables, inside the extended page tables of its virtual machine; when it
/// exits, the host goes on at its exit entry, on the exit stack.
pub proof fn law_launched_guest_starts_at_its_program(
    resources: VmResourcesView,
    info: VmxInfo,
    processor: Processor,
)
    requires
        launch_outcome(resources, info, processor).1 is Ok,
    ensures
        ({
            let vmcs = launch_outcome(resources, info, processor).0.vmcs;
            &&& vmcs[GUEST_RIP] == GUEST_CODE_GPA
            &&& vmcs[GUEST_RSP] == GUEST_STACK_TOP
            &&& vmcs[GUEST_CR3] == GUEST_PML4_GPA
            &&& vmcs[EPT_POINTER] == resources.ept_root | EPT_WRITE_BACK | EPTP_PAGE_WALK_4
            &&& vmcs[HOST_RIP] == processor.host.vmexit_entry
            &&& vmcs[HOST_RSP] == resources.vmexit_stack_top
        }),
{
    let stored = Processor {
        stored: processor.stored.insert(resources.vmcs, info.revision_id),
        ..processor
    };
    let controls = controls_for(capabilities_in(phase_values(processor, Phase::Controls, info)));
    let msrs = guest_msrs_in(phase_values(processor, Phase::Guest, info));
    let first = control_writes(controls, resources.ept_root);
    let second = guest_writes(msrs);
    let third = host_writes(
        processor.host_registers(),
        host_msrs_in(phase_values(processor, Phase::Host, info)),
        resources.vmexit_stack_top,
    );
    lemma_write_all_join(stored, first, second);
    lemma_write_all_join(stored, first + second, third);
    let one = write_all(stored, first).0;
    let two = write_all(one, second).0;
    lemma_last_write(two, third, 20);
    lemma_last_write(two, third, 21);
    lemma_guest_register_kept(msrs, 1);
    lemma_guest_register_kept(msrs, 4);
    lemma_guest_register_kept(msrs, 5);
    lemma_guest_writes_len(msrs);
    lemma_last_write(one, second, 1);
    lemma_last_write(one, second, 4);
    lemma_last_write(one, second, 5);
    lemma_spared(two, third, GUEST_CR3);
    lemma_spared(two, third, GUEST_RSP);
    lemma_spared(two, third, GUEST_RIP);
    lemma_last_write(stored, first, 17);
    lemma_guest_spares_ept(msrs);
    lemma_spared(one, second, EPT_POINTER);
    lemma_spared(two, third, EPT_POINTER);
}

proof fn lemma_guest_spares_ept(msrs: GuestMsrs)
    ensures
        spares(guest_writes(msrs), EPT_POINTER),
{
    lemma_guest_writes_len(msrs);
    lemma_segment_writes_len(guest_segments());
    lemma_segment_fields(guest_segments());
    let all = guest_writes(msrs);
    assert forall|at: int| 0 <= at < all.len() implies (#[trigger] all[at]).field
        != EPT_POINTER by {
        if at < 12 {
            assert(all[at] == guest_register_writes(msrs)[at]);
        } else if at < 44 {
            assert(all[at] == all_segment_writes(guest_segments())[at - 12]);
        } else {
            assert(all[at] == guest_table_writes()[at - 44]);
        }
    }
}

} // verus!
