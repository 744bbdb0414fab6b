# hypewwisoww

A small x86-64 hypervisor that starts as a UEFI image, leaves the firmware, takes
the processor over, and runs one 64-bit guest inside extended page tables. The
guest shows a number by a hypercall and is done.

`src/` is the hypervisor's logic, verified with Verus. It works on plain values
and never touches the processor, the firmware or raw memory. Where it needs
something done it asks: a procedure is a state that, given the reply to its last
request, says what to do next. Each procedure comes with a statement of what it
does as a whole, over a model of the processor, of the firmware or, for the core,
of the machine.

| module | what it holds |
| --- | --- |
| `boot`, `uefi`, `firmware` | the way from the image's entry to the core |
| `hypervisor`, `stages`, `guest_start` | the way from the core's entry to the guest |
| `machine`, `confinement` | a model of the machine, what a run of the core does to it, and what then holds of memory |
| `boot_alloc`, `phys`, `memory` | the bootstrap arena, memory as words, the memory map and the ledger of free frames |
| `serial` | what goes over the serial line |
| `arch::x86_64::descriptors` | segments, task state, interrupt gates |
| `arch::x86_64::paging`, `page_tree`, `entry` | the host's page tables and the processor's walk through them |
| `arch::x86_64::page_errors` | how many pages the tables map, and when they cannot be built |
| `arch::x86_64::vmx` | entering VMX operation |
| `arch::x86_64::vm`, `vmcs`, `launch` | the virtual machine's memory, its control structure, its launch |
| `arch::x86_64::ept` | what the guest can reach |
| `arch::x86_64::vmexit`, `exits` | what happens when the guest exits |
| `arch::x86_64::instructions` | requests to the processor, and its model |

Functions named `law_...` state what holds of the library as a whole.

`tests/` runs the library on concrete values. `app/` is the image itself: entry
points, assembly, the tables that the processor reads, and the drivers that carry
requests out.
