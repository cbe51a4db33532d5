//! Core of a small bare-metal kernel: the interrupt subsystem (descriptor
//! tables, PIC management, handler dispatch) and the memory manager (frame
//! allocation, page mapping, heap allocation), with every decision modelled
//! over plain values and proved, so that the thin hardware edge around it
//! only carries actions out.

pub mod memory;
pub mod paging;
pub mod heap;
pub mod pic;
pub mod pit;
pub mod handlers;
pub mod gdt;
pub mod interrupts;
pub mod processes;
pub mod shell;
pub mod keyboard;
pub mod writer;

use vstd::prelude::*;

verus! {

use crate::memory::{MemoryMap, BootInfoFrameAllocator};
use crate::paging::{PageTables, MapError};
use crate::heap::HeapAllocator;
use crate::pic::{Pics, PortWrite};
use crate::gdt::{Gdt, TaskStateSegment, tss_descriptor, KERNEL_CODE_DESCRIPTOR,
    DOUBLE_FAULT_IST_INDEX};
use crate::interrupts::{Idt, InterruptSetup, SetupPhase, DOUBLE_FAULT_VECTOR, PAGE_FAULT_VECTOR,
    TIMER_VECTOR, KEYBOARD_VECTOR, PIC_OFFSET};
use crate::handlers::HandlerRegistry;

/// Size of one physical frame / virtual page in bytes.
pub const FRAME_SIZE: u64 = 4096;

/// First virtual address of the kernel heap.
pub const HEAP_START: u64 = 0x4444_4444_0000;

/// The heap's size in bytes.
pub const HEAP_SIZE: u64 = 102400;

/// The heap's first page number.
pub const HEAP_START_PAGE: u64 = 0x4_4444_4440;

/// How many pages the heap spans.
pub const HEAP_PAGE_COUNT: u64 = 25;

/// True when `addr` lies on a frame boundary.
pub open spec fn spec_frame_aligned(addr: u64) -> bool {
    addr % FRAME_SIZE == 0
}

/// Byte address of the start of frame number `frame`.
pub fn frame_to_addr(frame: u64) -> (addr: u64)
    requires
        frame < 0x10_0000_0000_0000,
    ensures
        addr == frame * FRAME_SIZE,
        spec_frame_aligned(addr),
{
    frame * FRAME_SIZE
}

/// The handler entry points the boot sequence binds into the tables: plain
/// addresses, supplied by the hardware edge.
pub struct HandlerEntryPoints {
    pub fallback: u64,
    pub double_fault: u64,
    pub page_fault: u64,
    pub timer: u64,
    pub keyboard: u64,
}

/// Everything the boot sequence builds, plus the port writes the hardware
/// edge still has to carry out in order.
pub struct KernelCore {
    pub gdt: Gdt,
    pub tss: TaskStateSegment,
    pub code_selector: u16,
    pub tss_selector: u16,
    pub setup: InterruptSetup,
    pub pics: Pics,
    pub pit_writes: Vec<PortWrite>,
    pub pic_writes: Vec<PortWrite>,
    pub tables: PageTables,
    pub frame_allocator: BootInfoFrameAllocator,
    pub heap: HeapAllocator,
    pub registry: HandlerRegistry,
}

/// The boot sequence over the bootloader's memory map, in its required
/// order: descriptor tables, timer divisor, interrupt table, controllers,
/// interrupts on, then the frame allocator, the heap mapping, and the heap
/// allocator. Frame exhaustion while mapping the heap aborts the boot:
/// nothing promises a partially mapped heap.
pub fn init(
    map: MemoryMap,
    entries: HandlerEntryPoints,
    double_fault_stack_top: u64,
    tss_base: u64,
) -> (r: Result<KernelCore, MapError>)
    requires
        map.wf(),
    ensures
        r matches Ok(core) ==> {
            &&& core.setup.phase == SetupPhase::InterruptsEnabled
            &&& core.setup.idt.all_present()
            &&& core.setup.idt.gates@[TIMER_VECTOR as int].handler == entries.timer
            &&& core.setup.idt.gates@[KEYBOARD_VECTOR as int].handler == entries.keyboard
            &&& core.setup.idt.gates@[DOUBLE_FAULT_VECTOR as int].handler == entries.double_fault
            &&& core.setup.idt.gates@[DOUBLE_FAULT_VECTOR as int].stack_index
                == DOUBLE_FAULT_IST_INDEX + 1
            &&& core.pics.initialized
            &&& core.pics.offset1 == PIC_OFFSET && core.pics.offset2 == PIC_OFFSET + 8
            &&& core.tables.wf()
            &&& forall|p: u64|
                HEAP_START_PAGE <= p < HEAP_START_PAGE + HEAP_PAGE_COUNT ==> ((
                #[trigger] core.tables.translate(p)) matches Some(m) && m.writable)
            &&& core.heap.wf()
            &&& core.heap.heap_start == HEAP_START && core.heap.heap_size == HEAP_SIZE
            &&& core.heap.total_free() == HEAP_SIZE
            &&& core.frame_allocator.map == map
            &&& core.registry.timer is None && core.registry.keyboard is None
        },
        r is Err ==> map.usable_frames().len() <= 4 * HEAP_PAGE_COUNT,
{
    let mut gdt = Gdt::new();
    let mut tss = TaskStateSegment::new();
    tss.set_stack(0, double_fault_stack_top);
    let code_selector = gdt.add_entry(KERNEL_CODE_DESCRIPTOR);
    let (tss_low, tss_high) = tss_descriptor(tss_base, 103);
    let tss_selector = gdt.add_entry(tss_low);
    gdt.add_entry(tss_high);

    let pit_writes = crate::pit::set_pit_frequency(0xFFFF);

    let mut idt = Idt::new(entries.fallback, code_selector);
    idt.set_handler(PAGE_FAULT_VECTOR, entries.page_fault, code_selector);
    idt.set_handler(TIMER_VECTOR, entries.timer, code_selector);
    idt.set_handler(KEYBOARD_VECTOR, entries.keyboard, code_selector);
    idt.set_handler_with_stack(
        DOUBLE_FAULT_VECTOR,
        entries.double_fault,
        code_selector,
        1,
    );
    let mut setup = InterruptSetup::new(idt);
    setup.load();
    let mut pics = Pics::new(PIC_OFFSET, PIC_OFFSET + 8, 0, 0);
    let pic_writes = pics.initialize();
    setup.enable_interrupts();

    let mut frame_allocator = BootInfoFrameAllocator::init(map);
    let mut tables = PageTables::new();
    match crate::paging::init_heap(
        &mut tables,
        &mut frame_allocator,
        HEAP_START_PAGE,
        HEAP_PAGE_COUNT,
    ) {
        Ok(()) => {},
        Err(e) => {
            return Err(e);
        },
    }
    let heap = HeapAllocator::new(HEAP_START, HEAP_SIZE);
    let registry = HandlerRegistry::new();
    Ok(KernelCore {
        gdt,
        tss,
        code_selector,
        tss_selector,
        setup,
        pics,
        pit_writes,
        pic_writes,
        tables,
        frame_allocator,
        heap,
        registry,
    })
}

} // verus!
