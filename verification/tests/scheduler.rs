use rustos::allocator::bin::Allocator;
use rustos::interrupt::{Controller, Interrupt, Registers};
use rustos::kernel::{Kernel, Next};
use rustos::param::{TICK, USER_IMG_BASE, USER_STACK_BASE, USER_STACK_TOP};
use rustos::process::process::{Process, ReadOutcome, SPSR_INITIAL};
use rustos::process::scheduler::{GlobalScheduler, Scheduler};
use rustos::process::state::{Event, State};
use rustos::traps::frame::TrapFrame;
use rustos::traps::irq::{Irq, IrqHandler};
use rustos::traps::syscall::sys_sleep;
use rustos::vm::address::PhysicalAddr;

const HEAP_START: u64 = 0x100_0000;
const HEAP_END: u64 = 0x1000_0000;
const KERN: u64 = 0x8_0000;

fn filled(n: usize, allocator: &mut Allocator) -> Scheduler {
    let mut scheduler = Scheduler::new();
    for _ in 0..n {
        let process = Process::new(PhysicalAddr(KERN), allocator).unwrap();
        scheduler.add(process, allocator).unwrap();
    }
    scheduler
}

fn order(scheduler: &Scheduler) -> Vec<(u64, State)> {
    (0..scheduler.len()).map(|i| scheduler.peek(i)).collect()
}

fn running(scheduler: &Scheduler) -> Vec<u64> {
    order(scheduler).into_iter().filter(|(_, s)| *s == State::Running).map(|(id, _)| id).collect()
}

struct Beat;

impl IrqHandler for Beat {
    fn handle(&mut self, tf: &mut TrapFrame) {
        tf.xregs[9] += 1;
    }
}

fn boot(kernel: &mut Kernel, controller: &mut Controller, now: u64) -> TrapFrame {
    let mut irq: Irq<Beat> = Irq::uninitialized();
    irq.initialize();
    let tf = kernel.start(controller, &mut irq, Beat, now);
    assert!(irq.is_registered(Interrupt::Timer1));
    tf
}

fn read(n: u64) -> ReadOutcome {
    ReadOutcome::Read(vec![0x5a; n as usize])
}

fn quiet() -> Controller {
    Controller::new(Registers {
        basic_irq_pending: 0,
        irq_pending: [0, 0],
        fiq_ctrl: 0,
        irq_enable: [0, 0],
        basic_irq_enable: 0,
        irq_disable: [0, 0],
        basic_irq_disable: 0,
    })
}

#[test]
fn new_process_starts_at_the_image_base() {
    let mut allocator = Allocator::new(HEAP_START, HEAP_END);
    let process = Process::new(PhysicalAddr(KERN), &mut allocator).unwrap();
    assert_eq!(process.state, State::Ready);
    assert_eq!(process.context.elr, USER_IMG_BASE);
    assert_eq!(process.context.sp, USER_STACK_TOP);
    assert_eq!(process.context.sp, 0xffff_ffff_ffff_0000);
    assert_eq!(process.context.spsr, SPSR_INITIAL);
    assert_eq!(process.context.spsr, (1 << 6) | (1 << 8) | (1 << 9));
    assert_eq!(process.context.ttbr, [KERN, HEAP_START]);
    assert_eq!(process.context.ttbr[1], process.vmap.get_baddr().as_u64());
    assert_eq!(process.context.tpidr, 0);
    assert_eq!(process.context.xregs, [0; 32]);
    assert_eq!(process.context.qregs, [0; 32]);
}

#[test]
fn new_process_is_refused_without_memory() {
    let mut allocator = Allocator::new(HEAP_START, HEAP_START + 0x100);
    match Process::new(PhysicalAddr(KERN), &mut allocator) {
        Err(e) => assert_eq!(e, rustos::kernel_api::OsError::NoMemory),
        Ok(_) => panic!("a process without tables"),
    }
}

#[test]
fn stack_lies_below_its_top() {
    assert_eq!(Process::get_image_base().as_u64(), 0xffff_ffff_c000_0000);
    assert_eq!(Process::get_stack_top().as_u64(), 0xffff_ffff_ffff_0000);
    assert_eq!(Process::get_stack_base().as_u64(), 0xffff_ffff_ffef_0000);
    assert_eq!(USER_STACK_BASE % 0x1_0000, 0);
}

#[test]
fn ready_process_is_ready() {
    let mut allocator = Allocator::new(HEAP_START, HEAP_END);
    let mut process = Process::new(PhysicalAddr(KERN), &mut allocator).unwrap();
    assert!(process.is_due(0));
    assert!(process.is_ready(0));
    assert_eq!(process.state, State::Ready);
    assert_eq!(process.context.xregs, [0; 32]);
}

#[test]
fn running_and_dead_processes_are_not_ready() {
    let mut allocator = Allocator::new(HEAP_START, HEAP_END);
    let mut process = Process::new(PhysicalAddr(KERN), &mut allocator).unwrap();
    process.state = State::Running;
    assert!(!process.is_ready(u64::MAX));
    assert_eq!(process.state, State::Running);
    process.state = State::Dead;
    assert!(!process.is_ready(u64::MAX));
    assert_eq!(process.state, State::Dead);
}

#[test]
fn waiting_process_becomes_ready_when_its_time_has_come() {
    let mut allocator = Allocator::new(HEAP_START, HEAP_END);
    let mut process = Process::new(PhysicalAddr(KERN), &mut allocator).unwrap();
    let event = Event::Sleep { start: 1_000, ms: 3 };
    process.state = State::Waiting(event);
    process.context.xregs[7] = 9;
    assert!(!process.is_ready(999));
    assert!(!process.is_ready(1_000));
    assert!(!process.is_ready(3_999));
    assert_eq!(process.state, State::Waiting(event));
    assert_eq!(process.context.xregs[0], 0);
    assert_eq!(process.context.xregs[7], 9);
    assert!(!process.is_due(3_999));
    assert!(process.is_due(4_000));
    assert_eq!(process.state, State::Waiting(event));
    assert!(process.is_ready(5_999));
    assert_eq!(process.state, State::Ready);
    assert_eq!(process.context.xregs[0], 4);
    assert_eq!(process.context.xregs[7], 0);
}

#[test]
fn event_arrives_at_its_deadline() {
    let event = Event::Sleep { start: u64::MAX - 10, ms: 1 };
    assert!(!event.has_arrived(u64::MAX));
    let event = Event::Sleep { start: 10, ms: u32::MAX };
    assert!(!event.has_arrived(10 + 4_294_967_295_000 - 1));
    assert!(event.has_arrived(10 + 4_294_967_295_000));
    assert_eq!(event.elapsed(10 + 4_294_967_295_999), 4_294_967_295);
}

#[test]
fn identifiers_count_up_from_one() {
    let mut allocator = Allocator::new(HEAP_START, HEAP_END);
    let mut scheduler = Scheduler::new();
    assert_eq!(scheduler.len(), 0);
    for want in 1..=5u64 {
        let mut process = Process::new(PhysicalAddr(KERN), &mut allocator).unwrap();
        process.context.tpidr = 1;
        assert_eq!(scheduler.add(process, &mut allocator), Some(want));
    }
    assert_eq!(
        order(&scheduler),
        (1..=5).map(|id| (id, State::Ready)).collect::<Vec<_>>()
    );
}

#[test]
fn identifier_of_a_killed_process_is_not_used_again() {
    let mut allocator = Allocator::new(HEAP_START, HEAP_END);
    let mut scheduler = filled(3, &mut allocator);
    let mut tf = scheduler.context(2);
    assert_eq!(scheduler.kill(&mut tf, &mut allocator), Some(3));
    let process = Process::new(PhysicalAddr(KERN), &mut allocator).unwrap();
    assert_eq!(scheduler.add(process, &mut allocator), Some(4));
    assert_eq!(order(&scheduler), vec![(1, State::Ready), (2, State::Ready), (4, State::Ready)]);
}

#[test]
fn schedule_out_moves_the_process_to_the_back() {
    let mut allocator = Allocator::new(HEAP_START, HEAP_END);
    let mut scheduler = filled(3, &mut allocator);
    let mut tf = scheduler.context(1);
    tf.xregs[11] = 1111;
    tf.elr = 0x4444;
    let before = tf;
    assert!(scheduler.schedule_out(State::Waiting(Event::Sleep { start: 0, ms: 1 }), &mut tf));
    assert_eq!(tf, before);
    assert_eq!(
        order(&scheduler),
        vec![
            (1, State::Ready),
            (3, State::Ready),
            (2, State::Waiting(Event::Sleep { start: 0, ms: 1 }))
        ]
    );
    assert_eq!(scheduler.context(2), tf);
}

#[test]
fn schedule_out_of_an_unknown_process_changes_nothing() {
    let mut allocator = Allocator::new(HEAP_START, HEAP_END);
    let mut scheduler = filled(2, &mut allocator);
    let mut tf = TrapFrame::default();
    tf.tpidr = 9;
    assert!(!scheduler.schedule_out(State::Dead, &mut tf));
    assert_eq!(order(&scheduler), vec![(1, State::Ready), (2, State::Ready)]);
    let mut empty = Scheduler::new();
    assert!(!empty.schedule_out(State::Ready, &mut tf));
}

#[test]
fn switch_to_brings_the_first_ready_process_to_the_front() {
    let mut allocator = Allocator::new(HEAP_START, HEAP_END);
    let mut scheduler = filled(3, &mut allocator);
    let mut tf = scheduler.context(0);
    assert!(scheduler.schedule_out(State::Waiting(Event::Sleep { start: 0, ms: 10 }), &mut tf));
    let mut tf = scheduler.context(0);
    assert!(scheduler.schedule_out(State::Dead, &mut tf));
    assert_eq!(
        order(&scheduler),
        vec![
            (3, State::Ready),
            (1, State::Waiting(Event::Sleep { start: 0, ms: 10 })),
            (2, State::Dead)
        ]
    );
    let mut tf = scheduler.context(0);
    assert!(scheduler.schedule_out(State::Dead, &mut tf));
    let mut tf = TrapFrame::default();
    assert_eq!(scheduler.switch_to(&mut tf, 9_999), None);
    assert_eq!(tf, TrapFrame::default());
    assert_eq!(scheduler.switch_to(&mut tf, 10_000), Some(1));
    assert_eq!(tf.tpidr, 1);
    assert_eq!(tf.xregs[0], 10);
    assert_eq!(
        order(&scheduler),
        vec![(1, State::Running), (2, State::Dead), (3, State::Dead)]
    );
    assert_eq!(scheduler.context(0), tf);
}

#[test]
fn switch_to_on_an_empty_queue_finds_nothing() {
    let mut scheduler = Scheduler::new();
    let mut tf = TrapFrame::default();
    tf.elr = 77;
    assert_eq!(scheduler.switch_to(&mut tf, 0), None);
    assert_eq!(tf.elr, 77);
}

#[test]
fn round_trip_on_one_process_gives_the_same_frame() {
    let mut allocator = Allocator::new(HEAP_START, HEAP_END);
    let mut scheduler = filled(1, &mut allocator);
    let mut tf = scheduler.context(0);
    tf.elr = 0xabcd;
    tf.sp = 0x1234;
    tf.xregs = [7; 32];
    tf.qregs = [9; 32];
    let before = tf;
    assert!(scheduler.schedule_out(State::Ready, &mut tf));
    assert_eq!(scheduler.switch_to(&mut tf, 0), Some(1));
    assert_eq!(tf, before);
    assert_eq!(order(&scheduler), vec![(1, State::Running)]);
    assert_eq!(scheduler.switch(State::Ready, &mut tf, 1), Some(1));
    assert_eq!(tf, before);
}

#[test]
fn switch_takes_turns_in_the_order_of_the_queue() {
    let mut allocator = Allocator::new(HEAP_START, HEAP_END);
    let mut scheduler = filled(3, &mut allocator);
    let mut tf = scheduler.context(0);
    let mut turns = Vec::new();
    for now in 0..7 {
        tf.xregs[1] = tf.tpidr * 100 + now;
        let id = scheduler.switch(State::Ready, &mut tf, now).unwrap();
        assert_eq!(tf.tpidr, id);
        assert_eq!(running(&scheduler), vec![id]);
        assert_eq!(scheduler.peek(0), (id, State::Running));
        turns.push(id);
    }
    assert_eq!(turns, vec![2, 3, 1, 2, 3, 1, 2]);
    assert_eq!(tf.xregs[1], 204);
}

#[test]
fn process_without_system_calls_is_preempted_and_comes_back() {
    let mut kernel = Kernel::new(HEAP_START, HEAP_END);
    for _ in 0..3 {
        let process = Process::new(PhysicalAddr(KERN), &mut kernel.allocator).unwrap();
        kernel.scheduler.add(process, &mut kernel.allocator).unwrap();
    }
    let mut controller = quiet();
    let mut tf = boot(&mut kernel, &mut controller, 1_000);
    assert_eq!(controller.current_enables(), (1 << 1, 0));
    assert!(!controller.is_pending(Interrupt::Timer1));
    assert_eq!(kernel.tick_at, Some(1_000 + TICK));
    assert_eq!(tf.tpidr, 1);
    assert_eq!(kernel.tick(&mut tf, 11_000), Next::Return);
    assert_eq!(tf.tpidr, 2);
    tf.xregs[19] = 0x2222;
    assert_eq!(kernel.tick_at, Some(21_000));
    let mut seen = Vec::new();
    let mut now = 21_000;
    loop {
        assert_eq!(kernel.tick(&mut tf, now), Next::Return);
        assert_eq!(kernel.tick_at, Some(now + TICK));
        now += TICK;
        if tf.tpidr == 2 {
            break;
        }
        seen.push(tf.tpidr);
    }
    assert_eq!(seen, vec![3, 1]);
    assert_eq!(tf.xregs[19], 0x2222);
    assert_eq!(kernel.tick(&mut tf, u64::MAX), Next::Return);
    assert_eq!(kernel.tick_at, Some(TICK - 1));
}

#[test]
fn two_sleepers_and_a_computer_share_the_processor() {
    let mut kernel = Kernel::new(HEAP_START, HEAP_END);
    for _ in 0..3 {
        let process = Process::new(PhysicalAddr(KERN), &mut kernel.allocator).unwrap();
        kernel.scheduler.add(process, &mut kernel.allocator).unwrap();
    }
    let mut tf = boot(&mut kernel, &mut quiet(), 0);
    let mut now: u64 = 0;
    let mut wakes = [0u32; 4];
    let mut computed = 0u32;
    let mut asleep = [false; 4];
    while now < 8_000_000 {
        let id = tf.tpidr as usize;
        if asleep[id] {
            asleep[id] = false;
            wakes[id] += 1;
            assert_eq!(tf.xregs[7], 0);
            assert!(tf.xregs[0] >= if id == 1 { 2000 } else { 500 });
        }
        let next = match id {
            1 => {
                asleep[1] = true;
                sys_sleep(2000, &mut tf, &mut kernel, now)
            }
            3 => {
                asleep[3] = true;
                sys_sleep(500, &mut tf, &mut kernel, now)
            }
            _ => {
                computed += 1;
                now += TICK;
                kernel.tick(&mut tf, now)
            }
        };
        assert_eq!(next, Next::Return);
        let scheduler = kernel.scheduler.critical();
        let states: Vec<_> = (0..scheduler.len()).map(|i| scheduler.peek(i)).collect();
        assert_eq!(states.iter().filter(|(_, s)| *s == State::Running).count(), 1);
        assert_eq!(states[0], (tf.tpidr, State::Running));
        let mut ids: Vec<_> = states.iter().map(|(id, _)| *id).collect();
        ids.sort();
        assert_eq!(ids, vec![1, 2, 3]);
    }
    assert_eq!(wakes[1], 3);
    assert_eq!(wakes[3], 15);
    assert!(wakes[3] >= 4 * wakes[1]);
    assert!(computed >= 700);
}

#[test]
fn kill_removes_the_process_and_releases_its_tables() {
    let mut allocator = Allocator::new(HEAP_START, HEAP_END);
    let mut scheduler = filled(3, &mut allocator);
    let mut tf = scheduler.context(1);
    let table = tf.ttbr[1];
    let before = tf;
    assert_eq!(scheduler.kill(&mut tf, &mut allocator), Some(2));
    assert_eq!(tf, before);
    assert_eq!(order(&scheduler), vec![(1, State::Ready), (3, State::Ready)]);
    assert_eq!(allocator.free_list(15), vec![table]);
    assert_eq!(scheduler.kill(&mut tf, &mut allocator), None);
    assert_eq!(scheduler.len(), 2);
    assert_eq!(allocator.free_list(15), vec![table]);
}

#[test]
fn kernel_loads_and_adds_processes() {
    let mut kernel = Kernel::new(HEAP_START, HEAP_END);
    let mut load = kernel.load(PhysicalAddr(KERN)).unwrap();
    assert_eq!(kernel.advance(&mut load, read(65536)), Ok(false));
    assert_eq!(kernel.advance(&mut load, ReadOutcome::Interrupted), Ok(false));
    assert_eq!(kernel.advance(&mut load, read(1)), Ok(false));
    assert_eq!(kernel.advance(&mut load, read(0)), Ok(true));
    assert_eq!(load.total(), 65537);
    let process = kernel.finish(load).unwrap();
    assert_eq!(kernel.add(process), Some(1));
    let load = kernel.load(PhysicalAddr(KERN)).unwrap();
    let mark = kernel.allocator.current();
    kernel.abandon(load);
    assert_eq!(kernel.allocator.current(), mark);
    assert_eq!(kernel.allocator.free_list(13).len(), 1);
    assert_eq!(kernel.allocator.free_list(15).len(), 1);
    let process = Process::new(PhysicalAddr(KERN), &mut kernel.allocator).unwrap();
    assert_eq!(kernel.add(process), Some(2));
    let scheduler = kernel.scheduler.critical();
    assert_eq!(order(scheduler), vec![(1, State::Ready), (2, State::Ready)]);
    let first = scheduler.context(0).ttbr[1];
    let second = scheduler.context(1).ttbr[1];
    assert!(first != second);
}

#[test]
fn kernel_without_memory_loads_nothing() {
    let mut kernel = Kernel::new(HEAP_START, HEAP_START + 0x4_0000 + 0x1_0000);
    let load = kernel.load(PhysicalAddr(KERN)).unwrap();
    match kernel.finish(load) {
        Err(e) => assert_eq!(e, rustos::kernel_api::OsError::NoMemory),
        Ok(_) => panic!("a stack without pages"),
    }
    assert_eq!(kernel.allocator.free_list(13), vec![HEAP_START + 0x4_0000]);
    assert_eq!(kernel.allocator.free_list(15), vec![HEAP_START]);
    let mut none = Kernel::new(HEAP_START, HEAP_START);
    assert!(none.load(PhysicalAddr(KERN)).is_err());
}

#[test]
fn global_scheduler_is_empty_after_initialization() {
    let mut allocator = Allocator::new(HEAP_START, HEAP_END);
    let mut global = GlobalScheduler::uninitialized();
    assert!(!global.is_initialized());
    global.initialize();
    assert!(global.is_initialized());
    assert_eq!(global.critical().len(), 0);
    let process = Process::new(PhysicalAddr(KERN), &mut allocator).unwrap();
    assert_eq!(global.add(process, &mut allocator), Some(1));
    let process = Process::new(PhysicalAddr(KERN), &mut allocator).unwrap();
    assert_eq!(global.add(process, &mut allocator), Some(2));
    let mut tf = global.first_context();
    assert_eq!(tf.tpidr, 1);
    assert_eq!(global.switch(State::Ready, &mut tf, 0), Some(2));
    assert_eq!(global.switch_to(&mut tf, 0), Some(1));
    assert_eq!(global.kill(&mut tf, &mut allocator), Some(1));
    assert_eq!(global.critical().peek(0), (2, State::Running));
}

#[test]
fn start_registers_the_timer_handler_and_enables_the_timer() {
    let mut kernel = Kernel::new(HEAP_START, HEAP_END);
    let process = Process::new(PhysicalAddr(KERN), &mut kernel.allocator).unwrap();
    kernel.scheduler.add(process, &mut kernel.allocator).unwrap();
    let mut irq: Irq<Beat> = Irq::uninitialized();
    irq.initialize();
    assert!(!irq.is_registered(Interrupt::Timer1));
    let mut controller = quiet();
    controller.enable(Interrupt::Uart);
    let before = controller.current_enables();
    let mut tf = kernel.start(&mut controller, &mut irq, Beat, 5);
    assert_eq!(controller.current_enables(), (before.0 | (1 << 1), before.1));
    assert_eq!(kernel.tick_at, Some(5 + TICK));
    assert_eq!(tf.tpidr, 1);
    assert!(irq.is_registered(Interrupt::Timer1));
    assert!(!irq.is_registered(Interrupt::Timer3));
    assert!(!irq.is_registered(Interrupt::Uart));
    let mark = tf.xregs[9];
    irq.invoke(Interrupt::Timer1, &mut tf);
    assert_eq!(tf.xregs[9], mark + 1);
    irq.invoke(Interrupt::Uart, &mut tf);
    assert_eq!(tf.xregs[9], mark + 1);
    let scheduler = GlobalScheduler::uninitialized();
    assert!(!scheduler.is_initialized());
}
