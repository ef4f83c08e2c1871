use rustos::interrupt::{Controller, Interrupt, Registers};
use rustos::kernel::{Kernel, Next};
use rustos::kernel_api::OsError;
use rustos::process::process::{Process, ReadOutcome};
use rustos::process::state::{Event, State};
use rustos::traps::frame::TrapFrame;
use rustos::traps::irq::{Irq, IrqHandler};
use rustos::traps::syndrome::{fault_level, Fault, Syndrome};
use rustos::traps::syscall::{
    handle_syscall, sys_exit, sys_getpid, sys_sleep, sys_time, sys_write,
};
use rustos::traps::{handle_exception, pending_interrupts, Action, Info, Kind, Source};
use rustos::vm::address::PhysicalAddr;
use rustos::vm::pagetable::PAGE_CLASS;

const HEAP_START: u64 = 0x100_0000;
const HEAP_END: u64 = 0x1000_0000;

fn esr(class: u32, iss: u32) -> u32 {
    (class << 26) | iss
}

struct Beat;

impl IrqHandler for Beat {
    fn handle(&mut self, tf: &mut TrapFrame) {
        tf.xregs[9] += 1;
    }
}

fn boot(kernel: &mut Kernel, controller: &mut Controller, now: u64) -> TrapFrame {
    let mut irq: Irq<Beat> = Irq::uninitialized();
    irq.initialize();
    let tf = kernel.start(controller, &mut irq, Beat, now);
    assert!(irq.is_registered(Interrupt::Timer1));
    tf
}

fn read(n: u64) -> ReadOutcome {
    ReadOutcome::Read(vec![0x5a; n as usize])
}

fn quiet() -> Controller {
    Controller::new(Registers {
        basic_irq_pending: 0,
        irq_pending: [0, 0],
        fiq_ctrl: 0,
        irq_enable: [0, 0],
        basic_irq_enable: 0,
        irq_disable: [0, 0],
        basic_irq_disable: 0,
    })
}

fn kernel_with(n: usize) -> Kernel {
    let mut kernel = Kernel::new(HEAP_START, HEAP_END);
    for _ in 0..n {
        let process = Process::new(PhysicalAddr(0x8_0000), &mut kernel.allocator).unwrap();
        kernel.scheduler.add(process, &mut kernel.allocator).unwrap();
    }
    kernel
}

fn states(kernel: &mut Kernel) -> Vec<(u64, State)> {
    let scheduler = kernel.scheduler.critical();
    (0..scheduler.len()).map(|i| scheduler.peek(i)).collect()
}

#[test]
fn default_frame_is_zero() {
    let tf = TrapFrame::default();
    assert_eq!(tf.ttbr, [0, 0]);
    assert_eq!(tf.elr, 0);
    assert_eq!(tf.spsr, 0);
    assert_eq!(tf.sp, 0);
    assert_eq!(tf.tpidr, 0);
    assert_eq!(tf.qregs, [0u128; 32]);
    assert_eq!(tf.xregs, [0u64; 32]);
}

#[test]
fn set_xreg_changes_one_register() {
    let mut tf = TrapFrame::default();
    tf.set_xreg(7, 0xdead);
    let mut want = [0u64; 32];
    want[7] = 0xdead;
    assert_eq!(tf.xregs, want);
    assert_eq!(tf.elr, 0);
}

#[test]
fn syndrome_classes_are_decoded() {
    assert_eq!(Syndrome::from(esr(0b000000, 0)), Syndrome::Unknown);
    assert_eq!(Syndrome::from(esr(0b000001, 0)), Syndrome::WfiWfe);
    assert_eq!(Syndrome::from(esr(0b000111, 0)), Syndrome::SimdFp);
    assert_eq!(Syndrome::from(esr(0b001110, 0)), Syndrome::IllegalExecutionState);
    assert_eq!(Syndrome::from(esr(0b011000, 0)), Syndrome::MsrMrsSystem);
    assert_eq!(Syndrome::from(esr(0b100010, 0)), Syndrome::PCAlignmentFault);
    assert_eq!(Syndrome::from(esr(0b100110, 0)), Syndrome::SpAlignmentFault);
    assert_eq!(Syndrome::from(esr(0b101100, 0)), Syndrome::TrappedFpu);
    assert_eq!(Syndrome::from(esr(0b110000, 0)), Syndrome::Breakpoint);
    assert_eq!(Syndrome::from(esr(0b110001, 0)), Syndrome::Breakpoint);
    assert_eq!(Syndrome::from(esr(0b110010, 0)), Syndrome::Step);
    assert_eq!(Syndrome::from(esr(0b110011, 0)), Syndrome::Step);
    assert_eq!(Syndrome::from(esr(0b110100, 0)), Syndrome::Watchpoint);
    assert_eq!(Syndrome::from(esr(0b110101, 0)), Syndrome::Watchpoint);
}

#[test]
fn syndrome_immediates_are_the_low_sixteen_bits() {
    assert_eq!(Syndrome::from(esr(0b010101, 2)), Syndrome::Svc(2));
    assert_eq!(Syndrome::from(esr(0b010101, 0x1ff_ffff)), Syndrome::Svc(0xffff));
    assert_eq!(Syndrome::from(esr(0b010110, 0x1234)), Syndrome::Hvc(0x1234));
    assert_eq!(Syndrome::from(esr(0b010111, 0x4321)), Syndrome::Smc(0x4321));
    assert_eq!(Syndrome::from(esr(0b111100, 0x1_0007)), Syndrome::Brk(7));
}

#[test]
fn syndrome_ignores_the_bit_between_class_and_syndrome() {
    assert_eq!(Syndrome::from(esr(0b010101, 3) | (1 << 25)), Syndrome::Svc(3));
}

#[test]
fn syndrome_of_an_unlisted_class_keeps_the_register() {
    let raw = esr(0b111111, 0x1234);
    assert_eq!(Syndrome::from(raw), Syndrome::Other(raw));
    let raw = esr(0b000010, 0);
    assert_eq!(Syndrome::from(raw), Syndrome::Other(raw));
    assert_eq!(Syndrome::from(0xffff_ffff), Syndrome::Other(0xffff_ffff));
}

#[test]
fn aborts_carry_fault_and_level() {
    assert_eq!(
        Syndrome::from(esr(0b100100, 0b000110)),
        Syndrome::DataAbort { kind: Fault::Translation, level: 2 }
    );
    assert_eq!(
        Syndrome::from(esr(0b100101, 0b001111)),
        Syndrome::DataAbort { kind: Fault::Permission, level: 3 }
    );
    assert_eq!(
        Syndrome::from(esr(0b100000, 0b001001)),
        Syndrome::InstructionAbort { kind: Fault::AccessFlag, level: 1 }
    );
    assert_eq!(
        Syndrome::from(esr(0b100001, 0b000000)),
        Syndrome::InstructionAbort { kind: Fault::AddressSize, level: 0 }
    );
}

#[test]
fn faults_are_decoded_from_the_status_code() {
    assert_eq!(Fault::from(0b000000), Fault::AddressSize);
    assert_eq!(Fault::from(0b000011), Fault::AddressSize);
    assert_eq!(Fault::from(0b000100), Fault::Translation);
    assert_eq!(Fault::from(0b000111), Fault::Translation);
    assert_eq!(Fault::from(0b001000), Fault::Other(0b001000));
    assert_eq!(Fault::from(0b001001), Fault::AccessFlag);
    assert_eq!(Fault::from(0b001011), Fault::AccessFlag);
    assert_eq!(Fault::from(0b001100), Fault::Other(0b001100));
    assert_eq!(Fault::from(0b001101), Fault::Permission);
    assert_eq!(Fault::from(0b001111), Fault::Permission);
    assert_eq!(Fault::from(0b100001), Fault::Alignment);
    assert_eq!(Fault::from(0b110000), Fault::TlbConflict);
    assert_eq!(Fault::from(0b111111), Fault::Other(0b111111));
    assert_eq!(Fault::from(0x1_0000_0004 as u64 as u32), Fault::Translation);
    assert_eq!(Fault::from(0xffff_ff21), Fault::Alignment);
    assert_eq!(Fault::from(0x144), Fault::Other(0x44));
}

#[test]
fn fault_level_is_the_low_two_bits() {
    assert_eq!(fault_level(0), 0);
    assert_eq!(fault_level(0b0111), 3);
    assert_eq!(fault_level(0xffff_fffe), 2);
}

#[test]
fn kinds_and_sources_are_numbered_from_zero() {
    assert_eq!(Kind::from_raw(0), Some(Kind::Synchronous));
    assert_eq!(Kind::from_raw(1), Some(Kind::Irq));
    assert_eq!(Kind::from_raw(2), Some(Kind::Fiq));
    assert_eq!(Kind::from_raw(3), Some(Kind::SError));
    assert_eq!(Kind::from_raw(4), None);
    assert_eq!(Source::from_raw(0), Some(Source::CurrentSpEl0));
    assert_eq!(Source::from_raw(1), Some(Source::CurrentSpElx));
    assert_eq!(Source::from_raw(2), Some(Source::LowerAArch64));
    assert_eq!(Source::from_raw(3), Some(Source::LowerAArch32));
    assert_eq!(Source::from_raw(0xffff), None);
}

#[test]
fn time_is_split_into_seconds_and_nanoseconds() {
    let mut tf = TrapFrame::default();
    tf.xregs[7] = 99;
    tf.xregs[5] = 5;
    sys_time(&mut tf, 12_345_678);
    assert_eq!(tf.xregs[0], 12);
    assert_eq!(tf.xregs[1], 345_678_000);
    assert_eq!(tf.xregs[7], 0);
    assert_eq!(tf.xregs[5], 5);
    sys_time(&mut tf, u64::MAX);
    assert_eq!(tf.xregs[0], 18_446_744_073_709);
    assert_eq!(tf.xregs[1], 551_615_000);
}

#[test]
fn getpid_returns_the_thread_register() {
    let mut tf = TrapFrame::default();
    tf.tpidr = 42;
    tf.xregs[7] = 77;
    sys_getpid(&mut tf);
    assert_eq!(tf.xregs[0], 42);
    assert_eq!(tf.xregs[7], OsError::Success.code());
    assert_eq!(tf.tpidr, 42);
}

#[test]
fn write_puts_a_carriage_return_before_a_line_feed() {
    let mut tf = TrapFrame::default();
    tf.xregs[7] = 55;
    let mut console = vec![b'x'];
    sys_write(b'a', &mut tf, &mut console);
    assert_eq!(console, b"xa");
    assert_eq!(tf.xregs[7], 0);
    sys_write(b'\n', &mut tf, &mut console);
    assert_eq!(console, b"xa\r\n");
    sys_write(b'\r', &mut tf, &mut console);
    assert_eq!(console, b"xa\r\n\r");
}

#[test]
fn sleep_blocks_the_caller_and_runs_the_next() {
    let mut kernel = kernel_with(2);
    let mut tf = boot(&mut kernel, &mut quiet(), 0);
    assert_eq!(tf.tpidr, 1);
    tf.xregs[3] = 33;
    let next = sys_sleep(500, &mut tf, &mut kernel, 1_000_000);
    assert_eq!(next, Next::Return);
    assert_eq!(tf.tpidr, 2);
    assert_eq!(
        states(&mut kernel),
        vec![
            (2, State::Running),
            (1, State::Waiting(Event::Sleep { start: 1_000_000, ms: 500 }))
        ]
    );
    assert_eq!(kernel.scheduler.critical().context(1).xregs[3], 33);
}

#[test]
fn sleep_of_the_only_process_leaves_nothing_to_run() {
    let mut kernel = kernel_with(1);
    let mut tf = boot(&mut kernel, &mut quiet(), 0);
    let before = tf;
    assert_eq!(sys_sleep(2, &mut tf, &mut kernel, 1000), Next::Switch);
    assert_eq!(tf, before);
    assert_eq!(kernel.resume(&mut tf, 2999), Next::Switch);
    assert_eq!(kernel.resume(&mut tf, 3000), Next::Return);
    assert_eq!(tf.tpidr, 1);
    assert_eq!(tf.xregs[0], 2);
    assert_eq!(tf.xregs[7], 0);
    assert_eq!(states(&mut kernel), vec![(1, State::Running)]);
}

#[test]
fn sleeper_sees_at_least_the_time_it_asked_for() {
    let mut kernel = kernel_with(1);
    let mut tf = boot(&mut kernel, &mut quiet(), 0);
    tf.xregs[7] = 0xbad;
    assert_eq!(sys_sleep(40, &mut tf, &mut kernel, 5_000), Next::Switch);
    for now in [5_000u64, 20_000, 44_999] {
        assert_eq!(kernel.resume(&mut tf, now), Next::Switch);
    }
    assert_eq!(kernel.resume(&mut tf, 123_456), Next::Return);
    assert_eq!(tf.xregs[0], 118);
    assert!(tf.xregs[0] >= 40);
    assert_eq!(tf.xregs[7], OsError::Success.code());
}

#[test]
fn sleep_of_no_time_is_over_at_once() {
    let mut kernel = kernel_with(1);
    let mut tf = boot(&mut kernel, &mut quiet(), 0);
    assert_eq!(sys_sleep(0, &mut tf, &mut kernel, 777), Next::Return);
    assert_eq!(tf.tpidr, 1);
    assert_eq!(tf.xregs[0], 0);
    assert_eq!(tf.xregs[7], 0);
}

#[test]
fn exit_removes_the_caller_and_frees_its_pages() {
    let mut kernel = kernel_with(2);
    let mut tf = boot(&mut kernel, &mut quiet(), 0);
    let before = tf;
    let mark = kernel.allocator.current();
    assert_eq!(sys_exit(&mut tf, &mut kernel), Some(1));
    assert_eq!(tf, before);
    assert_eq!(states(&mut kernel), vec![(2, State::Ready)]);
    assert_eq!(kernel.allocator.free_list(15), vec![tf.ttbr[1]]);
    assert_eq!(kernel.allocator.current(), mark);
    assert_eq!(sys_exit(&mut tf, &mut kernel), None);
    assert_eq!(states(&mut kernel), vec![(2, State::Ready)]);
}

#[test]
fn exit_puts_the_pages_of_the_process_on_the_free_list_of_pages() {
    let mut kernel = Kernel::new(HEAP_START, HEAP_END);
    let mut load = Process::load(PhysicalAddr(0), &mut kernel.allocator).unwrap();
    assert_eq!(load.advance(read(65536), &mut kernel.allocator), Ok(false));
    assert_eq!(load.advance(read(10), &mut kernel.allocator), Ok(false));
    assert_eq!(load.advance(read(0), &mut kernel.allocator), Ok(true));
    let process = load.finish(&mut kernel.allocator).unwrap();
    assert_eq!(kernel.scheduler.add(process, &mut kernel.allocator), Some(1));
    let mut tf = boot(&mut kernel, &mut quiet(), 0);
    assert!(kernel.allocator.free_list(PAGE_CLASS).is_empty());
    let next = handle_syscall(2, &mut tf, &mut kernel, 0);
    assert_eq!(next, Next::Switch);
    assert_eq!(kernel.scheduler.critical().len(), 0);
    let free = kernel.allocator.free_list(PAGE_CLASS);
    assert_eq!(free.len(), 2 + 16);
    assert!(free.contains(&(HEAP_START + 0x4_0000)));
    assert!(free.contains(&(HEAP_START + 0x5_0000)));
    assert_eq!(kernel.resume(&mut tf, 1), Next::Switch);
}

#[test]
fn system_calls_are_told_apart_by_their_number() {
    let mut kernel = kernel_with(2);
    let mut tf = boot(&mut kernel, &mut quiet(), 0);

    tf.xregs[0] = 0xffff;
    assert_eq!(handle_syscall(4, &mut tf, &mut kernel, 9), Next::Return);
    assert_eq!((tf.xregs[0], tf.xregs[7]), (1, 0));

    assert_eq!(handle_syscall(3, &mut tf, &mut kernel, 2_000_001), Next::Return);
    assert_eq!((tf.xregs[0], tf.xregs[1], tf.xregs[7]), (2, 1000, 0));

    tf.xregs[0] = 0x1234_560a;
    assert_eq!(handle_syscall(5, &mut tf, &mut kernel, 9), Next::Return);
    assert_eq!(kernel.console, b"\r\n");
    assert_eq!(tf.xregs[7], 0);

    tf.xregs[0] = 0x1_0000_0003;
    assert_eq!(handle_syscall(1, &mut tf, &mut kernel, 1000), Next::Return);
    assert_eq!(tf.tpidr, 2);
    assert_eq!(
        states(&mut kernel),
        vec![(2, State::Running), (1, State::Waiting(Event::Sleep { start: 1000, ms: 3 }))]
    );

    assert_eq!(handle_syscall(2, &mut tf, &mut kernel, 1000), Next::Switch);
    assert_eq!(states(&mut kernel).len(), 1);
    assert_eq!(handle_syscall(2, &mut tf, &mut kernel, 1000), Next::Return);
}

#[test]
fn unknown_system_call_is_answered_with_a_status() {
    let mut kernel = kernel_with(1);
    let mut tf = boot(&mut kernel, &mut quiet(), 0);
    let before = tf;
    for num in [0u16, 6, 7, 0xffff] {
        tf = before;
        assert_eq!(handle_syscall(num, &mut tf, &mut kernel, 5), Next::Return);
        assert_eq!(tf.xregs[7], OsError::Unknown.code());
        tf.xregs[7] = before.xregs[7];
        assert_eq!(tf, before);
    }
    assert_eq!(states(&mut kernel), vec![(1, State::Ready)]);
    assert!(kernel.console.is_empty());
}

#[test]
fn breakpoint_enters_the_shell_and_is_skipped() {
    let mut kernel = kernel_with(1);
    let mut tf = boot(&mut kernel, &mut quiet(), 0);
    tf.elr = 0x1000;
    let info = Info { source: Source::LowerAArch64, kind: Kind::Synchronous };
    let action = handle_exception(info, esr(0b111100, 1), &mut tf, &mut kernel, &quiet(), 0);
    assert_eq!(action, Action::Shell);
    assert_eq!(tf.elr, 0x1004);
    tf.elr = u64::MAX - 1;
    handle_exception(info, esr(0b111100, 1), &mut tf, &mut kernel, &quiet(), 0);
    assert_eq!(tf.elr, 2);
}

#[test]
fn supervisor_call_is_served_as_a_system_call() {
    let mut kernel = kernel_with(1);
    let mut tf = boot(&mut kernel, &mut quiet(), 0);
    let info = Info { source: Source::LowerAArch64, kind: Kind::Synchronous };
    let action = handle_exception(info, esr(0b010101, 4), &mut tf, &mut kernel, &quiet(), 0);
    assert_eq!(action, Action::Resume(Next::Return));
    assert_eq!(tf.xregs[0], 1);
    let action = handle_exception(info, esr(0b010101, 2), &mut tf, &mut kernel, &quiet(), 0);
    assert_eq!(action, Action::Resume(Next::Switch));
    assert_eq!(kernel.scheduler.critical().len(), 0);
}

#[test]
fn data_abort_of_a_user_store_to_address_zero_is_reported() {
    let mut kernel = kernel_with(1);
    let mut tf = boot(&mut kernel, &mut quiet(), 0);
    let before = tf;
    let info = Info { source: Source::LowerAArch64, kind: Kind::Synchronous };
    let raw = esr(0b100100, 0b100_0110);
    let action = handle_exception(info, raw, &mut tf, &mut kernel, &quiet(), 0);
    assert_eq!(
        action,
        Action::Unhandled(Syndrome::DataAbort { kind: Fault::Other(0b100_0110), level: 2 })
    );
    let action = handle_exception(info, esr(0b100100, 0b00_0101), &mut tf, &mut kernel, &quiet(), 0);
    assert_eq!(
        action,
        Action::Unhandled(Syndrome::DataAbort { kind: Fault::Translation, level: 1 })
    );
    assert_eq!(tf, before);
    assert_eq!(states(&mut kernel), vec![(1, State::Ready)]);
}

#[test]
fn interrupt_request_lists_the_pending_sources_in_order() {
    let mut kernel = kernel_with(1);
    let mut tf = boot(&mut kernel, &mut quiet(), 0);
    let before = tf;
    let mut controller = quiet();
    controller.registers.irq_pending = [(1 << 9) | (1 << 1) | (1 << 2), (1 << 25) | (1 << 17) | 1];
    let info = Info { source: Source::LowerAArch64, kind: Kind::Irq };
    let action = handle_exception(info, 0, &mut tf, &mut kernel, &controller, 0);
    assert_eq!(
        action,
        Action::Interrupts(vec![
            Interrupt::Timer1,
            Interrupt::Usb,
            Interrupt::Gpio0,
            Interrupt::Uart
        ])
    );
    assert_eq!(tf, before);
    assert_eq!(pending_interrupts(&quiet()), Vec::<Interrupt>::new());
}

#[test]
fn other_kinds_of_exception_are_reported() {
    let mut kernel = kernel_with(1);
    let mut tf = boot(&mut kernel, &mut quiet(), 0);
    let before = tf;
    for kind in [Kind::Fiq, Kind::SError] {
        let info = Info { source: Source::CurrentSpElx, kind };
        let action = handle_exception(info, esr(0b010101, 2), &mut tf, &mut kernel, &quiet(), 0);
        assert_eq!(action, Action::Ignored(kind));
    }
    assert_eq!(tf, before);
    assert_eq!(kernel.scheduler.critical().len(), 1);
}
