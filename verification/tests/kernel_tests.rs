use yenx_kernel::apic::{
    apic_in_features, apic_init, apic_timer_diag, apic_timer_init, apic_version, check_apic,
    check_x2apic, disable_8259pic, enable_x2apic, msr_halves, msr_value, x2apic_eoi,
    x2apic_enable_flags, x2apic_in_features, x2apic_timer_rearm, X2APIC_EOI, X2APIC_LVT_TIMER,
    X2APIC_SPURIOUS, X2APIC_TIMER_INIT,
};
use yenx_kernel::interrupts::{exception_name, exception_response, logs_error_code, Exception};
use yenx_kernel::logger::{prefix, set_log_level, Logger, Severity};
use yenx_kernel::process::{schedule, spawn, Context, InterruptFrame, Process, ProcessState, ProcessTable};
use yenx_kernel::serial::{serial_init, transmit_ready, SerialWrite};

#[test]
fn context_new_is_all_zero() {
    let c = Context::new();
    assert_eq!(
        [c.rax, c.rbx, c.rcx, c.rdx, c.r8, c.r9, c.r10, c.r11, c.r12, c.r13, c.r14, c.r15, c.ss,
            c.rsp, c.rflags, c.cs, c.rip],
        [0; 17]
    );
}

#[test]
fn spawn_builds_a_ready_process() {
    let mut t = ProcessTable::new();
    spawn(&mut t, 0x40_1000, 0x90_0000);
    assert_eq!(t.len(), 1);
    let p: Process = t.get(0);
    assert!(p.state == ProcessState::Ready);
    assert_eq!(p.stack, 0x90_0000);
    assert_eq!(p.context.rsp, 0x90_0000 + 64000);
    assert_eq!(p.context.rip, 0x40_1000);
    assert_eq!(p.context.rax, 0);
    // the registers are read from the CPU: a code segment is loaded and
    // bit 1 of RFLAGS always reads as 1
    assert_ne!(p.context.cs, 0);
    assert_eq!(p.context.rflags & 2, 2);
}

fn frame() -> InterruptFrame {
    InterruptFrame {
        instruction_pointer: 0x1234,
        code_segment: 8,
        cpu_flags: 0x202,
        stack_pointer: 0x8000,
        stack_segment: 16,
    }
}

#[test]
fn schedule_saves_into_previous_and_resumes_current() {
    let mut t = ProcessTable::new();
    spawn(&mut t, 0xA000, 0x10_0000);
    spawn(&mut t, 0xB000, 0x20_0000);
    let mut regs = Context::new();
    regs.rax = 42;
    let resumed = schedule(&mut t, regs, frame());
    // pid 0: the interrupted context goes to the last process
    assert_eq!(t.current_pid(), 0);
    assert_eq!(resumed.rip, 0xA000);
    let last = t.get(1);
    assert!(last.state == ProcessState::Ready);
    assert_eq!(last.context.rax, 42);
    assert_eq!(last.context.rip, 0x1234);
    assert_eq!(last.context.rsp, 0x8000);
    assert_eq!(last.context.ss, 16);
    assert_eq!(last.context.cs, 8);
    assert_eq!(last.context.rflags, 0x202);
    assert!(t.get(0).state == ProcessState::Running);
}

#[test]
fn single_process_resumes_itself() {
    let mut t = ProcessTable::new();
    spawn(&mut t, 0xA000, 0x10_0000);
    let mut regs = Context::new();
    regs.r15 = 7;
    let resumed = schedule(&mut t, regs, frame());
    assert_eq!(resumed.r15, 7);
    assert_eq!(resumed.rip, 0x1234);
    assert!(t.get(0).state == ProcessState::Running);
}

#[test]
fn pic_sequence() {
    let w = disable_8259pic();
    let pairs: Vec<(u16, u8)> = w.iter().map(|x| (x.port, x.value)).collect();
    assert_eq!(
        pairs,
        vec![(0x20, 0x11), (0xA0, 0x11), (0x21, 0x20), (0xA1, 0x28), (0x21, 4), (0xA1, 2),
            (0x21, 1), (0xA1, 1), (0x21, 0xFF), (0xA1, 0xFF)]
    );
}

#[test]
fn apic_register_writes() {
    let w = apic_init();
    assert_eq!(w.len(), 7);
    assert_eq!((w[0].msr, w[0].value), (X2APIC_SPURIOUS, 0x1FF));
    assert!(w[1..].iter().all(|x| x.value == 0x10000));
    assert_eq!(w[1].msr, X2APIC_LVT_TIMER);
    assert_eq!(w[6].msr, 0x830);
    let t = apic_timer_init();
    let pairs: Vec<(u32, u64)> = t.iter().map(|x| (x.msr, x.value)).collect();
    assert_eq!(pairs, vec![(0x83E, 0), (0x832, 0x20), (0x838, 1)]);
    let e = x2apic_eoi();
    assert_eq!((e.msr, e.value), (X2APIC_EOI, 0));
    let r = x2apic_timer_rearm();
    assert_eq!((r.msr, r.value), (X2APIC_TIMER_INIT, 0x100000));
    assert_eq!(apic_timer_diag(), vec![0x83E, 0x832, 0x838, 0x839]);
}

#[test]
fn msr_halves_and_value() {
    assert_eq!(msr_halves(0x1234_5678_9ABC_DEF0), (0x9ABC_DEF0, 0x1234_5678));
    assert_eq!(msr_value(0x9ABC_DEF0, 0x1234_5678), 0x1234_5678_9ABC_DEF0);
    let (l, h) = msr_halves(u64::MAX);
    assert_eq!(msr_value(l, h), u64::MAX);
    assert_eq!(apic_version(0x0005_0014), 0x05);
    assert_eq!(apic_version(0xFF12_3456), 0x12);
}

#[test]
fn feature_bits() {
    assert!(apic_in_features(1 << 9));
    assert!(!apic_in_features(!(1 << 9)));
    assert!(x2apic_in_features(1 << 21));
    assert!(!x2apic_in_features(1 << 20));
    // the processor answers; either answer is possible
    let _ = check_apic();
    let x = check_x2apic();
    match enable_x2apic() {
        Some(f) => {
            assert!(x);
            assert_eq!(f, 0xC00);
        },
        None => assert!(!x),
    }
}

#[test]
fn apic_enable_flags() {
    assert_eq!(x2apic_enable_flags(), 0xC00);
}

#[test]
fn log_routing() {
    let mut l = Logger::new();
    assert!(l.route(Severity::Debug).serial);
    assert!(!l.route(Severity::Debug).screen);
    assert!(!l.route(Severity::Info).screen);
    l.enable_screen = true;
    assert!(l.route(Severity::Info).screen);
    assert!(!l.route(Severity::Debug).screen);
    set_log_level(&mut l, 3);
    assert!(!l.route(Severity::Note).serial);
    assert!(l.route(Severity::Warn).serial);
    assert!(l.route(Severity::Fatal).screen);
    set_log_level(&mut l, 9);
    assert_eq!(l.level, 9);
    assert!(!l.route(Severity::Fatal).serial);
    assert_eq!(prefix(Severity::Warn), "[WARN] ");
    assert_eq!(prefix(Severity::Debug), "[DEBUG] ");
}

#[test]
fn serial_setup_and_ready_bit() {
    let w = serial_init();
    assert_eq!(w.len(), 5);
    assert!(w[0] == SerialWrite::Word { port: 0x3fb, word: 0x80 });
    assert!(w[4] == SerialWrite::Byte { port: 0x3fc, byte: 0x0b });
    assert!(transmit_ready(0x20));
    assert!(transmit_ready(0x60));
    assert!(!transmit_ready(0x1F));
}

#[test]
fn exception_answers() {
    let r = exception_response(Exception::PageFault);
    assert!(r.severity == Severity::Error && r.halts);
    let r = exception_response(Exception::Breakpoint);
    assert!(r.severity == Severity::Debug && !r.halts);
    let r = exception_response(Exception::NonMaskableInterrupt);
    assert!(r.severity == Severity::Fatal && !r.halts);
    let r = exception_response(Exception::DoubleFault);
    assert!(r.severity == Severity::Fatal && r.halts);
}

#[test]
fn x2apic_plan_follows_feature_bit() {
    assert_eq!(yenx_kernel::apic::x2apic_enable_plan(1 << 21), Some(0xC00));
    assert_eq!(yenx_kernel::apic::x2apic_enable_plan(!(1 << 21)), None);
}

#[test]
fn new_process_context_fields() {
    let c = yenx_kernel::process::new_process_context(0x1000, 0x2000, 0x10, 0x8, 0x202);
    assert_eq!((c.ss, c.cs, c.rflags, c.rip, c.rsp), (0x10, 0x8, 0x202, 0x1000, 0x2000 + 64000));
    assert_eq!(c.rax | c.rbx | c.r15, 0);
}

#[test]
fn exception_vectors_names_and_error_codes() {
    assert!(yenx_kernel::interrupts::exception_of(14) == Some(Exception::PageFault));
    assert!(yenx_kernel::interrupts::exception_of(9).is_none());
    assert!(yenx_kernel::interrupts::exception_of(32).is_none());
    assert_eq!(exception_name(Exception::GeneralProtectionFault), "GENERAL PROTECTION FAULT");
    assert_eq!(exception_name(Exception::NonMaskableInterrupt), "NON-MASKABLE INTERRUPT");
    assert!(logs_error_code(Exception::DoubleFault));
    assert!(!logs_error_code(Exception::PageFault));
    assert!(!logs_error_code(Exception::MachineCheck));
}
