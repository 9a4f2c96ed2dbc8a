//! Programming of the local x2APIC and the legacy 8259 PICs: which values go
//! to which model-specific registers and ports, and the feature checks.

use vstd::prelude::*;

verus! {

/// A write of `value` to model-specific register `msr`.
#[derive(Clone, Copy, Debug)]
pub struct MsrWrite {
    pub msr: u32,
    pub value: u64,
}

/// A byte written to an I/O port.
#[derive(Clone, Copy, Debug)]
pub struct PortWrite {
    pub port: u16,
    pub value: u8,
}

pub const PIC1_COMMAND: u16 = 0x20;
pub const PIC1_DATA: u16 = 0x21;
pub const PIC2_COMMAND: u16 = 0xA0;
pub const PIC2_DATA: u16 = 0xA1;
pub const ICW1_ICW4: u8 = 0x01;
pub const ICW1_INIT: u8 = 0x10;
pub const ICW4_8086: u8 = 0x01;

pub const X2APIC_BASE: u32 = 0x800;
pub const X2APIC_ID: u32 = 0x802;
pub const X2APIC_VERSION: u32 = 0x803;
pub const X2APIC_SPURIOUS: u32 = 0x80F;
pub const X2APIC_EOI: u32 = 0x80B;
pub const X2APIC_LVT_TIMER: u32 = 0x832;
pub const X2APIC_LVT_THERMAL: u32 = 0x834;
pub const X2APIC_LVT_PERF: u32 = 0x835;
pub const X2APIC_LVT_LINT0: u32 = 0x836;
pub const X2APIC_LVT_LINT1: u32 = 0x837;
pub const X2APIC_LVT_ERROR: u32 = 0x830;
pub const X2APIC_TIMER_INIT: u32 = 0x838;
pub const X2APIC_TIMER_CURRENT: u32 = 0x839;
pub const X2APIC_TIMER_DIV: u32 = 0x83E;

/// Interrupt vector of the APIC timer.
pub const TIMER_VECTOR: u8 = 0x20;
/// Mask bit of a local vector table entry.
pub const LVT_MASKED: u64 = 0x10000;

/// The port writes that reinitialise both 8259 PICs with their vectors
/// moved to 0x20 and 0x28 and then mask every line.
pub fn disable_8259pic() -> (r: Vec<PortWrite>)
    ensures
        r@ == seq![
            PortWrite { port: PIC1_COMMAND, value: 0x11u8 },
            PortWrite { port: PIC2_COMMAND, value: 0x11u8 },
            PortWrite { port: PIC1_DATA, value: 0x20u8 },
            PortWrite { port: PIC2_DATA, value: 0x28u8 },
            PortWrite { port: PIC1_DATA, value: 4u8 },
            PortWrite { port: PIC2_DATA, value: 2u8 },
            PortWrite { port: PIC1_DATA, value: ICW4_8086 },
            PortWrite { port: PIC2_DATA, value: ICW4_8086 },
            PortWrite { port: PIC1_DATA, value: 0xFFu8 },
            PortWrite { port: PIC2_DATA, value: 0xFFu8 },
        ],
{
    let init = ICW1_INIT | ICW1_ICW4;
    assert(ICW1_INIT | ICW1_ICW4 == 0x11u8) by (bit_vector);
    let mut r: Vec<PortWrite> = Vec::new();
    r.push(PortWrite { port: PIC1_COMMAND, value: init });
    r.push(PortWrite { port: PIC2_COMMAND, value: init });
    r.push(PortWrite { port: PIC1_DATA, value: 0x20 });
    r.push(PortWrite { port: PIC2_DATA, value: 0x28 });
    r.push(PortWrite { port: PIC1_DATA, value: 4 });
    r.push(PortWrite { port: PIC2_DATA, value: 2 });
    r.push(PortWrite { port: PIC1_DATA, value: ICW4_8086 });
    r.push(PortWrite { port: PIC2_DATA, value: ICW4_8086 });
    r.push(PortWrite { port: PIC1_DATA, value: 0xFF });
    r.push(PortWrite { port: PIC2_DATA, value: 0xFF });
    r
}

/// ECX and EDX of CPUID leaf 1, the processor feature flags.
#[verifier::external_body]
fn cpuid_features() -> (r: (u32, u32)) {
    let leaf = core::arch::x86_64::__cpuid(1);
    (leaf.ecx, leaf.edx)
}

/// Whether CPUID leaf 1 EDX reports a local APIC (bit 9).
pub fn apic_in_features(edx: u32) -> (r: bool)
    ensures
        r == (edx & 0x200 != 0),
{
    assert(1u32 << 9u32 == 0x200u32) by (bit_vector);
    edx & (1 << 9) != 0
}

/// Whether CPUID leaf 1 ECX reports x2APIC mode (bit 21).
pub fn x2apic_in_features(ecx: u32) -> (r: bool)
    ensures
        r == (ecx & 0x20_0000 != 0),
{
    assert(1u32 << 21u32 == 0x20_0000u32) by (bit_vector);
    ecx & (1 << 21) != 0
}

/// Whether this processor has a local APIC.
pub fn check_apic() -> bool {
    let (_, edx) = cpuid_features();
    apic_in_features(edx)
}

/// Whether this processor supports x2APIC mode.
pub fn check_x2apic() -> bool {
    let (ecx, _) = cpuid_features();
    x2apic_in_features(ecx)
}

/// `ApicBaseFlags::LAPIC_ENABLE` of the `x86_64` crate, which it defines as
/// bit 11 of IA32_APIC_BASE.
#[verifier::external_body]
fn lapic_enable_bit() -> (r: u64)
    ensures
        r == 0x800,
{
    x86_64::registers::model_specific::ApicBaseFlags::LAPIC_ENABLE.bits()
}

/// `ApicBaseFlags::X2APIC_ENABLE` of the `x86_64` crate, which it defines
/// as bit 10 of IA32_APIC_BASE.
#[verifier::external_body]
fn x2apic_enable_bit() -> (r: u64)
    ensures
        r == 0x400,
{
    x86_64::registers::model_specific::ApicBaseFlags::X2APIC_ENABLE.bits()
}

/// The IA32_APIC_BASE flags that enable the local APIC in x2APIC mode.
pub fn x2apic_enable_flags() -> (r: u64)
    ensures
        r == 0xC00,
{
    let r = lapic_enable_bit() | x2apic_enable_bit();
    assert(0x800u64 | 0x400u64 == 0xC00u64) by (bit_vector);
    r
}

/// What enabling x2APIC mode takes on a processor whose CPUID leaf 1 ECX
/// is `ecx`: `None` when it lacks x2APIC support and nothing is to be done;
/// else the legacy PICs are to be disabled and IA32_APIC_BASE rewritten
/// with its frame and these flags.
pub fn x2apic_enable_plan(ecx: u32) -> (r: Option<u64>)
    ensures
        r == if ecx & 0x20_0000 != 0 {
            Some(0xC00u64)
        } else {
            None
        },
{
    if !x2apic_in_features(ecx) {
        return None;
    }
    Some(x2apic_enable_flags())
}

/// What enabling x2APIC mode takes on this processor, as
/// `x2apic_enable_plan` says for its feature flags.
pub fn enable_x2apic() -> (r: Option<u64>)
    ensures
        r matches Some(f) ==> f == 0xC00,
{
    let (ecx, _) = cpuid_features();
    x2apic_enable_plan(ecx)
}

/// The two 32-bit halves (EAX, EDX) a WRMSR of `value` takes.
pub fn msr_halves(value: u64) -> (r: (u32, u32))
    ensures
        r.0 == value % 0x1_0000_0000,
        r.1 == value / 0x1_0000_0000,
{
    let low = value as u32;
    let high = (value >> 32) as u32;
    assert(value as u32 == value % 0x1_0000_0000) by (bit_vector);
    assert((value >> 32u64) as u32 == value / 0x1_0000_0000) by (bit_vector);
    (low, high)
}

/// The value a RDMSR gives from its halves in EAX and EDX.
pub fn msr_value(low: u32, high: u32) -> (r: u64)
    ensures
        r == high * 0x1_0000_0000 + low,
{
    let r = (high as u64) << 32 | (low as u64);
    let (h, l) = (high as u64, low as u64);
    assert((h << 32u64) | l == h * 0x1_0000_0000 + l) by (bit_vector)
        requires
            h < 0x1_0000_0000,
            l < 0x1_0000_0000,
    ;
    r
}

/// The version field (bits 16..24) of the x2APIC version register.
pub fn apic_version(ver: u64) -> (r: u64)
    ensures
        r == (ver / 0x10000) % 0x100,
{
    assert((ver >> 16u64) & 0xFFu64 == (ver / 0x10000) % 0x100) by (bit_vector);
    (ver >> 16) & 0xFF
}

/// The writes that set up the local x2APIC: software-enable it with
/// spurious vector 0xFF, then mask the timer, thermal, performance, LINT0,
/// LINT1 and error entries.
pub fn apic_init() -> (r: Vec<MsrWrite>)
    ensures
        r@ == seq![
            MsrWrite { msr: X2APIC_SPURIOUS, value: 0x1FF },
            MsrWrite { msr: X2APIC_LVT_TIMER, value: LVT_MASKED },
            MsrWrite { msr: X2APIC_LVT_THERMAL, value: LVT_MASKED },
            MsrWrite { msr: X2APIC_LVT_PERF, value: LVT_MASKED },
            MsrWrite { msr: X2APIC_LVT_LINT0, value: LVT_MASKED },
            MsrWrite { msr: X2APIC_LVT_LINT1, value: LVT_MASKED },
            MsrWrite { msr: X2APIC_LVT_ERROR, value: LVT_MASKED },
        ],
{
    let spurious = 0xFFu64 | (1u64 << 8);
    let masked = 1u64 << 16;
    assert(0xFFu64 | (1u64 << 8u64) == 0x1FFu64) by (bit_vector);
    assert(1u64 << 16u64 == 0x10000u64) by (bit_vector);
    let mut r: Vec<MsrWrite> = Vec::new();
    r.push(MsrWrite { msr: X2APIC_SPURIOUS, value: spurious });
    r.push(MsrWrite { msr: X2APIC_LVT_TIMER, value: masked });
    r.push(MsrWrite { msr: X2APIC_LVT_THERMAL, value: masked });
    r.push(MsrWrite { msr: X2APIC_LVT_PERF, value: masked });
    r.push(MsrWrite { msr: X2APIC_LVT_LINT0, value: masked });
    r.push(MsrWrite { msr: X2APIC_LVT_LINT1, value: masked });
    r.push(MsrWrite { msr: X2APIC_LVT_ERROR, value: masked });
    r
}

/// The writes that start the APIC timer: divide by 2, one-shot on the timer
/// vector, initial count 1.
pub fn apic_timer_init() -> (r: Vec<MsrWrite>)
    ensures
        r@ == seq![
            MsrWrite { msr: X2APIC_TIMER_DIV, value: 0 },
            MsrWrite { msr: X2APIC_LVT_TIMER, value: TIMER_VECTOR as u64 },
            MsrWrite { msr: X2APIC_TIMER_INIT, value: 1 },
        ],
{
    let mut r: Vec<MsrWrite> = Vec::new();
    r.push(MsrWrite { msr: X2APIC_TIMER_DIV, value: 0 });
    r.push(MsrWrite { msr: X2APIC_LVT_TIMER, value: TIMER_VECTOR as u64 });
    r.push(MsrWrite { msr: X2APIC_TIMER_INIT, value: 0x1 });
    r
}

/// The write that signals end of interrupt.
pub fn x2apic_eoi() -> (r: MsrWrite)
    ensures
        r == (MsrWrite { msr: X2APIC_EOI, value: 0 }),
{
    MsrWrite { msr: X2APIC_EOI, value: 0 }
}

/// The registers the timer diagnostic reads back, in order: divide
/// configuration, timer entry, initial count, current count.
pub fn apic_timer_diag() -> (r: Vec<u32>)
    ensures
        r@ == seq![X2APIC_TIMER_DIV, X2APIC_LVT_TIMER, X2APIC_TIMER_INIT, X2APIC_TIMER_CURRENT],
{
    let mut r: Vec<u32> = Vec::new();
    r.push(X2APIC_TIMER_DIV);
    r.push(X2APIC_LVT_TIMER);
    r.push(X2APIC_TIMER_INIT);
    r.push(X2APIC_TIMER_CURRENT);
    r
}

/// The write that starts the next one-shot timer period.
pub fn x2apic_timer_rearm() -> (r: MsrWrite)
    ensures
        r == (MsrWrite { msr: X2APIC_TIMER_INIT, value: 0x100000 }),
{
    MsrWrite { msr: X2APIC_TIMER_INIT, value: 0x100000 }
}

/// Splitting a value into the halves of a WRMSR and joining the halves a
/// RDMSR gives back the value.
pub proof fn lemma_msr_halves_round_trip(value: u64)
    ensures
        (value / 0x1_0000_0000) * 0x1_0000_0000 + value % 0x1_0000_0000 == value,
        value % 0x1_0000_0000 < 0x1_0000_0000,
        value / 0x1_0000_0000 < 0x1_0000_0000,
{
}

} // verus!
