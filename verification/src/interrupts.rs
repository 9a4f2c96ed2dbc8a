//! How the kernel answers each CPU exception.

use vstd::prelude::*;
use crate::logger::Severity;

verus! {

/// The CPU exceptions the kernel installs handlers for.
#[derive(Clone, Copy, Debug, PartialEq, Eq, Structural)]
pub enum Exception {
    DivideError,
    Debug,
    NonMaskableInterrupt,
    Breakpoint,
    Overflow,
    BoundRangeExceeded,
    InvalidOpcode,
    DeviceNotAvailable,
    DoubleFault,
    InvalidTss,
    SegmentNotPresent,
    StackSegmentFault,
    GeneralProtectionFault,
    PageFault,
    X87FloatingPoint,
    AlignmentCheck,
    MachineCheck,
    SimdFloatingPoint,
    Virtualization,
}

/// The answer to an exception: the severity it is logged at and whether
/// the CPU then stays in the handler for good.
#[derive(Clone, Copy, Debug, PartialEq, Eq, Structural)]
pub struct ExceptionResponse {
    pub severity: Severity,
    pub halts: bool,
}

/// The response to `e`.
pub open spec fn response_spec(e: Exception) -> ExceptionResponse {
    match e {
        Exception::DivideError => ExceptionResponse { severity: Severity::Fatal, halts: true },
        Exception::Debug => ExceptionResponse { severity: Severity::Note, halts: false },
        Exception::NonMaskableInterrupt => ExceptionResponse {
            severity: Severity::Fatal,
            halts: false,
        },
        Exception::Breakpoint => ExceptionResponse { severity: Severity::Debug, halts: false },
        Exception::Overflow => ExceptionResponse { severity: Severity::Error, halts: false },
        Exception::BoundRangeExceeded => ExceptionResponse {
            severity: Severity::Fatal,
            halts: true,
        },
        Exception::InvalidOpcode => ExceptionResponse { severity: Severity::Fatal, halts: true },
        Exception::DeviceNotAvailable => ExceptionResponse {
            severity: Severity::Error,
            halts: false,
        },
        Exception::DoubleFault => ExceptionResponse { severity: Severity::Fatal, halts: true },
        Exception::InvalidTss => ExceptionResponse { severity: Severity::Fatal, halts: true },
        Exception::SegmentNotPresent => ExceptionResponse {
            severity: Severity::Fatal,
            halts: true,
        },
        Exception::StackSegmentFault => ExceptionResponse {
            severity: Severity::Fatal,
            halts: true,
        },
        Exception::GeneralProtectionFault => ExceptionResponse {
            severity: Severity::Fatal,
            halts: true,
        },
        Exception::PageFault => ExceptionResponse { severity: Severity::Error, halts: true },
        Exception::X87FloatingPoint => ExceptionResponse { severity: Severity::Note, halts: false },
        Exception::AlignmentCheck => ExceptionResponse { severity: Severity::Fatal, halts: true },
        Exception::MachineCheck => ExceptionResponse { severity: Severity::Fatal, halts: true },
        Exception::SimdFloatingPoint => ExceptionResponse {
            severity: Severity::Note,
            halts: false,
        },
        Exception::Virtualization => ExceptionResponse { severity: Severity::Note, halts: false },
    }
}

/// How the handler of `e` answers it.
pub fn exception_response(e: Exception) -> (r: ExceptionResponse)
    ensures
        r == response_spec(e),
{
    match e {
        Exception::DivideError => ExceptionResponse { severity: Severity::Fatal, halts: true },
        Exception::Debug => ExceptionResponse { severity: Severity::Note, halts: false },
        Exception::NonMaskableInterrupt => ExceptionResponse {
            severity: Severity::Fatal,
            halts: false,
        },
        Exception::Breakpoint => ExceptionResponse { severity: Severity::Debug, halts: false },
        Exception::Overflow => ExceptionResponse { severity: Severity::Error, halts: false },
        Exception::BoundRangeExceeded => ExceptionResponse {
            severity: Severity::Fatal,
            halts: true,
        },
        Exception::InvalidOpcode => ExceptionResponse { severity: Severity::Fatal, halts: true },
        Exception::DeviceNotAvailable => ExceptionResponse {
            severity: Severity::Error,
            halts: false,
        },
        Exception::DoubleFault => ExceptionResponse { severity: Severity::Fatal, halts: true },
        Exception::InvalidTss => ExceptionResponse { severity: Severity::Fatal, halts: true },
        Exception::SegmentNotPresent => ExceptionResponse {
            severity: Severity::Fatal,
            halts: true,
        },
        Exception::StackSegmentFault => ExceptionResponse {
            severity: Severity::Fatal,
            halts: true,
        },
        Exception::GeneralProtectionFault => ExceptionResponse {
            severity: Severity::Fatal,
            halts: true,
        },
        Exception::PageFault => ExceptionResponse { severity: Severity::Error, halts: true },
        Exception::X87FloatingPoint => ExceptionResponse { severity: Severity::Note, halts: false },
        Exception::AlignmentCheck => ExceptionResponse { severity: Severity::Fatal, halts: true },
        Exception::MachineCheck => ExceptionResponse { severity: Severity::Fatal, halts: true },
        Exception::SimdFloatingPoint => ExceptionResponse {
            severity: Severity::Note,
            halts: false,
        },
        Exception::Virtualization => ExceptionResponse { severity: Severity::Note, halts: false },
    }
}

/// Every exception that stops the CPU for good is logged as an error or
/// worse.
pub proof fn lemma_halting_exceptions_are_serious(e: Exception)
    ensures
        response_spec(e).halts ==> crate::logger::rank(response_spec(e).severity) >= 4,
{
}

/// The exception raised through interrupt vector `vector`, if the kernel
/// handles one there.
pub open spec fn exception_at(vector: u64) -> Option<Exception> {
    match vector {
        0 => Some(Exception::DivideError),
        1 => Some(Exception::Debug),
        2 => Some(Exception::NonMaskableInterrupt),
        3 => Some(Exception::Breakpoint),
        4 => Some(Exception::Overflow),
        5 => Some(Exception::BoundRangeExceeded),
        6 => Some(Exception::InvalidOpcode),
        7 => Some(Exception::DeviceNotAvailable),
        8 => Some(Exception::DoubleFault),
        10 => Some(Exception::InvalidTss),
        11 => Some(Exception::SegmentNotPresent),
        12 => Some(Exception::StackSegmentFault),
        13 => Some(Exception::GeneralProtectionFault),
        14 => Some(Exception::PageFault),
        16 => Some(Exception::X87FloatingPoint),
        17 => Some(Exception::AlignmentCheck),
        18 => Some(Exception::MachineCheck),
        19 => Some(Exception::SimdFloatingPoint),
        20 => Some(Exception::Virtualization),
        _ => None,
    }
}

/// The exception of interrupt vector `vector`.
pub fn exception_of(vector: u64) -> (r: Option<Exception>)
    ensures
        r == exception_at(vector),
{
    match vector {
        0 => Some(Exception::DivideError),
        1 => Some(Exception::Debug),
        2 => Some(Exception::NonMaskableInterrupt),
        3 => Some(Exception::Breakpoint),
        4 => Some(Exception::Overflow),
        5 => Some(Exception::BoundRangeExceeded),
        6 => Some(Exception::InvalidOpcode),
        7 => Some(Exception::DeviceNotAvailable),
        8 => Some(Exception::DoubleFault),
        10 => Some(Exception::InvalidTss),
        11 => Some(Exception::SegmentNotPresent),
        12 => Some(Exception::StackSegmentFault),
        13 => Some(Exception::GeneralProtectionFault),
        14 => Some(Exception::PageFault),
        16 => Some(Exception::X87FloatingPoint),
        17 => Some(Exception::AlignmentCheck),
        18 => Some(Exception::MachineCheck),
        19 => Some(Exception::SimdFloatingPoint),
        20 => Some(Exception::Virtualization),
        _ => None,
    }
}

/// The name an exception is logged under.
pub fn exception_name(e: Exception) -> (r: &'static str)
    ensures
        e == Exception::DivideError ==> r@ == "DIVIDE ERROR"@,
        e == Exception::Debug ==> r@ == "DEBUG"@,
        e == Exception::NonMaskableInterrupt ==> r@ == "NON-MASKABLE INTERRUPT"@,
        e == Exception::Breakpoint ==> r@ == "BREAKPOINT"@,
        e == Exception::Overflow ==> r@ == "OVERFLOW"@,
        e == Exception::BoundRangeExceeded ==> r@ == "BOUND RANGE EXCEEDED"@,
        e == Exception::InvalidOpcode ==> r@ == "INVALID OPCODE"@,
        e == Exception::DeviceNotAvailable ==> r@ == "DEVICE NOT AVAILABLE"@,
        e == Exception::DoubleFault ==> r@ == "DOUBLE FAULT"@,
        e == Exception::InvalidTss ==> r@ == "INVALID TSS"@,
        e == Exception::SegmentNotPresent ==> r@ == "SEGMENT NOT PRESENT"@,
        e == Exception::StackSegmentFault ==> r@ == "STACK SEGMENT FAULT"@,
        e == Exception::GeneralProtectionFault ==> r@ == "GENERAL PROTECTION FAULT"@,
        e == Exception::PageFault ==> r@ == "PAGE FAULT"@,
        e == Exception::X87FloatingPoint ==> r@ == "X87 FLOATING POINT"@,
        e == Exception::AlignmentCheck ==> r@ == "ALIGNMENT CHECK"@,
        e == Exception::MachineCheck ==> r@ == "MACHINE CHECK"@,
        e == Exception::SimdFloatingPoint ==> r@ == "SIMD FLOATING POINT"@,
        e == Exception::Virtualization ==> r@ == "VIRTUALIZATION"@,
{
    match e {
        Exception::DivideError => "DIVIDE ERROR",
        Exception::Debug => "DEBUG",
        Exception::NonMaskableInterrupt => "NON-MASKABLE INTERRUPT",
        Exception::Breakpoint => "BREAKPOINT",
        Exception::Overflow => "OVERFLOW",
        Exception::BoundRangeExceeded => "BOUND RANGE EXCEEDED",
        Exception::InvalidOpcode => "INVALID OPCODE",
        Exception::DeviceNotAvailable => "DEVICE NOT AVAILABLE",
        Exception::DoubleFault => "DOUBLE FAULT",
        Exception::InvalidTss => "INVALID TSS",
        Exception::SegmentNotPresent => "SEGMENT NOT PRESENT",
        Exception::StackSegmentFault => "STACK SEGMENT FAULT",
        Exception::GeneralProtectionFault => "GENERAL PROTECTION FAULT",
        Exception::PageFault => "PAGE FAULT",
        Exception::X87FloatingPoint => "X87 FLOATING POINT",
        Exception::AlignmentCheck => "ALIGNMENT CHECK",
        Exception::MachineCheck => "MACHINE CHECK",
        Exception::SimdFloatingPoint => "SIMD FLOATING POINT",
        Exception::Virtualization => "VIRTUALIZATION",
    }
}

/// Whether the handler of an exception logs the error code the CPU pushed
/// with it as "Error code: ..." (the page fault logs it in its own form).
pub open spec fn logs_error_code_spec(e: Exception) -> bool {
    e == Exception::DoubleFault || e == Exception::InvalidTss || e == Exception::SegmentNotPresent || e == Exception::StackSegmentFault || e == Exception::GeneralProtectionFault || e == Exception::AlignmentCheck
}

/// Whether the handler of `e` logs the error code.
pub fn logs_error_code(e: Exception) -> (r: bool)
    ensures
        r == logs_error_code_spec(e),
{
    match e {
        Exception::DoubleFault | Exception::InvalidTss | Exception::SegmentNotPresent
        | Exception::StackSegmentFault | Exception::GeneralProtectionFault
        | Exception::AlignmentCheck => true,
        _ => false,
    }
}

/// Every handler that is handed an error code logs it as fatal and then
/// stays in the handler for good; the other faults (divide error, bound
/// range, invalid opcode, page fault, machine check) stop the CPU as well,
/// and the remaining exceptions are logged and returned from.
pub proof fn lemma_error_code_handlers_halt(e: Exception)
    ensures
        logs_error_code_spec(e) ==> response_spec(e).halts && response_spec(e).severity
            == Severity::Fatal,
        (e == Exception::DivideError || e == Exception::BoundRangeExceeded || e
            == Exception::InvalidOpcode || e == Exception::PageFault || e
            == Exception::MachineCheck) ==> response_spec(e).halts,
        (e == Exception::Debug || e == Exception::NonMaskableInterrupt || e
            == Exception::Breakpoint || e == Exception::Overflow || e
            == Exception::DeviceNotAvailable || e == Exception::X87FloatingPoint || e
            == Exception::SimdFloatingPoint || e == Exception::Virtualization)
            ==> !response_spec(e).halts,
{
}

/// Each handler logs at the level of the macro it reports with: the faults
/// that end the kernel and the non-maskable interrupt as fatal, overflow,
/// an unavailable device and page faults as errors, debug traps and
/// floating-point and virtualization exceptions as notes, and breakpoints
/// as debug messages.
pub proof fn lemma_exception_severity(e: Exception)
    ensures
        (e == Exception::Overflow || e == Exception::DeviceNotAvailable || e
            == Exception::PageFault) <==> response_spec(e).severity == Severity::Error,
        (e == Exception::Debug || e == Exception::X87FloatingPoint || e
            == Exception::SimdFloatingPoint || e == Exception::Virtualization) <==> response_spec(
            e,
        ).severity == Severity::Note,
        (e == Exception::Breakpoint) <==> response_spec(e).severity == Severity::Debug,
        (e == Exception::NonMaskableInterrupt || (response_spec(e).halts && e
            != Exception::PageFault)) <==> response_spec(e).severity == Severity::Fatal,
{
}

/// Interrupt vectors 0 to 20 but 9 and 15 each raise an exception the
/// kernel handles, different vectors raising different exceptions; no
/// other vector does.
pub proof fn lemma_exception_vectors(v: u64, u: u64)
    ensures
        exception_at(v) is Some <==> (v <= 20 && v != 9 && v != 15),
        exception_at(v) is Some && exception_at(v) == exception_at(u) ==> v == u,
{
}

} // verus!
