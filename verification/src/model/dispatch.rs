//! Which kernel runs the ternary products, as a function of the processor.

use vstd::prelude::*;

verus! {

/// A processor architecture.
#[derive(Debug, Clone, Copy, PartialEq, Eq, Structural)]
pub enum Arch {
    AArch64,
    X86,
    X86_64,
    Other,
}

/// What is known of the processor: its architecture, and which features were
/// detected. A feature of another architecture is not there.
#[derive(Debug, Clone, Copy, PartialEq, Eq, Structural)]
pub struct CpuFeatures {
    pub arch: Arch,
    pub neon: bool,
    pub dotprod: bool,
    pub sse2: bool,
    pub sse41: bool,
    pub avx2: bool,
}

impl CpuFeatures {
    /// The processor is of the x86 family.
    pub open spec fn x86(self) -> bool {
        self.arch == Arch::X86 || self.arch == Arch::X86_64
    }

    /// Whether the processor is of the x86 family.
    pub fn is_x86(&self) -> (b: bool)
        ensures
            b == self.x86(),
    {
        match self.arch {
            Arch::X86 => true,
            Arch::X86_64 => true,
            _ => false,
        }
    }
}

/// A kernel for the ternary products.
#[derive(Debug, Clone, Copy, PartialEq, Eq, Structural)]
pub enum Kernel {
    /// The reference, which runs everywhere.
    Scalar,
    /// For 64-bit ARM with NEON.
    AArch64Neon,
    /// For 32-bit or 64-bit x86 with SSE2.
    X86Sse2,
}

impl Kernel {
    /// What a kernel is called on an architecture.
    pub open spec fn called(self, arch: Arch) -> Seq<char> {
        match self {
            Kernel::Scalar => match arch {
                Arch::AArch64 => "aarch64 scalar"@,
                Arch::X86_64 => "x86_64 scalar"@,
                Arch::X86 => "i686 scalar"@,
                Arch::Other => "scalar (generic)"@,
            },
            Kernel::AArch64Neon => "aarch64 NEON"@,
            Kernel::X86Sse2 => match arch {
                Arch::X86_64 => "x86_64 SSE2"@,
                Arch::X86 => "i686 SSE2"@,
                _ => "x86 SSE2"@,
            },
        }
    }

    /// What a kernel is called on an architecture.
    pub fn label(self, arch: Arch) -> (s: &'static str)
        ensures
            s@ == self.called(arch),
    {
        match self {
            Kernel::Scalar => match arch {
                Arch::AArch64 => "aarch64 scalar",
                Arch::X86_64 => "x86_64 scalar",
                Arch::X86 => "i686 scalar",
                Arch::Other => "scalar (generic)",
            },
            Kernel::AArch64Neon => "aarch64 NEON",
            Kernel::X86Sse2 => match arch {
                Arch::X86_64 => "x86_64 SSE2",
                Arch::X86 => "i686 SSE2",
                _ => "x86 SSE2",
            },
        }
    }
}

/// The kernel for a processor: the vector kernel of its family where the feature
/// that it needs was detected, and the reference otherwise.
pub open spec fn kernel_of(cpu: CpuFeatures) -> Kernel {
    if cpu.arch == Arch::AArch64 && cpu.neon {
        Kernel::AArch64Neon
    } else if cpu.x86() && cpu.sse2 {
        Kernel::X86Sse2
    } else {
        Kernel::Scalar
    }
}

/// The kernel for a processor.
pub fn active_kernel(cpu: &CpuFeatures) -> (k: Kernel)
    ensures
        k == kernel_of(*cpu),
{
    match cpu.arch {
        Arch::AArch64 => {
            if cpu.neon {
                return Kernel::AArch64Neon;
            }
        },
        _ => {
            if cpu.is_x86() && cpu.sse2 {
                return Kernel::X86Sse2;
            }
        },
    }
    Kernel::Scalar
}

/// The features that are reported for a processor, by name.
pub open spec fn feature_list(cpu: CpuFeatures) -> Seq<(Seq<char>, bool)> {
    if cpu.arch == Arch::AArch64 {
        seq![("neon"@, cpu.neon), ("dotprod"@, cpu.dotprod)]
    } else if cpu.x86() {
        seq![("sse2"@, cpu.sse2), ("sse4.1"@, cpu.sse41), ("avx2"@, cpu.avx2)]
    } else {
        Seq::empty()
    }
}

/// The features that are reported for a processor, by name.
pub fn detected_features(cpu: &CpuFeatures) -> (list: Vec<(&'static str, bool)>)
    ensures
        list@.len() == feature_list(*cpu).len(),
        forall|i: int|
            0 <= i < list@.len() ==> ((#[trigger] list@[i]).0@, list@[i].1) == feature_list(
                *cpu,
            )[i],
{
    let mut out: Vec<(&'static str, bool)> = Vec::new();
    match cpu.arch {
        Arch::AArch64 => {
            out.push(("neon", cpu.neon));
            out.push(("dotprod", cpu.dotprod));
        },
        _ => {
            if cpu.is_x86() {
                out.push(("sse2", cpu.sse2));
                out.push(("sse4.1", cpu.sse41));
                out.push(("avx2", cpu.avx2));
            }
        },
    }
    out
}

/// A vector kernel is chosen only where the feature that it needs was detected.
pub proof fn vector_kernels_are_supported(cpu: CpuFeatures)
    ensures
        kernel_of(cpu) == Kernel::AArch64Neon ==> cpu.neon,
        kernel_of(cpu) == Kernel::X86Sse2 ==> cpu.sse2,
{
}

/// The vector kernel of a family is chosen wherever its feature was detected, and no kernel
/// of another family ever is.
pub proof fn detected_features_are_used(cpu: CpuFeatures)
    ensures
        cpu.arch == Arch::AArch64 ==> (kernel_of(cpu) == Kernel::AArch64Neon <==> cpu.neon),
        cpu.arch == Arch::X86_64 ==> (kernel_of(cpu) == Kernel::X86Sse2 <==> cpu.sse2),
        cpu.arch == Arch::X86 ==> (kernel_of(cpu) == Kernel::X86Sse2 <==> cpu.sse2),
        cpu.arch == Arch::Other ==> kernel_of(cpu) == Kernel::Scalar,
        kernel_of(cpu) == Kernel::AArch64Neon ==> cpu.arch == Arch::AArch64,
        kernel_of(cpu) == Kernel::X86Sse2 ==> cpu.arch == Arch::X86 || cpu.arch == Arch::X86_64,
{
}


/// The features of a processor are reported by name, each with whether it was detected.
pub proof fn features_are_reported(cpu: CpuFeatures)
    ensures
        cpu.arch == Arch::AArch64 ==> feature_list(cpu).contains(("neon"@, cpu.neon))
            && feature_list(cpu).contains(("dotprod"@, cpu.dotprod)) && feature_list(cpu).len() == 2,
        cpu.x86() ==> feature_list(cpu).contains(("sse2"@, cpu.sse2)) && feature_list(cpu).contains(
            ("sse4.1"@, cpu.sse41),
        ) && feature_list(cpu).contains(("avx2"@, cpu.avx2)) && feature_list(cpu).len() == 3,
        cpu.arch == Arch::Other ==> feature_list(cpu).len() == 0,
{
    let list = feature_list(cpu);
    if cpu.arch == Arch::AArch64 {
        assert(list.contains(list[0]) && list.contains(list[1]));
    } else if cpu.x86() {
        assert(list.contains(list[0]) && list.contains(list[1]) && list.contains(list[2]));
    }
}

} // verus!
