//! CUDA kernel sources and their stable entry-point names.
//!
//! This module owns the boundary between CUDA function names and Rust. Runtime
//! compilation, module loading and launching belong to the backend consuming
//! these descriptors.

use vstd::prelude::*;

verus! {

/// The CUDA source of the element-wise module.
pub const ELEMENTWISE_SOURCE: &'static str = "extern \"C\" __global__ void add_f32(const float* a, const float* b, float* out, const unsigned int count) {\n    const unsigned int index = blockIdx.x * blockDim.x + threadIdx.x;\n    if (index < count) {\n        out[index] = a[index] + b[index];\n    }\n}\n";

/// The CUDA source of the matrix-multiplication module.
pub const MATMUL_SOURCE: &'static str = "extern \"C\" __global__ void naive_matmul_f32(const float* a, const float* b, float* c, const unsigned int m, const unsigned int n, const unsigned int k) {\n    const unsigned int row = blockIdx.y * blockDim.y + threadIdx.y;\n    const unsigned int column = blockIdx.x * blockDim.x + threadIdx.x;\n    if (row < m && column < n) {\n        float sum = 0;\n        for (unsigned int i = 0; i < k; ++i) {\n            sum += a[row * k + i] * b[i * n + column];\n        }\n        c[row * n + column] = sum;\n    }\n}\n";

/// A CUDA module: one source file compiled at run time.
#[derive(Clone, Copy, Debug, PartialEq, Eq, Hash, Structural)]
pub enum KernelModule {
    ElementWiseF32,
    MatmulF32,
}

impl KernelModule {
    pub open spec fn source_spec(self) -> &'static str {
        match self {
            KernelModule::ElementWiseF32 => ELEMENTWISE_SOURCE,
            KernelModule::MatmulF32 => MATMUL_SOURCE,
        }
    }

    pub open spec fn source_name_spec(self) -> &'static str {
        match self {
            KernelModule::ElementWiseF32 => "elementwise_f32.cu",
            KernelModule::MatmulF32 => "matmul_f32.cu",
        }
    }

    /// The CUDA source of this module.
    pub fn source(self) -> (r: &'static str)
        ensures
            r == self.source_spec(),
    {
        match self {
            KernelModule::ElementWiseF32 => ELEMENTWISE_SOURCE,
            KernelModule::MatmulF32 => MATMUL_SOURCE,
        }
    }

    /// A diagnostic file name to pass to run-time compilers.
    pub fn source_name(self) -> (r: &'static str)
        ensures
            r == self.source_name_spec(),
    {
        match self {
            KernelModule::ElementWiseF32 => "elementwise_f32.cu",
            KernelModule::MatmulF32 => "matmul_f32.cu",
        }
    }
}

/// A CUDA kernel exported by one of the modules.
#[derive(Clone, Copy, Debug, PartialEq, Eq, Hash, Structural)]
pub enum Kernel {
    AddF32,
    NaiveMatmulF32,
}

impl Kernel {
    pub open spec fn entry_point_spec(self) -> &'static str {
        match self {
            Kernel::AddF32 => "add_f32",
            Kernel::NaiveMatmulF32 => "naive_matmul_f32",
        }
    }

    pub open spec fn module_spec(self) -> KernelModule {
        match self {
            Kernel::AddF32 => KernelModule::ElementWiseF32,
            Kernel::NaiveMatmulF32 => KernelModule::MatmulF32,
        }
    }

    /// The unmangled function name exported by the CUDA source.
    pub fn entry_point(self) -> (r: &'static str)
        ensures
            r == self.entry_point_spec(),
    {
        match self {
            Kernel::AddF32 => "add_f32",
            Kernel::NaiveMatmulF32 => "naive_matmul_f32",
        }
    }

    /// The module whose source defines this kernel.
    pub fn module(self) -> (r: KernelModule)
        ensures
            r == self.module_spec(),
    {
        match self {
            Kernel::AddF32 => KernelModule::ElementWiseF32,
            Kernel::NaiveMatmulF32 => KernelModule::MatmulF32,
        }
    }
}

/// A kernel was asked for that was not loaded.
#[derive(Clone, Copy, Debug, PartialEq, Eq)]
pub enum KernelError {
    MissingKernel { kernel: Kernel, module: KernelModule },
}

/// The error for asking for `kernel` when it was not loaded.
pub fn missing_kernel(kernel: Kernel) -> (e: KernelError)
    ensures
        e == (KernelError::MissingKernel { kernel, module: kernel.module_spec() }),
{
    KernelError::MissingKernel { kernel, module: kernel.module() }
}

/// Some kernel before position `p` of `kernels` needs `module`.
pub open spec fn needed_before(kernels: Seq<Kernel>, module: KernelModule, p: int) -> bool {
    exists|q: int| 0 <= q < p && #[trigger] kernels[q].module_spec() == module
}

/// The modules to compile so that every kernel of `kernels` can be loaded: each
/// module that one of them needs, once, in order of first need.
pub fn required_modules(kernels: &[Kernel]) -> (modules: Vec<KernelModule>)
    ensures
        forall|i: int| 0 <= i < kernels@.len() ==> modules@.contains(#[trigger] kernels@[i].module_spec()),
        forall|j: int|
            0 <= j < modules@.len() ==> exists|i: int|
                0 <= i < kernels@.len() && #[trigger] modules@[j] == kernels@[i].module_spec(),
        forall|j1: int, j2: int|
            0 <= j1 < j2 < modules@.len() ==> #[trigger] modules@[j1] != #[trigger] modules@[j2],
        forall|j1: int, j2: int, p: int|
            #![trigger modules@[j1], modules@[j2], kernels@[p]]
            0 <= j1 < j2 < modules@.len() && 0 <= p < kernels@.len() && kernels@[p].module_spec() == modules@[j2]
                ==> needed_before(kernels@, modules@[j1], p),
{
    let mut modules: Vec<KernelModule> = Vec::new();
    let mut i: usize = 0;
    while i < kernels.len()
        invariant
            i <= kernels@.len(),
            forall|p: int| 0 <= p < i ==> modules@.contains(#[trigger] kernels@[p].module_spec()),
            forall|j: int|
                0 <= j < modules@.len() ==> exists|p: int|
                    0 <= p < i && #[trigger] modules@[j] == kernels@[p].module_spec(),
            forall|j1: int, j2: int|
                0 <= j1 < j2 < modules@.len() ==> #[trigger] modules@[j1] != #[trigger] modules@[j2],
            forall|j1: int, j2: int, p: int|
                #![trigger modules@[j1], modules@[j2], kernels@[p]]
                0 <= j1 < j2 < modules@.len() && 0 <= p < i && kernels@[p].module_spec() == modules@[j2]
                    ==> needed_before(kernels@, modules@[j1], p),
        decreases kernels@.len() - i,
    {
        let module = kernels[i].module();
        let mut found = false;
        let mut j: usize = 0;
        while j < modules.len()
            invariant
                j <= modules@.len(),
                found == (exists|q: int| 0 <= q < j && modules@[q] == module),
            decreases modules@.len() - j,
        {
            if modules[j] == module {
                found = true;
            }
            j = j + 1;
        }
        let ghost old_modules = modules@;
        if !found {
            modules.push(module);
            proof {
                assert(modules@[old_modules.len() as int] == module);
                assert forall|p: int| 0 <= p < i implies modules@.contains(
                    #[trigger] kernels@[p].module_spec(),
                ) by {
                    let w = choose|w: int| 0 <= w < old_modules.len() && old_modules[w] == kernels@[p].module_spec();
                    assert(modules@[w] == kernels@[p].module_spec());
                }
            }
        } else {
            proof {
                let q = choose|q: int| 0 <= q < modules@.len() && modules@[q] == module;
                assert(modules@.contains(module));
            }
        }
        proof {
            assert(modules@.contains(kernels@[i as int].module_spec())) by {
                if !found {
                    assert(modules@[old_modules.len() as int] == module);
                }
            }
        }
        i = i + 1;
    }
    modules
}

/// How a CUDA source declares an exported kernel, up to its name.
pub const KERNEL_DECLARATION: &'static str = "extern \"C\" __global__ void ";

/// `source` holds the declaration of an exported kernel called `name`.
pub open spec fn declares_kernel(source: Seq<char>, name: Seq<char>) -> bool {
    let declaration = KERNEL_DECLARATION@ + name;
    exists|i: int| 0 <= i && i + declaration.len() <= source.len() && #[trigger] source.subrange(
        i,
        i + declaration.len(),
    ) == declaration
}

/// Every kernel is exported under its entry point by the source of its module.
pub proof fn lemma_module_exports_entry_point(kernel: Kernel)
    ensures
        declares_kernel(kernel.module_spec().source_spec()@, kernel.entry_point_spec()@),
{
    reveal_strlit("extern \"C\" __global__ void ");
    let source = kernel.module_spec().source_spec()@;
    let declaration = KERNEL_DECLARATION@ + kernel.entry_point_spec()@;
    match kernel {
        Kernel::AddF32 => {
            reveal_strlit("add_f32");
            reveal_strlit("extern \"C\" __global__ void add_f32(const float* a, const float* b, float* out, const unsigned int count) {\n    const unsigned int index = blockIdx.x * blockDim.x + threadIdx.x;\n    if (index < count) {\n        out[index] = a[index] + b[index];\n    }\n}\n");
        },
        Kernel::NaiveMatmulF32 => {
            reveal_strlit("naive_matmul_f32");
            reveal_strlit("extern \"C\" __global__ void naive_matmul_f32(const float* a, const float* b, float* c, const unsigned int m, const unsigned int n, const unsigned int k) {\n    const unsigned int row = blockIdx.y * blockDim.y + threadIdx.y;\n    const unsigned int column = blockIdx.x * blockDim.x + threadIdx.x;\n    if (row < m && column < n) {\n        float sum = 0;\n        for (unsigned int i = 0; i < k; ++i) {\n            sum += a[row * k + i] * b[i * n + column];\n        }\n        c[row * n + column] = sum;\n    }\n}\n");
        },
    }
    assert(source.subrange(0, declaration.len() as int) =~= declaration);
    assert(0 + declaration.len() <= source.len());
    assert(source.subrange(0, 0int + declaration.len()) == declaration);
    assert(declares_kernel(source, kernel.entry_point_spec()@));
}

} // verus!
