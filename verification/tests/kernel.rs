use psyduck::kernel::{missing_kernel, required_modules, Kernel, KernelError, KernelModule};
use psyduck::model::launch::{
    elementwise_launch_config, find_kernel, matmul_launch_config, plan_cuda_add, plan_cuda_matmul,
};
use psyduck::model::ModelError;
use psyduck::tensor::shape::Shape;

#[test]
fn add_f32_descriptor_matches_exported_kernel() {
    let kernel = Kernel::AddF32;
    let module = kernel.module();

    assert_eq!(kernel.entry_point(), "add_f32");
    assert_eq!(module.source_name(), "elementwise_f32.cu");
    assert!(module.source().contains("extern \"C\" __global__ void add_f32"));
}

#[test]
fn matmul_descriptor_matches_exported_kernel() {
    let kernel = Kernel::NaiveMatmulF32;
    assert_eq!(kernel.entry_point(), "naive_matmul_f32");
    assert_eq!(kernel.module(), KernelModule::MatmulF32);
    assert_eq!(kernel.module().source_name(), "matmul_f32.cu");
    assert!(kernel.module().source().contains("extern \"C\" __global__ void naive_matmul_f32"));
}

#[test]
fn required_modules_are_listed_once() {
    let modules = required_modules(&[Kernel::AddF32, Kernel::NaiveMatmulF32, Kernel::AddF32]);
    assert_eq!(modules, vec![KernelModule::ElementWiseF32, KernelModule::MatmulF32]);
    assert!(required_modules(&[]).is_empty());
}

#[test]
fn required_modules_come_in_order_of_first_need() {
    let modules = required_modules(&[Kernel::NaiveMatmulF32, Kernel::AddF32, Kernel::NaiveMatmulF32]);
    assert_eq!(modules, vec![KernelModule::MatmulF32, KernelModule::ElementWiseF32]);
}

#[test]
fn missing_kernels_name_their_module() {
    assert_eq!(
        missing_kernel(Kernel::NaiveMatmulF32),
        KernelError::MissingKernel { kernel: Kernel::NaiveMatmulF32, module: KernelModule::MatmulF32 }
    );
    assert_eq!(find_kernel(&[Kernel::AddF32], Kernel::AddF32), Ok(()));
    assert_eq!(
        find_kernel(&[Kernel::AddF32], Kernel::NaiveMatmulF32),
        Err(KernelError::MissingKernel { kernel: Kernel::NaiveMatmulF32, module: KernelModule::MatmulF32 })
    );
}

#[test]
fn elementwise_launch_config_covers_every_element() {
    let config = elementwise_launch_config::<256>(1_025).unwrap();

    assert_eq!(config.grid_dim, (5, 1, 1));
    assert_eq!(config.block_dim, (256, 1, 1));
    assert_eq!(config.shared_mem_bytes, 0);
}

#[test]
fn elementwise_launch_config_rejects_empty_blocks() {
    assert!(elementwise_launch_config::<0>(1).is_err());
}

#[test]
fn matmul_launch_config_maps_columns_to_x_and_rows_to_y() {
    let config = matmul_launch_config::<16, 16>(17, 33, 0).unwrap();

    assert_eq!(config.grid_dim, (3, 2, 1));
    assert_eq!(config.block_dim, (16, 16, 1));
    assert_eq!(config.shared_mem_bytes, 0);
}

#[test]
fn launch_configs_fit_exact_multiples_and_empty_work() {
    assert_eq!(elementwise_launch_config::<256>(512).unwrap().grid_dim, (2, 1, 1));
    assert_eq!(elementwise_launch_config::<256>(0).unwrap().grid_dim, (0, 1, 1));
    match matmul_launch_config::<0, 16>(1, 1, 0) {
        Err(ModelError::InvalidCudaBlockDimensions { x, y, z }) => assert_eq!((x, y, z), (0, 16, 1)),
        _ => panic!("a zero block dimension should be rejected"),
    }
}

#[test]
fn plans_device_addition() {
    let shape = Shape::new([4, 300]);
    let config = plan_cuda_add(&[Kernel::AddF32], &shape, &shape, &shape, 1_200).unwrap();
    assert_eq!(config.grid_dim, (5, 1, 1));
    assert!(matches!(
        plan_cuda_add(&[Kernel::AddF32], &shape, &Shape::new([300, 4]), &shape, 1_200),
        Err(ModelError::ShapeMismatch(_))
    ));
    assert!(matches!(
        plan_cuda_add(&[], &shape, &shape, &shape, 1_200),
        Err(ModelError::KernelError(KernelError::MissingKernel { .. }))
    ));
    match plan_cuda_add(&[Kernel::AddF32], &shape, &shape, &shape, 1 << 40) {
        Err(ModelError::TensorTooLarge { elements }) => assert_eq!(elements, 1 << 40),
        _ => panic!("a count beyond 32 bits should be rejected"),
    }
}

#[test]
fn plans_device_multiplication() {
    let plan = plan_cuda_matmul(
        &[Kernel::NaiveMatmulF32],
        &Shape::new([17, 5]),
        &Shape::new([5, 33]),
        &Shape::new([17, 33]),
    )
    .unwrap();
    assert_eq!((plan.m, plan.n, plan.k), (17, 33, 5));
    assert_eq!(plan.config.grid_dim, (3, 2, 1));
    assert_eq!(plan.config.block_dim, (16, 16, 1));
    assert!(matches!(
        plan_cuda_matmul(&[Kernel::NaiveMatmulF32], &Shape::new([17, 5]), &Shape::new([5, 33]), &Shape::new([33, 17])),
        Err(ModelError::ShapeMismatch(_))
    ));
    assert!(matches!(
        plan_cuda_matmul(&[Kernel::AddF32], &Shape::new([17, 5]), &Shape::new([5, 33]), &Shape::new([17, 33])),
        Err(ModelError::KernelError(_))
    ));
}
