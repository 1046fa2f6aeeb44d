use clawsec_core::hooks::{HookType, KernelInterceptor, RegisterContext};

#[test]
fn test_interceptor_lifecycle() {
    let mut interceptor = KernelInterceptor::new();
    assert!(interceptor.attach().is_ok());
    assert!(interceptor.attach().is_err());
    assert!(interceptor.detach().is_ok());
}

#[test]
fn probes_are_numbered_in_order() {
    let mut k = KernelInterceptor::new();
    assert_eq!(k.inject_probe("sys_open", HookType::PreExecution), Ok(1));
    assert_eq!(k.inject_probe("sys_read", HookType::IORequest), Ok(2));
    assert_eq!(k.detach(), Err("Interceptor not active"));
}

#[test]
fn register_and_stack_checks() {
    let k = KernelInterceptor::new();
    let ctx = RegisterContext {
        rax: 1, rbx: 0, rcx: 0, rdx: 0, rsi: 0, rdi: 0, rbp: 0, rsp: 0, r8: 0, r9: 0, r10: 0, r11: 0,
        r12: 0, r13: 0, r14: 0, r15: 0, rip: 0, eflags: 0,
    };
    assert_eq!(k.inspect_registers(&ctx), vec!["RAX_NON_ZERO".to_string(), "NULL_INSTRUCTION_POINTER".to_string()]);
    assert!(k.validate_stack_integrity(0x7fff0000, 1048576));
    assert!(!k.validate_stack_integrity(0, 16));
    assert!(!k.validate_stack_integrity(0x7fff0000, 1048577));
    assert_eq!(k.read_kernel_memory(0x1000, 4), None);
    let mut k = k;
    k.attach().unwrap();
    assert_eq!(k.read_kernel_memory(0x1000, 4), Some(vec![0u8; 4]));
}
