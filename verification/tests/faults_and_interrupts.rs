use bytevm::assemble;
use bytevm::fault::{FaultKind, VMError};
use bytevm::vm::{DisplayInfo, VM};

fn boot(code: Vec<u8>) -> VM {
    VM::new(
        code,
        vec![0u32; 64 * 64],
        DisplayInfo {
            width: 64,
            height: 64,
        },
    )
}

fn run_to_pause(vm: &mut VM) {
    loop {
        vm.step().expect("program faulted");
        if vm.paused {
            break;
        }
    }
}

fn run_to_fault(vm: &mut VM) -> VMError {
    loop {
        match vm.step() {
            Ok(()) => assert!(!vm.paused, "program paused instead of faulting"),
            Err(e) => return e,
        }
    }
}

#[test]
fn interrupt_zero_writes_linear_pixel() {
    let code = assemble("push 3\npush 0xff\nint 0x0\nhlt\n".to_string());
    let mut vm = boot(code);
    run_to_pause(&mut vm);
    assert_eq!(vm.framebuffer[3], 0xff);
    assert!(vm.stack.is_empty());
}

#[test]
fn interrupt_one_writes_xy_pixel() {
    let code = assemble("push 2\npush 1\npush 0xff\nint 0x1\nhlt\n".to_string());
    let mut vm = boot(code);
    run_to_pause(&mut vm);
    assert_eq!(vm.framebuffer[64 + 2], 0xff);
    assert!(vm.stack.is_empty());
}

#[test]
fn unknown_interrupt_faults_past_the_opcode() {
    let code = assemble("int 0x7\n".to_string());
    let mut vm = boot(code);
    let err = run_to_fault(&mut vm);
    assert_eq!(err.kind, FaultKind::UnknownInterrupt);
    assert_eq!(err.address, 1);
}

#[test]
fn interrupt_zero_missing_color() {
    let code = assemble("int 0x0\n".to_string());
    let mut vm = boot(code);
    let err = run_to_fault(&mut vm);
    assert_eq!(err.kind, FaultKind::MissingColor);
    assert_eq!(err.address, 1);
}

#[test]
fn interrupt_zero_missing_pixel_index() {
    let code = assemble("push 1\nint 0x0\n".to_string());
    let mut vm = boot(code);
    let err = run_to_fault(&mut vm);
    assert_eq!(err.kind, FaultKind::MissingPixelIndex);
    assert_eq!(err.address, 10);
}

#[test]
fn interrupt_one_missing_y_and_x() {
    let code = assemble("push 1\nint 0x1\n".to_string());
    let mut vm = boot(code);
    let err = run_to_fault(&mut vm);
    assert_eq!(err.kind, FaultKind::MissingY);

    let code = assemble("push 1\npush 1\nint 0x1\n".to_string());
    let mut vm = boot(code);
    let err = run_to_fault(&mut vm);
    assert_eq!(err.kind, FaultKind::MissingX);
}

#[test]
fn interrupt_pixel_index_out_of_bounds_faults() {
    let code = assemble("push 4096\npush 0xff\nint 0x0\n".to_string());
    let mut vm = boot(code);
    let err = run_to_fault(&mut vm);
    assert_eq!(err.kind, FaultKind::MemoryOutOfBounds);
}

#[test]
fn load_out_of_bounds_faults() {
    let code = assemble("push 100000\nloadu8\n".to_string());
    let mut vm = boot(code);
    let err = run_to_fault(&mut vm);
    assert_eq!(err.kind, FaultKind::MemoryOutOfBounds);
    assert_eq!(err.address, 9);
}

#[test]
fn store_to_negative_address_faults() {
    let code = assemble("push -1\npush 0xff\nswap\nstoreu8\n".to_string());
    let mut vm = boot(code);
    let err = run_to_fault(&mut vm);
    assert_eq!(err.kind, FaultKind::MemoryOutOfBounds);
}

#[test]
fn arithmetic_underflow_faults() {
    let code = assemble("push 1\nadd\n".to_string());
    let mut vm = boot(code);
    let err = run_to_fault(&mut vm);
    assert_eq!(err.kind, FaultKind::StackUnderflow);
    assert_eq!(err.address, 9);
}

#[test]
fn push_with_truncated_operand_is_pc_out_of_bounds() {
    // A bare push opcode with no room for its 8 operand bytes.
    let mut vm = boot(vec![0x02, 0x01]);
    let err = vm.step().unwrap_err();
    assert_eq!(err.kind, FaultKind::PcOutOfBounds);
    assert_eq!(err.address, 0);
}

#[test]
fn fault_renders_message_and_padded_hex_address() {
    let err = VMError {
        kind: FaultKind::DivisionByZero,
        address: 0x12,
    };
    assert_eq!(err.render(), "Division by zero at 0012");
    let err = VMError {
        kind: FaultKind::PcOutOfBounds,
        address: 0x1_0000,
    };
    assert_eq!(err.render(), "PC out of bounds at 10000");
}

#[test]
fn fault_describes_itself() {
    let err = VMError {
        kind: FaultKind::StackUnderflow,
        address: 0,
    };
    assert_eq!(err.description(), "VMError");
}

#[test]
fn fault_kind_messages() {
    assert_eq!(FaultKind::StackUnderflow.message(), "Stack underflow");
    assert_eq!(FaultKind::UnknownInterrupt.message(), "Unknown interrupt");
    assert_eq!(
        FaultKind::EmptyCallStack.message(),
        "Cannot return when call stack is empty"
    );
}
