use bytevm::assemble;
use bytevm::fault::FaultKind;
use bytevm::vm::{DisplayInfo, VM};

const WIDTH: usize = 64;
const HEIGHT: usize = 64;

fn boot(code: Vec<u8>) -> VM {
    VM::new(
        code,
        vec![0u32; WIDTH * HEIGHT],
        DisplayInfo {
            width: WIDTH,
            height: HEIGHT,
        },
    )
}

fn run_to_pause(vm: &mut VM) {
    loop {
        vm.step().expect("program faulted");
        if vm.paused {
            break;
        }
    }
}

#[test]
fn add_program_leaves_sum_and_pauses() {
    let code = assemble("push 5\npush 3\nadd\nhlt\n".to_string());
    let mut vm = boot(code);
    run_to_pause(&mut vm);
    assert_eq!(vm.stack, vec![8]);
    assert!(vm.paused);
}

#[test]
fn sub_pushes_first_popped_minus_second_popped() {
    // With 10 below 3 on the stack, the first value popped is 3, so the
    // documented order gives 3 - 10.
    let code = assemble("push 10\npush 3\nsub\nhlt\n".to_string());
    let mut vm = boot(code);
    run_to_pause(&mut vm);
    assert_eq!(vm.stack, vec![-7]);

    let code = assemble("push 3\npush 10\nsub\nhlt\n".to_string());
    let mut vm = boot(code);
    run_to_pause(&mut vm);
    assert_eq!(vm.stack, vec![7]);
}

#[test]
fn mul_and_nop() {
    let code = assemble("push 6\npush 7\nnop\nmul\nhlt\n".to_string());
    let mut vm = boot(code);
    run_to_pause(&mut vm);
    assert_eq!(vm.stack, vec![42]);
}

#[test]
fn div_truncates_toward_zero() {
    // First popped divided by second popped: 7 / 2.
    let code = assemble("push 2\npush 7\ndiv\nhlt\n".to_string());
    let mut vm = boot(code);
    run_to_pause(&mut vm);
    assert_eq!(vm.stack, vec![3]);
}

#[test]
fn div_by_zero_faults_and_engine_stops() {
    // The divisor is the second value popped: with 0 below 4 on the stack,
    // 4 / 0 traps.
    let code = assemble("push 0\npush 4\ndiv\nhlt\n".to_string());
    let mut vm = boot(code);
    vm.step().unwrap();
    vm.step().unwrap();
    let err = vm.step().unwrap_err();
    assert_eq!(err.kind, FaultKind::DivisionByZero);
    assert_eq!(err.address, 18);
    // The fault is terminal: the engine did not silently produce a value.
    assert_eq!(vm.stack, vec![0, 4]);
    assert!(!vm.paused);
}

#[test]
fn pop_on_empty_stack_underflows_at_address_zero() {
    let code = assemble("pop\nhlt\n".to_string());
    let mut vm = boot(code);
    let err = vm.step().unwrap_err();
    assert_eq!(err.kind, FaultKind::StackUnderflow);
    assert_eq!(err.address, 0);
}

#[test]
fn store_to_display_window_broadcasts_byte() {
    let code = assemble("push 0x8000\npush 0xff\nswap\nstoreu8\nhlt\n".to_string());
    let mut vm = boot(code);
    run_to_pause(&mut vm);
    assert_eq!(vm.framebuffer[0], 0xffff_ffff);
    assert_eq!(vm.framebuffer[1], 0);
}

#[test]
fn store_to_plain_memory_writes_low_byte() {
    // Address 1 is inside the loaded image (the push immediate's bytes).
    let code = assemble("push 1\npush 0x1234\nswap\nstoreu8\nhlt\n".to_string());
    let mut vm = boot(code);
    run_to_pause(&mut vm);
    assert_eq!(vm.memory[1], 0x34);
}

#[test]
fn load_u8_pushes_unsigned_byte() {
    // Address 0 holds the push opcode byte 0x02.
    let code = assemble("push 0\nloadu8\nhlt\n".to_string());
    let mut vm = boot(code);
    run_to_pause(&mut vm);
    assert_eq!(vm.stack, vec![0x02]);
}

#[test]
fn swap_reverses_top_two() {
    let code = assemble("push 1\npush 2\nswap\nhlt\n".to_string());
    let mut vm = boot(code);
    run_to_pause(&mut vm);
    assert_eq!(vm.stack, vec![2, 1]);
}

#[test]
fn dupe_copies_top() {
    let code = assemble("push 9\ndup\nhlt\n".to_string());
    let mut vm = boot(code);
    run_to_pause(&mut vm);
    assert_eq!(vm.stack, vec![9, 9]);
}

#[test]
fn dupe_at_copies_from_depth() {
    // Depth 2 from a stack of [5, 6] is index 0, the value 5.
    let code = assemble("push 5\npush 6\ndupp 2\nhlt\n".to_string());
    let mut vm = boot(code);
    run_to_pause(&mut vm);
    assert_eq!(vm.stack, vec![5, 6, 5]);
}

#[test]
fn dupe_at_beyond_stack_depth_is_an_index_fault() {
    let code = assemble("push 1\ndupp 5\nhlt\n".to_string());
    let mut vm = boot(code);
    vm.step().unwrap();
    let err = vm.step().unwrap_err();
    assert_eq!(err.kind, FaultKind::StackIndexOutOfRange);
    assert_eq!(err.address, 9);
    assert_eq!(vm.stack, vec![1]);
}

#[test]
fn jump_lands_one_before_popped_destination() {
    let code = assemble("push 5\njmp\n".to_string());
    let mut vm = boot(code);
    vm.step().unwrap();
    vm.step().unwrap();
    assert_eq!(vm.pc, 4);
    assert!(vm.stack.is_empty());
}

#[test]
fn negative_jump_destination_clamps_to_zero() {
    let code = assemble("push -3\njmp\n".to_string());
    let mut vm = boot(code);
    vm.step().unwrap();
    vm.step().unwrap();
    assert_eq!(vm.pc, 0);
}

#[test]
fn call_and_ret_resume_after_the_call() {
    // 0: Push 12; 9: Call; 10: Halt; 11: Nop; 12: Ret
    let mut code = assemble("push 12\ncall\nhlt\nnop\nret\n".to_string());
    assert_eq!(code.len(), 13);
    let mut vm = boot(std::mem::take(&mut code));
    vm.step().unwrap();
    vm.step().unwrap();
    assert_eq!(vm.pc, 12);
    assert_eq!(vm.call_stack.len(), 1);
    assert_eq!(vm.call_stack[0].return_addr, 9);
    vm.step().unwrap();
    // Ret restored the saved call site and the uniform advance moved one
    // byte past the one-byte Call: the instruction immediately after it.
    assert_eq!(vm.pc, 10);
    assert!(vm.call_stack.is_empty());
    vm.step().unwrap();
    assert!(vm.paused);
}

#[test]
fn ret_with_empty_call_stack_faults() {
    let code = assemble("ret\n".to_string());
    let mut vm = boot(code);
    let err = vm.step().unwrap_err();
    assert_eq!(err.kind, FaultKind::EmptyCallStack);
    assert_eq!(err.address, 0);
}

#[test]
fn stepping_past_the_end_is_pc_out_of_bounds() {
    let code = assemble("nop\n".to_string());
    let mut vm = boot(code);
    vm.step().unwrap();
    let err = vm.step().unwrap_err();
    assert_eq!(err.kind, FaultKind::PcOutOfBounds);
    assert_eq!(err.address, 1);
}

#[test]
fn empty_program_is_pc_out_of_bounds_at_zero() {
    let mut vm = boot(Vec::new());
    let err = vm.step().unwrap_err();
    assert_eq!(err.kind, FaultKind::PcOutOfBounds);
    assert_eq!(err.address, 0);
}

#[test]
fn undecodable_byte_is_an_invalid_instruction_fault() {
    let mut vm = boot(vec![0x99]);
    let err = vm.step().unwrap_err();
    assert_eq!(err.kind, FaultKind::InvalidInstruction);
    assert_eq!(err.address, 0);
}

#[test]
fn halt_sets_paused_and_advances() {
    let code = assemble("hlt\nnop\n".to_string());
    let mut vm = boot(code);
    vm.step().unwrap();
    assert!(vm.paused);
    assert_eq!(vm.pc, 1);
}

#[test]
fn stop_sets_paused() {
    let mut vm = boot(vec![0x00]);
    assert!(!vm.paused);
    vm.stop();
    assert!(vm.paused);
}

#[test]
fn set_memory_display_and_plain() {
    let mut vm = boot(vec![0x00, 0x00]);
    vm.set_memory(0x8000, 0xab);
    assert_eq!(vm.framebuffer[0], 0xabab_abab);
    vm.set_memory(1, 0x07);
    assert_eq!(vm.memory, vec![0x00, 0x07]);
}

#[test]
fn wrapping_addition_is_deterministic() {
    let code = assemble(format!("push {}\npush 1\nadd\nhlt\n", i64::MAX));
    let mut vm = boot(code);
    run_to_pause(&mut vm);
    assert_eq!(vm.stack, vec![i64::MIN]);
}
