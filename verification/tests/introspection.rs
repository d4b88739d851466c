use bytevm::text::{dec_string, hex_string, i64_string};
use bytevm::vm::{get_instr_comment, DisplayInfo, VM};
use bytevm::Instruction;

#[test]
fn decimal_rendering() {
    assert_eq!(dec_string(0), "0");
    assert_eq!(dec_string(9), "9");
    assert_eq!(dec_string(1234), "1234");
    assert_eq!(dec_string(u64::MAX), "18446744073709551615");
}

#[test]
fn signed_decimal_rendering() {
    assert_eq!(i64_string(0), "0");
    assert_eq!(i64_string(-1), "-1");
    assert_eq!(i64_string(42), "42");
    assert_eq!(i64_string(i64::MIN), "-9223372036854775808");
}

#[test]
fn hexadecimal_rendering_pads_to_width() {
    assert_eq!(hex_string(0, 4), "0000");
    assert_eq!(hex_string(0x2a, 4), "002a");
    assert_eq!(hex_string(0x12345, 4), "12345");
    assert_eq!(hex_string(0xff, 2), "ff");
    assert_eq!(hex_string(7, 2), "07");
}

#[test]
fn instruction_names() {
    assert_eq!(Instruction::Nop.name(), "Nop");
    assert_eq!(Instruction::LoadU8.name(), "LoadU8");
    assert_eq!(Instruction::Ret.name(), "Ret");
}

#[test]
fn instruction_comments() {
    assert_eq!(
        get_instr_comment(&Instruction::Push),
        "Push constant onto stack"
    );
    assert_eq!(get_instr_comment(&Instruction::Halt), "Halt execution");
    assert_eq!(get_instr_comment(&Instruction::Swap), "No comment");
}

#[test]
fn render_marks_counter_and_decodes_bytes() {
    let vm = VM::new(
        vec![0x04, 0x99],
        vec![0u32; 4],
        DisplayInfo {
            width: 2,
            height: 2,
        },
    );
    let expected = "VM\n  pc: 0\n  stack: []\n  paused: false\nDebugger\n0x0000  ->  Add # Add two numbers popped off the stack\n0x0001     99\n";
    assert_eq!(vm.render(), expected);
}

#[test]
fn render_shows_stack_and_never_faults_on_data() {
    let mut vm = VM::new(
        vec![0xfe, 0x01],
        vec![0u32; 4],
        DisplayInfo {
            width: 2,
            height: 2,
        },
    );
    vm.stack.push(3);
    vm.stack.push(-7);
    vm.pc = 1;
    let expected = "VM\n  pc: 1\n  stack: [3, -7]\n  paused: false\nDebugger\n0x0000     fe\n0x0001  ->  Halt # Halt execution\n";
    assert_eq!(vm.render(), expected);
}
