use synacor_vm::host::{Host, Pause, StepEvent, Trap};
use synacor_vm::program::Program;

fn machine(words: &[u16]) -> Host {
    Host::from(Program {
        data: words.to_vec(),
        path: String::from("test.bin"),
    })
}

fn run_to_stop(host: &mut Host) {
    assert_eq!(host.run(1000), Pause::Stopped);
}

#[test]
fn new_host_has_nothing_to_run() {
    let mut host = Host::new();
    assert_eq!(host.ip(), 0);
    assert!(!host.should_run());
    assert_eq!(host.step(), StepEvent::Idle);
    let state = host.create_state();
    assert_eq!(state.registers, [0u16; 8]);
    assert_eq!(state.ip, 0);
    assert_eq!(state.count, 0);
    assert_eq!(state.here, [0u16; 20]);
}

#[test]
fn host_from_program_copies_the_words() {
    let host = machine(&[21, 21, 0]);
    assert!(host.should_run());
    assert_eq!(host.ip(), 0);
    assert_eq!(host.create_memory_dump(0, 3), vec![21, 21, 0]);
    assert_eq!(host.program().data, vec![21, 21, 0]);
    assert_eq!(host.program().path, "test.bin");
    assert_eq!(host.program.path, "test.bin");
}

#[test]
fn arithmetic_and_halt() {
    let mut host = machine(&[9, 32768, 32769, 32770, 1, 32769, 10, 1, 32770, 20, 0]);
    run_to_stop(&mut host);
    let state = host.create_state();
    assert_eq!(state.registers, [0, 10, 20, 0, 0, 0, 0, 0]);
    assert_eq!(state.count, 4);
    assert_eq!(state.ip, 11);
    assert!(!host.should_run());
}

#[test]
fn hello_writes_hi() {
    let mut host = machine(&[19, 72, 19, 105, 0]);
    run_to_stop(&mut host);
    assert_eq!(host.take_output(), b"Hi".to_vec());
    assert_eq!(host.take_output(), Vec::<u8>::new());
    assert_eq!(host.create_state().count, 3);
}

#[test]
fn loop_with_jump_never_stops() {
    let mut host = machine(&[1, 32768, 10, 9, 32768, 32768, 32769, 7, 32768, 3, 0]);
    for n in 1..=50u32 {
        assert_eq!(host.step(), StepEvent::Executed);
        assert!(host.should_run());
        assert_eq!(host.create_state().count, n);
    }
    assert_eq!(host.run(1000), Pause::Exhausted);
    assert!(host.should_run());
    let state = host.create_state();
    assert_eq!(state.count, 1050);
    assert_eq!(state.registers[0], 10);
}

#[test]
fn stack_round_trip() {
    let mut host = machine(&[2, 42, 2, 43, 3, 32768, 3, 32769, 0]);
    run_to_stop(&mut host);
    let state = host.create_state();
    assert_eq!(state.registers[0], 43);
    assert_eq!(state.registers[1], 42);
    assert_eq!(state.count, 5);
}

#[test]
fn step_counts_each_executed_instruction_once() {
    let mut host = machine(&[21, 21, 19, 65, 0]);
    assert_eq!(host.create_state().count, 0);
    assert_eq!(host.step(), StepEvent::Executed);
    assert_eq!(host.create_state().count, 1);
    assert_eq!(host.ip(), 1);
    assert_eq!(host.step(), StepEvent::Executed);
    assert_eq!(host.create_state().count, 2);
    assert_eq!(host.step(), StepEvent::Executed);
    assert_eq!(host.create_state().count, 3);
    assert_eq!(host.ip(), 4);
    assert_eq!(host.step(), StepEvent::Executed);
    assert_eq!(host.create_state().count, 4);
    assert_eq!(host.ip(), 5);
    assert_eq!(host.step(), StepEvent::Idle);
    assert_eq!(host.create_state().count, 4);
}

#[test]
fn step_on_a_halted_machine_does_nothing() {
    let mut host = machine(&[0, 21, 21]);
    assert_eq!(host.step(), StepEvent::Executed);
    assert!(!host.should_run());
    assert_eq!(host.ip(), 1);
    assert_eq!(host.step(), StepEvent::Idle);
    assert_eq!(host.ip(), 1);
    assert_eq!(host.create_state().count, 1);
}

#[test]
fn run_clears_the_halted_flag() {
    let mut host = machine(&[0, 19, 65, 0]);
    run_to_stop(&mut host);
    assert_eq!(host.ip(), 1);
    assert_eq!(host.take_output(), Vec::<u8>::new());
    run_to_stop(&mut host);
    assert_eq!(host.ip(), 4);
    assert_eq!(host.take_output(), vec![65]);
    assert_eq!(host.create_state().count, 3);
}

#[test]
fn run_with_no_budget_executes_nothing() {
    let mut host = machine(&[21, 0]);
    assert_eq!(host.run(0), Pause::Exhausted);
    assert_eq!(host.ip(), 0);
    assert_eq!(host.run(1), Pause::Exhausted);
    assert_eq!(host.ip(), 1);
    assert_eq!(host.run(1), Pause::Stopped);
    assert_eq!(host.ip(), 2);
}

fn result_of(words: &[u16]) -> u16 {
    let mut host = machine(words);
    assert_eq!(host.step(), StepEvent::Executed);
    host.create_state().registers[0]
}

#[test]
fn add_wraps_at_32768() {
    assert_eq!(result_of(&[9, 32768, 32767, 1]), 0);
    assert_eq!(result_of(&[9, 32768, 32767, 32767]), 32766);
    assert_eq!(result_of(&[9, 32768, 2, 3]), 5);
}

#[test]
fn mult_wraps_at_32768() {
    assert_eq!(result_of(&[10, 32768, 32767, 32767]), 1);
    assert_eq!(result_of(&[10, 32768, 6, 7]), 42);
    assert_eq!(result_of(&[10, 32768, 256, 128]), 0);
}

#[test]
fn mod_is_the_remainder() {
    assert_eq!(result_of(&[11, 32768, 17, 5]), 2);
    assert_eq!(result_of(&[11, 32768, 32767, 32767]), 0);
    assert_eq!(result_of(&[11, 32768, 3, 32767]), 3);
}

#[test]
fn not_is_the_15_bit_complement() {
    assert_eq!(result_of(&[14, 32768, 0]), 32767);
    assert_eq!(result_of(&[14, 32768, 32767]), 0);
    assert_eq!(result_of(&[14, 32768, 21845]), 10922);
}

#[test]
fn and_or_work_bit_by_bit() {
    assert_eq!(result_of(&[12, 32768, 12, 10]), 8);
    assert_eq!(result_of(&[13, 32768, 12, 10]), 14);
    assert_eq!(result_of(&[12, 32768, 32767, 21845]), 21845);
    assert_eq!(result_of(&[13, 32768, 16384, 1]), 16385);
}

#[test]
fn eq_and_gt_give_one_or_zero() {
    assert_eq!(result_of(&[4, 32768, 7, 7]), 1);
    assert_eq!(result_of(&[4, 32768, 7, 8]), 0);
    assert_eq!(result_of(&[5, 32768, 8, 7]), 1);
    assert_eq!(result_of(&[5, 32768, 7, 7]), 0);
    assert_eq!(result_of(&[5, 32768, 6, 7]), 0);
}

#[test]
fn write_at_the_end_of_memory_extends_it_by_one() {
    let mut host = machine(&[1, 4, 7, 0]);
    assert_eq!(host.step(), StepEvent::Executed);
    assert_eq!(host.create_memory_dump(0, 100), vec![1, 4, 7, 0, 7]);
}

#[test]
fn write_past_the_end_of_memory_fills_with_zeros() {
    let mut host = machine(&[16, 9, 5, 0]);
    assert_eq!(host.step(), StepEvent::Executed);
    assert_eq!(
        host.create_memory_dump(0, 100),
        vec![16, 9, 5, 0, 0, 0, 0, 0, 0, 5]
    );
    assert_eq!(host.ip(), 3);
}

#[test]
fn write_inside_memory_changes_one_word() {
    let mut host = machine(&[16, 3, 21, 0]);
    assert_eq!(host.step(), StepEvent::Executed);
    assert_eq!(host.create_memory_dump(0, 100), vec![16, 3, 21, 21]);
    assert_eq!(host.step(), StepEvent::Executed);
    assert_eq!(host.ip(), 4);
    assert!(!host.should_run());
}

#[test]
fn operand_32775_is_register_7() {
    let mut host = machine(&[1, 32775, 5, 2, 32775, 3, 32768, 0]);
    run_to_stop(&mut host);
    let state = host.create_state();
    assert_eq!(state.registers[7], 5);
    assert_eq!(state.registers[0], 5);
}

#[test]
fn operand_32776_traps() {
    let mut host = machine(&[2, 32776]);
    assert_eq!(
        host.step(),
        StepEvent::Trapped(Trap::InvalidOperand(32776))
    );
    assert!(!host.should_run());
    assert_eq!(host.ip(), 0);
    assert_eq!(host.create_state().count, 0);
    assert_eq!(host.step(), StepEvent::Idle);
}

fn trap_of(words: &[u16]) -> Trap {
    let mut host = machine(words);
    match host.step() {
        StepEvent::Trapped(trap) => {
            assert!(!host.should_run());
            assert_eq!(host.ip(), 0);
            assert_eq!(host.create_state().count, 0);
            assert_eq!(host.create_state().registers, [0u16; 8]);
            assert_eq!(host.create_memory_dump(0, 100), words.to_vec());
            trap
        }
        other => panic!("no trap: {:?}", other),
    }
}

#[test]
fn trap_invalid_operand() {
    assert_eq!(trap_of(&[1, 32768, 65535]), Trap::InvalidOperand(65535));
    assert_eq!(trap_of(&[9, 32768, 1, 40000]), Trap::InvalidOperand(40000));
    assert_eq!(trap_of(&[7, 0, 32776]), Trap::InvalidOperand(32776));
    assert_eq!(trap_of(&[19, 32776]), Trap::InvalidOperand(32776));
}

#[test]
fn trap_invalid_write_target() {
    assert_eq!(trap_of(&[1, 32776, 1]), Trap::InvalidWriteTarget(32776));
    assert_eq!(trap_of(&[9, 65535, 1, 1]), Trap::InvalidWriteTarget(65535));
    assert_eq!(trap_of(&[20, 32776]), Trap::InvalidWriteTarget(32776));
}

#[test]
fn trap_rmem_into_memory() {
    assert_eq!(trap_of(&[15, 0, 0]), Trap::InvalidWriteTarget(0));
}

#[test]
fn trap_read_out_of_range() {
    assert_eq!(trap_of(&[15, 32768, 100]), Trap::ReadOutOfRange);
    assert_eq!(trap_of(&[1, 32768]), Trap::ReadOutOfRange);
    assert_eq!(trap_of(&[9, 32768, 1]), Trap::ReadOutOfRange);
    assert_eq!(trap_of(&[2]), Trap::ReadOutOfRange);
}

#[test]
fn trap_stack_underflow() {
    assert_eq!(trap_of(&[3, 32768]), Trap::StackUnderflow);
    assert_eq!(trap_of(&[18]), Trap::StackUnderflow);
}

#[test]
fn trap_call_to_zero() {
    assert_eq!(trap_of(&[17, 0]), Trap::CallToZero);
    assert_eq!(trap_of(&[17, 32768]), Trap::CallToZero);
}

#[test]
fn trap_unknown_opcode() {
    assert_eq!(trap_of(&[22]), Trap::UnknownOpcode(22));
    assert_eq!(trap_of(&[65535]), Trap::UnknownOpcode(65535));
}

#[test]
fn trap_division_by_zero() {
    assert_eq!(trap_of(&[11, 32768, 5, 0]), Trap::DivisionByZero);
}

#[test]
fn trap_value_out_of_range() {
    assert_eq!(trap_of(&[15, 32768, 1]), Trap::ValueOutOfRange);
}

#[test]
fn trap_leaves_the_stack_alone() {
    let mut host = machine(&[2, 42, 3, 32776, 3, 32768, 0]);
    assert_eq!(host.step(), StepEvent::Executed);
    assert_eq!(
        host.step(),
        StepEvent::Trapped(Trap::InvalidWriteTarget(32776))
    );
    assert_eq!(host.ip(), 2);
    assert_eq!(host.create_state().count, 1);
    assert_eq!(host.create_memory_dump(3, 4), vec![32776]);
}

#[test]
fn run_after_a_trap_traps_again() {
    let mut host = machine(&[21, 22]);
    run_to_stop(&mut host);
    assert_eq!(host.ip(), 1);
    assert_eq!(host.create_state().count, 1);
    run_to_stop(&mut host);
    assert_eq!(host.ip(), 1);
    assert_eq!(host.create_state().count, 1);
}

#[test]
fn set_push_pop_with_memory_targets() {
    let mut host = machine(&[1, 9, 77, 2, 9, 3, 10, 0, 0, 0, 0]);
    assert_eq!(host.step(), StepEvent::Executed);
    assert_eq!(host.create_memory_dump(9, 10), vec![77]);
    assert_eq!(host.step(), StepEvent::Executed);
    assert_eq!(host.step(), StepEvent::Executed);
    assert_eq!(host.create_memory_dump(9, 11), vec![77, 9]);
}

#[test]
fn jumps_go_where_their_operand_says() {
    let mut host = machine(&[6, 3, 0, 21]);
    assert_eq!(host.step(), StepEvent::Executed);
    assert_eq!(host.ip(), 3);

    let mut host = machine(&[7, 1, 10, 8, 0, 20]);
    assert_eq!(host.step(), StepEvent::Executed);
    assert_eq!(host.ip(), 10);
    assert!(!host.should_run());

    let mut host = machine(&[7, 0, 10, 8, 0, 20]);
    assert_eq!(host.step(), StepEvent::Executed);
    assert_eq!(host.ip(), 3);
    assert_eq!(host.step(), StepEvent::Executed);
    assert_eq!(host.ip(), 20);

    let mut host = machine(&[8, 1, 10]);
    assert_eq!(host.step(), StepEvent::Executed);
    assert_eq!(host.ip(), 3);
}

#[test]
fn jump_through_a_register() {
    let mut host = machine(&[1, 32768, 6, 6, 32768, 0, 21]);
    assert_eq!(host.step(), StepEvent::Executed);
    assert_eq!(host.step(), StepEvent::Executed);
    assert_eq!(host.ip(), 6);
}

#[test]
fn call_then_ret_comes_back_after_the_call() {
    let mut host = machine(&[21, 17, 5, 0, 21, 18]);
    assert_eq!(host.step(), StepEvent::Executed);
    assert_eq!(host.step(), StepEvent::Executed);
    assert_eq!(host.ip(), 5);
    assert_eq!(host.step(), StepEvent::Executed);
    assert_eq!(host.ip(), 3);
    assert_eq!(host.step(), StepEvent::Executed);
    assert!(!host.should_run());
    assert_eq!(host.create_state().count, 4);
}

#[test]
fn call_pushes_the_return_address() {
    let mut host = machine(&[17, 3, 0, 3, 32768, 0]);
    run_to_stop(&mut host);
    assert_eq!(host.create_state().registers[0], 2);
}

#[test]
fn rmem_and_wmem_move_words() {
    let mut host = machine(&[15, 32768, 7, 16, 8, 32768, 0, 1234, 0]);
    assert_eq!(host.step(), StepEvent::Executed);
    assert_eq!(host.create_state().registers[0], 1234);
    assert_eq!(host.step(), StepEvent::Executed);
    assert_eq!(host.create_memory_dump(7, 9), vec![1234, 1234]);
}

#[test]
fn rmem_through_a_register_address() {
    let mut host = machine(&[1, 32769, 6, 15, 32768, 32769, 99]);
    assert_eq!(host.step(), StepEvent::Executed);
    assert_eq!(host.step(), StepEvent::Executed);
    assert_eq!(host.create_state().registers[0], 99);
}

#[test]
fn out_writes_the_low_byte() {
    let mut host = machine(&[19, 65, 19, 321, 19, 256, 19, 255]);
    run_to_stop(&mut host);
    assert_eq!(host.take_output(), vec![65, 65, 0, 255]);
}

#[test]
fn in_waits_for_input_and_then_reads_it() {
    let mut host = machine(&[20, 32768, 20, 32769, 20, 32770, 0]);
    assert_eq!(host.step(), StepEvent::AwaitingInput);
    assert_eq!(host.ip(), 0);
    assert_eq!(host.create_state().count, 0);
    assert!(host.should_run());
    assert_eq!(host.run(10), Pause::AwaitingInput);
    host.feed_input("A\n");
    assert_eq!(host.step(), StepEvent::Executed);
    assert_eq!(host.create_state().registers[0], 65);
    assert_eq!(host.step(), StepEvent::Executed);
    assert_eq!(host.create_state().registers[1], 10);
    assert_eq!(host.step(), StepEvent::AwaitingInput);
    host.feed_input("z");
    assert_eq!(host.run(10), Pause::Stopped);
    let state = host.create_state();
    assert_eq!(state.registers[2], 122);
    assert_eq!(state.count, 4);
}

#[test]
fn in_reads_lines_in_the_order_they_were_fed() {
    let mut host = machine(&[20, 32768, 20, 32769, 0]);
    host.feed_input("a");
    host.feed_input("b");
    run_to_stop(&mut host);
    let state = host.create_state();
    assert_eq!(state.registers[0], 97);
    assert_eq!(state.registers[1], 98);
}

#[test]
fn in_stores_character_codes_as_words() {
    let mut host = machine(&[20, 32768, 20, 32769, 20, 32770, 0]);
    host.feed_input("\u{20ac}\u{8000}\u{1d11e}");
    run_to_stop(&mut host);
    let state = host.create_state();
    assert_eq!(state.registers[0], 0x20ac);
    assert_eq!(state.registers[1], 0);
    assert_eq!(state.registers[2], (0x1d11e % 32768) as u16);
}

#[test]
fn in_can_write_to_memory() {
    let mut host = machine(&[20, 3, 0]);
    host.feed_input("x");
    assert_eq!(host.step(), StepEvent::Executed);
    assert_eq!(host.create_memory_dump(0, 10), vec![20, 3, 0, 120]);
}

#[test]
fn registers_and_memory_stay_words() {
    let mut host = machine(&[
        9, 32768, 32767, 32767, 10, 32769, 32767, 32767, 14, 32770, 0, 13, 32771, 16384, 16383,
        16, 30, 32771, 0,
    ]);
    run_to_stop(&mut host);
    let state = host.create_state();
    for value in state.registers.iter() {
        assert!(*value <= 32767);
    }
    assert_eq!(state.registers[0], 32766);
    assert_eq!(state.registers[1], 1);
    assert_eq!(state.registers[2], 32767);
    assert_eq!(state.registers[3], 32767);
    let memory = host.create_memory_dump(19, 100);
    assert_eq!(memory.len(), 12);
    for word in memory.iter() {
        assert!(*word <= 32767);
    }
    assert_eq!(memory[11], 32767);
}

#[test]
fn state_window_starts_at_the_instruction_pointer() {
    let mut host = machine(&[21, 21, 19, 65, 0]);
    let state = host.create_state();
    assert_eq!(
        state.here,
        [21, 21, 19, 65, 0, 0, 0, 0, 0, 0, 0, 0, 0, 0, 0, 0, 0, 0, 0, 0]
    );
    host.step();
    host.step();
    let state = host.create_state();
    assert_eq!(state.ip, 2);
    assert_eq!(
        state.here,
        [19, 65, 0, 0, 0, 0, 0, 0, 0, 0, 0, 0, 0, 0, 0, 0, 0, 0, 0, 0]
    );
}

#[test]
fn state_window_is_20_words() {
    let words: Vec<u16> = (0..30).map(|_| 21).collect();
    let host = machine(&words);
    assert_eq!(host.create_state().here, [21u16; 20]);
}

#[test]
fn state_window_past_the_end_of_memory_is_zero() {
    let mut host = machine(&[6, 500]);
    host.step();
    let state = host.create_state();
    assert_eq!(state.ip, 500);
    assert_eq!(state.here, [0u16; 20]);
}

#[test]
fn memory_dump_clamps_to_memory() {
    let host = machine(&[10, 11, 12, 13, 14]);
    assert_eq!(host.create_memory_dump(1, 3), vec![11, 12]);
    assert_eq!(host.create_memory_dump(0, 5), vec![10, 11, 12, 13, 14]);
    assert_eq!(host.create_memory_dump(3, 50), vec![13, 14]);
    assert_eq!(host.create_memory_dump(5, 50), Vec::<u16>::new());
    assert_eq!(host.create_memory_dump(40, 50), Vec::<u16>::new());
    assert_eq!(host.create_memory_dump(3, 1), Vec::<u16>::new());
    assert_eq!(host.create_memory_dump(2, 2), Vec::<u16>::new());
    assert_eq!(
        host.create_memory_dump(0, usize::MAX),
        vec![10, 11, 12, 13, 14]
    );
}
