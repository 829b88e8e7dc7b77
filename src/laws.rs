//! Properties of the step function that hold for every machine state.
use vstd::prelude::*;

use crate::decode::{family_of, opcode_of, reg_x_of, reg_y_of, subop_of, Opcode};
use crate::display::{
    draw_collides, draw_rows, flip, row_collides, screen_wf, sprite_covers, xor_row, SCREEN_HEIGHT,
    SCREEN_WIDTH,
};
use crate::machine::{
    advanced, drawn, initial_state, next_state, state_wf, word_at, Chip8Error, Chip8State, FLAG_REGISTER,
    MEMORY_SIZE, PROGRAM_START, STACK_DEPTH,
};

verus! {

/// A program made of nothing but zero bytes halts on its first step, and the
/// step changes nothing.
pub proof fn lemma_zero_program_halts(program: Seq<u8>, random: u8)
    requires
        program.len() <= MEMORY_SIZE - PROGRAM_START,
        forall|k: int| 0 <= k < program.len() ==> program[k] == 0,
    ensures
        next_state(initial_state(program), random) == (
            initial_state(program),
            Ok::<bool, Chip8Error>(false),
        ),
{
    let s = initial_state(program);
    assert(s.memory[PROGRAM_START as int] == 0);
    assert(s.memory[PROGRAM_START + 1] == 0);
    assert(word_at(s.memory, s.pc) == 0);
}

/// In any state, the halt word at the program counter stops the machine
/// and leaves the state as it was.
pub proof fn lemma_halt_word_changes_nothing(s: Chip8State, random: u8)
    requires
        state_wf(s),
        s.pc + 1 < MEMORY_SIZE,
        word_at(s.memory, s.pc) == 0,
    ensures
        next_state(s, random) == (s, Ok::<bool, Chip8Error>(false)),
{
}

/// A subroutine call succeeds, pushing the program counter, exactly when
/// fewer than sixteen calls are open; with sixteen open it fails with
/// `StackOverflow` and changes nothing. So from an empty stack sixteen
/// nested calls succeed and the seventeenth overflows.
pub proof fn lemma_call_depth(s: Chip8State, random: u8)
    requires
        state_wf(s),
        s.pc + 1 < MEMORY_SIZE,
        word_at(s.memory, s.pc) / 4096 == 2,
    ensures
        s.stack.len() < STACK_DEPTH ==> next_state(s, random).1 == Ok::<bool, Chip8Error>(true)
            && next_state(s, random).0.stack == s.stack.push(s.pc)
            && next_state(s, random).0.pc == word_at(s.memory, s.pc) % 4096,
        s.stack.len() == STACK_DEPTH ==> next_state(s, random) == (
            s,
            Err::<bool, Chip8Error>(Chip8Error::StackOverflow),
        ),
{
    let word = word_at(s.memory, s.pc);
    assert(opcode_of(word) == Some(Opcode::Call { address: (word % 4096) as u16 }));
}

/// A call followed by a return at the called address resumes right after
/// the call instruction, with the stack as it was before the call.
pub proof fn lemma_call_then_return(s: Chip8State, random1: u8, random2: u8)
    requires
        state_wf(s),
        s.pc + 1 < MEMORY_SIZE,
        s.stack.len() < STACK_DEPTH,
        word_at(s.memory, s.pc) / 4096 == 2,
        word_at(s.memory, s.pc) % 4096 + 1 < MEMORY_SIZE,
        word_at(s.memory, (word_at(s.memory, s.pc) % 4096) as int) == 0x00EE,
    ensures
        next_state(next_state(s, random1).0, random2).1 == Ok::<bool, Chip8Error>(true),
        next_state(next_state(s, random1).0, random2).0.pc == s.pc + 2,
        next_state(next_state(s, random1).0, random2).0.stack == s.stack,
{
    lemma_call_depth(s, random1);
    let s1 = next_state(s, random1).0;
    assert(s1.memory == s.memory);
    assert(opcode_of(0x00EE) == Some(Opcode::Return));
    assert(s1.stack.drop_last() =~= s.stack);
}

/// Every bit of the byte `0xFF` is set, so it covers all eight columns from
/// its left edge.
proof fn lemma_full_byte_covers(x: int, col: int)
    ensures
        sprite_covers(0xFFu8, x, col) <==> x <= col < x + 8,
{
    if x <= col < x + 8 {
        let shift = (7 - (col - x)) as u8;
        assert(shift < 8);
        assert(forall|k: u8| k < 8 ==> (0xFFu8 >> k) & 1u8 == 1u8) by (bit_vector);
    }
}

/// Drawing the same sprite twice at the same place gives back the display
/// that was there before.
pub proof fn lemma_draw_twice_restores(rows: Seq<Seq<u8>>, sprite: Seq<u8>, x: int, y: int)
    requires
        screen_wf(rows),
    ensures
        draw_rows(draw_rows(rows, sprite, x, y), sprite, x, y) == rows,
{
    let once = draw_rows(rows, sprite, x, y);
    let twice = draw_rows(once, sprite, x, y);
    assert forall|r: int| 0 <= r < rows.len() implies #[trigger] twice[r] == rows[r] by {
        if y <= r < y + sprite.len() {
            assert(rows[r].len() == SCREEN_WIDTH);
            assert forall|c: int| 0 <= c < rows[r].len() implies #[trigger] twice[r][c]
                == rows[r][c] by {
                assert(rows[r][c] == 0 || rows[r][c] == 1);
            }
            assert(twice[r] =~= rows[r]);
        }
    }
    assert(twice =~= rows);
}

/// Drawing the one-row sprite `0xFF` where its eight pixels are off lights
/// them and clears `VF`; drawing it again at the same place turns them off
/// and sets `VF`, giving back the display that was there before.
pub proof fn lemma_full_row_drawn_twice(s: Chip8State, x: int, y: int)
    requires
        state_wf(s),
        s.memory[s.index] == 0xFF,
        0 <= x < SCREEN_WIDTH,
        0 <= y < SCREEN_HEIGHT,
        forall|c: int| x <= c < x + 8 && c < SCREEN_WIDTH ==> #[trigger] s.screen[y][c] == 0,
    ensures
        drawn(s, x, y, 1).registers[FLAG_REGISTER as int] == 0,
        forall|c: int|
            x <= c < x + 8 && c < SCREEN_WIDTH ==> #[trigger] drawn(s, x, y, 1).screen[y][c] == 1,
        drawn(drawn(s, x, y, 1), x, y, 1).registers[FLAG_REGISTER as int] == 1,
        drawn(drawn(s, x, y, 1), x, y, 1).screen == s.screen,
{
    let sprite = s.memory.subrange(s.index, s.index + 1);
    assert(sprite[0] == 0xFF);
    let s1 = drawn(s, x, y, 1);
    assert(s1.memory == s.memory && s1.index == s.index);
    assert(s.screen[y].len() == SCREEN_WIDTH);
    // the first draw finds nothing lit under the sprite
    assert forall|r: int|
        0 <= r < s.screen.len() && y <= r < y + sprite.len() implies !#[trigger] row_collides(
        s.screen[r],
        sprite[r - y],
        x,
    ) by {
        assert(r == y);
        assert forall|c: int|
            0 <= c < s.screen[r].len() && #[trigger] sprite_covers(sprite[r - y], x, c) implies s.screen[r][c]
            != 1 by {
            lemma_full_byte_covers(x, c);
        }
    }
    assert(!draw_collides(s.screen, sprite, x, y));
    assert forall|c: int| x <= c < x + 8 && c < SCREEN_WIDTH implies #[trigger] s1.screen[y][c]
        == 1 by {
        lemma_full_byte_covers(x, c);
        assert(s1.screen[y] == xor_row(s.screen[y], 0xFFu8, x));
        assert(flip(0) == 1);
    }
    // the second draw turns the pixel at column x off
    lemma_full_byte_covers(x, x);
    assert(s1.screen[y][x] == 1);
    assert(row_collides(s1.screen[y], sprite[y - y], x));
    assert(draw_collides(s1.screen, sprite, x, y));
    lemma_draw_twice_restores(s.screen, sprite, x, y);
}

/// Two steps that each draw the one-row sprite `0xFF` at `(V[x], V[y])`,
/// where its eight pixels start off: the first lights them and leaves
/// `VF == 0`, the second turns them off again, leaves `VF == 1`, and gives
/// back the display there was before.
pub proof fn lemma_draw_step_twice(s: Chip8State, random1: u8, random2: u8)
    requires
        state_wf(s),
        s.pc + 3 < MEMORY_SIZE,
        word_at(s.memory, s.pc) == word_at(s.memory, s.pc + 2),
        family_of(word_at(s.memory, s.pc)) == 0xD,
        subop_of(word_at(s.memory, s.pc)) == 1,
        reg_x_of(word_at(s.memory, s.pc)) != FLAG_REGISTER,
        reg_y_of(word_at(s.memory, s.pc)) != FLAG_REGISTER,
        s.memory[s.index] == 0xFF,
        s.registers[reg_x_of(word_at(s.memory, s.pc))] < SCREEN_WIDTH,
        s.registers[reg_y_of(word_at(s.memory, s.pc))] < SCREEN_HEIGHT,
        forall|c: int|
            s.registers[reg_x_of(word_at(s.memory, s.pc))] <= c < s.registers[reg_x_of(
                word_at(s.memory, s.pc),
            )] + 8 && c < SCREEN_WIDTH ==> #[trigger] s.screen[s.registers[reg_y_of(
                word_at(s.memory, s.pc),
            )] as int][c] == 0,
    ensures
        next_state(s, random1).1 == Ok::<bool, Chip8Error>(true),
        next_state(s, random1).0.registers[FLAG_REGISTER as int] == 0,
        forall|c: int|
            s.registers[reg_x_of(word_at(s.memory, s.pc))] <= c < s.registers[reg_x_of(
                word_at(s.memory, s.pc),
            )] + 8 && c < SCREEN_WIDTH ==> #[trigger] next_state(s, random1).0.screen[s.registers[reg_y_of(
                word_at(s.memory, s.pc),
            )] as int][c] == 1,
        next_state(next_state(s, random1).0, random2).1 == Ok::<bool, Chip8Error>(true),
        next_state(next_state(s, random1).0, random2).0.registers[FLAG_REGISTER as int] == 1,
        next_state(next_state(s, random1).0, random2).0.screen == s.screen,
        next_state(next_state(s, random1).0, random2).0.pc == s.pc + 4,
{
    let word = word_at(s.memory, s.pc);
    let x = reg_x_of(word);
    let y = reg_y_of(word);
    let vx = s.registers[x] as int;
    let vy = s.registers[y] as int;
    assert(opcode_of(word) == Some(Opcode::Draw { x: x as u8, y: y as u8, height: 1 }));
    lemma_full_row_drawn_twice(s, vx, vy);
    let d1 = drawn(s, vx, vy, 1);
    let s1 = next_state(s, random1).0;
    assert(s1 == advanced(d1, false));
    assert(s1.registers[x] == s.registers[x] && s1.registers[y] == s.registers[y]);
    assert(word_at(s1.memory, s1.pc) == word);
    let d2 = drawn(s1, vx, vy, 1);
    assert(d2.screen == drawn(d1, vx, vy, 1).screen);
    assert(d2.registers[FLAG_REGISTER as int] == drawn(d1, vx, vy, 1).registers[FLAG_REGISTER as int]);
}

} // verus!
