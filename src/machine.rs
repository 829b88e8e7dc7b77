//! The machine state and the fetch-decode-execute step.
use vstd::prelude::*;

use crate::decode::{decode, opcode_of, Opcode};
use crate::display::{
    blank_display, blank_screen, draw_collides, draw_rows, draw_sprite, rows_of, screen_wf,
    SCREEN_HEIGHT, SCREEN_WIDTH,
};
use crate::rng::random_byte;

verus! {

/// Bytes of addressable memory.
pub const MEMORY_SIZE: usize = 4096;

/// Where programs are loaded, and where execution starts.
pub const PROGRAM_START: usize = 0x200;

/// Nesting depth of the call stack.
pub const STACK_DEPTH: usize = 16;

/// General-purpose registers `V0` to `VF`.
pub const REGISTER_COUNT: usize = 16;

/// The register that a draw sets to its collision flag.
pub const FLAG_REGISTER: usize = 0xF;

/// A fatal condition met while executing a program.
#[derive(Clone, Copy, Debug, PartialEq, Eq, Structural)]
pub enum Chip8Error {
    /// The fetched word is not an implemented instruction.
    UnknownOpcode { instruction: u16 },
    /// A subroutine call with the call stack full.
    StackOverflow,
    /// A return with the call stack empty.
    StackUnderflow,
    /// An instruction fetch or sprite read needed `address`, which lies past
    /// the end of memory.
    OutOfBoundsAccess { address: usize },
}

/// The mathematical model of a machine.
pub struct Chip8State {
    pub memory: Seq<u8>,
    /// The program counter: where the next instruction is fetched.
    pub pc: int,
    /// Return addresses, the innermost call last.
    pub stack: Seq<int>,
    /// The index register `I`.
    pub index: int,
    pub registers: Seq<u8>,
    /// Pixel rows, top first; each pixel 0 or 1.
    pub screen: Seq<Seq<u8>>,
    /// The key currently pressed, 0 for none.
    pub key_pressed: u8,
}

/// The bounds that every reachable machine state keeps.
pub open spec fn state_wf(s: Chip8State) -> bool {
    &&& s.memory.len() == MEMORY_SIZE
    &&& s.registers.len() == REGISTER_COUNT
    &&& s.stack.len() <= STACK_DEPTH
    &&& forall|k: int| 0 <= k < s.stack.len() ==> 0 <= #[trigger] s.stack[k] < MEMORY_SIZE
    &&& 0 <= s.pc < 0x10000
    &&& 0 <= s.index < MEMORY_SIZE
    &&& screen_wf(s.screen)
}

/// The big-endian word formed by the bytes at `address` and `address + 1`.
pub open spec fn word_at(memory: Seq<u8>, address: int) -> u16 {
    (memory[address] as int * 256 + memory[address + 1] as int) as u16
}

/// Memory right after loading `program`.
pub open spec fn loaded_memory(program: Seq<u8>) -> Seq<u8> {
    Seq::new(
        MEMORY_SIZE as nat,
        |a: int|
            if PROGRAM_START <= a < PROGRAM_START + program.len() {
                program[a - PROGRAM_START]
            } else {
                0u8
            },
    )
}

/// A fresh machine holding `program`.
pub open spec fn initial_state(program: Seq<u8>) -> Chip8State {
    Chip8State {
        memory: loaded_memory(program),
        pc: PROGRAM_START as int,
        stack: Seq::empty(),
        index: 0,
        registers: Seq::new(REGISTER_COUNT as nat, |r: int| 0u8),
        screen: blank_screen(),
        key_pressed: 0,
    }
}

/// `s` with its program counter moved past the current instruction, and
/// past the following one too when `skip` holds.
pub open spec fn advanced(s: Chip8State, skip: bool) -> Chip8State {
    Chip8State { pc: if skip { s.pc + 4 } else { s.pc + 2 }, ..s }
}

/// The state after drawing the `height`-row sprite at `I` with its corner at
/// `(x, y)`, and `VF` set to whether a lit pixel was turned off. The program
/// counter is left as it was.
pub open spec fn drawn(s: Chip8State, x: int, y: int, height: int) -> Chip8State {
    let sprite = s.memory.subrange(s.index, s.index + height);
    let collided = draw_collides(s.screen, sprite, x, y);
    Chip8State {
        screen: draw_rows(s.screen, sprite, x, y),
        registers: s.registers.update(FLAG_REGISTER as int, if collided { 1u8 } else { 0u8 }),
        ..s
    }
}

/// The outcome of executing `op` in `s`, with `random` as the byte that a
/// random-number instruction draws. On an error the state is unchanged.
pub open spec fn execute_spec(s: Chip8State, op: Opcode, random: u8) -> (
    Chip8State,
    Result<bool, Chip8Error>,
) {
    match op {
        Opcode::Halt => (s, Ok(false)),
        Opcode::ClearScreen => (advanced(Chip8State { screen: blank_screen(), ..s }, false), Ok(true)),
        Opcode::Return => if s.stack.len() == 0 {
            (s, Err(Chip8Error::StackUnderflow))
        } else {
            (
                Chip8State { pc: s.stack.last() + 2, stack: s.stack.drop_last(), ..s },
                Ok(true),
            )
        },
        Opcode::Jump { address } => (Chip8State { pc: address as int, ..s }, Ok(true)),
        Opcode::Call { address } => if s.stack.len() >= STACK_DEPTH {
            (s, Err(Chip8Error::StackOverflow))
        } else {
            (Chip8State { pc: address as int, stack: s.stack.push(s.pc), ..s }, Ok(true))
        },
        Opcode::SkipIfEqual { x, value } => (advanced(s, s.registers[x as int] == value), Ok(true)),
        Opcode::SkipIfNotEqual { x, value } => (
            advanced(s, s.registers[x as int] != value),
            Ok(true),
        ),
        Opcode::SkipIfRegistersEqual { x, y } => (
            advanced(s, s.registers[x as int] == s.registers[y as int]),
            Ok(true),
        ),
        Opcode::Load { x, value } => (
            advanced(Chip8State { registers: s.registers.update(x as int, value), ..s }, false),
            Ok(true),
        ),
        Opcode::Add { x, value } => (
            advanced(
                Chip8State {
                    registers: s.registers.update(
                        x as int,
                        ((s.registers[x as int] + value) % 256) as u8,
                    ),
                    ..s
                },
                false,
            ),
            Ok(true),
        ),
        Opcode::SkipIfRegistersNotEqual { x, y } => (
            advanced(s, s.registers[x as int] != s.registers[y as int]),
            Ok(true),
        ),
        Opcode::LoadIndex { address } => (
            advanced(Chip8State { index: address as int, ..s }, false),
            Ok(true),
        ),
        Opcode::JumpWithOffset { address } => (
            Chip8State { pc: address + s.registers[0], ..s },
            Ok(true),
        ),
        Opcode::Random { x, mask } => (
            advanced(
                Chip8State { registers: s.registers.update(x as int, random & mask), ..s },
                false,
            ),
            Ok(true),
        ),
        Opcode::Draw { x, y, height } => if s.index + height > MEMORY_SIZE {
            (
                s,
                Err(Chip8Error::OutOfBoundsAccess { address: (s.index + height - 1) as usize }),
            )
        } else {
            (
                advanced(
                    drawn(s, s.registers[x as int] as int, s.registers[y as int] as int, height as int),
                    false,
                ),
                Ok(true),
            )
        },
        Opcode::SkipIfKey { x } => (advanced(s, s.registers[x as int] == s.key_pressed), Ok(true)),
        Opcode::SkipIfNotKey { x } => (
            advanced(s, s.registers[x as int] != s.key_pressed),
            Ok(true),
        ),
    }
}

/// One fetch-decode-execute cycle from `s`: the next state, and `Ok(true)`
/// to continue, `Ok(false)` on the halt word, or the fatal error (with the
/// state unchanged).
pub open spec fn next_state(s: Chip8State, random: u8) -> (Chip8State, Result<bool, Chip8Error>) {
    if s.pc + 1 >= MEMORY_SIZE {
        (s, Err(Chip8Error::OutOfBoundsAccess { address: (s.pc + 1) as usize }))
    } else {
        let word = word_at(s.memory, s.pc);
        match opcode_of(word) {
            None => (s, Err(Chip8Error::UnknownOpcode { instruction: word })),
            Some(op) => execute_spec(s, op, random),
        }
    }
}

/// The state after one step from `s` per byte of `randoms`, in order, each
/// step drawing its byte; and whether every one of those steps returned
/// `Ok(true)`. The steps stop at the first one that does not.
pub open spec fn run(s: Chip8State, randoms: Seq<u8>) -> (Chip8State, bool)
    decreases randoms.len(),
{
    if randoms.len() == 0 {
        (s, true)
    } else {
        let (t, all_continued) = run(s, randoms.drop_last());
        if all_continued {
            let (u, r) = next_state(t, randoms.last());
            (u, r == Ok::<bool, Chip8Error>(true))
        } else {
            (t, false)
        }
    }
}

/// A step that halts or fails leaves the state as it was, and its outcome
/// does not depend on the random byte.
pub proof fn lemma_stop_ignores_random(s: Chip8State, random: u8, other: u8)
    requires
        next_state(s, random).1 != Ok::<bool, Chip8Error>(true),
    ensures
        next_state(s, random).0 == s,
        next_state(s, other) == next_state(s, random),
{
}

/// No step writes memory or the key latch.
pub proof fn lemma_step_keeps_memory_and_key(s: Chip8State, random: u8)
    ensures
        next_state(s, random).0.memory == s.memory,
        next_state(s, random).0.key_pressed == s.key_pressed,
{
}

/// Operands of `op` that index a register are below 16, addresses below
/// 4096 and heights below 16, as for every decoded word.
pub open spec fn operands_in_range(op: Opcode) -> bool {
    match op {
        Opcode::Jump { address } => address < MEMORY_SIZE,
        Opcode::Call { address } => address < MEMORY_SIZE,
        Opcode::LoadIndex { address } => address < MEMORY_SIZE,
        Opcode::JumpWithOffset { address } => address < MEMORY_SIZE,
        Opcode::SkipIfEqual { x, .. } => x < REGISTER_COUNT,
        Opcode::SkipIfNotEqual { x, .. } => x < REGISTER_COUNT,
        Opcode::Load { x, .. } => x < REGISTER_COUNT,
        Opcode::Add { x, .. } => x < REGISTER_COUNT,
        Opcode::Random { x, .. } => x < REGISTER_COUNT,
        Opcode::SkipIfKey { x } => x < REGISTER_COUNT,
        Opcode::SkipIfNotKey { x } => x < REGISTER_COUNT,
        Opcode::SkipIfRegistersEqual { x, y } => x < REGISTER_COUNT && y < REGISTER_COUNT,
        Opcode::SkipIfRegistersNotEqual { x, y } => x < REGISTER_COUNT && y < REGISTER_COUNT,
        Opcode::Draw { x, y, height } => x < REGISTER_COUNT && y < REGISTER_COUNT && height < 16,
        _ => true,
    }
}

/// A CHIP-8 machine: memory, registers, index register, program counter,
/// call stack, display and the pressed-key latch.
pub struct Chip8 {
    memory: Vec<u8>,
    memory_position: usize,
    stack: Vec<usize>,
    i: usize,
    registers: Vec<u8>,
    screen: Vec<Vec<u8>>,
    key_pressed: u8,
}

impl View for Chip8 {
    type V = Chip8State;

    closed spec fn view(&self) -> Chip8State {
        Chip8State {
            memory: self.memory@,
            pc: self.memory_position as int,
            stack: self.stack@.map_values(|a: usize| a as int),
            index: self.i as int,
            registers: self.registers@,
            screen: rows_of(self.screen@),
            key_pressed: self.key_pressed,
        }
    }
}

/// Every word that decodes has its operands in range.
proof fn lemma_decoded_operands_in_range(word: u16)
    ensures
        opcode_of(word) matches Some(op) ==> operands_in_range(op),
{
}

impl Chip8 {
    /// The bounds of `state_wf` hold of this machine.
    pub open spec fn wf(&self) -> bool {
        state_wf(self@)
    }

    /// A machine with `data` loaded at `0x200`, the program counter there,
    /// and registers, index, stack, display and key latch all zero.
    pub fn new_with_memory(data: Vec<u8>) -> (chip: Chip8)
        requires
            data@.len() <= MEMORY_SIZE - PROGRAM_START,
        ensures
            chip.wf(),
            chip@ == initial_state(data@),
    {
        let mut memory: Vec<u8> = vec![0u8; MEMORY_SIZE];
        let mut k: usize = 0;
        while k < data.len()
            invariant
                k <= data@.len(),
                data@.len() <= MEMORY_SIZE - PROGRAM_START,
                memory@.len() == MEMORY_SIZE,
                forall|a: int|
                    0 <= a < MEMORY_SIZE ==> #[trigger] memory@[a] == if PROGRAM_START <= a
                        < PROGRAM_START + k {
                        data@[a - PROGRAM_START]
                    } else {
                        0u8
                    },
            decreases data@.len() - k,
        {
            memory.set(PROGRAM_START + k, data[k]);
            k += 1;
        }
        let chip = Chip8 {
            memory,
            memory_position: PROGRAM_START,
            stack: Vec::new(),
            i: 0,
            registers: vec![0u8; REGISTER_COUNT],
            screen: blank_display(),
            key_pressed: 0,
        };
        assert(chip@.memory =~= loaded_memory(data@));
        assert(chip@.registers =~= initial_state(data@).registers);
        assert(chip@.stack =~= Seq::<int>::empty());
        chip
    }

    /// The program counter.
    pub fn pc(&self) -> (r: usize)
        ensures
            r == self@.pc,
    {
        self.memory_position
    }

    /// The index register `I`.
    pub fn index(&self) -> (r: usize)
        ensures
            r == self@.index,
    {
        self.i
    }

    /// Register `V[x]`.
    pub fn register(&self, x: usize) -> (r: u8)
        requires
            self.wf(),
            x < REGISTER_COUNT,
        ensures
            r == self@.registers[x as int],
    {
        self.registers[x]
    }

    /// Sets register `V[x]` to `value`, leaving the rest of the machine as it was.
    pub fn set_register(&mut self, x: usize, value: u8)
        requires
            old(self).wf(),
            x < REGISTER_COUNT,
        ensures
            final(self).wf(),
            final(self)@ == (Chip8State {
                registers: old(self)@.registers.update(x as int, value),
                ..old(self)@
            }),
    {
        self.registers.set(x, value);
    }

    /// Latches `key` as the pressed key (0 for none), for the next step to read.
    pub fn set_key_pressed(&mut self, key: u8)
        requires
            old(self).wf(),
        ensures
            final(self).wf(),
            final(self)@ == (Chip8State { key_pressed: key, ..old(self)@ }),
    {
        self.key_pressed = key;
    }

    /// The sixteen registers, `V0` first.
    pub fn registers_vec(&self) -> (r: Vec<u8>)
        ensures
            r@ == self@.registers,
    {
        self.registers.clone()
    }

    /// How many subroutine calls are open.
    pub fn stack_depth(&self) -> (r: usize)
        ensures
            r == self@.stack.len(),
    {
        self.stack.len()
    }

    /// The pixel in column `x` of row `y`: 1 when lit, 0 when not.
    pub fn pixel(&self, x: usize, y: usize) -> (r: u8)
        requires
            self.wf(),
            x < SCREEN_WIDTH,
            y < SCREEN_HEIGHT,
        ensures
            r == self@.screen[y as int][x as int],
    {
        assert(self.screen@[y as int]@ == self@.screen[y as int]);
        self.screen[y][x]
    }

    /// The display, one vector of 0/1 pixels per row, top row first.
    pub fn screen(&self) -> (r: &Vec<Vec<u8>>)
        ensures
            rows_of(r@) == self@.screen,
    {
        &self.screen
    }

    /// Runs steps, each with a byte from the thread-local random generator,
    /// until one halts (`Ok(true)`) or fails (`Err`). A machine that does
    /// neither is given up on after `u64::MAX` steps, with `Ok(false)`. The
    /// final state is the one the halting or failing step started from, as
    /// such a step changes nothing.
    pub fn main_loop(&mut self) -> (r: Result<bool, Chip8Error>)
        requires
            old(self).wf(),
        ensures
            final(self).wf(),
            final(self)@.memory == old(self)@.memory,
            final(self)@.key_pressed == old(self)@.key_pressed,
            exists|randoms: Seq<u8>|
                #[trigger] run(old(self)@, randoms) == (final(self)@, true) && (r == Ok::<
                    bool,
                    Chip8Error,
                >(false) ==> randoms.len() == u64::MAX),
            r == Ok::<bool, Chip8Error>(true) ==> forall|random: u8|
                #[trigger] next_state(final(self)@, random) == (
                    final(self)@,
                    Ok::<bool, Chip8Error>(false),
                ),
            r matches Err(e) ==> forall|random: u8|
                #[trigger] next_state(final(self)@, random) == (
                    final(self)@,
                    Err::<bool, Chip8Error>(e),
                ),
    {
        let ghost start = self@;
        let ghost mut randoms: Seq<u8> = Seq::empty();
        let mut steps_left: u64 = u64::MAX;
        while steps_left > 0
            invariant
                self.wf(),
                start == old(self)@,
                run(start, randoms) == (self@, true),
                randoms.len() + steps_left == u64::MAX,
                self@.memory == start.memory,
                self@.key_pressed == start.key_pressed,
            decreases steps_left,
        {
            let ghost before = self@;
            let result = self.single_iteration();
            let ghost random = choose|random: u8| (self@, result) == next_state(before, random);
            proof {
                assert((self@, result) == next_state(before, random));
                lemma_step_keeps_memory_and_key(before, random);
            }
            match result {
                Ok(true) => {
                    proof {
                        assert(randoms.push(random).drop_last() =~= randoms);
                        randoms = randoms.push(random);
                    }
                },
                Ok(false) => {
                    proof {
                        lemma_stop_ignores_random(before, random, random);
                        assert(self@ == before);
                        assert forall|other: u8|
                            #[trigger] next_state(self@, other) == (
                                self@,
                                Ok::<bool, Chip8Error>(false),
                            ) by {
                            lemma_stop_ignores_random(before, random, other);
                        }
                        assert(run(start, randoms) == (self@, true));
                    }
                    return Ok(true);
                },
                Err(e) => {
                    proof {
                        assert forall|other: u8|
                            #[trigger] next_state(self@, other) == (
                                self@,
                                Err::<bool, Chip8Error>(e),
                            ) by {
                            lemma_stop_ignores_random(before, random, other);
                        }
                        assert(run(start, randoms) == (self@, true));
                    }
                    return Err(e);
                },
            }
            steps_left -= 1;
        }
        assert(run(start, randoms) == (self@, true));
        Ok(false)
    }

    /// One fetch-decode-execute cycle, drawing a byte from the thread-local
    /// random generator for a random-number instruction. Returns `Ok(true)`
    /// to continue and `Ok(false)` on the halt word.
    pub fn single_iteration(&mut self) -> (r: Result<bool, Chip8Error>)
        requires
            old(self).wf(),
        ensures
            final(self).wf(),
            exists|random: u8| (final(self)@, r) == #[trigger] next_state(old(self)@, random),
    {
        let random = random_byte();
        self.step_with_random(random)
    }

    /// One fetch-decode-execute cycle, with `random` as the byte that a
    /// random-number instruction draws.
    pub fn step_with_random(&mut self, random: u8) -> (r: Result<bool, Chip8Error>)
        requires
            old(self).wf(),
        ensures
            final(self).wf(),
            (final(self)@, r) == next_state(old(self)@, random),
    {
        let instruction = match self.get_next_instruction() {
            Ok(word) => word,
            Err(e) => {
                return Err(e);
            },
        };
        match decode(instruction) {
            None => Err(Chip8Error::UnknownOpcode { instruction }),
            Some(op) => {
                proof {
                    lemma_decoded_operands_in_range(instruction);
                }
                self.execute(op, random)
            },
        }
    }

    /// The word at the program counter, high byte first; the fetch fails
    /// when its second byte would lie past the end of memory.
    fn get_next_instruction(&self) -> (r: Result<u16, Chip8Error>)
        requires
            self.wf(),
        ensures
            self@.pc + 1 < MEMORY_SIZE ==> r == Ok::<u16, Chip8Error>(
                word_at(self@.memory, self@.pc),
            ),
            self@.pc + 1 >= MEMORY_SIZE ==> r == Err::<u16, Chip8Error>(
                Chip8Error::OutOfBoundsAccess { address: (self@.pc + 1) as usize },
            ),
    {
        if self.memory_position >= MEMORY_SIZE - 1 {
            return Err(Chip8Error::OutOfBoundsAccess { address: self.memory_position + 1 });
        }
        let high = self.memory[self.memory_position] as u16;
        let low = self.memory[self.memory_position + 1] as u16;
        proof {
            assert((high << 8u16) | low == high * 256 + low) by (bit_vector)
                requires
                    high < 256,
                    low < 256,
            ;
        }
        Ok((high << 8u16) | low)
    }

    /// Moves the program counter past the next instruction when
    /// `should_skip` holds. The move past the current instruction is the
    /// step's own.
    fn skip_next_position(&mut self, should_skip: bool)
        requires
            old(self).wf(),
            old(self)@.pc + 1 < MEMORY_SIZE,
        ensures
            final(self).wf(),
            final(self)@ == (Chip8State {
                pc: old(self)@.pc + if should_skip { 2int } else { 0int },
                ..old(self)@
            }),
    {
        if should_skip {
            self.memory_position = self.memory_position + 2;
        }
    }

    /// Pushes the program counter and jumps to `address`.
    fn execute_subroutine(&mut self, address: usize) -> (r: Result<bool, Chip8Error>)
        requires
            old(self).wf(),
            old(self)@.pc + 1 < MEMORY_SIZE,
            address < MEMORY_SIZE,
        ensures
            final(self).wf(),
            (final(self)@, r) == execute_spec(old(self)@, Opcode::Call { address: address as u16 }, 0),
    {
        if self.stack.len() >= STACK_DEPTH {
            return Err(Chip8Error::StackOverflow);
        }
        let ghost before = self@;
        self.stack.push(self.memory_position);
        self.memory_position = address;
        assert(self@.stack =~= before.stack.push(before.pc));
        Ok(true)
    }

    /// Pops the innermost return address into the program counter, which
    /// then holds the address of the call instruction.
    fn return_from_subroutine(&mut self) -> (r: Result<(), Chip8Error>)
        requires
            old(self).wf(),
        ensures
            final(self).wf(),
            old(self)@.stack.len() == 0 ==> r == Err::<(), Chip8Error>(Chip8Error::StackUnderflow)
                && final(self)@ == old(self)@,
            old(self)@.stack.len() > 0 ==> r == Ok::<(), Chip8Error>(()) && final(self)@ == (
            Chip8State {
                pc: old(self)@.stack.last(),
                stack: old(self)@.stack.drop_last(),
                ..old(self)@
            }),
    {
        if self.stack.len() == 0 {
            return Err(Chip8Error::StackUnderflow);
        }
        let ghost before = self@;
        let address = self.stack.pop().unwrap();
        assert(before.stack.last() == address as int);
        self.memory_position = address;
        assert(self@.stack =~= before.stack.drop_last());
        Ok(())
    }

    /// Draws the `height`-row sprite at `I` with its corner at `(x, y)` and
    /// sets `VF` to whether a lit pixel was turned off.
    fn draw(&mut self, x: usize, y: usize, height: usize) -> (r: Result<(), Chip8Error>)
        requires
            old(self).wf(),
            x <= 255,
            y <= 255,
            height < 16,
        ensures
            final(self).wf(),
            old(self)@.index + height > MEMORY_SIZE ==> final(self)@ == old(self)@ && r == Err::<
                (),
                Chip8Error,
            >(Chip8Error::OutOfBoundsAccess { address: (old(self)@.index + height - 1) as usize }),
            old(self)@.index + height <= MEMORY_SIZE ==> final(self)@ == drawn(
                old(self)@,
                x as int,
                y as int,
                height as int,
            ) && r == Ok::<(), Chip8Error>(()),
    {
        if self.i + height > MEMORY_SIZE {
            return Err(Chip8Error::OutOfBoundsAccess { address: self.i + height - 1 });
        }
        self.registers.set(FLAG_REGISTER, 0);
        let collided = draw_sprite(&mut self.screen, &self.memory, self.i, height, x, y);
        if collided {
            self.registers.set(FLAG_REGISTER, 1);
        }
        assert(self@.registers =~= drawn(old(self)@, x as int, y as int, height as int).registers);
        Ok(())
    }

    /// Turns every pixel off.
    fn clear_screen(&mut self)
        requires
            old(self).wf(),
        ensures
            final(self).wf(),
            final(self)@ == (Chip8State { screen: blank_screen(), ..old(self)@ }),
    {
        self.screen = blank_display();
    }

    /// Executes one decoded instruction. Jumps, calls and the halt word set
    /// the program counter themselves; every other instruction then moves
    /// it past itself.
    fn execute(&mut self, op: Opcode, random: u8) -> (r: Result<bool, Chip8Error>)
        requires
            old(self).wf(),
            old(self)@.pc + 1 < MEMORY_SIZE,
            operands_in_range(op),
        ensures
            final(self).wf(),
            (final(self)@, r) == execute_spec(old(self)@, op, random),
    {
        match op {
            Opcode::Halt => {
                return Ok(false);
            },
            Opcode::ClearScreen => self.clear_screen(),
            Opcode::Return => match self.return_from_subroutine() {
                Ok(()) => {},
                Err(e) => {
                    return Err(e);
                },
            },
            Opcode::Jump { address } => {
                self.memory_position = address as usize;
                return Ok(true);
            },
            Opcode::Call { address } => {
                return self.execute_subroutine(address as usize);
            },
            Opcode::SkipIfEqual { x, value } => {
                let should_skip = self.registers[x as usize] == value;
                self.skip_next_position(should_skip);
            },
            Opcode::SkipIfNotEqual { x, value } => {
                let should_skip = self.registers[x as usize] != value;
                self.skip_next_position(should_skip);
            },
            Opcode::SkipIfRegistersEqual { x, y } => {
                let should_skip = self.registers[x as usize] == self.registers[y as usize];
                self.skip_next_position(should_skip);
            },
            Opcode::Load { x, value } => self.registers.set(x as usize, value),
            Opcode::Add { x, value } => {
                let sum = self.registers[x as usize].wrapping_add(value);
                self.registers.set(x as usize, sum);
            },
            Opcode::SkipIfRegistersNotEqual { x, y } => {
                let should_skip = self.registers[x as usize] != self.registers[y as usize];
                self.skip_next_position(should_skip);
            },
            Opcode::LoadIndex { address } => self.i = address as usize,
            Opcode::JumpWithOffset { address } => {
                self.memory_position = address as usize + self.registers[0] as usize;
                return Ok(true);
            },
            Opcode::Random { x, mask } => self.set_random_value(x as usize, mask, random),
            Opcode::Draw { x, y, height } => {
                let position_x = self.registers[x as usize] as usize;
                let position_y = self.registers[y as usize] as usize;
                match self.draw(position_x, position_y, height as usize) {
                    Ok(()) => {},
                    Err(e) => {
                        return Err(e);
                    },
                }
            },
            Opcode::SkipIfKey { x } => {
                let should_skip = self.registers[x as usize] == self.key_pressed;
                self.skip_next_position(should_skip);
            },
            Opcode::SkipIfNotKey { x } => {
                let should_skip = self.registers[x as usize] != self.key_pressed;
                self.skip_next_position(should_skip);
            },
        }
        self.memory_position = self.memory_position + 2;
        Ok(true)
    }

    /// Stores `random & mask` in register `register_id`.
    fn set_random_value(&mut self, register_id: usize, mask: u8, random: u8)
        requires
            old(self).wf(),
            register_id < REGISTER_COUNT,
        ensures
            final(self).wf(),
            final(self)@ == (Chip8State {
                registers: old(self)@.registers.update(register_id as int, random & mask),
                ..old(self)@
            }),
    {
        self.registers.set(register_id, random & mask);
    }
}

} // verus!
