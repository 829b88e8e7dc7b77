//! Text renderings of the machine for a terminal: display rows as block
//! characters, and a dump of the program counter, index and registers.
use vstd::prelude::*;

use crate::machine::{Chip8, REGISTER_COUNT};

verus! {

/// The character for a digit below 16, in lower case.
pub open spec fn digit_char(d: nat) -> char {
    seq!['0', '1', '2', '3', '4', '5', '6', '7', '8', '9', 'a', 'b', 'c', 'd', 'e', 'f'][d as int]
}

/// `n` in decimal, without leading zeros.
pub open spec fn decimal_text(n: nat) -> Seq<char>
    decreases n,
{
    if n < 10 {
        seq![digit_char(n)]
    } else {
        decimal_text(n / 10).push(digit_char(n % 10))
    }
}

/// `n` in lower-case hexadecimal, padded with zeros to at least `width` digits.
pub open spec fn hex_text(n: nat, width: nat) -> Seq<char>
    decreases n + width,
{
    if n < 16 && width <= 1 {
        seq![digit_char(n)]
    } else {
        hex_text(n / 16, if width > 0 { (width - 1) as nat } else { 0 }).push(digit_char(n % 16))
    }
}

/// The character that shows one pixel: a light shade when off, a full block when on.
pub open spec fn pixel_char(pixel: u8) -> char {
    if pixel == 0 {
        '\u{2591}'
    } else {
        '\u{2588}'
    }
}

/// One display row as text: a character per pixel, then a line break.
pub open spec fn line_text(row: Seq<u8>) -> Seq<char> {
    Seq::new(row.len(), |c: int| pixel_char(row[c])).push('\n')
}

/// Four registers from `first` on, two hex digits each, separated by spaces.
pub open spec fn register_group_text(registers: Seq<u8>, first: int) -> Seq<char> {
    hex_text(registers[first] as nat, 2) + " "@ + hex_text(registers[first + 1] as nat, 2) + " "@
        + hex_text(registers[first + 2] as nat, 2) + " "@ + hex_text(
        registers[first + 3] as nat,
        2,
    )
}

/// The diagnostic dump of a machine: program counter and index in decimal
/// and hexadecimal, then the sixteen registers in rows of four.
pub open spec fn state_text(pc: nat, index: nat, registers: Seq<u8>) -> Seq<char> {
    "memory_position: "@ + decimal_text(pc) + " ("@ + hex_text(pc, 2) + ")\ni: "@ + decimal_text(
        index,
    ) + " ("@ + hex_text(index, 3) + ")\n\nv[0..3]:    "@ + register_group_text(registers, 0)
        + "\nv[4..7]:    "@ + register_group_text(registers, 4) + "\nv[8..11]:   "@
        + register_group_text(registers, 8) + "\nv[12..15]:  "@ + register_group_text(
        registers,
        12,
    )
}

/// The one-character string for digit `d`.
fn digit_str(d: usize) -> (r: &'static str)
    requires
        d < 16,
    ensures
        r@ == seq![digit_char(d as nat)],
{
    let digits = "0123456789abcdef";
    proof {
        reveal_strlit("0123456789abcdef");
    }
    let r = digits.substring_ascii(d, d + 1);
    assert(r@ =~= seq![digit_char(d as nat)]);
    r
}

/// Appends `n` in decimal.
fn push_decimal(out: &mut String, n: usize)
    ensures
        final(out)@ == old(out)@ + decimal_text(n as nat),
    decreases n,
{
    if n >= 10 {
        push_decimal(out, n / 10);
    }
    out.append(digit_str(n % 10));
    assert(final(out)@ =~= old(out)@ + decimal_text(n as nat));
}

/// Appends `n` in hexadecimal, zero-padded to at least `width` digits.
fn push_hex(out: &mut String, n: usize, width: usize)
    ensures
        final(out)@ == old(out)@ + hex_text(n as nat, width as nat),
    decreases n + width,
{
    if n >= 16 || width > 1 {
        push_hex(out, n / 16, if width > 0 { width - 1 } else { 0 });
    }
    out.append(digit_str(n % 16));
    assert(final(out)@ =~= old(out)@ + hex_text(n as nat, width as nat));
}

/// Appends four registers from `first` on, as `register_group_text` shows them.
fn push_register_group(out: &mut String, registers: &Vec<u8>, first: usize)
    requires
        registers@.len() == REGISTER_COUNT,
        first + 4 <= REGISTER_COUNT,
    ensures
        final(out)@ == old(out)@ + register_group_text(registers@, first as int),
{
    push_hex(out, registers[first] as usize, 2);
    out.append(" ");
    push_hex(out, registers[first + 1] as usize, 2);
    out.append(" ");
    push_hex(out, registers[first + 2] as usize, 2);
    out.append(" ");
    push_hex(out, registers[first + 3] as usize, 2);
    assert(final(out)@ =~= old(out)@ + register_group_text(registers@, first as int));
}

/// One display row as text: a light shade for each pixel that is off, a full
/// block for each that is on, and a line break at the end.
pub fn format_line(data: [u8; 64]) -> (r: String)
    ensures
        r@ == line_text(data@),
{
    let mut result = String::new();
    let mut x: usize = 0;
    while x < 64
        invariant
            x <= 64,
            data@.len() == 64,
            result@ == Seq::new(x as nat, |c: int| pixel_char(data@[c])),
        decreases 64 - x,
    {
        if data[x] == 0 {
            proof {
                reveal_strlit("\u{2591}");
            }
            result.append("\u{2591}");
        } else {
            proof {
                reveal_strlit("\u{2588}");
            }
            result.append("\u{2588}");
        }
        assert(result@ =~= Seq::new((x + 1) as nat, |c: int| pixel_char(data@[c])));
        x += 1;
    }
    proof {
        reveal_strlit("\n");
    }
    result.append("\n");
    assert(result@ =~= line_text(data@));
    result
}

impl Chip8 {
    /// The diagnostic dump: program counter and index in decimal and
    /// hexadecimal, then the sixteen registers in rows of four.
    pub fn get_state(&self) -> (r: String)
        requires
            self.wf(),
        ensures
            r@ == state_text(self@.pc as nat, self@.index as nat, self@.registers),
    {
        let pc = self.pc();
        let index = self.index();
        let registers = self.registers_vec();
        let mut out = String::new();
        out.append("memory_position: ");
        push_decimal(&mut out, pc);
        out.append(" (");
        push_hex(&mut out, pc, 2);
        out.append(")\ni: ");
        push_decimal(&mut out, index);
        out.append(" (");
        push_hex(&mut out, index, 3);
        out.append(")\n\nv[0..3]:    ");
        push_register_group(&mut out, &registers, 0);
        out.append("\nv[4..7]:    ");
        push_register_group(&mut out, &registers, 4);
        out.append("\nv[8..11]:   ");
        push_register_group(&mut out, &registers, 8);
        out.append("\nv[12..15]:  ");
        push_register_group(&mut out, &registers, 12);
        assert(out@ =~= state_text(pc as nat, index as nat, registers@));
        out
    }
}

} // verus!
