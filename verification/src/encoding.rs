//! The bit patterns of the instruction set.

use crate::text::{chars_of, spells, string_of};
use vstd::prelude::*;

verus! {

/// The number of addresses: instructions and data are addressed below it.
pub const ADDRESS_SPACE_SIZE: usize = 32768;

/// The digit that stands for a truth value.
pub open spec fn bit(b: bool) -> char {
    if b {
        '1'
    } else {
        '0'
    }
}

/// The three destination bits: whether `A`, `D` and `M` occur in `dest`.
pub open spec fn dest_bits(dest: Seq<char>) -> Seq<char> {
    seq![bit(dest.contains('A')), bit(dest.contains('D')), bit(dest.contains('M'))]
}

/// The seven bits of a computation, for the computations of the instruction
/// set.
pub open spec fn comp_bits(comp: Seq<char>) -> Option<Seq<char>> {
    if comp == "0"@ {
        Some("0101010"@)
    } else if comp == "1"@ {
        Some("0111111"@)
    } else if comp == "-1"@ {
        Some("0111010"@)
    } else if comp == "D"@ {
        Some("0001100"@)
    } else if comp == "A"@ {
        Some("0110000"@)
    } else if comp == "M"@ {
        Some("1110000"@)
    } else if comp == "!D"@ {
        Some("0001101"@)
    } else if comp == "!A"@ {
        Some("0110001"@)
    } else if comp == "!M"@ {
        Some("1110001"@)
    } else if comp == "-D"@ {
        Some("0001111"@)
    } else if comp == "-A"@ {
        Some("0110011"@)
    } else if comp == "-M"@ {
        Some("1110011"@)
    } else if comp == "D+1"@ {
        Some("0011111"@)
    } else if comp == "A+1"@ {
        Some("0110111"@)
    } else if comp == "M+1"@ {
        Some("1110111"@)
    } else if comp == "D-1"@ {
        Some("0001110"@)
    } else if comp == "A-1"@ {
        Some("0110010"@)
    } else if comp == "M-1"@ {
        Some("1110010"@)
    } else if comp == "D+A"@ {
        Some("0000010"@)
    } else if comp == "D+M"@ {
        Some("1000010"@)
    } else if comp == "D-A"@ {
        Some("0010011"@)
    } else if comp == "D-M"@ {
        Some("1010011"@)
    } else if comp == "A-D"@ {
        Some("0000111"@)
    } else if comp == "M-D"@ {
        Some("1000111"@)
    } else if comp == "D&A"@ {
        Some("0000000"@)
    } else if comp == "D&M"@ {
        Some("1000000"@)
    } else if comp == "D|A"@ {
        Some("0010101"@)
    } else if comp == "D|M"@ {
        Some("1010101"@)
    } else {
        None
    }
}

/// The three bits of a jump, for the empty text and the seven mnemonics.
pub open spec fn jump_bits(jump: Seq<char>) -> Option<Seq<char>> {
    if jump == ""@ {
        Some("000"@)
    } else if jump == "JGT"@ {
        Some("001"@)
    } else if jump == "JEQ"@ {
        Some("010"@)
    } else if jump == "JGE"@ {
        Some("011"@)
    } else if jump == "JLT"@ {
        Some("100"@)
    } else if jump == "JNE"@ {
        Some("101"@)
    } else if jump == "JLE"@ {
        Some("110"@)
    } else if jump == "JMP"@ {
        Some("111"@)
    } else {
        None
    }
}

/// Whether `c` is a decimal digit.
pub open spec fn is_digit(c: char) -> bool {
    '0' <= c <= '9'
}

/// Whether `text` is a decimal literal: one digit or more, and nothing else.
pub open spec fn is_constant(text: Seq<char>) -> bool {
    text.len() > 0 && forall|i: int| 0 <= i < text.len() ==> is_digit(#[trigger] text[i])
}

/// The number that the digits of `text` write in base ten.
pub open spec fn decimal_value(text: Seq<char>) -> nat
    decreases text.len(),
{
    if text.len() == 0 {
        0
    } else {
        (decimal_value(text.drop_last()) * 10 + (text.last() as nat - '0' as nat)) as nat
    }
}

/// The value of the constant of an A-instruction: that of a decimal literal
/// below the size of the address space, and of no other text.
pub open spec fn constant_value(text: Seq<char>) -> Option<nat> {
    if is_constant(text) && decimal_value(text) < ADDRESS_SPACE_SIZE {
        Some(decimal_value(text))
    } else {
        None
    }
}

/// The `width` lowest binary digits of `value`, the highest of them first.
pub open spec fn binary_digits(value: nat, width: nat) -> Seq<char>
    decreases width,
{
    if width == 0 {
        Seq::empty()
    } else {
        binary_digits(value / 2, (width - 1) as nat).push(bit(value % 2 == 1))
    }
}

/// A number is at least the number that any prefix of its digits writes.
proof fn lemma_decimal_value_grows(text: Seq<char>, n: int)
    requires
        0 <= n <= text.len(),
        forall|i: int| 0 <= i < text.len() ==> is_digit(#[trigger] text[i]),
    ensures
        decimal_value(text.take(n)) <= decimal_value(text),
    decreases text.len(),
{
    if n == text.len() {
        assert(text.take(n) == text);
    } else {
        lemma_decimal_value_grows(text.drop_last(), n);
        assert(text.drop_last().take(n) == text.take(n));
    }
}

/// The value of the constant `text`, or `None` where it is not a decimal
/// literal below 32768.
pub fn parse_constant(text: &str) -> (value: Option<u16>)
    ensures
        match value {
            Some(v) => constant_value(text@) == Some(v as nat),
            None => constant_value(text@) is None,
        },
{
    let chars = chars_of(text);
    if chars.len() == 0 {
        return None;
    }
    let mut value: u16 = 0;
    let mut i: usize = 0;
    while i < chars.len()
        invariant
            i <= chars.len(),
            chars@ == text@,
            forall|k: int| 0 <= k < i ==> is_digit(#[trigger] chars@[k]),
            value == decimal_value(chars@.take(i as int)),
            value < ADDRESS_SPACE_SIZE,
        decreases chars.len() - i,
    {
        let c = chars[i];
        if c < '0' || c > '9' {
            return None;
        }
        let digit: u16 = (c as u32 - '0' as u32) as u16;
        let next: u32 = value as u32 * 10 + digit as u32;
        proof {
            assert(chars@.take(i + 1).drop_last() == chars@.take(i as int));
        }
        if next >= ADDRESS_SPACE_SIZE as u32 {
            proof {
                if is_constant(text@) {
                    lemma_decimal_value_grows(text@, i + 1);
                }
            }
            return None;
        }
        value = next as u16;
        i += 1;
    }
    assert(chars@.take(i as int) == chars@);
    Some(value)
}

/// The sixteen binary digits of `word`, the highest first.
pub fn binary_line(word: u16) -> (line: String)
    ensures
        line@ == binary_digits(word as nat, 16),
{
    let mut digits: Vec<char> = Vec::new();
    let mut k: usize = 0;
    while k < 16
        invariant
            k <= 16,
            digits.len() == k,
        decreases 16 - k,
    {
        digits.push('0');
        k += 1;
    }
    let mut rest: u16 = word;
    let mut i: usize = 16;
    while i > 0
        invariant
            i <= 16,
            digits.len() == 16,
            binary_digits(word as nat, 16) == binary_digits(rest as nat, i as nat)
                + digits@.skip(i as int),
        decreases i,
    {
        let digit = if rest % 2 == 1 {
            '1'
        } else {
            '0'
        };
        proof {
            let low = digits@.skip(i as int);
            let shorter = binary_digits(rest as nat / 2, (i - 1) as nat);
            assert(digits@.update(i - 1, digit).skip(i - 1) == seq![digit] + low);
            assert(shorter.push(digit) + low == shorter + (seq![digit] + low));
        }
        digits.set(i - 1, digit);
        rest = rest / 2;
        i -= 1;
    }
    string_of(&digits, 0, 16)
}

/// What an optional text holds, as a mathematical value.
pub open spec fn text_view(text: Option<&str>) -> Option<Seq<char>> {
    match text {
        Some(t) => Some(t@),
        None => None,
    }
}

/// The destination bits of `dest`, as text.
pub fn encode_dest(dest: &str) -> (bits: String)
    ensures
        bits@ == dest_bits(dest@),
{
    let chars = chars_of(dest);
    let mut a = false;
    let mut d = false;
    let mut m = false;
    let mut i: usize = 0;
    while i < chars.len()
        invariant
            i <= chars.len(),
            a == chars@.take(i as int).contains('A'),
            d == chars@.take(i as int).contains('D'),
            m == chars@.take(i as int).contains('M'),
        decreases chars.len() - i,
    {
        let c = chars[i];
        proof {
            let before = chars@.take(i as int);
            let after = chars@.take(i + 1);
            assert forall|x: char| after.contains(x) == (before.contains(x) || x == c) by {
                if before.contains(x) {
                    let k = choose|k: int| 0 <= k < before.len() && before[k] == x;
                    assert(after[k] == x);
                }
                if x == c {
                    assert(after[i as int] == x);
                }
            }
        }
        a = a || c == 'A';
        d = d || c == 'D';
        m = m || c == 'M';
        i += 1;
    }
    assert(chars@.take(i as int) == chars@);
    let mut bits = String::new();
    bits.push(if a { '1' } else { '0' });
    bits.push(if d { '1' } else { '0' });
    bits.push(if m { '1' } else { '0' });
    bits
}

/// The bits of the computation `comp`, or `None` where the instruction set
/// has no such computation.
pub fn encode_comp(comp: &str) -> (bits: Option<&'static str>)
    ensures
        text_view(bits) == comp_bits(comp@),
{
    let c = chars_of(comp);
    let n: usize = c.len();
    assert(c@.subrange(0, n as int) == comp@);
    if spells(&c, 0, n, "0") {
        Some("0101010")
    } else if spells(&c, 0, n, "1") {
        Some("0111111")
    } else if spells(&c, 0, n, "-1") {
        Some("0111010")
    } else if spells(&c, 0, n, "D") {
        Some("0001100")
    } else if spells(&c, 0, n, "A") {
        Some("0110000")
    } else if spells(&c, 0, n, "M") {
        Some("1110000")
    } else if spells(&c, 0, n, "!D") {
        Some("0001101")
    } else if spells(&c, 0, n, "!A") {
        Some("0110001")
    } else if spells(&c, 0, n, "!M") {
        Some("1110001")
    } else if spells(&c, 0, n, "-D") {
        Some("0001111")
    } else if spells(&c, 0, n, "-A") {
        Some("0110011")
    } else if spells(&c, 0, n, "-M") {
        Some("1110011")
    } else if spells(&c, 0, n, "D+1") {
        Some("0011111")
    } else if spells(&c, 0, n, "A+1") {
        Some("0110111")
    } else if spells(&c, 0, n, "M+1") {
        Some("1110111")
    } else if spells(&c, 0, n, "D-1") {
        Some("0001110")
    } else if spells(&c, 0, n, "A-1") {
        Some("0110010")
    } else if spells(&c, 0, n, "M-1") {
        Some("1110010")
    } else if spells(&c, 0, n, "D+A") {
        Some("0000010")
    } else if spells(&c, 0, n, "D+M") {
        Some("1000010")
    } else if spells(&c, 0, n, "D-A") {
        Some("0010011")
    } else if spells(&c, 0, n, "D-M") {
        Some("1010011")
    } else if spells(&c, 0, n, "A-D") {
        Some("0000111")
    } else if spells(&c, 0, n, "M-D") {
        Some("1000111")
    } else if spells(&c, 0, n, "D&A") {
        Some("0000000")
    } else if spells(&c, 0, n, "D&M") {
        Some("1000000")
    } else if spells(&c, 0, n, "D|A") {
        Some("0010101")
    } else if spells(&c, 0, n, "D|M") {
        Some("1010101")
    } else {
        None
    }
}

/// The bits of the jump `jump`, or `None` where it is neither empty nor one
/// of the seven mnemonics.
pub fn encode_jump(jump: &str) -> (bits: Option<&'static str>)
    ensures
        text_view(bits) == jump_bits(jump@),
{
    let c = chars_of(jump);
    let n: usize = c.len();
    assert(c@.subrange(0, n as int) == jump@);
    if spells(&c, 0, n, "") {
        Some("000")
    } else if spells(&c, 0, n, "JGT") {
        Some("001")
    } else if spells(&c, 0, n, "JEQ") {
        Some("010")
    } else if spells(&c, 0, n, "JGE") {
        Some("011")
    } else if spells(&c, 0, n, "JLT") {
        Some("100")
    } else if spells(&c, 0, n, "JNE") {
        Some("101")
    } else if spells(&c, 0, n, "JLE") {
        Some("110")
    } else if spells(&c, 0, n, "JMP") {
        Some("111")
    } else {
        None
    }
}

} // verus!
