//! Small helpers for decoding text and for line breaks.

use vstd::prelude::*;
use vstd::string::StringSliceAdditionalSpecFns;
use vstd::utf8::{
    decode_first_scalar, encode_utf8_valid_utf8, is_char_boundary, length_of_first_scalar,
    valid_first_scalar, valid_utf8, valid_utf8_split,
};

verus! {

/// The payload bits of a UTF-8 continuation byte.
pub const CONT_MASK: u8 = 0b0011_1111;

/// No line break.
pub const LINEBREAK_NONE: u8 = 0;

/// A position at which a line may be broken.
pub const LINEBREAK_SOFT: u8 = 1;

/// A position at which a line must be broken.
pub const LINEBREAK_HARD: u8 = 2;

/// Appends the six payload bits of a continuation byte to the bits decoded so
/// far.
pub fn utf8_acc_cont_byte(ch: u32, byte: u8) -> (acc: u32)
    ensures
        acc == (ch << 6) | ((byte & CONT_MASK) as u32),
{
    (ch << 6) | ((byte & CONT_MASK) as u32)
}

/// Whether a number is a Unicode scalar value: a code point that is no
/// surrogate.
pub open spec fn is_scalar_value(v: u32) -> bool {
    v <= 0xD7FF || 0xE000 <= v <= 0x10FFFF
}

/// Calls `char::from_u32` of the standard library, which gives the character
/// with the given scalar value, and `None` for a number that is no scalar
/// value.
#[verifier::external_body]
fn char_from_scalar(v: u32) -> (c: Option<char>)
    ensures
        is_scalar_value(v) ==> c == Some(v as char),
        !is_scalar_value(v) ==> c is None,
{
    char::from_u32(v)
}

/// The bytes of a string from a byte position on.
pub open spec fn bytes_from(string: &str, offset: int) -> Seq<u8> {
    string.spec_bytes().subrange(offset, string.spec_bytes().len() as int)
}

/// A byte below 128 is its own scalar value.
proof fn lemma_width_1_bits(x: u8)
    by (bit_vector)
    requires
        x < 128,
    ensures
        (x & 0x7F) as u32 == x as u32,
{
}

/// Two bytes: five bits of the leading byte, then six of the continuation.
proof fn lemma_width_2_bits(x: u8, y: u8)
    by (bit_vector)
    requires
        0xC0 <= x <= 0xDF,
    ensures
        (((x & (0x7Fu8 >> 2)) as u32) << 6) | ((y & 0x3F) as u32) == (((x & 0x1F) as u32) << 6) | ((y
            & 0x3F) as u32),
        ((((x & 0x1F) as u32) << 6) | ((y & 0x3F) as u32)) <= 0x7FF,
{
}

/// Three bytes: four bits of the leading byte, then six of each continuation.
proof fn lemma_width_3_bits(x: u8, y: u8, z: u8)
    by (bit_vector)
    requires
        0xE0 <= x <= 0xEF,
    ensures
        (((x & (0x7Fu8 >> 2)) as u32) << 12) | ((((y & 0x3F) as u32) << 6) | ((z & 0x3F) as u32))
            == (((x & 0x0F) as u32) << 12) | (((y & 0x3F) as u32) << 6) | ((z & 0x3F) as u32),
        ((((x & 0x0F) as u32) << 12) | (((y & 0x3F) as u32) << 6) | ((z & 0x3F) as u32)) <= 0xFFFF,
{
}

/// Four bytes: three bits of the leading byte, then six of each continuation.
proof fn lemma_width_4_bits(x: u8, y: u8, z: u8, w: u8)
    by (bit_vector)
    requires
        0xF0 <= x <= 0xF7,
    ensures
        ((((x & (0x7Fu8 >> 2)) as u32) & 7) << 18) | ((((((y & 0x3F) as u32) << 6) | ((z
            & 0x3F) as u32)) << 6) | ((w & 0x3F) as u32)) == (((x & 0x07) as u32) << 18) | (((y
            & 0x3F) as u32) << 12) | (((z & 0x3F) as u32) << 6) | ((w & 0x3F) as u32),
{
}

/// Reads the character whose encoding starts at `byte_offset`, and moves the
/// offset to the character after it. Cannot be run at the end of the string.
pub fn read_utf8(string: &str, byte_offset: &mut usize) -> (ch: char)
    requires
        *old(byte_offset) < string.spec_bytes().len(),
        is_char_boundary(string.spec_bytes(), *old(byte_offset) as int),
    ensures
        ch as u32 == decode_first_scalar(bytes_from(string, *old(byte_offset) as int)),
        *final(byte_offset) == *old(byte_offset) + length_of_first_scalar(
            bytes_from(string, *old(byte_offset) as int),
        ),
        *final(byte_offset) <= string.spec_bytes().len(),
{
    let bytes = string.as_bytes();
    let ghost start = *byte_offset as int;
    let ghost rest = bytes_from(string, start);
    proof {
        encode_utf8_valid_utf8(string@);
        valid_utf8_split(string.spec_bytes(), start);
        assert(valid_utf8(rest));
        assert(valid_first_scalar(rest));
        assert(forall|i: int| 0 <= i < rest.len() ==> rest[i] == bytes@[start + i]);
    }
    let x = bytes[*byte_offset];
    *byte_offset += 1;
    if x < 128 {
        proof {
            lemma_width_1_bits(x);
        }
        return scalar_char(x as u32);
    }
    let init = (x & (0x7F >> 2)) as u32;
    let y = bytes[*byte_offset];
    *byte_offset += 1;
    let mut ch = utf8_acc_cont_byte(init, y);
    if x >= 0xE0 {
        let z = bytes[*byte_offset];
        *byte_offset += 1;
        let y_z = utf8_acc_cont_byte((y & CONT_MASK) as u32, z);
        ch = init << 12 | y_z;
        if x >= 0xF0 {
            let w = bytes[*byte_offset];
            *byte_offset += 1;
            ch = (init & 7) << 18 | utf8_acc_cont_byte(y_z, w);
            proof {
                lemma_width_4_bits(x, y, z, w);
            }
        } else {
            proof {
                lemma_width_3_bits(x, y, z);
            }
        }
    } else {
        proof {
            lemma_width_2_bits(x, y);
        }
    }
    scalar_char(ch)
}

/// The character of a scalar value.
fn scalar_char(v: u32) -> (c: char)
    requires
        is_scalar_value(v),
    ensures
        c as u32 == v,
{
    match char_from_scalar(v) {
        Some(c) => {
            proof {
                vstd::utf8::char_is_scalar(c);
            }
            c
        },
        // A scalar value always has its character.
        None => '\u{FFFD}',
    }
}

/// The kinds of line break that a layout honors.
pub open spec fn spec_wrap_mask(wrap: bool, wrap_soft_breaks: bool, wrap_hard_breaks: bool) -> u8 {
    if !wrap {
        0
    } else if wrap_hard_breaks && wrap_soft_breaks {
        3
    } else if wrap_hard_breaks {
        2
    } else if wrap_soft_breaks {
        1
    } else {
        0
    }
}

/// The set of line break kinds that a layout honors, as the union of
/// `LINEBREAK_HARD` and `LINEBREAK_SOFT` bits; empty when wrapping is off.
pub fn wrap_mask(wrap: bool, wrap_soft_breaks: bool, wrap_hard_breaks: bool) -> (mask: u8)
    ensures
        mask == spec_wrap_mask(wrap, wrap_soft_breaks, wrap_hard_breaks),
        mask & LINEBREAK_HARD != 0 <==> wrap && wrap_hard_breaks,
        mask & LINEBREAK_SOFT != 0 <==> wrap && wrap_soft_breaks,
{
    let mut mask: u8 = 0;
    if wrap {
        if wrap_hard_breaks {
            mask = mask | LINEBREAK_HARD;
        }
        if wrap_soft_breaks {
            mask = mask | LINEBREAK_SOFT;
        }
    }
    assert(0u8 | 2u8 == 2u8 && 0u8 | 1u8 == 1u8 && 2u8 | 1u8 == 3u8) by (bit_vector);
    assert(0u8 & 2u8 == 0u8 && 1u8 & 2u8 == 0u8 && 2u8 & 2u8 == 2u8 && 3u8 & 2u8 == 2u8)
        by (bit_vector);
    assert(0u8 & 1u8 == 0u8 && 1u8 & 1u8 == 1u8 && 2u8 & 1u8 == 0u8 && 3u8 & 1u8 == 1u8)
        by (bit_vector);
    mask
}

/// The tables that drive the line break state machine: the line break class
/// of every code point, held as tries by the length of its UTF-8 encoding,
/// and the transitions of the machine, one row of `categories` entries per
/// state.
pub struct LinebreakTables {
    /// The number of line break classes.
    pub categories: usize,
    /// The class of each code point below `0x800`.
    pub low: Vec<u8>,
    /// For code points below `0x10000`: the block of `child3` for each run of
    /// 64 code points.
    pub root3: Vec<u8>,
    /// Blocks of 64 classes.
    pub child3: Vec<u8>,
    /// For the other code points: the block of `mid4` for each run of 4096
    /// code points.
    pub root4: Vec<u8>,
    /// Blocks of 64 entries, each the block of `leaves4` for a run of 64
    /// code points.
    pub mid4: Vec<u8>,
    /// Blocks of 64 classes.
    pub leaves4: Vec<u8>,
    /// The transitions: for each state and class, the next state in the low
    /// bits and the break before the code point in the two high bits.
    pub state_machine: Vec<u8>,
}

/// The state that a transition leads to.
pub open spec fn spec_next_state(transition: u8) -> u8 {
    if transition >= 0x80 {
        transition & 0x3f
    } else {
        transition
    }
}

/// The break that a transition reports.
pub open spec fn spec_break(transition: u8) -> u8 {
    if transition >= 0xc0 {
        LINEBREAK_HARD
    } else if transition >= 0x80 {
        LINEBREAK_SOFT
    } else {
        LINEBREAK_NONE
    }
}

/// Whether each of the first `n` entries is below `bound`.
pub open spec fn entries_below(entries: Seq<u8>, n: int, bound: int) -> bool {
    forall|i: int| 0 <= i < n ==> #[trigger] entries[i] < bound
}

/// Whether each of the first `n` entries names a block of 64 entries that
/// lies inside a table of length `len`.
pub open spec fn blocks_inside(entries: Seq<u8>, n: int, len: int) -> bool {
    forall|i: int| 0 <= i < n ==> (#[trigger] entries[i]) * 0x40 + 0x40 <= len
}

/// Whether each of the first `n` entries is below `bound`.
fn all_below(entries: &Vec<u8>, n: usize, bound: usize) -> (b: bool)
    requires
        n <= entries@.len(),
    ensures
        b == entries_below(entries@, n as int, bound as int),
{
    let mut i: usize = 0;
    while i < n
        invariant
            i <= n <= entries@.len(),
            entries_below(entries@, i as int, bound as int),
        decreases n - i,
    {
        if entries[i] as usize >= bound {
            return false;
        }
        i = i + 1;
    }
    true
}

/// Whether each of the first `n` entries names a block inside a table of
/// length `len`.
fn all_inside(entries: &Vec<u8>, n: usize, len: usize) -> (b: bool)
    requires
        n <= entries@.len(),
    ensures
        b == blocks_inside(entries@, n as int, len as int),
{
    let mut i: usize = 0;
    while i < n
        invariant
            i <= n <= entries@.len(),
            blocks_inside(entries@, i as int, len as int),
        decreases n - i,
    {
        if (entries[i] as usize) * 0x40 + 0x40 > len {
            return false;
        }
        i = i + 1;
    }
    true
}

impl LinebreakTables {
    /// Whether the machine has a row of transitions for the state.
    pub open spec fn valid_state(&self, state: u8) -> bool {
        (state + 1) * self.categories <= self.state_machine@.len()
    }

    /// Every lookup stays inside the tables, every class is below
    /// `categories`, and every transition leads to a state of the machine.
    pub open spec fn wf(&self) -> bool {
        &&& self.low@.len() >= 0x800
        &&& self.root3@.len() >= 0x400
        &&& self.root4@.len() >= 0x110
        &&& entries_below(self.low@, 0x800, self.categories as int)
        &&& blocks_inside(self.root3@, 0x400, self.child3@.len() as int)
        &&& entries_below(self.child3@, self.child3@.len() as int, self.categories as int)
        &&& blocks_inside(self.root4@, 0x110, self.mid4@.len() as int)
        &&& blocks_inside(self.mid4@, self.mid4@.len() as int, self.leaves4@.len() as int)
        &&& entries_below(self.leaves4@, self.leaves4@.len() as int, self.categories as int)
        &&& self.transitions_valid(self.state_machine@.len() as int)
    }

    /// Each of the first `n` transitions leads to a state of the machine.
    pub open spec fn transitions_valid(&self, n: int) -> bool {
        forall|i: int|
            0 <= i < n ==> self.valid_state(spec_next_state(#[trigger] self.state_machine@[i]))
    }

    /// Whether the machine has a row of transitions for the state.
    pub fn has_state(&self, state: u8) -> (b: bool)
        ensures
            b == self.valid_state(state),
    {
        assert(self.state_machine@.len() == self.state_machine.len() <= usize::MAX);
        match (state as usize + 1).checked_mul(self.categories) {
            Some(n) => n <= self.state_machine.len(),
            None => false,
        }
    }

    /// Checks the tables: whether every lookup stays inside them, every
    /// class is below `categories`, and every transition leads to a state of
    /// the machine.
    pub fn is_valid(&self) -> (b: bool)
        ensures
            b == self.wf(),
    {
        if self.low.len() < 0x800 || self.root3.len() < 0x400 || self.root4.len() < 0x110 {
            return false;
        }
        if !(all_below(&self.low, 0x800, self.categories) && all_inside(
            &self.root3,
            0x400,
            self.child3.len(),
        ) && all_below(&self.child3, self.child3.len(), self.categories) && all_inside(
            &self.root4,
            0x110,
            self.mid4.len(),
        ) && all_inside(&self.mid4, self.mid4.len(), self.leaves4.len()) && all_below(
            &self.leaves4,
            self.leaves4.len(),
            self.categories,
        )) {
            return false;
        }
        let mut i: usize = 0;
        while i < self.state_machine.len()
            invariant
                i <= self.state_machine@.len(),
                self.transitions_valid(i as int),
            decreases self.state_machine@.len() - i,
        {
            let transition = self.state_machine[i];
            let next = if transition >= 0x80 {
                transition & 0x3f
            } else {
                transition
            };
            if !self.has_state(next) {
                return false;
            }
            i = i + 1;
        }
        true
    }

    /// The line break class of a code point.
    pub open spec fn spec_class(&self, cp: int) -> u8 {
        if cp < 0x800 {
            self.low@[cp]
        } else if cp < 0x10000 {
            let child = self.root3@[cp / 0x40];
            self.child3@[child * 0x40 + cp % 0x40]
        } else {
            let mid = self.root4@[cp / 0x1000];
            let leaf = self.mid4@[mid * 0x40 + (cp / 0x40) % 0x40];
            self.leaves4@[leaf * 0x40 + cp % 0x40]
        }
    }

    /// The transition that the machine takes from a state on a code point.
    pub open spec fn spec_transition(&self, state: u8, cp: int) -> u8 {
        self.state_machine@[state * self.categories + self.spec_class(cp)]
    }

    /// The line break class of a code point.
    pub fn class(&self, codepoint: char) -> (lb: u8)
        requires
            self.wf(),
        ensures
            lb == self.spec_class(codepoint as u32 as int),
            lb < self.categories,
    {
        let code: u32 = codepoint as u32;
        let cp: usize = code as usize;
        if cp < 0x800 {
            self.low[cp]
        } else if cp < 0x10000 {
            let child = self.root3[cp / 0x40];
            self.child3[(child as usize) * 0x40 + cp % 0x40]
        } else {
            let mid = self.root4[cp / 0x1000];
            let leaf = self.mid4[(mid as usize) * 0x40 + (cp / 0x40) % 0x40];
            self.leaves4[(leaf as usize) * 0x40 + cp % 0x40]
        }
    }
}

/// Feeds one code point to the line break state machine. The result says
/// whether a line may or must be broken before the code point, and the state
/// moves on.
pub fn linebreak_property(state: &mut u8, codepoint: char, tables: &LinebreakTables) -> (lb: u8)
    requires
        tables.wf(),
        tables.valid_state(*old(state)),
    ensures
        lb == spec_break(tables.spec_transition(*old(state), codepoint as u32 as int)),
        *final(state) == spec_next_state(
            tables.spec_transition(*old(state), codepoint as u32 as int),
        ),
        tables.valid_state(*final(state)),
{
    let lb = tables.class(codepoint);
    let row: usize = *state as usize;
    assert(row * tables.categories + lb < (row + 1) * tables.categories) by (nonlinear_arith)
        requires
            lb < tables.categories,
    ;
    assert(0 <= row * tables.categories) by (nonlinear_arith);
    assert(tables.state_machine@.len() == tables.state_machine.len() <= usize::MAX);
    let i = row * tables.categories + (lb as usize);
    let new = tables.state_machine[i];
    if new >= 0x80 {
        *state = new & 0x3f;
        if new >= 0xc0 {
            LINEBREAK_HARD
        } else {
            LINEBREAK_SOFT
        }
    } else {
        *state = new;
        LINEBREAK_NONE
    }
}

} // verus!
