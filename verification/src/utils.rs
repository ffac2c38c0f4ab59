//! The conversion direction, the byte order, and the newline byte patterns.

use vstd::prelude::*;

verus! {

/// The raw byte value of a line feed.
pub const LF: u8 = 0xA;

/// The raw byte value of a carriage return.
pub const CR: u8 = 0xD;

/// Defines conversion operation
#[derive(Copy, Clone, Debug, PartialEq, Eq, Structural)]
pub enum Conversion {
    /// Replaces `\r\n` with `\n`
    Dos2unix,
    /// Replaces `\n` with `\r\n`
    Unix2dos,
}

/// Represents the byte ordering in processed data.
#[derive(Copy, Clone, Debug, PartialEq, Eq, Structural)]
pub enum ByteOrder {
    BigEndian,
    LittleEndian,
}

/// The `char_size` bytes that encode the single-byte value `c` as one code
/// unit: `c` sits in the first byte for big-endian data and in the last byte
/// for little-endian data, with every other byte zero.
pub open spec fn char_pattern(c: u8, char_size: nat, order: ByteOrder) -> Seq<u8> {
    match order {
        ByteOrder::BigEndian => Seq::new(char_size, |i: int| if i == 0 { c } else { 0u8 }),
        ByteOrder::LittleEndian => Seq::new(
            char_size,
            |i: int| if i == char_size - 1 { c } else { 0u8 },
        ),
    }
}

/// Builds the byte pattern of one code unit holding the value `c`, at the
/// given width and byte order.  A width of zero is an invalid configuration;
/// the result then still holds the single byte `c`.
pub fn build_char(c: u8, char_size: usize, order: &ByteOrder) -> (buff: Vec<u8>)
    ensures
        char_size >= 1 ==> buff@ == char_pattern(c, char_size as nat, *order),
        char_size == 0 ==> buff@ == seq![c],
{
    let mut buff: Vec<u8> = Vec::with_capacity(char_size);

    match order {
        ByteOrder::BigEndian => {
            buff.push(c);
            let mut i: usize = 1;
            while i < char_size
                invariant
                    1 <= i,
                    char_size >= 1 ==> i <= char_size,
                    char_size == 0 ==> i == 1,
                    buff@.len() == i,
                    buff@[0] == c,
                    forall|j: int| 1 <= j < i ==> buff@[j] == 0u8,
                decreases char_size - i,
            {
                buff.push(0x0);
                i = i + 1;
            }
        },
        ByteOrder::LittleEndian => {
            let mut i: usize = 1;
            while i < char_size
                invariant
                    1 <= i,
                    char_size >= 1 ==> i <= char_size,
                    char_size == 0 ==> i == 1,
                    buff@.len() == i - 1,
                    forall|j: int| 0 <= j < i - 1 ==> buff@[j] == 0u8,
                decreases char_size - i,
            {
                buff.push(0x0);
                i = i + 1;
            }
            buff.push(c);
        },
    }

    proof {
        if char_size >= 1 {
            assert(buff@ =~= char_pattern(c, char_size as nat, *order));
        } else {
            assert(buff@ =~= seq![c]);
        }
    }
    buff
}

} // verus!
