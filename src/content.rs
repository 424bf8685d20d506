//! The content of a generated file: the pattern `0123456789` repeated and
//! cut to the requested size.
use vstd::prelude::*;

verus! {

/// The ASCII code of the digit `0`.
pub const ASCII_ZERO: u8 = 48;

/// The byte at position `i` of any generated file: the digit `i mod 10`
/// in ASCII, so that the bytes run `0123456789` and start over.
pub open spec fn pattern_byte(i: int) -> u8 {
    (ASCII_ZERO + i % 10) as u8
}

/// The whole content of a generated file of `size` bytes.
pub open spec fn pattern_bytes(size: nat) -> Seq<u8> {
    Seq::new(size, |i: int| pattern_byte(i))
}

/// Builds the content of one file: exactly `size` bytes, byte `i` being
/// the ASCII digit `i mod 10`.
pub fn pattern_content(size: usize) -> (r: Vec<u8>)
    ensures
        r@ == pattern_bytes(size as nat),
        r@.len() == size,
        forall|i: int| 0 <= i < size ==> r@[i] == pattern_byte(i),
{
    let mut buffer: Vec<u8> = Vec::with_capacity(size);
    let mut i: usize = 0;
    while i < size
        invariant
            i <= size,
            buffer@ == pattern_bytes(i as nat),
        decreases size - i,
    {
        let digit: u8 = (i % 10) as u8;
        buffer.push(ASCII_ZERO + digit);
        i = i + 1;
        assert(buffer@ =~= pattern_bytes(i as nat));
    }
    buffer
}

} // verus!
