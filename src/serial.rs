//! The serial number of a device, written from the unique id of its chip.

use vstd::prelude::*;

verus! {

/// The lowercase hexadecimal digit of a value below 16.
pub open spec fn hex_digit(n: u8) -> char {
    seq!['0', '1', '2', '3', '4', '5', '6', '7', '8', '9', 'a', 'b', 'c', 'd', 'e', 'f'][n as int]
}

/// Two lowercase hexadecimal digits for each byte, high digit first.
pub open spec fn hex_of(b: Seq<u8>) -> Seq<char>
    decreases b.len(),
{
    if b.len() == 0 {
        Seq::empty()
    } else {
        hex_of(b.drop_last()) + seq![hex_digit(b.last() / 16), hex_digit(b.last() % 16)]
    }
}

/// Relies on faster_hex::hex_string: each byte becomes two lowercase hex digits, in order,
/// with no prefix or separator.
#[verifier::external_body]
fn hex_lower(bytes: &[u8]) -> (r: String)
    ensures
        r@ == hex_of(bytes@),
{
    faster_hex::hex_string(bytes)
}

/// The eight bytes of `id`, least significant first.
pub open spec fn le_bytes(id: u64) -> Seq<u8> {
    Seq::new(8, |i: int| (id >> (8 * i) as u64) as u8)
}

/// The serial number of a device whose chip id is `chip_id`: the chip id's bytes, least
/// significant first, as sixteen lowercase hexadecimal digits.
pub fn serial_number(chip_id: u64) -> (r: String)
    ensures
        r@ == hex_of(le_bytes(chip_id)),
{
    let mut bytes: Vec<u8> = Vec::new();
    let mut i: u64 = 0;
    while i < 8
        invariant
            i <= 8,
            bytes@ == le_bytes(chip_id).take(i as int),
        decreases 8 - i,
    {
        bytes.push((chip_id >> (8 * i)) as u8);
        assert(bytes@ =~= le_bytes(chip_id).take(i + 1));
        i = i + 1;
    }
    assert(bytes@ =~= le_bytes(chip_id));
    hex_lower(bytes.as_slice())
}

} // verus!
