use vstd::prelude::*;

verus! {

/// A 6-byte hardware address of a sensor tag.
///
/// `bytes[0]` is the least significant byte: the canonical text form lists
/// the bytes from `bytes[5]` down to `bytes[0]`.
#[derive(Clone, Copy, Debug, PartialEq, Eq, Hash)]
pub struct DeviceAddress {
    pub bytes: [u8; 6],
}

/// The upper-case hexadecimal digit for `d` (0 to 15).
pub open spec fn hex_digit(d: u8) -> char {
    if d < 10 {
        (('0' as u8) + d) as char
    } else {
        (('A' as u8) + (d - 10)) as char
    }
}

/// Two upper-case hexadecimal digits for one byte.
pub open spec fn hex_byte(b: u8) -> Seq<char> {
    seq![hex_digit(b / 16), hex_digit(b % 16)]
}

/// The canonical text form of an address: six two-digit hexadecimal groups,
/// most significant byte first, separated by colons.
pub open spec fn label_text(b: Seq<u8>) -> Seq<char> {
    hex_byte(b[5]) + seq![':'] + hex_byte(b[4]) + seq![':'] + hex_byte(b[3]) + seq![':']
        + hex_byte(b[2]) + seq![':'] + hex_byte(b[1]) + seq![':'] + hex_byte(b[0])
}

/// Relies on the `Display` impl of btleplug's `BDAddr`, which writes the six
/// bytes as `{:02X}` groups joined by colons, from `address[5]` to `address[0]`.
#[verifier::external_body]
fn format_bd_addr(bytes: [u8; 6]) -> (r: String)
    ensures
        r@ == label_text(bytes@),
{
    format!("{}", btleplug::api::BDAddr { address: bytes })
}

impl DeviceAddress {
    pub fn new(bytes: [u8; 6]) -> (r: Self)
        ensures
            r.bytes == bytes,
    {
        DeviceAddress { bytes }
    }

    /// The address as a metric label value, e.g. `"F0:E1:D2:C3:B4:A5"`.
    pub fn label(&self) -> (r: String)
        ensures
            r@ == label_text(self.bytes@),
    {
        format_bd_addr(self.bytes)
    }

    /// Byte-wise equality.
    pub fn same_as(&self, other: &DeviceAddress) -> (r: bool)
        ensures
            r == (*self == *other),
    {
        let mut i: usize = 0;
        while i < 6
            invariant
                i <= 6,
                forall|j: int| 0 <= j < i ==> self.bytes[j] == other.bytes[j],
            decreases 6 - i,
        {
            if self.bytes[i] != other.bytes[i] {
                return false;
            }
            i = i + 1;
        }
        assert(self.bytes =~= other.bytes);
        true
    }
}

} // verus!
