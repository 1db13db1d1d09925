//! Deciding which serial devices are port-hardware boards: the USB
//! identity filter and the TCP identity line.

use vstd::prelude::*;
use crate::text::{chars_to_string, str_chars};

verus! {

/// Whether a USB device's identity marks it as a port-hardware board:
/// one of the two known vendor/product pairs, the right manufacturer and
/// product strings, and a serial number present.
pub open spec fn spec_usb_accepts(
    vid: u16,
    pid: u16,
    manufacturer: Seq<char>,
    product: Seq<char>,
    has_serial: bool,
) -> bool {
    &&& ((vid == 0x16c0 && pid == 0x27dd) || (vid == 0x05a6 && pid == 0x0009))
    &&& manufacturer == "Cthulhu"@
    &&& product == "Octhulhu"@
    &&& has_serial
}

/// Applies the USB identity filter.
pub fn usb_accepts(
    vid: u16,
    pid: u16,
    manufacturer: &str,
    product: &str,
    has_serial: bool,
) -> (r: bool)
    ensures
        r == spec_usb_accepts(vid, pid, manufacturer@, product@, has_serial),
{
    let pair_ok = (vid == 0x16c0 && pid == 0x27dd) || (vid == 0x05a6 && pid == 0x0009);
    pair_ok && manufacturer.to_owned() == String::from_str("Cthulhu") && product.to_owned()
        == String::from_str("Octhulhu") && has_serial
}

/// What an identity line denotes: the serial number after a leading `I`.
pub open spec fn spec_parse_identity_line(s: Seq<char>) -> Option<Seq<char>> {
    if s.len() > 0 && s.first() == 'I' {
        Some(s.drop_first())
    } else {
        None
    }
}

/// Reads the serial number out of a trimmed `I...` identity line.
pub fn parse_identity_line(line: &str) -> (r: Option<String>)
    ensures
        match r {
            Some(sn) => spec_parse_identity_line(line@) == Some(sn@),
            None => spec_parse_identity_line(line@) is None,
        },
{
    let chars = str_chars(line);
    let n = chars.len();
    if n == 0 || chars[0] != 'I' {
        return None;
    }
    let mut rest: Vec<char> = Vec::new();
    for i in 1..n
        invariant
            n == chars@.len(),
            chars@ == line@,
            n >= 1,
            rest@ =~= line@.subrange(1, i as int),
    {
        rest.push(chars[i]);
        proof {
            assert(rest@ =~= line@.subrange(1, i as int + 1));
        }
    }
    proof {
        assert(rest@ =~= line@.drop_first());
    }
    Some(chars_to_string(&rest))
}

} // verus!
