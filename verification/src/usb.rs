//! The device's USB identity, and its watchdog.
use vstd::prelude::*;

use crate::config::{WATCHDOG_FEED_INTERVAL, WATCHDOG_TIMEOUT};

verus! {

/// The upper-case hexadecimal digit of `n`, in ASCII.
pub open spec fn hex_digit(n: int) -> u8 {
    if n < 10 {
        (48 + n) as u8
    } else {
        (55 + n) as u8
    }
}

/// The serial number of a chip: two digits for each byte of its unique id.
pub open spec fn serial_of(id: Seq<u8>) -> Seq<u8> {
    Seq::new(
        2 * id.len(),
        |i: int|
            if i % 2 == 0 {
                hex_digit(id[i / 2] as int / 16)
            } else {
                hex_digit(id[i / 2] as int % 16)
            },
    )
}

fn hex(n: u8) -> (r: u8)
    requires
        n < 16,
    ensures
        r == hex_digit(n as int),
{
    if n < 10 {
        48 + n
    } else {
        55 + n
    }
}

/// The serial number of a chip: its 64-bit unique id as sixteen digits.
pub fn make_serial(id: &[u8; 8]) -> (r: [u8; 16])
    ensures
        r@ == serial_of(id@),
{
    let mut r: [u8; 16] = [0;16];
    let mut i: usize = 0;
    while i < 8
        invariant
            i <= 8,
            forall|j: int| 0 <= j < 2 * i ==> #[trigger] r@[j] == serial_of(id@)[j],
        decreases 8 - i,
    {
        let b: u8 = id[i];
        assert(b >> 4 == b / 16 && b >> 4 < 16) by (bit_vector);
        assert(b & 0x0f == b % 16 && b & 0x0f < 16) by (bit_vector);
        r[2 * i] = hex(b >> 4);
        r[2 * i + 1] = hex(b & 0x0f);
        i = i + 1;
    }
    assert(r@ =~= serial_of(id@));
    r
}

/// A serial number is plain hexadecimal text.
pub proof fn law_serial_is_hex(id: Seq<u8>, i: int)
    requires
        0 <= i < 2 * id.len(),
    ensures
        48 <= serial_of(id)[i] <= 57 || 65 <= serial_of(id)[i] <= 70,
{
}

/// Different chips get different serial numbers.
pub proof fn law_serial_is_unique(a: Seq<u8>, b: Seq<u8>)
    requires
        serial_of(a) == serial_of(b),
    ensures
        a == b,
{
    assert(serial_of(a).len() == 2 * a.len());
    assert(serial_of(b).len() == 2 * b.len());
    assert forall|i: int| 0 <= i < a.len() implies a[i] == b[i] by {
        assert((2 * i) / 2 == i && (2 * i + 1) / 2 == i);
        assert(serial_of(a)[2 * i] == hex_digit(a[i] as int / 16));
        assert(serial_of(b)[2 * i] == hex_digit(b[i] as int / 16));
        assert(serial_of(a)[2 * i + 1] == hex_digit(a[i] as int % 16));
        assert(serial_of(b)[2 * i + 1] == hex_digit(b[i] as int % 16));
        assert(a[i] as int / 16 == b[i] as int / 16);
        assert(a[i] as int % 16 == b[i] as int % 16);
    }
    assert(a =~= b);
}

/// Fed at every interval, the watchdog never bites: at any time the last feed is
/// less than the timeout ago, with room for a feed that is late by more than
/// two seconds.
pub proof fn law_watchdog_is_fed_in_time(t: int, late: int)
    requires
        t >= 0,
        0 <= late <= 2_500_000,
    ensures
        t - t / WATCHDOG_FEED_INTERVAL as int * WATCHDOG_FEED_INTERVAL + late < WATCHDOG_TIMEOUT,
{
}

/// The value of a hexadecimal digit.
pub open spec fn digit_value(c: u8) -> int {
    if c <= 57 {
        c - 48
    } else {
        c - 55
    }
}

/// A serial number reads back as its chip's id: two digits to a byte, the upper
/// half first, the bytes in their order.
pub proof fn law_serial_reads_back(id: Seq<u8>, i: int)
    requires
        0 <= i < id.len(),
    ensures
        serial_of(id).len() == 2 * id.len(),
        digit_value(serial_of(id)[2 * i]) * 16 + digit_value(serial_of(id)[2 * i + 1]) == id[i],
{
    assert((2 * i) / 2 == i && (2 * i + 1) / 2 == i);
}

} // verus!
