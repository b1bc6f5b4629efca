//! Text as the Windows API takes it: UTF-16 code units ending in a NUL.

use vstd::prelude::*;
use vstd::utf8::char_is_scalar;
use crate::text::chars_of;

verus! {

/// The UTF-16 code units of one character: itself below U+10000, else a
/// surrogate pair.
pub open spec fn utf16_of_char(c: char) -> Seq<u16> {
    let v = c as u32;
    if v < 0x10000 {
        seq![v as u16]
    } else {
        let u = v - 0x10000int;
        seq![(0xD800 + u / 1024) as u16, (0xDC00 + u % 1024) as u16]
    }
}

/// The UTF-16 encoding of a character sequence.
pub open spec fn utf16(s: Seq<char>) -> Seq<u16>
    decreases s.len(),
{
    if s.len() == 0 {
        Seq::empty()
    } else {
        utf16(s.drop_last()) + utf16_of_char(s.last())
    }
}

/// `s` in UTF-16, followed by a NUL.
pub fn wide_string(s: &str) -> (w: Vec<u16>)
    ensures
        w@ == utf16(s@).push(0u16),
{
    let chars = chars_of(s);
    let mut w: Vec<u16> = Vec::new();
    let mut i: usize = 0;
    while i < chars.len()
        invariant
            chars@ == s@,
            i <= chars@.len(),
            w@ == utf16(chars@.take(i as int)),
        decreases chars@.len() - i,
    {
        let c = chars[i];
        let v: u32 = c as u32;
        proof {
            char_is_scalar(c);
        }
        if v < 0x10000 {
            w.push(v as u16);
        } else {
            let u: u32 = v - 0x10000;
            w.push((0xD800 + u / 1024) as u16);
            w.push((0xDC00 + u % 1024) as u16);
        }
        assert(chars@.take(i + 1).drop_last() =~= chars@.take(i as int));
        i = i + 1;
        assert(w@ =~= utf16(chars@.take(i as int)));
    }
    assert(chars@.take(chars@.len() as int) =~= s@);
    w.push(0);
    w
}

/// Code units that fit in the tip of the tray icon, which holds 128 of them
/// including its terminating NUL.
pub const TIP_UNITS: usize = 127;

/// The text of a tray icon tip: the UTF-16 form of `s` with its NUL, cut after
/// `TIP_UNITS` code units (the tip's last unit stays NUL).
pub fn tip_units(s: &str) -> (w: Vec<u16>)
    ensures
        w@ == utf16(s@).push(0u16).take(
            if utf16(s@).len() + 1 <= TIP_UNITS {
                utf16(s@).len() + 1int
            } else {
                TIP_UNITS as int
            },
        ),
{
    let full = wide_string(s);
    let mut w: Vec<u16> = Vec::new();
    let mut i: usize = 0;
    while i < full.len() && i < TIP_UNITS
        invariant
            i <= full@.len(),
            i <= TIP_UNITS,
            w@ == full@.take(i as int),
        decreases full@.len() - i,
    {
        w.push(full[i]);
        i = i + 1;
        assert(w@ =~= full@.take(i as int));
    }
    w
}

} // verus!
