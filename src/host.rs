use vstd::prelude::*;

verus! {

/// Microseconds between two instructions at 700 instructions per second.
pub const RUN_INTERVAL_MICROS: u64 = 1_428;

/// The keypad index for a host key code (an SDL key code: the character
/// code of the key's label), on an AZERTY layout:
///
/// ```text
///   1 2 3 4        1 2 3 C
///   A Z E R   ->   4 5 6 D
///   Q S D F        7 8 9 E
///   W X C V        A 0 B F
/// ```
pub open spec fn key_for(code: i32) -> Option<usize> {
    if code == '1' as i32 {
        Some(0x1)
    } else if code == '2' as i32 {
        Some(0x2)
    } else if code == '3' as i32 {
        Some(0x3)
    } else if code == '4' as i32 {
        Some(0xC)
    } else if code == 'a' as i32 {
        Some(0x4)
    } else if code == 'z' as i32 {
        Some(0x5)
    } else if code == 'e' as i32 {
        Some(0x6)
    } else if code == 'r' as i32 {
        Some(0xD)
    } else if code == 'q' as i32 {
        Some(0x7)
    } else if code == 's' as i32 {
        Some(0x8)
    } else if code == 'd' as i32 {
        Some(0x9)
    } else if code == 'f' as i32 {
        Some(0xE)
    } else if code == 'w' as i32 {
        Some(0xA)
    } else if code == 'x' as i32 {
        Some(0x0)
    } else if code == 'c' as i32 {
        Some(0xB)
    } else if code == 'v' as i32 {
        Some(0xF)
    } else {
        None
    }
}

/// Maps a host key code to a keypad index; `None` for keys that are not
/// part of the keypad.
pub fn map_key(code: i32) -> (r: Option<usize>)
    ensures
        r == key_for(code),
        r matches Some(k) ==> k < 16,
{
    match code {
        0x31 => Some(0x1),
        0x32 => Some(0x2),
        0x33 => Some(0x3),
        0x34 => Some(0xC),
        0x61 => Some(0x4),
        0x7A => Some(0x5),
        0x65 => Some(0x6),
        0x72 => Some(0xD),
        0x71 => Some(0x7),
        0x73 => Some(0x8),
        0x64 => Some(0x9),
        0x66 => Some(0xE),
        0x77 => Some(0xA),
        0x78 => Some(0x0),
        0x63 => Some(0xB),
        0x76 => Some(0xF),
        _ => None,
    }
}

/// How long the host loop should sleep before the next instruction, given
/// the microseconds since the last one: nothing once an instruction period
/// has passed, the rest of the period otherwise.
pub fn cycle_delay(elapsed_micros: u64) -> (r: u64)
    ensures
        elapsed_micros >= RUN_INTERVAL_MICROS ==> r == 0,
        elapsed_micros < RUN_INTERVAL_MICROS ==> r == RUN_INTERVAL_MICROS - elapsed_micros,
{
    if elapsed_micros >= RUN_INTERVAL_MICROS {
        0
    } else {
        RUN_INTERVAL_MICROS - elapsed_micros
    }
}

} // verus!
