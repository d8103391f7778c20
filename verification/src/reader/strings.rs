//! Reading strings.

use vstd::prelude::*;

verus! {

/// What an escaped byte stands for: a tab for `t`, a line end for `n`, and
/// itself for any other.
pub open spec fn unescaped(b: u8) -> u8 {
    if b == 0x74 {
        0x09
    } else if b == 0x6E {
        0x0A
    } else {
        b
    }
}

/// The bytes of the string whose text starts at `pos` and ends with the byte
/// `close`, after `so_far`, and the position behind the closing byte. A
/// backslash takes the byte after it out of its role. `None` where the input
/// ends before the string does.
pub open spec fn spec_string_at(input: Seq<u8>, pos: int, close: u8, so_far: Seq<u8>) -> Option<
    (Seq<u8>, int),
>
    decreases input.len() - pos,
{
    if pos >= input.len() || pos < 0 {
        None
    } else if input[pos] == close {
        Some((so_far, pos + 1))
    } else if input[pos] == 0x5C {
        if pos + 1 >= input.len() {
            None
        } else {
            spec_string_at(input, pos + 2, close, so_far.push(unescaped(input[pos + 1])))
        }
    } else {
        spec_string_at(input, pos + 1, close, so_far.push(input[pos]))
    }
}

/// Reads the bytes of a string whose opening byte stands at `pos`, and moves
/// `pos` behind the closing one; to the end of the input where the string is
/// not closed.
pub fn read_string_bytes(input: &[u8], pos: &mut usize) -> (r: Option<Vec<u8>>)
    requires
        *old(pos) < input@.len(),
    ensures
        *old(pos) < *final(pos) <= input@.len(),
        match (r, spec_string_at(input@, *old(pos) + 1, input@[*old(pos) as int], Seq::empty())) {
            (Some(text), Some((spec_text, end))) => text@ == spec_text && *final(pos) == end,
            (None, None) => true,
            _ => false,
        },
{
    let open: u8 = input[*pos];
    *pos = *pos + 1;
    let mut text: Vec<u8> = Vec::new();
    while *pos < input.len()
        invariant
            *old(pos) < *pos <= input@.len(),
            open == input@[*old(pos) as int],
            spec_string_at(input@, *old(pos) + 1, open, Seq::empty()) == spec_string_at(
                input@,
                *pos as int,
                open,
                text@,
            ),
        decreases input@.len() - *pos,
    {
        let b: u8 = input[*pos];
        if b == open {
            *pos = *pos + 1;
            return Some(text);
        }
        if b == 0x5C {
            if *pos + 1 >= input.len() {
                *pos = input.len();
                return None;
            }
            let e: u8 = input[*pos + 1];
            if e == 0x74 {
                text.push(0x09);
            } else if e == 0x6E {
                text.push(0x0A);
            } else {
                text.push(e);
            }
            *pos = *pos + 2;
        } else {
            text.push(b);
            *pos = *pos + 1;
        }
    }
    None
}

} // verus!
