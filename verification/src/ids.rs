//! Canonical hyphenated 128-bit identifiers.
//!
//! A credential id appears in placeholder text in its canonical hyphenated
//! hex form: 36 characters, hyphens at positions 8, 13, 18 and 23, hex
//! digits (either case) everywhere else.  Parsing folds the 32 hex digits
//! into a `u128`, most significant digit first.
use vstd::prelude::*;

verus! {

/// Whether `c` is a hex digit, lower or upper case.
pub open spec fn is_hex_digit(c: char) -> bool {
    ||| '0' as u32 <= c as u32 && c as u32 <= '9' as u32
    ||| 'a' as u32 <= c as u32 && c as u32 <= 'f' as u32
    ||| 'A' as u32 <= c as u32 && c as u32 <= 'F' as u32
}

/// The value of the hex digit `c`; 0 on other characters.
pub open spec fn hex_value(c: char) -> u8 {
    if '0' as u32 <= c as u32 && c as u32 <= '9' as u32 {
        (c as u32 - '0' as u32) as u8
    } else if 'a' as u32 <= c as u32 && c as u32 <= 'f' as u32 {
        (c as u32 - 87) as u8
    } else if 'A' as u32 <= c as u32 && c as u32 <= 'F' as u32 {
        (c as u32 - 55) as u8
    } else {
        0
    }
}

/// The positions that hold a hyphen in the canonical form.
pub open spec fn is_dash_pos(i: int) -> bool {
    i == 8 || i == 13 || i == 18 || i == 23
}

/// What the canonical form demands of the character at position `i`.
pub open spec fn uuid_char_ok(s: Seq<char>, i: int) -> bool {
    if is_dash_pos(i) {
        s[i] == '-'
    } else {
        is_hex_digit(s[i])
    }
}

/// Whether `s` is a canonical hyphenated 128-bit identifier.
pub open spec fn is_canonical_uuid(s: Seq<char>) -> bool {
    &&& s.len() == 36
    &&& forall|i: int| 0 <= i < 36 ==> #[trigger] uuid_char_ok(s, i)
}

/// Folds the hex digits of `s` from position `i` on into `acc`, most
/// significant digit first; hyphens are passed over.
pub open spec fn uuid_value_rec(s: Seq<char>, i: int, acc: u128) -> u128
    decreases s.len() - i,
{
    if i < 0 || i >= s.len() {
        acc
    } else if s[i] == '-' {
        uuid_value_rec(s, i + 1, acc)
    } else {
        uuid_value_rec(s, i + 1, (acc << 4) | (hex_value(s[i]) as u128))
    }
}

/// The 128-bit value written in the canonical identifier `s`.
pub open spec fn uuid_value(s: Seq<char>) -> u128 {
    uuid_value_rec(s, 0, 0)
}

/// Parses a canonical hyphenated identifier; `None` exactly on text that
/// is not one.
pub fn parse_uuid(s: &Vec<char>) -> (r: Option<u128>)
    ensures
        match r {
            Some(v) => is_canonical_uuid(s@) && v == uuid_value(s@),
            None => !is_canonical_uuid(s@),
        },
{
    if s.len() != 36 {
        return None;
    }
    let mut acc: u128 = 0;
    let mut i: usize = 0;
    while i < 36
        invariant
            0 <= i <= 36,
            s@.len() == 36,
            forall|j: int| 0 <= j < i ==> #[trigger] uuid_char_ok(s@, j),
            uuid_value_rec(s@, i as int, acc) == uuid_value(s@),
        decreases 36 - i,
    {
        let c = s[i];
        if i == 8 || i == 13 || i == 18 || i == 23 {
            if c != '-' {
                assert(!uuid_char_ok(s@, i as int));
                return None;
            }
        } else {
            let u = c as u32;
            let d: u8 = if '0' as u32 <= u && u <= '9' as u32 {
                (u - '0' as u32) as u8
            } else if 'a' as u32 <= u && u <= 'f' as u32 {
                (u - 87) as u8
            } else if 'A' as u32 <= u && u <= 'F' as u32 {
                (u - 55) as u8
            } else {
                assert(!uuid_char_ok(s@, i as int));
                return None;
            };
            assert(c != '-' && d == hex_value(c));
            acc = (acc << 4) | (d as u128);
        }
        i += 1;
    }
    Some(acc)
}

} // verus!
