//! SMuFL glyph code points used by the engraving subset, named per the
//! SMuFL specification. All glyphs live in the SMuFL private-use area and
//! are present in the Leipzig font.

use vstd::prelude::*;

verus! {

pub const BRACE: char = '\u{E000}';

pub const G_CLEF: char = '\u{E050}';

pub const F_CLEF: char = '\u{E062}';

pub const NOTEHEAD_WHOLE: char = '\u{E0A2}';

pub const NOTEHEAD_HALF: char = '\u{E0A3}';

pub const NOTEHEAD_BLACK: char = '\u{E0A4}';

pub const ACCIDENTAL_FLAT: char = '\u{E260}';

pub const ACCIDENTAL_NATURAL: char = '\u{E261}';

pub const ACCIDENTAL_SHARP: char = '\u{E262}';

pub const FLAG_8TH_UP: char = '\u{E240}';

pub const FLAG_8TH_DOWN: char = '\u{E241}';

pub const REST_WHOLE: char = '\u{E4E3}';

pub const REST_HALF: char = '\u{E4E4}';

pub const REST_QUARTER: char = '\u{E4E5}';

pub const REST_8TH: char = '\u{E4E6}';

pub const AUGMENTATION_DOT: char = '\u{E1E7}';

/// The time-signature glyph of a digit 0-9 (`timeSig0` ... `timeSig9`).
pub open spec fn spec_time_sig_digit(digit: int) -> char {
    if digit == 0 {
        '\u{E080}'
    } else if digit == 1 {
        '\u{E081}'
    } else if digit == 2 {
        '\u{E082}'
    } else if digit == 3 {
        '\u{E083}'
    } else if digit == 4 {
        '\u{E084}'
    } else if digit == 5 {
        '\u{E085}'
    } else if digit == 6 {
        '\u{E086}'
    } else if digit == 7 {
        '\u{E087}'
    } else if digit == 8 {
        '\u{E088}'
    } else {
        '\u{E089}'
    }
}

/// Time-signature digits 0-9 (`timeSig0` ... `timeSig9`).
pub fn time_sig_digit(digit: u32) -> (c: char)
    requires
        digit <= 9,
    ensures
        c as u32 == 0xE080 + digit,
        c == spec_time_sig_digit(digit as int),
{
    match digit {
        0 => '\u{E080}',
        1 => '\u{E081}',
        2 => '\u{E082}',
        3 => '\u{E083}',
        4 => '\u{E084}',
        5 => '\u{E085}',
        6 => '\u{E086}',
        7 => '\u{E087}',
        8 => '\u{E088}',
        _ => '\u{E089}',
    }
}

} // verus!
