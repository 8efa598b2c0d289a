use vstd::prelude::*;
use vstd::string::StringSliceAdditionalSpecFns;

verus! {

/// Why a move written as digits could not be read.
#[derive(Clone, Copy, Debug, PartialEq, Eq, Structural)]
pub enum MoveParseError {
    /// Fewer than two characters, or a character that is not a decimal digit.
    Malformed,
    /// The first digit names no slot of the batch.
    ShapeIndexOutOfRange,
    /// The remaining digits name no board position.
    PositionOutOfRange,
}

pub open spec fn is_digit(b: u8) -> bool {
    48 <= b <= 57
}

/// The value of a sequence of ASCII decimal digits.
pub open spec fn digits_value(s: Seq<u8>) -> nat
    decreases s.len(),
{
    if s.len() == 0 {
        0
    } else {
        digits_value(s.drop_last()) * 10 + (s.last() - 48) as nat
    }
}

/// How the bytes of a move read: the first digit is the slot, the remaining
/// digits the board position.
pub open spec fn move_reading(s: Seq<u8>) -> Result<(usize, usize), MoveParseError> {
    if s.len() < 2 || !(forall|i: int| 0 <= i < s.len() ==> is_digit(#[trigger] s[i])) {
        Err(MoveParseError::Malformed)
    } else if s[0] - 48 >= 3 {
        Err(MoveParseError::ShapeIndexOutOfRange)
    } else if digits_value(s.subrange(1, s.len() as int)) >= 81 {
        Err(MoveParseError::PositionOutOfRange)
    } else {
        Ok(((s[0] - 48) as usize, digits_value(s.subrange(1, s.len() as int)) as usize))
    }
}

impl MoveParseError {
    /// A short human-readable description of the error.
    pub fn message(&self) -> (r: &'static str) {
        match self {
            MoveParseError::Malformed => "Invalid move: expected a shape digit then a position",
            MoveParseError::ShapeIndexOutOfRange => "Invalid move: shape index out of range",
            MoveParseError::PositionOutOfRange => "Invalid move: position out of range",
        }
    }
}

/// Reads a move written as digits: the first selects the slot (0 to 2), the
/// rest form the board position (0 to 80), as in `"012"`.
pub fn parse_move(mv: &str) -> (r: Result<(usize, usize), MoveParseError>)
    ensures
        r == move_reading(mv.spec_bytes()),
{
    let bytes = mv.as_bytes();
    let ghost s = bytes@;
    if bytes.len() < 2 {
        return Err(MoveParseError::Malformed);
    }
    let mut i: usize = 0;
    while i < bytes.len()
        invariant
            i <= bytes@.len(),
            s == bytes@,
            s == mv.spec_bytes(),
            forall|k: int| 0 <= k < i ==> is_digit(#[trigger] s[k]),
        decreases bytes@.len() - i,
    {
        if bytes[i] < 48 || bytes[i] > 57 {
            assert(!is_digit(s[i as int]));
            return Err(MoveParseError::Malformed);
        }
        i = i + 1;
    }
    let shape_ix = (bytes[0] - 48) as usize;
    if shape_ix >= 3 {
        return Err(MoveParseError::ShapeIndexOutOfRange);
    }
    let ghost tail = s.subrange(1, s.len() as int);
    let mut position: usize = 0;
    let mut j: usize = 1;
    while j < bytes.len()
        invariant
            1 <= j <= bytes@.len(),
            s == bytes@,
            s == mv.spec_bytes(),
            tail == s.subrange(1, s.len() as int),
            forall|k: int| 0 <= k < s.len() ==> is_digit(#[trigger] s[k]),
            position == if digits_value(s.subrange(1, j as int)) < 81 {
                digits_value(s.subrange(1, j as int))
            } else {
                81
            },
        decreases bytes@.len() - j,
    {
        assert(s.subrange(1, j + 1).drop_last() == s.subrange(1, j as int));
        assert(is_digit(s[j as int]));
        let digit = (bytes[j] - 48) as usize;
        if position < 81 {
            position = position * 10 + digit;
            if position > 81 {
                position = 81;
            }
        }
        j = j + 1;
    }
    assert(s.subrange(1, j as int) == tail);
    if position >= 81 {
        return Err(MoveParseError::PositionOutOfRange);
    }
    Ok((shape_ix, position))
}

} // verus!
