//! What the players type: coordinates, one-letter answers, and the peer
//! address being edited.
use vstd::prelude::*;

verus! {

/// Whether `b` is an ASCII decimal digit.
pub open spec fn is_digit(b: u8) -> bool {
    48 <= b <= 57
}

/// The value of the decimal digits `s`.
pub open spec fn digits_value(s: Seq<u8>) -> int
    decreases s.len(),
{
    if s.len() == 0 {
        0
    } else {
        digits_value(s.drop_last()) * 10 + (s.last() - 48)
    }
}

/// Whether every byte of `d` is a decimal digit.
pub open spec fn all_digits(d: Seq<u8>) -> bool {
    forall|i: int| 0 <= i < d.len() ==> #[trigger] is_digit(d[i])
}

/// `s` without its leading `+`, if it has one.
pub open spec fn unsigned_part(s: Seq<u8>) -> Seq<u8> {
    if s.len() > 0 && s[0] == 43 {
        s.drop_first()
    } else {
        s
    }
}

/// The unsigned number that `s` writes: decimal digits, at least one,
/// after an optional `+`.
pub open spec fn number_of(s: Seq<u8>) -> Option<int> {
    let d = unsigned_part(s);
    if d.len() > 0 && all_digits(d) {
        Some(digits_value(d))
    } else {
        None
    }
}

/// The coordinate that `s` writes, when it writes a number from 1 to 10.
pub open spec fn coordinate_of(s: Seq<u8>) -> Option<u8> {
    match number_of(s) {
        Some(v) => if 1 <= v <= 10 {
            Some(v as u8)
        } else {
            None
        },
        None => None,
    }
}

/// Reads a one-based coordinate from trimmed text: a number from 1 to 10,
/// in decimal digits after an optional `+`.
pub fn parse_coordinate(input: &[u8]) -> (r: Option<u8>)
    ensures
        r == coordinate_of(input@),
{
    let mut start: usize = 0;
    if input.len() > 0 && input[0] == 43 {
        start = 1;
    }
    if start >= input.len() {
        return None;
    }
    let ghost d = input@.subrange(start as int, input@.len() as int);
    assert(d == unsigned_part(input@));
    let mut value: u8 = 0;
    let mut i: usize = start;
    while i < input.len()
        invariant
            start <= i <= input@.len(),
            d == input@.subrange(start as int, input@.len() as int),
            d == unsigned_part(input@),
            forall|j: int| start <= j < i ==> #[trigger] is_digit(input@[j]),
            value as int == if digits_value(input@.subrange(start as int, i as int)) > 10 {
                11
            } else {
                digits_value(input@.subrange(start as int, i as int))
            },
        decreases input@.len() - i,
    {
        let b = input[i];
        if b < 48 || b > 57 {
            assert(!is_digit(d[i - start]));
            return None;
        }
        let ghost prefix = input@.subrange(start as int, i + 1);
        assert(prefix.drop_last() == input@.subrange(start as int, i as int));
        if value > 10 {
            value = 11;
        } else {
            let next = value * 10 + (b - 48);
            value = if next > 10 {
                11
            } else {
                next
            };
        }
        i += 1;
    }
    assert(input@.subrange(start as int, input@.len() as int) == d);
    assert forall|j: int| 0 <= j < d.len() implies #[trigger] is_digit(d[j]) by {
        assert(d[j] == input@[start + j]);
    }
    assert(all_digits(d));
    if value >= 1 && value <= 10 {
        Some(value)
    } else {
        None
    }
}

/// Whether trimmed text `input` is the single letter `letter`, in either
/// case.
pub fn answer_is(input: &[u8], letter: u8) -> (r: bool)
    requires
        97 <= letter <= 122,
    ensures
        r == (input@.len() == 1 && (input@[0] == letter || input@[0] == letter - 32)),
{
    input.len() == 1 && (input[0] == letter || input[0] == letter - 32)
}

/// A line of text being edited, with the cursor between characters.
#[derive(Debug, Clone)]
pub struct AddressInput {
    pub text: Vec<char>,
    pub cursor: usize,
}

impl AddressInput {
    /// The cursor stands within the text.
    pub open spec fn wf(&self) -> bool {
        self.cursor <= self.text@.len()
    }

    /// An empty line.
    pub fn new() -> (r: Self)
        ensures
            r.wf(),
            r.text@.len() == 0,
            r.cursor == 0,
    {
        AddressInput { text: Vec::new(), cursor: 0 }
    }

    /// Moves the cursor one character left, if it can.
    pub fn move_left(&mut self)
        requires
            old(self).wf(),
        ensures
            final(self).wf(),
            final(self).text == old(self).text,
            final(self).cursor == if old(self).cursor > 0 {
                old(self).cursor - 1
            } else {
                0
            },
    {
        if self.cursor > 0 {
            self.cursor = self.cursor - 1;
        }
    }

    /// Moves the cursor one character right, if it can.
    pub fn move_right(&mut self)
        requires
            old(self).wf(),
        ensures
            final(self).wf(),
            final(self).text == old(self).text,
            final(self).cursor == if old(self).cursor < old(self).text@.len() {
                old(self).cursor + 1
            } else {
                old(self).cursor as int
            },
    {
        if self.cursor < self.text.len() {
            self.cursor = self.cursor + 1;
        }
    }

    /// Deletes the character before the cursor, if any.
    pub fn backspace(&mut self)
        requires
            old(self).wf(),
        ensures
            final(self).wf(),
            old(self).cursor > 0 ==> final(self).text@ == old(self).text@.remove(
                old(self).cursor - 1,
            ) && final(self).cursor == old(self).cursor - 1,
            old(self).cursor == 0 ==> *final(self) == *old(self),
    {
        if self.cursor > 0 {
            self.text.remove(self.cursor - 1);
            self.cursor = self.cursor - 1;
        }
    }

    /// Types `c` at the cursor, which moves past it.
    pub fn insert(&mut self, c: char)
        requires
            old(self).wf(),
            old(self).text@.len() < usize::MAX,
        ensures
            final(self).wf(),
            final(self).text@ == old(self).text@.insert(old(self).cursor as int, c),
            final(self).cursor == old(self).cursor + 1,
    {
        self.text.insert(self.cursor, c);
        self.cursor = self.cursor + 1;
    }
}

} // verus!
