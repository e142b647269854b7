//! Address jumps: tokens such as `B3`, `+2` or `-AA` that name a cell, or a
//! move from the current cell.
//!
//! A token is an optional sign, then optional column letters, then optional
//! row digits. Letters count as a bijective base-26 number (`A` is 1, `Z` is
//! 26, `AA` is 27), digits as a decimal number; both are one-based.

use crate::label::{col_label, decimal, digit_at, letter_at};
use crate::location::{clamp_index, CellLocation};
use vstd::prelude::*;

verus! {

/// Why a token is no address jump.
#[derive(Clone, Copy, Debug, PartialEq, Eq, Structural)]
pub enum JumpParseError {
    /// The token has neither column letters nor row digits.
    EmptyToken,
    /// The token is not a sign, letters and digits in this order.
    NotAValidAddress,
    /// The column or the row is larger than the largest index.
    IndexOverflow,
}

/// A parsed address jump. Without a sign the parts replace those of the
/// current cell; with a sign they are added to them or subtracted from them.
#[derive(Clone, Copy, Debug, PartialEq, Eq, Structural)]
pub struct CsvJump {
    pub sign: Option<isize>,
    pub row: Option<usize>,
    pub col: Option<usize>,
}

/// An ASCII letter.
pub open spec fn is_letter(c: char) -> bool {
    ('a' <= c && c <= 'z') || ('A' <= c && c <= 'Z')
}

/// An ASCII digit.
pub open spec fn is_digit(c: char) -> bool {
    '0' <= c && c <= '9'
}

/// Place of a letter in the alphabet, from 1, whatever its case.
pub open spec fn letter_value(c: char) -> int {
    if 'a' <= c && c <= 'z' {
        c as int - 'a' as int + 1
    } else {
        c as int - 'A' as int + 1
    }
}

/// Value of a digit.
pub open spec fn digit_value(c: char) -> int {
    c as int - '0' as int
}

/// Bijective base-26 value of a run of letters.
pub open spec fn letters_value(s: Seq<char>) -> int
    decreases s.len(),
{
    if s.len() == 0 {
        0
    } else {
        letters_value(s.drop_last()) * 26 + letter_value(s.last())
    }
}

/// Decimal value of a run of digits.
pub open spec fn digits_value(s: Seq<char>) -> int
    decreases s.len(),
{
    if s.len() == 0 {
        0
    } else {
        digits_value(s.drop_last()) * 10 + digit_value(s.last())
    }
}

/// Where the run of letters that starts at `from` ends.
pub open spec fn letters_end(s: Seq<char>, from: int) -> int
    decreases s.len() - from,
{
    if 0 <= from < s.len() && is_letter(s[from]) {
        letters_end(s, from + 1)
    } else {
        from
    }
}

/// Where the run of digits that starts at `from` ends.
pub open spec fn digits_end(s: Seq<char>, from: int) -> int
    decreases s.len() - from,
{
    if 0 <= from < s.len() && is_digit(s[from]) {
        digits_end(s, from + 1)
    } else {
        from
    }
}

/// The sign that a token starts with: 1 for `+`, -1 for `-`.
pub open spec fn sign_of(s: Seq<char>) -> Option<isize> {
    if s.len() > 0 && s[0] == '+' {
        Some(1isize)
    } else if s.len() > 0 && s[0] == '-' {
        Some(-1isize)
    } else {
        None
    }
}

/// What a token means. The whole token has to be a sign, letters and digits
/// in this order, each part optional; it needs letters or digits; and both
/// numbers have to fit in an index. Letters and digits are one-based, the
/// parts of the jump zero-based; a row of `0` is read as the first row.
pub open spec fn parse_jump(s: Seq<char>) -> Result<CsvJump, JumpParseError> {
    let a: int = if sign_of(s) is Some {
        1
    } else {
        0
    };
    let b = letters_end(s, a);
    let c = digits_end(s, b);
    if c != s.len() {
        Err(JumpParseError::NotAValidAddress)
    } else if digits_value(s.subrange(b, c)) > usize::MAX || letters_value(s.subrange(a, b))
        > usize::MAX {
        Err(JumpParseError::IndexOverflow)
    } else if a == c {
        Err(JumpParseError::EmptyToken)
    } else {
        Ok(
            CsvJump {
                sign: sign_of(s),
                row: if b < c {
                    Some(clamp_index(digits_value(s.subrange(b, c)) - 1))
                } else {
                    None
                },
                col: if a < b {
                    Some((letters_value(s.subrange(a, b)) - 1) as usize)
                } else {
                    None
                },
            },
        )
    }
}

/// The value of a run grows with every letter.
proof fn lemma_letters_step(s: Seq<char>, a: int, i: int)
    requires
        0 <= a <= i < s.len(),
    ensures
        letters_value(s.subrange(a, i + 1)) == letters_value(s.subrange(a, i)) * 26 + letter_value(
            s[i],
        ),
{
    assert(s.subrange(a, i + 1).drop_last() =~= s.subrange(a, i));
}

/// The value of a run grows with every digit.
proof fn lemma_digits_step(s: Seq<char>, a: int, i: int)
    requires
        0 <= a <= i < s.len(),
    ensures
        digits_value(s.subrange(a, i + 1)) == digits_value(s.subrange(a, i)) * 10 + digit_value(s[i]),
{
    assert(s.subrange(a, i + 1).drop_last() =~= s.subrange(a, i));
}

/// A run of at least one letter has a value of at least one.
proof fn lemma_letters_positive(s: Seq<char>)
    requires
        forall|i: int| 0 <= i < s.len() ==> is_letter(#[trigger] s[i]),
    ensures
        letters_value(s) >= 0,
        s.len() > 0 ==> letters_value(s) >= 1,
    decreases s.len(),
{
    if s.len() > 0 {
        lemma_letters_positive(s.drop_last());
        assert(is_letter(s[s.len() - 1]));
    }
}

fn letter_of(c: char) -> (v: Option<usize>)
    ensures
        v is Some == is_letter(c),
        is_letter(c) ==> v == Some(letter_value(c) as usize),
        is_letter(c) ==> 1 <= letter_value(c) <= 26,
{
    if 'a' <= c && c <= 'z' {
        Some((c as u32 - 'a' as u32 + 1) as usize)
    } else if 'A' <= c && c <= 'Z' {
        Some((c as u32 - 'A' as u32 + 1) as usize)
    } else {
        None
    }
}

fn digit_of(c: char) -> (v: Option<usize>)
    ensures
        v is Some == is_digit(c),
        is_digit(c) ==> v == Some(digit_value(c) as usize),
        is_digit(c) ==> 0 <= digit_value(c) <= 9,
{
    if '0' <= c && c <= '9' {
        Some((c as u32 - '0' as u32) as usize)
    } else {
        None
    }
}

/// `acc * base + v`, or nothing where that is no index.
fn grow(acc: usize, base: usize, v: usize) -> (r: Option<usize>)
    ensures
        r is Some == (acc * base + v <= usize::MAX),
        r is Some ==> r.unwrap() == acc * base + v,
{
    match acc.checked_mul(base) {
        Some(m) => m.checked_add(v),
        None => {
            assert(acc * base + v > usize::MAX);
            None
        },
    }
}

impl CsvJump {
    /// The cell that the jump leads to from `location`.
    pub open spec fn target(self, location: CellLocation) -> CellLocation {
        match self.sign {
            None => CellLocation {
                row: match self.row {
                    Some(r) => r,
                    None => location.row,
                },
                col: match self.col {
                    Some(c) => c,
                    None => location.col,
                },
            },
            Some(sign) => CellLocation {
                row: match self.row {
                    Some(r) => if sign == -1 {
                        clamp_index(location.row - r)
                    } else {
                        clamp_index(location.row + r)
                    },
                    None => location.row,
                },
                col: match self.col {
                    Some(c) => if sign == -1 {
                        clamp_index(location.col - c)
                    } else {
                        clamp_index(location.col + c)
                    },
                    None => location.col,
                },
            },
        }
    }

    /// Applies the jump to the current location. Without a sign, the parts
    /// that the jump has replace those of the location. With a sign they are
    /// subtracted from them (sign -1) or added to them (any other sign),
    /// saturating at zero and at the largest index.
    pub fn combine(self, location: CellLocation) -> (to: CellLocation)
        ensures
            to == self.target(location),
    {
        let sign = match self.sign {
            Some(sign) => sign,
            None => {
                return CellLocation {
                    row: match self.row {
                        Some(r) => r,
                        None => location.row,
                    },
                    col: match self.col {
                        Some(c) => c,
                        None => location.col,
                    },
                };
            },
        };
        let row = match self.row {
            Some(r) => if sign == -1 {
                location.row.saturating_sub(r)
            } else {
                location.row.saturating_add(r)
            },
            None => location.row,
        };
        let col = match self.col {
            Some(c) => if sign == -1 {
                location.col.saturating_sub(c)
            } else {
                location.col.saturating_add(c)
            },
            None => location.col,
        };
        CellLocation { row, col }
    }

    /// Reads a token.
    pub fn from_str(s: &str) -> (result: Result<CsvJump, JumpParseError>)
        ensures
            result == parse_jump(s@),
    {
        let n: usize = s.unicode_len();
        let mut sign: Option<isize> = None;
        let mut i: usize = 0;
        if n > 0 {
            let first = s.get_char(0);
            if first == '+' {
                sign = Some(1);
                i = 1;
            } else if first == '-' {
                sign = Some(-1);
                i = 1;
            }
        }
        let a: usize = i;
        let mut col: usize = 0;
        let mut col_over = false;
        loop
            invariant
                n == s@.len(),
                a <= i <= n,
                letters_end(s@, a as int) == letters_end(s@, i as int),
                forall|j: int| a <= j < i ==> is_letter(#[trigger] s@[j]),
                !col_over ==> col == letters_value(s@.subrange(a as int, i as int)),
                col_over ==> letters_value(s@.subrange(a as int, i as int)) > usize::MAX,
                letters_value(s@.subrange(a as int, i as int)) >= 0,
            ensures
                letters_end(s@, i as int) == i,
            decreases n - i,
        {
            if i >= n {
                break ;
            }
            let v = match letter_of(s.get_char(i)) {
                Some(v) => v,
                None => {
                    break ;
                },
            };
            proof {
                lemma_letters_step(s@, a as int, i as int);
            }
            if !col_over {
                match grow(col, 26, v) {
                    Some(next) => {
                        col = next;
                    },
                    None => {
                        col_over = true;
                    },
                }
            }
            i += 1;
        }
        let b: usize = i;
        let mut row: usize = 0;
        let mut row_over = false;
        loop
            invariant
                n == s@.len(),
                b <= i <= n,
                digits_end(s@, b as int) == digits_end(s@, i as int),
                !row_over ==> row == digits_value(s@.subrange(b as int, i as int)),
                row_over ==> digits_value(s@.subrange(b as int, i as int)) > usize::MAX,
                digits_value(s@.subrange(b as int, i as int)) >= 0,
            ensures
                digits_end(s@, i as int) == i,
            decreases n - i,
        {
            if i >= n {
                break ;
            }
            let v = match digit_of(s.get_char(i)) {
                Some(v) => v,
                None => {
                    break ;
                },
            };
            proof {
                lemma_digits_step(s@, b as int, i as int);
            }
            if !row_over {
                match grow(row, 10, v) {
                    Some(next) => {
                        row = next;
                    },
                    None => {
                        row_over = true;
                    },
                }
            }
            i += 1;
        }
        proof {
            lemma_letters_positive(s@.subrange(a as int, b as int));
        }
        if i != n {
            Err(JumpParseError::NotAValidAddress)
        } else if row_over || col_over {
            Err(JumpParseError::IndexOverflow)
        } else if a == i {
            Err(JumpParseError::EmptyToken)
        } else {
            Ok(
                CsvJump {
                    sign,
                    row: if b < i {
                        Some(row.saturating_sub(1))
                    } else {
                        None
                    },
                    col: if a < b {
                        Some(col - 1)
                    } else {
                        None
                    },
                },
            )
        }
    }
}


/// A column's label is made of letters, at least one, and its value is the
/// column's index plus one.
pub proof fn lemma_col_label_value(col: nat)
    ensures
        col_label(col).len() >= 1,
        forall|i: int| 0 <= i < col_label(col).len() ==> is_letter(#[trigger] col_label(col)[i]),
        letters_value(col_label(col)) == col + 1,
    decreases col,
{
    let s = col_label(col);
    if col < 26 {
        assert(s.drop_last() =~= Seq::<char>::empty());
        assert(letter_at(col as int) as int == 65 + col);
        assert(letters_value(s.drop_last()) == 0);
    } else {
        let rest = (col / 26 - 1) as nat;
        lemma_col_label_value(rest);
        assert(s.drop_last() =~= col_label(rest));
        assert(letter_at((col % 26) as int) as int == 65 + col % 26);
        assert forall|i: int| 0 <= i < s.len() implies is_letter(#[trigger] s[i]) by {
            if i < s.len() - 1 {
                assert(s[i] == col_label(rest)[i]);
            }
        }
    }
}

/// A number in decimal is made of digits, at least one, and its value is
/// the number.
pub proof fn lemma_decimal_value(n: nat)
    ensures
        decimal(n).len() >= 1,
        forall|i: int| 0 <= i < decimal(n).len() ==> is_digit(#[trigger] decimal(n)[i]),
        digits_value(decimal(n)) == n,
    decreases n,
{
    let s = decimal(n);
    if n < 10 {
        assert(s.drop_last() =~= Seq::<char>::empty());
        assert(digit_at(n as int) as int == 48 + n);
        assert(digits_value(s.drop_last()) == 0);
    } else {
        lemma_decimal_value(n / 10);
        assert(s.drop_last() =~= decimal(n / 10));
        assert(digit_at((n % 10) as int) as int == 48 + n % 10);
        assert forall|i: int| 0 <= i < s.len() implies is_digit(#[trigger] s[i]) by {
            if i < s.len() - 1 {
                assert(s[i] == decimal(n / 10)[i]);
            }
        }
    }
}

/// A run of letters ends where the letters end.
proof fn lemma_letters_run(s: Seq<char>, from: int, to: int)
    requires
        0 <= from <= to <= s.len(),
        forall|i: int| from <= i < to ==> is_letter(#[trigger] s[i]),
        to == s.len() || !is_letter(s[to]),
    ensures
        letters_end(s, from) == to,
    decreases to - from,
{
    if from < to {
        lemma_letters_run(s, from + 1, to);
    }
}

/// A run of digits ends where the digits end.
proof fn lemma_digits_run(s: Seq<char>, from: int, to: int)
    requires
        0 <= from <= to <= s.len(),
        forall|i: int| from <= i < to ==> is_digit(#[trigger] s[i]),
        to == s.len() || !is_digit(s[to]),
    ensures
        digits_end(s, from) == to,
    decreases to - from,
{
    if from < to {
        lemma_digits_run(s, from + 1, to);
    }
}

/// The label of a cell, read as a token, is the jump to that cell from
/// wherever the cursor is. This holds of every cell but those in the last
/// row and the last column that an index can name, whose one-based number
/// is no index.
pub proof fn lemma_label_reads_back(cell: CellLocation, from: CellLocation)
    requires
        cell.row < usize::MAX,
        cell.col < usize::MAX,
    ensures
        parse_jump(cell.spec_label()) == Ok::<CsvJump, JumpParseError>(
            CsvJump { sign: None, row: Some(cell.row), col: Some(cell.col) },
        ),
        parse_jump(cell.spec_label()).unwrap().target(from) == cell,
{
    let letters = col_label(cell.col as nat);
    let digits = decimal((cell.row + 1) as nat);
    let s = cell.spec_label();
    lemma_col_label_value(cell.col as nat);
    lemma_decimal_value((cell.row + 1) as nat);
    assert(s == letters + digits);
    assert(s[0] == letters[0]);
    assert(is_letter(s[0]));
    assert(sign_of(s) is None);
    assert forall|i: int| 0 <= i < letters.len() implies is_letter(#[trigger] s[i]) by {
        assert(s[i] == letters[i]);
    }
    assert forall|i: int| letters.len() <= i < s.len() implies is_digit(#[trigger] s[i]) by {
        assert(s[i] == digits[i - letters.len()]);
    }
    assert(is_digit(s[letters.len() as int]));
    lemma_letters_run(s, 0, letters.len() as int);
    lemma_digits_run(s, letters.len() as int, s.len() as int);
    assert(s.subrange(0, letters.len() as int) =~= letters);
    assert(s.subrange(letters.len() as int, s.len() as int) =~= digits);
}

} // verus!
