//! Labels of columns, rows and cells as a spreadsheet shows them: columns
//! as letters (`A` to `Z`, then `AA`, `AB` and so on), rows as numbers from
//! one.

use crate::location::CellLocation;
use vstd::prelude::*;

verus! {

/// The capital letter at place `i` of the alphabet, from 0.
pub open spec fn letter_at(i: int) -> char {
    ((65 + i) as u8) as char
}

/// The digit `i` as a character.
pub open spec fn digit_at(i: int) -> char {
    ((48 + i) as u8) as char
}

/// The label of a column: its index plus one, written in bijective base 26
/// with the letters as digits.
pub open spec fn col_label(col: nat) -> Seq<char>
    decreases col,
{
    if col < 26 {
        seq![letter_at(col as int)]
    } else {
        col_label((col / 26 - 1) as nat).push(letter_at((col % 26) as int))
    }
}

/// A number written in decimal, without leading zeros.
pub open spec fn decimal(n: nat) -> Seq<char>
    decreases n,
{
    if n < 10 {
        seq![digit_at(n as int)]
    } else {
        decimal(n / 10).push(digit_at((n % 10) as int))
    }
}

/// `String::from_iter` over the characters of a vector: the string made of
/// exactly these characters, in order.
#[verifier::external_body]
fn string_of(chars: &Vec<char>) -> (s: String)
    ensures
        s@ == chars@,
{
    String::from_iter(chars.iter())
}

/// The characters of a column's label.
fn col_chars(col: usize) -> (chars: Vec<char>)
    ensures
        chars@ == col_label(col as nat),
{
    let mut chars: Vec<char> = Vec::new();
    let mut rest: usize = col;
    loop
        invariant_except_break
            col_label(col as nat) == col_label(rest as nat) + chars@,
        ensures
            chars@ == col_label(col as nat),
        decreases rest,
    {
        let rem: u8 = (rest % 26) as u8;
        let ghost before = chars@;
        chars.insert(0, (65u8 + rem) as char);
        if rest < 26 {
            assert(chars@ =~= col_label(rest as nat) + before);
            break ;
        }
        assert(col_label(rest as nat) + before =~= col_label((rest / 26 - 1) as nat) + chars@);
        rest = rest / 26 - 1;
    }
    chars
}

/// The characters of a number in decimal.
fn decimal_chars(n: u128) -> (chars: Vec<char>)
    ensures
        chars@ == decimal(n as nat),
{
    let mut chars: Vec<char> = Vec::new();
    let mut rest: u128 = n;
    loop
        invariant_except_break
            decimal(n as nat) == decimal(rest as nat) + chars@,
        ensures
            chars@ == decimal(n as nat),
        decreases rest,
    {
        let rem: u8 = (rest % 10) as u8;
        let ghost before = chars@;
        chars.insert(0, (48u8 + rem) as char);
        if rest < 10 {
            assert(chars@ =~= decimal(rest as nat) + before);
            break ;
        }
        assert(decimal(rest as nat) + before =~= decimal((rest / 10) as nat) + chars@);
        rest = rest / 10;
    }
    chars
}

impl CellLocation {
    /// The label of a cell: its column's letters, then its row's number.
    pub open spec fn spec_label(self) -> Seq<char> {
        col_label(self.col as nat) + decimal((self.row + 1) as nat)
    }

    /// The letters that name a column.
    pub fn col_index_to_id(col: usize) -> (id: String)
        ensures
            id@ == col_label(col as nat),
    {
        let chars = col_chars(col);
        string_of(&chars)
    }

    /// The number that names a row: its index plus one.
    pub fn row_index_to_id(row: usize) -> (id: String)
        ensures
            id@ == decimal((row + 1) as nat),
    {
        let chars = decimal_chars(row as u128 + 1);
        string_of(&chars)
    }

    /// The label of the cell, such as `B3` for the second column of the
    /// third row.
    pub fn label(&self) -> (text: String)
        ensures
            text@ == self.spec_label(),
    {
        let mut chars = col_chars(self.col);
        let mut digits = decimal_chars(self.row as u128 + 1);
        chars.append(&mut digits);
        string_of(&chars)
    }
}

} // verus!
