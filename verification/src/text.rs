//! Building text: runs of a character, the characters of a board, and
//! numbers in decimal.

use vstd::prelude::*;
use vstd::string::StringExecFns;

verus! {

/// The character that stands for the decimal digit `digit`.
pub open spec fn digit_char(digit: int) -> char {
    if digit == 0 {
        '0'
    } else if digit == 1 {
        '1'
    } else if digit == 2 {
        '2'
    } else if digit == 3 {
        '3'
    } else if digit == 4 {
        '4'
    } else if digit == 5 {
        '5'
    } else if digit == 6 {
        '6'
    } else if digit == 7 {
        '7'
    } else if digit == 8 {
        '8'
    } else {
        '9'
    }
}

/// The number `n` written in decimal, without leading zeros.
pub open spec fn decimal_text(n: nat) -> Seq<char>
    decreases n,
{
    if n < 10 {
        seq![digit_char(n as int)]
    } else {
        decimal_text(n / 10).push(digit_char((n % 10) as int))
    }
}

/// What a cell of the board is printed as: the head, a segment, the apple
/// and a wall as they are, and anything else as a blank.
pub open spec fn printed(cell: char) -> char {
    if cell == '@' || cell == '*' || cell == '$' || cell == '#' {
        cell
    } else {
        ' '
    }
}

/// The text of a decimal digit.
pub fn digit_text(digit: u32) -> (text: &'static str)
    requires
        digit < 10,
    ensures
        text@ == seq![digit_char(digit as int)],
{
    proof {
        reveal_strlit("0");
        reveal_strlit("1");
        reveal_strlit("2");
        reveal_strlit("3");
        reveal_strlit("4");
        reveal_strlit("5");
        reveal_strlit("6");
        reveal_strlit("7");
        reveal_strlit("8");
        reveal_strlit("9");
    }
    let text = match digit {
        0 => "0",
        1 => "1",
        2 => "2",
        3 => "3",
        4 => "4",
        5 => "5",
        6 => "6",
        7 => "7",
        8 => "8",
        _ => "9",
    };
    assert(text@ =~= seq![digit_char(digit as int)]);
    text
}

/// The text that a cell of the board is printed as.
pub fn cell_text(cell: char) -> (text: &'static str)
    ensures
        text@ == seq![printed(cell)],
{
    proof {
        reveal_strlit("@");
        reveal_strlit("*");
        reveal_strlit("$");
        reveal_strlit("#");
        reveal_strlit(" ");
    }
    let text = match cell {
        '@' => "@",
        '*' => "*",
        '$' => "$",
        '#' => "#",
        _ => " ",
    };
    assert(text@ =~= seq![printed(cell)]);
    text
}

/// Appends `n` in decimal to `text`.
pub fn push_decimal(text: &mut String, n: u32)
    ensures
        final(text)@ == old(text)@ + decimal_text(n as nat),
    decreases n,
{
    if n >= 10 {
        push_decimal(text, n / 10);
    }
    text.append(digit_text(n % 10));
    assert(text@ =~= old(text)@ + decimal_text(n as nat));
}

/// Appends `count` dashes to `text`.
pub fn push_dashes(text: &mut String, count: usize)
    ensures
        final(text)@ == old(text)@ + Seq::new(count as nat, |i: int| '-'),
{
    proof {
        reveal_strlit("-");
    }
    let mut done: usize = 0;
    while done < count
        invariant
            done <= count,
            "-"@ == seq!['-'],
            text@ == old(text)@ + Seq::new(done as nat, |i: int| '-'),
        decreases count - done,
    {
        text.append("-");
        done += 1;
        assert(text@ =~= old(text)@ + Seq::new(done as nat, |i: int| '-'));
    }
}

/// Appends the cells of `row` to `text`, each as it is printed.
pub fn push_row(text: &mut String, row: &Vec<char>)
    ensures
        final(text)@ == old(text)@ + row@.map_values(|cell: char| printed(cell)),
{
    let ghost shown = row@.map_values(|cell: char| printed(cell));
    let mut done: usize = 0;
    while done < row.len()
        invariant
            done <= row@.len(),
            shown == row@.map_values(|cell: char| printed(cell)),
            text@ == old(text)@ + shown.subrange(0, done as int),
        decreases row@.len() - done,
    {
        text.append(cell_text(row[done]));
        done += 1;
        assert(text@ =~= old(text)@ + shown.subrange(0, done as int));
    }
    assert(shown.subrange(0, done as int) =~= shown);
}

} // verus!
