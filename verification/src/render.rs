use vstd::prelude::*;

use crate::grammar::{all_digits, is_digit, number_value};

verus! {

/// The character that writes the digit `d`.
pub open spec fn digit_char(d: int) -> char {
    if d == 0 {
        '0'
    } else if d == 1 {
        '1'
    } else if d == 2 {
        '2'
    } else if d == 3 {
        '3'
    } else if d == 4 {
        '4'
    } else if d == 5 {
        '5'
    } else if d == 6 {
        '6'
    } else if d == 7 {
        '7'
    } else if d == 8 {
        '8'
    } else {
        '9'
    }
}

/// The number `n` written in base ten, without leading zeros.
pub open spec fn decimal(n: nat) -> Seq<char>
    decreases n,
{
    if n < 10 {
        seq![digit_char(n as int)]
    } else {
        decimal(n / 10).push(digit_char((n % 10) as int))
    }
}

/// What `decimal` writes is read back as the same number: it holds digits only,
/// at least one, and their value is the number.
pub proof fn lemma_decimal(n: nat)
    ensures
        decimal(n).len() >= 1,
        all_digits(decimal(n)),
        number_value(decimal(n)) == n,
    decreases n,
{
    let d = digit_char((n % 10) as int);
    assert(is_digit(d) && d as u32 - 48 == n % 10);
    if n < 10 {
        let text = decimal(n);
        assert(text.drop_last() =~= Seq::<char>::empty());
        assert(number_value(text.drop_last()) == 0);
    } else {
        lemma_decimal(n / 10);
        let text = decimal(n);
        assert(text.drop_last() =~= decimal(n / 10));
        assert forall|i: int| 0 <= i < text.len() implies is_digit(#[trigger] text[i]) by {
            if i < text.len() - 1 {
                assert(text[i] == decimal(n / 10)[i]);
            }
        }
    }
}

/// The text of one digit.
fn digit_text(d: usize) -> (r: &'static str)
    requires
        d < 10,
    ensures
        r@ == seq![digit_char(d as int)],
{
    proof {
        reveal_strlit("0");
        reveal_strlit("1");
        reveal_strlit("2");
        reveal_strlit("3");
        reveal_strlit("4");
        reveal_strlit("5");
        reveal_strlit("6");
        reveal_strlit("7");
        reveal_strlit("8");
        reveal_strlit("9");
    }
    let text = if d == 0 {
        "0"
    } else if d == 1 {
        "1"
    } else if d == 2 {
        "2"
    } else if d == 3 {
        "3"
    } else if d == 4 {
        "4"
    } else if d == 5 {
        "5"
    } else if d == 6 {
        "6"
    } else if d == 7 {
        "7"
    } else if d == 8 {
        "8"
    } else {
        "9"
    };
    assert(text@ =~= seq![digit_char(d as int)]);
    text
}

/// Writes `n` in base ten at the end of `text`.
pub fn push_decimal(text: &mut String, n: usize)
    ensures
        final(text)@ == old(text)@ + decimal(n as nat),
    decreases n,
{
    if n >= 10 {
        push_decimal(text, n / 10);
    }
    text.append(digit_text(n % 10));
    proof {
        if n >= 10 {
            assert(old(text)@ + decimal((n / 10) as nat) + seq![digit_char((n % 10) as int)]
                =~= old(text)@ + decimal(n as nat));
        }
    }
}

/// The face of a die that shows `die` pips, for 1 to 6; the game die for any
/// other number.
pub open spec fn face_char(die: u8) -> char {
    if die == 1 {
        '\u{2680}'
    } else if die == 2 {
        '\u{2681}'
    } else if die == 3 {
        '\u{2682}'
    } else if die == 4 {
        '\u{2683}'
    } else if die == 5 {
        '\u{2684}'
    } else if die == 6 {
        '\u{2685}'
    } else {
        '\u{1F3B2}'
    }
}

/// Two dice as numbers with a hyphen between them.
pub open spec fn dice_text(first: u8, second: u8) -> Seq<char> {
    decimal(first as nat) + seq!['-'] + decimal(second as nat)
}

/// Two dice as faces with a hyphen between them.
pub open spec fn dice_faces(first: u8, second: u8) -> Seq<char> {
    seq![face_char(first), '-', face_char(second)]
}

/// The text of the face of a die.
fn face_text(die: u8) -> (r: &'static str)
    ensures
        r@ == seq![face_char(die)],
{
    proof {
        reveal_strlit("\u{2680}");
        reveal_strlit("\u{2681}");
        reveal_strlit("\u{2682}");
        reveal_strlit("\u{2683}");
        reveal_strlit("\u{2684}");
        reveal_strlit("\u{2685}");
        reveal_strlit("\u{1F3B2}");
    }
    let text = if die == 1 {
        "\u{2680}"
    } else if die == 2 {
        "\u{2681}"
    } else if die == 3 {
        "\u{2682}"
    } else if die == 4 {
        "\u{2683}"
    } else if die == 5 {
        "\u{2684}"
    } else if die == 6 {
        "\u{2685}"
    } else {
        "\u{1F3B2}"
    };
    assert(text@ =~= seq![face_char(die)]);
    text
}

/// Two dice as numbers with a hyphen between them.
pub fn write_dice(first: u8, second: u8) -> (r: String)
    ensures
        r@ == dice_text(first, second),
{
    proof {
        reveal_strlit("-");
    }
    let mut text = String::new();
    push_decimal(&mut text, first as usize);
    text.append("-");
    push_decimal(&mut text, second as usize);
    assert("-"@ =~= seq!['-']);
    assert(text@ =~= dice_text(first, second));
    text
}

/// Two dice as faces with a hyphen between them.
pub fn write_faces(first: u8, second: u8) -> (r: String)
    ensures
        r@ == dice_faces(first, second),
{
    proof {
        reveal_strlit("-");
    }
    let mut text = String::new();
    text.append(face_text(first));
    text.append("-");
    text.append(face_text(second));
    assert("-"@ =~= seq!['-']);
    assert(text@ =~= dice_faces(first, second));
    text
}

} // verus!
