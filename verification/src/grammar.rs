use vstd::prelude::*;

verus! {

/// True for the characters that separate the groups of a turn's text: those with
/// the Unicode property White_Space.
pub open spec fn is_space(c: char) -> bool {
    let n = c as u32;
    (9 <= n <= 13) || n == 0x20 || n == 0x85 || n == 0xA0 || n == 0x1680 || (0x2000 <= n
        <= 0x200A) || n == 0x2028 || n == 0x2029 || n == 0x202F || n == 0x205F || n == 0x3000
}

/// True for the ten decimal digits of ASCII.
pub open spec fn is_digit(c: char) -> bool {
    48 <= c as u32 <= 57
}

/// The number of characters before the first `/` of `text`, or its length if it
/// holds none.
pub open spec fn field_len(text: Seq<char>) -> int
    decreases text.len(),
{
    if text.len() == 0 || text[0] == '/' {
        0
    } else {
        1 + field_len(text.drop_first())
    }
}

/// The number of characters before the first separator of `text`.
pub open spec fn word_len(text: Seq<char>) -> int
    decreases text.len(),
{
    if text.len() == 0 || is_space(text[0]) {
        0
    } else {
        1 + word_len(text.drop_first())
    }
}

/// The number of separators that `text` starts with.
pub open spec fn spaces_len(text: Seq<char>) -> int
    decreases text.len(),
{
    if text.len() == 0 || !is_space(text[0]) {
        0
    } else {
        1 + spaces_len(text.drop_first())
    }
}

/// True if every character of `text` is a digit.
pub open spec fn all_digits(text: Seq<char>) -> bool {
    forall|i: int| 0 <= i < text.len() ==> is_digit(#[trigger] text[i])
}

/// The number that the digits of `text` write in base ten.
pub open spec fn number_value(text: Seq<char>) -> nat
    decreases text.len(),
{
    if text.len() == 0 {
        0
    } else {
        number_value(text.drop_last()) * 10 + (text.last() as u32 - 48) as nat
    }
}

/// True if `text` writes a number that a `usize` holds: one digit or more, and a
/// value within range.
pub open spec fn is_number(text: Seq<char>) -> bool {
    text.len() > 0 && all_digits(text) && number_value(text) <= usize::MAX
}

/// The word that names the bar.
pub open spec fn bar_word() -> Seq<char> {
    seq!['b', 'a', 'r']
}

/// The word that names the rail.
pub open spec fn off_word() -> Seq<char> {
    seq!['o', 'f', 'f']
}

/// The three counts stay within the text, and a text that starts with no
/// separator starts with a word.
pub proof fn lemma_lens(text: Seq<char>)
    ensures
        0 <= field_len(text) <= text.len(),
        0 <= word_len(text) <= text.len(),
        0 <= spaces_len(text) <= text.len(),
        text.len() > 0 && !is_space(text[0]) ==> word_len(text) >= 1,
        spaces_len(text) < text.len() ==> !is_space(text[spaces_len(text)]),
        forall|k: int| 0 <= k < spaces_len(text) ==> is_space(#[trigger] text[k]),
        forall|k: int| 0 <= k < word_len(text) ==> !is_space(#[trigger] text[k]),
        word_len(text) < text.len() ==> is_space(text[word_len(text)]),
        forall|k: int| 0 <= k < field_len(text) ==> #[trigger] text[k] != '/',
        field_len(text) < text.len() ==> text[field_len(text)] == '/',
    decreases text.len(),
{
    if text.len() > 0 {
        let rest = text.drop_first();
        lemma_lens(rest);
        assert forall|k: int| 0 <= k < spaces_len(text) implies is_space(#[trigger] text[k]) by {
            if k > 0 {
                assert(text[k] == rest[k - 1]);
            }
        }
        assert forall|k: int| 0 <= k < word_len(text) implies !is_space(#[trigger] text[k]) by {
            if k > 0 {
                assert(text[k] == rest[k - 1]);
            }
        }
        assert forall|k: int| 0 <= k < field_len(text) implies #[trigger] text[k] != '/' by {
            if k > 0 {
                assert(text[k] == rest[k - 1]);
            }
        }
        if spaces_len(text) > 0 && spaces_len(text) < text.len() {
            assert(text[spaces_len(text)] == rest[spaces_len(rest)]);
        }
        if word_len(text) > 0 && word_len(text) < text.len() {
            assert(text[word_len(text)] == rest[word_len(rest)]);
        }
        if field_len(text) > 0 && field_len(text) < text.len() {
            assert(text[field_len(text)] == rest[field_len(rest)]);
        }
    }
}

/// Executable form of [`is_space`].
pub fn is_space_char(c: char) -> (r: bool)
    ensures
        r == is_space(c),
{
    let n = c as u32;
    (9 <= n && n <= 13) || n == 0x20 || n == 0x85 || n == 0xA0 || n == 0x1680 || (0x2000 <= n
        && n <= 0x200A) || n == 0x2028 || n == 0x2029 || n == 0x202F || n == 0x205F || n
        == 0x3000
}

/// The characters of `text`, one by one.
pub fn chars_of(text: &str) -> (r: Vec<char>)
    ensures
        r@ == text@,
{
    let n = text.unicode_len();
    let mut chars: Vec<char> = Vec::new();
    let mut i: usize = 0;
    while i < n
        invariant
            i <= n,
            n == text@.len(),
            chars@ == text@.take(i as int),
        decreases n - i,
    {
        chars.push(text.get_char(i));
        i += 1;
        assert(chars@ =~= text@.take(i as int));
    }
    assert(text@.take(n as int) =~= text@);
    chars
}

/// The place of the first `/` at or after `from`, or the length of `text`.
pub fn field_end(text: &Vec<char>, from: usize) -> (r: usize)
    requires
        from <= text@.len(),
    ensures
        from <= r <= text@.len(),
        r - from == field_len(text@.skip(from as int)),
        r < text@.len() ==> text@[r as int] == '/',
        forall|k: int| from <= k < r ==> text@[k] != '/',
{
    let mut i: usize = from;
    assert(text@.skip(from as int).skip(0) =~= text@.skip(from as int));
    while i < text.len() && text[i] != '/'
        invariant
            from <= i <= text@.len(),
            forall|k: int| from <= k < i ==> text@[k] != '/',
            field_len(text@.skip(from as int)) == (i - from) + field_len(text@.skip(i as int)),
        decreases text@.len() - i,
    {
        proof {
            assert(text@.skip(i as int)[0] == text@[i as int]);
            assert(text@.skip(i as int).drop_first() =~= text@.skip(i + 1));
        }
        i += 1;
    }
    proof {
        if i < text@.len() {
            assert(text@.skip(i as int)[0] == text@[i as int]);
        }
    }
    i
}

/// The place of the first separator at or after `from`, or the length of `text`.
pub fn word_end(text: &Vec<char>, from: usize) -> (r: usize)
    requires
        from <= text@.len(),
    ensures
        from <= r <= text@.len(),
        r - from == word_len(text@.skip(from as int)),
{
    let mut i: usize = from;
    while i < text.len() && !is_space_char(text[i])
        invariant
            from <= i <= text@.len(),
            word_len(text@.skip(from as int)) == (i - from) + word_len(text@.skip(i as int)),
        decreases text@.len() - i,
    {
        proof {
            assert(text@.skip(i as int)[0] == text@[i as int]);
            assert(text@.skip(i as int).drop_first() =~= text@.skip(i + 1));
        }
        i += 1;
    }
    proof {
        if i < text@.len() {
            assert(text@.skip(i as int)[0] == text@[i as int]);
        }
    }
    i
}

/// The place of the first character at or after `from` that is no separator, or
/// the length of `text`.
pub fn spaces_end(text: &Vec<char>, from: usize) -> (r: usize)
    requires
        from <= text@.len(),
    ensures
        from <= r <= text@.len(),
        r - from == spaces_len(text@.skip(from as int)),
{
    let mut i: usize = from;
    while i < text.len() && is_space_char(text[i])
        invariant
            from <= i <= text@.len(),
            spaces_len(text@.skip(from as int)) == (i - from) + spaces_len(text@.skip(i as int)),
        decreases text@.len() - i,
    {
        proof {
            assert(text@.skip(i as int)[0] == text@[i as int]);
            assert(text@.skip(i as int).drop_first() =~= text@.skip(i + 1));
        }
        i += 1;
    }
    proof {
        if i < text@.len() {
            assert(text@.skip(i as int)[0] == text@[i as int]);
        }
    }
    i
}

/// What one field of a group says.
#[derive(Clone, Copy, Debug, PartialEq, Eq, Structural)]
pub enum Token {
    /// A number that a `usize` holds.
    Number(usize),
    /// The word `bar`.
    Bar,
    /// The word `off`.
    Off,
    /// Anything else.
    Unknown,
}

/// What the field `text` says.
pub open spec fn token_of(text: Seq<char>) -> Token {
    if text == bar_word() {
        Token::Bar
    } else if text == off_word() {
        Token::Off
    } else if is_number(text) {
        Token::Number(number_value(text) as usize)
    } else {
        Token::Unknown
    }
}

/// The digits that a number starts with write no more than the whole number.
pub proof fn lemma_number_prefix(text: Seq<char>, k: int)
    requires
        all_digits(text),
        0 <= k <= text.len(),
    ensures
        number_value(text.take(k)) <= number_value(text),
    decreases text.len() - k,
{
    if k < text.len() {
        lemma_number_prefix(text, k + 1);
        assert(text.take(k + 1).drop_last() =~= text.take(k));
        assert(is_digit(text[k]));
        assert(text.take(k + 1).last() == text[k]);
    } else {
        assert(text.take(k) =~= text);
    }
}

/// Reads the field of `text` between `start` and `end`.
pub fn read_token(text: &Vec<char>, start: usize, end: usize) -> (r: Token)
    requires
        start <= end <= text@.len(),
    ensures
        r == token_of(text@.subrange(start as int, end as int)),
{
    let ghost field = text@.subrange(start as int, end as int);
    if end - start == 3 {
        if text[start] == 'b' && text[start + 1] == 'a' && text[start + 2] == 'r' {
            assert(field =~= bar_word());
            return Token::Bar;
        }
        if text[start] == 'o' && text[start + 1] == 'f' && text[start + 2] == 'f' {
            assert(field =~= off_word());
            return Token::Off;
        }
        assert(field != bar_word()) by {
            if field == bar_word() {
                assert(field[0] == 'b' && field[1] == 'a' && field[2] == 'r');
            }
        }
        assert(field != off_word()) by {
            if field == off_word() {
                assert(field[0] == 'o' && field[1] == 'f' && field[2] == 'f');
            }
        }
    } else {
        assert(field.len() != 3);
        assert(bar_word().len() == 3);
        assert(off_word().len() == 3);
    }
    if start == end {
        return Token::Unknown;
    }
    let mut value: usize = 0;
    let mut i: usize = start;
    assert(field.take(0) =~= Seq::<char>::empty());
    while i < end
        invariant
            start <= i <= end <= text@.len(),
            field == text@.subrange(start as int, end as int),
            field != bar_word(),
            field != off_word(),
            all_digits(field.take(i - start)),
            value == number_value(field.take(i - start)),
        decreases end - i,
    {
        let c = text[i];
        let n = c as u32;
        let ghost next = field.take(i - start + 1);
        proof {
            assert(field[i - start] == c);
            assert(next.drop_last() =~= field.take(i - start));
            assert(next.last() == c);
        }
        if n < 48 || n > 57 {
            assert(!is_digit(field[i - start]));
            return Token::Unknown;
        }
        let digit = (n - 48) as usize;
        if value > (usize::MAX - digit) / 10 {
            proof {
                assert(number_value(next) > usize::MAX);
                if all_digits(field) {
                    lemma_number_prefix(field, i - start + 1);
                }
            }
            return Token::Unknown;
        }
        value = value * 10 + digit;
        proof {
            assert forall|k: int| 0 <= k < next.len() implies is_digit(#[trigger] next[k]) by {
                if k < next.len() - 1 {
                    assert(next[k] == field.take(i - start)[k]);
                }
            }
        }
        i += 1;
    }
    proof {
        assert(field.take(end - start) =~= field);
    }
    Token::Number(value)
}

} // verus!
