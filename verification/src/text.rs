//! Moving text between `str`, `String` and character sequences.

use vstd::prelude::*;

verus! {

/// Appends one character to a string.
///
/// Trusted: calls `String::push`, which std documents as appending the given
/// `char` to the end of the string; this contract says exactly that of the
/// string's characters.
#[verifier::external_body]
pub(crate) fn push_char(text: &mut String, character: char)
    ensures
        final(text)@ == old(text)@.push(character),
{
    text.push(character);
}

/// The characters of `text`, in order.
pub fn chars_of(text: &str) -> (characters: Vec<char>)
    ensures
        characters@ == text@,
{
    let count = text.unicode_len();
    let mut characters: Vec<char> = Vec::new();
    let mut index: usize = 0;
    while index < count
        invariant
            count == text@.len(),
            index <= count,
            characters@ == text@.take(index as int),
        decreases count - index,
    {
        characters.push(text.get_char(index));
        proof {
            assert(text@.take(index as int + 1) =~= text@.take(index as int).push(text@[index as int]));
        }
        index += 1;
    }
    proof {
        assert(text@.take(count as int) =~= text@);
    }
    characters
}

/// A string holding `characters[start..end]`.
pub fn string_of(characters: &[char], start: usize, end: usize) -> (text: String)
    requires
        start <= end <= characters@.len(),
    ensures
        text@ == characters@.subrange(start as int, end as int),
{
    let mut text = String::new();
    let mut index = start;
    while index < end
        invariant
            start <= index <= end,
            end <= characters@.len(),
            text@ == characters@.subrange(start as int, index as int),
        decreases end - index,
    {
        push_char(&mut text, characters[index]);
        proof {
            assert(characters@.subrange(start as int, index as int + 1) =~= characters@.subrange(
                start as int,
                index as int,
            ).push(characters@[index as int]));
        }
        index += 1;
    }
    text
}

/// Whether `characters[start..end]` spells `key`.
pub(crate) fn same_chars(characters: &[char], start: usize, end: usize, key: &str) -> (same: bool)
    requires
        start <= end <= characters@.len(),
    ensures
        same == (characters@.subrange(start as int, end as int) == key@),
{
    let key_characters = chars_of(key);
    if key_characters.len() != end - start {
        proof {
            assert(characters@.subrange(start as int, end as int).len() != key@.len());
        }
        return false;
    }
    let mut index: usize = 0;
    while index < key_characters.len()
        invariant
            start <= end <= characters@.len(),
            key_characters@ == key@,
            key_characters@.len() == end - start,
            index <= key_characters@.len(),
            forall|i: int| 0 <= i < index ==> characters@[start + i] == #[trigger] key@[i],
        decreases key_characters@.len() - index,
    {
        if characters[start + index] != key_characters[index] {
            proof {
                assert(characters@.subrange(start as int, end as int)[index as int] != key@[index as int]);
            }
            return false;
        }
        index += 1;
    }
    proof {
        assert(characters@.subrange(start as int, end as int) =~= key@);
    }
    true
}

/// Whether two strings hold the same characters.
pub fn same_text(a: &str, b: &str) -> (same: bool)
    ensures
        same == (a@ == b@),
{
    let characters = chars_of(a);
    let same = same_chars(characters.as_slice(), 0, characters.len(), b);
    proof {
        assert(characters@.subrange(0, characters@.len() as int) =~= a@);
    }
    same
}

/// The character for a decimal digit.
pub open spec fn digit_char(digit: nat) -> char {
    if digit == 0 {
        '0'
    } else if digit == 1 {
        '1'
    } else if digit == 2 {
        '2'
    } else if digit == 3 {
        '3'
    } else if digit == 4 {
        '4'
    } else if digit == 5 {
        '5'
    } else if digit == 6 {
        '6'
    } else if digit == 7 {
        '7'
    } else if digit == 8 {
        '8'
    } else {
        '9'
    }
}

/// `n` written in decimal, most significant digit first, with no leading
/// zeros.
pub open spec fn decimal_text(n: nat) -> Seq<char>
    decreases n,
{
    if n < 10 {
        seq![digit_char(n)]
    } else {
        decimal_text(n / 10).push(digit_char(n % 10))
    }
}

fn push_digit(out: &mut String, digit: u32)
    requires
        digit < 10,
    ensures
        final(out)@ == old(out)@.push(digit_char(digit as nat)),
{
    let c = if digit == 0 {
        '0'
    } else if digit == 1 {
        '1'
    } else if digit == 2 {
        '2'
    } else if digit == 3 {
        '3'
    } else if digit == 4 {
        '4'
    } else if digit == 5 {
        '5'
    } else if digit == 6 {
        '6'
    } else if digit == 7 {
        '7'
    } else if digit == 8 {
        '8'
    } else {
        '9'
    };
    push_char(out, c);
}

/// Appends `n` in decimal to `out`.
pub fn push_decimal(out: &mut String, n: u32)
    ensures
        final(out)@ == old(out)@ + decimal_text(n as nat),
    decreases n,
{
    if n >= 10 {
        push_decimal(out, n / 10);
    }
    push_digit(out, n % 10);
    proof {
        if n < 10 {
            assert(old(out)@.push(digit_char(n as nat)) =~= old(out)@ + seq![digit_char(n as nat)]);
        } else {
            assert(old(out)@ + decimal_text((n / 10) as nat) + seq![digit_char((n % 10) as nat)]
                =~= old(out)@ + decimal_text((n / 10) as nat).push(digit_char((n % 10) as nat)));
        }
    }
}

/// How many bytes UTF-8 takes for `c`.
pub open spec fn utf8_width(c: char) -> nat {
    if (c as u32) < 0x80 {
        1
    } else if (c as u32) < 0x800 {
        2
    } else if (c as u32) < 0x10000 {
        3
    } else {
        4
    }
}

/// How many bytes UTF-8 takes for `s`.
pub open spec fn byte_len(s: Seq<char>) -> nat
    decreases s.len(),
{
    if s.len() == 0 {
        0
    } else {
        byte_len(s.drop_last()) + utf8_width(s.last())
    }
}

/// How many bytes UTF-8 takes for `c`.
pub fn utf8_width_of(c: char) -> (width: usize)
    ensures
        width == utf8_width(c),
{
    let code = c as u32;
    if code < 0x80 {
        1
    } else if code < 0x800 {
        2
    } else if code < 0x10000 {
        3
    } else {
        4
    }
}

} // verus!
