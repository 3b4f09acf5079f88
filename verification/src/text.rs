//! Text: comparing it, taking it apart and writing numbers.

use vstd::prelude::*;
use vstd::string::{StrSliceExecFns, StringExecFns};
use vstd::utf8::{encode_utf8, encode_utf8_decode_utf8};

verus! {

/// The hexadecimal digit for `value`.
pub open spec fn digit(value: nat) -> char {
    let digits = seq!['0', '1', '2', '3', '4', '5', '6', '7', '8', '9'] + seq![
        'a',
        'b',
        'c',
        'd',
        'e',
        'f',
    ];
    digits[value as int]
}

/// `value` in decimal.
pub open spec fn decimal(value: nat) -> Seq<char>
    decreases value,
{
    if value < 10 {
        seq![digit(value)]
    } else {
        decimal(value / 10).push(digit(value % 10))
    }
}

/// The last `width` hexadecimal digits of `value`.
pub open spec fn hexadecimal(value: nat, width: nat) -> Seq<char>
    decreases width,
{
    if width == 0 {
        Seq::empty()
    } else {
        hexadecimal(value / 16, (width - 1) as nat).push(digit(value % 16))
    }
}

/// Whether `text` begins with `prefix`.
pub open spec fn begins(text: Seq<char>, prefix: Seq<char>) -> bool {
    prefix.len() <= text.len() && text.take(prefix.len() as int) == prefix
}

fn digit_text(value: u8) -> (text: &'static str)
    requires
        value < 16,
    ensures
        text@ == seq![digit(value as nat)],
{
    let text = match value {
        0 => "0",
        1 => "1",
        2 => "2",
        3 => "3",
        4 => "4",
        5 => "5",
        6 => "6",
        7 => "7",
        8 => "8",
        9 => "9",
        10 => "a",
        11 => "b",
        12 => "c",
        13 => "d",
        14 => "e",
        _ => "f",
    };
    proof {
        reveal_strlit("0");
        reveal_strlit("1");
        reveal_strlit("2");
        reveal_strlit("3");
        reveal_strlit("4");
        reveal_strlit("5");
        reveal_strlit("6");
        reveal_strlit("7");
        reveal_strlit("8");
        reveal_strlit("9");
        reveal_strlit("a");
        reveal_strlit("b");
        reveal_strlit("c");
        reveal_strlit("d");
        reveal_strlit("e");
        reveal_strlit("f");
        assert(text@ =~= seq![digit(value as nat)]);
    }
    text
}

/// Writes `value` in decimal.
pub fn write_decimal(value: u64) -> (text: String)
    ensures
        text@ == decimal(value as nat),
    decreases value,
{
    if value < 10 {
        return digit_text(value as u8).to_owned();
    }
    let mut text = write_decimal(value / 10);
    text.append(digit_text((value % 10) as u8));
    assert(text@ =~= decimal(value as nat));
    text
}

/// Writes the last `width` hexadecimal digits of `value`.
pub fn write_hexadecimal(value: u64, width: usize) -> (text: String)
    ensures
        text@ == hexadecimal(value as nat, width as nat),
    decreases width,
{
    if width == 0 {
        return String::new();
    }
    let mut text = write_hexadecimal(value / 16, width - 1);
    text.append(digit_text((value % 16) as u8));
    assert(text@ =~= hexadecimal(value as nat, width as nat));
    text
}

/// Whether two texts are the same.
pub fn same(left: &str, right: &str) -> (same: bool)
    ensures
        same <==> left@ == right@,
{
    let a = left.as_bytes();
    let b = right.as_bytes();
    proof {
        encode_utf8_decode_utf8(left@);
        encode_utf8_decode_utf8(right@);
    }
    if a.len() != b.len() {
        return false;
    }
    let mut at: usize = 0;
    while at < a.len()
        invariant
            at <= a@.len() == b@.len(),
            a@ == encode_utf8(left@),
            b@ == encode_utf8(right@),
            forall|i: int| 0 <= i < at ==> a@[i] == b@[i],
        decreases a@.len() - at,
    {
        if a[at] != b[at] {
            return false;
        }
        at = at + 1;
    }
    assert(a@ =~= b@);
    true
}

/// What comes behind `prefix`, where `text` begins with it.
pub fn behind<'a>(text: &'a str, prefix: &str) -> (rest: Option<&'a str>)
    ensures
        match rest {
            Some(rest) => begins(text@, prefix@) && rest@ == text@.skip(prefix@.len() as int),
            None => !begins(text@, prefix@),
        },
{
    let size: usize = prefix.unicode_len();
    let whole: usize = text.unicode_len();
    if whole < size {
        return None;
    }
    let front = text.substring_char(0, size);
    assert(front@ =~= text@.take(size as int));
    if same(front, prefix) {
        let rest = text.substring_char(size, whole);
        assert(rest@ =~= text@.skip(size as int));
        Some(rest)
    } else {
        None
    }
}

/// Where `sought` first stands in `text`, counted in characters.
pub fn find(text: &str, sought: char) -> (place: Option<usize>)
    ensures
        match place {
            Some(place) => place < text@.len() && text@[place as int] == sought && forall|i: int|
                0 <= i < place ==> text@[i] != sought,
            None => forall|i: int| 0 <= i < text@.len() ==> text@[i] != sought,
        },
{
    let mut at: usize = 0;
    let size: usize = text.unicode_len();
    for character in iter: text.chars()
        invariant
            at == iter.index() <= size,
            size == text@.len(),
            iter.seq() == text@,
            forall|i: int| 0 <= i < at ==> text@[i] != sought,
    {
        if character == sought {
            return Some(at);
        }
        at = at + 1;
    }
    None
}

/// UTF-8 takes up to four bytes for a character.
pub proof fn lemma_utf8_len(text: Seq<char>)
    ensures
        encode_utf8(text).len() <= 4 * text.len(),
    decreases text.len(),
{
    if text.len() > 0 {
        lemma_utf8_len(text.drop_first());
    }
}

/// A 16-bit number has up to five decimal digits.
pub proof fn lemma_decimal_len(value: nat)
    requires
        value < 0x1_0000,
    ensures
        1 <= decimal(value).len() <= 5,
{
    reveal_with_fuel(decimal, 5);
}

pub proof fn lemma_hexadecimal_len(value: nat, width: nat)
    ensures
        hexadecimal(value, width).len() == width,
    decreases width,
{
    if width > 0 {
        lemma_hexadecimal_len(value / 16, (width - 1) as nat);
    }
}

/// The digits are those from `0` to `9` and then those from `a` to `f`.
pub proof fn law_digits(value: nat)
    requires
        value < 16,
    ensures
        digit(value) as u32 == if value < 10 {
            0x30 + value as int
        } else {
            0x61 + (value - 10)
        },
{
}

/// In decimal, a number below ten is its digit, and one more digit behind a number that is not zero
/// makes it ten times as much and adds the digit.
pub proof fn law_decimal_places(value: nat, low: nat)
    requires
        low < 10,
    ensures
        decimal(low) == seq![digit(low)],
        value > 0 ==> decimal(10 * value + low) == decimal(value).push(digit(low)),
{
    assert((10 * value + low) / 10 == value && (10 * value + low) % 10 == low);
}

/// One more hexadecimal digit behind a number makes it sixteen times as much and adds the digit.
pub proof fn law_hexadecimal_places(value: nat, low: nat, width: nat)
    requires
        low < 16,
    ensures
        hexadecimal(value, 0) == Seq::<char>::empty(),
        hexadecimal(16 * value + low, width + 1) == hexadecimal(value, width).push(digit(low)),
{
    assert((16 * value + low) / 16 == value && (16 * value + low) % 16 == low);
}

/// A text begins with what stands in front of the rest of it, and with nothing else.
pub proof fn law_begins(text: Seq<char>, prefix: Seq<char>)
    ensures
        begins(prefix + text, prefix),
        begins(text, prefix) <==> exists|rest: Seq<char>| text == prefix + rest,
{
    assert((prefix + text).take(prefix.len() as int) =~= prefix);
    if begins(text, prefix) {
        assert(text =~= prefix + text.skip(prefix.len() as int));
    }
    if exists|rest: Seq<char>| text == prefix + rest {
        let rest = choose|rest: Seq<char>| text == prefix + rest;
        assert(text.take(prefix.len() as int) =~= prefix);
    }
}

/// How many numbers `width` hexadecimal digits can tell apart.
pub open spec fn hexadecimal_span(width: nat) -> nat
    decreases width,
{
    if width == 0 {
        1
    } else {
        16 * hexadecimal_span((width - 1) as nat)
    }
}

/// Numbers that fit in the digits are told apart by them.
pub proof fn law_hexadecimal_tells_apart(left: nat, right: nat, width: nat)
    requires
        left < hexadecimal_span(width),
        right < hexadecimal_span(width),
        hexadecimal(left, width) == hexadecimal(right, width),
    ensures
        left == right,
    decreases width,
{
    if width > 0 {
        let shorter = (width - 1) as nat;
        let (a, b) = (hexadecimal(left / 16, shorter), hexadecimal(right / 16, shorter));
        assert(a.push(digit(left % 16)).last() == b.push(digit(right % 16)).last());
        law_digits(left % 16);
        law_digits(right % 16);
        assert(left % 16 == right % 16);
        assert(a.push(digit(left % 16)).drop_last() =~= a);
        assert(b.push(digit(right % 16)).drop_last() =~= b);
        law_hexadecimal_tells_apart(left / 16, right / 16, shorter);
    }
}

} // verus!
