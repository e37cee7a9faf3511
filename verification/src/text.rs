//! Text: comparing it, and numbers written in it.
use crate::outside;
use crate::wire;
use vstd::prelude::*;

verus! {

/// Whether two texts are the same.
pub fn same_text(left: &str, right: &str) -> (same: bool)
    ensures
        same == (left@ == right@),
{
    let same = wire::bytes_equal(left.as_bytes(), right.as_bytes());
    proof {
        vstd::utf8::encode_utf8_decode_utf8(left@);
        vstd::utf8::encode_utf8_decode_utf8(right@);
    }
    same
}

/// A copy of a text.
pub fn copy_text(text: &str) -> (copy: String)
    ensures
        copy@ == text@,
{
    text.to_owned()
}

/// Whether a character is a control character: one of the Unicode category Cc.
pub open spec fn is_control(character: char) -> bool {
    character as u32 <= 0x1f || 0x7f <= character as u32 <= 0x9f
}

/// Whether a character is a control character.
pub fn is_control_char(character: char) -> (control: bool)
    ensures
        control == is_control(character),
{
    let code: u32 = character as u32;
    code <= 0x1f || (0x7f <= code && code <= 0x9f)
}

/// The character that stands for a decimal digit.
pub open spec fn digit_char(digit: int) -> char {
    ('0' as int + digit) as char
}

/// Whether a character is a decimal digit.
pub open spec fn is_digit(character: char) -> bool {
    '0' <= character <= '9'
}

/// A number in decimal notation.
pub open spec fn decimal_text(value: nat) -> Seq<char>
    decreases value,
{
    if value < 10 {
        seq![digit_char(value as int)]
    } else {
        decimal_text(value / 10).push(digit_char((value % 10) as int))
    }
}

/// The number that a row of digits stands for, none where a character is no digit.
pub open spec fn digits_value(digits: Seq<char>) -> Option<nat>
    decreases digits.len(),
{
    if digits.len() == 0 {
        Some(0)
    } else {
        match digits_value(digits.drop_last()) {
            Some(value) => if is_digit(digits.last()) {
                Some((value * 10 + (digits.last() as int - '0' as int)) as nat)
            } else {
                None
            },
            None => None,
        }
    }
}

/// The digits of a number, without the plus sign that may stand before them.
pub open spec fn unsigned_digits(text: Seq<char>) -> Seq<char> {
    if text.len() > 0 && text[0] == '+' {
        text.subrange(1, text.len() as int)
    } else {
        text
    }
}

/// The number that a text stands for: at least one digit, after a plus sign or none.
pub open spec fn decimal_value(text: Seq<char>) -> Option<nat> {
    if unsigned_digits(text).len() == 0 {
        None
    } else {
        digits_value(unsigned_digits(text))
    }
}

/// A part of a row of digits stands for a number that is no larger.
proof fn lemma_prefix_is_smaller(digits: Seq<char>, length: int)
    requires
        0 <= length <= digits.len(),
    ensures
        digits_value(digits) matches Some(value) ==> (digits_value(
            digits.subrange(0, length),
        ) matches Some(part) && part <= value),
    decreases digits.len(),
{
    if length == digits.len() {
        assert(digits.subrange(0, length) =~= digits);
    } else {
        lemma_prefix_is_smaller(digits.drop_last(), length);
        assert(digits.drop_last().subrange(0, length) =~= digits.subrange(0, length));
    }
}

/// The digit that a character stands for.
fn digit_of(character: char) -> (digit: u64)
    requires
        is_digit(character),
    ensures
        digit == character as int - '0' as int,
{
    (character as u32 - 48) as u64
}

/// The number that a text stands for, if it is at most `maximum`.
pub fn parse_decimal(text: &str, maximum: u64) -> (value: Option<u64>)
    ensures
        match value {
            Some(number) => decimal_value(text@) == Some(number as nat) && number <= maximum,
            None => match decimal_value(text@) {
                Some(number) => number > maximum,
                None => true,
            },
        },
{
    let length: usize = text.unicode_len();
    let start: usize = if length > 0 && text.get_char(0) == '+' {
        1
    } else {
        0
    };
    let ghost digits = unsigned_digits(text@);
    assert(digits =~= text@.subrange(start as int, length as int));
    if start == length {
        return None;
    }
    let mut value: u64 = 0;
    let mut index: usize = start;
    while index < length
        invariant
            start <= index <= length,
            length == text@.len(),
            digits == text@.subrange(start as int, length as int),
            digits == unsigned_digits(text@),
            digits.len() > 0,
            digits_value(digits.subrange(0, index - start)) == Some(value as nat),
            value <= maximum,
        decreases length - index,
    {
        let character = text.get_char(index);
        let ghost before = digits.subrange(0, index - start);
        let ghost after = digits.subrange(0, index + 1 - start);
        proof {
            assert(after.drop_last() =~= before);
            assert(after.last() == character);
            lemma_prefix_is_smaller(digits, index + 1 - start);
        }
        if character < '0' || character > '9' {
            return None;
        }
        let digit: u64 = digit_of(character);
        if value > maximum / 10 {
            return None;
        }
        let tenfold: u64 = value * 10;
        if digit > maximum - tenfold {
            return None;
        }
        value = tenfold + digit;
        index = index + 1;
    }
    assert(digits.subrange(0, length - start) =~= digits);
    Some(value)
}

/// The character that stands for a decimal digit.
fn char_of_digit(digit: u64) -> (character: char)
    requires
        digit < 10,
    ensures
        character == digit_char(digit as int),
{
    match digit {
        0 => '0',
        1 => '1',
        2 => '2',
        3 => '3',
        4 => '4',
        5 => '5',
        6 => '6',
        7 => '7',
        8 => '8',
        _ => '9',
    }
}

/// A number in decimal notation.
pub fn decimal(value: u64) -> (text: String)
    ensures
        text@ == decimal_text(value as nat),
    decreases value,
{
    let mut text = if value < 10 {
        String::new()
    } else {
        decimal(value / 10)
    };
    outside::push_char(&mut text, char_of_digit(value % 10));
    assert(text@ =~= decimal_text(value as nat));
    text
}

/// A number in decimal notation, with a minus sign where it is negative.
pub open spec fn signed_text(value: int) -> Seq<char> {
    if value < 0 {
        seq!['-'] + decimal_text((-value) as nat)
    } else {
        decimal_text(value as nat)
    }
}

/// A number in decimal notation, with a minus sign where it is negative.
pub fn signed(value: i64) -> (text: String)
    ensures
        text@ == signed_text(value as int),
{
    if value >= 0 {
        return decimal(value as u64);
    }
    let mut text = String::new();
    outside::push_char(&mut text, '-');
    outside::push_text(&mut text, decimal((-(value as i128)) as u64).as_str());
    assert(text@ =~= signed_text(value as int));
    text
}

/// A number that is written in decimal notation is read back.
pub proof fn lemma_decimal_round_trip(value: nat)
    ensures
        decimal_value(decimal_text(value)) == Some(value),
{
    lemma_digits_round_trip(value);
    lemma_no_sign(value);
}

proof fn lemma_digits_round_trip(value: nat)
    ensures
        digits_value(decimal_text(value)) == Some(value),
    decreases value,
{
    if value < 10 {
        let digits = decimal_text(value);
        assert(digits.drop_last() =~= Seq::<char>::empty());
        assert(digits.last() == digit_char(value as int));
        assert(digits_value(digits.drop_last()) == Some(0nat));
    } else {
        lemma_digits_round_trip(value / 10);
        assert(decimal_text(value).drop_last() =~= decimal_text(value / 10));
    }
}

proof fn lemma_no_sign(value: nat)
    ensures
        decimal_text(value).len() > 0,
        is_digit(decimal_text(value)[0]),
    decreases value,
{
    if value >= 10 {
        lemma_no_sign(value / 10);
        assert(decimal_text(value)[0] == decimal_text(value / 10)[0]);
    }
}

/// The character that stands for a hexadecimal digit, with letters in upper or lower case.
pub open spec fn hex_char(digit: int, upper: bool) -> char {
    if digit < 10 {
        ('0' as int + digit) as char
    } else if upper {
        ('A' as int + digit - 10) as char
    } else {
        ('a' as int + digit - 10) as char
    }
}

/// A byte as two hexadecimal digits.
pub open spec fn hex_pair(byte: u8, upper: bool) -> Seq<char> {
    seq![hex_char(byte as int / 16, upper), hex_char(byte as int % 16, upper)]
}

/// Bytes as hexadecimal digits, lower case, without separators.
pub open spec fn hex_text(bytes: Seq<u8>) -> Seq<char>
    decreases bytes.len(),
{
    if bytes.len() == 0 {
        Seq::empty()
    } else {
        hex_text(bytes.drop_last()) + hex_pair(bytes.last(), false)
    }
}

/// Bytes as hexadecimal digits, upper case, with a colon between two bytes.
pub open spec fn colon_text(bytes: Seq<u8>) -> Seq<char>
    decreases bytes.len(),
{
    if bytes.len() == 0 {
        Seq::empty()
    } else if bytes.len() == 1 {
        hex_pair(bytes[0], true)
    } else {
        colon_text(bytes.drop_last()) + seq![':'] + hex_pair(bytes.last(), true)
    }
}

/// How long bytes with colons between them are in words.
pub proof fn lemma_colon_text_length(bytes: Seq<u8>)
    requires
        bytes.len() > 0,
    ensures
        colon_text(bytes).len() == 3 * bytes.len() - 1,
    decreases bytes.len(),
{
    if bytes.len() > 1 {
        lemma_colon_text_length(bytes.drop_last());
    }
}

fn char_of_hex_digit(digit: u8, upper: bool) -> (character: char)
    requires
        digit < 16,
    ensures
        character == hex_char(digit as int, upper),
{
    match (digit, upper) {
        (0, _) => '0',
        (1, _) => '1',
        (2, _) => '2',
        (3, _) => '3',
        (4, _) => '4',
        (5, _) => '5',
        (6, _) => '6',
        (7, _) => '7',
        (8, _) => '8',
        (9, _) => '9',
        (10, true) => 'A',
        (11, true) => 'B',
        (12, true) => 'C',
        (13, true) => 'D',
        (14, true) => 'E',
        (_, true) => 'F',
        (10, false) => 'a',
        (11, false) => 'b',
        (12, false) => 'c',
        (13, false) => 'd',
        (14, false) => 'e',
        (_, false) => 'f',
    }
}

fn push_hex_pair(text: &mut String, byte: u8, upper: bool)
    ensures
        final(text)@ == old(text)@ + hex_pair(byte, upper),
{
    outside::push_char(text, char_of_hex_digit(byte / 16, upper));
    outside::push_char(text, char_of_hex_digit(byte % 16, upper));
    assert(text@ =~= old(text)@ + hex_pair(byte, upper));
}

/// Bytes as hexadecimal digits, lower case, without separators.
pub fn hex_lower(bytes: &[u8]) -> (text: String)
    ensures
        text@ == hex_text(bytes@),
{
    let mut text = String::new();
    let mut index: usize = 0;
    assert(bytes@.take(0) =~= Seq::<u8>::empty());
    while index < bytes.len()
        invariant
            index <= bytes@.len(),
            text@ == hex_text(bytes@.take(index as int)),
        decreases bytes@.len() - index,
    {
        push_hex_pair(&mut text, bytes[index], false);
        assert(bytes@.take(index + 1).drop_last() =~= bytes@.take(index as int));
        index = index + 1;
    }
    assert(bytes@.take(index as int) =~= bytes@);
    text
}

/// Bytes as hexadecimal digits, upper case, with a colon between two bytes.
pub fn hex_with_colons(bytes: &[u8]) -> (text: String)
    ensures
        text@ == colon_text(bytes@),
{
    let mut text = String::new();
    let mut index: usize = 0;
    assert(bytes@.take(0) =~= Seq::<u8>::empty());
    while index < bytes.len()
        invariant
            index <= bytes@.len(),
            text@ == colon_text(bytes@.take(index as int)),
        decreases bytes@.len() - index,
    {
        let ghost before = text@;
        if index > 0 {
            outside::push_char(&mut text, ':');
            assert(text@ =~= before + seq![':']);
        }
        push_hex_pair(&mut text, bytes[index], true);
        assert(bytes@.take(index + 1).drop_last() =~= bytes@.take(index as int));
        assert(index == 0 ==> text@ =~= hex_pair(bytes@[0], true));
        index = index + 1;
    }
    assert(bytes@.take(index as int) =~= bytes@);
    text
}

/// A byte with an ASCII letter in upper case.
pub open spec fn ascii_upper(byte: u8) -> u8 {
    if 0x61 <= byte <= 0x7a {
        (byte - 0x20) as u8
    } else {
        byte
    }
}

/// Whether two byte strings are the same but for the case of ASCII letters.
pub open spec fn same_but_for_case(left: Seq<u8>, right: Seq<u8>) -> bool {
    left.len() == right.len() && forall|index: int|
        0 <= index < left.len() ==> ascii_upper(#[trigger] left[index]) == ascii_upper(right[index])
}

fn to_ascii_upper(byte: u8) -> (upper: u8)
    ensures
        upper == ascii_upper(byte),
{
    if 0x61 <= byte && byte <= 0x7a {
        byte - 0x20
    } else {
        byte
    }
}

/// Whether two texts are the same but for the case of ASCII letters. Texts of the same length
/// are compared to the end, wherever they differ.
pub fn constant_time_ascii_case_equal(expected: &str, received: &str) -> (equal: bool)
    ensures
        equal == same_but_for_case(
            vstd::utf8::encode_utf8(expected@),
            vstd::utf8::encode_utf8(received@),
        ),
{
    let left = expected.as_bytes();
    let right = received.as_bytes();
    if left.len() != right.len() {
        return false;
    }
    let mut difference: u8 = 0;
    let mut index: usize = 0;
    while index < left.len()
        invariant
            index <= left@.len() == right@.len(),
            (difference == 0) == (forall|before: int|
                0 <= before < index ==> ascii_upper(#[trigger] left@[before]) == ascii_upper(
                    right@[before],
                )),
        decreases left@.len() - index,
    {
        let first: u8 = to_ascii_upper(left[index]);
        let second: u8 = to_ascii_upper(right[index]);
        proof {
            let so_far = difference;
            assert(((so_far | (first ^ second)) == 0) == (so_far == 0 && first == second))
                by (bit_vector);
        }
        difference = difference | (first ^ second);
        index = index + 1;
    }
    difference == 0
}

/// Whether, from an index on, one byte string does not come after another in the order of
/// their first difference.
pub open spec fn bytes_not_after(left: Seq<u8>, right: Seq<u8>, index: int) -> bool
    decreases left.len() - index,
{
    if index >= left.len() {
        true
    } else if index >= right.len() {
        false
    } else if left[index] != right[index] {
        left[index] < right[index]
    } else {
        bytes_not_after(left, right, index + 1)
    }
}

/// Whether one text does not come after another: texts are ordered by their bytes.
pub open spec fn not_after(left: Seq<char>, right: Seq<char>) -> bool {
    bytes_not_after(vstd::utf8::encode_utf8(left), vstd::utf8::encode_utf8(right), 0)
}

/// Whether one text does not come after another.
pub fn is_not_after(left: &str, right: &str) -> (result: bool)
    ensures
        result == not_after(left@, right@),
{
    let first = left.as_bytes();
    let second = right.as_bytes();
    let mut index: usize = 0;
    while index < first.len()
        invariant
            first@ == vstd::utf8::encode_utf8(left@),
            second@ == vstd::utf8::encode_utf8(right@),
            index <= first@.len(),
            index <= second@.len(),
            not_after(left@, right@) == bytes_not_after(first@, second@, index as int),
        decreases first@.len() - index,
    {
        if index >= second.len() {
            return false;
        }
        if first[index] != second[index] {
            return first[index] < second[index];
        }
        index = index + 1;
    }
    true
}

/// Of two texts one does not come after the other.
pub proof fn lemma_order_is_total(left: Seq<char>, right: Seq<char>)
    ensures
        not_after(left, right) || not_after(right, left),
{
    lemma_bytes_order_is_total(
        vstd::utf8::encode_utf8(left),
        vstd::utf8::encode_utf8(right),
        0,
    );
}

proof fn lemma_bytes_order_is_total(left: Seq<u8>, right: Seq<u8>, index: int)
    ensures
        bytes_not_after(left, right, index) || bytes_not_after(right, left, index),
    decreases left.len() - index,
{
    if index < left.len() && index < right.len() && left[index] == right[index] {
        lemma_bytes_order_is_total(left, right, index + 1);
    }
}

/// The order of texts goes through.
pub proof fn lemma_order_is_transitive(first: Seq<char>, second: Seq<char>, third: Seq<char>)
    requires
        not_after(first, second),
        not_after(second, third),
    ensures
        not_after(first, third),
{
    lemma_bytes_order_is_transitive(
        vstd::utf8::encode_utf8(first),
        vstd::utf8::encode_utf8(second),
        vstd::utf8::encode_utf8(third),
        0,
    );
}

proof fn lemma_bytes_order_is_transitive(
    first: Seq<u8>,
    second: Seq<u8>,
    third: Seq<u8>,
    index: int,
)
    requires
        bytes_not_after(first, second, index),
        bytes_not_after(second, third, index),
    ensures
        bytes_not_after(first, third, index),
    decreases first.len() - index,
{
    if index < first.len() && index < second.len() && index < third.len() && first[index]
        == second[index] && second[index] == third[index] {
        lemma_bytes_order_is_transitive(first, second, third, index + 1);
    }
}


/// What a text of decimal digits stands for: each further digit counts once, and what is
/// before it ten times. Without a digit, or with another character behind the first place,
/// a text stands for no number; a plus sign before the digits changes nothing.
pub proof fn lemma_digits_count_by_place(text: Seq<char>, character: char)
    ensures
        decimal_value(Seq::empty()) is None,
        decimal_value(seq!['+']) is None,
        48 <= character as int <= 57 ==> decimal_value(seq![character]) == Some(
            (character as int - 48) as nat,
        ),
        48 <= character as int <= 57 && decimal_value(text) is Some ==> decimal_value(
            text.push(character),
        ) == Some((decimal_value(text)->Some_0 * 10 + (character as int - 48)) as nat),
        !(48 <= character as int <= 57) ==> decimal_value(text.push(character)) is None,
        text.len() > 1 && decimal_value(text) is None ==> decimal_value(text.push(character))
            is None,
        text.len() > 0 && text[0] != '+' ==> decimal_value(seq!['+'] + text) == decimal_value(
            text,
        ),
{
    reveal_with_fuel(digits_value, 3);
    let longer = text.push(character);
    if text.len() > 0 {
        if text[0] == '+' {
            let digits = text.subrange(1, text.len() as int);
            assert(longer.subrange(1, longer.len() as int) =~= digits.push(character));
            assert(digits.push(character).drop_last() =~= digits);
        } else {
            assert(longer.drop_last() =~= text);
        }
    } else {
        assert(longer.drop_last() =~= text);
        if character == '+' {
            assert(longer.subrange(1, 1) =~= Seq::empty());
        }
    }
    assert(seq!['+'].subrange(1, 1) =~= Seq::<char>::empty());
    assert(seq![character].drop_last() =~= Seq::<char>::empty());
    let with_sign = seq!['+'] + text;
    assert(with_sign.subrange(1, with_sign.len() as int) =~= text);
}

/// A number is written without a sign and without zeros before it.
pub proof fn lemma_decimal_text_is_short(value: nat)
    ensures
        decimal_text(value).len() > 0,
        decimal_text(value)[0] == '0' ==> value == 0 && decimal_text(value).len() == 1,
        forall|index: int|
            0 <= index < decimal_text(value).len() ==> 48 <= (#[trigger] decimal_text(
                value,
            )[index]) as int <= 57,
        forall|negative: int|
            #![trigger signed_text(negative)]
            negative < 0 && -negative == value ==> signed_text(negative) == seq!['-']
                + decimal_text(value),
        signed_text(value as int) == decimal_text(value),
    decreases value,
{
    if value >= 10 {
        lemma_decimal_text_is_short(value / 10);
    }
}

/// The number that a hexadecimal digit stands for, in one case of letters.
pub open spec fn is_hex_digit_of(character: char, digit: int, first_letter: int) -> bool {
    if digit < 10 {
        character as int == 48 + digit
    } else {
        character as int == first_letter + digit - 10
    }
}

/// Each byte stands in hexadecimal text as two digits, the higher one first, with lower case
/// letters.
pub proof fn lemma_hex_text_digits(bytes: Seq<u8>)
    ensures
        hex_text(bytes).len() == 2 * bytes.len(),
        forall|index: int|
            0 <= index < bytes.len() ==> {
                &&& is_hex_digit_of(
                    hex_text(bytes)[2 * index],
                    #[trigger] bytes[index] as int / 16,
                    97,
                )
                &&& is_hex_digit_of(hex_text(bytes)[2 * index + 1], bytes[index] as int % 16, 97)
            },
    decreases bytes.len(),
{
    if bytes.len() > 0 {
        let before = bytes.drop_last();
        lemma_hex_text_digits(before);
        assert forall|index: int| 0 <= index < bytes.len() implies {
            &&& is_hex_digit_of(
                hex_text(bytes)[2 * index],
                #[trigger] bytes[index] as int / 16,
                97,
            )
            &&& is_hex_digit_of(hex_text(bytes)[2 * index + 1], bytes[index] as int % 16, 97)
        } by {
            if index < before.len() {
                assert(before[index] == bytes[index]);
            }
        }
    }
}

/// With colons, each byte stands as two digits with upper case letters, and a colon stands
/// between two bytes.
pub proof fn lemma_colon_text_digits(bytes: Seq<u8>)
    ensures
        bytes.len() == 0 ==> colon_text(bytes).len() == 0,
        bytes.len() > 0 ==> colon_text(bytes).len() == 3 * bytes.len() - 1,
        forall|index: int|
            0 <= index < bytes.len() ==> {
                &&& is_hex_digit_of(
                    colon_text(bytes)[3 * index],
                    #[trigger] bytes[index] as int / 16,
                    65,
                )
                &&& is_hex_digit_of(colon_text(bytes)[3 * index + 1], bytes[index] as int % 16, 65)
                &&& index + 1 < bytes.len() ==> colon_text(bytes)[3 * index + 2] == ':'
            },
    decreases bytes.len(),
{
    if bytes.len() > 1 {
        let before = bytes.drop_last();
        lemma_colon_text_digits(before);
        assert forall|index: int| 0 <= index < bytes.len() implies {
            &&& is_hex_digit_of(
                colon_text(bytes)[3 * index],
                #[trigger] bytes[index] as int / 16,
                65,
            )
            &&& is_hex_digit_of(colon_text(bytes)[3 * index + 1], bytes[index] as int % 16, 65)
            &&& index + 1 < bytes.len() ==> colon_text(bytes)[3 * index + 2] == ':'
        } by {
            if index < before.len() {
                assert(before[index] == bytes[index]);
            }
        }
    }
}

/// Two texts are the same but for case exactly where each byte is the same or the other case
/// of the same ASCII letter.
pub proof fn lemma_only_letters_have_case(left: Seq<u8>, right: Seq<u8>)
    ensures
        same_but_for_case(left, right) <==> left.len() == right.len() && forall|index: int|
            0 <= index < left.len() ==> {
                ||| #[trigger] left[index] == right[index]
                ||| 65 <= left[index] <= 90 && right[index] == left[index] + 32
                ||| 97 <= left[index] <= 122 && right[index] == left[index] - 32
            },
{
    if same_but_for_case(left, right) {
        assert forall|index: int| 0 <= index < left.len() implies {
            ||| #[trigger] left[index] == right[index]
            ||| 65 <= left[index] <= 90 && right[index] == left[index] + 32
            ||| 97 <= left[index] <= 122 && right[index] == left[index] - 32
        } by {
            assert(ascii_upper(left[index]) == ascii_upper(right[index]));
        }
    }
}

/// The first byte in which two texts differ decides their order. A text does not come after
/// one that it begins, and comes after one that begins it.
pub proof fn lemma_first_difference_decides(left: Seq<char>, right: Seq<char>, same: int)
    requires
        0 <= same <= vstd::utf8::encode_utf8(left).len(),
        same <= vstd::utf8::encode_utf8(right).len(),
        forall|index: int|
            0 <= index < same ==> (#[trigger] vstd::utf8::encode_utf8(left)[index])
                == vstd::utf8::encode_utf8(right)[index],
    ensures
        same == vstd::utf8::encode_utf8(left).len() ==> not_after(left, right),
        same < vstd::utf8::encode_utf8(left).len() && same == vstd::utf8::encode_utf8(right).len()
            ==> !not_after(left, right),
        same < vstd::utf8::encode_utf8(left).len() && same < vstd::utf8::encode_utf8(right).len()
            && vstd::utf8::encode_utf8(left)[same] != vstd::utf8::encode_utf8(right)[same] ==> (
        not_after(left, right) <==> vstd::utf8::encode_utf8(left)[same]
            < vstd::utf8::encode_utf8(right)[same]),
{
    let first = vstd::utf8::encode_utf8(left);
    let second = vstd::utf8::encode_utf8(right);
    lemma_same_bytes_decide_nothing(first, second, 0, same);
}

/// Bytes that are the same do not decide the order.
proof fn lemma_same_bytes_decide_nothing(left: Seq<u8>, right: Seq<u8>, from: int, to: int)
    requires
        0 <= from <= to <= left.len(),
        to <= right.len(),
        forall|index: int| from <= index < to ==> #[trigger] left[index] == right[index],
    ensures
        bytes_not_after(left, right, from) == bytes_not_after(left, right, to),
    decreases to - from,
{
    if from < to {
        assert(left[from] == right[from]);
        lemma_same_bytes_decide_nothing(left, right, from + 1, to);
    }
}

} // verus!
