//! Six-octet hardware addresses and their text form.
//!
//! Text is read by `mac6`; the canonical text is written here.

use std::str::FromStr;
use vstd::prelude::*;
use vstd::string::StringExecFns;
use vstd::utf8::is_ascii_chars;

verus! {

/// A hardware address of exactly six octets, first octet first.
#[derive(Clone, Copy, Debug, PartialEq, Eq, Hash)]
pub struct MacAddress {
    pub octets: [u8; 6],
}

impl View for MacAddress {
    type V = Seq<u8>;

    open spec fn view(&self) -> Seq<u8> {
        self.octets@
    }
}

/// The lower-case hexadecimal digit for `n`, which is below 16.
pub open spec fn hex_digit_char(n: nat) -> char {
    if n < 10 {
        (48 + n) as char
    } else {
        (87 + n) as char
    }
}

/// One octet as two lower-case hexadecimal digits.
pub open spec fn octet_text(b: u8) -> Seq<char> {
    seq![hex_digit_char((b / 16) as nat), hex_digit_char((b % 16) as nat)]
}

/// The canonical text of six octets: lower-case hexadecimal pairs joined by colons.
pub open spec fn mac_text(octets: Seq<u8>) -> Seq<char> {
    octet_text(octets[0]) + seq![':'] + octet_text(octets[1]) + seq![':'] + octet_text(octets[2])
        + seq![':'] + octet_text(octets[3]) + seq![':'] + octet_text(octets[4]) + seq![':']
        + octet_text(octets[5])
}

/// The value of one hexadecimal digit, in either case.
pub open spec fn hex_digit_value(c: char) -> Option<nat> {
    if '0' <= c <= '9' {
        Some((c as nat - 48) as nat)
    } else if 'a' <= c <= 'f' {
        Some((c as nat - 87) as nat)
    } else if 'A' <= c <= 'F' {
        Some((c as nat - 55) as nat)
    } else {
        None
    }
}

/// The number written by the hexadecimal digits `digits`, most significant first.
/// `None` when one of them is no hexadecimal digit.
pub open spec fn hex_number(digits: Seq<char>) -> Option<nat>
    decreases digits.len(),
{
    if digits.len() == 0 {
        Some(0nat)
    } else {
        match (hex_number(digits.drop_last()), hex_digit_value(digits.last())) {
            (Some(high), Some(low)) => Some(16 * high + low),
            _ => None,
        }
    }
}

/// One octet as text is read: an optional plus sign, then at least one hexadecimal
/// digit, the number below 256. Leading zeros are accepted.
pub open spec fn hex_octet(text: Seq<char>) -> Option<u8> {
    let digits = if text.len() > 0 && text[0] == '+' {
        text.skip(1)
    } else {
        text
    };
    if digits.len() == 0 {
        None
    } else {
        match hex_number(digits) {
            Some(value) => if value <= 255 {
                Some(value as u8)
            } else {
                None
            },
            None => None,
        }
    }
}

/// How many characters stand before the first colon of `text`, or in all of it.
pub open spec fn piece_len(text: Seq<char>) -> nat
    decreases text.len(),
{
    if text.len() == 0 || text[0] == ':' {
        0
    } else {
        1 + piece_len(text.skip(1))
    }
}

/// The octets of `text` read as exactly `count` pieces separated by colons.
pub open spec fn split_octets(text: Seq<char>, count: nat) -> Option<Seq<u8>>
    decreases count,
{
    let first = piece_len(text);
    if count == 0 {
        None
    } else {
        match hex_octet(text.take(first as int)) {
            None => None,
            Some(b) => if count == 1 {
                if first == text.len() {
                    Some(seq![b])
                } else {
                    None
                }
            } else if first < text.len() {
                match split_octets(text.skip(first + 1int), (count - 1) as nat) {
                    Some(rest) => Some(seq![b] + rest),
                    None => None,
                }
            } else {
                None
            },
        }
    }
}

/// The octets of `text` read as `count` pieces of two characters each.
pub open spec fn paired_octets(text: Seq<char>, count: nat) -> Option<Seq<u8>>
    decreases count,
{
    if count == 0 {
        Some(Seq::empty())
    } else {
        match (hex_octet(text.take(2)), paired_octets(text.skip(2), (count - 1) as nat)) {
            (Some(b), Some(rest)) => Some(seq![b] + rest),
            _ => None,
        }
    }
}

/// The address that `text` stands for, if any. Two forms are read: twelve characters
/// without a colon, taken two by two, and eleven to seventeen characters in six pieces
/// separated by colons. Text with a character outside ASCII is no address.
pub open spec fn parse_mac_text(text: Seq<char>) -> Option<Seq<u8>> {
    if !is_ascii_chars(text) {
        None
    } else if text.len() == 12 && !text.contains(':') {
        paired_octets(text, 6)
    } else if 11 <= text.len() <= 17 {
        split_octets(text, 6)
    } else {
        None
    }
}

/// A hexadecimal digit character stands for the digit it was made from, and is neither
/// a colon, a plus sign, nor outside ASCII.
pub proof fn lemma_hex_digit_char(n: nat)
    requires
        n < 16,
    ensures
        hex_digit_value(hex_digit_char(n)) == Some(n),
        hex_digit_char(n) != ':',
        hex_digit_char(n) != '+',
        '\0' <= hex_digit_char(n) <= '\u{7f}',
{
}

/// Two digits written for an octet are read as that octet.
pub proof fn lemma_octet_text_read(b: u8)
    ensures
        hex_octet(octet_text(b)) == Some(b),
{
    let text = octet_text(b);
    let high = (b / 16) as nat;
    let low = (b % 16) as nat;
    lemma_hex_digit_char(high);
    lemma_hex_digit_char(low);
    let head = text.drop_last();
    assert(head.drop_last() =~= Seq::<char>::empty());
    assert(hex_number(head.drop_last()) == Some(0nat));
    assert(head.last() == hex_digit_char(high));
    assert(hex_number(head) == Some(high));
    assert(text.last() == hex_digit_char(low));
    assert(hex_number(text) == Some(16 * high + low));
}

/// A written octet in front of a colon is the first piece of the text.
proof fn lemma_split_step(b: u8, rest: Seq<char>, count: nat)
    requires
        count >= 1,
    ensures
        split_octets(octet_text(b) + seq![':'] + rest, count + 1) == match split_octets(
            rest,
            count,
        ) {
            Some(more) => Some(seq![b] + more),
            None => None,
        },
{
    let text = octet_text(b) + seq![':'] + rest;
    lemma_hex_digit_char((b / 16) as nat);
    lemma_hex_digit_char((b % 16) as nat);
    assert(text[0] == hex_digit_char((b / 16) as nat));
    assert(text.skip(1)[0] == hex_digit_char((b % 16) as nat));
    assert(text.skip(1).skip(1)[0] == ':');
    assert(piece_len(text.skip(1).skip(1)) == 0);
    assert(piece_len(text.skip(1)) == 1);
    assert(piece_len(text) == 2);
    assert(text.take(2) =~= octet_text(b));
    assert(text.skip(3) =~= rest);
    lemma_octet_text_read(b);
}

/// A written octet alone is one piece.
proof fn lemma_split_last(b: u8)
    ensures
        split_octets(octet_text(b), 1) == Some(seq![b]),
{
    let text = octet_text(b);
    lemma_hex_digit_char((b / 16) as nat);
    lemma_hex_digit_char((b % 16) as nat);
    assert(text[0] == hex_digit_char((b / 16) as nat));
    assert(text.skip(1)[0] == hex_digit_char((b % 16) as nat));
    assert(text.skip(1).skip(1).len() == 0);
    assert(piece_len(text.skip(1).skip(1)) == 0);
    assert(piece_len(text.skip(1)) == 1);
    assert(piece_len(text) == 2);
    assert(text.take(2) =~= text);
    lemma_octet_text_read(b);
}

/// Canonical text is seventeen ASCII characters.
pub proof fn lemma_mac_text_shape(octets: Seq<u8>)
    ensures
        mac_text(octets).len() == 17,
        is_ascii_chars(mac_text(octets)),
{
    let text = mac_text(octets);
    assert forall|i: int| 0 <= i < text.len() implies '\0' <= #[trigger] text[i] <= '\u{7f}' by {
        let b = octets[i / 3];
        lemma_hex_digit_char((b / 16) as nat);
        lemma_hex_digit_char((b % 16) as nat);
    }
}

/// Every address that text stands for has six octets.
pub proof fn lemma_parsed_len(text: Seq<char>)
    ensures
        parse_mac_text(text) matches Some(octets) ==> octets.len() == 6,
{
    reveal_with_fuel(split_octets, 7);
    reveal_with_fuel(paired_octets, 7);
}

/// Reading the canonical text of an address gives the address back.
pub proof fn lemma_text_round_trip(octets: Seq<u8>)
    requires
        octets.len() == 6,
    ensures
        parse_mac_text(mac_text(octets)) == Some(octets),
{
    let colon = seq![':'];
    let t5 = octet_text(octets[5]);
    let t4 = octet_text(octets[4]) + colon + t5;
    let t3 = octet_text(octets[3]) + colon + t4;
    let t2 = octet_text(octets[2]) + colon + t3;
    let t1 = octet_text(octets[1]) + colon + t2;
    let t0 = octet_text(octets[0]) + colon + t1;
    assert(t0 =~= mac_text(octets));
    lemma_mac_text_shape(octets);
    lemma_split_last(octets[5]);
    lemma_split_step(octets[4], t5, 1);
    lemma_split_step(octets[3], t4, 2);
    lemma_split_step(octets[2], t3, 3);
    lemma_split_step(octets[1], t2, 4);
    lemma_split_step(octets[0], t1, 5);
    assert(split_octets(t0, 6) == Some(
        seq![octets[0]] + (seq![octets[1]] + (seq![octets[2]] + (seq![octets[3]] + (seq![
            octets[4],
        ] + seq![octets[5]])))),
    ));
    assert(seq![octets[0]] + (seq![octets[1]] + (seq![octets[2]] + (seq![octets[3]] + (seq![
        octets[4],
    ] + seq![octets[5]])))) =~= octets);
}

/// Whatever text an address was read from, its canonical text is read as the same
/// address.
pub proof fn lemma_bssid_round_trip(text: Seq<char>)
    requires
        parse_mac_text(text) is Some,
    ensures
        parse_mac_text(mac_text(parse_mac_text(text).unwrap())) == parse_mac_text(text),
{
    lemma_parsed_len(text);
    lemma_text_round_trip(parse_mac_text(text).unwrap());
}

/// What `mac6` reports for text that is no address.
#[verifier::external_type_specification]
#[verifier::external_body]
pub struct ExMacParseError(mac6::MacParseError);

/// Reads `text` with the `FromStr` impl of `mac6::Mac`. On ASCII text it succeeds
/// exactly when `parse_mac_text` finds an address, and returns that address. Other text
/// is kept from it: it cuts the twelve-character form by bytes.
#[verifier::external_body]
fn mac6_from_str(text: &str) -> (r: Result<MacAddress, mac6::MacParseError>)
    requires
        is_ascii_chars(text@),
    ensures
        match parse_mac_text(text@) {
            Some(octets) => r matches Ok(mac) && mac@ == octets,
            None => r is Err,
        },
{
    match mac6::Mac::from_str(text) {
        Ok(mac) => Ok(MacAddress { octets: mac.0 }),
        Err(e) => Err(e),
    }
}

/// The one-character text of the hexadecimal digit for `n`.
fn hex_digit_str(n: u8) -> (s: &'static str)
    requires
        n < 16,
    ensures
        s@ == seq![hex_digit_char(n as nat)],
{
    proof {
        reveal_strlit("0");
        reveal_strlit("1");
        reveal_strlit("2");
        reveal_strlit("3");
        reveal_strlit("4");
        reveal_strlit("5");
        reveal_strlit("6");
        reveal_strlit("7");
        reveal_strlit("8");
        reveal_strlit("9");
        reveal_strlit("a");
        reveal_strlit("b");
        reveal_strlit("c");
        reveal_strlit("d");
        reveal_strlit("e");
        reveal_strlit("f");
    }
    let s = match n {
        0 => "0",
        1 => "1",
        2 => "2",
        3 => "3",
        4 => "4",
        5 => "5",
        6 => "6",
        7 => "7",
        8 => "8",
        9 => "9",
        10 => "a",
        11 => "b",
        12 => "c",
        13 => "d",
        14 => "e",
        _ => "f",
    };
    assert(s@ =~= seq![hex_digit_char(n as nat)]);
    s
}

/// Appends the two digits of `b`.
fn push_octet(text: &mut String, b: u8)
    ensures
        final(text)@ == old(text)@ + octet_text(b),
{
    text.append(hex_digit_str(b / 16));
    text.append(hex_digit_str(b % 16));
    assert(text@ =~= old(text)@ + octet_text(b));
}

/// Appends a colon.
fn push_colon(text: &mut String)
    ensures
        final(text)@ == old(text)@ + seq![':'],
{
    proof {
        reveal_strlit(":");
    }
    text.append(":");
    assert(text@ =~= old(text)@ + seq![':']);
}

impl MacAddress {
    /// The address that `text` stands for, or `None` where it stands for none.
    pub fn parse(text: &str) -> (r: Option<MacAddress>)
        ensures
            match parse_mac_text(text@) {
                Some(octets) => r matches Some(mac) && mac@ == octets,
                None => r is None,
            },
    {
        if !text.is_ascii() {
            return None;
        }
        match mac6_from_str(text) {
            Ok(mac) => Some(mac),
            Err(_) => None,
        }
    }

    /// The canonical text of the address.
    pub fn to_text(&self) -> (text: String)
        ensures
            text@ == mac_text(self@),
    {
        let mut text = String::new();
        push_octet(&mut text, self.octets[0]);
        push_colon(&mut text);
        push_octet(&mut text, self.octets[1]);
        push_colon(&mut text);
        push_octet(&mut text, self.octets[2]);
        push_colon(&mut text);
        push_octet(&mut text, self.octets[3]);
        push_colon(&mut text);
        push_octet(&mut text, self.octets[4]);
        push_colon(&mut text);
        push_octet(&mut text, self.octets[5]);
        assert(text@ =~= mac_text(self@));
        text
    }
}

} // verus!
