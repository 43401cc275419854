//! Identifier codec: renders the fixed 16-byte binary identifier column as
//! canonical hyphenated lowercase text (hex groups of 8-4-4-4-12 digits).

use vstd::prelude::*;
use vstd::string::StringExecFns;

verus! {

/// Failure of the identifier codec.
#[derive(Debug, Clone, Copy, PartialEq, Eq, Structural)]
pub enum DecodeError {
    /// The identifier column did not hold exactly 16 bytes.
    IdentifierLength,
}

/// The lowercase hexadecimal digit for a value in `[0, 16)`.
pub open spec fn hex_digit(n: int) -> char {
    if n == 0 {
        '0'
    } else if n == 1 {
        '1'
    } else if n == 2 {
        '2'
    } else if n == 3 {
        '3'
    } else if n == 4 {
        '4'
    } else if n == 5 {
        '5'
    } else if n == 6 {
        '6'
    } else if n == 7 {
        '7'
    } else if n == 8 {
        '8'
    } else if n == 9 {
        '9'
    } else if n == 10 {
        'a'
    } else if n == 11 {
        'b'
    } else if n == 12 {
        'c'
    } else if n == 13 {
        'd'
    } else if n == 14 {
        'e'
    } else {
        'f'
    }
}

/// The two lowercase hex digits of one byte, high nibble first.
pub open spec fn byte_hex(b: u8) -> Seq<char> {
    seq![hex_digit(b as int / 16), hex_digit(b as int % 16)]
}

/// The lowercase hex rendering of a byte sequence, two digits per byte.
pub open spec fn hex_of(s: Seq<u8>) -> Seq<char>
    decreases s.len(),
{
    if s.len() == 0 {
        Seq::empty()
    } else {
        byte_hex(s[0]) + hex_of(s.drop_first())
    }
}

/// The canonical hyphenated rendering of a 16-byte identifier: hex groups of
/// 4, 2, 2, 2 and 6 bytes, separated by hyphens.
pub open spec fn hyphenated_of(s: Seq<u8>) -> Seq<char> {
    hex_of(s.subrange(0, 4)) + seq!['-'] + hex_of(s.subrange(4, 6)) + seq!['-'] + hex_of(
        s.subrange(6, 8),
    ) + seq!['-'] + hex_of(s.subrange(8, 10)) + seq!['-'] + hex_of(s.subrange(10, 16))
}

/// A lowercase hexadecimal digit.
pub open spec fn is_lower_hex(c: char) -> bool {
    ('0' <= c && c <= '9') || ('a' <= c && c <= 'f')
}

proof fn lemma_hex_of_push(s: Seq<u8>, b: u8)
    ensures
        hex_of(s.push(b)) == hex_of(s) + byte_hex(b),
    decreases s.len(),
{
    assert(s.push(b)[0 as int] == if s.len() == 0 {
        b
    } else {
        s[0]
    });
    if s.len() == 0 {
        assert(s.push(b).drop_first() =~= Seq::<u8>::empty());
        assert(hex_of(s.push(b)) == byte_hex(b) + hex_of(Seq::<u8>::empty()));
        assert(byte_hex(b) + Seq::<char>::empty() =~= byte_hex(b));
        assert(Seq::<char>::empty() + byte_hex(b) =~= byte_hex(b));
    } else {
        assert(s.push(b).drop_first() =~= s.drop_first().push(b));
        lemma_hex_of_push(s.drop_first(), b);
        assert(hex_of(s.push(b)) == byte_hex(s[0]) + (hex_of(s.drop_first()) + byte_hex(b)));
        assert(byte_hex(s[0]) + (hex_of(s.drop_first()) + byte_hex(b)) =~= (byte_hex(s[0]) + hex_of(
            s.drop_first(),
        )) + byte_hex(b));
    }
}

proof fn lemma_hex_of_len(s: Seq<u8>)
    ensures
        hex_of(s).len() == 2 * s.len(),
    decreases s.len(),
{
    if s.len() > 0 {
        lemma_hex_of_len(s.drop_first());
    }
}

proof fn lemma_hex_digit_lower(n: int)
    requires
        0 <= n < 16,
    ensures
        is_lower_hex(hex_digit(n)),
{
}

proof fn lemma_hex_of_chars(s: Seq<u8>)
    ensures
        forall|i: int| 0 <= i < hex_of(s).len() ==> is_lower_hex(#[trigger] hex_of(s)[i]),
    decreases s.len(),
{
    if s.len() > 0 {
        lemma_hex_of_chars(s.drop_first());
        assert forall|i: int| 0 <= i < hex_of(s).len() implies is_lower_hex(
            #[trigger] hex_of(s)[i],
        ) by {
            assert(hex_of(s) == byte_hex(s[0]) + hex_of(s.drop_first()));
            if i < 2 {
                assert(hex_of(s)[i] == byte_hex(s[0])[i]);
                lemma_hex_digit_lower(s[0] as int / 16);
                lemma_hex_digit_lower(s[0] as int % 16);
            } else {
                assert(hex_of(s)[i] == hex_of(s.drop_first())[i - 2]);
            }
        }
    }
}

/// The single-character string for one hex digit.
fn nibble(n: u8) -> (r: &'static str)
    requires
        n < 16,
    ensures
        r@ == seq![hex_digit(n as int)],
{
    proof {
        reveal_strlit("0");
        reveal_strlit("1");
        reveal_strlit("2");
        reveal_strlit("3");
        reveal_strlit("4");
        reveal_strlit("5");
        reveal_strlit("6");
        reveal_strlit("7");
        reveal_strlit("8");
        reveal_strlit("9");
        reveal_strlit("a");
        reveal_strlit("b");
        reveal_strlit("c");
        reveal_strlit("d");
        reveal_strlit("e");
        reveal_strlit("f");
        assert("0"@ =~= seq![hex_digit(0)]);
        assert("1"@ =~= seq![hex_digit(1)]);
        assert("2"@ =~= seq![hex_digit(2)]);
        assert("3"@ =~= seq![hex_digit(3)]);
        assert("4"@ =~= seq![hex_digit(4)]);
        assert("5"@ =~= seq![hex_digit(5)]);
        assert("6"@ =~= seq![hex_digit(6)]);
        assert("7"@ =~= seq![hex_digit(7)]);
        assert("8"@ =~= seq![hex_digit(8)]);
        assert("9"@ =~= seq![hex_digit(9)]);
        assert("a"@ =~= seq![hex_digit(10)]);
        assert("b"@ =~= seq![hex_digit(11)]);
        assert("c"@ =~= seq![hex_digit(12)]);
        assert("d"@ =~= seq![hex_digit(13)]);
        assert("e"@ =~= seq![hex_digit(14)]);
        assert("f"@ =~= seq![hex_digit(15)]);
    }
    match n {
        0 => "0",
        1 => "1",
        2 => "2",
        3 => "3",
        4 => "4",
        5 => "5",
        6 => "6",
        7 => "7",
        8 => "8",
        9 => "9",
        10 => "a",
        11 => "b",
        12 => "c",
        13 => "d",
        14 => "e",
        _ => "f",
    }
}

/// Appends the hex digits of `bytes[start..end]` to `out`.
fn append_hex(out: &mut String, bytes: &[u8], start: usize, end: usize)
    requires
        start <= end <= bytes@.len(),
    ensures
        final(out)@ == old(out)@ + hex_of(bytes@.subrange(start as int, end as int)),
{
    let ghost orig: Seq<char> = out@;
    let mut i = start;
    proof {
        assert(bytes@.subrange(start as int, start as int) =~= Seq::<u8>::empty());
    }
    while i < end
        invariant
            start <= i <= end <= bytes@.len(),
            out@ == orig + hex_of(bytes@.subrange(start as int, i as int)),
        decreases end - i,
    {
        let b = bytes[i];
        out.append(nibble(b / 16));
        out.append(nibble(b % 16));
        proof {
            let sub = bytes@.subrange(start as int, i as int);
            assert(bytes@.subrange(start as int, i as int + 1) =~= sub.push(b));
            lemma_hex_of_push(sub, b);
            assert(byte_hex(b) =~= seq![hex_digit(b as int / 16)] + seq![hex_digit(b as int % 16)]);
            assert(out@ =~= orig + hex_of(bytes@.subrange(start as int, i as int + 1)));
        }
        i = i + 1;
    }
}

/// Decodes a binary identifier column value into its canonical hyphenated
/// lowercase text form. Exactly 16 bytes are accepted; any other length is a
/// decode error.
pub fn decode(blob: &[u8]) -> (r: Result<String, DecodeError>)
    ensures
        r is Ok <==> blob@.len() == 16,
        r is Ok ==> r->Ok_0@ == hyphenated_of(blob@),
{
    if blob.len() != 16 {
        return Err(DecodeError::IdentifierLength);
    }
    let mut out = String::new();
    append_hex(&mut out, blob, 0, 4);
    out.append("-");
    append_hex(&mut out, blob, 4, 6);
    out.append("-");
    append_hex(&mut out, blob, 6, 8);
    out.append("-");
    append_hex(&mut out, blob, 8, 10);
    out.append("-");
    append_hex(&mut out, blob, 10, 16);
    proof {
        reveal_strlit("-");
        assert("-"@ =~= seq!['-']);
        assert(out@ =~= hyphenated_of(blob@));
    }
    Ok(out)
}

/// Law: the canonical text of any 16-byte identifier has exactly 36
/// characters; the characters at positions 8, 13, 18 and 23 are hyphens and
/// every other character is a lowercase hexadecimal digit.
pub proof fn lemma_identifier_text_shape(s: Seq<u8>)
    requires
        s.len() == 16,
    ensures
        hyphenated_of(s).len() == 36,
        forall|i: int|
            0 <= i < 36 ==> ((#[trigger] hyphenated_of(s)[i]) == '-' <==> (i == 8 || i == 13 || i
                == 18 || i == 23)),
        forall|i: int|
            0 <= i < 36 && !(i == 8 || i == 13 || i == 18 || i == 23) ==> is_lower_hex(
                #[trigger] hyphenated_of(s)[i],
            ),
{
    lemma_hex_of_len(s.subrange(0, 4));
    lemma_hex_of_len(s.subrange(4, 6));
    lemma_hex_of_len(s.subrange(6, 8));
    lemma_hex_of_len(s.subrange(8, 10));
    lemma_hex_of_len(s.subrange(10, 16));
    lemma_hex_of_chars(s.subrange(0, 4));
    lemma_hex_of_chars(s.subrange(4, 6));
    lemma_hex_of_chars(s.subrange(6, 8));
    lemma_hex_of_chars(s.subrange(8, 10));
    lemma_hex_of_chars(s.subrange(10, 16));
    assert forall|i: int| 0 <= i < 36 && !(i == 8 || i == 13 || i == 18 || i == 23) implies
        is_lower_hex(#[trigger] hyphenated_of(s)[i]) && hyphenated_of(s)[i] != '-' by {
        assert(is_lower_hex(hyphenated_of(s)[i]));
    }
}

} // verus!
