//! Lowercase hexadecimal encoding of byte strings, with a proved round trip.
//! Agent genomes are stored in this form.

use vstd::prelude::*;
use vstd::string::StringExecFns;
use vstd::string::StringSliceAdditionalSpecFns;

verus! {

broadcast use vstd::utf8::is_ascii_chars_encode_utf8;

/// The lowercase hex digit for a nibble.
pub open spec fn hex_char(n: u8) -> char
    recommends
        n < 16,
{
    if n == 0 {
        '0'
    } else if n == 1 {
        '1'
    } else if n == 2 {
        '2'
    } else if n == 3 {
        '3'
    } else if n == 4 {
        '4'
    } else if n == 5 {
        '5'
    } else if n == 6 {
        '6'
    } else if n == 7 {
        '7'
    } else if n == 8 {
        '8'
    } else if n == 9 {
        '9'
    } else if n == 10 {
        'a'
    } else if n == 11 {
        'b'
    } else if n == 12 {
        'c'
    } else if n == 13 {
        'd'
    } else if n == 14 {
        'e'
    } else {
        'f'
    }
}

/// The hex spelling of a byte string: two digits per byte, high nibble first.
pub open spec fn hex_of(b: Seq<u8>) -> Seq<char> {
    Seq::new(2 * b.len(), |i: int| if i % 2 == 0 {
        hex_char(b[i / 2] / 16)
    } else {
        hex_char(b[i / 2] % 16)
    })
}

/// The value of one hex digit byte, upper or lower case, if it is one.
pub open spec fn hex_digit_val(b: u8) -> Option<u8> {
    if 48 <= b <= 57 {
        Some((b - 48) as u8)
    } else if 97 <= b <= 102 {
        Some((b - 87) as u8)
    } else if 65 <= b <= 70 {
        Some((b - 55) as u8)
    } else {
        None
    }
}

/// What decoding a hex string (as UTF-8 bytes) yields: the byte string, or
/// nothing when the length is odd or a non-digit appears.
pub open spec fn hex_decode_bytes(s: Seq<u8>) -> Option<Seq<u8>> {
    if s.len() % 2 != 0 {
        None
    } else if exists|i: int| 0 <= i < s.len() && hex_digit_val(#[trigger] s[i]) is None {
        None
    } else {
        Some(
            Seq::new(
                s.len() / 2,
                |i: int| (hex_digit_val(s[2 * i])->Some_0 * 16 + hex_digit_val(
                    s[2 * i + 1],
                )->Some_0) as u8,
            ),
        )
    }
}

fn nibble_str(n: u8) -> (r: &'static str)
    requires
        n < 16,
    ensures
        r@ == seq![hex_char(n)],
{
    proof {
        reveal_strlit("0");
        reveal_strlit("1");
        reveal_strlit("2");
        reveal_strlit("3");
        reveal_strlit("4");
        reveal_strlit("5");
        reveal_strlit("6");
        reveal_strlit("7");
        reveal_strlit("8");
        reveal_strlit("9");
        reveal_strlit("a");
        reveal_strlit("b");
        reveal_strlit("c");
        reveal_strlit("d");
        reveal_strlit("e");
        reveal_strlit("f");
    }
    let r: &'static str = if n == 0 {
        "0"
    } else if n == 1 {
        "1"
    } else if n == 2 {
        "2"
    } else if n == 3 {
        "3"
    } else if n == 4 {
        "4"
    } else if n == 5 {
        "5"
    } else if n == 6 {
        "6"
    } else if n == 7 {
        "7"
    } else if n == 8 {
        "8"
    } else if n == 9 {
        "9"
    } else if n == 10 {
        "a"
    } else if n == 11 {
        "b"
    } else if n == 12 {
        "c"
    } else if n == 13 {
        "d"
    } else if n == 14 {
        "e"
    } else {
        "f"
    };
    proof {
        assert(r@ =~= seq![hex_char(n)]);
    }
    r
}

/// Encode a byte string as lowercase hex, two digits per byte.
pub fn encode(bytes: &[u8]) -> (r: String)
    ensures
        r@ == hex_of(bytes@),
{
    let n = bytes.len();
    let mut out = String::new();
    let mut i: usize = 0;
    while i < n
        invariant
            n == bytes@.len(),
            i <= n,
            out@ == hex_of(bytes@.subrange(0, i as int)),
        decreases n - i,
    {
        let b = bytes[i];
        out.append(nibble_str(b / 16));
        out.append(nibble_str(b % 16));
        proof {
            assert(out@ =~= hex_of(bytes@.subrange(0, i + 1)));
        }
        i += 1;
    }
    proof {
        assert(bytes@.subrange(0, n as int) =~= bytes@);
    }
    out
}

fn hex_digit_val_exec(b: u8) -> (r: Option<u8>)
    ensures
        r == hex_digit_val(b),
{
    if 48 <= b && b <= 57 {
        Some(b - 48)
    } else if 97 <= b && b <= 102 {
        Some(b - 87)
    } else if 65 <= b && b <= 70 {
        Some(b - 55)
    } else {
        None
    }
}

/// Decode a hex string back into bytes. Fails on an odd length or any
/// non-digit character.
pub fn decode(s: &str) -> (r: Result<Vec<u8>, String>)
    ensures
        match r {
            Ok(v) => hex_decode_bytes(s.spec_bytes()) == Some(v@),
            Err(e) => hex_decode_bytes(s.spec_bytes()) is None && e@ == "hex decode: invalid input"@,
        },
{
    let bytes = s.as_bytes();
    let n = bytes.len();
    if n % 2 != 0 {
        return Err(String::from_str("hex decode: invalid input"));
    }
    let mut out: Vec<u8> = Vec::new();
    let mut i: usize = 0;
    while i < n
        invariant
            n == bytes@.len(),
            bytes@ == s.spec_bytes(),
            n % 2 == 0,
            i <= n,
            i % 2 == 0,
            out@.len() == i / 2,
            forall|j: int|
                0 <= j < i ==> hex_digit_val(#[trigger] bytes@[j]) is Some,
            forall|j: int|
                0 <= j < i / 2 ==> out@[j] == (hex_digit_val(bytes@[2 * j])->Some_0 * 16
                    + hex_digit_val(bytes@[2 * j + 1])->Some_0) as u8,
        decreases n - i,
    {
        let hi = match hex_digit_val_exec(bytes[i]) {
            Some(v) => v,
            None => {
                return Err(String::from_str("hex decode: invalid input"));
            },
        };
        let lo = match hex_digit_val_exec(bytes[i + 1]) {
            Some(v) => v,
            None => {
                return Err(String::from_str("hex decode: invalid input"));
            },
        };
        out.push(hi * 16 + lo);
        i += 2;
    }
    proof {
        let decoded = hex_decode_bytes(s.spec_bytes());
        assert(decoded is Some);
        assert(out@ =~= decoded->Some_0);
    }
    Ok(out)
}

/// Round trip: decoding an encoding gives back the bytes, for every byte
/// string.
pub proof fn lemma_hex_round_trip(b: Seq<u8>)
    ensures
        hex_decode_bytes(vstd::utf8::encode_utf8(hex_of(b))) == Some(b),
{
    let chars = hex_of(b);
    assert forall|i: int| 0 <= i < chars.len() implies '\0' <= #[trigger] chars[i] <= '\u{7f}' by {
        let nib = if i % 2 == 0 {
            b[i / 2] / 16
        } else {
            b[i / 2] % 16
        };
        assert(chars[i] == hex_char(nib));
    }
    assert(vstd::utf8::is_ascii_chars(chars));
    let enc = vstd::utf8::encode_utf8(chars);
    assert(enc.len() == 2 * b.len());
    assert forall|i: int| 0 <= i < enc.len() implies hex_digit_val(#[trigger] enc[i]) is Some by {
        assert(enc[i] == chars[i] as u8);
    }
    let dec = hex_decode_bytes(enc);
    assert(dec is Some);
    assert forall|i: int| 0 <= i < b.len() implies dec->Some_0[i] == b[i] by {
        assert(enc[2 * i] == chars[2 * i] as u8);
        assert(enc[2 * i + 1] == chars[2 * i + 1] as u8);
        assert(chars[2 * i] == hex_char(b[i] / 16));
        assert(chars[2 * i + 1] == hex_char(b[i] % 16));
        assert(hex_digit_val(hex_char(b[i] / 16) as u8) == Some((b[i] / 16) as u8));
        assert(hex_digit_val(hex_char(b[i] % 16) as u8) == Some((b[i] % 16) as u8));
        assert(b[i] / 16 * 16 + b[i] % 16 == b[i]) by (nonlinear_arith);
    }
    assert(dec->Some_0 =~= b);
}

} // verus!
