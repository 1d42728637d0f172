use vstd::prelude::*;

verus! {

/// Why a run of hex text did not decode.
#[derive(Clone, Copy, Debug, PartialEq, Eq, Structural)]
pub enum HexError {
    /// The byte at `index` is not a hex digit.
    InvalidHexCharacter { byte: u8, index: usize },
    /// The text has an odd number of digits.
    OddLength,
    /// The text does not fit a fixed-size output; decoding to a `Vec` never
    /// gives it.
    InvalidStringLength,
}

/// `b` is one of `0-9`, `A-F`, `a-f`.
pub open spec fn is_hex_digit(b: u8) -> bool {
    (48 <= b <= 57) || (65 <= b <= 70) || (97 <= b <= 102)
}

/// The value of a hex digit.
pub open spec fn hex_digit_value(b: u8) -> int {
    if 48 <= b <= 57 {
        b - 48
    } else if 65 <= b <= 70 {
        b - 55
    } else {
        b - 87
    }
}

/// The text is an even number of hex digits.
pub open spec fn hex_valid(s: Seq<u8>) -> bool {
    s.len() % 2 == 0 && forall|k: int| 0 <= k < s.len() ==> is_hex_digit(#[trigger] s[k])
}

/// The bytes that valid hex text stands for: two digits per byte, high first.
pub open spec fn hex_decoded(s: Seq<u8>) -> Seq<u8> {
    Seq::new(
        s.len() / 2,
        |k: int| (16 * hex_digit_value(s[2 * k]) + hex_digit_value(s[2 * k + 1])) as u8,
    )
}

/// Index of the first byte at or after `from` that is not a hex digit, or
/// the length of `s` when there is none.
pub open spec fn first_non_hex(s: Seq<u8>, from: int) -> int
    decreases s.len() - from,
{
    if from < 0 || from >= s.len() {
        s.len() as int
    } else if !is_hex_digit(s[from]) {
        from
    } else {
        first_non_hex(s, from + 1)
    }
}

/// The error that text which is not valid hex gives: odd length first,
/// else the first byte that is not a digit.
pub open spec fn hex_error(s: Seq<u8>) -> HexError {
    if s.len() % 2 != 0 {
        HexError::OddLength
    } else {
        let k = first_non_hex(s, 0);
        HexError::InvalidHexCharacter { byte: s[k], index: k as usize }
    }
}

/// The lower-case hex digit for a value below sixteen.
pub open spec fn lower_hex_digit(v: int) -> u8 {
    if v < 10 {
        (48 + v) as u8
    } else {
        (87 + v) as u8
    }
}

/// Lower-case hex text of `b`: two digits per byte, high first.
pub open spec fn hex_encoded(b: Seq<u8>) -> Seq<u8> {
    Seq::new(
        2 * b.len(),
        |k: int|
            if k % 2 == 0 {
                lower_hex_digit(b[k / 2] as int / 16)
            } else {
                lower_hex_digit(b[k / 2] as int % 16)
            },
    )
}

/// Decoding the hex encoding of any bytes succeeds and gives them back.
pub proof fn lemma_hex_round_trip(b: Seq<u8>)
    ensures
        hex_valid(hex_encoded(b)),
        hex_decoded(hex_encoded(b)) == b,
{
    let e = hex_encoded(b);
    assert forall|k: int| 0 <= k < e.len() implies is_hex_digit(#[trigger] e[k]) by {
        let x = b[k / 2] as int;
        assert(0 <= x / 16 < 16 && 0 <= x % 16 < 16) by (nonlinear_arith)
            requires
                0 <= x < 256,
        ;
    }
    assert(e.len() % 2 == 0);
    assert forall|k: int| 0 <= k < b.len() implies #[trigger] hex_decoded(e)[k] == b[k] by {
        let x = b[k] as int;
        assert((2 * k) / 2 == k && (2 * k + 1) / 2 == k && (2 * k) % 2 == 0 && (2 * k + 1) % 2
            == 1) by (nonlinear_arith);
        assert(0 <= x / 16 < 16 && 0 <= x % 16 < 16 && 16 * (x / 16) + x % 16 == x)
            by (nonlinear_arith)
            requires
                0 <= x < 256,
        ;
    }
    assert(hex_decoded(e) =~= b);
}

/// Relies on hex::decode: odd length is refused first, then the first byte
/// that is not a hex digit; otherwise each pair of digits gives one byte.
#[verifier::external_body]
pub(crate) fn decode_hex(s: &[u8]) -> (r: Result<Vec<u8>, HexError>)
    ensures
        match r {
            Ok(v) => hex_valid(s@) && v@ == hex_decoded(s@),
            Err(e) => !hex_valid(s@) && e == hex_error(s@),
        },
{
    match hex::decode(s) {
        Ok(v) => Ok(v),
        Err(hex::FromHexError::InvalidHexCharacter { c, index }) => Err(
            HexError::InvalidHexCharacter { byte: c as u8, index },
        ),
        Err(hex::FromHexError::OddLength) => Err(HexError::OddLength),
        Err(hex::FromHexError::InvalidStringLength) => Err(HexError::InvalidStringLength),
    }
}

} // verus!
