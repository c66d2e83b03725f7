//! ULID-based note identifier.

use vstd::prelude::*;
use vstd::string::StringExecFns;
use vstd::arithmetic::div_mod::{lemma_div_denominator, lemma_fundamental_div_mod, lemma_fundamental_div_mod_converse};
use crate::domain::timestamp::{Timestamp, MAX_ABS_SECS};
use crate::text::{chars_of, is_ascii_digit, is_ascii_lower, is_ascii_upper, string_from_chars};

verus! {

/// A character of Crockford's Base32 as the `ulid` crate decodes it: a digit,
/// or a letter other than I, L, O and U, in either case.
pub open spec fn is_crockford_char(c: char) -> bool {
    ||| is_ascii_digit(c)
    ||| (is_ascii_upper(c) && c != 'I' && c != 'L' && c != 'O' && c != 'U')
    ||| (is_ascii_lower(c) && c != 'i' && c != 'l' && c != 'o' && c != 'u')
}

/// A character that the `ulid` crate writes: a digit or an upper-case Crockford letter.
pub open spec fn is_crockford_upper(c: char) -> bool {
    is_crockford_char(c) && !is_ascii_lower(c)
}

/// Text that decodes as a ULID: 26 Crockford characters.
pub open spec fn ulid_text_ok(s: Seq<char>) -> bool {
    &&& s.len() == 26
    &&& forall|i: int| 0 <= i < s.len() ==> is_crockford_char(#[trigger] s[i])
}

/// Text in the form `Ulid::to_string` writes: 26 digits and upper-case
/// Crockford letters, the first one `0` to `7`.
pub open spec fn ulid_canonical(s: Seq<char>) -> bool {
    &&& s.len() == 26
    &&& forall|i: int| 0 <= i < s.len() ==> is_crockford_upper(#[trigger] s[i])
    &&& '0' <= s[0] <= '7'
}

/// The digits of Crockford's Base32, in order of value.
pub open spec fn crockford_alphabet() -> Seq<char> {
    seq![
        '0', '1', '2', '3', '4', '5', '6', '7', '8', '9', 'A', 'B', 'C', 'D', 'E', 'F', 'G', 'H',
        'J', 'K', 'M', 'N', 'P', 'Q', 'R', 'S', 'T', 'V', 'W', 'X', 'Y', 'Z',
    ]
}

/// The value of a Crockford character (either case); 0 for any other.
pub open spec fn crockford_value(c: char) -> int {
    let u = if is_ascii_lower(c) { ((c as u32) - 32) as char } else { c };
    if '0' <= u <= '9' {
        u as int - '0' as int
    } else if 'A' <= u <= 'H' {
        u as int - 'A' as int + 10
    } else if 'J' <= u <= 'K' {
        u as int - 'J' as int + 18
    } else if 'M' <= u <= 'N' {
        u as int - 'M' as int + 20
    } else if 'P' <= u <= 'T' {
        u as int - 'P' as int + 22
    } else if 'V' <= u <= 'Z' {
        u as int - 'V' as int + 27
    } else {
        0
    }
}

/// The number that base 32 digits stand for, most significant first.
pub open spec fn base32_value(s: Seq<char>) -> nat
    decreases s.len(),
{
    if s.len() == 0 {
        0
    } else {
        (base32_value(s.drop_last()) * 32 + crockford_value(s.last())) as nat
    }
}

/// `32^n`.
pub open spec fn pow32(n: nat) -> nat
    decreases n,
{
    if n == 0 {
        1
    } else {
        32 * pow32((n - 1) as nat)
    }
}

/// The 128-bit value that `Ulid::from_string` decodes from a text: its
/// digits read in base 32, bits beyond the 128th dropped.
pub open spec fn ulid_decoded(s: Seq<char>) -> u128 {
    (base32_value(s) % 0x1_0000_0000_0000_0000_0000_0000_0000_0000nat) as u128
}

/// The text that `Ulid::to_string` writes for a value: 26 base 32 digits,
/// most significant first.
pub open spec fn ulid_encoded(v: u128) -> Seq<char> {
    Seq::new(26, |i: int| crockford_alphabet()[((v as int / pow32((25 - i) as nat) as int) % 32)])
}

/// The digit of value `d` is an upper-case Crockford character, of value `d`.
proof fn lemma_alphabet_digit(d: int)
    requires
        0 <= d < 32,
    ensures
        is_crockford_upper(crockford_alphabet()[d]),
        crockford_value(crockford_alphabet()[d]) == d,
        d <= 7 ==> '0' <= crockford_alphabet()[d] <= '7',
{
    let a = crockford_alphabet();
    if d == 0 {
        assert(a[0] == '0');
    } else if d == 1 {
        assert(a[1] == '1');
    } else if d == 2 {
        assert(a[2] == '2');
    } else if d == 3 {
        assert(a[3] == '3');
    } else if d == 4 {
        assert(a[4] == '4');
    } else if d == 5 {
        assert(a[5] == '5');
    } else if d == 6 {
        assert(a[6] == '6');
    } else if d == 7 {
        assert(a[7] == '7');
    } else if d == 8 {
        assert(a[8] == '8');
    } else if d == 9 {
        assert(a[9] == '9');
    } else if d == 10 {
        assert(a[10] == 'A');
    } else if d == 11 {
        assert(a[11] == 'B');
    } else if d == 12 {
        assert(a[12] == 'C');
    } else if d == 13 {
        assert(a[13] == 'D');
    } else if d == 14 {
        assert(a[14] == 'E');
    } else if d == 15 {
        assert(a[15] == 'F');
    } else if d == 16 {
        assert(a[16] == 'G');
    } else if d == 17 {
        assert(a[17] == 'H');
    } else if d == 18 {
        assert(a[18] == 'J');
    } else if d == 19 {
        assert(a[19] == 'K');
    } else if d == 20 {
        assert(a[20] == 'M');
    } else if d == 21 {
        assert(a[21] == 'N');
    } else if d == 22 {
        assert(a[22] == 'P');
    } else if d == 23 {
        assert(a[23] == 'Q');
    } else if d == 24 {
        assert(a[24] == 'R');
    } else if d == 25 {
        assert(a[25] == 'S');
    } else if d == 26 {
        assert(a[26] == 'T');
    } else if d == 27 {
        assert(a[27] == 'V');
    } else if d == 28 {
        assert(a[28] == 'W');
    } else if d == 29 {
        assert(a[29] == 'X');
    } else if d == 30 {
        assert(a[30] == 'Y');
    } else if d == 31 {
        assert(a[31] == 'Z');
    }
}

/// An upper-case Crockford character is the digit of its value.
proof fn lemma_char_digit(c: char)
    requires
        is_crockford_upper(c),
    ensures
        0 <= crockford_value(c) < 32,
        crockford_alphabet()[crockford_value(c)] == c,
{
    let a = crockford_alphabet();
    assert(c == '0' || c == '1' || c == '2' || c == '3' || c == '4' || c == '5' || c == '6' || c == '7' || c == '8' || c == '9' || c == 'A' || c == 'B' || c == 'C' || c == 'D' || c == 'E' || c == 'F' || c == 'G' || c == 'H' || c == 'J' || c == 'K' || c == 'M' || c == 'N' || c == 'P' || c == 'Q' || c == 'R' || c == 'S' || c == 'T' || c == 'V' || c == 'W' || c == 'X' || c == 'Y' || c == 'Z');
    if c == '0' {
        assert(a[0] == c);
        lemma_alphabet_digit(0);
    } else if c == '1' {
        assert(a[1] == c);
        lemma_alphabet_digit(1);
    } else if c == '2' {
        assert(a[2] == c);
        lemma_alphabet_digit(2);
    } else if c == '3' {
        assert(a[3] == c);
        lemma_alphabet_digit(3);
    } else if c == '4' {
        assert(a[4] == c);
        lemma_alphabet_digit(4);
    } else if c == '5' {
        assert(a[5] == c);
        lemma_alphabet_digit(5);
    } else if c == '6' {
        assert(a[6] == c);
        lemma_alphabet_digit(6);
    } else if c == '7' {
        assert(a[7] == c);
        lemma_alphabet_digit(7);
    } else if c == '8' {
        assert(a[8] == c);
        lemma_alphabet_digit(8);
    } else if c == '9' {
        assert(a[9] == c);
        lemma_alphabet_digit(9);
    } else if c == 'A' {
        assert(a[10] == c);
        lemma_alphabet_digit(10);
    } else if c == 'B' {
        assert(a[11] == c);
        lemma_alphabet_digit(11);
    } else if c == 'C' {
        assert(a[12] == c);
        lemma_alphabet_digit(12);
    } else if c == 'D' {
        assert(a[13] == c);
        lemma_alphabet_digit(13);
    } else if c == 'E' {
        assert(a[14] == c);
        lemma_alphabet_digit(14);
    } else if c == 'F' {
        assert(a[15] == c);
        lemma_alphabet_digit(15);
    } else if c == 'G' {
        assert(a[16] == c);
        lemma_alphabet_digit(16);
    } else if c == 'H' {
        assert(a[17] == c);
        lemma_alphabet_digit(17);
    } else if c == 'J' {
        assert(a[18] == c);
        lemma_alphabet_digit(18);
    } else if c == 'K' {
        assert(a[19] == c);
        lemma_alphabet_digit(19);
    } else if c == 'M' {
        assert(a[20] == c);
        lemma_alphabet_digit(20);
    } else if c == 'N' {
        assert(a[21] == c);
        lemma_alphabet_digit(21);
    } else if c == 'P' {
        assert(a[22] == c);
        lemma_alphabet_digit(22);
    } else if c == 'Q' {
        assert(a[23] == c);
        lemma_alphabet_digit(23);
    } else if c == 'R' {
        assert(a[24] == c);
        lemma_alphabet_digit(24);
    } else if c == 'S' {
        assert(a[25] == c);
        lemma_alphabet_digit(25);
    } else if c == 'T' {
        assert(a[26] == c);
        lemma_alphabet_digit(26);
    } else if c == 'V' {
        assert(a[27] == c);
        lemma_alphabet_digit(27);
    } else if c == 'W' {
        assert(a[28] == c);
        lemma_alphabet_digit(28);
    } else if c == 'X' {
        assert(a[29] == c);
        lemma_alphabet_digit(29);
    } else if c == 'Y' {
        assert(a[30] == c);
        lemma_alphabet_digit(30);
    } else if c == 'Z' {
        assert(a[31] == c);
        lemma_alphabet_digit(31);
    }
}

/// Every character has a digit value below 32.
proof fn lemma_value_range(c: char)
    ensures
        0 <= crockford_value(c) < 32,
{
}

proof fn lemma_pow32_bounds()
    ensures
        pow32(25) == 0x2000_0000_0000_0000_0000_0000_0000_0000nat,
        pow32(26) == 32 * pow32(25),
{
    reveal_with_fuel(pow32, 27);
    assert(pow32(25) == 0x2000_0000_0000_0000_0000_0000_0000_0000nat);
}

/// The digits of a text, read back out of the number they stand for: the
/// number is below `32^n`, and its `i`-th digit in base 32 (most
/// significant first) is the value of the `i`-th character.
proof fn lemma_base32_digits(s: Seq<char>)
    ensures
        base32_value(s) < pow32(s.len()),
        forall|i: int|
            0 <= i < s.len() ==> (base32_value(s) as int / (pow32((s.len() - 1 - i) as nat) as int)) % 32
                == crockford_value(#[trigger] s[i]),
    decreases s.len(),
{
    if s.len() > 0 {
        let p = s.drop_last();
        lemma_base32_digits(p);
        let b = base32_value(p) as int;
        let c = crockford_value(s.last());
        lemma_value_range(s.last());
        let x = base32_value(s) as int;
        assert(x == b * 32 + c);
        lemma_fundamental_div_mod_converse(x, 32, b, c);
        assert forall|i: int| 0 <= i < s.len() implies (x / (pow32((s.len() - 1 - i) as nat) as int)) % 32
            == crockford_value(#[trigger] s[i]) by {
            if i == s.len() - 1 {
                assert(pow32(0) == 1);
                assert(x / 1 == x);
            } else {
                let m = (s.len() - 2 - i) as nat;
                let q = pow32(m) as int;
                assert(pow32((s.len() - 1 - i) as nat) == 32 * pow32(m));
                lemma_pow32_positive(m);
                lemma_div_denominator(x, 32, q);
                assert(p[i] == s[i]);
                assert((p.len() - 1 - i) as nat == m);
            }
        }
    }
}

proof fn lemma_pow32_positive(n: nat)
    ensures
        pow32(n) > 0,
    decreases n,
{
    if n > 0 {
        lemma_pow32_positive((n - 1) as nat);
    }
}

/// The first `k` characters of a value's text stand for the value without
/// its last `26 - k` digits.
proof fn lemma_encoded_prefix(v: u128, k: nat)
    requires
        k <= 26,
    ensures
        base32_value(ulid_encoded(v).take(k as int)) == v as int / (pow32((26 - k) as nat) as int),
    decreases k,
{
    let e = ulid_encoded(v);
    if k == 0 {
        lemma_pow32_bounds();
        assert(e.take(0) =~= Seq::<char>::empty());
        assert(v < 4 * pow32(26)) by {
            assert(v < 0x1_0000_0000_0000_0000_0000_0000_0000_0000nat);
        }
        assert(v as int / (pow32(26) as int) == 0) by {
            lemma_fundamental_div_mod_converse(v as int, pow32(26) as int, 0, v as int);
        }
    } else {
        lemma_encoded_prefix(v, (k - 1) as nat);
        let m = (26 - k) as nat;
        let q = pow32(m) as int;
        lemma_pow32_positive(m);
        assert(pow32((26 - (k - 1)) as nat) == 32 * pow32(m));
        assert(e.take(k as int).drop_last() =~= e.take(k - 1));
        let d = (v as int / q) % 32;
        assert(e[k - 1] == crockford_alphabet()[d]);
        lemma_alphabet_digit(d);
        lemma_div_denominator(v as int, q, 32);
        assert(q * 32 == 32 * q);
        lemma_fundamental_div_mod(v as int / q, 32);
    }
}

/// Decoding the text of a value gives the value back.
pub proof fn lemma_decode_encode(v: u128)
    ensures
        ulid_decoded(ulid_encoded(v)) == v,
{
    lemma_encoded_prefix(v, 26);
    assert(ulid_encoded(v).take(26) =~= ulid_encoded(v));
    assert(pow32(0) == 1);
    assert(v as int / 1 == v);
}

/// The text of a value is in canonical form.
pub proof fn lemma_encoded_canonical(v: u128)
    ensures
        ulid_canonical(ulid_encoded(v)),
{
    let e = ulid_encoded(v);
    lemma_pow32_bounds();
    let p = pow32(25) as int;
    assert forall|i: int| 0 <= i < e.len() implies is_crockford_upper(#[trigger] e[i]) by {
        lemma_pow32_positive((25 - i) as nat);
        lemma_alphabet_digit((v as int / (pow32((25 - i) as nat) as int)) % 32);
    }
    let q = v as int / p;
    assert(q < 8) by {
        lemma_fundamental_div_mod(v as int, p);
        assert(v as int == p * q + (v as int % p));
        assert(v < 8 * p);
        assert(q < 8) by (nonlinear_arith)
            requires
                v as int == p * q + (v as int % p),
                0 <= v as int % p,
                v < 8 * p,
                p > 0,
        ;
    }
    assert(0 <= q);
    assert(q % 32 == q);
    lemma_alphabet_digit(q);
}

/// Encoding the value of a canonical text gives the text back.
pub proof fn lemma_encode_decode(s: Seq<char>)
    requires
        ulid_canonical(s),
    ensures
        ulid_encoded(ulid_decoded(s)) == s,
{
    lemma_base32_digits(s);
    lemma_pow32_bounds();
    let x = base32_value(s) as int;
    let p = pow32(25) as int;
    lemma_pow32_positive(25);
    assert((x / p) % 32 == crockford_value(s[0]));
    assert(crockford_value(s[0]) <= 7);
    let q = x / p;
    lemma_fundamental_div_mod(x, p);
    assert(x == p * q + x % p);
    assert(q < 32) by (nonlinear_arith)
        requires
            x == p * q + x % p,
            0 <= x % p,
            x < 32 * p,
            p > 0,
    ;
    assert(q >= 0) by (nonlinear_arith)
        requires
            x == p * q + x % p,
            x % p < p,
            x >= 0,
            p > 0,
    ;
    assert(q % 32 == q);
    assert(x < 8 * p) by (nonlinear_arith)
        requires
            x == p * q + x % p,
            x % p < p,
            q <= 7,
            p > 0,
    ;
    assert(x % 0x1_0000_0000_0000_0000_0000_0000_0000_0000int == x);
    let v = ulid_decoded(s);
    assert(v as int == x);
    assert forall|i: int| 0 <= i < 26 implies #[trigger] ulid_encoded(v)[i] == s[i] by {
        lemma_char_digit(s[i]);
    }
    assert(ulid_encoded(v) =~= s);
}

#[verifier::external_type_specification]
#[verifier::external_body]
pub struct ExUlidDecodeError(ulid::DecodeError);

/// `ulid::Ulid::from_string`: decodes 26 Crockford Base32 characters.
/// Claimed: it succeeds exactly on texts of 26 Crockford characters (the
/// crate checks the byte length, then looks each byte up), and the value is
/// `ulid_decoded` of the text (the crate shifts each digit's five bits in,
/// most significant first, in a `u128`).
#[verifier::external_body]
fn ulid_from_string(s: &str) -> (r: Result<u128, ulid::DecodeError>)
    ensures
        r is Ok <==> ulid_text_ok(s@),
        r matches Ok(v) ==> v == ulid_decoded(s@),
{
    match ulid::Ulid::from_string(s) {
        Ok(u) => Ok(u.0),
        Err(e) => Err(e),
    }
}

/// `Display` of `ulid::DecodeError`: one of its two fixed messages.
#[verifier::external_body]
fn ulid_decode_error_text(e: &ulid::DecodeError) -> (r: String)
    ensures
        r@ == "invalid length"@ || r@ == "invalid character"@,
{
    e.to_string()
}

/// `ulid::Ulid::to_string`: the 26-character Crockford Base32 text of a
/// value.  Claimed: it is `ulid_encoded` of the value (the crate writes the
/// alphabet digit of each five bits, least significant last).
#[verifier::external_body]
fn ulid_to_string(v: u128) -> (r: String)
    ensures
        r@ == ulid_encoded(v),
{
    ulid::Ulid(v).to_string()
}

/// `ulid::Ulid::new`: a fresh identifier from the clock and a random source.
/// Nothing is claimed of the value.
#[verifier::external_body]
fn ulid_new() -> u128 {
    ulid::Ulid::new().0
}

/// `ulid::Ulid::from_datetime` at `ms` milliseconds after the epoch.
/// Claimed: the top 48 bits hold `ms` modulo 2^48 (the rest is random).
#[verifier::external_body]
fn ulid_from_datetime_millis(ms: u64) -> (r: u128)
    ensures
        (r >> 80u128) == (ms as u128) % 0x1_0000_0000_0000u128,
{
    ulid::Ulid::from_datetime(std::time::UNIX_EPOCH + std::time::Duration::from_millis(ms)).0
}

/// A unique identifier for a note, a ULID: 48 bits of millisecond
/// timestamp and 80 random bits, written as 26 Crockford Base32 characters.
#[derive(Debug, PartialEq, Eq, Structural, Clone, Copy, Hash)]
pub struct NoteId(u128);

/// Error returned when parsing an invalid ULID string.
#[derive(Debug, Clone)]
pub struct ParseNoteIdError {
    value: String,
    reason: String,
}

impl NoteId {
    /// The 128-bit value.
    pub closed spec fn spec_value(self) -> u128 {
        self.0
    }

    /// The canonical text of the identifier.
    pub open spec fn spec_text(self) -> Seq<char> {
        ulid_encoded(self.spec_value())
    }

    /// Creates a new identifier from the current time.
    pub fn new() -> (r: NoteId) {
        NoteId(ulid_new())
    }

    /// Creates an identifier whose timestamp is the given instant (in
    /// milliseconds; instants before the epoch count as the epoch).
    pub fn from_datetime(datetime: Timestamp) -> (r: NoteId)
        requires
            datetime.wf(),
        ensures
            (r.spec_value() >> 80u128) == (if datetime.spec_millis() < 0 {
                0
            } else {
                datetime.spec_millis() % 0x1_0000_0000_0000
            }),
    {
        let ms = datetime.timestamp_millis();
        let ms_u: u64 = if ms < 0 {
            0
        } else {
            ms as u64
        };
        NoteId(ulid_from_datetime_millis(ms_u))
    }

    /// The 26-character text.
    pub fn to_string(&self) -> (r: String)
        ensures
            r@ == self.spec_text(),
            r@.len() == 26,
            ulid_text_ok(r@),
            ulid_decoded(r@) == self.spec_value(),
    {
        proof {
            lemma_encoded_canonical(self.0);
            lemma_decode_encode(self.0);
        }
        ulid_to_string(self.0)
    }

    /// The first 10 characters of the text (the whole timestamp part),
    /// as used in file names.
    pub fn prefix(&self) -> (r: String)
        ensures
            r@ == self.spec_text().take(10),
    {
        let full = chars_of(self.to_string().as_str());
        let mut out: Vec<char> = Vec::new();
        let mut i: usize = 0;
        while i < 10
            invariant
                i <= 10,
                full@ == self.spec_text(),
                full@.len() == 26,
                out@ == full@.take(i as int),
            decreases 10 - i,
        {
            out.push(full[i]);
            i = i + 1;
            assert(out@ =~= full@.take(i as int));
        }
        string_from_chars(out.as_slice())
    }

    /// The milliseconds since the epoch that the identifier records.
    pub fn timestamp_ms(&self) -> (r: u64)
        ensures
            r == (self.spec_value() >> 80u128),
            r <= 0xffff_ffff_ffff,
    {
        let v = self.0;
        assert(v >> 80u128 <= 0xffff_ffff_ffffu128) by (bit_vector);
        (v >> 80u128) as u64
    }

    /// The instant the identifier records, to the millisecond.
    pub fn timestamp(&self) -> (r: Timestamp)
        ensures
            r.wf(),
            r.spec_millis() == (self.spec_value() >> 80u128),
    {
        let ms = self.timestamp_ms();
        assert(ms <= 0xffff_ffff_ffff);
        let t = Timestamp::from_millis(ms as i64);
        t.unwrap()
    }

    /// Parses a 26-character ULID text (either case).
    pub fn parse(s: &str) -> (res: Result<NoteId, ParseNoteIdError>)
        ensures
            res is Ok <==> ulid_text_ok(s@),
            res matches Ok(id) ==> id.spec_value() == ulid_decoded(s@),
            res matches Ok(id) ==> (ulid_canonical(s@) ==> id.spec_text() == s@),
            res matches Err(e) ==> e.spec_value() == s@ && (e.spec_reason() == "invalid length"@
                || e.spec_reason() == "invalid character"@),
    {
        match ulid_from_string(s) {
            Ok(v) => {
                proof {
                    if ulid_canonical(s@) {
                        lemma_encode_decode(s@);
                    }
                }
                Ok(NoteId(v))
            },
            Err(e) => Err(
                ParseNoteIdError { value: String::from_str(s), reason: ulid_decode_error_text(&e) },
            ),
        }
    }
}

impl ParseNoteIdError {
    pub closed spec fn spec_value(&self) -> Seq<char> {
        self.value@
    }

    pub closed spec fn spec_reason(&self) -> Seq<char> {
        self.reason@
    }

    /// Returns the text that failed to parse.
    pub fn invalid_value(&self) -> (r: &str)
        ensures
            r@ == self.spec_value(),
    {
        self.value.as_str()
    }

    /// The error message: `invalid ULID '<value>': <reason>`.
    pub fn to_string(&self) -> (r: String)
        ensures
            r@ == "invalid ULID '"@ + self.spec_value() + "': "@ + self.spec_reason(),
    {
        let mut msg = String::from_str("invalid ULID '");
        msg.append(self.value.as_str());
        msg.append("': ");
        msg.append(self.reason.as_str());
        msg
    }
}

impl core::str::FromStr for NoteId {
    type Err = ParseNoteIdError;

    fn from_str(s: &str) -> (res: Result<NoteId, ParseNoteIdError>)
        ensures
            res is Ok <==> ulid_text_ok(s@),
            res matches Ok(id) ==> id.spec_value() == ulid_decoded(s@),
            res matches Ok(id) ==> (ulid_canonical(s@) ==> id.spec_text() == s@),
            res matches Err(e) ==> e.spec_value() == s@ && (e.spec_reason() == "invalid length"@
                || e.spec_reason() == "invalid character"@),
    {
        NoteId::parse(s)
    }
}

/// An identifier's text is in canonical form and decodes to the
/// identifier's value; a canonical text is the text of the value it decodes
/// to.  So `NoteId::parse` of `to_string` gives the identifier back, and
/// `to_string` of a parsed canonical text gives the text back.
pub proof fn lemma_text_roundtrip(id: NoteId, s: Seq<char>)
    ensures
        ulid_canonical(id.spec_text()),
        ulid_decoded(id.spec_text()) == id.spec_value(),
        ulid_canonical(s) ==> ulid_encoded(ulid_decoded(s)) == s,
{
    lemma_encoded_canonical(id.spec_value());
    lemma_decode_encode(id.spec_value());
    if ulid_canonical(s) {
        lemma_encode_decode(s);
    }
}

} // verus!
