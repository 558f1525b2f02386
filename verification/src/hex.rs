//! Hexadecimal keys and checksums of layout files.
use crate::layout::TypeId;
use std::collections::HashMap;
use vstd::prelude::*;
use vstd::string::StringSliceAdditionalSpecFns;

verus! {

broadcast use vstd::std_specs::hash::group_hash_axioms;

/// Why a hexadecimal number could not be read.
#[derive(Debug, Clone, Copy, PartialEq, Eq)]
pub enum HexError {
    /// The text is empty.
    Empty,
    /// The text holds a byte that is not a hexadecimal digit, or only a sign.
    InvalidDigit,
    /// The number does not fit in a `usize`.
    PosOverflow,
}

/// The value of an ASCII hexadecimal digit, in either case.
pub open spec fn hex_digit(b: u8) -> Option<u8> {
    if 48 <= b <= 57 {
        Some((b - 48) as u8)
    } else if 97 <= b <= 102 {
        Some((b - 87) as u8)
    } else if 65 <= b <= 70 {
        Some((b - 55) as u8)
    } else {
        None
    }
}

/// Reads the digits `digits` after the value `acc` read so far, most significant first.
pub open spec fn scan_hex(digits: Seq<u8>, acc: int) -> Result<usize, HexError>
    decreases digits.len(),
{
    if digits.len() == 0 {
        Ok(acc as usize)
    } else {
        match hex_digit(digits[0]) {
            None => Err(HexError::InvalidDigit),
            Some(x) => if acc * 16 + x > usize::MAX {
                Err(HexError::PosOverflow)
            } else {
                scan_hex(digits.skip(1), acc * 16 + x)
            },
        }
    }
}

/// The unsigned number written in hexadecimal by the bytes `b`, after an optional `+` sign, as
/// `usize::from_str_radix(_, 16)` reads it: the first byte that is not a digit, or the first
/// digit at which the value no longer fits, decides the error.
pub open spec fn spec_parse_hex(b: Seq<u8>) -> Result<usize, HexError> {
    if b.len() == 0 {
        Err(HexError::Empty)
    } else if b.len() == 1 && (b[0] == 43 || b[0] == 45) {
        Err(HexError::InvalidDigit)
    } else if b[0] == 43 {
        scan_hex(b.skip(1), 0)
    } else {
        scan_hex(b, 0)
    }
}

fn digit_value(b: u8) -> (r: Option<u8>)
    ensures
        r == hex_digit(b),
{
    if 48 <= b && b <= 57 {
        Some(b - 48)
    } else if 97 <= b && b <= 102 {
        Some(b - 87)
    } else if 65 <= b && b <= 70 {
        Some(b - 55)
    } else {
        None
    }
}

/// Reads an unsigned hexadecimal number, such as a type ID or a CRC of a layout file.
pub fn deserialize_hex(s: &str) -> (r: Result<usize, HexError>)
    ensures
        r == spec_parse_hex(s.spec_bytes()),
{
    let b = s.as_bytes();
    if b.len() == 0 {
        return Err(HexError::Empty);
    }
    if b.len() == 1 && (b[0] == 43 || b[0] == 45) {
        return Err(HexError::InvalidDigit);
    }
    let start: usize = if b[0] == 43 {
        1
    } else {
        0
    };
    let ghost digits = b@.skip(start as int);
    assert(b@.skip(0) =~= b@);
    assert(spec_parse_hex(b@) == scan_hex(digits, 0));
    let mut acc: usize = 0;
    let mut i: usize = start;
    while i < b.len()
        invariant
            start <= i <= b@.len(),
            b@ == s.spec_bytes(),
            digits == b@.skip(start as int),
            spec_parse_hex(b@) == scan_hex(digits, 0),
            scan_hex(digits, 0) == scan_hex(b@.skip(i as int), acc as int),
        decreases b@.len() - i,
    {
        assert(b@.skip(i as int).skip(1) =~= b@.skip(i + 1));
        let x = match digit_value(b[i]) {
            Some(x) => x,
            None => return Err(HexError::InvalidDigit),
        };
        let m = match acc.checked_mul(16) {
            Some(m) => m,
            None => return Err(HexError::PosOverflow),
        };
        acc = match m.checked_add(x as usize) {
            Some(a) => a,
            None => return Err(HexError::PosOverflow),
        };
        i = i + 1;
    }
    Ok(acc)
}

/// The map from the hexadecimal keys of `entries`, read in order, to their values; a later
/// entry replaces an earlier one with the same key. The first key that cannot be read decides
/// the error.
pub open spec fn spec_hex_map<V>(entries: Seq<(&str, V)>) -> Result<Map<TypeId, V>, HexError>
    decreases entries.len(),
{
    if entries.len() == 0 {
        Ok(Map::empty())
    } else {
        match spec_hex_map(entries.drop_last()) {
            Ok(m) => match spec_parse_hex(entries.last().0.spec_bytes()) {
                Ok(k) => Ok(m.insert(k, entries.last().1)),
                Err(e) => Err(e),
            },
            Err(e) => Err(e),
        }
    }
}

/// Builds a map keyed by type IDs from entries keyed by hexadecimal text.
pub fn deserialize_hex_map<V>(entries: Vec<(&str, V)>) -> (r: Result<HashMap<TypeId, V>, HexError>)
    ensures
        match r {
            Ok(m) => spec_hex_map(entries@) == Ok::<Map<TypeId, V>, HexError>(m@),
            Err(e) => spec_hex_map(entries@) == Err::<Map<TypeId, V>, HexError>(e),
        },
{
    let ghost all = entries@;
    let mut map: HashMap<TypeId, V> = HashMap::new();
    let mut rest = entries;
    let mut i: usize = 0;
    let n = rest.len();
    assert(all.take(0) =~= Seq::<(&str, V)>::empty());
    while i < n
        invariant
            n == all.len(),
            all == entries@,
            i <= n,
            rest@ == all.skip(i as int),
            spec_hex_map(all.take(i as int)) == Ok::<Map<TypeId, V>, HexError>(map@),
        decreases n - i,
    {
        assert(all.take(i + 1).drop_last() =~= all.take(i as int));
        assert(rest@[0] == all[i as int]);
        let entry = rest.remove(0);
        let (key, value) = entry;
        assert(key == all[i as int].0 && value == all[i as int].1);
        assert(rest@ =~= all.skip(i + 1));
        assert(all.take(i + 1).last() == all[i as int]);
        match deserialize_hex(key) {
            Ok(k) => {
                map.insert(k, value);
            },
            Err(e) => {
                proof {
                    lemma_hex_map_stops(all, (i + 1) as nat);
                }
                return Err(e);
            },
        }
        i = i + 1;
    }
    assert(all.take(n as int) =~= all);
    Ok(map)
}

proof fn lemma_hex_map_stops<V>(all: Seq<(&str, V)>, k: nat)
    requires
        k <= all.len(),
        spec_hex_map(all.take(k as int)) is Err,
    ensures
        spec_hex_map(all) == spec_hex_map(all.take(k as int)),
    decreases all.len() - k,
{
    if k < all.len() {
        assert(all.take(k + 1 as int).drop_last() =~= all.take(k as int));
        lemma_hex_map_stops(all, k + 1);
    } else {
        assert(all.take(k as int) =~= all);
    }
}


/// The lowercase ASCII hexadecimal digit of a value below 16.
pub open spec fn digit_char(x: nat) -> u8 {
    if x < 10 {
        (48 + x) as u8
    } else {
        (87 + x) as u8
    }
}

/// The lowercase hexadecimal numeral of `n`, without leading zeros.
pub open spec fn hex_digits(n: nat) -> Seq<u8>
    decreases n,
{
    if n < 16 {
        seq![digit_char(n)]
    } else {
        hex_digits(n / 16).push(digit_char(n % 16))
    }
}

proof fn lemma_scan_hex_push(s: Seq<u8>, c: u8, acc: int)
    requires
        0 <= acc <= usize::MAX,
    ensures
        scan_hex(s.push(c), acc) == match scan_hex(s, acc) {
            Ok(v) => match hex_digit(c) {
                None => Err(HexError::InvalidDigit),
                Some(x) => if v * 16 + x > usize::MAX {
                    Err(HexError::PosOverflow)
                } else {
                    Ok((v * 16 + x) as usize)
                },
            },
            Err(e) => Err(e),
        },
    decreases s.len(),
{
    reveal_with_fuel(scan_hex, 2);
    if s.len() == 0 {
        assert(s.push(c) =~= seq![c]);
        assert(seq![c].skip(1) =~= Seq::<u8>::empty());
    } else {
        assert(s.push(c).skip(1) =~= s.skip(1).push(c));
        assert(s.push(c)[0] == s[0]);
        match hex_digit(s[0]) {
            Some(x) => if acc * 16 + x <= usize::MAX {
                lemma_scan_hex_push(s.skip(1), c, acc * 16 + x);
            },
            None => {},
        }
    }
}

proof fn lemma_scan_hex_digits(n: nat)
    requires
        n <= usize::MAX,
    ensures
        scan_hex(hex_digits(n), 0) == Ok::<usize, HexError>(n as usize),
        hex_digits(n).len() >= 1,
        hex_digits(n)[0] != 43 && hex_digits(n)[0] != 45,
    decreases n,
{
    if n < 16 {
        reveal_with_fuel(scan_hex, 2);
        assert(hex_digit(digit_char(n)) == Some(n as u8));
        assert(seq![digit_char(n)].skip(1) =~= Seq::<u8>::empty());
    } else {
        lemma_scan_hex_digits(n / 16);
        lemma_scan_hex_push(hex_digits(n / 16), digit_char(n % 16), 0);
        assert(hex_digit(digit_char(n % 16)) == Some((n % 16) as u8));
        assert((n / 16) * 16 + n % 16 == n);
        assert(hex_digits(n)[0] == hex_digits(n / 16)[0]);
    }
}

/// Every number that fits in a `usize` is read back from its lowercase hexadecimal numeral.
pub proof fn lemma_hex_round_trip(n: usize)
    ensures
        spec_parse_hex(hex_digits(n as nat)) == Ok::<usize, HexError>(n),
{
    lemma_scan_hex_digits(n as nat);
}

} // verus!
