//! UUIDs as Astarte values.
//!
//! A UUID is modeled as its sixteen bytes.  [`BinUuid`] carries it as a
//! binary-blob value, [`StrUuid`] as a string value rendered in the
//! hyphenated lowercase form.  Parsing accepts the four textual forms —
//! hyphenated, simple (32 bare digits), braced and URN-prefixed — with
//! hex digits of either case.

use vstd::prelude::*;

use crate::types::AstarteData;
use crate::types::DataView;
use crate::types::TypeError;

verus! {

/// The value of a hexadecimal digit character, or 16 for any other
/// character.
pub open spec fn hex_val(c: char) -> int {
    if '0' <= c && c <= '9' {
        c as int - '0' as int
    } else if 'a' <= c && c <= 'f' {
        c as int - 'a' as int + 10
    } else if 'A' <= c && c <= 'F' {
        c as int - 'A' as int + 10
    } else {
        16
    }
}

/// The position of the first character of byte `i` in the hyphenated
/// form.
pub open spec fn uuid_digit_pos(i: int) -> int {
    2 * i + (if i < 4 {
        0int
    } else if i < 6 {
        1
    } else if i < 8 {
        2
    } else if i < 10 {
        3
    } else {
        4
    })
}

/// A valid hyphenated UUID string: 36 characters, hyphens at positions 8,
/// 13, 18 and 23, hex digits elsewhere.
pub open spec fn uuid_hyphenated_valid(cs: Seq<char>) -> bool {
    &&& cs.len() == 36
    &&& cs[8] == '-' && cs[13] == '-' && cs[18] == '-' && cs[23] == '-'
    &&& forall|i: int|
        0 <= i < 16 ==> hex_val(cs[#[trigger] uuid_digit_pos(i)]) < 16 && hex_val(
            cs[uuid_digit_pos(i) + 1],
        ) < 16
}

/// The sixteen bytes denoted by a valid hyphenated UUID string.
pub open spec fn uuid_hyphenated_bytes(cs: Seq<char>) -> Seq<u8> {
    Seq::new(
        16,
        |i: int| (hex_val(cs[uuid_digit_pos(i)]) * 16 + hex_val(cs[uuid_digit_pos(i) + 1])) as u8,
    )
}

/// A valid simple UUID string: 32 bare hex digits.
pub open spec fn uuid_simple_valid(cs: Seq<char>) -> bool {
    cs.len() == 32 && forall|i: int| 0 <= i < 32 ==> hex_val(#[trigger] cs[i]) < 16
}

/// The sixteen bytes denoted by a valid simple UUID string.
pub open spec fn uuid_simple_bytes(cs: Seq<char>) -> Seq<u8> {
    Seq::new(16, |i: int| (hex_val(cs[2 * i]) * 16 + hex_val(cs[2 * i + 1])) as u8)
}

/// A valid braced UUID string: the hyphenated form between `{` and `}`.
pub open spec fn uuid_braced_valid(cs: Seq<char>) -> bool {
    cs.len() == 38 && cs[0] == '{' && cs[37] == '}' && uuid_hyphenated_valid(cs.subrange(1, 37))
}

/// A valid URN UUID string: the hyphenated form after `urn:uuid:`.
pub open spec fn uuid_urn_valid(cs: Seq<char>) -> bool {
    cs.len() == 45 && cs.subrange(0, 9) == "urn:uuid:"@ && uuid_hyphenated_valid(
        cs.subrange(9, 45),
    )
}

/// A valid UUID string in any of the four accepted forms.  The forms have
/// distinct lengths, so at most one applies.
pub open spec fn uuid_str_valid(cs: Seq<char>) -> bool {
    uuid_hyphenated_valid(cs) || uuid_simple_valid(cs) || uuid_braced_valid(cs) || uuid_urn_valid(
        cs,
    )
}

/// The sixteen bytes denoted by a valid UUID string, whatever its form.
pub open spec fn uuid_bytes(cs: Seq<char>) -> Seq<u8>
    recommends
        uuid_str_valid(cs),
{
    if cs.len() == 36 {
        uuid_hyphenated_bytes(cs)
    } else if cs.len() == 32 {
        uuid_simple_bytes(cs)
    } else if cs.len() == 38 {
        uuid_hyphenated_bytes(cs.subrange(1, 37))
    } else {
        uuid_hyphenated_bytes(cs.subrange(9, 45))
    }
}

/// The value of a hexadecimal digit character, or 16 for any other
/// character.
fn hex_digit(c: char) -> (r: u8)
    ensures
        r as int == hex_val(c),
{
    if '0' <= c && c <= '9' {
        (c as u8) - 48
    } else if 'a' <= c && c <= 'f' {
        (c as u8) - 97 + 10
    } else if 'A' <= c && c <= 'F' {
        (c as u8) - 65 + 10
    } else {
        16
    }
}

/// Parses a hyphenated UUID string into its sixteen bytes, accepting
/// exactly the valid hyphenated strings.
#[verifier::loop_isolation(false)]
fn parse_hyphenated(s: &str) -> (r: Option<Vec<u8>>)
    ensures
        match r {
            Option::Some(b) => uuid_hyphenated_valid(s@) && b@ == uuid_hyphenated_bytes(s@),
            Option::None => !uuid_hyphenated_valid(s@),
        },
{
    if s.unicode_len() != 36 {
        return None;
    }
    if s.get_char(8) != '-' || s.get_char(13) != '-' || s.get_char(18) != '-' || s.get_char(23)
        != '-' {
        return None;
    }
    let mut bytes: Vec<u8> = Vec::new();
    let mut i: usize = 0;
    while i < 16
        invariant
            i <= 16,
            bytes@.len() == i,
            forall|l: int|
                0 <= l < i ==> hex_val(s@[#[trigger] uuid_digit_pos(l)]) < 16 && hex_val(
                    s@[uuid_digit_pos(l) + 1],
                ) < 16,
            forall|l: int| 0 <= l < i ==> bytes@[l] == uuid_bytes(s@)[l],
        decreases 16 - i,
    {
        let p: usize = 2 * i + (if i < 4 {
            0
        } else if i < 6 {
            1
        } else if i < 8 {
            2
        } else if i < 10 {
            3
        } else {
            4
        });
        assert(p as int == uuid_digit_pos(i as int));
        let hi = hex_digit(s.get_char(p));
        let lo = hex_digit(s.get_char(p + 1));
        if hi >= 16 || lo >= 16 {
            assert(!uuid_hyphenated_valid(s@));
            return None;
        }
        bytes.push(hi * 16 + lo);
        i += 1;
    }
    assert(bytes@ =~= uuid_hyphenated_bytes(s@));
    Some(bytes)
}

/// Parses a simple UUID string into its sixteen bytes, accepting exactly
/// the valid simple strings.
#[verifier::loop_isolation(false)]
fn parse_simple(s: &str) -> (r: Option<Vec<u8>>)
    ensures
        match r {
            Option::Some(b) => uuid_simple_valid(s@) && b@ == uuid_simple_bytes(s@),
            Option::None => !uuid_simple_valid(s@),
        },
{
    if s.unicode_len() != 32 {
        return None;
    }
    let mut bytes: Vec<u8> = Vec::new();
    let mut i: usize = 0;
    while i < 16
        invariant
            i <= 16,
            bytes@.len() == i,
            forall|l: int| 0 <= l < 2 * i ==> hex_val(#[trigger] s@[l]) < 16,
            forall|l: int| 0 <= l < i ==> bytes@[l] == uuid_simple_bytes(s@)[l],
        decreases 16 - i,
    {
        let hi = hex_digit(s.get_char(2 * i));
        let lo = hex_digit(s.get_char(2 * i + 1));
        if hi >= 16 || lo >= 16 {
            assert(hex_val(s@[2 * i]) >= 16 || hex_val(s@[2 * i + 1]) >= 16);
            assert(!uuid_simple_valid(s@));
            return None;
        }
        assert forall|l: int| 0 <= l < 2 * (i + 1) implies hex_val(#[trigger] s@[l]) < 16 by {
            if l == 2 * i {
            } else if l == 2 * i + 1 {
            }
        }
        bytes.push(hi * 16 + lo);
        i += 1;
    }
    assert(bytes@ =~= uuid_simple_bytes(s@));
    Some(bytes)
}

/// Parses a UUID string into its sixteen bytes, accepting exactly the
/// four valid forms; they have distinct lengths, so the length picks the
/// form.
pub fn parse_uuid(s: &str) -> (r: Option<Vec<u8>>)
    ensures
        match r {
            Option::Some(b) => uuid_str_valid(s@) && b@ == uuid_bytes(s@),
            Option::None => !uuid_str_valid(s@),
        },
{
    let n = s.unicode_len();
    if n == 36 {
        parse_hyphenated(s)
    } else if n == 32 {
        parse_simple(s)
    } else if n == 38 {
        if s.get_char(0) != '{' || s.get_char(37) != '}' {
            return None;
        }
        let inner = s.substring_char(1, 37);
        let r = parse_hyphenated(inner);
        assert(inner@ == s@.subrange(1, 37));
        r
    } else if n == 45 {
        let prefix = s.substring_char(0, 9);
        if !crate::text::str_eq(prefix, "urn:uuid:") {
            assert(s@.subrange(0, 9) != "urn:uuid:"@);
            return None;
        }
        let inner = s.substring_char(9, 45);
        let r = parse_hyphenated(inner);
        assert(inner@ == s@.subrange(9, 45));
        r
    } else {
        None
    }
}

/// The lowercase hexadecimal digit character of `d`.
pub open spec fn spec_hex_char(d: int) -> char {
    if d == 0 {
        '0'
    } else if d == 1 {
        '1'
    } else if d == 2 {
        '2'
    } else if d == 3 {
        '3'
    } else if d == 4 {
        '4'
    } else if d == 5 {
        '5'
    } else if d == 6 {
        '6'
    } else if d == 7 {
        '7'
    } else if d == 8 {
        '8'
    } else if d == 9 {
        '9'
    } else if d == 10 {
        'a'
    } else if d == 11 {
        'b'
    } else if d == 12 {
        'c'
    } else if d == 13 {
        'd'
    } else if d == 14 {
        'e'
    } else {
        'f'
    }
}

/// The hyphenated lowercase form of sixteen UUID bytes.
pub open spec fn uuid_chars(b: Seq<u8>) -> Seq<char> {
    Seq::new(
        36,
        |p: int|
            if p == 8 || p == 13 || p == 18 || p == 23 {
                '-'
            } else {
                let d = uuid_char_digit(p);
                if d % 2 == 0 {
                    spec_hex_char(b[d / 2] as int / 16)
                } else {
                    spec_hex_char(b[d / 2] as int % 16)
                }
            },
    )
}

/// The index, among the 32 digits, of the digit at character position
/// `p` of the hyphenated form.
pub open spec fn uuid_char_digit(p: int) -> int {
    p - (if p < 8 {
        0int
    } else if p < 13 {
        1
    } else if p < 18 {
        2
    } else if p < 23 {
        3
    } else {
        4
    })
}

/// The lowercase hexadecimal digit character of `d` as a string slice.
fn hex_char_str(d: u8) -> (r: &'static str)
    requires
        d < 16,
    ensures
        r@ == seq![spec_hex_char(d as int)],
{
    proof {
        reveal_strlit("0");
        reveal_strlit("1");
        reveal_strlit("2");
        reveal_strlit("3");
        reveal_strlit("4");
        reveal_strlit("5");
        reveal_strlit("6");
        reveal_strlit("7");
        reveal_strlit("8");
        reveal_strlit("9");
        reveal_strlit("a");
        reveal_strlit("b");
        reveal_strlit("c");
        reveal_strlit("d");
        reveal_strlit("e");
        reveal_strlit("f");
    }
    let r: &'static str = if d == 0 {
        "0"
    } else if d == 1 {
        "1"
    } else if d == 2 {
        "2"
    } else if d == 3 {
        "3"
    } else if d == 4 {
        "4"
    } else if d == 5 {
        "5"
    } else if d == 6 {
        "6"
    } else if d == 7 {
        "7"
    } else if d == 8 {
        "8"
    } else if d == 9 {
        "9"
    } else if d == 10 {
        "a"
    } else if d == 11 {
        "b"
    } else if d == 12 {
        "c"
    } else if d == 13 {
        "d"
    } else if d == 14 {
        "e"
    } else {
        "f"
    };
    assert(r@ =~= seq![spec_hex_char(d as int)]);
    r
}

/// Renders sixteen UUID bytes in the hyphenated lowercase form.
#[verifier::loop_isolation(false)]
pub fn format_uuid(bytes: &Vec<u8>) -> (r: String)
    requires
        bytes@.len() == 16,
    ensures
        r@ == uuid_chars(bytes@),
{
    let mut s = String::new();
    let mut p: usize = 0;
    while p < 36
        invariant
            p <= 36,
            s@ =~= uuid_chars(bytes@).take(p as int),
        decreases 36 - p,
    {
        if p == 8 || p == 13 || p == 18 || p == 23 {
            s.append("-");
            proof {
                reveal_strlit("-");
                assert(s@ =~= uuid_chars(bytes@).take(p + 1));
            }
        } else {
            let d: usize = p - (if p < 8 {
                0
            } else if p < 13 {
                1
            } else if p < 18 {
                2
            } else if p < 23 {
                3
            } else {
                4
            });
            assert(d as int == uuid_char_digit(p as int));
            let b = bytes[d / 2];
            let nibble = if d % 2 == 0 {
                b / 16
            } else {
                b % 16
            };
            s.append(hex_char_str(nibble));
            proof {
                assert(s@ =~= uuid_chars(bytes@).take(p + 1));
            }
        }
        p += 1;
    }
    assert(s@ =~= uuid_chars(bytes@));
    s
}

/// A UUID carried as a binary-blob Astarte value.
#[derive(Debug)]
pub struct BinUuid {
    bytes: Vec<u8>,
}

impl View for BinUuid {
    type V = Seq<u8>;

    closed spec fn view(&self) -> Seq<u8> {
        self.bytes@
    }
}

impl BinUuid {
    /// A binary UUID from its sixteen bytes.
    pub fn new(bytes: Vec<u8>) -> (r: Result<BinUuid, TypeError>)
        ensures
            r matches Ok(u) ==> bytes@.len() == 16 && u@ == bytes@,
            r is Err ==> bytes@.len() != 16,
    {
        if bytes.len() != 16 {
            return Err(TypeError::conversion(String::from_str("into binary UUID")));
        }
        Ok(BinUuid { bytes })
    }

    /// The bytes of the UUID.
    pub fn as_bytes(&self) -> (r: &Vec<u8>)
        ensures
            r@ == self@,
    {
        &self.bytes
    }

    /// The UUID as a binary-blob value.
    pub fn to_data(&self) -> (r: AstarteData)
        ensures
            r@ == DataView::BinaryBlob(self@),
    {
        AstarteData::BinaryBlob(clone_bytes(&self.bytes))
    }

    /// The hyphenated lowercase form of the UUID.
    pub fn to_string(&self) -> (r: String)
        requires
            self@.len() == 16,
        ensures
            r@ == uuid_chars(self@),
    {
        format_uuid(&self.bytes)
    }

    /// A binary UUID from a binary-blob value of sixteen bytes.
    pub fn try_from(value: AstarteData) -> (r: Result<BinUuid, TypeError>)
        ensures
            match r {
                Ok(u) => value@ matches DataView::BinaryBlob(b) && b.len() == 16 && u@ == b,
                Err(_) => !(value@ matches DataView::BinaryBlob(b) && b.len() == 16),
            },
    {
        match value {
            AstarteData::BinaryBlob(bytes) => BinUuid::new(bytes),
            _ => Err(TypeError::conversion(String::from_str("into binary UUID"))),
        }
    }

    /// True if the value is a binary blob holding exactly the bytes of
    /// this UUID.
    pub fn eq_data(&self, other: &AstarteData) -> (r: bool)
        ensures
            r == (other@ matches DataView::BinaryBlob(b) && b == self@),
    {
        match other {
            AstarteData::BinaryBlob(b) => bytes_eq(b, &self.bytes),
            _ => false,
        }
    }
}

/// A UUID carried as a hyphenated string Astarte value.
#[derive(Debug)]
pub struct StrUuid {
    bytes: Vec<u8>,
}

impl View for StrUuid {
    type V = Seq<u8>;

    closed spec fn view(&self) -> Seq<u8> {
        self.bytes@
    }
}

impl StrUuid {
    /// A string UUID from its sixteen bytes.
    pub fn new(bytes: Vec<u8>) -> (r: Result<StrUuid, TypeError>)
        ensures
            r matches Ok(u) ==> bytes@.len() == 16 && u@ == bytes@,
            r is Err ==> bytes@.len() != 16,
    {
        if bytes.len() != 16 {
            return Err(TypeError::conversion(String::from_str("into string UUID")));
        }
        Ok(StrUuid { bytes })
    }

    /// The bytes of the UUID.
    pub fn as_bytes(&self) -> (r: &Vec<u8>)
        ensures
            r@ == self@,
    {
        &self.bytes
    }

    /// The UUID as a string value in the hyphenated lowercase form.
    pub fn to_data(&self) -> (r: AstarteData)
        requires
            self@.len() == 16,
        ensures
            r@ == DataView::String(uuid_chars(self@)),
    {
        AstarteData::String(format_uuid(&self.bytes))
    }

    /// The hyphenated lowercase form of the UUID.
    pub fn to_string(&self) -> (r: String)
        requires
            self@.len() == 16,
        ensures
            r@ == uuid_chars(self@),
    {
        format_uuid(&self.bytes)
    }

    /// A string UUID from a string value in any of the four accepted
    /// forms.
    pub fn try_from(value: AstarteData) -> (r: Result<StrUuid, TypeError>)
        ensures
            match r {
                Ok(u) => value@ matches DataView::String(s) && uuid_str_valid(s) && u@
                    == uuid_bytes(s),
                Err(_) => !(value@ matches DataView::String(s) && uuid_str_valid(s)),
            },
    {
        match value {
            AstarteData::String(s) => match parse_uuid(s.as_str()) {
                Some(bytes) => Ok(StrUuid { bytes }),
                None => Err(TypeError::conversion(String::from_str("into string UUID"))),
            },
            _ => Err(TypeError::conversion(String::from_str("into string UUID"))),
        }
    }

    /// True if the value is a string that parses, in any accepted form,
    /// to exactly this UUID.
    pub fn eq_data(&self, other: &AstarteData) -> (r: bool)
        ensures
            r == (other@ matches DataView::String(s) && uuid_str_valid(s) && uuid_bytes(s)
                == self@),
    {
        match other {
            AstarteData::String(s) => match parse_uuid(s.as_str()) {
                Some(bytes) => bytes_eq(&bytes, &self.bytes),
                None => false,
            },
            _ => false,
        }
    }
}

/// True if the two byte vectors hold the same bytes.
#[verifier::loop_isolation(false)]
fn bytes_eq(a: &Vec<u8>, b: &Vec<u8>) -> (r: bool)
    ensures
        r == (a@ == b@),
{
    if a.len() != b.len() {
        assert(a@.len() != b@.len());
        return false;
    }
    let mut k: usize = 0;
    while k < a.len()
        invariant
            k <= a.len(),
            forall|l: int| 0 <= l < k ==> a@[l] == b@[l],
        decreases a.len() - k,
    {
        if a[k] != b[k] {
            return false;
        }
        k += 1;
    }
    assert(a@ =~= b@);
    true
}

/// Copies a byte vector.
#[verifier::loop_isolation(false)]
fn clone_bytes(v: &Vec<u8>) -> (r: Vec<u8>)
    ensures
        r@ == v@,
{
    let mut r: Vec<u8> = Vec::new();
    let mut k: usize = 0;
    while k < v.len()
        invariant
            k <= v.len(),
            r@ =~= v@.take(k as int),
        decreases v.len() - k,
    {
        r.push(v[k]);
        k += 1;
    }
    assert(r@ =~= v@);
    r
}

} // verus!
