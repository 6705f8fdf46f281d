use vstd::prelude::*;

verus! {

pub const DIGIT_ZERO: u8 = 48;
pub const DIGIT_NINE: u8 = 57;
pub const UNDERSCORE: u8 = 95;
pub const HYPHEN: u8 = 45;

/// Bounds on the length of an instance id, in bytes.
pub const MIN_ID_LEN: usize = 1;
pub const MAX_ID_LEN: usize = 64;

/// An ASCII letter or digit.
pub open spec fn is_alnum(c: u8) -> bool {
    (48 <= c && c <= 57) || (97 <= c && c <= 122) || (65 <= c && c <= 90)
}

/// A byte allowed after the first one of an instance id: `[A-Za-z0-9_-]`.
pub open spec fn is_id_byte(c: u8) -> bool {
    is_alnum(c) || c == UNDERSCORE || c == HYPHEN
}

/// Whether the byte at position `i` of an id is acceptable there.
pub open spec fn id_byte_ok_at(s: Seq<u8>, i: int) -> bool {
    if i == 0 {
        is_alnum(s[i])
    } else {
        is_id_byte(s[i])
    }
}

/// `^[A-Za-z0-9][A-Za-z0-9_-]{0,63}$`
pub open spec fn valid_instance_id(s: Seq<u8>) -> bool {
    &&& 1 <= s.len()
    &&& is_alnum(s[0])
    &&& s.len() - 1 <= 63
    &&& forall|i: int| 1 <= i < s.len() ==> is_id_byte(#[trigger] s[i])
}

pub open spec fn is_digit(c: u8) -> bool {
    DIGIT_ZERO <= c && c <= DIGIT_NINE
}

pub open spec fn all_digits(s: Seq<u8>) -> bool {
    forall|i: int| 0 <= i < s.len() ==> is_digit(#[trigger] s[i])
}

/// The number that a string of decimal digits denotes.
pub open spec fn decimal_value(s: Seq<u8>) -> nat
    decreases s.len(),
{
    if s.len() == 0 {
        0
    } else {
        decimal_value(s.drop_last()) * 10 + (s.last() - DIGIT_ZERO) as nat
    }
}

/// The value of a strictly written unsigned 32-bit decimal: digits only, no sign,
/// no whitespace, at least one digit, and no more than `u32::MAX`.
pub open spec fn strict_u32(s: Seq<u8>) -> Option<u32> {
    if s.len() > 0 && all_digits(s) && decimal_value(s) <= u32::MAX {
        Some(decimal_value(s) as u32)
    } else {
        None
    }
}

/// Why an instance id was refused.
#[derive(Debug, Clone, Copy, PartialEq, Eq)]
pub enum ValidatorError {
    /// A byte that may not stand where it stands, and its position.
    InvalidChar(u8, usize),
    /// The id's length, and the least and greatest lengths allowed.
    InvalidLen(usize, usize, usize),
}

pub fn is_alnum_byte(c: u8) -> (r: bool)
    ensures
        r == is_alnum(c),
{
    (48 <= c && c <= 57) || (97 <= c && c <= 122) || (65 <= c && c <= 90)
}

pub fn is_id_char(c: u8) -> (r: bool)
    ensures
        r == is_id_byte(c),
{
    is_alnum_byte(c) || c == UNDERSCORE || c == HYPHEN
}

/// Checks an instance id. The length is checked first; then the first byte that may not
/// stand at its position is reported.
pub fn validate_instance_id(id: &[u8]) -> (r: Result<(), ValidatorError>)
    ensures
        r is Ok <==> valid_instance_id(id@),
        (id@.len() < MIN_ID_LEN || id@.len() > MAX_ID_LEN) <==> r is Err && r->Err_0 is InvalidLen,
        r matches Err(ValidatorError::InvalidLen(n, lo, hi)) ==> n == id@.len() && lo == MIN_ID_LEN
            && hi == MAX_ID_LEN,
        r matches Err(ValidatorError::InvalidChar(c, i)) ==> {
            &&& i < id@.len()
            &&& c == id@[i as int]
            &&& !id_byte_ok_at(id@, i as int)
            &&& forall|j: int| 0 <= j < i ==> id_byte_ok_at(id@, j)
        },
{
    let n = id.len();
    if n < MIN_ID_LEN || n > MAX_ID_LEN {
        return Err(ValidatorError::InvalidLen(n, MIN_ID_LEN, MAX_ID_LEN));
    }
    let mut i: usize = 0;
    while i < n
        invariant
            n == id@.len(),
            1 <= n <= 64,
            i <= n,
            forall|j: int| 0 <= j < i ==> id_byte_ok_at(id@, j),
        decreases n - i,
    {
        let c = id[i];
        let ok = if i == 0 {
            is_alnum_byte(c)
        } else {
            is_id_char(c)
        };
        if !ok {
            return Err(ValidatorError::InvalidChar(c, i));
        }
        i = i + 1;
    }
    assert(is_alnum(id@[0])) by {
        assert(id_byte_ok_at(id@, 0));
    }
    assert forall|k: int| 1 <= k < id@.len() implies is_id_byte(#[trigger] id@[k]) by {
        assert(id_byte_ok_at(id@, k));
    }
    Ok(())
}

/// Parses an unsigned 32-bit decimal strictly (see `strict_u32`).
pub fn parse_u32(s: &[u8]) -> (r: Option<u32>)
    ensures
        r == strict_u32(s@),
{
    let n = s.len();
    let mut acc: u64 = 0;
    let mut too_big = false;
    let mut i: usize = 0;
    while i < n
        invariant
            n == s@.len(),
            i <= n,
            all_digits(s@.subrange(0, i as int)),
            too_big ==> decimal_value(s@.subrange(0, i as int)) > u32::MAX,
            !too_big ==> acc == decimal_value(s@.subrange(0, i as int)),
            !too_big ==> acc <= u32::MAX,
        decreases n - i,
    {
        let c = s[i];
        if c < DIGIT_ZERO || c > DIGIT_NINE {
            assert(!all_digits(s@)) by {
                assert(!is_digit(s@[i as int]));
            }
            return None;
        }
        let ghost pre = s@.subrange(0, i as int);
        let ghost next = s@.subrange(0, i as int + 1);
        assert(next.drop_last() =~= pre);
        assert(next.last() == c);
        if !too_big {
            let v = acc * 10 + (c - DIGIT_ZERO) as u64;
            if v > 4294967295u64 {
                too_big = true;
            } else {
                acc = v;
            }
        }
        assert(all_digits(next)) by {
            assert forall|k: int| 0 <= k < next.len() implies is_digit(#[trigger] next[k]) by {
                if k < i {
                    assert(next[k] == pre[k]);
                }
            }
        }
        i = i + 1;
    }
    assert(s@.subrange(0, n as int) =~= s@);
    if n == 0 || too_big {
        None
    } else {
        Some(acc as u32)
    }
}

} // verus!
