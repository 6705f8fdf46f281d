use vstd::prelude::*;

use crate::Error;
use vstd::utf8::{
    length_of_first_scalar, pop_first_scalar, valid_first_scalar, valid_utf8,
};

verus! {

pub const SLASH: u8 = 47;
pub const NUL: u8 = 0;

/// `a` followed by a separator and `b`; no separator is added where `a` already ends in one
/// or is empty.
pub open spec fn join(a: Seq<u8>, b: Seq<u8>) -> Seq<u8> {
    if a.len() == 0 || a.last() == SLASH {
        a + b
    } else {
        a + seq![SLASH] + b
    }
}

/// The bytes after the last separator of a path.
pub open spec fn file_name(p: Seq<u8>) -> Seq<u8>
    decreases p.len(),
{
    if p.len() == 0 || p.last() == SLASH {
        Seq::empty()
    } else {
        file_name(p.drop_last()).push(p.last())
    }
}

/// Appends `s` to `v`.
pub fn append(v: &mut Vec<u8>, s: &[u8])
    ensures
        final(v)@ == old(v)@ + s@,
{
    let mut i: usize = 0;
    while i < s.len()
        invariant
            i <= s@.len(),
            v@ == old(v)@ + s@.subrange(0, i as int),
        decreases s@.len() - i,
    {
        v.push(s[i]);
        i = i + 1;
        assert(v@ =~= old(v)@ + s@.subrange(0, i as int));
    }
    assert(s@.subrange(0, s@.len() as int) =~= s@);
}

/// Copies a byte slice into a new vector.
pub fn to_vec(s: &[u8]) -> (r: Vec<u8>)
    ensures
        r@ == s@,
{
    let mut r: Vec<u8> = Vec::new();
    append(&mut r, s);
    assert(r@ =~= s@);
    r
}

/// Joins a relative component onto a path.
pub fn join_path(a: &[u8], b: &[u8]) -> (r: Vec<u8>)
    ensures
        r@ == join(a@, b@),
{
    let mut r = to_vec(a);
    if a.len() > 0 && a[a.len() - 1] != SLASH {
        r.push(SLASH);
    }
    append(&mut r, b);
    r
}

/// The last component of a path, or `None` where the path ends in a separator or is empty.
pub fn path_file_name(p: &[u8]) -> (r: Option<Vec<u8>>)
    ensures
        file_name(p@).len() == 0 <==> r is None,
        r matches Some(f) ==> f@ == file_name(p@),
{
    let n = p.len();
    let mut start: usize = n;
    assert(p@.subrange(0, n as int) =~= p@);
    assert(p@.subrange(n as int, n as int) =~= Seq::<u8>::empty());
    assert(file_name(p@) =~= file_name(p@.subrange(0, start as int)) + p@.subrange(
        start as int,
        n as int,
    ));
    while start > 0 && p[start - 1] != SLASH
        invariant
            start <= n == p@.len(),
            file_name(p@) == file_name(p@.subrange(0, start as int)) + p@.subrange(
                start as int,
                n as int,
            ),
        decreases start,
    {
        let ghost q = p@.subrange(0, start as int);
        assert(q.drop_last() =~= p@.subrange(0, start - 1));
        assert(p@.subrange(start - 1, n as int) =~= seq![q.last()] + p@.subrange(
            start as int,
            n as int,
        ));
        assert(file_name(q) =~= file_name(q.drop_last()).push(q.last()));
        start = start - 1;
        assert(file_name(p@) =~= file_name(p@.subrange(0, start as int)) + p@.subrange(
            start as int,
            n as int,
        ));
    }
    assert(file_name(p@.subrange(0, start as int)) =~= Seq::<u8>::empty());
    assert(file_name(p@) =~= p@.subrange(start as int, n as int));
    if start == n {
        None
    } else {
        let mut f: Vec<u8> = Vec::new();
        let mut i: usize = start;
        while i < n
            invariant
                start <= i <= n == p@.len(),
                f@ == p@.subrange(start as int, i as int),
            decreases n - i,
        {
            f.push(p[i]);
            i = i + 1;
            assert(f@ =~= p@.subrange(start as int, i as int));
        }
        Some(f)
    }
}

/// The length of the scalar that `s[i..]` starts with, or `None` where it does not start
/// with a well-formed one.
fn first_scalar_len(s: &[u8], i: usize) -> (r: Option<usize>)
    requires
        i < s@.len(),
    ensures
        r is Some <==> valid_first_scalar(s@.subrange(i as int, s@.len() as int)),
        r matches Some(n) ==> n == length_of_first_scalar(s@.subrange(i as int, s@.len() as int))
            && 1 <= n <= 4,
{
    let ghost rest = s@.subrange(i as int, s@.len() as int);
    let left = s.len() - i;
    let b0 = s[i];
    assert(rest[0] == b0);
    if b0 <= 0x7f {
        return Some(1);
    }
    if b0 < 0xc0 || b0 > 0xf7 || left < 2 {
        return None;
    }
    let b1 = s[i + 1];
    assert(rest[1] == b1);
    if b1 < 0x80 || b1 > 0xbf {
        return None;
    }
    if b0 <= 0xdf {
        let cp: u32 = (((b0 & 0x1F) as u32) << 6) | ((b1 & 0x3f) as u32);
        assert(cp == vstd::utf8::decode_first_codepoint(rest));
        assert(cp <= 0x7ff) by (bit_vector)
            requires
                cp == (((b0 & 0x1F) as u32) << 6) | ((b1 & 0x3f) as u32),
        ;
        return if 0x80 <= cp {
            Some(2)
        } else {
            None
        };
    }
    if left < 3 {
        return None;
    }
    let b2 = s[i + 2];
    assert(rest[2] == b2);
    if b2 < 0x80 || b2 > 0xbf {
        return None;
    }
    if b0 <= 0xef {
        let cp: u32 = (((b0 & 0x0F) as u32) << 12) | (((b1 & 0x3f) as u32) << 6) | ((b2
            & 0x3f) as u32);
        assert(cp == vstd::utf8::decode_first_codepoint(rest));
        return if 0x800 <= cp && !(0xD800 <= cp && cp <= 0xDFFF) {
            Some(3)
        } else {
            None
        };
    }
    if left < 4 {
        return None;
    }
    let b3 = s[i + 3];
    assert(rest[3] == b3);
    if b3 < 0x80 || b3 > 0xbf {
        return None;
    }
    let cp: u32 = (((b0 & 0x07) as u32) << 18) | (((b1 & 0x3f) as u32) << 12) | (((b2
        & 0x3f) as u32) << 6) | ((b3 & 0x3f) as u32);
    assert(cp == vstd::utf8::decode_first_codepoint(rest));
    if 0x10000 <= cp && cp <= 0x10ffff {
        Some(4)
    } else {
        None
    }
}

/// Whether the bytes are well-formed UTF-8 text.
pub fn is_utf8(s: &[u8]) -> (r: bool)
    ensures
        r == valid_utf8(s@),
{
    let n = s.len();
    let mut i: usize = 0;
    assert(s@.subrange(0, n as int) =~= s@);
    while i < n
        invariant
            n == s@.len(),
            i <= n,
            valid_utf8(s@) == valid_utf8(s@.subrange(i as int, n as int)),
        decreases n - i,
    {
        let ghost rest = s@.subrange(i as int, n as int);
        match first_scalar_len(s, i) {
            None => {
                return false;
            },
            Some(k) => {
                if k > n - i {
                    return false;
                }
                assert(pop_first_scalar(rest) =~= s@.subrange(i + k, n as int));
                i = i + k;
            },
        }
    }
    assert(s@.subrange(n as int, n as int).len() == 0);
    true
}

/// A path made ready to be handed to the kernel: the same bytes followed by a NUL. A path
/// must be text, which is checked first; and it may hold no NUL, whose first position the
/// error then gives.
pub fn to_cstring(p: &[u8]) -> (r: Result<Vec<u8>, Error>)
    ensures
        r is Ok <==> valid_utf8(p@) && forall|i: int| 0 <= i < p@.len() ==> p@[i] != NUL,
        r matches Ok(c) ==> c@ == p@.push(NUL),
        !valid_utf8(p@) ==> (r matches Err(Error::OsStringParsing(q)) && q@ == p@),
        valid_utf8(p@) ==> (r matches Err(e) ==> e matches Error::CStringParsing(q, k) && q@
            == p@ && k < p@.len() && p@[k as int] == NUL && forall|i: int|
            0 <= i < k ==> p@[i] != NUL),
{
    if !is_utf8(p) {
        return Err(Error::OsStringParsing(to_vec(p)));
    }
    let mut i: usize = 0;
    while i < p.len()
        invariant
            i <= p@.len(),
            valid_utf8(p@),
            forall|j: int| 0 <= j < i ==> p@[j] != NUL,
        decreases p@.len() - i,
    {
        if p[i] == NUL {
            return Err(Error::CStringParsing(to_vec(p), i));
        }
        i = i + 1;
    }
    let mut c = to_vec(p);
    c.push(NUL);
    Ok(c)
}

} // verus!
