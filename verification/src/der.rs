//! A subset of DER tag-length-value decoding: finding where the first
//! complete element of a buffer ends, and splitting a two-element store
//! key at that point. Only canonical length encodings are accepted.

use vstd::prelude::*;
use vstd::slice::slice_subrange;

use crate::errors::Error;

verus! {

/// Bounds of the TLV element starting at offset `i` of `b`, read only
/// within `[i, end)`: `Ok((content_start, element_end))` where the
/// element's content occupies `[content_start, element_end)`, or the
/// failure the length encoding earns. Lengths must be canonical: the
/// one-byte long form only for lengths of at least 0x80, the two-byte
/// long form only for lengths of at least 256; the indefinite form and
/// length-of-length of three bytes or more are rejected.
pub open spec fn tlv_at(b: Seq<u8>, i: int, end: int) -> Result<(int, int), Error> {
    if i + 2 > end {
        Err(Error::KeyTooShort)
    } else {
        let l = b[i + 1] as int;
        if l < 0x80 {
            if end < i + 2 + l {
                Err(Error::KeyTooShort)
            } else {
                Ok((i + 2, i + 2 + l))
            }
        } else if l == 0x80 {
            Err(Error::UnsupportedIndefiniteLength)
        } else if l == 0x81 {
            if i + 3 > end {
                Err(Error::KeyTooShort)
            } else {
                let n = b[i + 2] as int;
                if n < 0x80 {
                    Err(Error::BadDerLength)
                } else if end < i + 3 + n {
                    Err(Error::KeyTooShort)
                } else {
                    Ok((i + 3, i + 3 + n))
                }
            }
        } else if l == 0x82 {
            if i + 4 > end {
                Err(Error::KeyTooShort)
            } else {
                let n = (b[i + 2] as int) * 256 + (b[i + 3] as int);
                if n < 256 {
                    Err(Error::BadDerLength)
                } else if end < i + 4 + n {
                    Err(Error::KeyTooShort)
                } else {
                    Ok((i + 4, i + 4 + n))
                }
            }
        } else {
            Err(Error::KeyTooLong)
        }
    }
}

/// Where the first complete TLV element of `key` ends: the split point,
/// or the failure its length encoding earns.
pub open spec fn split_outcome(key: Seq<u8>) -> Result<int, Error> {
    match tlv_at(key, 0, key.len() as int) {
        Ok(bounds) => Ok(bounds.1),
        Err(e) => Err(e),
    }
}

/// `s` is exactly one complete TLV element with a canonical length.
pub open spec fn valid_der_element(s: Seq<u8>) -> bool {
    split_outcome(s) == Ok::<int, Error>(s.len() as int)
}

/// Reads the tag-length header of the element at offset `i`, within
/// `[i, end)`, and returns the bounds of its content.
pub fn read_tlv(b: &[u8], i: usize, end: usize) -> (r: Result<(usize, usize), Error>)
    requires
        i <= end <= b@.len(),
    ensures
        match r {
            Ok(p) => tlv_at(b@, i as int, end as int) == Ok::<(int, int), Error>(
                (p.0 as int, p.1 as int),
            ) && i + 2 <= p.0 <= p.1 <= end,
            Err(e) => tlv_at(b@, i as int, end as int) == Err::<(int, int), Error>(e),
        },
{
    let avail: usize = end - i;
    if avail < 2 {
        return Err(Error::KeyTooShort);
    }
    let l: usize = b[i + 1] as usize;
    if l < 0x80 {
        if avail < l + 2 {
            Err(Error::KeyTooShort)
        } else {
            Ok((i + 2, i + 2 + l))
        }
    } else if l == 0x80 {
        Err(Error::UnsupportedIndefiniteLength)
    } else if l == 0x81 {
        if avail < 3 {
            return Err(Error::KeyTooShort);
        }
        let n: usize = b[i + 2] as usize;
        if n < 0x80 {
            Err(Error::BadDerLength)
        } else if avail < n + 3 {
            Err(Error::KeyTooShort)
        } else {
            Ok((i + 3, i + 3 + n))
        }
    } else if l == 0x82 {
        if avail < 4 {
            return Err(Error::KeyTooShort);
        }
        let n: usize = (b[i + 2] as usize) * 256 + (b[i + 3] as usize);
        if n < 256 {
            Err(Error::BadDerLength)
        } else if avail < n + 4 {
            Err(Error::KeyTooShort)
        } else {
            Ok((i + 4, i + 4 + n))
        }
    } else {
        Err(Error::KeyTooLong)
    }
}

/// Splits `key` into the first complete TLV element at its start and
/// everything after it. The remainder is handed back as found, without
/// further validation.
pub fn split_der_key<'a>(key: &'a [u8]) -> (r: Result<(&'a [u8], &'a [u8]), Error>)
    ensures
        match r {
            Ok(parts) => {
                &&& split_outcome(key@) == Ok::<int, Error>(parts.0@.len() as int)
                &&& parts.0@ == key@.take(parts.0@.len() as int)
                &&& parts.1@ == key@.skip(parts.0@.len() as int)
            },
            Err(e) => split_outcome(key@) == Err::<int, Error>(e),
        },
{
    match read_tlv(key, 0, key.len()) {
        Ok((_content_start, element_end)) => {
            let first = slice_subrange(key, 0, element_end);
            let rest = slice_subrange(key, element_end, key.len());
            Ok((first, rest))
        },
        Err(e) => Err(e),
    }
}

/// Concatenating two complete canonical TLV encodings and splitting the
/// result gives back exactly those two encodings, unmodified.
pub proof fn lemma_split_concat(a: Seq<u8>, c: Seq<u8>)
    requires
        valid_der_element(a),
        valid_der_element(c),
    ensures
        split_outcome(a + c) == Ok::<int, Error>(a.len() as int),
        (a + c).take(a.len() as int) == a,
        (a + c).skip(a.len() as int) == c,
{
    let b = a + c;
    assert(a.len() >= 2);
    assert(b[1] == a[1]);
    let l = a[1] as int;
    if l == 0x81 {
        assert(b[2] == a[2]);
    }
    if l == 0x82 {
        assert(b[2] == a[2]);
        assert(b[3] == a[3]);
    }
    assert(tlv_at(b, 0, b.len() as int) == Ok::<(int, int), Error>(
        (tlv_at(a, 0, a.len() as int)->Ok_0.0, a.len() as int),
    ));
    assert((a + c).take(a.len() as int) =~= a);
    assert((a + c).skip(a.len() as int) =~= c);
}

/// A short-form length `L` (below 0x80) succeeds exactly when the buffer
/// holds at least `L + 2` bytes, splitting after `L + 2`; a shorter
/// buffer fails `KeyTooShort`.
pub proof fn lemma_short_form(key: Seq<u8>)
    requires
        key.len() >= 2,
        key[1] < 0x80,
    ensures
        key.len() >= key[1] + 2 ==> split_outcome(key) == Ok::<int, Error>(key[1] + 2),
        key.len() < key[1] + 2 ==> split_outcome(key) == Err::<int, Error>(Error::KeyTooShort),
{
}

/// The one-byte long form (length byte 0x81) rejects encoded lengths
/// below 0x80 as non-canonical, and succeeds with an encoded length of
/// exactly 0x80 when the buffer is long enough.
pub proof fn lemma_long_form_one(key: Seq<u8>)
    requires
        key.len() >= 3,
        key[1] == 0x81,
    ensures
        key[2] < 0x80 ==> split_outcome(key) == Err::<int, Error>(Error::BadDerLength),
        key[2] == 0x80 && key.len() >= 0x83 ==> split_outcome(key) == Ok::<int, Error>(0x83),
{
}

/// The two-byte long form (length byte 0x82) rejects encoded lengths
/// below 256 as non-canonical, and succeeds with an encoded length of
/// exactly 256 when the buffer is long enough.
pub proof fn lemma_long_form_two(key: Seq<u8>)
    requires
        key.len() >= 4,
        key[1] == 0x82,
    ensures
        (key[2] as int) * 256 + (key[3] as int) < 256 ==> split_outcome(key) == Err::<
            int,
            Error,
        >(Error::BadDerLength),
        (key[2] as int) * 256 + (key[3] as int) == 256 && key.len() >= 260
            ==> split_outcome(key) == Ok::<int, Error>(260),
{
}

/// A length byte of 0x83 or above always fails `KeyTooLong`.
pub proof fn lemma_length_of_length_cap(key: Seq<u8>)
    requires
        key.len() >= 2,
        key[1] >= 0x83,
    ensures
        split_outcome(key) == Err::<int, Error>(Error::KeyTooLong),
{
}

} // verus!
