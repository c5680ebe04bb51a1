//! Parsing DER-encoded X.501 distinguished names: a Name is a SEQUENCE
//! of relative distinguished names, each a SET OF attribute type/value
//! pairs. Only the Common Name and Organization attributes are read;
//! either defaults to the empty string when absent. Issuer names arrive
//! as base64 text, exactly as the store decoder produces them.

use vstd::prelude::*;
use vstd::slice::{slice_subrange, slice_to_vec};

use crate::codec::{b64_decode, b64_decoded, bytes_to_string, utf8_str};
use crate::der::{read_tlv, tlv_at};
use crate::errors::Error;

verus! {

/// A parsed issuer distinguished name.
#[derive(Clone, Debug)]
pub struct Issuer {
    pub common_name: String,
    pub organization: String,
}

/// The mathematical shape of an `Issuer`: both attributes as character
/// sequences.
pub struct IssuerV {
    pub common_name: Seq<char>,
    pub organization: Seq<char>,
}

impl View for Issuer {
    type V = IssuerV;

    open spec fn view(&self) -> IssuerV {
        IssuerV { common_name: self.common_name@, organization: self.organization@ }
    }
}

/// The attribute values gathered while walking a name: the raw bytes of
/// the last Common Name and Organization values seen, if any.
pub struct NameAttrs {
    pub cn: Option<Seq<u8>>,
    pub org: Option<Seq<u8>>,
}

/// The DER content of the Common Name attribute type (OID 2.5.4.3).
pub open spec fn oid_common_name() -> Seq<u8> {
    seq![0x55u8, 0x04u8, 0x03u8]
}

/// The DER content of the Organization attribute type (OID 2.5.4.10).
pub open spec fn oid_organization() -> Seq<u8> {
    seq![0x55u8, 0x04u8, 0x0au8]
}

/// One attribute type/value pair filling exactly `[i, end)` of `b`: an
/// object identifier element followed by one value element. A Common
/// Name or Organization type records its value bytes in `acc`; any other
/// type is passed over.
pub open spec fn atv_attrs(b: Seq<u8>, i: int, end: int, acc: NameAttrs) -> Result<NameAttrs, ()> {
    match tlv_at(b, i, end) {
        Ok(oid_bounds) => if b[i] == 0x06 {
            match tlv_at(b, oid_bounds.1, end) {
                Ok(val_bounds) => if val_bounds.1 == end {
                    let oid = b.subrange(oid_bounds.0, oid_bounds.1);
                    let value = b.subrange(val_bounds.0, val_bounds.1);
                    if oid == oid_common_name() {
                        Ok(NameAttrs { cn: Some(value), org: acc.org })
                    } else if oid == oid_organization() {
                        Ok(NameAttrs { cn: acc.cn, org: Some(value) })
                    } else {
                        Ok(acc)
                    }
                } else {
                    Err(())
                },
                Err(_) => Err(()),
            }
        } else {
            Err(())
        },
        Err(_) => Err(()),
    }
}

/// A run of attribute type/value pairs filling `[i, end)` of `b`, each a
/// SEQUENCE element, folded over `acc` left to right.
pub open spec fn scan_atvs(b: Seq<u8>, i: int, end: int, acc: NameAttrs) -> Result<NameAttrs, ()>
    decreases end - i,
{
    if i >= end {
        if i == end {
            Ok(acc)
        } else {
            Err(())
        }
    } else {
        match tlv_at(b, i, end) {
            Ok(bounds) => if b[i] == 0x30 && i < bounds.1 <= end {
                match atv_attrs(b, bounds.0, bounds.1, acc) {
                    Ok(acc2) => scan_atvs(b, bounds.1, end, acc2),
                    Err(_) => Err(()),
                }
            } else {
                Err(())
            },
            Err(_) => Err(()),
        }
    }
}

/// A run of relative distinguished names filling `[i, end)` of `b`, each
/// a SET element whose content is a run of attribute pairs, folded over
/// `acc` left to right.
pub open spec fn scan_rdns(b: Seq<u8>, i: int, end: int, acc: NameAttrs) -> Result<NameAttrs, ()>
    decreases end - i,
{
    if i >= end {
        if i == end {
            Ok(acc)
        } else {
            Err(())
        }
    } else {
        match tlv_at(b, i, end) {
            Ok(bounds) => if b[i] == 0x31 && i < bounds.1 <= end {
                match scan_atvs(b, bounds.0, bounds.1, acc) {
                    Ok(acc2) => scan_rdns(b, bounds.1, end, acc2),
                    Err(_) => Err(()),
                }
            } else {
                Err(())
            },
            Err(_) => Err(()),
        }
    }
}

/// The text of one gathered attribute: its bytes decoded as UTF-8, or
/// the empty string when the attribute never appeared; no text at all
/// when the bytes are not valid UTF-8.
pub open spec fn attr_text(v: Option<Seq<u8>>) -> Option<Seq<char>> {
    match v {
        Some(bytes) => utf8_str(bytes),
        None => Some(Seq::<char>::empty()),
    }
}

/// What parsing one DER-encoded name gives: the Common Name and
/// Organization texts, or a failure when `b` is not a well-formed name
/// whose gathered attribute values decode as UTF-8. The name must be one
/// SEQUENCE element spanning all of `b`.
pub open spec fn parse_name_spec(b: Seq<u8>) -> Result<IssuerV, ()> {
    match tlv_at(b, 0, b.len() as int) {
        Ok(bounds) => if b[0] == 0x30 && bounds.1 == b.len() {
            match scan_rdns(b, bounds.0, bounds.1, NameAttrs { cn: None, org: None }) {
                Ok(attrs) => match (attr_text(attrs.cn), attr_text(attrs.org)) {
                    (Some(cn), Some(org)) => Ok(IssuerV { common_name: cn, organization: org }),
                    _ => Err(()),
                },
                Err(_) => Err(()),
            }
        } else {
            Err(())
        },
        Err(_) => Err(()),
    }
}

/// What parsing one issuer name handed over as base64 text gives: the
/// text is base64-decoded, and the resulting bytes parsed as a name.
pub open spec fn issuer_of(name: Seq<char>) -> Result<IssuerV, ()> {
    match b64_decoded(name) {
        Some(bytes) => parse_name_spec(bytes),
        None => Err(()),
    }
}

/// The gathered attribute bytes behind a pair of optional byte buffers.
pub open spec fn attrs_of(cn: Option<Vec<u8>>, org: Option<Vec<u8>>) -> NameAttrs {
    NameAttrs {
        cn: match cn {
            Some(v) => Some(v@),
            None => None,
        },
        org: match org {
            Some(v) => Some(v@),
            None => None,
        },
    }
}

/// Whether `s` is exactly the three bytes `x0 x1 x2`.
fn oid_matches(s: &[u8], x0: u8, x1: u8, x2: u8) -> (r: bool)
    ensures
        r == (s@ == seq![x0, x1, x2]),
{
    let r = s.len() == 3 && s[0] == x0 && s[1] == x1 && s[2] == x2;
    proof {
        if r {
            assert(s@ =~= seq![x0, x1, x2]);
        } else {
            assert(s@ != seq![x0, x1, x2]);
        }
    }
    r
}

/// Turns gathered attribute bytes into the attribute's text, the empty
/// string standing for an attribute that never appeared.
fn attr_to_string(v: Option<Vec<u8>>) -> (r: Option<String>)
    ensures
        match r {
            Some(s) => attr_text(attrs_of(v, None).cn) == Some(s@),
            None => attr_text(attrs_of(v, None).cn) is None,
        },
{
    match v {
        Some(bytes) => bytes_to_string(bytes),
        None => Some(String::new()),
    }
}

/// Walks one attribute type/value pair filling `[i, end)` of `b`,
/// recording a Common Name or Organization value over the accumulator
/// `(cn, org)`; gives back the new accumulator, or nothing on a
/// malformed pair.
fn walk_atv(b: &[u8], i: usize, end: usize, cn: Option<Vec<u8>>, org: Option<Vec<u8>>) -> (r:
    Option<(Option<Vec<u8>>, Option<Vec<u8>>)>)
    requires
        i <= end <= b@.len(),
    ensures
        match r {
            Some(acc2) => atv_attrs(b@, i as int, end as int, attrs_of(cn, org)) == Ok::<
                NameAttrs,
                (),
            >(attrs_of(acc2.0, acc2.1)),
            None => atv_attrs(b@, i as int, end as int, attrs_of(cn, org)) is Err,
        },
{
    let (oid_start, oid_end) = match read_tlv(b, i, end) {
        Ok(bounds) => bounds,
        Err(_) => {
            return None;
        },
    };
    if b[i] != 0x06 {
        return None;
    }
    let (val_start, val_end) = match read_tlv(b, oid_end, end) {
        Ok(bounds) => bounds,
        Err(_) => {
            return None;
        },
    };
    if val_end != end {
        return None;
    }
    let oid = slice_subrange(b, oid_start, oid_end);
    if oid_matches(oid, 0x55, 0x04, 0x03) {
        Some((Some(slice_to_vec(slice_subrange(b, val_start, val_end))), org))
    } else if oid_matches(oid, 0x55, 0x04, 0x0a) {
        Some((cn, Some(slice_to_vec(slice_subrange(b, val_start, val_end)))))
    } else {
        Some((cn, org))
    }
}

/// Walks the run of attribute pairs filling `[start, end)` of `b` over
/// the accumulator `(cn, org)`.
#[verifier::loop_isolation(false)]
fn walk_atvs(b: &[u8], start: usize, end: usize, cn: Option<Vec<u8>>, org: Option<Vec<u8>>) -> (r:
    Option<(Option<Vec<u8>>, Option<Vec<u8>>)>)
    requires
        start <= end <= b@.len(),
    ensures
        match r {
            Some(acc2) => scan_atvs(b@, start as int, end as int, attrs_of(cn, org)) == Ok::<
                NameAttrs,
                (),
            >(attrs_of(acc2.0, acc2.1)),
            None => scan_atvs(b@, start as int, end as int, attrs_of(cn, org)) is Err,
        },
{
    let ghost init = attrs_of(cn, org);
    let mut cur_cn = cn;
    let mut cur_org = org;
    let mut j = start;
    while j < end
        invariant
            start <= j <= end <= b@.len(),
            scan_atvs(b@, start as int, end as int, init) == scan_atvs(
                b@,
                j as int,
                end as int,
                attrs_of(cur_cn, cur_org),
            ),
        decreases end - j,
    {
        let ghost acc_j = attrs_of(cur_cn, cur_org);
        let (atv_start, atv_end) = match read_tlv(b, j, end) {
            Ok(bounds) => bounds,
            Err(_) => {
                proof {
                    assert(scan_atvs(b@, j as int, end as int, acc_j) is Err);
                }
                return None;
            },
        };
        if b[j] != 0x30 {
            proof {
                assert(scan_atvs(b@, j as int, end as int, acc_j) is Err);
            }
            return None;
        }
        match walk_atv(b, atv_start, atv_end, cur_cn, cur_org) {
            Some(acc2) => {
                cur_cn = acc2.0;
                cur_org = acc2.1;
            },
            None => {
                proof {
                    assert(scan_atvs(b@, j as int, end as int, acc_j) is Err);
                }
                return None;
            },
        }
        proof {
            assert(scan_atvs(b@, j as int, end as int, acc_j) == scan_atvs(
                b@,
                atv_end as int,
                end as int,
                attrs_of(cur_cn, cur_org),
            ));
        }
        j = atv_end;
    }
    Some((cur_cn, cur_org))
}

/// Walks the run of relative distinguished names filling `[start, end)`
/// of `b` over the accumulator `(cn, org)`.
#[verifier::loop_isolation(false)]
fn walk_rdns(b: &[u8], start: usize, end: usize, cn: Option<Vec<u8>>, org: Option<Vec<u8>>) -> (r:
    Option<(Option<Vec<u8>>, Option<Vec<u8>>)>)
    requires
        start <= end <= b@.len(),
    ensures
        match r {
            Some(acc2) => scan_rdns(b@, start as int, end as int, attrs_of(cn, org)) == Ok::<
                NameAttrs,
                (),
            >(attrs_of(acc2.0, acc2.1)),
            None => scan_rdns(b@, start as int, end as int, attrs_of(cn, org)) is Err,
        },
{
    let ghost init = attrs_of(cn, org);
    let mut cur_cn = cn;
    let mut cur_org = org;
    let mut i = start;
    while i < end
        invariant
            start <= i <= end <= b@.len(),
            scan_rdns(b@, start as int, end as int, init) == scan_rdns(
                b@,
                i as int,
                end as int,
                attrs_of(cur_cn, cur_org),
            ),
        decreases end - i,
    {
        let ghost acc_i = attrs_of(cur_cn, cur_org);
        let (rdn_start, rdn_end) = match read_tlv(b, i, end) {
            Ok(bounds) => bounds,
            Err(_) => {
                proof {
                    assert(scan_rdns(b@, i as int, end as int, acc_i) is Err);
                }
                return None;
            },
        };
        if b[i] != 0x31 {
            proof {
                assert(scan_rdns(b@, i as int, end as int, acc_i) is Err);
            }
            return None;
        }
        match walk_atvs(b, rdn_start, rdn_end, cur_cn, cur_org) {
            Some(acc2) => {
                cur_cn = acc2.0;
                cur_org = acc2.1;
            },
            None => {
                proof {
                    assert(scan_atvs(b@, rdn_start as int, rdn_end as int, acc_i) is Err);
                    assert(scan_rdns(b@, i as int, end as int, acc_i) is Err);
                }
                return None;
            },
        }
        proof {
            assert(scan_rdns(b@, i as int, end as int, acc_i) == scan_rdns(
                b@,
                rdn_end as int,
                end as int,
                attrs_of(cur_cn, cur_org),
            ));
        }
        i = rdn_end;
    }
    Some((cur_cn, cur_org))
}

/// Parses one DER-encoded distinguished name, extracting the Common Name
/// and Organization attributes; either is the empty string when absent.
pub fn parse_name(b: &[u8]) -> (r: Result<Issuer, Error>)
    ensures
        match r {
            Ok(iss) => parse_name_spec(b@) == Ok::<IssuerV, ()>(iss@),
            Err(e) => parse_name_spec(b@) is Err && e == Error::NameParseFailure,
        },
{
    let len = b.len();
    let (outer_start, outer_end) = match read_tlv(b, 0, len) {
        Ok(bounds) => bounds,
        Err(_) => {
            return Err(Error::NameParseFailure);
        },
    };
    if b[0] != 0x30 || outer_end != len {
        return Err(Error::NameParseFailure);
    }
    let (cn, org) = match walk_rdns(b, outer_start, outer_end, None, None) {
        Some(acc) => acc,
        None => {
            return Err(Error::NameParseFailure);
        },
    };
    let common_name = match attr_to_string(cn) {
        Some(s) => s,
        None => {
            return Err(Error::NameParseFailure);
        },
    };
    let organization = match attr_to_string(org) {
        Some(s) => s,
        None => {
            return Err(Error::NameParseFailure);
        },
    };
    Ok(Issuer { common_name, organization })
}

/// Parses a batch of issuer names, each handed over as base64 text.
/// The output is positionally aligned with the input: entry `i` of the
/// result is the parsed form of name `i`. One unparsable name fails the
/// whole batch.
pub fn parse_issuers(names: &Vec<String>) -> (r: Result<Vec<Issuer>, Error>)
    ensures
        match r {
            Ok(out) => out@.len() == names@.len() && (forall|i: int|
                0 <= i < names@.len() ==> issuer_of(names@[i]@) == Ok::<IssuerV, ()>(out@[i]@)),
            Err(e) => e == Error::NameParseFailure && (exists|i: int|
                0 <= i < names@.len() && issuer_of(names@[i]@) is Err),
        },
{
    let mut out: Vec<Issuer> = Vec::new();
    let mut k: usize = 0;
    while k < names.len()
        invariant
            k <= names@.len(),
            out@.len() == k,
            forall|i: int| 0 <= i < k ==> issuer_of(names@[i]@) == Ok::<IssuerV, ()>(out@[i]@),
        decreases names@.len() - k,
    {
        let bytes = match b64_decode(names[k].as_str()) {
            Some(bytes) => bytes,
            None => {
                return Err(Error::NameParseFailure);
            },
        };
        match parse_name(bytes.as_slice()) {
            Ok(issuer) => {
                out.push(issuer);
            },
            Err(_) => {
                return Err(Error::NameParseFailure);
            },
        }
        k = k + 1;
    }
    Ok(out)
}

} // verus!
