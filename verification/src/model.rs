//! The canonical reconciliation layer: every source of revocation data
//! is projected into a set of `Intermediary` records (issuer common
//! name, organization, serial), and the reconciler reports directional
//! set differences between those sets. Duplicate source rows collapse
//! silently under set insertion.

use vstd::prelude::*;

use crate::asn1::{issuer_of, parse_name, IssuerV};
use crate::codec::{b64_decode, b64_encode, b64_of, hex_bytes, hex_decode, is_hex};
use crate::errors::Error;
use crate::storage::CertStorage;
use crate::storage::IssuerSerial;

verus! {

/// The canonical reconciliation record. Equality is over all three
/// fields; the serial is base64 text whatever its source was.
#[derive(Clone, Debug, PartialEq, Eq, Hash)]
pub struct Intermediary {
    pub common_name: String,
    pub organization: String,
    pub serial: String,
}

/// The mathematical shape of an `Intermediary`.
pub struct IntermediaryV {
    pub common_name: Seq<char>,
    pub organization: Seq<char>,
    pub serial: Seq<char>,
}

impl View for Intermediary {
    type V = IntermediaryV;

    open spec fn view(&self) -> IntermediaryV {
        IntermediaryV {
            common_name: self.common_name@,
            organization: self.organization@,
            serial: self.serial@,
        }
    }
}

/// One record of remote feed A: a base64 issuer name and a serial
/// already in canonical text form.
#[derive(Clone, Debug)]
pub struct KintoEntry {
    pub issuer_name: String,
    pub serial_number: String,
}

/// Remote feed A: a flat list of issuer/serial records.
#[derive(Clone, Debug)]
pub struct Kinto {
    pub data: Vec<KintoEntry>,
}

/// One record of remote feed B: a base64 issuer name and every serial
/// revoked under it.
#[derive(Clone, Debug)]
pub struct RevocationsEntry {
    pub issuer_name: String,
    pub serials: Vec<String>,
}

/// Remote feed B: one record per issuer, each fanning out to many
/// canonical records.
#[derive(Clone, Debug)]
pub struct Revocations {
    pub data: Vec<RevocationsEntry>,
}

/// One row of tabular feed C: the issuer attributes are already plain
/// text, and the serial is hex text that must be re-encoded.
#[derive(Clone, Debug)]
pub struct CCADBEntry {
    pub certificate_issuer_common_name: String,
    pub certificate_issuer_organization: String,
    pub certificate_serial_number: String,
}

/// Tabular feed C: a list of rows.
#[derive(Clone, Debug)]
pub struct CCADBReport {
    pub report: Vec<CCADBEntry>,
}

/// The canonical record an issuer and a serial make together.
pub open spec fn canonical(iss: IssuerV, serial: Seq<char>) -> IntermediaryV {
    IntermediaryV { common_name: iss.common_name, organization: iss.organization, serial }
}

/// The set of canonical records a sequence of `Intermediary` holds.
pub open spec fn int_set(s: Seq<Intermediary>) -> Set<IntermediaryV> {
    Set::new(|r: IntermediaryV| exists|i: int| 0 <= i < s.len() && s[i]@ == r)
}

/// No two records of `s` are the same canonical record.
pub open spec fn int_unique(s: Seq<Intermediary>) -> bool {
    forall|i: int, j: int| 0 <= i < j < s.len() ==> s[i]@ != s[j]@
}

/// Every store record's issuer name parses.
pub open spec fn storage_src_ok(data: Seq<IssuerSerial>) -> bool {
    forall|i: int| 0 <= i < data.len() ==> issuer_of(data[i].issuer_name@) is Ok
}

/// The canonical set the store records stand for.
pub open spec fn storage_int_set(data: Seq<IssuerSerial>) -> Set<IntermediaryV> {
    Set::new(
        |r: IntermediaryV|
            exists|i: int|
                0 <= i < data.len() && issuer_of(data[i].issuer_name@) is Ok && r == canonical(
                    issuer_of(data[i].issuer_name@)->Ok_0,
                    data[i].serial@,
                ),
    )
}

/// Every feed A record's issuer name parses.
pub open spec fn kinto_ok(data: Seq<KintoEntry>) -> bool {
    forall|i: int| 0 <= i < data.len() ==> issuer_of(data[i].issuer_name@) is Ok
}

/// The canonical set the feed A records stand for.
pub open spec fn kinto_set(data: Seq<KintoEntry>) -> Set<IntermediaryV> {
    Set::new(
        |r: IntermediaryV|
            exists|i: int|
                0 <= i < data.len() && issuer_of(data[i].issuer_name@) is Ok && r == canonical(
                    issuer_of(data[i].issuer_name@)->Ok_0,
                    data[i].serial_number@,
                ),
    )
}

/// Every feed B record's issuer name parses.
pub open spec fn revocations_ok(data: Seq<RevocationsEntry>) -> bool {
    forall|i: int| 0 <= i < data.len() ==> issuer_of(data[i].issuer_name@) is Ok
}

/// The canonical records one feed B issuer contributes, counting only
/// its first `j` serials.
pub open spec fn rev_row_upto(e: RevocationsEntry, j: int) -> Set<IntermediaryV> {
    Set::new(
        |r: IntermediaryV|
            issuer_of(e.issuer_name@) is Ok && exists|b: int|
                0 <= b < j && b < e.serials.len() && r == canonical(
                    issuer_of(e.issuer_name@)->Ok_0,
                    e.serials[b]@,
                ),
    )
}

/// The canonical records one feed B issuer contributes: one per serial.
pub open spec fn rev_row_set(e: RevocationsEntry) -> Set<IntermediaryV> {
    rev_row_upto(e, e.serials.len() as int)
}

/// The canonical set the feed B records stand for: every issuer fanned
/// out over its serials.
pub open spec fn revocations_set(data: Seq<RevocationsEntry>) -> Set<IntermediaryV> {
    Set::new(
        |r: IntermediaryV|
            exists|a: int|
                0 <= a < data.len() && rev_row_set(data[a]).contains(r),
    )
}

/// Every feed C row's serial is well-formed hex.
pub open spec fn ccadb_ok(rows: Seq<CCADBEntry>) -> bool {
    forall|i: int| 0 <= i < rows.len() ==> is_hex(rows[i].certificate_serial_number@)
}

/// The canonical set the feed C rows stand for: issuer attributes taken
/// as given, serials hex-decoded and re-encoded as base64.
pub open spec fn ccadb_set(rows: Seq<CCADBEntry>) -> Set<IntermediaryV> {
    Set::new(
        |r: IntermediaryV|
            exists|i: int|
                0 <= i < rows.len() && is_hex(rows[i].certificate_serial_number@) && r
                    == (IntermediaryV {
                    common_name: rows[i].certificate_issuer_common_name@,
                    organization: rows[i].certificate_issuer_organization@,
                    serial: b64_of(hex_bytes(rows[i].certificate_serial_number@)),
                }),
    )
}

/// Appending a record grows the canonical set by exactly that record.
proof fn lemma_int_push(s: Seq<Intermediary>, x: Intermediary)
    ensures
        int_set(s.push(x)) =~= int_set(s).insert(x@),
{
    assert forall|r: IntermediaryV| int_set(s.push(x)).contains(r) implies int_set(s).insert(
        x@,
    ).contains(r) by {
        let i = choose|i: int| 0 <= i < s.push(x).len() && s.push(x)[i]@ == r;
        if i < s.len() {
            assert(s[i]@ == r);
        }
    }
    assert forall|r: IntermediaryV| int_set(s).insert(x@).contains(r) implies int_set(
        s.push(x),
    ).contains(r) by {
        if r == x@ {
            assert(s.push(x)[s.len() as int]@ == r);
        } else {
            let i = choose|i: int| 0 <= i < s.len() && s[i]@ == r;
            assert(s.push(x)[i]@ == r);
        }
    }
}

/// Whether the canonical set of `v` holds the record `x`.
pub fn int_contains(v: &Vec<Intermediary>, x: &Intermediary) -> (r: bool)
    ensures
        r == int_set(v@).contains(x@),
{
    let mut i: usize = 0;
    while i < v.len()
        invariant
            i <= v@.len(),
            forall|k: int| 0 <= k < i ==> v@[k]@ != x@,
        decreases v@.len() - i,
    {
        if v[i].common_name == x.common_name && v[i].organization == x.organization && v[i].serial
            == x.serial {
            proof {
                assert(v@[i as int]@ == x@);
            }
            return true;
        }
        i = i + 1;
    }
    false
}

/// A fresh record equal to `x`.
fn copy_intermediary(x: &Intermediary) -> (r: Intermediary)
    ensures
        r@ == x@,
{
    Intermediary {
        common_name: x.common_name.clone(),
        organization: x.organization.clone(),
        serial: x.serial.clone(),
    }
}

/// Inserts `x` unless an equal record is already held, keeping the
/// vector duplicate-free; the canonical set grows by `x` either way.
fn int_insert(v: &mut Vec<Intermediary>, x: Intermediary)
    requires
        int_unique(old(v)@),
    ensures
        int_unique(final(v)@),
        int_set(final(v)@) == int_set(old(v)@).insert(x@),
{
    if !int_contains(v, &x) {
        proof {
            lemma_int_push(v@, x);
        }
        v.push(x);
    } else {
        proof {
            assert(int_set(v@).insert(x@) =~= int_set(v@));
        }
    }
}

/// Extending the counted prefix by one record grows its canonical set
/// by exactly that record.
proof fn lemma_storage_take_step(data: Seq<IssuerSerial>, i: int, iss: IssuerV)
    requires
        0 <= i < data.len(),
        issuer_of(data[i].issuer_name@) == Ok::<IssuerV, ()>(iss),
    ensures
        storage_int_set(data.take(i + 1)) =~= storage_int_set(data.take(i)).insert(
            canonical(iss, data[i].serial@),
        ),
{
    let pre = data.take(i);
    let cur = data.take(i + 1);
    assert(cur[i] == data[i]);
    assert forall|r: IntermediaryV| storage_int_set(cur).contains(r) implies storage_int_set(
        pre,
    ).insert(canonical(iss, data[i].serial@)).contains(r) by {
        let j = choose|j: int|
            0 <= j < cur.len() && issuer_of(cur[j].issuer_name@) is Ok && r == canonical(
                issuer_of(cur[j].issuer_name@)->Ok_0,
                cur[j].serial@,
            );
        if j < i {
            assert(pre[j] == cur[j]);
            assert(storage_int_set(pre).contains(r));
        }
    }
    assert forall|r: IntermediaryV|
        storage_int_set(pre).insert(canonical(iss, data[i].serial@)).contains(
            r,
        ) implies storage_int_set(cur).contains(r) by {
        if r == canonical(iss, data[i].serial@) {
            assert(issuer_of(cur[i].issuer_name@) is Ok && r == canonical(
                issuer_of(cur[i].issuer_name@)->Ok_0,
                cur[i].serial@,
            ));
        } else {
            let j = choose|j: int|
                0 <= j < pre.len() && issuer_of(pre[j].issuer_name@) is Ok && r == canonical(
                    issuer_of(pre[j].issuer_name@)->Ok_0,
                    pre[j].serial@,
                );
            assert(cur[j] == pre[j]);
            assert(issuer_of(cur[j].issuer_name@) is Ok && r == canonical(
                issuer_of(cur[j].issuer_name@)->Ok_0,
                cur[j].serial@,
            ));
        }
    }
}

/// As `lemma_storage_take_step`, for feed A records.
proof fn lemma_kinto_take_step(data: Seq<KintoEntry>, i: int, iss: IssuerV)
    requires
        0 <= i < data.len(),
        issuer_of(data[i].issuer_name@) == Ok::<IssuerV, ()>(iss),
    ensures
        kinto_set(data.take(i + 1)) =~= kinto_set(data.take(i)).insert(
            canonical(iss, data[i].serial_number@),
        ),
{
    let pre = data.take(i);
    let cur = data.take(i + 1);
    assert(cur[i] == data[i]);
    assert forall|r: IntermediaryV| kinto_set(cur).contains(r) implies kinto_set(pre).insert(
        canonical(iss, data[i].serial_number@),
    ).contains(r) by {
        let j = choose|j: int|
            0 <= j < cur.len() && issuer_of(cur[j].issuer_name@) is Ok && r == canonical(
                issuer_of(cur[j].issuer_name@)->Ok_0,
                cur[j].serial_number@,
            );
        if j < i {
            assert(pre[j] == cur[j]);
            assert(kinto_set(pre).contains(r));
        }
    }
    assert forall|r: IntermediaryV|
        kinto_set(pre).insert(canonical(iss, data[i].serial_number@)).contains(r) implies kinto_set(
        cur,
    ).contains(r) by {
        if r == canonical(iss, data[i].serial_number@) {
            assert(issuer_of(cur[i].issuer_name@) is Ok && r == canonical(
                issuer_of(cur[i].issuer_name@)->Ok_0,
                cur[i].serial_number@,
            ));
        } else {
            let j = choose|j: int|
                0 <= j < pre.len() && issuer_of(pre[j].issuer_name@) is Ok && r == canonical(
                    issuer_of(pre[j].issuer_name@)->Ok_0,
                    pre[j].serial_number@,
                );
            assert(cur[j] == pre[j]);
            assert(issuer_of(cur[j].issuer_name@) is Ok && r == canonical(
                issuer_of(cur[j].issuer_name@)->Ok_0,
                cur[j].serial_number@,
            ));
        }
    }
}

/// As `lemma_storage_take_step`, for feed C rows.
proof fn lemma_ccadb_take_step(rows: Seq<CCADBEntry>, i: int)
    requires
        0 <= i < rows.len(),
        is_hex(rows[i].certificate_serial_number@),
    ensures
        ccadb_set(rows.take(i + 1)) =~= ccadb_set(rows.take(i)).insert(
            IntermediaryV {
                common_name: rows[i].certificate_issuer_common_name@,
                organization: rows[i].certificate_issuer_organization@,
                serial: b64_of(hex_bytes(rows[i].certificate_serial_number@)),
            },
        ),
{
    let x = IntermediaryV {
        common_name: rows[i].certificate_issuer_common_name@,
        organization: rows[i].certificate_issuer_organization@,
        serial: b64_of(hex_bytes(rows[i].certificate_serial_number@)),
    };
    let pre = rows.take(i);
    let cur = rows.take(i + 1);
    assert(cur[i] == rows[i]);
    assert forall|r: IntermediaryV| ccadb_set(cur).contains(r) implies ccadb_set(pre).insert(
        x,
    ).contains(r) by {
        let j = choose|j: int|
            0 <= j < cur.len() && is_hex(cur[j].certificate_serial_number@) && r
                == (IntermediaryV {
                common_name: cur[j].certificate_issuer_common_name@,
                organization: cur[j].certificate_issuer_organization@,
                serial: b64_of(hex_bytes(cur[j].certificate_serial_number@)),
            });
        if j < i {
            assert(pre[j] == cur[j]);
            assert(ccadb_set(pre).contains(r));
        }
    }
    assert forall|r: IntermediaryV| ccadb_set(pre).insert(x).contains(r) implies ccadb_set(
        cur,
    ).contains(r) by {
        if r == x {
            assert(is_hex(cur[i].certificate_serial_number@) && r == (IntermediaryV {
                common_name: cur[i].certificate_issuer_common_name@,
                organization: cur[i].certificate_issuer_organization@,
                serial: b64_of(hex_bytes(cur[i].certificate_serial_number@)),
            }));
        } else {
            let j = choose|j: int|
                0 <= j < pre.len() && is_hex(pre[j].certificate_serial_number@) && r
                    == (IntermediaryV {
                    common_name: pre[j].certificate_issuer_common_name@,
                    organization: pre[j].certificate_issuer_organization@,
                    serial: b64_of(hex_bytes(pre[j].certificate_serial_number@)),
                });
            assert(cur[j] == pre[j]);
            assert(is_hex(cur[j].certificate_serial_number@) && r == (IntermediaryV {
                common_name: cur[j].certificate_issuer_common_name@,
                organization: cur[j].certificate_issuer_organization@,
                serial: b64_of(hex_bytes(cur[j].certificate_serial_number@)),
            }));
        }
    }
}

/// Counting one more serial of a feed B issuer grows its contribution
/// by exactly that canonical record.
proof fn lemma_rev_serial_step(e: RevocationsEntry, j: int, iss: IssuerV)
    requires
        0 <= j < e.serials.len(),
        issuer_of(e.issuer_name@) == Ok::<IssuerV, ()>(iss),
    ensures
        rev_row_upto(e, j + 1) =~= rev_row_upto(e, j).insert(canonical(iss, e.serials[j]@)),
{
    assert forall|r: IntermediaryV| rev_row_upto(e, j + 1).contains(r) implies rev_row_upto(
        e,
        j,
    ).insert(canonical(iss, e.serials[j]@)).contains(r) by {
        let b = choose|b: int|
            0 <= b < j + 1 && b < e.serials.len() && r == canonical(
                issuer_of(e.issuer_name@)->Ok_0,
                e.serials[b]@,
            );
        if b < j {
            assert(rev_row_upto(e, j).contains(r));
        }
    }
}

/// Extending the counted feed B prefix by one issuer grows the
/// canonical set by that issuer's whole contribution.
proof fn lemma_rev_take_step(data: Seq<RevocationsEntry>, i: int)
    requires
        0 <= i < data.len(),
    ensures
        revocations_set(data.take(i + 1)) =~= revocations_set(data.take(i)).union(
            rev_row_set(data[i]),
        ),
{
    let pre = data.take(i);
    let cur = data.take(i + 1);
    assert(cur[i] == data[i]);
    assert forall|r: IntermediaryV| revocations_set(cur).contains(r) implies revocations_set(
        pre,
    ).union(rev_row_set(data[i])).contains(r) by {
        let a = choose|a: int| 0 <= a < cur.len() && rev_row_set(cur[a]).contains(r);
        if a < i {
            assert(pre[a] == cur[a]);
            assert(revocations_set(pre).contains(r));
        }
    }
    assert forall|r: IntermediaryV|
        revocations_set(pre).union(rev_row_set(data[i])).contains(r) implies revocations_set(
        cur,
    ).contains(r) by {
        if revocations_set(pre).contains(r) {
            let a = choose|a: int| 0 <= a < pre.len() && rev_row_set(pre[a]).contains(r);
            assert(cur[a] == pre[a]);
            assert(rev_row_set(cur[a]).contains(r));
        } else {
            assert(rev_row_set(cur[i]).contains(r));
        }
    }
}

/// Parses one issuer name held as base64 text, mapping every failure to
/// the batch failure the name parser reports.
fn issuer_from_text(name: &String) -> (r: Result<crate::asn1::Issuer, Error>)
    ensures
        match r {
            Ok(iss) => issuer_of(name@) == Ok::<IssuerV, ()>(iss@),
            Err(e) => issuer_of(name@) is Err && e == Error::NameParseFailure,
        },
{
    let bytes = match b64_decode(name.as_str()) {
        Some(bytes) => bytes,
        None => {
            return Err(Error::NameParseFailure);
        },
    };
    match parse_name(bytes.as_slice()) {
        Ok(iss) => Ok(iss),
        Err(_) => Err(Error::NameParseFailure),
    }
}

impl CertStorage {
    /// Projects every store record into the canonical shape: its issuer
    /// name parsed, its serial carried over. One unparsable issuer name
    /// fails the whole conversion.
    pub fn to_intermediaries(&self) -> (r: Result<Vec<Intermediary>, Error>)
        ensures
            match r {
                Ok(v) => {
                    &&& storage_src_ok(self.data@)
                    &&& int_unique(v@)
                    &&& int_set(v@) == storage_int_set(self.data@)
                },
                Err(e) => !storage_src_ok(self.data@) && e == Error::NameParseFailure,
            },
    {
        let mut out: Vec<Intermediary> = Vec::new();
        let mut i: usize = 0;
        while i < self.data.len()
            invariant
                i <= self.data@.len(),
                int_unique(out@),
                int_set(out@) == storage_int_set(self.data@.take(i as int)),
                forall|k: int| 0 <= k < i ==> issuer_of(self.data@[k].issuer_name@) is Ok,
            decreases self.data@.len() - i,
        {
            let rec = &self.data[i];
            let issuer = match issuer_from_text(&rec.issuer_name) {
                Ok(iss) => iss,
                Err(e) => {
                    return Err(e);
                },
            };
            let item = Intermediary {
                common_name: issuer.common_name,
                organization: issuer.organization,
                serial: rec.serial.clone(),
            };
            proof {
                lemma_storage_take_step(self.data@, i as int, issuer@);
            }
            int_insert(&mut out, item);
            i = i + 1;
        }
        proof {
            assert(self.data@.take(self.data@.len() as int) =~= self.data@);
        }
        Ok(out)
    }
}

impl Kinto {
    /// Projects every feed A record into the canonical shape: its issuer
    /// name parsed, its serial carried over. One unparsable issuer name
    /// fails the whole conversion.
    pub fn to_intermediaries(&self) -> (r: Result<Vec<Intermediary>, Error>)
        ensures
            match r {
                Ok(v) => {
                    &&& kinto_ok(self.data@)
                    &&& int_unique(v@)
                    &&& int_set(v@) == kinto_set(self.data@)
                },
                Err(e) => !kinto_ok(self.data@) && e == Error::NameParseFailure,
            },
    {
        let mut out: Vec<Intermediary> = Vec::new();
        let mut i: usize = 0;
        while i < self.data.len()
            invariant
                i <= self.data@.len(),
                int_unique(out@),
                int_set(out@) == kinto_set(self.data@.take(i as int)),
                forall|k: int| 0 <= k < i ==> issuer_of(self.data@[k].issuer_name@) is Ok,
            decreases self.data@.len() - i,
        {
            let rec = &self.data[i];
            let issuer = match issuer_from_text(&rec.issuer_name) {
                Ok(iss) => iss,
                Err(e) => {
                    return Err(e);
                },
            };
            let item = Intermediary {
                common_name: issuer.common_name,
                organization: issuer.organization,
                serial: rec.serial_number.clone(),
            };
            proof {
                lemma_kinto_take_step(self.data@, i as int, issuer@);
            }
            int_insert(&mut out, item);
            i = i + 1;
        }
        proof {
            assert(self.data@.take(self.data@.len() as int) =~= self.data@);
        }
        Ok(out)
    }
}

impl Revocations {
    /// Projects feed B into the canonical shape: each issuer's name is
    /// parsed once and fanned out over all its serials. One unparsable
    /// issuer name fails the whole conversion.
    pub fn to_intermediaries(&self) -> (r: Result<Vec<Intermediary>, Error>)
        ensures
            match r {
                Ok(v) => {
                    &&& revocations_ok(self.data@)
                    &&& int_unique(v@)
                    &&& int_set(v@) == revocations_set(self.data@)
                },
                Err(e) => !revocations_ok(self.data@) && e == Error::NameParseFailure,
            },
    {
        let mut out: Vec<Intermediary> = Vec::new();
        let mut i: usize = 0;
        while i < self.data.len()
            invariant
                i <= self.data@.len(),
                int_unique(out@),
                int_set(out@) == revocations_set(self.data@.take(i as int)),
                forall|k: int| 0 <= k < i ==> issuer_of(self.data@[k].issuer_name@) is Ok,
            decreases self.data@.len() - i,
        {
            let row = &self.data[i];
            let issuer = match issuer_from_text(&row.issuer_name) {
                Ok(iss) => iss,
                Err(e) => {
                    return Err(e);
                },
            };
            let ghost before = int_set(out@);
            let mut j: usize = 0;
            while j < row.serials.len()
                invariant
                    j <= row.serials@.len(),
                    int_unique(out@),
                    issuer_of(row.issuer_name@) == Ok::<IssuerV, ()>(issuer@),
                    int_set(out@) == before.union(rev_row_upto(*row, j as int)),
                decreases row.serials@.len() - j,
            {
                let item = Intermediary {
                    common_name: issuer.common_name.clone(),
                    organization: issuer.organization.clone(),
                    serial: row.serials[j].clone(),
                };
                proof {
                    lemma_rev_serial_step(*row, j as int, issuer@);
                    assert(before.union(rev_row_upto(*row, j as int)).insert(item@)
                        =~= before.union(rev_row_upto(*row, j + 1)));
                }
                int_insert(&mut out, item);
                j = j + 1;
            }
            proof {
                lemma_rev_take_step(self.data@, i as int);
                assert(rev_row_upto(*row, row.serials@.len() as int) == rev_row_set(
                    self.data@[i as int],
                ));
            }
            i = i + 1;
        }
        proof {
            assert(self.data@.take(self.data@.len() as int) =~= self.data@);
        }
        Ok(out)
    }
}

impl CCADBReport {
    /// Projects feed C into the canonical shape: issuer attributes taken
    /// as given, each hex serial re-encoded as base64. One malformed hex
    /// serial fails the whole conversion.
    pub fn to_intermediaries(&self) -> (r: Result<Vec<Intermediary>, Error>)
        ensures
            match r {
                Ok(v) => {
                    &&& ccadb_ok(self.report@)
                    &&& int_unique(v@)
                    &&& int_set(v@) == ccadb_set(self.report@)
                },
                Err(e) => !ccadb_ok(self.report@) && e == Error::BadSerialHex,
            },
    {
        let mut out: Vec<Intermediary> = Vec::new();
        let mut i: usize = 0;
        while i < self.report.len()
            invariant
                i <= self.report@.len(),
                int_unique(out@),
                int_set(out@) == ccadb_set(self.report@.take(i as int)),
                forall|k: int| 0 <= k < i ==> is_hex(self.report@[k].certificate_serial_number@),
            decreases self.report@.len() - i,
        {
            let row = &self.report[i];
            let raw = match hex_decode(row.certificate_serial_number.as_str()) {
                Some(bytes) => bytes,
                None => {
                    return Err(Error::BadSerialHex);
                },
            };
            let item = Intermediary {
                common_name: row.certificate_issuer_common_name.clone(),
                organization: row.certificate_issuer_organization.clone(),
                serial: b64_encode(raw.as_slice()),
            };
            proof {
                lemma_ccadb_take_step(self.report@, i as int);
            }
            int_insert(&mut out, item);
            i = i + 1;
        }
        proof {
            assert(self.report@.take(self.report@.len() as int) =~= self.report@);
        }
        Ok(out)
    }
}

/// The records of `a` whose canonical form is not held by `b`: a
/// directional set difference, duplicate-free, in no meaningful order.
pub fn difference(a: &Vec<Intermediary>, b: &Vec<Intermediary>) -> (r: Vec<Intermediary>)
    ensures
        int_unique(r@),
        int_set(r@) == int_set(a@).difference(int_set(b@)),
{
    let mut out: Vec<Intermediary> = Vec::new();
    let mut k: usize = 0;
    while k < a.len()
        invariant
            k <= a@.len(),
            int_unique(out@),
            int_set(out@) == int_set(a@.take(k as int)).difference(int_set(b@)),
        decreases a@.len() - k,
    {
        let x = &a[k];
        proof {
            let pre = a@.take(k as int);
            let cur = a@.take(k as int + 1);
            assert forall|r: IntermediaryV| int_set(cur).contains(r) implies int_set(pre).insert(
                a@[k as int]@,
            ).contains(r) by {
                let j = choose|j: int| 0 <= j < cur.len() && cur[j]@ == r;
                if j < k {
                    assert(pre[j]@ == r);
                }
            }
            assert forall|r: IntermediaryV|
                int_set(pre).insert(a@[k as int]@).contains(r) implies int_set(cur).contains(r) by {
                if r == a@[k as int]@ {
                    assert(cur[k as int]@ == r);
                } else {
                    let j = choose|j: int| 0 <= j < pre.len() && pre[j]@ == r;
                    assert(cur[j]@ == r);
                }
            }
            assert(int_set(cur) =~= int_set(pre).insert(a@[k as int]@));
        }
        if !int_contains(b, x) {
            let item = copy_intermediary(x);
            proof {
                assert(int_set(a@.take(k as int + 1)).difference(int_set(b@)) =~= int_set(
                    a@.take(k as int),
                ).difference(int_set(b@)).insert(item@));
            }
            int_insert(&mut out, item);
        } else {
            proof {
                assert(int_set(a@.take(k as int + 1)).difference(int_set(b@)) =~= int_set(
                    a@.take(k as int),
                ).difference(int_set(b@)));
            }
        }
        k = k + 1;
    }
    proof {
        assert(a@.take(a@.len() as int) =~= a@);
    }
    out
}

/// The reconciliation report: a sparse record of directional difference
/// lists, each present only when its comparison was requested.
#[derive(Debug)]
pub struct Return {
    pub in_kinto_not_in_cert_storage: Option<Vec<Intermediary>>,
    pub in_cert_storage_not_in_kinto: Option<Vec<Intermediary>>,
    pub in_cert_storage_not_in_revocations: Option<Vec<Intermediary>>,
    pub in_revocations_not_in_cert_storage: Option<Vec<Intermediary>>,
    pub in_revocations_not_in_kinto: Option<Vec<Intermediary>>,
    pub in_kinto_not_in_revocations: Option<Vec<Intermediary>>,
    pub in_ccadb_not_in_cert_storage: Option<Vec<Intermediary>>,
    pub in_cert_storage_not_in_ccadb: Option<Vec<Intermediary>>,
}

/// `field` holds exactly the canonical records of `a` not in `b`.
pub open spec fn holds_difference(
    field: Option<Vec<Intermediary>>,
    a: Set<IntermediaryV>,
    b: Set<IntermediaryV>,
) -> bool {
    field matches Some(v) && int_unique(v@) && int_set(v@) == a.difference(b)
}

impl Return {
    /// The three-way comparison: all six directional differences among
    /// the store, feed A and feed B; the feed C fields stay absent. One
    /// unparsable issuer name anywhere fails the whole run.
    pub fn from_with_revocations(
        cert_storage: &CertStorage,
        kinto: &Kinto,
        revocations: &Revocations,
    ) -> (r: Result<Return, Error>)
        ensures
            match r {
                Ok(ret) => {
                    &&& storage_src_ok(cert_storage.data@)
                    &&& kinto_ok(kinto.data@)
                    &&& revocations_ok(revocations.data@)
                    &&& holds_difference(
                        ret.in_kinto_not_in_cert_storage,
                        kinto_set(kinto.data@),
                        storage_int_set(cert_storage.data@),
                    )
                    &&& holds_difference(
                        ret.in_cert_storage_not_in_kinto,
                        storage_int_set(cert_storage.data@),
                        kinto_set(kinto.data@),
                    )
                    &&& holds_difference(
                        ret.in_cert_storage_not_in_revocations,
                        storage_int_set(cert_storage.data@),
                        revocations_set(revocations.data@),
                    )
                    &&& holds_difference(
                        ret.in_revocations_not_in_cert_storage,
                        revocations_set(revocations.data@),
                        storage_int_set(cert_storage.data@),
                    )
                    &&& holds_difference(
                        ret.in_revocations_not_in_kinto,
                        revocations_set(revocations.data@),
                        kinto_set(kinto.data@),
                    )
                    &&& holds_difference(
                        ret.in_kinto_not_in_revocations,
                        kinto_set(kinto.data@),
                        revocations_set(revocations.data@),
                    )
                    &&& ret.in_ccadb_not_in_cert_storage is None
                    &&& ret.in_cert_storage_not_in_ccadb is None
                },
                Err(e) => {
                    &&& e == Error::NameParseFailure
                    &&& !(storage_src_ok(cert_storage.data@) && kinto_ok(kinto.data@)
                        && revocations_ok(revocations.data@))
                },
            },
    {
        let cs = match cert_storage.to_intermediaries() {
            Ok(v) => v,
            Err(e) => {
                return Err(e);
            },
        };
        let ki = match kinto.to_intermediaries() {
            Ok(v) => v,
            Err(e) => {
                return Err(e);
            },
        };
        let rv = match revocations.to_intermediaries() {
            Ok(v) => v,
            Err(e) => {
                return Err(e);
            },
        };
        Ok(
            Return {
                in_kinto_not_in_cert_storage: Some(difference(&ki, &cs)),
                in_cert_storage_not_in_kinto: Some(difference(&cs, &ki)),
                in_cert_storage_not_in_revocations: Some(difference(&cs, &rv)),
                in_revocations_not_in_cert_storage: Some(difference(&rv, &cs)),
                in_revocations_not_in_kinto: Some(difference(&rv, &ki)),
                in_kinto_not_in_revocations: Some(difference(&ki, &rv)),
                in_ccadb_not_in_cert_storage: None,
                in_cert_storage_not_in_ccadb: None,
            },
        )
    }

    /// The two-way comparison of the store against feed A; every other
    /// field stays absent.
    pub fn from_without_revocations(cert_storage: &CertStorage, kinto: &Kinto) -> (r: Result<
        Return,
        Error,
    >)
        ensures
            match r {
                Ok(ret) => {
                    &&& storage_src_ok(cert_storage.data@)
                    &&& kinto_ok(kinto.data@)
                    &&& holds_difference(
                        ret.in_kinto_not_in_cert_storage,
                        kinto_set(kinto.data@),
                        storage_int_set(cert_storage.data@),
                    )
                    &&& holds_difference(
                        ret.in_cert_storage_not_in_kinto,
                        storage_int_set(cert_storage.data@),
                        kinto_set(kinto.data@),
                    )
                    &&& ret.in_cert_storage_not_in_revocations is None
                    &&& ret.in_revocations_not_in_cert_storage is None
                    &&& ret.in_revocations_not_in_kinto is None
                    &&& ret.in_kinto_not_in_revocations is None
                    &&& ret.in_ccadb_not_in_cert_storage is None
                    &&& ret.in_cert_storage_not_in_ccadb is None
                },
                Err(e) => {
                    &&& e == Error::NameParseFailure
                    &&& !(storage_src_ok(cert_storage.data@) && kinto_ok(kinto.data@))
                },
            },
    {
        let cs = match cert_storage.to_intermediaries() {
            Ok(v) => v,
            Err(e) => {
                return Err(e);
            },
        };
        let ki = match kinto.to_intermediaries() {
            Ok(v) => v,
            Err(e) => {
                return Err(e);
            },
        };
        Ok(
            Return {
                in_kinto_not_in_cert_storage: Some(difference(&ki, &cs)),
                in_cert_storage_not_in_kinto: Some(difference(&cs, &ki)),
                in_cert_storage_not_in_revocations: None,
                in_revocations_not_in_cert_storage: None,
                in_revocations_not_in_kinto: None,
                in_kinto_not_in_revocations: None,
                in_ccadb_not_in_cert_storage: None,
                in_cert_storage_not_in_ccadb: None,
            },
        )
    }

    /// The two-way comparison of the store against feed C; every other
    /// field stays absent. One unparsable issuer name or malformed hex
    /// serial fails the whole run with that failure.
    pub fn from_ccadb(cert_storage: &CertStorage, report: &CCADBReport) -> (r: Result<
        Return,
        Error,
    >)
        ensures
            match r {
                Ok(ret) => {
                    &&& storage_src_ok(cert_storage.data@)
                    &&& ccadb_ok(report.report@)
                    &&& holds_difference(
                        ret.in_ccadb_not_in_cert_storage,
                        ccadb_set(report.report@),
                        storage_int_set(cert_storage.data@),
                    )
                    &&& holds_difference(
                        ret.in_cert_storage_not_in_ccadb,
                        storage_int_set(cert_storage.data@),
                        ccadb_set(report.report@),
                    )
                    &&& ret.in_kinto_not_in_cert_storage is None
                    &&& ret.in_cert_storage_not_in_kinto is None
                    &&& ret.in_cert_storage_not_in_revocations is None
                    &&& ret.in_revocations_not_in_cert_storage is None
                    &&& ret.in_revocations_not_in_kinto is None
                    &&& ret.in_kinto_not_in_revocations is None
                },
                Err(e) => {
                    &&& (e == Error::NameParseFailure && !storage_src_ok(cert_storage.data@)) || (e
                        == Error::BadSerialHex && !ccadb_ok(report.report@))
                },
            },
    {
        let cs = match cert_storage.to_intermediaries() {
            Ok(v) => v,
            Err(e) => {
                return Err(e);
            },
        };
        let cc = match report.to_intermediaries() {
            Ok(v) => v,
            Err(e) => {
                return Err(e);
            },
        };
        Ok(
            Return {
                in_kinto_not_in_cert_storage: None,
                in_cert_storage_not_in_kinto: None,
                in_cert_storage_not_in_revocations: None,
                in_revocations_not_in_cert_storage: None,
                in_revocations_not_in_kinto: None,
                in_kinto_not_in_revocations: None,
                in_ccadb_not_in_cert_storage: Some(difference(&cc, &cs)),
                in_cert_storage_not_in_ccadb: Some(difference(&cs, &cc)),
            },
        )
    }
}

} // verus!
