//! Decoding raw entries of the embedded revocation store. A key is a
//! short ASCII prefix (`is` for issuer/serial pairs, `spk` for
//! subject/key-hash pairs) followed by two concatenated DER elements; an
//! entry counts only when its value is exactly the integer 1, the
//! "revoked" flag. The loader folds a whole snapshot of entries into a
//! deduplicated set of issuer/serial records.

use vstd::prelude::*;
use vstd::slice::slice_subrange;

use crate::codec::{b64_encode, b64_of};
use crate::der::{split_der_key, split_outcome};
use crate::errors::Error;

verus! {

/// One revocation record: an issuer distinguished name and a serial
/// number, each held as base64 text of the raw DER bytes. Equal pairs
/// collapse under set insertion.
#[derive(Clone, Debug, PartialEq, Eq, Hash)]
pub struct IssuerSerial {
    pub issuer_name: String,
    pub serial: String,
}

/// The mathematical shape of an `IssuerSerial`.
pub struct IssuerSerialV {
    pub issuer_name: Seq<char>,
    pub serial: Seq<char>,
}

impl View for IssuerSerial {
    type V = IssuerSerialV;

    open spec fn view(&self) -> IssuerSerialV {
        IssuerSerialV { issuer_name: self.issuer_name@, serial: self.serial@ }
    }
}

/// A decoded store entry: an issuer/serial pair, or a subject/key-hash
/// pair. Only the issuer/serial form takes part in reconciliation.
#[derive(Clone, Debug)]
pub enum Entry {
    IssuerSerial { issuer_name: String, serial: String },
    SubjectKeyHash { subject: String, key_hash: String },
}

/// The mathematical shape of an `Entry`.
pub enum EntryV {
    IssuerSerial { issuer_name: Seq<char>, serial: Seq<char> },
    SubjectKeyHash { subject: Seq<char>, key_hash: Seq<char> },
}

impl View for Entry {
    type V = EntryV;

    open spec fn view(&self) -> EntryV {
        match self {
            Entry::IssuerSerial { issuer_name, serial } => EntryV::IssuerSerial {
                issuer_name: issuer_name@,
                serial: serial@,
            },
            Entry::SubjectKeyHash { subject, key_hash } => EntryV::SubjectKeyHash {
                subject: subject@,
                key_hash: key_hash@,
            },
        }
    }
}

/// `key` starts with the ASCII prefix `is`.
pub open spec fn has_is_prefix(key: Seq<u8>) -> bool {
    key.len() >= 2 && key[0] == 0x69 && key[1] == 0x73
}

/// `key` starts with the ASCII prefix `spk`.
pub open spec fn has_spk_prefix(key: Seq<u8>) -> bool {
    key.len() >= 3 && key[0] == 0x73 && key[1] == 0x70 && key[2] == 0x6b
}

/// What decoding one raw store pair gives: nothing when the value does
/// not mean "revoked" or the prefix is foreign; otherwise the key's
/// payload split into its two DER elements, each base64-encoded, under
/// the variant the prefix names. A payload whose first element has a bad
/// length encoding is the failure that encoding earns.
pub open spec fn decode_spec(key: Seq<u8>, value: Option<i64>) -> Result<Option<EntryV>, Error> {
    if value != Some(1i64) {
        Ok(None)
    } else if has_is_prefix(key) {
        let payload = key.skip(2);
        match split_outcome(payload) {
            Ok(p) => Ok(
                Some(
                    EntryV::IssuerSerial {
                        issuer_name: b64_of(payload.take(p)),
                        serial: b64_of(payload.skip(p)),
                    },
                ),
            ),
            Err(e) => Err(e),
        }
    } else if has_spk_prefix(key) {
        let payload = key.skip(3);
        match split_outcome(payload) {
            Ok(p) => Ok(
                Some(
                    EntryV::SubjectKeyHash {
                        subject: b64_of(payload.take(p)),
                        key_hash: b64_of(payload.skip(p)),
                    },
                ),
            ),
            Err(e) => Err(e),
        }
    } else {
        Ok(None)
    }
}

impl Entry {
    /// Wraps the two halves of a split `is` payload as an issuer/serial
    /// entry, base64-encoding each.
    pub fn issuer_serial_from(parts: (&[u8], &[u8])) -> (e: Entry)
        ensures
            e@ == (EntryV::IssuerSerial { issuer_name: b64_of(parts.0@), serial: b64_of(parts.1@) }),
    {
        Entry::IssuerSerial { issuer_name: b64_encode(parts.0), serial: b64_encode(parts.1) }
    }

    /// Wraps the two halves of a split `spk` payload as a
    /// subject/key-hash entry, base64-encoding each.
    pub fn subject_key_hash_from(parts: (&[u8], &[u8])) -> (e: Entry)
        ensures
            e@ == (EntryV::SubjectKeyHash { subject: b64_of(parts.0@), key_hash: b64_of(parts.1@) }),
    {
        Entry::SubjectKeyHash { subject: b64_encode(parts.0), key_hash: b64_encode(parts.1) }
    }
}

/// Decodes one raw store pair into a typed entry, as `decode_spec` says:
/// a skipped pair is `Ok(None)`, not an error.
pub fn decode(key: &[u8], value: Option<i64>) -> (r: Result<Option<Entry>, Error>)
    ensures
        match r {
            Ok(Some(e)) => decode_spec(key@, value) == Ok::<Option<EntryV>, Error>(Some(e@)),
            Ok(None) => decode_spec(key@, value) == Ok::<Option<EntryV>, Error>(None),
            Err(e) => decode_spec(key@, value) == Err::<Option<EntryV>, Error>(e),
        },
{
    let revoked = match value {
        Some(v) => v == 1,
        None => false,
    };
    if !revoked {
        return Ok(None);
    }
    if key.len() >= 2 && key[0] == 0x69 && key[1] == 0x73 {
        let payload = slice_subrange(key, 2, key.len());
        proof {
            assert(payload@ =~= key@.skip(2));
        }
        match split_der_key(payload) {
            Ok((part1, part2)) => Ok(Some(Entry::issuer_serial_from((part1, part2)))),
            Err(e) => Err(e),
        }
    } else if key.len() >= 3 && key[0] == 0x73 && key[1] == 0x70 && key[2] == 0x6b {
        let payload = slice_subrange(key, 3, key.len());
        proof {
            assert(payload@ =~= key@.skip(3));
        }
        match split_der_key(payload) {
            Ok((part1, part2)) => Ok(Some(Entry::subject_key_hash_from((part1, part2)))),
            Err(e) => Err(e),
        }
    } else {
        Ok(None)
    }
}

/// What one raw store pair contributes to the loaded set: the
/// issuer/serial record it decodes to, nothing for a skipped pair or a
/// subject/key-hash pair, or the decode failure.
pub open spec fn entry_record(key: Seq<u8>, value: Option<i64>) -> Result<
    Option<IssuerSerialV>,
    Error,
> {
    match decode_spec(key, value) {
        Ok(Some(EntryV::IssuerSerial { issuer_name, serial })) => Ok(
            Some(IssuerSerialV { issuer_name, serial }),
        ),
        Ok(_) => Ok(None),
        Err(e) => Err(e),
    }
}

/// The raw store pairs behind a vector of owned pairs.
pub open spec fn entries_view(entries: Seq<(Vec<u8>, Option<i64>)>) -> Seq<(Seq<u8>, Option<i64>)> {
    entries.map_values(|e: (Vec<u8>, Option<i64>)| (e.0@, e.1))
}

/// Every pair of the snapshot decodes without failure.
pub open spec fn entries_ok(ev: Seq<(Seq<u8>, Option<i64>)>) -> bool {
    forall|i: int| 0 <= i < ev.len() ==> entry_record(ev[i].0, ev[i].1) is Ok
}

/// The set of issuer/serial records a snapshot of raw store pairs
/// stands for.
pub open spec fn loaded_set(ev: Seq<(Seq<u8>, Option<i64>)>) -> Set<IssuerSerialV> {
    Set::new(
        |r: IssuerSerialV|
            exists|i: int|
                0 <= i < ev.len() && entry_record(ev[i].0, ev[i].1) == Ok::<
                    Option<IssuerSerialV>,
                    Error,
                >(Some(r)),
    )
}

/// The set of records a sequence of issuer/serial values holds.
pub open spec fn iss_set(s: Seq<IssuerSerial>) -> Set<IssuerSerialV> {
    Set::new(|r: IssuerSerialV| exists|i: int| 0 <= i < s.len() && s[i]@ == r)
}

/// No two records of `s` are the same pair.
pub open spec fn iss_unique(s: Seq<IssuerSerial>) -> bool {
    forall|i: int, j: int| 0 <= i < j < s.len() ==> s[i]@ != s[j]@
}

/// Appending a record grows the record set by exactly that record.
proof fn lemma_iss_push(s: Seq<IssuerSerial>, x: IssuerSerial)
    ensures
        iss_set(s.push(x)) =~= iss_set(s).insert(x@),
{
    assert forall|r: IssuerSerialV| iss_set(s.push(x)).contains(r) implies iss_set(s).insert(
        x@,
    ).contains(r) by {
        let i = choose|i: int| 0 <= i < s.push(x).len() && s.push(x)[i]@ == r;
        if i < s.len() {
            assert(s[i]@ == r);
        }
    }
    assert forall|r: IssuerSerialV| iss_set(s).insert(x@).contains(r) implies iss_set(
        s.push(x),
    ).contains(r) by {
        if r == x@ {
            assert(s.push(x)[s.len() as int]@ == r);
        } else {
            let i = choose|i: int| 0 <= i < s.len() && s[i]@ == r;
            assert(s.push(x)[i]@ == r);
        }
    }
}

/// A pair that decodes to a record grows the loaded set by exactly that
/// record; a pair that decodes to nothing leaves it unchanged.
pub(crate) proof fn lemma_loaded_step(ev: Seq<(Seq<u8>, Option<i64>)>, i: int)
    requires
        0 <= i < ev.len(),
        entry_record(ev[i].0, ev[i].1) is Ok,
    ensures
        match entry_record(ev[i].0, ev[i].1) {
            Ok(Some(rec)) => loaded_set(ev.take(i + 1)) =~= loaded_set(ev.take(i)).insert(rec),
            Ok(None) => loaded_set(ev.take(i + 1)) =~= loaded_set(ev.take(i)),
            Err(_) => false,
        },
{
    let pre = ev.take(i);
    let cur = ev.take(i + 1);
    assert(cur[i] == ev[i]);
    assert forall|r: IssuerSerialV| loaded_set(cur).contains(r) implies loaded_set(pre).contains(r)
        || entry_record(ev[i].0, ev[i].1) == Ok::<Option<IssuerSerialV>, Error>(Some(r)) by {
        let j = choose|j: int|
            0 <= j < cur.len() && entry_record(cur[j].0, cur[j].1) == Ok::<
                Option<IssuerSerialV>,
                Error,
            >(Some(r));
        if j < i {
            assert(pre[j] == cur[j]);
            assert(entry_record(pre[j].0, pre[j].1) == Ok::<Option<IssuerSerialV>, Error>(Some(r)));
        }
    }
    assert forall|r: IssuerSerialV| loaded_set(pre).contains(r) implies loaded_set(cur).contains(
        r,
    ) by {
        let j = choose|j: int|
            0 <= j < pre.len() && entry_record(pre[j].0, pre[j].1) == Ok::<
                Option<IssuerSerialV>,
                Error,
            >(Some(r));
        assert(cur[j] == pre[j]);
        assert(entry_record(cur[j].0, cur[j].1) == Ok::<Option<IssuerSerialV>, Error>(Some(r)));
    }
    match entry_record(ev[i].0, ev[i].1) {
        Ok(Some(rec)) => {
            assert(entry_record(cur[i].0, cur[i].1) == Ok::<Option<IssuerSerialV>, Error>(
                Some(rec),
            ));
            assert(loaded_set(cur).contains(rec));
        },
        _ => {},
    }
}

/// A set of revocation records loaded from the embedded store.
#[derive(Debug)]
pub struct CertStorage {
    pub data: Vec<IssuerSerial>,
}

impl CertStorage {
    /// Loads a whole snapshot of raw store pairs, in store order: each
    /// pair is a raw key and its integer value, if it has one. Every
    /// issuer/serial record the snapshot stands for is collected once;
    /// one failing pair fails the whole load with the failure of the
    /// first such pair, and no partial result.
    pub fn from_entries(entries: &Vec<(Vec<u8>, Option<i64>)>) -> (r: Result<CertStorage, Error>)
        ensures
            match r {
                Ok(cs) => {
                    &&& entries_ok(entries_view(entries@))
                    &&& iss_unique(cs.data@)
                    &&& iss_set(cs.data@) == loaded_set(entries_view(entries@))
                },
                Err(e) => exists|i: int|
                    {
                        &&& 0 <= i < entries@.len()
                        &&& entry_record(entries_view(entries@)[i].0, entries_view(entries@)[i].1)
                            == Err::<Option<IssuerSerialV>, Error>(e)
                        &&& forall|j: int|
                            0 <= j < i ==> entry_record(
                                entries_view(entries@)[j].0,
                                entries_view(entries@)[j].1,
                            ) is Ok
                    },
            },
    {
        let ghost ev = entries_view(entries@);
        let mut data: Vec<IssuerSerial> = Vec::new();
        let mut idx: usize = 0;
        while idx < entries.len()
            invariant
                idx <= entries@.len(),
                ev == entries_view(entries@),
                iss_unique(data@),
                iss_set(data@) == loaded_set(ev.take(idx as int)),
                forall|j: int| 0 <= j < idx ==> entry_record(ev[j].0, ev[j].1) is Ok,
            decreases entries@.len() - idx,
        {
            let pair = &entries[idx];
            proof {
                assert(ev[idx as int] == (pair.0@, pair.1));
            }
            match decode(pair.0.as_slice(), pair.1) {
                Ok(Some(Entry::IssuerSerial { issuer_name, serial })) => {
                    let rec = IssuerSerial { issuer_name, serial };
                    proof {
                        assert(entry_record(ev[idx as int].0, ev[idx as int].1) == Ok::<
                            Option<IssuerSerialV>,
                            Error,
                        >(Some(rec@)));
                        lemma_loaded_step(ev, idx as int);
                    }
                    if !iss_contains(&data, &rec) {
                        proof {
                            lemma_iss_push(data@, rec);
                        }
                        data.push(rec);
                    } else {
                        proof {
                            assert(iss_set(data@).insert(rec@) =~= iss_set(data@));
                        }
                    }
                },
                Ok(_) => {
                    proof {
                        assert(entry_record(ev[idx as int].0, ev[idx as int].1) == Ok::<
                            Option<IssuerSerialV>,
                            Error,
                        >(None));
                        lemma_loaded_step(ev, idx as int);
                    }
                },
                Err(e) => {
                    proof {
                        assert(entry_record(ev[idx as int].0, ev[idx as int].1) == Err::<
                            Option<IssuerSerialV>,
                            Error,
                        >(e));
                    }
                    return Err(e);
                },
            }
            idx = idx + 1;
        }
        proof {
            assert(ev.take(entries@.len() as int) =~= ev);
        }
        Ok(CertStorage { data })
    }
}

/// Whether the record set of `v` holds the pair `x`.
pub fn iss_contains(v: &Vec<IssuerSerial>, x: &IssuerSerial) -> (r: bool)
    ensures
        r == iss_set(v@).contains(x@),
{
    let mut i: usize = 0;
    while i < v.len()
        invariant
            i <= v@.len(),
            forall|k: int| 0 <= k < i ==> v@[k]@ != x@,
        decreases v@.len() - i,
    {
        if v[i].issuer_name == x.issuer_name && v[i].serial == x.serial {
            proof {
                assert(v@[i as int]@ == x@);
            }
            return true;
        }
        i = i + 1;
    }
    false
}

} // verus!
