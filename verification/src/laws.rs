//! The set-theoretic guarantees the reconciler and the loader rest on,
//! stated once and proved for every input.

use vstd::prelude::*;

use crate::codec::b64_of;
use crate::errors::Error;
use crate::model::{Intermediary, IntermediaryV};
use crate::storage::{entry_record, has_is_prefix, lemma_loaded_step, loaded_set, IssuerSerialV};
use crate::der::split_outcome;

verus! {

/// A store pair whose value is not the "revoked" flag leaves the loaded
/// set unchanged; a revoked pair with a well-formed `is` key grows it by
/// exactly the record its payload halves encode.
pub proof fn lemma_entry_contribution(ev: Seq<(Seq<u8>, Option<i64>)>, i: int)
    requires
        0 <= i < ev.len(),
    ensures
        ev[i].1 != Some(1i64) ==> loaded_set(ev.take(i + 1)) == loaded_set(ev.take(i)),
        ev[i].1 == Some(1i64) && has_is_prefix(ev[i].0) && split_outcome(ev[i].0.skip(2)) is Ok
            ==> loaded_set(ev.take(i + 1)) == loaded_set(ev.take(i)).insert(
            IssuerSerialV {
                issuer_name: b64_of(ev[i].0.skip(2).take(split_outcome(ev[i].0.skip(2))->Ok_0)),
                serial: b64_of(ev[i].0.skip(2).skip(split_outcome(ev[i].0.skip(2))->Ok_0)),
            },
        ),
{
    if ev[i].1 != Some(1i64) {
        assert(entry_record(ev[i].0, ev[i].1) == Ok::<Option<IssuerSerialV>, Error>(None));
        lemma_loaded_step(ev, i);
    } else if has_is_prefix(ev[i].0) && split_outcome(ev[i].0.skip(2)) is Ok {
        let p = split_outcome(ev[i].0.skip(2))->Ok_0;
        let rec = IssuerSerialV {
            issuer_name: b64_of(ev[i].0.skip(2).take(p)),
            serial: b64_of(ev[i].0.skip(2).skip(p)),
        };
        assert(entry_record(ev[i].0, ev[i].1) == Ok::<Option<IssuerSerialV>, Error>(Some(rec)));
        lemma_loaded_step(ev, i);
    }
}

/// Reconciling two equal canonical sets leaves every directional
/// difference empty.
pub proof fn lemma_equal_sets_empty_differences(a: Set<IntermediaryV>, b: Set<IntermediaryV>)
    requires
        a == b,
    ensures
        a.difference(b) == Set::<IntermediaryV>::empty(),
        b.difference(a) == Set::<IntermediaryV>::empty(),
{
    assert(a.difference(b) =~= Set::<IntermediaryV>::empty());
    assert(b.difference(a) =~= Set::<IntermediaryV>::empty());
}

/// The two directional differences and the intersection partition the
/// union: together they are exactly it, and the differences never meet.
pub proof fn lemma_difference_partition(a: Set<IntermediaryV>, b: Set<IntermediaryV>)
    ensures
        a.difference(b).union(a.intersect(b)).union(b.difference(a)) == a.union(b),
        a.difference(b).intersect(b.difference(a)) == Set::<IntermediaryV>::empty(),
{
    assert(a.difference(b).union(a.intersect(b)).union(b.difference(a)) =~= a.union(b));
    assert(a.difference(b).intersect(b.difference(a)) =~= Set::<IntermediaryV>::empty());
}

/// Two canonical records that agree on all three fields collapse to one
/// set member, however differently their source rows were labelled.
pub proof fn lemma_duplicate_collapses(s: Set<IntermediaryV>, x: Intermediary, y: Intermediary)
    requires
        x@ == y@,
    ensures
        s.insert(x@).insert(y@) == s.insert(x@),
{
    assert(s.insert(x@).insert(y@) =~= s.insert(x@));
}

} // verus!
