//! The decisions of a synchronization pass over one category: which listings
//! to announce, and what the ledger holds afterwards.

use vstd::prelude::*;
use crate::ledger::{Ledger, active_at};
use crate::product::Product;

verus! {

/// The ledger after a pass sees the listings `seen` (machine name, end) in
/// order: each one not yet recorded is recorded with its end.
pub open spec fn after_pass(m: Map<Seq<char>, i64>, seen: Seq<(Seq<char>, i64)>) -> Map<Seq<char>, i64>
    decreases seen.len(),
{
    if seen.len() == 0 {
        m
    } else {
        let before = after_pass(m, seen.drop_last());
        if before.contains_key(seen.last().0) {
            before
        } else {
            before.insert(seen.last().0, seen.last().1)
        }
    }
}

/// Decides on one listing of the catalog. A listing already in the ledger is
/// skipped. Otherwise it is recorded first, and the result says to announce it.
pub fn consider(record: &mut Ledger, product: &Product) -> (announce: bool)
    requires
        old(record).wf(),
    ensures
        final(record).wf(),
        announce == !old(record)@.contains_key(product.machine_name@),
        final(record)@ == if announce {
            old(record)@.insert(product.machine_name@, product.end_time.secs)
        } else {
            old(record)@
        },
{
    if record.contains(product.machine_name.as_str()) {
        false
    } else {
        record.insert(product.machine_name.clone(), product.end_time.secs);
        true
    }
}

/// Ends a pass: drops what ended by `now`, leaving only entries that end later.
pub fn finish(record: &mut Ledger, now: i64)
    requires
        old(record).wf(),
    ensures
        final(record).wf(),
        final(record)@ == active_at(old(record)@, now),
        forall|k: Seq<char>| #[trigger] final(record)@.contains_key(k) ==> final(record)@[k] > now,
{
    record.retain_active(now);
}

proof fn lemma_after_pass_keeps(m: Map<Seq<char>, i64>, seen: Seq<(Seq<char>, i64)>, now: i64)
    requires
        forall|k: Seq<char>| #[trigger] m.contains_key(k) ==> m[k] > now,
        forall|i: int| 0 <= i < seen.len() ==> #[trigger] seen[i].1 > now,
    ensures
        forall|i: int| 0 <= i < seen.len() ==> after_pass(m, seen).contains_key(#[trigger] seen[i].0),
        forall|k: Seq<char>| #[trigger] after_pass(m, seen).contains_key(k) ==> after_pass(m, seen)[k] > now,
        forall|k: Seq<char>| #[trigger] m.contains_key(k) ==> after_pass(m, seen).contains_key(k),
    decreases seen.len(),
{
    if seen.len() > 0 {
        let p = seen.drop_last();
        lemma_after_pass_keeps(m, p, now);
        assert forall|i: int| 0 <= i < seen.len() implies after_pass(m, seen).contains_key(#[trigger] seen[i].0) by {
            if i < p.len() {
                assert(p[i] == seen[i]);
            }
        }
        assert(seen[seen.len() - 1].1 > now);
        let b = after_pass(m, p);
        let a = after_pass(m, seen);
        assert forall|k: Seq<char>| #[trigger] a.contains_key(k) implies a[k] > now by {
            if k != seen.last().0 {
                assert(b.contains_key(k));
            }
        }
        assert forall|k: Seq<char>| #[trigger] m.contains_key(k) implies a.contains_key(k) by {
            assert(b.contains_key(k));
        }
    }
}

proof fn lemma_after_pass_stable(m: Map<Seq<char>, i64>, seen: Seq<(Seq<char>, i64)>)
    requires
        forall|i: int| 0 <= i < seen.len() ==> m.contains_key(#[trigger] seen[i].0),
    ensures
        after_pass(m, seen) == m,
    decreases seen.len(),
{
    if seen.len() > 0 {
        let p = seen.drop_last();
        assert forall|i: int| 0 <= i < p.len() implies m.contains_key(#[trigger] p[i].0) by {
            assert(p[i] == seen[i]);
        }
        lemma_after_pass_stable(m, p);
        assert(m.contains_key(seen[seen.len() - 1].0));
    }
}

/// Running a pass twice over an unchanged catalog, with no time elapsed,
/// announces nothing the second time and leaves the ledger as the first pass
/// left it: every listing of the first pass is then recorded. This holds of
/// listings still running at `now`, on a ledger whose entries are too.
pub proof fn lemma_second_pass_is_quiet(m: Map<Seq<char>, i64>, seen: Seq<(Seq<char>, i64)>, now: i64)
    requires
        forall|k: Seq<char>| #[trigger] m.contains_key(k) ==> m[k] > now,
        forall|i: int| 0 <= i < seen.len() ==> #[trigger] seen[i].1 > now,
    ensures
        ({
            let saved = active_at(after_pass(m, seen), now);
            &&& forall|i: int| 0 <= i < seen.len() ==> saved.contains_key(#[trigger] seen[i].0)
            &&& after_pass(saved, seen) == saved
        }),
{
    lemma_after_pass_keeps(m, seen, now);
    let first = after_pass(m, seen);
    let saved = active_at(first, now);
    assert(saved =~= first);
    lemma_after_pass_stable(saved, seen);
}

} // verus!
