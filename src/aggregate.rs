//! Merging arriving execution results with the roster, one row per result,
//! then the roster's unmatched records.

use vstd::prelude::*;
use crate::record::{Entry, EntryModel, error_record, merged};
use crate::template::{Registry, unique_ids, has_id, index_of};

verus! {

/// What a worker hands over for one submission: its student id and the
/// grader output recorded for it.
#[derive(Clone, Debug, PartialEq, Eq)]
pub struct ExecutionResult {
    pub student_id: String,
    pub grader_output: String,
}

/// A result as the model sees it: the student id, the grader output, and the
/// record that the submission's sidecar file gives (used only where the
/// roster has no record of that student).
pub struct Arrival {
    pub id: Seq<char>,
    pub output: Seq<char>,
    pub sidecar: EntryModel,
}

/// The record that a result is merged into: the roster's record of the
/// student where there is one, else the sidecar's.
pub open spec fn base_for(reg: Seq<EntryModel>, a: Arrival) -> EntryModel {
    if has_id(reg, a.id) {
        reg[index_of(reg, a.id)]
    } else {
        a.sidecar
    }
}

/// The row written for the result `a` when the roster holds `reg`.
pub open spec fn row_for(reg: Seq<EntryModel>, a: Arrival) -> EntryModel {
    merged(base_for(reg, a), a.id, a.output)
}

/// The roster after the result `a` took its record out.
pub open spec fn reg_after(reg: Seq<EntryModel>, a: Arrival) -> Seq<EntryModel> {
    if has_id(reg, a.id) {
        reg.remove(index_of(reg, a.id))
    } else {
        reg
    }
}

/// The roster left after the results `arr` arrived, in order, at roster `r`.
pub open spec fn remaining_after(r: Seq<EntryModel>, arr: Seq<Arrival>) -> Seq<EntryModel>
    decreases arr.len(),
{
    if arr.len() == 0 {
        r
    } else {
        reg_after(remaining_after(r, arr.drop_last()), arr.last())
    }
}

/// The rows written, in order, for the results `arr` arriving at roster `r`.
pub open spec fn emitted_by(r: Seq<EntryModel>, arr: Seq<Arrival>) -> Seq<EntryModel>
    decreases arr.len(),
{
    if arr.len() == 0 {
        Seq::<EntryModel>::empty()
    } else {
        emitted_by(r, arr.drop_last()).push(
            row_for(remaining_after(r, arr.drop_last()), arr.last()),
        )
    }
}

/// The whole report: a row per result, then the roster's unmatched records.
pub open spec fn report_of(r: Seq<EntryModel>, arr: Seq<Arrival>) -> Seq<EntryModel> {
    emitted_by(r, arr) + remaining_after(r, arr)
}

/// Whether some result of `arr` has student id `id`.
pub open spec fn arrival_has(arr: Seq<Arrival>, id: Seq<char>) -> bool {
    exists|j: int| 0 <= j < arr.len() && arr[j].id == id
}

/// Whether no two results of `arr` share a student id.
pub open spec fn distinct_arrivals(arr: Seq<Arrival>) -> bool {
    forall|i: int, j: int| 0 <= i < arr.len() && 0 <= j < arr.len() && i != j ==> arr[i].id != arr[j].id
}

/// How many results of `arr` have a record in roster `r`.
pub open spec fn matched(r: Seq<EntryModel>, arr: Seq<Arrival>) -> nat
    decreases arr.len(),
{
    if arr.len() == 0 {
        0
    } else {
        matched(r, arr.drop_last()) + if has_id(r, arr.last().id) {
            1nat
        } else {
            0nat
        }
    }
}

/// The model of a result merged with the given sidecar record, if any.
pub open spec fn arrival_of(result: ExecutionResult, fallback: Option<Entry>) -> Arrival {
    Arrival {
        id: result.student_id@,
        output: result.grader_output@,
        sidecar: match fallback {
            Some(f) => f@,
            None => error_record(),
        },
    }
}

proof fn lemma_unique_index(s: Seq<EntryModel>, i: int)
    requires
        unique_ids(s),
        0 <= i < s.len(),
    ensures
        has_id(s, s[i].username),
        index_of(s, s[i].username) == i,
{
    assert(has_id(s, s[i].username));
}

proof fn lemma_remove_contains(s: Seq<EntryModel>, id: Seq<char>)
    requires
        unique_ids(s),
        has_id(s, id),
    ensures
        unique_ids(s.remove(index_of(s, id))),
        s.remove(index_of(s, id)).len() == s.len() - 1,
        forall|e: EntryModel|
            s.remove(index_of(s, id)).contains(e) <==> (s.contains(e) && e.username != id),
{
    let k = index_of(s, id);
    let t = s.remove(k);
    assert forall|e: EntryModel| t.contains(e) <==> (s.contains(e) && e.username != id) by {
        if t.contains(e) {
            let j = choose|j: int| 0 <= j < t.len() && t[j] == e;
            let sj = if j < k { j } else { j + 1 };
            assert(s[sj] == e);
            assert(s.contains(e));
        }
        if s.contains(e) && e.username != id {
            let j = choose|j: int| 0 <= j < s.len() && s[j] == e;
            assert(j != k);
            if j < k {
                assert(t[j] == e);
            } else {
                assert(t[j - 1] == e);
            }
        }
    }
}

/// What stays of roster `r` after results `arr`: its records whose student
/// has no result, each still once.
proof fn lemma_remaining(r: Seq<EntryModel>, arr: Seq<Arrival>)
    requires
        unique_ids(r),
    ensures
        unique_ids(remaining_after(r, arr)),
        forall|e: EntryModel|
            #[trigger] remaining_after(r, arr).contains(e) <==> (r.contains(e) && !arrival_has(
                arr,
                e.username,
            )),
    decreases arr.len(),
{
    if arr.len() > 0 {
        let p = arr.drop_last();
        let a = arr.last();
        lemma_remaining(r, p);
        let rp = remaining_after(r, p);
        assert forall|e: EntryModel| arrival_has(arr, e.username) <==> (arrival_has(p, e.username) || a.id == e.username) by {
            if arrival_has(arr, e.username) {
                let j = choose|j: int| 0 <= j < arr.len() && arr[j].id == e.username;
                if j < arr.len() - 1 {
                    assert(p[j].id == e.username);
                }
            }
            if arrival_has(p, e.username) {
                let j = choose|j: int| 0 <= j < p.len() && p[j].id == e.username;
                assert(arr[j].id == e.username);
            }
            if a.id == e.username {
                assert(arr[arr.len() - 1].id == e.username);
            }
        }
        if has_id(rp, a.id) {
            lemma_remove_contains(rp, a.id);
        } else {
            assert forall|e: EntryModel| rp.contains(e) implies e.username != a.id by {
                let j = choose|j: int| 0 <= j < rp.len() && rp[j] == e;
                assert(rp[j].username == e.username);
            }
        }
        assert(remaining_after(r, arr) == reg_after(rp, a));
        assert forall|e: EntryModel|
            #[trigger] remaining_after(r, arr).contains(e) <==> (r.contains(e) && !arrival_has(
                arr,
                e.username,
            )) by {
            assert(rp.contains(e) <==> (r.contains(e) && !arrival_has(p, e.username)));
        }
    }
}

/// With distinct student ids, a result finds in the roster left to it the
/// same record as in the roster it started from.
proof fn lemma_base_stable(r: Seq<EntryModel>, arr: Seq<Arrival>, a: Arrival)
    requires
        unique_ids(r),
        !arrival_has(arr, a.id),
    ensures
        has_id(remaining_after(r, arr), a.id) == has_id(r, a.id),
        row_for(remaining_after(r, arr), a) == row_for(r, a),
        reg_after(remaining_after(r, arr), a).len() == remaining_after(r, arr).len() - (
        if has_id(r, a.id) {
            1int
        } else {
            0int
        }),
{
    lemma_remaining(r, arr);
    let rp = remaining_after(r, arr);
    if has_id(r, a.id) {
        let k = index_of(r, a.id);
        assert(r.contains(r[k]));
        assert(r[k].username == a.id);
        assert(rp.contains(r[k]));
        let j = choose|j: int| 0 <= j < rp.len() && rp[j] == r[k];
        lemma_unique_index(rp, j);
        assert(has_id(rp, a.id));
    }
    if has_id(rp, a.id) {
        let k = index_of(rp, a.id);
        assert(rp.contains(rp[k]));
        assert(r.contains(rp[k]));
        let j = choose|j: int| 0 <= j < r.len() && r[j] == rp[k];
        lemma_unique_index(r, j);
        lemma_remove_contains(rp, a.id);
    }
}

/// The rows of the results: with distinct student ids, the row of each
/// result depends on that result and the starting roster alone.
proof fn lemma_emitted(r: Seq<EntryModel>, arr: Seq<Arrival>)
    requires
        unique_ids(r),
        distinct_arrivals(arr),
    ensures
        emitted_by(r, arr).len() == arr.len(),
        remaining_after(r, arr).len() == r.len() - matched(r, arr),
        forall|i: int| 0 <= i < arr.len() ==> #[trigger] emitted_by(r, arr)[i] == row_for(r, arr[i]),
    decreases arr.len(),
{
    if arr.len() > 0 {
        let p = arr.drop_last();
        let a = arr.last();
        assert(distinct_arrivals(p));
        lemma_emitted(r, p);
        assert(!arrival_has(p, a.id)) by {
            if arrival_has(p, a.id) {
                let j = choose|j: int| 0 <= j < p.len() && p[j].id == a.id;
                assert(arr[j].id == arr[arr.len() - 1].id);
            }
        }
        lemma_base_stable(r, p, a);
        assert forall|i: int| 0 <= i < arr.len() implies #[trigger] emitted_by(r, arr)[i] == row_for(r, arr[i]) by {
            if i < arr.len() - 1 {
                assert(emitted_by(r, arr)[i] == emitted_by(r, p)[i]);
                assert(p[i] == arr[i]);
            }
        }
    }
}

/// Every result gives one row and every unmatched roster record one more:
/// with `total` results of distinct student ids, of which `matched` have a
/// record in a roster of `r.len()` records, the report has
/// `total + r.len() - matched` rows, and each student id of a result or of
/// the roster stands in exactly one of them.
pub proof fn lemma_report_rows(r: Seq<EntryModel>, arr: Seq<Arrival>)
    requires
        unique_ids(r),
        distinct_arrivals(arr),
    ensures
        report_of(r, arr).len() == arr.len() + r.len() - matched(r, arr),
        unique_ids(report_of(r, arr)),
        forall|id: Seq<char>|
            has_id(report_of(r, arr), id) <==> (arrival_has(arr, id) || has_id(r, id)),
{
    lemma_emitted(r, arr);
    lemma_remaining(r, arr);
    let em = emitted_by(r, arr);
    let rem = remaining_after(r, arr);
    let rep = report_of(r, arr);
    assert forall|i: int| 0 <= i < em.len() implies em[i].username == arr[i].id by {
        assert(em[i] == row_for(r, arr[i]));
    }
    assert forall|i: int, j: int| 0 <= i < rep.len() && 0 <= j < rep.len() && i != j implies rep[i].username != rep[j].username by {
        if i < em.len() {
            assert(rep[i] == em[i]);
            assert(rep[i].username == arr[i].id);
        } else {
            assert(rep[i] == rem[i - em.len()]);
            assert(rem.contains(rep[i]));
        }
        if j < em.len() {
            assert(rep[j] == em[j]);
            assert(rep[j].username == arr[j].id);
        } else {
            assert(rep[j] == rem[j - em.len()]);
            assert(rem.contains(rep[j]));
        }
        if i < em.len() && j < em.len() {
            assert(arr[i].id != arr[j].id);
        } else if i < em.len() {
            assert(arrival_has(arr, arr[i].id));
            assert(!arrival_has(arr, rep[j].username));
        } else if j < em.len() {
            assert(arrival_has(arr, arr[j].id));
            assert(!arrival_has(arr, rep[i].username));
        } else {
            assert(rem[i - em.len()].username != rem[j - em.len()].username);
        }
    }
    assert forall|id: Seq<char>| has_id(rep, id) <==> (arrival_has(arr, id) || has_id(r, id)) by {
        if has_id(rep, id) {
            let i = choose|i: int| 0 <= i < rep.len() && rep[i].username == id;
            if i >= em.len() {
                assert(rep[i] == rem[i - em.len()]);
                assert(rem.contains(rep[i]));
                assert(r.contains(rep[i]));
                let j = choose|j: int| 0 <= j < r.len() && r[j] == rep[i];
                assert(has_id(r, id));
            } else {
                assert(arr[i].id == id);
            }
        }
        if arrival_has(arr, id) {
            let j = choose|j: int| 0 <= j < arr.len() && arr[j].id == id;
            assert(rep[j] == em[j]);
            assert(rep[j].username == id);
        } else if has_id(r, id) {
            let k = choose|k: int| 0 <= k < r.len() && r[k].username == id;
            assert(r.contains(r[k]));
            assert(rem.contains(r[k]));
            let j = choose|j: int| 0 <= j < rem.len() && rem[j] == r[k];
            assert(rep[em.len() + j] == rem[j]);
        }
    }
}

/// The rows of the report: one per result, built from that result and the
/// starting roster, and the roster records of students without a result.
proof fn lemma_report_contains(r: Seq<EntryModel>, arr: Seq<Arrival>, x: EntryModel)
    requires
        unique_ids(r),
        distinct_arrivals(arr),
    ensures
        report_of(r, arr).contains(x) <==> ((exists|a: Arrival| arr.contains(a) && x == row_for(r, a))
            || (r.contains(x) && !arrival_has(arr, x.username))),
{
    lemma_emitted(r, arr);
    lemma_remaining(r, arr);
    let em = emitted_by(r, arr);
    let rem = remaining_after(r, arr);
    let rep = report_of(r, arr);
    if rep.contains(x) {
        let i = choose|i: int| 0 <= i < rep.len() && rep[i] == x;
        if i < em.len() {
            assert(arr.contains(arr[i]) && x == row_for(r, arr[i]));
        } else {
            assert(rem[i - em.len()] == x);
            assert(rem.contains(x));
        }
    }
    if exists|a: Arrival| arr.contains(a) && x == row_for(r, a) {
        let a = choose|a: Arrival| arr.contains(a) && x == row_for(r, a);
        let j = choose|j: int| 0 <= j < arr.len() && arr[j] == a;
        assert(rep[j] == em[j]);
        assert(rep.contains(x));
    }
    if r.contains(x) && !arrival_has(arr, x.username) {
        assert(rem.contains(x));
        let j = choose|j: int| 0 <= j < rem.len() && rem[j] == x;
        assert(rep[em.len() + j] == x);
        assert(rep.contains(x));
    }
}

/// The order in which results arrive does not change which rows the report
/// holds: results `arr2` that are `arr` in another order give the same set of
/// records.
pub proof fn lemma_arrival_order(r: Seq<EntryModel>, arr: Seq<Arrival>, arr2: Seq<Arrival>)
    requires
        unique_ids(r),
        distinct_arrivals(arr),
        distinct_arrivals(arr2),
        arr2.to_multiset() == arr.to_multiset(),
    ensures
        report_of(r, arr).to_set() == report_of(r, arr2).to_set(),
{
    arr.to_multiset_ensures();
    arr2.to_multiset_ensures();
    assert forall|a: Arrival| arr.contains(a) <==> arr2.contains(a) by {
        assert(arr.to_multiset().count(a) == arr2.to_multiset().count(a));
        assert(arr.contains(a) <==> arr.to_multiset().count(a) > 0);
        assert(arr2.contains(a) <==> arr2.to_multiset().count(a) > 0);
    }
    assert forall|id: Seq<char>| arrival_has(arr, id) <==> arrival_has(arr2, id) by {
        if arrival_has(arr, id) {
            let j = choose|j: int| 0 <= j < arr.len() && arr[j].id == id;
            assert(arr.contains(arr[j]));
            let k = choose|k: int| 0 <= k < arr2.len() && arr2[k] == arr[j];
            assert(arr2[k].id == id);
        }
        if arrival_has(arr2, id) {
            let j = choose|j: int| 0 <= j < arr2.len() && arr2[j].id == id;
            assert(arr2.contains(arr2[j]));
            let k = choose|k: int| 0 <= k < arr.len() && arr[k] == arr2[j];
            assert(arr[k].id == id);
        }
    }
    assert forall|x: EntryModel| report_of(r, arr).contains(x) <==> report_of(r, arr2).contains(x) by {
        lemma_report_contains(r, arr, x);
        lemma_report_contains(r, arr2, x);
    }
    assert(report_of(r, arr).to_set() =~= report_of(r, arr2).to_set());
}


/// The single consumer of execution results: it holds the roster while
/// results arrive, and remembers what arrived.
pub struct Aggregator {
    registry: Registry,
    initial: Ghost<Seq<EntryModel>>,
    arrived: Ghost<Seq<Arrival>>,
}

impl Aggregator {
    /// The roster as it stood before any result arrived.
    pub closed spec fn initial(&self) -> Seq<EntryModel> {
        self.initial@
    }

    /// The results merged so far, in order of arrival.
    pub closed spec fn arrived(&self) -> Seq<Arrival> {
        self.arrived@
    }

    /// The roster records no result has taken yet.
    pub closed spec fn remaining(&self) -> Seq<EntryModel> {
        self.registry@
    }

    /// The rows written so far.
    pub open spec fn emitted(&self) -> Seq<EntryModel> {
        emitted_by(self.initial(), self.arrived())
    }

    /// Whether what is left of the roster is what the results that arrived
    /// leave of the starting one.
    pub open spec fn consistent(&self) -> bool {
        &&& unique_ids(self.initial())
        &&& unique_ids(self.remaining())
        &&& self.remaining() == remaining_after(self.initial(), self.arrived())
    }

    /// Starts merging into the roster `registry`.
    pub fn new(registry: Registry) -> (r: Aggregator)
        requires
            registry.wf(),
        ensures
            r.consistent(),
            r.initial() == registry@,
            r.arrived() == Seq::<Arrival>::empty(),
    {
        let ghost init = registry@;
        Aggregator { registry, initial: Ghost(init), arrived: Ghost(Seq::empty()) }
    }

    /// Whether a result for student `id` needs the submission's sidecar
    /// record, the roster holding no record of that student.
    pub fn needs_sidecar(&self, id: &String) -> (r: bool)
        requires
            self.consistent(),
        ensures
            r == !has_id(self.remaining(), id@),
    {
        !self.registry.contains(id)
    }

    /// Merges one result: takes the student's record out of the roster, or
    /// else uses `fallback`, the submission's sidecar record, and returns that
    /// record with the result's student id and grader output. Where the roster
    /// has no record of the student and no fallback is given, nothing changes
    /// and `None` comes back.
    pub fn merge(&mut self, result: ExecutionResult, fallback: Option<Entry>) -> (r: Option<Entry>)
        requires
            old(self).consistent(),
        ensures
            final(self).consistent(),
            final(self).initial() == old(self).initial(),
            (has_id(old(self).remaining(), result.student_id@) || fallback is Some) ==> (r
                matches Some(row) && row@ == row_for(
                old(self).remaining(),
                arrival_of(result, fallback),
            ) && final(self).arrived() == old(self).arrived().push(arrival_of(result, fallback))
                && final(self).emitted() == old(self).emitted().push(row@)),
            !(has_id(old(self).remaining(), result.student_id@) || fallback is Some) ==> (r is None
                && final(self).arrived() == old(self).arrived() && final(self).remaining()
                == old(self).remaining()),
    {
        let ghost a = arrival_of(result, fallback);
        let ghost before = self.arrived@;
        let ghost reg0 = self.registry@;
        let base = match self.registry.remove(&result.student_id) {
            Some(e) => e,
            None => match fallback {
                Some(f) => f,
                None => {
                    return None;
                },
            },
        };
        self.arrived = Ghost(before.push(a));
        proof {
            assert(before.push(a).drop_last() =~= before);
            assert(self.registry@ == reg_after(reg0, a));
        }
        let row = base.with_result(result.student_id, result.grader_output);
        Some(row)
    }

    /// Ends the merge: the roster records that no result took, in roster
    /// order, to be written after the rows of the results.
    pub fn finish(self) -> (r: Vec<Entry>)
        requires
            self.consistent(),
        ensures
            r@.map_values(|e: Entry| e@) == self.remaining(),
            self.emitted() + r@.map_values(|e: Entry| e@) == report_of(self.initial(), self.arrived()),
    {
        self.registry.into_entries()
    }
}

} // verus!
