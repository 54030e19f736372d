//! Storage for graphlet occurrence counts.
//!
//! A counter maps encoded graphlet keys to occurrence counts.  The dense
//! strategy used here backs the mapping with an array of length
//! `maximal_hash + 1`, indexed directly by key.  Counts saturate at
//! `usize::MAX` instead of overflowing; on every realistic input they are
//! exact.  Merging two counters adds them key-wise, and that merge is
//! commutative and associative, so per-edge counters may be reduced in any
//! order or partition.

use vstd::prelude::*;

use vstd::string::StringExecFns;

use crate::graphlet_set::{ExtendedGraphletType, GraphletSet};
use crate::perfect_graphlet_hash::{lemma_powers_le_maximal, spec_decode_kind, spec_maximal_hash};
use crate::utils::{sat_cap, spec_decimal, usize_to_string};

verus! {

/// Key-wise saturating sum of two equally long count arrays.
pub open spec fn spec_merge(a: Seq<usize>, b: Seq<usize>) -> Seq<usize>
    recommends
        a.len() == b.len(),
{
    Seq::new(a.len(), |i: int| sat_cap(a[i] + b[i]))
}

/// Law: merging count arrays is commutative.
pub proof fn lemma_merge_commutative(a: Seq<usize>, b: Seq<usize>)
    requires
        a.len() == b.len(),
    ensures
        spec_merge(a, b) == spec_merge(b, a),
{
    assert(spec_merge(a, b) =~= spec_merge(b, a));
}

/// Law: merging count arrays is associative, so accumulating any partition
/// of a workload in any order yields the same totals as a single
/// sequential accumulation.
pub proof fn lemma_merge_associative(a: Seq<usize>, b: Seq<usize>, c: Seq<usize>)
    requires
        a.len() == b.len(),
        b.len() == c.len(),
    ensures
        spec_merge(spec_merge(a, b), c) == spec_merge(a, spec_merge(b, c)),
{
    assert(spec_merge(spec_merge(a, b), c) =~= spec_merge(a, spec_merge(b, c)));
}

/// Law: the empty counter is a neutral element of the merge.
pub proof fn lemma_merge_identity(a: Seq<usize>, z: Seq<usize>)
    requires
        a.len() == z.len(),
        forall|i: int| 0 <= i < z.len() ==> z[i] == 0,
    ensures
        spec_merge(a, z) == a,
{
    assert(spec_merge(a, z) =~= a);
}

/// The name of the extended category with the given ordinal value; empty
/// for values outside the enumeration.
pub open spec fn spec_kind_name_of(idx: int) -> Seq<char> {
    if idx == 0 {
        ExtendedGraphletType::Triad.spec_name()
    } else if idx == 1 {
        ExtendedGraphletType::Triangle.spec_name()
    } else if idx == 2 {
        ExtendedGraphletType::FourPathEdge.spec_name()
    } else if idx == 3 {
        ExtendedGraphletType::FourPathCenter.spec_name()
    } else if idx == 4 {
        ExtendedGraphletType::FourStar.spec_name()
    } else if idx == 5 {
        ExtendedGraphletType::FourCycle.spec_name()
    } else if idx == 6 {
        ExtendedGraphletType::TailedTriTail.spec_name()
    } else if idx == 7 {
        ExtendedGraphletType::TailedTriCenter.spec_name()
    } else if idx == 8 {
        ExtendedGraphletType::TailedTriEdge.spec_name()
    } else if idx == 9 {
        ExtendedGraphletType::ChordalCycleEdge.spec_name()
    } else if idx == 10 {
        ExtendedGraphletType::ChordalCycleCenter.spec_name()
    } else if idx == 11 {
        ExtendedGraphletType::FourClique.spec_name()
    } else {
        Seq::empty()
    }
}

/// The report line of one key: the category name carried by the key's
/// kind digit, a separator, the decimal count, and a newline; keys with
/// a zero count produce nothing.
pub open spec fn spec_report_line(counts: Seq<usize>, l: usize, k: int) -> Seq<char> {
    if counts[k] == 0 {
        Seq::empty()
    } else {
        spec_kind_name_of(spec_decode_kind(k, l as int)) + ": "@ + spec_decimal(counts[k] as nat)
            + "\n"@
    }
}

/// The report of the first `upto` keys, in ascending key order.
pub open spec fn spec_report(counts: Seq<usize>, l: usize, upto: int) -> Seq<char>
    decreases upto,
{
    if upto <= 0 {
        Seq::empty()
    } else {
        spec_report(counts, l, upto - 1) + spec_report_line(counts, l, upto - 1)
    }
}

/// Every key with a non-zero count carries a kind digit inside the
/// extended enumeration.
pub open spec fn spec_report_ok(counts: Seq<usize>, l: usize) -> bool {
    forall|k: int|
        0 <= k < counts.len() && counts[k] > 0 ==> spec_decode_kind(k, l as int)
            < ExtendedGraphletType::spec_number_of_graphlets()
}

/// Trait defining characteristics of a counter of graphlets.
///
/// Many implementations are possible for this trait depending on the
/// expected graph topologies.
pub trait GraphLetCounter: Sized {
    /// The per-key counts held by this counter.
    spec fn spec_counts(&self) -> Seq<usize>;

    /// The number of node labels this counter was sized for.
    spec fn spec_number_of_elements(&self) -> nat;

    /// The counter is well formed: sized to hold every key of the extended
    /// graphlet enumeration for its label count.
    spec fn wf(&self) -> bool;

    /// Create a new counter object able to hold every key that the given
    /// number of node labels can produce.
    fn with_number_of_elements(number_of_elements: usize) -> (r: Self)
        requires
            number_of_elements >= 2,
            spec_maximal_hash(
                ExtendedGraphletType::spec_number_of_graphlets(),
                number_of_elements as int,
            ) < usize::MAX,
        ensures
            r.wf(),
            r.spec_number_of_elements() == number_of_elements,
            r.spec_counts().len() == spec_maximal_hash(
                ExtendedGraphletType::spec_number_of_graphlets(),
                number_of_elements as int,
            ) + 1,
            forall|k: int| 0 <= k < r.spec_counts().len() ==> r.spec_counts()[k] == 0,
    ;

    /// Inserts the provided graphlet into the counter, counting it once.
    fn insert(&mut self, graphlet: usize)
        requires
            old(self).wf(),
            graphlet < old(self).spec_counts().len(),
        ensures
            final(self).wf(),
            final(self).spec_number_of_elements() == old(self).spec_number_of_elements(),
            final(self).spec_counts() == old(self).spec_counts().update(
                graphlet as int,
                sat_cap(old(self).spec_counts()[graphlet as int] + 1),
            ),
    ;

    /// Inserts the provided graphlet into the counter, counting it the
    /// given number of times; counting zero times changes nothing.
    fn insert_count(&mut self, graphlet: usize, count: usize)
        requires
            old(self).wf(),
            graphlet < old(self).spec_counts().len(),
        ensures
            final(self).wf(),
            final(self).spec_number_of_elements() == old(self).spec_number_of_elements(),
            final(self).spec_counts() == old(self).spec_counts().update(
                graphlet as int,
                sat_cap(old(self).spec_counts()[graphlet as int] + count),
            ),
    ;

    /// Returns the number of occurrences counted for the provided graphlet.
    fn get_number_of_graphlets(&self, graphlet: usize) -> (r: usize)
        requires
            self.wf(),
            graphlet < self.spec_counts().len(),
        ensures
            r == self.spec_counts()[graphlet as int],
    ;

    /// Returns every graphlet with a non-zero count, as `(key, count)`
    /// pairs in ascending key order.
    fn iter_graphlets_and_counts(&self) -> (r: Vec<(usize, usize)>)
        requires
            self.wf(),
        ensures
            forall|i: int|
                0 <= i < r@.len() ==> (#[trigger] r@[i]).0 < self.spec_counts().len()
                    && r@[i].1 == self.spec_counts()[r@[i].0 as int] && r@[i].1 > 0,
            forall|i: int, j: int| 0 <= i < j < r@.len() ==> r@[i].0 < r@[j].0,
            forall|k: int|
                0 <= k < self.spec_counts().len() && self.spec_counts()[k] > 0 ==> exists|i: int|
                    0 <= i < r@.len() && (#[trigger] r@[i]).0 == k,
    ;

    /// Merges another counter of the same shape into this one by key-wise
    /// saturating addition.
    fn merge(&mut self, other: &Self)
        requires
            old(self).wf(),
            other.wf(),
            old(self).spec_number_of_elements() == other.spec_number_of_elements(),
            old(self).spec_counts().len() == other.spec_counts().len(),
        ensures
            final(self).wf(),
            final(self).spec_number_of_elements() == old(self).spec_number_of_elements(),
            final(self).spec_counts() == spec_merge(old(self).spec_counts(), other.spec_counts()),
    ;

    /// Returns an extensive report describing the counted graphlets: one
    /// line per non-zero key, in ascending key order, naming the key's
    /// category and its count.  Keys whose kind digit falls outside the
    /// enumeration make the whole report an error.
    fn get_report(&self, number_of_elements: usize) -> (r: Result<String, String>)
        requires
            self.wf(),
            number_of_elements == self.spec_number_of_elements(),
        ensures
            r is Ok <==> spec_report_ok(self.spec_counts(), number_of_elements),
            r matches Ok(s) ==> s@ == spec_report(
                self.spec_counts(),
                number_of_elements,
                self.spec_counts().len() as int,
            ),
    ;
}

/// The dense counter: a fixed-size array of length `maximal_hash + 1`,
/// indexed directly by encoded key.
pub struct DenseGraphletCounter {
    /// Slot `k` holds the occurrence count of the graphlet key `k`.
    pub counts: Vec<usize>,
    /// The number of node labels the counter was sized for.
    pub number_of_elements: usize,
}

impl GraphLetCounter for DenseGraphletCounter {
    open spec fn spec_counts(&self) -> Seq<usize> {
        self.counts@
    }

    open spec fn spec_number_of_elements(&self) -> nat {
        self.number_of_elements as nat
    }

    open spec fn wf(&self) -> bool {
        &&& self.number_of_elements >= 2
        &&& spec_maximal_hash(
            ExtendedGraphletType::spec_number_of_graphlets(),
            self.number_of_elements as int,
        ) < usize::MAX
        &&& self.counts@.len() == spec_maximal_hash(
            ExtendedGraphletType::spec_number_of_graphlets(),
            self.number_of_elements as int,
        ) + 1
    }

    fn with_number_of_elements(number_of_elements: usize) -> (r: DenseGraphletCounter) {
        let size = <(usize, usize, usize, usize) as crate::perfect_graphlet_hash::PerfectGraphletHash<
            ExtendedGraphletType,
        >>::maximal_hash(number_of_elements);
        proof {
            lemma_powers_le_maximal(
                ExtendedGraphletType::spec_number_of_graphlets(),
                number_of_elements as int,
            );
        }
        let mut counts: Vec<usize> = Vec::new();
        let mut k: usize = 0;
        while k <= size
            invariant
                size < usize::MAX,
                k <= size + 1,
                counts@.len() == k,
                forall|i: int| 0 <= i < k ==> counts@[i] == 0,
            decreases size - k + 1,
        {
            counts.push(0);
            k = k + 1;
        }
        DenseGraphletCounter { counts, number_of_elements }
    }

    fn insert(&mut self, graphlet: usize) {
        self.insert_count(graphlet, 1);
    }

    fn insert_count(&mut self, graphlet: usize, count: usize) {
        let current = self.counts[graphlet];
        self.counts.set(graphlet, current.saturating_add(count));
    }

    fn get_number_of_graphlets(&self, graphlet: usize) -> (r: usize) {
        self.counts[graphlet]
    }

    fn iter_graphlets_and_counts(&self) -> (r: Vec<(usize, usize)>) {
        let mut r: Vec<(usize, usize)> = Vec::new();
        let mut k: usize = 0;
        while k < self.counts.len()
            invariant
                k <= self.counts@.len(),
                forall|i: int|
                    0 <= i < r@.len() ==> (#[trigger] r@[i]).0 < k && r@[i].1
                        == self.counts@[r@[i].0 as int] && r@[i].1 > 0,
                forall|i: int, j: int| 0 <= i < j < r@.len() ==> r@[i].0 < r@[j].0,
                forall|kk: int|
                    0 <= kk < k && self.counts@[kk] > 0 ==> exists|i: int|
                        0 <= i < r@.len() && (#[trigger] r@[i]).0 == kk,
            decreases self.counts@.len() - k,
        {
            let c = self.counts[k];
            if c > 0 {
                let ghost old_r = r@;
                r.push((k, c));
                proof {
                    assert forall|kk: int|
                        0 <= kk < k + 1 && self.counts@[kk] > 0 implies exists|i: int|
                        0 <= i < r@.len() && (#[trigger] r@[i]).0 == kk by {
                        if kk < k {
                            let i = choose|i: int|
                                0 <= i < old_r.len() && (#[trigger] old_r[i]).0 == kk;
                            assert(r@[i].0 == kk);
                        } else {
                            assert(r@[r@.len() - 1].0 == kk);
                        }
                    }
                }
            }
            k = k + 1;
        }
        r
    }

    fn merge(&mut self, other: &DenseGraphletCounter) {
        let mut k: usize = 0;
        let ghost initial = self.counts@;
        while k < self.counts.len()
            invariant
                k <= self.counts@.len(),
                self.counts@.len() == initial.len(),
                other.counts@.len() == initial.len(),
                self.number_of_elements == old(self).number_of_elements,
                forall|i: int|
                    k <= i < initial.len() ==> (#[trigger] self.counts@[i]) == initial[i],
                forall|i: int|
                    0 <= i < k ==> (#[trigger] self.counts@[i]) == sat_cap(
                        initial[i] + other.counts@[i],
                    ),
            decreases self.counts@.len() - k,
        {
            let current = self.counts[k];
            self.counts.set(k, current.saturating_add(other.counts[k]));
            k = k + 1;
        }
        proof {
            assert(self.counts@ =~= spec_merge(initial, other.counts@));
        }
    }

    fn get_report(&self, number_of_elements: usize) -> (r: Result<String, String>) {
        let l = number_of_elements;
        proof {
            lemma_powers_le_maximal(ExtendedGraphletType::spec_number_of_graphlets(), l as int);
        }
        let l2 = l * l;
        let l3 = l2 * l;
        let l4 = l3 * l;
        let mut report = String::new();
        let mut k: usize = 0;
        while k < self.counts.len()
            invariant
                self.wf(),
                l == number_of_elements,
                l == self.spec_number_of_elements(),
                l2 == l * l,
                l3 == l * l * l,
                l4 == l * l * l * l,
                l4 >= 1,
                k <= self.counts@.len(),
                report@ == spec_report(self.counts@, l, k as int),
                forall|kk: int|
                    0 <= kk < k && self.counts@[kk] > 0 ==> spec_decode_kind(kk, l as int)
                        < ExtendedGraphletType::spec_number_of_graphlets(),
            decreases self.counts@.len() - k,
        {
            let count = self.counts[k];
            if count > 0 {
                let kind_digit = k / l4;
                match ExtendedGraphletType::from_index(kind_digit) {
                    None => {
                        proof {
                            assert(spec_decode_kind(k as int, l as int) == kind_digit as int);
                            assert(!spec_report_ok(self.counts@, l));
                        }
                        return Err(
                            String::from_str(
                                "a counted key carries a kind digit outside the graphlet enumeration",
                            ),
                        );
                    },
                    Some(kind) => {
                        let ghost before = report@;
                        report.append(kind.name());
                        report.append(": ");
                        report.append(usize_to_string(count).as_str());
                        report.append("\n");
                        proof {
                            assert(kind.spec_name() == spec_kind_name_of(kind_digit as int));
                            assert(report@ =~= before + spec_report_line(
                                self.counts@,
                                l,
                                k as int,
                            ));
                        }
                    },
                }
            }
            k = k + 1;
        }
        proof {
            assert(report@ == spec_report(self.counts@, l, self.counts@.len() as int));
        }
        Ok(report)
    }
}

} // verus!
