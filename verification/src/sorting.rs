//! Ordering paths by their file names as people read the numbers in them.
use vstd::prelude::*;
use std::cmp::Ordering;

use crate::paths::{file_name_spec, filename};
use crate::cropper::lemma_insert_multiset;
use crate::text::{all_digits, digits_value};

verus! {

/// `human_sort::compare` of two texts.
pub uninterp spec fn human_order(a: Seq<char>, b: Seq<char>) -> Ordering;

/// Every run of ASCII digits in the text reads as a number that fits a
/// `u32`.
pub open spec fn digit_runs_fit(s: Seq<char>) -> bool {
    forall|i: int, j: int|
        0 <= i <= j <= s.len() && #[trigger] all_digits(s.subrange(i, j)) ==> digits_value(s.subrange(i, j))
            <= u32::MAX
}

/// `human_sort::compare`: compares texts character by character, reading
/// the runs of digits where they differ as numbers; its result is named
/// `human_order` and nothing more is stated of it. It reads those runs into
/// a `u32` and overflows on longer ones, which the `requires` rules out.
#[verifier::external_body]
fn human_compare(a: &str, b: &str) -> (r: Ordering)
    requires
        digit_runs_fit(a@),
        digit_runs_fit(b@),
    ensures
        r == human_order(a@, b@),
{
    human_sort::compare(a, b)
}

pub open spec fn human_lt(a: Seq<char>, b: Seq<char>) -> bool {
    human_order(a, b) == Ordering::Less
}

pub open spec fn human_gt(a: Seq<char>, b: Seq<char>) -> bool {
    human_order(a, b) == Ordering::Greater
}

pub open spec fn human_eq(a: Seq<char>, b: Seq<char>) -> bool {
    human_order(a, b) == Ordering::Equal
}

fn human_less(a: &str, b: &str) -> (r: bool)
    requires
        digit_runs_fit(a@),
        digit_runs_fit(b@),
    ensures
        r == human_lt(a@, b@),
{
    match human_compare(a, b) {
        Ordering::Less => true,
        _ => false,
    }
}

/// The comparison orders texts consistently: `a` before `b` exactly when
/// `b` after `a`, and it is transitive.
pub open spec fn human_order_consistent() -> bool {
    &&& forall|a: Seq<char>, b: Seq<char>| #[trigger] human_lt(a, b) <==> #[trigger] human_gt(b, a)
    &&& forall|a: Seq<char>, b: Seq<char>, c: Seq<char>|
        #[trigger] human_lt(a, b) && !#[trigger] human_gt(b, c) ==> human_lt(a, c)
}

/// The file name of a path that has one.
pub open spec fn name_of(p: String) -> Seq<char> {
    file_name_spec(p@).unwrap()
}

/// Every path has a file name whose runs of digits fit a `u32`.
pub open spec fn sortable_paths(v: Seq<String>) -> bool {
    forall|i: int|
        0 <= i < v.len() ==> (#[trigger] file_name_spec(v[i]@)).is_some() && digit_runs_fit(name_of(v[i]))
}

/// No path comes after a later one by the order of their file names.
pub open spec fn sorted_by_name(v: Seq<String>) -> bool {
    forall|i: int, j: int| 0 <= i < j < v.len() ==> !human_gt(name_of(#[trigger] v[i]), name_of(#[trigger] v[j]))
}

/// Paths whose file names compare equal keep their order: `idx` gives the
/// position each path had before.
pub open spec fn stable_by_name(v: Seq<String>, idx: Seq<int>) -> bool {
    forall|i: int, j: int|
        0 <= i < j < v.len() && human_eq(name_of(#[trigger] v[i]), name_of(#[trigger] v[j])) ==> idx[i] < idx[j]
}

/// Paths that can be ordered by the numbers in their file names.
pub trait PathBufNumericSort: Sized {
    spec fn sortable(&self) -> bool;

    spec fn sorted_from(&self, before: Self) -> bool;

    fn numeric_sort(&mut self)
        requires
            old(self).sortable(),
        ensures
            final(self).sorted_from(*old(self)),
    ;
}

impl PathBufNumericSort for Vec<String> {
    open spec fn sortable(&self) -> bool {
        sortable_paths(self@)
    }

    /// The same paths, ordered stably by file name when the comparison is
    /// consistent.
    open spec fn sorted_from(&self, before: Self) -> bool {
        &&& self@.to_multiset() == before@.to_multiset()
        &&& human_order_consistent() ==> sorted_by_name(self@)
        &&& exists|idx: Seq<int>|
            #[trigger] crate::config::is_permutation_by(before@, self@, idx) && (human_order_consistent()
                ==> stable_by_name(self@, idx))
    }

    fn numeric_sort(&mut self) {
        broadcast use vstd::seq_lib::group_to_multiset_ensures;
        let n = self.len();
        let mut out: Vec<String> = Vec::new();
        let ghost mut idx: Seq<int> = Seq::empty();
        for i in 0..n
            invariant
                n == self@.len(),
                sortable_paths(self@),
                sortable_paths(out@),
                out@.to_multiset() == self@.take(i as int).to_multiset(),
                human_order_consistent() ==> sorted_by_name(out@),
                idx.len() == out@.len(),
                out@.len() == i,
                forall|q: int| 0 <= q < idx.len() ==> 0 <= #[trigger] idx[q] < i && out@[q] == self@[idx[q]],
                forall|q1: int, q2: int|
                    0 <= q1 < idx.len() && 0 <= q2 < idx.len() && q1 != q2 ==> idx[q1] != idx[q2],
                human_order_consistent() ==> stable_by_name(out@, idx),
        {
            let x = self[i].clone();
            assert(file_name_spec(self@[i as int]@).is_some());
            let xn = filename(x.as_str());
            assert(xn@ == name_of(x));
            let mut p: usize = 0;
            while p < out.len()
                invariant
                    p <= out@.len(),
                    sortable_paths(out@),
                    digit_runs_fit(xn@),
                    forall|q: int| 0 <= q < p ==> !human_lt(xn@, name_of(#[trigger] out@[q])),
                ensures
                    p <= out@.len(),
                    forall|q: int| 0 <= q < p ==> !human_lt(xn@, name_of(#[trigger] out@[q])),
                    p < out@.len() ==> human_lt(xn@, name_of(out@[p as int])),
                decreases out@.len() - p,
            {
                assert(file_name_spec(out@[p as int]@).is_some());
                let on = filename(out[p].as_str());
                if human_less(xn.as_str(), on.as_str()) {
                    break;
                }
                p = p + 1;
            }
            let ghost before = out@;
            let ghost old_idx = idx;
            proof {
                lemma_insert_multiset(before, p as int, x);
                before.insert_ensures(p as int, x);
                self@.take(i as int).to_multiset_ensures();
                old_idx.insert_ensures(p as int, i as int);
                idx = old_idx.insert(p as int, i as int);
            }
            out.insert(p, x);
            proof {
                assert forall|q: int| 0 <= q < idx.len() implies 0 <= #[trigger] idx[q] < i + 1 && out@[q] == self@[idx[q]] by {
                    if q < p {
                        assert(idx[q] == old_idx[q]);
                    } else if q > p {
                        assert(idx[q] == old_idx[q - 1]);
                    }
                }
                assert forall|q1: int, q2: int|
                    0 <= q1 < idx.len() && 0 <= q2 < idx.len() && q1 != q2 implies idx[q1] != idx[q2] by {
                    if q1 != p && q2 != p {
                        let a1 = if q1 < p { q1 } else { q1 - 1 };
                        let a2 = if q2 < p { q2 } else { q2 - 1 };
                        assert(idx[q1] == old_idx[a1]);
                        assert(idx[q2] == old_idx[a2]);
                    } else if q1 == p {
                        let a2 = if q2 < p { q2 } else { q2 - 1 };
                        assert(idx[q2] == old_idx[a2]);
                    } else {
                        let a1 = if q1 < p { q1 } else { q1 - 1 };
                        assert(idx[q1] == old_idx[a1]);
                    }
                }
            }
            assert(self@.take(i + 1) =~= self@.take(i as int).push(self@[i as int]));
            assert(sortable_paths(out@)) by {
                assert forall|k: int| 0 <= k < out@.len() implies (#[trigger] file_name_spec(out@[k]@)).is_some()
                    && digit_runs_fit(name_of(out@[k])) by {
                    if k < p {
                        assert(out@[k] == before[k]);
                    } else if k > p {
                        assert(out@[k] == before[k - 1]);
                    }
                }
            }
            proof {
                if human_order_consistent() {
                    assert forall|a: int, b: int| 0 <= a < b < out@.len() implies !human_gt(
                        name_of(#[trigger] out@[a]),
                        name_of(#[trigger] out@[b]),
                    ) by {
                        if a < p && b < p {
                            assert(out@[a] == before[a] && out@[b] == before[b]);
                        } else if a < p && b == p {
                            assert(out@[a] == before[a]);
                            assert(!human_lt(xn@, name_of(before[a])));
                        } else if a < p && b > p {
                            assert(out@[a] == before[a] && out@[b] == before[b - 1]);
                        } else if a == p {
                            assert(out@[b] == before[b - 1]);
                            assert(human_lt(xn@, name_of(before[p as int])));
                            if b - 1 > p {
                                assert(!human_gt(name_of(before[p as int]), name_of(before[b - 1])));
                            }
                            assert(human_lt(xn@, name_of(before[b - 1])));
                        } else {
                            assert(out@[a] == before[a - 1] && out@[b] == before[b - 1]);
                        }
                    }
                    assert forall|a: int, b: int|
                        0 <= a < b < out@.len() && human_eq(
                            name_of(#[trigger] out@[a]),
                            name_of(#[trigger] out@[b]),
                        ) implies idx[a] < idx[b] by {
                        if a < p && b < p {
                            assert(out@[a] == before[a] && out@[b] == before[b]);
                            assert(idx[a] == old_idx[a] && idx[b] == old_idx[b]);
                        } else if a < p && b == p {
                            assert(idx[a] == old_idx[a]);
                        } else if a < p && b > p {
                            assert(out@[a] == before[a] && out@[b] == before[b - 1]);
                            assert(idx[a] == old_idx[a] && idx[b] == old_idx[b - 1]);
                        } else if a == p {
                            assert(out@[b] == before[b - 1]);
                            assert(human_lt(xn@, name_of(before[p as int])));
                            if b - 1 > p {
                                assert(!human_gt(name_of(before[p as int]), name_of(before[b - 1])));
                            }
                            assert(human_lt(xn@, name_of(before[b - 1])));
                        } else {
                            assert(out@[a] == before[a - 1] && out@[b] == before[b - 1]);
                            assert(idx[a] == old_idx[a - 1] && idx[b] == old_idx[b - 1]);
                        }
                    }
                }
            }
        }
        assert(self@.take(n as int) =~= self@);
        proof {
            assert(crate::config::is_permutation_by(self@, out@, idx));
        }
        *self = out;
    }
}

} // verus!
