//! The lexicon in the order of its surfaces: the entry dictionary, and
//! the transducer that leads from a surface to its terms.

use crate::builder::{rows_of, term_of_row};
use crate::dict::{feature_views, EntryDictionary};
use crate::error::ArtifactError;
use crate::feature::{Feature, FeatureView};
use crate::row::{Row, RowBytes};
use crate::term::Term;
use crate::text::piece_bytes;
use vstd::multiset::Multiset;
use vstd::prelude::*;
use vstd::seq_lib::{to_multiset_build, to_multiset_contains};
use vstd::string::StringSliceAdditionalSpecFns;

verus! {

/// The `fst` crate's builder of a map.
#[verifier::external_type_specification]
#[verifier::external_body]
#[verifier::reject_recursive_types(W)]
pub struct ExMapBuilder<W>(fst::MapBuilder<W>);

/// The keys that a builder has taken, each with its value, in the order
/// in which they were inserted.
pub uninterp spec fn builder_keys(builder: fst::MapBuilder<Vec<u8>>) -> Seq<(Seq<u8>, u64)>;

/// The image of the transducer that maps these keys to their values.
pub uninterp spec fn built_image(keys: Seq<(Seq<u8>, u64)>) -> Seq<u8>;

/// Whether an image is one that the builder wrote.
pub open spec fn is_built_image(image: Seq<u8>) -> bool {
    exists|keys: Seq<(Seq<u8>, u64)>| #[trigger] built_image(keys) == image
}

/// Whether `a` comes before `b` in the order of the bytes: at the first
/// byte in which they differ `a` has the smaller one, or `a` ends there.
pub open spec fn bytes_less(a: Seq<u8>, b: Seq<u8>) -> bool
    decreases a.len(),
{
    if b.len() == 0 {
        false
    } else if a.len() == 0 {
        true
    } else if a[0] != b[0] {
        a[0] < b[0]
    } else {
        bytes_less(a.drop_first(), b.drop_first())
    }
}

/// `fst::MapBuilder::memory`: a builder that has taken no key.
#[verifier::external_body]
fn new_builder() -> (builder: fst::MapBuilder<Vec<u8>>)
    ensures
        builder_keys(builder) == Seq::<(Seq<u8>, u64)>::empty(),
{
    fst::MapBuilder::memory()
}

/// `fst::MapBuilder::insert`: takes a key with its value. It succeeds
/// exactly where the key comes after the last one taken, and where it
/// fails the builder has taken nothing.
#[verifier::external_body]
fn insert_key(builder: &mut fst::MapBuilder<Vec<u8>>, key: &str, value: u64) -> (inserted: Result<
    (),
    fst::Error,
>)
    ensures
        inserted is Ok <==> (builder_keys(*old(builder)).len() == 0 || bytes_less(
            builder_keys(*old(builder)).last().0,
            key.spec_bytes(),
        )),
        inserted is Ok ==> builder_keys(*final(builder)) == builder_keys(*old(builder)).push(
            (key.spec_bytes(), value),
        ),
        inserted is Err ==> builder_keys(*final(builder)) == builder_keys(*old(builder)),
{
    builder.insert(key, value)
}

/// `fst::MapBuilder::into_inner`: the image of the map of the keys taken.
/// It succeeds, because a builder in memory writes into a vector only.
#[verifier::external_body]
fn finish_builder(builder: fst::MapBuilder<Vec<u8>>) -> (finished: Result<Vec<u8>, fst::Error>)
    ensures
        finished is Ok,
        finished matches Ok(image) ==> image@ == built_image(builder_keys(builder)),
{
    builder.into_inner()
}

/// How one text stands to another in the order of the bytes.
#[derive(Debug, Clone, Copy, PartialEq, Eq, Structural)]
pub enum Rank {
    Before,
    Same,
    After,
}

/// Texts that agree in their first `n` bytes stand to each other as
/// what follows those bytes.
pub proof fn lemma_common_prefix(a: Seq<u8>, b: Seq<u8>, n: int)
    requires
        0 <= n <= a.len(),
        n <= b.len(),
        forall|k: int| 0 <= k < n ==> a[k] == b[k],
    ensures
        bytes_less(a, b) == bytes_less(a.skip(n), b.skip(n)),
        bytes_less(b, a) == bytes_less(b.skip(n), a.skip(n)),
        (a == b) == (a.skip(n) == b.skip(n)),
    decreases n,
{
    if n == 0 {
        assert(a.skip(0) =~= a);
        assert(b.skip(0) =~= b);
    } else {
        let x = a.drop_first();
        let y = b.drop_first();
        assert forall|k: int| 0 <= k < n - 1 implies x[k] == y[k] by {
            assert(a[k + 1] == b[k + 1]);
        }
        lemma_common_prefix(x, y, n - 1);
        assert(x.skip(n - 1) =~= a.skip(n));
        assert(y.skip(n - 1) =~= b.skip(n));
        assert(a[0] == b[0]);
        if a.skip(n) == b.skip(n) {
            assert(a =~= b) by {
                assert(a.len() == b.len());
                assert forall|k: int| 0 <= k < a.len() implies a[k] == b[k] by {
                    if k >= n {
                        assert(a.skip(n)[k - n] == b.skip(n)[k - n]);
                    }
                }
            }
        }
    }
}

/// Of two texts, one comes before the other or they are the same, and
/// only one of the three.
pub proof fn lemma_less_or_same(a: Seq<u8>, b: Seq<u8>)
    ensures
        bytes_less(a, b) || a == b || bytes_less(b, a),
        !(bytes_less(a, b) && bytes_less(b, a)),
        !(bytes_less(a, b) && a == b),
    decreases a.len(),
{
    if a.len() == 0 || b.len() == 0 {
        if a.len() == 0 && b.len() == 0 {
            assert(a =~= b);
        }
    } else if a[0] == b[0] {
        lemma_less_or_same(a.drop_first(), b.drop_first());
        if a.drop_first() == b.drop_first() {
            assert(a =~= seq![a[0]] + a.drop_first());
            assert(b =~= seq![b[0]] + b.drop_first());
        }
        if a == b {
            assert(a.drop_first() == b.drop_first());
        }
    }
}

/// What comes before a text comes before all that the text comes before.
pub proof fn lemma_less_transitive(a: Seq<u8>, b: Seq<u8>, c: Seq<u8>)
    requires
        bytes_less(a, b),
        bytes_less(b, c),
    ensures
        bytes_less(a, c),
    decreases a.len(),
{
    if a.len() > 0 && a[0] == b[0] && b[0] == c[0] {
        lemma_less_transitive(a.drop_first(), b.drop_first(), c.drop_first());
    }
}

/// How `a` stands to `b` in the order of their bytes.
pub fn rank_texts(a: &str, b: &str) -> (rank: Rank)
    ensures
        rank is Before <==> bytes_less(a.spec_bytes(), b.spec_bytes()),
        rank is Same <==> a.spec_bytes() == b.spec_bytes(),
        rank is After <==> bytes_less(b.spec_bytes(), a.spec_bytes()),
{
    let x = a.as_bytes();
    let y = b.as_bytes();
    let mut i: usize = 0;
    proof {
        lemma_less_or_same(x@, y@);
    }
    while i < x.len() && i < y.len()
        invariant
            i <= x.len(),
            i <= y.len(),
            x@ == a.spec_bytes(),
            y@ == b.spec_bytes(),
            forall|k: int| 0 <= k < i ==> x@[k] == y@[k],
        decreases x.len() - i,
    {
        if x[i] != y[i] {
            proof {
                lemma_less_or_same(x@, y@);
                lemma_common_prefix(x@, y@, i as int);
                let p = x@.skip(i as int);
                let q = y@.skip(i as int);
                assert(p[0] == x@[i as int]);
                assert(q[0] == y@[i as int]);
                assert(p != q);
            }
            if x[i] < y[i] {
                return Rank::Before;
            } else {
                return Rank::After;
            }
        }
        i += 1;
    }
    proof {
        lemma_common_prefix(x@, y@, i as int);
        let p = x@.skip(i as int);
        let q = y@.skip(i as int);
        if p.len() == 0 && q.len() == 0 {
            assert(p =~= q);
        }
    }
    if x.len() < y.len() {
        Rank::Before
    } else if x.len() > y.len() {
        Rank::After
    } else {
        Rank::Same
    }
}

/// Whether row `a` goes before row `b`, or is the same row: by their
/// keys, and rows with the same key by their numbers.
pub open spec fn goes_before(keys: Seq<Seq<u8>>, a: int, b: int) -> bool {
    bytes_less(keys[a], keys[b]) || (keys[a] == keys[b] && a <= b)
}

pub proof fn lemma_goes_before_transitive(keys: Seq<Seq<u8>>, a: int, b: int, c: int)
    requires
        goes_before(keys, a, b),
        goes_before(keys, b, c),
    ensures
        goes_before(keys, a, c),
{
    if bytes_less(keys[a], keys[b]) && bytes_less(keys[b], keys[c]) {
        lemma_less_transitive(keys[a], keys[b], keys[c]);
    }
}

/// Whether a list of row numbers is in the order of the rows.
pub open spec fn in_order(keys: Seq<Seq<u8>>, order: Seq<usize>) -> bool {
    &&& forall|i: int| 0 <= i < order.len() ==> (#[trigger] order[i]) < keys.len()
    &&& forall|i: int, j: int|
        0 <= i <= j < order.len() ==> goes_before(
            keys,
            (#[trigger] order[i]) as int,
            (#[trigger] order[j]) as int,
        )
}

/// Whether `order` lists every row once, in the order of the rows.
pub open spec fn sorts(keys: Seq<Seq<u8>>, order: Seq<usize>) -> bool {
    &&& in_order(keys, order)
    &&& order.len() == keys.len()
    &&& forall|k: usize| k < keys.len() ==> #[trigger] order.contains(k)
}

fn row_goes_before(keys: &Vec<&str>, a: usize, b: usize) -> (before: bool)
    requires
        a < keys@.len(),
        b < keys@.len(),
    ensures
        before == goes_before(piece_bytes(keys@), a as int, b as int),
        !before ==> goes_before(piece_bytes(keys@), b as int, a as int),
{
    assert(piece_bytes(keys@)[a as int] == keys@[a as int].spec_bytes());
    assert(piece_bytes(keys@)[b as int] == keys@[b as int].spec_bytes());
    proof {
        lemma_less_or_same(keys@[a as int].spec_bytes(), keys@[b as int].spec_bytes());
    }
    match rank_texts(keys[a], keys[b]) {
        Rank::Before => true,
        Rank::Same => a <= b,
        Rank::After => false,
    }
}

fn merge(keys: &Vec<&str>, left: &Vec<usize>, right: &Vec<usize>) -> (out: Vec<usize>)
    requires
        in_order(piece_bytes(keys@), left@),
        in_order(piece_bytes(keys@), right@),
    ensures
        in_order(piece_bytes(keys@), out@),
        out@.to_multiset() == left@.to_multiset().add(right@.to_multiset()),
{
    let ghost kb = piece_bytes(keys@);
    let mut out: Vec<usize> = Vec::new();
    let mut i: usize = 0;
    let mut j: usize = 0;
    proof {
        broadcast use vstd::multiset::group_multiset_axioms;

        assert(left@.take(0) =~= Seq::<usize>::empty());
        assert(right@.take(0) =~= Seq::<usize>::empty());
        assert(out@ =~= Seq::<usize>::empty());
        vstd::seq_lib::to_multiset_len(Seq::<usize>::empty());
        assert(Seq::<usize>::empty().to_multiset() =~= Multiset::<usize>::empty());
        assert(out@.to_multiset() =~= left@.take(0).to_multiset().add(
            right@.take(0).to_multiset(),
        ));
    }
    while i < left.len() || j < right.len()
        invariant
            i <= left.len(),
            j <= right.len(),
            kb == piece_bytes(keys@),
            in_order(kb, left@),
            in_order(kb, right@),
            in_order(kb, out@),
            out@.to_multiset() == left@.take(i as int).to_multiset().add(
                right@.take(j as int).to_multiset(),
            ),
            forall|x: int, y: int|
                0 <= x < out@.len() && i <= y < left@.len() ==> goes_before(
                    kb,
                    (#[trigger] out@[x]) as int,
                    (#[trigger] left@[y]) as int,
                ),
            forall|x: int, y: int|
                0 <= x < out@.len() && j <= y < right@.len() ==> goes_before(
                    kb,
                    (#[trigger] out@[x]) as int,
                    (#[trigger] right@[y]) as int,
                ),
        decreases left.len() - i + right.len() - j,
    {
        let from_left = if i == left.len() {
            false
        } else if j == right.len() {
            true
        } else {
            row_goes_before(keys, left[i], right[j])
        };
        let ghost before = out@;
        if from_left {
            let value = left[i];
            out.push(value);
            proof {
                to_multiset_build(before, value);
                to_multiset_build(left@.take(i as int), value);
                assert(left@.take(i + 1) =~= left@.take(i as int).push(value));
                assert(out@.to_multiset() =~= left@.take(i + 1).to_multiset().add(
                    right@.take(j as int).to_multiset(),
                ));
                assert forall|x: int, y: int|
                    0 <= x < out@.len() && j <= y < right@.len() implies goes_before(
                    kb,
                    (#[trigger] out@[x]) as int,
                    (#[trigger] right@[y]) as int,
                ) by {
                    if x == before.len() {
                        lemma_goes_before_transitive(
                            kb,
                            value as int,
                            right@[j as int] as int,
                            right@[y] as int,
                        );
                    } else {
                        assert(out@[x] == before[x]);
                    }
                }
                assert forall|x: int, y: int|
                    0 <= x < out@.len() && i + 1 <= y < left@.len() implies goes_before(
                    kb,
                    (#[trigger] out@[x]) as int,
                    (#[trigger] left@[y]) as int,
                ) by {
                    if x < before.len() {
                        assert(out@[x] == before[x]);
                    }
                }
                assert forall|x: int, y: int| 0 <= x <= y < out@.len() implies goes_before(
                    kb,
                    (#[trigger] out@[x]) as int,
                    (#[trigger] out@[y]) as int,
                ) by {
                    if y < before.len() {
                        assert(out@[x] == before[x]);
                        assert(out@[y] == before[y]);
                    } else if x < before.len() {
                        assert(out@[x] == before[x]);
                        assert(goes_before(kb, before[x] as int, left@[i as int] as int));
                    }
                }
            }
            i += 1;
        } else {
            let value = right[j];
            out.push(value);
            proof {
                to_multiset_build(before, value);
                to_multiset_build(right@.take(j as int), value);
                assert(right@.take(j + 1) =~= right@.take(j as int).push(value));
                assert(out@.to_multiset() =~= left@.take(i as int).to_multiset().add(
                    right@.take(j + 1).to_multiset(),
                ));
                assert forall|x: int, y: int|
                    0 <= x < out@.len() && i <= y < left@.len() implies goes_before(
                    kb,
                    (#[trigger] out@[x]) as int,
                    (#[trigger] left@[y]) as int,
                ) by {
                    if x == before.len() {
                        lemma_goes_before_transitive(
                            kb,
                            value as int,
                            left@[i as int] as int,
                            left@[y] as int,
                        );
                    } else {
                        assert(out@[x] == before[x]);
                    }
                }
                assert forall|x: int, y: int|
                    0 <= x < out@.len() && j + 1 <= y < right@.len() implies goes_before(
                    kb,
                    (#[trigger] out@[x]) as int,
                    (#[trigger] right@[y]) as int,
                ) by {
                    if x < before.len() {
                        assert(out@[x] == before[x]);
                    }
                }
                assert forall|x: int, y: int| 0 <= x <= y < out@.len() implies goes_before(
                    kb,
                    (#[trigger] out@[x]) as int,
                    (#[trigger] out@[y]) as int,
                ) by {
                    if y < before.len() {
                        assert(out@[x] == before[x]);
                        assert(out@[y] == before[y]);
                    } else if x < before.len() {
                        assert(out@[x] == before[x]);
                        assert(goes_before(kb, before[x] as int, right@[j as int] as int));
                    }
                }
            }
            j += 1;
        }
    }
    proof {
        assert(left@.take(left@.len() as int) =~= left@);
        assert(right@.take(right@.len() as int) =~= right@);
    }
    out
}

fn merge_sort(keys: &Vec<&str>, items: Vec<usize>) -> (sorted: Vec<usize>)
    requires
        forall|i: int| 0 <= i < items@.len() ==> (#[trigger] items@[i]) < keys@.len(),
    ensures
        in_order(piece_bytes(keys@), sorted@),
        sorted@.to_multiset() == items@.to_multiset(),
    decreases items@.len(),
{
    let ghost kb = piece_bytes(keys@);
    if items.len() <= 1 {
        proof {
            assert forall|i: int, j: int| 0 <= i <= j < items@.len() implies goes_before(
                kb,
                (#[trigger] items@[i]) as int,
                (#[trigger] items@[j]) as int,
            ) by {}
        }
        return items;
    }
    let mid: usize = items.len() / 2;
    let mut left: Vec<usize> = Vec::new();
    let mut right: Vec<usize> = Vec::new();
    let mut i: usize = 0;
    while i < items.len()
        invariant
            i <= items.len(),
            mid < items.len(),
            left@ == items@.take(
                if i <= mid {
                    i as int
                } else {
                    mid as int
                },
            ),
            right@ == if i <= mid {
                Seq::<usize>::empty()
            } else {
                items@.subrange(mid as int, i as int)
            },
        decreases items.len() - i,
    {
        if i < mid {
            left.push(items[i]);
            assert(items@.take(i + 1) =~= items@.take(i as int).push(items@[i as int]));
        } else {
            right.push(items[i]);
            assert(items@.subrange(mid as int, i + 1) =~= items@.subrange(
                mid as int,
                i as int,
            ).push(items@[i as int]));
        }
        i += 1;
    }
    proof {
        assert(left@ + right@ =~= items@);
        vstd::seq_lib::lemma_multiset_commutative(left@, right@);
    }
    let left = merge_sort(keys, left);
    let right = merge_sort(keys, right);
    merge(keys, &left, &right)
}

/// The numbers of the rows in the order of their keys, rows with the
/// same key in the order in which they stand.
pub fn sort_rows(keys: &Vec<&str>) -> (order: Vec<usize>)
    ensures
        sorts(piece_bytes(keys@), order@),
{
    let mut items: Vec<usize> = Vec::new();
    let mut i: usize = 0;
    while i < keys.len()
        invariant
            i <= keys.len(),
            items.len() == i,
            forall|k: int| 0 <= k < i ==> #[trigger] items@[k] == k,
        decreases keys.len() - i,
    {
        items.push(i);
        i += 1;
    }
    let ghost given = items@;
    let order = merge_sort(keys, items);
    proof {
        vstd::seq_lib::to_multiset_len(given);
        vstd::seq_lib::to_multiset_len(order@);
        assert forall|k: usize| k < keys@.len() implies #[trigger] order@.contains(k) by {
            assert(given[k as int] == k);
            assert(given.contains(k));
            to_multiset_contains(given, k);
            to_multiset_contains(order@, k);
        }
    }
    order
}

/// The keys of the rows in the order that `order` gives.
pub open spec fn ordered_keys(keys: Seq<Seq<u8>>, order: Seq<usize>) -> Seq<Seq<u8>> {
    Seq::new(order.len(), |i: int| keys[order[i] as int])
}

/// Position of the first key at or after `j` that is not `key`; the
/// number of keys where there is none.
pub open spec fn run_end(sorted: Seq<Seq<u8>>, key: Seq<u8>, j: int) -> int
    decreases sorted.len() - j,
{
    if 0 <= j < sorted.len() && sorted[j] == key {
        run_end(sorted, key, j + 1)
    } else {
        j
    }
}

pub proof fn lemma_run_end_bounds(sorted: Seq<Seq<u8>>, key: Seq<u8>, j: int)
    requires
        0 <= j <= sorted.len(),
    ensures
        j <= run_end(sorted, key, j) <= sorted.len(),
    decreases sorted.len() - j,
{
    if j < sorted.len() && sorted[j] == key {
        lemma_run_end_bounds(sorted, key, j + 1);
    }
}

/// Most terms that one key can have: their number is stored in 5 bits.
pub const MAX_TERMS_PER_KEY: usize = 31;

/// The value that stands for `count` terms from `start` on.
pub open spec fn key_value(start: int, count: int) -> u64 {
    ((start as u64) << 5) | (count as u64)
}

/// Whether every key from position `p` on has at most 31 terms, and the
/// number of its first term fits beside their count.
pub open spec fn runs_fit(sorted: Seq<Seq<u8>>, p: int) -> bool
    decreases sorted.len() - p,
    via runs_fit_decreases
{
    if p < 0 || p >= sorted.len() {
        true
    } else {
        let end = run_end(sorted, sorted[p], p + 1);
        end - p <= MAX_TERMS_PER_KEY && p <= 0x07FF_FFFF_FFFF_FFFF && runs_fit(sorted, end)
    }
}

#[via_fn]
proof fn runs_fit_decreases(sorted: Seq<Seq<u8>>, p: int) {
    if 0 <= p < sorted.len() {
        lemma_run_end_bounds(sorted, sorted[p], p + 1);
    }
}

/// The keys from position `p` on, each once, with the value that stands
/// for its terms.
pub open spec fn key_values(sorted: Seq<Seq<u8>>, p: int) -> Seq<(Seq<u8>, u64)>
    decreases sorted.len() - p,
    via key_values_decreases
{
    if p < 0 || p >= sorted.len() {
        Seq::empty()
    } else {
        let end = run_end(sorted, sorted[p], p + 1);
        seq![(sorted[p], key_value(p, end - p))] + key_values(sorted, end)
    }
}

#[via_fn]
proof fn key_values_decreases(sorted: Seq<Seq<u8>>, p: int) {
    if 0 <= p < sorted.len() {
        lemma_run_end_bounds(sorted, sorted[p], p + 1);
    }
}

/// The terms of the rows in the order that `order` gives.
pub open spec fn entry_terms(rows: Seq<Row>, order: Seq<usize>) -> Seq<Term> {
    Seq::new(order.len(), |i: int| term_of_row(rows[order[i] as int].bytes()))
}

/// The features of the rows in the order that `order` gives.
pub open spec fn entry_features(rows: Seq<Row>, order: Seq<usize>) -> Seq<FeatureView> {
    Seq::new(order.len(), |i: int| rows[order[i] as int].feature())
}

/// Builds the entry dictionary: the terms and the features of the rows
/// in the order that `order` gives.
pub fn build_entry_dict(rows: &Vec<Row>, order: &Vec<usize>) -> (dict: EntryDictionary)
    requires
        forall|i: int| 0 <= i < order@.len() ==> (#[trigger] order@[i]) < rows@.len(),
    ensures
        dict.terms() == entry_terms(rows@, order@),
        dict.features() == entry_features(rows@, order@),
{
    let mut terms: Vec<Term> = Vec::new();
    let mut features: Vec<Feature> = Vec::new();
    let mut i: usize = 0;
    while i < order.len()
        invariant
            i <= order.len(),
            forall|k: int| 0 <= k < order@.len() ==> (#[trigger] order@[k]) < rows@.len(),
            terms.len() == i,
            features.len() == i,
            forall|k: int|
                0 <= k < i ==> #[trigger] terms@[k] == term_of_row(
                    rows@[order@[k] as int].bytes(),
                ),
            forall|k: int|
                0 <= k < i ==> (#[trigger] features@[k])@ == rows@[order@[k] as int].feature(),
        decreases order.len() - i,
    {
        let row = &rows[order[i]];
        terms.push(Term::from(row));
        features.push(Feature::from(row));
        i += 1;
    }
    proof {
        assert(terms@ =~= entry_terms(rows@, order@));
        assert(feature_views(features@) =~= entry_features(rows@, order@));
    }
    EntryDictionary::new(terms, features)
}

proof fn lemma_runs_stay_unfit(sorted: Seq<Seq<u8>>, p: int)
    requires
        0 <= p < sorted.len(),
        !runs_fit(sorted, run_end(sorted, sorted[p], p + 1)) || run_end(sorted, sorted[p], p + 1)
            - p > MAX_TERMS_PER_KEY || p > 0x07FF_FFFF_FFFF_FFFF,
    ensures
        !runs_fit(sorted, p),
{
}

/// Builds the image of the transducer of the keys: each key leads to
/// the number of its first term and the count of its terms. It is
/// refused where a key has more than 31 terms.
pub fn build_term_fst(keys: &Vec<&str>, order: &Vec<usize>) -> (built: Result<
    Vec<u8>,
    ArtifactError,
>)
    requires
        sorts(piece_bytes(keys@), order@),
    ensures
        built is Ok <==> runs_fit(ordered_keys(piece_bytes(keys@), order@), 0),
        built matches Ok(image) ==> image@ == built_image(
            key_values(ordered_keys(piece_bytes(keys@), order@), 0),
        ),
        built matches Ok(image) ==> is_built_image(image@),
        built matches Err(e) ==> e is Malformed,
{
    let ghost kb = piece_bytes(keys@);
    let ghost sorted = ordered_keys(kb, order@);
    let mut builder = new_builder();
    let mut p: usize = 0;
    proof {
        assert(builder_keys(builder) + key_values(sorted, 0) =~= key_values(sorted, 0));
    }
    while p < order.len()
        invariant
            p <= order.len(),
            kb == piece_bytes(keys@),
            sorted == ordered_keys(kb, order@),
            sorts(kb, order@),
            builder_keys(builder) + key_values(sorted, p as int) == key_values(sorted, 0),
            runs_fit(sorted, p as int) == runs_fit(sorted, 0),
            p > 0 ==> builder_keys(builder).len() > 0 && builder_keys(builder).last().0
                == sorted[p - 1],
            0 < p < order.len() ==> sorted[p - 1] != sorted[p as int],
            p == 0 ==> builder_keys(builder).len() == 0,
        decreases order.len() - p,
    {
        let key = keys[order[p]];
        assert(kb[order@[p as int] as int] == key.spec_bytes());
        assert(sorted[p as int] == key.spec_bytes());
        let mut end: usize = p + 1;
        while end < order.len() && same_key(keys, order[end], key)
            invariant
                p < end <= order.len(),
                kb == piece_bytes(keys@),
                sorted == ordered_keys(kb, order@),
                sorts(kb, order@),
                sorted[p as int] == key.spec_bytes(),
                forall|k: int| p <= k < end ==> sorted[k] == key.spec_bytes(),
                run_end(sorted, sorted[p as int], end as int) == run_end(
                    sorted,
                    sorted[p as int],
                    p + 1,
                ),
            decreases order.len() - end,
        {
            end += 1;
        }
        let count: usize = end - p;
        if count > MAX_TERMS_PER_KEY || (p as u64) > 0x07FF_FFFF_FFFF_FFFF {
            proof {
                lemma_runs_stay_unfit(sorted, p as int);
            }
            return Err(ArtifactError::Malformed);
        }
        let value: u64 = ((p as u64) << 5) | (count as u64);
        let ghost before = builder_keys(builder);
        proof {
            if p > 0 {
                assert(goes_before(kb, order@[p - 1] as int, order@[p as int] as int));
                assert(sorted[p - 1] == kb[order@[p - 1] as int]);
                assert(bytes_less(sorted[p - 1], key.spec_bytes()));
            }
        }
        match insert_key(&mut builder, key, value) {
            Ok(_) => {},
            Err(e) => {
                return Err(ArtifactError::FstBuilderError(e));
            },
        }
        proof {
            assert(before.push((key.spec_bytes(), value)) + key_values(sorted, end as int)
                =~= before + (seq![(key.spec_bytes(), value)] + key_values(sorted, end as int)));
            assert(sorted[end - 1] == key.spec_bytes());
        }
        p = end;
    }
    proof {
        assert(builder_keys(builder) + Seq::<(Seq<u8>, u64)>::empty() =~= builder_keys(builder));
    }
    match finish_builder(builder) {
        Ok(image) => Ok(image),
        Err(e) => Err(ArtifactError::FstBuilderError(e)),
    }
}

fn same_key(keys: &Vec<&str>, row: usize, key: &str) -> (same: bool)
    requires
        row < keys@.len(),
    ensures
        same == (piece_bytes(keys@)[row as int] == key.spec_bytes()),
{
    assert(piece_bytes(keys@)[row as int] == keys@[row as int].spec_bytes());
    match rank_texts(keys[row], key) {
        Rank::Same => true,
        _ => false,
    }
}

/// The surfaces of a list of rows.
pub open spec fn surface_keys(rows: Seq<Row>) -> Seq<Seq<u8>> {
    rows.map_values(|row: Row| row.surface_form.spec_bytes())
}

/// The rows of a list of parsed rows, with their texts as bytes.
pub open spec fn row_views(rows: Seq<Row>) -> Seq<RowBytes> {
    rows.map_values(|row: Row| row.bytes())
}

proof fn lemma_rows_stay_unread(lines: Seq<Seq<u8>>, n: int, m: int)
    requires
        0 <= n <= m,
        rows_of(lines, n) is None,
    ensures
        rows_of(lines, m) is None,
    decreases m - n,
{
    if n < m {
        lemma_rows_stay_unread(lines, n, m - 1);
    }
}

/// Reads the lines of the lexicon sources into rows, and finds the order
/// of the rows by their surfaces.
pub fn fill_entry_maps<'a>(lines: &Vec<&'a str>) -> (filled: Result<
    (Vec<Row<'a>>, Vec<usize>),
    ArtifactError,
>)
    ensures
        match filled {
            Ok((rows, order)) => rows_of(piece_bytes(lines@), lines@.len() as int) == Some(
                row_views(rows@),
            ) && sorts(surface_keys(rows@), order@),
            Err(e) => rows_of(piece_bytes(lines@), lines@.len() as int) is None && e is Malformed,
        },
{
    let ghost all = piece_bytes(lines@);
    let mut rows: Vec<Row<'a>> = Vec::new();
    let mut keys: Vec<&'a str> = Vec::new();
    let mut n: usize = 0;
    proof {
        assert(row_views(rows@) =~= Seq::<RowBytes>::empty());
        assert(piece_bytes(keys@) =~= surface_keys(rows@));
    }
    while n < lines.len()
        invariant
            n <= lines.len(),
            all == piece_bytes(lines@),
            rows_of(all, n as int) == Some(row_views(rows@)),
            piece_bytes(keys@) == surface_keys(rows@),
        decreases lines.len() - n,
    {
        assert(all[n as int] == lines@[n as int].spec_bytes());
        let row = match Row::try_from(lines[n]) {
            Ok(row) => row,
            Err(_) => {
                proof {
                    lemma_rows_stay_unread(all, n + 1, all.len() as int);
                }
                return Err(ArtifactError::Malformed);
            },
        };
        let ghost old_rows = rows@;
        let ghost old_keys = keys@;
        keys.push(row.surface_form);
        rows.push(row);
        proof {
            assert(row_views(rows@) =~= row_views(old_rows).push(row.bytes()));
            assert(piece_bytes(keys@) =~= piece_bytes(old_keys).push(
                row.surface_form.spec_bytes(),
            ));
            assert(surface_keys(rows@) =~= surface_keys(old_rows).push(
                row.surface_form.spec_bytes(),
            ));
        }
        n += 1;
    }
    let order = sort_rows(&keys);
    Ok((rows, order))
}

/// The surfaces of the rows.
pub fn surfaces_of<'a>(rows: &Vec<Row<'a>>) -> (keys: Vec<&'a str>)
    ensures
        piece_bytes(keys@) == surface_keys(rows@),
{
    let mut keys: Vec<&'a str> = Vec::new();
    let mut i: usize = 0;
    while i < rows.len()
        invariant
            i <= rows.len(),
            keys.len() == i,
            forall|k: int| 0 <= k < i ==> keys@[k] == (#[trigger] rows@[k]).surface_form,
        decreases rows.len() - i,
    {
        keys.push(rows[i].surface_form);
        i += 1;
    }
    assert(piece_bytes(keys@) =~= surface_keys(rows@));
    keys
}

} // verus!
