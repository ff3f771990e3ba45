//! The dictionary of unknown words: for each character category, the
//! terms that a run of its characters may stand for.

use crate::dict::feature_views;
use crate::feature::{Feature, FeatureView};
use crate::term::{Term, TermId};
use crate::text::str_eq;
use vstd::prelude::*;

verus! {

/// The terms of one category, each with its id.
pub type Bucket = Vec<(TermId, Term)>;

/// A list of buckets with the names of their categories as characters.
pub open spec fn bucket_views(entries: Seq<(String, Bucket)>) -> Seq<(Seq<char>, Seq<(TermId, Term)>)> {
    entries.map_values(|e: (String, Bucket)| (e.0@, e.1@))
}

/// Position of the last of the first `n` entries that is named `key`.
pub open spec fn last_named(
    entries: Seq<(Seq<char>, Seq<(TermId, Term)>)>,
    key: Seq<char>,
    n: int,
) -> Option<int>
    decreases n,
{
    if n <= 0 {
        None
    } else if entries[n - 1].0 == key {
        Some(n - 1)
    } else {
        last_named(entries, key, n - 1)
    }
}

/// Terms by category name, and the features of each term by its id.
#[derive(Debug)]
pub struct UnknownDictionary {
    terms: Vec<(String, Bucket)>,
    feature: Vec<Feature>,
}

impl UnknownDictionary {
    /// The buckets in the order in which they were given.
    pub closed spec fn entries(&self) -> Seq<(Seq<char>, Seq<(TermId, Term)>)> {
        bucket_views(self.terms@)
    }

    pub closed spec fn features(&self) -> Seq<FeatureView> {
        feature_views(self.feature@)
    }

    /// The terms of the category named `key`: where several buckets carry
    /// the name, the last one counts.
    pub open spec fn bucket(&self, key: Seq<char>) -> Option<Seq<(TermId, Term)>> {
        match last_named(self.entries(), key, self.entries().len() as int) {
            Some(i) => Some(self.entries()[i].1),
            None => None,
        }
    }

    /// The features of the unknown term with this id, if there are any.
    pub open spec fn feature(&self, id: TermId) -> Option<FeatureView> {
        if id < self.features().len() {
            Some(self.features()[id as int])
        } else {
            None
        }
    }

    pub fn new(terms: Vec<(String, Bucket)>, feature: Vec<Feature>) -> (dict: Self)
        ensures
            dict.entries() == bucket_views(terms@),
            dict.features() == feature_views(feature@),
    {
        Self { terms, feature }
    }

    pub fn entries_ref(&self) -> (terms: &Vec<(String, Bucket)>)
        ensures
            bucket_views(terms@) == self.entries(),
    {
        &self.terms
    }

    pub fn features_ref(&self) -> (features: &Vec<Feature>)
        ensures
            feature_views(features@) == self.features(),
    {
        &self.feature
    }

    pub fn get_terms(&self, key: &str) -> (bucket: Option<&Bucket>)
        ensures
            match bucket {
                Some(b) => self.bucket(key@) == Some(b@),
                None => self.bucket(key@) is None,
            },
    {
        let ghost entries = self.entries();
        let mut i: usize = self.terms.len();
        while i > 0
            invariant
                i <= self.terms.len(),
                entries == self.entries(),
                last_named(entries, key@, entries.len() as int) == last_named(
                    entries,
                    key@,
                    i as int,
                ),
            decreases i,
        {
            i -= 1;
            if str_eq(self.terms[i].0.as_str(), key) {
                return Some(&self.terms[i].1);
            }
        }
        None
    }

    pub fn get_feat(&self, id: TermId) -> (feature: Option<&Feature>)
        ensures
            match feature {
                Some(f) => self.feature(id) == Some(f@),
                None => self.feature(id) is None,
            },
    {
        if id < self.feature.len() {
            Some(&self.feature[id])
        } else {
            None
        }
    }
}

} // verus!
