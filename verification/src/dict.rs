//! The dictionary of known terms.

use crate::feature::{Feature, FeatureView};
use crate::term::{Term, TermId};
use vstd::prelude::*;

verus! {

/// The views of a list of features, in order.
pub open spec fn feature_views(features: Seq<Feature>) -> Seq<FeatureView> {
    features.map_values(|f: Feature| f@)
}

/// Terms and their features, both indexed by term id.
#[derive(Debug)]
pub struct EntryDictionary {
    terms: Vec<Term>,
    features: Vec<Feature>,
}

impl EntryDictionary {
    pub closed spec fn terms(&self) -> Seq<Term> {
        self.terms@
    }

    pub closed spec fn features(&self) -> Seq<FeatureView> {
        feature_views(self.features@)
    }

    /// The term with this id, if the dictionary has one.
    pub open spec fn term(&self, id: TermId) -> Option<Term> {
        if id < self.terms().len() {
            Some(self.terms()[id as int])
        } else {
            None
        }
    }

    /// The features of the term with this id, if the dictionary has them.
    pub open spec fn feature(&self, id: TermId) -> Option<FeatureView> {
        if id < self.features().len() {
            Some(self.features()[id as int])
        } else {
            None
        }
    }

    pub fn new(terms: Vec<Term>, features: Vec<Feature>) -> (dict: Self)
        ensures
            dict.terms() == terms@,
            dict.features() == feature_views(features@),
    {
        Self { terms, features }
    }

    pub fn terms_ref(&self) -> (terms: &Vec<Term>)
        ensures
            terms@ == self.terms(),
    {
        &self.terms
    }

    pub fn features_ref(&self) -> (features: &Vec<Feature>)
        ensures
            feature_views(features@) == self.features(),
    {
        &self.features
    }

    pub fn get_term(&self, id: TermId) -> (term: Option<&Term>)
        ensures
            match term {
                Some(t) => self.term(id) == Some(*t),
                None => self.term(id) is None,
            },
    {
        if id < self.terms.len() {
            Some(&self.terms[id])
        } else {
            None
        }
    }

    pub fn get_feature(&self, id: TermId) -> (feature: Option<&Feature>)
        ensures
            match feature {
                Some(f) => self.feature(id) == Some(f@),
                None => self.feature(id) is None,
            },
    {
        if id < self.features.len() {
            Some(&self.features[id])
        } else {
            None
        }
    }
}

} // verus!
