//! The linguistic features that a dictionary attaches to a term.

use crate::conjugation::{ConjugationForm, ConjugationType};
use crate::pos::{PartOfSpeech, SubPartOfSpeech};
use crate::text::{clone_opt_string, opt_chars};
use vstd::prelude::*;

verus! {

/// Features of one dictionary entry.
#[derive(Debug, PartialEq)]
pub struct Feature {
    pub part_of_speech: PartOfSpeech,
    pub sub_part_of_speech: Vec<SubPartOfSpeech>,
    pub conjugation_type: Option<ConjugationType>,
    pub conjugation_form: Option<ConjugationForm>,
    pub base_form: Option<String>,
    pub reading: Option<String>,
}

/// What a `Feature` holds, with its strings and lists as sequences.
pub struct FeatureView {
    pub part_of_speech: PartOfSpeech,
    pub sub_part_of_speech: Seq<SubPartOfSpeech>,
    pub conjugation_type: Option<ConjugationType>,
    pub conjugation_form: Option<ConjugationForm>,
    pub base_form: Option<Seq<char>>,
    pub reading: Option<Seq<char>>,
}

impl View for Feature {
    type V = FeatureView;

    open spec fn view(&self) -> FeatureView {
        FeatureView {
            part_of_speech: self.part_of_speech,
            sub_part_of_speech: self.sub_part_of_speech@,
            conjugation_type: self.conjugation_type,
            conjugation_form: self.conjugation_form,
            base_form: opt_chars(self.base_form),
            reading: opt_chars(self.reading),
        }
    }
}

impl FeatureView {
    /// The features of a term that no dictionary describes.
    pub open spec fn unknown() -> FeatureView {
        FeatureView {
            part_of_speech: PartOfSpeech::Other,
            sub_part_of_speech: Seq::empty(),
            conjugation_type: None,
            conjugation_form: None,
            base_form: None,
            reading: None,
        }
    }
}

/// A copy of a list of sub parts of speech.
pub fn clone_sub_pos(list: &Vec<SubPartOfSpeech>) -> (copy: Vec<SubPartOfSpeech>)
    ensures
        copy@ == list@,
{
    let mut copy: Vec<SubPartOfSpeech> = Vec::new();
    let mut i: usize = 0;
    while i < list.len()
        invariant
            i <= list.len(),
            copy@ == list@.take(i as int),
        decreases list.len() - i,
    {
        copy.push(list[i]);
        i += 1;
        assert(list@.take(i as int) == list@.take(i - 1).push(list@[i - 1]));
    }
    assert(list@.take(list.len() as int) == list@);
    copy
}

impl Default for Feature {
    fn default() -> (feature: Self)
        ensures
            feature@ == FeatureView::unknown(),
    {
        Self {
            part_of_speech: PartOfSpeech::Other,
            sub_part_of_speech: Vec::new(),
            conjugation_type: None,
            conjugation_form: None,
            base_form: None,
            reading: None,
        }
    }
}

impl Clone for Feature {
    fn clone(&self) -> (copy: Self)
        ensures
            copy@ == self@,
    {
        Self {
            part_of_speech: self.part_of_speech,
            sub_part_of_speech: clone_sub_pos(&self.sub_part_of_speech),
            conjugation_type: self.conjugation_type,
            conjugation_form: self.conjugation_form,
            base_form: clone_opt_string(&self.base_form),
            reading: clone_opt_string(&self.reading),
        }
    }
}

} // verus!
