//! Morphemes: the units that tokenization produces.

use crate::conjugation::{ConjugationForm, ConjugationType};
use crate::feature::{clone_sub_pos, Feature, FeatureView};
use crate::pos::{PartOfSpeech, SubPartOfSpeech};
use crate::text::{clone_opt_string, opt_chars, str_eq};
use vstd::prelude::*;

verus! {

/// One morpheme of an analysed text, with the byte range it covers.
#[derive(Debug, PartialEq)]
pub struct Morpheme {
    pub text: String,
    pub start: usize,
    pub end: usize,
    pub part_of_speech: PartOfSpeech,
    pub sub_part_of_speech: Vec<SubPartOfSpeech>,
    pub conjugation_type: Option<ConjugationType>,
    pub conjugation_form: Option<ConjugationForm>,
    pub base_form: Option<String>,
    pub reading: Option<String>,
}

/// What a `Morpheme` holds, with its strings and lists as sequences.
pub struct MorphemeView {
    pub text: Seq<char>,
    pub start: usize,
    pub end: usize,
    pub part_of_speech: PartOfSpeech,
    pub sub_part_of_speech: Seq<SubPartOfSpeech>,
    pub conjugation_type: Option<ConjugationType>,
    pub conjugation_form: Option<ConjugationForm>,
    pub base_form: Option<Seq<char>>,
    pub reading: Option<Seq<char>>,
}

impl View for Morpheme {
    type V = MorphemeView;

    open spec fn view(&self) -> MorphemeView {
        MorphemeView {
            text: self.text@,
            start: self.start,
            end: self.end,
            part_of_speech: self.part_of_speech,
            sub_part_of_speech: self.sub_part_of_speech@,
            conjugation_type: self.conjugation_type,
            conjugation_form: self.conjugation_form,
            base_form: opt_chars(self.base_form),
            reading: opt_chars(self.reading),
        }
    }
}

impl MorphemeView {
    /// A text over a byte range, described by a dictionary's features.
    pub open spec fn of(text: Seq<char>, start: usize, end: usize, feature: FeatureView) -> Self {
        MorphemeView {
            text,
            start,
            end,
            part_of_speech: feature.part_of_speech,
            sub_part_of_speech: feature.sub_part_of_speech,
            conjugation_type: feature.conjugation_type,
            conjugation_form: feature.conjugation_form,
            base_form: feature.base_form,
            reading: feature.reading,
        }
    }

    pub open spec fn has_sub_pos(self, pos: SubPartOfSpeech) -> bool {
        self.sub_part_of_speech.contains(pos)
    }

    /// A verb that only occurs attached to another one.
    pub open spec fn is_ni_verb(self) -> bool {
        self.part_of_speech == PartOfSpeech::Verb && self.has_sub_pos(
            SubPartOfSpeech::NonIndependent,
        )
    }

    /// A verb used as a suffix.
    pub open spec fn is_sfx_verb(self) -> bool {
        self.part_of_speech == PartOfSpeech::Verb && self.has_sub_pos(SubPartOfSpeech::Suffix)
    }

    /// The conjunctive particle `て` or `で`.
    pub open spec fn is_te(self) -> bool {
        (self.text == "て"@ || self.text == "で"@) && self.has_sub_pos(
            SubPartOfSpeech::ConjunctiveParticle,
        )
    }

    /// The conjunctive particle `ば`.
    pub open spec fn is_ba(self) -> bool {
        self.text == "ば"@ && self.has_sub_pos(SubPartOfSpeech::ConjunctiveParticle)
    }

    /// Whether this morpheme continues the inflection of the one before it.
    pub open spec fn is_inflection(self) -> bool {
        self.is_ni_verb() || self.part_of_speech == PartOfSpeech::AuxiliaryVerb
            || self.is_sfx_verb() || self.is_te() || self.is_ba()
    }

    /// Whether inflecting morphemes may follow this one.
    pub open spec fn has_inflection(self) -> bool {
        self.part_of_speech == PartOfSpeech::Verb || self.part_of_speech
            == PartOfSpeech::AuxiliaryVerb || self.part_of_speech == PartOfSpeech::Adjective
    }

    pub open spec fn is_noun_with(self, pos: SubPartOfSpeech) -> bool {
        self.part_of_speech == PartOfSpeech::Noun && self.has_sub_pos(pos)
    }

    pub open spec fn is_pronoun(self) -> bool {
        self.is_noun_with(SubPartOfSpeech::Pronoun)
    }

    /// A noun that is the stem of an adjectival noun.
    pub open spec fn is_adjectivial_noun(self) -> bool {
        self.is_noun_with(SubPartOfSpeech::AdjectivalNounStem) || self.is_noun_with(
            SubPartOfSpeech::NaiAdjectivalNounStem,
        )
    }

    pub open spec fn is_counter(self) -> bool {
        self.is_noun_with(SubPartOfSpeech::Counter)
    }

    pub open spec fn is_suffix(self) -> bool {
        self.is_noun_with(SubPartOfSpeech::Suffix)
    }

    /// A set phrase that the dictionary lists as one entry.
    pub open spec fn is_expression(self) -> bool {
        self.has_sub_pos(SubPartOfSpeech::Phrase)
    }
}

impl Morpheme {
    pub fn new(text: String, start: usize, end: usize, feature: Feature) -> (morpheme: Self)
        ensures
            morpheme@ == MorphemeView::of(text@, start, end, feature@),
    {
        Self {
            text,
            start,
            end,
            part_of_speech: feature.part_of_speech,
            sub_part_of_speech: feature.sub_part_of_speech,
            conjugation_type: feature.conjugation_type,
            conjugation_form: feature.conjugation_form,
            base_form: feature.base_form,
            reading: feature.reading,
        }
    }

    pub fn has_sub_pos(&self, pos: &SubPartOfSpeech) -> (found: bool)
        ensures
            found == self@.has_sub_pos(*pos),
    {
        let mut i: usize = 0;
        while i < self.sub_part_of_speech.len()
            invariant
                i <= self.sub_part_of_speech.len(),
                forall|k: int| 0 <= k < i ==> self.sub_part_of_speech@[k] != *pos,
            decreases self.sub_part_of_speech.len() - i,
        {
            if self.sub_part_of_speech[i] == *pos {
                return true;
            }
            i += 1;
        }
        false
    }

    pub fn is_noun(&self) -> (is: bool)
        ensures
            is == (self.part_of_speech == PartOfSpeech::Noun),
    {
        self.part_of_speech == PartOfSpeech::Noun
    }

    pub fn is_particle(&self) -> (is: bool)
        ensures
            is == (self.part_of_speech == PartOfSpeech::Particle),
    {
        self.part_of_speech == PartOfSpeech::Particle
    }

    pub fn is_adjective(&self) -> (is: bool)
        ensures
            is == (self.part_of_speech == PartOfSpeech::Adjective),
    {
        self.part_of_speech == PartOfSpeech::Adjective
    }

    pub fn is_symbol(&self) -> (is: bool)
        ensures
            is == (self.part_of_speech == PartOfSpeech::Symbol),
    {
        self.part_of_speech == PartOfSpeech::Symbol
    }

    pub fn is_adnominal(&self) -> (is: bool)
        ensures
            is == (self.part_of_speech == PartOfSpeech::Adnominal),
    {
        self.part_of_speech == PartOfSpeech::Adnominal
    }

    pub fn is_verb(&self) -> (is: bool)
        ensures
            is == (self.part_of_speech == PartOfSpeech::Verb),
    {
        self.part_of_speech == PartOfSpeech::Verb
    }

    pub fn is_auxiliary_verb(&self) -> (is: bool)
        ensures
            is == (self.part_of_speech == PartOfSpeech::AuxiliaryVerb),
    {
        self.part_of_speech == PartOfSpeech::AuxiliaryVerb
    }

    pub fn is_adverb(&self) -> (is: bool)
        ensures
            is == (self.part_of_speech == PartOfSpeech::Adverb),
    {
        self.part_of_speech == PartOfSpeech::Adverb
    }

    pub fn is_prefix(&self) -> (is: bool)
        ensures
            is == (self.part_of_speech == PartOfSpeech::Prefix),
    {
        self.part_of_speech == PartOfSpeech::Prefix
    }

    pub fn is_filler(&self) -> (is: bool)
        ensures
            is == (self.part_of_speech == PartOfSpeech::Filler),
    {
        self.part_of_speech == PartOfSpeech::Filler
    }

    pub fn is_interjection(&self) -> (is: bool)
        ensures
            is == (self.part_of_speech == PartOfSpeech::Interjection),
    {
        self.part_of_speech == PartOfSpeech::Interjection
    }

    pub fn is_conjunction(&self) -> (is: bool)
        ensures
            is == (self.part_of_speech == PartOfSpeech::Conjunction),
    {
        self.part_of_speech == PartOfSpeech::Conjunction
    }

    pub fn is_pronoun(&self) -> (is: bool)
        ensures
            is == self@.is_pronoun(),
    {
        self.is_noun() && self.has_sub_pos(&SubPartOfSpeech::Pronoun)
    }

    pub fn is_adjectivial_noun(&self) -> (is: bool)
        ensures
            is == self@.is_adjectivial_noun(),
    {
        self.is_noun() && (self.has_sub_pos(&SubPartOfSpeech::AdjectivalNounStem)
            || self.has_sub_pos(&SubPartOfSpeech::NaiAdjectivalNounStem))
    }

    pub fn is_counter(&self) -> (is: bool)
        ensures
            is == self@.is_counter(),
    {
        self.is_noun() && self.has_sub_pos(&SubPartOfSpeech::Counter)
    }

    pub fn is_suffix(&self) -> (is: bool)
        ensures
            is == self@.is_suffix(),
    {
        self.is_noun() && self.has_sub_pos(&SubPartOfSpeech::Suffix)
    }

    pub fn is_expression(&self) -> (is: bool)
        ensures
            is == self@.is_expression(),
    {
        self.has_sub_pos(&SubPartOfSpeech::Phrase)
    }

    pub fn is_inflection(&self) -> (is: bool)
        ensures
            is == self@.is_inflection(),
    {
        self.is_ni_verb() || self.is_auxiliary_verb() || self.is_sfx_verb() || self.is_te()
            || self.is_ba()
    }

    pub fn has_inflection(&self) -> (has: bool)
        ensures
            has == self@.has_inflection(),
    {
        self.is_verb() || self.is_auxiliary_verb() || self.is_adjective()
    }

    fn is_ni_verb(&self) -> (is: bool)
        ensures
            is == self@.is_ni_verb(),
    {
        self.is_verb() && self.has_sub_pos(&SubPartOfSpeech::NonIndependent)
    }

    fn is_sfx_verb(&self) -> (is: bool)
        ensures
            is == self@.is_sfx_verb(),
    {
        self.is_verb() && self.has_sub_pos(&SubPartOfSpeech::Suffix)
    }

    fn is_te(&self) -> (is: bool)
        ensures
            is == self@.is_te(),
    {
        (str_eq(self.text.as_str(), "て") || str_eq(self.text.as_str(), "で"))
            && self.has_sub_pos(&SubPartOfSpeech::ConjunctiveParticle)
    }

    fn is_ba(&self) -> (is: bool)
        ensures
            is == self@.is_ba(),
    {
        str_eq(self.text.as_str(), "ば") && self.has_sub_pos(
            &SubPartOfSpeech::ConjunctiveParticle,
        )
    }
}

impl Clone for Morpheme {
    fn clone(&self) -> (copy: Self)
        ensures
            copy@ == self@,
    {
        Self {
            text: self.text.clone(),
            start: self.start,
            end: self.end,
            part_of_speech: self.part_of_speech,
            sub_part_of_speech: clone_sub_pos(&self.sub_part_of_speech),
            conjugation_type: self.conjugation_type,
            conjugation_form: self.conjugation_form,
            base_form: clone_opt_string(&self.base_form),
            reading: clone_opt_string(&self.reading),
        }
    }
}

/// The views of a list of morphemes, in order.
pub open spec fn morpheme_views(morphemes: Seq<Morpheme>) -> Seq<MorphemeView> {
    morphemes.map_values(|m: Morpheme| m@)
}

} // verus!
