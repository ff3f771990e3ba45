//! Words: a head morpheme together with the inflecting morphemes after it.

use crate::inflection::{inflections_of, Inflection};
use crate::morpheme::{morpheme_views, Morpheme, MorphemeView};
use crate::pos::PartOfSpeech;
use vstd::prelude::*;
use vstd::std_specs::convert::FromSpecImpl;
use vstd::string::StringExecFns;

verus! {

/// The class of a word, derived from its head morpheme.
#[derive(Debug, Clone, Copy, PartialEq, Eq, Structural)]
pub enum WordClass {
    Noun,
    PreNoun,
    Pronoun,
    Particle,
    Verb,
    AuxiliaryVerb,
    Adverb,
    Adjective,
    Prefix,
    Suffix,
    Counter,
    Conjunction,
    Filler,
    Interjection,
    Expression,
    Unclassified,
}

impl WordClass {
    /// The class that a part of speech gives when nothing more specific applies.
    pub open spec fn of_pos(pos: PartOfSpeech) -> WordClass {
        match pos {
            PartOfSpeech::Noun => WordClass::Noun,
            PartOfSpeech::Verb => WordClass::Verb,
            PartOfSpeech::AuxiliaryVerb => WordClass::AuxiliaryVerb,
            PartOfSpeech::Adverb => WordClass::Adverb,
            PartOfSpeech::Adjective => WordClass::Adjective,
            PartOfSpeech::Adnominal => WordClass::PreNoun,
            PartOfSpeech::Particle => WordClass::Particle,
            PartOfSpeech::Conjunction => WordClass::Conjunction,
            PartOfSpeech::Prefix => WordClass::Prefix,
            PartOfSpeech::Filler => WordClass::Filler,
            PartOfSpeech::Interjection => WordClass::Interjection,
            PartOfSpeech::Symbol => WordClass::Unclassified,
            PartOfSpeech::Other => WordClass::Unclassified,
        }
    }

    /// The class of a word whose head is `head`: the first that applies of
    /// pronoun, adjectival noun, counter, suffix and expression, and else
    /// the class of its part of speech.
    pub open spec fn of_head(head: MorphemeView) -> WordClass {
        if head.is_pronoun() {
            WordClass::Pronoun
        } else if head.is_adjectivial_noun() {
            WordClass::Adjective
        } else if head.is_counter() {
            WordClass::Counter
        } else if head.is_suffix() {
            WordClass::Suffix
        } else if head.is_expression() {
            WordClass::Expression
        } else {
            WordClass::of_pos(head.part_of_speech)
        }
    }

    /// How the class reads in English.
    pub open spec fn label(self) -> Seq<char> {
        match self {
            WordClass::Noun => "Noun"@,
            WordClass::PreNoun => "Pre-noun"@,
            WordClass::Pronoun => "Pronoun"@,
            WordClass::Particle => "Particle"@,
            WordClass::Verb => "Verb"@,
            WordClass::AuxiliaryVerb => "Auxiliary verb"@,
            WordClass::Adverb => "Adverb"@,
            WordClass::Adjective => "Adjective"@,
            WordClass::Prefix => "Prefix"@,
            WordClass::Suffix => "Suffix"@,
            WordClass::Counter => "Counter"@,
            WordClass::Conjunction => "Conjunction"@,
            WordClass::Filler => "Filler"@,
            WordClass::Interjection => "Interjection"@,
            WordClass::Expression => "Expression"@,
            WordClass::Unclassified => "Unclassified"@,
        }
    }

    fn from_pos(value: PartOfSpeech) -> (class: Self)
        ensures
            class == WordClass::of_pos(value),
    {
        match value {
            PartOfSpeech::Noun => Self::Noun,
            PartOfSpeech::Verb => Self::Verb,
            PartOfSpeech::AuxiliaryVerb => Self::AuxiliaryVerb,
            PartOfSpeech::Adverb => Self::Adverb,
            PartOfSpeech::Adjective => Self::Adjective,
            PartOfSpeech::Adnominal => Self::PreNoun,
            PartOfSpeech::Particle => Self::Particle,
            PartOfSpeech::Conjunction => Self::Conjunction,
            PartOfSpeech::Prefix => Self::Prefix,
            PartOfSpeech::Filler => Self::Filler,
            PartOfSpeech::Interjection => Self::Interjection,
            _ => Self::Unclassified,
        }
    }

    /// The class in English, as an owned string.
    pub fn to_string(&self) -> (label: String)
        ensures
            label@ == self.label(),
    {
        let label: &'static str = match self {
            WordClass::Noun => "Noun",
            WordClass::PreNoun => "Pre-noun",
            WordClass::Pronoun => "Pronoun",
            WordClass::Particle => "Particle",
            WordClass::Verb => "Verb",
            WordClass::AuxiliaryVerb => "Auxiliary verb",
            WordClass::Adverb => "Adverb",
            WordClass::Adjective => "Adjective",
            WordClass::Prefix => "Prefix",
            WordClass::Suffix => "Suffix",
            WordClass::Counter => "Counter",
            WordClass::Conjunction => "Conjunction",
            WordClass::Filler => "Filler",
            WordClass::Interjection => "Interjection",
            WordClass::Expression => "Expression",
            WordClass::Unclassified => "Unclassified",
        };
        label.to_owned()
    }
}

impl From<&Morpheme> for WordClass {
    fn from(value: &Morpheme) -> (class: Self) {
        if value.is_pronoun() {
            Self::Pronoun
        } else if value.is_adjectivial_noun() {
            Self::Adjective
        } else if value.is_counter() {
            Self::Counter
        } else if value.is_suffix() {
            Self::Suffix
        } else if value.is_expression() {
            Self::Expression
        } else {
            WordClass::from_pos(value.part_of_speech)
        }
    }
}

impl FromSpecImpl<&Morpheme> for WordClass {
    open spec fn obeys_from_spec() -> bool {
        true
    }

    open spec fn from_spec(value: &Morpheme) -> Self {
        WordClass::of_head(value@)
    }
}

/// A word of an analysed text.
#[derive(Debug, PartialEq)]
pub struct Word {
    pub text: String,
    pub start: usize,
    pub end: usize,
    pub base_form: String,
    pub class: WordClass,
    pub morphemes: Vec<Morpheme>,
    pub inflections: Vec<Inflection>,
}

/// What a `Word` holds, with its strings and lists as sequences.
pub struct WordView {
    pub text: Seq<char>,
    pub start: usize,
    pub end: usize,
    pub base_form: Seq<char>,
    pub class: WordClass,
    pub morphemes: Seq<MorphemeView>,
    pub inflections: Seq<Inflection>,
}

impl View for Word {
    type V = WordView;

    open spec fn view(&self) -> WordView {
        WordView {
            text: self.text@,
            start: self.start,
            end: self.end,
            base_form: self.base_form@,
            class: self.class,
            morphemes: morpheme_views(self.morphemes@),
            inflections: self.inflections@,
        }
    }
}

/// The texts of the first `n` morphemes, one after the other.
pub open spec fn joined_text(ms: Seq<MorphemeView>, n: int) -> Seq<char>
    decreases n,
{
    if n <= 0 {
        Seq::empty()
    } else {
        joined_text(ms, n - 1) + ms[n - 1].text
    }
}

impl WordView {
    /// The word that a non-empty group of morphemes forms: it reaches from
    /// the start of the first to the end of the last, reads as their texts
    /// joined, and takes base form and class from the first.
    pub open spec fn of(ms: Seq<MorphemeView>) -> WordView
        recommends
            ms.len() > 0,
    {
        WordView {
            text: joined_text(ms, ms.len() as int),
            start: ms[0].start,
            end: ms[ms.len() - 1].end,
            base_form: match ms[0].base_form {
                Some(base) => base,
                None => ms[0].text,
            },
            class: WordClass::of_head(ms[0]),
            morphemes: ms,
            inflections: inflections_of(ms),
        }
    }
}

fn clone_morphemes(morphemes: &[Morpheme]) -> (copy: Vec<Morpheme>)
    ensures
        morpheme_views(copy@) == morpheme_views(morphemes@),
{
    let mut copy: Vec<Morpheme> = Vec::new();
    let mut i: usize = 0;
    while i < morphemes.len()
        invariant
            i <= morphemes.len(),
            copy.len() == i,
            forall|k: int| 0 <= k < i ==> copy@[k]@ == morphemes@[k]@,
        decreases morphemes.len() - i,
    {
        copy.push(morphemes[i].clone());
        i += 1;
    }
    assert(morpheme_views(copy@) =~= morpheme_views(morphemes@));
    copy
}

fn join_texts(morphemes: &[Morpheme]) -> (text: String)
    ensures
        text@ == joined_text(morpheme_views(morphemes@), morphemes@.len() as int),
{
    let ghost ms = morpheme_views(morphemes@);
    let mut text = String::new();
    let mut i: usize = 0;
    while i < morphemes.len()
        invariant
            i <= morphemes.len(),
            ms == morpheme_views(morphemes@),
            text@ == joined_text(ms, i as int),
        decreases morphemes.len() - i,
    {
        text.append(morphemes[i].text.as_str());
        i += 1;
    }
    text
}

impl Word {
    /// The word that `morphemes` form, or nothing for an empty group.
    pub fn from_morphemes(morphemes: &[Morpheme]) -> (word: Option<Self>)
        ensures
            morphemes@.len() == 0 ==> word is None,
            morphemes@.len() > 0 ==> word is Some && word->0@ == WordView::of(
                morpheme_views(morphemes@),
            ),
    {
        if morphemes.len() == 0 {
            return None;
        }
        let main = &morphemes[0];
        let last = &morphemes[morphemes.len() - 1];
        let base_form = match &main.base_form {
            Some(base) => base.clone(),
            None => main.text.clone(),
        };
        Some(
            Self {
                text: join_texts(morphemes),
                start: main.start,
                end: last.end,
                base_form,
                class: WordClass::from(main),
                morphemes: clone_morphemes(morphemes),
                inflections: Inflection::from_morphemes(morphemes),
            },
        )
    }

    pub fn is_noun(&self) -> (is: bool)
        ensures
            is == (self.class == WordClass::Noun),
    {
        self.class == WordClass::Noun
    }

    pub fn is_pronoun(&self) -> (is: bool)
        ensures
            is == (self.class == WordClass::Pronoun),
    {
        self.class == WordClass::Pronoun
    }

    pub fn is_adnominal(&self) -> (is: bool)
        ensures
            is == (self.class == WordClass::PreNoun),
    {
        self.class == WordClass::PreNoun
    }

    pub fn is_particle(&self) -> (is: bool)
        ensures
            is == (self.class == WordClass::Particle),
    {
        self.class == WordClass::Particle
    }

    pub fn is_verb(&self) -> (is: bool)
        ensures
            is == (self.class == WordClass::Verb),
    {
        self.class == WordClass::Verb
    }

    pub fn is_adverb(&self) -> (is: bool)
        ensures
            is == (self.class == WordClass::Adverb),
    {
        self.class == WordClass::Adverb
    }

    pub fn is_auxiliary_verb(&self) -> (is: bool)
        ensures
            is == (self.class == WordClass::AuxiliaryVerb),
    {
        self.class == WordClass::AuxiliaryVerb
    }

    pub fn is_adjective(&self) -> (is: bool)
        ensures
            is == (self.class == WordClass::Adjective),
    {
        self.class == WordClass::Adjective
    }

    pub fn is_prefix(&self) -> (is: bool)
        ensures
            is == (self.class == WordClass::Prefix),
    {
        self.class == WordClass::Prefix
    }

    pub fn is_suffix(&self) -> (is: bool)
        ensures
            is == (self.class == WordClass::Suffix),
    {
        self.class == WordClass::Suffix
    }

    pub fn is_counter(&self) -> (is: bool)
        ensures
            is == (self.class == WordClass::Counter),
    {
        self.class == WordClass::Counter
    }

    pub fn is_filler(&self) -> (is: bool)
        ensures
            is == (self.class == WordClass::Filler),
    {
        self.class == WordClass::Filler
    }

    pub fn is_interjection(&self) -> (is: bool)
        ensures
            is == (self.class == WordClass::Interjection),
    {
        self.class == WordClass::Interjection
    }

    pub fn is_conjunction(&self) -> (is: bool)
        ensures
            is == (self.class == WordClass::Conjunction),
    {
        self.class == WordClass::Conjunction
    }

    pub fn is_expression(&self) -> (is: bool)
        ensures
            is == (self.class == WordClass::Expression),
    {
        self.class == WordClass::Expression
    }

    pub fn has_inflections(&self) -> (has: bool)
        ensures
            has == (self.inflections@.len() > 0),
    {
        self.inflections.len() > 0
    }
}

/// The views of a list of words, in order.
pub open spec fn word_views(words: Seq<Word>) -> Seq<WordView> {
    words.map_values(|w: Word| w@)
}

/// Position of the first morpheme at or after `j` that does not continue
/// an inflection; the number of morphemes where there is none.
pub open spec fn inflection_end(ms: Seq<MorphemeView>, j: int) -> int
    decreases ms.len() - j,
{
    if 0 <= j < ms.len() && ms[j].is_inflection() {
        inflection_end(ms, j + 1)
    } else {
        j
    }
}

/// Position after the last morpheme of the word whose head is at `i`: the
/// head alone, or with all inflecting morphemes after it where the head
/// can inflect.
pub open spec fn word_end(ms: Seq<MorphemeView>, i: int) -> int {
    if ms[i].has_inflection() {
        inflection_end(ms, i + 1)
    } else {
        i + 1
    }
}

pub proof fn lemma_inflection_end_bounds(ms: Seq<MorphemeView>, j: int)
    requires
        0 <= j <= ms.len(),
    ensures
        j <= inflection_end(ms, j) <= ms.len(),
    decreases ms.len() - j,
{
    if j < ms.len() && ms[j].is_inflection() {
        lemma_inflection_end_bounds(ms, j + 1);
    }
}

/// The words of the morphemes from position `i` on: symbols are left
/// out, and every other morpheme is the head of a word or belongs to the
/// word of the head before it.
pub open spec fn words_from(ms: Seq<MorphemeView>, i: int) -> Seq<WordView>
    decreases ms.len() - i,
    via words_from_decreases
{
    if i < 0 || i >= ms.len() {
        Seq::empty()
    } else if ms[i].part_of_speech == PartOfSpeech::Symbol {
        words_from(ms, i + 1)
    } else {
        seq![WordView::of(ms.subrange(i, word_end(ms, i)))] + words_from(ms, word_end(ms, i))
    }
}

#[via_fn]
proof fn words_from_decreases(ms: Seq<MorphemeView>, i: int) {
    if 0 <= i < ms.len() {
        lemma_inflection_end_bounds(ms, i + 1);
    }
}

/// Groups morphemes into words.
pub fn group_words(morphemes: &Vec<Morpheme>) -> (words: Vec<Word>)
    ensures
        word_views(words@) == words_from(morpheme_views(morphemes@), 0),
{
    let ghost ms = morpheme_views(morphemes@);
    let mut words: Vec<Word> = Vec::new();
    let mut i: usize = 0;
    while i < morphemes.len()
        invariant
            i <= morphemes.len(),
            ms == morpheme_views(morphemes@),
            word_views(words@) + words_from(ms, i as int) == words_from(ms, 0),
        decreases morphemes.len() - i,
    {
        if morphemes[i].is_symbol() {
            i += 1;
        } else {
            let mut end: usize = i + 1;
            if morphemes[i].has_inflection() {
                while end < morphemes.len() && morphemes[end].is_inflection()
                    invariant
                        i < end <= morphemes.len(),
                        ms == morpheme_views(morphemes@),
                        inflection_end(ms, end as int) == inflection_end(ms, i + 1),
                    decreases morphemes.len() - end,
                {
                    end += 1;
                }
            }
            assert(end == word_end(ms, i as int));
            let group = &morphemes[i..end];
            proof {
                assert(morpheme_views(group@) =~= ms.subrange(i as int, end as int));
            }
            let ghost before = word_views(words@);
            if let Some(word) = Word::from_morphemes(group) {
                words.push(word);
                proof {
                    assert(word_views(words@) =~= before.push(word@));
                    assert(before.push(word@) + words_from(ms, end as int) =~= before + (seq![
                        word@,
                    ] + words_from(ms, end as int)));
                }
            }
            i = end;
        }
    }
    proof {
        assert(word_views(words@) + Seq::<WordView>::empty() =~= word_views(words@));
    }
    words
}

} // verus!
