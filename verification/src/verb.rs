//! Verbs and the inflections that a run of morphemes gives a verb.

use crate::conjugation::ConjugationForm;
use crate::morpheme::{morpheme_views, Morpheme, MorphemeView};
use crate::text::opt_str_is;
use vstd::prelude::*;

verus! {

/// How a verb conjugates.
#[derive(Debug, Clone, Copy, PartialEq, Eq, Structural)]
pub enum VerbType {
    Ichidan,
    Godan,
    Suru,
    Kuru,
}

/// An inflection of a verb.
#[derive(Debug, Clone, Copy, PartialEq, Eq, Structural)]
pub enum VerbInflection {
    Polite,
    Negative,
    Past,
    Te,
    TeIru,
    TeKureru,
    TeMorau,
    TeMiru,
    TeOku,
    TeIku,
    Tekuru,
    Volotional,
    Imperative,
    Tara,
    Ba,
    PotentialPassive,
    Causative,
    Tai,
}

/// A verb with the inflections that it carries.
#[derive(Debug, Clone, PartialEq)]
pub struct Verb {
    pub verb_type: VerbType,
    pub inflections: Vec<VerbInflection>,
}

/// Whether a conjugation form is one of the imperatives.
pub open spec fn verb_is_imperative_form(form: Option<ConjugationForm>) -> bool {
    form == Some(ConjugationForm::ImperativeE) || form == Some(ConjugationForm::ImperativeI)
        || form == Some(ConjugationForm::ImperativeYo) || form == Some(
        ConjugationForm::ImperativeRo,
    )
}

/// The inflection that `て` expresses, which the base form of the
/// morpheme after it decides.
pub open spec fn verb_te_tag(next: Option<MorphemeView>) -> VerbInflection {
    match next {
        None => VerbInflection::Te,
        Some(n) => if n.base_form == Some("いる"@) {
            VerbInflection::TeIru
        } else if n.base_form == Some("おく"@) {
            VerbInflection::TeOku
        } else if n.base_form == Some("くれる"@) {
            VerbInflection::TeKureru
        } else if n.base_form == Some("もらう"@) {
            VerbInflection::TeMorau
        } else if n.base_form == Some("いく"@) || n.base_form == Some("行く"@) {
            VerbInflection::TeIku
        } else if n.base_form == Some("くる"@) || n.base_form == Some("来る"@) {
            VerbInflection::Tekuru
        } else if n.base_form == Some("みる"@) {
            VerbInflection::TeMiru
        } else {
            VerbInflection::Te
        },
    }
}

/// The inflection that a morpheme's base form expresses, if any.
pub open spec fn verb_base_tag(m: MorphemeView, next: Option<MorphemeView>) -> Option<VerbInflection> {
    if m.base_form == Some("ます"@) {
        Some(VerbInflection::Polite)
    } else if m.base_form == Some("ない"@) || m.base_form == Some("ん"@) {
        Some(VerbInflection::Negative)
    } else if m.base_form == Some("た"@) {
        if m.conjugation_form == Some(ConjugationForm::BasicForm) {
            Some(VerbInflection::Past)
        } else if m.conjugation_form == Some(ConjugationForm::HypotheticalForm) {
            Some(VerbInflection::Tara)
        } else {
            None
        }
    } else if m.base_form == Some("て"@) {
        Some(verb_te_tag(next))
    } else if m.base_form == Some("う"@) {
        Some(VerbInflection::Volotional)
    } else if m.base_form == Some("ば"@) {
        Some(VerbInflection::Ba)
    } else if m.base_form == Some("させる"@) {
        Some(VerbInflection::Causative)
    } else if m.base_form == Some("られる"@) {
        Some(VerbInflection::PotentialPassive)
    } else if m.base_form == Some("たい"@) {
        Some(VerbInflection::Tai)
    } else {
        None
    }
}

/// The morpheme after position `i`, if there is one.
pub open spec fn verb_following(ms: Seq<MorphemeView>, i: int) -> Option<MorphemeView> {
    if 0 <= i && i + 1 < ms.len() {
        Some(ms[i + 1])
    } else {
        None
    }
}

/// The inflections that the morpheme at `i` contributes: `Imperative` for an
/// imperative form, and after it what its base form expresses.
pub open spec fn verb_tags_at(ms: Seq<MorphemeView>, i: int) -> Seq<VerbInflection> {
    let imperative = if verb_is_imperative_form(ms[i].conjugation_form) {
        seq![VerbInflection::Imperative]
    } else {
        Seq::empty()
    };
    match verb_base_tag(ms[i], verb_following(ms, i)) {
        Some(tag) => imperative.push(tag),
        None => imperative,
    }
}

/// The inflections of the first `n` morphemes, in the order of the morphemes.
pub open spec fn verb_tags_upto(ms: Seq<MorphemeView>, n: int) -> Seq<VerbInflection>
    decreases n,
{
    if n <= 0 {
        Seq::empty()
    } else {
        verb_tags_upto(ms, n - 1) + verb_tags_at(ms, n - 1)
    }
}

/// The inflections that a list of morphemes expresses.
pub open spec fn verb_inflections_of(ms: Seq<MorphemeView>) -> Seq<VerbInflection> {
    verb_tags_upto(ms, ms.len() as int)
}

fn is_imperative(form: &Option<ConjugationForm>) -> (is: bool)
    ensures
        is == verb_is_imperative_form(*form),
{
    match form {
        Some(ConjugationForm::ImperativeE) => true,
        Some(ConjugationForm::ImperativeI) => true,
        Some(ConjugationForm::ImperativeYo) => true,
        Some(ConjugationForm::ImperativeRo) => true,
        _ => false,
    }
}

fn te_tag_of(next: Option<&Morpheme>) -> (tag: VerbInflection)
    ensures
        tag == verb_te_tag(
            match next {
                Some(n) => Some(n@),
                None => None,
            },
        ),
{
    match next {
        None => VerbInflection::Te,
        Some(n) => {
            let base = &n.base_form;
            if opt_str_is(base, "いる") {
                VerbInflection::TeIru
            } else if opt_str_is(base, "おく") {
                VerbInflection::TeOku
            } else if opt_str_is(base, "くれる") {
                VerbInflection::TeKureru
            } else if opt_str_is(base, "もらう") {
                VerbInflection::TeMorau
            } else if opt_str_is(base, "いく") || opt_str_is(base, "行く") {
                VerbInflection::TeIku
            } else if opt_str_is(base, "くる") || opt_str_is(base, "来る") {
                VerbInflection::Tekuru
            } else if opt_str_is(base, "みる") {
                VerbInflection::TeMiru
            } else {
                VerbInflection::Te
            }
        },
    }
}

fn base_tag_of(m: &Morpheme, next: Option<&Morpheme>) -> (tag: Option<VerbInflection>)
    ensures
        tag == verb_base_tag(
            m@,
            match next {
                Some(n) => Some(n@),
                None => None,
            },
        ),
{
    let base = &m.base_form;
    if opt_str_is(base, "ます") {
        Some(VerbInflection::Polite)
    } else if opt_str_is(base, "ない") || opt_str_is(base, "ん") {
        Some(VerbInflection::Negative)
    } else if opt_str_is(base, "た") {
        match m.conjugation_form {
            Some(ConjugationForm::BasicForm) => Some(VerbInflection::Past),
            Some(ConjugationForm::HypotheticalForm) => Some(VerbInflection::Tara),
            _ => None,
        }
    } else if opt_str_is(base, "て") {
        Some(te_tag_of(next))
    } else if opt_str_is(base, "う") {
        Some(VerbInflection::Volotional)
    } else if opt_str_is(base, "ば") {
        Some(VerbInflection::Ba)
    } else if opt_str_is(base, "させる") {
        Some(VerbInflection::Causative)
    } else if opt_str_is(base, "られる") {
        Some(VerbInflection::PotentialPassive)
    } else if opt_str_is(base, "たい") {
        Some(VerbInflection::Tai)
    } else {
        None
    }
}

impl VerbInflection {
    /// The inflections that `morphemes` give a verb, in the order of the
    /// morphemes; one morpheme gives at most two.
    pub fn from_morphemes(morphemes: &[Morpheme]) -> (inflections: Vec<VerbInflection>)
        ensures
            inflections@ == verb_inflections_of(morpheme_views(morphemes@)),
    {
        let ghost ms = morpheme_views(morphemes@);
        let mut inflections: Vec<VerbInflection> = Vec::new();
        let mut i: usize = 0;
        while i < morphemes.len()
            invariant
                i <= morphemes.len(),
                ms == morpheme_views(morphemes@),
                inflections@ == verb_tags_upto(ms, i as int),
            decreases morphemes.len() - i,
        {
            let morpheme = &morphemes[i];
            let next = if i + 1 < morphemes.len() {
                Some(&morphemes[i + 1])
            } else {
                None
            };
            let tag = base_tag_of(morpheme, next);
            if is_imperative(&morpheme.conjugation_form) {
                inflections.push(VerbInflection::Imperative);
            }
            if let Some(tag) = tag {
                inflections.push(tag);
            }
            i += 1;
            assert(inflections@ =~= verb_tags_upto(ms, i as int));
        }
        inflections
    }
}

} // verus!
