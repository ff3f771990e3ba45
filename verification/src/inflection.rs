//! Inflections that a run of morphemes expresses.

use crate::conjugation::ConjugationForm;
use crate::morpheme::{morpheme_views, Morpheme, MorphemeView};
use crate::text::opt_str_is;
use vstd::prelude::*;

verus! {

/// A grammatical inflection attached to a verb, an adjective or an auxiliary.
#[derive(Debug, Clone, Copy, PartialEq, Eq, Structural)]
pub enum Inflection {
    Polite,
    Negative,
    Past,
    Te,
    TeIru,
    TeKureru,
    TeMorau,
    TeMiru,
    TeOku,
    TeIku,
    Tekuru,
    TeShimau,
    Chau,
    Volotional,
    Imperative,
    Tara,
    Ba,
    PotentialPassive,
    Passive,
    Causative,
    Tai,
}

/// Whether a conjugation form is one of the imperatives.
pub open spec fn is_imperative_form(form: Option<ConjugationForm>) -> bool {
    form == Some(ConjugationForm::ImperativeE) || form == Some(ConjugationForm::ImperativeI)
        || form == Some(ConjugationForm::ImperativeYo) || form == Some(
        ConjugationForm::ImperativeRo,
    )
}

/// The inflection that `て` or `で` expresses, which the base form of the
/// morpheme after it decides.
pub open spec fn te_tag(next: Option<MorphemeView>) -> Inflection {
    match next {
        None => Inflection::Te,
        Some(n) => if n.base_form == Some("いる"@) {
            Inflection::TeIru
        } else if n.base_form == Some("おく"@) {
            Inflection::TeOku
        } else if n.base_form == Some("くれる"@) {
            Inflection::TeKureru
        } else if n.base_form == Some("もらう"@) {
            Inflection::TeMorau
        } else if n.base_form == Some("いく"@) || n.base_form == Some("行く"@) {
            Inflection::TeIku
        } else if n.base_form == Some("くる"@) || n.base_form == Some("来る"@) {
            Inflection::Tekuru
        } else if n.base_form == Some("みる"@) {
            Inflection::TeMiru
        } else if n.base_form == Some("しまう"@) {
            Inflection::TeShimau
        } else {
            Inflection::Te
        },
    }
}

/// The inflection that a morpheme's base form expresses, if any.
pub open spec fn base_tag(m: MorphemeView, next: Option<MorphemeView>) -> Option<Inflection> {
    if m.base_form == Some("ます"@) {
        Some(Inflection::Polite)
    } else if m.base_form == Some("ない"@) || m.base_form == Some("ん"@) {
        Some(Inflection::Negative)
    } else if m.base_form == Some("た"@) {
        if m.conjugation_form == Some(ConjugationForm::BasicForm) {
            Some(Inflection::Past)
        } else if m.conjugation_form == Some(ConjugationForm::HypotheticalForm) {
            Some(Inflection::Tara)
        } else {
            None
        }
    } else if m.base_form == Some("て"@) || m.base_form == Some("で"@) {
        Some(te_tag(next))
    } else if m.base_form == Some("ちゃう"@) {
        Some(Inflection::Chau)
    } else if m.base_form == Some("う"@) {
        Some(Inflection::Volotional)
    } else if m.base_form == Some("ば"@) {
        Some(Inflection::Ba)
    } else if m.base_form == Some("れる"@) {
        Some(Inflection::Passive)
    } else if m.base_form == Some("させる"@) {
        Some(Inflection::Causative)
    } else if m.base_form == Some("られる"@) {
        Some(Inflection::PotentialPassive)
    } else if m.base_form == Some("たい"@) {
        Some(Inflection::Tai)
    } else {
        None
    }
}

/// The morpheme after position `i`, if there is one.
pub open spec fn following(ms: Seq<MorphemeView>, i: int) -> Option<MorphemeView> {
    if 0 <= i && i + 1 < ms.len() {
        Some(ms[i + 1])
    } else {
        None
    }
}

/// The inflections that the morpheme at `i` contributes: `Imperative` for an
/// imperative form, and after it what its base form expresses.
pub open spec fn tags_at(ms: Seq<MorphemeView>, i: int) -> Seq<Inflection> {
    let imperative = if is_imperative_form(ms[i].conjugation_form) {
        seq![Inflection::Imperative]
    } else {
        Seq::empty()
    };
    match base_tag(ms[i], following(ms, i)) {
        Some(tag) => imperative.push(tag),
        None => imperative,
    }
}

/// The inflections of the first `n` morphemes, in the order of the morphemes.
pub open spec fn tags_upto(ms: Seq<MorphemeView>, n: int) -> Seq<Inflection>
    decreases n,
{
    if n <= 0 {
        Seq::empty()
    } else {
        tags_upto(ms, n - 1) + tags_at(ms, n - 1)
    }
}

/// The inflections that a list of morphemes expresses.
pub open spec fn inflections_of(ms: Seq<MorphemeView>) -> Seq<Inflection> {
    tags_upto(ms, ms.len() as int)
}

fn is_imperative(form: &Option<ConjugationForm>) -> (is: bool)
    ensures
        is == is_imperative_form(*form),
{
    match form {
        Some(ConjugationForm::ImperativeE) => true,
        Some(ConjugationForm::ImperativeI) => true,
        Some(ConjugationForm::ImperativeYo) => true,
        Some(ConjugationForm::ImperativeRo) => true,
        _ => false,
    }
}

fn te_tag_of(next: Option<&Morpheme>) -> (tag: Inflection)
    ensures
        tag == te_tag(
            match next {
                Some(n) => Some(n@),
                None => None,
            },
        ),
{
    match next {
        None => Inflection::Te,
        Some(n) => {
            let base = &n.base_form;
            if opt_str_is(base, "いる") {
                Inflection::TeIru
            } else if opt_str_is(base, "おく") {
                Inflection::TeOku
            } else if opt_str_is(base, "くれる") {
                Inflection::TeKureru
            } else if opt_str_is(base, "もらう") {
                Inflection::TeMorau
            } else if opt_str_is(base, "いく") || opt_str_is(base, "行く") {
                Inflection::TeIku
            } else if opt_str_is(base, "くる") || opt_str_is(base, "来る") {
                Inflection::Tekuru
            } else if opt_str_is(base, "みる") {
                Inflection::TeMiru
            } else if opt_str_is(base, "しまう") {
                Inflection::TeShimau
            } else {
                Inflection::Te
            }
        },
    }
}

fn base_tag_of(m: &Morpheme, next: Option<&Morpheme>) -> (tag: Option<Inflection>)
    ensures
        tag == base_tag(
            m@,
            match next {
                Some(n) => Some(n@),
                None => None,
            },
        ),
{
    let base = &m.base_form;
    if opt_str_is(base, "ます") {
        Some(Inflection::Polite)
    } else if opt_str_is(base, "ない") || opt_str_is(base, "ん") {
        Some(Inflection::Negative)
    } else if opt_str_is(base, "た") {
        match m.conjugation_form {
            Some(ConjugationForm::BasicForm) => Some(Inflection::Past),
            Some(ConjugationForm::HypotheticalForm) => Some(Inflection::Tara),
            _ => None,
        }
    } else if opt_str_is(base, "て") || opt_str_is(base, "で") {
        Some(te_tag_of(next))
    } else if opt_str_is(base, "ちゃう") {
        Some(Inflection::Chau)
    } else if opt_str_is(base, "う") {
        Some(Inflection::Volotional)
    } else if opt_str_is(base, "ば") {
        Some(Inflection::Ba)
    } else if opt_str_is(base, "れる") {
        Some(Inflection::Passive)
    } else if opt_str_is(base, "させる") {
        Some(Inflection::Causative)
    } else if opt_str_is(base, "られる") {
        Some(Inflection::PotentialPassive)
    } else if opt_str_is(base, "たい") {
        Some(Inflection::Tai)
    } else {
        None
    }
}

impl Inflection {
    /// The inflections that `morphemes` express, in the order of the
    /// morphemes; one morpheme gives at most two.
    pub fn from_morphemes(morphemes: &[Morpheme]) -> (inflections: Vec<Inflection>)
        ensures
            inflections@ == inflections_of(morpheme_views(morphemes@)),
    {
        let ghost ms = morpheme_views(morphemes@);
        let mut inflections: Vec<Inflection> = Vec::new();
        let mut i: usize = 0;
        while i < morphemes.len()
            invariant
                i <= morphemes.len(),
                ms == morpheme_views(morphemes@),
                inflections@ == tags_upto(ms, i as int),
            decreases morphemes.len() - i,
        {
            let morpheme = &morphemes[i];
            let next = if i + 1 < morphemes.len() {
                Some(&morphemes[i + 1])
            } else {
                None
            };
            let tag = base_tag_of(morpheme, next);
            if is_imperative(&morpheme.conjugation_form) {
                inflections.push(Inflection::Imperative);
            }
            if let Some(tag) = tag {
                inflections.push(tag);
            }
            i += 1;
            assert(inflections@ =~= tags_upto(ms, i as int));
        }
        inflections
    }
}

} // verus!
