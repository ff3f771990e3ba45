//! Parts of speech of the IPA tag set.

use crate::text::str_eq;
use vstd::prelude::*;
use vstd::std_specs::convert::FromSpecImpl;

verus! {

/// The part of speech of a morpheme.
#[derive(Debug, Clone, Copy, PartialEq, Eq, Structural)]
pub enum PartOfSpeech {
    Noun,
    Verb,
    AuxiliaryVerb,
    Adverb,
    Adjective,
    Adnominal,
    Particle,
    Conjunction,
    Prefix,
    Filler,
    Interjection,
    Symbol,
    Other,
}

impl PartOfSpeech {
    /// The dictionary's tag for this value.
    pub open spec fn name(self) -> Seq<char> {
        match self {
            Self::Noun => "名詞"@,
            Self::Verb => "動詞"@,
            Self::AuxiliaryVerb => "助動詞"@,
            Self::Adverb => "副詞"@,
            Self::Adjective => "形容詞"@,
            Self::Adnominal => "連体詞"@,
            Self::Particle => "助詞"@,
            Self::Conjunction => "接続詞"@,
            Self::Prefix => "接頭詞"@,
            Self::Filler => "フィラー"@,
            Self::Interjection => "感動詞"@,
            Self::Symbol => "記号"@,
            Self::Other => "その他"@,
        }
    }

    /// The value that a tag stands for; a tag that the dictionary does not
    /// define stands for `Other`.
    pub open spec fn from_name(tag: Seq<char>) -> Self {
        if tag == "名詞"@ {
            Self::Noun
        } else if tag == "動詞"@ {
            Self::Verb
        } else if tag == "助動詞"@ {
            Self::AuxiliaryVerb
        } else if tag == "副詞"@ {
            Self::Adverb
        } else if tag == "形容詞"@ {
            Self::Adjective
        } else if tag == "連体詞"@ {
            Self::Adnominal
        } else if tag == "助詞"@ {
            Self::Particle
        } else if tag == "接続詞"@ {
            Self::Conjunction
        } else if tag == "接頭詞"@ {
            Self::Prefix
        } else if tag == "フィラー"@ {
            Self::Filler
        } else if tag == "感動詞"@ {
            Self::Interjection
        } else if tag == "記号"@ {
            Self::Symbol
        } else {
            Self::Other
        }
    }

    /// Every tag reads back as the value that it is the tag of.
    pub proof fn lemma_tag_reads_back(self)
        ensures
            Self::from_name(self.name()) == self,
    {
        reveal_strlit("名詞");
        reveal_strlit("動詞");
        reveal_strlit("助動詞");
        reveal_strlit("副詞");
        reveal_strlit("形容詞");
        reveal_strlit("連体詞");
        reveal_strlit("助詞");
        reveal_strlit("接続詞");
        reveal_strlit("接頭詞");
        reveal_strlit("フィラー");
        reveal_strlit("感動詞");
        reveal_strlit("記号");
        reveal_strlit("その他");
        let tag = self.name();
        if tag.len() > 0 {
            let at_0 = tag[0];
        }
        if tag.len() > 1 {
            let at_1 = tag[1];
        }
        if tag.len() > 2 {
            let at_2 = tag[2];
        }
        if tag.len() > 3 {
            let at_3 = tag[3];
        }
    }

    /// The tag as static text.
    pub fn as_str(&self) -> (tag: &'static str)
        ensures
            tag@ == self.name(),
    {
        match self {
            Self::Noun => "名詞",
            Self::Verb => "動詞",
            Self::AuxiliaryVerb => "助動詞",
            Self::Adverb => "副詞",
            Self::Adjective => "形容詞",
            Self::Adnominal => "連体詞",
            Self::Particle => "助詞",
            Self::Conjunction => "接続詞",
            Self::Prefix => "接頭詞",
            Self::Filler => "フィラー",
            Self::Interjection => "感動詞",
            Self::Symbol => "記号",
            Self::Other => "その他",
        }
    }

    /// The tag as an owned string.
    pub fn to_string(&self) -> (tag: String)
        ensures
            tag@ == self.name(),
    {
        self.as_str().to_owned()
    }
}

impl From<&str> for PartOfSpeech {
    fn from(value: &str) -> (parsed: Self) {
        if str_eq(value, "名詞") {
            Self::Noun
        } else if str_eq(value, "動詞") {
            Self::Verb
        } else if str_eq(value, "助動詞") {
            Self::AuxiliaryVerb
        } else if str_eq(value, "副詞") {
            Self::Adverb
        } else if str_eq(value, "形容詞") {
            Self::Adjective
        } else if str_eq(value, "連体詞") {
            Self::Adnominal
        } else if str_eq(value, "助詞") {
            Self::Particle
        } else if str_eq(value, "接続詞") {
            Self::Conjunction
        } else if str_eq(value, "接頭詞") {
            Self::Prefix
        } else if str_eq(value, "フィラー") {
            Self::Filler
        } else if str_eq(value, "感動詞") {
            Self::Interjection
        } else if str_eq(value, "記号") {
            Self::Symbol
        } else {
            Self::Other
        }
    }
}

impl FromSpecImpl<&str> for PartOfSpeech {
    open spec fn obeys_from_spec() -> bool {
        true
    }

    open spec fn from_spec(value: &str) -> Self {
        Self::from_name(value@)
    }
}
impl Default for PartOfSpeech {
    fn default() -> (pos: Self)
        ensures
            pos == PartOfSpeech::Other,
    {
        Self::Other
    }
}

impl PartOfSpeech {
    /// Position of this value in the declaration, which is how artifacts store it.
    pub open spec fn index(self) -> u32 {
        match self {
            Self::Noun => 0,
            Self::Verb => 1,
            Self::AuxiliaryVerb => 2,
            Self::Adverb => 3,
            Self::Adjective => 4,
            Self::Adnominal => 5,
            Self::Particle => 6,
            Self::Conjunction => 7,
            Self::Prefix => 8,
            Self::Filler => 9,
            Self::Interjection => 10,
            Self::Symbol => 11,
            Self::Other => 12,
        }
    }

    /// The value stored as `index`, if there is one.
    pub open spec fn of_index(index: u32) -> Option<Self> {
        if index == 0 {
            Some(Self::Noun)
        } else if index == 1 {
            Some(Self::Verb)
        } else if index == 2 {
            Some(Self::AuxiliaryVerb)
        } else if index == 3 {
            Some(Self::Adverb)
        } else if index == 4 {
            Some(Self::Adjective)
        } else if index == 5 {
            Some(Self::Adnominal)
        } else if index == 6 {
            Some(Self::Particle)
        } else if index == 7 {
            Some(Self::Conjunction)
        } else if index == 8 {
            Some(Self::Prefix)
        } else if index == 9 {
            Some(Self::Filler)
        } else if index == 10 {
            Some(Self::Interjection)
        } else if index == 11 {
            Some(Self::Symbol)
        } else if index == 12 {
            Some(Self::Other)
        } else {
            None
        }
    }

    pub fn to_index(&self) -> (index: u32)
        ensures
            index == self.index(),
            Self::of_index(index) == Some(*self),
    {
        match self {
            Self::Noun => 0,
            Self::Verb => 1,
            Self::AuxiliaryVerb => 2,
            Self::Adverb => 3,
            Self::Adjective => 4,
            Self::Adnominal => 5,
            Self::Particle => 6,
            Self::Conjunction => 7,
            Self::Prefix => 8,
            Self::Filler => 9,
            Self::Interjection => 10,
            Self::Symbol => 11,
            Self::Other => 12,
        }
    }

    pub fn from_index(index: u32) -> (found: Option<Self>)
        ensures
            found == Self::of_index(index),
            found matches Some(value) ==> value.index() == index,
    {
        match index {
            0 => Some(Self::Noun),
            1 => Some(Self::Verb),
            2 => Some(Self::AuxiliaryVerb),
            3 => Some(Self::Adverb),
            4 => Some(Self::Adjective),
            5 => Some(Self::Adnominal),
            6 => Some(Self::Particle),
            7 => Some(Self::Conjunction),
            8 => Some(Self::Prefix),
            9 => Some(Self::Filler),
            10 => Some(Self::Interjection),
            11 => Some(Self::Symbol),
            12 => Some(Self::Other),
            _ => None,
        }
    }
}
/// A refinement of the part of speech; a morpheme carries up to three.
#[derive(Debug, Clone, Copy, PartialEq, Eq, Structural)]
pub enum SubPartOfSpeech {
    General,
    ProperNoun,
    AdverbialParticle,
    Suffix,
    SentenceEndingParticle,
    Region,
    Attributive,
    AdjectivalNounStem,
    AdverbPossible,
    NonIndependentVerb,
    Counter,
    ConjunctiveParticle,
    CaseParticle,
    CloseBracket,
    AdverbialConjunctiveParticle,
    NaiAdjectivalNounStem,
    AuxiliaryVerbStem,
    Noun,
    Comma,
    CoordinatingParticle,
    Adverbialization,
    Independent,
    Number,
    Alphabet,
    OpenBracket,
    Contraction,
    NonIndependent,
    VerbConnection,
    Special,
    DependentParticle,
    NounConnection,
    Surname,
    Space,
    PersonalName,
    QuotedString,
    AdjectiveConnection,
    Conjunctional,
    NumberConnection,
    ParticleConnection,
    Pronoun,
    Country,
    Phrase,
    Organization,
    Quotation,
    SuruVerbConnection,
    SentenceEndingMark,
    Interjection,
    Other,
}

impl SubPartOfSpeech {
    /// The dictionary's tag for this value.
    pub open spec fn name(self) -> Seq<char> {
        match self {
            Self::General => "一般"@,
            Self::ProperNoun => "固有名詞"@,
            Self::AdverbialParticle => "副助詞"@,
            Self::Suffix => "接尾"@,
            Self::SentenceEndingParticle => "終助詞"@,
            Self::Region => "地域"@,
            Self::Attributive => "連体化"@,
            Self::AdjectivalNounStem => "形容動詞語幹"@,
            Self::AdverbPossible => "副詞可能"@,
            Self::NonIndependentVerb => "動詞非自立的"@,
            Self::Counter => "助数詞"@,
            Self::ConjunctiveParticle => "接続助詞"@,
            Self::CaseParticle => "格助詞"@,
            Self::CloseBracket => "括弧閉"@,
            Self::AdverbialConjunctiveParticle => "副助詞／並立助詞／終助詞"@,
            Self::NaiAdjectivalNounStem => "ナイ形容詞語幹"@,
            Self::AuxiliaryVerbStem => "助動詞語幹"@,
            Self::Noun => "名"@,
            Self::Comma => "読点"@,
            Self::CoordinatingParticle => "並立助詞"@,
            Self::Adverbialization => "副詞化"@,
            Self::Independent => "自立"@,
            Self::Number => "数"@,
            Self::Alphabet => "アルファベット"@,
            Self::OpenBracket => "括弧開"@,
            Self::Contraction => "縮約"@,
            Self::NonIndependent => "非自立"@,
            Self::VerbConnection => "動詞接続"@,
            Self::Special => "特殊"@,
            Self::DependentParticle => "係助詞"@,
            Self::NounConnection => "名詞接続"@,
            Self::Surname => "姓"@,
            Self::Space => "空白"@,
            Self::PersonalName => "人名"@,
            Self::QuotedString => "引用文字列"@,
            Self::AdjectiveConnection => "形容詞接続"@,
            Self::Conjunctional => "接続詞的"@,
            Self::NumberConnection => "数接続"@,
            Self::ParticleConnection => "助詞類接続"@,
            Self::Pronoun => "代名詞"@,
            Self::Country => "国"@,
            Self::Phrase => "連語"@,
            Self::Organization => "組織"@,
            Self::Quotation => "引用"@,
            Self::SuruVerbConnection => "サ変接続"@,
            Self::SentenceEndingMark => "句点"@,
            Self::Interjection => "間投"@,
            Self::Other => "その他"@,
        }
    }

    /// The value that a tag stands for; a tag that the dictionary does not
    /// define stands for `Other`.
    pub open spec fn from_name(tag: Seq<char>) -> Self {
        if tag == "一般"@ {
            Self::General
        } else if tag == "固有名詞"@ {
            Self::ProperNoun
        } else if tag == "副助詞"@ {
            Self::AdverbialParticle
        } else if tag == "接尾"@ {
            Self::Suffix
        } else if tag == "終助詞"@ {
            Self::SentenceEndingParticle
        } else if tag == "地域"@ {
            Self::Region
        } else if tag == "連体化"@ {
            Self::Attributive
        } else if tag == "形容動詞語幹"@ {
            Self::AdjectivalNounStem
        } else if tag == "副詞可能"@ {
            Self::AdverbPossible
        } else if tag == "動詞非自立的"@ {
            Self::NonIndependentVerb
        } else if tag == "助数詞"@ {
            Self::Counter
        } else if tag == "接続助詞"@ {
            Self::ConjunctiveParticle
        } else if tag == "格助詞"@ {
            Self::CaseParticle
        } else if tag == "括弧閉"@ {
            Self::CloseBracket
        } else if tag == "副助詞／並立助詞／終助詞"@ {
            Self::AdverbialConjunctiveParticle
        } else if tag == "ナイ形容詞語幹"@ {
            Self::NaiAdjectivalNounStem
        } else if tag == "助動詞語幹"@ {
            Self::AuxiliaryVerbStem
        } else if tag == "名"@ {
            Self::Noun
        } else if tag == "読点"@ {
            Self::Comma
        } else if tag == "並立助詞"@ {
            Self::CoordinatingParticle
        } else if tag == "副詞化"@ {
            Self::Adverbialization
        } else if tag == "自立"@ {
            Self::Independent
        } else if tag == "数"@ {
            Self::Number
        } else if tag == "アルファベット"@ {
            Self::Alphabet
        } else if tag == "括弧開"@ {
            Self::OpenBracket
        } else if tag == "縮約"@ {
            Self::Contraction
        } else if tag == "非自立"@ {
            Self::NonIndependent
        } else if tag == "動詞接続"@ {
            Self::VerbConnection
        } else if tag == "特殊"@ {
            Self::Special
        } else if tag == "係助詞"@ {
            Self::DependentParticle
        } else if tag == "名詞接続"@ {
            Self::NounConnection
        } else if tag == "姓"@ {
            Self::Surname
        } else if tag == "空白"@ {
            Self::Space
        } else if tag == "人名"@ {
            Self::PersonalName
        } else if tag == "引用文字列"@ {
            Self::QuotedString
        } else if tag == "形容詞接続"@ {
            Self::AdjectiveConnection
        } else if tag == "接続詞的"@ {
            Self::Conjunctional
        } else if tag == "数接続"@ {
            Self::NumberConnection
        } else if tag == "助詞類接続"@ {
            Self::ParticleConnection
        } else if tag == "代名詞"@ {
            Self::Pronoun
        } else if tag == "国"@ {
            Self::Country
        } else if tag == "連語"@ {
            Self::Phrase
        } else if tag == "組織"@ {
            Self::Organization
        } else if tag == "引用"@ {
            Self::Quotation
        } else if tag == "サ変接続"@ {
            Self::SuruVerbConnection
        } else if tag == "句点"@ {
            Self::SentenceEndingMark
        } else if tag == "間投"@ {
            Self::Interjection
        } else {
            Self::Other
        }
    }

    /// Every tag reads back as the value that it is the tag of.
    pub proof fn lemma_tag_reads_back(self)
        ensures
            Self::from_name(self.name()) == self,
    {
        reveal_strlit("一般");
        reveal_strlit("固有名詞");
        reveal_strlit("副助詞");
        reveal_strlit("接尾");
        reveal_strlit("終助詞");
        reveal_strlit("地域");
        reveal_strlit("連体化");
        reveal_strlit("形容動詞語幹");
        reveal_strlit("副詞可能");
        reveal_strlit("動詞非自立的");
        reveal_strlit("助数詞");
        reveal_strlit("接続助詞");
        reveal_strlit("格助詞");
        reveal_strlit("括弧閉");
        reveal_strlit("副助詞／並立助詞／終助詞");
        reveal_strlit("ナイ形容詞語幹");
        reveal_strlit("助動詞語幹");
        reveal_strlit("名");
        reveal_strlit("読点");
        reveal_strlit("並立助詞");
        reveal_strlit("副詞化");
        reveal_strlit("自立");
        reveal_strlit("数");
        reveal_strlit("アルファベット");
        reveal_strlit("括弧開");
        reveal_strlit("縮約");
        reveal_strlit("非自立");
        reveal_strlit("動詞接続");
        reveal_strlit("特殊");
        reveal_strlit("係助詞");
        reveal_strlit("名詞接続");
        reveal_strlit("姓");
        reveal_strlit("空白");
        reveal_strlit("人名");
        reveal_strlit("引用文字列");
        reveal_strlit("形容詞接続");
        reveal_strlit("接続詞的");
        reveal_strlit("数接続");
        reveal_strlit("助詞類接続");
        reveal_strlit("代名詞");
        reveal_strlit("国");
        reveal_strlit("連語");
        reveal_strlit("組織");
        reveal_strlit("引用");
        reveal_strlit("サ変接続");
        reveal_strlit("句点");
        reveal_strlit("間投");
        reveal_strlit("その他");
        let tag = self.name();
        if tag.len() > 0 {
            let at_0 = tag[0];
        }
        if tag.len() > 1 {
            let at_1 = tag[1];
        }
        if tag.len() > 2 {
            let at_2 = tag[2];
        }
        if tag.len() > 3 {
            let at_3 = tag[3];
        }
        if tag.len() > 4 {
            let at_4 = tag[4];
        }
        if tag.len() > 5 {
            let at_5 = tag[5];
        }
        if tag.len() > 6 {
            let at_6 = tag[6];
        }
        if tag.len() > 7 {
            let at_7 = tag[7];
        }
        if tag.len() > 8 {
            let at_8 = tag[8];
        }
        if tag.len() > 9 {
            let at_9 = tag[9];
        }
        if tag.len() > 10 {
            let at_10 = tag[10];
        }
        if tag.len() > 11 {
            let at_11 = tag[11];
        }
    }

    /// The tag as static text.
    pub fn as_str(&self) -> (tag: &'static str)
        ensures
            tag@ == self.name(),
    {
        match self {
            Self::General => "一般",
            Self::ProperNoun => "固有名詞",
            Self::AdverbialParticle => "副助詞",
            Self::Suffix => "接尾",
            Self::SentenceEndingParticle => "終助詞",
            Self::Region => "地域",
            Self::Attributive => "連体化",
            Self::AdjectivalNounStem => "形容動詞語幹",
            Self::AdverbPossible => "副詞可能",
            Self::NonIndependentVerb => "動詞非自立的",
            Self::Counter => "助数詞",
            Self::ConjunctiveParticle => "接続助詞",
            Self::CaseParticle => "格助詞",
            Self::CloseBracket => "括弧閉",
            Self::AdverbialConjunctiveParticle => "副助詞／並立助詞／終助詞",
            Self::NaiAdjectivalNounStem => "ナイ形容詞語幹",
            Self::AuxiliaryVerbStem => "助動詞語幹",
            Self::Noun => "名",
            Self::Comma => "読点",
            Self::CoordinatingParticle => "並立助詞",
            Self::Adverbialization => "副詞化",
            Self::Independent => "自立",
            Self::Number => "数",
            Self::Alphabet => "アルファベット",
            Self::OpenBracket => "括弧開",
            Self::Contraction => "縮約",
            Self::NonIndependent => "非自立",
            Self::VerbConnection => "動詞接続",
            Self::Special => "特殊",
            Self::DependentParticle => "係助詞",
            Self::NounConnection => "名詞接続",
            Self::Surname => "姓",
            Self::Space => "空白",
            Self::PersonalName => "人名",
            Self::QuotedString => "引用文字列",
            Self::AdjectiveConnection => "形容詞接続",
            Self::Conjunctional => "接続詞的",
            Self::NumberConnection => "数接続",
            Self::ParticleConnection => "助詞類接続",
            Self::Pronoun => "代名詞",
            Self::Country => "国",
            Self::Phrase => "連語",
            Self::Organization => "組織",
            Self::Quotation => "引用",
            Self::SuruVerbConnection => "サ変接続",
            Self::SentenceEndingMark => "句点",
            Self::Interjection => "間投",
            Self::Other => "その他",
        }
    }

    /// The tag as an owned string.
    pub fn to_string(&self) -> (tag: String)
        ensures
            tag@ == self.name(),
    {
        self.as_str().to_owned()
    }
}

impl From<&str> for SubPartOfSpeech {
    fn from(value: &str) -> (parsed: Self) {
        if str_eq(value, "一般") {
            Self::General
        } else if str_eq(value, "固有名詞") {
            Self::ProperNoun
        } else if str_eq(value, "副助詞") {
            Self::AdverbialParticle
        } else if str_eq(value, "接尾") {
            Self::Suffix
        } else if str_eq(value, "終助詞") {
            Self::SentenceEndingParticle
        } else if str_eq(value, "地域") {
            Self::Region
        } else if str_eq(value, "連体化") {
            Self::Attributive
        } else if str_eq(value, "形容動詞語幹") {
            Self::AdjectivalNounStem
        } else if str_eq(value, "副詞可能") {
            Self::AdverbPossible
        } else if str_eq(value, "動詞非自立的") {
            Self::NonIndependentVerb
        } else if str_eq(value, "助数詞") {
            Self::Counter
        } else if str_eq(value, "接続助詞") {
            Self::ConjunctiveParticle
        } else if str_eq(value, "格助詞") {
            Self::CaseParticle
        } else if str_eq(value, "括弧閉") {
            Self::CloseBracket
        } else if str_eq(value, "副助詞／並立助詞／終助詞") {
            Self::AdverbialConjunctiveParticle
        } else if str_eq(value, "ナイ形容詞語幹") {
            Self::NaiAdjectivalNounStem
        } else if str_eq(value, "助動詞語幹") {
            Self::AuxiliaryVerbStem
        } else if str_eq(value, "名") {
            Self::Noun
        } else if str_eq(value, "読点") {
            Self::Comma
        } else if str_eq(value, "並立助詞") {
            Self::CoordinatingParticle
        } else if str_eq(value, "副詞化") {
            Self::Adverbialization
        } else if str_eq(value, "自立") {
            Self::Independent
        } else if str_eq(value, "数") {
            Self::Number
        } else if str_eq(value, "アルファベット") {
            Self::Alphabet
        } else if str_eq(value, "括弧開") {
            Self::OpenBracket
        } else if str_eq(value, "縮約") {
            Self::Contraction
        } else if str_eq(value, "非自立") {
            Self::NonIndependent
        } else if str_eq(value, "動詞接続") {
            Self::VerbConnection
        } else if str_eq(value, "特殊") {
            Self::Special
        } else if str_eq(value, "係助詞") {
            Self::DependentParticle
        } else if str_eq(value, "名詞接続") {
            Self::NounConnection
        } else if str_eq(value, "姓") {
            Self::Surname
        } else if str_eq(value, "空白") {
            Self::Space
        } else if str_eq(value, "人名") {
            Self::PersonalName
        } else if str_eq(value, "引用文字列") {
            Self::QuotedString
        } else if str_eq(value, "形容詞接続") {
            Self::AdjectiveConnection
        } else if str_eq(value, "接続詞的") {
            Self::Conjunctional
        } else if str_eq(value, "数接続") {
            Self::NumberConnection
        } else if str_eq(value, "助詞類接続") {
            Self::ParticleConnection
        } else if str_eq(value, "代名詞") {
            Self::Pronoun
        } else if str_eq(value, "国") {
            Self::Country
        } else if str_eq(value, "連語") {
            Self::Phrase
        } else if str_eq(value, "組織") {
            Self::Organization
        } else if str_eq(value, "引用") {
            Self::Quotation
        } else if str_eq(value, "サ変接続") {
            Self::SuruVerbConnection
        } else if str_eq(value, "句点") {
            Self::SentenceEndingMark
        } else if str_eq(value, "間投") {
            Self::Interjection
        } else {
            Self::Other
        }
    }
}

impl FromSpecImpl<&str> for SubPartOfSpeech {
    open spec fn obeys_from_spec() -> bool {
        true
    }

    open spec fn from_spec(value: &str) -> Self {
        Self::from_name(value@)
    }
}
impl SubPartOfSpeech {
    /// Position of this value in the declaration, which is how artifacts store it.
    pub open spec fn index(self) -> u32 {
        match self {
            Self::General => 0,
            Self::ProperNoun => 1,
            Self::AdverbialParticle => 2,
            Self::Suffix => 3,
            Self::SentenceEndingParticle => 4,
            Self::Region => 5,
            Self::Attributive => 6,
            Self::AdjectivalNounStem => 7,
            Self::AdverbPossible => 8,
            Self::NonIndependentVerb => 9,
            Self::Counter => 10,
            Self::ConjunctiveParticle => 11,
            Self::CaseParticle => 12,
            Self::CloseBracket => 13,
            Self::AdverbialConjunctiveParticle => 14,
            Self::NaiAdjectivalNounStem => 15,
            Self::AuxiliaryVerbStem => 16,
            Self::Noun => 17,
            Self::Comma => 18,
            Self::CoordinatingParticle => 19,
            Self::Adverbialization => 20,
            Self::Independent => 21,
            Self::Number => 22,
            Self::Alphabet => 23,
            Self::OpenBracket => 24,
            Self::Contraction => 25,
            Self::NonIndependent => 26,
            Self::VerbConnection => 27,
            Self::Special => 28,
            Self::DependentParticle => 29,
            Self::NounConnection => 30,
            Self::Surname => 31,
            Self::Space => 32,
            Self::PersonalName => 33,
            Self::QuotedString => 34,
            Self::AdjectiveConnection => 35,
            Self::Conjunctional => 36,
            Self::NumberConnection => 37,
            Self::ParticleConnection => 38,
            Self::Pronoun => 39,
            Self::Country => 40,
            Self::Phrase => 41,
            Self::Organization => 42,
            Self::Quotation => 43,
            Self::SuruVerbConnection => 44,
            Self::SentenceEndingMark => 45,
            Self::Interjection => 46,
            Self::Other => 47,
        }
    }

    /// The value stored as `index`, if there is one.
    pub open spec fn of_index(index: u32) -> Option<Self> {
        if index == 0 {
            Some(Self::General)
        } else if index == 1 {
            Some(Self::ProperNoun)
        } else if index == 2 {
            Some(Self::AdverbialParticle)
        } else if index == 3 {
            Some(Self::Suffix)
        } else if index == 4 {
            Some(Self::SentenceEndingParticle)
        } else if index == 5 {
            Some(Self::Region)
        } else if index == 6 {
            Some(Self::Attributive)
        } else if index == 7 {
            Some(Self::AdjectivalNounStem)
        } else if index == 8 {
            Some(Self::AdverbPossible)
        } else if index == 9 {
            Some(Self::NonIndependentVerb)
        } else if index == 10 {
            Some(Self::Counter)
        } else if index == 11 {
            Some(Self::ConjunctiveParticle)
        } else if index == 12 {
            Some(Self::CaseParticle)
        } else if index == 13 {
            Some(Self::CloseBracket)
        } else if index == 14 {
            Some(Self::AdverbialConjunctiveParticle)
        } else if index == 15 {
            Some(Self::NaiAdjectivalNounStem)
        } else if index == 16 {
            Some(Self::AuxiliaryVerbStem)
        } else if index == 17 {
            Some(Self::Noun)
        } else if index == 18 {
            Some(Self::Comma)
        } else if index == 19 {
            Some(Self::CoordinatingParticle)
        } else if index == 20 {
            Some(Self::Adverbialization)
        } else if index == 21 {
            Some(Self::Independent)
        } else if index == 22 {
            Some(Self::Number)
        } else if index == 23 {
            Some(Self::Alphabet)
        } else if index == 24 {
            Some(Self::OpenBracket)
        } else if index == 25 {
            Some(Self::Contraction)
        } else if index == 26 {
            Some(Self::NonIndependent)
        } else if index == 27 {
            Some(Self::VerbConnection)
        } else if index == 28 {
            Some(Self::Special)
        } else if index == 29 {
            Some(Self::DependentParticle)
        } else if index == 30 {
            Some(Self::NounConnection)
        } else if index == 31 {
            Some(Self::Surname)
        } else if index == 32 {
            Some(Self::Space)
        } else if index == 33 {
            Some(Self::PersonalName)
        } else if index == 34 {
            Some(Self::QuotedString)
        } else if index == 35 {
            Some(Self::AdjectiveConnection)
        } else if index == 36 {
            Some(Self::Conjunctional)
        } else if index == 37 {
            Some(Self::NumberConnection)
        } else if index == 38 {
            Some(Self::ParticleConnection)
        } else if index == 39 {
            Some(Self::Pronoun)
        } else if index == 40 {
            Some(Self::Country)
        } else if index == 41 {
            Some(Self::Phrase)
        } else if index == 42 {
            Some(Self::Organization)
        } else if index == 43 {
            Some(Self::Quotation)
        } else if index == 44 {
            Some(Self::SuruVerbConnection)
        } else if index == 45 {
            Some(Self::SentenceEndingMark)
        } else if index == 46 {
            Some(Self::Interjection)
        } else if index == 47 {
            Some(Self::Other)
        } else {
            None
        }
    }

    pub fn to_index(&self) -> (index: u32)
        ensures
            index == self.index(),
            Self::of_index(index) == Some(*self),
    {
        match self {
            Self::General => 0,
            Self::ProperNoun => 1,
            Self::AdverbialParticle => 2,
            Self::Suffix => 3,
            Self::SentenceEndingParticle => 4,
            Self::Region => 5,
            Self::Attributive => 6,
            Self::AdjectivalNounStem => 7,
            Self::AdverbPossible => 8,
            Self::NonIndependentVerb => 9,
            Self::Counter => 10,
            Self::ConjunctiveParticle => 11,
            Self::CaseParticle => 12,
            Self::CloseBracket => 13,
            Self::AdverbialConjunctiveParticle => 14,
            Self::NaiAdjectivalNounStem => 15,
            Self::AuxiliaryVerbStem => 16,
            Self::Noun => 17,
            Self::Comma => 18,
            Self::CoordinatingParticle => 19,
            Self::Adverbialization => 20,
            Self::Independent => 21,
            Self::Number => 22,
            Self::Alphabet => 23,
            Self::OpenBracket => 24,
            Self::Contraction => 25,
            Self::NonIndependent => 26,
            Self::VerbConnection => 27,
            Self::Special => 28,
            Self::DependentParticle => 29,
            Self::NounConnection => 30,
            Self::Surname => 31,
            Self::Space => 32,
            Self::PersonalName => 33,
            Self::QuotedString => 34,
            Self::AdjectiveConnection => 35,
            Self::Conjunctional => 36,
            Self::NumberConnection => 37,
            Self::ParticleConnection => 38,
            Self::Pronoun => 39,
            Self::Country => 40,
            Self::Phrase => 41,
            Self::Organization => 42,
            Self::Quotation => 43,
            Self::SuruVerbConnection => 44,
            Self::SentenceEndingMark => 45,
            Self::Interjection => 46,
            Self::Other => 47,
        }
    }

    pub fn from_index(index: u32) -> (found: Option<Self>)
        ensures
            found == Self::of_index(index),
            found matches Some(value) ==> value.index() == index,
    {
        match index {
            0 => Some(Self::General),
            1 => Some(Self::ProperNoun),
            2 => Some(Self::AdverbialParticle),
            3 => Some(Self::Suffix),
            4 => Some(Self::SentenceEndingParticle),
            5 => Some(Self::Region),
            6 => Some(Self::Attributive),
            7 => Some(Self::AdjectivalNounStem),
            8 => Some(Self::AdverbPossible),
            9 => Some(Self::NonIndependentVerb),
            10 => Some(Self::Counter),
            11 => Some(Self::ConjunctiveParticle),
            12 => Some(Self::CaseParticle),
            13 => Some(Self::CloseBracket),
            14 => Some(Self::AdverbialConjunctiveParticle),
            15 => Some(Self::NaiAdjectivalNounStem),
            16 => Some(Self::AuxiliaryVerbStem),
            17 => Some(Self::Noun),
            18 => Some(Self::Comma),
            19 => Some(Self::CoordinatingParticle),
            20 => Some(Self::Adverbialization),
            21 => Some(Self::Independent),
            22 => Some(Self::Number),
            23 => Some(Self::Alphabet),
            24 => Some(Self::OpenBracket),
            25 => Some(Self::Contraction),
            26 => Some(Self::NonIndependent),
            27 => Some(Self::VerbConnection),
            28 => Some(Self::Special),
            29 => Some(Self::DependentParticle),
            30 => Some(Self::NounConnection),
            31 => Some(Self::Surname),
            32 => Some(Self::Space),
            33 => Some(Self::PersonalName),
            34 => Some(Self::QuotedString),
            35 => Some(Self::AdjectiveConnection),
            36 => Some(Self::Conjunctional),
            37 => Some(Self::NumberConnection),
            38 => Some(Self::ParticleConnection),
            39 => Some(Self::Pronoun),
            40 => Some(Self::Country),
            41 => Some(Self::Phrase),
            42 => Some(Self::Organization),
            43 => Some(Self::Quotation),
            44 => Some(Self::SuruVerbConnection),
            45 => Some(Self::SentenceEndingMark),
            46 => Some(Self::Interjection),
            47 => Some(Self::Other),
            _ => None,
        }
    }
}
} // verus!
