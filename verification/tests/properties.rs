use kaiseki::char_table::{categories_contain, CharCategory, CharTable};
use kaiseki::codec::{feature_from_raw, feature_to_raw, RawFeature};
use kaiseki::conjugation::{ConjugationForm, ConjugationType};
use kaiseki::dict::EntryDictionary;
use kaiseki::error::ArtifactError;
use kaiseki::feature::Feature;
use kaiseki::inflection::Inflection;
use kaiseki::lattice::{Lattice, Node, MAX_LATTICE_LEN};
use kaiseki::matrix::{CostMatrix, FlatMatrix};
use kaiseki::morpheme::Morpheme;
use kaiseki::pos::{PartOfSpeech, SubPartOfSpeech};
use kaiseki::searcher::FstSearcher;
use kaiseki::term::{ExtractedTerm, Term};
use kaiseki::text::{parse_i16, parse_number, parse_u16, parse_u8, parse_usize};
use kaiseki::tokenizer::Tokenizer;
use kaiseki::unk::UnknownDictionary;
use kaiseki::verb::VerbInflection;
use kaiseki::word::{group_words, Word, WordClass};

#[test]
fn every_part_of_speech_reads_back_from_its_tag() {
    let mut count = 0;
    for index in 0..64 {
        if let Some(pos) = PartOfSpeech::from_index(index) {
            assert_eq!(PartOfSpeech::from(pos.as_str()), pos);
            assert_eq!(pos.to_string(), pos.as_str());
            assert_eq!(pos.to_index(), index);
            count += 1;
        }
    }
    assert_eq!(count, 13);
    assert_eq!(PartOfSpeech::from("名詞"), PartOfSpeech::Noun);
    assert_eq!(PartOfSpeech::Adnominal.to_string(), "連体詞");
    assert_eq!(PartOfSpeech::from("no such tag"), PartOfSpeech::Other);
    assert_eq!(PartOfSpeech::default(), PartOfSpeech::Other);
    assert_eq!(PartOfSpeech::from_index(13), None);
}

#[test]
fn every_sub_part_of_speech_reads_back_from_its_tag() {
    let mut count = 0;
    for index in 0..128 {
        if let Some(pos) = SubPartOfSpeech::from_index(index) {
            assert_eq!(SubPartOfSpeech::from(pos.as_str()), pos);
            assert_eq!(pos.to_index(), index);
            count += 1;
        }
    }
    assert_eq!(count, 48);
    assert_eq!(SubPartOfSpeech::from("助数詞"), SubPartOfSpeech::Counter);
    assert_eq!(SubPartOfSpeech::from("副助詞／並立助詞／終助詞").to_index(), 14);
    assert_eq!(SubPartOfSpeech::from(""), SubPartOfSpeech::Other);
}

#[test]
fn every_conjugation_reads_back_from_its_tag() {
    let mut types = 0;
    let mut forms = 0;
    for index in 0..128 {
        if let Some(value) = ConjugationType::from_index(index) {
            assert_eq!(ConjugationType::from(value.as_str()), value);
            assert_eq!(value.to_index(), index);
            types += 1;
        }
        if let Some(value) = ConjugationForm::from_index(index) {
            assert_eq!(ConjugationForm::from(value.as_str()), value);
            assert_eq!(value.to_index(), index);
            forms += 1;
        }
    }
    assert_eq!((types, forms), (58, 28));
    assert_eq!(ConjugationType::from("五段・マ行"), ConjugationType::GodanMaRow);
    assert_eq!(ConjugationForm::from("命令ｒｏ"), ConjugationForm::ImperativeRo);
    assert_eq!(ConjugationForm::ImperativeRo.to_string(), "命令ｒｏ");
    assert_eq!(ConjugationForm::from("?"), ConjugationForm::Unknown);
    assert_eq!(ConjugationType::from("?"), ConjugationType::Unknown);
}

fn morpheme(text: &str, start: usize, pos: PartOfSpeech, sub: &[SubPartOfSpeech]) -> Morpheme {
    let feature = Feature {
        part_of_speech: pos,
        sub_part_of_speech: sub.to_vec(),
        conjugation_type: None,
        conjugation_form: None,
        base_form: Some(text.to_owned()),
        reading: None,
    };
    Morpheme::new(text.to_owned(), start, start + text.len(), feature)
}

#[test]
fn morphemes_take_over_their_features() {
    let feature = Feature {
        part_of_speech: PartOfSpeech::Verb,
        sub_part_of_speech: vec![SubPartOfSpeech::Independent],
        conjugation_type: Some(ConjugationType::Ichidan),
        conjugation_form: Some(ConjugationForm::BasicForm),
        base_form: Some("食べる".to_owned()),
        reading: Some("タベル".to_owned()),
    };
    let m = Morpheme::new("食べる".to_owned(), 3, 12, feature.clone());
    assert_eq!((m.text.as_str(), m.start, m.end), ("食べる", 3, 12));
    assert_eq!(m.part_of_speech, feature.part_of_speech);
    assert_eq!(m.sub_part_of_speech, feature.sub_part_of_speech);
    assert_eq!(m.conjugation_type, feature.conjugation_type);
    assert_eq!(m.conjugation_form, feature.conjugation_form);
    assert_eq!(m.base_form, feature.base_form);
    assert_eq!(m.reading, feature.reading);
    assert_eq!(m.clone(), m);
    assert!(m.is_verb() && m.has_inflection() && !m.is_inflection());
    assert!(m.has_sub_pos(&SubPartOfSpeech::Independent));
    assert!(!m.has_sub_pos(&SubPartOfSpeech::Suffix));
    assert_eq!(Feature::default().part_of_speech, PartOfSpeech::Other);
    assert!(Feature::default().sub_part_of_speech.is_empty());
    assert_eq!(Feature::default().base_form, None);
}

#[test]
fn inflecting_morphemes_are_told_apart() {
    let te = morpheme("て", 0, PartOfSpeech::Particle, &[SubPartOfSpeech::ConjunctiveParticle]);
    let de = morpheme("で", 0, PartOfSpeech::Particle, &[SubPartOfSpeech::ConjunctiveParticle]);
    let ba = morpheme("ば", 0, PartOfSpeech::Particle, &[SubPartOfSpeech::ConjunctiveParticle]);
    let ga = morpheme("が", 0, PartOfSpeech::Particle, &[SubPartOfSpeech::ConjunctiveParticle]);
    let case_de = morpheme("で", 0, PartOfSpeech::Particle, &[SubPartOfSpeech::CaseParticle]);
    let aux = morpheme("た", 0, PartOfSpeech::AuxiliaryVerb, &[]);
    let iru = morpheme("いる", 0, PartOfSpeech::Verb, &[SubPartOfSpeech::NonIndependent]);
    let rareru = morpheme("られる", 0, PartOfSpeech::Verb, &[SubPartOfSpeech::Suffix]);
    let taberu = morpheme("食べる", 0, PartOfSpeech::Verb, &[SubPartOfSpeech::Independent]);
    let noun_suffix = morpheme("都", 0, PartOfSpeech::Noun, &[SubPartOfSpeech::Suffix]);
    assert!(te.is_inflection() && de.is_inflection() && ba.is_inflection());
    assert!(aux.is_inflection() && iru.is_inflection() && rareru.is_inflection());
    assert!(!ga.is_inflection() && !case_de.is_inflection());
    assert!(!taberu.is_inflection() && !noun_suffix.is_inflection());
    assert!(aux.has_inflection() && taberu.has_inflection());
    assert!(morpheme("赤い", 0, PartOfSpeech::Adjective, &[]).has_inflection());
    assert!(!te.has_inflection() && !noun_suffix.has_inflection());
    assert!(te.is_particle() && aux.is_auxiliary_verb() && noun_suffix.is_noun());
    assert!(noun_suffix.is_suffix() && !rareru.is_suffix());
    assert!(morpheme("、", 0, PartOfSpeech::Symbol, &[]).is_symbol());
    assert!(morpheme("赤い", 0, PartOfSpeech::Adjective, &[]).is_adjective());
    assert!(morpheme("この", 0, PartOfSpeech::Adnominal, &[]).is_adnominal());
    assert!(morpheme("とても", 0, PartOfSpeech::Adverb, &[]).is_adverb());
    assert!(morpheme("お", 0, PartOfSpeech::Prefix, &[]).is_prefix());
    assert!(morpheme("えーと", 0, PartOfSpeech::Filler, &[]).is_filler());
    assert!(morpheme("ああ", 0, PartOfSpeech::Interjection, &[]).is_interjection());
    assert!(morpheme("しかし", 0, PartOfSpeech::Conjunction, &[]).is_conjunction());
}

fn with_form(text: &str, base: &str, form: Option<ConjugationForm>) -> Morpheme {
    let feature = Feature {
        part_of_speech: PartOfSpeech::AuxiliaryVerb,
        sub_part_of_speech: vec![],
        conjugation_type: None,
        conjugation_form: form,
        base_form: Some(base.to_owned()),
        reading: None,
    };
    Morpheme::new(text.to_owned(), 0, text.len(), feature)
}

#[test]
fn inflections_follow_the_table() {
    let past = with_form("た", "た", Some(ConjugationForm::BasicForm));
    let tara = with_form("たら", "た", Some(ConjugationForm::HypotheticalForm));
    let other = with_form("たろ", "た", Some(ConjugationForm::IrrealisUConnection));
    let bare = with_form("た", "た", None);
    assert_eq!(Inflection::from_morphemes(&[past.clone()]), vec![Inflection::Past]);
    assert_eq!(Inflection::from_morphemes(&[tara]), vec![Inflection::Tara]);
    assert_eq!(Inflection::from_morphemes(&[other]), vec![]);
    assert_eq!(Inflection::from_morphemes(&[bare]), vec![]);
    assert_eq!(Inflection::from_morphemes(&[]), vec![]);

    // an imperative form comes before what the base form gives
    let both = with_form("なさい", "ない", Some(ConjugationForm::ImperativeI));
    assert_eq!(
        Inflection::from_morphemes(&[both]),
        vec![Inflection::Imperative, Inflection::Negative]
    );
    for form in [
        ConjugationForm::ImperativeE,
        ConjugationForm::ImperativeI,
        ConjugationForm::ImperativeYo,
        ConjugationForm::ImperativeRo,
    ] {
        let m = with_form("x", "x", Some(form));
        assert_eq!(Inflection::from_morphemes(&[m.clone()]), vec![Inflection::Imperative]);
        assert_eq!(VerbInflection::from_morphemes(&[m]), vec![VerbInflection::Imperative]);
    }

    // what follows `て` or `で` decides
    let te = with_form("て", "て", None);
    let de = with_form("で", "で", None);
    for (next, tag) in [
        ("いる", Inflection::TeIru),
        ("おく", Inflection::TeOku),
        ("くれる", Inflection::TeKureru),
        ("もらう", Inflection::TeMorau),
        ("いく", Inflection::TeIku),
        ("行く", Inflection::TeIku),
        ("くる", Inflection::Tekuru),
        ("来る", Inflection::Tekuru),
        ("みる", Inflection::TeMiru),
        ("しまう", Inflection::TeShimau),
        ("ある", Inflection::Te),
    ] {
        let follower = with_form(next, next, None);
        assert_eq!(Inflection::from_morphemes(&[te.clone(), follower.clone()]), vec![tag]);
        assert_eq!(Inflection::from_morphemes(&[de.clone(), follower]), vec![tag]);
    }
    assert_eq!(Inflection::from_morphemes(&[te.clone()]), vec![Inflection::Te]);

    // the older table of verbs knows `て` only, and neither しまう nor ちゃう nor れる
    let shimau = with_form("しまう", "しまう", None);
    assert_eq!(VerbInflection::from_morphemes(&[te.clone(), shimau]), vec![VerbInflection::Te]);
    assert_eq!(VerbInflection::from_morphemes(&[de]), vec![]);
    assert_eq!(VerbInflection::from_morphemes(&[with_form("ちゃう", "ちゃう", None)]), vec![]);
    assert_eq!(VerbInflection::from_morphemes(&[with_form("れる", "れる", None)]), vec![]);
    assert_eq!(VerbInflection::from_morphemes(&[past]), vec![VerbInflection::Past]);

    for (base, tag) in [
        ("ます", Inflection::Polite),
        ("ない", Inflection::Negative),
        ("ん", Inflection::Negative),
        ("ちゃう", Inflection::Chau),
        ("う", Inflection::Volotional),
        ("ば", Inflection::Ba),
        ("れる", Inflection::Passive),
        ("させる", Inflection::Causative),
        ("られる", Inflection::PotentialPassive),
        ("たい", Inflection::Tai),
    ] {
        assert_eq!(Inflection::from_morphemes(&[with_form(base, base, None)]), vec![tag]);
    }
}

#[test]
fn word_class_follows_the_head() {
    let class = |pos, sub: &[SubPartOfSpeech]| WordClass::from(&morpheme("x", 0, pos, sub));
    assert_eq!(class(PartOfSpeech::Noun, &[SubPartOfSpeech::Pronoun]), WordClass::Pronoun);
    assert_eq!(
        class(PartOfSpeech::Noun, &[SubPartOfSpeech::AdjectivalNounStem]),
        WordClass::Adjective
    );
    assert_eq!(
        class(PartOfSpeech::Noun, &[SubPartOfSpeech::NaiAdjectivalNounStem]),
        WordClass::Adjective
    );
    assert_eq!(
        class(PartOfSpeech::Noun, &[SubPartOfSpeech::Suffix, SubPartOfSpeech::Counter]),
        WordClass::Counter
    );
    assert_eq!(class(PartOfSpeech::Noun, &[SubPartOfSpeech::Suffix]), WordClass::Suffix);
    assert_eq!(class(PartOfSpeech::Particle, &[SubPartOfSpeech::Phrase]), WordClass::Expression);
    // a verb that is a suffix is a verb: only nouns give the class
    assert_eq!(class(PartOfSpeech::Verb, &[SubPartOfSpeech::Suffix]), WordClass::Verb);
    for (pos, expected) in [
        (PartOfSpeech::Noun, WordClass::Noun),
        (PartOfSpeech::Verb, WordClass::Verb),
        (PartOfSpeech::AuxiliaryVerb, WordClass::AuxiliaryVerb),
        (PartOfSpeech::Adverb, WordClass::Adverb),
        (PartOfSpeech::Adjective, WordClass::Adjective),
        (PartOfSpeech::Adnominal, WordClass::PreNoun),
        (PartOfSpeech::Particle, WordClass::Particle),
        (PartOfSpeech::Conjunction, WordClass::Conjunction),
        (PartOfSpeech::Prefix, WordClass::Prefix),
        (PartOfSpeech::Filler, WordClass::Filler),
        (PartOfSpeech::Interjection, WordClass::Interjection),
        (PartOfSpeech::Symbol, WordClass::Unclassified),
        (PartOfSpeech::Other, WordClass::Unclassified),
    ] {
        assert_eq!(class(pos, &[SubPartOfSpeech::General]), expected);
    }
    assert_eq!(WordClass::PreNoun.to_string(), "Pre-noun");
    assert_eq!(WordClass::AuxiliaryVerb.to_string(), "Auxiliary verb");
    assert_eq!(WordClass::Counter.to_string(), "Counter");
}

#[test]
fn words_join_a_head_with_what_inflects_it() {
    assert_eq!(Word::from_morphemes(&[]), None);

    let mut head = morpheme("会っ", 3, PartOfSpeech::Verb, &[SubPartOfSpeech::Independent]);
    head.base_form = Some("会う".to_owned());
    let ta = with_form("た", "た", Some(ConjugationForm::BasicForm));
    let ta = Morpheme { start: 9, end: 12, ..ta };
    let word = Word::from_morphemes(&[head.clone(), ta.clone()]).unwrap();
    assert_eq!(word.text, "会った");
    assert_eq!((word.start, word.end), (3, 12));
    assert_eq!(word.base_form, "会う");
    assert_eq!(word.class, WordClass::Verb);
    assert_eq!(word.morphemes, vec![head.clone(), ta.clone()]);
    assert_eq!(word.inflections, vec![Inflection::Past]);
    assert!(word.is_verb() && word.has_inflections() && !word.is_noun());

    // without a base form the text of the head stands for it
    let mut bare = morpheme("彼", 0, PartOfSpeech::Noun, &[SubPartOfSpeech::Pronoun]);
    bare.base_form = None;
    let word = Word::from_morphemes(&[bare.clone()]).unwrap();
    assert_eq!(word.base_form, "彼");
    assert!(word.is_pronoun() && !word.has_inflections());

    // symbols are left out; a noun takes nothing after it; a verb takes all that inflects
    let comma = morpheme("、", 3, PartOfSpeech::Symbol, &[SubPartOfSpeech::Comma]);
    let te = morpheme("て", 12, PartOfSpeech::Particle, &[SubPartOfSpeech::ConjunctiveParticle]);
    let words = group_words(&vec![
        bare.clone(),
        ta.clone(),
        comma.clone(),
        head.clone(),
        ta.clone(),
        te.clone(),
        bare.clone(),
        comma,
    ]);
    let texts: Vec<_> = words.iter().map(|w| w.text.as_str()).collect();
    assert_eq!(texts, vec!["彼", "た", "会ったて", "彼"]);
    assert!(group_words(&vec![]).is_empty());

    let counter = morpheme("個", 0, PartOfSpeech::Noun, &[SubPartOfSpeech::Counter]);
    let word = Word::from_morphemes(&[counter]).unwrap();
    assert!(word.is_counter() && !word.is_expression());
    let phrase = morpheme("という", 0, PartOfSpeech::Particle, &[SubPartOfSpeech::Phrase]);
    let word = Word::from_morphemes(&[phrase]).unwrap();
    assert!(word.is_expression() && !word.is_counter() && !word.is_particle());
    let class_of = |pos| Word::from_morphemes(&[morpheme("x", 0, pos, &[])]).unwrap();
    assert!(class_of(PartOfSpeech::Adnominal).is_adnominal());
    assert!(class_of(PartOfSpeech::Particle).is_particle());
    assert!(class_of(PartOfSpeech::Adverb).is_adverb());
    assert!(class_of(PartOfSpeech::AuxiliaryVerb).is_auxiliary_verb());
    assert!(class_of(PartOfSpeech::Adjective).is_adjective());
    assert!(class_of(PartOfSpeech::Prefix).is_prefix());
    assert!(class_of(PartOfSpeech::Filler).is_filler());
    assert!(class_of(PartOfSpeech::Interjection).is_interjection());
    assert!(class_of(PartOfSpeech::Conjunction).is_conjunction());
    let suffix = morpheme("都", 0, PartOfSpeech::Noun, &[SubPartOfSpeech::Suffix]);
    assert!(Word::from_morphemes(&[suffix]).unwrap().is_suffix());
}

#[test]
fn matrix_is_stored_row_after_row() {
    let mut grid: FlatMatrix<i16> = FlatMatrix::new(2, 3);
    assert_eq!(grid.values(), &[0; 6]);
    grid.set(0, 2, 5);
    grid.set(1, 0, 7);
    assert_eq!(grid.values(), &[0, 0, 5, 7, 0, 0]);
    assert_eq!(*grid.get(0, 2), 5);
    assert_eq!(grid.get_cloned(1, 0), 7);
    assert_eq!(grid.get_row(0), &[0, 0, 5]);
    assert_eq!(grid.get_row(1), &[7, 0, 0]);
    assert_eq!((grid.row_count(), grid.col_count()), (2, 3));

    let matrix = CostMatrix::new(FlatMatrix::from_values(2, 3, vec![1, 2, 3, 4, 5, 6]).unwrap());
    assert_eq!(matrix.get(1, 0), 4);
    assert_eq!(matrix.get(0, 2), 3);
    assert!(FlatMatrix::from_values(2, 3, vec![0i16; 5]).is_none());
    assert!(FlatMatrix::from_values(usize::MAX, 2, vec![0i16; 2]).is_none());

    let stored = matrix.to_bytes().unwrap();
    let read = CostMatrix::load(&stored).unwrap();
    assert_eq!(read.to_raw(), (2, 3, vec![1, 2, 3, 4, 5, 6]));
    assert!(matches!(CostMatrix::from_raw((2, 2, vec![0; 3])), Err(ArtifactError::Malformed)));
    assert!(matches!(CostMatrix::load(&[0xFF]), Err(ArtifactError::DecodeError(_))));
}

fn simple_feature(pos: PartOfSpeech) -> Feature {
    Feature { part_of_speech: pos, ..Feature::default() }
}

#[test]
fn artifacts_read_back_what_was_stored() {
    let feature = Feature {
        part_of_speech: PartOfSpeech::Verb,
        sub_part_of_speech: vec![SubPartOfSpeech::Independent, SubPartOfSpeech::Other],
        conjugation_type: Some(ConjugationType::Ichidan),
        conjugation_form: Some(ConjugationForm::BasicForm),
        base_form: Some("食べる".to_owned()),
        reading: None,
    };
    let raw = feature_to_raw(&feature);
    assert_eq!(raw, (1, vec![21, 47], Some(33), Some(7), Some("食べる".to_owned()), None));
    assert_eq!(feature_from_raw(&raw), Some(feature.clone()));
    let bad: RawFeature = (13, vec![], None, None, None, None);
    assert_eq!(feature_from_raw(&bad), None);
    let bad: RawFeature = (0, vec![48], None, None, None, None);
    assert_eq!(feature_from_raw(&bad), None);
    let bad: RawFeature = (0, vec![], Some(58), None, None, None);
    assert_eq!(feature_from_raw(&bad), None);
    let bad: RawFeature = (0, vec![], None, Some(28), None, None);
    assert_eq!(feature_from_raw(&bad), None);

    let dict = EntryDictionary::new(
        vec![Term::new(1, -5), Term::new(65535, 32767)],
        vec![feature.clone(), simple_feature(PartOfSpeech::Noun)],
    );
    let read = EntryDictionary::load(&dict.to_bytes().unwrap()).unwrap();
    assert_eq!(read.get_term(0), Some(&Term::new(1, -5)));
    assert_eq!(read.get_term(1), Some(&Term::new(65535, 32767)));
    assert_eq!(read.get_term(2), None);
    assert_eq!(read.get_feature(0), Some(&feature));
    assert_eq!(read.to_raw(), dict.to_raw());
    let bad = bincode::encode_to_vec(
        (vec![(1u16, 2i16)], vec![(99u32, Vec::<u32>::new(), None::<u32>, None::<u32>, None::<String>, None::<String>)]),
        bincode::config::standard(),
    )
    .unwrap();
    assert!(matches!(EntryDictionary::load(&bad), Err(ArtifactError::InvalidVariant)));
    assert!(matches!(EntryDictionary::load(&[]), Err(ArtifactError::DecodeError(_))));

    let unk = UnknownDictionary::new(
        vec![
            ("A".to_owned(), vec![(0, Term::new(1, 10))]),
            ("B".to_owned(), vec![(1, Term::new(2, 20)), (2, Term::new(3, 30))]),
            ("A".to_owned(), vec![(3, Term::new(4, 40))]),
        ],
        vec![simple_feature(PartOfSpeech::Symbol); 4],
    );
    // of two buckets with one name the later one counts
    assert_eq!(unk.get_terms("A").unwrap(), &vec![(3, Term::new(4, 40))]);
    let read = UnknownDictionary::load(&unk.to_bytes().unwrap()).unwrap();
    assert_eq!(read.get_terms("A").unwrap(), &vec![(3, Term::new(4, 40))]);
    assert_eq!(read.get_terms("B").unwrap(), &vec![(1, Term::new(2, 20)), (2, Term::new(3, 30))]);
    assert!(read.get_terms("C").is_none());
    assert_eq!(read.get_feat(3).unwrap().part_of_speech, PartOfSpeech::Symbol);
    assert!(read.get_feat(4).is_none());
    assert!(matches!(UnknownDictionary::load(&[1]), Err(ArtifactError::DecodeError(_))));

    let table = CharTable::new(vec![
        vec![],
        vec![CharCategory::new("X".to_owned(), true, false, 3)],
    ]);
    let read = CharTable::load(&table.to_bytes().unwrap()).unwrap();
    assert_eq!(read.lookup('\u{1}'), &[CharCategory::new("X".to_owned(), true, false, 3)][..]);
    let fallback = [CharCategory::new("DEFAULT".to_owned(), false, true, 0)];
    assert_eq!(read.lookup('\u{0}'), &fallback[..]);
    assert_eq!(read.lookup('\u{2}'), &fallback[..]);
    assert_eq!(read.to_raw(), table.to_raw());
    assert!(matches!(CharTable::load(&[5]), Err(ArtifactError::DecodeError(_))));
    assert!(categories_contain(read.lookup('\u{1}'), &CharCategory::new("X".to_owned(), true, false, 3)));
    assert!(!categories_contain(read.lookup('\u{1}'), &CharCategory::new("X".to_owned(), true, true, 3)));
    assert_eq!(CharCategory::default(), CharCategory::new(String::new(), false, false, 0));
}

#[test]
fn numbers_parse_as_decimal_digits_with_a_sign() {
    assert_eq!(parse_u16("0"), Some(0));
    assert_eq!(parse_u16("65535"), Some(65535));
    assert_eq!(parse_u16("65536"), None);
    assert_eq!(parse_u16("+12"), Some(12));
    assert_eq!(parse_u16("0012"), Some(12));
    assert_eq!(parse_u16("-1"), None);
    assert_eq!(parse_u16("-0"), None);
    assert_eq!(parse_u16(""), None);
    assert_eq!(parse_u16("+"), None);
    assert_eq!(parse_u16("1 "), None);
    assert_eq!(parse_u16("１"), None);
    assert_eq!(parse_u16("99999999999999999999999999"), None);
    assert_eq!(parse_i16("-32768"), Some(-32768));
    assert_eq!(parse_i16("-32769"), None);
    assert_eq!(parse_i16("32767"), Some(32767));
    assert_eq!(parse_i16("32768"), None);
    assert_eq!(parse_i16("-0"), Some(0));
    assert_eq!(parse_i16("-"), None);
    assert_eq!(parse_i16("--1"), None);
    assert_eq!(parse_u8("255"), Some(255));
    assert_eq!(parse_u8("256"), None);
    assert_eq!(parse_usize("18446744073709551615"), Some(usize::MAX));
    assert_eq!(parse_usize("18446744073709551616"), None);
    assert_eq!(parse_number("ff", 16, 0, 255), Some((false, 255)));
    assert_eq!(parse_number("FF", 16, 0, 255), Some((false, 255)));
    assert_eq!(parse_number("-zz", 36, 2000, 0), Some((true, 1295)));
    assert_eq!(parse_number("12", 2, 0, 255), None);
}

fn route_cost(nodes: &[Node], matrix: &CostMatrix) -> i64 {
    let mut total = 0i64;
    let mut context = 0u16;
    for node in nodes {
        total += node.cost as i64 + matrix.get(context, node.context_id) as i64;
        context = node.context_id;
    }
    total + matrix.get(context, 0) as i64
}

fn cheapest(all: &[Node], matrix: &CostMatrix, at: usize, len: usize, so_far: &mut Vec<Node>) -> Option<i64> {
    if at == len {
        return Some(route_cost(so_far, matrix));
    }
    let mut best = None;
    for node in all.iter().filter(|n| n.start == at) {
        so_far.push(*node);
        if let Some(cost) = cheapest(all, matrix, node.end, len, so_far) {
            best = Some(best.map_or(cost, |b: i64| b.min(cost)));
        }
        so_far.pop();
    }
    best
}

#[test]
fn search_finds_a_cheapest_path() {
    // a deterministic scramble of spans, costs and contexts
    let mut state = 12345u32;
    let mut next = |modulus: u32| {
        state = state.wrapping_mul(1103515245).wrapping_add(12345);
        (state >> 16) % modulus
    };
    for round in 0..40 {
        let len = 1 + (round % 7);
        let mut grid = FlatMatrix::new(4, 4);
        for r in 0..4 {
            for c in 0..4 {
                grid.set(r, c, next(2001) as i16 - 1000);
            }
        }
        let matrix = CostMatrix::new(grid);
        let mut lattice = Lattice::new(len);
        let mut added = Vec::new();
        for start in 0..len {
            for _ in 0..next(4) {
                let end = start + 1 + next((len - start) as u32) as usize;
                let node = Node::new(added.len(), false, start, end, next(4) as u16, next(2001) as i16 - 1000);
                if lattice.has_node_ending_at(start) {
                    added.push(node);
                }
                lattice.add_node(node);
            }
        }
        let path = lattice.find_path(&matrix);
        let best = cheapest(&added, &matrix, 0, len, &mut Vec::new());
        match best {
            None => assert!(path.is_empty()),
            Some(cost) => {
                assert!(!path.is_empty());
                assert_eq!(path[0].start, 0);
                assert_eq!(path[path.len() - 1].end, len);
                for pair in path.windows(2) {
                    assert_eq!(pair[0].end, pair[1].start);
                }
                assert_eq!(route_cost(&path, &matrix), cost);
                let from_start = route_cost(&path, &matrix) - matrix.get(path[path.len() - 1].context_id, 0) as i64;
                assert_eq!(path[path.len() - 1].total_cost as i64, from_start);
                // searching again changes nothing
                assert_eq!(lattice.find_path(&matrix), path);
            },
        }
    }
}

#[test]
fn of_equally_cheap_paths_the_one_added_first_is_taken() {
    let matrix = CostMatrix::new(FlatMatrix::new(1, 1));
    let mut lattice = Lattice::new(2);
    lattice.add_node(Node::new(10, false, 0, 1, 0, 5));
    lattice.add_node(Node::new(11, false, 0, 1, 0, 5));
    lattice.add_node(Node::new(12, false, 1, 2, 0, 1));
    lattice.add_node(Node::new(13, false, 1, 2, 0, 1));
    lattice.add_node(Node::new(14, false, 0, 2, 0, 6));
    let path = lattice.find_path(&matrix);
    let ids: Vec<_> = path.iter().map(|n| n.term_id).collect();
    assert_eq!(ids, vec![10, 12]);
    assert_eq!(path[1].total_cost, 6);
    assert_eq!(path[1].prev_node, Some(2));
    assert_eq!(path[0].prev_node, Some(0));
}

#[test]
fn lattice_takes_only_nodes_that_can_lie_on_a_path() {
    let matrix = CostMatrix::new(FlatMatrix::new(1, 1));
    let mut lattice = Lattice::new(3);
    assert!(lattice.has_node_ending_at(0));
    assert!(!lattice.has_node_ending_at(1) && !lattice.has_node_ending_at(3));
    lattice.add_node(Node::new(1, false, 1, 2, 0, 0)); // nothing ends at 1
    lattice.add_node(Node::new(2, false, 0, 0, 0, 0)); // spans nothing
    lattice.add_node(Node::new(3, false, 2, 1, 0, 0)); // ends before it begins
    lattice.add_node(Node::new(4, false, 0, 4, 0, 0)); // ends beyond the input
    assert!(!lattice.has_node_ending_at(2));
    assert!(lattice.find_path(&matrix).is_empty());
    lattice.add_node(Node::new(5, true, 0, 2, 0, 9));
    assert!(lattice.has_node_ending_at(2));
    assert!(lattice.find_path(&matrix).is_empty()); // nothing reaches the end
    lattice.add_node(Node::new(6, false, 2, 3, 0, -4));
    let path = lattice.find_path(&matrix);
    assert_eq!(path.len(), 2);
    assert_eq!((path[0].term_id, path[0].unknown, path[0].total_cost), (5, true, 9));
    assert_eq!((path[1].term_id, path[1].unknown, path[1].total_cost), (6, false, 5));

    // an input of no bytes has the empty path
    assert!(Lattice::new(0).find_path(&matrix).is_empty());

    let fresh = Node::new(7, true, 1, 2, 3, -4);
    assert_eq!((fresh.total_cost, fresh.prev_node), (i32::MAX, None));
    assert_eq!((fresh.term_id, fresh.unknown, fresh.start, fresh.end), (7, true, 1, 2));
    assert_eq!((fresh.context_id, fresh.cost), (3, -4));
    assert_eq!(Node::default().total_cost, 0);
    assert_eq!(MAX_LATTICE_LEN, 32766);
    assert_eq!(ExtractedTerm::new(1, true, 2, Term::new(3, 4)).length, 2);
}

#[test]
fn totals_beyond_the_range_stay_at_its_end() {
    let len: usize = 40000;
    let matrix = CostMatrix::new(FlatMatrix::from_values(1, 1, vec![i16::MAX]).unwrap());
    let mut lattice = Lattice::new(len);
    for start in 0..len {
        lattice.add_node(Node::new(start, false, start, start + 1, 0, i16::MAX));
    }
    let path = lattice.find_path(&matrix);
    assert_eq!(path.len(), len);
    for (k, node) in path.iter().enumerate() {
        assert_eq!((node.term_id, node.start, node.end), (k, k, k + 1));
    }
    assert_eq!(path[0].total_cost, 65534);
    assert_eq!(path[32767].total_cost, 2147418112);
    assert_eq!(path[32768].total_cost, 2147483646);
    assert_eq!(path[32769].total_cost, i32::MAX);
    assert_eq!(path[len - 1].total_cost, i32::MAX);

    let matrix = CostMatrix::new(FlatMatrix::from_values(1, 1, vec![i16::MIN]).unwrap());
    let mut lattice = Lattice::new(len);
    for start in 0..len {
        lattice.add_node(Node::new(start, false, start, start + 1, 0, i16::MIN));
    }
    let path = lattice.find_path(&matrix);
    assert_eq!(path.len(), len);
    assert_eq!(path[0].total_cost, -65536);
    assert_eq!(path[32766].total_cost, -2147418112);
    assert_eq!(path[32767].total_cost, i32::MIN);
    assert_eq!(path[len - 1].total_cost, i32::MIN);

    // where the totals are held at the end of the range, the first
    // predecessor stays
    let matrix = CostMatrix::new(FlatMatrix::from_values(1, 1, vec![i16::MAX]).unwrap());
    let mut lattice = Lattice::new(len);
    for start in 0..len {
        lattice.add_node(Node::new(2 * start, false, start, start + 1, 0, i16::MAX));
        lattice.add_node(Node::new(2 * start + 1, false, start, start + 1, 0, i16::MAX));
    }
    let path = lattice.find_path(&matrix);
    assert_eq!(path.len(), len);
    for (k, node) in path.iter().enumerate() {
        assert_eq!((node.term_id, node.start, node.end), (2 * k, k, k + 1));
    }
}

fn small_tokenizer(categories: Vec<(char, Vec<CharCategory>)>, buckets: Vec<(&str, i16)>) -> Tokenizer {
    let mut builder = fst::MapBuilder::memory();
    builder.insert("a", 1).unwrap(); // one term, id 0
    builder.insert("ab", (1 << 5) | 2).unwrap(); // two terms, ids 1 and 2
    builder.insert("b", (7 << 5) | 1).unwrap(); // a term that the dictionary lacks
    builder.insert("c", 3 << 5).unwrap(); // a key without terms
    let fst = FstSearcher::load(builder.into_inner().unwrap()).unwrap();
    let dict = EntryDictionary::new(
        vec![Term::new(1, 100), Term::new(1, 150), Term::new(2, 160)],
        vec![simple_feature(PartOfSpeech::Noun); 3],
    );
    let mut map = vec![vec![]; 0x10000];
    for (c, list) in categories {
        map[c as usize] = list;
    }
    let unk = UnknownDictionary::new(
        buckets
            .iter()
            .enumerate()
            .map(|(id, (name, cost))| ((*name).to_owned(), vec![(id, Term::new(0, *cost))]))
            .collect(),
        vec![simple_feature(PartOfSpeech::Symbol); buckets.len()],
    );
    Tokenizer::from_parts(fst, dict, unk, CharTable::new(map), CostMatrix::new(FlatMatrix::new(3, 3)))
        .unwrap()
}

#[test]
fn known_candidates_are_the_keys_that_begin_the_text() {
    let tokenizer = small_tokenizer(vec![], vec![("DEFAULT", 1000)]);
    assert_eq!(
        tokenizer.get_terms_from_str("abc"),
        vec![
            ExtractedTerm::new(0, false, 1, Term::new(1, 100)),
            ExtractedTerm::new(1, false, 2, Term::new(1, 150)),
            ExtractedTerm::new(2, false, 2, Term::new(2, 160)),
        ]
    );
    // ids that the dictionary lacks give nothing, and neither does a key without terms
    assert_eq!(tokenizer.get_terms_from_str("b"), vec![]);
    assert_eq!(tokenizer.get_terms_from_str("c"), vec![]);
    assert_eq!(tokenizer.get_terms_from_str(""), vec![]);
    let tokens = tokenizer.tokenize("ab");
    assert_eq!(tokens.len(), 1);
    assert_eq!(tokens[0].text, "ab");
    // no dictionary describes what follows: the default category takes it all
    let tokens = tokenizer.tokenize("a東京");
    let texts: Vec<_> = tokens.iter().map(|t| t.text.as_str()).collect();
    assert_eq!(texts, vec!["a", "東京"]);
    assert_eq!(tokens[1].part_of_speech, PartOfSpeech::Symbol);
}

#[test]
fn unknown_candidates_follow_the_categories_of_the_first_character() {
    let digit = CharCategory::new("NUMERIC".to_owned(), true, true, 0);
    let single = CharCategory::new("SINGLE".to_owned(), false, false, 0);
    let quiet = CharCategory::new("QUIET".to_owned(), false, true, 0);
    let tokenizer = small_tokenizer(
        vec![
            ('1', vec![digit.clone(), single.clone()]),
            ('2', vec![digit.clone()]),
            ('é', vec![digit.clone()]),
            ('x', vec![single.clone(), quiet.clone()]),
            ('y', vec![quiet.clone()]),
        ],
        vec![("NUMERIC", 10), ("SINGLE", 20), ("QUIET", 30)],
    );
    let unknown = |id, length, cost| ExtractedTerm::new(id, true, length, Term::new(0, cost));
    // the grouping category spans the run, and the next category keeps that span
    assert_eq!(
        tokenizer.get_unkown_terms_from_str("12é2a", false),
        vec![unknown(0, 5, 10), unknown(1, 5, 20)]
    );
    // beside a known term only categories that ask for it give candidates
    assert_eq!(tokenizer.get_unkown_terms_from_str("12é2a", true), vec![unknown(0, 5, 10)]);
    assert_eq!(tokenizer.get_unkown_terms_from_str("xyyx", true), vec![]);
    // `x` belongs to the grouping category of its own list too
    assert_eq!(
        tokenizer.get_unkown_terms_from_str("xyyx", false),
        vec![unknown(1, 1, 20), unknown(2, 4, 30)]
    );
    assert_eq!(
        tokenizer.get_unkown_terms_from_str("xyy1x", false),
        vec![unknown(1, 1, 20), unknown(2, 3, 30)]
    );
    // a grouping category stops at the first character that ends its run, and the
    // next grouping category goes on at that character
    let first = CharCategory::new("FIRST".to_owned(), false, true, 0);
    let second = CharCategory::new("SECOND".to_owned(), false, true, 0);
    let tokenizer = small_tokenizer(
        vec![
            ('p', vec![first.clone(), second.clone()]),
            ('q', vec![first.clone()]),
            ('r', vec![second.clone()]),
        ],
        vec![("FIRST", 10), ("SECOND", 20)],
    );
    assert_eq!(
        tokenizer.get_unkown_terms_from_str("pq-rr-r", false),
        vec![unknown(0, 2, 10), unknown(1, 2, 20)]
    );
    assert_eq!(
        tokenizer.get_unkown_terms_from_str("pqrr-r", false),
        vec![unknown(0, 2, 10), unknown(1, 4, 20)]
    );
    // a category without a bucket gives nothing
    let tokenizer = small_tokenizer(vec![('1', vec![digit])], vec![]);
    assert_eq!(tokenizer.get_unkown_terms_from_str("1", false), vec![]);
    // and where nothing reaches the end of the text there are no morphemes
    assert!(tokenizer.tokenize("1").is_empty());
    assert!(tokenizer.tokenize_word("1").is_empty());
}

#[test]
fn a_matrix_without_the_contexts_of_the_terms_is_refused() {
    let fst = || {
        let builder = fst::MapBuilder::memory();
        FstSearcher::load(builder.into_inner().unwrap()).unwrap()
    };
    let dict = |context| EntryDictionary::new(vec![Term::new(context, 0)], vec![]);
    let unk = |context| UnknownDictionary::new(vec![("A".to_owned(), vec![(0, Term::new(context, 0))])], vec![]);
    let table = || CharTable::new(vec![]);
    let matrix = |rows, cols| CostMatrix::new(FlatMatrix::new(rows, cols));
    assert!(Tokenizer::from_parts(fst(), dict(2), unk(2), table(), matrix(3, 3)).is_ok());
    for (d, u, rows, cols) in [(3, 0, 3, 3), (0, 3, 3, 3), (0, 0, 0, 0), (2, 0, 3, 2), (0, 2, 2, 3)] {
        let made = Tokenizer::from_parts(fst(), dict(d), unk(u), table(), matrix(rows, cols));
        assert!(matches!(made, Err(ArtifactError::ContextOutOfRange)));
    }
}

#[test]
fn transducer_values_give_a_run_of_ids() {
    let mut builder = fst::MapBuilder::memory();
    builder.insert("", (5 << 5) | 1).unwrap();
    builder.insert("k", (9 << 5) | 31).unwrap();
    builder.insert("kk", 40 << 5).unwrap();
    builder.insert("kkk", (40 << 5) | 2).unwrap();
    let searcher = FstSearcher::load(builder.into_inner().unwrap()).unwrap();
    let found = searcher.get_from_prefix("kkkk");
    assert_eq!(found.len(), 33);
    assert_eq!(found[0], (1, 9));
    assert_eq!(found[30], (1, 39));
    assert_eq!(found[31], (3, 40));
    assert_eq!(found[32], (3, 41));
    assert_eq!(searcher.get_from_prefix("x"), vec![]);
    assert_eq!(searcher.get_from_prefix(""), vec![]);
}
