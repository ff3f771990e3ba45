use std::collections::BTreeMap;

use kaiseki::char_table::{CharCategory, CharTable};
use kaiseki::conjugation::ConjugationForm as C;
use kaiseki::dict::EntryDictionary;
use kaiseki::feature::Feature;
use kaiseki::inflection::Inflection;
use kaiseki::inflection::Inflection as I;
use kaiseki::matrix::{CostMatrix, FlatMatrix};
use kaiseki::morpheme::Morpheme;
use kaiseki::pos::{PartOfSpeech as P, SubPartOfSpeech as S};
use kaiseki::row::Row;
use kaiseki::searcher::FstSearcher;
use kaiseki::term::Term;
use kaiseki::tokenizer::{tokenize, tokenize_word, Artifacts, Tokenizer};
use kaiseki::unk::UnknownDictionary;
use kaiseki::verb::VerbInflection;

const LEXICON: &[&str] = &[
    "東京,3,3,3003,名詞,固有名詞,地域,一般,*,*,東京,トウキョウ,トーキョー",
    "東,5,5,6245,名詞,一般,*,*,*,*,東,ヒガシ,ヒガシ",
    "京,3,3,10791,名詞,固有名詞,地域,一般,*,*,京,キョウ,キョー",
    "都,5,5,7595,名詞,接尾,地域,*,*,*,都,ト,ト",
    "都,6,6,9428,名詞,一般,*,*,*,*,都,ミヤコ,ミヤコ",
    "に,1,1,4303,助詞,格助詞,一般,*,*,*,に,ニ,ニ",
    "に,2,2,11880,助詞,副詞化,*,*,*,*,に,ニ,ニ",
    "住む,4,4,7048,動詞,自立,*,*,五段・マ行,基本形,住む,スム,スム",
    "個,7,7,3000,名詞,接尾,助数詞,*,*,*,個,コ,コ",
    "ケーキ,8,8,3000,名詞,一般,*,*,*,*,ケーキ,ケーキ,ケーキ",
    "を,1,1,4183,助詞,格助詞,一般,*,*,*,を,ヲ,ヲ",
    "食べる,4,4,3000,動詞,自立,*,*,一段,基本形,食べる,タベル,タベル",
    "食べ,4,4,3000,動詞,自立,*,*,一段,連用形,食べる,タベ,タベ",
    "食べろ,4,4,3000,動詞,自立,*,*,一段,命令ｒｏ,食べる,タベロ,タベロ",
    "食べよ,4,4,3000,動詞,自立,*,*,一段,未然ウ接続,食べる,タベヨ,タベヨ",
    "食べれ,4,4,3000,動詞,自立,*,*,一段,仮定形,食べる,タベレ,タベレ",
    "ます,9,9,1000,助動詞,*,*,*,特殊・マス,基本形,ます,マス,マス",
    "ませ,9,9,1000,助動詞,*,*,*,特殊・マス,未然形,ます,マセ,マセ",
    "ましょ,9,9,1000,助動詞,*,*,*,特殊・マス,未然ウ接続,ます,マショ,マショ",
    "ない,9,9,1000,助動詞,*,*,*,特殊・ナイ,基本形,ない,ナイ,ナイ",
    "なかっ,9,9,1000,助動詞,*,*,*,特殊・ナイ,連用タ接続,ない,ナカッ,ナカッ",
    "ん,9,9,1000,助動詞,*,*,*,不変化型,基本形,ん,ン,ン",
    "た,9,9,1000,助動詞,*,*,*,特殊・タ,基本形,た,タ,タ",
    "たら,9,9,1000,助動詞,*,*,*,特殊・タ,仮定形,た,タラ,タラ",
    "て,1,1,1000,助詞,接続助詞,*,*,*,*,て,テ,テ",
    "で,1,1,1000,助詞,接続助詞,*,*,*,*,で,デ,デ",
    "いる,4,4,1000,動詞,非自立,*,*,一段,基本形,いる,イル,イル",
    "くれる,4,4,1000,動詞,非自立,*,*,一段・クレル,基本形,くれる,クレル,クレル",
    "くれ,4,4,1000,動詞,非自立,*,*,一段・クレル,未然形,くれる,クレ,クレ",
    "もらう,4,4,1000,動詞,非自立,*,*,五段・ワ行促音便,基本形,もらう,モラウ,モラウ",
    "みる,4,4,1000,動詞,非自立,*,*,一段,基本形,みる,ミル,ミル",
    "み,4,4,1000,動詞,非自立,*,*,一段,連用形,みる,ミ,ミ",
    "みれ,4,4,1000,動詞,非自立,*,*,一段,仮定形,みる,ミレ,ミレ",
    "おく,4,4,1000,動詞,非自立,*,*,五段・カ行イ音便,基本形,おく,オク,オク",
    "いく,4,4,1000,動詞,非自立,*,*,五段・カ行促音便,基本形,いく,イク,イク",
    "くる,4,4,1000,動詞,非自立,*,*,カ変・クル,基本形,くる,クル,クル",
    "しまう,4,4,1000,動詞,非自立,*,*,五段・ワ行促音便,基本形,しまう,シマウ,シマウ",
    "しまっ,4,4,1000,動詞,非自立,*,*,五段・ワ行促音便,連用タ接続,しまう,シマッ,シマッ",
    "ちゃう,4,4,1000,動詞,非自立,*,*,五段・ワ行促音便,基本形,ちゃう,チャウ,チャウ",
    "ちゃっ,4,4,1000,動詞,非自立,*,*,五段・ワ行促音便,連用タ接続,ちゃう,チャッ,チャッ",
    "う,9,9,1000,助動詞,*,*,*,不変化型,基本形,う,ウ,ウ",
    "ば,1,1,1000,助詞,接続助詞,*,*,*,*,ば,バ,バ",
    "られる,4,4,1000,動詞,接尾,*,*,一段,基本形,られる,ラレル,ラレル",
    "られ,4,4,1000,動詞,接尾,*,*,一段,連用形,られる,ラレ,ラレ",
    "させる,4,4,1000,動詞,接尾,*,*,一段,基本形,させる,サセル,サセル",
    "たい,9,9,1000,助動詞,*,*,*,特殊・タイ,基本形,たい,タイ,タイ",
    "たく,9,9,1000,助動詞,*,*,*,特殊・タイ,連用テ接続,たい,タク,タク",
    "れる,4,4,1000,動詞,接尾,*,*,一段,基本形,れる,レル,レル",
    "飲ま,4,4,3000,動詞,自立,*,*,五段・マ行,未然形,飲む,ノマ,ノマ",
    "遊ん,4,4,3000,動詞,自立,*,*,五段・バ行,連用タ接続,遊ぶ,アソン,アソン",
    "寝,4,4,3000,動詞,自立,*,*,一段,連用形,寝る,ネ,ネ",
    "知り,4,4,3000,動詞,自立,*,*,五段・ラ行,連用形,知る,シリ,シリ",
    "持っ,4,4,3000,動詞,自立,*,*,五段・タ行,連用タ接続,持つ,モッ,モッ",
    "ください,4,4,1000,動詞,非自立,*,*,五段・ラ行特殊,命令ｉ,くださる,クダサイ,クダサイ",
    "笑っ,4,4,3000,動詞,自立,*,*,五段・ワ行促音便,連用タ接続,笑う,ワラッ,ワラッ",
    "見,4,4,3000,動詞,自立,*,*,一段,連用形,見る,ミ,ミ",
    "でし,9,9,1000,助動詞,*,*,*,特殊・デス,連用形,です,デシ,デシ",
    "考え,4,4,3000,動詞,自立,*,*,一段,連用形,考える,カンガエ,カンガエ",
    "やっ,4,4,3000,動詞,自立,*,*,五段・ラ行,連用タ接続,やる,ヤッ,ヤッ",
    "見せ,4,4,3000,動詞,自立,*,*,一段,未然形,見せる,ミセ,ミセ",
    "昨日,8,8,3000,名詞,副詞可能,*,*,*,*,昨日,キノウ,キノー",
    "、,10,10,1000,記号,読点,*,*,*,*,、,、,、",
    "。,10,10,1000,記号,句点,*,*,*,*,。,。,。",
    "彼,8,8,3000,名詞,代名詞,一般,*,*,*,彼,カレ,カレ",
    "会っ,4,4,3000,動詞,自立,*,*,五段・ワ行促音便,連用タ接続,会う,アッ,アッ",
    "すごく,11,11,3000,形容詞,自立,*,*,形容詞・アウオ段,連用テ接続,すごい,スゴク,スゴク",
    "嬉しかっ,11,11,3000,形容詞,自立,*,*,形容詞・イ段,連用タ接続,嬉しい,ウレシカッ,ウレシカッ",
    "よ,1,1,1000,助詞,終助詞,*,*,*,*,よ,ヨ,ヨ",
];

const UNKNOWN: &[&str] = &[
    "DEFAULT,5,5,24769,記号,一般,*,*,*,*,*",
    "SPACE,9,9,8903,記号,空白,*,*,*,*,*",
    "KANJI,8,8,21426,名詞,一般,*,*,*,*,*",
    "SYMBOL,10,10,20000,記号,一般,*,*,*,*,*",
    "NUMERIC,12,12,27386,名詞,数,*,*,*,*,*",
    "ALPHA,8,8,23600,名詞,一般,*,*,*,*,*",
    "HIRAGANA,8,8,23947,名詞,一般,*,*,*,*,*",
    "KATAKANA,8,8,29461,名詞,一般,*,*,*,*,*",
    "KANJINUMERIC,12,12,20000,名詞,数,*,*,*,*,*",
];

fn categories(names: &[(&str, bool, bool, usize)]) -> Vec<CharCategory> {
    names
        .iter()
        .map(|(name, invoke, group, length)| {
            CharCategory::new((*name).to_owned(), *invoke, *group, *length)
        })
        .collect()
}

fn char_table() -> CharTable {
    let mut map: Vec<Vec<CharCategory>> = vec![vec![]; 0x10000];
    let mut fill = |from: usize, to: usize, list: &[(&str, bool, bool, usize)]| {
        for code in from..=to {
            map[code] = categories(list);
        }
    };
    fill(0x0020, 0x0020, &[("SPACE", false, true, 0)]);
    fill(0x0021, 0x002F, &[("SYMBOL", true, true, 0)]);
    fill(0x0030, 0x0039, &[("NUMERIC", true, true, 0)]);
    fill(0x0041, 0x005A, &[("ALPHA", true, true, 0)]);
    fill(0x0061, 0x007A, &[("ALPHA", true, true, 0)]);
    fill(0x3000, 0x303F, &[("SYMBOL", true, true, 0)]);
    fill(0x3041, 0x309F, &[("HIRAGANA", false, true, 2)]);
    fill(0x30A1, 0x30FF, &[("KATAKANA", true, true, 2)]);
    fill(0x4E00, 0x9FFF, &[("KANJI", false, false, 2)]);
    fill(0x4E00, 0x4E00, &[("KANJINUMERIC", true, true, 0), ("KANJI", false, false, 2)]);
    CharTable::new(map)
}

fn entry_dictionary() -> (EntryDictionary, Vec<u8>) {
    let mut entries: BTreeMap<String, Vec<(Term, Feature)>> = BTreeMap::new();
    for line in LEXICON {
        let row = Row::try_from(line).unwrap();
        entries
            .entry(row.surface_form.to_owned())
            .or_default()
            .push((Term::from(&row), Feature::from(&row)));
    }
    let mut builder = fst::MapBuilder::memory();
    let mut terms = Vec::new();
    let mut features = Vec::new();
    let mut id = 0u64;
    for (key, list) in &entries {
        builder.insert(key, id << 5 | list.len() as u64).unwrap();
        for (term, feature) in list {
            terms.push(*term);
            features.push(feature.clone());
        }
        id += list.len() as u64;
    }
    (EntryDictionary::new(terms, features), builder.into_inner().unwrap())
}

fn unknown_dictionary() -> UnknownDictionary {
    let mut buckets: Vec<(String, Vec<(usize, Term)>)> = Vec::new();
    let mut features = Vec::new();
    for (id, line) in UNKNOWN.iter().enumerate() {
        let row = Row::try_from(line).unwrap();
        buckets.push((row.surface_form.to_owned(), vec![(id, Term::from(&row))]));
        features.push(Feature::from(&row));
    }
    UnknownDictionary::new(buckets, features)
}

fn cost_matrix() -> CostMatrix {
    let mut grid = FlatMatrix::new(13, 13);
    grid.set(0, 0, -434);
    CostMatrix::new(grid)
}

fn tokenizer() -> Tokenizer {
    let (dict, fst) = entry_dictionary();
    Tokenizer::from_parts(
        FstSearcher::load(fst).unwrap(),
        dict,
        unknown_dictionary(),
        char_table(),
        cost_matrix(),
    )
    .unwrap()
}

fn stored() -> Artifacts {
    let (dict, fst) = entry_dictionary();
    Artifacts::from_stored(
        fst,
        dict.to_bytes().unwrap(),
        unknown_dictionary().to_bytes().unwrap(),
        char_table().to_bytes().unwrap(),
        cost_matrix().to_bytes().unwrap(),
    )
}

fn artifacts(stored: &Artifacts) -> &Artifacts {
    stored
}

fn texts(morphemes: &[Morpheme]) -> Vec<&str> {
    morphemes.iter().map(|token| token.text.as_str()).collect()
}

#[test]
fn tokenizer_test_tokenizer() {
    let stored = stored();
    let morphemes = tokenize(artifacts(&stored), "東京都に住む").unwrap();
    let expected = vec!["東京", "都", "に", "住む"];
    let text: Vec<_> = morphemes.iter().map(|token| &token.text).collect();

    assert_eq!(expected, text);
}

#[test]
fn tokenizer_test_tokenizer_unkown() {
    let stored = stored();
    let morphemes = tokenize(artifacts(&stored), "1234個").unwrap();
    let expected = vec!["1234", "個"];
    let text: Vec<_> = morphemes.iter().map(|token| &token.text).collect();

    assert_eq!(expected, text);
}

#[test]
fn tokenizer_test_token_feature() {
    let stored = stored();
    let morphemes = tokenize(artifacts(&stored), "ケーキを食べる").unwrap();

    assert_eq!(morphemes[0].part_of_speech, P::Noun);
    assert_eq!(Some("ケーキ".to_owned()), morphemes[0].reading);

    assert_eq!(morphemes[1].part_of_speech, P::Particle);
    assert_eq!(Some("ヲ".to_owned()), morphemes[1].reading);

    assert_eq!(morphemes[2].part_of_speech, P::Verb);
    assert_eq!(Some(C::BasicForm), morphemes[2].conjugation_form);
    assert_eq!(Some("タベル".to_owned()), morphemes[2].reading);
}

#[test]
fn tokenizer_test_token_feature_unknown() {
    let stored = stored();
    let morphemes = tokenize(artifacts(&stored), "100 ").unwrap();

    assert!(morphemes[0].sub_part_of_speech.contains(&S::Number));
    assert!(morphemes[1].sub_part_of_speech.contains(&S::Space));
}

#[test]
fn test_tokenize_word() {
    let stored = stored();
    let tokens =
        tokenize_word(artifacts(&stored), "昨日、彼に会った。すごく嬉しかったよ。").unwrap();
    let expected = vec!["昨日", "彼", "に", "会った", "すごく", "嬉しかった", "よ"];
    let text: Vec<_> = tokens.into_iter().map(|token| token.text).collect();

    assert_eq!(expected, text);
}

fn assert_only_contains(inflections: Vec<Inflection>, value: Inflection) {
    assert!(inflections.contains(&value), "{:?}", value);
    assert_eq!(inflections.len(), 1, "{:?}", inflections);
}

#[test]
fn inflection_test_base_form() {
    let tokenizer = tokenizer();
    let morphemes = tokenizer.tokenize("食べる");
    let inflections = Inflection::from_morphemes(&morphemes);
    assert!(inflections.is_empty());
}

#[test]
fn inflection_test_single_inflection() {
    let tokenizer = tokenizer();

    let test_cases = vec![
        ("食べます", I::Polite),
        ("食べない", I::Negative),
        ("食べた", I::Past),
        ("食べて", I::Te),
        ("食べている", I::TeIru),
        ("食べてくれる", I::TeKureru),
        ("食べてもらう", I::TeMorau),
        ("食べてみる", I::TeMiru),
        ("食べておく", I::TeOku),
        ("食べていく", I::TeIku),
        ("食べてくる", I::Tekuru),
        ("食べてしまう", I::TeShimau),
        ("食べちゃう", I::Chau),
        ("食べろ", I::Imperative),
        ("食べよう", I::Volotional),
        ("食べたら", I::Tara),
        ("食べれば", I::Ba),
        ("食べられる", I::PotentialPassive),
        ("食べさせる", I::Causative),
        ("食べたい", I::Tai),
        ("飲まれる", I::Passive),
    ];

    for (input, expected) in test_cases {
        let morphemes = tokenizer.tokenize(input);
        let inflections = Inflection::from_morphemes(&morphemes);
        assert_only_contains(inflections, expected);
    }
}

#[test]
fn inflection_test_mutiple_inflections() {
    let tokenizer = tokenizer();

    let test_cases = vec![
        ("食べなかった", vec![I::Negative, I::Past]),
        ("遊んでみれば", vec![I::TeMiru, I::Ba]),
        ("寝てしまった", vec![I::TeShimau, I::Past]),
        ("知りたくない", vec![I::Tai, I::Negative]),
        ("持ってください", vec![I::Te, I::Imperative]),
        ("笑っちゃった", vec![I::Chau, I::Past]),
        ("見ませんでした", vec![I::Polite, I::Negative, I::Past]),
        ("考えてみましょう", vec![I::TeMiru, I::Polite, I::Volotional]),
        ("やってみてくれません", vec![I::TeMiru, I::TeKureru, I::Polite, I::Negative]),
        ("見せられたくない", vec![I::PotentialPassive, I::Tai, I::Negative]),
    ];

    for (input, expected) in test_cases {
        let morphemes = tokenizer.tokenize(input);
        let inflections = Inflection::from_morphemes(&morphemes);
        assert_eq!(inflections, expected);
    }
}

fn assert_only_contains_verb(inflections: Vec<VerbInflection>, value: VerbInflection) {
    assert!(inflections.contains(&value), "{:?}", value);
    assert_eq!(inflections.len(), 1, "{:?}", inflections);
}

#[test]
fn verb_test_single_inflection() {
    let tokenizer = tokenizer();

    let morphemes = tokenizer.tokenize("食べる");
    let inflections = VerbInflection::from_morphemes(&morphemes);
    assert!(inflections.is_empty());

    let test_cases = vec![
        ("食べます", VerbInflection::Polite),
        ("食べない", VerbInflection::Negative),
        ("食べた", VerbInflection::Past),
        ("食べて", VerbInflection::Te),
        ("食べている", VerbInflection::TeIru),
        ("食べてくれる", VerbInflection::TeKureru),
        ("食べてもらう", VerbInflection::TeMorau),
        ("食べてみる", VerbInflection::TeMiru),
        ("食べておく", VerbInflection::TeOku),
        ("食べていく", VerbInflection::TeIku),
        ("食べてくる", VerbInflection::Tekuru),
        ("食べろ", VerbInflection::Imperative),
        ("食べよう", VerbInflection::Volotional),
        ("食べたら", VerbInflection::Tara),
        ("食べれば", VerbInflection::Ba),
        ("食べられる", VerbInflection::PotentialPassive),
        ("食べさせる", VerbInflection::Causative),
        ("食べたい", VerbInflection::Tai),
    ];

    for (input, expected) in test_cases {
        let morphemes = tokenizer.tokenize(input);
        let inflections = VerbInflection::from_morphemes(&morphemes);
        assert_only_contains_verb(inflections, expected);
    }
}

#[test]
fn tokens_cover_the_input_without_gaps() {
    let tokenizer = tokenizer();
    for input in ["東京都に住む", "1234個", "100 ", "ケーキを食べる", "食べてしまった", "abc東京xyz"] {
        let morphemes = tokenizer.tokenize(input);
        assert!(!morphemes.is_empty());
        assert_eq!(morphemes[0].start, 0);
        assert_eq!(morphemes[morphemes.len() - 1].end, input.len());
        for pair in morphemes.windows(2) {
            assert_eq!(pair[0].end, pair[1].start);
        }
        for morpheme in &morphemes {
            assert_eq!(&input[morpheme.start..morpheme.end], morpheme.text);
        }
        assert_eq!(texts(&morphemes).concat(), input);
    }
}

#[test]
fn empty_input_gives_no_morphemes_and_no_words() {
    let tokenizer = tokenizer();
    assert!(tokenizer.tokenize("").is_empty());
    assert!(tokenizer.tokenize_word("").is_empty());
}
