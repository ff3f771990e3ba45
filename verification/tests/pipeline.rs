use kaiseki::builder::{
    build_char_def, build_cost_matrix, build_unk_dict, parse_category, parse_char_map, parse_hex,
    read_mecab_text, SizeReport,
};
use kaiseki::char_table::CharCategory;
use kaiseki::error::ArtifactError;
use kaiseki::inflection::Inflection;
use kaiseki::lexicon::{
    build_entry_dict, build_term_fst, fill_entry_maps, rank_texts, sort_rows, surfaces_of, Rank,
};
use kaiseki::pos::{PartOfSpeech, SubPartOfSpeech};
use kaiseki::searcher::FstSearcher;
use kaiseki::term::Term;
use kaiseki::text::{split_blank, split_by, split_lines, Separator};
use kaiseki::tokenizer::{tokenize, tokenize_word, Artifacts, Tokenizer};
use kaiseki::word::WordClass;

const CHAR_DEF: &str = "\
# categories
DEFAULT         0 1 0  # default
SPACE           0 1 0
KANJI           0 0 2
SYMBOL          1 1 0
NUMERIC         1 1 0
ALPHA           1 1 0
HIRAGANA        0 1 2
KATAKANA        1 1 2
KANJINUMERIC    1 1 0

0x0020 SPACE
0x0030..0x0039 NUMERIC
0x0041..0x005A ALPHA
0x0061..0x007A ALPHA
0x3000..0x303F SYMBOL
0x3041..0x309F HIRAGANA
0x30A1..0x30FF KATAKANA
0x4E00..0x9FFF KANJI
0x4E00 KANJINUMERIC KANJI # one
";

const UNK_DEF: &str = "\
DEFAULT,5,5,24769,記号,一般,*,*,*,*,*
SPACE,9,9,8903,記号,空白,*,*,*,*,*
KANJI,8,8,21426,名詞,一般,*,*,*,*,*
KANJI,8,8,27290,名詞,サ変接続,*,*,*,*,*
SYMBOL,10,10,20000,記号,一般,*,*,*,*,*
NUMERIC,12,12,27386,名詞,数,*,*,*,*,*
ALPHA,8,8,23600,名詞,一般,*,*,*,*,*
HIRAGANA,8,8,23947,名詞,一般,*,*,*,*,*
KATAKANA,8,8,29461,名詞,一般,*,*,*,*,*
KANJINUMERIC,12,12,20000,名詞,数,*,*,*,*,*
";

const MATRIX_DEF: &str = "\
13 13
0 0 -434
1 4 -50
4 9 -20
9 9 10
";

const LEXICON: &str = "\
東京,3,3,3003,名詞,固有名詞,地域,一般,*,*,東京,トウキョウ,トーキョー
東,5,5,6245,名詞,一般,*,*,*,*,東,ヒガシ,ヒガシ
京,3,3,10791,名詞,固有名詞,地域,一般,*,*,京,キョウ,キョー
都,5,5,7595,名詞,接尾,地域,*,*,*,都,ト,ト
都,6,6,9428,名詞,一般,*,*,*,*,都,ミヤコ,ミヤコ
に,1,1,4303,助詞,格助詞,一般,*,*,*,に,ニ,ニ
住む,4,4,7048,動詞,自立,*,*,五段・マ行,基本形,住む,スム,スム
個,7,7,3000,名詞,接尾,助数詞,*,*,*,個,コ,コ
ケーキ,8,8,3000,名詞,一般,*,*,*,*,ケーキ,ケーキ,ケーキ
を,1,1,4183,助詞,格助詞,一般,*,*,*,を,ヲ,ヲ
食べる,4,4,3000,動詞,自立,*,*,一段,基本形,食べる,タベル,タベル
食べ,4,4,3000,動詞,自立,*,*,一段,連用形,食べる,タベ,タベ
て,1,1,1000,助詞,接続助詞,*,*,*,*,て,テ,テ
しまっ,4,4,1000,動詞,非自立,*,*,五段・ワ行促音便,連用タ接続,しまう,シマッ,シマッ
た,9,9,1000,助動詞,*,*,*,特殊・タ,基本形,た,タ,タ
昨日,8,8,3000,名詞,副詞可能,*,*,*,*,昨日,キノウ,キノー
、,10,10,1000,記号,読点,*,*,*,*,、,、,、
。,10,10,1000,記号,句点,*,*,*,*,。,。,。
彼,8,8,3000,名詞,代名詞,一般,*,*,*,彼,カレ,カレ
会っ,4,4,3000,動詞,自立,*,*,五段・ワ行促音便,連用タ接続,会う,アッ,アッ
すごく,11,11,3000,形容詞,自立,*,*,形容詞・アウオ段,連用テ接続,すごい,スゴク,スゴク
嬉しかっ,11,11,3000,形容詞,自立,*,*,形容詞・イ段,連用タ接続,嬉しい,ウレシカッ,ウレシカッ
よ,1,1,1000,助詞,終助詞,*,*,*,*,よ,ヨ,ヨ
";

fn build() -> Artifacts {
    let lines = split_lines(LEXICON);
    let (rows, order) = fill_entry_maps(&lines).unwrap();
    Artifacts::build(
        &rows,
        &order,
        &build_unk_dict(UNK_DEF).unwrap(),
        &build_char_def(CHAR_DEF).unwrap(),
        &build_cost_matrix(MATRIX_DEF).unwrap(),
    )
    .unwrap()
}

fn artifacts(stored: &Artifacts) -> &Artifacts {
    stored
}

fn with(
    stored: &Artifacts,
    term_dict: Option<Vec<u8>>,
    unk_dict: Option<Vec<u8>>,
    char_table: Option<Vec<u8>>,
    cost_matrix: Option<Vec<u8>>,
) -> Artifacts {
    Artifacts::from_stored(
        stored.term_fst_bytes().clone(),
        term_dict.unwrap_or(stored.term_dict_bytes().clone()),
        unk_dict.unwrap_or(stored.unk_dict_bytes().clone()),
        char_table.unwrap_or(stored.char_table_bytes().clone()),
        cost_matrix.unwrap_or(stored.cost_matrix_bytes().clone()),
    )
}

#[test]
fn built_artifacts_tokenize_tokyo() {
    let stored = build();
    let morphemes = tokenize(artifacts(&stored), "東京都に住む").unwrap();
    let texts: Vec<_> = morphemes.iter().map(|m| m.text.as_str()).collect();
    assert_eq!(texts, vec!["東京", "都", "に", "住む"]);
    let parts: Vec<_> = morphemes.iter().map(|m| m.part_of_speech).collect();
    assert_eq!(
        parts,
        vec![PartOfSpeech::Noun, PartOfSpeech::Noun, PartOfSpeech::Particle, PartOfSpeech::Verb]
    );
    let readings: Vec<_> = morphemes.iter().map(|m| m.reading.clone().unwrap()).collect();
    assert_eq!(readings, vec!["トウキョウ", "ト", "ニ", "スム"]);
    assert_eq!(
        morphemes[3].conjugation_form,
        Some(kaiseki::conjugation::ConjugationForm::BasicForm)
    );
    assert_eq!(
        morphemes[3].conjugation_type,
        Some(kaiseki::conjugation::ConjugationType::GodanMaRow)
    );
}

#[test]
fn built_artifacts_tokenize_unknown_number() {
    let stored = build();
    let morphemes = tokenize(artifacts(&stored), "1234個").unwrap();
    let texts: Vec<_> = morphemes.iter().map(|m| m.text.as_str()).collect();
    assert_eq!(texts, vec!["1234", "個"]);
    assert!(morphemes[0].sub_part_of_speech.contains(&SubPartOfSpeech::Number));
    assert_eq!(morphemes[1].part_of_speech, PartOfSpeech::Noun);
    assert!(morphemes[1].sub_part_of_speech.contains(&SubPartOfSpeech::Counter));
}

#[test]
fn built_artifacts_give_inflections_and_words() {
    let stored = build();
    let morphemes = tokenize(artifacts(&stored), "食べてしまった").unwrap();
    assert_eq!(
        Inflection::from_morphemes(&morphemes),
        vec![Inflection::TeShimau, Inflection::Past]
    );

    let words =
        tokenize_word(artifacts(&stored), "昨日、彼に会った。すごく嬉しかったよ。").unwrap();
    let texts: Vec<_> = words.iter().map(|w| w.text.as_str()).collect();
    assert_eq!(texts, vec!["昨日", "彼", "に", "会った", "すごく", "嬉しかった", "よ"]);
    assert_eq!(words[1].class, WordClass::Pronoun);
    assert!(words[1].is_pronoun());
    assert_eq!(words[3].class, WordClass::Verb);
    assert_eq!(words[3].base_form, "会う");
    assert_eq!(words[3].inflections, vec![Inflection::Past]);
    assert!(words[3].has_inflections());
    assert_eq!((words[3].start, words[3].end), (15, 24));
    assert_eq!(words[3].morphemes.len(), 2);
}

#[test]
fn transducer_lists_every_key_that_begins_the_input() {
    let lines = split_lines(LEXICON);
    let (rows, order) = fill_entry_maps(&lines).unwrap();
    let keys = surfaces_of(&rows);
    let searcher = FstSearcher::build(&keys, &order).unwrap();

    // `東` and `東京` are both keys; the sorted lexicon gives the ids.
    let sorted: Vec<&str> = order.iter().map(|&row| keys[row]).collect();
    let id_of = |key: &str| sorted.iter().position(|k| *k == key).unwrap();
    let found = searcher.get_from_prefix("東京都");
    assert_eq!(found, vec![(3, id_of("東")), (6, id_of("東京"))]);

    // a key with two terms gives both, in a row
    let found = searcher.get_from_prefix("都に");
    assert_eq!(found, vec![(3, id_of("都")), (3, id_of("都") + 1)]);

    for input in ["東京都に住む", "食べてしまった", "都", "x", ""] {
        let found = searcher.get_from_prefix(input);
        for pair in found.windows(2) {
            assert!(pair[0].0 <= pair[1].0);
        }
        for (len, id) in found {
            assert_eq!(&input[..len], sorted[id]);
        }
    }
}

#[test]
fn rows_are_sorted_by_surface_and_keep_their_order_within_one() {
    let keys = vec!["b", "a", "ab", "a", "", "b"];
    let order = sort_rows(&keys);
    assert_eq!(order, vec![4, 1, 3, 2, 0, 5]);
    assert_eq!(rank_texts("a", "ab"), Rank::Before);
    assert_eq!(rank_texts("ab", "ab"), Rank::Same);
    assert_eq!(rank_texts("b", "ab"), Rank::After);
    assert_eq!(rank_texts("東", "東京"), Rank::Before);
}

#[test]
fn entry_dictionary_follows_the_order() {
    let lines = vec!["b,1,1,10,名詞,*", "a,2,2,20,動詞,*", "a,3,3,30,助詞,*"];
    let (rows, order) = fill_entry_maps(&lines).unwrap();
    assert_eq!(order, vec![1, 2, 0]);
    let dict = build_entry_dict(&rows, &order);
    assert_eq!(dict.get_term(0), Some(&Term::new(2, 20)));
    assert_eq!(dict.get_term(1), Some(&Term::new(3, 30)));
    assert_eq!(dict.get_term(2), Some(&Term::new(1, 10)));
    assert_eq!(dict.get_term(3), None);
    assert_eq!(dict.get_feature(0).unwrap().part_of_speech, PartOfSpeech::Verb);
    assert_eq!(dict.get_feature(2).unwrap().part_of_speech, PartOfSpeech::Noun);
    assert!(dict.get_feature(3).is_none());
}

#[test]
fn a_key_with_more_than_31_terms_is_refused() {
    let lines: Vec<String> = (0..32).map(|i| format!("同,1,1,{},名詞,*", i)).collect();
    let lines: Vec<&str> = lines.iter().map(|l| l.as_str()).collect();
    let (rows, order) = fill_entry_maps(&lines).unwrap();
    let built = build_term_fst(&surfaces_of(&rows), &order);
    assert!(matches!(built, Err(ArtifactError::Malformed)));

    let (rows, order) = fill_entry_maps(&lines[..31].to_vec()).unwrap();
    let image = build_term_fst(&surfaces_of(&rows), &order).unwrap();
    let searcher = FstSearcher::load(image).unwrap();
    let found = searcher.get_from_prefix("同じ");
    assert_eq!(found.len(), 31);
    assert_eq!(found[0], (3, 0));
    assert_eq!(found[30], (3, 30));
}

#[test]
fn a_line_that_is_no_row_stops_the_lexicon() {
    let built = fill_entry_maps(&vec!["a,1,1,10,名詞", "b,1,x,10,名詞"]);
    assert!(matches!(built, Err(ArtifactError::Malformed)));
    let built = fill_entry_maps(&vec!["a,1,1,10"]);
    assert!(matches!(built, Err(ArtifactError::Malformed)));
}

#[test]
fn character_definitions_give_the_table() {
    let table = build_char_def(CHAR_DEF).unwrap();
    let expected = vec![
        CharCategory::new("KANJINUMERIC".to_owned(), true, true, 0),
        CharCategory::new("KANJI".to_owned(), false, false, 2),
    ];
    assert_eq!(table.lookup('一'), &expected[..]);
    let expected = vec![CharCategory::new("NUMERIC".to_owned(), true, true, 0)];
    assert_eq!(table.lookup('1'), &expected[..]);
    assert_eq!(table.lookup('9'), &expected[..]);
    let expected = vec![CharCategory::new("KANJI".to_owned(), false, false, 2)];
    assert_eq!(table.lookup('二'), &expected[..]);
    // no range holds these: the default category alone
    let fallback = vec![CharCategory::new("DEFAULT".to_owned(), false, true, 0)];
    assert_eq!(table.lookup('\u{0080}'), &fallback[..]);
    assert_eq!(table.lookup('\u{FFFF}'), &fallback[..]);
    // beyond the basic plane: the last slot
    assert_eq!(table.lookup('\u{1F600}'), &fallback[..]);
}

#[test]
fn a_later_range_replaces_an_earlier_one() {
    let table = build_char_def("A 1 0 3\nB 0 1 0\n0x0041..0x0043 A\n0x0042 B A C\n").unwrap();
    let a = CharCategory::new("A".to_owned(), true, false, 3);
    let b = CharCategory::new("B".to_owned(), false, true, 0);
    assert_eq!(table.lookup('A'), &[a.clone()][..]);
    assert_eq!(table.lookup('B'), &[b, a.clone()][..]);
    assert_eq!(table.lookup('C'), &[a][..]);
}

#[test]
fn malformed_character_definitions_are_refused() {
    assert!(matches!(build_char_def("KANJI 0 0\n"), Err(ArtifactError::Malformed)));
    assert!(matches!(build_char_def("0xZZ KANJI\n"), Err(ArtifactError::Malformed)));
    assert!(matches!(build_char_def("KANJI 0 0 x\n"), Err(ArtifactError::Malformed)));
    assert!(build_char_def("# only a comment\n\n").is_ok());
}

#[test]
fn lines_of_the_character_definitions_parse() {
    assert_eq!(parse_hex("0x4E00").unwrap(), 0x4E00);
    assert_eq!(parse_hex("4e00").unwrap(), 0x4E00);
    assert_eq!(parse_hex("0x0x41").unwrap(), 0x41);
    assert_eq!(parse_hex("0xFFFF").unwrap(), 0xFFFF);
    assert!(parse_hex("0x10000").is_err());
    assert!(parse_hex("0x").is_err());
    assert!(parse_hex("-1").is_err());

    let (lower, upper, names) = parse_char_map("0x0041..0x005A ALPHA").unwrap();
    assert_eq!((lower, upper, names), (0x41, 0x5A, vec!["ALPHA"]));
    let (lower, upper, names) = parse_char_map("0x4E00  KANJINUMERIC\tKANJI # 一").unwrap();
    assert_eq!((lower, upper, names), (0x4E00, 0x4E00, vec!["KANJINUMERIC", "KANJI"]));
    assert!(parse_char_map("0x41.0x42 ALPHA").is_err());
    assert!(parse_char_map("   ").is_err());

    let (name, category) = parse_category("KANJI  0 0 2").unwrap();
    assert_eq!(name, "KANJI");
    assert_eq!(category, CharCategory::new("KANJI".to_owned(), false, false, 2));
    let (_, category) = parse_category("NUMERIC 1 1 0 # numbers").unwrap();
    assert_eq!(category, CharCategory::new("NUMERIC".to_owned(), true, true, 0));
    // only 1 sets a flag
    let (_, category) = parse_category("X 2 0 0").unwrap();
    assert!(!category.invoke);
    assert!(parse_category("KANJI 0 0").is_err());
    assert!(parse_category("KANJI 256 0 0").is_err());
}

#[test]
fn unknown_definitions_give_buckets_by_category() {
    let dict = build_unk_dict(UNK_DEF).unwrap();
    assert_eq!(dict.get_terms("DEFAULT").unwrap(), &vec![(0, Term::new(5, 24769))]);
    assert_eq!(
        dict.get_terms("KANJI").unwrap(),
        &vec![(2, Term::new(8, 21426)), (3, Term::new(8, 27290))]
    );
    assert!(dict.get_terms("GREEK").is_none());
    assert!(dict.get_feat(1).unwrap().sub_part_of_speech.contains(&SubPartOfSpeech::Space));
    assert!(dict
        .get_feat(3)
        .unwrap()
        .sub_part_of_speech
        .contains(&SubPartOfSpeech::SuruVerbConnection));
    assert!(dict.get_feat(10).is_none());
    assert!(matches!(build_unk_dict("DEFAULT,5,5"), Err(ArtifactError::Malformed)));
}

#[test]
fn cost_definitions_give_the_matrix() {
    let matrix = build_cost_matrix("2 3\n0 0 -434\n1 2 7\n0 2 5\n1 2 -8\n").unwrap();
    assert_eq!(matrix.get(0, 0), -434);
    assert_eq!(matrix.get(0, 1), 0);
    assert_eq!(matrix.get(0, 2), 5);
    assert_eq!(matrix.get(1, 2), -8);
    assert_eq!(matrix.grid_ref().values(), &[-434, 0, 5, 0, 0, -8]);
    assert_eq!(matrix.grid_ref().get_row(1), &[0, 0, -8]);
    assert!(matrix.covers_below(2));
    assert!(!matrix.covers_below(3));

    assert!(matches!(build_cost_matrix(""), Err(ArtifactError::Malformed)));
    assert!(matches!(build_cost_matrix("2\n"), Err(ArtifactError::Malformed)));
    assert!(matches!(build_cost_matrix("2 2\n2 0 1\n"), Err(ArtifactError::Malformed)));
    assert!(matches!(build_cost_matrix("2 2\n0 0 40000\n"), Err(ArtifactError::Malformed)));
}

#[test]
fn texts_split_into_lines_and_fields() {
    assert_eq!(split_lines("a\r\nb\n\nc"), vec!["a", "b", "", "c"]);
    assert_eq!(split_lines("a\n"), vec!["a"]);
    assert_eq!(split_lines(""), Vec::<&str>::new());
    assert_eq!(split_blank("  東京 \t 都\n"), vec!["東京", "都"]);
    assert_eq!(split_by("a,,b,", Separator::Byte(b',')), vec!["a", "", "b", ""]);
    assert_eq!(split_by("", Separator::Byte(b',')), vec![""]);
}

#[test]
fn sources_are_read_as_euc_jp() {
    assert_eq!(read_mecab_text(&[0xC5, 0xEC, 0xB5, 0xFE]), "東京");
    assert_eq!(read_mecab_text(b"0x0041 ALPHA"), "0x0041 ALPHA");
}

#[test]
fn sizes_add_up() {
    let report =
        SizeReport { char_def: 1, unk_dict: 20, cost_matrix: 300, entry_dict: 4000, term_fst: 5 };
    assert_eq!(report.total(), 4326);
}

#[test]
fn tokenizer_reads_only_artifacts_that_fit() {
    let stored = build();
    assert!(Tokenizer::new(&stored).is_ok());

    let short_dict = stored.term_dict_bytes()[..3].to_vec();
    let broken = with(&stored, Some(short_dict.clone()), None, None, None);
    assert!(matches!(Tokenizer::new(&broken), Err(ArtifactError::DecodeError(_))));

    // a length that the bytes only claim is refused, not reserved
    let claims = vec![0xFD, 0xFF, 0xFF, 0xFF, 0xFF, 0xFF, 0xFF, 0xFF, 0x3F];
    let broken = with(&stored, Some(claims.clone()), None, None, None);
    assert!(matches!(Tokenizer::new(&broken), Err(ArtifactError::DecodeError(_))));
    let mut matrix_claims = vec![0, 0];
    matrix_claims.extend(claims.clone());
    let broken = with(&stored, None, None, None, Some(matrix_claims));
    assert!(matches!(Tokenizer::new(&broken), Err(ArtifactError::DecodeError(_))));
    let broken = with(&stored, None, Some(claims.clone()), None, None);
    assert!(matches!(Tokenizer::new(&broken), Err(ArtifactError::DecodeError(_))));
    let broken = with(&stored, None, None, Some(claims), None);
    assert!(matches!(Tokenizer::new(&broken), Err(ArtifactError::DecodeError(_))));

    let small = build_cost_matrix("2 2\n").unwrap().to_bytes().unwrap();
    let broken = with(&stored, None, None, None, Some(small));
    assert!(matches!(Tokenizer::new(&broken), Err(ArtifactError::ContextOutOfRange)));

    let fits = "あ".repeat(10922);
    assert_eq!(fits.len(), 32766);
    assert_eq!(tokenize(&stored, &fits).unwrap().len(), 1);

    // a longer text is analysed in the same way
    let long = "あ".repeat(11000);
    let tokens = tokenize(&stored, &long).unwrap();
    assert_eq!(tokens.len(), 1);
    assert_eq!(tokens[0].text, long);
    let words = tokenize_word(&stored, &long).unwrap();
    assert_eq!(words.len(), 1);
    assert_eq!(words[0].text, long);
}

#[test]
fn the_first_artifact_that_is_wrong_gives_the_error() {
    let stored = build();
    let bad_tags = bincode::encode_to_vec(
        (
            vec![(1u16, 2i16)],
            vec![(99u32, Vec::<u32>::new(), None::<u32>, None::<u32>, None::<String>, None::<String>)],
        ),
        bincode::config::standard(),
    )
    .unwrap();
    let bad_unk_tags = bincode::encode_to_vec(
        (
            Vec::<(String, Vec<(usize, (u16, i16))>)>::new(),
            vec![(0u32, vec![77u32], None::<u32>, None::<u32>, None::<String>, None::<String>)],
        ),
        bincode::config::standard(),
    )
    .unwrap();
    let bad_shape = bincode::encode_to_vec((2usize, 2usize, vec![0i16; 3]), bincode::config::standard()).unwrap();
    let undecodable = vec![0xFFu8];

    // entry dictionary before everything that follows it
    let broken = with(&stored, Some(bad_tags.clone()), Some(undecodable.clone()), None, Some(bad_shape.clone()));
    assert!(matches!(Tokenizer::new(&broken), Err(ArtifactError::InvalidVariant)));
    let broken = with(&stored, Some(undecodable.clone()), Some(bad_unk_tags.clone()), None, Some(bad_shape.clone()));
    assert!(matches!(Tokenizer::new(&broken), Err(ArtifactError::DecodeError(_))));
    // unknown dictionary before table and matrix
    let broken = with(&stored, None, Some(bad_unk_tags.clone()), Some(undecodable.clone()), Some(bad_shape.clone()));
    assert!(matches!(Tokenizer::new(&broken), Err(ArtifactError::InvalidVariant)));
    // character table before the matrix
    let broken = with(&stored, None, None, Some(undecodable.clone()), Some(bad_shape.clone()));
    assert!(matches!(Tokenizer::new(&broken), Err(ArtifactError::DecodeError(_))));
    // the matrix before the fit of the contexts
    let broken = with(&stored, None, None, None, Some(bad_shape));
    assert!(matches!(Tokenizer::new(&broken), Err(ArtifactError::Malformed)));
    assert!(matches!(tokenize(&broken, "東京"), Err(ArtifactError::Malformed)));
}

#[test]
fn artifacts_are_built_from_the_parts() {
    let stored = build();
    let lines = split_lines(LEXICON);
    let (rows, order) = fill_entry_maps(&lines).unwrap();
    assert_eq!(
        stored.term_fst_bytes(),
        &build_term_fst(&surfaces_of(&rows), &order).unwrap()
    );
    assert_eq!(
        stored.term_dict_bytes(),
        &build_entry_dict(&rows, &order).to_bytes().unwrap()
    );
    assert_eq!(stored.unk_dict_bytes(), &build_unk_dict(UNK_DEF).unwrap().to_bytes().unwrap());
    assert_eq!(stored.char_table_bytes(), &build_char_def(CHAR_DEF).unwrap().to_bytes().unwrap());
    assert_eq!(
        stored.cost_matrix_bytes(),
        &build_cost_matrix(MATRIX_DEF).unwrap().to_bytes().unwrap()
    );

    let lines: Vec<String> = (0..32).map(|i| format!("同,1,1,{},名詞,*", i)).collect();
    let lines: Vec<&str> = lines.iter().map(|l| l.as_str()).collect();
    let (rows, order) = fill_entry_maps(&lines).unwrap();
    let built = Artifacts::build(
        &rows,
        &order,
        &build_unk_dict(UNK_DEF).unwrap(),
        &build_char_def(CHAR_DEF).unwrap(),
        &build_cost_matrix(MATRIX_DEF).unwrap(),
    );
    assert!(matches!(built, Err(ArtifactError::Malformed)));
    assert!(matches!(FstSearcher::build(&surfaces_of(&rows), &order), Err(ArtifactError::Malformed)));
}
