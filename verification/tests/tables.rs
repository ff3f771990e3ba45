use std::collections::HashMap;

use kaiseki::char_table::{CharCategory, CharTable};
use kaiseki::codec::{RawCategory, RawFeature, RawTerm};
use kaiseki::lattice::{Lattice, Node};
use kaiseki::matrix::{CostMatrix, FlatMatrix};
use kaiseki::row::Row;
use kaiseki::searcher::FstSearcher;
use kaiseki::term::Term;
use kaiseki::unk::UnknownDictionary;

fn standard() -> bincode::config::Configuration {
    bincode::config::standard()
}

/// The bytes of an unknown dictionary whose buckets are held in a hash
/// map, as the artifacts of the dictionary builder are.
fn unknown_dictionary_bytes() -> Vec<u8> {
    let mut terms: HashMap<String, Vec<(usize, RawTerm)>> = HashMap::new();
    terms.insert("DEFAULT".to_owned(), vec![(0, (5, 4769))]);
    terms.insert("SPACE".to_owned(), vec![(1, (9, 8903))]);
    terms.insert("KANJI".to_owned(), vec![(2, (1285, 11426)), (3, (1283, 17290))]);
    let symbol: RawFeature = (11, vec![0], None, None, None, None);
    let space: RawFeature = (11, vec![32], None, None, None, None);
    let noun: RawFeature = (0, vec![0], None, None, None, None);
    let feature: Vec<RawFeature> = vec![symbol, space, noun.clone(), noun];
    bincode::encode_to_vec((terms, feature), standard()).unwrap()
}

fn category(name: &str, invoke: bool, group: bool, length: usize) -> RawCategory {
    (name.to_owned(), invoke, group, length)
}

fn char_table_bytes() -> Vec<u8> {
    let mut map: Vec<Vec<RawCategory>> = vec![vec![]; 0x10000];
    for code in 0x30..=0x39 {
        map[code] = vec![category("NUMERIC", true, true, 0)];
    }
    for code in 0x4E00..=0x9FFF {
        map[code] = vec![category("KANJI", false, false, 2)];
    }
    map['一' as usize] =
        vec![category("KANJINUMERIC", true, true, 0), category("KANJI", false, false, 2)];
    bincode::encode_to_vec(map, standard()).unwrap()
}

fn cost_matrix_bytes() -> Vec<u8> {
    let mut values: Vec<i16> = vec![0; 9];
    values[0] = -434;
    values[5] = 120;
    bincode::encode_to_vec((3usize, 3usize, values), standard()).unwrap()
}

#[test]
fn consts_test_get_term() {
    let unk_dict = UnknownDictionary::load(&unknown_dictionary_bytes()).unwrap();
    let terms = unk_dict.get_terms("DEFAULT").unwrap();
    let (id, term) = &terms[0];

    assert_eq!(0, *id);
    assert_eq!(5, term.context_id);
    assert_eq!(4769, term.cost);
}

#[test]
fn unk_test_get_term() {
    let unk_dict = UnknownDictionary::load(&unknown_dictionary_bytes()).unwrap();
    let terms = unk_dict.get_terms("DEFAULT").unwrap();
    let (id, term) = &terms[0];

    assert_eq!(0, *id);
    assert_eq!(5, term.context_id);
    assert_eq!(4769, term.cost);
}

#[test]
fn consts_test_lookup() {
    let lookup_table = CharTable::load(&char_table_bytes()).unwrap();
    let categories = lookup_table.lookup('一');
    let expected = vec![
        CharCategory::new("KANJINUMERIC".to_owned(), true, true, 0),
        CharCategory::new("KANJI".to_owned(), false, false, 2),
    ];

    assert_eq!(&expected[..], categories);

    let categories = lookup_table.lookup('1');
    let expected = vec![CharCategory::new("NUMERIC".to_owned(), true, true, 0)];

    assert_eq!(&expected[..], categories);
}

#[test]
fn char_test_lookup() {
    let lookup_table = CharTable::load(&char_table_bytes()).unwrap();
    let categories = lookup_table.lookup('一');
    let expected = vec![
        CharCategory::new("KANJINUMERIC".to_owned(), true, true, 0),
        CharCategory::new("KANJI".to_owned(), false, false, 2),
    ];

    assert_eq!(&expected[..], categories);

    let categories = lookup_table.lookup('1');
    let expected = vec![CharCategory::new("NUMERIC".to_owned(), true, true, 0)];

    assert_eq!(&expected[..], categories);
}

#[test]
fn consts_test_cost_matrix() {
    let cost_matrix = CostMatrix::load(&cost_matrix_bytes()).unwrap();
    let value = cost_matrix.get(0, 0);

    assert_eq!(value, -434);
}

#[test]
fn matrix_test_cost_matrix() {
    let cost_matrix = CostMatrix::load(&cost_matrix_bytes()).unwrap();

    assert_eq!(cost_matrix.get(0, 0), -434);
}

#[test]
fn test_prefix_search() {
    let mut builder = fst::MapBuilder::memory();
    builder.insert("憂", (220041u64 << 5) | 2).unwrap();
    builder.insert("憂い", (220043u64 << 5) | 1).unwrap();
    let bytes = builder.into_inner().unwrap();

    let source = "憂";
    let searcher = FstSearcher::load(bytes).unwrap();
    let terms = searcher.get_from_prefix(source);
    let expected = vec![(3, 220041), (3, 220042)];

    assert_eq!(terms, expected);
}

#[test]
fn test_row_parsing() {
    let line = "真,560,560,7716,接頭詞,名詞接続,*,*,*,*,真,マ,";
    let row = Row::try_from(line).unwrap();

    let expected = Row {
        surface_form: "真",
        left_id: 560,
        right_id: 560,
        cost: 7716,
        part_of_speech: "接頭詞",
        sub_part_of_speech1: Some("名詞接続"),
        sub_part_of_speech2: None,
        sub_part_of_speech3: None,
        conjugation_type: None,
        conjugation_form: None,
        base_form: Some("真"),
        reading: Some("マ"),
        pronounciation: None,
    };

    assert_eq!(row, expected);
}

#[test]
fn lattice_test_find_path() {
    let mut lattice = Lattice::new(18);
    let mut grid = FlatMatrix::new(7, 7);
    grid.set(0, 0, -434);
    let cost_matrix = CostMatrix::new(grid);

    lattice.add_node(Node::new(1, false, 0, 3, 5, 6245)); // 東
    lattice.add_node(Node::new(2, false, 0, 6, 3, 3003)); // 東京
    lattice.add_node(Node::new(3, false, 3, 6, 3, 10791)); // 京
    lattice.add_node(Node::new(4, false, 6, 9, 5, 7595)); // 都
    lattice.add_node(Node::new(5, false, 6, 9, 6, 9428)); // 都
    lattice.add_node(Node::new(6, false, 9, 12, 1, 4303)); // に
    lattice.add_node(Node::new(7, false, 9, 12, 2, 11880)); // に
    lattice.add_node(Node::new(8, false, 12, 18, 4, 7048)); // 住む

    let nodes = lattice.find_path(&cost_matrix);

    assert_eq!(4, nodes.len());
    assert_eq!(2, nodes[0].term_id); // 東京
    assert_eq!(4, nodes[1].term_id); // 都
    assert_eq!(6, nodes[2].term_id); // に
    assert_eq!(8, nodes[3].term_id); // 住む
}

#[test]
fn term_from_row_takes_left_context() {
    let row = Row::try_from("都,7,8,7595,名詞,接尾,地域,*,*,*,都,ト,ト").unwrap();
    assert_eq!(Term::from(&row), Term::new(7, 7595));
}
