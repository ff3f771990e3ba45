//! The tokenizer: candidates from the dictionaries at every offset that
//! can be reached, the cheapest path through them, and its morphemes.

use crate::char_table::{categories_contain, category_views, CharCategoryView, CharTable};
use crate::codec::{
    buckets_of_codes, codes_of_buckets, codes_of_features, codes_of_slots, codes_of_terms,
    decoded_chars, decoded_dict, decoded_matrix, decoded_unk, encoded_chars, encoded_dict,
    encoded_matrix, encoded_unk, features_of_codes, slots_of_codes, terms_of_codes,
};
use crate::dict::EntryDictionary;
use crate::error::ArtifactError;
use crate::feature::{Feature, FeatureView};
use crate::lexicon::{
    build_entry_dict, build_term_fst, built_image, entry_features, entry_terms, is_built_image,
    key_values, ordered_keys, runs_fit, sorts, surface_keys, surfaces_of,
};
use crate::row::Row;
use crate::lattice::{
    end_node, inner_nodes, is_route, is_step, is_walk, lemma_nodes_in_range, lemma_reaches,
    lemma_route_shape, lemma_same_walks, lemma_short_sums_fit, lemma_sums_fit_frame,
    same_candidates, sums_fit, start_node, step_cost, walk_cost,
    Lattice, Node, NodeId, MAX_LATTICE_LEN,
};
use crate::matrix::CostMatrix;
use crate::morpheme::{morpheme_views, Morpheme, MorphemeView};
use crate::searcher::{fst_accepts, matches_upto, FstSearcher};
use crate::term::{ExtractedTerm, Term, TermId};
use crate::text::lemma_boundary_in_prefix;
use crate::unk::{Bucket, UnknownDictionary};
use crate::word::{group_words, joined_text, word_views, words_from, Word};
use vstd::prelude::*;
use vstd::std_specs::iter::IteratorSpec;
use vstd::string::StringSliceAdditionalSpecFns;
use vstd::utf8::{decode_utf8, encode_scalar, encode_utf8, is_char_boundary, valid_utf8};

verus! {

broadcast use vstd::string::group_string_axioms;

/// Number of bytes that a character takes in UTF-8.
pub open spec fn utf8_width(c: char) -> int {
    if (c as u32) < 0x80 {
        1
    } else if (c as u32) < 0x800 {
        2
    } else if (c as u32) < 0x10000 {
        3
    } else {
        4
    }
}

/// Number of bytes that the characters from `from` up to `to` take in UTF-8.
pub open spec fn width_sum(text: Seq<char>, from: int, to: int) -> int
    decreases to - from,
{
    if from >= to {
        0
    } else {
        utf8_width(text[from]) + width_sum(text, from + 1, to)
    }
}

/// The width of a character is the length of its encoding.
pub proof fn lemma_width_is_encoded(c: char)
    ensures
        encode_scalar(c as u32).len() == utf8_width(c),
        1 <= utf8_width(c) <= 4,
{
}

pub proof fn lemma_width_sum_extend(text: Seq<char>, from: int, to: int)
    requires
        0 <= from <= to < text.len(),
    ensures
        width_sum(text, from, to + 1) == width_sum(text, from, to) + utf8_width(text[to]),
        width_sum(text, from, to) >= 0,
    decreases to - from,
{
    if from < to {
        lemma_width_sum_extend(text, from + 1, to);
    } else {
        assert(width_sum(text, to + 1, to + 1) == 0);
    }
}

/// A text takes as many bytes as its characters take together, and any
/// prefix takes no more.
pub proof fn lemma_width_sum_bytes(text: Seq<char>, from: int)
    requires
        0 <= from <= text.len(),
    ensures
        width_sum(text, from, text.len() as int) == encode_utf8(text.skip(from)).len(),
        forall|to: int|
            from <= to <= text.len() ==> 0 <= #[trigger] width_sum(text, from, to) <= width_sum(
                text,
                from,
                text.len() as int,
            ),
    decreases text.len() - from,
{
    if from < text.len() {
        lemma_width_sum_bytes(text, from + 1);
        assert(text.skip(from).drop_first() =~= text.skip(from + 1));
        lemma_width_is_encoded(text[from]);
        assert forall|to: int| from <= to <= text.len() implies 0 <= #[trigger] width_sum(
            text,
            from,
            to,
        ) <= width_sum(text, from, text.len() as int) by {
            if to > from {
                assert(0 <= width_sum(text, from + 1, to) <= width_sum(
                    text,
                    from + 1,
                    text.len() as int,
                ));
            }
        }
    } else {
        assert(text.skip(from) =~= Seq::<char>::empty());
    }
}

fn utf8_width_of(c: char) -> (width: usize)
    ensures
        width == utf8_width(c),
        1 <= width <= 4,
{
    let code: u32 = c as u32;
    if code < 0x80 {
        1
    } else if code < 0x800 {
        2
    } else if code < 0x10000 {
        3
    } else {
        4
    }
}

/// The known terms among the matches of a transducer: each match whose
/// id the dictionary has, as a candidate of the matched length.
pub open spec fn known_among(terms: Seq<Term>, found: Seq<(usize, TermId)>, n: int) -> Seq<
    ExtractedTerm,
>
    decreases n,
{
    if n <= 0 {
        Seq::empty()
    } else {
        let (length, id) = found[n - 1];
        if id < terms.len() {
            known_among(terms, found, n - 1).push(
                ExtractedTerm { id, unknown: false, length, value: terms[id as int] },
            )
        } else {
            known_among(terms, found, n - 1)
        }
    }
}

/// Position of the first character at or after `pos` that does not
/// belong to `category`; the length of the text where there is none.
pub open spec fn group_end(
    table: &CharTable,
    text: Seq<char>,
    category: CharCategoryView,
    pos: int,
) -> int
    decreases text.len() - pos,
{
    if pos >= text.len() || pos < 0 {
        text.len() as int
    } else if table.categories(text[pos]).contains(category) {
        group_end(table, text, category, pos + 1)
    } else {
        pos
    }
}

/// Whether unknown words are made from a category: always where no known
/// term was found, and else only where the category asks for it.
pub open spec fn category_applies(category: CharCategoryView, found: bool) -> bool {
    !found || category.invoke
}

/// How far the making of unknown words has read when the first `c`
/// categories of the first character are done: the position of the next
/// unread character, and the bytes that a candidate spans. A grouping
/// category reads on while the characters belong to it, and stops at the
/// first character that does not: there the next category goes on.
pub open spec fn scan_state(
    table: &CharTable,
    text: Seq<char>,
    found: bool,
    c: int,
) -> (int, int)
    decreases c,
{
    if c <= 0 {
        (1, utf8_width(text[0]))
    } else {
        let (pos, span) = scan_state(table, text, found, c - 1);
        let category = table.categories(text[0])[c - 1];
        if category_applies(category, found) && category.group {
            let end = group_end(table, text, category, pos);
            (end, span + width_sum(text, pos, end))
        } else {
            (pos, span)
        }
    }
}

/// The terms of a bucket as candidates that span `length` bytes.
pub open spec fn bucket_candidates(bucket: Option<Seq<(TermId, Term)>>, length: usize) -> Seq<
    ExtractedTerm,
> {
    match bucket {
        Some(terms) => Seq::new(
            terms.len(),
            |k: int| ExtractedTerm { id: terms[k].0, unknown: true, length, value: terms[k].1 },
        ),
        None => Seq::empty(),
    }
}

/// The unknown candidates that the first `c` categories of the first
/// character give.
pub open spec fn unknown_upto(
    table: &CharTable,
    unk_dict: &UnknownDictionary,
    text: Seq<char>,
    found: bool,
    c: int,
) -> Seq<ExtractedTerm>
    decreases c,
{
    if c <= 0 {
        Seq::empty()
    } else {
        let before = unknown_upto(table, unk_dict, text, found, c - 1);
        let category = table.categories(text[0])[c - 1];
        if category_applies(category, found) {
            before + bucket_candidates(
                unk_dict.bucket(category.name),
                scan_state(table, text, found, c).1 as usize,
            )
        } else {
            before
        }
    }
}

proof fn lemma_scan_bounds(table: &CharTable, text: Seq<char>, found: bool, c: int)
    requires
        text.len() > 0,
        0 <= c,
    ensures
        1 <= scan_state(table, text, found, c).0 <= text.len(),
        1 <= scan_state(table, text, found, c).1 <= width_sum(
            text,
            0,
            scan_state(table, text, found, c).0,
        ),
    decreases c,
{
    if c <= 0 {
        lemma_width_sum_extend(text, 0, 0);
    } else {
        lemma_scan_bounds(table, text, found, c - 1);
        let (pos, span) = scan_state(table, text, found, c - 1);
        let category = table.categories(text[0])[c - 1];
        if category_applies(category, found) && category.group {
            let end = group_end(table, text, category, pos);
            lemma_group_end_bounds(table, text, category, pos);
            lemma_width_sum_join(text, 0, pos, end);
            lemma_width_sum_bytes(text, pos);
        }
    }
}

proof fn lemma_group_end_bounds(
    table: &CharTable,
    text: Seq<char>,
    category: CharCategoryView,
    pos: int,
)
    requires
        0 <= pos <= text.len(),
    ensures
        pos <= group_end(table, text, category, pos) <= text.len(),
    decreases text.len() - pos,
{
    if pos < text.len() && table.categories(text[pos]).contains(category) {
        lemma_group_end_bounds(table, text, category, pos + 1);
    }
}

proof fn lemma_width_sum_join(text: Seq<char>, from: int, mid: int, to: int)
    requires
        0 <= from <= mid <= to <= text.len(),
    ensures
        width_sum(text, from, to) == width_sum(text, from, mid) + width_sum(text, mid, to),
    decreases mid - from,
{
    if from < mid {
        lemma_width_sum_join(text, from + 1, mid, to);
    }
}

/// Whether the matrix has a cell for the context of every term.
pub open spec fn terms_covered(terms: Seq<Term>, matrix: &CostMatrix) -> bool {
    forall|i: int|
        0 <= i < terms.len() ==> matrix.covers(
            (#[trigger] terms[i]).context_id,
            terms[i].context_id,
        )
}

/// Whether the matrix has a cell for the context of every term of every bucket.
pub open spec fn buckets_covered(
    entries: Seq<(Seq<char>, Seq<(TermId, Term)>)>,
    matrix: &CostMatrix,
) -> bool {
    forall|e: int, k: int|
        0 <= e < entries.len() && 0 <= k < entries[e].1.len() ==> matrix.covers(
            (#[trigger] entries[e].1[k]).1.context_id,
            entries[e].1[k].1.context_id,
        )
}

fn check_terms(terms: &Vec<Term>, matrix: &CostMatrix) -> (covered: bool)
    ensures
        covered == terms_covered(terms@, matrix),
{
    let mut i: usize = 0;
    while i < terms.len()
        invariant
            i <= terms.len(),
            forall|k: int|
                0 <= k < i ==> matrix.covers((#[trigger] terms@[k]).context_id, terms@[k].context_id),
        decreases terms.len() - i,
    {
        if !matrix.covers_below(terms[i].context_id as usize + 1) {
            assert(!matrix.covers(terms@[i as int].context_id, terms@[i as int].context_id));
            return false;
        }
        i += 1;
    }
    true
}

fn check_bucket(bucket: &Bucket, matrix: &CostMatrix) -> (covered: bool)
    ensures
        covered == (forall|k: int|
            0 <= k < bucket@.len() ==> matrix.covers(
                (#[trigger] bucket@[k]).1.context_id,
                bucket@[k].1.context_id,
            )),
{
    let mut i: usize = 0;
    while i < bucket.len()
        invariant
            i <= bucket.len(),
            forall|k: int|
                0 <= k < i ==> matrix.covers(
                    (#[trigger] bucket@[k]).1.context_id,
                    bucket@[k].1.context_id,
                ),
        decreases bucket.len() - i,
    {
        if !matrix.covers_below(bucket[i].1.context_id as usize + 1) {
            assert(!matrix.covers(bucket@[i as int].1.context_id, bucket@[i as int].1.context_id));
            return false;
        }
        i += 1;
    }
    true
}

fn check_buckets(unk_dict: &UnknownDictionary, matrix: &CostMatrix) -> (covered: bool)
    ensures
        covered == buckets_covered(unk_dict.entries(), matrix),
{
    let entries = unk_dict.entries_ref();
    let ghost views = unk_dict.entries();
    let mut e: usize = 0;
    while e < entries.len()
        invariant
            e <= entries.len(),
            views == unk_dict.entries(),
            views == crate::unk::bucket_views(entries@),
            forall|a: int, k: int|
                0 <= a < e && 0 <= k < views[a].1.len() ==> matrix.covers(
                    (#[trigger] views[a].1[k]).1.context_id,
                    views[a].1[k].1.context_id,
                ),
        decreases entries.len() - e,
    {
        assert(views[e as int].1 == entries@[e as int].1@);
        if !check_bucket(&entries[e].1, matrix) {
            proof {
                let bucket = entries@[e as int].1@;
                if buckets_covered(views, matrix) {
                    assert forall|k: int| 0 <= k < bucket.len() implies matrix.covers(
                        (#[trigger] bucket[k]).1.context_id,
                        bucket[k].1.context_id,
                    ) by {
                        assert(views[e as int].1[k] == bucket[k]);
                    }
                }
            }
            return false;
        }
        e += 1;
    }
    true
}

/// The five artifacts of a dictionary, ready to analyse texts.
pub struct Tokenizer {
    fst: FstSearcher,
    dict: EntryDictionary,
    unk_dict: UnknownDictionary,
    char_table: CharTable,
    matrix: CostMatrix,
}

impl Tokenizer {
    #[verifier::type_invariant]
    spec fn contexts_fit(&self) -> bool {
        self.matrix.covers(0, 0) && terms_covered(self.dict.terms(), &self.matrix)
            && buckets_covered(self.unk_dict.entries(), &self.matrix)
    }

    pub closed spec fn searcher(&self) -> FstSearcher {
        self.fst
    }

    pub closed spec fn dict(&self) -> EntryDictionary {
        self.dict
    }

    pub closed spec fn unk_dict(&self) -> UnknownDictionary {
        self.unk_dict
    }

    pub closed spec fn char_table(&self) -> CharTable {
        self.char_table
    }

    pub closed spec fn matrix(&self) -> CostMatrix {
        self.matrix
    }

    /// The known candidates at the start of a text.
    pub open spec fn known_terms(&self, text: Seq<char>) -> Seq<ExtractedTerm> {
        let found = matches_upto(
            self.searcher().image(),
            encode_utf8(text),
            encode_utf8(text).len() as int,
        );
        known_among(self.dict().terms(), found, found.len() as int)
    }

    /// The unknown candidates at the start of a text, beside known ones
    /// (`found`) or alone.
    pub open spec fn unknown_terms(&self, text: Seq<char>, found: bool) -> Seq<ExtractedTerm> {
        unknown_upto(
            &self.char_table(),
            &self.unk_dict(),
            text,
            found,
            self.char_table().categories(text[0]).len() as int,
        )
    }

    /// All candidates at the start of a text: the known ones, and after
    /// them the unknown ones.
    #[verifier::opaque]
    pub open spec fn candidates(&self, text: Seq<char>) -> Seq<ExtractedTerm> {
        self.known_terms(text) + self.unknown_terms(text, self.known_terms(text).len() > 0)
    }

    /// The features that go with a candidate: those that its dictionary
    /// has for it, and else those of a term that nothing describes.
    pub open spec fn feature_of(&self, id: TermId, unknown: bool) -> FeatureView {
        let found = if unknown {
            self.unk_dict().feature(id)
        } else {
            self.dict().feature(id)
        };
        match found {
            Some(feature) => feature,
            None => FeatureView::unknown(),
        }
    }

    /// A tokenizer over the five parts of a dictionary. It is refused
    /// where the matrix has no cell for context 0, which stands at both
    /// ends of every text, or for the context of some term.
    pub fn from_parts(
        fst: FstSearcher,
        dict: EntryDictionary,
        unk_dict: UnknownDictionary,
        char_table: CharTable,
        matrix: CostMatrix,
    ) -> (made: Result<Self, ArtifactError>)
        ensures
            made is Ok <==> matrix.covers(0, 0) && terms_covered(dict.terms(), &matrix)
                && buckets_covered(unk_dict.entries(), &matrix),
            made matches Ok(tokenizer) ==> tokenizer.searcher() == fst && tokenizer.dict() == dict
                && tokenizer.unk_dict() == unk_dict && tokenizer.char_table() == char_table
                && tokenizer.matrix() == matrix,
            made matches Err(e) ==> e is ContextOutOfRange,
    {
        if matrix.covers_below(1) && check_terms(dict.terms_ref(), &matrix) && check_buckets(
            &unk_dict,
            &matrix,
        ) {
            Ok(Self { fst, dict, unk_dict, char_table, matrix })
        } else {
            Err(ArtifactError::ContextOutOfRange)
        }
    }

    /// The known candidates at the start of `input`.
    pub fn get_terms_from_str(&self, input: &str) -> (extracted: Vec<ExtractedTerm>)
        ensures
            extracted@ == self.known_terms(input@),
    {
        let terms = self.fst.get_from_prefix(input);
        let mut extracted: Vec<ExtractedTerm> = Vec::new();
        let mut i: usize = 0;
        while i < terms.len()
            invariant
                i <= terms.len(),
                extracted@ == known_among(self.dict.terms(), terms@, i as int),
            decreases terms.len() - i,
        {
            let (len, id) = terms[i];
            if let Some(term) = self.dict.get_term(id) {
                extracted.push(ExtractedTerm::new(id, false, len, *term));
            }
            i += 1;
        }
        extracted
    }

    /// The unknown candidates at the start of `input`, which is not empty.
    pub fn get_unkown_terms_from_str(&self, input: &str, found: bool) -> (unk_terms: Vec<
        ExtractedTerm,
    >)
        requires
            input@.len() > 0,
        ensures
            unk_terms@ == self.unknown_terms(input@, found),
    {
        let ghost text = input@;
        let ghost table = self.char_table;
        let total: usize = input.as_bytes().len();
        let mut unk_terms: Vec<ExtractedTerm> = Vec::new();
        let mut chars = input.chars();
        let ch = match chars.next() {
            Some(ch) => ch,
            None => {
                return unk_terms;
            },
        };
        let char_categories = self.char_table.lookup(ch);
        let mut current_len: usize = utf8_width_of(ch);
        let mut ahead: Option<char> = None;
        let ghost mut pos: int = 1;
        proof {
            assert(text.skip(0) =~= text);
            assert(text.skip(0).drop_first() =~= text.skip(1));
            lemma_width_sum_bytes(text, 0);
        }
        let mut c: usize = 0;
        while c < char_categories.len()
            invariant
                c <= char_categories.len(),
                text == input@,
                text.len() > 0,
                table == self.char_table,
                total == encode_utf8(text).len(),
                width_sum(text, 0, text.len() as int) == total,
                category_views(char_categories@) == table.categories(text[0]),
                chars.obeys_prophetic_iter_laws(),
                chars.remaining() == text.skip(
                    if ahead is Some {
                        pos + 1
                    } else {
                        pos
                    },
                ),
                ahead matches Some(read) ==> pos < text.len() && read == text[pos],
                scan_state(&table, text, found, c as int) == (pos, current_len as int),
                unk_terms@ == unknown_upto(&table, &self.unk_dict, text, found, c as int),
            decreases char_categories.len() - c,
        {
            let category = &char_categories[c];
            proof {
                assert(category_views(char_categories@)[c as int] == category@);
                lemma_scan_bounds(&table, text, found, c as int);
                lemma_scan_bounds(&table, text, found, c + 1);
                lemma_width_sum_bytes(text, 0);
            }
            if !found || category.invoke {
                if category.group {
                    let ghost from = pos;
                    let ghost base_len = current_len as int;
                    let mut going: bool = true;
                    proof {
                        lemma_group_end_bounds(&table, text, category@, from);
                    }
                    while going
                        invariant
                            text == input@,
                            table == self.char_table,
                            total == encode_utf8(text).len(),
                            width_sum(text, 0, text.len() as int) == total,
                            chars.obeys_prophetic_iter_laws(),
                            chars.remaining() == text.skip(
                                if ahead is Some {
                                    pos + 1
                                } else {
                                    pos
                                },
                            ),
                            ahead matches Some(read) ==> pos < text.len() && read == text[pos],
                            1 <= from <= pos <= text.len(),
                            from <= group_end(&table, text, category@, from) <= text.len(),
                            base_len + width_sum(text, from, group_end(&table, text, category@, from))
                                <= total,
                            going ==> group_end(&table, text, category@, pos) == group_end(
                                &table,
                                text,
                                category@,
                                from,
                            ),
                            going ==> current_len == base_len + width_sum(text, from, pos),
                            !going ==> {
                                let end = group_end(&table, text, category@, from);
                                &&& pos == end
                                &&& current_len == base_len + width_sum(text, from, end)
                            },
                        decreases text.len() - pos + if going { 1int } else { 0int },
                    {
                        let ghost waiting = ahead is Some;
                        let read: Option<char> = if ahead.is_some() {
                            ahead
                        } else {
                            chars.next()
                        };
                        match read {
                            Some(ch) => {
                                proof {
                                    if !waiting {
                                        assert(text.skip(pos)[0] == text[pos]);
                                        assert(text.skip(pos).drop_first() =~= text.skip(pos + 1));
                                    }
                                    assert(ch == text[pos]);
                                    lemma_width_sum_extend(text, from, pos);
                                    lemma_group_end_bounds(&table, text, category@, pos + 1);
                                    lemma_width_sum_bytes(text, pos + 1);
                                }
                                if categories_contain(self.char_table.lookup(ch), category) {
                                    proof {
                                        lemma_width_sum_join(
                                            text,
                                            from,
                                            pos + 1,
                                            group_end(&table, text, category@, from),
                                        );
                                    }
                                    current_len += utf8_width_of(ch);
                                    ahead = None;
                                    proof {
                                        pos = pos + 1;
                                    }
                                } else {
                                    ahead = Some(ch);
                                    going = false;
                                }
                            },
                            None => {
                                going = false;
                            },
                        }
                    }
                }
                if let Some(terms) = self.unk_dict.get_terms(category.name.as_str()) {
                    let ghost before = unk_terms@;
                    let ghost wanted = bucket_candidates(Some(terms@), current_len);
                    let mut k: usize = 0;
                    while k < terms.len()
                        invariant
                            k <= terms.len(),
                            wanted == bucket_candidates(Some(terms@), current_len),
                            unk_terms@ == before + wanted.take(k as int),
                        decreases terms.len() - k,
                    {
                        let (id, value) = terms[k];
                        unk_terms.push(ExtractedTerm::new(id, true, current_len, value));
                        k += 1;
                        assert(wanted.take(k as int) =~= wanted.take(k - 1).push(wanted[k - 1]));
                    }
                    assert(wanted.take(terms.len() as int) =~= wanted);
                } else {
                    assert(unk_terms@ + bucket_candidates(None, current_len) =~= unk_terms@);
                }
            }
            c += 1;
        }
        unk_terms
    }
}

/// The text that begins at byte `start` of an input.
pub open spec fn tail_at(bytes: Seq<u8>, start: int) -> Seq<char> {
    decode_utf8(bytes.subrange(start, bytes.len() as int))
}

/// The candidate that a lattice node stands for.
pub open spec fn candidate_of(node: Node) -> ExtractedTerm {
    ExtractedTerm {
        id: node.term_id,
        unknown: node.unknown,
        length: (node.end - node.start) as usize,
        value: Term { context_id: node.context_id, cost: node.cost },
    }
}

/// The node that stands for a candidate at `index`.
pub open spec fn node_at(index: usize, term: ExtractedTerm) -> Node {
    Node {
        term_id: term.id,
        unknown: term.unknown,
        start: index,
        end: (index + term.length) as usize,
        context_id: term.value.context_id,
        cost: term.value.cost,
        total_cost: i32::MAX,
        prev_node: None,
    }
}

/// Whether a candidate at `index` spans at least one byte and ends inside
/// the input at a character boundary.
pub open spec fn fits_input(bytes: Seq<u8>, index: usize, term: ExtractedTerm) -> bool {
    term.length > 0 && index + term.length <= bytes.len() && is_char_boundary(
        bytes,
        index + term.length,
    )
}

/// The nodes of the first `k` candidates at `index`, without those that
/// do not fit the input.
pub open spec fn admitted_upto(
    bytes: Seq<u8>,
    index: usize,
    offered: Seq<ExtractedTerm>,
    k: int,
) -> Seq<Node>
    decreases k,
{
    if k <= 0 {
        Seq::empty()
    } else if fits_input(bytes, index, offered[k - 1]) {
        admitted_upto(bytes, index, offered, k - 1).push(node_at(index, offered[k - 1]))
    } else {
        admitted_upto(bytes, index, offered, k - 1)
    }
}

/// Whether one of the nodes, the end node apart, ends at `position`.
pub open spec fn some_ends_at(nodes: Seq<Node>, position: int) -> bool {
    exists|id: int| 0 <= id < nodes.len() && id != 1 && (#[trigger] nodes[id]).end == position
}

/// Whether one of the added nodes is the candidate `node`.
#[verifier::opaque]
pub open spec fn holds_candidate(nodes: Seq<Node>, node: Node) -> bool {
    exists|id: int| 2 <= id < nodes.len() && (#[trigger] nodes[id]).same_candidate(node)
}

/// What the first `n` nodes of a path cost: each its own cost and that of
/// connecting it to the node before it, the first one to the start of
/// the text, whose context is 0.
pub open spec fn sequence_cost(matrix: &CostMatrix, path: Seq<Node>, n: int) -> int
    decreases n,
{
    if n <= 0 {
        0
    } else {
        sequence_cost(matrix, path, n - 1) + path[n - 1].cost + matrix.cost(
            if n == 1 {
                0
            } else {
                path[n - 2].context_id
            },
            path[n - 1].context_id,
        )
    }
}

/// What a path costs from the start of a text to its end, whose context
/// is 0 too.
pub open spec fn path_cost(matrix: &CostMatrix, path: Seq<Node>) -> int {
    sequence_cost(matrix, path, path.len() as int) + matrix.cost(
        if path.len() == 0 {
            0
        } else {
            path[path.len() - 1].context_id
        },
        0,
    )
}

/// Whether tokens cover an input of `len` bytes without gap or overlap.
pub open spec fn covers_input(len: int, tokens: Seq<MorphemeView>) -> bool {
    tokens.len() > 0 ==> {
        &&& tokens[0].start == 0
        &&& tokens[tokens.len() - 1].end == len
        &&& forall|i: int, j: int|
            0 <= i && j == i + 1 && j < tokens.len() ==> (#[trigger] tokens[i]).end == (
            #[trigger] tokens[j]).start
    }
}

proof fn lemma_known_covered(
    terms: Seq<Term>,
    found: Seq<(usize, TermId)>,
    n: int,
    matrix: &CostMatrix,
    j: int,
)
    requires
        terms_covered(terms, matrix),
        0 <= n <= found.len(),
        0 <= j < known_among(terms, found, n).len(),
    ensures
        matrix.covers(
            known_among(terms, found, n)[j].value.context_id,
            known_among(terms, found, n)[j].value.context_id,
        ),
    decreases n,
{
    if n > 0 {
        let before = known_among(terms, found, n - 1);
        if j < before.len() {
            lemma_known_covered(terms, found, n - 1, matrix, j);
        } else {
            let (length, id) = found[n - 1];
            assert(known_among(terms, found, n)[j].value == terms[id as int]);
        }
    }
}

proof fn lemma_last_named_in_range(
    entries: Seq<(Seq<char>, Seq<(TermId, Term)>)>,
    key: Seq<char>,
    n: int,
)
    requires
        0 <= n <= entries.len(),
    ensures
        crate::unk::last_named(entries, key, n) matches Some(i) ==> 0 <= i < n,
    decreases n,
{
    if n > 0 && entries[n - 1].0 != key {
        lemma_last_named_in_range(entries, key, n - 1);
    }
}

proof fn lemma_unknown_covered(
    table: &CharTable,
    unk_dict: &UnknownDictionary,
    text: Seq<char>,
    found: bool,
    c: int,
    matrix: &CostMatrix,
    j: int,
)
    requires
        buckets_covered(unk_dict.entries(), matrix),
        0 <= c,
        0 <= j < unknown_upto(table, unk_dict, text, found, c).len(),
    ensures
        matrix.covers(
            unknown_upto(table, unk_dict, text, found, c)[j].value.context_id,
            unknown_upto(table, unk_dict, text, found, c)[j].value.context_id,
        ),
    decreases c,
{
    if c > 0 {
        let before = unknown_upto(table, unk_dict, text, found, c - 1);
        if j < before.len() {
            lemma_unknown_covered(table, unk_dict, text, found, c - 1, matrix, j);
        } else {
            let category = table.categories(text[0])[c - 1];
            let entries = unk_dict.entries();
            lemma_last_named_in_range(entries, category.name, entries.len() as int);
            let i = crate::unk::last_named(entries, category.name, entries.len() as int)->0;
            let k = j - before.len();
            assert(unknown_upto(table, unk_dict, text, found, c)[j].value == entries[i].1[k].1);
        }
    }
}

impl Tokenizer {
    /// Whether a node is one of the candidates at its start, between two
    /// character boundaries of the input.
    pub open spec fn offers(&self, bytes: Seq<u8>, node: Node) -> bool {
        &&& node.start < node.end <= bytes.len()
        &&& is_char_boundary(bytes, node.start as int)
        &&& is_char_boundary(bytes, node.end as int)
        &&& self.candidates(tail_at(bytes, node.start as int)).contains(candidate_of(node))
    }

    /// The morpheme that a node of the path gives.
    pub open spec fn morpheme_of(&self, bytes: Seq<u8>, node: Node) -> MorphemeView {
        MorphemeView::of(
            decode_utf8(bytes.subrange(node.start as int, node.end as int)),
            node.start,
            node.end,
            self.feature_of(node.term_id, node.unknown),
        )
    }

    /// Whether a token spans a candidate of the dictionaries: it lies
    /// between two character boundaries, reads as the input does there,
    /// and has the features of a candidate of its length at its start.
    pub open spec fn token_fits(&self, bytes: Seq<u8>, token: MorphemeView) -> bool {
        &&& token.start < token.end <= bytes.len()
        &&& is_char_boundary(bytes, token.start as int)
        &&& is_char_boundary(bytes, token.end as int)
        &&& encode_utf8(token.text) == bytes.subrange(token.start as int, token.end as int)
        &&& exists|node: Node| #[trigger]
            self.offers(bytes, node) && token == self.morpheme_of(bytes, node)
    }

    /// Whether `tokens` is an analysis of `text`: the tokens cover the
    /// text from its first byte to its last, each beginning where the one
    /// before it ends, and each fits.
    pub open spec fn tokenizes(&self, text: Seq<char>, tokens: Seq<MorphemeView>) -> bool {
        let bytes = encode_utf8(text);
        &&& covers_input(bytes.len() as int, tokens)
        &&& forall|k: int| 0 <= k < tokens.len() ==> self.token_fits(bytes, #[trigger] tokens[k])
    }

    /// Whether nodes lie one after the other from the first byte of an
    /// input of `len` bytes to its last.
    pub open spec fn path_covers(len: int, path: Seq<Node>) -> bool {
        path.len() > 0 ==> {
            &&& path[0].start == 0
            &&& path[path.len() - 1].end == len
            &&& forall|i: int, j: int|
                0 <= i && j == i + 1 && j < path.len() ==> (#[trigger] path[i]).end == (
                #[trigger] path[j]).start
        }
    }

    /// Adds to the lattice the candidates that begin at `index`: those
    /// that span at least one byte and end at a character boundary of the
    /// input.
    fn add_candidates(
        &self,
        input: &str,
        index: usize,
        extracted: &Vec<ExtractedTerm>,
        Ghost(known_count): Ghost<int>,
        lattice: &mut Lattice,
    )
        requires
            index < input.spec_bytes().len(),
            is_char_boundary(input.spec_bytes(), index as int),
            extracted@ == self.candidates(tail_at(input.spec_bytes(), index as int)),
            known_count == self.known_terms(tail_at(input.spec_bytes(), index as int)).len(),
            old(lattice).wf(),
            old(lattice).len() == input.spec_bytes().len(),
            old(lattice).reaches(index as int),
            old(lattice).covered_by(&self.matrix),
            forall|p: int| old(lattice).reaches(p) ==> is_char_boundary(input.spec_bytes(), p),
            forall|id: int|
                2 <= id < old(lattice).nodes().len() ==> self.offers(
                    input.spec_bytes(),
                    #[trigger] old(lattice).nodes()[id],
                ),
        ensures
            final(lattice).wf(),
            final(lattice).len() == old(lattice).len(),
            final(lattice).covered_by(&self.matrix),
            forall|p: int| final(lattice).reaches(p) ==> is_char_boundary(input.spec_bytes(), p),
            forall|id: int|
                2 <= id < final(lattice).nodes().len() ==> self.offers(
                    input.spec_bytes(),
                    #[trigger] final(lattice).nodes()[id],
                ),
            final(lattice).nodes() == old(lattice).nodes() + admitted_upto(
                input.spec_bytes(),
                index,
                extracted@,
                extracted@.len() as int,
            ),
            forall|p: int| old(lattice).reaches(p) ==> final(lattice).reaches(p),
            forall|p: int| final(lattice).reaches(p) && p <= index ==> old(lattice).reaches(p),
            forall|node: Node| #[trigger]
                holds_candidate(old(lattice).nodes(), node) ==> holds_candidate(
                    final(lattice).nodes(),
                    node,
                ),
            forall|node: Node| #[trigger]
                self.offers(input.spec_bytes(), node) && node.start == index ==> holds_candidate(
                    final(lattice).nodes(),
                    node,
                ),
    {
        proof {
            use_type_invariant(self);
        }
        let ghost bytes = input.spec_bytes();
        let text_len: usize = input.as_bytes().len();
        let ghost offered = extracted@;
        let ghost given = *lattice;
        proof {
            lemma_nodes_in_range(&given);
            assert(given.nodes() + admitted_upto(bytes, index, offered, 0) =~= given.nodes());
        }
        let mut k: usize = 0;
        while k < extracted.len()
            invariant
                k <= extracted.len(),
                index < text_len,
                bytes == input.spec_bytes(),
                text_len == bytes.len(),
                extracted@ == offered,
                offered == self.candidates(tail_at(bytes, index as int)),
                known_count == self.known_terms(tail_at(bytes, index as int)).len(),
                is_char_boundary(bytes, index as int),
                lattice.wf(),
                lattice.len() == text_len,
                lattice.reaches(index as int),
                lattice.covered_by(&self.matrix),
                terms_covered(self.dict.terms(), &self.matrix),
                buckets_covered(self.unk_dict.entries(), &self.matrix),
                forall|p: int| lattice.reaches(p) ==> is_char_boundary(bytes, p),
                forall|id: int|
                    2 <= id < lattice.nodes().len() ==> self.offers(
                        bytes,
                        #[trigger] lattice.nodes()[id],
                    ),
                forall|p: int| given.reaches(p) ==> lattice.reaches(p),
                forall|p: int| lattice.reaches(p) && p <= index ==> given.reaches(p),
                2 <= given.nodes().len() <= lattice.nodes().len(),
                forall|id: int|
                    0 <= id < given.nodes().len() ==> #[trigger] lattice.nodes()[id]
                        == given.nodes()[id],
                forall|j: int|
                    0 <= j < k && fits_input(bytes, index, #[trigger] offered[j])
                        ==> holds_candidate(lattice.nodes(), node_at(index, offered[j])),
                lattice.nodes() == given.nodes() + admitted_upto(bytes, index, offered, k as int),
            decreases extracted.len() - k,
        {
            let term = extracted[k];
            if term.length > 0 && term.length <= text_len - index && input.is_char_boundary(
                index + term.length,
            ) {
                let node = Node::new(
                    term.id,
                    term.unknown,
                    index,
                    index + term.length,
                    term.value.context_id,
                    term.value.cost,
                );
                let ghost before = lattice.nodes();
                proof {
                    assert(candidate_of(node) == term);
                    assert(offered[k as int] == term);
                    assert(self.offers(bytes, node));
                    self.lemma_candidate_covered(tail_at(bytes, index as int), k as int);
                }
                lattice.add_node(node);
                proof {
                    assert(lattice.nodes() == before.push(node));
                    assert(node == node_at(index, term));
                    assert(before.push(node) =~= given.nodes() + admitted_upto(
                        bytes,
                        index,
                        offered,
                        k + 1,
                    ));
                    assert(holds_candidate(lattice.nodes(), node_at(index, offered[k as int]))) by {
                        reveal(holds_candidate);
                        assert(lattice.nodes()[before.len() as int].same_candidate(node));
                    }
                    assert forall|j: int|
                        0 <= j < k && fits_input(
                            bytes,
                            index,
                            #[trigger] offered[j],
                        ) implies holds_candidate(lattice.nodes(), node_at(index, offered[j])) by {
                        reveal(holds_candidate);
                        let id = choose|id: int|
                            2 <= id < before.len() && (#[trigger] before[id]).same_candidate(
                                node_at(index, offered[j]),
                            );
                        assert(lattice.nodes()[id] == before[id]);
                    }
                    assert forall|id: int| 2 <= id < lattice.nodes().len() implies self.offers(
                        bytes,
                        #[trigger] lattice.nodes()[id],
                    ) by {
                        if id < before.len() {
                            assert(lattice.nodes()[id] == before[id]);
                        }
                    }
                    assert forall|id: int|
                        0 <= id < lattice.nodes().len() implies self.matrix.covers(
                        (#[trigger] lattice.nodes()[id]).context_id,
                        lattice.nodes()[id].context_id,
                    ) by {
                        if id < before.len() {
                            assert(lattice.nodes()[id] == before[id]);
                        }
                    }
                }
            }
            k += 1;
        }
        proof {
            assert forall|node: Node| #[trigger]
                holds_candidate(given.nodes(), node) implies holds_candidate(
                lattice.nodes(),
                node,
            ) by {
                reveal(holds_candidate);
                let id = choose|id: int|
                    2 <= id < given.nodes().len() && (#[trigger] given.nodes()[id]).same_candidate(
                        node,
                    );
                assert(lattice.nodes()[id] == given.nodes()[id]);
            }
            assert forall|node: Node| #[trigger]
                self.offers(bytes, node) && node.start == index implies holds_candidate(
                lattice.nodes(),
                node,
            ) by {
                reveal(holds_candidate);
                let wanted = candidate_of(node);
                let j = choose|j: int| 0 <= j < offered.len() && offered[j] == wanted;
                assert(fits_input(bytes, index, offered[j]));
                let id = choose|id: int|
                    2 <= id < lattice.nodes().len() && (
                    #[trigger] lattice.nodes()[id]).same_candidate(node_at(index, offered[j]));
                assert(lattice.nodes()[id].same_candidate(node));
            }
        }
    }

    /// The matrix has a cell for the context of every candidate.
    proof fn lemma_candidate_covered(&self, text: Seq<char>, k: int)
        requires
            terms_covered(self.dict.terms(), &self.matrix),
            buckets_covered(self.unk_dict.entries(), &self.matrix),
            0 <= k < self.candidates(text).len(),
        ensures
            self.matrix.covers(
                self.candidates(text)[k].value.context_id,
                self.candidates(text)[k].value.context_id,
            ),
    {
        reveal(Tokenizer::candidates);
        let known = self.known_terms(text);
        if k < known.len() {
            let found_all = matches_upto(
                self.fst.image(),
                encode_utf8(text),
                encode_utf8(text).len() as int,
            );
            lemma_known_covered(
                self.dict.terms(),
                found_all,
                found_all.len() as int,
                &self.matrix,
                k,
            );
        } else {
            lemma_unknown_covered(
                &self.char_table,
                &self.unk_dict,
                text,
                known.len() > 0,
                self.char_table.categories(text[0]).len() as int,
                &self.matrix,
                k - known.len(),
            );
        }
    }

    /// The lattice of all candidates of `input` that can be reached from
    /// its first byte.
    fn build_lattice(&self, input: &str) -> (lattice: Lattice)
        requires
            input.spec_bytes().len() < usize::MAX,
        ensures
            lattice.wf(),
            lattice.len() == input.spec_bytes().len(),
            lattice.covered_by(&self.matrix),
            forall|id: int|
                2 <= id < lattice.nodes().len() ==> self.offers(
                    input.spec_bytes(),
                    #[trigger] lattice.nodes()[id],
                ),
            forall|node: Node| #[trigger]
                self.offers(input.spec_bytes(), node) && lattice.reaches(node.start as int)
                    ==> holds_candidate(lattice.nodes(), node),
            lattice.nodes() == self.lattice_nodes(
                input.spec_bytes(),
                input.spec_bytes().len() as int,
            ),
    {
        proof {
            use_type_invariant(self);
        }
        let ghost bytes = input.spec_bytes();
        let text_len: usize = input.as_bytes().len();
        let mut lattice = Lattice::new(text_len);
        proof {
            vstd::utf8::encode_utf8_valid_utf8(input@);
            vstd::utf8::is_char_boundary_start_end_of_seq(bytes);
            lemma_nodes_in_range(&lattice);
        }
        let mut index: usize = 0;
        while index < text_len
            invariant
                index <= text_len,
                bytes == input.spec_bytes(),
                text_len == bytes.len(),
                lattice.wf(),
                lattice.len() == text_len,
                lattice.covered_by(&self.matrix),
                forall|p: int| lattice.reaches(p) ==> is_char_boundary(bytes, p),
                forall|id: int|
                    2 <= id < lattice.nodes().len() ==> self.offers(
                        bytes,
                        #[trigger] lattice.nodes()[id],
                    ),
                forall|node: Node| #[trigger]
                    self.offers(bytes, node) && node.start < index && lattice.reaches(
                        node.start as int,
                    ) ==> holds_candidate(lattice.nodes(), node),
                lattice.nodes() == self.lattice_nodes(bytes, index as int),
            decreases text_len - index,
        {
            proof {
                lemma_reaches(&lattice, index as int);
            }
            if lattice.has_node_ending_at(index) {
                let substr = input.split_at(index).1;
                proof {
                    assert(substr.spec_bytes() == bytes.subrange(index as int, text_len as int));
                    vstd::utf8::encode_utf8_decode_utf8(substr@);
                    assert(substr@ == tail_at(bytes, index as int));
                    assert(substr@.len() > 0) by {
                        if substr@.len() == 0 {
                            assert(encode_utf8(substr@).len() == 0);
                        }
                    }
                }
                let mut extracted = self.get_terms_from_str(substr);
                let found = extracted.len() > 0;
                let mut unknown = self.get_unkown_terms_from_str(substr, found);
                let ghost known_count = extracted@.len() as int;
                extracted.append(&mut unknown);
                proof {
                    reveal(Tokenizer::candidates);
                }
                self.add_candidates(input, index, &extracted, Ghost(known_count), &mut lattice);
            }
            index += 1;
        }
        lattice
    }

    /// The morphemes that the nodes of a path give.
    fn materialize(&self, input: &str, nodes: &Vec<Node>) -> (tokens: Vec<Morpheme>)
        requires
            forall|i: int|
                0 <= i < nodes@.len() ==> self.offers(input.spec_bytes(), #[trigger] nodes@[i]),
        ensures
            tokens@.len() == nodes@.len(),
            forall|i: int|
                0 <= i < nodes@.len() ==> (#[trigger] tokens@[i])@ == self.morpheme_of(
                    input.spec_bytes(),
                    nodes@[i],
                ),
            forall|i: int|
                0 <= i < nodes@.len() ==> encode_utf8((#[trigger] tokens@[i])@.text)
                    == input.spec_bytes().subrange(nodes@[i].start as int, nodes@[i].end as int),
    {
        let ghost bytes = input.spec_bytes();
        let text_len: usize = input.as_bytes().len();
        proof {
            vstd::utf8::encode_utf8_valid_utf8(input@);
        }
        let mut tokens: Vec<Morpheme> = Vec::new();
        let mut j: usize = 0;
        while j < nodes.len()
            invariant
                j <= nodes.len(),
                bytes == input.spec_bytes(),
                text_len == bytes.len(),
                valid_utf8(bytes),
                tokens.len() == j,
                forall|i: int| 0 <= i < nodes@.len() ==> self.offers(bytes, #[trigger] nodes@[i]),
                forall|i: int|
                    0 <= i < j ==> (#[trigger] tokens@[i])@ == self.morpheme_of(bytes, nodes@[i]),
                forall|i: int|
                    0 <= i < j ==> encode_utf8((#[trigger] tokens@[i])@.text) == bytes.subrange(
                        nodes@[i].start as int,
                        nodes@[i].end as int,
                    ),
            decreases nodes.len() - j,
        {
            let node = nodes[j];
            assert(self.offers(bytes, nodes@[j as int]));
            let end: usize = if node.end > text_len {
                text_len
            } else {
                node.end
            };
            proof {
                lemma_boundary_in_prefix(bytes, node.start as int, end as int);
            }
            let piece = input.split_at(end).0.split_at(node.start).1;
            proof {
                assert(piece.spec_bytes() =~= bytes.subrange(node.start as int, end as int));
                vstd::utf8::encode_utf8_decode_utf8(piece@);
            }
            let text = piece.to_owned();
            let found = if node.unknown {
                self.unk_dict.get_feat(node.term_id)
            } else {
                self.dict.get_feature(node.term_id)
            };
            let feature = match found {
                Some(feature) => feature.clone(),
                None => Feature::default(),
            };
            tokens.push(Morpheme::new(text, node.start, end, feature));
            j += 1;
        }
        tokens
    }

    /// The nodes of the lattice of a text when the offsets before `index`
    /// have been dealt with: the start node, the end node, and for every
    /// offset at which a node ends, in rising order, the candidates there
    /// that fit the input, in their order.
    pub open spec fn lattice_nodes(&self, bytes: Seq<u8>, index: int) -> Seq<Node>
        decreases index,
    {
        if index <= 0 {
            seq![start_node(), end_node(bytes.len() as usize)]
        } else {
            let before = self.lattice_nodes(bytes, index - 1);
            if some_ends_at(before, index - 1) {
                let offered = self.candidates(tail_at(bytes, index - 1));
                before + admitted_upto(bytes, (index - 1) as usize, offered, offered.len() as int)
            } else {
                before
            }
        }
    }

    /// Whether `lattice` is the lattice of a text after the search.
    pub open spec fn is_search_of(&self, bytes: Seq<u8>, lattice: Lattice) -> bool {
        &&& lattice.wf()
        &&& lattice.len() == bytes.len()
        &&& same_candidates(self.lattice_nodes(bytes, bytes.len() as int), lattice.nodes())
        &&& lattice.is_searched(&self.matrix())
    }

    /// Whether `tokens` are the morphemes of the path that the search
    /// finds in the lattice of the text.
    pub open spec fn searches(&self, text: Seq<char>, tokens: Seq<MorphemeView>) -> bool {
        let bytes = encode_utf8(text);
        exists|lattice: Lattice| #[trigger]
            self.is_search_of(bytes, lattice) && tokens == self.renders(
                bytes,
                lattice.found_path(),
            )
    }

    /// Whether a path is an analysis of a text: nodes that lie one after
    /// the other from its first byte to its last, each a candidate of the
    /// dictionaries where it begins. An empty text has the empty analysis.
    pub open spec fn is_analysis(&self, bytes: Seq<u8>, path: Seq<Node>) -> bool {
        &&& path.len() == 0 <==> bytes.len() == 0
        &&& Self::path_covers(bytes.len() as int, path)
        &&& forall|k: int| 0 <= k < path.len() ==> self.offers(bytes, #[trigger] path[k])
    }

    /// The morphemes that the nodes of a path give.
    pub open spec fn renders(&self, bytes: Seq<u8>, path: Seq<Node>) -> Seq<MorphemeView> {
        path.map_values(|node: Node| self.morpheme_of(bytes, node))
    }

    /// Whether no analysis of the text costs less than `path`.
    pub open spec fn is_cheapest(&self, bytes: Seq<u8>, path: Seq<Node>) -> bool {
        forall|other: Seq<Node>| #[trigger]
            self.is_analysis(bytes, other) ==> path_cost(&self.matrix(), path) <= path_cost(
                &self.matrix(),
                other,
            )
    }

    /// Whether the cost of every walk through the lattice of a text lies
    /// in the range of the total costs, so that the search cuts nothing
    /// off a sum.
    pub open spec fn costs_fit(&self, bytes: Seq<u8>) -> bool {
        sums_fit(self.lattice_nodes(bytes, bytes.len() as int), &self.matrix())
    }

    /// Whether `tokens` are the morphemes of an analysis of the text, or
    /// there are none because the text has no analysis. The analysis is a
    /// cheapest one where the costs fit, and in every text of at most
    /// `MAX_LATTICE_LEN` bytes.
    pub open spec fn analyses(&self, text: Seq<char>, tokens: Seq<MorphemeView>) -> bool {
        let bytes = encode_utf8(text);
        exists|path: Seq<Node>|
            (#[trigger] self.renders(bytes, path)) == tokens && if self.is_analysis(bytes, path) {
                (self.costs_fit(bytes) || bytes.len() <= MAX_LATTICE_LEN) ==> self.is_cheapest(
                    bytes,
                    path,
                )
            } else {
                path.len() == 0 && forall|other: Seq<Node>| !#[trigger] self.is_analysis(
                    bytes,
                    other,
                )
            }
    }

    /// Analyses `input` into morphemes: the path that the search finds
    /// through the candidates that the dictionaries give at every offset
    /// that can be reached. It is a cheapest one where the costs fit, as
    /// they do in every text of at most `MAX_LATTICE_LEN` bytes. Where no
    /// path leads to the end of the input, there are no morphemes. The
    /// input is shorter than `usize::MAX` bytes, as every text in memory is.
    pub fn tokenize(&self, input: &str) -> (tokens: Vec<Morpheme>)
        requires
            input.spec_bytes().len() < usize::MAX,
        ensures
            self.tokenizes(input@, morpheme_views(tokens@)),
            self.analyses(input@, morpheme_views(tokens@)),
            self.searches(input@, morpheme_views(tokens@)),
            input@.len() == 0 ==> tokens@.len() == 0,
    {
        let ghost bytes = input.spec_bytes();
        let mut lattice = self.build_lattice(input);
        let ghost filled = lattice;
        let nodes = lattice.find_path(&self.matrix);
        proof {
            let offered = self.lattice_nodes(bytes, bytes.len() as int);
            assert(self.is_search_of(bytes, lattice));
            lemma_sums_fit_frame(offered, lattice.nodes(), &self.matrix);
            lemma_sums_fit_frame(filled.nodes(), lattice.nodes(), &self.matrix);
            if bytes.len() <= MAX_LATTICE_LEN {
                lemma_short_sums_fit(&lattice, &self.matrix);
            }
            self.lemma_path_offered(bytes, filled, lattice, nodes@);
            self.lemma_path_cheapest(bytes, filled, lattice, nodes@);
        }
        let tokens = self.materialize(input, &nodes);
        proof {
            self.lemma_rendered(bytes, nodes@, tokens@);
            assert(self.analyses(input@, morpheme_views(tokens@))) by {
                assert(self.renders(bytes, nodes@) == morpheme_views(tokens@));
            }
            assert(self.searches(input@, morpheme_views(tokens@))) by {
                assert(nodes@ == lattice.found_path());
            }
        }
        tokens
    }

    /// Analyses `input` into words: its morphemes, grouped.
    pub fn tokenize_word(&self, input: &str) -> (words: Vec<Word>)
        requires
            input.spec_bytes().len() < usize::MAX,
        ensures
            exists|tokens: Seq<MorphemeView>| #[trigger]
                self.tokenizes(input@, tokens) && self.analyses(input@, tokens) && self.searches(
                    input@,
                    tokens,
                ) && word_views(words@) == words_from(tokens, 0),
            input@.len() == 0 ==> words@.len() == 0,
    {
        let morphemes = self.tokenize(input);
        let words = group_words(&morphemes);
        proof {
            assert(self.tokenizes(input@, morpheme_views(morphemes@)));
            if input@.len() == 0 {
                assert(words_from(morpheme_views(morphemes@), 0) =~= Seq::<crate::word::WordView>::empty());
                assert(word_views(words@).len() == words@.len());
            }
        }
        words
    }

    /// Every analysis is a walk through a lattice that holds all
    /// candidates which can be reached, and costs what the walk costs.
    proof fn lemma_analysis_walk(
        &self,
        bytes: Seq<u8>,
        lattice: Lattice,
        path: Seq<Node>,
        m: int,
    ) -> (walk: Seq<NodeId>)
        requires
            lattice.wf(),
            lattice.len() == bytes.len(),
            forall|node: Node| #[trigger]
                self.offers(bytes, node) && lattice.reaches(node.start as int) ==> holds_candidate(
                    lattice.nodes(),
                    node,
                ),
            Self::path_covers(bytes.len() as int, path),
            forall|k: int| 0 <= k < path.len() ==> self.offers(bytes, #[trigger] path[k]),
            0 <= m <= path.len(),
        ensures
            is_walk(lattice.nodes(), walk),
            walk.len() == m + 1,
            m > 0 ==> 2 <= walk[m] < lattice.nodes().len() && lattice.nodes()[walk[m] as int].same_candidate(
                path[m - 1],
            ),
            walk_cost(lattice.nodes(), &self.matrix, walk) == sequence_cost(&self.matrix, path, m),
        decreases m,
    {
        let nodes = lattice.nodes();
        if m == 0 {
            let walk = seq![0usize];
            lemma_nodes_in_range(&lattice);
            assert(is_walk(nodes, walk));
            walk
        } else {
            let before = self.lemma_analysis_walk(bytes, lattice, path, m - 1);
            let node = path[m - 1];
            let last = before[m - 1] as int;
            assert(self.offers(bytes, node));
            lemma_nodes_in_range(&lattice);
            if m >= 2 {
                assert(path[m - 2].end == path[m - 1].start);
                assert(self.offers(bytes, path[m - 2]));
            }
            assert(nodes[last].end == node.start);
            assert(last != 1);
            lemma_reaches(&lattice, node.start as int);
            assert(lattice.reaches(node.start as int));
            assert(holds_candidate(nodes, node));
            reveal(holds_candidate);
            let id = choose|id: int| 2 <= id < nodes.len() && (#[trigger] nodes[id]).same_candidate(node);
            let walk = before.push(id as usize);
            assert(walk.drop_last() =~= before);
            assert(is_step(nodes, last as usize, id as usize));
            assert forall|j: int, k: int| 0 <= j && k == j + 1 && k < walk.len() implies is_step(
                nodes,
                #[trigger] walk[j],
                #[trigger] walk[k],
            ) by {
                if j < before.len() - 1 {
                    assert(is_step(nodes, before[j], before[j + 1]));
                }
            }
            assert(step_cost(nodes, &self.matrix, last as usize, id as usize) == node.cost
                + self.matrix.cost(
                if m == 1 {
                    0
                } else {
                    path[m - 2].context_id
                },
                node.context_id,
            ));
            walk
        }
    }

    /// A route costs what the nodes between its ends cost as a path.
    proof fn lemma_route_cost(&self, lattice: Lattice, route: Seq<NodeId>, m: int)
        requires
            lattice.wf(),
            is_route(lattice.nodes(), route),
            0 <= m <= route.len() - 2,
        ensures
            sequence_cost(&self.matrix, inner_nodes(lattice.nodes(), route), m) == walk_cost(
                lattice.nodes(),
                &self.matrix,
                route.take(m + 1),
            ),
        decreases m,
    {
        let nodes = lattice.nodes();
        if m == 0 {
            assert(route.take(1).len() == 1);
        } else {
            self.lemma_route_cost(lattice, route, m - 1);
            let shorter = route.take(m + 1);
            assert(shorter.drop_last() =~= route.take(m));
            lemma_nodes_in_range(&lattice);
            assert(route[0] == 0);
        }
    }

    /// Every analysis is a route through a lattice that holds all
    /// candidates which can be reached, and costs what the route costs.
    proof fn lemma_analysis_route(&self, bytes: Seq<u8>, lattice: Lattice, path: Seq<Node>) -> (route:
        Seq<NodeId>)
        requires
            lattice.wf(),
            lattice.len() == bytes.len(),
            forall|node: Node| #[trigger]
                self.offers(bytes, node) && lattice.reaches(node.start as int) ==> holds_candidate(
                    lattice.nodes(),
                    node,
                ),
            self.is_analysis(bytes, path),
        ensures
            is_route(lattice.nodes(), route),
            walk_cost(lattice.nodes(), &self.matrix, route) == path_cost(&self.matrix, path),
    {
        let nodes = lattice.nodes();
        let len = bytes.len() as int;
        let walk = self.lemma_analysis_walk(bytes, lattice, path, path.len() as int);
        let last = walk[path.len() as int] as int;
        lemma_nodes_in_range(&lattice);
        if path.len() > 0 {
            assert(self.offers(bytes, path[path.len() - 1]));
        }
        assert(nodes[last].end == len);
        let full = walk.push(1usize);
        assert(full.drop_last() =~= walk);
        assert(is_step(nodes, last as usize, 1usize));
        assert forall|j: int, k: int| 0 <= j && k == j + 1 && k < full.len() implies is_step(
            nodes,
            #[trigger] full[j],
            #[trigger] full[k],
        ) by {
            if j < walk.len() - 1 {
                assert(is_step(nodes, walk[j], walk[j + 1]));
            }
        }
        assert(step_cost(nodes, &self.matrix, last as usize, 1usize) == self.matrix.cost(
            if path.len() == 0 {
                0
            } else {
                path[path.len() - 1].context_id
            },
            0,
        ));
        full
    }

    /// The nodes between the ends of a route cost as a path what the
    /// route costs.
    proof fn lemma_inner_cost(&self, lattice: Lattice, route: Seq<NodeId>)
        requires
            lattice.wf(),
            is_route(lattice.nodes(), route),
        ensures
            path_cost(&self.matrix, inner_nodes(lattice.nodes(), route)) == walk_cost(
                lattice.nodes(),
                &self.matrix,
                route,
            ),
    {
        let nodes = lattice.nodes();
        let inner = inner_nodes(nodes, route);
        self.lemma_route_cost(lattice, route, route.len() - 2);
        lemma_nodes_in_range(&lattice);
        assert(route.drop_last() =~= route.take(route.len() - 1));
        assert(route[0] == 0);
        assert(step_cost(nodes, &self.matrix, route[route.len() - 2], route[route.len() - 1])
            == self.matrix.cost(
            if inner.len() == 0 {
                0
            } else {
                inner[inner.len() - 1].context_id
            },
            0,
        ));
    }

    /// What the search returns costs no more than any analysis, and
    /// where it returns nothing for a text that is not empty, the text
    /// has no analysis.
    proof fn lemma_path_cheapest(
        &self,
        bytes: Seq<u8>,
        filled: Lattice,
        searched: Lattice,
        path: Seq<Node>,
    )
        requires
            filled.wf(),
            searched.wf(),
            filled.len() == bytes.len(),
            searched.len() == filled.len(),
            forall|node: Node| #[trigger]
                self.offers(bytes, node) && filled.reaches(node.start as int) ==> holds_candidate(
                    filled.nodes(),
                    node,
                ),
            same_candidates(filled.nodes(), searched.nodes()),
            filled.reaches(filled.len()) ==> is_route(filled.nodes(), searched.route()) && path
                == inner_nodes(searched.nodes(), searched.route()),
            !filled.reaches(filled.len()) ==> path.len() == 0,
            forall|other: Seq<NodeId>| #[trigger]
                is_route(filled.nodes(), other) ==> filled.reaches(filled.len()),
            sums_fit(filled.nodes(), &self.matrix) ==> forall|other: Seq<NodeId>| #[trigger]
                is_route(filled.nodes(), other) ==> walk_cost(
                    filled.nodes(),
                    &self.matrix,
                    searched.route(),
                ) <= walk_cost(filled.nodes(), &self.matrix, other),
            filled.reaches(filled.len()) ==> self.is_analysis(bytes, path),
        ensures
            if self.is_analysis(bytes, path) {
                sums_fit(filled.nodes(), &self.matrix) ==> self.is_cheapest(bytes, path)
            } else {
                path.len() == 0 && forall|other: Seq<Node>| !#[trigger] self.is_analysis(
                    bytes,
                    other,
                )
            },
    {
        let route = searched.route();
        assert forall|other: Seq<Node>| #[trigger] self.is_analysis(bytes, other) implies {
            &&& filled.reaches(filled.len())
            &&& sums_fit(filled.nodes(), &self.matrix) ==> path_cost(&self.matrix, path)
                <= path_cost(&self.matrix, other)
        } by {
            let through = self.lemma_analysis_route(bytes, filled, other);
            assert(is_route(filled.nodes(), through));
            lemma_same_walks(filled.nodes(), searched.nodes(), &self.matrix, route);
            self.lemma_inner_cost(searched, route);
        }
    }

    /// The morphemes of a run of offered candidates over the whole input
    /// cover the input, and each fits.
    proof fn lemma_rendered(&self, bytes: Seq<u8>, path: Seq<Node>, tokens: Seq<Morpheme>)
        requires
            Self::path_covers(bytes.len() as int, path),
            forall|j: int| 0 <= j < path.len() ==> self.offers(bytes, #[trigger] path[j]),
            tokens.len() == path.len(),
            forall|i: int|
                0 <= i < path.len() ==> (#[trigger] tokens[i])@ == self.morpheme_of(bytes, path[i]),
            forall|i: int|
                0 <= i < path.len() ==> encode_utf8((#[trigger] tokens[i])@.text)
                    == bytes.subrange(path[i].start as int, path[i].end as int),
        ensures
            covers_input(bytes.len() as int, morpheme_views(tokens)),
            forall|k: int|
                0 <= k < tokens.len() ==> self.token_fits(
                    bytes,
                    #[trigger] morpheme_views(tokens)[k],
                ),
            self.renders(bytes, path) == morpheme_views(tokens),
            bytes.len() == 0 ==> tokens.len() == 0,
    {
        let views = morpheme_views(tokens);
        assert forall|i: int| 0 <= i < views.len() implies self.token_fits(
            bytes,
            #[trigger] views[i],
        ) by {
            assert(views[i] == tokens[i]@);
            assert(self.offers(bytes, path[i]));
        }
        if views.len() > 0 {
            assert(views[0] == tokens[0]@);
            assert(views[views.len() - 1] == tokens[views.len() - 1]@);
            assert(self.offers(bytes, path[0]));
            assert forall|i: int, j: int| 0 <= i && j == i + 1 && j < views.len() implies (
            #[trigger] views[i]).end == (#[trigger] views[j]).start by {
                assert(views[i] == tokens[i]@);
                assert(views[j] == tokens[j]@);
                assert(path[i].end == path[j].start);
            }
        }
        assert(self.renders(bytes, path) =~= views) by {
            assert forall|i: int| 0 <= i < views.len() implies self.renders(bytes, path)[i]
                == views[i] by {
                assert(views[i] == tokens[i]@);
            }
        }
    }

    /// What the search returns for a lattice of offered candidates is a
    /// run of offered candidates over the whole input.
    proof fn lemma_path_offered(
        &self,
        bytes: Seq<u8>,
        filled: Lattice,
        searched: Lattice,
        path: Seq<Node>,
    )
        requires
            filled.wf(),
            filled.len() == bytes.len(),
            forall|id: int|
                2 <= id < filled.nodes().len() ==> self.offers(bytes, #[trigger] filled.nodes()[id]),
            same_candidates(filled.nodes(), searched.nodes()),
            filled.reaches(filled.len()) ==> is_route(filled.nodes(), searched.route()) && path
                == inner_nodes(searched.nodes(), searched.route()),
            !filled.reaches(filled.len()) ==> path.len() == 0,
        ensures
            forall|j: int| 0 <= j < path.len() ==> self.offers(bytes, #[trigger] path[j]),
            Self::path_covers(bytes.len() as int, path),
            filled.reaches(filled.len()) ==> self.is_analysis(bytes, path),
    {
        let route = searched.route();
        let after = searched.nodes();
        if filled.reaches(filled.len()) {
            lemma_route_shape(&filled, route);
            lemma_nodes_in_range(&filled);
            assert forall|j: int| 0 <= j < path.len() implies self.offers(
                bytes,
                #[trigger] path[j],
            ) by {
                let id = route[j + 1] as int;
                assert(path[j] == after[id]);
                assert(filled.nodes()[id].same_candidate(after[id]));
                assert(self.offers(bytes, filled.nodes()[id]));
                assert(candidate_of(filled.nodes()[id]) == candidate_of(after[id]));
            }
            if path.len() > 0 {
                assert(filled.nodes()[route[1] as int].same_candidate(after[route[1] as int]));
                let last = route[route.len() - 2] as int;
                assert(filled.nodes()[last].same_candidate(after[last]));
                assert(path[path.len() - 1] == after[last]);
                assert forall|i: int, j: int| 0 <= i && j == i + 1 && j < path.len() implies (
                #[trigger] path[i]).end == (#[trigger] path[j]).start by {
                    let a = route[i + 1] as int;
                    let b = route[i + 2] as int;
                    assert(filled.nodes()[a].same_candidate(after[a]));
                    assert(filled.nodes()[b].same_candidate(after[b]));
                    assert(filled.nodes()[route[i + 1] as int].end == filled.nodes()[route[i + 1
                        + 1] as int].start);
                }
            }
        }
    }
}

/// The five artifacts of a dictionary as bytes: the transducer of the
/// keys, the entry dictionary, the unknown dictionary, the character
/// table and the cost matrix. The transducer is one that the builder wrote.
pub struct Artifacts {
    term_fst: Vec<u8>,
    term_dict: Vec<u8>,
    unk_dict: Vec<u8>,
    char_table: Vec<u8>,
    cost_matrix: Vec<u8>,
}

/// What is wrong with a set of artifacts.
pub enum Fault {
    /// The transducer image is not accepted.
    Transducer,
    /// The entry dictionary does not decode.
    DictBytes,
    /// The entry dictionary stores a position that stands for no tag.
    DictTags,
    /// The unknown dictionary does not decode.
    UnkBytes,
    /// The unknown dictionary stores a position that stands for no tag.
    UnkTags,
    /// The character table does not decode.
    CharBytes,
    /// The cost matrix does not decode.
    MatrixBytes,
    /// The cost matrix has not as many cells as its rows and columns ask for.
    MatrixShape,
    /// The matrix has no cell for context 0 or for the context of a term.
    Contexts,
}

/// Whether an error is the one that reports a fault.
pub open spec fn reports(e: ArtifactError, fault: Fault) -> bool {
    match fault {
        Fault::Transducer => e is FstBuilderError,
        Fault::DictBytes => e is DecodeError,
        Fault::DictTags => e is InvalidVariant,
        Fault::UnkBytes => e is DecodeError,
        Fault::UnkTags => e is InvalidVariant,
        Fault::CharBytes => e is DecodeError,
        Fault::MatrixBytes => e is DecodeError,
        Fault::MatrixShape => e is Malformed,
        Fault::Contexts => e is ContextOutOfRange,
    }
}

impl Artifacts {
    #[verifier::type_invariant]
    spec fn transducer_is_built(&self) -> bool {
        is_built_image(self.term_fst@)
    }

    pub closed spec fn term_fst(&self) -> Seq<u8> {
        self.term_fst@
    }

    pub closed spec fn term_dict(&self) -> Seq<u8> {
        self.term_dict@
    }

    pub closed spec fn unk_dict(&self) -> Seq<u8> {
        self.unk_dict@
    }

    pub closed spec fn char_table(&self) -> Seq<u8> {
        self.char_table@
    }

    pub closed spec fn cost_matrix(&self) -> Seq<u8> {
        self.cost_matrix@
    }

    /// Whether the artifacts fit each other: the stored matrix has a cell
    /// for context 0, which stands at both ends of every text, and for
    /// the context of every stored term.
    pub open spec fn fit(&self) -> bool {
        let rows = (decoded_matrix(self.cost_matrix())->0).0;
        let cols = (decoded_matrix(self.cost_matrix())->0).1;
        let terms = (decoded_dict(self.term_dict())->0).0;
        let buckets = (decoded_unk(self.unk_dict())->0).0;
        &&& 0 < rows
        &&& 0 < cols
        &&& forall|i: int|
            0 <= i < terms.len() ==> (#[trigger] terms[i]).0 < rows && terms[i].0 < cols
        &&& forall|e: int, k: int|
            0 <= e < buckets.len() && 0 <= k < buckets[e].1.len() ==> ((
            #[trigger] buckets[e].1[k]).1).0 < rows && (buckets[e].1[k].1).0 < cols
    }

    /// The first thing that is wrong with the artifacts, taken in the
    /// order transducer, entry dictionary, unknown dictionary, character
    /// table, cost matrix, and last of all whether they fit each other.
    pub open spec fn first_fault(&self) -> Option<Fault> {
        if !fst_accepts(self.term_fst()) {
            Some(Fault::Transducer)
        } else if decoded_dict(self.term_dict()) is None {
            Some(Fault::DictBytes)
        } else if features_of_codes((decoded_dict(self.term_dict())->0).1) is None {
            Some(Fault::DictTags)
        } else if decoded_unk(self.unk_dict()) is None {
            Some(Fault::UnkBytes)
        } else if features_of_codes((decoded_unk(self.unk_dict())->0).1) is None {
            Some(Fault::UnkTags)
        } else if decoded_chars(self.char_table()) is None {
            Some(Fault::CharBytes)
        } else if decoded_matrix(self.cost_matrix()) is None {
            Some(Fault::MatrixBytes)
        } else if (decoded_matrix(self.cost_matrix())->0).2.len() != (decoded_matrix(
            self.cost_matrix(),
        )->0).0 * (decoded_matrix(self.cost_matrix())->0).1 {
            Some(Fault::MatrixShape)
        } else if !self.fit() {
            Some(Fault::Contexts)
        } else {
            None
        }
    }

    /// The artifacts as they were stored. The transducer must be an image
    /// that the builder wrote: no other image can be searched.
    pub fn from_stored(
        term_fst: Vec<u8>,
        term_dict: Vec<u8>,
        unk_dict: Vec<u8>,
        char_table: Vec<u8>,
        cost_matrix: Vec<u8>,
    ) -> (artifacts: Self)
        requires
            is_built_image(term_fst@),
        ensures
            artifacts.term_fst() == term_fst@,
            artifacts.term_dict() == term_dict@,
            artifacts.unk_dict() == unk_dict@,
            artifacts.char_table() == char_table@,
            artifacts.cost_matrix() == cost_matrix@,
    {
        Self { term_fst, term_dict, unk_dict, char_table, cost_matrix }
    }

    /// Builds the artifacts of a dictionary: the transducer and the entry
    /// dictionary of the rows in the order that `order` gives, and the
    /// stored forms of the three other parts. It is refused where a key
    /// has more than 31 terms, and where a part does not encode.
    pub fn build(
        rows: &Vec<Row>,
        order: &Vec<usize>,
        unk_dict: &UnknownDictionary,
        char_table: &CharTable,
        matrix: &CostMatrix,
    ) -> (built: Result<Self, ArtifactError>)
        requires
            sorts(surface_keys(rows@), order@),
        ensures
            built is Ok <==> {
                &&& runs_fit(ordered_keys(surface_keys(rows@), order@), 0)
                &&& stored_dict(entry_terms(rows@, order@), entry_features(rows@, order@)) is Some
                &&& stored_dict_of_unknown(unk_dict) is Some
                &&& encoded_chars(codes_of_slots(char_table.slots())) is Some
                &&& stored_matrix(matrix) is Some
            },
            built matches Ok(artifacts) ==> {
                &&& artifacts.term_fst() == built_image(
                    key_values(ordered_keys(surface_keys(rows@), order@), 0),
                )
                &&& Some(artifacts.term_dict()) == stored_dict(
                    entry_terms(rows@, order@),
                    entry_features(rows@, order@),
                )
                &&& Some(artifacts.unk_dict()) == stored_dict_of_unknown(unk_dict)
                &&& Some(artifacts.char_table()) == encoded_chars(
                    codes_of_slots(char_table.slots()),
                )
                &&& Some(artifacts.cost_matrix()) == stored_matrix(matrix)
            },
            built matches Err(e) ==> (e is Malformed <==> !runs_fit(
                ordered_keys(surface_keys(rows@), order@),
                0,
            )) && (e is Malformed || e is EncodeError),
    {
        let keys = surfaces_of(rows);
        let term_fst = match build_term_fst(&keys, order) {
            Ok(image) => image,
            Err(e) => {
                return Err(e);
            },
        };
        let term_dict = match build_entry_dict(rows, order).to_bytes() {
            Ok(bytes) => bytes,
            Err(e) => {
                return Err(e);
            },
        };
        let unk_bytes = match unk_dict.to_bytes() {
            Ok(bytes) => bytes,
            Err(e) => {
                return Err(e);
            },
        };
        let char_bytes = match char_table.to_bytes() {
            Ok(bytes) => bytes,
            Err(e) => {
                return Err(e);
            },
        };
        let matrix_bytes = match matrix.to_bytes() {
            Ok(bytes) => bytes,
            Err(e) => {
                return Err(e);
            },
        };
        Ok(Self::from_stored(term_fst, term_dict, unk_bytes, char_bytes, matrix_bytes))
    }

    /// The bytes of the transducer.
    pub fn term_fst_bytes(&self) -> (bytes: &Vec<u8>)
        ensures
            bytes@ == self.term_fst(),
    {
        &self.term_fst
    }

    /// The bytes of the entry dictionary.
    pub fn term_dict_bytes(&self) -> (bytes: &Vec<u8>)
        ensures
            bytes@ == self.term_dict(),
    {
        &self.term_dict
    }

    /// The bytes of the unknown dictionary.
    pub fn unk_dict_bytes(&self) -> (bytes: &Vec<u8>)
        ensures
            bytes@ == self.unk_dict(),
    {
        &self.unk_dict
    }

    /// The bytes of the character table.
    pub fn char_table_bytes(&self) -> (bytes: &Vec<u8>)
        ensures
            bytes@ == self.char_table(),
    {
        &self.char_table
    }

    /// The bytes of the cost matrix.
    pub fn cost_matrix_bytes(&self) -> (bytes: &Vec<u8>)
        ensures
            bytes@ == self.cost_matrix(),
    {
        &self.cost_matrix
    }
}

/// The bytes that store an entry dictionary of these terms and features.
pub open spec fn stored_dict(terms: Seq<Term>, features: Seq<FeatureView>) -> Option<Seq<u8>> {
    encoded_dict((codes_of_terms(terms), codes_of_features(features)))
}

/// The bytes that store an unknown dictionary.
pub open spec fn stored_dict_of_unknown(unk_dict: &UnknownDictionary) -> Option<Seq<u8>> {
    encoded_unk((codes_of_buckets(unk_dict.entries()), codes_of_features(unk_dict.features())))
}

/// The bytes that store a cost matrix.
pub open spec fn stored_matrix(matrix: &CostMatrix) -> Option<Seq<u8>> {
    encoded_matrix(
        (matrix.grid().rows() as usize, matrix.grid().cols() as usize, matrix.grid().cells()),
    )
}

/// The artifacts fit each other exactly where the matrix that they store
/// covers the contexts of the terms that they store.
proof fn lemma_fit_is_covered(
    artifacts: &Artifacts,
    dict: EntryDictionary,
    unk_dict: UnknownDictionary,
    matrix: CostMatrix,
)
    requires
        dict.terms() == terms_of_codes((decoded_dict(artifacts.term_dict())->0).0),
        unk_dict.entries() == buckets_of_codes((decoded_unk(artifacts.unk_dict())->0).0),
        matrix.grid().rows() == (decoded_matrix(artifacts.cost_matrix())->0).0,
        matrix.grid().cols() == (decoded_matrix(artifacts.cost_matrix())->0).1,
    ensures
        artifacts.fit() <==> matrix.covers(0, 0) && terms_covered(dict.terms(), &matrix)
            && buckets_covered(unk_dict.entries(), &matrix),
{
    let rows = (decoded_matrix(artifacts.cost_matrix())->0).0;
    let cols = (decoded_matrix(artifacts.cost_matrix())->0).1;
    let terms = (decoded_dict(artifacts.term_dict())->0).0;
    let buckets = (decoded_unk(artifacts.unk_dict())->0).0;
    if artifacts.fit() {
        assert forall|i: int| 0 <= i < dict.terms().len() implies matrix.covers(
            (#[trigger] dict.terms()[i]).context_id,
            dict.terms()[i].context_id,
        ) by {
            assert(terms[i].0 < rows);
        }
        assert forall|e: int, k: int|
            0 <= e < unk_dict.entries().len() && 0 <= k < unk_dict.entries()[e].1.len() implies matrix.covers(
            (#[trigger] unk_dict.entries()[e].1[k]).1.context_id,
            unk_dict.entries()[e].1[k].1.context_id,
        ) by {
            assert((buckets[e].1[k].1).0 < rows);
        }
    }
    if matrix.covers(0, 0) && terms_covered(dict.terms(), &matrix) && buckets_covered(
        unk_dict.entries(),
        &matrix,
    ) {
        assert forall|i: int| 0 <= i < terms.len() implies (#[trigger] terms[i]).0 < rows
            && terms[i].0 < cols by {
            assert(matrix.covers(dict.terms()[i].context_id, dict.terms()[i].context_id));
        }
        assert forall|e: int, k: int|
            0 <= e < buckets.len() && 0 <= k < buckets[e].1.len() implies ((
        #[trigger] buckets[e].1[k]).1).0 < rows && (buckets[e].1[k].1).0 < cols by {
            assert(matrix.covers(
                unk_dict.entries()[e].1[k].1.context_id,
                unk_dict.entries()[e].1[k].1.context_id,
            ));
        }
    }
}

impl Tokenizer {
    /// Whether this tokenizer holds what the artifacts store.
    pub open spec fn holds(&self, artifacts: &Artifacts) -> bool {
        &&& self.searcher().image() == artifacts.term_fst()
        &&& self.dict().terms() == terms_of_codes((decoded_dict(artifacts.term_dict())->0).0)
        &&& Some(self.dict().features()) == features_of_codes(
            (decoded_dict(artifacts.term_dict())->0).1,
        )
        &&& self.unk_dict().entries() == buckets_of_codes(
            (decoded_unk(artifacts.unk_dict())->0).0,
        )
        &&& Some(self.unk_dict().features()) == features_of_codes(
            (decoded_unk(artifacts.unk_dict())->0).1,
        )
        &&& self.char_table().slots() == slots_of_codes(decoded_chars(artifacts.char_table())->0)
        &&& self.matrix().grid().rows() == (decoded_matrix(artifacts.cost_matrix())->0).0
        &&& self.matrix().grid().cols() == (decoded_matrix(artifacts.cost_matrix())->0).1
        &&& self.matrix().grid().cells() == (decoded_matrix(artifacts.cost_matrix())->0).2
    }

    /// Whether the matrix has a cell for every context that occurs.
    pub open spec fn fits(&self) -> bool {
        &&& self.matrix().covers(0, 0)
        &&& terms_covered(self.dict().terms(), &self.matrix())
        &&& buckets_covered(self.unk_dict().entries(), &self.matrix())
    }

    /// Reads a tokenizer from the five artifacts, in the order transducer,
    /// entry dictionary, unknown dictionary, character table, cost
    /// matrix. Where nothing is wrong with them, the tokenizer holds what
    /// they store; else the error reports the first fault.
    pub fn new(artifacts: &Artifacts) -> (made: Result<Self, ArtifactError>)
        ensures
            made is Ok <==> artifacts.first_fault() is None,
            made matches Ok(tokenizer) ==> tokenizer.holds(artifacts) && tokenizer.fits(),
            made matches Err(e) ==> artifacts.first_fault() matches Some(fault) && reports(
                e,
                fault,
            ),
    {
        proof {
            use_type_invariant(artifacts);
        }
        let fst = match FstSearcher::load(vstd::slice::slice_to_vec(artifacts.term_fst.as_slice())) {
            Ok(fst) => fst,
            Err(e) => {
                return Err(e);
            },
        };
        let dict = match EntryDictionary::load(artifacts.term_dict.as_slice()) {
            Ok(dict) => dict,
            Err(e) => {
                return Err(e);
            },
        };
        let unk_dict = match UnknownDictionary::load(artifacts.unk_dict.as_slice()) {
            Ok(unk_dict) => unk_dict,
            Err(e) => {
                return Err(e);
            },
        };
        let char_table = match CharTable::load(artifacts.char_table.as_slice()) {
            Ok(char_table) => char_table,
            Err(e) => {
                return Err(e);
            },
        };
        let matrix = match CostMatrix::load(artifacts.cost_matrix.as_slice()) {
            Ok(matrix) => matrix,
            Err(e) => {
                return Err(e);
            },
        };
        proof {
            lemma_fit_is_covered(artifacts, dict, unk_dict, matrix);
        }
        Self::from_parts(fst, dict, unk_dict, char_table, matrix)
    }
}

/// Reads a tokenizer from the artifacts and analyses `input` into
/// morphemes.
pub fn tokenize(artifacts: &Artifacts, input: &str) -> (analysed: Result<
    Vec<Morpheme>,
    ArtifactError,
>)
    requires
        input.spec_bytes().len() < usize::MAX,
    ensures
        analysed is Ok <==> artifacts.first_fault() is None,
        analysed matches Ok(tokens) ==> exists|tokenizer: Tokenizer| #[trigger]
            tokenizer.holds(artifacts) && tokenizer.fits() && tokenizer.tokenizes(
                input@,
                morpheme_views(tokens@),
            ) && tokenizer.analyses(input@, morpheme_views(tokens@)) && tokenizer.searches(
                input@,
                morpheme_views(tokens@),
            ),
        analysed matches Err(e) ==> artifacts.first_fault() matches Some(fault) && reports(
            e,
            fault,
        ),
{
    match Tokenizer::new(artifacts) {
        Ok(tokenizer) => {
            let tokens = tokenizer.tokenize(input);
            Ok(tokens)
        },
        Err(e) => Err(e),
    }
}

/// Reads a tokenizer from the artifacts and analyses `input` into words.
pub fn tokenize_word(artifacts: &Artifacts, input: &str) -> (analysed: Result<
    Vec<Word>,
    ArtifactError,
>)
    requires
        input.spec_bytes().len() < usize::MAX,
    ensures
        analysed is Ok <==> artifacts.first_fault() is None,
        analysed matches Ok(words) ==> exists|tokenizer: Tokenizer, tokens: Seq<MorphemeView>|
            #![trigger tokenizer.tokenizes(input@, tokens)]
            tokenizer.holds(artifacts) && tokenizer.fits() && tokenizer.tokenizes(input@, tokens)
                && tokenizer.analyses(input@, tokens) && tokenizer.searches(input@, tokens)
                && word_views(words@) == words_from(tokens, 0),
        analysed matches Err(e) ==> artifacts.first_fault() matches Some(fault) && reports(
            e,
            fault,
        ),
{
    match Tokenizer::new(artifacts) {
        Ok(tokenizer) => {
            let morphemes = tokenizer.tokenize(input);
            let words = group_words(&morphemes);
            proof {
                assert(tokenizer.tokenizes(input@, morpheme_views(morphemes@)));
            }
            Ok(words)
        },
        Err(e) => Err(e),
    }
}

/// Two texts one after the other are encoded as their encodings one
/// after the other.
pub proof fn lemma_encode_concat(a: Seq<char>, b: Seq<char>)
    ensures
        encode_utf8(a + b) == encode_utf8(a) + encode_utf8(b),
    decreases a.len(),
{
    if a.len() == 0 {
        assert(a + b =~= b);
        assert(encode_utf8(a) + encode_utf8(b) =~= encode_utf8(b));
    } else {
        lemma_encode_concat(a.drop_first(), b);
        assert((a + b).drop_first() =~= a.drop_first() + b);
        assert((a + b)[0] == a[0]);
        assert(encode_utf8(a + b) =~= encode_utf8(a) + encode_utf8(b));
    }
}

/// The texts of the tokens of an analysis, one after the other, are the
/// text that was analysed.
pub proof fn lemma_tokens_spell_text(tokenizer: &Tokenizer, text: Seq<char>, tokens: Seq<MorphemeView>)
    requires
        tokenizer.tokenizes(text, tokens),
        tokens.len() > 0,
    ensures
        joined_text(tokens, tokens.len() as int) == text,
{
    let bytes = encode_utf8(text);
    lemma_tokens_spell_prefix(tokenizer, text, tokens, tokens.len() as int);
    assert(bytes.subrange(0, bytes.len() as int) =~= bytes);
    vstd::utf8::encode_utf8_decode_utf8(joined_text(tokens, tokens.len() as int));
    vstd::utf8::encode_utf8_decode_utf8(text);
}

proof fn lemma_tokens_spell_prefix(
    tokenizer: &Tokenizer,
    text: Seq<char>,
    tokens: Seq<MorphemeView>,
    n: int,
)
    requires
        tokenizer.tokenizes(text, tokens),
        1 <= n <= tokens.len(),
    ensures
        encode_utf8(joined_text(tokens, n)) == encode_utf8(text).subrange(
            0,
            tokens[n - 1].end as int,
        ),
    decreases n,
{
    let bytes = encode_utf8(text);
    let last = tokens[n - 1];
    assert(tokenizer.token_fits(bytes, last));
    lemma_encode_concat(joined_text(tokens, n - 1), last.text);
    if n == 1 {
        assert(joined_text(tokens, 0) =~= Seq::<char>::empty());
        assert(encode_utf8(joined_text(tokens, 0)) =~= Seq::<u8>::empty());
        assert(Seq::<u8>::empty() + encode_utf8(last.text) =~= bytes.subrange(0, last.end as int));
    } else {
        lemma_tokens_spell_prefix(tokenizer, text, tokens, n - 1);
        let before = tokens[n - 2];
        assert(tokenizer.token_fits(bytes, before));
        assert(before.end == last.start);
        assert(bytes.subrange(0, before.end as int) + bytes.subrange(
            last.start as int,
            last.end as int,
        ) =~= bytes.subrange(0, last.end as int));
    }
}

} // verus!
