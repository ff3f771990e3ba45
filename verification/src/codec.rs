//! The stored form of the dictionary artifacts: each artifact as plain
//! numbers, strings and lists, and the bytes that hold them.

use crate::char_table::{category_views, slot_views, CharCategory, CharCategoryView, CharTable};
use crate::conjugation::{ConjugationForm, ConjugationType};
use crate::dict::{feature_views, EntryDictionary};
use crate::error::ArtifactError;
use crate::feature::{Feature, FeatureView};
use crate::matrix::{CostMatrix, FlatMatrix};
use crate::pos::{PartOfSpeech, SubPartOfSpeech};
use crate::term::{Term, TermId};
use crate::text::clone_opt_string;
use crate::unk::{bucket_views, Bucket, UnknownDictionary};
use vstd::prelude::*;

verus! {

/// A term as it is stored: its context and its cost.
pub type RawTerm = (u16, i16);

/// Features as they are stored: each tag by its position in the tag set.
pub type RawFeature = (u32, Vec<u32>, Option<u32>, Option<u32>, Option<String>, Option<String>);

/// The entry dictionary as it is stored.
pub type RawDict = (Vec<RawTerm>, Vec<RawFeature>);

/// The unknown dictionary as it is stored.
pub type RawUnk = (Vec<(String, Vec<(usize, RawTerm)>)>, Vec<RawFeature>);

/// A character category as it is stored.
pub type RawCategory = (String, bool, bool, usize);

/// The character table as it is stored.
pub type RawChars = Vec<Vec<RawCategory>>;

/// The cost matrix as it is stored: rows, columns and the cells row after row.
pub type RawMatrix = (usize, usize, Vec<i16>);

pub type FeatureCode = (
    u32,
    Seq<u32>,
    Option<u32>,
    Option<u32>,
    Option<Seq<char>>,
    Option<Seq<char>>,
);

pub type DictCode = (Seq<(u16, i16)>, Seq<FeatureCode>);

pub type UnkCode = (Seq<(Seq<char>, Seq<(usize, (u16, i16))>)>, Seq<FeatureCode>);

pub type CharsCode = Seq<Seq<(Seq<char>, bool, bool, usize)>>;

pub type MatrixCode = (usize, usize, Seq<i16>);

/// Most bytes that decoding one artifact may claim for what it builds.
/// An artifact that asks for more does not decode.
pub const DECODE_LIMIT: usize = 0x4000_0000;

/// What `bincode` decodes from the front of `bytes` as an entry
/// dictionary in its standard configuration, within `DECODE_LIMIT`, if
/// it decodes one.
pub uninterp spec fn decoded_dict(bytes: Seq<u8>) -> Option<DictCode>;

/// What `bincode` decodes from the front of `bytes` as an unknown dictionary.
pub uninterp spec fn decoded_unk(bytes: Seq<u8>) -> Option<UnkCode>;

/// What `bincode` decodes from the front of `bytes` as a character table.
pub uninterp spec fn decoded_chars(bytes: Seq<u8>) -> Option<CharsCode>;

/// What `bincode` decodes from the front of `bytes` as a cost matrix.
pub uninterp spec fn decoded_matrix(bytes: Seq<u8>) -> Option<MatrixCode>;

/// The bytes that `bincode` encodes an entry dictionary to, if it does.
pub uninterp spec fn encoded_dict(code: DictCode) -> Option<Seq<u8>>;

/// The bytes that `bincode` encodes an unknown dictionary to.
pub uninterp spec fn encoded_unk(code: UnkCode) -> Option<Seq<u8>>;

/// The bytes that `bincode` encodes a character table to.
pub uninterp spec fn encoded_chars(code: CharsCode) -> Option<Seq<u8>>;

/// The bytes that `bincode` encodes a cost matrix to.
pub uninterp spec fn encoded_matrix(code: MatrixCode) -> Option<Seq<u8>>;

/// `bincode::decode_from_slice` with `bincode::config::standard` and a
/// limit of `DECODE_LIMIT` bytes, for an entry dictionary: the value at
/// the front of the bytes, or the error. The limit keeps a length that
/// the bytes claim from being reserved unchecked.
#[verifier::external_body]
fn decode_dict(bytes: &[u8]) -> (decoded: Result<RawDict, bincode::error::DecodeError>)
    ensures
        match decoded {
            Ok(raw) => decoded_dict(bytes@) == Some(raw.deep_view()),
            Err(_) => decoded_dict(bytes@) is None,
        },
{
    bincode::decode_from_slice(bytes, bincode::config::standard().with_limit::<DECODE_LIMIT>())
        .map(|(value, _)| value)
}

/// `bincode::decode_from_slice` with `bincode::config::standard` and a
/// limit of `DECODE_LIMIT` bytes, for an unknown dictionary.
#[verifier::external_body]
fn decode_unk(bytes: &[u8]) -> (decoded: Result<RawUnk, bincode::error::DecodeError>)
    ensures
        match decoded {
            Ok(raw) => decoded_unk(bytes@) == Some(raw.deep_view()),
            Err(_) => decoded_unk(bytes@) is None,
        },
{
    bincode::decode_from_slice(bytes, bincode::config::standard().with_limit::<DECODE_LIMIT>())
        .map(|(value, _)| value)
}

/// `bincode::decode_from_slice` with `bincode::config::standard` and a
/// limit of `DECODE_LIMIT` bytes, for a character table.
#[verifier::external_body]
fn decode_chars(bytes: &[u8]) -> (decoded: Result<RawChars, bincode::error::DecodeError>)
    ensures
        match decoded {
            Ok(raw) => decoded_chars(bytes@) == Some(raw.deep_view()),
            Err(_) => decoded_chars(bytes@) is None,
        },
{
    bincode::decode_from_slice(bytes, bincode::config::standard().with_limit::<DECODE_LIMIT>())
        .map(|(value, _)| value)
}

/// `bincode::decode_from_slice` with `bincode::config::standard` and a
/// limit of `DECODE_LIMIT` bytes, for a cost matrix.
#[verifier::external_body]
fn decode_matrix(bytes: &[u8]) -> (decoded: Result<RawMatrix, bincode::error::DecodeError>)
    ensures
        match decoded {
            Ok(raw) => decoded_matrix(bytes@) == Some(raw.deep_view()),
            Err(_) => decoded_matrix(bytes@) is None,
        },
{
    bincode::decode_from_slice(bytes, bincode::config::standard().with_limit::<DECODE_LIMIT>())
        .map(|(value, _)| value)
}

/// `bincode::encode_to_vec` with `bincode::config::standard`, for an
/// entry dictionary: its bytes, or the error.
#[verifier::external_body]
fn encode_dict(raw: &RawDict) -> (encoded: Result<Vec<u8>, bincode::error::EncodeError>)
    ensures
        match encoded {
            Ok(bytes) => encoded_dict(raw.deep_view()) == Some(bytes@),
            Err(_) => encoded_dict(raw.deep_view()) is None,
        },
{
    bincode::encode_to_vec(raw, bincode::config::standard())
}

/// `bincode::encode_to_vec` with `bincode::config::standard`, for an
/// unknown dictionary.
#[verifier::external_body]
fn encode_unk(raw: &RawUnk) -> (encoded: Result<Vec<u8>, bincode::error::EncodeError>)
    ensures
        match encoded {
            Ok(bytes) => encoded_unk(raw.deep_view()) == Some(bytes@),
            Err(_) => encoded_unk(raw.deep_view()) is None,
        },
{
    bincode::encode_to_vec(raw, bincode::config::standard())
}

/// `bincode::encode_to_vec` with `bincode::config::standard`, for a
/// character table.
#[verifier::external_body]
fn encode_chars(raw: &RawChars) -> (encoded: Result<Vec<u8>, bincode::error::EncodeError>)
    ensures
        match encoded {
            Ok(bytes) => encoded_chars(raw.deep_view()) == Some(bytes@),
            Err(_) => encoded_chars(raw.deep_view()) is None,
        },
{
    bincode::encode_to_vec(raw, bincode::config::standard())
}

/// `bincode::encode_to_vec` with `bincode::config::standard`, for a cost
/// matrix.
#[verifier::external_body]
fn encode_matrix(raw: &RawMatrix) -> (encoded: Result<Vec<u8>, bincode::error::EncodeError>)
    ensures
        match encoded {
            Ok(bytes) => encoded_matrix(raw.deep_view()) == Some(bytes@),
            Err(_) => encoded_matrix(raw.deep_view()) is None,
        },
{
    bincode::encode_to_vec(raw, bincode::config::standard())
}

/// The terms that stored terms stand for.
pub open spec fn terms_of_codes(codes: Seq<(u16, i16)>) -> Seq<Term> {
    Seq::new(codes.len(), |i: int| Term { context_id: codes[i].0, cost: codes[i].1 })
}

/// The sub parts of speech that stored positions stand for, if each
/// stands for one.
pub open spec fn sub_pos_of_codes(codes: Seq<u32>) -> Option<Seq<SubPartOfSpeech>> {
    if forall|i: int| 0 <= i < codes.len() ==> SubPartOfSpeech::of_index(#[trigger] codes[i]) is Some {
        Some(Seq::new(codes.len(), |i: int| SubPartOfSpeech::of_index(codes[i])->0))
    } else {
        None
    }
}

/// Whether a stored conjugation type stands for one, or for none at all.
pub open spec fn type_code_ok(code: Option<u32>) -> bool {
    code matches Some(c) ==> ConjugationType::of_index(c) is Some
}

/// Whether a stored conjugation form stands for one, or for none at all.
pub open spec fn form_code_ok(code: Option<u32>) -> bool {
    code matches Some(c) ==> ConjugationForm::of_index(c) is Some
}

/// The features that stored features stand for, if every position in
/// them stands for a tag.
pub open spec fn feature_of_code(code: FeatureCode) -> Option<FeatureView> {
    if PartOfSpeech::of_index(code.0) is Some && sub_pos_of_codes(code.1) is Some
        && type_code_ok(code.2) && form_code_ok(code.3) {
        Some(
            FeatureView {
                part_of_speech: PartOfSpeech::of_index(code.0)->0,
                sub_part_of_speech: sub_pos_of_codes(code.1)->0,
                conjugation_type: match code.2 {
                    Some(c) => ConjugationType::of_index(c),
                    None => None,
                },
                conjugation_form: match code.3 {
                    Some(c) => ConjugationForm::of_index(c),
                    None => None,
                },
                base_form: code.4,
                reading: code.5,
            },
        )
    } else {
        None
    }
}

/// The features that a list of stored features stands for, if each of
/// them stands for features.
pub open spec fn features_of_codes(codes: Seq<FeatureCode>) -> Option<Seq<FeatureView>> {
    if forall|i: int| 0 <= i < codes.len() ==> feature_of_code(#[trigger] codes[i]) is Some {
        Some(Seq::new(codes.len(), |i: int| feature_of_code(codes[i])->0))
    } else {
        None
    }
}

/// The stored form of features.
pub open spec fn code_of_feature(feature: FeatureView) -> FeatureCode {
    (
        feature.part_of_speech.index(),
        Seq::new(
            feature.sub_part_of_speech.len(),
            |i: int| feature.sub_part_of_speech[i].index(),
        ),
        match feature.conjugation_type {
            Some(t) => Some(t.index()),
            None => None,
        },
        match feature.conjugation_form {
            Some(f) => Some(f.index()),
            None => None,
        },
        feature.base_form,
        feature.reading,
    )
}

/// The stored form of a list of features.
pub open spec fn codes_of_features(features: Seq<FeatureView>) -> Seq<FeatureCode> {
    Seq::new(features.len(), |i: int| code_of_feature(features[i]))
}

/// The stored form of a list of terms.
pub open spec fn codes_of_terms(terms: Seq<Term>) -> Seq<(u16, i16)> {
    Seq::new(terms.len(), |i: int| (terms[i].context_id, terms[i].cost))
}

/// The buckets that stored buckets stand for.
pub open spec fn buckets_of_codes(codes: Seq<(Seq<char>, Seq<(usize, (u16, i16))>)>) -> Seq<
    (Seq<char>, Seq<(TermId, Term)>),
> {
    Seq::new(
        codes.len(),
        |e: int|
            (
                codes[e].0,
                Seq::new(
                    codes[e].1.len(),
                    |k: int|
                        (
                            codes[e].1[k].0,
                            Term { context_id: (codes[e].1[k].1).0, cost: (codes[e].1[k].1).1 },
                        ),
                ),
            ),
    )
}

/// The stored form of a list of buckets.
pub open spec fn codes_of_buckets(entries: Seq<(Seq<char>, Seq<(TermId, Term)>)>) -> Seq<
    (Seq<char>, Seq<(usize, (u16, i16))>),
> {
    Seq::new(
        entries.len(),
        |e: int|
            (
                entries[e].0,
                Seq::new(
                    entries[e].1.len(),
                    |k: int|
                        (entries[e].1[k].0, (entries[e].1[k].1.context_id, entries[e].1[k].1.cost)),
                ),
            ),
    )
}

/// The character table that a stored table stands for.
pub open spec fn slots_of_codes(codes: CharsCode) -> Seq<Seq<CharCategoryView>> {
    Seq::new(
        codes.len(),
        |s: int|
            Seq::new(
                codes[s].len(),
                |k: int|
                    CharCategoryView {
                        name: codes[s][k].0,
                        invoke: codes[s][k].1,
                        group: codes[s][k].2,
                        length: codes[s][k].3,
                    },
            ),
    )
}

/// The stored form of a character table.
pub open spec fn codes_of_slots(slots: Seq<Seq<CharCategoryView>>) -> CharsCode {
    Seq::new(
        slots.len(),
        |s: int|
            Seq::new(
                slots[s].len(),
                |k: int| (slots[s][k].name, slots[s][k].invoke, slots[s][k].group, slots[s][k].length),
            ),
    )
}

fn sub_pos_from_raw(codes: &Vec<u32>) -> (list: Option<Vec<SubPartOfSpeech>>)
    ensures
        match list {
            Some(l) => sub_pos_of_codes(codes@) == Some(l@),
            None => sub_pos_of_codes(codes@) is None,
        },
{
    let mut list: Vec<SubPartOfSpeech> = Vec::new();
    let mut i: usize = 0;
    while i < codes.len()
        invariant
            i <= codes.len(),
            list.len() == i,
            forall|k: int| 0 <= k < i ==> SubPartOfSpeech::of_index(#[trigger] codes@[k]) == Some(
                list@[k],
            ),
        decreases codes.len() - i,
    {
        match SubPartOfSpeech::from_index(codes[i]) {
            Some(pos) => {
                list.push(pos);
            },
            None => {
                return None;
            },
        }
        i += 1;
    }
    assert(list@ =~= sub_pos_of_codes(codes@)->0);
    Some(list)
}

/// The features that stored features stand for.
pub fn feature_from_raw(raw: &RawFeature) -> (feature: Option<Feature>)
    ensures
        match feature {
            Some(f) => feature_of_code(raw.deep_view()) == Some(f@),
            None => feature_of_code(raw.deep_view()) is None,
        },
{
    assert(raw.deep_view().1 =~= raw.1@);
    let part_of_speech = match PartOfSpeech::from_index(raw.0) {
        Some(pos) => pos,
        None => {
            return None;
        },
    };
    let sub_part_of_speech = match sub_pos_from_raw(&raw.1) {
        Some(list) => list,
        None => {
            return None;
        },
    };
    let conjugation_type = match raw.2 {
        Some(code) => match ConjugationType::from_index(code) {
            Some(t) => Some(t),
            None => {
                return None;
            },
        },
        None => None,
    };
    let conjugation_form = match raw.3 {
        Some(code) => match ConjugationForm::from_index(code) {
            Some(f) => Some(f),
            None => {
                return None;
            },
        },
        None => None,
    };
    Some(
        Feature {
            part_of_speech,
            sub_part_of_speech,
            conjugation_type,
            conjugation_form,
            base_form: clone_opt_string(&raw.4),
            reading: clone_opt_string(&raw.5),
        },
    )
}

/// The stored form of features.
pub fn feature_to_raw(feature: &Feature) -> (raw: RawFeature)
    ensures
        raw.deep_view() == code_of_feature(feature@),
        feature_of_code(raw.deep_view()) == Some(feature@),
{
    let mut codes: Vec<u32> = Vec::new();
    let mut i: usize = 0;
    while i < feature.sub_part_of_speech.len()
        invariant
            i <= feature.sub_part_of_speech.len(),
            codes.len() == i,
            forall|k: int|
                0 <= k < i ==> #[trigger] codes@[k] == feature.sub_part_of_speech@[k].index()
                    && SubPartOfSpeech::of_index(codes@[k]) == Some(feature.sub_part_of_speech@[k]),
        decreases feature.sub_part_of_speech.len() - i,
    {
        codes.push(feature.sub_part_of_speech[i].to_index());
        i += 1;
    }
    let conjugation_type = match &feature.conjugation_type {
        Some(t) => Some(t.to_index()),
        None => None,
    };
    let conjugation_form = match &feature.conjugation_form {
        Some(f) => Some(f.to_index()),
        None => None,
    };
    let raw = (
        feature.part_of_speech.to_index(),
        codes,
        conjugation_type,
        conjugation_form,
        clone_opt_string(&feature.base_form),
        clone_opt_string(&feature.reading),
    );
    proof {
        assert(raw.deep_view().1 =~= code_of_feature(feature@).1);
        assert(sub_pos_of_codes(raw.deep_view().1)->0 =~= feature@.sub_part_of_speech);
    }
    raw
}

fn features_from_raw(raws: &Vec<RawFeature>) -> (features: Option<Vec<Feature>>)
    ensures
        match features {
            Some(f) => features_of_codes(raws.deep_view()) == Some(feature_views(f@)),
            None => features_of_codes(raws.deep_view()) is None,
        },
{
    let ghost codes = raws.deep_view();
    let mut features: Vec<Feature> = Vec::new();
    let mut i: usize = 0;
    while i < raws.len()
        invariant
            i <= raws.len(),
            codes == raws.deep_view(),
            features.len() == i,
            forall|k: int| 0 <= k < i ==> feature_of_code(#[trigger] codes[k]) == Some(
                features@[k]@,
            ),
        decreases raws.len() - i,
    {
        assert(codes[i as int] == raws@[i as int].deep_view());
        match feature_from_raw(&raws[i]) {
            Some(feature) => {
                features.push(feature);
            },
            None => {
                return None;
            },
        }
        i += 1;
    }
    assert(feature_views(features@) =~= features_of_codes(codes)->0);
    Some(features)
}

fn features_to_raw(features: &Vec<Feature>) -> (raws: Vec<RawFeature>)
    ensures
        raws.deep_view() == codes_of_features(feature_views(features@)),
        features_of_codes(raws.deep_view()) == Some(feature_views(features@)),
{
    let mut raws: Vec<RawFeature> = Vec::new();
    let mut i: usize = 0;
    while i < features.len()
        invariant
            i <= features.len(),
            raws.len() == i,
            forall|k: int|
                0 <= k < i ==> (#[trigger] raws@[k]).deep_view() == code_of_feature(features@[k]@)
                    && feature_of_code(raws@[k].deep_view()) == Some(features@[k]@),
        decreases features.len() - i,
    {
        raws.push(feature_to_raw(&features[i]));
        i += 1;
    }
    proof {
        let codes = raws.deep_view();
        assert(codes =~= codes_of_features(feature_views(features@)));
        assert forall|k: int| 0 <= k < codes.len() implies feature_of_code(#[trigger] codes[k])
            == Some(features@[k]@) by {
            assert(codes[k] == raws@[k].deep_view());
        }
        assert(features_of_codes(codes)->0 =~= feature_views(features@));
    }
    raws
}

fn terms_from_raw(raws: &Vec<RawTerm>) -> (terms: Vec<Term>)
    ensures
        terms@ == terms_of_codes(raws.deep_view()),
{
    let ghost codes = raws.deep_view();
    let mut terms: Vec<Term> = Vec::new();
    let mut i: usize = 0;
    while i < raws.len()
        invariant
            i <= raws.len(),
            codes == raws.deep_view(),
            terms.len() == i,
            forall|k: int| 0 <= k < i ==> #[trigger] terms@[k] == terms_of_codes(codes)[k],
        decreases raws.len() - i,
    {
        assert(codes[i as int] == raws@[i as int].deep_view());
        terms.push(Term::new(raws[i].0, raws[i].1));
        i += 1;
    }
    assert(terms@ =~= terms_of_codes(codes));
    terms
}

fn terms_to_raw(terms: &Vec<Term>) -> (raws: Vec<RawTerm>)
    ensures
        raws.deep_view() == codes_of_terms(terms@),
        terms_of_codes(raws.deep_view()) == terms@,
{
    let mut raws: Vec<RawTerm> = Vec::new();
    let mut i: usize = 0;
    while i < terms.len()
        invariant
            i <= terms.len(),
            raws.len() == i,
            forall|k: int|
                0 <= k < i ==> #[trigger] raws@[k] == (terms@[k].context_id, terms@[k].cost),
        decreases terms.len() - i,
    {
        raws.push((terms[i].context_id, terms[i].cost));
        i += 1;
    }
    assert(raws.deep_view() =~= codes_of_terms(terms@));
    assert(terms_of_codes(raws.deep_view()) =~= terms@);
    raws
}

impl EntryDictionary {
    /// The dictionary that a stored dictionary stands for. It is refused
    /// where a stored position stands for no tag.
    pub fn from_raw(raw: RawDict) -> (made: Result<Self, ArtifactError>)
        ensures
            made is Ok <==> features_of_codes(raw.deep_view().1) is Some,
            made matches Ok(dict) ==> dict.terms() == terms_of_codes(raw.deep_view().0)
                && Some(dict.features()) == features_of_codes(raw.deep_view().1),
            made matches Err(e) ==> e is InvalidVariant,
    {
        let terms = terms_from_raw(&raw.0);
        match features_from_raw(&raw.1) {
            Some(features) => Ok(EntryDictionary::new(terms, features)),
            None => Err(ArtifactError::InvalidVariant),
        }
    }

    /// The stored form of the dictionary.
    pub fn to_raw(&self) -> (raw: RawDict)
        ensures
            raw.deep_view() == (codes_of_terms(self.terms()), codes_of_features(self.features())),
            terms_of_codes(raw.deep_view().0) == self.terms(),
            features_of_codes(raw.deep_view().1) == Some(self.features()),
    {
        (terms_to_raw(self.terms_ref()), features_to_raw(self.features_ref()))
    }

    /// Reads a dictionary from its bytes: what they decode to, where they
    /// decode and every stored position stands for a tag.
    pub fn load(bytes: &[u8]) -> (loaded: Result<Self, ArtifactError>)
        ensures
            loaded is Ok <==> decoded_dict(bytes@) is Some && features_of_codes(
                (decoded_dict(bytes@)->0).1,
            ) is Some,
            loaded matches Ok(dict) ==> dict.terms() == terms_of_codes((decoded_dict(bytes@)->0).0)
                && Some(dict.features()) == features_of_codes((decoded_dict(bytes@)->0).1),
            loaded matches Err(e) ==> (e is DecodeError <==> decoded_dict(bytes@) is None) && (e
                is DecodeError || e is InvalidVariant),
    {
        match decode_dict(bytes) {
            Ok(raw) => Self::from_raw(raw),
            Err(e) => Err(ArtifactError::DecodeError(e)),
        }
    }

    /// The bytes that store the dictionary.
    pub fn to_bytes(&self) -> (stored: Result<Vec<u8>, ArtifactError>)
        ensures
            match stored {
                Ok(bytes) => encoded_dict(
                    (codes_of_terms(self.terms()), codes_of_features(self.features())),
                ) == Some(bytes@),
                Err(e) => e is EncodeError && encoded_dict(
                    (codes_of_terms(self.terms()), codes_of_features(self.features())),
                ) is None,
            },
    {
        let raw = self.to_raw();
        match encode_dict(&raw) {
            Ok(bytes) => Ok(bytes),
            Err(e) => Err(ArtifactError::EncodeError(e)),
        }
    }
}

fn bucket_from_raw(raws: &Vec<(usize, RawTerm)>) -> (bucket: Bucket)
    ensures
        bucket@.len() == raws@.len(),
        forall|k: int|
            0 <= k < raws@.len() ==> #[trigger] bucket@[k] == (
                raws@[k].0,
                Term { context_id: (raws@[k].1).0, cost: (raws@[k].1).1 },
            ),
{
    let mut bucket: Bucket = Vec::new();
    let mut i: usize = 0;
    while i < raws.len()
        invariant
            i <= raws.len(),
            bucket.len() == i,
            forall|k: int|
                0 <= k < i ==> #[trigger] bucket@[k] == (
                    raws@[k].0,
                    Term { context_id: (raws@[k].1).0, cost: (raws@[k].1).1 },
                ),
        decreases raws.len() - i,
    {
        bucket.push((raws[i].0, Term::new((raws[i].1).0, (raws[i].1).1)));
        i += 1;
    }
    bucket
}

fn bucket_to_raw(bucket: &Bucket) -> (raws: Vec<(usize, RawTerm)>)
    ensures
        raws@.len() == bucket@.len(),
        forall|k: int|
            0 <= k < bucket@.len() ==> #[trigger] raws@[k] == (
                bucket@[k].0,
                (bucket@[k].1.context_id, bucket@[k].1.cost),
            ),
{
    let mut raws: Vec<(usize, RawTerm)> = Vec::new();
    let mut i: usize = 0;
    while i < bucket.len()
        invariant
            i <= bucket.len(),
            raws.len() == i,
            forall|k: int|
                0 <= k < i ==> #[trigger] raws@[k] == (
                    bucket@[k].0,
                    (bucket@[k].1.context_id, bucket@[k].1.cost),
                ),
        decreases bucket.len() - i,
    {
        raws.push((bucket[i].0, (bucket[i].1.context_id, bucket[i].1.cost)));
        i += 1;
    }
    raws
}

impl UnknownDictionary {
    /// The dictionary that a stored dictionary stands for. It is refused
    /// where a stored position stands for no tag.
    pub fn from_raw(raw: RawUnk) -> (made: Result<Self, ArtifactError>)
        ensures
            made is Ok <==> features_of_codes(raw.deep_view().1) is Some,
            made matches Ok(dict) ==> dict.entries() == buckets_of_codes(raw.deep_view().0)
                && Some(dict.features()) == features_of_codes(raw.deep_view().1),
            made matches Err(e) ==> e is InvalidVariant,
    {
        let ghost codes = raw.deep_view().0;
        let mut entries: Vec<(String, Bucket)> = Vec::new();
        let mut e: usize = 0;
        while e < raw.0.len()
            invariant
                e <= raw.0.len(),
                codes == raw.deep_view().0,
                entries.len() == e,
                forall|a: int|
                    0 <= a < e ==> (#[trigger] entries@[a]).0@ == codes[a].0 && entries@[a].1@
                        == buckets_of_codes(codes)[a].1,
            decreases raw.0.len() - e,
        {
            assert(codes[e as int] == raw.0@[e as int].deep_view());
            let bucket = bucket_from_raw(&raw.0[e].1);
            assert(bucket@ =~= buckets_of_codes(codes)[e as int].1) by {
                assert(codes[e as int].1 =~= raw.0@[e as int].1.deep_view());
                assert forall|k: int| 0 <= k < bucket@.len() implies bucket@[k]
                    == buckets_of_codes(codes)[e as int].1[k] by {
                    assert(codes[e as int].1[k] == raw.0@[e as int].1@[k].deep_view());
                }
            }
            entries.push((raw.0[e].0.clone(), bucket));
            e += 1;
        }
        assert(bucket_views(entries@) =~= buckets_of_codes(codes));
        match features_from_raw(&raw.1) {
            Some(features) => Ok(UnknownDictionary::new(entries, features)),
            None => Err(ArtifactError::InvalidVariant),
        }
    }

    /// The stored form of the dictionary.
    pub fn to_raw(&self) -> (raw: RawUnk)
        ensures
            raw.deep_view() == (codes_of_buckets(self.entries()), codes_of_features(self.features())),
            features_of_codes(raw.deep_view().1) == Some(self.features()),
    {
        let entries = self.entries_ref();
        let ghost views = self.entries();
        let mut raws: Vec<(String, Vec<(usize, RawTerm)>)> = Vec::new();
        let mut e: usize = 0;
        while e < entries.len()
            invariant
                e <= entries.len(),
                views == bucket_views(entries@),
                raws.len() == e,
                forall|a: int|
                    0 <= a < e ==> (#[trigger] raws@[a]).deep_view() == codes_of_buckets(views)[a],
            decreases entries.len() - e,
        {
            let bucket = bucket_to_raw(&entries[e].1);
            let name = entries[e].0.clone();
            proof {
                let code = (name, bucket).deep_view();
                let want = codes_of_buckets(views)[e as int];
                assert(views[e as int] == (entries@[e as int].0@, entries@[e as int].1@));
                assert(code.1 =~= want.1) by {
                    assert forall|k: int| 0 <= k < code.1.len() implies code.1[k] == want.1[k] by {
                        assert(code.1[k] == bucket@[k].deep_view());
                    }
                }
            }
            raws.push((name, bucket));
            e += 1;
        }
        let features = features_to_raw(self.features_ref());
        let raw = (raws, features);
        assert(raw.deep_view().0 =~= codes_of_buckets(views));
        raw
    }

    /// Reads a dictionary from its bytes: what they decode to, where they
    /// decode and every stored position stands for a tag.
    pub fn load(bytes: &[u8]) -> (loaded: Result<Self, ArtifactError>)
        ensures
            loaded is Ok <==> decoded_unk(bytes@) is Some && features_of_codes(
                (decoded_unk(bytes@)->0).1,
            ) is Some,
            loaded matches Ok(dict) ==> dict.entries() == buckets_of_codes((decoded_unk(bytes@)->0).0)
                && Some(dict.features()) == features_of_codes((decoded_unk(bytes@)->0).1),
            loaded matches Err(e) ==> (e is DecodeError <==> decoded_unk(bytes@) is None) && (e
                is DecodeError || e is InvalidVariant),
    {
        match decode_unk(bytes) {
            Ok(raw) => Self::from_raw(raw),
            Err(e) => Err(ArtifactError::DecodeError(e)),
        }
    }

    /// The bytes that store the dictionary.
    pub fn to_bytes(&self) -> (stored: Result<Vec<u8>, ArtifactError>)
        ensures
            match stored {
                Ok(bytes) => encoded_unk(
                    (codes_of_buckets(self.entries()), codes_of_features(self.features())),
                ) == Some(bytes@),
                Err(e) => e is EncodeError && encoded_unk(
                    (codes_of_buckets(self.entries()), codes_of_features(self.features())),
                ) is None,
            },
    {
        let raw = self.to_raw();
        match encode_unk(&raw) {
            Ok(bytes) => Ok(bytes),
            Err(e) => Err(ArtifactError::EncodeError(e)),
        }
    }
}

fn slot_from_raw(raws: &Vec<RawCategory>) -> (slot: Vec<CharCategory>)
    ensures
        slot@.len() == raws@.len(),
        forall|k: int|
            0 <= k < raws@.len() ==> (#[trigger] slot@[k])@ == (CharCategoryView {
                name: raws@[k].0@,
                invoke: raws@[k].1,
                group: raws@[k].2,
                length: raws@[k].3,
            }),
{
    let mut slot: Vec<CharCategory> = Vec::new();
    let mut i: usize = 0;
    while i < raws.len()
        invariant
            i <= raws.len(),
            slot.len() == i,
            forall|k: int|
                0 <= k < i ==> (#[trigger] slot@[k])@ == (CharCategoryView {
                    name: raws@[k].0@,
                    invoke: raws@[k].1,
                    group: raws@[k].2,
                    length: raws@[k].3,
                }),
        decreases raws.len() - i,
    {
        slot.push(CharCategory::new(raws[i].0.clone(), raws[i].1, raws[i].2, raws[i].3));
        i += 1;
    }
    slot
}

fn slot_to_raw(slot: &Vec<CharCategory>) -> (raws: Vec<RawCategory>)
    ensures
        raws@.len() == slot@.len(),
        forall|k: int|
            0 <= k < slot@.len() ==> (#[trigger] raws@[k]).deep_view() == (
                slot@[k]@.name,
                slot@[k]@.invoke,
                slot@[k]@.group,
                slot@[k]@.length,
            ),
{
    let mut raws: Vec<RawCategory> = Vec::new();
    let mut i: usize = 0;
    while i < slot.len()
        invariant
            i <= slot.len(),
            raws.len() == i,
            forall|k: int|
                0 <= k < i ==> (#[trigger] raws@[k]).deep_view() == (
                    slot@[k]@.name,
                    slot@[k]@.invoke,
                    slot@[k]@.group,
                    slot@[k]@.length,
                ),
        decreases slot.len() - i,
    {
        raws.push((slot[i].name.clone(), slot[i].invoke, slot[i].group, slot[i].length));
        i += 1;
    }
    raws
}

impl CharTable {
    /// The table that a stored table stands for.
    pub fn from_raw(raw: RawChars) -> (table: Self)
        ensures
            table.slots() == slots_of_codes(raw.deep_view()),
    {
        let ghost codes = raw.deep_view();
        let mut map: Vec<Vec<CharCategory>> = Vec::new();
        let mut s: usize = 0;
        while s < raw.len()
            invariant
                s <= raw.len(),
                codes == raw.deep_view(),
                map.len() == s,
                forall|a: int|
                    0 <= a < s ==> category_views((#[trigger] map@[a])@) == slots_of_codes(codes)[a],
            decreases raw.len() - s,
        {
            let slot = slot_from_raw(&raw[s]);
            proof {
                assert(codes[s as int] =~= raw@[s as int].deep_view());
                assert(category_views(slot@) =~= slots_of_codes(codes)[s as int]) by {
                    assert forall|k: int| 0 <= k < slot@.len() implies category_views(slot@)[k]
                        == slots_of_codes(codes)[s as int][k] by {
                        assert(codes[s as int][k] == raw@[s as int]@[k].deep_view());
                    }
                }
            }
            map.push(slot);
            s += 1;
        }
        assert(slot_views(map@) =~= slots_of_codes(codes));
        CharTable::new(map)
    }

    /// The stored form of the table.
    pub fn to_raw(&self) -> (raw: RawChars)
        ensures
            raw.deep_view() == codes_of_slots(self.slots()),
    {
        let map = self.slots_ref();
        let ghost slots = self.slots();
        let mut raw: RawChars = Vec::new();
        let mut s: usize = 0;
        while s < map.len()
            invariant
                s <= map.len(),
                slots == slot_views(map@),
                raw.len() == s,
                forall|a: int|
                    0 <= a < s ==> (#[trigger] raw@[a]).deep_view() == codes_of_slots(slots)[a],
            decreases map.len() - s,
        {
            let slot = slot_to_raw(&map[s]);
            proof {
                assert(slots[s as int] == category_views(map@[s as int]@));
                assert(slot.deep_view() =~= codes_of_slots(slots)[s as int]) by {
                    assert forall|k: int| 0 <= k < slot@.len() implies slot.deep_view()[k]
                        == codes_of_slots(slots)[s as int][k] by {
                        assert(category_views(map@[s as int]@)[k] == map@[s as int]@[k]@);
                    }
                }
            }
            raw.push(slot);
            s += 1;
        }
        assert(raw.deep_view() =~= codes_of_slots(slots));
        raw
    }

    /// Reads a table from its bytes, where they decode.
    pub fn load(bytes: &[u8]) -> (loaded: Result<Self, ArtifactError>)
        ensures
            loaded is Ok <==> decoded_chars(bytes@) is Some,
            loaded matches Ok(table) ==> table.slots() == slots_of_codes(decoded_chars(bytes@)->0),
            loaded matches Err(e) ==> e is DecodeError,
    {
        match decode_chars(bytes) {
            Ok(raw) => Ok(Self::from_raw(raw)),
            Err(e) => Err(ArtifactError::DecodeError(e)),
        }
    }

    /// The bytes that store the table.
    pub fn to_bytes(&self) -> (stored: Result<Vec<u8>, ArtifactError>)
        ensures
            match stored {
                Ok(bytes) => encoded_chars(codes_of_slots(self.slots())) == Some(bytes@),
                Err(e) => e is EncodeError && encoded_chars(codes_of_slots(self.slots())) is None,
            },
    {
        let raw = self.to_raw();
        match encode_chars(&raw) {
            Ok(bytes) => Ok(bytes),
            Err(e) => Err(ArtifactError::EncodeError(e)),
        }
    }
}

fn clone_costs(values: &[i16]) -> (copy: Vec<i16>)
    ensures
        copy@ == values@,
{
    let mut copy: Vec<i16> = Vec::new();
    let mut i: usize = 0;
    while i < values.len()
        invariant
            i <= values.len(),
            copy@ == values@.take(i as int),
        decreases values.len() - i,
    {
        copy.push(values[i]);
        i += 1;
        assert(values@.take(i as int) == values@.take(i - 1).push(values@[i - 1]));
    }
    assert(values@.take(values.len() as int) == values@);
    copy
}

impl CostMatrix {
    /// The matrix that a stored matrix stands for. It is refused where
    /// the number of cells is not that of the rows times that of the columns.
    pub fn from_raw(raw: RawMatrix) -> (made: Result<Self, ArtifactError>)
        ensures
            made is Ok <==> raw.2@.len() == raw.0 * raw.1,
            made matches Ok(matrix) ==> matrix.grid().rows() == raw.0 && matrix.grid().cols()
                == raw.1 && matrix.grid().cells() == raw.2@,
            made matches Err(e) ==> e is Malformed,
    {
        match FlatMatrix::from_values(raw.0, raw.1, raw.2) {
            Some(grid) => Ok(CostMatrix::new(grid)),
            None => Err(ArtifactError::Malformed),
        }
    }

    /// The stored form of the matrix.
    pub fn to_raw(&self) -> (raw: RawMatrix)
        ensures
            raw.0 == self.grid().rows(),
            raw.1 == self.grid().cols(),
            raw.2@ == self.grid().cells(),
    {
        let grid = self.grid_ref();
        (grid.row_count(), grid.col_count(), clone_costs(grid.values()))
    }

    /// Reads a matrix from its bytes, where they decode to as many cells
    /// as the rows and columns ask for.
    pub fn load(bytes: &[u8]) -> (loaded: Result<Self, ArtifactError>)
        ensures
            loaded is Ok <==> decoded_matrix(bytes@) is Some && (decoded_matrix(bytes@)->0).2.len()
                == (decoded_matrix(bytes@)->0).0 * (decoded_matrix(bytes@)->0).1,
            loaded matches Ok(matrix) ==> matrix.grid().rows() == (decoded_matrix(bytes@)->0).0
                && matrix.grid().cols() == (decoded_matrix(bytes@)->0).1 && matrix.grid().cells()
                == (decoded_matrix(bytes@)->0).2,
            loaded matches Err(e) ==> (e is DecodeError <==> decoded_matrix(bytes@) is None) && (e
                is DecodeError || e is Malformed),
    {
        match decode_matrix(bytes) {
            Ok(raw) => {
                assert(raw.deep_view().2 =~= raw.2@);
                Self::from_raw(raw)
            },
            Err(e) => Err(ArtifactError::DecodeError(e)),
        }
    }

    /// The bytes that store the matrix.
    pub fn to_bytes(&self) -> (stored: Result<Vec<u8>, ArtifactError>)
        ensures
            match stored {
                Ok(bytes) => encoded_matrix(
                    (self.grid().rows() as usize, self.grid().cols() as usize, self.grid().cells()),
                ) == Some(bytes@),
                Err(e) => e is EncodeError && encoded_matrix(
                    (self.grid().rows() as usize, self.grid().cols() as usize, self.grid().cells()),
                ) is None,
            },
    {
        let raw = self.to_raw();
        assert(raw.deep_view().2 =~= raw.2@);
        match encode_matrix(&raw) {
            Ok(bytes) => Ok(bytes),
            Err(e) => Err(ArtifactError::EncodeError(e)),
        }
    }
}

} // verus!
