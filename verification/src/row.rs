//! Lines of the lexicon sources: thirteen fields that commas separate.

use crate::conjugation::{ConjugationForm, ConjugationType};
use crate::error::ArtifactError;
use crate::feature::{Feature, FeatureView};
use crate::pos::{PartOfSpeech, SubPartOfSpeech};
use crate::term::Term;
use crate::text::{number_within, parse_i16, parse_u16, piece_bytes, split_by, split_where, Separator};
use vstd::prelude::*;
use vstd::std_specs::convert::FromSpecImpl;
use vstd::string::StringSliceAdditionalSpecFns;

verus! {

/// One entry of a lexicon source. A field that the source leaves out is
/// written `*` there.
#[derive(Debug, Default, PartialEq)]
pub struct Row<'a> {
    pub surface_form: &'a str,
    pub left_id: u16,
    pub right_id: u16,
    pub cost: i16,
    pub part_of_speech: &'a str,
    pub sub_part_of_speech1: Option<&'a str>,
    pub sub_part_of_speech2: Option<&'a str>,
    pub sub_part_of_speech3: Option<&'a str>,
    pub conjugation_type: Option<&'a str>,
    pub conjugation_form: Option<&'a str>,
    pub base_form: Option<&'a str>,
    pub reading: Option<&'a str>,
    pub pronounciation: Option<&'a str>,
}

/// What a `Row` holds, with its texts as bytes.
pub struct RowBytes {
    pub surface_form: Seq<u8>,
    pub left_id: u16,
    pub right_id: u16,
    pub cost: i16,
    pub part_of_speech: Seq<u8>,
    pub sub_part_of_speech1: Option<Seq<u8>>,
    pub sub_part_of_speech2: Option<Seq<u8>>,
    pub sub_part_of_speech3: Option<Seq<u8>>,
    pub conjugation_type: Option<Seq<u8>>,
    pub conjugation_form: Option<Seq<u8>>,
    pub base_form: Option<Seq<u8>>,
    pub reading: Option<Seq<u8>>,
    pub pronounciation: Option<Seq<u8>>,
}

/// The bytes of an optional text.
pub open spec fn opt_bytes(text: Option<&str>) -> Option<Seq<u8>> {
    match text {
        Some(t) => Some(t.spec_bytes()),
        None => None,
    }
}

/// The characters of an optional text.
pub open spec fn opt_text(text: Option<&str>) -> Option<Seq<char>> {
    match text {
        Some(t) => Some(t@),
        None => None,
    }
}

/// The field at `index`, where the line has one there that is neither
/// empty nor `*`.
pub open spec fn optional_field(fields: Seq<Seq<u8>>, index: int) -> Option<Seq<u8>> {
    if index < fields.len() && fields[index].len() > 0 && fields[index] != seq![0x2Au8] {
        Some(fields[index])
    } else {
        None
    }
}

/// The entry that a line reads as: it has at least five fields, and its
/// second, third and fourth are numbers.
pub open spec fn row_of(line: Seq<u8>) -> Option<RowBytes> {
    let fields = split_where(line, Separator::Byte(0x2C));
    if fields.len() >= 5 && number_within(fields[1], 10, 0, 0xFFFF) is Some && number_within(
        fields[2],
        10,
        0,
        0xFFFF,
    ) is Some && number_within(fields[3], 10, -0x8000, 0x7FFF) is Some {
        Some(
            RowBytes {
                surface_form: fields[0],
                left_id: number_within(fields[1], 10, 0, 0xFFFF)->0 as u16,
                right_id: number_within(fields[2], 10, 0, 0xFFFF)->0 as u16,
                cost: number_within(fields[3], 10, -0x8000, 0x7FFF)->0 as i16,
                part_of_speech: fields[4],
                sub_part_of_speech1: optional_field(fields, 5),
                sub_part_of_speech2: optional_field(fields, 6),
                sub_part_of_speech3: optional_field(fields, 7),
                conjugation_type: optional_field(fields, 8),
                conjugation_form: optional_field(fields, 9),
                base_form: optional_field(fields, 10),
                reading: optional_field(fields, 11),
                pronounciation: optional_field(fields, 12),
            },
        )
    } else {
        None
    }
}

fn optional<'a>(fields: &Vec<&'a str>, index: usize) -> (field: Option<&'a str>)
    ensures
        opt_bytes(field) == optional_field(piece_bytes(fields@), index as int),
{
    if index < fields.len() {
        let piece = fields[index];
        let bytes = piece.as_bytes();
        assert(piece_bytes(fields@)[index as int] == piece.spec_bytes());
        if bytes.len() == 0 {
            None
        } else if bytes.len() == 1 && bytes[0] == 0x2A {
            assert(bytes@ =~= seq![0x2Au8]);
            None
        } else {
            assert(bytes@ != seq![0x2Au8]) by {
                if bytes@.len() == 1 {
                    assert(bytes@[0] != seq![0x2Au8][0]);
                }
            }
            Some(piece)
        }
    } else {
        None
    }
}

impl<'a> Row<'a> {
    pub open spec fn bytes(&self) -> RowBytes {
        RowBytes {
            surface_form: self.surface_form.spec_bytes(),
            left_id: self.left_id,
            right_id: self.right_id,
            cost: self.cost,
            part_of_speech: self.part_of_speech.spec_bytes(),
            sub_part_of_speech1: opt_bytes(self.sub_part_of_speech1),
            sub_part_of_speech2: opt_bytes(self.sub_part_of_speech2),
            sub_part_of_speech3: opt_bytes(self.sub_part_of_speech3),
            conjugation_type: opt_bytes(self.conjugation_type),
            conjugation_form: opt_bytes(self.conjugation_form),
            base_form: opt_bytes(self.base_form),
            reading: opt_bytes(self.reading),
            pronounciation: opt_bytes(self.pronounciation),
        }
    }

    /// Reads a line of a lexicon source.
    pub fn try_from(line: &'a str) -> (row: Result<Self, ArtifactError>)
        ensures
            match row {
                Ok(r) => row_of(line.spec_bytes()) == Some(r.bytes()),
                Err(e) => row_of(line.spec_bytes()) is None && e is Malformed,
            },
    {
        let values = split_by(line, Separator::Byte(0x2C));
        let ghost fields = piece_bytes(values@);
        if values.len() < 5 {
            return Err(ArtifactError::Malformed);
        }
        assert(fields[0] == values@[0].spec_bytes());
        assert(fields[1] == values@[1].spec_bytes());
        assert(fields[2] == values@[2].spec_bytes());
        assert(fields[3] == values@[3].spec_bytes());
        assert(fields[4] == values@[4].spec_bytes());
        let left_id = match parse_u16(values[1]) {
            Some(id) => id,
            None => {
                return Err(ArtifactError::Malformed);
            },
        };
        let right_id = match parse_u16(values[2]) {
            Some(id) => id,
            None => {
                return Err(ArtifactError::Malformed);
            },
        };
        let cost = match parse_i16(values[3]) {
            Some(cost) => cost,
            None => {
                return Err(ArtifactError::Malformed);
            },
        };
        Ok(
            Row {
                surface_form: values[0],
                left_id,
                right_id,
                cost,
                part_of_speech: values[4],
                sub_part_of_speech1: optional(&values, 5),
                sub_part_of_speech2: optional(&values, 6),
                sub_part_of_speech3: optional(&values, 7),
                conjugation_type: optional(&values, 8),
                conjugation_form: optional(&values, 9),
                base_form: optional(&values, 10),
                reading: optional(&values, 11),
                pronounciation: optional(&values, 12),
            },
        )
    }

    /// The sub parts of speech that the row names, in their order.
    pub open spec fn sub_parts(&self) -> Seq<SubPartOfSpeech> {
        let first = match self.sub_part_of_speech1 {
            Some(tag) => seq![SubPartOfSpeech::from_name(tag@)],
            None => Seq::empty(),
        };
        let second = match self.sub_part_of_speech2 {
            Some(tag) => first.push(SubPartOfSpeech::from_name(tag@)),
            None => first,
        };
        match self.sub_part_of_speech3 {
            Some(tag) => second.push(SubPartOfSpeech::from_name(tag@)),
            None => second,
        }
    }

    /// The features that the row describes.
    pub open spec fn feature(&self) -> FeatureView {
        FeatureView {
            part_of_speech: PartOfSpeech::from_name(self.part_of_speech@),
            sub_part_of_speech: self.sub_parts(),
            conjugation_type: match self.conjugation_type {
                Some(tag) => Some(ConjugationType::from_name(tag@)),
                None => None,
            },
            conjugation_form: match self.conjugation_form {
                Some(tag) => Some(ConjugationForm::from_name(tag@)),
                None => None,
            },
            base_form: opt_text(self.base_form),
            reading: opt_text(self.reading),
        }
    }
}

impl From<&Row<'_>> for Term {
    fn from(value: &Row) -> (term: Self) {
        Self { context_id: value.left_id, cost: value.cost }
    }
}

impl FromSpecImpl<&Row<'_>> for Term {
    open spec fn obeys_from_spec() -> bool {
        true
    }

    open spec fn from_spec(value: &Row) -> Self {
        Term { context_id: value.left_id, cost: value.cost }
    }
}

fn owned(text: Option<&str>) -> (copy: Option<String>)
    ensures
        crate::text::opt_chars(copy) == opt_text(text),
{
    match text {
        Some(t) => Some(t.to_owned()),
        None => None,
    }
}

impl Feature {
    /// The features that a row describes: a tag that the tag set does not
    /// have reads as `Other` or `Unknown`.
    pub fn from(value: &Row) -> (feature: Self)
        ensures
            feature@ == value.feature(),
    {
        let mut sub_part_of_speech: Vec<SubPartOfSpeech> = Vec::new();
        if let Some(tag) = value.sub_part_of_speech1 {
            sub_part_of_speech.push(SubPartOfSpeech::from(tag));
        }
        if let Some(tag) = value.sub_part_of_speech2 {
            sub_part_of_speech.push(SubPartOfSpeech::from(tag));
        }
        if let Some(tag) = value.sub_part_of_speech3 {
            sub_part_of_speech.push(SubPartOfSpeech::from(tag));
        }
        assert(sub_part_of_speech@ =~= value.sub_parts());
        Self {
            part_of_speech: PartOfSpeech::from(value.part_of_speech),
            sub_part_of_speech,
            conjugation_type: match value.conjugation_type {
                Some(tag) => Some(ConjugationType::from(tag)),
                None => None,
            },
            conjugation_form: match value.conjugation_form {
                Some(tag) => Some(ConjugationForm::from(tag)),
                None => None,
            },
            base_form: owned(value.base_form),
            reading: owned(value.reading),
        }
    }
}

} // verus!
