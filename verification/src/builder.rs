//! From the dictionary sources to the artifacts: the definitions of the
//! character categories, of the unknown words and of the connection costs.

use crate::char_table::{category_views, slot_views, CharCategory, CharCategoryView, CharTable};
use crate::dict::feature_views;
use crate::error::ArtifactError;
use crate::feature::{Feature, FeatureView};
use crate::matrix::{CostMatrix, FlatMatrix};
use crate::row::{row_of, Row, RowBytes};
use crate::term::{Term, TermId};
use crate::text::{
    blank_fields, lemma_boundary_after_ascii, lines_of, number_within, parse_i16, parse_number,
    parse_u8, parse_usize, piece_bytes, split_blank, split_by, split_lines, split_where, str_eq,
    str_slice, Separator,
};
use crate::unk::{bucket_views, Bucket, UnknownDictionary};
use vstd::prelude::*;
use vstd::string::StringSliceAdditionalSpecFns;
use vstd::utf8::{decode_utf8, encode_utf8, is_char_boundary, valid_utf8};

verus! {

/// A text without the `0x` that it may begin with, however often.
pub open spec fn without_0x(text: Seq<u8>) -> Seq<u8>
    decreases text.len(),
{
    if text.len() >= 2 && text[0] == 0x30 && text[1] == 0x78 {
        without_0x(text.skip(2))
    } else {
        text
    }
}

/// The code point that a hexadecimal text reads as.
pub open spec fn hex_of(text: Seq<u8>) -> Option<u16> {
    match number_within(without_0x(text), 16, 0, 0xFFFF) {
        Some(value) => Some(value as u16),
        None => None,
    }
}

/// Reads a code point of the basic plane in hexadecimal digits, with or
/// without `0x` before them.
pub fn parse_hex(hex: &str) -> (code: Result<u16, ArtifactError>)
    ensures
        match code {
            Ok(c) => hex_of(hex.spec_bytes()) == Some(c),
            Err(e) => hex_of(hex.spec_bytes()) is None && e is Malformed,
        },
{
    let bytes = hex.as_bytes();
    let ghost all = hex.spec_bytes();
    let count: usize = bytes.len();
    let mut from: usize = 0;
    proof {
        vstd::utf8::encode_utf8_valid_utf8(hex@);
        vstd::utf8::is_char_boundary_start_end_of_seq(all);
        assert(all.skip(0) =~= all);
    }
    while count - from >= 2 && bytes[from] == 0x30 && bytes[from + 1] == 0x78
        invariant
            from <= count,
            count == all.len(),
            bytes@ == all,
            all == hex.spec_bytes(),
            valid_utf8(all),
            is_char_boundary(all, from as int),
            without_0x(all) == without_0x(all.skip(from as int)),
        decreases count - from,
    {
        proof {
            lemma_boundary_after_ascii(all, from as int);
            lemma_boundary_after_ascii(all, from + 1);
            assert(all.skip(from as int).skip(2) =~= all.skip(from + 2));
        }
        from += 2;
    }
    let digits = str_slice(hex, from, count);
    proof {
        assert(all.subrange(from as int, count as int) =~= all.skip(from as int));
    }
    match parse_number(digits, 16, 0, 0xFFFF) {
        Some((_, size)) => Ok(size as u16),
        None => Err(ArtifactError::Malformed),
    }
}

/// The names from position `from` on, up to the one that begins a comment.
pub open spec fn names_before_comment(fields: Seq<Seq<u8>>, from: int) -> Seq<Seq<u8>>
    decreases fields.len() - from,
{
    if from < 0 || from >= fields.len() || fields[from] == seq![0x23u8] {
        Seq::empty()
    } else {
        seq![fields[from]] + names_before_comment(fields, from + 1)
    }
}

/// The two ends of a range of code points: one code point, or two with
/// `..` between them.
pub open spec fn bounds_of(field: Seq<u8>) -> Option<(u16, u16)> {
    let parts = split_where(field, Separator::Byte(0x2E));
    if parts.len() == 1 {
        match hex_of(parts[0]) {
            Some(code) => Some((code, code)),
            None => None,
        }
    } else if parts.len() >= 3 && parts[1].len() == 0 {
        match (hex_of(parts[0]), hex_of(parts[2])) {
            (Some(lower), Some(upper)) => Some((lower, upper)),
            _ => None,
        }
    } else {
        None
    }
}

/// The range that a line of the character definitions maps: its two
/// ends and the names of its categories.
pub open spec fn char_map_of(line: Seq<u8>) -> Option<(u16, u16, Seq<Seq<u8>>)> {
    let fields = blank_fields(line);
    if fields.len() == 0 {
        None
    } else {
        match bounds_of(fields[0]) {
            Some((lower, upper)) => Some((lower, upper, names_before_comment(fields, 1))),
            None => None,
        }
    }
}

fn parse_bounds(field: &str) -> (bounds: Option<(u16, u16)>)
    ensures
        bounds == bounds_of(field.spec_bytes()),
{
    let parts = split_by(field, Separator::Byte(0x2E));
    let ghost all = piece_bytes(parts@);
    assert(all[0] == parts@[0].spec_bytes());
    if parts.len() == 1 {
        match parse_hex(parts[0]) {
            Ok(code) => Some((code, code)),
            Err(_) => None,
        }
    } else if parts.len() >= 3 && parts[1].as_bytes().len() == 0 {
        assert(all[1] == parts@[1].spec_bytes());
        assert(all[2] == parts@[2].spec_bytes());
        match parse_hex(parts[0]) {
            Ok(lower) => match parse_hex(parts[2]) {
                Ok(upper) => Some((lower, upper)),
                Err(_) => None,
            },
            Err(_) => None,
        }
    } else {
        if parts.len() >= 3 {
            assert(all[1] == parts@[1].spec_bytes());
        }
        None
    }
}

/// Reads a line that maps a range of code points to categories.
pub fn parse_char_map<'a>(line: &'a str) -> (mapped: Result<(u16, u16, Vec<&'a str>), ArtifactError>)
    ensures
        match mapped {
            Ok((lower, upper, names)) => char_map_of(line.spec_bytes()) == Some(
                (lower, upper, piece_bytes(names@)),
            ),
            Err(e) => char_map_of(line.spec_bytes()) is None && e is Malformed,
        },
{
    let fields = split_blank(line);
    let ghost all = piece_bytes(fields@);
    if fields.len() == 0 {
        return Err(ArtifactError::Malformed);
    }
    assert(all[0] == fields@[0].spec_bytes());
    let (lower, upper) = match parse_bounds(fields[0]) {
        Some(bounds) => bounds,
        None => {
            return Err(ArtifactError::Malformed);
        },
    };
    let mut categories: Vec<&'a str> = Vec::new();
    let mut i: usize = 1;
    let mut open: bool = true;
    proof {
        assert(piece_bytes(categories@) =~= Seq::<Seq<u8>>::empty());
    }
    while open && i < fields.len()
        invariant
            1 <= i <= fields.len(),
            all == piece_bytes(fields@),
            open ==> piece_bytes(categories@) + names_before_comment(all, i as int)
                == names_before_comment(all, 1),
            !open ==> piece_bytes(categories@) == names_before_comment(all, 1),
        decreases fields.len() - i + if open { 1int } else { 0int },
    {
        let category = fields[i];
        let bytes = category.as_bytes();
        assert(all[i as int] == category.spec_bytes());
        if bytes.len() == 1 && bytes[0] == 0x23 {
            proof {
                assert(bytes@ =~= seq![0x23u8]);
                assert(piece_bytes(categories@) + Seq::<Seq<u8>>::empty() =~= piece_bytes(
                    categories@,
                ));
            }
            open = false;
        } else {
            let ghost before = piece_bytes(categories@);
            proof {
                assert(bytes@ != seq![0x23u8]) by {
                    if bytes@.len() == 1 {
                        assert(bytes@[0] != seq![0x23u8][0]);
                    }
                }
            }
            categories.push(category);
            proof {
                assert(piece_bytes(categories@) =~= before.push(category.spec_bytes()));
                assert(before.push(category.spec_bytes()) + names_before_comment(all, i + 1)
                    =~= before + (seq![category.spec_bytes()] + names_before_comment(all, i + 1)));
            }
            i += 1;
        }
    }
    proof {
        if open {
            assert(piece_bytes(categories@) + Seq::<Seq<u8>>::empty() =~= piece_bytes(
                categories@,
            ));
        }
    }
    Ok((lower, upper, categories))
}

/// The category that a line of the character definitions defines: its
/// name, whether it is invoked beside known terms, whether it groups,
/// and its length. The two flags are set where the line has a 1.
pub open spec fn category_of(line: Seq<u8>) -> Option<(Seq<u8>, bool, bool, usize)> {
    let fields = blank_fields(line);
    if fields.len() >= 4 && number_within(fields[1], 10, 0, 0xFF) is Some && number_within(
        fields[2],
        10,
        0,
        0xFF,
    ) is Some && number_within(fields[3], 10, 0, usize::MAX as int) is Some {
        Some(
            (
                fields[0],
                number_within(fields[1], 10, 0, 0xFF)->0 == 1,
                number_within(fields[2], 10, 0, 0xFF)->0 == 1,
                number_within(fields[3], 10, 0, usize::MAX as int)->0 as usize,
            ),
        )
    } else {
        None
    }
}

/// Reads a line that defines a category.
pub fn parse_category(line: &str) -> (defined: Result<(String, CharCategory), ArtifactError>)
    ensures
        match defined {
            Ok((name, category)) => category_of(line.spec_bytes()) == Some(
                (
                    vstd::utf8::encode_utf8(name@),
                    category@.invoke,
                    category@.group,
                    category@.length,
                ),
            ) && category@.name == name@,
            Err(e) => category_of(line.spec_bytes()) is None && e is Malformed,
        },
{
    let fields = split_blank(line);
    let ghost all = piece_bytes(fields@);
    if fields.len() < 4 {
        return Err(ArtifactError::Malformed);
    }
    assert(all[0] == fields@[0].spec_bytes());
    assert(all[1] == fields@[1].spec_bytes());
    assert(all[2] == fields@[2].spec_bytes());
    assert(all[3] == fields@[3].spec_bytes());
    let invoke = match parse_u8(fields[1]) {
        Some(flag) => flag == 1,
        None => {
            return Err(ArtifactError::Malformed);
        },
    };
    let group = match parse_u8(fields[2]) {
        Some(flag) => flag == 1,
        None => {
            return Err(ArtifactError::Malformed);
        },
    };
    let length = match parse_usize(fields[3]) {
        Some(length) => length,
        None => {
            return Err(ArtifactError::Malformed);
        },
    };
    let name = fields[0].to_owned();
    let category = CharCategory::new(name.clone(), invoke, group, length);
    Ok((name, category))
}

/// The sizes that the first line of the cost definitions gives: rows,
/// then columns.
pub open spec fn matrix_header_of(line: Seq<u8>) -> Option<(usize, usize)> {
    let fields = blank_fields(line);
    if fields.len() >= 2 && number_within(fields[0], 10, 0, usize::MAX as int) is Some
        && number_within(fields[1], 10, 0, usize::MAX as int) is Some {
        Some(
            (
                number_within(fields[0], 10, 0, usize::MAX as int)->0 as usize,
                number_within(fields[1], 10, 0, usize::MAX as int)->0 as usize,
            ),
        )
    } else {
        None
    }
}

/// The cost that a line of the cost definitions gives: the context on
/// the left of the boundary, the context on its right, and the cost.
pub open spec fn matrix_entry_of(line: Seq<u8>) -> Option<(usize, usize, i16)> {
    let fields = blank_fields(line);
    if fields.len() >= 3 && number_within(fields[0], 10, 0, usize::MAX as int) is Some
        && number_within(fields[1], 10, 0, usize::MAX as int) is Some && number_within(
        fields[2],
        10,
        -0x8000,
        0x7FFF,
    ) is Some {
        Some(
            (
                number_within(fields[0], 10, 0, usize::MAX as int)->0 as usize,
                number_within(fields[1], 10, 0, usize::MAX as int)->0 as usize,
                number_within(fields[2], 10, -0x8000, 0x7FFF)->0 as i16,
            ),
        )
    } else {
        None
    }
}

/// The cells of a grid of `rows` by `cols` after the first `n` lines
/// that follow the header: all 0 at first, and then each line's cost at
/// its place. There are none where a line is no entry of the grid.
pub open spec fn cells_after(lines: Seq<Seq<u8>>, rows: usize, cols: usize, n: int) -> Option<
    Seq<i16>,
>
    decreases n,
{
    if n <= 0 {
        Some(Seq::new((rows * cols) as nat, |i: int| 0i16))
    } else {
        match (cells_after(lines, rows, cols, n - 1), matrix_entry_of(lines[n])) {
            (Some(cells), Some((right, left, cost))) => if right < rows && left < cols {
                Some(cells.update(right * cols + left, cost))
            } else {
                None
            },
            _ => None,
        }
    }
}

/// The grid that the cost definitions describe.
pub open spec fn cost_matrix_of(text: Seq<u8>) -> Option<(usize, usize, Seq<i16>)> {
    let lines = lines_of(text);
    if lines.len() == 0 {
        None
    } else {
        match matrix_header_of(lines[0]) {
            Some((rows, cols)) => if rows * cols <= usize::MAX {
                match cells_after(lines, rows, cols, lines.len() - 1) {
                    Some(cells) => Some((rows, cols, cells)),
                    None => None,
                }
            } else {
                None
            },
            None => None,
        }
    }
}

fn parse_matrix_header(line: &str) -> (header: Option<(usize, usize)>)
    ensures
        header == matrix_header_of(line.spec_bytes()),
{
    let fields = split_blank(line);
    let ghost all = piece_bytes(fields@);
    if fields.len() < 2 {
        return None;
    }
    assert(all[0] == fields@[0].spec_bytes());
    assert(all[1] == fields@[1].spec_bytes());
    match parse_usize(fields[0]) {
        Some(rows) => match parse_usize(fields[1]) {
            Some(cols) => Some((rows, cols)),
            None => None,
        },
        None => None,
    }
}

fn parse_matrix_entry(line: &str) -> (entry: Option<(usize, usize, i16)>)
    ensures
        entry == matrix_entry_of(line.spec_bytes()),
{
    let fields = split_blank(line);
    let ghost all = piece_bytes(fields@);
    if fields.len() < 3 {
        return None;
    }
    assert(all[0] == fields@[0].spec_bytes());
    assert(all[1] == fields@[1].spec_bytes());
    assert(all[2] == fields@[2].spec_bytes());
    match parse_usize(fields[0]) {
        Some(right) => match parse_usize(fields[1]) {
            Some(left) => match parse_i16(fields[2]) {
                Some(cost) => Some((right, left, cost)),
                None => None,
            },
            None => None,
        },
        None => None,
    }
}

/// Builds the cost matrix from the text of the cost definitions: a line
/// with the numbers of rows and columns, and after it a line for each cost.
pub fn build_cost_matrix(text: &str) -> (built: Result<CostMatrix, ArtifactError>)
    ensures
        match built {
            Ok(matrix) => cost_matrix_of(text.spec_bytes()) == Some(
                (
                    matrix.grid().rows() as usize,
                    matrix.grid().cols() as usize,
                    matrix.grid().cells(),
                ),
            ),
            Err(e) => cost_matrix_of(text.spec_bytes()) is None && e is Malformed,
        },
{
    let lines = split_lines(text);
    let ghost all = piece_bytes(lines@);
    if lines.len() == 0 {
        return Err(ArtifactError::Malformed);
    }
    assert(all[0] == lines@[0].spec_bytes());
    let (rows, cols) = match parse_matrix_header(lines[0]) {
        Some(header) => header,
        None => {
            return Err(ArtifactError::Malformed);
        },
    };
    if rows.checked_mul(cols).is_none() {
        return Err(ArtifactError::Malformed);
    }
    let mut matrix: FlatMatrix<i16> = FlatMatrix::new(rows, cols);
    proof {
        assert(matrix.cells() =~= cells_after(all, rows, cols, 0)->0);
    }
    let mut n: usize = 1;
    while n < lines.len()
        invariant
            1 <= n <= lines.len(),
            all == piece_bytes(lines@),
            all == lines_of(text.spec_bytes()),
            matrix_header_of(all[0]) == Some((rows, cols)),
            rows * cols <= usize::MAX,
            matrix.rows() == rows,
            matrix.cols() == cols,
            cells_after(all, rows, cols, n - 1) == Some(matrix.cells()),
        decreases lines.len() - n,
    {
        assert(all[n as int] == lines@[n as int].spec_bytes());
        match parse_matrix_entry(lines[n]) {
            Some((right, left, cost)) => {
                if right < rows && left < cols {
                    matrix.set(right, left, cost);
                } else {
                    proof {
                        lemma_cells_stay_missing(all, rows, cols, n as int, all.len() - 1);
                    }
                    return Err(ArtifactError::Malformed);
                }
            },
            None => {
                proof {
                    lemma_cells_stay_missing(all, rows, cols, n as int, all.len() - 1);
                }
                return Err(ArtifactError::Malformed);
            },
        }
        n += 1;
    }
    Ok(CostMatrix::new(matrix))
}

proof fn lemma_cells_stay_missing(lines: Seq<Seq<u8>>, rows: usize, cols: usize, n: int, m: int)
    requires
        0 <= n <= m,
        cells_after(lines, rows, cols, n) is None,
    ensures
        cells_after(lines, rows, cols, m) is None,
    decreases m - n,
{
    if n < m {
        lemma_cells_stay_missing(lines, rows, cols, n, m - 1);
    }
}

/// Whether two texts are the same, byte for byte.
pub fn same_text(a: &str, b: &str) -> (same: bool)
    ensures
        same == (a.spec_bytes() == b.spec_bytes()),
{
    proof {
        vstd::utf8::encode_utf8_decode_utf8(a@);
        vstd::utf8::encode_utf8_decode_utf8(b@);
    }
    str_eq(a, b)
}

/// A copy of a list of categories.
pub fn clone_categories(list: &Vec<CharCategory>) -> (copy: Vec<CharCategory>)
    ensures
        category_views(copy@) == category_views(list@),
{
    let mut copy: Vec<CharCategory> = Vec::new();
    let mut i: usize = 0;
    while i < list.len()
        invariant
            i <= list.len(),
            copy.len() == i,
            forall|k: int| 0 <= k < i ==> (#[trigger] copy@[k])@ == list@[k]@,
        decreases list.len() - i,
    {
        copy.push(list[i].clone());
        i += 1;
    }
    assert(category_views(copy@) =~= category_views(list@));
    copy
}

/// Whether a line of the character definitions says nothing: it is
/// empty or a comment.
pub open spec fn is_idle_line(line: Seq<u8>) -> bool {
    line.len() == 0 || line[0] == 0x23
}

/// Whether a line of the character definitions maps a range.
pub open spec fn is_range_line(line: Seq<u8>) -> bool {
    line.len() >= 2 && line[0] == 0x30 && line[1] == 0x78
}

/// Whether each of the first `n` lines says nothing, maps a range or
/// defines a category.
pub open spec fn char_lines_ok(lines: Seq<Seq<u8>>, n: int) -> bool
    decreases n,
{
    if n <= 0 {
        true
    } else {
        char_lines_ok(lines, n - 1) && (is_idle_line(lines[n - 1]) || if is_range_line(
            lines[n - 1],
        ) {
            char_map_of(lines[n - 1]) is Some
        } else {
            category_of(lines[n - 1]) is Some
        })
    }
}

/// The ranges that the first `n` lines map, in their order.
pub open spec fn char_ranges(lines: Seq<Seq<u8>>, n: int) -> Seq<(u16, u16, Seq<Seq<u8>>)>
    decreases n,
{
    if n <= 0 {
        Seq::empty()
    } else if !is_idle_line(lines[n - 1]) && is_range_line(lines[n - 1]) {
        char_ranges(lines, n - 1).push(char_map_of(lines[n - 1])->0)
    } else {
        char_ranges(lines, n - 1)
    }
}

/// The categories that the first `n` lines define, in their order.
pub open spec fn char_definitions(lines: Seq<Seq<u8>>, n: int) -> Seq<
    (Seq<u8>, bool, bool, usize),
>
    decreases n,
{
    if n <= 0 {
        Seq::empty()
    } else if !is_idle_line(lines[n - 1]) && !is_range_line(lines[n - 1]) {
        char_definitions(lines, n - 1).push(category_of(lines[n - 1])->0)
    } else {
        char_definitions(lines, n - 1)
    }
}

/// Position of the last of the first `n` definitions of the category
/// named `name`.
pub open spec fn last_defined(
    defs: Seq<(Seq<u8>, bool, bool, usize)>,
    name: Seq<u8>,
    n: int,
) -> Option<int>
    decreases n,
{
    if n <= 0 {
        None
    } else if defs[n - 1].0 == name {
        Some(n - 1)
    } else {
        last_defined(defs, name, n - 1)
    }
}

/// The category that a definition describes.
pub open spec fn defined_category(def: (Seq<u8>, bool, bool, usize)) -> CharCategoryView {
    CharCategoryView { name: decode_utf8(def.0), invoke: def.1, group: def.2, length: def.3 }
}

/// The categories that the first `k` names stand for: each name that is
/// defined, by its last definition.
pub open spec fn resolved(
    names: Seq<Seq<u8>>,
    defs: Seq<(Seq<u8>, bool, bool, usize)>,
    k: int,
) -> Seq<CharCategoryView>
    decreases k,
{
    if k <= 0 {
        Seq::empty()
    } else {
        match last_defined(defs, names[k - 1], defs.len() as int) {
            Some(i) => resolved(names, defs, k - 1).push(defined_category(defs[i])),
            None => resolved(names, defs, k - 1),
        }
    }
}

/// The categories of a code point after the first `n` ranges: those of
/// the last range that holds it, and none where no range holds it.
pub open spec fn slot_after(
    ranges: Seq<(u16, u16, Seq<Seq<u8>>)>,
    defs: Seq<(Seq<u8>, bool, bool, usize)>,
    code: int,
    n: int,
) -> Seq<CharCategoryView>
    decreases n,
{
    if n <= 0 {
        Seq::empty()
    } else if ranges[n - 1].0 <= code <= ranges[n - 1].1 {
        resolved(ranges[n - 1].2, defs, ranges[n - 1].2.len() as int)
    } else {
        slot_after(ranges, defs, code, n - 1)
    }
}

/// The table that the character definitions describe.
pub open spec fn char_table_of(text: Seq<u8>) -> Option<Seq<Seq<CharCategoryView>>> {
    let lines = lines_of(text);
    let n = lines.len() as int;
    if char_lines_ok(lines, n) {
        Some(
            Seq::new(
                0x10000,
                |code: int|
                    slot_after(
                        char_ranges(lines, n),
                        char_definitions(lines, n),
                        code,
                        char_ranges(lines, n).len() as int,
                    ),
            ),
        )
    } else {
        None
    }
}

/// The ranges of a list of parsed ranges, with their names as bytes.
pub open spec fn range_views(ranges: Seq<(u16, u16, Vec<&str>)>) -> Seq<(u16, u16, Seq<Seq<u8>>)> {
    ranges.map_values(|r: (u16, u16, Vec<&str>)| (r.0, r.1, piece_bytes(r.2@)))
}

/// The definitions of a list of parsed categories.
pub open spec fn definition_views(defs: Seq<(String, CharCategory)>) -> Seq<
    (Seq<u8>, bool, bool, usize),
> {
    defs.map_values(
        |d: (String, CharCategory)| (encode_utf8(d.0@), d.1@.invoke, d.1@.group, d.1@.length),
    )
}

proof fn lemma_char_lines_stay_bad(lines: Seq<Seq<u8>>, n: int, m: int)
    requires
        0 <= n <= m,
        !char_lines_ok(lines, n),
    ensures
        !char_lines_ok(lines, m),
    decreases m - n,
{
    if n < m {
        lemma_char_lines_stay_bad(lines, n, m - 1);
    }
}

fn resolve(names: &Vec<&str>, defs: &Vec<(String, CharCategory)>) -> (categories: Vec<CharCategory>)
    requires
        forall|i: int| 0 <= i < defs@.len() ==> (#[trigger] defs@[i]).1@.name == defs@[i].0@,
    ensures
        category_views(categories@) == resolved(
            piece_bytes(names@),
            definition_views(defs@),
            names@.len() as int,
        ),
{
    let ghost keys = piece_bytes(names@);
    let ghost views = definition_views(defs@);
    let mut categories: Vec<CharCategory> = Vec::new();
    let mut k: usize = 0;
    proof {
        assert(category_views(categories@) =~= Seq::<CharCategoryView>::empty());
    }
    while k < names.len()
        invariant
            k <= names.len(),
            keys == piece_bytes(names@),
            views == definition_views(defs@),
            forall|i: int| 0 <= i < defs@.len() ==> (#[trigger] defs@[i]).1@.name == defs@[i].0@,
            category_views(categories@) == resolved(keys, views, k as int),
        decreases names.len() - k,
    {
        let key = names[k];
        assert(keys[k as int] == key.spec_bytes());
        let mut i: usize = defs.len();
        let mut found: Option<usize> = None;
        while i > 0 && found.is_none()
            invariant
                i <= defs.len(),
                views == definition_views(defs@),
                match found {
                    Some(at) => last_defined(views, key.spec_bytes(), views.len() as int) == Some(
                        at as int,
                    ) && at < defs.len(),
                    None => last_defined(views, key.spec_bytes(), views.len() as int)
                        == last_defined(views, key.spec_bytes(), i as int),
                },
            decreases i + if found is None { 1int } else { 0int },
        {
            assert(views[i - 1].0 == encode_utf8(defs@[i - 1].0@));
            if same_text(defs[i - 1].0.as_str(), key) {
                found = Some(i - 1);
            } else {
                i -= 1;
            }
        }
        let ghost before = category_views(categories@);
        if let Some(at) = found {
            categories.push(defs[at].1.clone());
            proof {
                vstd::utf8::encode_utf8_decode_utf8(defs@[at as int].0@);
                assert(defs@[at as int].1@ == defined_category(views[at as int]));
                assert(category_views(categories@) =~= before.push(defs@[at as int].1@));
            }
        }
        k += 1;
    }
    categories
}

/// Reads the lines of the character definitions: the ranges that they
/// map and the categories that they define.
fn read_char_lines<'a>(lines: &Vec<&'a str>) -> (read: Option<
    (Vec<(u16, u16, Vec<&'a str>)>, Vec<(String, CharCategory)>),
>)
    ensures
        match read {
            Some((ranges, defs)) => {
                &&& char_lines_ok(piece_bytes(lines@), lines@.len() as int)
                &&& range_views(ranges@) == char_ranges(piece_bytes(lines@), lines@.len() as int)
                &&& definition_views(defs@) == char_definitions(
                    piece_bytes(lines@),
                    lines@.len() as int,
                )
                &&& forall|i: int|
                    0 <= i < defs@.len() ==> (#[trigger] defs@[i]).1@.name == defs@[i].0@
            },
            None => !char_lines_ok(piece_bytes(lines@), lines@.len() as int),
        },
{
    let ghost all = piece_bytes(lines@);
    let mut ranges: Vec<(u16, u16, Vec<&'a str>)> = Vec::new();
    let mut defs: Vec<(String, CharCategory)> = Vec::new();
    let mut n: usize = 0;
    proof {
        assert(range_views(ranges@) =~= char_ranges(all, 0));
        assert(definition_views(defs@) =~= char_definitions(all, 0));
    }
    while n < lines.len()
        invariant
            n <= lines.len(),
            all == piece_bytes(lines@),
            char_lines_ok(all, n as int),
            range_views(ranges@) == char_ranges(all, n as int),
            definition_views(defs@) == char_definitions(all, n as int),
            forall|i: int| 0 <= i < defs@.len() ==> (#[trigger] defs@[i]).1@.name == defs@[i].0@,
        decreases lines.len() - n,
    {
        let line = lines[n];
        let bytes = line.as_bytes();
        assert(all[n as int] == line.spec_bytes());
        if bytes.len() == 0 || bytes[0] == 0x23 {
        } else if bytes.len() >= 2 && bytes[0] == 0x30 && bytes[1] == 0x78 {
            match parse_char_map(line) {
                Ok(range) => {
                    let ghost before = range_views(ranges@);
                    ranges.push(range);
                    assert(range_views(ranges@) =~= before.push(
                        (range.0, range.1, piece_bytes(range.2@)),
                    ));
                },
                Err(_) => {
                    proof {
                        lemma_char_lines_stay_bad(all, n + 1, all.len() as int);
                    }
                    return None;
                },
            }
        } else {
            match parse_category(line) {
                Ok(def) => {
                    let ghost before = definition_views(defs@);
                    defs.push(def);
                    assert(definition_views(defs@) =~= before.push(
                        (encode_utf8(def.0@), def.1@.invoke, def.1@.group, def.1@.length),
                    ));
                },
                Err(_) => {
                    proof {
                        lemma_char_lines_stay_bad(all, n + 1, all.len() as int);
                    }
                    return None;
                },
            }
        }
        n += 1;
    }
    Some((ranges, defs))
}

/// Builds the character table from the text of the character
/// definitions: lines that define a category, and lines that map a range
/// of code points to categories. Of two ranges that hold a code point,
/// the later one counts.
pub fn build_char_def(text: &str) -> (built: Result<CharTable, ArtifactError>)
    ensures
        match built {
            Ok(table) => char_table_of(text.spec_bytes()) == Some(table.slots()),
            Err(e) => char_table_of(text.spec_bytes()) is None && e is Malformed,
        },
{
    let lines = split_lines(text);
    let (ranges, defs) = match read_char_lines(&lines) {
        Some(read) => read,
        None => {
            return Err(ArtifactError::Malformed);
        },
    };
    let ghost rv = range_views(ranges@);
    let ghost dv = definition_views(defs@);
    let mut map: Vec<Vec<CharCategory>> = Vec::new();
    let mut code: usize = 0;
    while code < 0x10000
        invariant
            code <= 0x10000,
            map.len() == code,
            forall|c: int| 0 <= c < code ==> (#[trigger] map@[c])@.len() == 0,
        decreases 0x10000 - code,
    {
        map.push(Vec::new());
        code += 1;
    }
    let mut r: usize = 0;
    proof {
        assert forall|c: int| 0 <= c < 0x10000 implies category_views((#[trigger] map@[c])@)
            == slot_after(rv, dv, c, 0) by {
            assert(category_views(map@[c]@) =~= Seq::<CharCategoryView>::empty());
        }
    }
    while r < ranges.len()
        invariant
            r <= ranges.len(),
            rv == range_views(ranges@),
            dv == definition_views(defs@),
            map.len() == 0x10000,
            forall|i: int| 0 <= i < defs@.len() ==> (#[trigger] defs@[i]).1@.name == defs@[i].0@,
            forall|c: int|
                0 <= c < 0x10000 ==> category_views((#[trigger] map@[c])@) == slot_after(
                    rv,
                    dv,
                    c,
                    r as int,
                ),
        decreases ranges.len() - r,
    {
        let categories = resolve(&ranges[r].2, &defs);
        let lower: usize = ranges[r].0 as usize;
        let upper: usize = ranges[r].1 as usize;
        assert(rv[r as int] == (ranges@[r as int].0, ranges@[r as int].1, piece_bytes(
            ranges@[r as int].2@,
        )));
        let mut at: usize = lower;
        while at <= upper
            invariant
                lower <= at,
                lower > upper || at <= upper + 1,
                upper < 0x10000,
                r < ranges.len(),
                rv == range_views(ranges@),
                dv == definition_views(defs@),
                lower == rv[r as int].0,
                upper == rv[r as int].1,
                map.len() == 0x10000,
                category_views(categories@) == resolved(
                    rv[r as int].2,
                    dv,
                    rv[r as int].2.len() as int,
                ),
                forall|c: int|
                    0 <= c < 0x10000 ==> category_views((#[trigger] map@[c])@) == if lower <= c
                        < at {
                        slot_after(rv, dv, c, r + 1)
                    } else {
                        slot_after(rv, dv, c, r as int)
                    },
            decreases upper + 1 - at,
        {
            let ghost before = map@;
            map[at] = clone_categories(&categories);
            proof {
                assert forall|c: int| 0 <= c < 0x10000 implies category_views(
                    (#[trigger] map@[c])@,
                ) == if lower <= c < at + 1 {
                    slot_after(rv, dv, c, r + 1)
                } else {
                    slot_after(rv, dv, c, r as int)
                } by {
                    if c != at {
                        assert(map@[c] == before[c]);
                        assert(category_views(before[c]@) == if lower <= c < at {
                            slot_after(rv, dv, c, r + 1)
                        } else {
                            slot_after(rv, dv, c, r as int)
                        });
                    } else {
                        assert(rv[r + 1 - 1].0 <= c <= rv[r + 1 - 1].1);
                        assert(slot_after(rv, dv, c, r + 1) == resolved(
                            rv[r as int].2,
                            dv,
                            rv[r as int].2.len() as int,
                        ));
                    }
                }
            }
            at += 1;
        }
        r += 1;
    }
    let table = CharTable::new(map);
    proof {
        let all = piece_bytes(lines@);
        assert(table.slots() =~= char_table_of(text.spec_bytes())->0) by {
            assert forall|c: int| 0 <= c < 0x10000 implies table.slots()[c] == slot_after(
                rv,
                dv,
                c,
                rv.len() as int,
            ) by {
                assert(slot_views(map@)[c] == category_views(map@[c]@));
            }
        }
    }
    Ok(table)
}

/// The term of a row.
pub open spec fn term_of_row(row: RowBytes) -> Term {
    Term { context_id: row.left_id, cost: row.cost }
}

/// The rows that the first `n` lines read as, if each reads as a row.
pub open spec fn rows_of(lines: Seq<Seq<u8>>, n: int) -> Option<Seq<RowBytes>>
    decreases n,
{
    if n <= 0 {
        Some(Seq::empty())
    } else {
        match (rows_of(lines, n - 1), row_of(lines[n - 1])) {
            (Some(rows), Some(row)) => Some(rows.push(row)),
            _ => None,
        }
    }
}

/// The terms among the first `n` rows whose surface is `name`, each with
/// the number of its row.
pub open spec fn bucket_of_rows(rows: Seq<RowBytes>, name: Seq<u8>, n: int) -> Seq<(TermId, Term)>
    decreases n,
{
    if n <= 0 {
        Seq::empty()
    } else if rows[n - 1].surface_form == name {
        bucket_of_rows(rows, name, n - 1).push(((n - 1) as usize, term_of_row(rows[n - 1])))
    } else {
        bucket_of_rows(rows, name, n - 1)
    }
}

/// The features that a row describes, read from its bytes.
pub open spec fn feature_of_row(row: RowBytes) -> FeatureView {
    let first = match row.sub_part_of_speech1 {
        Some(tag) => seq![crate::pos::SubPartOfSpeech::from_name(decode_utf8(tag))],
        None => Seq::empty(),
    };
    let second = match row.sub_part_of_speech2 {
        Some(tag) => first.push(crate::pos::SubPartOfSpeech::from_name(decode_utf8(tag))),
        None => first,
    };
    FeatureView {
        part_of_speech: crate::pos::PartOfSpeech::from_name(decode_utf8(row.part_of_speech)),
        sub_part_of_speech: match row.sub_part_of_speech3 {
            Some(tag) => second.push(crate::pos::SubPartOfSpeech::from_name(decode_utf8(tag))),
            None => second,
        },
        conjugation_type: match row.conjugation_type {
            Some(tag) => Some(crate::conjugation::ConjugationType::from_name(decode_utf8(tag))),
            None => None,
        },
        conjugation_form: match row.conjugation_form {
            Some(tag) => Some(crate::conjugation::ConjugationForm::from_name(decode_utf8(tag))),
            None => None,
        },
        base_form: match row.base_form {
            Some(text) => Some(decode_utf8(text)),
            None => None,
        },
        reading: match row.reading {
            Some(text) => Some(decode_utf8(text)),
            None => None,
        },
    }
}

/// What a row gives read from its bytes is what it gives read as text.
pub proof fn lemma_feature_of_row(row: &Row)
    ensures
        feature_of_row(row.bytes()) == row.feature(),
{
    vstd::utf8::encode_utf8_decode_utf8(row.part_of_speech@);
    if let Some(tag) = row.sub_part_of_speech1 {
        vstd::utf8::encode_utf8_decode_utf8(tag@);
    }
    if let Some(tag) = row.sub_part_of_speech2 {
        vstd::utf8::encode_utf8_decode_utf8(tag@);
    }
    if let Some(tag) = row.sub_part_of_speech3 {
        vstd::utf8::encode_utf8_decode_utf8(tag@);
    }
    if let Some(tag) = row.conjugation_type {
        vstd::utf8::encode_utf8_decode_utf8(tag@);
    }
    if let Some(tag) = row.conjugation_form {
        vstd::utf8::encode_utf8_decode_utf8(tag@);
    }
    if let Some(text) = row.base_form {
        vstd::utf8::encode_utf8_decode_utf8(text@);
    }
    if let Some(text) = row.reading {
        vstd::utf8::encode_utf8_decode_utf8(text@);
    }
    assert(feature_of_row(row.bytes()).sub_part_of_speech =~= row.feature().sub_part_of_speech);
}

proof fn lemma_rows_stay_missing(lines: Seq<Seq<u8>>, n: int, m: int)
    requires
        0 <= n <= m,
        rows_of(lines, n) is None,
    ensures
        rows_of(lines, m) is None,
    decreases m - n,
{
    if n < m {
        lemma_rows_stay_missing(lines, n, m - 1);
    }
}

/// The surfaces of the first `n` rows, each once, in the order in which
/// they first occur.
pub open spec fn first_surfaces(rows: Seq<RowBytes>, n: int) -> Seq<Seq<u8>>
    decreases n,
{
    if n <= 0 {
        Seq::empty()
    } else if first_surfaces(rows, n - 1).contains(rows[n - 1].surface_form) {
        first_surfaces(rows, n - 1)
    } else {
        first_surfaces(rows, n - 1).push(rows[n - 1].surface_form)
    }
}

/// The names of a list of buckets, as bytes.
pub open spec fn bucket_names(entries: Seq<(Seq<char>, Seq<(TermId, Term)>)>) -> Seq<Seq<u8>> {
    entries.map_values(|e: (Seq<char>, Seq<(TermId, Term)>)| encode_utf8(e.0))
}

/// Whether buckets hold the first `n` rows: each bucket has the terms of
/// its name and is not empty, no two buckets share a name, and every
/// row is in a bucket.
pub open spec fn buckets_hold(
    entries: Seq<(Seq<char>, Seq<(TermId, Term)>)>,
    rows: Seq<RowBytes>,
    n: int,
) -> bool {
    &&& forall|e: int|
        0 <= e < entries.len() ==> (#[trigger] entries[e]).1 == bucket_of_rows(
            rows,
            encode_utf8(entries[e].0),
            n,
        ) && entries[e].1.len() > 0
    &&& forall|a: int, b: int|
        0 <= a < b < entries.len() ==> (#[trigger] entries[a]).0 != (#[trigger] entries[b]).0
    &&& forall|k: int|
        0 <= k < n ==> exists|e: int|
            0 <= e < entries.len() && encode_utf8((#[trigger] entries[e]).0)
                == (#[trigger] rows[k]).surface_form
}

/// Builds the unknown dictionary from the text of its definitions: a
/// row for each term, whose surface names the category. The id of a
/// term is the number of its line.
pub fn build_unk_dict(text: &str) -> (built: Result<UnknownDictionary, ArtifactError>)
    ensures
        match built {
            Ok(dict) => {
                let lines = lines_of(text.spec_bytes());
                &&& rows_of(lines, lines.len() as int) matches Some(rows) && buckets_hold(
                    dict.entries(),
                    rows,
                    rows.len() as int,
                ) && bucket_names(dict.entries()) == first_surfaces(rows, rows.len() as int)
                    && dict.features() == rows.map_values(|row: RowBytes| feature_of_row(row))
            },
            Err(e) => rows_of(
                lines_of(text.spec_bytes()),
                lines_of(text.spec_bytes()).len() as int,
            ) is None && e is Malformed,
        },
{
    let lines = split_lines(text);
    let ghost all = piece_bytes(lines@);
    let ghost mut rows: Seq<RowBytes> = Seq::empty();
    let mut entries: Vec<(String, Bucket)> = Vec::new();
    let mut features: Vec<Feature> = Vec::new();
    let mut id: usize = 0;
    proof {
        assert(feature_views(features@) =~= rows.map_values(|row: RowBytes| feature_of_row(row)));
        assert(bucket_names(bucket_views(entries@)) =~= first_surfaces(rows, 0));
    }
    while id < lines.len()
        invariant
            id <= lines.len(),
            all == piece_bytes(lines@),
            all == lines_of(text.spec_bytes()),
            rows_of(all, id as int) == Some(rows),
            rows.len() == id,
            buckets_hold(bucket_views(entries@), rows, id as int),
            bucket_names(bucket_views(entries@)) == first_surfaces(rows, id as int),
            feature_views(features@) == rows.map_values(|row: RowBytes| feature_of_row(row)),
        decreases lines.len() - id,
    {
        let line = lines[id];
        assert(all[id as int] == line.spec_bytes());
        let row = match Row::try_from(line) {
            Ok(row) => row,
            Err(_) => {
                proof {
                    lemma_rows_stay_missing(all, id + 1, all.len() as int);
                }
                return Err(ArtifactError::Malformed);
            },
        };
        let term = Term::from(&row);
        let ghost old_rows = rows;
        place_term(&mut entries, row.surface_form, id, term, Ghost(rows), Ghost(row.bytes()));
        let ghost old_features = feature_views(features@);
        features.push(Feature::from(&row));
        proof {
            lemma_first_surfaces_frame(rows, row.bytes(), id as int);
            rows = rows.push(row.bytes());
            lemma_feature_of_row(&row);
            assert(feature_views(features@) =~= old_features.push(feature_of_row(row.bytes())));
            assert(rows.map_values(|row: RowBytes| feature_of_row(row)) =~= old_rows.map_values(
                |row: RowBytes| feature_of_row(row),
            ).push(feature_of_row(row.bytes())));
        }
        id += 1;
    }
    Ok(UnknownDictionary::new(entries, features))
}

/// Puts a term into the bucket of its name, which is made where there is
/// none yet.
fn place_term(
    entries: &mut Vec<(String, Bucket)>,
    name: &str,
    id: usize,
    term: Term,
    Ghost(rows): Ghost<Seq<RowBytes>>,
    Ghost(row): Ghost<RowBytes>,
)
    requires
        rows.len() == id,
        row.surface_form == name.spec_bytes(),
        term == term_of_row(row),
        buckets_hold(bucket_views(old(entries)@), rows, id as int),
    ensures
        buckets_hold(bucket_views(final(entries)@), rows.push(row), id + 1),
        bucket_names(bucket_views(final(entries)@)) == if bucket_names(
            bucket_views(old(entries)@),
        ).contains(row.surface_form) {
            bucket_names(bucket_views(old(entries)@))
        } else {
            bucket_names(bucket_views(old(entries)@)).push(row.surface_form)
        },
{
    let ghost old_entries = bucket_views(entries@);
    let ghost key = name.spec_bytes();
    let mut e: usize = 0;
    let mut placed: bool = false;
    while e < entries.len() && !placed
        invariant
            e <= entries.len(),
            key == name.spec_bytes(),
            old_entries == bucket_views(entries@),
            !placed ==> forall|a: int|
                0 <= a < e ==> encode_utf8((#[trigger] old_entries[a]).0) != key,
            placed ==> e < entries.len() && encode_utf8(old_entries[e as int].0) == key,
        decreases entries.len() - e + if placed { 0int } else { 1int },
    {
        assert(old_entries[e as int].0 == entries@[e as int].0@);
        if same_text(entries[e].0.as_str(), name) {
            placed = true;
        } else {
            e += 1;
        }
    }
    if placed {
        entries[e].1.push((id, term));
        proof {
            let now = bucket_views(entries@);
            assert(now.len() == old_entries.len());
            assert forall|a: int| 0 <= a < now.len() implies (#[trigger] now[a]).0
                == old_entries[a].0 && now[a].1 == if a == e {
                old_entries[a].1.push((id, term))
            } else {
                old_entries[a].1
            } by {}
            lemma_buckets_placed(old_entries, now, rows, row, Some(e as int));
            assert(bucket_names(now) =~= bucket_names(old_entries));
            assert(bucket_names(old_entries)[e as int] == row.surface_form);
        }
    } else {
        let mut bucket: Bucket = Vec::new();
        bucket.push((id, term));
        entries.push((name.to_owned(), bucket));
        proof {
            let now = bucket_views(entries@);
            assert(now.len() == old_entries.len() + 1);
            assert forall|a: int| 0 <= a < old_entries.len() implies (#[trigger] now[a])
                == old_entries[a] by {}
            assert(now[now.len() - 1].1 =~= seq![(id, term)]);
            lemma_buckets_placed(old_entries, now, rows, row, None);
            assert(bucket_names(now) =~= bucket_names(old_entries).push(row.surface_form));
            assert(!bucket_names(old_entries).contains(row.surface_form)) by {
                if bucket_names(old_entries).contains(row.surface_form) {
                    let a = choose|a: int|
                        0 <= a < bucket_names(old_entries).len() && bucket_names(old_entries)[a]
                            == row.surface_form;
                    assert(encode_utf8(old_entries[a].0) == key);
                }
            }
        }
    }
}

proof fn lemma_buckets_placed(
    old_entries: Seq<(Seq<char>, Seq<(TermId, Term)>)>,
    now: Seq<(Seq<char>, Seq<(TermId, Term)>)>,
    rows: Seq<RowBytes>,
    row: RowBytes,
    placed: Option<int>,
)
    requires
        buckets_hold(old_entries, rows, rows.len() as int),
        rows.len() <= usize::MAX,
        match placed {
            Some(e) => {
                &&& 0 <= e < old_entries.len()
                &&& encode_utf8(old_entries[e].0) == row.surface_form
                &&& now.len() == old_entries.len()
                &&& forall|a: int|
                    0 <= a < now.len() ==> (#[trigger] now[a]).0 == old_entries[a].0 && now[a].1
                        == if a == e {
                        old_entries[a].1.push((rows.len() as usize, term_of_row(row)))
                    } else {
                        old_entries[a].1
                    }
            },
            None => {
                &&& forall|a: int|
                    0 <= a < old_entries.len() ==> encode_utf8((#[trigger] old_entries[a]).0)
                        != row.surface_form
                &&& now.len() == old_entries.len() + 1
                &&& forall|a: int| 0 <= a < old_entries.len() ==> (#[trigger] now[a]) == old_entries[a]
                &&& encode_utf8(now[now.len() - 1].0) == row.surface_form
                &&& now[now.len() - 1].1 == seq![(rows.len() as usize, term_of_row(row))]
            },
        },
    ensures
        buckets_hold(now, rows.push(row), rows.len() as int + 1),
{
    let id = rows.len() as int;
    let more = rows.push(row);
    let name = row.surface_form;
    assert forall|a: int| 0 <= a < now.len() implies (#[trigger] now[a]).1 == bucket_of_rows(
        more,
        encode_utf8(now[a].0),
        id + 1,
    ) && now[a].1.len() > 0 by {
        lemma_bucket_extends(rows, row, encode_utf8(now[a].0));
        if a < old_entries.len() {
            assert(old_entries[a].1 == bucket_of_rows(rows, encode_utf8(old_entries[a].0), id));
            if placed is Some && a != placed->0 {
                vstd::utf8::encode_utf8_decode_utf8(old_entries[a].0);
                vstd::utf8::encode_utf8_decode_utf8(old_entries[placed->0].0);
            }
        } else {
            lemma_bucket_absent(rows, old_entries, name, id);
        }
    }
    assert forall|a: int, b: int| 0 <= a < b < now.len() implies (#[trigger] now[a]).0 != (
    #[trigger] now[b]).0 by {
        if b >= old_entries.len() {
            assert(encode_utf8(old_entries[a].0) != name);
        } else if placed is None {
            assert(now[a] == old_entries[a]);
            assert(now[b] == old_entries[b]);
        }
    }
    assert forall|k: int| 0 <= k < id + 1 implies exists|x: int|
        0 <= x < now.len() && encode_utf8((#[trigger] now[x]).0)
            == (#[trigger] more[k]).surface_form by {
        if k < id {
            assert(more[k] == rows[k]);
            let x = choose|x: int|
                0 <= x < old_entries.len() && encode_utf8((#[trigger] old_entries[x]).0)
                    == rows[k].surface_form;
            assert(now[x].0 == old_entries[x].0);
            assert(encode_utf8(now[x].0) == more[k].surface_form);
        } else {
            match placed {
                Some(e) => {
                    assert(encode_utf8(now[e].0) == more[k].surface_form);
                },
                None => {
                    assert(encode_utf8(now[now.len() - 1].0) == more[k].surface_form);
                },
            }
        }
    }
}

proof fn lemma_first_surfaces_frame(rows: Seq<RowBytes>, row: RowBytes, n: int)
    requires
        0 <= n <= rows.len(),
    ensures
        first_surfaces(rows.push(row), n) == first_surfaces(rows, n),
    decreases n,
{
    if n > 0 {
        lemma_first_surfaces_frame(rows, row, n - 1);
        assert(rows.push(row)[n - 1] == rows[n - 1]);
    }
}

proof fn lemma_bucket_extends(rows: Seq<RowBytes>, row: RowBytes, name: Seq<u8>)
    ensures
        bucket_of_rows(rows.push(row), name, rows.len() as int + 1) == if row.surface_form == name {
            bucket_of_rows(rows, name, rows.len() as int).push(
                (rows.len() as usize, term_of_row(row)),
            )
        } else {
            bucket_of_rows(rows, name, rows.len() as int)
        },
{
    lemma_bucket_frame(rows, row, name, rows.len() as int);
}

proof fn lemma_bucket_frame(rows: Seq<RowBytes>, row: RowBytes, name: Seq<u8>, n: int)
    requires
        0 <= n <= rows.len(),
    ensures
        bucket_of_rows(rows.push(row), name, n) == bucket_of_rows(rows, name, n),
    decreases n,
{
    if n > 0 {
        lemma_bucket_frame(rows, row, name, n - 1);
        assert(rows.push(row)[n - 1] == rows[n - 1]);
    }
}

proof fn lemma_bucket_absent(
    rows: Seq<RowBytes>,
    entries: Seq<(Seq<char>, Seq<(TermId, Term)>)>,
    name: Seq<u8>,
    n: int,
)
    requires
        0 <= n <= rows.len(),
        forall|a: int| 0 <= a < entries.len() ==> encode_utf8((#[trigger] entries[a]).0) != name,
        forall|k: int|
            0 <= k < n ==> exists|e: int|
                0 <= e < entries.len() && encode_utf8((#[trigger] entries[e]).0)
                    == (#[trigger] rows[k]).surface_form,
    ensures
        bucket_of_rows(rows, name, n).len() == 0,
    decreases n,
{
    if n > 0 {
        lemma_bucket_absent(rows, entries, name, n - 1);
        let e = choose|e: int|
            0 <= e < entries.len() && encode_utf8((#[trigger] entries[e]).0) == rows[n
                - 1].surface_form;
        assert(rows[n - 1].surface_form != name);
    }
}

/// The text that `encoding_rs` decodes from bytes in EUC-JP, or in the
/// encoding of the byte order mark that they begin with, if they do.
pub uninterp spec fn euc_jp_text(bytes: Seq<u8>) -> Seq<char>;

/// `encoding_rs::Encoding::decode` on `encoding_rs::EUC_JP`: the text of
/// the bytes, with a replacement character for what is not EUC-JP. Bytes
/// that begin with a byte order mark are read as the UTF-8 or UTF-16
/// that the mark stands for, and the mark is left out.
#[verifier::external_body]
fn decode_euc_jp(bytes: &[u8]) -> (text: String)
    ensures
        text@ == euc_jp_text(bytes@),
{
    encoding_rs::EUC_JP.decode(bytes).0.into_owned()
}

/// The text of a dictionary source, which is stored in EUC-JP. A source
/// that begins with a byte order mark is read as the mark says.
pub fn read_mecab_text(bytes: &[u8]) -> (text: String)
    ensures
        text@ == euc_jp_text(bytes@),
{
    decode_euc_jp(bytes)
}

/// The sizes in bytes of the five artifacts.
#[derive(Debug, Clone, Copy, PartialEq, Eq, Structural)]
pub struct SizeReport {
    pub char_def: usize,
    pub unk_dict: usize,
    pub cost_matrix: usize,
    pub entry_dict: usize,
    pub term_fst: usize,
}

impl SizeReport {
    /// The five sizes together.
    pub open spec fn sum(&self) -> int {
        self.char_def + self.unk_dict + self.cost_matrix + self.entry_dict + self.term_fst
    }

    /// The size of all artifacts together.
    pub fn total(&self) -> (total: usize)
        requires
            self.sum() <= usize::MAX,
        ensures
            total == self.sum(),
    {
        self.char_def + self.unk_dict + self.cost_matrix + self.entry_dict + self.term_fst
    }
}

} // verus!
