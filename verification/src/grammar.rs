//! The mail grammar as a mathematical function on byte sequences.
//!
//! Every parser of the library is proved to return exactly what the spec
//! functions of this module describe.  Positions are byte offsets into the
//! document; a parser either fails or returns the offset one past the text it
//! consumed, together with the value it recognized.

use vstd::prelude::*;

use crate::mesh_enums::CellType;
use crate::mesh_enums::spec_cell_type_of;
use crate::tokens::GroupType;
use crate::tokens::ParseError;
use crate::tokens::SpecCellProp;
use crate::tokens::SpecGroup;
use crate::tokens::SpecMailValue;
use crate::tokens::SpecNodeProp;
use crate::tokens::SpecParseOutput;

verus! {

// ---------------------------------------------------------------------------
// Character classes (ASCII)
// ---------------------------------------------------------------------------

/// Horizontal whitespace: space or tab.
pub open spec fn is_space_byte(b: u8) -> bool {
    b == 32 || b == 9
}

/// Any whitespace: space, tab, line feed or carriage return.
pub open spec fn is_multispace_byte(b: u8) -> bool {
    b == 32 || b == 9 || b == 10 || b == 13
}

/// A decimal digit.
pub open spec fn is_digit_byte(b: u8) -> bool {
    48 <= b <= 57
}

/// An ASCII letter.
pub open spec fn is_alpha_byte(b: u8) -> bool {
    (65 <= b <= 90) || (97 <= b <= 122)
}

/// A letter, digit or underscore: the continuation characters of a group
/// name.
pub open spec fn is_word_byte(b: u8) -> bool {
    is_alpha_byte(b) || is_digit_byte(b) || b == 95
}

// ---------------------------------------------------------------------------
// Scanners: the end of the maximal run of a character class
// ---------------------------------------------------------------------------

/// One past the maximal run of horizontal whitespace starting at `pos`.
pub open spec fn scan_spaces(s: Seq<u8>, pos: int) -> int
    decreases s.len() - pos,
    when 0 <= pos <= s.len()
{
    if pos < s.len() && is_space_byte(s[pos]) {
        scan_spaces(s, pos + 1)
    } else {
        pos
    }
}

/// One past the maximal run of whitespace (including line breaks) starting at
/// `pos`.
pub open spec fn scan_multispaces(s: Seq<u8>, pos: int) -> int
    decreases s.len() - pos,
    when 0 <= pos <= s.len()
{
    if pos < s.len() && is_multispace_byte(s[pos]) {
        scan_multispaces(s, pos + 1)
    } else {
        pos
    }
}

/// One past the maximal run of decimal digits starting at `pos`.
pub open spec fn scan_digits(s: Seq<u8>, pos: int) -> int
    decreases s.len() - pos,
    when 0 <= pos <= s.len()
{
    if pos < s.len() && is_digit_byte(s[pos]) {
        scan_digits(s, pos + 1)
    } else {
        pos
    }
}

/// One past the maximal run of group-name characters starting at `pos`.
pub open spec fn scan_word(s: Seq<u8>, pos: int) -> int
    decreases s.len() - pos,
    when 0 <= pos <= s.len()
{
    if pos < s.len() && is_word_byte(s[pos]) {
        scan_word(s, pos + 1)
    } else {
        pos
    }
}

/// One past the maximal run of bytes other than a line feed starting at
/// `pos`: the body of a comment.
pub open spec fn scan_not_newline(s: Seq<u8>, pos: int) -> int
    decreases s.len() - pos,
    when 0 <= pos <= s.len()
{
    if pos < s.len() && s[pos] != 10 {
        scan_not_newline(s, pos + 1)
    } else {
        pos
    }
}

/// A scanner never moves backwards and never runs past the end.
pub proof fn lemma_scan_bounds(s: Seq<u8>, pos: int)
    requires
        0 <= pos <= s.len(),
    ensures
        pos <= scan_spaces(s, pos) <= s.len(),
        pos <= scan_multispaces(s, pos) <= s.len(),
        pos <= scan_digits(s, pos) <= s.len(),
        pos <= scan_word(s, pos) <= s.len(),
        pos <= scan_not_newline(s, pos) <= s.len(),
    decreases s.len() - pos,
{
    if pos < s.len() {
        lemma_scan_bounds(s, pos + 1);
    }
}

// ---------------------------------------------------------------------------
// Literals
// ---------------------------------------------------------------------------

/// Matches the exact byte sequence `lit` at `pos`.
pub open spec fn spec_lit(s: Seq<u8>, pos: int, lit: Seq<u8>) -> Option<int> {
    if pos + lit.len() <= s.len() && s.subrange(pos, pos + lit.len()) == lit {
        Some(pos + lit.len())
    } else {
        None
    }
}

/// The section terminator `FINSF`.
pub open spec fn finsf_tag() -> Seq<u8> {
    seq![70u8, 73, 78, 83, 70]
}

/// The node-section header `COOR_3D`.
pub open spec fn coor_3d_tag() -> Seq<u8> {
    seq![67u8, 79, 79, 82, 95, 51, 68]
}

/// The node-group section header `GROUP_NO`.
pub open spec fn group_no_tag() -> Seq<u8> {
    seq![71u8, 82, 79, 85, 80, 95, 78, 79]
}

/// The cell-group section header `GROUP_MA`.
pub open spec fn group_ma_tag() -> Seq<u8> {
    seq![71u8, 82, 79, 85, 80, 95, 77, 65]
}

/// Matches the keyword `NOM` at `pos`, case-insensitively.
pub open spec fn spec_nom_keyword(s: Seq<u8>, pos: int) -> Option<int> {
    if pos + 3 <= s.len() && (s[pos] == 78 || s[pos] == 110) && (s[pos + 1] == 79 || s[pos + 1]
        == 111) && (s[pos + 2] == 77 || s[pos + 2] == 109) {
        Some(pos + 3)
    } else {
        None
    }
}

// ---------------------------------------------------------------------------
// Line tokens
// ---------------------------------------------------------------------------

/// A line terminator: a line feed, or a carriage return followed by a line
/// feed.
pub open spec fn spec_line_ending(s: Seq<u8>, pos: int) -> Option<int> {
    if pos < s.len() && s[pos] == 10 {
        Some(pos + 1)
    } else if pos + 1 < s.len() && s[pos] == 13 && s[pos + 1] == 10 {
        Some(pos + 2)
    } else {
        None
    }
}

/// An optional `%` comment running to the end of the line (its body must be
/// non-empty), followed by a mandatory line terminator.
pub open spec fn spec_comment_or_line_ending(s: Seq<u8>, pos: int) -> Option<int>
    recommends
        0 <= pos <= s.len(),
{
    if pos < s.len() && s[pos] == 37 {
        let body_end = scan_not_newline(s, pos + 1);
        if body_end > pos + 1 {
            spec_line_ending(s, body_end)
        } else {
            // An empty comment body does not match; neither does the `%`
            // itself match a line terminator.
            None
        }
    } else {
        spec_line_ending(s, pos)
    }
}

/// A useless line: optional horizontal whitespace, then an optional comment
/// and a line terminator.
pub open spec fn spec_useless_line(s: Seq<u8>, pos: int) -> Option<int>
    recommends
        0 <= pos <= s.len(),
{
    spec_comment_or_line_ending(s, scan_spaces(s, pos))
}

/// A successful line token always consumes at least one byte.
pub proof fn lemma_line_token_bounds(s: Seq<u8>, pos: int)
    requires
        0 <= pos <= s.len(),
    ensures
        spec_line_ending(s, pos) matches Some(p) ==> pos < p <= s.len(),
        spec_comment_or_line_ending(s, pos) matches Some(p) ==> pos < p <= s.len(),
        spec_useless_line(s, pos) matches Some(p) ==> pos < p <= s.len(),
{
    lemma_scan_bounds(s, pos);
    if pos < s.len() && s[pos] == 37 {
        lemma_scan_bounds(s, pos + 1);
    }
    let sp = scan_spaces(s, pos);
    if sp < s.len() && s[sp] == 37 {
        lemma_scan_bounds(s, sp + 1);
    }
}

/// One past any number of useless lines starting at `pos`.
pub open spec fn spec_skip_useless_lines(s: Seq<u8>, pos: int) -> int
    decreases s.len() - pos,
    when 0 <= pos <= s.len()
{
    match spec_useless_line(s, pos) {
        Some(p) => {
            proof {
                lemma_line_token_bounds(s, pos);
            }
            spec_skip_useless_lines(s, p)
        },
        None => pos,
    }
}

/// One past any number of comment-or-line-ending tokens starting at `pos`.
pub open spec fn spec_skip_line_endings(s: Seq<u8>, pos: int) -> int
    decreases s.len() - pos,
    when 0 <= pos <= s.len()
{
    match spec_comment_or_line_ending(s, pos) {
        Some(p) => {
            proof {
                lemma_line_token_bounds(s, pos);
            }
            spec_skip_line_endings(s, p)
        },
        None => pos,
    }
}

/// Skipping lines never moves backwards and never runs past the end.
pub proof fn lemma_skip_bounds(s: Seq<u8>, pos: int)
    requires
        0 <= pos <= s.len(),
    ensures
        pos <= spec_skip_useless_lines(s, pos) <= s.len(),
        pos <= spec_skip_line_endings(s, pos) <= s.len(),
    decreases s.len() - pos,
{
    lemma_line_token_bounds(s, pos);
    match spec_useless_line(s, pos) {
        Some(p) => lemma_skip_bounds(s, p),
        None => (),
    }
    match spec_comment_or_line_ending(s, pos) {
        Some(p) => lemma_skip_bounds(s, p),
        None => (),
    }
}

// ---------------------------------------------------------------------------
// Name and number tokens
// ---------------------------------------------------------------------------

/// A node or cell name: one letter followed by one or more digits.
pub open spec fn spec_name_token(s: Seq<u8>, pos: int) -> Option<int>
    recommends
        0 <= pos <= s.len(),
{
    if pos < s.len() && is_alpha_byte(s[pos]) {
        let e = scan_digits(s, pos + 1);
        if e > pos + 1 {
            Some(e)
        } else {
            None
        }
    } else {
        None
    }
}

/// A group name: one letter followed by any run of letters, digits and
/// underscores.
pub open spec fn spec_group_name_token(s: Seq<u8>, pos: int) -> Option<int>
    recommends
        0 <= pos <= s.len(),
{
    if pos < s.len() && is_alpha_byte(s[pos]) {
        Some(scan_word(s, pos + 1))
    } else {
        None
    }
}

/// An optional `+` or `-` sign.
pub open spec fn skip_sign(s: Seq<u8>, pos: int) -> int {
    if pos < s.len() && (s[pos] == 43 || s[pos] == 45) {
        pos + 1
    } else {
        pos
    }
}

/// The mantissa of a float literal: either digits with an optional fraction,
/// or a fraction alone.
pub open spec fn spec_float_mantissa(s: Seq<u8>, pos: int) -> Option<int>
    recommends
        0 <= pos <= s.len(),
{
    if pos < s.len() && is_digit_byte(s[pos]) {
        let d = scan_digits(s, pos);
        if d < s.len() && s[d] == 46 {
            Some(scan_digits(s, d + 1))
        } else {
            Some(d)
        }
    } else if pos + 1 < s.len() && s[pos] == 46 && is_digit_byte(s[pos + 1]) {
        Some(scan_digits(s, pos + 1))
    } else {
        None
    }
}

/// A float literal: an optional sign, a mantissa, and an optional well-formed
/// exponent (`e` or `E`, an optional sign, one or more digits).  A malformed
/// exponent is left unconsumed rather than failing the literal.
pub open spec fn spec_float_token(s: Seq<u8>, pos: int) -> Option<int>
    recommends
        0 <= pos <= s.len(),
{
    let p = skip_sign(s, pos);
    match spec_float_mantissa(s, p) {
        Some(m) => {
            if m < s.len() && (s[m] == 101 || s[m] == 69) {
                let q = skip_sign(s, m + 1);
                let e = scan_digits(s, q);
                if e > q {
                    Some(e)
                } else {
                    Some(m)
                }
            } else {
                Some(m)
            }
        },
        None => None,
    }
}

/// A successful name or float token always advances and stays in bounds.
pub proof fn lemma_token_bounds(s: Seq<u8>, pos: int)
    requires
        0 <= pos <= s.len(),
    ensures
        spec_name_token(s, pos) matches Some(p) ==> pos + 2 <= p <= s.len(),
        spec_group_name_token(s, pos) matches Some(p) ==> pos < p <= s.len(),
        spec_float_token(s, pos) matches Some(p) ==> pos < p <= s.len(),
{
    if pos < s.len() {
        lemma_scan_bounds(s, pos + 1);
    }
    let q = skip_sign(s, pos);
    if q <= s.len() {
        lemma_scan_bounds(s, q);
        if q < s.len() && is_digit_byte(s[q]) {
            let d = scan_digits(s, q);
            lemma_scan_digits_progress(s, q);
            if d < s.len() && s[d] == 46 {
                lemma_scan_bounds(s, d + 1);
            }
        }
        if q + 1 < s.len() && s[q] == 46 && is_digit_byte(s[q + 1]) {
            lemma_scan_bounds(s, q + 1);
            lemma_scan_digits_progress(s, q + 1);
        }
        match spec_float_mantissa(s, q) {
            Some(m) => {
                if m < s.len() && (s[m] == 101 || s[m] == 69) {
                    let q2 = skip_sign(s, m + 1);
                    if q2 <= s.len() {
                        lemma_scan_bounds(s, q2);
                    }
                }
            },
            None => (),
        }
    }
}

/// A digit run starting on a digit advances by at least one.
pub proof fn lemma_scan_digits_progress(s: Seq<u8>, pos: int)
    requires
        0 <= pos < s.len(),
        is_digit_byte(s[pos]),
    ensures
        scan_digits(s, pos) > pos,
{
    lemma_scan_bounds(s, pos + 1);
}

/// One past the maximal run of ASCII letters starting at `pos`.
pub open spec fn scan_alphas(s: Seq<u8>, pos: int) -> int
    decreases s.len() - pos,
    when 0 <= pos <= s.len()
{
    if pos < s.len() && is_alpha_byte(s[pos]) {
        scan_alphas(s, pos + 1)
    } else {
        pos
    }
}

// ---------------------------------------------------------------------------
// Node descriptions
// ---------------------------------------------------------------------------

/// Three whitespace-separated float literals, with optional horizontal
/// whitespace around them.  Yields the three literals and the end position.
pub open spec fn spec_node_3d_coords(s: Seq<u8>, pos: int) -> Option<(Seq<u8>, Seq<u8>, Seq<u8>, int)>
    recommends
        0 <= pos <= s.len(),
{
    let p0 = scan_spaces(s, pos);
    match spec_float_token(s, p0) {
        Some(px) => {
            let p1 = scan_multispaces(s, px);
            if p1 > px {
                match spec_float_token(s, p1) {
                    Some(py) => {
                        let p2 = scan_multispaces(s, py);
                        if p2 > py {
                            match spec_float_token(s, p2) {
                                Some(pz) => Some(
                                    (
                                        s.subrange(p0, px),
                                        s.subrange(p1, py),
                                        s.subrange(p2, pz),
                                        scan_spaces(s, pz),
                                    ),
                                ),
                                None => None,
                            }
                        } else {
                            None
                        }
                    },
                    None => None,
                }
            } else {
                None
            }
        },
        None => None,
    }
}

/// A coordinate triple advances and stays in bounds.
pub proof fn lemma_coords_bounds(s: Seq<u8>, pos: int)
    requires
        0 <= pos <= s.len(),
    ensures
        spec_node_3d_coords(s, pos) matches Some(c) ==> pos < c.3 <= s.len(),
{
    lemma_scan_bounds(s, pos);
    let p0 = scan_spaces(s, pos);
    lemma_token_bounds(s, p0);
    match spec_float_token(s, p0) {
        Some(px) => {
            lemma_scan_bounds(s, px);
            let p1 = scan_multispaces(s, px);
            lemma_token_bounds(s, p1);
            match spec_float_token(s, p1) {
                Some(py) => {
                    lemma_scan_bounds(s, py);
                    let p2 = scan_multispaces(s, py);
                    lemma_token_bounds(s, p2);
                    match spec_float_token(s, p2) {
                        Some(pz) => {
                            lemma_scan_bounds(s, pz);
                        },
                        None => (),
                    }
                },
                None => (),
            }
        },
        None => (),
    }
}

/// One node description: a name, then three coordinates, then any trailing
/// whitespace (which may run onto following lines).
pub open spec fn spec_node_description(s: Seq<u8>, pos: int) -> Option<(SpecNodeProp, int)>
    recommends
        0 <= pos <= s.len(),
{
    let p0 = scan_spaces(s, pos);
    match spec_name_token(s, p0) {
        Some(pn) => {
            let p1 = scan_spaces(s, pn);
            match spec_node_3d_coords(s, p1) {
                Some(c) => Some(
                    (
                        SpecNodeProp { name: Some(s.subrange(p0, pn)), x: c.0, y: c.1, z: c.2 },
                        scan_multispaces(s, c.3),
                    ),
                ),
                None => None,
            }
        },
        None => None,
    }
}

/// A node description advances and stays in bounds.
pub proof fn lemma_node_description_bounds(s: Seq<u8>, pos: int)
    requires
        0 <= pos <= s.len(),
    ensures
        spec_node_description(s, pos) matches Some(r) ==> pos < r.1 <= s.len(),
{
    lemma_scan_bounds(s, pos);
    let p0 = scan_spaces(s, pos);
    lemma_token_bounds(s, p0);
    match spec_name_token(s, p0) {
        Some(pn) => {
            lemma_scan_bounds(s, pn);
            let p1 = scan_spaces(s, pn);
            lemma_coords_bounds(s, p1);
            match spec_node_3d_coords(s, p1) {
                Some(c) => {
                    lemma_scan_bounds(s, c.3);
                },
                None => (),
            }
        },
        None => (),
    }
}

/// Zero or more node descriptions, each preceded by optional whitespace.
/// Yields the records and the position after the last one (the position
/// before the whitespace that precedes a failed attempt is restored).
pub open spec fn spec_node_descs(s: Seq<u8>, pos: int) -> (Seq<SpecNodeProp>, int)
    decreases s.len() - pos,
    when 0 <= pos <= s.len()
{
    let q = scan_multispaces(s, pos);
    match spec_node_description(s, q) {
        Some(r) => {
            proof {
                lemma_scan_bounds(s, pos);
                lemma_node_description_bounds(s, q);
            }
            let rest = spec_node_descs(s, r.1);
            (seq![r.0] + rest.0, rest.1)
        },
        None => (Seq::empty(), pos),
    }
}

/// A node-description list never moves backwards and never runs past the
/// end.
pub proof fn lemma_node_descs_bounds(s: Seq<u8>, pos: int)
    requires
        0 <= pos <= s.len(),
    ensures
        pos <= spec_node_descs(s, pos).1 <= s.len(),
    decreases s.len() - pos,
{
    lemma_scan_bounds(s, pos);
    let q = scan_multispaces(s, pos);
    lemma_node_description_bounds(s, q);
    match spec_node_description(s, q) {
        Some(r) => {
            lemma_node_descs_bounds(s, r.1);
        },
        None => (),
    }
}

// ---------------------------------------------------------------------------
// Cell descriptions
// ---------------------------------------------------------------------------

/// Exactly `k` names, each preceded by at least one whitespace byte.
pub open spec fn spec_fixed_names(s: Seq<u8>, pos: int, k: nat) -> Option<(Seq<Seq<u8>>, int)>
    decreases k,
{
    if k == 0 {
        Some((Seq::empty(), pos))
    } else {
        let q = scan_multispaces(s, pos);
        if q > pos {
            match spec_name_token(s, q) {
                Some(pn) => {
                    match spec_fixed_names(s, pn, (k - 1) as nat) {
                        Some(r) => Some((seq![s.subrange(q, pn)] + r.0, r.1)),
                        None => None,
                    }
                },
                None => None,
            }
        } else {
            None
        }
    }
}

/// A fixed-width name read yields exactly `k` names and stays in bounds.
pub proof fn lemma_fixed_names_bounds(s: Seq<u8>, pos: int, k: nat)
    requires
        0 <= pos <= s.len(),
    ensures
        spec_fixed_names(s, pos, k) matches Some(r) ==> pos <= r.1 <= s.len() && r.0.len() == k,
    decreases k,
{
    if k > 0 {
        lemma_scan_bounds(s, pos);
        let q = scan_multispaces(s, pos);
        lemma_token_bounds(s, q);
        match spec_name_token(s, q) {
            Some(pn) => {
                lemma_fixed_names_bounds(s, pn, (k - 1) as nat);
            },
            None => (),
        }
    }
}

/// One cell description: the cell's name, then exactly `arity` node names,
/// then any trailing whitespace.
pub open spec fn spec_cell_description(s: Seq<u8>, pos: int, t: CellType) -> Option<
    (SpecCellProp, int),
>
    recommends
        0 <= pos <= s.len(),
{
    match spec_name_token(s, pos) {
        Some(pn) => {
            match spec_fixed_names(s, pn, t.spec_arity()) {
                Some(r) => Some(
                    (
                        SpecCellProp {
                            cell_type: t,
                            name: Some(s.subrange(pos, pn)),
                            nodes: r.0,
                        },
                        scan_multispaces(s, r.1),
                    ),
                ),
                None => None,
            }
        },
        None => None,
    }
}

/// A cell description advances and stays in bounds.
pub proof fn lemma_cell_description_bounds(s: Seq<u8>, pos: int, t: CellType)
    requires
        0 <= pos <= s.len(),
    ensures
        spec_cell_description(s, pos, t) matches Some(r) ==> pos < r.1 <= s.len()
            && r.0.nodes.len() == t.spec_arity(),
{
    lemma_token_bounds(s, pos);
    match spec_name_token(s, pos) {
        Some(pn) => {
            lemma_fixed_names_bounds(s, pn, t.spec_arity());
            match spec_fixed_names(s, pn, t.spec_arity()) {
                Some(r) => {
                    lemma_scan_bounds(s, r.1);
                },
                None => (),
            }
        },
        None => (),
    }
}

/// Zero or more cell descriptions, each preceded by optional whitespace.
pub open spec fn spec_cell_descs(s: Seq<u8>, pos: int, t: CellType) -> (Seq<SpecCellProp>, int)
    decreases s.len() - pos,
    when 0 <= pos <= s.len()
{
    let q = scan_multispaces(s, pos);
    match spec_cell_description(s, q, t) {
        Some(r) => {
            proof {
                lemma_scan_bounds(s, pos);
                lemma_cell_description_bounds(s, q, t);
            }
            let rest = spec_cell_descs(s, r.1, t);
            (seq![r.0] + rest.0, rest.1)
        },
        None => (Seq::empty(), pos),
    }
}

/// A cell-description list never moves backwards and never runs past the
/// end.
pub proof fn lemma_cell_descs_bounds(s: Seq<u8>, pos: int, t: CellType)
    requires
        0 <= pos <= s.len(),
    ensures
        pos <= spec_cell_descs(s, pos, t).1 <= s.len(),
    decreases s.len() - pos,
{
    lemma_scan_bounds(s, pos);
    let q = scan_multispaces(s, pos);
    lemma_cell_description_bounds(s, q, t);
    match spec_cell_description(s, q, t) {
        Some(r) => {
            lemma_cell_descs_bounds(s, r.1, t);
        },
        None => (),
    }
}

// ---------------------------------------------------------------------------
// Section headers
// ---------------------------------------------------------------------------

/// The taxonomy in the order the grammar tries its section-header literals.
pub open spec fn all_cell_types() -> Seq<CellType> {
    seq![
        CellType::POI1,
        CellType::SEG2,
        CellType::SEG3,
        CellType::SEG4,
        CellType::TRIA3,
        CellType::TRIA6,
        CellType::TRIA7,
        CellType::QUAD4,
        CellType::QUAD8,
        CellType::QUAD9,
        CellType::HEXA8,
        CellType::HEXA20,
        CellType::HEXA27,
        CellType::PENTA6,
        CellType::PENTA15,
        CellType::PENTA18,
        CellType::TETRA4,
        CellType::TETRA10,
        CellType::PYRAM5,
        CellType::PYRAM13,
    ]
}

/// Tries the section-header literal of each listed cell type in turn.
pub open spec fn spec_try_tags(s: Seq<u8>, pos: int, ts: Seq<CellType>) -> Option<(CellType, int)>
    decreases ts.len(),
{
    if ts.len() == 0 {
        None
    } else {
        match spec_lit(s, pos, ts[0].spec_tag()) {
            Some(p) => Some((ts[0], p)),
            None => spec_try_tags(s, pos, ts.drop_first()),
        }
    }
}

/// A recognized cell-type literal and the position after it.
pub open spec fn spec_cell_type_tag(s: Seq<u8>, pos: int) -> Option<(CellType, int)> {
    spec_try_tags(s, pos, all_cell_types())
}

/// A matched header literal advances and stays in bounds.
pub proof fn lemma_try_tags_bounds(s: Seq<u8>, pos: int, ts: Seq<CellType>)
    requires
        0 <= pos <= s.len(),
    ensures
        spec_try_tags(s, pos, ts) matches Some(r) ==> pos < r.1 <= s.len(),
    decreases ts.len(),
{
    if ts.len() > 0 {
        match spec_lit(s, pos, ts[0].spec_tag()) {
            Some(_) => {
                assert(ts[0].spec_tag().len() >= 1);
            },
            None => {
                lemma_try_tags_bounds(s, pos, ts.drop_first());
            },
        }
    }
}

// ---------------------------------------------------------------------------
// Sections
// ---------------------------------------------------------------------------

/// A node-coordinate section: `COOR_3D`, at least one line break, node
/// descriptions, trailing useless content, `FINSF`.
pub open spec fn spec_node_3d_section(s: Seq<u8>, pos: int) -> Option<(Seq<SpecNodeProp>, int)>
    recommends
        0 <= pos <= s.len(),
{
    let p0 = scan_spaces(s, pos);
    match spec_lit(s, p0, coor_3d_tag()) {
        Some(pt) => {
            let p1 = scan_spaces(s, pt);
            match spec_comment_or_line_ending(s, p1) {
                Some(pl) => {
                    let p2 = spec_skip_line_endings(s, pl);
                    let body = spec_node_descs(s, p2);
                    let p3 = spec_skip_line_endings(s, body.1);
                    match spec_lit(s, p3, finsf_tag()) {
                        Some(pe) => Some((body.0, pe)),
                        None => None,
                    }
                },
                None => None,
            }
        },
        None => None,
    }
}

/// A cell section: a recognized cell-type literal, cell descriptions of that
/// type, trailing useless content, `FINSF`.
pub open spec fn spec_cell_section(s: Seq<u8>, pos: int) -> Option<(Seq<SpecCellProp>, int)>
    recommends
        0 <= pos <= s.len(),
{
    let p0 = scan_spaces(s, pos);
    match spec_cell_type_tag(s, p0) {
        Some(tr) => {
            let p1 = scan_spaces(s, tr.1);
            let body = spec_cell_descs(s, p1, tr.0);
            let p2 = spec_skip_line_endings(s, body.1);
            match spec_lit(s, p2, finsf_tag()) {
                Some(pe) => Some((body.0, pe)),
                None => None,
            }
        },
        None => None,
    }
}

/// Zero or more group member names, each preceded by at least one whitespace
/// byte.
pub open spec fn spec_group_elems(s: Seq<u8>, pos: int) -> (Seq<Seq<u8>>, int)
    decreases s.len() - pos,
    when 0 <= pos <= s.len()
{
    let q = scan_multispaces(s, pos);
    if q > pos {
        match spec_name_token(s, q) {
            Some(pn) => {
                proof {
                    lemma_scan_bounds(s, pos);
                    lemma_token_bounds(s, q);
                }
                let rest = spec_group_elems(s, pn);
                (seq![s.subrange(q, pn)] + rest.0, rest.1)
            },
            None => (Seq::empty(), pos),
        }
    } else {
        (Seq::empty(), pos)
    }
}

/// A group member list never moves backwards and never runs past the end.
pub proof fn lemma_group_elems_bounds(s: Seq<u8>, pos: int)
    requires
        0 <= pos <= s.len(),
    ensures
        pos <= spec_group_elems(s, pos).1 <= s.len(),
    decreases s.len() - pos,
{
    lemma_scan_bounds(s, pos);
    let q = scan_multispaces(s, pos);
    lemma_token_bounds(s, q);
    if q > pos {
        match spec_name_token(s, q) {
            Some(pn) => {
                lemma_group_elems_bounds(s, pn);
            },
            None => (),
        }
    }
}

/// The body of a group section: an optional `NOM =` prefix, the group name,
/// the member names, trailing useless content, `FINSF`.
pub open spec fn spec_group_description(s: Seq<u8>, pos: int, gt: GroupType) -> Option<
    (SpecGroup, int),
>
    recommends
        0 <= pos <= s.len(),
{
    let p0 = scan_spaces(s, pos);
    let p1 = match spec_nom_keyword(s, p0) {
        Some(pn) => {
            let pe = scan_spaces(s, pn);
            if pe < s.len() && s[pe] == 61 {
                pe + 1
            } else {
                // Without the `=`, the whole optional prefix is left
                // unconsumed.
                p0
            }
        },
        None => p0,
    };
    let p2 = scan_spaces(s, p1);
    match spec_group_name_token(s, p2) {
        Some(pg) => {
            let p3 = spec_skip_line_endings(s, pg);
            let body = spec_group_elems(s, p3);
            let p4 = spec_skip_line_endings(s, body.1);
            let p5 = scan_multispaces(s, p4);
            match spec_lit(s, p5, finsf_tag()) {
                Some(pe) => Some(
                    ((SpecGroup { group_type: gt, name: s.subrange(p2, pg), elems: body.0 }), pe),
                ),
                None => None,
            }
        },
        None => None,
    }
}

/// A group section: `GROUP_NO` or `GROUP_MA`, optional useless content, then
/// the group description.
pub open spec fn spec_group_section(s: Seq<u8>, pos: int) -> Option<(SpecGroup, int)>
    recommends
        0 <= pos <= s.len(),
{
    let p0 = scan_spaces(s, pos);
    let header = match spec_lit(s, p0, group_no_tag()) {
        Some(p) => Some((GroupType::Node, p)),
        None => match spec_lit(s, p0, group_ma_tag()) {
            Some(p) => Some((GroupType::Cell, p)),
            None => None,
        },
    };
    match header {
        Some(h) => {
            let p1 = scan_multispaces(s, h.1);
            let p2 = spec_skip_line_endings(s, p1);
            let p3 = scan_multispaces(s, p2);
            spec_group_description(s, p3, h.0)
        },
        None => None,
    }
}

/// Any one section, tried in the grammar's order: node coordinates, cells,
/// then groups.
pub open spec fn spec_section(s: Seq<u8>, pos: int) -> Option<(SpecMailValue, int)>
    recommends
        0 <= pos <= s.len(),
{
    match spec_node_3d_section(s, pos) {
        Some(r) => Some((SpecMailValue::NodeElts(r.0), r.1)),
        None => match spec_cell_section(s, pos) {
            Some(r) => Some((SpecMailValue::Cells(r.0), r.1)),
            None => match spec_group_section(s, pos) {
                Some(r) => Some((SpecMailValue::Group(r.0), r.1)),
                None => None,
            },
        },
    }
}

/// A parsed section always ends strictly after its start, within bounds.
pub proof fn lemma_section_bounds(s: Seq<u8>, pos: int)
    requires
        0 <= pos <= s.len(),
    ensures
        spec_node_3d_section(s, pos) matches Some(r) ==> pos < r.1 <= s.len(),
        spec_cell_section(s, pos) matches Some(r) ==> pos < r.1 <= s.len(),
        spec_group_section(s, pos) matches Some(r) ==> pos < r.1 <= s.len(),
        spec_section(s, pos) matches Some(r) ==> pos < r.1 <= s.len(),
{
    lemma_scan_bounds(s, pos);
    let p0 = scan_spaces(s, pos);
    // Node section positions.
    match spec_lit(s, p0, coor_3d_tag()) {
        Some(pt) => {
            lemma_scan_bounds(s, pt);
            let p1 = scan_spaces(s, pt);
            lemma_line_token_bounds(s, p1);
            match spec_comment_or_line_ending(s, p1) {
                Some(pl) => {
                    lemma_skip_bounds(s, pl);
                    let p2 = spec_skip_line_endings(s, pl);
                    lemma_node_descs_bounds(s, p2);
                    let body = spec_node_descs(s, p2);
                    lemma_skip_bounds(s, body.1);
                },
                None => (),
            }
        },
        None => (),
    }
    // Cell section positions.
    lemma_try_tags_bounds(s, p0, all_cell_types());
    match spec_cell_type_tag(s, p0) {
        Some(tr) => {
            lemma_scan_bounds(s, tr.1);
            let p1 = scan_spaces(s, tr.1);
            lemma_cell_descs_bounds(s, p1, tr.0);
            let body = spec_cell_descs(s, p1, tr.0);
            lemma_skip_bounds(s, body.1);
        },
        None => (),
    }
    // Group section positions.
    let header = match spec_lit(s, p0, group_no_tag()) {
        Some(p) => Some((GroupType::Node, p)),
        None => match spec_lit(s, p0, group_ma_tag()) {
            Some(p) => Some((GroupType::Cell, p)),
            None => None,
        },
    };
    match header {
        Some(h) => {
            lemma_scan_bounds(s, h.1);
            let p1 = scan_multispaces(s, h.1);
            lemma_skip_bounds(s, p1);
            let p2 = spec_skip_line_endings(s, p1);
            lemma_scan_bounds(s, p2);
            let p3 = scan_multispaces(s, p2);
            lemma_group_description_bounds(s, p3, h.0);
        },
        None => (),
    }
}

/// A group description never ends out of bounds.
pub proof fn lemma_group_description_bounds(s: Seq<u8>, pos: int, gt: GroupType)
    requires
        0 <= pos <= s.len(),
    ensures
        spec_group_description(s, pos, gt) matches Some(r) ==> pos <= r.1 <= s.len(),
{
    lemma_scan_bounds(s, pos);
    let p0 = scan_spaces(s, pos);
    let p1 = match spec_nom_keyword(s, p0) {
        Some(pn) => {
            lemma_scan_bounds(s, pn);
            let pe = scan_spaces(s, pn);
            if pe < s.len() && s[pe] == 61 {
                pe + 1
            } else {
                p0
            }
        },
        None => p0,
    };
    lemma_scan_bounds(s, p1);
    let p2 = scan_spaces(s, p1);
    lemma_token_bounds(s, p2);
    match spec_group_name_token(s, p2) {
        Some(pg) => {
            lemma_skip_bounds(s, pg);
            let p3 = spec_skip_line_endings(s, pg);
            lemma_group_elems_bounds(s, p3);
            let body = spec_group_elems(s, p3);
            lemma_skip_bounds(s, body.1);
            let p4 = spec_skip_line_endings(s, body.1);
            lemma_scan_bounds(s, p4);
        },
        None => (),
    }
}

// ---------------------------------------------------------------------------
// The document
// ---------------------------------------------------------------------------

/// After one section: zero or more further sections, each separated from the
/// previous one by at least one useless line.  The position of a failed
/// separator-and-section attempt is restored.
pub open spec fn spec_sections_tail(s: Seq<u8>, pos: int) -> (Seq<SpecMailValue>, int)
    decreases s.len() - pos,
    when 0 <= pos <= s.len()
{
    match spec_useless_line(s, pos) {
        None => (Seq::empty(), pos),
        Some(_) => {
            let p1 = spec_skip_useless_lines(s, pos);
            match spec_section(s, p1) {
                None => (Seq::empty(), pos),
                Some(r) => {
                    proof {
                        lemma_line_token_bounds(s, pos);
                        lemma_skip_bounds(s, pos);
                        lemma_section_bounds(s, p1);
                        lemma_useless_advances(s, pos);
                    }
                    let rest = spec_sections_tail(s, r.1);
                    (seq![r.0] + rest.0, rest.1)
                },
            }
        },
    }
}

/// When a useless line starts at `pos`, skipping useless lines strictly
/// advances.
pub proof fn lemma_useless_advances(s: Seq<u8>, pos: int)
    requires
        0 <= pos <= s.len(),
        spec_useless_line(s, pos) is Some,
    ensures
        pos < spec_skip_useless_lines(s, pos) <= s.len(),
{
    lemma_line_token_bounds(s, pos);
    match spec_useless_line(s, pos) {
        Some(p) => {
            lemma_skip_bounds(s, p);
        },
        None => (),
    }
}

/// A section tail never moves backwards and never runs past the end.
pub proof fn lemma_sections_tail_bounds(s: Seq<u8>, pos: int)
    requires
        0 <= pos <= s.len(),
    ensures
        pos <= spec_sections_tail(s, pos).1 <= s.len(),
    decreases s.len() - pos,
{
    match spec_useless_line(s, pos) {
        None => (),
        Some(_) => {
            lemma_useless_advances(s, pos);
            let p1 = spec_skip_useless_lines(s, pos);
            lemma_section_bounds(s, p1);
            match spec_section(s, p1) {
                None => (),
                Some(r) => {
                    lemma_sections_tail_bounds(s, r.1);
                },
            }
        },
    }
}

/// The whole document: optional useless lines, sections separated by useless
/// lines, optional trailing useless lines.  Yields the section values in
/// document order and the position one past everything recognized.
pub open spec fn spec_document(s: Seq<u8>) -> (Seq<SpecMailValue>, int) {
    let p0 = spec_skip_useless_lines(s, 0);
    match spec_section(s, p0) {
        None => (Seq::empty(), p0),
        Some(r) => {
            let rest = spec_sections_tail(s, r.1);
            (seq![r.0] + rest.0, spec_skip_useless_lines(s, rest.1))
        },
    }
}

/// The end of the recognized document prefix stays in bounds.
pub proof fn lemma_document_bounds(s: Seq<u8>)
    ensures
        0 <= spec_document(s).1 <= s.len(),
{
    lemma_skip_bounds(s, 0);
    let p0 = spec_skip_useless_lines(s, 0);
    lemma_section_bounds(s, p0);
    match spec_section(s, p0) {
        None => (),
        Some(r) => {
            lemma_sections_tail_bounds(s, r.1);
            let rest = spec_sections_tail(s, r.1);
            lemma_skip_bounds(s, rest.1);
        },
    }
}

/// Adds one parsed section value to the accumulated parse output.
pub open spec fn spec_fold_step(acc: SpecParseOutput, v: SpecMailValue) -> SpecParseOutput {
    match v {
        SpecMailValue::NodeElts(ns) => SpecParseOutput {
            nodes: acc.nodes + ns,
            cells: acc.cells,
            groups: acc.groups,
        },
        SpecMailValue::Cells(cs) => SpecParseOutput {
            nodes: acc.nodes,
            cells: acc.cells + cs,
            groups: acc.groups,
        },
        SpecMailValue::Group(g) => SpecParseOutput {
            nodes: acc.nodes,
            cells: acc.cells,
            groups: acc.groups.push(g),
        },
        SpecMailValue::Title(_) => acc,
    }
}

/// Folds the parsed section values into the accumulated parse output, in
/// document order.
pub open spec fn spec_fold(values: Seq<SpecMailValue>) -> SpecParseOutput
    decreases values.len(),
{
    if values.len() == 0 {
        SpecParseOutput {
            nodes: Seq::empty(),
            cells: Seq::empty(),
            groups: Seq::empty(),
        }
    } else {
        spec_fold_step(spec_fold(values.drop_last()), values.last())
    }
}

/// The result of parsing a whole document: its accumulated parse output, or
/// nothing if some trailing input was not recognized.
pub open spec fn spec_parse_mail(s: Seq<u8>) -> Option<SpecParseOutput> {
    let d = spec_document(s);
    if d.1 == s.len() {
        Some(spec_fold(d.0))
    } else {
        None
    }
}

/// Whether the unrecognized input at `pos` starts with a token shaped like a
/// cell-section header (two or more letters followed by digits) that is not
/// in the taxonomy.
pub open spec fn spec_unknown_header_at(s: Seq<u8>, pos: int) -> bool
    recommends
        0 <= pos <= s.len(),
{
    let q = scan_spaces(s, pos);
    let a = scan_alphas(s, q);
    let d = scan_digits(s, a);
    a >= q + 2 && d > a && spec_cell_type_of(s.subrange(q, d)) is None
}

// ---------------------------------------------------------------------------
// The fixed-width guarantee of cell sections
// ---------------------------------------------------------------------------

/// Whether every cell record holds exactly as many node names as the arity
/// of its type.
pub open spec fn cells_have_exact_arity(cs: Seq<SpecCellProp>) -> bool {
    forall|i: int|
        0 <= i < cs.len() ==> (#[trigger] cs[i]).nodes.len() == cs[i].cell_type.spec_arity()
}

/// Whether the cell records a section value carries, if any, respect their
/// arity.
pub open spec fn value_cells_have_exact_arity(v: SpecMailValue) -> bool {
    match v {
        SpecMailValue::Cells(cs) => cells_have_exact_arity(cs),
        _ => true,
    }
}

/// Every record of a cell-description list is of the section's type and
/// holds exactly the arity's number of node names.
proof fn lemma_cell_descs_arity(s: Seq<u8>, pos: int, t: CellType)
    requires
        0 <= pos <= s.len(),
    ensures
        cells_have_exact_arity(spec_cell_descs(s, pos, t).0),
    decreases s.len() - pos,
{
    lemma_scan_bounds(s, pos);
    let q = scan_multispaces(s, pos);
    lemma_cell_description_bounds(s, q, t);
    match spec_cell_description(s, q, t) {
        Some(r) => {
            lemma_cell_descs_arity(s, r.1, t);
            let whole = spec_cell_descs(s, pos, t).0;
            let rest = spec_cell_descs(s, r.1, t).0;
            assert forall|i: int|
                0 <= i < whole.len() implies (#[trigger] whole[i]).nodes.len()
                == whole[i].cell_type.spec_arity() by {
                if i > 0 {
                    assert(whole[i] == rest[i - 1]);
                }
            }
        },
        None => (),
    }
}

/// Every section value respects the arity of its cell records.
proof fn lemma_section_arity(s: Seq<u8>, pos: int)
    requires
        0 <= pos <= s.len(),
    ensures
        spec_section(s, pos) matches Some(r) ==> value_cells_have_exact_arity(r.0),
{
    lemma_scan_bounds(s, pos);
    let p0 = scan_spaces(s, pos);
    match spec_cell_type_tag(s, p0) {
        Some(tr) => {
            lemma_try_tags_bounds(s, p0, all_cell_types());
            lemma_scan_bounds(s, tr.1);
            lemma_cell_descs_arity(s, scan_spaces(s, tr.1), tr.0);
        },
        None => (),
    }
}

/// Every section value of a section tail respects the arity of its cell
/// records.
proof fn lemma_sections_tail_arity(s: Seq<u8>, pos: int)
    requires
        0 <= pos <= s.len(),
    ensures
        forall|i: int|
            0 <= i < spec_sections_tail(s, pos).0.len() ==> value_cells_have_exact_arity(
                #[trigger] spec_sections_tail(s, pos).0[i],
            ),
    decreases s.len() - pos,
{
    match spec_useless_line(s, pos) {
        None => (),
        Some(_) => {
            lemma_useless_advances(s, pos);
            let p1 = spec_skip_useless_lines(s, pos);
            lemma_section_bounds(s, p1);
            match spec_section(s, p1) {
                None => (),
                Some(r) => {
                    lemma_section_arity(s, p1);
                    lemma_sections_tail_arity(s, r.1);
                    let whole = spec_sections_tail(s, pos).0;
                    let rest = spec_sections_tail(s, r.1).0;
                    assert forall|i: int|
                        0 <= i < whole.len() implies value_cells_have_exact_arity(
                        #[trigger] whole[i],
                    ) by {
                        if i > 0 {
                            assert(whole[i] == rest[i - 1]);
                        }
                    }
                },
            }
        },
    }
}

/// Folding section values that respect their arity yields cell records that
/// respect their arity.
proof fn lemma_fold_arity(values: Seq<SpecMailValue>)
    requires
        forall|i: int|
            0 <= i < values.len() ==> value_cells_have_exact_arity(#[trigger] values[i]),
    ensures
        cells_have_exact_arity(spec_fold(values).cells),
    decreases values.len(),
{
    if values.len() > 0 {
        assert(forall|i: int|
            0 <= i < values.drop_last().len() ==> values.drop_last()[i] == values[i]);
        lemma_fold_arity(values.drop_last());
        let acc = spec_fold(values.drop_last());
        match values.last() {
            SpecMailValue::Cells(cs) => {
                let whole = spec_fold(values).cells;
                assert(value_cells_have_exact_arity(values[values.len() - 1]));
                assert forall|i: int|
                    0 <= i < whole.len() implies (#[trigger] whole[i]).nodes.len()
                    == whole[i].cell_type.spec_arity() by {
                    if i >= acc.cells.len() {
                        assert(whole[i] == cs[i - acc.cells.len()]);
                    }
                }
            },
            _ => (),
        }
    }
}

/// Law: the cell section is a fixed-width read.  Every cell record of a
/// successfully parsed document holds exactly as many node names as the
/// arity of the section's cell type.
pub proof fn lemma_parsed_cells_have_exact_arity(s: Seq<u8>, out: SpecParseOutput)
    requires
        spec_parse_mail(s) == Some(out),
    ensures
        cells_have_exact_arity(out.cells),
{
    lemma_skip_bounds(s, 0);
    let p0 = spec_skip_useless_lines(s, 0);
    lemma_section_bounds(s, p0);
    match spec_section(s, p0) {
        None => {
            assert(spec_document(s).0 =~= Seq::<SpecMailValue>::empty());
            lemma_fold_arity(spec_document(s).0);
        },
        Some(r) => {
            lemma_section_arity(s, p0);
            lemma_sections_tail_arity(s, r.1);
            let vs = spec_document(s).0;
            let rest = spec_sections_tail(s, r.1).0;
            assert forall|i: int|
                0 <= i < vs.len() implies value_cells_have_exact_arity(#[trigger] vs[i]) by {
                if i > 0 {
                    assert(vs[i] == rest[i - 1]);
                }
            }
            lemma_fold_arity(vs);
        },
    }
}

/// The error a failed document parse reports: the offset where recognition
/// stopped, classified as an unsupported cell-type header where one stands
/// there, and as a plain syntax error otherwise.
pub open spec fn spec_parse_error(s: Seq<u8>) -> ParseError {
    let p = spec_document(s).1;
    if spec_unknown_header_at(s, p) {
        (ParseError::UnsupportedCellType { offset: p as usize })
    } else {
        (ParseError::Syntax { offset: p as usize })
    }
}

} // verus!

