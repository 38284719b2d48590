//! The verified parser for the mail mesh format.
//!
//! Every function here is proved to return exactly what the corresponding
//! spec function of [`crate::grammar`] describes.  Parsers work on the raw
//! bytes of the document and report positions as byte offsets.

use vstd::prelude::*;
use vstd::string::StringSliceAdditionalSpecFns;

use crate::byte_ops::bytes_range_to_vec;
use crate::grammar::all_cell_types;
use crate::grammar::coor_3d_tag;
use crate::grammar::finsf_tag;
use crate::grammar::group_ma_tag;
use crate::grammar::group_no_tag;
use crate::grammar::lemma_cell_description_bounds;
use crate::grammar::lemma_cell_descs_bounds;
use crate::grammar::lemma_coords_bounds;
use crate::grammar::lemma_document_bounds;
use crate::grammar::lemma_fixed_names_bounds;
use crate::grammar::lemma_group_description_bounds;
use crate::grammar::lemma_group_elems_bounds;
use crate::grammar::lemma_line_token_bounds;
use crate::grammar::lemma_node_description_bounds;
use crate::grammar::lemma_node_descs_bounds;
use crate::grammar::lemma_section_bounds;
use crate::grammar::lemma_sections_tail_bounds;
use crate::grammar::lemma_skip_bounds;
use crate::grammar::lemma_token_bounds;
use crate::grammar::lemma_try_tags_bounds;
use crate::grammar::lemma_useless_advances;
use crate::grammar::scan_alphas;
use crate::grammar::scan_digits;
use crate::grammar::scan_multispaces;
use crate::grammar::scan_not_newline;
use crate::grammar::scan_spaces;
use crate::grammar::scan_word;
use crate::grammar::skip_sign;
use crate::grammar::spec_cell_description;
use crate::grammar::spec_cell_descs;
use crate::grammar::spec_cell_section;
use crate::grammar::spec_cell_type_tag;
use crate::grammar::spec_comment_or_line_ending;
use crate::grammar::spec_document;
use crate::grammar::spec_fixed_names;
use crate::grammar::spec_float_mantissa;
use crate::grammar::spec_float_token;
use crate::grammar::spec_fold;
use crate::grammar::spec_fold_step;
use crate::grammar::spec_group_description;
use crate::grammar::spec_group_elems;
use crate::grammar::spec_group_name_token;
use crate::grammar::spec_group_section;
use crate::grammar::spec_line_ending;
use crate::grammar::spec_lit;
use crate::grammar::spec_name_token;
use crate::grammar::spec_node_3d_coords;
use crate::grammar::spec_node_3d_section;
use crate::grammar::spec_node_description;
use crate::grammar::spec_node_descs;
use crate::grammar::spec_nom_keyword;
use crate::grammar::spec_parse_error;
use crate::grammar::spec_parse_mail;
use crate::grammar::spec_section;
use crate::grammar::spec_sections_tail;
use crate::grammar::spec_skip_line_endings;
use crate::grammar::spec_skip_useless_lines;
use crate::grammar::spec_try_tags;
use crate::grammar::spec_unknown_header_at;
use crate::grammar::spec_useless_line;
use crate::mesh_enums::CellType;
use crate::tokens::CellProp;
use crate::tokens::Group;
use crate::tokens::GroupType;
use crate::tokens::MailParseOutput;
use crate::tokens::MailValue;
use crate::tokens::NodeProp;
use crate::tokens::ParseError;
use crate::tokens::SpecCellProp;
use crate::tokens::SpecMailValue;
use crate::tokens::SpecNodeProp;
use crate::tokens::SpecParseOutput;

verus! {

// ---------------------------------------------------------------------------
// Scanners
// ---------------------------------------------------------------------------

/// Skips horizontal whitespace (spaces and tabs).
pub fn scan_spaces_at(input: &[u8], pos: usize) -> (r: usize)
    requires
        pos <= input@.len(),
    ensures
        r == scan_spaces(input@, pos as int),
        pos <= r <= input@.len(),
{
    let mut i: usize = pos;
    while i < input.len() && (input[i] == 32 || input[i] == 9)
        invariant
            pos <= i <= input@.len(),
            scan_spaces(input@, pos as int) == scan_spaces(input@, i as int),
        decreases input@.len() - i,
    {
        i += 1;
    }
    i
}

/// Skips any whitespace, including line breaks.
pub fn scan_multispaces_at(input: &[u8], pos: usize) -> (r: usize)
    requires
        pos <= input@.len(),
    ensures
        r == scan_multispaces(input@, pos as int),
        pos <= r <= input@.len(),
{
    let mut i: usize = pos;
    while i < input.len() && (input[i] == 32 || input[i] == 9 || input[i] == 10 || input[i] == 13)
        invariant
            pos <= i <= input@.len(),
            scan_multispaces(input@, pos as int) == scan_multispaces(input@, i as int),
        decreases input@.len() - i,
    {
        i += 1;
    }
    i
}

/// Skips decimal digits.
pub fn scan_digits_at(input: &[u8], pos: usize) -> (r: usize)
    requires
        pos <= input@.len(),
    ensures
        r == scan_digits(input@, pos as int),
        pos <= r <= input@.len(),
{
    let mut i: usize = pos;
    while i < input.len() && 48 <= input[i] && input[i] <= 57
        invariant
            pos <= i <= input@.len(),
            scan_digits(input@, pos as int) == scan_digits(input@, i as int),
        decreases input@.len() - i,
    {
        i += 1;
    }
    i
}

/// Skips ASCII letters.
pub fn scan_alphas_at(input: &[u8], pos: usize) -> (r: usize)
    requires
        pos <= input@.len(),
    ensures
        r == scan_alphas(input@, pos as int),
        pos <= r <= input@.len(),
{
    let mut i: usize = pos;
    while i < input.len() && ((65 <= input[i] && input[i] <= 90) || (97 <= input[i] && input[i]
        <= 122))
        invariant
            pos <= i <= input@.len(),
            scan_alphas(input@, pos as int) == scan_alphas(input@, i as int),
        decreases input@.len() - i,
    {
        i += 1;
    }
    i
}

/// Skips letters, digits and underscores.
pub fn scan_word_at(input: &[u8], pos: usize) -> (r: usize)
    requires
        pos <= input@.len(),
    ensures
        r == scan_word(input@, pos as int),
        pos <= r <= input@.len(),
{
    let mut i: usize = pos;
    while i < input.len() && ((65 <= input[i] && input[i] <= 90) || (97 <= input[i] && input[i]
        <= 122) || (48 <= input[i] && input[i] <= 57) || input[i] == 95)
        invariant
            pos <= i <= input@.len(),
            scan_word(input@, pos as int) == scan_word(input@, i as int),
        decreases input@.len() - i,
    {
        i += 1;
    }
    i
}

/// Skips everything up to the next line feed.
pub fn scan_not_newline_at(input: &[u8], pos: usize) -> (r: usize)
    requires
        pos <= input@.len(),
    ensures
        r == scan_not_newline(input@, pos as int),
        pos <= r <= input@.len(),
{
    let mut i: usize = pos;
    while i < input.len() && input[i] != 10
        invariant
            pos <= i <= input@.len(),
            scan_not_newline(input@, pos as int) == scan_not_newline(input@, i as int),
        decreases input@.len() - i,
    {
        i += 1;
    }
    i
}

// ---------------------------------------------------------------------------
// Literals
// ---------------------------------------------------------------------------

/// Matches an exact byte literal at `pos`.
fn lit_at(input: &[u8], pos: usize, lit: &[u8]) -> (r: Option<usize>)
    requires
        pos <= input@.len(),
    ensures
        r is Some <==> spec_lit(input@, pos as int, lit@) is Some,
        r matches Some(p) ==> spec_lit(input@, pos as int, lit@) == Some(p as int) && pos <= p
            <= input@.len(),
{
    if lit.len() > input.len() - pos {
        return None;
    }
    let mut i: usize = 0;
    while i < lit.len()
        invariant
            0 <= i <= lit@.len(),
            pos + lit@.len() <= input@.len(),
            input@.len() <= usize::MAX,
            forall|j: int| 0 <= j < i ==> input@[pos + j] == lit@[j],
        decreases lit@.len() - i,
    {
        if input[pos + i] != lit[i] {
            proof {
                assert(input@.subrange(pos as int, pos + lit@.len())[i as int] != lit@[i as int]);
            }
            return None;
        }
        i += 1;
    }
    proof {
        assert(input@.subrange(pos as int, pos + lit@.len()) =~= lit@);
    }
    Some(pos + lit.len())
}

/// The `FINSF` literal as owned bytes.
fn finsf_bytes() -> (r: Vec<u8>)
    ensures
        r@ == finsf_tag(),
{
    let v = vec![70u8, 73, 78, 83, 70];
    proof {
        assert(v@ =~= finsf_tag());
    }
    v
}

/// The `COOR_3D` literal as owned bytes.
fn coor_3d_bytes() -> (r: Vec<u8>)
    ensures
        r@ == coor_3d_tag(),
{
    let v = vec![67u8, 79, 79, 82, 95, 51, 68];
    proof {
        assert(v@ =~= coor_3d_tag());
    }
    v
}

/// The `GROUP_NO` literal as owned bytes.
fn group_no_bytes() -> (r: Vec<u8>)
    ensures
        r@ == group_no_tag(),
{
    let v = vec![71u8, 82, 79, 85, 80, 95, 78, 79];
    proof {
        assert(v@ =~= group_no_tag());
    }
    v
}

/// The `GROUP_MA` literal as owned bytes.
fn group_ma_bytes() -> (r: Vec<u8>)
    ensures
        r@ == group_ma_tag(),
{
    let v = vec![71u8, 82, 79, 85, 80, 95, 77, 65];
    proof {
        assert(v@ =~= group_ma_tag());
    }
    v
}

/// Matches the section terminator `FINSF`.
pub fn end_section_tag(input: &[u8], pos: usize) -> (r: Option<usize>)
    requires
        pos <= input@.len(),
    ensures
        r is Some <==> spec_lit(input@, pos as int, finsf_tag()) is Some,
        r matches Some(p) ==> spec_lit(input@, pos as int, finsf_tag()) == Some(p as int) && pos
            <= p <= input@.len(),
{
    let tag = finsf_bytes();
    lit_at(input, pos, tag.as_slice())
}

/// Matches the node-section header `COOR_3D`.
pub fn start_3d_node_section(input: &[u8], pos: usize) -> (r: Option<usize>)
    requires
        pos <= input@.len(),
    ensures
        r is Some <==> spec_lit(input@, pos as int, coor_3d_tag()) is Some,
        r matches Some(p) ==> spec_lit(input@, pos as int, coor_3d_tag()) == Some(p as int) && pos
            <= p <= input@.len(),
{
    let tag = coor_3d_bytes();
    lit_at(input, pos, tag.as_slice())
}

/// Matches the node-group section header `GROUP_NO`.
pub fn start_gno_section(input: &[u8], pos: usize) -> (r: Option<usize>)
    requires
        pos <= input@.len(),
    ensures
        r is Some <==> spec_lit(input@, pos as int, group_no_tag()) is Some,
        r matches Some(p) ==> spec_lit(input@, pos as int, group_no_tag()) == Some(p as int) && pos
            <= p <= input@.len(),
{
    let tag = group_no_bytes();
    lit_at(input, pos, tag.as_slice())
}

/// Matches the cell-group section header `GROUP_MA`.
pub fn start_gma_section(input: &[u8], pos: usize) -> (r: Option<usize>)
    requires
        pos <= input@.len(),
    ensures
        r is Some <==> spec_lit(input@, pos as int, group_ma_tag()) is Some,
        r matches Some(p) ==> spec_lit(input@, pos as int, group_ma_tag()) == Some(p as int) && pos
            <= p <= input@.len(),
{
    let tag = group_ma_bytes();
    lit_at(input, pos, tag.as_slice())
}

/// Matches the keyword `NOM`, case-insensitively.
fn nom_keyword_at(input: &[u8], pos: usize) -> (r: Option<usize>)
    requires
        pos <= input@.len(),
    ensures
        r is Some <==> spec_nom_keyword(input@, pos as int) is Some,
        r matches Some(p) ==> spec_nom_keyword(input@, pos as int) == Some(p as int) && pos < p
            <= input@.len(),
{
    if input.len() - pos >= 3 && (input[pos] == 78 || input[pos] == 110) && (input[pos + 1] == 79
        || input[pos + 1] == 111) && (input[pos + 2] == 77 || input[pos + 2] == 109) {
        Some(pos + 3)
    } else {
        None
    }
}

// ---------------------------------------------------------------------------
// Line tokens
// ---------------------------------------------------------------------------

/// Matches a line terminator.
fn line_ending_at(input: &[u8], pos: usize) -> (r: Option<usize>)
    requires
        pos <= input@.len(),
    ensures
        r is Some <==> spec_line_ending(input@, pos as int) is Some,
        r matches Some(p) ==> spec_line_ending(input@, pos as int) == Some(p as int) && pos < p
            <= input@.len(),
{
    if pos < input.len() && input[pos] == 10 {
        Some(pos + 1)
    } else if pos < input.len() && input[pos] == 13 && pos + 1 < input.len() && input[pos + 1]
        == 10 {
        Some(pos + 2)
    } else {
        None
    }
}

/// Matches an optional non-empty `%` comment followed by a line terminator.
pub fn comment_or_line_ending(input: &[u8], pos: usize) -> (r: Option<usize>)
    requires
        pos <= input@.len(),
    ensures
        r is Some <==> spec_comment_or_line_ending(input@, pos as int) is Some,
        r matches Some(p) ==> spec_comment_or_line_ending(input@, pos as int) == Some(p as int)
            && pos < p <= input@.len(),
{
    proof {
        lemma_line_token_bounds(input@, pos as int);
    }
    if pos < input.len() && input[pos] == 37 {
        let body_end = scan_not_newline_at(input, pos + 1);
        if body_end > pos + 1 {
            line_ending_at(input, body_end)
        } else {
            None
        }
    } else {
        line_ending_at(input, pos)
    }
}

/// Matches a useless line: optional horizontal whitespace, then an optional
/// comment and a line terminator.
pub fn useless_line(input: &[u8], pos: usize) -> (r: Option<usize>)
    requires
        pos <= input@.len(),
    ensures
        r is Some <==> spec_useless_line(input@, pos as int) is Some,
        r matches Some(p) ==> spec_useless_line(input@, pos as int) == Some(p as int) && pos < p
            <= input@.len(),
{
    proof {
        lemma_line_token_bounds(input@, pos as int);
    }
    let sp = scan_spaces_at(input, pos);
    comment_or_line_ending(input, sp)
}

/// Skips any number of comment-or-line-ending tokens.
fn skip_line_endings_at(input: &[u8], pos: usize) -> (r: usize)
    requires
        pos <= input@.len(),
    ensures
        r == spec_skip_line_endings(input@, pos as int),
        pos <= r <= input@.len(),
{
    let mut cur: usize = pos;
    let mut done = false;
    while !done
        invariant
            pos <= cur <= input@.len(),
            spec_skip_line_endings(input@, pos as int) == spec_skip_line_endings(
                input@,
                cur as int,
            ),
            done ==> spec_comment_or_line_ending(input@, cur as int) is None,
        decreases input@.len() - cur + (if done {
            0int
        } else {
            1int
        }),
    {
        match comment_or_line_ending(input, cur) {
            Some(p) => {
                cur = p;
            },
            None => {
                done = true;
            },
        }
    }
    cur
}

/// Skips any number of useless lines.
fn skip_useless_lines_at(input: &[u8], pos: usize) -> (r: usize)
    requires
        pos <= input@.len(),
    ensures
        r == spec_skip_useless_lines(input@, pos as int),
        pos <= r <= input@.len(),
{
    let mut cur: usize = pos;
    let mut done = false;
    while !done
        invariant
            pos <= cur <= input@.len(),
            spec_skip_useless_lines(input@, pos as int) == spec_skip_useless_lines(
                input@,
                cur as int,
            ),
            done ==> spec_useless_line(input@, cur as int) is None,
        decreases input@.len() - cur + (if done {
            0int
        } else {
            1int
        }),
    {
        match useless_line(input, cur) {
            Some(p) => {
                cur = p;
            },
            None => {
                done = true;
            },
        }
    }
    cur
}

// ---------------------------------------------------------------------------
// Name and number tokens
// ---------------------------------------------------------------------------

/// Matches a node or cell name: one letter followed by one or more digits.
/// Yields the position one past the name.
pub fn node_or_cell_name(input: &[u8], pos: usize) -> (r: Option<usize>)
    requires
        pos <= input@.len(),
    ensures
        r is Some <==> spec_name_token(input@, pos as int) is Some,
        r matches Some(p) ==> spec_name_token(input@, pos as int) == Some(p as int) && pos + 2 <= p
            <= input@.len(),
{
    proof {
        lemma_token_bounds(input@, pos as int);
    }
    if pos < input.len() && ((65 <= input[pos] && input[pos] <= 90) || (97 <= input[pos]
        && input[pos] <= 122)) {
        let e = scan_digits_at(input, pos + 1);
        if e > pos + 1 {
            Some(e)
        } else {
            None
        }
    } else {
        None
    }
}

/// Matches a group name: one letter followed by any run of letters, digits
/// and underscores.  Yields the position one past the name.
pub fn group_name(input: &[u8], pos: usize) -> (r: Option<usize>)
    requires
        pos <= input@.len(),
    ensures
        r is Some <==> spec_group_name_token(input@, pos as int) is Some,
        r matches Some(p) ==> spec_group_name_token(input@, pos as int) == Some(p as int) && pos
            < p <= input@.len(),
{
    proof {
        lemma_token_bounds(input@, pos as int);
    }
    if pos < input.len() && ((65 <= input[pos] && input[pos] <= 90) || (97 <= input[pos]
        && input[pos] <= 122)) {
        Some(scan_word_at(input, pos + 1))
    } else {
        None
    }
}

/// Skips an optional `+` or `-` sign.
fn skip_sign_at(input: &[u8], pos: usize) -> (r: usize)
    requires
        pos <= input@.len(),
    ensures
        r == skip_sign(input@, pos as int),
        pos <= r <= input@.len(),
{
    if pos < input.len() && (input[pos] == 43 || input[pos] == 45) {
        pos + 1
    } else {
        pos
    }
}

/// Matches a float literal.  Yields the position one past the literal.
fn float_at(input: &[u8], pos: usize) -> (r: Option<usize>)
    requires
        pos <= input@.len(),
    ensures
        r is Some <==> spec_float_token(input@, pos as int) is Some,
        r matches Some(p) ==> spec_float_token(input@, pos as int) == Some(p as int) && pos < p
            <= input@.len(),
{
    proof {
        lemma_token_bounds(input@, pos as int);
    }
    let p = skip_sign_at(input, pos);
    let mantissa: Option<usize> = if p < input.len() && 48 <= input[p] && input[p] <= 57 {
        let d = scan_digits_at(input, p);
        if d < input.len() && input[d] == 46 {
            Some(scan_digits_at(input, d + 1))
        } else {
            Some(d)
        }
    } else if p < input.len() && input[p] == 46 && p + 1 < input.len() && 48 <= input[p + 1]
        && input[p + 1] <= 57 {
        Some(scan_digits_at(input, p + 1))
    } else {
        None
    };
    proof {
        assert(mantissa matches Some(m) ==> spec_float_mantissa(input@, p as int) == Some(
            m as int,
        ));
        assert(mantissa is None ==> spec_float_mantissa(input@, p as int) is None);
    }
    match mantissa {
        Some(m) => {
            if m < input.len() && (input[m] == 101 || input[m] == 69) {
                let q = skip_sign_at(input, m + 1);
                let e = scan_digits_at(input, q);
                if e > q {
                    Some(e)
                } else {
                    Some(m)
                }
            } else {
                Some(m)
            }
        },
        None => None,
    }
}

// ---------------------------------------------------------------------------
// Node descriptions
// ---------------------------------------------------------------------------

/// Matches three whitespace-separated float literals with optional
/// horizontal whitespace around them.  Yields the three literals and the end
/// position.
pub fn node_3d_coords(input: &[u8], pos: usize) -> (r: Option<(Vec<u8>, Vec<u8>, Vec<u8>, usize)>)
    requires
        pos <= input@.len(),
    ensures
        r is Some <==> spec_node_3d_coords(input@, pos as int) is Some,
        r matches Some(c) ==> spec_node_3d_coords(input@, pos as int) matches Some(sc) && c.0@
            == sc.0 && c.1@ == sc.1 && c.2@ == sc.2 && c.3 == sc.3 && pos < c.3 <= input@.len(),
{
    proof {
        lemma_coords_bounds(input@, pos as int);
    }
    let p0 = scan_spaces_at(input, pos);
    match float_at(input, p0) {
        Some(px) => {
            let p1 = scan_multispaces_at(input, px);
            if p1 > px {
                match float_at(input, p1) {
                    Some(py) => {
                        let p2 = scan_multispaces_at(input, py);
                        if p2 > py {
                            match float_at(input, p2) {
                                Some(pz) => {
                                    let pe = scan_spaces_at(input, pz);
                                    let x = bytes_range_to_vec(input, p0, px);
                                    let y = bytes_range_to_vec(input, p1, py);
                                    let z = bytes_range_to_vec(input, p2, pz);
                                    Some((x, y, z, pe))
                                },
                                None => None,
                            }
                        } else {
                            None
                        }
                    },
                    None => None,
                }
            } else {
                None
            }
        },
        None => None,
    }
}

/// Matches one node description: a name, three coordinates and trailing
/// whitespace.
pub fn node_description(input: &[u8], pos: usize) -> (r: Option<(NodeProp, usize)>)
    requires
        pos <= input@.len(),
    ensures
        r is Some <==> spec_node_description(input@, pos as int) is Some,
        r matches Some(d) ==> spec_node_description(input@, pos as int) matches Some(sd) && d.0@
            == sd.0 && d.1 == sd.1 && pos < d.1 <= input@.len(),
{
    proof {
        lemma_node_description_bounds(input@, pos as int);
    }
    let p0 = scan_spaces_at(input, pos);
    match node_or_cell_name(input, p0) {
        Some(pn) => {
            let p1 = scan_spaces_at(input, pn);
            match node_3d_coords(input, p1) {
                Some(c) => {
                    let pe = scan_multispaces_at(input, c.3);
                    let name = bytes_range_to_vec(input, p0, pn);
                    Some((NodeProp { name: Some(name), x: c.0, y: c.1, z: c.2 }, pe))
                },
                None => None,
            }
        },
        None => None,
    }
}

/// Parses zero or more node descriptions, each preceded by optional
/// whitespace.
fn parse_node_descs(input: &[u8], pos: usize) -> (r: (Vec<NodeProp>, usize))
    requires
        pos <= input@.len(),
    ensures
        r.0@.map_values(|n: NodeProp| n@) == spec_node_descs(input@, pos as int).0,
        r.1 == spec_node_descs(input@, pos as int).1,
        pos <= r.1 <= input@.len(),
{
    let ghost s = input@;
    let mut acc: Vec<NodeProp> = Vec::new();
    let mut cur: usize = pos;
    let mut done = false;
    proof {
        lemma_node_descs_bounds(s, pos as int);
        assert(acc@.map_values(|n: NodeProp| n@) =~= Seq::<SpecNodeProp>::empty());
    }
    while !done
        invariant
            pos <= cur <= s.len(),
            s == input@,
            spec_node_descs(s, pos as int).0 == acc@.map_values(|n: NodeProp| n@)
                + spec_node_descs(s, cur as int).0,
            spec_node_descs(s, pos as int).1 == spec_node_descs(s, cur as int).1,
            done ==> spec_node_descs(s, cur as int) == (Seq::<SpecNodeProp>::empty(), cur as int),
        decreases s.len() - cur + (if done {
            0int
        } else {
            1int
        }),
    {
        let q = scan_multispaces_at(input, cur);
        match node_description(input, q) {
            Some(d) => {
                proof {
                    lemma_node_description_bounds(s, q as int);
                    assert(spec_node_descs(s, cur as int).0 == seq![d.0@] + spec_node_descs(
                        s,
                        d.1 as int,
                    ).0);
                    assert(spec_node_descs(s, cur as int).1 == spec_node_descs(s, d.1 as int).1);
                }
                let ghost old_map = acc@.map_values(|n: NodeProp| n@);
                let d1 = d.1;
                acc.push(d.0);
                proof {
                    assert(acc@.map_values(|n: NodeProp| n@) =~= old_map + seq![acc@.last()@]);
                    assert(old_map + (seq![acc@.last()@] + spec_node_descs(s, d1 as int).0) =~= (
                    old_map + seq![acc@.last()@]) + spec_node_descs(s, d1 as int).0);
                }
                cur = d1;
            },
            None => {
                done = true;
            },
        }
    }
    proof {
        assert(acc@.map_values(|n: NodeProp| n@) + Seq::<SpecNodeProp>::empty() =~= acc@.map_values(
            |n: NodeProp| n@,
        ));
    }
    (acc, cur)
}

// ---------------------------------------------------------------------------
// Cell descriptions
// ---------------------------------------------------------------------------

/// Parses exactly `count` names, each preceded by at least one whitespace
/// byte.
fn parse_fixed_names(input: &[u8], pos: usize, count: usize) -> (r: Option<(Vec<Vec<u8>>, usize)>)
    requires
        pos <= input@.len(),
    ensures
        r is Some <==> spec_fixed_names(input@, pos as int, count as nat) is Some,
        r matches Some(v) ==> spec_fixed_names(input@, pos as int, count as nat) matches Some(sv)
            && v.0@.map_values(|n: Vec<u8>| n@) == sv.0 && v.1 == sv.1 && pos <= v.1
            <= input@.len(),
    decreases count,
{
    proof {
        lemma_fixed_names_bounds(input@, pos as int, count as nat);
    }
    if count == 0 {
        let v: Vec<Vec<u8>> = Vec::new();
        proof {
            assert(v@.map_values(|n: Vec<u8>| n@) =~= Seq::<Seq<u8>>::empty());
        }
        return Some((v, pos));
    }
    let q = scan_multispaces_at(input, pos);
    if q == pos {
        return None;
    }
    match node_or_cell_name(input, q) {
        Some(pn) => {
            let name = bytes_range_to_vec(input, q, pn);
            match parse_fixed_names(input, pn, count - 1) {
                Some(rest) => {
                    let mut v: Vec<Vec<u8>> = Vec::new();
                    let ghost name_seq = name@;
                    v.push(name);
                    let mut tail = rest.0;
                    v.append(&mut tail);
                    proof {
                        assert(v@.map_values(|n: Vec<u8>| n@) =~= seq![name_seq]
                            + rest.0@.map_values(|n: Vec<u8>| n@));
                    }
                    Some((v, rest.1))
                },
                None => None,
            }
        },
        None => None,
    }
}

/// Matches one cell description of the given type: the cell's name, exactly
/// `arity` node names, and trailing whitespace.
pub fn cell_description(cell_type: CellType, input: &[u8], pos: usize) -> (r: Option<
    (CellProp, usize),
>)
    requires
        pos <= input@.len(),
    ensures
        r is Some <==> spec_cell_description(input@, pos as int, cell_type) is Some,
        r matches Some(d) ==> spec_cell_description(input@, pos as int, cell_type) matches Some(sd)
            && d.0@ == sd.0 && d.1 == sd.1 && pos < d.1 <= input@.len(),
{
    proof {
        lemma_cell_description_bounds(input@, pos as int, cell_type);
    }
    match node_or_cell_name(input, pos) {
        Some(pn) => {
            let arity = cell_type.get_nb_of_connectivities();
            match parse_fixed_names(input, pn, arity) {
                Some(nodes) => {
                    let pe = scan_multispaces_at(input, nodes.1);
                    let name = bytes_range_to_vec(input, pos, pn);
                    Some(
                        (
                            CellProp { cell_type, name: Some(name), nodes: nodes.0 },
                            pe,
                        ),
                    )
                },
                None => None,
            }
        },
        None => None,
    }
}

/// Parses zero or more cell descriptions of the given type, each preceded by
/// optional whitespace.
fn parse_cell_descs(input: &[u8], pos: usize, cell_type: CellType) -> (r: (Vec<CellProp>, usize))
    requires
        pos <= input@.len(),
    ensures
        r.0@.map_values(|c: CellProp| c@) == spec_cell_descs(input@, pos as int, cell_type).0,
        r.1 == spec_cell_descs(input@, pos as int, cell_type).1,
        pos <= r.1 <= input@.len(),
{
    let ghost s = input@;
    let mut acc: Vec<CellProp> = Vec::new();
    let mut cur: usize = pos;
    let mut done = false;
    proof {
        lemma_cell_descs_bounds(s, pos as int, cell_type);
        assert(acc@.map_values(|c: CellProp| c@) =~= Seq::<SpecCellProp>::empty());
    }
    while !done
        invariant
            pos <= cur <= s.len(),
            s == input@,
            spec_cell_descs(s, pos as int, cell_type).0 == acc@.map_values(|c: CellProp| c@)
                + spec_cell_descs(s, cur as int, cell_type).0,
            spec_cell_descs(s, pos as int, cell_type).1 == spec_cell_descs(
                s,
                cur as int,
                cell_type,
            ).1,
            done ==> spec_cell_descs(s, cur as int, cell_type) == (
                Seq::<SpecCellProp>::empty(),
                cur as int,
            ),
        decreases s.len() - cur + (if done {
            0int
        } else {
            1int
        }),
    {
        let q = scan_multispaces_at(input, cur);
        match cell_description(cell_type, input, q) {
            Some(d) => {
                proof {
                    lemma_cell_description_bounds(s, q as int, cell_type);
                    assert(spec_cell_descs(s, cur as int, cell_type).0 == seq![d.0@]
                        + spec_cell_descs(s, d.1 as int, cell_type).0);
                    assert(spec_cell_descs(s, cur as int, cell_type).1 == spec_cell_descs(
                        s,
                        d.1 as int,
                        cell_type,
                    ).1);
                }
                let ghost old_map = acc@.map_values(|c: CellProp| c@);
                let d1 = d.1;
                acc.push(d.0);
                proof {
                    assert(acc@.map_values(|c: CellProp| c@) =~= old_map + seq![acc@.last()@]);
                    assert(old_map + (seq![acc@.last()@] + spec_cell_descs(s, d1 as int, cell_type).0)
                        =~= (old_map + seq![acc@.last()@]) + spec_cell_descs(
                        s,
                        d1 as int,
                        cell_type,
                    ).0);
                }
                cur = d1;
            },
            None => {
                done = true;
            },
        }
    }
    proof {
        assert(acc@.map_values(|c: CellProp| c@) + Seq::<SpecCellProp>::empty() =~= acc@.map_values(
            |c: CellProp| c@,
        ));
    }
    (acc, cur)
}

/// Parses zero or more group member names, each preceded by at least one
/// whitespace byte.
fn parse_group_elems(input: &[u8], pos: usize) -> (r: (Vec<Vec<u8>>, usize))
    requires
        pos <= input@.len(),
    ensures
        r.0@.map_values(|n: Vec<u8>| n@) == spec_group_elems(input@, pos as int).0,
        r.1 == spec_group_elems(input@, pos as int).1,
        pos <= r.1 <= input@.len(),
{
    let ghost s = input@;
    let mut acc: Vec<Vec<u8>> = Vec::new();
    let mut cur: usize = pos;
    let mut done = false;
    proof {
        lemma_group_elems_bounds(s, pos as int);
        assert(acc@.map_values(|n: Vec<u8>| n@) =~= Seq::<Seq<u8>>::empty());
    }
    while !done
        invariant
            pos <= cur <= s.len(),
            s == input@,
            spec_group_elems(s, pos as int).0 == acc@.map_values(|n: Vec<u8>| n@)
                + spec_group_elems(s, cur as int).0,
            spec_group_elems(s, pos as int).1 == spec_group_elems(s, cur as int).1,
            done ==> spec_group_elems(s, cur as int) == (Seq::<Seq<u8>>::empty(), cur as int),
        decreases s.len() - cur + (if done {
            0int
        } else {
            1int
        }),
    {
        let q = scan_multispaces_at(input, cur);
        let step: Option<(Vec<u8>, usize)> = if q > cur {
            match node_or_cell_name(input, q) {
                Some(pn) => Some((bytes_range_to_vec(input, q, pn), pn)),
                None => None,
            }
        } else {
            None
        };
        match step {
            Some(st) => {
                proof {
                    lemma_token_bounds(s, q as int);
                    assert(spec_group_elems(s, cur as int).0 == seq![st.0@] + spec_group_elems(
                        s,
                        st.1 as int,
                    ).0);
                    assert(spec_group_elems(s, cur as int).1 == spec_group_elems(
                        s,
                        st.1 as int,
                    ).1);
                }
                let ghost old_map = acc@.map_values(|n: Vec<u8>| n@);
                let st1 = st.1;
                acc.push(st.0);
                proof {
                    assert(acc@.map_values(|n: Vec<u8>| n@) =~= old_map + seq![acc@.last()@]);
                    assert(old_map + (seq![acc@.last()@] + spec_group_elems(s, st1 as int).0) =~= (
                    old_map + seq![acc@.last()@]) + spec_group_elems(s, st1 as int).0);
                }
                cur = st1;
            },
            None => {
                done = true;
            },
        }
    }
    proof {
        assert(acc@.map_values(|n: Vec<u8>| n@) + Seq::<Seq<u8>>::empty() =~= acc@.map_values(
            |n: Vec<u8>| n@,
        ));
    }
    (acc, cur)
}

// ---------------------------------------------------------------------------
// Sections
// ---------------------------------------------------------------------------

/// Matches one of the twenty cell-type section headers.
pub fn cell_type_tag(input: &[u8], pos: usize) -> (r: Option<(CellType, usize)>)
    requires
        pos <= input@.len(),
    ensures
        r is Some <==> spec_cell_type_tag(input@, pos as int) is Some,
        r matches Some(t) ==> spec_cell_type_tag(input@, pos as int) == Some((t.0, t.1 as int))
            && pos < t.1 <= input@.len(),
{
    proof {
        lemma_try_tags_bounds(input@, pos as int, all_cell_types());
    }
    let candidates: [CellType; 20] = [
        CellType::POI1,
        CellType::SEG2,
        CellType::SEG3,
        CellType::SEG4,
        CellType::TRIA3,
        CellType::TRIA6,
        CellType::TRIA7,
        CellType::QUAD4,
        CellType::QUAD8,
        CellType::QUAD9,
        CellType::HEXA8,
        CellType::HEXA20,
        CellType::HEXA27,
        CellType::PENTA6,
        CellType::PENTA15,
        CellType::PENTA18,
        CellType::TETRA4,
        CellType::TETRA10,
        CellType::PYRAM5,
        CellType::PYRAM13,
    ];
    proof {
        assert(candidates@ =~= all_cell_types());
        assert(all_cell_types().skip(0) =~= all_cell_types());
    }
    let mut i: usize = 0;
    while i < 20
        invariant
            0 <= i <= 20,
            pos <= input@.len(),
            candidates@ == all_cell_types(),
            spec_cell_type_tag(input@, pos as int) == spec_try_tags(
                input@,
                pos as int,
                all_cell_types().skip(i as int),
            ),
        decreases 20 - i,
    {
        let t = candidates[i];
        let tag = t.tag_bytes();
        let ghost ts = all_cell_types().skip(i as int);
        proof {
            assert(ts[0] == t);
        }
        match lit_at(input, pos, tag.as_slice()) {
            Some(p) => {
                proof {
                    assert(spec_try_tags(input@, pos as int, ts) == Some((t, p as int)));
                }
                return Some((t, p));
            },
            None => {
                proof {
                    assert(spec_try_tags(input@, pos as int, ts) == spec_try_tags(
                        input@,
                        pos as int,
                        ts.drop_first(),
                    ));
                    assert(ts.drop_first() =~= all_cell_types().skip(i + 1));
                }
            },
        }
        i += 1;
    }
    proof {
        assert(all_cell_types().skip(20) =~= Seq::<CellType>::empty());
        assert(spec_try_tags(input@, pos as int, Seq::<CellType>::empty()) is None);
    }
    None
}

/// Parses a node-coordinate section.
pub fn node_3d_section(input: &[u8], pos: usize) -> (r: Option<(Vec<NodeProp>, usize)>)
    requires
        pos <= input@.len(),
    ensures
        r is Some <==> spec_node_3d_section(input@, pos as int) is Some,
        r matches Some(v) ==> spec_node_3d_section(input@, pos as int) matches Some(sv)
            && v.0@.map_values(|n: NodeProp| n@) == sv.0 && v.1 == sv.1 && pos < v.1
            <= input@.len(),
{
    proof {
        lemma_section_bounds(input@, pos as int);
    }
    let p0 = scan_spaces_at(input, pos);
    match start_3d_node_section(input, p0) {
        Some(pt) => {
            let p1 = scan_spaces_at(input, pt);
            match comment_or_line_ending(input, p1) {
                Some(pl) => {
                    let p2 = skip_line_endings_at(input, pl);
                    let body = parse_node_descs(input, p2);
                    let p3 = skip_line_endings_at(input, body.1);
                    match end_section_tag(input, p3) {
                        Some(pe) => Some((body.0, pe)),
                        None => None,
                    }
                },
                None => None,
            }
        },
        None => None,
    }
}

/// Parses a cell section.
pub fn cell_section(input: &[u8], pos: usize) -> (r: Option<(Vec<CellProp>, usize)>)
    requires
        pos <= input@.len(),
    ensures
        r is Some <==> spec_cell_section(input@, pos as int) is Some,
        r matches Some(v) ==> spec_cell_section(input@, pos as int) matches Some(sv)
            && v.0@.map_values(|c: CellProp| c@) == sv.0 && v.1 == sv.1 && pos < v.1
            <= input@.len(),
{
    proof {
        lemma_section_bounds(input@, pos as int);
    }
    let p0 = scan_spaces_at(input, pos);
    match cell_type_tag(input, p0) {
        Some(t) => {
            let p1 = scan_spaces_at(input, t.1);
            let body = parse_cell_descs(input, p1, t.0);
            let p2 = skip_line_endings_at(input, body.1);
            match end_section_tag(input, p2) {
                Some(pe) => Some((body.0, pe)),
                None => None,
            }
        },
        None => None,
    }
}

/// Parses the body of a group section, after its `GROUP_NO` or `GROUP_MA`
/// header.
pub fn group_description(group_type: GroupType, input: &[u8], pos: usize) -> (r: Option<
    (Group, usize),
>)
    requires
        pos <= input@.len(),
    ensures
        r is Some <==> spec_group_description(input@, pos as int, group_type) is Some,
        r matches Some(g) ==> spec_group_description(input@, pos as int, group_type) matches Some(
            sg,
        ) && g.0@ == sg.0 && g.1 == sg.1 && pos <= g.1 <= input@.len(),
{
    proof {
        lemma_group_description_bounds(input@, pos as int, group_type);
    }
    let p0 = scan_spaces_at(input, pos);
    let p1 = match nom_keyword_at(input, p0) {
        Some(pn) => {
            let pe = scan_spaces_at(input, pn);
            if pe < input.len() && input[pe] == 61 {
                pe + 1
            } else {
                p0
            }
        },
        None => p0,
    };
    let p2 = scan_spaces_at(input, p1);
    match group_name(input, p2) {
        Some(pg) => {
            let p3 = skip_line_endings_at(input, pg);
            let body = parse_group_elems(input, p3);
            let p4 = skip_line_endings_at(input, body.1);
            let p5 = scan_multispaces_at(input, p4);
            match end_section_tag(input, p5) {
                Some(pe) => {
                    let name = bytes_range_to_vec(input, p2, pg);
                    Some((Group { group_type, name, elems: body.0 }, pe))
                },
                None => None,
            }
        },
        None => None,
    }
}

/// Parses a group section.
pub fn group_section(input: &[u8], pos: usize) -> (r: Option<(Group, usize)>)
    requires
        pos <= input@.len(),
    ensures
        r is Some <==> spec_group_section(input@, pos as int) is Some,
        r matches Some(g) ==> spec_group_section(input@, pos as int) matches Some(sg) && g.0@
            == sg.0 && g.1 == sg.1 && pos < g.1 <= input@.len(),
{
    proof {
        lemma_section_bounds(input@, pos as int);
    }
    let p0 = scan_spaces_at(input, pos);
    let header: Option<(GroupType, usize)> = match start_gno_section(input, p0) {
        Some(p) => Some((GroupType::Node, p)),
        None => match start_gma_section(input, p0) {
            Some(p) => Some((GroupType::Cell, p)),
            None => None,
        },
    };
    match header {
        Some(h) => {
            let p1 = scan_multispaces_at(input, h.1);
            let p2 = skip_line_endings_at(input, p1);
            let p3 = scan_multispaces_at(input, p2);
            group_description(h.0, input, p3)
        },
        None => None,
    }
}

/// Parses any one section: node coordinates, cells, or a group.
fn parse_section(input: &[u8], pos: usize) -> (r: Option<(MailValue, usize)>)
    requires
        pos <= input@.len(),
    ensures
        r is Some <==> spec_section(input@, pos as int) is Some,
        r matches Some(v) ==> spec_section(input@, pos as int) matches Some(sv) && v.0@ == sv.0
            && v.1 == sv.1 && pos < v.1 <= input@.len(),
{
    proof {
        lemma_section_bounds(input@, pos as int);
    }
    match node_3d_section(input, pos) {
        Some(v) => Some((MailValue::NodeElts(v.0), v.1)),
        None => match cell_section(input, pos) {
            Some(v) => Some((MailValue::Cells(v.0), v.1)),
            None => match group_section(input, pos) {
                Some(v) => Some((MailValue::Group(v.0), v.1)),
                None => None,
            },
        },
    }
}

// ---------------------------------------------------------------------------
// The document
// ---------------------------------------------------------------------------

/// Adds one parsed section value to the accumulator.
fn fold_into(acc: &mut MailParseOutput, v: MailValue)
    ensures
        final(acc)@ == spec_fold_step(old(acc)@, v@),
{
    match v {
        MailValue::NodeElts(ns) => {
            let ghost ns_view = ns@.map_values(|n: NodeProp| n@);
            let mut ns_m = ns;
            acc.nodes.append(&mut ns_m);
            proof {
                assert(acc@.nodes =~= old(acc)@.nodes + ns_view);
            }
        },
        MailValue::Cells(cs) => {
            let ghost cs_view = cs@.map_values(|c: CellProp| c@);
            let mut cs_m = cs;
            acc.cells.append(&mut cs_m);
            proof {
                assert(acc@.cells =~= old(acc)@.cells + cs_view);
            }
        },
        MailValue::Group(g) => {
            let ghost g_view = g@;
            acc.groups.push(g);
            proof {
                assert(acc@.groups =~= old(acc)@.groups.push(g_view));
            }
        },
        MailValue::Title(_) => {},
    }
}

/// Parses the whole document greedily: sections separated by useless lines,
/// folded into the accumulator.  Yields the accumulator and the offset one
/// past the recognized prefix.
pub fn mail_intermediate_parser(input: &[u8]) -> (r: (MailParseOutput, usize))
    ensures
        r.0@ == spec_fold(spec_document(input@).0),
        r.1 == spec_document(input@).1,
        r.1 <= input@.len(),
{
    let ghost s = input@;
    proof {
        lemma_document_bounds(s);
        lemma_skip_bounds(s, 0);
    }
    let p0 = skip_useless_lines_at(input, 0);
    match parse_section(input, p0) {
        None => {
            let out = MailParseOutput::new();
            proof {
                assert(spec_document(s).0 =~= Seq::<SpecMailValue>::empty());
                assert(out@ == spec_fold(spec_document(s).0));
            }
            (out, p0)
        },
        Some(first) => {
            proof {
                lemma_section_bounds(s, p0 as int);
            }
            let ghost v0 = first.0@;
            let mut acc = MailParseOutput::new();
            proof {
                assert(acc@ == spec_fold(Seq::<SpecMailValue>::empty()));
            }
            fold_into(&mut acc, first.0);
            let ghost mut vs: Seq<SpecMailValue> = seq![v0];
            proof {
                assert(vs.drop_last() =~= Seq::<SpecMailValue>::empty());
                assert(vs.last() == v0);
                assert(acc@ == spec_fold(vs));
            }
            proof {
                lemma_sections_tail_bounds(s, first.1 as int);
            }
            let mut cur = first.1;
            let mut done = false;
            while !done
                invariant
                    0 <= cur <= s.len(),
                    s == input@,
                    acc@ == spec_fold(vs),
                    spec_document(s).0 == vs + spec_sections_tail(s, cur as int).0,
                    spec_document(s).1 == spec_skip_useless_lines(
                        s,
                        spec_sections_tail(s, cur as int).1,
                    ),
                    spec_sections_tail(s, cur as int).1 <= s.len(),
                    done ==> spec_sections_tail(s, cur as int) == (
                        Seq::<SpecMailValue>::empty(),
                        cur as int,
                    ),
                decreases s.len() - cur + (if done {
                    0int
                } else {
                    1int
                }),
            {
                proof {
                    lemma_sections_tail_bounds(s, cur as int);
                }
                match useless_line(input, cur) {
                    None => {
                        proof {
                            assert(spec_sections_tail(s, cur as int) == (
                                Seq::<SpecMailValue>::empty(),
                                cur as int,
                            ));
                        }
                        done = true;
                    },
                    Some(_) => {
                        let p1 = skip_useless_lines_at(input, cur);
                        proof {
                            lemma_useless_advances(s, cur as int);
                        }
                        match parse_section(input, p1) {
                            None => {
                                proof {
                                    assert(spec_sections_tail(s, cur as int) == (
                                        Seq::<SpecMailValue>::empty(),
                                        cur as int,
                                    ));
                                }
                                done = true;
                            },
                            Some(sec) => {
                                proof {
                                    lemma_section_bounds(s, p1 as int);
                                    assert(spec_sections_tail(s, cur as int).0 == seq![sec.0@]
                                        + spec_sections_tail(s, sec.1 as int).0);
                                    assert(spec_sections_tail(s, cur as int).1
                                        == spec_sections_tail(s, sec.1 as int).1);
                                }
                                let ghost v = sec.0@;
                                let sec1 = sec.1;
                                fold_into(&mut acc, sec.0);
                                proof {
                                    let vs2 = vs.push(v);
                                    assert(vs2.drop_last() =~= vs);
                                    assert(vs2.last() == v);
                                    assert(acc@ == spec_fold(vs2));
                                    assert(vs + (seq![v] + spec_sections_tail(s, sec1 as int).0)
                                        =~= vs2 + spec_sections_tail(s, sec1 as int).0);
                                    vs = vs2;
                                }
                                cur = sec1;
                            },
                        }
                    },
                }
            }
            let pend = skip_useless_lines_at(input, cur);
            proof {
                assert(vs + Seq::<SpecMailValue>::empty() =~= vs);
            }
            (acc, pend)
        },
    }
}

/// Whether the input at `pos` starts with a token shaped like a cell-section
/// header that is not in the taxonomy.
fn unknown_header_at(input: &[u8], pos: usize) -> (r: bool)
    requires
        pos <= input@.len(),
    ensures
        r == spec_unknown_header_at(input@, pos as int),
{
    let q = scan_spaces_at(input, pos);
    let a = scan_alphas_at(input, q);
    let d = scan_digits_at(input, a);
    if a - q >= 2 && d > a {
        let tok = bytes_range_to_vec(input, q, d);
        match CellType::from_bytes(tok.as_slice()) {
            Ok(_) => false,
            Err(_) => true,
        }
    } else {
        false
    }
}

/// Parses a whole mail document given as bytes.  The entire input must be
/// recognized; trailing unparsed content is an error.
pub fn parse_mail_bytes(input: &[u8]) -> (r: Result<MailParseOutput, ParseError>)
    ensures
        match r {
            Ok(out) => spec_parse_mail(input@) == Some(out@),
            Err(e) => spec_parse_mail(input@) is None && e == spec_parse_error(input@),
        },
{
    let parsed = mail_intermediate_parser(input);
    if parsed.1 == input.len() {
        Ok(parsed.0)
    } else {
        if unknown_header_at(input, parsed.1) {
            Err(ParseError::UnsupportedCellType { offset: parsed.1 })
        } else {
            Err(ParseError::Syntax { offset: parsed.1 })
        }
    }
}

/// Law: parsing is idempotent on its output shape.  The contract of
/// [`mail_parser`] pins its result to `spec_parse_mail` of the document
/// text, so parsing the same text twice yields structurally equal parse
/// outputs.
pub proof fn lemma_parse_deterministic(
    s: Seq<u8>,
    out1: SpecParseOutput,
    out2: SpecParseOutput,
)
    requires
        spec_parse_mail(s) == Some(out1),
        spec_parse_mail(s) == Some(out2),
    ensures
        out1 == out2,
{
}

/// Parses a whole mail document given as text.  The entire input must be
/// recognized; trailing unparsed content is an error.
pub fn mail_parser(input: &str) -> (r: Result<MailParseOutput, ParseError>)
    ensures
        match r {
            Ok(out) => spec_parse_mail(input.spec_bytes()) == Some(out@),
            Err(e) => spec_parse_mail(input.spec_bytes()) is None && e == spec_parse_error(
                input.spec_bytes(),
            ),
        },
{
    parse_mail_bytes(input.as_bytes())
}

} // verus!
