//! Tests for the grammar primitives and section parsers.

use meshb::mail_parser::cell_section;
use meshb::mail_parser::cell_type_tag;
use meshb::mail_parser::comment_or_line_ending;
use meshb::mail_parser::end_section_tag;
use meshb::mail_parser::group_name;
use meshb::mail_parser::group_section;
use meshb::mail_parser::mail_parser;
use meshb::mail_parser::node_3d_coords;
use meshb::mail_parser::node_3d_section;
use meshb::mail_parser::node_description;
use meshb::mail_parser::node_or_cell_name;
use meshb::mail_parser::start_3d_node_section;
use meshb::mail_parser::start_gma_section;
use meshb::mail_parser::start_gno_section;
use meshb::mail_parser::useless_line;
use meshb::mesh_enums::CellType;
use meshb::tokens::GroupType;

#[test]
fn mail_parser_node_name_parser_should_work() {
    assert_eq!(node_or_cell_name(b"23", 0), None);
    assert_eq!(node_or_cell_name(b"N", 0), None);
    assert_eq!(node_or_cell_name(b"N12", 0), Some(3));
    // A name is one letter followed by digits; a second letter does not fit.
    assert_eq!(node_or_cell_name(b"MD12", 0), None);
}

#[test]
fn mail_parser_should_parse_node_3d_coords() {
    let r = node_3d_coords(b"1 2 3", 0).unwrap();
    assert_eq!(r.0, b"1".to_vec());
    assert_eq!(r.1, b"2".to_vec());
    assert_eq!(r.2, b"3".to_vec());
    assert_eq!(r.3, 5);

    let r = node_3d_coords(b"   1  2 3 ", 0).unwrap();
    assert_eq!((r.0, r.1, r.2, r.3), (b"1".to_vec(), b"2".to_vec(), b"3".to_vec(), 10));

    let r = node_3d_coords(b"   1.0  2 3.01 ", 0).unwrap();
    assert_eq!((r.0, r.1, r.2, r.3), (b"1.0".to_vec(), b"2".to_vec(), b"3.01".to_vec(), 15));

    let r = node_3d_coords(b"   1.0e1  2E+1 3.01E+00 ", 0).unwrap();
    assert_eq!(r.0, b"1.0e1".to_vec());
    assert_eq!(r.1, b"2E+1".to_vec());
    assert_eq!(r.2, b"3.01E+00".to_vec());
    assert_eq!(r.3, 24);

    // A comma is not part of a float literal and breaks the triple.
    assert!(node_3d_coords(b" 1,2  23.3 233", 0).is_none());

    // The whitespace between coordinates may include line breaks.
    let r = node_3d_coords(b"   1\n  2 3 ", 0).unwrap();
    assert_eq!((r.0, r.1, r.2, r.3), (b"1".to_vec(), b"2".to_vec(), b"3".to_vec(), 11));
}

#[test]
fn mail_parser_node_description_parser_should_work() {
    assert!(node_description(b"23", 0).is_none());
    assert!(node_description(b"N12", 0).is_none());

    let (np, end) = node_description(b"N12 1.2  23.3 233\n", 0).unwrap();
    assert_eq!(np.name, Some(b"N12".to_vec()));
    assert_eq!(np.x, b"1.2".to_vec());
    assert_eq!(np.y, b"23.3".to_vec());
    assert_eq!(np.z, b"233".to_vec());
    assert_eq!(end, 18);

    let (np, end) = node_description(b"  N12 1.2  23.3 233\n", 0).unwrap();
    assert_eq!(np.name, Some(b"N12".to_vec()));
    assert_eq!(end, 20);
}

#[test]
fn mail_parser_end_section_parser_should_work() {
    assert_eq!(end_section_tag(b"FINSF", 0), Some(5));
    assert_eq!(end_section_tag(b"TINSF", 0), None);
}

#[test]
fn mail_parser_start_node_section_parser_should_work() {
    assert_eq!(start_3d_node_section(b"COOR_3D", 0), Some(7));
    assert_eq!(start_3d_node_section(b"COORD3D", 0), None);
}

#[test]
fn mail_parser_node_3d_section_parser_should_work() {
    let input = b"COOR_3D  \n\nN1 2  3.0 4\nFINSF";
    let (nodes, end) = node_3d_section(input, 0).unwrap();
    assert_eq!(end, input.len());
    assert_eq!(nodes.len(), 1);
    assert_eq!(nodes[0].name, Some(b"N1".to_vec()));
    assert_eq!(nodes[0].x, b"2".to_vec());
    assert_eq!(nodes[0].y, b"3.0".to_vec());
    assert_eq!(nodes[0].z, b"4".to_vec());

    let input = b"COOR_3D\nN1 2  3.0 4\nN2 3  4 4\nFINSF";
    let (nodes, end) = node_3d_section(input, 0).unwrap();
    assert_eq!(end, input.len());
    assert_eq!(nodes.len(), 2);
    assert_eq!(nodes[0].name, Some(b"N1".to_vec()));
    assert_eq!(nodes[1].name, Some(b"N2".to_vec()));
}

#[test]
fn mail_parser_cell_type_tag_should_work() {
    assert_eq!(cell_type_tag(b"Poi1", 0), None);
    assert_eq!(cell_type_tag(b"POI1", 0), Some((CellType::POI1, 4)));
    assert_eq!(cell_type_tag(b"SEG2", 0), Some((CellType::SEG2, 4)));
    assert_eq!(cell_type_tag(b"SEG3", 0), Some((CellType::SEG3, 4)));
    assert_eq!(cell_type_tag(b"SEG4", 0), Some((CellType::SEG4, 4)));
    assert_eq!(cell_type_tag(b"TRIA3", 0), Some((CellType::TRIA3, 5)));
    assert_eq!(cell_type_tag(b"TRIA6", 0), Some((CellType::TRIA6, 5)));
    assert_eq!(cell_type_tag(b"TRIA7", 0), Some((CellType::TRIA7, 5)));
    assert_eq!(cell_type_tag(b"QUAD4", 0), Some((CellType::QUAD4, 5)));
    assert_eq!(cell_type_tag(b"QUAD8", 0), Some((CellType::QUAD8, 5)));
    assert_eq!(cell_type_tag(b"QUAD9", 0), Some((CellType::QUAD9, 5)));
    assert_eq!(cell_type_tag(b"HEXA8", 0), Some((CellType::HEXA8, 5)));
    assert_eq!(cell_type_tag(b"HEXA20", 0), Some((CellType::HEXA20, 6)));
    assert_eq!(cell_type_tag(b"HEXA27", 0), Some((CellType::HEXA27, 6)));
    assert_eq!(cell_type_tag(b"PENTA6", 0), Some((CellType::PENTA6, 6)));
    assert_eq!(cell_type_tag(b"PENTA15", 0), Some((CellType::PENTA15, 7)));
    assert_eq!(cell_type_tag(b"PENTA18", 0), Some((CellType::PENTA18, 7)));
    assert_eq!(cell_type_tag(b"TETRA4", 0), Some((CellType::TETRA4, 6)));
    assert_eq!(cell_type_tag(b"TETRA10", 0), Some((CellType::TETRA10, 7)));
    assert_eq!(cell_type_tag(b"PYRAM5", 0), Some((CellType::PYRAM5, 6)));
    assert_eq!(cell_type_tag(b"PYRAM13", 0), Some((CellType::PYRAM13, 7)));
}

#[test]
fn mail_parser_cell_section_parser_should_work() {
    let input = b"POI1  \n\nM1 N2   \nFINSF";
    let (cells, end) = cell_section(input, 0).unwrap();
    assert_eq!(end, input.len());
    assert_eq!(cells.len(), 1);
    assert_eq!(cells[0].cell_type, CellType::POI1);
    assert_eq!(cells[0].name, Some(b"M1".to_vec()));
    assert_eq!(cells[0].nodes, vec![b"N2".to_vec()]);

    let input = b"POI1  \n\nM1 N2   \nM2 N3\nFINSF";
    let (cells, end) = cell_section(input, 0).unwrap();
    assert_eq!(end, input.len());
    assert_eq!(cells.len(), 2);
    assert_eq!(cells[1].name, Some(b"M2".to_vec()));
    assert_eq!(cells[1].nodes, vec![b"N3".to_vec()]);

    // The whitespace before a referenced node name may cross a line break.
    let input = b"POI1  \n\nM1 \n N2   \nM2 N3\nFINSF";
    let (cells, end) = cell_section(input, 0).unwrap();
    assert_eq!(end, input.len());
    assert_eq!(cells.len(), 2);
    assert_eq!(cells[0].nodes, vec![b"N2".to_vec()]);

    let input = b"SEG2\nM1 N1 N2\nFINSF";
    let (cells, end) = cell_section(input, 0).unwrap();
    assert_eq!(end, input.len());
    assert_eq!(cells.len(), 1);
    assert_eq!(cells[0].cell_type, CellType::SEG2);
    assert_eq!(cells[0].nodes, vec![b"N1".to_vec(), b"N2".to_vec()]);
}

#[test]
fn mail_parser_group_name_should_work() {
    assert_eq!(group_name(b"GOP1", 0), Some(4));
    assert_eq!(group_name(b"aaaaaaa", 0), Some(7));
    assert_eq!(group_name(b"aaa_aaaa", 0), Some(8));
    assert_eq!(group_name(b"aa1a_Aaaa", 0), Some(9));
    assert_eq!(group_name(b"-a1a_Aaaa", 0), None);
    assert_eq!(group_name(b"1a_Aaaa", 0), None);
    assert_eq!(group_name(b"GOP2 d", 0), Some(4));
}

#[test]
fn mail_parser_start_gno_section_should_work() {
    assert_eq!(start_gno_section(b"GROUP_NO", 0), Some(8));
    assert_eq!(start_gno_section(b"GROUPNO", 0), None);
}

#[test]
fn mail_parser_start_gma_section_should_work() {
    assert_eq!(start_gma_section(b"GROUP_MA", 0), Some(8));
    assert_eq!(start_gma_section(b"GROUPMA", 0), None);
}

#[test]
fn mail_parser_group_section_parser_should_work() {
    // Member names must be one letter followed by digits; `bI1` and `Bi2`
    // are not member names, so the member list stays empty and the section
    // terminator is not where the grammar expects it.
    assert!(group_section(b"GROUP_NO nom = BORD_INT \n bI1 Bi2\n FINSF", 0).is_none());
    assert!(group_section(b"GROUP_NO BORD_INT \n bI1 Bi2\n FINSF", 0).is_none());
    assert!(group_section(b"GROUP_MA nom = BORD_INT \n bI1 Bi2\n FINSF", 0).is_none());
    assert!(group_section(b"GROUP_MA BORD_INT \n bI1 Bi2\n FINSF", 0).is_none());
    assert!(group_section(b"GROUP_MA BORD_INT \nbI1 Bi2 \n FINSF", 0).is_none());
    assert!(group_section(b"GROUP_MA \nBORD_INT bI1 Bi2 \n FINSF", 0).is_none());
    assert!(group_section(b"GROUP_MA \nBORD_INT\nbI1 Bi2 \n FINSF", 0).is_none());

    // With well-formed member names the same shapes parse.
    let input = b"GROUP_NO nom = BORD_INT \n B1 B2\n FINSF";
    let (group, end) = group_section(input, 0).unwrap();
    assert_eq!(end, input.len());
    assert_eq!(group.group_type, GroupType::Node);
    assert_eq!(group.name, b"BORD_INT".to_vec());
    assert_eq!(group.elems, vec![b"B1".to_vec(), b"B2".to_vec()]);

    let input = b"GROUP_MA BORD_INT \n B1 B2\n FINSF";
    let (group, end) = group_section(input, 0).unwrap();
    assert_eq!(end, input.len());
    assert_eq!(group.group_type, GroupType::Cell);
    assert_eq!(group.name, b"BORD_INT".to_vec());
    assert_eq!(group.elems, vec![b"B1".to_vec(), b"B2".to_vec()]);
}

#[test]
fn mail_parser_comment_or_lineending_should_work() {
    assert_eq!(comment_or_line_ending(b"%ble\n", 0), Some(5));
    assert_eq!(comment_or_line_ending(b"% ble &\n", 0), Some(8));
    assert_eq!(comment_or_line_ending(b"ddf % ble &\n", 0), None);
}

#[test]
fn mail_parser_useless_line_should_work() {
    assert_eq!(useless_line(b" \t%ble\n", 0), Some(7));
    assert_eq!(useless_line(b" \t  \n", 0), Some(5));
    assert_eq!(useless_line(b"\n", 0), Some(1));
    assert_eq!(useless_line(b" \n", 0), Some(2));
    assert_eq!(useless_line(b" % ble\n", 0), Some(7));
}

#[test]
fn mail_parser_mail_final_parser_should_work() {
    let out = mail_parser(
        "COOR_3D  \n\nN1 2  3.0 4\nFINSF\nCOOR_3D  \nN2 2  3.0 4\nN3 3  4 4\nFINSF",
    )
    .unwrap();
    assert_eq!(out.nodes.len(), 3);
    assert_eq!(out.cells.len(), 0);
    assert_eq!(out.groups.len(), 0);
    assert_eq!(out.nodes[0].name, Some(b"N1".to_vec()));
    assert_eq!(out.nodes[1].name, Some(b"N2".to_vec()));
    assert_eq!(out.nodes[2].name, Some(b"N3".to_vec()));

    let out = mail_parser(
        "COOR_3D  \n\nN1 2  3.0 4\nFINSF\nPOI1\nM1 N1\nFINSF\n\nCOOR_3D  \nN2 2  3.0 4\nN3 3  4 4\nFINSF",
    )
    .unwrap();
    assert_eq!(out.nodes.len(), 3);
    assert_eq!(out.cells.len(), 1);
    assert_eq!(out.cells[0].cell_type, CellType::POI1);
    assert_eq!(out.cells[0].nodes, vec![b"N1".to_vec()]);

    let out = mail_parser("COOR_3D %comment \nN1 2  3.0 4\n    % another comment\nFINSF").unwrap();
    assert_eq!(out.nodes.len(), 1);

    let out = mail_parser(
        "COOR_3D  \n\nN1 2  3.0 4\nFINSF\nCOOR_3D  \nN2 2  3.0 4\nN3 3  4 4\nFINSF\nGROUP_NO GRP1 N1 N2 \nFINSF \n",
    )
    .unwrap();
    assert_eq!(out.nodes.len(), 3);
    assert_eq!(out.groups.len(), 1);
    assert_eq!(out.groups[0].name, b"GRP1".to_vec());
    assert_eq!(out.groups[0].elems, vec![b"N1".to_vec(), b"N2".to_vec()]);

    let out = mail_parser(
        "\nCOOR_3D  \n\nN1 2  3.0 4\nFINSF\nCOOR_3D  \nN2 2  3.0 4\nN3 3  4 4\nFINSF",
    )
    .unwrap();
    assert_eq!(out.nodes.len(), 3);

    let out = mail_parser(
        " \n %comment\nCOOR_3D  \n\nN1 2  3.0 4\nFINSF\nCOOR_3D  \nN2 2  3.0 4\nN3 3  4 4\nFINSF \n %comment\n \n",
    )
    .unwrap();
    assert_eq!(out.nodes.len(), 3);

    let out = mail_parser(
        "COOR_3D\nN1 2 3.0 4\nN2 2 3.0 4\nN3 3 4 4\nFINSF\nPOI1\nM1 N1\nM2 N2\nFINSF\nSEG2\nM3 N1 N2\nM4 N1 N3\nFINSF\nGROUP_NO GRP1 N1 N2\nFINSF\nGROUP_NO\nGRP2 N1 N3\nFINSF\nGROUP_MA GRP3 M1 M2\nFINSF\nGROUP_MA\nGRP4 M1 M3\nFINSF \n",
    )
    .unwrap();
    assert_eq!(out.nodes.len(), 3);
    assert_eq!(out.cells.len(), 4);
    assert_eq!(out.groups.len(), 4);
    assert_eq!(out.cells[2].name, Some(b"M3".to_vec()));
    assert_eq!(out.cells[2].cell_type, CellType::SEG2);
    assert_eq!(out.groups[1].name, b"GRP2".to_vec());
    assert_eq!(out.groups[3].elems, vec![b"M1".to_vec(), b"M3".to_vec()]);
}
