//! End-to-end scenarios: parsing documents and building meshes from them,
//! the cell-type table, and the error cases.

use meshb::cell::MeshCell;
use meshb::mail_parser::mail_parser;
use meshb::mesh::Mesh;
use meshb::mesh::MeshError;
use meshb::mesh_enums::CellType;
use meshb::tokens::ParseError;

#[test]
fn cell_type_connectivity_nb_should_work() {
    assert_eq!(CellType::POI1.get_nb_of_connectivities(), 1);
    assert_eq!(CellType::SEG2.get_nb_of_connectivities(), 2);
    assert_eq!(CellType::SEG3.get_nb_of_connectivities(), 3);
    assert_eq!(CellType::SEG4.get_nb_of_connectivities(), 4);
    assert_eq!(CellType::TRIA3.get_nb_of_connectivities(), 3);
    assert_eq!(CellType::TRIA6.get_nb_of_connectivities(), 6);
    assert_eq!(CellType::TRIA7.get_nb_of_connectivities(), 7);
    assert_eq!(CellType::QUAD4.get_nb_of_connectivities(), 4);
    assert_eq!(CellType::QUAD8.get_nb_of_connectivities(), 8);
    assert_eq!(CellType::QUAD9.get_nb_of_connectivities(), 9);
    assert_eq!(CellType::HEXA8.get_nb_of_connectivities(), 8);
    assert_eq!(CellType::HEXA20.get_nb_of_connectivities(), 20);
    assert_eq!(CellType::HEXA27.get_nb_of_connectivities(), 27);
    assert_eq!(CellType::PENTA6.get_nb_of_connectivities(), 6);
    assert_eq!(CellType::PENTA15.get_nb_of_connectivities(), 15);
    assert_eq!(CellType::PENTA18.get_nb_of_connectivities(), 18);
    assert_eq!(CellType::TETRA4.get_nb_of_connectivities(), 4);
    assert_eq!(CellType::TETRA10.get_nb_of_connectivities(), 10);
    assert_eq!(CellType::PYRAM5.get_nb_of_connectivities(), 5);
    assert_eq!(CellType::PYRAM13.get_nb_of_connectivities(), 13);
}

#[test]
fn cell_type_from_string_round_trips_the_table() {
    assert_eq!(CellType::from_string("POI1"), Ok(CellType::POI1));
    assert_eq!(CellType::from_string("HEXA20"), Ok(CellType::HEXA20));
    assert_eq!(CellType::from_string("PYRAM13"), Ok(CellType::PYRAM13));
    assert!(CellType::from_string("Poi1").is_err());
    assert!(CellType::from_string("TRIA9").is_err());
    assert!(CellType::from_string("").is_err());
}

#[test]
fn one_node_section_parses_to_one_record() {
    let out = mail_parser("COOR_3D\nN1 1.0 2.0 3.0\nFINSF").unwrap();
    assert_eq!(out.nodes.len(), 1);
    assert_eq!(out.nodes[0].name, Some(b"N1".to_vec()));
    assert_eq!(out.nodes[0].x, b"1.0".to_vec());
    assert_eq!(out.nodes[0].y, b"2.0".to_vec());
    assert_eq!(out.nodes[0].z, b"3.0".to_vec());
    assert_eq!(out.cells.len(), 0);
    assert_eq!(out.groups.len(), 0);
}

#[test]
fn parsing_twice_yields_equal_outputs() {
    let text = "COOR_3D\nN1 1.0 2.0 3.0\nN2 4 5 6\nFINSF\nPOI1\nM1 N1\nFINSF\nGROUP_NO GRP1 N1 N2\nFINSF";
    let out1 = mail_parser(text).unwrap();
    let out2 = mail_parser(text).unwrap();
    assert_eq!(out1, out2);
}

#[test]
fn an_empty_document_parses_to_an_empty_output() {
    let out = mail_parser("").unwrap();
    assert_eq!(out.nodes.len(), 0);
    assert_eq!(out.cells.len(), 0);
    assert_eq!(out.groups.len(), 0);
    let out = mail_parser(" \n %only a comment\n").unwrap();
    assert_eq!(out.nodes.len(), 0);
}

#[test]
fn a_point_cell_builds_with_the_resolved_node_id() {
    let out = mail_parser("COOR_3D\nN1 1.0 2.0 3.0\nFINSF\nPOI1\nM1 N1\nFINSF").unwrap();
    let mesh = Mesh::create_from_parser_output(out).unwrap();
    assert_eq!(mesh.nodes.len(), 1);
    assert_eq!(mesh.cells.len(), 1);
    assert_eq!(
        mesh.cells[0],
        MeshCell { ty: CellType::POI1, co: vec![0] }
    );
    assert_eq!(mesh.nodes_name_to_id.get(b"N1"), Some(0));
}

#[test]
fn a_truncated_cell_description_is_a_syntax_error() {
    // SEG2 needs two node names; only one is supplied, so the section does
    // not parse, rather than yielding a truncated cell.
    let r = mail_parser("SEG2\nM1 N1\nFINSF");
    assert!(matches!(r, Err(ParseError::Syntax { .. })));
}

#[test]
fn an_unknown_cell_header_is_reported_as_unsupported() {
    let r = mail_parser("TRIA9\nM1 N1\nFINSF");
    assert_eq!(r, Err(ParseError::UnsupportedCellType { offset: 0 }));
}

#[test]
fn trailing_unparsed_input_is_a_syntax_error() {
    let r = mail_parser("COOR_3D\nN1 1.0 2.0 3.0\nFINSF\nleftover");
    assert!(matches!(r, Err(ParseError::Syntax { .. })));
    if let Err(ParseError::Syntax { offset }) = r {
        // Recognition stops right after the first section and its separator
        // has been tried; the offset points at the stray content's line.
        assert!(offset <= "COOR_3D\nN1 1.0 2.0 3.0\nFINSF\nleftover".len());
    }
}

#[test]
fn a_dangling_node_reference_fails_the_build() {
    let out = mail_parser("COOR_3D\nN1 1.0 2.0 3.0\nFINSF\nPOI1\nM1 N99\nFINSF").unwrap();
    let r = Mesh::create_from_parser_output(out);
    assert_eq!(r.err(), Some(MeshError::UnknownReference));
}

#[test]
fn a_node_group_builds_sorted_and_fails_fast_on_a_missing_member() {
    let out = mail_parser(
        "COOR_3D\nN1 1.0 2.0 3.0\nN2 4.0 5.0 6.0\nFINSF\nGROUP_NO GRP1 N2 N1\nFINSF",
    )
    .unwrap();
    let mesh = Mesh::create_from_parser_output(out).unwrap();
    assert_eq!(mesh.gno.len(), 1);
    // Both identifiers, sorted ascending.
    assert_eq!(mesh.gno.get(b"GRP1").unwrap(), &vec![0, 1]);

    // With `N2` undefined the whole build fails and no mesh is returned.
    let out = mail_parser("COOR_3D\nN1 1.0 2.0 3.0\nFINSF\nGROUP_NO GRP1 N1 N2\nFINSF").unwrap();
    let r = Mesh::create_from_parser_output(out);
    assert_eq!(r.err(), Some(MeshError::UnknownReference));
}

#[test]
fn a_cell_group_resolves_through_the_cell_name_index() {
    let out = mail_parser(
        "COOR_3D\nN1 1.0 2.0 3.0\nN2 4.0 5.0 6.0\nFINSF\nPOI1\nM1 N1\nM2 N2\nFINSF\nGROUP_MA GRP3 M2 M1\nFINSF",
    )
    .unwrap();
    let mesh = Mesh::create_from_parser_output(out).unwrap();
    assert_eq!(mesh.gma.len(), 1);
    assert_eq!(mesh.gma.get(b"GRP3").unwrap(), &vec![0, 1]);

    let out = mail_parser(
        "COOR_3D\nN1 1.0 2.0 3.0\nFINSF\nPOI1\nM1 N1\nFINSF\nGROUP_MA GRP3 M9\nFINSF",
    )
    .unwrap();
    assert_eq!(Mesh::create_from_parser_output(out).err(), Some(MeshError::UnknownReference));
}

#[test]
fn read_mail_format_parses_like_the_parser() {
    let text = "COOR_3D\nN1 1.0 2.0 3.0\nFINSF";
    assert_eq!(Mesh::read_mail_format(text), mail_parser(text));
    assert!(Mesh::read_mail_format("FINSF").is_err());
}

#[test]
fn a_repeated_node_name_resolves_to_its_last_definition() {
    let out = mail_parser("COOR_3D\nN1 1 2 3\nN1 4 5 6\nFINSF\nPOI1\nM1 N1\nFINSF").unwrap();
    let mesh = Mesh::create_from_parser_output(out).unwrap();
    assert_eq!(mesh.nodes.len(), 2);
    assert_eq!(mesh.nodes_name_to_id.get(b"N1"), Some(1));
    assert_eq!(mesh.get_cell_co(0).unwrap(), vec![1]);
}

#[test]
fn creating_a_group_under_an_existing_name_replaces_it() {
    let out = mail_parser("COOR_3D\nN1 1 2 3\nN2 4 5 6\nN3 7 8 9\nFINSF").unwrap();
    let mut mesh = Mesh::create_from_parser_output(out).unwrap();
    assert_eq!(mesh.create_node_group(b"GROUP1".to_vec(), &vec![0]), Ok(()));
    assert_eq!(mesh.create_node_group(b"GROUP1".to_vec(), &vec![2, 1]), Ok(()));
    assert_eq!(mesh.gno.len(), 1);
    assert_eq!(mesh.gno.get(b"GROUP1").unwrap(), &vec![1, 2]);
}

#[test]
fn the_largest_cell_type_reads_its_full_connectivity() {
    let mut text = String::from("HEXA27\nM1");
    for k in 1..28 {
        text.push_str(&format!(" N{}", k));
    }
    text.push_str("\nFINSF");
    let out = mail_parser(&text).unwrap();
    assert_eq!(out.cells.len(), 1);
    assert_eq!(out.cells[0].cell_type, CellType::HEXA27);
    assert_eq!(out.cells[0].nodes.len(), 27);
    assert_eq!(out.cells[0].nodes[26], b"N27".to_vec());

    // One name short of the fixed width: the section does not parse.
    let mut short = String::from("HEXA27\nM1");
    for k in 1..27 {
        short.push_str(&format!(" N{}", k));
    }
    short.push_str("\nFINSF");
    assert!(mail_parser(&short).is_err());
}

#[test]
fn each_mesh_error_describes_itself() {
    assert!(MeshError::ArityMismatch.message().contains("arity"));
    assert!(MeshError::NotFound.message().contains("not found"));
    assert!(MeshError::MissingGroupMember.message().contains("not contained"));
    assert!(MeshError::UnknownReference.message().contains("not defined"));
}

#[test]
fn a_batch_of_cells_gets_sequential_fresh_ids() {
    let out = mail_parser("COOR_3D\nN1 1.0 2.0 3.0\nN2 4 5 6\nFINSF").unwrap();
    let mut mesh = Mesh::create_from_parser_output(out).unwrap();
    let first = mesh.add_cells_of_type(CellType::POI1, &[vec![0], vec![1]]).unwrap();
    assert_eq!(first, vec![0, 1]);
    let second = mesh.add_cells_of_type(CellType::SEG2, &[vec![0, 1]]).unwrap();
    assert_eq!(second, vec![2]);
    assert_eq!(mesh.next_cell_id, 3);
    // A rejected batch consumes no identifiers.
    assert!(mesh.add_cells_of_type(CellType::SEG2, &[vec![0, 1], vec![0]]).is_err());
    assert_eq!(mesh.next_cell_id, 3);
    let third = mesh.add_cells_of_type(CellType::SEG2, &[vec![1, 0]]).unwrap();
    assert_eq!(third, vec![3]);
}
