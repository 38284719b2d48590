//! Tests for the mesh store API.

use meshb::mesh::Mesh;
use meshb::mesh_enums::CellType;
use meshb::node::Node;
use meshb::tokens::NodeProp;

fn node_prop(name: &[u8], x: &[u8], y: &[u8], z: &[u8]) -> NodeProp {
    NodeProp { name: Some(name.to_vec()), x: x.to_vec(), y: y.to_vec(), z: z.to_vec() }
}

fn get_mesh_with_six_nodes() -> Mesh {
    let mut mesh = Mesh::new();
    let nodes = vec![
        node_prop(b"N1", b"3.0", b"0.0", b"1.0"),
        node_prop(b"N2", b"2.0", b"1.0", b"1.0"),
        node_prop(b"N3", b"3.2", b"0.3", b"1.3"),
        node_prop(b"N4", b"2.1", b"1.1", b"1.1"),
        node_prop(b"N5", b"4.2", b"0.3", b"1.3"),
        node_prop(b"N6", b"3.1", b"1.1", b"1.1"),
    ];
    mesh.add_nodes(nodes);
    mesh
}

fn add_two_seg2_cells(mesh: &mut Mesh) -> Result<Vec<usize>, meshb::mesh::MeshError> {
    mesh.add_cells(&[vec![0, 1], vec![2, 3]], CellType::SEG2)
}

#[test]
fn mesh_init_empty_should_work() {
    let mesh = Mesh::new();
    assert_eq!(mesh.cells.len(), 0);
    assert_eq!(mesh.nodes.len(), 0);
    assert_eq!(mesh.gno.len(), 0);
    assert_eq!(mesh.gma.len(), 0);
}

#[test]
fn mesh_add_nodes_should_work() {
    let mut mesh = Mesh::new();
    let nodes = vec![
        node_prop(b"N12", b"3.0", b"0.0", b"1.0"),
        node_prop(b"N2", b"2.0", b"1.0", b"1.0"),
    ];
    mesh.add_nodes(nodes);
    assert_eq!(mesh.nodes.len(), 2);
    assert_eq!(
        *mesh.nodes.get(0).unwrap(),
        Node { x: b"3.0".to_vec(), y: b"0.0".to_vec(), z: b"1.0".to_vec() }
    );
    assert_eq!(
        *mesh.nodes.get(1).unwrap(),
        Node { x: b"2.0".to_vec(), y: b"1.0".to_vec(), z: b"1.0".to_vec() }
    );
    assert_eq!(mesh.gno.len(), 0);
    assert_eq!(mesh.gma.len(), 0);
    let nodes = vec![
        node_prop(b"N21", b"3.2", b"0.3", b"1.3"),
        node_prop(b"N222", b"2.1", b"1.1", b"1.1"),
    ];
    mesh.add_nodes(nodes);
    assert_eq!(mesh.nodes.len(), 4);
    assert_eq!(
        *mesh.nodes.get(2).unwrap(),
        Node { x: b"3.2".to_vec(), y: b"0.3".to_vec(), z: b"1.3".to_vec() }
    );
    assert_eq!(
        *mesh.nodes.get(3).unwrap(),
        Node { x: b"2.1".to_vec(), y: b"1.1".to_vec(), z: b"1.1".to_vec() }
    );
}

#[test]
fn mesh_add_cells_should_return_err_when_connectivity_has_bad_len() {
    let mut mesh = get_mesh_with_six_nodes();
    let new_cells = mesh.add_cells(&[vec![0], vec![2, 2]], CellType::POI1);
    assert_eq!(new_cells.is_err(), true);
    // The batch is atomic: nothing was added and no identifier was consumed.
    assert_eq!(mesh.cells.len(), 0);
    assert_eq!(mesh.next_cell_id, 0);
}

#[test]
fn mesh_add_cells_should_work_for_poi1() {
    let mut mesh = get_mesh_with_six_nodes();

    assert_eq!(mesh.cells.len(), 0);
    let new_cells = mesh.add_cells(&[vec![0], vec![2]], CellType::POI1);
    assert_eq!(new_cells.unwrap(), vec![0, 1]);
    assert_eq!(mesh.cells.len(), 2);

    let cell_co_not_found = mesh.get_cell_co(1112);
    assert!(matches!(cell_co_not_found, Err(_mesh_error)));

    let cell_co_1 = mesh.get_cell_co(0).unwrap();
    assert_eq!(cell_co_1.len(), 1);
    assert_eq!(cell_co_1[0], 0);
    let cell_co_2 = mesh.get_cell_co(1).unwrap();
    assert_eq!(cell_co_2.len(), 1);
    assert_eq!(cell_co_2[0], 2);
}

#[test]
fn mesh_add_cells_should_work_for_seg2() {
    let mut mesh = get_mesh_with_six_nodes();
    assert_eq!(mesh.cells.len(), 0);
    let new_cells = add_two_seg2_cells(&mut mesh);
    assert_eq!(new_cells.unwrap(), vec![0, 1]);
    assert_eq!(mesh.cells.len(), 2);
    let cell_co_1 = mesh.get_cell_co(0).unwrap();
    assert_eq!(cell_co_1[0], 0);
    assert_eq!(cell_co_1[1], 1);
    let cell_co_2 = mesh.get_cell_co(1).unwrap();
    let _cell_co_3 = mesh.get_cell_co(1).unwrap();
    assert_eq!(cell_co_2[0], 2);
    assert_eq!(cell_co_2[1], 3);
}

#[test]
fn mesh_should_be_able_to_change_a_node_already_used() {
    let mut mesh = get_mesh_with_six_nodes();
    let _new_cells = add_two_seg2_cells(&mut mesh);
    let result = mesh.edit_node(&0, Some(b"10.2".to_vec()), Some(b"0.2".to_vec()), None);
    assert_eq!(result, true);
    let first_node = &mesh.nodes[0];

    assert_eq!(first_node.x, b"10.2".to_vec());
    assert_eq!(first_node.y, b"0.2".to_vec());
    assert_eq!(first_node.z, b"1.0".to_vec());
}

#[test]
fn mesh_edit_node_should_reject_an_unknown_id() {
    let mut mesh = get_mesh_with_six_nodes();
    let result = mesh.edit_node(&100, Some(b"10.2".to_vec()), None, None);
    assert_eq!(result, false);
    assert_eq!(mesh.nodes[0].x, b"3.0".to_vec());
}

#[test]
fn mesh_should_be_able_to_edit_a_cell() {
    let mut mesh = get_mesh_with_six_nodes();
    let _new_cells = add_two_seg2_cells(&mut mesh);
    let first_cell = &mesh.cells[0];
    assert_eq!(first_cell.get_co().len(), 2);
    mesh.edit_cell(0, &vec![0], CellType::POI1);
    let first_cell = &mesh.cells[0];
    assert_eq!(first_cell.get_co().len(), 1);
}

#[test]
fn mesh_edit_cell_should_reject_a_bad_connectivity() {
    let mut mesh = get_mesh_with_six_nodes();
    let _new_cells = add_two_seg2_cells(&mut mesh);
    // Wrong arity for the type.
    assert_eq!(mesh.edit_cell(0, &vec![0, 1, 2], CellType::POI1), false);
    // No cell has this identifier: a replace, not an insert.
    assert_eq!(mesh.edit_cell(7, &vec![0], CellType::POI1), false);
    assert_eq!(mesh.cells.len(), 2);
    assert_eq!(mesh.cells[0].get_co(), vec![0, 1]);
}

#[test]
fn create_node_group_should_work() {
    let mut mesh = get_mesh_with_six_nodes();
    let _new_cells = add_two_seg2_cells(&mut mesh).unwrap();
    let group_node_ids = vec![0, 2, 4];
    assert_eq!(mesh.create_node_group(b"GROUP1".to_vec(), &group_node_ids), Ok(()));
    assert_eq!(
        mesh.create_node_group(b"GROUP_NOT_POSSIBLE".to_vec(), &vec![1000]).is_err(),
        true
    );
    let actual_node_ids = mesh.gno.get(b"GROUP1").unwrap();
    assert_eq!(actual_node_ids, &group_node_ids);
}

#[test]
fn mesh_create_cell_group_should_work() {
    let mut mesh = get_mesh_with_six_nodes();
    let new_cells = add_two_seg2_cells(&mut mesh).unwrap();
    let group_cell_ids = new_cells.clone();
    assert_eq!(mesh.create_cell_group(b"GROUP1".to_vec(), &group_cell_ids), Ok(()));
    assert_eq!(
        mesh.create_cell_group(b"GROUP_NOT_POSSIBLE".to_vec(), &vec![1000]).is_err(),
        true
    );
    let actual_cell_ids = mesh.gma.get(b"GROUP1").unwrap();
    assert_eq!(actual_cell_ids, &new_cells);
}

#[test]
fn create_group_is_all_or_nothing() {
    let mut mesh = get_mesh_with_six_nodes();
    let _ = add_two_seg2_cells(&mut mesh).unwrap();
    assert_eq!(mesh.create_node_group(b"GOOD1".to_vec(), &vec![5, 3, 3, 0]), Ok(()));
    assert_eq!(mesh.gno.len(), 1);
    // One identifier of the batch is absent: the group map is unchanged.
    let r = mesh.create_node_group(b"BAD1".to_vec(), &vec![0, 6]);
    assert!(r.is_err());
    assert_eq!(mesh.gno.len(), 1);
    assert!(mesh.gno.get(b"BAD1").is_none());
    // The stored list is sorted ascending with duplicates removed.
    assert_eq!(mesh.gno.get(b"GOOD1").unwrap(), &vec![0, 3, 5]);

    let r = mesh.create_cell_group(b"BAD2".to_vec(), &vec![2]);
    assert!(r.is_err());
    assert_eq!(mesh.gma.len(), 0);
}

#[test]
fn get_cell_name_formats_the_identifier() {
    assert_eq!(Mesh::get_cell_name(0), b"M1".to_vec());
    assert_eq!(Mesh::get_cell_name(41), b"M42".to_vec());
    assert_eq!(Mesh::get_cell_name(99), b"M100".to_vec());
}

#[test]
fn create_one_cell_checks_the_arity() {
    let cell = Mesh::create_one_cell(CellType::SEG3, &vec![4, 5, 6]).unwrap();
    assert_eq!(cell.ty, CellType::SEG3);
    assert_eq!(cell.co, vec![4, 5, 6]);
    assert!(Mesh::create_one_cell(CellType::SEG3, &vec![4, 5]).is_err());
}
