use falling_sand::game::{Cell, CellStatus, Simulation};
use falling_sand::materials::{
    BoardSettings, Material, MaterialColor, MaterialId, Materials,
};

const SAND: MaterialId = MaterialId(0);
const STONE: MaterialId = MaterialId(1);

fn catalog() -> Materials {
    let settings = BoardSettings {
        background: MaterialColor::new(0x102030),
        view_width_px: 300,
        view_height_px: 300,
        grid_rows: 3,
        grid_columns: 3,
        brush_radius: 1,
    };
    let sand = Material {
        id: SAND,
        name: String::from("Sand"),
        rules: vec![],
        color: MaterialColor::new(0xC2B280),
        key: String::from("S"),
    };
    let stone = Material {
        id: STONE,
        name: String::from("Stone"),
        rules: vec![],
        color: MaterialColor::new(0x808080),
        key: String::from("T"),
    };
    Materials::new(vec![sand, stone], settings).unwrap()
}

fn cells(simulation: &Simulation) -> Vec<Cell> {
    let mut all = Vec::new();
    for row in 0..simulation.height() {
        for column in 0..simulation.width() {
            all.push(*simulation.get(row, column));
        }
    }
    all
}

const EMPTY: Cell = Cell { value: None, updated: false };

fn painted(value: Option<MaterialId>) -> Cell {
    Cell { value, updated: true }
}

#[test]
fn new_board_is_empty_and_unmarked() {
    let simulation = Simulation::new(4, 3, catalog());
    assert_eq!(simulation.width(), 4);
    assert_eq!(simulation.height(), 3);
    assert_eq!(cells(&simulation), vec![EMPTY; 12]);
    assert_eq!(simulation.materials().get_name(Some(STONE)), "Stone");
}

#[test]
fn set_writes_the_occupant_and_marks_the_cell() {
    let mut simulation = Simulation::new(3, 2, catalog());
    simulation.set(1, 2, Some(SAND));
    assert_eq!(*simulation.get(1, 2), painted(Some(SAND)));
    let mut expected = vec![EMPTY; 6];
    expected[5] = painted(Some(SAND));
    assert_eq!(cells(&simulation), expected);
}

#[test]
fn set_addresses_cells_by_row_then_column() {
    let mut simulation = Simulation::new(3, 2, catalog());
    simulation.set(0, 2, Some(SAND));
    simulation.set(1, 0, Some(STONE));
    assert_eq!(
        cells(&simulation),
        vec![EMPTY, EMPTY, painted(Some(SAND)), painted(Some(STONE)), EMPTY, EMPTY]
    );
}

#[test]
fn set_leaves_a_marked_cell_as_it_is() {
    let mut simulation = Simulation::new(2, 2, catalog());
    simulation.set(0, 1, Some(SAND));
    simulation.set(0, 1, None);
    assert_eq!(*simulation.get(0, 1), painted(Some(SAND)));
    simulation.set(0, 1, Some(STONE));
    assert_eq!(*simulation.get(0, 1), painted(Some(SAND)));
    assert_eq!(cells(&simulation), vec![EMPTY, painted(Some(SAND)), EMPTY, EMPTY]);
}

#[test]
fn set_leaves_the_board_as_it_is_where_the_cell_is_marked() {
    let mut simulation = Simulation::new(2, 2, catalog());
    simulation.set(0, 0, Some(STONE));
    simulation.reset();
    simulation.set(1, 0, None);
    simulation.set(1, 1, Some(SAND));
    let before = cells(&simulation);
    simulation.set(1, 0, Some(SAND));
    simulation.set(1, 1, None);
    simulation.set(1, 1, Some(STONE));
    assert_eq!(cells(&simulation), before);
}

#[test]
fn set_writes_again_after_a_reset() {
    let mut simulation = Simulation::new(2, 2, catalog());
    simulation.set(0, 0, Some(SAND));
    simulation.reset();
    simulation.set(0, 0, Some(STONE));
    assert_eq!(*simulation.get(0, 0), painted(Some(STONE)));
    simulation.reset();
    simulation.set(0, 0, None);
    assert_eq!(*simulation.get(0, 0), painted(None));
}

#[test]
fn overwrite_replaces_a_marked_cell() {
    let mut simulation = Simulation::new(2, 2, catalog());
    simulation.overwrite(0, 0, Some(SAND));
    assert_eq!(*simulation.get(0, 0), painted(Some(SAND)));
    simulation.overwrite(0, 0, Some(STONE));
    assert_eq!(*simulation.get(0, 0), painted(Some(STONE)));
    simulation.overwrite(0, 0, None);
    assert_eq!(*simulation.get(0, 0), painted(None));
    simulation.set(1, 1, Some(SAND));
    simulation.overwrite(1, 1, Some(STONE));
    assert_eq!(
        cells(&simulation),
        vec![painted(None), EMPTY, EMPTY, painted(Some(STONE))]
    );
}

#[test]
fn spawn_and_clear_write_marked_cells_too() {
    let mut simulation = Simulation::new(2, 1, catalog());
    simulation.set(0, 0, None);
    simulation.spawn(0, 0, 0, Some(SAND));
    assert_eq!(cells(&simulation), vec![painted(Some(SAND)), EMPTY]);
    simulation.set(0, 1, Some(STONE));
    simulation.clear();
    assert_eq!(cells(&simulation), vec![painted(None), painted(None)]);
    simulation.spawn(0, 1, 0, Some(STONE));
    assert_eq!(cells(&simulation), vec![painted(None), painted(Some(STONE))]);
}

#[test]
fn reset_clears_every_mark_and_keeps_the_occupants() {
    let mut simulation = Simulation::new(2, 2, catalog());
    simulation.set(0, 0, Some(SAND));
    simulation.set(0, 1, None);
    simulation.set(1, 1, Some(STONE));
    simulation.reset();
    assert_eq!(
        cells(&simulation),
        vec![
            Cell { value: Some(SAND), updated: false },
            EMPTY,
            EMPTY,
            Cell { value: Some(STONE), updated: false },
        ]
    );
    simulation.reset();
    assert!(cells(&simulation).iter().all(|cell| !cell.updated));
}

#[test]
fn in_bounds_takes_signed_coordinates() {
    let simulation = Simulation::new(4, 3, catalog());
    assert!(simulation.in_bounds(0, 0));
    assert!(simulation.in_bounds(2, 3));
    assert!(!simulation.in_bounds(3, 0));
    assert!(!simulation.in_bounds(0, 4));
    assert!(!simulation.in_bounds(-1, 0));
    assert!(!simulation.in_bounds(0, -1));
    assert!(!simulation.in_bounds(-1, -1));
    assert!(!simulation.in_bounds(i64::MIN, 0));
    assert!(!simulation.in_bounds(0, i64::MIN));
    assert!(!simulation.in_bounds(i64::MAX, 0));
    assert!(!simulation.in_bounds(0, i64::MAX));
}

#[test]
fn get_status_tells_empty_occupied_and_inaccessible() {
    let mut simulation = Simulation::new(3, 3, catalog());
    simulation.set(1, 1, Some(SAND));
    simulation.reset();
    simulation.set(2, 2, Some(STONE));
    simulation.set(0, 2, None);
    assert_eq!(simulation.get_status(0, 0), CellStatus::Empty);
    assert_eq!(simulation.get_status(1, 1), CellStatus::Occupied(SAND));
    assert_eq!(simulation.get_status(2, 2), CellStatus::Inaccessible);
    assert_eq!(simulation.get_status(0, 2), CellStatus::Inaccessible);
    assert_eq!(simulation.get_status(-1, 1), CellStatus::Inaccessible);
    assert_eq!(simulation.get_status(1, -1), CellStatus::Inaccessible);
    assert_eq!(simulation.get_status(3, 1), CellStatus::Inaccessible);
    assert_eq!(simulation.get_status(1, 3), CellStatus::Inaccessible);
    assert_eq!(simulation.get_status(i64::MAX, i64::MAX), CellStatus::Inaccessible);
    assert_eq!(simulation.get_status(i64::MIN, i64::MIN), CellStatus::Inaccessible);
}

#[test]
fn board_without_cells_has_no_position() {
    let mut wide = Simulation::new(5, 0, catalog());
    assert!(!wide.in_bounds(0, 0));
    assert_eq!(wide.get_status(0, 0), CellStatus::Inaccessible);
    wide.reset();
    wide.step();
    wide.clear();
    wide.spawn(0, 0, 3, Some(SAND));
    let mut tall = Simulation::new(0, 5, catalog());
    assert!(!tall.in_bounds(0, 0));
    assert!(!tall.in_bounds(4, 0));
    tall.reset();
    tall.step();
    tall.clear();
    tall.spawn(2, 0, 3, None);
    assert_eq!(tall.height(), 5);
    assert_eq!(tall.width(), 0);
}

#[test]
fn clear_empties_and_marks_every_cell() {
    let mut simulation = Simulation::new(2, 2, catalog());
    simulation.set(0, 0, Some(SAND));
    simulation.set(1, 1, Some(STONE));
    simulation.reset();
    simulation.set(0, 1, Some(SAND));
    simulation.clear();
    assert_eq!(cells(&simulation), vec![painted(None); 4]);
}

#[test]
fn spawn_paints_the_square_under_the_brush() {
    let mut simulation = Simulation::new(5, 5, catalog());
    simulation.spawn(2, 2, 1, Some(SAND));
    for row in 0..5 {
        for column in 0..5 {
            let inside = (1..=3).contains(&row) && (1..=3).contains(&column);
            let expected = if inside { painted(Some(SAND)) } else { EMPTY };
            assert_eq!(*simulation.get(row, column), expected);
        }
    }
}

#[test]
fn spawn_with_radius_zero_paints_one_cell() {
    let mut simulation = Simulation::new(3, 3, catalog());
    simulation.spawn(1, 2, 0, Some(STONE));
    let mut expected = vec![EMPTY; 9];
    expected[5] = painted(Some(STONE));
    assert_eq!(cells(&simulation), expected);
}

#[test]
fn spawn_stops_at_the_edges_of_the_board() {
    let mut simulation = Simulation::new(4, 3, catalog());
    simulation.spawn(0, 0, 1, Some(SAND));
    simulation.spawn(2, 3, 1, Some(STONE));
    let s = painted(Some(SAND));
    let t = painted(Some(STONE));
    assert_eq!(
        cells(&simulation),
        vec![s, s, EMPTY, EMPTY, s, s, t, t, EMPTY, EMPTY, t, t]
    );
}

#[test]
fn spawn_beyond_the_board_paints_what_the_brush_still_covers() {
    let mut simulation = Simulation::new(3, 3, catalog());
    simulation.spawn(4, 1, 2, Some(SAND));
    let s = painted(Some(SAND));
    assert_eq!(
        cells(&simulation),
        vec![EMPTY, EMPTY, EMPTY, EMPTY, EMPTY, EMPTY, s, s, s]
    );
    let mut far = Simulation::new(3, 3, catalog());
    far.spawn(7, 1, 2, Some(SAND));
    far.spawn(1, usize::MAX, 255, Some(SAND));
    far.spawn(usize::MAX, usize::MAX, 255, None);
    assert_eq!(cells(&far), vec![EMPTY; 9]);
}

#[test]
fn spawn_with_a_wide_brush_covers_the_board() {
    let mut simulation = Simulation::new(3, 2, catalog());
    simulation.spawn(1, 1, 255, Some(STONE));
    assert_eq!(cells(&simulation), vec![painted(Some(STONE)); 6]);
}

#[test]
fn spawn_of_a_material_leaves_occupied_cells() {
    let mut simulation = Simulation::new(3, 1, catalog());
    simulation.set(0, 1, Some(STONE));
    simulation.reset();
    simulation.spawn(0, 1, 1, Some(SAND));
    assert_eq!(
        cells(&simulation),
        vec![
            painted(Some(SAND)),
            Cell { value: Some(STONE), updated: false },
            painted(Some(SAND)),
        ]
    );
}

#[test]
fn spawn_of_the_eraser_empties_every_cell_under_the_brush() {
    let mut simulation = Simulation::new(4, 1, catalog());
    simulation.set(0, 0, Some(SAND));
    simulation.set(0, 1, Some(STONE));
    simulation.set(0, 3, Some(STONE));
    simulation.reset();
    simulation.spawn(0, 1, 1, None);
    assert_eq!(
        cells(&simulation),
        vec![
            painted(None),
            painted(None),
            painted(None),
            Cell { value: Some(STONE), updated: false },
        ]
    );
}

#[test]
fn redraw_color_is_given_for_marked_cells_only() {
    let mut simulation = Simulation::new(2, 2, catalog());
    simulation.set(0, 0, Some(SAND));
    simulation.reset();
    simulation.set(0, 1, Some(STONE));
    simulation.set(1, 0, None);
    assert_eq!(simulation.redraw_color(0, 0), None);
    assert_eq!(simulation.redraw_color(1, 1), None);
    assert_eq!(simulation.redraw_color(0, 1), Some(MaterialColor { r: 0x80, g: 0x80, b: 0x80 }));
    assert_eq!(simulation.redraw_color(1, 0), Some(MaterialColor { r: 0x10, g: 0x20, b: 0x30 }));
}
