use fastslam::gridmap::{CellState, GridMap};
use fastslam::odometry::pose::Pose;
use fastslam::geometry::point::Point;
use fastslam::sensor::laserscanner::{Scan, Measurement};

fn fp(v: f64) -> i64 {
    (v * 65536.0).round() as i64
}

const PI_F: f64 = std::f64::consts::PI;

#[test]
fn test_initialize_grid() {
    let grid = GridMap::default();
    let state = grid.cell_state(30, 30).unwrap();
    assert_eq!(state, CellState::Void);

    assert_eq!(grid.get_all_occupied_cells().size(), 0);
}

#[test]
fn test_updating_grid() {
    let mut grid = GridMap::new(100, fp(1.0));

    let pose = Pose {
        position: Point { x: fp(29.0), y: fp(29.0) },
        heading: 0,
    };

    let mut measurements: Vec<Measurement> = Vec::new();
    for i in 0..360 {
        measurements.push(Measurement {
            angle: fp((i as f64) * PI_F / 180.0),
            distance: fp(20.0),
        });
    }

    let scan = Scan { measurements };
    grid.update(&pose, &scan);

    let mut state = grid.cell_state(99, 79).unwrap();
    assert_eq!(state, CellState::Occupied(1));

    state = grid.cell_state(79, 99).unwrap();
    assert_eq!(state, CellState::Occupied(1));

    state = grid.cell_state(97, 79).unwrap();
    assert_eq!(state, CellState::Freespace);

    state = grid.cell_state(90, 79).unwrap();
    assert_eq!(state, CellState::Freespace);

    state = grid.cell_state(80, 80).unwrap();
    assert_eq!(state, CellState::Freespace);

    println!("occupied: {:?}", grid.get_all_occupied_cells().iter());
}

#[test]
fn test_get_all_occupied_cells() {
    let mut grid = GridMap::new(100, fp(1.0));

    let pose = Pose {
        position: Point { x: 0, y: 0 },
        heading: 0,
    };
    let meas = vec![
        Measurement { angle: 0, distance: fp(10.0) },
        Measurement { angle: fp(-PI_F / 2.0), distance: fp(10.0) },
    ];
    let scan = Scan { measurements: meas };
    grid.update(&pose, &scan);
    let occupied_cells = grid.get_all_occupied_cells();
    assert_eq!(occupied_cells.iter().contains(&Point::new(fp(50.0), fp(40.0))), true);
    assert_eq!(occupied_cells.iter().contains(&Point::new(fp(60.0), fp(50.0))), true);
}

#[test]
fn test_grid_monotone_occupancy() {
    // a cell that takes a hit never reverts, and repeated hits raise
    // its count
    let mut grid = GridMap::new(100, fp(1.0));
    let pose = Pose { position: Point { x: 0, y: 0 }, heading: 0 };
    let scan = Scan {
        measurements: vec![Measurement { angle: 0, distance: fp(10.0) }],
    };
    grid.update(&pose, &scan);
    assert_eq!(grid.cell_state(60, 50).unwrap(), CellState::Occupied(1));
    grid.update(&pose, &scan);
    assert_eq!(grid.cell_state(60, 50).unwrap(), CellState::Occupied(2));
    // a pass-through never downgrades the occupied cell
    let longer = Scan {
        measurements: vec![Measurement { angle: 0, distance: fp(20.0) }],
    };
    grid.update(&pose, &longer);
    assert_eq!(grid.cell_state(60, 50).unwrap(), CellState::Occupied(2));
    assert_eq!(grid.cell_state(70, 50).unwrap(), CellState::Occupied(1));
}

#[test]
fn test_world_to_map_out_of_range() {
    let grid = GridMap::new(100, fp(1.0));
    assert_eq!(grid.world_to_map(Point::new(fp(49.0), fp(0.0))), Some((99, 50)));
    assert_eq!(grid.world_to_map(Point::new(fp(50.0), fp(0.0))), None);
    assert_eq!(grid.world_to_map(Point::new(fp(-51.0), fp(0.0))), None);
    assert_eq!(grid.world_to_map(Point::new(fp(0.0), fp(1000.0))), None);
}
