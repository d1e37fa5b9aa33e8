use rogue_core::components::Point;
use rogue_core::map::{GameMap, TileType};
use rogue_core::fov::field_of_view;
use rogue_core::pathfinding::find_path;
use rogue_core::rect::Rect;
use rogue_core::rng::Rng;

fn tile(m: &GameMap, x: i32, y: i32) -> TileType {
    m.tiles[(y as usize) * (m.width as usize) + (x as usize)]
}

fn carve_cells(m: &mut GameMap, x1: i32, y1: i32, x2: i32, y2: i32) {
    for y in y1..=y2 {
        for x in x1..=x2 {
            let i = (y as usize) * (m.width as usize) + (x as usize);
            m.tiles[i] = TileType::Floor;
        }
    }
}

fn fov_has(pts: &[Point], x: i32, y: i32) -> bool {
    pts.iter().any(|p| p.x == x && p.y == y)
}

#[test]
fn rng_is_deterministic_and_in_range() {
    let mut a = Rng::new(77);
    let mut b = Rng::new(77);
    for _ in 0..100 {
        let va = a.range(3, 11);
        let vb = b.range(3, 11);
        assert_eq!(va, vb);
        assert!((3..11).contains(&va));
    }
    let mut c = Rng::new(78);
    let roll = c.roll_dice(3, 6);
    assert!((3..=18).contains(&roll));
}

#[test]
fn generated_rooms_are_disjoint_and_floored() {
    let m = GameMap::random_room_dungeon(42);
    assert_eq!(m.width, 80);
    assert_eq!(m.height, 43);
    assert!(!m.rooms.is_empty());
    for i in 0..m.rooms.len() {
        for j in (i + 1)..m.rooms.len() {
            assert!(!m.rooms[i].intersect(&m.rooms[j]));
        }
    }
    for r in &m.rooms {
        for y in (r.y1 + 1)..=r.y2 {
            for x in (r.x1 + 1)..=r.x2 {
                assert_eq!(tile(&m, x, y), TileType::Floor);
            }
        }
        assert!(r.x1 >= 0 && r.x2 <= m.width - 2);
        assert!(r.y1 >= 0 && r.y2 <= m.height - 2);
    }
    for i in 0..(m.width * m.height) as usize {
        assert!(!m.revealed_tiles[i]);
        assert!(!m.visible_tiles[i]);
        assert!(!m.blocked[i]);
        assert!(m.tile_content[i].is_empty());
    }
}

#[test]
fn generated_rooms_are_connected_over_floor() {
    for seed in [1u64, 9, 1234] {
        let m = GameMap::random_room_dungeon(seed);
        let w = m.width as usize;
        let h = m.height as usize;
        let start = m.rooms[0].center();
        let mut seen = vec![false; w * h];
        let mut queue = std::collections::VecDeque::new();
        let si = (start.1 as usize) * w + start.0 as usize;
        seen[si] = true;
        queue.push_back((start.0, start.1));
        while let Some((x, y)) = queue.pop_front() {
            for (dx, dy) in [(-1i32, 0i32), (1, 0), (0, -1), (0, 1)] {
                let nx = x + dx;
                let ny = y + dy;
                if nx < 0 || ny < 0 || nx >= m.width || ny >= m.height {
                    continue;
                }
                let ni = (ny as usize) * w + nx as usize;
                if !seen[ni] && m.tiles[ni] == TileType::Floor {
                    seen[ni] = true;
                    queue.push_back((nx, ny));
                }
            }
        }
        for r in &m.rooms {
            let c = r.center();
            let ci = (c.1 as usize) * w + c.0 as usize;
            assert_eq!(m.tiles[ci], TileType::Floor);
            assert!(seen[ci], "room centre unreachable from the first room");
        }
    }
}

#[test]
fn degenerate_generation_parameters_are_refused() {
    assert!(GameMap::generate(5, 10, 10, 5, 6, 9).is_err());
    assert!(GameMap::generate(5, 10, 10, 5, 2, 9).is_err());
    assert!(GameMap::generate(5, 0, 10, 5, 2, 3).is_err());
    assert!(GameMap::generate(5, 10, 10, -1, 2, 3).is_err());
    assert!(GameMap::generate(5, 20, 20, 4, 3, 6).is_ok());
}

#[test]
fn rect_intersection_and_center() {
    let a = Rect::new(0, 0, 5, 5);
    let b = Rect::new(5, 5, 4, 4);
    let c = Rect::new(6, 6, 2, 2);
    assert!(a.intersect(&b));
    assert!(b.intersect(&a));
    assert!(!a.intersect(&c));
    assert_eq!(a.center(), (2, 2));
    assert_eq!(b.center(), (7, 7));
}

#[test]
fn fov_cell_behind_wall_is_hidden() {
    let mut m = GameMap::new(11, 11);
    carve_cells(&mut m, 1, 1, 9, 9);
    // wall directly east of the viewer
    let wi = 4usize * 11 + 5;
    m.tiles[wi] = TileType::Wall;
    let pts = field_of_view(&m, 4, 4, 8);
    assert!(fov_has(&pts, 4, 4), "viewer's own cell is visible");
    assert!(fov_has(&pts, 5, 4), "the wall itself is visible");
    assert!(!fov_has(&pts, 6, 4), "the cell directly behind the wall is hidden");
    assert!(!fov_has(&pts, 7, 4), "cells farther behind the wall stay hidden");
    assert!(fov_has(&pts, 5, 5), "an open diagonal neighbour stays visible");
}

#[test]
fn fov_is_limited_by_range() {
    let mut m = GameMap::new(21, 21);
    carve_cells(&mut m, 1, 1, 19, 19);
    let pts = field_of_view(&m, 10, 10, 4);
    assert!(fov_has(&pts, 14, 10), "a clear cell at the radius is visible");
    assert!(!fov_has(&pts, 15, 10), "a cell past the radius is hidden");
    assert!(!fov_has(&pts, 14, 13), "a diagonal cell past the radius is hidden");
    for p in &pts {
        let dx = (p.x - 10) as i64;
        let dy = (p.y - 10) as i64;
        assert!(dx * dx + dy * dy <= 16);
    }
}

#[test]
fn fov_output_is_sorted_without_duplicates() {
    let mut m = GameMap::new(15, 15);
    carve_cells(&mut m, 1, 1, 13, 13);
    let pts = field_of_view(&m, 7, 7, 5);
    for w in pts.windows(2) {
        let before = w[0].y < w[1].y || (w[0].y == w[1].y && w[0].x < w[1].x);
        assert!(before, "cells come in row-major order without repeats");
    }
}

#[test]
fn path_follows_open_corridor() {
    let mut m = GameMap::new(12, 5);
    carve_cells(&mut m, 1, 2, 10, 2);
    m.populate_blocked();
    let path = find_path(&m, 1, 2, 10, 2).expect("the corridor is open");
    assert_eq!((path[0].x, path[0].y), (1, 2));
    let last = path.last().unwrap();
    assert_eq!((last.x, last.y), (10, 2));
    assert_eq!(path.len(), 10, "a straight corridor is walked without detours");
    for w in path.windows(2) {
        assert!((w[0].x - w[1].x).abs() <= 1 && (w[0].y - w[1].y).abs() <= 1);
    }
    for p in path.iter().skip(1) {
        assert!(!m.blocked[(p.y as usize) * 12 + p.x as usize]);
    }
}

#[test]
fn path_respects_walls_and_blockers() {
    let mut m = GameMap::new(9, 9);
    carve_cells(&mut m, 1, 1, 7, 7);
    // a full wall across the map leaves no way through
    for y in 0..9 {
        let i = (y as usize) * 9 + 4;
        m.tiles[i] = TileType::Wall;
    }
    m.populate_blocked();
    assert!(find_path(&m, 2, 4, 6, 4).is_none());
    // opening one gap restores a route
    m.tiles[4 * 9 + 4] = TileType::Floor;
    m.populate_blocked();
    let path = find_path(&m, 2, 4, 6, 4).expect("the gap makes the goal reachable");
    assert!(path.iter().any(|p| p.x == 4 && p.y == 4));
}

#[test]
fn exits_use_orthogonal_and_diagonal_costs() {
    let mut m = GameMap::new(9, 9);
    carve_cells(&mut m, 1, 1, 7, 7);
    m.populate_blocked();
    let exits = m.get_available_exits(4, 4);
    assert_eq!(exits.len(), 8);
    let orth: Vec<_> = exits.iter().filter(|e| e.1 == 100).collect();
    let diag: Vec<_> = exits.iter().filter(|e| e.1 == 145).collect();
    assert_eq!(orth.len(), 4);
    assert_eq!(diag.len(), 4);
    assert!(exits.iter().any(|e| e.0.x == 5 && e.0.y == 5 && e.1 == 145));
    // a wall to the east removes exactly that exit
    m.tiles[4 * 9 + 5] = TileType::Wall;
    m.populate_blocked();
    let exits2 = m.get_available_exits(4, 4);
    assert_eq!(exits2.len(), 7);
    assert!(!exits2.iter().any(|e| e.0.x == 5 && e.0.y == 4));
}
