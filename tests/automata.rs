use cellular_automaton::automaton::{available, by_name, str_eq_ignore_case, Automaton};
use cellular_automaton::dummy::Dummy;
use cellular_automaton::grid::Grid;
use cellular_automaton::life::Life;
use cellular_automaton::mazegenerator::MazeGenerator;
use cellular_automaton::mazesolver::MazeSolver;
use cellular_automaton::patterns::{Pattern5, ALL_PATTERNS, BLANK_PATTERN, CUTTING_CORNERS_1};
use cellular_automaton::stepping::{step_masked, CellRule, UpdateRate};

fn cells(g: &Grid) -> Vec<u8> {
    g.as_slice().to_vec()
}

fn sync_step(a: &mut Automaton, g: &Grid) -> Grid {
    let mut next = Grid::new(g.width(), g.height());
    a.step(g, &mut next, UpdateRate::synchronous());
    next
}

fn differing(a: &Grid, b: &Grid) -> usize {
    a.as_slice().iter().zip(b.as_slice()).filter(|(x, y)| x != y).count()
}

#[test]
fn dummy_init_stamps_center_block() {
    let mut g = Grid::new(9, 6);
    g.fill(7);
    Dummy.init(&mut g);
    for y in 0..6 {
        for x in 0..9 {
            let inside = (3..6).contains(&x) && (2..4).contains(&y);
            assert_eq!(g.get(x, y), if inside { 1 } else { 0 }, "at {x},{y}");
        }
    }
}

#[test]
fn dummy_two_sync_steps_restore_grid() {
    let mut g = Grid::new(7, 5);
    Dummy.init(&mut g);
    g.set(0, 0, 1);
    let mut a = Automaton::Dummy(Dummy);
    let once = sync_step(&mut a, &g);
    assert_eq!(once.get(0, 0), 0);
    assert_eq!(once.get(1, 0), 1);
    let twice = sync_step(&mut a, &once);
    assert_eq!(cells(&twice), cells(&g));
}

#[test]
fn dummy_single_site_changes_one_cell() {
    let mut g = Grid::new(6, 6);
    Dummy.init(&mut g);
    let mut next = Grid::new(6, 6);
    Dummy.step(&g, &mut next, UpdateRate::single_site());
    assert_eq!(differing(&g, &next), 1);
}

#[test]
fn life_count_neighbors_wraps() {
    let mut g = Grid::new(5, 5);
    g.set(4, 4, 1);
    g.set(1, 0, 1);
    g.set(0, 4, 3);
    assert_eq!(Life::count_neighbors(&g, 0, 0), 3);
    assert_eq!(Life::count_neighbors(&g, 2, 2), 0);
}

#[test]
fn life_blinker_oscillates() {
    let mut g = Grid::new(7, 7);
    g.set(2, 3, 1);
    g.set(3, 3, 1);
    g.set(4, 3, 1);
    let mut a = Automaton::Life(Life);
    let v = sync_step(&mut a, &g);
    let mut expected = Grid::new(7, 7);
    expected.set(3, 2, 1);
    expected.set(3, 3, 1);
    expected.set(3, 4, 1);
    assert_eq!(cells(&v), cells(&expected));
    let h = sync_step(&mut a, &v);
    assert_eq!(cells(&h), cells(&g));
}

#[test]
fn life_block_is_still() {
    let mut g = Grid::new(6, 5);
    g.set(0, 3, 1);
    g.set(5, 3, 1);
    g.set(0, 4, 1);
    g.set(5, 4, 1);
    let mut a = Automaton::Life(Life);
    let mut cur = g.clone();
    for _ in 0..10 {
        cur = sync_step(&mut a, &cur);
        assert_eq!(cells(&cur), cells(&g));
    }
}

#[test]
fn life_init_is_binary() {
    let mut g = Grid::new(20, 10);
    g.fill(5);
    Life.init(&mut g);
    assert!(g.as_slice().iter().all(|&v| v == 0 || v == 1));
}

#[test]
fn life_seed_follows_draws() {
    let mut g = Grid::new(3, 2);
    g.fill(4);
    let alive = vec![true, false, false, false, true, true];
    Life::seed(&mut g, &alive);
    assert_eq!(cells(&g), vec![1, 0, 0, 0, 1, 1]);
}

#[test]
fn step_masked_updates_selected_cells() {
    let mut g = Grid::new(3, 2);
    g.set(1, 0, 1);
    let mut next = Grid::new(3, 2);
    next.fill(9);
    let mask = vec![true, true, false, false, false, true];
    step_masked(CellRule::Invert, &g, &mut next, &mask);
    assert_eq!(cells(&next), vec![1, 0, 0, 0, 0, 1]);
}

#[test]
fn generator_advance_follows_pick() {
    let mut gen = MazeGenerator::new();
    let mut g = Grid::new(7, 7);
    gen.init(&mut g);
    let mut next = Grid::new(7, 7);
    gen.advance(&g, &mut next, false, 0);
    assert_eq!(cells(&next), cells(&g));
    assert_eq!(gen.choices(&g), 0);
    gen.advance(&g, &mut next, true, 0);
    assert_eq!(next.get(1, 1), 0);
    g.swap(&mut next);
    // from (1, 1) the candidates are right (3, 1) and down (1, 3)
    assert_eq!(gen.choices(&g), 2);
    gen.advance(&g, &mut next, true, 3);
    assert_eq!(next.get(1, 2), 0);
    assert_eq!(next.get(1, 3), 0);
    assert_eq!(next.get(2, 1), 1);
    assert_eq!(differing(&g, &next), 2);
}

#[test]
fn life_rule_cases() {
    let mut g = Grid::new(5, 5);
    g.set(1, 1, 1);
    g.set(2, 1, 1);
    g.set(3, 1, 1);
    assert_eq!(Life::rule(&g, 2, 2), 1);
    assert_eq!(Life::rule(&g, 2, 1), 1);
    assert_eq!(Life::rule(&g, 1, 1), 0);
    assert_eq!(Life::rule(&g, 0, 3), 0);
}

fn fully_wall_lattice_done(w: usize, h: usize) -> (Grid, usize) {
    let mut gen = MazeGenerator::new();
    let mut g = Grid::new(w, h);
    gen.init(&mut g);
    assert!(g.as_slice().iter().all(|&v| v == 1));
    let mut steps = 0usize;
    let mut next = Grid::new(w, h);
    loop {
        gen.step(&g, &mut next, UpdateRate::synchronous());
        g.swap(&mut next);
        steps += 1;
        if gen.finished() || steps > 100_000 {
            break;
        }
    }
    assert!(gen.finished());
    (g, steps)
}

#[test]
fn generator_carves_spanning_tree() {
    let (w, h) = (15usize, 11usize);
    let (g, _) = fully_wall_lattice_done(w, h);
    let lattice: Vec<(usize, usize)> =
        (0..h).filter(|y| y % 2 == 1).flat_map(|y| (0..w).filter(|x| x % 2 == 1).map(move |x| (x, y))).collect();
    for &(x, y) in &lattice {
        assert_eq!(g.get(x, y), 0);
    }
    let carved = g.as_slice().iter().filter(|&&v| v == 0).count();
    assert_eq!(carved, lattice.len() + (lattice.len() - 1));
    for x in 0..w {
        assert_eq!(g.get(x, 0), 1);
        assert_eq!(g.get(x, h - 1), 1);
    }
    for y in 0..h {
        assert_eq!(g.get(0, y), 1);
        assert_eq!(g.get(w - 1, y), 1);
    }
    // every carved cell is reachable from the start: connected with V - 1 edges, so a tree
    let mut seen = vec![false; w * h];
    let mut todo = vec![(1usize, 1usize)];
    seen[w + 1] = true;
    let mut count = 0usize;
    while let Some((x, y)) = todo.pop() {
        count += 1;
        let around = [(x - 1, y), (x + 1, y), (x, y - 1), (x, y + 1)];
        for &(nx, ny) in &around {
            if g.get(nx, ny) == 0 && !seen[ny * w + nx] {
                seen[ny * w + nx] = true;
                todo.push((nx, ny));
            }
        }
    }
    assert_eq!(count, carved);
}

#[test]
fn generator_first_step_carves_start() {
    let mut gen = MazeGenerator::new();
    let mut g = Grid::new(7, 7);
    gen.init(&mut g);
    let mut next = Grid::new(7, 7);
    gen.step(&g, &mut next, UpdateRate::single_site());
    assert_eq!(next.get(1, 1), 0);
    assert_eq!(differing(&g, &next), 1);
    assert!(!gen.finished());
    let mut after = Grid::new(7, 7);
    gen.step(&next, &mut after, UpdateRate::single_site());
    assert_eq!(differing(&next, &after), 2);
}

#[test]
fn solver_init_layout() {
    let mut g = Grid::new(80, 45);
    MazeSolver.init(&mut g);
    assert_eq!(g.get(0, 10), 1);
    assert_eq!(g.get(79, 10), 1);
    assert_eq!(g.get(10, 0), 1);
    assert_eq!(g.get(10, 44), 1);
    assert_eq!(g.get(59, 15), 1);
    assert_eq!(g.get(60, 15), 0);
    assert_eq!(g.get(31, 25), 1);
    assert_eq!(g.get(30, 25), 0);
    assert_eq!(g.get(1, 1), 2);
    assert_eq!(g.get(71, 35), 3);
    assert_eq!(g.get(5, 5), 0);
}

#[test]
fn solver_soft_init_only_markers() {
    let mut g = Grid::new(20, 20);
    g.fill(1);
    MazeSolver.soft_init(&mut g);
    assert_eq!(g.get(1, 1), 2);
    assert_eq!(g.get(11, 10), 3);
    assert_eq!(g.as_slice().iter().filter(|&&v| v == 1).count(), 398);
    let mut small = Grid::new(9, 10);
    MazeSolver.soft_init(&mut small);
    assert_eq!(small.get(1, 1), 2);
    assert_eq!(small.get(0, 0), 3);
    assert_eq!(small.as_slice().iter().filter(|&&v| v == 0).count(), 88);
    let mut tiny = Grid::new(8, 10);
    MazeSolver.soft_init(&mut tiny);
    assert!(tiny.as_slice().iter().all(|&v| v == 0));
}

#[test]
fn solver_neighbor_queries() {
    let mut g = Grid::new(4, 4);
    g.set(1, 0, 6);
    g.set(0, 1, 1);
    g.set(2, 1, 6);
    g.set(1, 2, 7);
    let l = MazeSolver::get_4neigh_count(&g, 1, 1);
    assert_eq!(l, [0, 1, 0, 0, 0, 0, 2, 1]);
    assert!(MazeSolver::in_neighbors(&g, 1, 1, 7));
    assert!(!MazeSolver::in_neighbors(&g, 1, 1, 3));
    assert!(MazeSolver::in_neighbors(&g, 3, 1, 1));
}

#[test]
fn solver_rule_transitions() {
    let mut g = Grid::new(5, 5);
    g.set(2, 2, 2);
    assert_eq!(MazeSolver::rule(&g, 2, 1), 4);
    assert_eq!(MazeSolver::rule(&g, 0, 0), 0);
    g.set(2, 1, 4);
    assert_eq!(MazeSolver::rule(&g, 2, 1), 5);
    g.set(3, 1, 3);
    assert_eq!(MazeSolver::rule(&g, 2, 1), 7);
    g.set(1, 1, 5);
    g.set(1, 0, 7);
    assert_eq!(MazeSolver::rule(&g, 1, 1), 7);
    g.set(4, 4, 6);
    assert_eq!(MazeSolver::rule(&g, 4, 4), 0);
    assert_eq!(MazeSolver::rule(&g, 2, 2), 2);
}

fn window_grid(pat: &Pattern5, fill: u8) -> Grid {
    let mut g = Grid::new(7, 7);
    g.fill(fill);
    for j in 0..5 {
        for i in 0..5 {
            if pat[j][i] >= 0 {
                g.set(i + 1, j + 1, pat[j][i] as u8);
            }
        }
    }
    g
}

#[test]
fn blank_pattern_matches_everything() {
    let mut g = Grid::new(6, 6);
    g.set(3, 3, 5);
    assert!(MazeSolver::match_pattern(&g, 0, 0, &BLANK_PATTERN));
    assert!(MazeSolver::match_pattern(&g, 3, 4, &BLANK_PATTERN));
}

#[test]
fn pattern_matches_under_every_symmetry() {
    let base = window_grid(&CUTTING_CORNERS_1, 5);
    assert!(MazeSolver::match_pattern(&base, 3, 3, &CUTTING_CORNERS_1));
    // rotate the 7 by 7 grid a quarter turn, and mirror it
    let mut rot = Grid::new(7, 7);
    let mut mir = Grid::new(7, 7);
    for y in 0..7 {
        for x in 0..7 {
            rot.set(6 - y, x, base.get(x, y));
            mir.set(6 - x, y, base.get(x, y));
        }
    }
    assert!(MazeSolver::match_pattern(&rot, 3, 3, &CUTTING_CORNERS_1));
    assert!(MazeSolver::match_pattern(&mir, 3, 3, &CUTTING_CORNERS_1));
    let mut broken = base.clone();
    broken.set(3, 4, 0);
    assert!(!MazeSolver::match_pattern(&broken, 3, 3, &CUTTING_CORNERS_1));
    assert_eq!(ALL_PATTERNS.len(), 3);
}

#[test]
fn route_corner_is_pruned() {
    let g = window_grid(&ALL_PATTERNS[2], 5);
    assert_eq!(g.get(3, 3), 7);
    assert_eq!(MazeSolver::rule(&g, 3, 3), 6);
}

#[test]
fn solver_reaches_fixed_point_with_route() {
    let mut a = Automaton::MazeSolver(MazeSolver);
    let mut g = Grid::new(80, 45);
    a.init(&mut g);
    let mut stable = false;
    for _ in 0..20_000 {
        let n = sync_step(&mut a, &g);
        if cells(&n) == cells(&g) {
            stable = true;
            break;
        }
        g = n;
    }
    assert!(stable);
    let w = g.width();
    let route: Vec<(usize, usize)> =
        (0..g.height()).flat_map(|y| (0..w).map(move |x| (x, y))).filter(|&(x, y)| g.get(x, y) == 7).collect();
    assert!(!route.is_empty());
    let near = |x: usize, y: usize, tx: usize, ty: usize| (x as i64 - tx as i64).abs() + (y as i64 - ty as i64).abs() == 1;
    let start = route.iter().copied().find(|&(x, y)| near(x, y, 1, 1));
    assert!(start.is_some());
    let mut seen = vec![false; w * g.height()];
    let (sx, sy) = start.unwrap();
    seen[sy * w + sx] = true;
    let mut todo = vec![(sx, sy)];
    let mut reaches_goal = false;
    while let Some((x, y)) = todo.pop() {
        if near(x, y, 71, 35) {
            reaches_goal = true;
        }
        for &(nx, ny) in &[(x - 1, y), (x + 1, y), (x, y - 1), (x, y + 1)] {
            if g.get(nx, ny) == 7 && !seen[ny * w + nx] {
                seen[ny * w + nx] = true;
                todo.push((nx, ny));
            }
        }
    }
    assert!(reaches_goal);
}

#[test]
fn registry_lookup_ignores_case() {
    let all = available();
    let names: Vec<&str> = all.iter().map(|a| a.name()).collect();
    assert_eq!(names, vec!["dummy", "life", "mazesolver", "generator"]);
    assert_eq!(by_name("LIFE").map(|a| a.name()), Some("life"));
    assert_eq!(by_name("MazeSolver").map(|a| a.name()), Some("mazesolver"));
    assert!(by_name("lifey").is_none());
    assert!(by_name("").is_none());
    assert!(str_eq_ignore_case("GeNeRaToR", "generator"));
    assert!(!str_eq_ignore_case("gen", "generator"));
}
