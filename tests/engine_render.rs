use cellular_automaton::automaton::{by_name, Automaton};
use cellular_automaton::engine::Engine;
use cellular_automaton::grid::Grid;
use cellular_automaton::life::Life;
use cellular_automaton::mazesolver::MazeSolver;
use cellular_automaton::render::{Renderer, TerminalRenderer};
use cellular_automaton::stepping::UpdateRate;

fn differing(a: &Grid, b: &Grid) -> usize {
    a.as_slice().iter().zip(b.as_slice()).filter(|(x, y)| x != y).count()
}

#[test]
fn engine_single_site_changes_at_most_one_cell() {
    let mut e = Engine::new(30, 20, UpdateRate::single_site(), Automaton::Life(Life));
    for _ in 0..50 {
        let before = e.current().clone();
        e.step_once();
        assert!(differing(&before, e.current()) <= 1);
    }
}

#[test]
fn engine_new_seeds_with_automaton() {
    let e = Engine::new(9, 6, UpdateRate::synchronous(), by_name("dummy").unwrap());
    assert_eq!(e.current().get(3, 2), 1);
    assert_eq!(e.current().get(0, 0), 0);
    assert_eq!(e.current().width(), 9);
}

#[test]
fn engine_sync_dummy_inverts() {
    let mut e = Engine::new(9, 6, UpdateRate::synchronous(), by_name("dummy").unwrap());
    let before = e.current().clone();
    e.step_once();
    assert_eq!(differing(&before, e.current()), 54);
    e.step_once();
    assert_eq!(e.current().as_slice(), before.as_slice());
}

#[test]
fn engine_set_grid_and_soft_init() {
    let mut e = Engine::new(20, 20, UpdateRate::synchronous(), Automaton::MazeSolver(MazeSolver));
    let mut g = Grid::new(12, 14);
    g.fill(1);
    e.set_grid(g);
    assert_eq!(e.current().width(), 12);
    e.soft_init();
    assert_eq!(e.current().get(1, 1), 2);
    assert_eq!(e.current().get(3, 4), 3);
    e.set_async_fact(UpdateRate::ratio(1, 2).unwrap());
    e.step_once();
    assert_eq!(e.current().height(), 14);
}

#[test]
fn engine_set_automaton_reseeds() {
    let mut e = Engine::new(15, 11, UpdateRate::synchronous(), Automaton::Life(Life));
    e.set_automaton(by_name("generator").unwrap());
    assert!(e.current().as_slice().iter().all(|&v| v == 1));
    e.step_once();
    assert_eq!(e.current().get(1, 1), 0);
}

#[test]
fn rate_ratio_bounds() {
    assert!(UpdateRate::ratio(3, 2).is_none());
    assert!(UpdateRate::ratio(1, 0).is_none());
    assert_eq!(UpdateRate::ratio(2, 2), Some(UpdateRate { numerator: 2, denominator: 2 }));
}

#[test]
fn terminal_frame_layout() {
    let mut g = Grid::new(3, 2);
    g.set(0, 0, 1);
    g.set(2, 1, 4);
    let r = TerminalRenderer::new();
    let s: String = r.frame(&g).into_iter().collect();
    assert_eq!(s, "\u{2588}  \n  \u{2588}\n");
    assert_eq!(r.name(), "terminal");
}
