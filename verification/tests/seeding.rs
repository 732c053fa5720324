use torus_life::grid::{ConfigError, Grid};
use torus_life::scheduler::Generations;
use torus_life::seed::random_seed;
use torus_life::render::{RenderMode, Viewport};

fn bit(word: u128, k: usize) -> bool {
    (word >> k) & 1 == 1
}

const W0: u128 = 0x0123_4567_89AB_CDEF_0F1E_2D3C_4B5A_6978;
const W1: u128 = 0xFFFF_0000_FFFF_0000_AAAA_5555_C3C3_3C3C;
const W2: u128 = 0x8000_0000_0000_0000_0000_0000_0000_0001;

#[test]
fn random_seed_has_the_length_asked_for() {
    assert_eq!(random_seed(0).len(), 0);
    assert_eq!(random_seed(1).len(), 1);
    assert_eq!(random_seed(37).len(), 37);
}

#[test]
fn seed_fills_one_block_from_one_word() {
    // Two chunks of 4 rows by 32 columns: 128 bits each, one block.
    let mut g = Grid::new(8, 32, 4).unwrap();
    g.seed(&vec![W0, W1, W2]);
    for r in 0..8 {
        for c in 0..32 {
            let word = if r < 4 { W0 } else { W1 };
            assert_eq!(g.get(r, c), bit(word, c * 4 + r % 4));
        }
    }
}

#[test]
fn seed_picks_words_by_chunk_and_block() {
    // Three chunks of 2 rows by 192 columns: 384 bits, three blocks each.
    let seed = vec![W0, W1, W2, !W0, !W1];
    let mut g = Grid::new(6, 192, 2).unwrap();
    g.seed(&seed);
    for r in 0..6 {
        for c in 0..192 {
            let at = c * 2 + r % 2;
            let (i, j) = (r / 2, at / 128);
            let word = seed[(i ^ (j * j)) % 5];
            assert_eq!(g.get(r, c), bit(word, at % 128));
        }
    }
}

#[test]
fn seed_fills_a_short_last_block_from_the_low_bits() {
    // One chunk of 8 rows by 24 columns: 192 bits, a full block and half a one.
    let seed = vec![W1, W0];
    let mut g = Grid::new(8, 24, 8).unwrap();
    g.seed(&seed);
    for r in 0..8 {
        for c in 0..24 {
            let at = c * 8 + r;
            let word = if at < 128 { W1 } else { W0 };
            assert_eq!(g.get(r, c), bit(word, at % 128));
        }
    }
}

#[test]
fn seed_overwrites_what_was_there() {
    let mut g = Grid::new(4, 4, 4).unwrap();
    for r in 0..4 {
        for c in 0..4 {
            g.set(r, c, true);
        }
    }
    g.seed(&vec![0u128]);
    for r in 0..4 {
        for c in 0..4 {
            assert!(!g.get(r, c));
        }
    }
    g.seed(&vec![1u128]);
    assert!(g.get(0, 0));
    assert!(!g.get(1, 0));
    assert!(!g.get(0, 1));
    g.seed(&vec![u128::MAX]);
    for r in 0..4 {
        for c in 0..4 {
            assert!(g.get(r, c));
        }
    }
}

#[test]
fn same_seed_gives_the_same_run() {
    let seed = random_seed(11);
    let view = Viewport::new(16, 32, RenderMode::OneToOne, 0, 0).unwrap();
    let mut first = Generations::new(16, 32, 4, &seed).unwrap();
    let mut second = Generations::new(16, 32, 4, &seed).unwrap();
    let mut buffer1 = vec![0u32; 16 * 32];
    let mut buffer2 = vec![7u32; 16 * 32];
    for _ in 0..25 {
        for r in 0..16 {
            for c in 0..32 {
                assert_eq!(first.newest().get(r, c), second.newest().get(r, c));
            }
        }
        first.advance(&mut buffer1, &view);
        second.advance(&mut buffer2, &view);
        assert_eq!(buffer1, buffer2);
    }
}

#[test]
fn both_buffers_start_from_the_seed() {
    let seed = vec![W0, W1];
    let pair = Generations::new(8, 16, 8, &seed).unwrap();
    assert!(!pair.flag);
    let mut alone = Grid::new(8, 16, 8).unwrap();
    alone.seed(&seed);
    for r in 0..8 {
        for c in 0..16 {
            assert_eq!(pair.cells1.get(r, c), alone.get(r, c));
            assert_eq!(pair.cells2.get(r, c), alone.get(r, c));
        }
    }
}

#[test]
fn generations_refuse_a_bad_shape() {
    assert_eq!(Generations::new(0, 8, 1, &vec![1]).err(), Some(ConfigError::ZeroSized));
    assert_eq!(Generations::new(8, 2, 1, &vec![1]).err(), Some(ConfigError::ColsTooSmall));
    assert_eq!(Generations::new(8, 8, 3, &vec![1]).err(), Some(ConfigError::NotDivisible));
}

#[test]
fn advancing_swaps_the_roles_and_keeps_the_source() {
    let view = Viewport::new(5, 5, RenderMode::OneToOne, 0, 0).unwrap();
    let mut pair = Generations::new(5, 5, 1, &vec![0]).unwrap();
    for c in 1..4 {
        pair.cells2.set(2, c, true);
    }
    let mut buffer = vec![0u32; 25];
    pair.advance(&mut buffer, &view);
    assert!(pair.flag);
    // The source is as it was, the other buffer holds the vertical blinker.
    for r in 0..5 {
        for c in 0..5 {
            assert_eq!(pair.cells2.get(r, c), r == 2 && (1..4).contains(&c));
            assert_eq!(pair.cells1.get(r, c), c == 2 && (1..4).contains(&r));
            assert_eq!(pair.newest().get(r, c), pair.cells1.get(r, c));
            let expected = if c == 2 && (1..4).contains(&r) { 0x0000_0000 } else { 0xFFFF_FFFF };
            assert_eq!(buffer[r * 5 + c], expected);
        }
    }
    pair.advance(&mut buffer, &view);
    assert!(!pair.flag);
    for r in 0..5 {
        for c in 0..5 {
            assert_eq!(pair.newest().get(r, c), r == 2 && (1..4).contains(&c));
        }
    }
}

#[test]
fn a_pair_can_be_told_apart_from_two_loose_grids() {
    let mut pair = Generations::new(8, 8, 4, &vec![5]).unwrap();
    assert!(pair.check());
    pair.cells2 = Grid::new(8, 8, 2).unwrap();
    assert!(!pair.check());
    pair.cells2 = Grid::new(4, 8, 4).unwrap();
    assert!(!pair.check());
    pair.cells2 = Grid::new(8, 8, 4).unwrap();
    assert!(pair.check());
    pair.cells1.rows = 12;
    assert!(!pair.check());
}

#[test]
fn roles_follow_the_flag() {
    let mut pair = Generations::new(4, 4, 1, &vec![0]).unwrap();
    pair.cells1.set(0, 0, true);
    pair.cells2.set(3, 3, true);
    {
        let (source, target) = pair.roles();
        assert!(source.get(3, 3) && !source.get(0, 0));
        assert!(target.get(0, 0) && !target.get(3, 3));
        target.set(1, 1, true);
    }
    assert!(pair.cells1.get(1, 1));
    assert!(!pair.flag);
    pair.flip();
    assert!(pair.flag);
    assert!(pair.newest().get(0, 0));
    {
        let (source, target) = pair.roles();
        assert!(source.get(0, 0) && source.get(1, 1));
        assert!(target.get(3, 3));
    }
    pair.flip();
    assert!(!pair.flag);
    assert!(pair.newest().get(3, 3));
}
