use roper_core::config::{Config, Endian};
use roper_core::creature::{init_soup, parse_u64, Creature};
use roper_core::error::Error;
use roper_core::memory::{MemoryImage, Perms, Segment};

fn base_config() -> Config {
    Config {
        word_size: 8,
        endian: Endian::Little,
        min_init_len: 4,
        max_init_len: 5,
        crossover_rate_ppm: 0,
        crossover_period: 2,
        observer_window_size: 4,
        soup: Some(vec![0x1000, 0x1008, 0x1010, 0x1018]),
        soup_size: None,
    }
}

fn empty_image() -> MemoryImage {
    MemoryImage { segments: vec![] }
}

fn exec_image() -> MemoryImage {
    MemoryImage {
        segments: vec![
            Segment {
                addr: 0x1000,
                perms: Perms { read: true, write: false, execute: true },
                data: vec![0xde, 0xad, 0xbe, 0xef, 0x01, 0x02, 0x03, 0x04, 0x05, 0x06, 0x07, 0x08],
            },
            Segment {
                addr: 0x2000,
                perms: Perms { read: true, write: true, execute: false },
                data: vec![0x11, 0x22, 0x33, 0x44],
            },
        ],
    }
}

#[test]
fn random_init_respects_bounds_and_soup() {
    let mut config = base_config();
    config.min_init_len = 2;
    config.max_init_len = 4;
    let soup = config.soup.clone().unwrap();
    for _ in 0..50 {
        let c = Creature::random(&config);
        assert!(c.chromosome.len() >= 2 && c.chromosome.len() < 4);
        for a in &c.chromosome {
            assert!(soup.contains(a));
        }
        for i in 0..c.chromosome.len() {
            for j in 0..i {
                assert_ne!(c.chromosome[i], c.chromosome[j]);
            }
        }
        assert_eq!(c.generation, 0);
        assert!(c.chromosome_parentage.is_empty());
        assert!(c.parents.is_empty());
        assert!(c.profile.is_none());
        assert!(c.fitness.is_none());
    }
}

#[test]
fn crossover_parentage_matches_length() {
    let config = base_config();
    let a = Creature::random(&config);
    let b = Creature::random(&config);
    let mut recomb = base_config();
    recomb.crossover_rate_ppm = 1_000_000;
    let mates = vec![a.clone(), b.clone()];
    let segments = vec![2, 1, 3];
    for _ in 0..10 {
        let child = Creature::crossover(&mates, &recomb, &segments);
        assert_eq!(child.chromosome_parentage.len(), child.chromosome.len());
    }
    let mut clone_cfg = base_config();
    clone_cfg.crossover_rate_ppm = 0;
    let child = Creature::crossover(&mates, &clone_cfg, &segments);
    assert_eq!(child.chromosome_parentage.len(), child.chromosome.len());
}

#[test]
fn crossover_generation_is_max_plus_one() {
    let config = base_config();
    let mut a = Creature::random(&config);
    let mut b = Creature::random(&config);
    a.generation = 3;
    b.generation = 5;
    let mates = vec![a, b];
    let segments = vec![1, 1, 1, 1, 1];
    let mut recomb = base_config();
    recomb.crossover_rate_ppm = 1_000_000;
    let child = Creature::crossover(&mates, &recomb, &segments);
    assert_eq!(child.generation, 6);
    let mut clone_cfg = base_config();
    clone_cfg.crossover_rate_ppm = 0;
    let child = Creature::crossover(&mates, &clone_cfg, &segments);
    assert_eq!(child.generation, 6);
}

#[test]
fn clone_branch_has_single_parent_and_zero_parentage() {
    let config = base_config();
    let a = Creature::random(&config);
    let b = Creature::random(&config);
    let mates = vec![a.clone(), b.clone()];
    let mut clone_cfg = base_config();
    clone_cfg.crossover_rate_ppm = 0;
    let child = Creature::crossover(&mates, &clone_cfg, &vec![]);
    assert_eq!(child.parents.len(), 1);
    for p in &child.chromosome_parentage {
        assert_eq!(*p, 0);
    }
    assert!(
        child.chromosome == a.chromosome && child.parents[0] == a.name
            || child.chromosome == b.chromosome && child.parents[0] == b.name
    );
}

#[test]
fn recombination_copies_position_aligned_alleles() {
    let config = base_config();
    let mut recomb = base_config();
    recomb.crossover_rate_ppm = 1_000_000;
    let a = Creature::random(&config);
    let b = Creature::random(&config);
    let mates = vec![a.clone(), b.clone()];
    let child = Creature::crossover(&mates, &recomb, &vec![2, 2]);
    let min_len = a.chromosome.len().min(b.chromosome.len());
    assert_eq!(child.chromosome.len(), min_len);
    assert_eq!(child.parents, vec![a.name.clone(), b.name.clone()]);
    for k in 0..child.chromosome.len() {
        let p = child.chromosome_parentage[k];
        assert!(p < 2);
        let source = if p == 0 { &a } else { &b };
        assert_eq!(child.chromosome[k], source.chromosome[k]);
    }
    // Both mates are four alleles long, so the drawn run lengths [2, 2]
    // lay the parentage down as two alleles of each mate in turn.
    assert_eq!(child.chromosome_parentage, vec![0, 0, 1, 1]);
}

#[test]
fn recombination_rotates_runs_through_segment_draws() {
    let mut recomb = base_config();
    recomb.crossover_rate_ppm = 1_000_000;
    let a = Creature::random(&base_config());
    let b = Creature::random(&base_config());
    let mates = vec![a, b];
    // Four alleles: a zero draw counts as one, the last draw is clipped.
    let child = Creature::crossover(&mates, &recomb, &vec![0, 1, 5]);
    assert_eq!(child.chromosome_parentage, vec![0, 1, 0, 0]);
    // With no draws at all, the whole child is one run of the first mate.
    let child = Creature::crossover(&mates, &recomb, &vec![]);
    assert_eq!(child.chromosome_parentage, vec![0, 0, 0, 0]);
}

#[test]
fn cloning_a_creature_with_itself_reproduces_it() {
    // Seeding from a four-address soup with lengths drawn in [4, 5)
    // must use every soup address exactly once; crossing the creature
    // with itself at rate zero must clone it into generation one.
    let config = base_config();
    let c = Creature::random(&config);
    assert_eq!(c.chromosome.len(), 4);
    for addr in [0x1000u64, 0x1008, 0x1010, 0x1018] {
        assert!(c.chromosome.contains(&addr));
    }
    let mates = vec![c.clone(), c.clone()];
    let child = Creature::crossover(&mates, &config, &vec![]);
    assert_eq!(child.chromosome, c.chromosome);
    assert_eq!(child.generation, 1);
    assert_eq!(child.parents.len(), 1);
    assert!(child.fitness.is_none());
    assert!(child.profile.is_none());
}

#[test]
fn mutation_preserves_length_and_metadata() {
    let config = base_config();
    let image = exec_image();
    for _ in 0..64 {
        let mut c = Creature::random(&config);
        let len = c.chromosome.len();
        let tag = c.tag;
        let name = c.name.clone();
        let generation = c.generation;
        c.mutate(&config, &image);
        assert_eq!(c.chromosome.len(), len);
        assert_eq!(c.tag, tag);
        assert_eq!(c.name, name);
        assert_eq!(c.generation, generation);
        assert!(c.fitness.is_none());
        assert!(c.profile.is_none());
    }
}

#[test]
fn mutation_changes_at_most_one_allele() {
    let config = base_config();
    let image = empty_image();
    for _ in 0..64 {
        let mut c = Creature::random(&config);
        let before = c.chromosome.clone();
        c.mutate(&config, &image);
        let differing = before
            .iter()
            .zip(c.chromosome.iter())
            .filter(|(x, y)| x != y)
            .count();
        assert!(differing <= 1);
        // With nothing mapped, dereference and indirection are no-ops,
        // so any change is a wrapping nudge by less than 256.
        for (x, y) in before.iter().zip(c.chromosome.iter()) {
            assert!(y.wrapping_sub(*x) < 256 || x.wrapping_sub(*y) < 256);
        }
    }
}

#[test]
fn parse_u64_accepts_decimal_literals() {
    assert_eq!(parse_u64(&"0".to_string()).unwrap(), 0);
    assert_eq!(parse_u64(&"123".to_string()).unwrap(), 123);
    assert_eq!(
        parse_u64(&"18446744073709551615".to_string()).unwrap(),
        u64::MAX
    );
}

#[test]
fn parse_u64_rejects_bad_lines() {
    assert!(matches!(
        parse_u64(&"".to_string()),
        Err(Error::ParseInt(_))
    ));
    assert!(matches!(
        parse_u64(&"12a".to_string()),
        Err(Error::ParseInt(_))
    ));
    assert!(matches!(
        parse_u64(&"18446744073709551616".to_string()),
        Err(Error::ParseInt(_))
    ));
    assert!(matches!(
        parse_u64(&"-3".to_string()),
        Err(Error::ParseInt(_))
    ));
}

#[test]
fn init_soup_parses_gadget_lines() {
    let mut config = base_config();
    config.soup = None;
    let lines = vec!["4096".to_string(), "4104".to_string(), "4112".to_string()];
    let image = empty_image();
    init_soup(&mut config, Some(&lines), &image).unwrap();
    assert_eq!(config.soup, Some(vec![4096, 4104, 4112]));
}

#[test]
fn init_soup_reports_parse_failures() {
    let mut config = base_config();
    config.soup = None;
    let lines = vec!["4096".to_string(), "banana".to_string()];
    let image = empty_image();
    let r = init_soup(&mut config, Some(&lines), &image);
    assert!(matches!(r, Err(Error::ParseInt(_))));
    assert_eq!(config.soup, None);
}

#[test]
fn init_soup_samples_executable_addresses() {
    let mut config = base_config();
    config.soup = None;
    config.soup_size = Some(10);
    let image = exec_image();
    init_soup(&mut config, None, &image).unwrap();
    let soup = config.soup.unwrap();
    assert_eq!(soup.len(), 10);
    for a in soup {
        assert!((0x1000..0x100c).contains(&a));
    }
}
