use roper_core::codec::{pack_words, read_integer, unpack_words, write_integer};
use roper_core::config::Endian;
use roper_core::creature::{Creature, Profile};
use roper_core::error::Error;
use roper_core::fitness::{Objective, Pareto, Ratio};
use roper_core::memory::{MemoryImage, Perms, Segment};
use roper_core::analysis::Objectives;
use roper_core::sketch::DecayingSketch;

fn creature_with(chromosome: Vec<u64>) -> Creature {
    Creature {
        chromosome,
        chromosome_parentage: vec![],
        tag: 7,
        name: "subject".to_string(),
        parents: vec![],
        generation: 0,
        profile: None,
        fitness: None,
    }
}

fn exec_image() -> MemoryImage {
    MemoryImage {
        segments: vec![Segment {
            addr: 0x1000,
            perms: Perms { read: true, write: false, execute: true },
            data: vec![0; 0x40],
        }],
    }
}

#[test]
fn execution_ratio_is_zero_without_executable_alleles() {
    let image = MemoryImage { segments: vec![] };
    let mut c = creature_with(vec![0x1000, 0x1008]);
    c.profile = Some(Profile { gadgets_executed: vec![0x1000] });
    let r = c.execution_ratio(&image);
    assert_eq!(r.num, 0);
    assert_eq!(r.den, 0);
    assert_eq!(r.as_ppm(), 0);
}

#[test]
fn execution_ratio_counts_unique_executable_alleles() {
    let image = exec_image();
    let mut c = creature_with(vec![0x1000, 0x1008, 0x1000, 0x9999]);
    c.profile = Some(Profile { gadgets_executed: vec![0x1000] });
    let r = c.execution_ratio(&image);
    // 0x1000 and 0x1008 are executable; the duplicate and the unmapped
    // allele do not count.
    assert_eq!(r.den, 2);
    assert_eq!(r.num, 1);
    assert_eq!(r.as_ppm(), 500_000);
}

#[test]
fn num_alleles_executed_is_zero_before_evaluation() {
    let c = creature_with(vec![0x1000]);
    assert_eq!(c.num_alleles_executed(), 0);
    let mut evaluated = creature_with(vec![0x1000]);
    evaluated.profile = Some(Profile { gadgets_executed: vec![1, 2, 3] });
    assert_eq!(evaluated.num_alleles_executed(), 3);
}

#[test]
fn write_integer_lays_out_exact_bytes() {
    assert_eq!(
        write_integer(Endian::Little, 4, 0x1122334455667788),
        vec![0x88, 0x77, 0x66, 0x55]
    );
    assert_eq!(
        write_integer(Endian::Big, 4, 0x1122334455667788),
        vec![0x55, 0x66, 0x77, 0x88]
    );
    assert_eq!(write_integer(Endian::Little, 2, 0xabcd), vec![0xcd, 0xab]);
    assert_eq!(
        write_integer(Endian::Big, 8, 0x0102030405060708),
        vec![1, 2, 3, 4, 5, 6, 7, 8]
    );
}

#[test]
fn read_integer_decodes_or_reports_short_input() {
    let bytes = vec![0x88, 0x77, 0x66, 0x55];
    assert_eq!(read_integer(&bytes, Endian::Little, 4), Some(0x55667788));
    assert_eq!(read_integer(&bytes, Endian::Big, 4), Some(0x88776655));
    assert_eq!(read_integer(&bytes, Endian::Little, 8), None);
}

#[test]
fn packing_round_trips_per_allele() {
    let chromosome = vec![0x1122334455667788u64, 0xdeadbeef, 7];
    for endian in [Endian::Little, Endian::Big] {
        for word_size in [2usize, 4, 8] {
            let packed = pack_words(&chromosome, word_size, endian);
            assert_eq!(packed.len(), chromosome.len() * word_size);
            let unpacked = unpack_words(&packed, word_size, endian);
            assert_eq!(unpacked.len(), chromosome.len());
            for (orig, got) in chromosome.iter().zip(unpacked.iter()) {
                let truncated = if word_size == 8 {
                    *orig
                } else {
                    orig & ((1u64 << (8 * word_size)) - 1)
                };
                assert_eq!(*got, truncated);
            }
        }
    }
}

#[test]
fn creature_pack_matches_codec() {
    let c = creature_with(vec![0x11223344, 0x55667788]);
    let packed = c.pack(4, Endian::Little);
    assert_eq!(packed, vec![0x44, 0x33, 0x22, 0x11, 0x88, 0x77, 0x66, 0x55]);
}

#[test]
fn as_code_addrs_keeps_order_and_duplicates() {
    let image = exec_image();
    let c = creature_with(vec![0x1000, 0x9999, 0x1008, 0x1000]);
    assert_eq!(c.as_code_addrs(&image), vec![0x1000, 0x1008, 0x1000]);
}

#[test]
fn sketch_estimates_grow_and_decay() {
    let mut sketch = DecayingSketch::new();
    assert_eq!(sketch.estimate(5), 0);
    sketch.record(5);
    assert_eq!(sketch.estimate(5), 1);
    assert_eq!(sketch.estimate(7), 0);
    sketch.record(5);
    sketch.record(5);
    assert_eq!(sketch.estimate(5), 3);
    // A recorded allele never estimates below one never recorded.
    assert!(sketch.estimate(5) >= sketch.estimate(7));
    sketch.decay();
    assert_eq!(sketch.estimate(5), 1);
    assert_eq!(sketch.estimate(7), 0);
    assert!(sketch.estimate(5) >= sketch.estimate(7));
}

#[test]
fn genetic_frequency_averages_sketch_estimates() {
    let mut sketch = DecayingSketch::new();
    let a = creature_with(vec![1, 2]);
    let b = creature_with(vec![1]);
    a.record_genetic_frequency(&mut sketch);
    b.record_genetic_frequency(&mut sketch);
    let fa = a.measure_genetic_frequency(&sketch);
    assert_eq!(fa.num, 3);
    assert_eq!(fa.den, 2);
    let fb = b.measure_genetic_frequency(&sketch);
    assert_eq!(fb.num, 2);
    assert_eq!(fb.den, 1);
}

#[test]
fn scalar_fitness_sums_objectives() {
    let p = Pareto::new(3, 4, 5);
    assert_eq!(p.scalar(), 12);
    assert_eq!(p.values(), vec![3, 4, 5]);
    let mut c = creature_with(vec![1]);
    assert_eq!(c.scalar_fitness(), None);
    c.set_fitness(p);
    assert_eq!(c.scalar_fitness(), Some(12));
}

#[test]
fn domination_is_a_partial_order() {
    let a = Pareto::new(1, 2, 3);
    let b = Pareto::new(2, 2, 3);
    let c = Pareto::new(0, 9, 0);
    assert!(a.dominates(&b));
    assert!(!b.dominates(&a));
    assert!(!a.dominates(&a));
    assert!(!a.dominates(&c) && !c.dominates(&a));
    assert_eq!(a.partial_cmp(&b), Some(std::cmp::Ordering::Less));
    assert_eq!(b.partial_cmp(&a), Some(std::cmp::Ordering::Greater));
    assert_eq!(a.partial_cmp(&a), Some(std::cmp::Ordering::Equal));
    assert_eq!(a.partial_cmp(&c), None);
    assert!(a < b);
}

#[test]
fn averaging_is_component_wise() {
    let vs = vec![Pareto::new(1, 10, 4), Pareto::new(3, 11, 4)];
    let avg = Pareto::average(&vs).unwrap();
    assert_eq!(avg.place_error, 2);
    assert_eq!(avg.value_error, 10);
    assert_eq!(avg.crash_count, 4);
    assert!(Pareto::average(&vec![]).is_none());
}

#[test]
fn objective_lookup_by_name_reports_missing_keys() {
    let p = Pareto::new(1, 2, 3);
    assert_eq!(p.get_by_name(&"place_error".to_string()).unwrap(), 1);
    assert_eq!(p.get_by_name(&"value_error".to_string()).unwrap(), 2);
    assert_eq!(p.get_by_name(&"crash_count".to_string()).unwrap(), 3);
    assert!(matches!(
        p.get_by_name(&"bogus".to_string()),
        Err(Error::MissingKey(_))
    ));
    assert_eq!(p.get(Objective::PlaceError), 1);
}

#[test]
fn objectives_project_the_reported_scores() {
    let p = Pareto::new(7, 8, 9);
    let o = Objectives::from(&p);
    assert_eq!(o.place_error, 7);
    assert_eq!(o.value_error, 8);
    assert_eq!(o.crash_count, 9);
}

#[test]
fn ratio_fixed_point_saturates() {
    assert_eq!(Ratio { num: 1, den: 2 }.as_ppm(), 500_000);
    assert_eq!(Ratio { num: 0, den: 0 }.as_ppm(), 0);
    assert_eq!(Ratio { num: u64::MAX, den: 1 }.as_ppm(), u64::MAX);
}
