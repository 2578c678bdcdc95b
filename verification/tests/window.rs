use roper_core::analysis::{report_fn, StatRecord};
use roper_core::config::{Config, Endian};
use roper_core::control::{
    get_epoch_counter, increment_epoch_counter, keep_going, stop_everything, Control,
};
use roper_core::creature::{Creature, Profile};
use roper_core::fitness::Pareto;
use roper_core::memory::{MemoryImage, Perms, Segment};
use roper_core::observer::Window;

fn named(chromosome: Vec<u64>, name: &str) -> Creature {
    Creature {
        chromosome,
        chromosome_parentage: vec![],
        tag: 0,
        name: name.to_string(),
        parents: vec![],
        generation: 0,
        profile: None,
        fitness: None,
    }
}

fn empty_image() -> MemoryImage {
    MemoryImage { segments: vec![] }
}

fn test_config() -> Config {
    Config {
        word_size: 8,
        endian: Endian::Little,
        min_init_len: 2,
        max_init_len: 4,
        crossover_rate_ppm: 500_000,
        crossover_period: 2,
        observer_window_size: 3,
        soup: None,
        soup_size: None,
    }
}

#[test]
fn window_wraps_exactly_once_per_fill() {
    let image = empty_image();
    let mut window = Window::new(3);
    let mut reports = 0;
    for k in 0..3u64 {
        let r = window.insert(named(vec![k], &format!("c{}", k)), 0, &image);
        if r.is_some() {
            reports += 1;
        }
    }
    assert_eq!(reports, 1);
    // Cursor starts at zero, so insertion k lands in slot (k + 1) mod 3.
    assert_eq!(window.frame[1].as_ref().unwrap().chromosome, vec![0]);
    assert_eq!(window.frame[2].as_ref().unwrap().chromosome, vec![1]);
    assert_eq!(window.frame[0].as_ref().unwrap().chromosome, vec![2]);
}

#[test]
fn window_report_fires_on_the_wrapping_insert_only() {
    let image = empty_image();
    let mut window = Window::new(2);
    assert!(window.insert(named(vec![1], "a"), 0, &image).is_none());
    assert!(window.insert(named(vec![2], "b"), 0, &image).is_some());
    assert!(window.insert(named(vec![3], "c"), 0, &image).is_none());
    assert!(window.insert(named(vec![4], "d"), 0, &image).is_some());
}

#[test]
fn first_report_includes_empty_slots() {
    let image = empty_image();
    let mut window = Window::new(4);
    let record = window.report(9, &image);
    assert_eq!(record.counter, 9);
    assert_eq!(record.avg_len.den, 0);
    assert_eq!(record.avg_len.num, 0);
}

#[test]
fn stat_record_aggregates_only_present_contributors() {
    let image = empty_image();
    let mut window = Window::new(3);

    let mut a = named(vec![1, 2], "a");
    a.fitness = Some(Pareto::new(2, 4, 6));
    a.profile = Some(Profile { gadgets_executed: vec![9, 9, 9] });
    let b = named(vec![1], "b");

    window.insert(a, 0, &image);
    let record = window.insert(b, 0, &image);
    assert!(record.is_none());

    let record = window.report(5, &image);
    assert_eq!(record.counter, 5);
    // Two creatures present, lengths 2 and 1.
    assert_eq!(record.avg_len.num, 3);
    assert_eq!(record.avg_len.den, 2);
    // Only one is scored.
    assert_eq!(record.avg_scalar_fitness.num, 12);
    assert_eq!(record.avg_scalar_fitness.den, 1);
    assert_eq!(record.avg_place_error.num, 2);
    assert_eq!(record.avg_value_error.num, 4);
    assert_eq!(record.avg_crash_count.num, 6);
    assert_eq!(record.avg_crash_count.den, 1);
    // Only one is evaluated; it executed three alleles.
    assert_eq!(record.avg_exec_count.num, 3);
    assert_eq!(record.avg_exec_count.den, 1);
    // No allele is executable in an empty image.
    assert_eq!(record.avg_exec_ratio.num, 0);
    assert_eq!(record.avg_exec_ratio.den, 1);
    // Window counts: allele 1 twice, allele 2 once. Creature a averages
    // (2 + 1) / 2 = 1.5; creature b averages 2 / 1 = 2.
    assert_eq!(record.avg_genetic_freq.num, 1_500_000 + 2_000_000);
    assert_eq!(record.avg_genetic_freq.den, 2);
}

#[test]
fn report_fn_matches_window_report() {
    let image = empty_image();
    let config = test_config();
    let mut window = Window::new(2);
    window.insert(named(vec![4, 5, 6], "x"), 0, &image);
    let via_fn: StatRecord = report_fn(&window, 3, &config, &image);
    let via_window = window.report(3, &image);
    assert_eq!(via_fn, via_window);
    assert_eq!(via_fn.avg_len.num, 3);
    assert_eq!(via_fn.avg_len.den, 1);
}

#[test]
fn control_flags_and_epochs() {
    let mut control = Control::new();
    assert!(keep_going(&control));
    assert_eq!(get_epoch_counter(&control), 0);
    increment_epoch_counter(&mut control);
    increment_epoch_counter(&mut control);
    assert_eq!(get_epoch_counter(&control), 2);
    stop_everything(&mut control);
    assert!(!keep_going(&control));
    assert_eq!(get_epoch_counter(&control), 2);
}

#[test]
fn memory_queries_follow_the_segment_map() {
    let image = MemoryImage {
        segments: vec![
            Segment {
                addr: 0x1000,
                perms: Perms { read: true, write: false, execute: true },
                data: vec![0xaa, 0xbb, 0xcc, 0xdd],
            },
            Segment {
                addr: 0x2000,
                perms: Perms { read: true, write: true, execute: false },
                data: vec![0x01, 0x02],
            },
        ],
    };
    let p = image.perm_of_addr(0x1002).unwrap();
    assert!(p.execute && p.read && !p.write);
    assert!(image.perm_of_addr(0x3000).is_none());
    assert!(image.is_exec_addr(0x1003));
    assert!(!image.is_exec_addr(0x2000));

    let bytes = image.try_dereference(0x1001).unwrap();
    assert_eq!(bytes, vec![0xbb, 0xcc, 0xdd]);
    assert!(image.try_dereference(0x1fff).is_none());

    let hit = image.find_address_containing(&vec![0xcc, 0xdd]).unwrap();
    assert_eq!(hit, 0x1002);
    assert!(image.find_address_containing(&vec![0xee]).is_none());

    let exec_only = Perms { read: false, write: false, execute: true };
    for _ in 0..20 {
        let a = image.random_address(Some(exec_only)).unwrap();
        assert!((0x1000..0x1004).contains(&a));
    }
    let writable = Perms { read: false, write: true, execute: false };
    for _ in 0..20 {
        let a = image.random_address(Some(writable)).unwrap();
        assert!((0x2000..0x2002).contains(&a));
    }
    let impossible = Perms { read: true, write: true, execute: true };
    assert!(image.random_address(Some(impossible)).is_none());
}
