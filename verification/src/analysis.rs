use vstd::prelude::*;

use crate::creature::{
    spec_exec_allele_set, spec_num_executed, spec_sum_estimates, Creature,
};
use crate::fitness::{
    sat_add, sat_add_u64, spec_get, spec_ratio_ppm, spec_scalar, Objective, Pareto, Ratio,
};
use crate::memory::MemoryImage;
use crate::observer::Window;
use crate::sketch::DecayingSketch;

verus! {

/// The per-epoch summary row the reporting pass produces from one
/// window. Every average is kept as an exact ratio (saturating sum over
/// count), so persistence may render it however it likes. Each metric
/// averages only the creatures that can produce it: lengths and genetic
/// frequency over all present slots, fitness metrics over the scored
/// ones, execution metrics over the evaluated ones.
#[derive(Clone, Copy, Debug, PartialEq, Eq, Structural)]
pub struct StatRecord {
    pub counter: usize,
    pub avg_len: Ratio,
    pub avg_genetic_freq: Ratio,
    pub avg_scalar_fitness: Ratio,
    pub avg_exec_count: Ratio,
    pub avg_exec_ratio: Ratio,
    pub avg_place_error: Ratio,
    pub avg_value_error: Ratio,
    pub avg_crash_count: Ratio,
}

/// How many slots hold a creature.
pub open spec fn spec_count_present(frame: Seq<Option<Creature>>) -> int
    decreases frame.len(),
{
    if frame.len() == 0 {
        0
    } else {
        spec_count_present(frame.drop_last()) + (match frame.last() {
            Some(_) => 1int,
            None => 0int,
        })
    }
}

/// How many slots hold a scored creature.
pub open spec fn spec_count_scored(frame: Seq<Option<Creature>>) -> int
    decreases frame.len(),
{
    if frame.len() == 0 {
        0
    } else {
        spec_count_scored(frame.drop_last()) + (match frame.last() {
            Some(c) => if c.fitness is Some {
                1int
            } else {
                0int
            },
            None => 0int,
        })
    }
}

/// How many slots hold an evaluated creature.
pub open spec fn spec_count_evaluated(frame: Seq<Option<Creature>>) -> int
    decreases frame.len(),
{
    if frame.len() == 0 {
        0
    } else {
        spec_count_evaluated(frame.drop_last()) + (match frame.last() {
            Some(c) => if c.profile is Some {
                1int
            } else {
                0int
            },
            None => 0int,
        })
    }
}

/// The saturating sum of chromosome lengths over the present slots.
pub open spec fn spec_sum_len(frame: Seq<Option<Creature>>) -> int
    decreases frame.len(),
{
    if frame.len() == 0 {
        0
    } else {
        match frame.last() {
            Some(c) => sat_add(spec_sum_len(frame.drop_last()), c.chromosome@.len() as int),
            None => spec_sum_len(frame.drop_last()),
        }
    }
}

/// The saturating sum of scalar fitness over the scored slots.
pub open spec fn spec_sum_scalar(frame: Seq<Option<Creature>>) -> int
    decreases frame.len(),
{
    if frame.len() == 0 {
        0
    } else {
        match frame.last() {
            Some(c) => match c.fitness {
                Some(f) => sat_add(spec_sum_scalar(frame.drop_last()), spec_scalar(f)),
                None => spec_sum_scalar(frame.drop_last()),
            },
            None => spec_sum_scalar(frame.drop_last()),
        }
    }
}

/// The saturating sum of one objective over the scored slots.
pub open spec fn spec_sum_objective_frame(frame: Seq<Option<Creature>>, o: Objective) -> int
    decreases frame.len(),
{
    if frame.len() == 0 {
        0
    } else {
        match frame.last() {
            Some(c) => match c.fitness {
                Some(f) => sat_add(
                    spec_sum_objective_frame(frame.drop_last(), o),
                    spec_get(f, o),
                ),
                None => spec_sum_objective_frame(frame.drop_last(), o),
            },
            None => spec_sum_objective_frame(frame.drop_last(), o),
        }
    }
}

/// The saturating sum of executed-allele counts over evaluated slots.
pub open spec fn spec_sum_exec_count(frame: Seq<Option<Creature>>) -> int
    decreases frame.len(),
{
    if frame.len() == 0 {
        0
    } else {
        match frame.last() {
            Some(c) => if c.profile is Some {
                sat_add(spec_sum_exec_count(frame.drop_last()), spec_num_executed(c))
            } else {
                spec_sum_exec_count(frame.drop_last())
            },
            None => spec_sum_exec_count(frame.drop_last()),
        }
    }
}

/// One creature's execution ratio, as `Creature::execution_ratio`
/// computes it.
pub open spec fn spec_exec_ratio(c: Creature, image: &MemoryImage) -> Ratio {
    let den = spec_exec_allele_set(c.chromosome@, image).len();
    if den == 0 {
        Ratio { num: 0u64, den: 0u64 }
    } else {
        Ratio { num: spec_num_executed(c) as u64, den: den as u64 }
    }
}

/// The saturating sum of per-creature execution ratios (in parts per
/// million) over the evaluated slots.
pub open spec fn spec_sum_exec_ratio(frame: Seq<Option<Creature>>, image: &MemoryImage) -> int
    decreases frame.len(),
{
    if frame.len() == 0 {
        0
    } else {
        match frame.last() {
            Some(c) => if c.profile is Some {
                sat_add(
                    spec_sum_exec_ratio(frame.drop_last(), image),
                    spec_ratio_ppm(spec_exec_ratio(c, image)),
                )
            } else {
                spec_sum_exec_ratio(frame.drop_last(), image)
            },
            None => spec_sum_exec_ratio(frame.drop_last(), image),
        }
    }
}

/// How often one allele occurs across all present chromosomes.
pub open spec fn spec_window_count(frame: Seq<Option<Creature>>, allele: u64) -> int
    decreases frame.len(),
{
    if frame.len() == 0 {
        0
    } else {
        spec_window_count(frame.drop_last(), allele) + (match frame.last() {
            Some(c) => c.chromosome@.to_multiset().count(allele) as int,
            None => 0int,
        })
    }
}

/// The estimate a fresh sketch gives an allele after recording the
/// whole window: the allele's total multiplicity, saturated.
pub open spec fn spec_window_estimate(frame: Seq<Option<Creature>>, allele: u64) -> int {
    if spec_window_count(frame, allele) > u64::MAX {
        u64::MAX as int
    } else {
        spec_window_count(frame, allele)
    }
}

/// The saturating sum of window estimates over one chromosome.
pub open spec fn spec_sum_window_estimates(frame: Seq<Option<Creature>>, s: Seq<u64>) -> int
    decreases s.len(),
{
    if s.len() == 0 {
        0
    } else {
        sat_add(spec_window_estimate(frame, s[0]), spec_sum_window_estimates(frame, s.drop_first()))
    }
}

/// One creature's genetic frequency against the window, in parts per
/// million: the average sketch estimate over its alleles.
pub open spec fn spec_genetic_freq_ppm(frame: Seq<Option<Creature>>, c: Creature) -> int {
    spec_ratio_ppm(
        Ratio {
            num: spec_sum_window_estimates(frame, c.chromosome@) as u64,
            den: c.chromosome@.len() as u64,
        },
    )
}

/// The saturating sum of genetic frequencies over the present slots.
pub open spec fn spec_sum_genetic_freq(
    whole: Seq<Option<Creature>>,
    frame: Seq<Option<Creature>>,
) -> int
    decreases frame.len(),
{
    if frame.len() == 0 {
        0
    } else {
        match frame.last() {
            Some(c) => sat_add(
                spec_sum_genetic_freq(whole, frame.drop_last()),
                spec_genetic_freq_ppm(whole, c),
            ),
            None => spec_sum_genetic_freq(whole, frame.drop_last()),
        }
    }
}

/// The summary record one frame reduces to.
pub open spec fn spec_stat_record(
    frame: Seq<Option<Creature>>,
    counter: usize,
    image: &MemoryImage,
) -> StatRecord {
    StatRecord {
        counter,
        avg_len: Ratio { num: spec_sum_len(frame) as u64, den: spec_count_present(frame) as u64 },
        avg_genetic_freq: Ratio {
            num: spec_sum_genetic_freq(frame, frame) as u64,
            den: spec_count_present(frame) as u64,
        },
        avg_scalar_fitness: Ratio {
            num: spec_sum_scalar(frame) as u64,
            den: spec_count_scored(frame) as u64,
        },
        avg_exec_count: Ratio {
            num: spec_sum_exec_count(frame) as u64,
            den: spec_count_evaluated(frame) as u64,
        },
        avg_exec_ratio: Ratio {
            num: spec_sum_exec_ratio(frame, image) as u64,
            den: spec_count_evaluated(frame) as u64,
        },
        avg_place_error: Ratio {
            num: spec_sum_objective_frame(frame, Objective::PlaceError) as u64,
            den: spec_count_scored(frame) as u64,
        },
        avg_value_error: Ratio {
            num: spec_sum_objective_frame(frame, Objective::ValueError) as u64,
            den: spec_count_scored(frame) as u64,
        },
        avg_crash_count: Ratio {
            num: spec_sum_objective_frame(frame, Objective::CrashCount) as u64,
            den: spec_count_scored(frame) as u64,
        },
    }
}

/// Estimates that agree allele by allele sum to the same frequency.
proof fn lemma_sum_estimates_agree(
    sketch: &DecayingSketch,
    frame: Seq<Option<Creature>>,
    s: Seq<u64>,
)
    requires
        forall|b: u64| sketch.spec_estimate(b) as int == spec_window_estimate(frame, b),
    ensures
        spec_sum_estimates(sketch, s) == spec_sum_window_estimates(frame, s),
    decreases s.len(),
{
    if s.len() > 0 {
        lemma_sum_estimates_agree(sketch, frame, s.drop_first());
    }
}

impl StatRecord {
    /// Reduce one window frame to its summary row: the aggregation half
    /// of the reporting pass, free of any persistence side effects.
    pub fn from_window(window: &Window, counter: usize, image: &MemoryImage) -> (r: StatRecord)
        requires
            image.wf(),
        ensures
            r == spec_stat_record(window.frame@, counter, image),
    {
        let frame = &window.frame;
        let n = frame.len();
        let ghost whole = frame@;

        // One pass to fill the shared frequency sketch.
        let mut sketch = DecayingSketch::new();
        let mut j: usize = 0;
        proof {
            assert(frame@.subrange(0, 0) =~= Seq::<Option<Creature>>::empty());
        }
        while j < n
            invariant
                n == frame@.len(),
                j <= n,
                sketch.wf(),
                forall|b: u64|
                    sketch.spec_estimate(b) as int == spec_window_estimate(
                        frame@.subrange(0, j as int),
                        b,
                    ),
            decreases n - j,
        {
            match &frame[j] {
                Some(c) => {
                    c.record_genetic_frequency(&mut sketch);
                },
                None => {},
            }
            proof {
                assert(frame@.subrange(0, j + 1).drop_last() =~= frame@.subrange(0, j as int));
                assert(frame@.subrange(0, j + 1).last() == frame@[j as int]);
            }
            j = j + 1;
        }
        proof {
            assert(frame@.subrange(0, n as int) =~= frame@);
        }

        // One pass to accumulate every sum and count.
        let mut present: u64 = 0;
        let mut scored: u64 = 0;
        let mut evaluated: u64 = 0;
        let mut sum_len: u64 = 0;
        let mut sum_freq: u64 = 0;
        let mut sum_scalar: u64 = 0;
        let mut sum_exec_count: u64 = 0;
        let mut sum_exec_ratio: u64 = 0;
        let mut sum_place: u64 = 0;
        let mut sum_value: u64 = 0;
        let mut sum_crash: u64 = 0;
        let mut i: usize = 0;
        while i < n
            invariant
                image.wf(),
                sketch.wf(),
                n == frame@.len(),
                n <= u64::MAX,
                whole == frame@,
                i <= n,
                present as int <= i,
                scored as int <= i,
                evaluated as int <= i,
                forall|b: u64|
                    sketch.spec_estimate(b) as int == spec_window_estimate(whole, b),
                present as int == spec_count_present(frame@.subrange(0, i as int)),
                scored as int == spec_count_scored(frame@.subrange(0, i as int)),
                evaluated as int == spec_count_evaluated(frame@.subrange(0, i as int)),
                sum_len as int == spec_sum_len(frame@.subrange(0, i as int)),
                sum_freq as int == spec_sum_genetic_freq(whole, frame@.subrange(0, i as int)),
                sum_scalar as int == spec_sum_scalar(frame@.subrange(0, i as int)),
                sum_exec_count as int == spec_sum_exec_count(frame@.subrange(0, i as int)),
                sum_exec_ratio as int == spec_sum_exec_ratio(frame@.subrange(0, i as int), image),
                sum_place as int == spec_sum_objective_frame(
                    frame@.subrange(0, i as int),
                    Objective::PlaceError,
                ),
                sum_value as int == spec_sum_objective_frame(
                    frame@.subrange(0, i as int),
                    Objective::ValueError,
                ),
                sum_crash as int == spec_sum_objective_frame(
                    frame@.subrange(0, i as int),
                    Objective::CrashCount,
                ),
            decreases n - i,
        {
            match &frame[i] {
                Some(c) => {
                    present = present + 1;
                    sum_len = sat_add_u64(sum_len, usize_to_u64(c.len()));
                    let freq = c.measure_genetic_frequency(&sketch);
                    proof {
                        lemma_sum_estimates_agree(&sketch, whole, c.chromosome@);
                    }
                    sum_freq = sat_add_u64(sum_freq, freq.as_ppm());
                    match c.scalar_fitness() {
                        Some(v) => {
                            scored = scored + 1;
                            sum_scalar = sat_add_u64(sum_scalar, v);
                        },
                        None => {},
                    }
                    match &c.fitness {
                        Some(f) => {
                            sum_place = sat_add_u64(sum_place, f.get(Objective::PlaceError));
                            sum_value = sat_add_u64(sum_value, f.get(Objective::ValueError));
                            sum_crash = sat_add_u64(sum_crash, f.get(Objective::CrashCount));
                        },
                        None => {},
                    }
                    match &c.profile {
                        Some(_) => {
                            evaluated = evaluated + 1;
                            sum_exec_count = sat_add_u64(
                                sum_exec_count,
                                usize_to_u64(c.num_alleles_executed()),
                            );
                            let ratio = c.execution_ratio(image);
                            sum_exec_ratio = sat_add_u64(sum_exec_ratio, ratio.as_ppm());
                            proof {
                                assert(ratio == spec_exec_ratio(*c, image));
                            }
                        },
                        None => {},
                    }
                },
                None => {},
            }
            proof {
                assert(frame@.subrange(0, i + 1).drop_last() =~= frame@.subrange(0, i as int));
                assert(frame@.subrange(0, i + 1).last() == frame@[i as int]);
            }
            i = i + 1;
        }
        proof {
            assert(frame@.subrange(0, n as int) =~= frame@);
        }
        StatRecord {
            counter,
            avg_len: Ratio { num: sum_len, den: present },
            avg_genetic_freq: Ratio { num: sum_freq, den: present },
            avg_scalar_fitness: Ratio { num: sum_scalar, den: scored },
            avg_exec_count: Ratio { num: sum_exec_count, den: evaluated },
            avg_exec_ratio: Ratio { num: sum_exec_ratio, den: evaluated },
            avg_place_error: Ratio { num: sum_place, den: scored },
            avg_value_error: Ratio { num: sum_value, den: scored },
            avg_crash_count: Ratio { num: sum_crash, den: scored },
        }
    }
}

/// Lossless widening of a machine count.
fn usize_to_u64(x: usize) -> (r: u64)
    ensures
        r as int == x as int,
{
    x as u64
}

/// The three objectives a summary row projects out of a fitness vector,
/// as plain integer scores.
#[derive(Clone, Copy, Debug, PartialEq, Eq, Structural)]
pub struct Objectives {
    pub place_error: u64,
    pub value_error: u64,
    pub crash_count: u64,
}

impl<'a> From<&'a Pareto> for Objectives {
    /// Project the reported objectives out of one fitness vector.
    fn from(p: &'a Pareto) -> (r: Objectives) {
        Objectives {
            place_error: p.place_error,
            value_error: p.value_error,
            crash_count: p.crash_count,
        }
    }
}

impl<'a> vstd::std_specs::convert::FromSpecImpl<&'a Pareto> for Objectives {
    open spec fn obeys_from_spec() -> bool {
        true
    }

    open spec fn from_spec(p: &'a Pareto) -> Objectives {
        Objectives {
            place_error: p.place_error,
            value_error: p.value_error,
            crash_count: p.crash_count,
        }
    }
}

/// The default report strategy: reduce the window to its summary row.
/// Logging and persistence of the row belong to the caller that owns
/// the output channel; the reduction itself is pure.
pub fn report_fn(window: &Window, counter: usize, _params: &crate::config::Config, image: &MemoryImage) -> (r:
    StatRecord)
    requires
        image.wf(),
    ensures
        r == spec_stat_record(window.frame@, counter, image),
{
    StatRecord::from_window(window, counter, image)
}

} // verus!
