use vstd::prelude::*;

use crate::codec;
use crate::config::{Config, Endian};
use crate::error::Error;
use crate::fitness::{sat_add, spec_scalar, Pareto, Ratio};
use crate::memory::{MemoryImage, Perms};
use crate::rng;
use crate::sketch::DecayingSketch;
use vstd::multiset::Multiset;
use vstd::string::{StrSliceExecFns, StringExecFns};

verus! {

/// What the emulation backend reports after a candidate chain ran: the
/// gadget addresses that were actually executed. Produced outside the
/// core; read-only here.
#[derive(Clone, Debug)]
pub struct Profile {
    pub gadgets_executed: Vec<u64>,
}

/// One genome/phenome individual: an ordered chain of 64-bit alleles
/// (candidate addresses), its lineage metadata, and, once evaluated, an
/// execution profile and a fitness vector.
#[derive(Clone, Debug)]
pub struct Creature {
    pub chromosome: Vec<u64>,
    pub chromosome_parentage: Vec<usize>,
    pub tag: u64,
    pub name: String,
    pub parents: Vec<String>,
    pub generation: usize,
    pub profile: Option<Profile>,
    pub fitness: Option<Pareto>,
}

/// How many alleles the evaluated chain executed; zero before evaluation.
pub open spec fn spec_num_executed(c: Creature) -> int {
    match c.profile {
        Some(p) => p.gadgets_executed@.len() as int,
        None => 0,
    }
}

/// The distinct chromosome alleles the memory image marks executable.
pub open spec fn spec_exec_allele_set(chromosome: Seq<u64>, image: &MemoryImage) -> Set<u64> {
    Set::new(|v: u64| chromosome.contains(v) && image.spec_is_exec(v))
}

/// `g` is the largest generation among the mates.
pub open spec fn spec_is_max_gen(g: int, mates: Seq<Creature>) -> bool {
    &&& forall|i: int| 0 <= i < mates.len() ==> (#[trigger] mates[i]).generation <= g
    &&& exists|i: int| 0 <= i < mates.len() && (#[trigger] mates[i]).generation == g
}

/// `l` is the shortest chromosome length among the mates.
pub open spec fn spec_is_min_len(l: int, mates: Seq<Creature>) -> bool {
    &&& forall|i: int| 0 <= i < mates.len() ==> l <= (#[trigger] mates[i]).chromosome@.len()
    &&& exists|i: int| 0 <= i < mates.len() && (#[trigger] mates[i]).chromosome@.len() == l
}

/// The clone branch of crossover: the child copies one of the first two
/// mates verbatim, every parentage entry points at entry zero of the
/// one-element parent list.
pub open spec fn spec_is_clone(c: Creature, mates: Seq<Creature>) -> bool {
    exists|j: int|
        0 <= j < 2 && c.chromosome@ == (#[trigger] mates[j]).chromosome@ && c.parents@ == seq![
            mates[j].name,
        ] && forall|k: int|
            0 <= k < c.chromosome_parentage@.len() ==> c.chromosome_parentage@[k] == 0
}

/// The recombination branch of crossover: the child is as long as the
/// shortest mate, every allele is copied from the position-aligned slot
/// of the mate its parentage entry names, and all mates are recorded as
/// parents.
pub open spec fn spec_is_recombination(c: Creature, mates: Seq<Creature>) -> bool {
    &&& spec_is_min_len(c.chromosome@.len() as int, mates)
    &&& c.parents@.len() == mates.len()
    &&& forall|i: int| 0 <= i < mates.len() ==> c.parents@[i] == (#[trigger] mates[i]).name
    &&& forall|k: int|
        0 <= k < c.chromosome@.len() ==> (#[trigger] c.chromosome_parentage@[k]) < mates.len()
            && c.chromosome@[k] == mates[c.chromosome_parentage@[k] as int].chromosome@[k]
}

/// The parentage layout recombination lays down: one run per drawn
/// segment length, each run at least one entry long and at most what
/// is left (once the draws run out, the remainder is one final run),
/// rotating through the mates between runs.
pub open spec fn spec_recombination_parentage(
    n_mates: int,
    segments: Seq<usize>,
    next_draw: int,
    current: int,
    remaining: int,
) -> Seq<usize>
    decreases remaining,
{
    if remaining <= 0 || n_mates <= 0 {
        Seq::empty()
    } else {
        let drawn = if next_draw < segments.len() {
            segments[next_draw] as int
        } else {
            remaining
        };
        let positive = if drawn == 0 {
            1int
        } else {
            drawn
        };
        let take = if positive > remaining {
            remaining
        } else {
            positive
        };
        Seq::new(take as nat, |t: int| current as usize) + spec_recombination_parentage(
            n_mates,
            segments,
            next_draw + 1,
            (current + 1) % n_mates,
            remaining - take,
        )
    }
}

/// The layout covers exactly the remaining positions.
proof fn lemma_recombination_parentage_len(
    n_mates: int,
    segments: Seq<usize>,
    next_draw: int,
    current: int,
    remaining: int,
)
    requires
        n_mates > 0,
    ensures
        spec_recombination_parentage(n_mates, segments, next_draw, current, remaining).len()
            == if remaining > 0 {
            remaining
        } else {
            0
        },
    decreases remaining,
{
    if remaining > 0 {
        let drawn = if next_draw < segments.len() {
            segments[next_draw] as int
        } else {
            remaining
        };
        let positive = if drawn == 0 {
            1int
        } else {
            drawn
        };
        let take = if positive > remaining {
            remaining
        } else {
            positive
        };
        lemma_recombination_parentage_len(
            n_mates,
            segments,
            next_draw + 1,
            (current + 1) % n_mates,
            remaining - take,
        );
    }
}

/// Two allele sequences of one length that can differ only at `i`.
pub open spec fn same_except(a: Seq<u64>, b: Seq<u64>, i: int) -> bool {
    &&& a.len() == b.len()
    &&& forall|j: int| 0 <= j < a.len() && j != i ==> a[j] == b[j]
}

/// One legal outcome of a single mutation on one allele: left alone (a
/// no-op draw), nudged up or down by a random offset below 256 with
/// wrapping, replaced by the machine word its own address points at
/// (only when at least nine bytes are mapped there), or replaced by an
/// address whose memory starts with the allele's machine encoding.
pub open spec fn spec_mutant_of(
    old_allele: u64,
    new_allele: u64,
    word_size: nat,
    endian: Endian,
    image: &MemoryImage,
) -> bool {
    ||| new_allele == old_allele
    ||| exists|d: u64|
        #![trigger vstd::wrapping::u64_specs::wrapping_add(old_allele, d)]
        #![trigger vstd::wrapping::u64_specs::wrapping_sub(old_allele, d)]
        d < 256 && (new_allele == vstd::wrapping::u64_specs::wrapping_add(old_allele, d)
            || new_allele == vstd::wrapping::u64_specs::wrapping_sub(old_allele, d))
    ||| (image.spec_deref(old_allele) matches Some(bytes) && bytes.len() > 8 && new_allele as int
        == codec::word_value(bytes.subrange(0, word_size as int), endian))
    ||| image.spec_pattern_at(new_allele, codec::word_bytes(old_allele, word_size, endian))
}

impl Creature {
    /// The candidate chain itself.
    pub fn chromosome(&self) -> (r: &Vec<u64>)
        ensures
            r == &self.chromosome,
    {
        &self.chromosome
    }

    /// Mutable access to the chain; everything else stays as it was.
    pub fn chromosome_mut(&mut self) -> (r: &mut Vec<u64>)
        ensures
            *r == old(self).chromosome,
            *final(self) == (Creature { chromosome: *final(r), ..*old(self) }),
    {
        &mut self.chromosome
    }

    /// The chain's length.
    pub fn len(&self) -> (r: usize)
        ensures
            r == self.chromosome@.len(),
    {
        self.chromosome.len()
    }

    pub fn tag(&self) -> (r: u64)
        ensures
            r == self.tag,
    {
        self.tag
    }

    pub fn set_tag(&mut self, tag: u64)
        ensures
            *final(self) == (Creature { tag, ..*old(self) }),
    {
        self.tag = tag;
    }

    /// The fitness vector, once scoring has attached one.
    pub fn fitness(&self) -> (r: Option<&Pareto>)
        ensures
            match r {
                Some(f) => self.fitness == Some(*f),
                None => self.fitness is None,
            },
    {
        self.fitness.as_ref()
    }

    /// The scalar reduction of the fitness vector, absent before scoring.
    pub fn scalar_fitness(&self) -> (r: Option<u64>)
        ensures
            match r {
                Some(v) => self.fitness matches Some(f) && v as int == spec_scalar(f),
                None => self.fitness is None,
            },
    {
        match &self.fitness {
            Some(f) => Some(f.scalar()),
            None => None,
        }
    }

    /// Attach the fitness vector the scoring pass produced.
    pub fn set_fitness(&mut self, f: Pareto)
        ensures
            *final(self) == (Creature { fitness: Some(f), ..*old(self) }),
    {
        self.fitness = Some(f);
    }

    /// How many alleles the evaluated chain executed; zero before
    /// evaluation.
    pub fn num_alleles_executed(&self) -> (r: usize)
        ensures
            r as int == spec_num_executed(*self),
    {
        match &self.profile {
            Some(profile) => profile.gadgets_executed.len(),
            None => 0,
        }
    }

    /// The ratio of executed alleles to distinct *executable* alleles of
    /// the chain: denominator is the number of distinct alleles the
    /// image marks executable; a chain with none yields the zero ratio,
    /// evaluated or not.
    pub fn execution_ratio(&self, image: &MemoryImage) -> (r: Ratio)
        requires
            image.wf(),
        ensures
            r.den == spec_exec_allele_set(self.chromosome@, image).len(),
            r.den > 0 ==> r.num as int == spec_num_executed(*self),
            r.den == 0 ==> r.num == 0,
    {
        let n = self.chromosome.len();
        let mut seen: Vec<u64> = Vec::new();
        let mut i: usize = 0;
        while i < n
            invariant
                image.wf(),
                n == self.chromosome@.len(),
                i <= n,
                seen@.no_duplicates(),
                forall|v: u64|
                    #[trigger] seen@.contains(v) <==> (self.chromosome@.subrange(
                        0,
                        i as int,
                    ).contains(v) && image.spec_is_exec(v)),
            decreases n - i,
        {
            let a = self.chromosome[i];
            if image.is_exec_addr(a) && !contains_u64(&seen, a) {
                seen.push(a);
            }
            proof {
                broadcast use vstd::seq_lib::lemma_seq_contains_after_push;

                assert(self.chromosome@.subrange(0, i + 1) =~= self.chromosome@.subrange(
                    0,
                    i as int,
                ).push(self.chromosome@[i as int]));
            }
            i = i + 1;
        }
        proof {
            assert(self.chromosome@.subrange(0, n as int) =~= self.chromosome@);
            assert(seen@.to_set() =~= spec_exec_allele_set(self.chromosome@, image));
            seen@.unique_seq_to_set();
        }
        if seen.len() == 0 {
            Ratio { num: 0, den: 0 }
        } else {
            Ratio { num: self.num_alleles_executed() as u64, den: seen.len() as u64 }
        }
    }

    /// The chain serialized at the given word size and byte order, one
    /// allele after another, truncated to the word size.
    pub fn pack(&self, word_size: usize, endian: Endian) -> (r: Vec<u8>)
        requires
            word_size == 2 || word_size == 4 || word_size == 8,
            self.chromosome@.len() * word_size <= usize::MAX,
        ensures
            r@ == codec::pack_bytes(self.chromosome@, word_size as nat, endian),
            r@.len() == self.chromosome@.len() * word_size,
    {
        codec::pack_words(&self.chromosome, word_size, endian)
    }

    /// The chain filtered down to the alleles the image marks
    /// executable, order and duplicates preserved.
    pub fn as_code_addrs(&self, image: &MemoryImage) -> (r: Vec<u64>)
        requires
            image.wf(),
        ensures
            r@ == self.chromosome@.filter(|a: u64| image.spec_is_exec(a)),
    {
        let n = self.chromosome.len();
        let mut out: Vec<u64> = Vec::new();
        let mut i: usize = 0;
        proof {
            reveal(Seq::filter);
        }
        while i < n
            invariant
                image.wf(),
                n == self.chromosome@.len(),
                i <= n,
                out@ == self.chromosome@.subrange(0, i as int).filter(
                    |a: u64| image.spec_is_exec(a),
                ),
            decreases n - i,
        {
            let a = self.chromosome[i];
            let ghost prefix = self.chromosome@.subrange(0, i as int);
            if image.is_exec_addr(a) {
                out.push(a);
            }
            proof {
                reveal(Seq::filter);
                let longer = self.chromosome@.subrange(0, i + 1);
                assert(longer.drop_last() =~= prefix);
                assert(longer.last() == self.chromosome@[i as int]);
            }
            i = i + 1;
        }
        proof {
            assert(self.chromosome@.subrange(0, n as int) =~= self.chromosome@);
        }
        out
    }

    /// Record every allele of the chain into a shared frequency sketch:
    /// each allele's estimate rises by its multiplicity in this chain
    /// (saturating), and alleles the chain does not carry keep theirs.
    pub fn record_genetic_frequency(&self, sketch: &mut DecayingSketch)
        requires
            old(sketch).wf(),
        ensures
            final(sketch).wf(),
            forall|b: u64|
                final(sketch).spec_estimate(b) as int == sat_add(
                    old(sketch).spec_estimate(b) as int,
                    self.chromosome@.to_multiset().count(b) as int,
                ),
    {
        let n = self.chromosome.len();
        let mut i: usize = 0;
        proof {
            broadcast use vstd::seq_lib::group_to_multiset_ensures;

            assert(self.chromosome@.subrange(0, 0) =~= Seq::<u64>::empty());
            assert(Seq::<u64>::empty().to_multiset() =~= Multiset::<u64>::empty());
        }
        while i < n
            invariant
                sketch.wf(),
                n == self.chromosome@.len(),
                i <= n,
                forall|b: u64|
                    sketch.spec_estimate(b) as int == sat_add(
                        old(sketch).spec_estimate(b) as int,
                        self.chromosome@.subrange(0, i as int).to_multiset().count(b) as int,
                    ),
            decreases n - i,
        {
            let a = self.chromosome[i];
            sketch.record(a);
            proof {
                broadcast use vstd::seq_lib::group_to_multiset_ensures;

                assert(self.chromosome@.subrange(0, i + 1) =~= self.chromosome@.subrange(
                    0,
                    i as int,
                ).push(a));
            }
            i = i + 1;
        }
        proof {
            assert(self.chromosome@.subrange(0, n as int) =~= self.chromosome@);
        }
    }

    /// The chain's average allele frequency against a sketch, as the
    /// exact ratio of the (saturating) sum of estimates to the chain
    /// length: the population-redundancy signal of this creature.
    pub fn measure_genetic_frequency(&self, sketch: &DecayingSketch) -> (r: Ratio)
        requires
            sketch.wf(),
        ensures
            r.den == self.chromosome@.len(),
            r.num as int == spec_sum_estimates(sketch, self.chromosome@),
    {
        let n = self.chromosome.len();
        let mut acc: u64 = 0;
        let mut i: usize = n;
        while i > 0
            invariant
                sketch.wf(),
                n == self.chromosome@.len(),
                i <= n,
                acc as int == spec_sum_estimates(
                    sketch,
                    self.chromosome@.subrange(i as int, n as int),
                ),
            decreases i,
        {
            i = i - 1;
            let est = sketch.estimate(self.chromosome[i]);
            acc = crate::fitness::sat_add_u64(est, acc);
            proof {
                let tail = self.chromosome@.subrange(i as int, n as int);
                assert(tail.drop_first() =~= self.chromosome@.subrange(i + 1, n as int));
            }
        }
        proof {
            assert(self.chromosome@.subrange(0, n as int) =~= self.chromosome@);
        }
        Ratio { num: acc, den: n as u64 }
    }

    /// A seed creature: a fresh random chain drawn from the soup without
    /// replacement, generation zero, no lineage, unevaluated. Its length
    /// is drawn from `[min_init_len, max_init_len)` and every allele
    /// comes from the soup; a duplicate-free soup yields a
    /// duplicate-free chain.
    pub fn random(params: &Config) -> (r: Creature)
        requires
            params.wf(),
            params.soup is Some,
        ensures
            r.generation == 0,
            r.chromosome_parentage@.len() == 0,
            r.parents@.len() == 0,
            r.profile is None,
            r.fitness is None,
            r.chromosome@.len() < params.max_init_len,
            params.soup.unwrap()@.len() >= params.max_init_len - 1 ==> r.chromosome@.len()
                >= params.min_init_len,
            forall|i: int|
                0 <= i < r.chromosome@.len() ==> params.soup.unwrap()@.contains(
                    #[trigger] r.chromosome@[i],
                ),
            params.soup.unwrap()@.no_duplicates() ==> r.chromosome@.no_duplicates(),
    {
        let soup = params.soup.as_ref().unwrap();
        let length = rng::random_in_range(params.min_init_len, params.max_init_len);
        let chromosome = rng::sample_distinct(soup, length);
        proof {
            broadcast use vstd::seq_lib::group_to_multiset_ensures;

            assert forall|i: int| 0 <= i < chromosome@.len() implies soup@.contains(
                #[trigger] chromosome@[i],
            ) by {
                assert(chromosome@.contains(chromosome@[i]));
                assert(chromosome@.to_multiset().count(chromosome@[i]) > 0);
                assert(soup@.to_multiset().count(chromosome@[i]) > 0);
            }
            if soup@.no_duplicates() {
                soup@.lemma_multiset_has_no_duplicates();
                assert forall|v: u64| chromosome@.to_multiset().count(v) <= 1 by {
                    assert(soup@.to_multiset().count(v) <= 1);
                }
                chromosome@.lemma_multiset_has_no_duplicates_conv();
            }
        }
        Creature {
            chromosome,
            chromosome_parentage: Vec::new(),
            tag: rng::random_u64(),
            name: random_name(),
            parents: Vec::new(),
            generation: 0,
            profile: None,
            fitness: None,
        }
    }

    /// Breed one child from two or more mates. With probability
    /// `crossover_rate_ppm` in a million the child is recombined from
    /// position-aligned segments of the mates, taking consecutive run
    /// lengths from `segments` (pre-drawn by the caller from its
    /// length-scaled exponential distribution) and rotating through the
    /// mates after each run; the child is as long as the shortest mate.
    /// Otherwise the child clones one of the first two mates, chosen at
    /// random. Either way the child starts unevaluated with a fresh tag
    /// and name, one generation past its eldest mate.
    pub fn crossover(mates: &Vec<Creature>, params: &Config, segments: &Vec<usize>) -> (child:
        Creature)
        requires
            params.wf(),
            mates@.len() >= 2,
            forall|i: int| 0 <= i < mates@.len() ==> (#[trigger] mates@[i]).chromosome@.len() > 0,
            forall|i: int| 0 <= i < mates@.len() ==> (#[trigger] mates@[i]).generation < usize::MAX,
        ensures
            child.chromosome_parentage@.len() == child.chromosome@.len(),
            spec_is_max_gen(child.generation - 1, mates@),
            child.profile is None,
            child.fitness is None,
            spec_is_clone(child, mates@) || (spec_is_recombination(child, mates@)
                && child.chromosome_parentage@ == spec_recombination_parentage(
                mates@.len() as int,
                segments@,
                0,
                0,
                child.chromosome@.len() as int,
            )),
            params.crossover_rate_ppm == 0 ==> spec_is_clone(child, mates@),
            params.crossover_rate_ppm == 1_000_000 ==> (spec_is_recombination(child, mates@)
                && child.chromosome_parentage@ == spec_recombination_parentage(
                mates@.len() as int,
                segments@,
                0,
                0,
                child.chromosome@.len() as int,
            )),
    {
        let n_mates = mates.len();

        // The largest generation among the mates.
        let mut max_gen: usize = mates[0].generation;
        let mut i: usize = 1;
        while i < n_mates
            invariant
                n_mates == mates@.len(),
                1 <= i <= n_mates,
                forall|j: int| 0 <= j < i ==> (#[trigger] mates@[j]).generation <= max_gen,
                exists|j: int| 0 <= j < i && (#[trigger] mates@[j]).generation == max_gen,
            decreases n_mates - i,
        {
            if mates[i].generation > max_gen {
                max_gen = mates[i].generation;
            }
            i = i + 1;
        }

        let do_recombine = if params.crossover_rate_ppm == 0 {
            false
        } else if params.crossover_rate_ppm >= 1_000_000 {
            true
        } else {
            rng::random_ratio_bool(params.crossover_rate_ppm, 1_000_000)
        };

        let (chromosome, chromosome_parentage, parent_names): (Vec<u64>, Vec<usize>, Vec<
            String,
        >) = if do_recombine {
            // The shortest mate bounds the child.
            let mut min_len: usize = mates[0].chromosome.len();
            let mut i: usize = 1;
            while i < n_mates
                invariant
                    n_mates == mates@.len(),
                    1 <= i <= n_mates,
                    forall|j: int|
                        0 <= j < i ==> min_len <= (#[trigger] mates@[j]).chromosome@.len(),
                    exists|j: int|
                        0 <= j < i && (#[trigger] mates@[j]).chromosome@.len() == min_len,
                decreases n_mates - i,
            {
                if mates[i].chromosome.len() < min_len {
                    min_len = mates[i].chromosome.len();
                }
                i = i + 1;
            }

            let mut chrom: Vec<u64> = Vec::new();
            let mut par: Vec<usize> = Vec::new();
            let mut cur: usize = 0;
            let mut s: usize = 0;
            let ghost layout = spec_recombination_parentage(
                n_mates as int,
                segments@,
                0,
                0,
                min_len as int,
            );
            proof {
                lemma_recombination_parentage_len(n_mates as int, segments@, 0, 0, min_len as int);
                assert(par@ =~= layout.take(0));
                assert(layout.skip(0) =~= layout);
            }
            while chrom.len() < min_len
                invariant
                    n_mates == mates@.len(),
                    n_mates >= 2,
                    cur < n_mates,
                    chrom@.len() == par@.len(),
                    chrom@.len() <= min_len,
                    s <= chrom@.len(),
                    layout == spec_recombination_parentage(
                        n_mates as int,
                        segments@,
                        0,
                        0,
                        min_len as int,
                    ),
                    layout.len() == min_len,
                    par@ == layout.take(par@.len() as int),
                    spec_recombination_parentage(
                        n_mates as int,
                        segments@,
                        s as int,
                        cur as int,
                        min_len - chrom@.len(),
                    ) == layout.skip(chrom@.len() as int),
                    forall|j: int|
                        0 <= j < n_mates ==> min_len <= (
                        #[trigger] mates@[j]).chromosome@.len(),
                    forall|k: int|
                        0 <= k < chrom@.len() ==> (#[trigger] par@[k]) < n_mates && chrom@[k]
                            == mates@[par@[k] as int].chromosome@[k],
                decreases min_len - chrom.len(),
            {
                let ghost s0 = s as int;
                let ghost cur0 = cur as int;
                let remaining = min_len - chrom.len();
                let mut seg: usize = if s < segments.len() {
                    segments[s]
                } else {
                    remaining
                };
                if seg == 0 {
                    seg = 1;
                }
                if seg > remaining {
                    seg = remaining;
                }
                s = s + 1;
                let ghost base = chrom@.len();
                let ghost rest = spec_recombination_parentage(
                    n_mates as int,
                    segments@,
                    s0 + 1,
                    (cur0 + 1) % (n_mates as int),
                    remaining - seg,
                );
                proof {
                    // The executable clamping mirrors the spec's: the
                    // layout's next run is exactly `seg` entries of `cur`.
                    let drawn: int = if s0 < segments@.len() {
                        segments@[s0] as int
                    } else {
                        remaining as int
                    };
                    let positive: int = if drawn == 0 {
                        1int
                    } else {
                        drawn
                    };
                    let take: int = if positive > remaining {
                        remaining as int
                    } else {
                        positive
                    };
                    assert(take == seg);
                    assert(layout.skip(base as int) == Seq::new(
                        seg as nat,
                        |t: int| cur0 as usize,
                    ) + rest);
                }
                let mut t: usize = 0;
                while t < seg
                    invariant
                        n_mates == mates@.len(),
                        n_mates >= 2,
                        cur < n_mates,
                        cur == cur0,
                        chrom@.len() == par@.len(),
                        t <= seg,
                        chrom@.len() == base + t,
                        chrom@.len() + seg - t <= min_len,
                        layout.len() == min_len,
                        par@ == layout.take(par@.len() as int),
                        layout.skip(base as int) == Seq::new(seg as nat, |q: int| cur0 as usize)
                            + rest,
                        forall|j: int|
                            0 <= j < n_mates ==> min_len <= (
                            #[trigger] mates@[j]).chromosome@.len(),
                        forall|k: int|
                            0 <= k < chrom@.len() ==> (#[trigger] par@[k]) < n_mates && chrom@[k]
                                == mates@[par@[k] as int].chromosome@[k],
                    decreases seg - t,
                {
                    let k = chrom.len();
                    let allele = mates[cur].chromosome[k];
                    chrom.push(allele);
                    par.push(cur);
                    proof {
                        assert(layout.skip(base as int)[t as int] == cur0 as usize);
                        assert(layout[base + t] == layout.skip(base as int)[t as int]);
                        assert(layout.take(base + t + 1) =~= layout.take(base + t).push(
                            layout[base + t],
                        ));
                    }
                    t = t + 1;
                }
                cur = (cur + 1) % n_mates;
                proof {
                    assert(layout.skip(base + seg) =~= layout.skip(base as int).skip(seg as int));
                    assert((Seq::new(seg as nat, |q: int| cur0 as usize) + rest).skip(seg as int)
                        =~= rest);
                    assert(spec_recombination_parentage(
                        n_mates as int,
                        segments@,
                        s as int,
                        cur as int,
                        min_len - chrom@.len(),
                    ) == layout.skip(chrom@.len() as int));
                }
            }
            proof {
                assert(par@ =~= layout);
            }

            let mut names: Vec<String> = Vec::new();
            let mut i: usize = 0;
            while i < n_mates
                invariant
                    n_mates == mates@.len(),
                    i <= n_mates,
                    names@.len() == i,
                    forall|j: int| 0 <= j < i ==> names@[j] == (#[trigger] mates@[j]).name,
                decreases n_mates - i,
            {
                let name = mates[i].name.clone();
                names.push(name);
                i = i + 1;
            }
            (chrom, par, names)
        } else {
            // Clone one of the first two mates outright.
            let pick = rng::random_in_range(0, 2);
            let parent = &mates[pick];
            let plen = parent.chromosome.len();
            let mut chrom: Vec<u64> = Vec::new();
            let mut par: Vec<usize> = Vec::new();
            let mut k: usize = 0;
            while k < plen
                invariant
                    pick < mates@.len(),
                    parent == &mates@[pick as int],
                    plen == parent.chromosome@.len(),
                    k <= plen,
                    chrom@ =~= parent.chromosome@.subrange(0, k as int),
                    par@.len() == k,
                    forall|j: int| 0 <= j < k ==> par@[j] == 0,
                decreases plen - k,
            {
                let allele = parent.chromosome[k];
                chrom.push(allele);
                par.push(0);
                k = k + 1;
                proof {
                    assert(parent.chromosome@.subrange(0, k as int) =~= parent.chromosome@
                        .subrange(0, k - 1).push(parent.chromosome@[k - 1]));
                }
            }
            proof {
                assert(parent.chromosome@.subrange(0, plen as int) =~= parent.chromosome@);
            }
            let mut names: Vec<String> = Vec::new();
            let name = parent.name.clone();
            names.push(name);
            proof {
                assert(names@ =~= seq![mates@[pick as int].name]);
            }
            (chrom, par, names)
        };

        Creature {
            chromosome,
            chromosome_parentage,
            tag: rng::random_u64(),
            name: random_name(),
            parents: parent_names,
            generation: max_gen + 1,
            profile: None,
            fitness: None,
        }
    }

    /// Mutate one random allele in place, by one of four kinds chosen
    /// uniformly: replace it with the machine word its address points at
    /// (if at least nine bytes are mapped there), replace it with an
    /// address whose memory holds its encoded bytes (if one exists), or
    /// nudge it up or down by a random offset below 256, wrapping.
    /// Length, lineage, tag, name, generation, profile and fitness never
    /// change, and at most the one chosen allele moves.
    pub fn mutate(&mut self, params: &Config, image: &MemoryImage)
        requires
            old(self).chromosome@.len() > 0,
            params.wf(),
            image.wf(),
        ensures
            final(self).chromosome@.len() == old(self).chromosome@.len(),
            final(self).chromosome_parentage == old(self).chromosome_parentage,
            final(self).tag == old(self).tag,
            final(self).name == old(self).name,
            final(self).parents == old(self).parents,
            final(self).generation == old(self).generation,
            final(self).profile == old(self).profile,
            final(self).fitness == old(self).fitness,
            exists|i: int|
                0 <= i < old(self).chromosome@.len() && #[trigger] same_except(
                    old(self).chromosome@,
                    final(self).chromosome@,
                    i,
                ) && spec_mutant_of(
                    old(self).chromosome@[i],
                    final(self).chromosome@[i],
                    params.word_size as nat,
                    params.endian,
                    image,
                ),
    {
        let i = rng::random_in_range(0, self.chromosome.len());
        let kind = rng::random_in_range(0, 4);
        let old_allele = self.chromosome[i];
        if kind == 0 {
            // Dereference: follow the allele into live memory.
            match image.try_dereference(old_allele) {
                Some(bytes) => {
                    if bytes.len() > 8 {
                        match codec::read_integer(&bytes, params.endian, params.word_size) {
                            Some(word) => {
                                self.chromosome[i] = word;
                                proof {
                                    assert(image.spec_deref(old_allele) == Some(bytes@));
                                    assert(self.chromosome@[i as int] as int == codec::word_value(
                                        bytes@.subrange(0, params.word_size as int),
                                        params.endian,
                                    ));
                                }
                            },
                            None => {},
                        }
                    }
                },
                None => {},
            }
        } else if kind == 1 {
            // Indirection: find an address whose memory holds this
            // allele's machine encoding.
            let pattern = codec::write_integer(params.endian, params.word_size, old_allele);
            match image.find_address_containing(&pattern) {
                Some(address) => {
                    self.chromosome[i] = address;
                    proof {
                        assert(image.spec_pattern_at(
                            self.chromosome@[i as int],
                            codec::word_bytes(old_allele, params.word_size as nat, params.endian),
                        ));
                    }
                },
                None => {},
            }
        } else if kind == 2 {
            let offset = rng::random_in_range(0, 256) as u64;
            self.chromosome[i] = old_allele.wrapping_add(offset);
            proof {
                assert(offset < 256 && self.chromosome@[i as int]
                    == vstd::wrapping::u64_specs::wrapping_add(old_allele, offset));
            }
        } else {
            let offset = rng::random_in_range(0, 256) as u64;
            self.chromosome[i] = old_allele.wrapping_sub(offset);
            proof {
                assert(offset < 256 && self.chromosome@[i as int]
                    == vstd::wrapping::u64_specs::wrapping_sub(old_allele, offset));
            }
        }
        proof {
            assert(same_except(old(self).chromosome@, self.chromosome@, i as int));
            assert(old_allele == old(self).chromosome@[i as int]);
            assert(spec_mutant_of(
                old(self).chromosome@[i as int],
                self.chromosome@[i as int],
                params.word_size as nat,
                params.endian,
                image,
            ));
        }
    }
}

/// The saturating sum of sketch estimates over a chain.
pub open spec fn spec_sum_estimates(sketch: &DecayingSketch, s: Seq<u64>) -> int
    decreases s.len(),
{
    if s.len() == 0 {
        0
    } else {
        sat_add(sketch.spec_estimate(s[0]) as int, spec_sum_estimates(sketch, s.drop_first()))
    }
}

/// Whether a vector holds a value.
fn contains_u64(v: &Vec<u64>, x: u64) -> (r: bool)
    ensures
        r == v@.contains(x),
{
    let n = v.len();
    let mut i: usize = 0;
    while i < n
        invariant
            n == v@.len(),
            i <= n,
            forall|j: int| 0 <= j < i ==> v@[j] != x,
        decreases n - i,
    {
        if v[i] == x {
            return true;
        }
        i = i + 1;
    }
    false
}

/// A fresh human-readable identifier: sixteen hex digits drawn from the
/// thread RNG.
fn random_name() -> String {
    let mut n = rng::random_u64();
    let mut s = String::new();
    let mut k: usize = 0;
    while k < 16
        decreases 16 - k,
    {
        let d = n % 16;
        let piece: &str = if d == 0 {
            "0"
        } else if d == 1 {
            "1"
        } else if d == 2 {
            "2"
        } else if d == 3 {
            "3"
        } else if d == 4 {
            "4"
        } else if d == 5 {
            "5"
        } else if d == 6 {
            "6"
        } else if d == 7 {
            "7"
        } else if d == 8 {
            "8"
        } else if d == 9 {
            "9"
        } else if d == 10 {
            "a"
        } else if d == 11 {
            "b"
        } else if d == 12 {
            "c"
        } else if d == 13 {
            "d"
        } else if d == 14 {
            "e"
        } else {
            "f"
        };
        s.append(piece);
        n = n / 16;
        k = k + 1;
    }
    s
}

/// A decimal digit.
pub open spec fn spec_is_digit(c: char) -> bool {
    '0' <= c && c <= '9'
}

/// Every character is a decimal digit.
pub open spec fn spec_all_digits(s: Seq<char>) -> bool {
    forall|i: int| 0 <= i < s.len() ==> spec_is_digit(#[trigger] s[i])
}

/// The number a string of decimal digits denotes.
pub open spec fn spec_digits_val(s: Seq<char>) -> int
    decreases s.len(),
{
    if s.len() == 0 {
        0
    } else {
        spec_digits_val(s.drop_last()) * 10 + (s.last() as int - 48)
    }
}

/// A line that `parse_u64` accepts: non-empty, all digits, in range.
pub open spec fn spec_parse_ok(s: Seq<char>) -> bool {
    s.len() > 0 && spec_all_digits(s) && spec_digits_val(s) <= u64::MAX
}

proof fn lemma_digits_val_nonneg(s: Seq<char>)
    requires
        spec_all_digits(s),
    ensures
        spec_digits_val(s) >= 0,
    decreases s.len(),
{
    if s.len() > 0 {
        assert(spec_all_digits(s.drop_last()));
        lemma_digits_val_nonneg(s.drop_last());
    }
}

/// Appending digits never shrinks the denoted number.
proof fn lemma_digits_val_prefix_le(s: Seq<char>, i: int)
    requires
        spec_all_digits(s),
        0 <= i <= s.len(),
    ensures
        spec_digits_val(s.subrange(0, i)) <= spec_digits_val(s),
    decreases s.len() - i,
{
    if i == s.len() {
        assert(s.subrange(0, i) =~= s);
    } else {
        lemma_digits_val_prefix_le(s, i + 1);
        let shorter = s.subrange(0, i);
        let longer = s.subrange(0, i + 1);
        assert(longer.drop_last() =~= shorter);
        assert(spec_all_digits(shorter));
        lemma_digits_val_nonneg(shorter);
        assert(spec_is_digit(s[i]));
        assert(longer.last() == s[i]);
        assert(spec_digits_val(longer) == spec_digits_val(shorter) * 10 + (s[i] as int - 48));
        assert(spec_digits_val(shorter) * 10 >= spec_digits_val(shorter)) by (nonlinear_arith)
            requires
                spec_digits_val(shorter) >= 0,
        ;
    }
}

/// Parse a non-negative decimal literal: the number it denotes when the
/// line is non-empty, all digits, and within the 64-bit range, and a
/// parse failure otherwise.
pub fn parse_u64(line: &String) -> (r: Result<u64, Error>)
    ensures
        match r {
            Ok(v) => spec_parse_ok(line@) && v as int == spec_digits_val(line@),
            Err(e) => !spec_parse_ok(line@) && (e matches Error::ParseInt(m) && m@ == line@),
        },
{
    let slice = line.as_str();
    let n = slice.unicode_len();
    if n == 0 {
        return Err(Error::ParseInt(line.clone()));
    }
    let mut acc: u64 = 0;
    let mut i: usize = 0;
    proof {
        assert(line@.subrange(0, 0) =~= Seq::<char>::empty());
    }
    while i < n
        invariant
            slice@ == line@,
            n == line@.len(),
            i <= n,
            spec_all_digits(line@.subrange(0, i as int)),
            acc as int == spec_digits_val(line@.subrange(0, i as int)),
        decreases n - i,
    {
        let c = slice.get_char(i);
        if c < '0' || c > '9' {
            proof {
                assert(!spec_is_digit(line@[i as int]));
            }
            return Err(Error::ParseInt(line.clone()));
        }
        let d = ((c as u32) - 48) as u64;
        proof {
            assert(line@.subrange(0, i + 1).drop_last() =~= line@.subrange(0, i as int));
            assert(line@.subrange(0, i + 1).last() == line@[i as int]);
            assert(spec_all_digits(line@.subrange(0, i + 1)));
        }
        if acc > (u64::MAX - d) / 10 {
            proof {
                lemma_digits_val_nonneg(line@.subrange(0, i as int));
                assert(acc as int * 10 + d > u64::MAX) by (nonlinear_arith)
                    requires
                        acc as int > (u64::MAX as int - d) / 10,
                        0 <= d < 10,
                ;
                if spec_all_digits(line@) {
                    lemma_digits_val_prefix_le(line@, i + 1);
                    assert(spec_digits_val(line@) > u64::MAX);
                }
            }
            return Err(Error::ParseInt(line.clone()));
        }
        proof {
            assert(acc as int * 10 + d <= u64::MAX) by (nonlinear_arith)
                requires
                    acc as int <= (u64::MAX as int - d) / 10,
                    0 <= d < 10,
            ;
        }
        acc = acc * 10 + d;
        i = i + 1;
    }
    proof {
        assert(line@.subrange(0, n as int) =~= line@);
    }
    Ok(acc)
}

/// Fill the configuration's soup: from parsed gadget lines when a
/// gadget listing was read, else by sampling `soup_size` random
/// executable addresses from the memory image, else an empty pool. On a
/// parse failure the configuration is left untouched.
pub fn init_soup(params: &mut Config, gadget_lines: Option<&Vec<String>>, image: &MemoryImage) -> (r:
    Result<(), Error>)
    requires
        image.wf(),
    ensures
        gadget_lines matches Some(lines) ==> (r is Ok <==> forall|i: int|
            0 <= i < lines@.len() ==> spec_parse_ok(#[trigger] lines@[i]@)),
        gadget_lines matches Some(lines) ==> (r is Ok ==> (final(params).soup matches Some(soup)
            && soup@.len() == lines@.len() && forall|i: int|
            0 <= i < lines@.len() ==> #[trigger] soup@[i] as int == spec_digits_val(lines@[i]@))),
        gadget_lines matches Some(lines) ==> (r matches Err(e) ==> (e matches Error::ParseInt(_)
            && *final(params) == *old(params))),
        gadget_lines is None ==> r is Ok,
        gadget_lines is None ==> (old(params).soup_size matches Some(sz) ==> (final(params).soup matches Some(soup) && soup@.len() <= sz && forall|i: int|
            0 <= i < soup@.len() ==> image.spec_is_exec(#[trigger] soup@[i]))),
        gadget_lines is None ==> (old(params).soup_size matches Some(sz) ==> ((exists|j: int|
            0 <= j < image.segments@.len() && (#[trigger] image.segments@[j]).data@.len() > 0
                && image.segments@[j].perms.execute) ==> (final(params).soup matches Some(soup)
            && soup@.len() == sz))),
        (gadget_lines is None && old(params).soup_size is None) ==> (final(params).soup matches Some(soup) && soup@.len() == 0),
        r is Ok ==> *final(params) == (Config { soup: final(params).soup, ..*old(params) }),
{
    match gadget_lines {
        Some(lines) => {
            let n = lines.len();
            let mut soup: Vec<u64> = Vec::new();
            let mut i: usize = 0;
            while i < n
                invariant
                    gadget_lines == Some(lines),
                    n == lines@.len(),
                    i <= n,
                    soup@.len() == i,
                    *params == *old(params),
                    forall|j: int| 0 <= j < i ==> spec_parse_ok(#[trigger] lines@[j]@),
                    forall|j: int|
                        0 <= j < i ==> #[trigger] soup@[j] as int == spec_digits_val(lines@[j]@),
                decreases n - i,
            {
                match parse_u64(&lines[i]) {
                    Ok(word) => {
                        soup.push(word);
                    },
                    Err(e) => {
                        proof {
                            assert(gadget_lines.unwrap() == lines);
                            assert(!spec_parse_ok(gadget_lines.unwrap()@[i as int]@));
                        }
                        return Err(e);
                    },
                }
                i = i + 1;
            }
            params.soup = Some(soup);
            Ok(())
        },
        None => {
            let sz_opt = params.soup_size;
            match sz_opt {
                Some(sz) => {
                    let mut soup: Vec<u64> = Vec::new();
                    let mut i: usize = 0;
                    while i < sz
                        invariant
                            gadget_lines is None,
                            old(params).soup_size == Some(sz),
                            i <= sz,
                            soup@.len() <= i,
                            image.wf(),
                            *params == *old(params),
                            forall|j: int|
                                0 <= j < soup@.len() ==> image.spec_is_exec(#[trigger] soup@[j]),
                            (exists|j: int|
                                0 <= j < image.segments@.len() && (
                                #[trigger] image.segments@[j]).data@.len() > 0
                                    && image.segments@[j].perms.execute) ==> soup@.len() == i,
                        decreases sz - i,
                    {
                        let filter = Perms { read: false, write: false, execute: true };
                        match image.random_address(Some(filter)) {
                            Some(address) => {
                                soup.push(address);
                            },
                            None => {
                                // A refusal means no segment is a non-empty
                                // executable one, so the exactness guard is
                                // vacuous from here on.
                                proof {
                                    if exists|j: int|
                                        0 <= j < image.segments@.len() && (
                                        #[trigger] image.segments@[j]).data@.len() > 0
                                            && image.segments@[j].perms.execute {
                                        let j = choose|j: int|
                                            0 <= j < image.segments@.len() && (
                                            #[trigger] image.segments@[j]).data@.len() > 0
                                                && image.segments@[j].perms.execute;
                                        assert(image.segments@[j].perms.spec_covers(filter));
                                        assert(false);
                                    }
                                }
                            },
                        }
                        i = i + 1;
                    }
                    params.soup = Some(soup);
                },
                None => {
                    params.soup = Some(Vec::new());
                },
            }
            Ok(())
        },
    }
}

} // verus!
