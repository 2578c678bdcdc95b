use vstd::prelude::*;

use crate::error::Error;
use core::cmp::Ordering;
use vstd::string::StringExecFns;

verus! {

/// Addition that sticks at the machine maximum instead of wrapping, so
/// that score aggregation is total.
pub open spec fn sat_add(a: int, b: int) -> int {
    if a + b > u64::MAX {
        u64::MAX as int
    } else {
        a + b
    }
}

/// u64 addition saturating at the maximum, matching `sat_add`.
pub fn sat_add_u64(a: u64, b: u64) -> (r: u64)
    ensures
        r as int == sat_add(a as int, b as int),
{
    if u64::MAX - a < b {
        u64::MAX
    } else {
        a + b
    }
}

/// An exact ratio of two machine counts; a zero denominator encodes
/// the zero ratio of an empty measurement.
#[derive(Clone, Copy, Debug, PartialEq, Eq, Structural)]
pub struct Ratio {
    pub num: u64,
    pub den: u64,
}

/// The fixed-point value of a ratio in parts per million, saturating;
/// zero when the denominator is zero.
pub open spec fn spec_ratio_ppm(r: Ratio) -> int {
    if r.den == 0 {
        0
    } else if r.num as int * 1_000_000 / r.den as int > u64::MAX {
        u64::MAX as int
    } else {
        r.num as int * 1_000_000 / r.den as int
    }
}

impl Ratio {
    /// The ratio as a saturating parts-per-million fixed-point value.
    pub fn as_ppm(&self) -> (r: u64)
        ensures
            r as int == spec_ratio_ppm(*self),
    {
        if self.den == 0 {
            0
        } else {
            let q = (self.num as u128) * 1_000_000u128 / (self.den as u128);
            if q > u64::MAX as u128 {
                u64::MAX
            } else {
                q as u64
            }
        }
    }
}

/// The fixed set of objectives a fitness vector scores.
#[derive(Clone, Copy, Debug, PartialEq, Eq, Structural)]
pub enum Objective {
    PlaceError,
    ValueError,
    CrashCount,
}

/// A multi-objective (Pareto) fitness vector: one score per objective,
/// in integer score units. Callers normalize objective signs so that
/// lower is uniformly better; summation and domination below assume that
/// convention but do not enforce it.
#[derive(Clone, Copy, Debug, PartialEq, Eq, Structural)]
pub struct Pareto {
    pub place_error: u64,
    pub value_error: u64,
    pub crash_count: u64,
}

/// One vector is at least as good in every objective and strictly
/// better in at least one (lower is better).
pub open spec fn spec_dominates(a: Pareto, b: Pareto) -> bool {
    &&& a.place_error <= b.place_error
    &&& a.value_error <= b.value_error
    &&& a.crash_count <= b.crash_count
    &&& (a.place_error < b.place_error || a.value_error < b.value_error || a.crash_count
        < b.crash_count)
}

/// The scalar reduction of a vector: the saturating sum of its scores.
pub open spec fn spec_scalar(p: Pareto) -> int {
    sat_add(sat_add(p.place_error as int, p.value_error as int), p.crash_count as int)
}

/// Saturating per-objective sums over a collection of vectors.
pub open spec fn spec_sum_objective(s: Seq<Pareto>, o: Objective) -> int
    decreases s.len(),
{
    if s.len() == 0 {
        0
    } else {
        sat_add(spec_get(s[0], o), spec_sum_objective(s.drop_first(), o))
    }
}

/// The score a vector holds for one objective.
pub open spec fn spec_get(p: Pareto, o: Objective) -> int {
    match o {
        Objective::PlaceError => p.place_error as int,
        Objective::ValueError => p.value_error as int,
        Objective::CrashCount => p.crash_count as int,
    }
}

impl Pareto {
    pub fn new(place_error: u64, value_error: u64, crash_count: u64) -> (r: Pareto)
        ensures
            r.place_error == place_error,
            r.value_error == value_error,
            r.crash_count == crash_count,
    {
        Pareto { place_error, value_error, crash_count }
    }

    /// The score of one objective.
    pub fn get(&self, objective: Objective) -> (r: u64)
        ensures
            r as int == spec_get(*self, objective),
    {
        match objective {
            Objective::PlaceError => self.place_error,
            Objective::ValueError => self.value_error,
            Objective::CrashCount => self.crash_count,
        }
    }

    /// Look an objective up by its report name; asking for a name this
    /// vector does not carry is the missing-key failure.
    pub fn get_by_name(&self, name: &String) -> (r: Result<u64, Error>)
        ensures
            name@ == "place_error"@ ==> r == Ok::<u64, Error>(self.place_error),
            name@ == "value_error"@ ==> r == Ok::<u64, Error>(self.value_error),
            name@ == "crash_count"@ ==> r == Ok::<u64, Error>(self.crash_count),
            (name@ != "place_error"@ && name@ != "value_error"@ && name@ != "crash_count"@)
                ==> (r matches Err(e) && e matches Error::MissingKey(m) && m@ == name@),
    {
        proof {
            reveal_strlit("place_error");
            reveal_strlit("value_error");
            reveal_strlit("crash_count");
            assert("place_error"@[0] == 'p' && "value_error"@[0] == 'v' && "crash_count"@[0]
                == 'c');
            assert("place_error"@ != "value_error"@);
            assert("place_error"@ != "crash_count"@);
            assert("value_error"@ != "crash_count"@);
        }
        if *name == String::from_str("place_error") {
            Ok(self.place_error)
        } else if *name == String::from_str("value_error") {
            Ok(self.value_error)
        } else if *name == String::from_str("crash_count") {
            Ok(self.crash_count)
        } else {
            Err(Error::MissingKey(name.clone()))
        }
    }

    /// All scores, in objective order.
    pub fn values(&self) -> (r: Vec<u64>)
        ensures
            r@ =~= seq![self.place_error, self.value_error, self.crash_count],
    {
        let mut v: Vec<u64> = Vec::new();
        v.push(self.place_error);
        v.push(self.value_error);
        v.push(self.crash_count);
        v
    }

    /// The scalar fitness: the saturating sum of all objective scores.
    pub fn scalar(&self) -> (r: u64)
        ensures
            r as int == spec_scalar(*self),
    {
        sat_add_u64(sat_add_u64(self.place_error, self.value_error), self.crash_count)
    }

    /// Pareto domination: at least as good everywhere, strictly better
    /// somewhere, lower being better.
    pub fn dominates(&self, other: &Pareto) -> (r: bool)
        ensures
            r == spec_dominates(*self, *other),
    {
        self.place_error <= other.place_error && self.value_error <= other.value_error
            && self.crash_count <= other.crash_count && (self.place_error < other.place_error
            || self.value_error < other.value_error || self.crash_count < other.crash_count)
    }

    /// Component-wise mean of a collection of vectors, rounding down;
    /// an empty collection has no mean, which callers must handle.
    pub fn average(vectors: &Vec<Pareto>) -> (r: Option<Pareto>)
        ensures
            vectors@.len() == 0 <==> r is None,
            r matches Some(p) ==> {
                let n = vectors@.len() as int;
                &&& p.place_error as int == spec_sum_objective(vectors@, Objective::PlaceError) / n
                &&& p.value_error as int == spec_sum_objective(vectors@, Objective::ValueError) / n
                &&& p.crash_count as int == spec_sum_objective(vectors@, Objective::CrashCount) / n
            },
    {
        if vectors.len() == 0 {
            return None;
        }
        let place = sum_objective(vectors, Objective::PlaceError);
        let value = sum_objective(vectors, Objective::ValueError);
        let crash = sum_objective(vectors, Objective::CrashCount);
        let n = vectors.len() as u64;
        Some(Pareto { place_error: place / n, value_error: value / n, crash_count: crash / n })
    }
}

/// The saturating sum of one objective over a collection.
fn sum_objective(vectors: &Vec<Pareto>, objective: Objective) -> (r: u64)
    ensures
        r as int == spec_sum_objective(vectors@, objective),
{
    let mut acc: u64 = 0;
    let mut i: usize = vectors.len();
    while i > 0
        invariant
            i <= vectors@.len(),
            acc as int == spec_sum_objective(vectors@.subrange(i as int, vectors@.len() as int), objective),
        decreases i,
    {
        i = i - 1;
        let p = vectors[i];
        acc = sat_add_u64(p.get(objective), acc);
        proof {
            let tail = vectors@.subrange(i as int, vectors@.len() as int);
            assert(tail.drop_first() =~= vectors@.subrange(i + 1, vectors@.len() as int));
        }
    }
    proof {
        assert(vectors@.subrange(0, vectors@.len() as int) =~= vectors@);
    }
    acc
}

impl PartialOrd for Pareto {
    /// The domination partial order: a vector precedes those it
    /// dominates; distinct vectors with no domination are incomparable.
    fn partial_cmp(&self, other: &Self) -> (r: Option<Ordering>) {
        if self == other {
            Some(Ordering::Equal)
        } else if self.dominates(other) {
            Some(Ordering::Less)
        } else if other.dominates(self) {
            Some(Ordering::Greater)
        } else {
            None
        }
    }
}

impl vstd::std_specs::cmp::PartialOrdSpecImpl for Pareto {
    open spec fn obeys_partial_cmp_spec() -> bool {
        true
    }

    open spec fn partial_cmp_spec(&self, other: &Self) -> Option<Ordering> {
        if *self == *other {
            Some(Ordering::Equal)
        } else if spec_dominates(*self, *other) {
            Some(Ordering::Less)
        } else if spec_dominates(*other, *self) {
            Some(Ordering::Greater)
        } else {
            None
        }
    }
}

} // verus!
