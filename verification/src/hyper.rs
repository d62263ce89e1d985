//! The hyperparameters of one evolutionary step, and the rule by which a
//! proposal changes them.

use crate::fixed::{diff, fx_add, fx_mul, fx_sub, prod, sum, HALF, UNIT};
use vstd::prelude::*;

verus! {

/// The population that a fresh engine starts with.
pub const POP_START: usize = 25;

/// The mutation rate that a fresh engine starts with.
pub const MUT_START: i64 = 500_000;

/// How many of the best a fresh engine keeps from mutation.
pub const ELITE_KEEP_START: i64 = 1_000_000;

/// How many of the worst a fresh engine discards in a generation.
pub const DEATH_START: i64 = 20_000_000;

/// How many children each survivor of a fresh engine has.
pub const CHILD_PER_COUPLE_START: i64 = 4_000_000;

/// The width of the vector that a proposal is read from.
pub const PARAM_CHOICE_SIZE: usize = 6;

/// The hyperparameters of one evolutionary step.
#[derive(Debug, Clone, Copy)]
pub struct ParamChoice {
    /// How strongly a proposal moves the other fields.
    pub global: i64,
    pub mutrate: i64,
    pub elite: i64,
    pub kills: i64,
    pub birth_rate: i64,
}

/// Where a field `h` goes under a proposal `o` of sensitivity `g`:
/// `h + h * (o - 1/2) * g`.
pub open spec fn relative_step(h: int, o: int, g: int) -> int {
    sum(h, prod(prod(h, diff(o, HALF as int)), g))
}

/// Moves one field by a proposal.
pub fn step_field(h: i64, o: i64, g: i64) -> (r: i64)
    ensures
        r as int == relative_step(h as int, o as int, g as int),
{
    fx_add(h, fx_mul(fx_mul(h, fx_sub(o, HALF)), g))
}

impl ParamChoice {
    /// The parameters after the proposal `other`: its sensitivity replaces
    /// the old one, and every other field moves relative to itself.
    pub open spec fn merged(self, other: ParamChoice) -> ParamChoice {
        ParamChoice {
            global: other.global,
            mutrate: relative_step(self.mutrate as int, other.mutrate as int, other.global as int) as i64,
            elite: relative_step(self.elite as int, other.elite as int, other.global as int) as i64,
            kills: relative_step(self.kills as int, other.kills as int, other.global as int) as i64,
            birth_rate: relative_step(
                self.birth_rate as int,
                other.birth_rate as int,
                other.global as int,
            ) as i64,
        }
    }

    /// The parameters of a fresh engine.
    pub open spec fn new_spec() -> ParamChoice {
        ParamChoice {
            global: UNIT,
            mutrate: MUT_START,
            elite: ELITE_KEEP_START,
            kills: DEATH_START,
            birth_rate: CHILD_PER_COUPLE_START,
        }
    }

    /// The parameters of a fresh engine.
    pub fn new() -> (p: Self)
        ensures
            p == Self::new_spec(),
    {
        ParamChoice {
            global: UNIT,
            mutrate: MUT_START,
            elite: ELITE_KEEP_START,
            kills: DEATH_START,
            birth_rate: CHILD_PER_COUPLE_START,
        }
    }

    /// The proposal that changes nothing.
    pub fn same() -> (p: Self)
        ensures
            p == (ParamChoice { global: 0, mutrate: HALF, elite: HALF, kills: HALF, birth_rate: HALF }),
    {
        ParamChoice { global: 0, mutrate: HALF, elite: HALF, kills: HALF, birth_rate: HALF }
    }

    /// Applies the proposal `other`.
    pub fn update(&mut self, other: Self)
        ensures
            *final(self) == old(self).merged(other),
    {
        self.global = other.global;
        self.mutrate = step_field(self.mutrate, other.mutrate, other.global);
        self.elite = step_field(self.elite, other.elite, other.global);
        self.kills = step_field(self.kills, other.kills, other.global);
        self.birth_rate = step_field(self.birth_rate, other.birth_rate, other.global);
    }

    /// The proposal that the leading five entries of a vector hold, in the
    /// order sensitivity, mutation rate, elite, kills, birth rate.
    pub open spec fn read(vec: Seq<i64>) -> ParamChoice
        recommends
            vec.len() >= 5,
    {
        ParamChoice { global: vec[0], mutrate: vec[1], elite: vec[2], kills: vec[3], birth_rate: vec[4] }
    }

    /// Reads a proposal from the leading five entries of a vector.
    pub fn from_vector(vec: Vec<i64>) -> (p: Self)
        requires
            vec.len() >= 5,
        ensures
            p == Self::read(vec@),
    {
        ParamChoice {
            global: vec[0],
            mutrate: vec[1],
            elite: vec[2],
            kills: vec[3],
            birth_rate: vec[4],
        }
    }
}

/// The parameters after a run of proposals, applied from the first on.
pub open spec fn merged_all(p: ParamChoice, proposals: Seq<ParamChoice>) -> ParamChoice
    decreases proposals.len(),
{
    if proposals.len() == 0 {
        p
    } else {
        merged_all(p, proposals.drop_last()).merged(proposals.last())
    }
}

/// A proposal of sensitivity zero leaves mutation rate, elite, kills and
/// birth rate as they were, whatever its other fields hold.
pub proof fn lemma_zero_global_keeps_fields(p: ParamChoice, other: ParamChoice)
    requires
        other.global == 0,
    ensures
        p.merged(other).mutrate == p.mutrate,
        p.merged(other).elite == p.elite,
        p.merged(other).kills == p.kills,
        p.merged(other).birth_rate == p.birth_rate,
{
    lemma_step_zero(p.mutrate as int, other.mutrate as int);
    lemma_step_zero(p.elite as int, other.elite as int);
    lemma_step_zero(p.kills as int, other.kills as int);
    lemma_step_zero(p.birth_rate as int, other.birth_rate as int);
}

/// At sensitivity zero a field stays where it is.
pub proof fn lemma_step_zero(h: int, o: int)
    requires
        i64::MIN <= h <= i64::MAX,
    ensures
        relative_step(h, o, 0) == h,
{
    let m = prod(h, diff(o, HALF as int));
    assert(m * 0 == 0);
}

/// Any run of proposals of sensitivity zero leaves mutation rate, elite,
/// kills and birth rate as they were.
pub proof fn lemma_zero_global_is_identity(p: ParamChoice, proposals: Seq<ParamChoice>)
    requires
        forall|i: int| 0 <= i < proposals.len() ==> (#[trigger] proposals[i]).global == 0,
    ensures
        merged_all(p, proposals).mutrate == p.mutrate,
        merged_all(p, proposals).elite == p.elite,
        merged_all(p, proposals).kills == p.kills,
        merged_all(p, proposals).birth_rate == p.birth_rate,
    decreases proposals.len(),
{
    if proposals.len() > 0 {
        let front = proposals.drop_last();
        assert forall|i: int| 0 <= i < front.len() implies (#[trigger] front[i]).global == 0 by {
            assert(front[i] == proposals[i]);
        }
        lemma_zero_global_is_identity(p, front);
        lemma_zero_global_keeps_fields(merged_all(p, front), proposals.last());
    }
}

} // verus!
