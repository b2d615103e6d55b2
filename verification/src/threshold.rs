//! Judging each temperature reading against the fixed ceiling.
//!
//! A reading overheats where its temperature is strictly greater than the
//! ceiling; a reading at the ceiling is normal.

use crate::binary32::{pow2_at_least, pow2_at_most, Binary32};
use crate::sensor::{Classification, ClassificationModel, ReadingModel, TemperatureReading};
use vstd::arithmetic::power2::*;
use vstd::prelude::*;

verus! {

/// The ceiling, in degrees Celsius.
pub const CEILING: u32 = 70;

/// The bit pattern of the temperature that is exactly at the ceiling.
pub const CEILING_BITS: u32 = 0x428C_0000;

/// What the ceiling makes of one reading.
#[derive(Clone, Copy, Debug, PartialEq, Eq, Structural)]
pub enum Status {
    Normal,
    Overheat,
}

/// The statuses of the readings of both groups, and whether any reading
/// overheats.
#[derive(Clone, Debug)]
pub struct Evaluation {
    pub core: Vec<Status>,
    pub gpu: Vec<Status>,
    pub any_overheat: bool,
}

/// The model of an `Evaluation`.
pub struct EvaluationModel {
    pub core: Seq<Status>,
    pub gpu: Seq<Status>,
    pub any_overheat: bool,
}

impl View for Evaluation {
    type V = EvaluationModel;

    open spec fn view(&self) -> EvaluationModel {
        EvaluationModel { core: self.core@, gpu: self.gpu@, any_overheat: self.any_overheat }
    }
}

/// The status of a temperature: overheat where it is above the ceiling.
pub open spec fn status_of(temperature: Binary32) -> Status {
    if temperature.is_above(CEILING as nat) {
        Status::Overheat
    } else {
        Status::Normal
    }
}

/// The status of each reading, in the order of the readings.
pub open spec fn statuses_of(readings: Seq<ReadingModel>) -> Seq<Status> {
    Seq::new(readings.len(), |i: int| status_of(readings[i].temperature))
}

/// Whether at least one of the readings overheats.
pub open spec fn any_overheated(readings: Seq<ReadingModel>) -> bool {
    exists|i: int| 0 <= i < readings.len() && status_of(#[trigger] readings[i].temperature)
        == Status::Overheat
}

/// The evaluation of a classification: the statuses of both groups, and the
/// disjunction over every reading of both.
pub open spec fn evaluation_of(classification: ClassificationModel) -> EvaluationModel {
    EvaluationModel {
        core: statuses_of(classification.core),
        gpu: statuses_of(classification.gpu),
        any_overheat: any_overheated(classification.core) || any_overheated(classification.gpu),
    }
}

/// The temperature with the bit pattern `CEILING_BITS` is exactly the
/// ceiling, and it is normal.
pub proof fn at_ceiling_is_normal()
    ensures
        !(Binary32 { bits: CEILING_BITS }).negative(),
        (Binary32 { bits: CEILING_BITS }).exponent() == -17,
        (Binary32 { bits: CEILING_BITS }).significand() == CEILING * pow2(17),
        status_of(Binary32 { bits: CEILING_BITS }) == Status::Normal,
{
    lemma2_to64();
}

/// The patterns above the ceiling are those that lie strictly behind the
/// pattern of the ceiling and not behind that of positive infinity: among
/// the numbers that are not negative, the order of the patterns is the order
/// of the values.
pub proof fn above_ceiling_by_bits(temperature: Binary32)
    ensures
        temperature.is_above(CEILING as nat) <==> CEILING_BITS < temperature.bits <= 0x7F80_0000,
{
    lemma2_to64();
    let field = temperature.exponent_bits();
    let fraction = temperature.fraction_bits();
    let significand = temperature.significand();
    if temperature.negative() || field == 255 {
    } else if field >= 150 {
        let unit = pow2((field - 150) as nat);
        pow2_at_least(0, (field - 150) as nat);
        assert(significand * unit >= significand) by (nonlinear_arith)
            requires
                unit >= 1,
                significand >= 0,
        ;
    } else if field >= 134 {
        let unit = pow2((150 - field) as nat);
        pow2_at_most((150 - field) as nat, 16);
        assert(CEILING * unit <= 70 * 0x1_0000) by (nonlinear_arith)
            requires
                unit <= 0x1_0000,
                CEILING == 70,
        ;
    } else if field == 133 {
    } else {
        let shift = (-temperature.exponent()) as nat;
        let unit = pow2(shift);
        pow2_at_least(18, shift);
        assert(CEILING * unit >= 70 * 0x4_0000) by (nonlinear_arith)
            requires
                unit >= 0x4_0000,
                CEILING == 70,
        ;
    }
}

/// No reading overheats exactly where every status is normal.
pub proof fn no_overheat_means_all_normal(classification: ClassificationModel)
    ensures
        !evaluation_of(classification).any_overheat <==> (forall|i: int|
            0 <= i < classification.core.len() ==> evaluation_of(classification).core[i]
                == Status::Normal) && (forall|i: int|
            0 <= i < classification.gpu.len() ==> evaluation_of(classification).gpu[i]
                == Status::Normal),
{
    let evaluation = evaluation_of(classification);
    if !evaluation.any_overheat {
        assert forall|i: int| 0 <= i < classification.core.len() implies evaluation.core[i]
            == Status::Normal by {
            assert(status_of(classification.core[i].temperature) != Status::Overheat);
        }
        assert forall|i: int| 0 <= i < classification.gpu.len() implies evaluation.gpu[i]
            == Status::Normal by {
            assert(status_of(classification.gpu[i].temperature) != Status::Overheat);
        }
    }
    if any_overheated(classification.core) {
        let i = choose|i: int|
            0 <= i < classification.core.len() && status_of(
                #[trigger] classification.core[i].temperature,
            ) == Status::Overheat;
        assert(evaluation.core[i] == Status::Overheat);
    }
    if any_overheated(classification.gpu) {
        let i = choose|i: int|
            0 <= i < classification.gpu.len() && status_of(
                #[trigger] classification.gpu[i].temperature,
            ) == Status::Overheat;
        assert(evaluation.gpu[i] == Status::Overheat);
    }
}

/// Judges one temperature: overheat exactly where it is strictly greater
/// than the ceiling.
pub fn classify_temperature(temperature: Binary32) -> (status: Status)
    ensures
        status == status_of(temperature),
        status == Status::Overheat <==> temperature.is_above(CEILING as nat),
{
    if temperature.exceeds(CEILING) {
        Status::Overheat
    } else {
        Status::Normal
    }
}

/// Judges the readings of one group.
pub fn evaluate_group(readings: &Vec<TemperatureReading>) -> (result: (Vec<Status>, bool))
    ensures
        result.0@ == statuses_of(readings.deep_view()),
        result.1 == any_overheated(readings.deep_view()),
{
    let mut statuses: Vec<Status> = Vec::new();
    let mut any: bool = false;
    let ghost models = readings.deep_view();
    let mut i: usize = 0;
    while i < readings.len()
        invariant
            i <= readings.len(),
            models == readings.deep_view(),
            statuses@ == statuses_of(models.subrange(0, i as int)),
            any == any_overheated(models.subrange(0, i as int)),
        decreases readings.len() - i,
    {
        let status = classify_temperature(readings[i].temperature);
        let ghost seen = models.subrange(0, i as int);
        let ghost next = models.subrange(0, i + 1);
        proof {
            let last = i as int;
            assert(next[last] == models[last]);
            assert(models[last] == readings@[last]@);
            assert(status == status_of(next[last].temperature));
            assert(statuses@.push(status) =~= statuses_of(next));
            if status == Status::Overheat {
                assert(any_overheated(next));
            } else if any_overheated(seen) {
                let at = choose|at: int|
                    0 <= at < seen.len() && status_of(#[trigger] seen[at].temperature)
                        == Status::Overheat;
                assert(status_of(next[at].temperature) == Status::Overheat);
                assert(any_overheated(next));
            } else if any_overheated(next) {
                let at = choose|at: int|
                    0 <= at < next.len() && status_of(#[trigger] next[at].temperature)
                        == Status::Overheat;
                if at < last {
                    assert(status_of(seen[at].temperature) == Status::Overheat);
                }
                assert(false);
            }
        }
        statuses.push(status);
        if status == Status::Overheat {
            any = true;
        }
        i = i + 1;
    }
    assert(models.subrange(0, i as int) =~= models);
    (statuses, any)
}

/// Judges every reading of both groups.
pub fn evaluate(classification: &Classification) -> (evaluation: Evaluation)
    ensures
        evaluation@ == evaluation_of(classification@),
{
    let core = evaluate_group(&classification.core);
    let gpu = evaluate_group(&classification.gpu);
    Evaluation { core: core.0, gpu: gpu.0, any_overheat: core.1 || gpu.1 }
}

} // verus!
