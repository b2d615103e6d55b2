//! The audible alert: a fixed number of pulses, each after a pause that
//! grows with its position, so that later pulses lie further apart.

use crate::decimal::{decimal_text, push_decimal};
use vstd::prelude::*;
use vstd::string::*;

verus! {

/// The number of pulses of an alert.
pub const PULSE_COUNT: u64 = 3;

/// The time units that the pauses of an alert are cut from. One unit is a
/// millisecond.
pub const PULSE_SPAN: u64 = 1000;

/// The pause before the pulse `index` of `count` pulses, in time units: the
/// span divided by the count, rounded down, times the index. The first pulse
/// has no pause.
pub open spec fn pause_before(count: nat, index: nat) -> nat
    recommends
        index < count,
{
    (PULSE_SPAN as nat / count) * index
}

/// The pauses of the pulses of an alert, in order.
pub open spec fn pauses_of(count: nat) -> Seq<u64> {
    Seq::new(count, |i: int| pause_before(count, i as nat) as u64)
}

/// The line that announces an alert of `count` pulses.
pub open spec fn announcement_text(count: nat) -> Seq<char> {
    "Beep "@ + decimal_text(count) + "x"@
}

/// The text of one pulse: the bell character.
pub open spec fn pulse_text() -> Seq<char> {
    seq!['\x07']
}

/// What an alert emits: the announcement, then for each pause, in order, the
/// pause and after it one pulse.
#[derive(Clone, Debug)]
pub struct AlertPlan {
    pub announcement: String,
    pub pulse: String,
    pub pauses: Vec<u64>,
}

/// The model of an `AlertPlan`.
pub struct AlertPlanModel {
    pub announcement: Seq<char>,
    pub pulse: Seq<char>,
    pub pauses: Seq<u64>,
}

impl View for AlertPlan {
    type V = AlertPlanModel;

    open spec fn view(&self) -> AlertPlanModel {
        AlertPlanModel {
            announcement: self.announcement@,
            pulse: self.pulse@,
            pauses: self.pauses@,
        }
    }
}

impl DeepView for AlertPlan {
    type V = AlertPlanModel;

    open spec fn deep_view(&self) -> AlertPlanModel {
        self@
    }
}

/// The plan of an alert of `count` pulses.
pub open spec fn alert_of(count: nat) -> AlertPlanModel {
    AlertPlanModel {
        announcement: announcement_text(count),
        pulse: pulse_text(),
        pauses: pauses_of(count),
    }
}

/// No pause is longer than the span, and the pauses grow with the index.
pub proof fn pauses_within_span(count: nat, index: nat)
    requires
        index < count,
    ensures
        pause_before(count, index) <= PULSE_SPAN,
        index > 0 ==> pause_before(count, (index - 1) as nat) <= pause_before(count, index),
        pause_before(count, 0) == 0,
{
    let step = PULSE_SPAN as nat / count;
    assert(step * count <= PULSE_SPAN) by {
        vstd::arithmetic::div_mod::lemma_fundamental_div_mod(PULSE_SPAN as int, count as int);
        assert(count * step == step * count) by (nonlinear_arith);
    }
    assert(step * index <= step * count) by (nonlinear_arith)
        requires
            index < count,
            step >= 0,
    ;
    if index > 0 {
        assert(step * (index - 1) <= step * index) by (nonlinear_arith)
            requires
                step >= 0,
        ;
    }
    assert(step * 0 == 0) by (nonlinear_arith);
}

/// The pause before the pulse `index` of `count` pulses.
pub fn pulse_pause(count: u64, index: u64) -> (pause: u64)
    requires
        index < count,
    ensures
        pause == pause_before(count as nat, index as nat),
{
    proof {
        pauses_within_span(count as nat, index as nat);
    }
    (PULSE_SPAN / count) * index
}

/// The pauses of an alert of `count` pulses, one for each pulse.
pub fn pulse_pauses(count: u64) -> (pauses: Vec<u64>)
    requires
        count <= usize::MAX,
    ensures
        pauses@ == pauses_of(count as nat),
{
    let mut pauses: Vec<u64> = Vec::new();
    let mut index: u64 = 0;
    while index < count
        invariant
            index <= count <= usize::MAX,
            pauses@.len() == index,
            forall|i: int| 0 <= i < index ==> pauses@[i] == pause_before(count as nat, i as nat),
        decreases count - index,
    {
        pauses.push(pulse_pause(count, index));
        index = index + 1;
    }
    proof {
        assert forall|i: int| 0 <= i < count implies pauses@[i] == pauses_of(count as nat)[i] by {
            pauses_within_span(count as nat, i as nat);
        }
        assert(pauses@ =~= pauses_of(count as nat));
    }
    pauses
}

/// The line that announces an alert of `count` pulses: "Beep 3x".
pub fn announcement(count: u64) -> (text: String)
    ensures
        text@ == announcement_text(count as nat),
{
    let mut text = String::new();
    text.append("Beep ");
    push_decimal(&mut text, count as u128);
    text.append("x");
    assert(text@ =~= announcement_text(count as nat));
    text
}

/// The plan of an alert of `count` pulses.
pub fn plan_alert(count: u64) -> (plan: AlertPlan)
    requires
        count <= usize::MAX,
    ensures
        plan@ == alert_of(count as nat),
{
    let mut pulse = String::new();
    pulse.append("\x07");
    proof {
        reveal_strlit("\x07");
        assert(pulse@ =~= pulse_text());
    }
    AlertPlan { announcement: announcement(count), pulse, pauses: pulse_pauses(count) }
}

} // verus!
