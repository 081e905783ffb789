//! The duty-cycle ramp and the hysteresis state machine that drives it.
//!
//! Temperatures are millikelvin (`u32`); duty cycles are per-mille of the PWM
//! period (`u32` in `(0, DUTY_SCALE)`).

use vstd::prelude::*;
use vstd::arithmetic::div_mod::{
    lemma_div_is_ordered, lemma_div_multiples_vanish, lemma_div_multiples_vanish_fancy,
    lemma_div_pos_is_pos,
};
use vstd::arithmetic::mul::{lemma_mul_inequality, lemma_mul_nonnegative, lemma_mul_upper_bound};

verus! {

/// Denominator of the fixed-point duty-cycle representation: a duty cycle of
/// `d` stands for the fraction `d / DUTY_SCALE` of the PWM period.
pub const DUTY_SCALE: u32 = 1000;

/// A rejected construction parameter: which field, which rule it broke, and
/// the value supplied.
#[derive(Debug)]
pub struct ParameterError<T> {
    pub field: &'static str,
    pub reason: &'static str,
    pub value: T,
}

/// The clamped linear ramp from temperature to duty cycle.
///
/// Below `start_temperature` the ramp floors at `min_duty_cycle`; above
/// `high_temperature` it ceils at `max_duty_cycle`; in between it
/// interpolates linearly. `stop_temperature` is the separate, lower threshold
/// under which the controller may fully stop.
#[derive(Debug, Clone, Copy, PartialEq, Eq, Structural)]
pub struct Function {
    /// T0, millikelvin: at or below this (and only once the lag has elapsed)
    /// the fan may stop entirely.
    pub stop_temperature: u32,
    /// T1, millikelvin: the ramp's lower knee.
    pub start_temperature: u32,
    /// T2, millikelvin: the ramp's upper knee.
    pub high_temperature: u32,
    /// Pmin, per-mille, in `(0, DUTY_SCALE)`.
    pub min_duty_cycle: u32,
    /// Pmax, per-mille, in `(0, DUTY_SCALE)`.
    pub max_duty_cycle: u32,
}

impl Function {
    /// The constructor-enforced shape: strictly increasing thresholds and
    /// duty-cycle bounds inside the open unit interval.
    pub open spec fn wf(self) -> bool {
        &&& self.stop_temperature < self.start_temperature
        &&& self.start_temperature < self.high_temperature
        &&& 0 < self.min_duty_cycle
        &&& self.min_duty_cycle < self.max_duty_cycle
        &&& self.max_duty_cycle < DUTY_SCALE
    }

    /// Validates the five parameters in order and reports the first violated
    /// rule; on success the fields are exactly the arguments.
    pub fn new(
        stop_temperature: u32,
        start_temperature: u32,
        high_temperature: u32,
        min_duty_cycle: u32,
        max_duty_cycle: u32,
    ) -> (r: Result<Self, ParameterError<u32>>)
        ensures
            r is Ok <==> {
                &&& stop_temperature < start_temperature
                &&& start_temperature < high_temperature
                &&& 0 < min_duty_cycle < DUTY_SCALE
                &&& 0 < max_duty_cycle < DUTY_SCALE
                &&& min_duty_cycle < max_duty_cycle
            },
            r matches Ok(f) ==> f == (Function {
                stop_temperature,
                start_temperature,
                high_temperature,
                min_duty_cycle,
                max_duty_cycle,
            }) && f.wf(),
            stop_temperature >= start_temperature ==> (r matches Err(e)
                && e.field@ == "start_temperature"@
                && e.reason@ == "lower than stop_temperature"@
                && e.value == start_temperature),
            stop_temperature < start_temperature && start_temperature >= high_temperature
                ==> (r matches Err(e)
                && e.field@ == "high_temperature"@
                && e.reason@ == "lower than start_temperature"@
                && e.value == high_temperature),
            stop_temperature < start_temperature && start_temperature < high_temperature
                && !(0 < min_duty_cycle < DUTY_SCALE) ==> (r matches Err(e)
                && e.field@ == "min_duty_cycle"@
                && e.reason@ == "not in (0, 1)"@
                && e.value == min_duty_cycle),
            stop_temperature < start_temperature && start_temperature < high_temperature
                && 0 < min_duty_cycle < DUTY_SCALE && !(0 < max_duty_cycle < DUTY_SCALE)
                ==> (r matches Err(e)
                && e.field@ == "max_duty_cycle"@
                && e.reason@ == "not in (0, 1)"@
                && e.value == max_duty_cycle),
            stop_temperature < start_temperature && start_temperature < high_temperature
                && 0 < min_duty_cycle < DUTY_SCALE && 0 < max_duty_cycle < DUTY_SCALE
                && min_duty_cycle >= max_duty_cycle ==> (r matches Err(e)
                && e.field@ == "max_duty_cycle"@
                && e.reason@ == "lower than min_duty_cycle"@
                && e.value == max_duty_cycle),
    {
        if stop_temperature >= start_temperature {
            return Err(ParameterError {
                field: "start_temperature",
                reason: "lower than stop_temperature",
                value: start_temperature,
            });
        }
        if start_temperature >= high_temperature {
            return Err(ParameterError {
                field: "high_temperature",
                reason: "lower than start_temperature",
                value: high_temperature,
            });
        }
        if min_duty_cycle == 0 || min_duty_cycle >= DUTY_SCALE {
            return Err(ParameterError {
                field: "min_duty_cycle",
                reason: "not in (0, 1)",
                value: min_duty_cycle,
            });
        }
        if max_duty_cycle == 0 || max_duty_cycle >= DUTY_SCALE {
            return Err(ParameterError {
                field: "max_duty_cycle",
                reason: "not in (0, 1)",
                value: max_duty_cycle,
            });
        }
        if min_duty_cycle >= max_duty_cycle {
            return Err(ParameterError {
                field: "max_duty_cycle",
                reason: "lower than min_duty_cycle",
                value: max_duty_cycle,
            });
        }
        Ok(Function {
            stop_temperature,
            start_temperature,
            high_temperature,
            min_duty_cycle,
            max_duty_cycle,
        })
    }

    /// What `map` returns: the floor below the lower knee, the ceiling above
    /// the upper knee, and the linear interpolation in between.
    pub open spec fn spec_map(self, t: u32) -> int {
        if t < self.start_temperature {
            self.min_duty_cycle as int
        } else if t > self.high_temperature {
            self.max_duty_cycle as int
        } else {
            self.min_duty_cycle + (self.max_duty_cycle - self.min_duty_cycle) * (t
                - self.start_temperature) / (self.high_temperature - self.start_temperature)
        }
    }

    /// The target duty cycle for temperature `t`, per-mille.
    pub fn map(&self, t: u32) -> (r: u32)
        requires
            self.wf(),
        ensures
            r == self.spec_map(t),
            self.min_duty_cycle <= r <= self.max_duty_cycle,
    {
        proof {
            lemma_map_in_range(*self, t);
        }
        if t < self.start_temperature {
            return self.min_duty_cycle;
        }
        if t > self.high_temperature {
            return self.max_duty_cycle;
        }
        let span: u64 = (self.max_duty_cycle - self.min_duty_cycle) as u64;
        let above: u64 = (t - self.start_temperature) as u64;
        let width: u64 = (self.high_temperature - self.start_temperature) as u64;
        proof {
            lemma_mul_upper_bound(span as int, DUTY_SCALE as int, above as int, u32::MAX as int);
        }
        let scaled: u64 = span * above / width;
        self.min_duty_cycle + (scaled as u32)
    }
}

/// Law: the ramp never leaves the configured duty-cycle band.
pub proof fn lemma_map_in_range(f: Function, t: u32)
    requires
        f.wf(),
    ensures
        f.min_duty_cycle <= f.spec_map(t) <= f.max_duty_cycle,
{
    if f.start_temperature <= t <= f.high_temperature {
        let span = f.max_duty_cycle - f.min_duty_cycle;
        let above = t - f.start_temperature;
        let width = f.high_temperature - f.start_temperature;
        lemma_mul_nonnegative(span, above);
        lemma_div_pos_is_pos(span * above, width);
        lemma_mul_inequality(above, width, span);
        assert(above * span == span * above) by (nonlinear_arith);
        assert(width * span == span * width) by (nonlinear_arith);
        lemma_div_is_ordered(span * above, span * width, width);
        lemma_div_multiples_vanish(span, width);
        assert(width * span / width == span);
    }
}

/// Law: the ramp is continuous at both knees — it meets the floor exactly at
/// `start_temperature` and the ceiling exactly at `high_temperature` — and is
/// clamped to those plateaus outside `[start_temperature, high_temperature]`.
pub proof fn lemma_map_continuous(f: Function)
    requires
        f.wf(),
    ensures
        f.spec_map(f.start_temperature) == f.min_duty_cycle,
        f.spec_map(f.high_temperature) == f.max_duty_cycle,
        forall|t: u32| t <= f.start_temperature ==> f.spec_map(t) == f.min_duty_cycle,
        forall|t: u32| t >= f.high_temperature ==> f.spec_map(t) == f.max_duty_cycle,
{
    let span = f.max_duty_cycle - f.min_duty_cycle;
    let width = f.high_temperature - f.start_temperature;
    assert(f.spec_map(f.start_temperature) == f.min_duty_cycle) by {
        assert(span * 0 == 0) by (nonlinear_arith);
        lemma_div_pos_is_pos(0, width);
        lemma_div_is_ordered(0, 0, width);
        assert((0int / width) == 0) by {
            lemma_div_multiples_vanish(0, width);
            assert(width * 0 == 0) by (nonlinear_arith);
        }
    }
    assert(f.spec_map(f.high_temperature) == f.max_duty_cycle) by {
        lemma_div_multiples_vanish(span, width);
        assert(span * width == width * span) by (nonlinear_arith);
    }
}

/// The integer average of two values lies between them; it can only reach the
/// lower one when the two are within one of each other.
pub proof fn lemma_avg_between(a: u32, b: u32)
    requires
        a <= b,
    ensures
        a <= (a + b) / 2 <= b,
        a < b ==> (a + b) / 2 < b,
        a + 2 <= b ==> a < (a + b) / 2,
{
    lemma_div_multiples_vanish(a as int, 2);
    assert(2 * (a as int) == a + a);
    lemma_div_is_ordered(a + a, a + b, 2);
    lemma_div_multiples_vanish(b as int, 2);
    assert(2 * (b as int) == b + b);
    lemma_div_is_ordered(a + b, b + b, 2);
    if a < b {
        lemma_div_multiples_vanish_fancy(b - 1, 1, 2);
        assert(2 * (b - 1) + 1 == a + b + (b - a - 1));
        lemma_div_is_ordered(a + b, 2 * (b - 1) + 1, 2);
    }
    if a + 2 <= b {
        lemma_div_multiples_vanish(a + 1, 2);
        assert(2 * (a + 1 as int) == a + a + 2);
        lemma_div_is_ordered(a + a + 2, a + b, 2);
    }
}

/// What the controller reports each tick.
#[derive(Debug, Clone, Copy, PartialEq, Eq, Structural)]
pub enum ControlOutput {
    /// Stop the actuator entirely.
    Off,
    /// Drive the actuator at this duty cycle, per-mille.
    Change(u32),
    /// Leave the actuator as it is.
    Keep,
}

/// The controller's memory between ticks.
#[derive(Debug, Clone, Copy, PartialEq, Eq, Structural)]
pub enum State {
    /// The actuator is fully stopped.
    Off,
    /// The temperature is rising or was last seen above the lower knee; the
    /// ramp drives the duty cycle directly.
    Function { last_duty_cycle: u32 },
    /// The temperature is falling: coast at a held duty cycle while the
    /// countdown runs, re-anchoring to an averaged temperature when it ends.
    Keep { remain_time_cycle: usize, keep_temperature: u32, keep_duty_cycle: u32 },
}

/// The hysteresis controller: rising temperatures react immediately through
/// the ramp, falling ones are damped by `lag_time_cycle` ticks of coasting.
#[derive(Debug, Clone, Copy, PartialEq, Eq, Structural)]
pub struct Control {
    pub state: State,
    /// The previous tick's reading, millikelvin; starts at absolute zero so
    /// the first tick is always treated as rising.
    pub last_temperature: u32,
    pub temperature_rule: Function,
    /// How many consecutive non-rising ticks to coast before reconsidering.
    pub lag_time_cycle: usize,
}

impl Control {
    /// Valid controllers carry a validated ramp, and while coasting the held
    /// anchor never lies below the previous reading.
    pub open spec fn wf(self) -> bool {
        &&& self.temperature_rule.wf()
        &&& (self.state matches State::Keep { keep_temperature, .. }
            ==> self.last_temperature <= keep_temperature)
    }

    /// A fresh controller: stopped, with the previous reading pinned to
    /// absolute zero.
    pub fn new(temperature_rule: Function, lag_time_cycle: usize) -> (r: Self)
        ensures
            r == (Control { state: State::Off, last_temperature: 0, temperature_rule, lag_time_cycle }),
            temperature_rule.wf() ==> r.wf(),
    {
        Control { state: State::Off, last_temperature: 0, temperature_rule, lag_time_cycle }
    }

    /// The rising-temperature transition, shared by every state: recompute
    /// the duty cycle from the ramp at once.
    pub open spec fn spec_rise(self, t: u32) -> (Control, ControlOutput) {
        let duty = self.temperature_rule.spec_map(t) as u32;
        (
            Control { state: State::Function { last_duty_cycle: duty }, last_temperature: t, ..self },
            ControlOutput::Change(duty),
        )
    }

    /// The transition table: what one tick at reading `t` does to the
    /// controller, and what it reports.
    pub open spec fn spec_update(self, t: u32) -> (Control, ControlOutput) {
        match self.state {
            State::Off => {
                if t <= self.temperature_rule.start_temperature {
                    (Control { last_temperature: t, ..self }, ControlOutput::Off)
                } else {
                    self.spec_rise(t)
                }
            },
            State::Function { last_duty_cycle } => {
                if t <= self.last_temperature {
                    (
                        Control {
                            state: State::Keep {
                                remain_time_cycle: self.lag_time_cycle,
                                keep_temperature: self.last_temperature,
                                keep_duty_cycle: last_duty_cycle,
                            },
                            last_temperature: t,
                            ..self
                        },
                        ControlOutput::Keep,
                    )
                } else {
                    self.spec_rise(t)
                }
            },
            State::Keep { remain_time_cycle, keep_temperature, keep_duty_cycle } => {
                if t <= self.last_temperature {
                    if remain_time_cycle > 0 {
                        (
                            Control {
                                state: State::Keep {
                                    remain_time_cycle: (remain_time_cycle - 1) as usize,
                                    keep_temperature,
                                    keep_duty_cycle,
                                },
                                last_temperature: t,
                                ..self
                            },
                            ControlOutput::Keep,
                        )
                    } else if t <= self.temperature_rule.stop_temperature {
                        (
                            Control { state: State::Off, last_temperature: t, ..self },
                            ControlOutput::Off,
                        )
                    } else {
                        let anchor = ((t + keep_temperature) / 2) as u32;
                        let duty = self.temperature_rule.spec_map(anchor) as u32;
                        (
                            Control {
                                state: State::Keep {
                                    remain_time_cycle: self.lag_time_cycle,
                                    keep_temperature: anchor,
                                    keep_duty_cycle: duty,
                                },
                                last_temperature: t,
                                ..self
                            },
                            ControlOutput::Change(duty),
                        )
                    }
                } else {
                    self.spec_rise(t)
                }
            },
        }
    }

    /// One tick: applies the transition table to the newest reading and, as
    /// its final step regardless of branch, remembers that reading.
    pub fn update(&mut self, temperature: u32) -> (r: ControlOutput)
        requires
            old(self).wf(),
        ensures
            *final(self) == old(self).spec_update(temperature).0,
            r == old(self).spec_update(temperature).1,
            final(self).wf(),
            final(self).last_temperature == temperature,
    {
        let output: ControlOutput = match self.state {
            State::Off => {
                if temperature <= self.temperature_rule.start_temperature {
                    ControlOutput::Off
                } else {
                    let duty_cycle = self.temperature_rule.map(temperature);
                    self.state = State::Function { last_duty_cycle: duty_cycle };
                    ControlOutput::Change(duty_cycle)
                }
            },
            State::Function { last_duty_cycle } => {
                if temperature <= self.last_temperature {
                    self.state = State::Keep {
                        remain_time_cycle: self.lag_time_cycle,
                        keep_temperature: self.last_temperature,
                        keep_duty_cycle: last_duty_cycle,
                    };
                    ControlOutput::Keep
                } else {
                    let duty_cycle = self.temperature_rule.map(temperature);
                    self.state = State::Function { last_duty_cycle: duty_cycle };
                    ControlOutput::Change(duty_cycle)
                }
            },
            State::Keep { remain_time_cycle, keep_temperature, keep_duty_cycle } => {
                if temperature <= self.last_temperature {
                    if remain_time_cycle > 0 {
                        self.state = State::Keep {
                            remain_time_cycle: remain_time_cycle - 1,
                            keep_temperature,
                            keep_duty_cycle,
                        };
                        ControlOutput::Keep
                    } else if temperature <= self.temperature_rule.stop_temperature {
                        self.state = State::Off;
                        ControlOutput::Off
                    } else {
                        proof {
                            lemma_avg_between(temperature, keep_temperature);
                        }
                        let anchor: u32 = (((temperature as u64) + (keep_temperature as u64)) / 2) as u32;
                        let keep_duty: u32 = self.temperature_rule.map(anchor);
                        self.state = State::Keep {
                            remain_time_cycle: self.lag_time_cycle,
                            keep_temperature: anchor,
                            keep_duty_cycle: keep_duty,
                        };
                        ControlOutput::Change(keep_duty)
                    }
                } else {
                    let duty_cycle = self.temperature_rule.map(temperature);
                    self.state = State::Function { last_duty_cycle: duty_cycle };
                    ControlOutput::Change(duty_cycle)
                }
            },
        };
        self.last_temperature = temperature;
        output
    }

    /// An immediate, controlled launch: coast at the given duty cycle as if a
    /// full lag countdown had just started at the given reading.
    pub fn update_force(&mut self, temperature: u32, duty_cycle: u32) -> (r: ControlOutput)
        ensures
            *final(self) == (Control {
                state: State::Keep {
                    remain_time_cycle: old(self).lag_time_cycle,
                    keep_temperature: temperature,
                    keep_duty_cycle: duty_cycle,
                },
                last_temperature: temperature,
                ..*old(self)
            }),
            r == ControlOutput::Change(duty_cycle),
            old(self).temperature_rule.wf() ==> final(self).wf(),
    {
        self.last_temperature = temperature;
        self.state = State::Keep {
            remain_time_cycle: self.lag_time_cycle,
            keep_temperature: temperature,
            keep_duty_cycle: duty_cycle,
        };
        ControlOutput::Change(duty_cycle)
    }

    pub fn stop_temperature(&self) -> (r: u32)
        ensures
            r == self.temperature_rule.stop_temperature,
    {
        self.temperature_rule.stop_temperature
    }

    pub fn start_temperature(&self) -> (r: u32)
        ensures
            r == self.temperature_rule.start_temperature,
    {
        self.temperature_rule.start_temperature
    }

    pub fn high_temperature(&self) -> (r: u32)
        ensures
            r == self.temperature_rule.high_temperature,
    {
        self.temperature_rule.high_temperature
    }

    pub fn min_duty_cycle(&self) -> (r: u32)
        ensures
            r == self.temperature_rule.min_duty_cycle,
    {
        self.temperature_rule.min_duty_cycle
    }

    pub fn max_duty_cycle(&self) -> (r: u32)
        ensures
            r == self.temperature_rule.max_duty_cycle,
    {
        self.temperature_rule.max_duty_cycle
    }

    pub fn lag_time_cycle(&self) -> (r: usize)
        ensures
            r == self.lag_time_cycle,
    {
        self.lag_time_cycle
    }

    /// The controller left after feeding the readings in order, one tick each.
    pub open spec fn spec_run(self, temps: Seq<u32>) -> Control
        decreases temps.len(),
    {
        if temps.len() == 0 {
            self
        } else {
            self.spec_update(temps[0]).0.spec_run(temps.drop_first())
        }
    }

    /// The outputs reported while feeding the readings in order.
    pub open spec fn spec_outputs(self, temps: Seq<u32>) -> Seq<ControlOutput>
        decreases temps.len(),
    {
        if temps.len() == 0 {
            Seq::empty()
        } else {
            seq![self.spec_update(temps[0]).1] + self.spec_update(
                temps[0],
            ).0.spec_outputs(temps.drop_first())
        }
    }
}

/// Each reading is at or below the one before it, starting from `last`.
pub open spec fn nonrising(last: u32, temps: Seq<u32>) -> bool
    decreases temps.len(),
{
    temps.len() == 0 || (temps[0] <= last && nonrising(temps[0], temps.drop_first()))
}

/// There is one reported output per reading fed.
pub proof fn lemma_outputs_len(c: Control, temps: Seq<u32>)
    ensures
        c.spec_outputs(temps).len() == temps.len(),
    decreases temps.len(),
{
    if temps.len() > 0 {
        lemma_outputs_len(c.spec_update(temps[0]).0, temps.drop_first());
    }
}

/// Law: while stopped, a reading at or below the lower knee reports `Off` and
/// leaves the controller stopped; only the remembered reading moves.
pub proof fn lemma_off_stays_off(c: Control, t: u32)
    requires
        c.state is Off,
        t <= c.temperature_rule.start_temperature,
    ensures
        c.spec_update(t).0 == (Control { last_temperature: t, ..c }),
        c.spec_update(t).1 == ControlOutput::Off,
{
}

/// Law: a strictly rising reading reacts immediately through the ramp in
/// every state, with the one exception of a stopped controller whose reading
/// stays at or below the lower knee.
pub proof fn lemma_rising_reacts(c: Control, t: u32)
    requires
        t > c.last_temperature,
        c.state is Off ==> t > c.temperature_rule.start_temperature,
    ensures
        c.spec_update(t).1 == ControlOutput::Change(c.temperature_rule.spec_map(t) as u32),
        c.spec_update(t).0.state == (State::Function {
            last_duty_cycle: c.temperature_rule.spec_map(t) as u32,
        }),
{
}

/// Law: while coasting, as many consecutive non-rising readings as the
/// countdown has left each report `Keep` and change nothing but the countdown
/// itself and the remembered reading.
pub proof fn lemma_cooling_coasts(c: Control, temps: Seq<u32>, rem: usize, kt: u32, kd: u32)
    requires
        c.state == (State::Keep {
            remain_time_cycle: rem,
            keep_temperature: kt,
            keep_duty_cycle: kd,
        }),
        temps.len() <= rem,
        nonrising(c.last_temperature, temps),
    ensures
        c.spec_run(temps) == (Control {
            state: State::Keep {
                remain_time_cycle: (rem - temps.len()) as usize,
                keep_temperature: kt,
                keep_duty_cycle: kd,
            },
            last_temperature: if temps.len() == 0 {
                c.last_temperature
            } else {
                temps.last()
            },
            ..c
        }),
        forall|i: int|
            0 <= i < temps.len() ==> #[trigger] c.spec_outputs(temps)[i] == ControlOutput::Keep,
    decreases temps.len(),
{
    if temps.len() > 0 {
        let t = temps[0];
        let (c1, out) = c.spec_update(t);
        assert(out == ControlOutput::Keep);
        lemma_cooling_coasts(c1, temps.drop_first(), (rem - 1) as usize, kt, kd);
        assert(temps.drop_first().len() == 0 ==> temps.last() == t);
        assert(temps.drop_first().len() > 0 ==> temps.drop_first().last() == temps.last());
        lemma_outputs_len(c1, temps.drop_first());
        assert(c.spec_outputs(temps) == seq![out] + c1.spec_outputs(temps.drop_first()));
        assert forall|i: int| 0 <= i < temps.len() implies #[trigger] c.spec_outputs(temps)[i]
            == ControlOutput::Keep by {
            if i > 0 {
                assert((seq![out] + c1.spec_outputs(temps.drop_first()))[i] == c1.spec_outputs(
                    temps.drop_first(),
                )[i - 1]);
            }
        }
    }
}

/// Law: once the countdown has elapsed, a non-rising reading at or below the
/// stop threshold stops the fan; one above it re-anchors to the integer
/// average of the reading and the held anchor — a value between the two, and
/// strictly under the old anchor whenever the reading is — and reports the
/// ramp's duty cycle at that new anchor.
pub proof fn lemma_countdown_elapsed(c: Control, t: u32, kt: u32, kd: u32)
    requires
        c.wf(),
        c.state == (State::Keep {
            remain_time_cycle: 0usize,
            keep_temperature: kt,
            keep_duty_cycle: kd,
        }),
        t <= c.last_temperature,
    ensures
        t <= c.temperature_rule.stop_temperature ==> c.spec_update(t) == (
        (Control { state: State::Off, last_temperature: t, ..c }, ControlOutput::Off)),
        t > c.temperature_rule.stop_temperature ==> ({
            let anchor = ((t + kt) / 2) as u32;
            let duty = c.temperature_rule.spec_map(anchor) as u32;
            &&& c.spec_update(t).0 == (Control {
                state: State::Keep {
                    remain_time_cycle: c.lag_time_cycle,
                    keep_temperature: anchor,
                    keep_duty_cycle: duty,
                },
                last_temperature: t,
                ..c
            })
            &&& c.spec_update(t).1 == ControlOutput::Change(duty)
            &&& t <= anchor <= kt
            &&& (t < kt ==> anchor < kt)
            &&& (t + 2 <= kt ==> t < anchor)
        }),
{
    if t > c.temperature_rule.stop_temperature {
        lemma_avg_between(t, kt);
    }
}

} // verus!

