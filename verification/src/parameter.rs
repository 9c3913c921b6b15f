use crate::commands::id::Id;
use crate::timestamp::Timestamp;
use vstd::prelude::*;

verus! {

/// How many units of a parameter value make one: values are fixed-point numbers
/// with six decimal places, so a gain of one half is `500_000`.
pub const VALUE_SCALE: i64 = 1_000_000;

/// How the value travels to an event's target.
#[derive(Clone, Copy, Debug, PartialEq, Eq, Structural)]
pub enum EventShape {
    /// The value jumps to the target at the event's time.
    Step,
    /// The value moves in a straight line from the event before and arrives at
    /// the target at the event's time.
    Linear,
}

/// One entry of an automation timeline.
#[derive(Clone, Copy, Debug, PartialEq, Eq, Structural)]
pub struct ParameterEvent {
    pub time: Timestamp,
    pub target: i64,
    pub shape: EventShape,
}

impl ParameterEvent {
    /// The value becomes `value` at `time`.
    pub fn set_at_time(value: i64, time: Timestamp) -> (event: Self)
        ensures
            event == (ParameterEvent { time, target: value, shape: EventShape::Step }),
    {
        Self { time, target: value, shape: EventShape::Step }
    }

    /// The value ramps to `value` and reaches it at `time`.
    pub fn linear_ramp_to(value: i64, time: Timestamp) -> (event: Self)
        ensures
            event == (ParameterEvent { time, target: value, shape: EventShape::Linear }),
    {
        Self { time, target: value, shape: EventShape::Linear }
    }
}

/// The index of the last event of `events` that is due at `ticks`, or -1 if
/// none is.
pub open spec fn anchor_index(events: Seq<ParameterEvent>, ticks: nat) -> int
    decreases events.len(),
{
    if events.len() == 0 {
        -1
    } else if events.last().time.ticks() <= ticks {
        events.len() - 1
    } else {
        anchor_index(events.drop_last(), ticks)
    }
}

/// The point on the line from `from` to `to` after `elapsed` of `duration`,
/// rounded towards `from`.
pub open spec fn interpolate(from: int, to: int, elapsed: nat, duration: nat) -> int {
    if to >= from {
        from + ((to - from) * elapsed) / (duration as int)
    } else {
        from - ((from - to) * elapsed) / (duration as int)
    }
}

/// The value at `ticks` of a timeline that starts out at `initial_value`:
/// before the first event that is due, the initial value; on the way to a
/// linear event, the point on the line between the two targets; else the target
/// of the last event that is due.
pub open spec fn value_at(events: Seq<ParameterEvent>, initial_value: int, ticks: nat) -> int {
    let i = anchor_index(events, ticks);
    if i < 0 {
        initial_value
    } else if i + 1 >= events.len() || events[i + 1].shape == EventShape::Step {
        events[i].target as int
    } else {
        interpolate(
            events[i].target as int,
            events[i + 1].target as int,
            (ticks - events[i].time.ticks()) as nat,
            (events[i + 1].time.ticks() - events[i].time.ticks()) as nat,
        )
    }
}

/// What `anchor_index` finds: the last event that is due, with every later one
/// still to come.
pub proof fn lemma_anchor_index(events: Seq<ParameterEvent>, ticks: nat)
    ensures
        -1 <= anchor_index(events, ticks) < events.len(),
        anchor_index(events, ticks) >= 0 ==> events[anchor_index(events, ticks)].time.ticks()
            <= ticks,
        forall|j: int|
            anchor_index(events, ticks) < j < events.len() ==> (#[trigger] events[j]).time.ticks()
                > ticks,
    decreases events.len(),
{
    if events.len() > 0 && events.last().time.ticks() > ticks {
        lemma_anchor_index(events.drop_last(), ticks);
        assert forall|j: int| anchor_index(events, ticks) < j < events.len() implies (
        #[trigger] events[j]).time.ticks() > ticks by {
            if j < events.len() - 1 {
                assert(events.drop_last()[j] == events[j]);
            }
        }
    }
}

proof fn lemma_interpolate_bounds(from: int, to: int, elapsed: nat, duration: nat)
    requires
        elapsed < duration,
    ensures
        to >= from ==> from <= interpolate(from, to, elapsed, duration) <= to,
        to < from ==> to <= interpolate(from, to, elapsed, duration) <= from,
        to >= from ==> 0 <= ((to - from) * elapsed) / (duration as int) <= to - from,
        to < from ==> 0 <= ((from - to) * elapsed) / (duration as int) <= from - to,
{
    let span = if to >= from {
        to - from
    } else {
        from - to
    };
    let d = duration as int;
    let e = elapsed as int;
    assert(0 <= span * e <= span * d) by (nonlinear_arith)
        requires
            0 <= span,
            0 <= e < d,
    ;
    vstd::arithmetic::div_mod::lemma_div_is_ordered(0, span * e, d);
    vstd::arithmetic::div_mod::lemma_div_is_ordered(span * e, span * d, d);
    vstd::arithmetic::div_mod::lemma_div_by_multiple(span, d);
    assert(0int / d == 0);
}

/// A value under automation: where it starts, and the events that move it.
pub struct Parameter {
    id: Id,
    initial_value: i64,
    events: Vec<ParameterEvent>,
}

impl Parameter {
    pub closed spec fn id(&self) -> Id {
        self.id
    }

    pub closed spec fn initial_value(&self) -> i64 {
        self.initial_value
    }

    /// The timeline, in the order in which the events were added.
    pub closed spec fn events(&self) -> Seq<ParameterEvent> {
        self.events@
    }

    /// A parameter with an empty timeline.
    pub fn new(id: Id, initial_value: i64) -> (parameter: Self)
        ensures
            parameter.id() == id,
            parameter.initial_value() == initial_value,
            parameter.events() == Seq::<ParameterEvent>::empty(),
    {
        Self { id, initial_value, events: Vec::new() }
    }

    pub fn get_id(&self) -> (id: Id)
        ensures
            id == self.id(),
    {
        self.id
    }

    /// Appends `event` to the timeline.
    pub fn add_event(&mut self, event: ParameterEvent)
        ensures
            final(self).id() == old(self).id(),
            final(self).initial_value() == old(self).initial_value(),
            final(self).events() == old(self).events().push(event),
    {
        self.events.push(event);
    }

    /// The index of the last event that is due at `time`.
    fn find_anchor(&self, time: &Timestamp) -> (index: Option<usize>)
        ensures
            index is None <==> anchor_index(self.events(), time.ticks()) < 0,
            index matches Some(i) ==> i == anchor_index(self.events(), time.ticks()),
    {
        let mut remaining: usize = self.events.len();
        assert(self.events@.subrange(0, remaining as int) == self.events@);
        while remaining > 0
            invariant
                remaining <= self.events@.len(),
                anchor_index(self.events@, time.ticks()) == anchor_index(
                    self.events@.subrange(0, remaining as int),
                    time.ticks(),
                ),
            decreases remaining,
        {
            let ghost prefix = self.events@.subrange(0, remaining as int);
            assert(prefix.last() == self.events@[remaining - 1]);
            assert(prefix.drop_last() == self.events@.subrange(0, remaining - 1));
            if !time.is_before(&self.events[remaining - 1].time) {
                return Some(remaining - 1);
            }
            remaining -= 1;
        }
        assert(self.events@.subrange(0, 0).len() == 0);
        None
    }

    /// The value of the parameter at `time`.
    pub fn get_value_at_time(&self, time: &Timestamp) -> (value: i64)
        ensures
            value == value_at(self.events(), self.initial_value() as int, time.ticks()),
    {
        proof {
            lemma_anchor_index(self.events@, time.ticks());
        }
        match self.find_anchor(time) {
            None => self.initial_value,
            Some(i) => {
                let count = self.events.len();
                assert(i < count);
                let anchor = self.events[i];
                if i + 1 >= count {
                    return anchor.target;
                }
                let next = self.events[i + 1];
                match next.shape {
                    EventShape::Step => anchor.target,
                    EventShape::Linear => {
                        let elapsed = time.since(&anchor.time).get_ticks();
                        let duration = next.time.since(&anchor.time).get_ticks();
                        assert(next.time.ticks() > time.ticks());
                        Self::interpolated(anchor.target, next.target, elapsed, duration)
                    },
                }
            },
        }
    }

    /// The point on the line from `from` to `to` after `elapsed` of `duration`.
    fn interpolated(from: i64, to: i64, elapsed: u64, duration: u64) -> (value: i64)
        requires
            elapsed < duration,
        ensures
            value == interpolate(from as int, to as int, elapsed as nat, duration as nat),
    {
        proof {
            lemma_interpolate_bounds(from as int, to as int, elapsed as nat, duration as nat);
        }
        if to >= from {
            let span: u128 = (to as i128 - from as i128) as u128;
            assert(span * elapsed <= 0xffff_ffff_ffff_ffff * 0xffff_ffff_ffff_ffff)
                by (nonlinear_arith)
                requires
                    span <= 0xffff_ffff_ffff_ffff,
                    elapsed <= 0xffff_ffff_ffff_ffff,
            ;
            let step: u128 = (span * (elapsed as u128)) / (duration as u128);
            (from as i128 + step as i128) as i64
        } else {
            let span: u128 = (from as i128 - to as i128) as u128;
            assert(span * elapsed <= 0xffff_ffff_ffff_ffff * 0xffff_ffff_ffff_ffff)
                by (nonlinear_arith)
                requires
                    span <= 0xffff_ffff_ffff_ffff,
                    elapsed <= 0xffff_ffff_ffff_ffff,
            ;
            let step: u128 = (span * (elapsed as u128)) / (duration as u128);
            (from as i128 - step as i128) as i64
        }
    }
}

/// A parameter without events has its initial value at every time.
pub proof fn lemma_value_without_events(initial_value: int, ticks: nat)
    ensures
        value_at(Seq::<ParameterEvent>::empty(), initial_value, ticks) == initial_value,
{
}

/// On a ramp that is set to `from` at `start` and arrives at `to` at `end`, the
/// value at a time in between lies on the straight line between the two, to
/// within one unit of the sixth decimal place; at the two ends it is exact.
pub proof fn lemma_value_on_ramp(
    from: i64,
    to: i64,
    start: Timestamp,
    end: Timestamp,
    initial_value: int,
    ticks: nat,
)
    requires
        start.ticks() < end.ticks(),
        start.ticks() <= ticks <= end.ticks(),
    ensures
        ({
            let events = seq![
                ParameterEvent { time: start, target: from, shape: EventShape::Step },
                ParameterEvent { time: end, target: to, shape: EventShape::Linear },
            ];
            let value = value_at(events, initial_value, ticks);
            let duration = end.ticks() - start.ticks();
            let elapsed = ticks - start.ticks();
            let exact_times_duration = from * duration + (to - from) * elapsed;
            &&& exact_times_duration - duration < value * duration < exact_times_duration
                + duration
            &&& ticks == start.ticks() ==> value == from
            &&& ticks == end.ticks() ==> value == to
        }),
{
    let events = seq![
        ParameterEvent { time: start, target: from, shape: EventShape::Step },
        ParameterEvent { time: end, target: to, shape: EventShape::Linear },
    ];
    let d = (end.ticks() - start.ticks()) as int;
    let e = (ticks - start.ticks()) as int;
    assert(events.len() == 2);
    assert(events.last() == events[1]);
    assert(events.drop_last().len() == 1);
    assert(events.drop_last().last() == events[0]);
    reveal_with_fuel(anchor_index, 3);
    if ticks == end.ticks() {
        assert(anchor_index(events, ticks) == 1);
        assert(from * d + (to - from) * d == to * d) by (nonlinear_arith);
    } else {
        assert(anchor_index(events, ticks) == 0);
        let value = value_at(events, initial_value, ticks);
        let span = if to >= from {
            to - from
        } else {
            from - to
        };
        let q = (span * e) / d;
        vstd::arithmetic::div_mod::lemma_fundamental_div_mod(span * e, d);
        vstd::arithmetic::div_mod::lemma_mod_bound(span * e, d);
        assert(d * q <= span * e < d * q + d);
        assert(value == if to >= from {
            from + q
        } else {
            from - q
        });
        if to >= from {
            assert((from + q) * d == from * d + d * q) by (nonlinear_arith);
        } else {
            assert((from - q) * d == from * d - d * q) by (nonlinear_arith);
            assert((to - from) * e == -(span * e)) by (nonlinear_arith)
                requires
                    span == from - to,
            ;
        }
        if e == 0 {
            assert(span * e == 0) by (nonlinear_arith)
                requires
                    e == 0,
            ;
            assert(q == 0);
        }
    }
}

} // verus!
