//! What holds of the sidecar at all times.

use vstd::prelude::*;

use crate::calendar::date_at;
use crate::fixed::{Money, UnixNanos};
use crate::user_pnl::inputs::{is_own_name, lemma_candidates, picked, risk_flags, stop_flags};
use crate::user_pnl::model::{
    fresh, reset, Answer, Cause, Setup, Sidecar, Stage, TripBound, UserPnLState,
};

verus! {

impl Setup {
    /// Whether the sidecar may ask for something to be done to a strategy: it is not the sidecar
    /// itself, and it is on the list of managed strategies where there is one.
    pub open spec fn may_handle(self, id: Seq<char>) -> bool {
        &&& !is_own_name(id, self.own, self.config.strategy_id)
        &&& self.handles_all() || self.config.managed.contains(id)
    }

    /// Whether it may ask for something to be done to each of these strategies.
    pub open spec fn may_handle_all(self, ids: Seq<Seq<char>>) -> bool {
        forall|i: int| 0 <= i < ids.len() ==> self.may_handle(#[trigger] ids[i])
    }

    /// Which latch a stage goes with, and which strategies it may name.
    pub open spec fn stage_fits(self, m: Sidecar) -> bool {
        match m.stage {
            Stage::Ready => true,
            Stage::RollPnl => self.config.reset_daily,
            Stage::RearmActive => self.attached && m.state is Idle,
            Stage::RearmStart(ids) => self.attached && m.state is Idle && self.may_handle_all(ids),
            Stage::IdlePnl => m.state is Idle,
            Stage::TripReducing(cause) => self.attached && m.state is Flattening && !(
            cause is Redrive),
            Stage::ExitIds(_) => self.attached && m.state is Flattening && self.handles_all(),
            Stage::ExitRisk(_, ids) => self.attached && m.state is Flattening
                && self.may_handle_all(ids),
            Stage::Exiting(_, ids) => self.attached && m.state is Flattening
                && self.may_handle_all(ids),
            Stage::FlatVenue => m.state is Flattening && self.handles_all(),
            Stage::FlatManaged(ids) => m.state is Flattening && !self.handles_all() && ids
                == self.candidates(self.config.managed),
            Stage::StopIds => self.attached && m.state is Flattening && self.handles_all(),
            Stage::Stopping(ids) => self.attached && m.state is Flattening && self.may_handle_all(
                ids,
            ),
            Stage::HaltSet => self.attached && m.state is Halted,
            Stage::RetripPnl => m.state is Flattening && self.config.reset_daily,
            Stage::ReleaseSet => self.attached && m.state is Idle,
        }
    }

    /// What holds of the sidecar at all times.
    pub open spec fn sound(self, m: Sidecar) -> bool {
        &&& self.stage_fits(m)
        &&& m.latched_halted <==> m.state is Halted
        &&& m.state is Flattening ==> m.trip_bound is Some && m.trip_date is Some
            && m.flatten_started is Some
        &&& !(m.state is Flattening) ==> m.flatten_started is None && m.last_exit_request is None
            && !m.flatten_timed_out
        &&& m.waiting_to_rearm ==> m.state is Idle
        &&& m.awaits_anchor ==> self.config.reset_daily && m.day_anchor_pnl is None
        &&& m.stopped_for_halt.len() > 0 ==> self.attached && (m.state is Halted
            || m.stage is RearmActive)
        &&& self.may_handle_all(m.stopped_for_halt)
    }
}

/// The candidates among all registered strategies, and among the managed ones, may be handled.
proof fn lemma_candidates_may_be_handled(setup: Setup, source: Seq<Seq<char>>)
    requires
        setup.handles_all() || source == setup.config.managed,
    ensures
        setup.may_handle_all(setup.candidates(source)),
{
    let ids = setup.candidates(source);
    lemma_candidates(source, setup.own, setup.config.strategy_id);
    assert forall|i: int| 0 <= i < ids.len() implies setup.may_handle(#[trigger] ids[i]) by {
        assert(ids.contains(ids[i]));
    }
}

/// What is picked out of strategies that may be handled may be handled.
proof fn lemma_picked_may_be_handled(setup: Setup, ids: Seq<Seq<char>>, flags: Seq<bool>)
    requires
        setup.may_handle_all(ids),
    ensures
        setup.may_handle_all(picked(ids, flags)),
    decreases ids.len(),
{
    if ids.len() > 0 {
        let front = ids.drop_last();
        assert forall|i: int| 0 <= i < front.len() implies setup.may_handle(#[trigger] front[i]) by {
            assert(front[i] == ids[i]);
        }
        lemma_picked_may_be_handled(setup, front, flags);
        assert(setup.may_handle(ids[ids.len() - 1]));
    }
}

/// A fresh sidecar is sound.
pub proof fn law_fresh_is_sound(setup: Setup)
    ensures
        setup.sound(fresh()),
{
}

/// Attaching a node leaves the sidecar sound.
pub proof fn law_attached_is_sound(setup: Setup, m: Sidecar)
    requires
        setup.sound(m),
    ensures
        (Setup { attached: true, ..setup }).sound(m),
{
    let attached = Setup { attached: true, ..setup };
    assert forall|ids: Seq<Seq<char>>| #[trigger]
        setup.may_handle_all(ids) implies attached.may_handle_all(ids) by {
        assert forall|i: int| 0 <= i < ids.len() implies attached.may_handle(#[trigger] ids[i]) by {
            assert(setup.may_handle(ids[i]));
        }
    }
}

/// Resetting the latch leaves the sidecar sound.
pub proof fn law_reset_is_sound(setup: Setup, m: Sidecar)
    requires
        setup.sound(m),
    ensures
        setup.sound(reset(m)),
{
}

/// Whether the sidecar would be sound if the check were over.
spec fn latch_sound(setup: Setup, m: Sidecar) -> bool {
    setup.sound(Sidecar { stage: Stage::Ready, ..m })
}

/// The end of a flatten is sound.
proof fn lemma_flat_is_sound(setup: Setup, m: Sidecar, now: UnixNanos)
    requires
        latch_sound(setup, m),
        m.state is Flattening,
    ensures
        setup.sound(setup.flat(m, now)),
        setup.sound(setup.settled(m, now)),
        setup.sound(setup.released(m, now)),
        setup.sound(setup.halted(m)),
{
    lemma_candidates_may_be_handled(setup, setup.config.managed);
    assert(setup.sound(setup.released(m, now)));
    assert(setup.sound(setup.halted(m)));
    assert(setup.sound(setup.stops_wanted(m)));
}

/// What comes after the exits is sound.
proof fn lemma_exits_over_is_sound(setup: Setup, m: Sidecar, now: UnixNanos, cause: Cause)
    requires
        latch_sound(setup, m),
        m.state is Flattening,
    ensures
        setup.sound(setup.exits_over(m, now, cause)),
{
    let late = setup.timed_out(m, now);
    assert(latch_sound(setup, late));
    lemma_flat_is_sound(setup, m, now);
    lemma_flat_is_sound(setup, late, now);
}

/// Asking strategies to exit is sound.
proof fn lemma_exits_are_sound(
    setup: Setup,
    m: Sidecar,
    now: UnixNanos,
    cause: Cause,
    ids: Seq<Seq<char>>,
)
    requires
        latch_sound(setup, m),
        m.state is Flattening,
        setup.attached,
        setup.may_handle_all(ids),
    ensures
        setup.sound(setup.exits_among(m, now, cause, ids)),
        setup.sound(setup.exits_of(m, now, cause, ids)),
        setup.sound(setup.exits_asked(m, now, cause)),
{
    let asked = Sidecar { last_exit_request: Some(now), ..m };
    assert(latch_sound(setup, asked));
    lemma_exits_over_is_sound(setup, asked, now, cause);
}

/// Finding the strategies that are asked to exit is sound.
proof fn lemma_exits_wanted_are_sound(setup: Setup, m: Sidecar, now: UnixNanos, cause: Cause)
    requires
        latch_sound(setup, m),
        m.state is Flattening,
        setup.attached,
    ensures
        setup.sound(setup.exits_wanted(m, now, cause)),
{
    lemma_candidates_may_be_handled(setup, setup.config.managed);
    lemma_exits_are_sound(setup, m, now, cause, setup.candidates(setup.config.managed));
}

/// A trip is sound.
proof fn lemma_trip_is_sound(
    setup: Setup,
    m: Sidecar,
    bound: TripBound,
    now: UnixNanos,
    cause: Cause,
)
    requires
        latch_sound(setup, m),
        !(m.state is Halted),
        !(cause is Redrive),
    ensures
        setup.sound(setup.trip(m, bound, now, cause)),
{
    let tripped = Sidecar {
        state: UserPnLState::Flattening,
        trip_bound: Some(bound),
        trip_date: Some(date_at(now)),
        waiting_to_rearm: false,
        flatten_started: Some(now),
        flatten_timed_out: false,
        ..m
    };
    assert(latch_sound(setup, tripped));
    lemma_exits_over_is_sound(setup, tripped, now, cause);
}

/// Going on with a check is sound.
proof fn lemma_checked_is_sound(setup: Setup, m: Sidecar, now: UnixNanos)
    requires
        latch_sound(setup, m),
    ensures
        setup.sound(setup.checked(m, now)),
{
    if m.state is Flattening {
        lemma_exits_over_is_sound(setup, m, now, Cause::Redrive);
        if setup.attached {
            lemma_exits_wanted_are_sound(setup, m, now, Cause::Redrive);
        }
    }
}

/// Rolling the day over is sound.
proof fn lemma_rolled_is_sound(setup: Setup, m: Sidecar, now: UnixNanos)
    requires
        latch_sound(setup, m),
    ensures
        setup.sound(setup.rolled(m, now)),
{
    if m.state is Halted {
        let rearmed = Sidecar {
            state: UserPnLState::Idle,
            trip_bound: None,
            trip_date: None,
            waiting_to_rearm: false,
            flatten_started: None,
            last_exit_request: None,
            flatten_timed_out: false,
            latched_halted: false,
            ..m
        };
        let started = Sidecar { stopped_for_halt: Seq::empty(), ..rearmed };
        assert(latch_sound(setup, started));
        lemma_checked_is_sound(setup, started, now);
    } else {
        lemma_checked_is_sound(setup, m, now);
    }
}

/// Starting a check leaves the sidecar sound.
pub proof fn law_begun_is_sound(setup: Setup, m: Sidecar, now: UnixNanos)
    requires
        setup.sound(m),
    ensures
        setup.sound(setup.begun(m, now)),
{
    if m.stage is Ready {
        assert(latch_sound(setup, m));
        lemma_checked_is_sound(setup, m, now);
        let first = Sidecar { session_date: Some(date_at(now)), ..m };
        assert(latch_sound(setup, first));
        lemma_checked_is_sound(setup, first, now);
    }
}

/// A report leaves the sidecar sound.
proof fn lemma_pnl_is_sound(
    setup: Setup,
    m: Sidecar,
    now: UnixNanos,
    report: Option<Seq<(Seq<char>, Money)>>,
)
    requires
        setup.sound(m),
    ensures
        setup.sound(setup.answered(m, now, Answer::Pnl(report))),
{
    let noted = setup.noted(m, report);
    match m.stage {
        Stage::RollPnl => {
            let anchored = setup.anchored(m, report);
            assert(latch_sound(setup, anchored));
            lemma_rolled_is_sound(setup, anchored, now);
        },
        Stage::IdlePnl => {
            let armed = Sidecar { waiting_to_rearm: false, ..noted };
            assert(latch_sound(setup, armed));
            if let Some(total) = setup.total(report) {
                if let Some(bound) = setup.config.tripped(setup.watched(m, total)) {
                    lemma_trip_is_sound(setup, armed, bound, now, Cause::Trip);
                }
            }
        },
        Stage::RetripPnl => {
            assert(latch_sound(setup, noted));
            match setup.tripped(m, report) {
                Some(bound) => {
                    lemma_trip_is_sound(setup, noted, bound, now, Cause::Retrip);
                },
                None => {
                    lemma_flat_is_sound(setup, noted, now);
                },
            }
        },
        _ => {},
    }
}

/// A request that was carried out leaves the sidecar sound.
proof fn lemma_done_is_sound(setup: Setup, m: Sidecar, now: UnixNanos)
    requires
        setup.sound(m),
    ensures
        setup.sound(setup.answered(m, now, Answer::Done)),
{
    match m.stage {
        Stage::RearmActive => {
            if m.stopped_for_halt.len() == 0 {
                assert(latch_sound(setup, m));
                lemma_checked_is_sound(setup, m, now);
            }
        },
        Stage::RearmStart(_) => {
            assert(latch_sound(setup, m));
            lemma_checked_is_sound(setup, m, now);
        },
        Stage::TripReducing(cause) => {
            assert(latch_sound(setup, m));
            lemma_exits_wanted_are_sound(setup, m, now, cause);
        },
        Stage::Exiting(cause, ids) => {
            assert(latch_sound(setup, m));
            lemma_exits_are_sound(setup, m, now, cause, ids);
        },
        _ => {},
    }
}

/// Every reply, whether it fits the request or not, leaves the sidecar sound.
pub proof fn law_answered_is_sound(setup: Setup, m: Sidecar, now: UnixNanos, answer: Answer)
    requires
        setup.sound(m),
    ensures
        setup.sound(setup.answered(m, now, answer)),
{
    match answer {
        Answer::Pnl(report) => {
            lemma_pnl_is_sound(setup, m, now, report);
        },
        Answer::Done => {
            lemma_done_is_sound(setup, m, now);
        },
        Answer::Strategies(source) => {
            match m.stage {
                Stage::ExitIds(cause) => {
                    assert(latch_sound(setup, m));
                    lemma_candidates_may_be_handled(setup, source);
                    lemma_exits_are_sound(setup, m, now, cause, setup.candidates(source));
                },
                Stage::StopIds => {
                    assert(latch_sound(setup, m));
                    lemma_candidates_may_be_handled(setup, source);
                    lemma_flat_is_sound(setup, m, now);
                },
                _ => {},
            }
        },
        Answer::Risk(risk) => {
            match m.stage {
                Stage::ExitRisk(cause, ids) => {
                    assert(latch_sound(setup, m));
                    lemma_picked_may_be_handled(setup, ids, risk_flags(risk));
                    lemma_exits_are_sound(setup, m, now, cause, picked(ids, risk_flags(risk)));
                },
                Stage::FlatVenue => {
                    assert(latch_sound(setup, m));
                    lemma_flat_is_sound(setup, m, now);
                },
                Stage::FlatManaged(_) => {
                    assert(latch_sound(setup, m));
                    lemma_flat_is_sound(setup, m, now);
                },
                _ => {},
            }
        },
        Answer::Stopped(outcomes) => {
            match m.stage {
                Stage::Stopping(ids) => {
                    lemma_picked_may_be_handled(setup, ids, stop_flags(outcomes));
                },
                _ => {},
            }
        },
    }
}

} // verus!
