//! Alarm debouncing: a rule's condition must hold for the rule's on (or
//! off) delay before the rule switches, and the routes that a switch is
//! announced on.

use vstd::prelude::*;
use crate::text::{trim_spec, trim_str};

verus! {

/// What the scheduler keeps of one alarm rule between evaluations: whether
/// it is active, and since when (Unix seconds, 0 for never) its condition
/// has disagreed with that.
#[derive(Clone, Copy, Debug, PartialEq, Eq, Structural)]
pub struct AlarmRuntime {
    pub active: bool,
    pub pending_since: i64,
}

impl Default for AlarmRuntime {
    fn default() -> (r: Self)
        ensures
            r == (AlarmRuntime { active: false, pending_since: 0 }),
    {
        AlarmRuntime { active: false, pending_since: 0 }
    }
}

/// Seconds the condition must be pending before the rule switches to
/// `desired`: the on delay to switch on, the off delay to switch off, a
/// negative delay counting as none.
pub open spec fn alarm_wait(desired: bool, on_delay_sec: i32, off_delay_sec: i32) -> int {
    let d = if desired { on_delay_sec } else { off_delay_sec };
    if d < 0 { 0 } else { d as int }
}

/// One evaluation of a rule whose condition reads `desired` at `now_ts`:
/// the new runtime state, and whether the rule switched.
pub open spec fn debounce_spec(
    state: AlarmRuntime,
    desired: bool,
    now_ts: i64,
    on_delay_sec: i32,
    off_delay_sec: i32,
) -> (AlarmRuntime, bool) {
    if desired == state.active {
        (AlarmRuntime { active: state.active, pending_since: 0 }, false)
    } else if state.pending_since == 0 {
        (AlarmRuntime { active: state.active, pending_since: now_ts }, false)
    } else if now_ts - state.pending_since < alarm_wait(desired, on_delay_sec, off_delay_sec) {
        (state, false)
    } else {
        (AlarmRuntime { active: desired, pending_since: 0 }, true)
    }
}

/// The subtraction in one evaluation stays within `i64`.
pub open spec fn debounce_in_range(state: AlarmRuntime, desired: bool, now_ts: i64) -> bool {
    desired != state.active && state.pending_since != 0
        ==> i64::MIN <= now_ts - state.pending_since <= i64::MAX
}

/// Evaluates one rule: a condition that agrees with the state clears any
/// pending switch; one that disagrees starts pending at `now_ts`, and the
/// rule switches once it has been pending for the rule's delay.
pub fn alarm_debounce_step(
    state: AlarmRuntime,
    desired: bool,
    now_ts: i64,
    on_delay_sec: i32,
    off_delay_sec: i32,
) -> (r: (AlarmRuntime, bool))
    requires
        debounce_in_range(state, desired, now_ts),
    ensures
        r == debounce_spec(state, desired, now_ts, on_delay_sec, off_delay_sec),
{
    if desired == state.active {
        return (AlarmRuntime { active: state.active, pending_since: 0 }, false);
    }
    if state.pending_since == 0 {
        return (AlarmRuntime { active: state.active, pending_since: now_ts }, false);
    }
    let d: i32 = if desired { on_delay_sec } else { off_delay_sec };
    let wait: i64 = if d < 0 { 0 } else { d as i64 };
    if now_ts - state.pending_since < wait {
        return (state, false);
    }
    (AlarmRuntime { active: desired, pending_since: 0 }, true)
}

/// A rule switches only to its condition's reading, and only after that
/// reading has been pending for the rule's delay; when it does not switch
/// its active flag stays.
pub proof fn lemma_alarm_switches_only_after_delay(
    state: AlarmRuntime,
    desired: bool,
    now_ts: i64,
    on_delay_sec: i32,
    off_delay_sec: i32,
)
    ensures
        ({
            let (next, fired) = debounce_spec(state, desired, now_ts, on_delay_sec, off_delay_sec);
            &&& fired ==> next.active == desired && desired != state.active
                && state.pending_since != 0
                && now_ts - state.pending_since >= alarm_wait(desired, on_delay_sec, off_delay_sec)
            &&& !fired ==> next.active == state.active
        }),
{
}

/// A condition that keeps disagreeing with the state switches the rule:
/// the first evaluation at `t1` (not 0) starts the wait, and an evaluation
/// at `t2`, the delay or more later, switches the rule.
pub proof fn lemma_alarm_switches_once_delay_has_passed(
    state: AlarmRuntime,
    desired: bool,
    t1: i64,
    t2: i64,
    on_delay_sec: i32,
    off_delay_sec: i32,
)
    requires
        desired != state.active,
        state.pending_since == 0,
        t1 != 0,
        t2 - t1 >= alarm_wait(desired, on_delay_sec, off_delay_sec),
    ensures
        ({
            let s1 = debounce_spec(state, desired, t1, on_delay_sec, off_delay_sec);
            let s2 = debounce_spec(s1.0, desired, t2, on_delay_sec, off_delay_sec);
            &&& !s1.1
            &&& s2.1
            &&& s2.0 == AlarmRuntime { active: desired, pending_since: 0 }
        }),
{
}

/// A condition that agrees with the state again before the delay ends
/// cancels the pending switch.
pub proof fn lemma_alarm_agreement_cancels_pending(
    state: AlarmRuntime,
    now_ts: i64,
    on_delay_sec: i32,
    off_delay_sec: i32,
)
    ensures
        debounce_spec(state, state.active, now_ts, on_delay_sec, off_delay_sec)
            == (AlarmRuntime { active: state.active, pending_since: 0 }, false),
{
}

/// Where one alarm switch may be announced, and for which switches.
#[derive(Clone, Debug)]
pub struct AlarmNotifyRoute {
    pub chat_id: String,
    pub on_on: bool,
    pub on_off: bool,
    pub thr_main: bool,
    pub thr_lvl1: bool,
}

/// Whether a rule's comparison kind is a level-1 one: it ends in `_1`.
pub open spec fn level1_kind(kind: Seq<char>) -> bool {
    kind.len() >= 2 && kind[kind.len() - 2] == '_' && kind[kind.len() - 1] == '1'
}

/// Whether the comparison kind `kind` of a rule ends in `_1`.
pub fn is_level1_kind(kind: &str) -> (r: bool)
    ensures
        r == level1_kind(kind@),
{
    let n = kind.unicode_len();
    if n < 2 {
        return false;
    }
    kind.get_char(n - 2) == '_' && kind.get_char(n - 1) == '1'
}

/// Whether `route` announces a switch on (`event_on`) or off of a rule of
/// level 1 (`level1`) or of the main level.
pub open spec fn route_wants_spec(route: AlarmNotifyRoute, event_on: bool, level1: bool) -> bool {
    &&& (if event_on { route.on_on } else { route.on_off })
    &&& (if level1 { route.thr_lvl1 } else { route.thr_main })
    &&& trim_spec(route.chat_id@).len() > 0
}

/// Whether `route` takes the announcement: it subscribes to this kind of
/// switch and this level, and its chat id is not blank.
pub fn route_wants(route: &AlarmNotifyRoute, event_on: bool, level1: bool) -> (r: bool)
    ensures
        r == route_wants_spec(*route, event_on, level1),
{
    let event_ok = if event_on { route.on_on } else { route.on_off };
    let threshold_ok = if level1 { route.thr_lvl1 } else { route.thr_main };
    if !(event_ok && threshold_ok) {
        return false;
    }
    let t = trim_str(route.chat_id.as_str());
    t.as_str().unicode_len() > 0
}

/// The chat ids, in route order, of the routes among `routes` that take
/// a switch on (`event_on`) or off of a rule of level 1 (`level1`) or of
/// the main level.
pub open spec fn announce_spec(routes: Seq<AlarmNotifyRoute>, event_on: bool, level1: bool) -> Seq<Seq<char>>
    decreases routes.len(),
{
    if routes.len() == 0 {
        Seq::empty()
    } else {
        let prev = announce_spec(routes.drop_last(), event_on, level1);
        if route_wants_spec(routes.last(), event_on, level1) {
            prev.push(routes.last().chat_id@)
        } else {
            prev
        }
    }
}

/// The chat ids, in route order, that announce a switch on (`event_on`)
/// or off of a rule of comparison kind `kind`.
pub fn announce_targets(routes: &Vec<AlarmNotifyRoute>, event_on: bool, kind: &str) -> (r: Vec<String>)
    ensures
        r@.len() == announce_spec(routes@, event_on, level1_kind(kind@)).len(),
        forall|k: int| 0 <= k < r@.len() ==> #[trigger] r@[k]@ == announce_spec(routes@, event_on, level1_kind(kind@))[k],
{
    let level1 = is_level1_kind(kind);
    let mut out: Vec<String> = Vec::new();
    let mut i: usize = 0;
    while i < routes.len()
        invariant
            i <= routes@.len(),
            level1 == level1_kind(kind@),
            out@.len() == announce_spec(routes@.take(i as int), event_on, level1).len(),
            forall|k: int| 0 <= k < out@.len() ==> #[trigger] out@[k]@ == announce_spec(routes@.take(i as int), event_on, level1)[k],
        decreases routes@.len() - i,
    {
        assert(routes@.take(i as int + 1).drop_last() =~= routes@.take(i as int));
        if route_wants(&routes[i], event_on, level1) {
            let c = routes[i].chat_id.clone();
            out.push(c);
        }
        i = i + 1;
    }
    assert(routes@.take(routes@.len() as int) =~= routes@);
    out
}

} // verus!
