//! The flow-query helpers behind the streaming interface: timestamp
//! windows and the filtered historical selection.

use vstd::prelude::*;

verus! {

use crate::filter::{FlowFilterSet, set_matches};
use crate::flow::{Flow, FlowView};

/// A timestamp bound in seconds and nanoseconds.
#[derive(Clone, Copy, PartialEq, Eq, Structural, Debug)]
pub struct TimeBound {
    pub seconds: i64,
    pub nanos: i32,
}

/// Strictly before, comparing seconds then nanoseconds.
pub open spec fn time_lt(a_s: i64, a_ns: i32, b_s: i64, b_ns: i32) -> bool {
    a_s < b_s || (a_s == b_s && a_ns < b_ns)
}

/// A flow's timestamp lies within the optional bounds.
pub open spec fn spec_in_time_range(
    w: FlowView,
    since: Option<TimeBound>,
    until: Option<TimeBound>,
) -> bool {
    &&& match since {
        Some(s) => !time_lt(w.time_s, w.time_ns, s.seconds, s.nanos),
        None => true,
    }
    &&& match until {
        Some(u) => !time_lt(u.seconds, u.nanos, w.time_s, w.time_ns),
        None => true,
    }
}

/// Decide whether a flow's timestamp lies within `since..until`.
pub fn flow_in_time_range(flow: &Flow, since: Option<TimeBound>, until: Option<TimeBound>) -> (r:
    bool)
    ensures
        r == spec_in_time_range(flow@, since, until),
{
    let since_ok = match since {
        Some(s) => !(flow.time_s < s.seconds || (flow.time_s == s.seconds && flow.time_ns
            < s.nanos)),
        None => true,
    };
    if !since_ok {
        return false;
    }
    match until {
        Some(u) => !(u.seconds < flow.time_s || (u.seconds == flow.time_s && u.nanos
            < flow.time_ns)),
        None => true,
    }
}

/// A flow's timestamp lies past the optional `until` bound.
pub open spec fn spec_past_until(w: FlowView, until: Option<TimeBound>) -> bool {
    match until {
        Some(u) => time_lt(u.seconds, u.nanos, w.time_s, w.time_ns),
        None => false,
    }
}

/// Decide whether a flow's timestamp is past the `until` bound, ending a
/// live stream.
pub fn flow_past_until(flow: &Flow, until: Option<TimeBound>) -> (r: bool)
    ensures
        r == spec_past_until(flow@, until),
{
    match until {
        Some(u) => u.seconds < flow.time_s || (u.seconds == flow.time_s && u.nanos < flow.time_ns),
        None => false,
    }
}

/// A flow passes a historical query: in the time window, and through the
/// filters unless none are configured.
pub open spec fn spec_query_keeps(
    w: FlowView,
    since: Option<TimeBound>,
    until: Option<TimeBound>,
    filters: crate::filter::FlowFilterSetView,
    filters_empty: bool,
) -> bool {
    spec_in_time_range(w, since, until) && (filters_empty || set_matches(filters, w))
}

/// Select the flows of a historical window: time-filtered, then put
/// through the filter set as live flows would be.
pub fn select_historical(
    flows: Vec<Flow>,
    since: Option<TimeBound>,
    until: Option<TimeBound>,
    filters: &FlowFilterSet,
) -> (r: Vec<Flow>)
    ensures
        r@ == flows@.filter(
            |f: Flow|
                spec_query_keeps(
                    f@,
                    since,
                    until,
                    filters@,
                    filters@.whitelist.len() == 0 && filters@.blacklist.len() == 0,
                ),
        ),
{
    let ghost pred = |f: Flow|
        spec_query_keeps(
            f@,
            since,
            until,
            filters@,
            filters@.whitelist.len() == 0 && filters@.blacklist.len() == 0,
        );
    let empty = filters.is_empty();
    let mut rest = flows;
    let n = rest.len();
    let ghost all = rest@;
    let mut out: Vec<Flow> = Vec::new();
    let mut consumed: usize = 0;
    proof {
        reveal(Seq::filter);
        assert(all.take(0) =~= Seq::<Flow>::empty());
        assert(all.skip(0) =~= all);
    }
    while rest.len() > 0
        invariant
            consumed <= n,
            n == all.len(),
            rest@ == all.skip(consumed as int),
            empty == (filters@.whitelist.len() == 0 && filters@.blacklist.len() == 0),
            out@ == all.take(consumed as int).filter(pred),
            pred == (|f: Flow|
                spec_query_keeps(
                    f@,
                    since,
                    until,
                    filters@,
                    filters@.whitelist.len() == 0 && filters@.blacklist.len() == 0,
                )),
        decreases rest@.len(),
    {
        proof {
            reveal(Seq::filter);
            assert(all.skip(consumed as int).len() > 0);
            assert(consumed < all.len());
            assert(all.skip(consumed as int)[0] == all[consumed as int]);
            assert(all.take(consumed as int + 1).drop_last() =~= all.take(consumed as int));
            assert(all.take(consumed as int + 1).last() == all[consumed as int]);
        }
        let f = rest.remove(0);
        proof {
            assert(rest@ =~= all.skip(consumed as int + 1));
            assert(f == all[consumed as int]);
        }
        let keep_time = flow_in_time_range(&f, since, until);
        let keep = keep_time && (empty || filters.matches(&f));
        if keep {
            proof {
                assert(pred(all[consumed as int]));
            }
            out.push(f);
            proof {
                assert(out@ =~= all.take(consumed as int + 1).filter(pred));
            }
        } else {
            proof {
                assert(!pred(all[consumed as int]));
                assert(out@ =~= all.take(consumed as int + 1).filter(pred));
            }
        }
        consumed = consumed + 1;
    }
    proof {
        assert(all.skip(consumed as int).len() == 0);
        assert(consumed == all.len());
        assert(all.take(consumed as int) =~= all);
    }
    out
}

} // verus!
