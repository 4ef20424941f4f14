//! The aggregation builders.
//!
//! Three stacked levels assemble flat record batches into nested view
//! models: time entries receive their tickets, activities receive their
//! times together with rollups (total duration, deduplicated ticket
//! set), and invoices receive their activities, sorted by number, and
//! their recipient.  Each level keeps the parent batch's order and
//! count: an unmatched parent gets an empty group, never none.

use vstd::prelude::*;

use crate::group::{group_by_parent, lemma_matching_indices, matching_indices, to_int_seq};
use crate::error::AggregateError;
use crate::model::{Invoice, InvoiceActivity, Recipient, Ticket, TicketTime, Time};
use crate::order::{insert_ticket, ticket_keys, tickets_sorted};

verus! {

/// A time entry together with the tickets logged against it, in load
/// order, not deduplicated.
#[derive(Debug, PartialEq, Eq)]
pub struct TimeWithTickets {
    pub time_id: i32,
    pub time_start: crate::date::DateTime,
    pub time_end: crate::date::DateTime,
    pub time_desc: String,
    pub time_dur: Option<u64>,
    pub act_num: Option<i32>,
    pub tickets: Vec<Ticket>,
}

/// The association records that reference time entry `k`.
pub open spec fn has_time_id(k: i32) -> spec_fn(TicketTime) -> bool {
    |tt: TicketTime| tt.time_id == k
}

/// The tickets of the association records that reference time entry
/// `time_id`, in load order.
pub open spec fn time_tickets(time_id: i32, tts: Seq<TicketTime>) -> Seq<Ticket> {
    tts.filter(has_time_id(time_id)).map_values(|tt: TicketTime| tt.spec_ticket())
}

/// `w` is the time entry `t` with exactly its tickets attached.
pub open spec fn time_matches(w: TimeWithTickets, t: Time, tts: Seq<TicketTime>) -> bool {
    &&& w.time_id == t.time_id
    &&& w.time_start == t.time_start
    &&& w.time_end == t.time_end
    &&& w.time_desc == t.time_desc
    &&& w.time_dur == t.time_dur
    &&& w.act_num == t.act_num
    &&& w.tickets@ == time_tickets(t.time_id, tts)
}

/// Selecting the children at the matching positions is the same as
/// filtering the children by the key.
pub proof fn lemma_matching_select<C>(s: Seq<C>, keys: Seq<Option<i32>>, pred: spec_fn(C) -> bool, k: i32)
    requires
        keys.len() == s.len(),
        forall|i: int| 0 <= i < s.len() ==> ((#[trigger] keys[i]) == Some(k) <==> pred(s[i])),
    ensures
        matching_indices(k, keys).map_values(|j: int| s[j]) == s.filter(pred),
    decreases s.len(),
{
    reveal(Seq::filter);
    if s.len() == 0 {
        assert(matching_indices(k, keys).map_values(|j: int| s[j]) =~= s.filter(pred));
    } else {
        let sd = s.drop_last();
        lemma_matching_select(sd, keys.drop_last(), pred, k);
        let pre = matching_indices(k, keys.drop_last());
        lemma_matching_indices(k, keys.drop_last());
        let m1 = pre.map_values(|j: int| s[j]);
        let m2 = pre.map_values(|j: int| sd[j]);
        assert forall|q: int| 0 <= q < pre.len() implies #[trigger] m1[q] == m2[q] by {
            assert(0 <= pre[q] < keys.drop_last().len());
            assert(sd[pre[q]] == s[pre[q]]);
        }
        assert(m1 =~= m2);
        if keys.last() == Some(k) {
            assert(matching_indices(k, keys) == pre.push(keys.len() - 1));
            assert(pre.push(keys.len() - 1).map_values(|j: int| s[j]) =~= pre.map_values(
                |j: int| s[j],
            ).push(s.last()));
            assert(s.filter(pred) == sd.filter(pred).push(s.last()));
        } else {
            assert(s.filter(pred) == sd.filter(pred));
        }
    }
}

/// Attaches to each time entry the tickets whose association records
/// reference it: one output per input, in input order, tickets in load
/// order.
pub fn attach_tickets(times: &Vec<Time>, ticket_times: &Vec<TicketTime>) -> (r: Vec<
    TimeWithTickets,
>)
    ensures
        r@.len() == times@.len(),
        forall|p: int|
            0 <= p < times@.len() ==> time_matches(#[trigger] r@[p], times@[p], ticket_times@),
{
    let mut parent_keys: Vec<i32> = Vec::new();
    let mut i: usize = 0;
    while i < times.len()
        invariant
            0 <= i <= times@.len(),
            parent_keys@ =~= times@.take(i as int).map_values(|t: Time| t.time_id),
        decreases times@.len() - i,
    {
        parent_keys.push(times[i].time_id);
        proof {
            assert(times@.take(i + 1).drop_last() =~= times@.take(i as int));
            assert(times@.take(i + 1).map_values(|t: Time| t.time_id) =~= times@.take(
                i as int,
            ).map_values(|t: Time| t.time_id).push(times@[i as int].time_id));
        }
        i = i + 1;
    }
    let mut child_keys: Vec<Option<i32>> = Vec::new();
    let mut j: usize = 0;
    while j < ticket_times.len()
        invariant
            0 <= j <= ticket_times@.len(),
            child_keys@.len() == j,
            forall|q: int| 0 <= q < j ==> child_keys@[q] == Some(ticket_times@[q].time_id),
        decreases ticket_times@.len() - j,
    {
        child_keys.push(Some(ticket_times[j].time_id));
        j = j + 1;
    }
    proof {
        assert(times@.take(times@.len() as int) =~= times@);
        assert(parent_keys@ =~= times@.map_values(|t: Time| t.time_id));
        assert(child_keys@ =~= ticket_times@.map_values(|tt: TicketTime| Some(tt.time_id)));
    }
    let groups = group_by_parent(&parent_keys, &child_keys);
    let mut r: Vec<TimeWithTickets> = Vec::new();
    let mut p: usize = 0;
    while p < times.len()
        invariant
            0 <= p <= times@.len(),
            times@.len() == groups@.len(),
            parent_keys@ == times@.map_values(|t: Time| t.time_id),
            child_keys@ == ticket_times@.map_values(|tt: TicketTime| Some(tt.time_id)),
            forall|q: int|
                0 <= q < groups@.len() ==> #[trigger] to_int_seq(groups@[q]@) == matching_indices(
                    parent_keys@[q],
                    child_keys@,
                ),
            r@.len() == p,
            forall|q: int|
                0 <= q < p ==> time_matches(#[trigger] r@[q], times@[q], ticket_times@),
        decreases times@.len() - p,
    {
        let key = times[p].time_id;
        let g = &groups[p];
        let ghost matching = matching_indices(key, child_keys@);
        proof {
            lemma_matching_indices(key, child_keys@);
        }
        let mut tks: Vec<Ticket> = Vec::new();
        let mut q: usize = 0;
        while q < g.len()
            invariant
                0 <= q <= g@.len(),
                to_int_seq(g@) == matching,
                matching == matching_indices(key, child_keys@),
                child_keys@ == ticket_times@.map_values(|tt: TicketTime| Some(tt.time_id)),
                tks@.len() == q,
                forall|x: int|
                    0 <= x < matching.len() ==> 0 <= #[trigger] matching[x] < ticket_times@.len(),
                forall|x: int|
                    0 <= x < q ==> #[trigger] tks@[x] == ticket_times@[matching[x]].spec_ticket(),
            decreases g@.len() - q,
        {
            let jx = g[q];
            proof {
                assert(matching[q as int] == g@[q as int] as int);
            }
            tks.push(ticket_times[jx].ticket());
            q = q + 1;
        }
        let t = &times[p];
        let w = TimeWithTickets {
            time_id: t.time_id,
            time_start: t.time_start,
            time_end: t.time_end,
            time_desc: t.time_desc.clone(),
            time_dur: t.time_dur,
            act_num: t.act_num,
            tickets: tks,
        };
        proof {
            lemma_matching_select(ticket_times@, child_keys@, has_time_id(key), key);
            let sel = matching.map_values(|j: int| ticket_times@[j]);
            let target = time_tickets(key, ticket_times@);
            assert(sel == ticket_times@.filter(has_time_id(key)));
            assert(target.len() == sel.len());
            assert forall|x: int| 0 <= x < matching.len() implies #[trigger] w.tickets@[x]
                == target[x] by {
                assert(sel[x] == ticket_times@[matching[x]]);
                assert(target[x] == sel[x].spec_ticket());
            }
            assert(w.tickets@ =~= target);
        }
        r.push(w);
        p = p + 1;
    }
    r
}

/// An activity together with its rollups: the deduplicated, ascending
/// set of tickets referenced by its time entries, and the total billed
/// duration.
#[derive(Debug, PartialEq, Eq)]
pub struct ActivityWithTickets {
    pub activity: InvoiceActivity,
    pub tickets: Vec<Ticket>,
    pub duration: u64,
}

/// The time entries billed against activity `n`.
pub open spec fn has_act_num(n: i32) -> spec_fn(Time) -> bool {
    |t: Time| t.act_num == Some(n)
}

/// The assembled entries billed against activity `n`.
pub open spec fn has_act_num_w(n: i32) -> spec_fn(TimeWithTickets) -> bool {
    |w: TimeWithTickets| w.act_num == Some(n)
}

/// The time entries of activity `n`, in load order.
pub open spec fn activity_times(n: i32, ts: Seq<Time>) -> Seq<Time> {
    ts.filter(has_act_num(n))
}

/// An absent duration counts as zero, never as an error.
pub open spec fn dur_or_zero(d: Option<u64>) -> int {
    match d {
        Some(x) => x as int,
        None => 0,
    }
}

/// The sum of the durations of a group of time entries.
pub open spec fn total_duration(ts: Seq<Time>) -> int
    decreases ts.len(),
{
    if ts.len() == 0 {
        0
    } else {
        total_duration(ts.drop_last()) + dur_or_zero(ts.last().time_dur)
    }
}

/// All tickets referenced by a group of time entries, group order, with
/// repetitions.
pub open spec fn tickets_of_times(ts: Seq<Time>, tts: Seq<TicketTime>) -> Seq<Ticket>
    decreases ts.len(),
{
    if ts.len() == 0 {
        Seq::empty()
    } else {
        tickets_of_times(ts.drop_last(), tts) + time_tickets(ts.last().time_id, tts)
    }
}

/// The sum of the durations of assembled entries.
pub open spec fn w_total(ws: Seq<TimeWithTickets>) -> int
    decreases ws.len(),
{
    if ws.len() == 0 {
        0
    } else {
        w_total(ws.drop_last()) + dur_or_zero(ws.last().time_dur)
    }
}

/// All tickets attached to assembled entries, with repetitions.
pub open spec fn w_tickets(ws: Seq<TimeWithTickets>) -> Seq<Ticket>
    decreases ws.len(),
{
    if ws.len() == 0 {
        Seq::empty()
    } else {
        w_tickets(ws.drop_last()) + ws.last().tickets@
    }
}

/// A sum held in a `u64`: saturated at the top of the range.
pub open spec fn clamp_u64(n: int) -> int {
    if n > u64::MAX {
        u64::MAX as int
    } else {
        n
    }
}

/// `r` is the activity `a` with exactly its rollups: the total duration
/// of its time entries (absent durations count as zero, saturated at
/// `u64::MAX`), and the tickets of those entries, deduplicated by full
/// identity and ascending.
pub open spec fn rollup_matches(
    r: ActivityWithTickets,
    a: InvoiceActivity,
    ts: Seq<Time>,
    tts: Seq<TicketTime>,
) -> bool {
    let g = activity_times(a.act_num, ts);
    let pool = tickets_of_times(g, tts);
    &&& r.activity == a
    &&& r.duration as int == clamp_u64(total_duration(g))
    &&& tickets_sorted(r.tickets@)
    &&& ticket_keys(r.tickets@) == ticket_keys(pool)
    &&& forall|i: int| 0 <= i < r.tickets@.len() ==> pool.contains(#[trigger] r.tickets@[i])
}

/// Filtering assembled entries by activity corresponds, entry by entry,
/// to filtering the raw time entries by activity.
proof fn lemma_groups_correspond(
    ws: Seq<TimeWithTickets>,
    ts: Seq<Time>,
    tts: Seq<TicketTime>,
    n: i32,
)
    requires
        ws.len() == ts.len(),
        forall|i: int| 0 <= i < ts.len() ==> time_matches(#[trigger] ws[i], ts[i], tts),
    ensures
        ws.filter(has_act_num_w(n)).len() == ts.filter(has_act_num(n)).len(),
        forall|i: int|
            0 <= i < ts.filter(has_act_num(n)).len() ==> time_matches(
                #[trigger] ws.filter(has_act_num_w(n))[i],
                ts.filter(has_act_num(n))[i],
                tts,
            ),
    decreases ts.len(),
{
    reveal(Seq::filter);
    if ts.len() > 0 {
        lemma_groups_correspond(ws.drop_last(), ts.drop_last(), tts, n);
        assert(time_matches(ws.last(), ts.last(), tts));
        let fw = ws.filter(has_act_num_w(n));
        let ft = ts.filter(has_act_num(n));
        let fwd = ws.drop_last().filter(has_act_num_w(n));
        let ftd = ts.drop_last().filter(has_act_num(n));
        if has_act_num(n)(ts.last()) {
            assert(fw == fwd.push(ws.last()));
            assert(ft == ftd.push(ts.last()));
        } else {
            assert(fw == fwd);
            assert(ft == ftd);
        }
    }
}

/// Entrywise-corresponding groups have the same total duration and the
/// same pooled tickets.
proof fn lemma_rollup_correspond(fw: Seq<TimeWithTickets>, ft: Seq<Time>, tts: Seq<TicketTime>)
    requires
        fw.len() == ft.len(),
        forall|i: int| 0 <= i < ft.len() ==> time_matches(#[trigger] fw[i], ft[i], tts),
    ensures
        w_total(fw) == total_duration(ft),
        w_tickets(fw) == tickets_of_times(ft, tts),
    decreases ft.len(),
{
    if ft.len() > 0 {
        lemma_rollup_correspond(fw.drop_last(), ft.drop_last(), tts);
        assert(time_matches(fw.last(), ft.last(), tts));
    }
}

/// One step of `w_total` along a prefix.
proof fn lemma_w_total_take(ws: Seq<TimeWithTickets>, q: int)
    requires
        0 <= q < ws.len(),
    ensures
        w_total(ws.take(q + 1)) == w_total(ws.take(q)) + dur_or_zero(ws[q].time_dur),
{
    assert(ws.take(q + 1).drop_last() =~= ws.take(q));
    assert(ws.take(q + 1).last() == ws[q]);
}

/// One step of `w_tickets` along a prefix.
proof fn lemma_w_tickets_take(ws: Seq<TimeWithTickets>, q: int)
    requires
        0 <= q < ws.len(),
    ensures
        w_tickets(ws.take(q + 1)) == w_tickets(ws.take(q)) + ws[q].tickets@,
{
    assert(ws.take(q + 1).drop_last() =~= ws.take(q));
    assert(ws.take(q + 1).last() == ws[q]);
}

/// Ticket identities distribute over concatenation.
proof fn lemma_ticket_keys_concat(a: Seq<Ticket>, b: Seq<Ticket>)
    ensures
        ticket_keys(a + b) == ticket_keys(a).union(ticket_keys(b)),
{
    let f = |t: Ticket| crate::order::ticket_key(t);
    assert forall|k: (Seq<u8>, int)| #[trigger] ticket_keys(a + b).contains(k) implies ticket_keys(
        a,
    ).union(ticket_keys(b)).contains(k) by {
        let m = (a + b).map_values(f);
        let j = choose|j: int| 0 <= j < m.len() && m[j] == k;
        if j < a.len() {
            assert(a.map_values(f)[j] == k);
        } else {
            assert(b.map_values(f)[j - a.len()] == k);
        }
    }
    assert forall|k: (Seq<u8>, int)| #[trigger] ticket_keys(a).union(ticket_keys(b)).contains(
        k,
    ) implies ticket_keys(a + b).contains(k) by {
        if ticket_keys(a).contains(k) {
            let m = a.map_values(f);
            let j = choose|j: int| 0 <= j < m.len() && m[j] == k;
            assert((a + b).map_values(f)[j] == k);
        } else {
            let m = b.map_values(f);
            let j = choose|j: int| 0 <= j < m.len() && m[j] == k;
            assert((a + b).map_values(f)[j + a.len()] == k);
        }
    }
    assert(ticket_keys(a + b) =~= ticket_keys(a).union(ticket_keys(b)));
}

/// Extending a prefix by one ticket adds exactly its identity.
proof fn lemma_ticket_keys_take_step(s: Seq<Ticket>, i: int)
    requires
        0 <= i < s.len(),
    ensures
        ticket_keys(s.take(i + 1)) == ticket_keys(s.take(i)).insert(crate::order::ticket_key(s[i])),
{
    let f = |t: Ticket| crate::order::ticket_key(t);
    assert(s.take(i + 1) =~= s.take(i) + seq![s[i]]);
    lemma_ticket_keys_concat(s.take(i), seq![s[i]]);
    assert(ticket_keys(seq![s[i]]) =~= Set::empty().insert(f(s[i]))) by {
        assert(seq![s[i]].map_values(f)[0] == f(s[i]));
        assert forall|k: (Seq<u8>, int)| #[trigger] ticket_keys(seq![s[i]]).contains(k) implies k
            == f(s[i]) by {
            let m = seq![s[i]].map_values(f);
            let j = choose|j: int| 0 <= j < m.len() && m[j] == k;
            assert(j == 0);
        }
    }
    assert(ticket_keys(s.take(i)).union(Set::empty().insert(f(s[i]))) =~= ticket_keys(
        s.take(i),
    ).insert(f(s[i])));
}

/// Attaches to each activity its time entries' rollups: one output per
/// activity, in activity order, each holding the activity itself, the
/// saturated total duration of its entries, and their tickets
/// deduplicated and sorted ascending.
pub fn build_activity_rollups(
    activities: &Vec<InvoiceActivity>,
    times: &Vec<Time>,
    ticket_times: &Vec<TicketTime>,
) -> (r: Vec<ActivityWithTickets>)
    ensures
        r@.len() == activities@.len(),
        forall|p: int|
            0 <= p < activities@.len() ==> rollup_matches(
                #[trigger] r@[p],
                activities@[p],
                times@,
                ticket_times@,
            ),
{
    let ws = attach_tickets(times, ticket_times);
    let mut parent_keys: Vec<i32> = Vec::new();
    let mut i: usize = 0;
    while i < activities.len()
        invariant
            0 <= i <= activities@.len(),
            parent_keys@.len() == i,
            forall|q: int| 0 <= q < i ==> parent_keys@[q] == activities@[q].act_num,
        decreases activities@.len() - i,
    {
        parent_keys.push(activities[i].act_num);
        i = i + 1;
    }
    let mut child_keys: Vec<Option<i32>> = Vec::new();
    let mut j: usize = 0;
    while j < ws.len()
        invariant
            0 <= j <= ws@.len(),
            child_keys@.len() == j,
            forall|q: int| 0 <= q < j ==> child_keys@[q] == ws@[q].act_num,
        decreases ws@.len() - j,
    {
        child_keys.push(ws[j].act_num);
        j = j + 1;
    }
    let groups = group_by_parent(&parent_keys, &child_keys);
    let mut r: Vec<ActivityWithTickets> = Vec::new();
    let mut p: usize = 0;
    while p < activities.len()
        invariant
            0 <= p <= activities@.len(),
            activities@.len() == groups@.len(),
            parent_keys@.len() == activities@.len(),
            forall|q: int| 0 <= q < activities@.len() ==> parent_keys@[q] == activities@[q].act_num,
            child_keys@.len() == ws@.len(),
            forall|q: int| 0 <= q < ws@.len() ==> child_keys@[q] == ws@[q].act_num,
            ws@.len() == times@.len(),
            forall|q: int|
                0 <= q < times@.len() ==> time_matches(#[trigger] ws@[q], times@[q], ticket_times@),
            forall|q: int|
                0 <= q < groups@.len() ==> #[trigger] to_int_seq(groups@[q]@) == matching_indices(
                    parent_keys@[q],
                    child_keys@,
                ),
            r@.len() == p,
            forall|q: int|
                0 <= q < p ==> rollup_matches(#[trigger] r@[q], activities@[q], times@,
                ticket_times@),
        decreases activities@.len() - p,
    {
        let n = activities[p].act_num;
        let g = &groups[p];
        let ghost matching = matching_indices(n, child_keys@);
        let ghost fw = ws@.filter(has_act_num_w(n));
        proof {
            lemma_matching_indices(n, child_keys@);
            lemma_matching_select(ws@, child_keys@, has_act_num_w(n), n);
            assert(matching.map_values(|j2: int| ws@[j2]) == fw);
            assert(fw.len() == matching.len());
            assert(fw.take(0) =~= Seq::empty());
        }
        let mut dur: u64 = 0;
        let mut tks: Vec<Ticket> = Vec::new();
        let mut q: usize = 0;
        while q < g.len()
            invariant
                0 <= q <= g@.len(),
                to_int_seq(g@) == matching,
                matching == matching_indices(n, child_keys@),
                matching.map_values(|j2: int| ws@[j2]) == fw,
                fw.len() == matching.len(),
                child_keys@.len() == ws@.len(),
                forall|x: int|
                    0 <= x < matching.len() ==> 0 <= #[trigger] matching[x] < ws@.len(),
                dur as int == clamp_u64(w_total(fw.take(q as int))),
                tickets_sorted(tks@),
                ticket_keys(tks@) == ticket_keys(w_tickets(fw.take(q as int))),
                forall|x: int|
                    0 <= x < tks@.len() ==> w_tickets(fw.take(q as int)).contains(
                        #[trigger] tks@[x],
                    ),
            decreases g@.len() - q,
        {
            let jx = g[q];
            proof {
                assert(matching[q as int] == g@[q as int] as int);
                assert(fw[q as int] == ws@[jx as int]);
                lemma_w_total_take(fw, q as int);
                lemma_w_tickets_take(fw, q as int);
            }
            let ghost pool_before = w_tickets(fw.take(q as int));
            let ghost pool_after = w_tickets(fw.take(q + 1));
            let w = &ws[jx];
            match w.time_dur {
                Some(d) => {
                    if dur > u64::MAX - d {
                        dur = u64::MAX;
                    } else {
                        dur = dur + d;
                    }
                },
                None => {
                },
            }
            let mut ti: usize = 0;
            while ti < w.tickets.len()
                invariant
                    0 <= ti <= w.tickets@.len(),
                    w == ws@[jx as int],
                    pool_before == w_tickets(fw.take(q as int)),
                    pool_after == pool_before + w.tickets@,
                    tickets_sorted(tks@),
                    ticket_keys(tks@) == ticket_keys(pool_before).union(
                        ticket_keys(w.tickets@.take(ti as int)),
                    ),
                    forall|x: int|
                        0 <= x < tks@.len() ==> pool_before.contains(#[trigger] tks@[x])
                            || w.tickets@.take(ti as int).contains(tks@[x]),
                decreases w.tickets@.len() - ti,
            {
                let ghost tks_before = tks@;
                let t = w.tickets[ti].clone();
                insert_ticket(&mut tks, t);
                proof {
                    lemma_ticket_keys_take_step(w.tickets@, ti as int);
                    assert forall|x: int| 0 <= x < tks@.len() implies pool_before.contains(
                        #[trigger] tks@[x],
                    ) || w.tickets@.take(ti + 1).contains(tks@[x]) by {
                        assert(tks@.contains(tks@[x]));
                        if tks_before.contains(tks@[x]) {
                            let y = choose|y: int|
                                0 <= y < tks_before.len() && tks_before[y] == tks@[x];
                            if w.tickets@.take(ti as int).contains(tks@[x]) {
                                let z = choose|z: int|
                                    0 <= z < ti && w.tickets@.take(ti as int)[z] == tks@[x];
                                assert(w.tickets@.take(ti + 1)[z] == tks@[x]);
                            }
                        } else {
                            assert(tks@[x] == w.tickets@[ti as int]);
                            assert(w.tickets@.take(ti + 1)[ti as int] == tks@[x]);
                        }
                    }
                    assert(ticket_keys(tks@) =~= ticket_keys(pool_before).union(
                        ticket_keys(w.tickets@.take(ti + 1)),
                    ));
                }
                ti = ti + 1;
            }
            proof {
                assert(w.tickets@.take(w.tickets@.len() as int) =~= w.tickets@);
                lemma_ticket_keys_concat(pool_before, w.tickets@);
                assert(ticket_keys(tks@) =~= ticket_keys(pool_after));
                assert forall|x: int| 0 <= x < tks@.len() implies pool_after.contains(
                    #[trigger] tks@[x],
                ) by {
                    if pool_before.contains(tks@[x]) {
                        let y = choose|y: int|
                            0 <= y < pool_before.len() && pool_before[y] == tks@[x];
                        assert(pool_after[y] == tks@[x]);
                    } else {
                        let y = choose|y: int|
                            0 <= y < w.tickets@.len() && w.tickets@[y] == tks@[x];
                        assert(pool_after[pool_before.len() + y] == tks@[x]);
                    }
                }
            }
            q = q + 1;
        }
        proof {
            assert(fw.take(fw.len() as int) =~= fw);
            lemma_groups_correspond(ws@, times@, ticket_times@, n);
            lemma_rollup_correspond(fw, times@.filter(has_act_num(n)), ticket_times@);
        }
        let a = ActivityWithTickets { activity: activities[p].clone(), tickets: tks, duration: dur };
        r.push(a);
        p = p + 1;
    }
    r
}

impl ActivityWithTickets {
    /// A copy, field for field.
    pub fn duplicate(&self) -> (r: Self)
        ensures
            r.activity == self.activity,
            r.duration == self.duration,
            r.tickets@ == self.tickets@,
    {
        let mut tks: Vec<Ticket> = Vec::new();
        let mut i: usize = 0;
        while i < self.tickets.len()
            invariant
                0 <= i <= self.tickets@.len(),
                tks@.len() == i,
                forall|q: int| 0 <= q < i ==> tks@[q] == self.tickets@[q],
            decreases self.tickets@.len() - i,
        {
            tks.push(self.tickets[i].clone());
            i = i + 1;
        }
        proof {
            assert(tks@ =~= self.tickets@);
        }
        ActivityWithTickets {
            activity: self.activity.clone(),
            tickets: tks,
            duration: self.duration,
        }
    }
}

/// An invoice document: the invoice's own fields, its recipient, and
/// its activities with rollups, sorted ascending by activity number.
#[derive(Debug, PartialEq, Eq)]
pub struct InvoiceWithActivities {
    pub inv_num: i32,
    pub inv_month: crate::date::Month,
    pub inv_created: Option<crate::date::Date>,
    pub recipient: Recipient,
    pub activities: Vec<ActivityWithTickets>,
}

/// The activities billed to invoice `n`.
pub open spec fn has_inv_num(n: i32) -> spec_fn(InvoiceActivity) -> bool {
    |a: InvoiceActivity| a.inv_num == n
}

/// The rollups whose activity is billed to invoice `n`.
pub open spec fn has_inv_num_r(n: i32) -> spec_fn(ActivityWithTickets) -> bool {
    |r: ActivityWithTickets| r.activity.inv_num == n
}

/// The activities of invoice `n`, in load order.
pub open spec fn invoice_activities(n: i32, acts: Seq<InvoiceActivity>) -> Seq<InvoiceActivity> {
    acts.filter(has_inv_num(n))
}

/// The bare activity under a rollup.
pub open spec fn activity_of() -> spec_fn(ActivityWithTickets) -> InvoiceActivity {
    |r: ActivityWithTickets| r.activity
}

/// Sorted ascending by activity number.
pub open spec fn sorted_by_number(s: Seq<ActivityWithTickets>) -> bool {
    forall|i: int, j: int|
        0 <= i < j < s.len() ==> s[i].activity.act_num <= s[j].activity.act_num
}

/// `d` is the invoice `inv` with its recipient and exactly its
/// activities' rollups, reordered ascending by activity number.
pub open spec fn document_matches(
    d: InvoiceWithActivities,
    inv: Invoice,
    rec: Recipient,
    acts: Seq<InvoiceActivity>,
    ts: Seq<Time>,
    tts: Seq<TicketTime>,
) -> bool {
    let g = invoice_activities(inv.inv_num, acts);
    &&& d.inv_num == inv.inv_num
    &&& d.inv_month == inv.inv_month
    &&& d.inv_created == inv.inv_created
    &&& d.recipient == rec
    &&& d.activities@.map_values(activity_of()).to_multiset() == g.to_multiset()
    &&& sorted_by_number(d.activities@)
    &&& forall|i: int|
        0 <= i < d.activities@.len() ==> rollup_matches(
            #[trigger] d.activities@[i],
            d.activities@[i].activity,
            ts,
            tts,
        )
}

/// Filtering rollups by invoice corresponds, entry by entry, to
/// filtering the raw activities by invoice.
proof fn lemma_rollup_groups_correspond(
    rs: Seq<ActivityWithTickets>,
    acts: Seq<InvoiceActivity>,
    n: i32,
)
    requires
        rs.len() == acts.len(),
        forall|i: int| 0 <= i < acts.len() ==> (#[trigger] rs[i]).activity == acts[i],
    ensures
        rs.filter(has_inv_num_r(n)).len() == acts.filter(has_inv_num(n)).len(),
        forall|i: int|
            0 <= i < acts.filter(has_inv_num(n)).len() ==> (#[trigger] rs.filter(
                has_inv_num_r(n),
            )[i]).activity == acts.filter(has_inv_num(n))[i],
    decreases acts.len(),
{
    reveal(Seq::filter);
    if acts.len() > 0 {
        lemma_rollup_groups_correspond(rs.drop_last(), acts.drop_last(), n);
        assert(rs.last().activity == acts.last());
        let fr = rs.filter(has_inv_num_r(n));
        let fa = acts.filter(has_inv_num(n));
        let frd = rs.drop_last().filter(has_inv_num_r(n));
        let fad = acts.drop_last().filter(has_inv_num(n));
        if has_inv_num(n)(acts.last()) {
            assert(fr == frd.push(rs.last()));
            assert(fa == fad.push(acts.last()));
        } else {
            assert(fr == frd);
            assert(fa == fad);
        }
    }
}

/// Attaches to each invoice its recipient and its activities' rollups,
/// sorted ascending by activity number: one document per matched
/// invoice, in invoice order — zero, one, or many.
pub fn build_invoice_documents(
    invoices: &Vec<(Invoice, Recipient)>,
    activities: &Vec<InvoiceActivity>,
    times: &Vec<Time>,
    ticket_times: &Vec<TicketTime>,
) -> (r: Vec<InvoiceWithActivities>)
    ensures
        r@.len() == invoices@.len(),
        forall|p: int|
            0 <= p < invoices@.len() ==> document_matches(
                #[trigger] r@[p],
                invoices@[p].0,
                invoices@[p].1,
                activities@,
                times@,
                ticket_times@,
            ),
{
    let rollups = build_activity_rollups(activities, times, ticket_times);
    let mut parent_keys: Vec<i32> = Vec::new();
    let mut i: usize = 0;
    while i < invoices.len()
        invariant
            0 <= i <= invoices@.len(),
            parent_keys@.len() == i,
            forall|q: int| 0 <= q < i ==> parent_keys@[q] == invoices@[q].0.inv_num,
        decreases invoices@.len() - i,
    {
        parent_keys.push(invoices[i].0.inv_num);
        i = i + 1;
    }
    let mut child_keys: Vec<Option<i32>> = Vec::new();
    let mut j: usize = 0;
    while j < rollups.len()
        invariant
            0 <= j <= rollups@.len(),
            child_keys@.len() == j,
            forall|q: int| 0 <= q < j ==> child_keys@[q] == Some(rollups@[q].activity.inv_num),
        decreases rollups@.len() - j,
    {
        child_keys.push(Some(rollups[j].activity.inv_num));
        j = j + 1;
    }
    let groups = group_by_parent(&parent_keys, &child_keys);
    let mut r: Vec<InvoiceWithActivities> = Vec::new();
    let mut p: usize = 0;
    while p < invoices.len()
        invariant
            0 <= p <= invoices@.len(),
            invoices@.len() == groups@.len(),
            parent_keys@.len() == invoices@.len(),
            forall|q: int| 0 <= q < invoices@.len() ==> parent_keys@[q] == invoices@[q].0.inv_num,
            child_keys@.len() == rollups@.len(),
            forall|q: int|
                0 <= q < rollups@.len() ==> child_keys@[q] == Some(rollups@[q].activity.inv_num),
            rollups@.len() == activities@.len(),
            forall|q: int|
                0 <= q < activities@.len() ==> rollup_matches(
                    #[trigger] rollups@[q],
                    activities@[q],
                    times@,
                    ticket_times@,
                ),
            forall|q: int|
                0 <= q < groups@.len() ==> #[trigger] to_int_seq(groups@[q]@) == matching_indices(
                    parent_keys@[q],
                    child_keys@,
                ),
            r@.len() == p,
            forall|q: int|
                0 <= q < p ==> document_matches(#[trigger] r@[q], invoices@[q].0, invoices@[q].1,
                activities@, times@, ticket_times@),
        decreases invoices@.len() - p,
    {
        let n = invoices[p].0.inv_num;
        let g = &groups[p];
        let ghost matching = matching_indices(n, child_keys@);
        let ghost fr = rollups@.filter(has_inv_num_r(n));
        proof {
            lemma_matching_indices(n, child_keys@);
            lemma_matching_select(rollups@, child_keys@, has_inv_num_r(n), n);
            assert(matching.map_values(|j2: int| rollups@[j2]) == fr);
            assert(fr.len() == matching.len());
            assert(fr.take(0) =~= Seq::empty());
            assert(fr.take(0).map_values(activity_of()) =~= Seq::empty());
            broadcast use vstd::seq_lib::group_to_multiset_ensures;

        }
        let mut sorted: Vec<ActivityWithTickets> = Vec::new();
        let mut q: usize = 0;
        while q < g.len()
            invariant
                0 <= q <= g@.len(),
                to_int_seq(g@) == matching,
                matching == matching_indices(n, child_keys@),
                matching.map_values(|j2: int| rollups@[j2]) == fr,
                fr.len() == matching.len(),
                child_keys@.len() == rollups@.len(),
                forall|x: int|
                    0 <= x < matching.len() ==> 0 <= #[trigger] matching[x] < rollups@.len(),
                forall|x: int|
                    0 <= x < rollups@.len() ==> rollup_matches(
                        #[trigger] rollups@[x],
                        rollups@[x].activity,
                        times@,
                        ticket_times@,
                    ),
                sorted_by_number(sorted@),
                sorted@.map_values(activity_of()).to_multiset() == fr.take(
                    q as int,
                ).map_values(activity_of()).to_multiset(),
                forall|x: int|
                    0 <= x < sorted@.len() ==> rollup_matches(
                        #[trigger] sorted@[x],
                        sorted@[x].activity,
                        times@,
                        ticket_times@,
                    ),
            decreases g@.len() - q,
        {
            let jx = g[q];
            proof {
                assert(matching[q as int] == g@[q as int] as int);
                assert(fr[q as int] == rollups@[jx as int]);
            }
            let x = rollups[jx].duplicate();
            let mut pos: usize = 0;
            while pos < sorted.len() && sorted[pos].activity.act_num <= x.activity.act_num
                invariant
                    0 <= pos <= sorted@.len(),
                    forall|y: int|
                        0 <= y < pos ==> (#[trigger] sorted@[y]).activity.act_num
                            <= x.activity.act_num,
                decreases sorted@.len() - pos,
            {
                pos = pos + 1;
            }
            let ghost sorted_before = sorted@;
            sorted.insert(pos, x);
            proof {
                assert(sorted@ == sorted_before.insert(pos as int, x));
                assert forall|a2: int, b2: int|
                    0 <= a2 < b2 < sorted@.len() implies sorted@[a2].activity.act_num
                    <= sorted@[b2].activity.act_num by {
                    if b2 < pos {
                    } else if a2 > pos {
                    } else if a2 < pos && b2 == pos {
                        assert(sorted@[a2] == sorted_before[a2]);
                    } else if a2 == pos && b2 > pos {
                        assert(sorted@[b2] == sorted_before[b2 - 1]);
                        if pos < sorted_before.len() {
                            assert(sorted_before[pos as int].activity.act_num
                                > x.activity.act_num || pos as int >= sorted_before.len());
                        }
                    }
                }
                vstd::seq_lib::to_multiset_insert(
                    sorted_before.map_values(activity_of()),
                    pos as int,
                    x.activity,
                );
                assert(sorted@.map_values(activity_of()) =~= sorted_before.map_values(
                    activity_of(),
                ).insert(pos as int, x.activity));
                assert(fr.take(q + 1) =~= fr.take(q as int).push(fr[q as int]));
                vstd::seq_lib::to_multiset_build(
                    fr.take(q as int).map_values(activity_of()),
                    fr[q as int].activity,
                );
                assert(fr.take(q + 1).map_values(activity_of()) =~= fr.take(q as int).map_values(
                    activity_of(),
                ).push(fr[q as int].activity));
                assert(rollup_matches(x, x.activity, times@, ticket_times@));
            }
            q = q + 1;
        }
        proof {
            assert(fr.take(fr.len() as int) =~= fr);
            lemma_rollup_groups_correspond(rollups@, activities@, n);
            assert(fr.map_values(activity_of()) =~= activities@.filter(has_inv_num(n)));
        }
        let inv = &invoices[p].0;
        let d = InvoiceWithActivities {
            inv_num: inv.inv_num,
            inv_month: inv.inv_month,
            inv_created: inv.inv_created,
            recipient: invoices[p].1.clone(),
            activities: sorted,
        };
        r.push(d);
        p = p + 1;
    }
    r
}

/// Applies the uniqueness contract: a caller that asked for "the one
/// invoice identified by X" must get exactly one document; any other
/// count is an identification failure, never an arbitrary pick.
pub fn require_unique(docs: Vec<InvoiceWithActivities>) -> (r: Result<
    InvoiceWithActivities,
    AggregateError,
>)
    ensures
        docs@.len() == 1 ==> r == Ok::<InvoiceWithActivities, AggregateError>(docs@[0]),
        docs@.len() != 1 ==> r == Err::<InvoiceWithActivities, AggregateError>(
            AggregateError::Identification { matched: docs@.len() as usize },
        ),
{
    let matched = docs.len();
    if matched == 1 {
        let mut docs = docs;
        match docs.pop() {
            Some(d) => Ok(d),
            None => Err(AggregateError::Identification { matched: 0 }),
        }
    } else {
        Err(AggregateError::Identification { matched })
    }
}

/// An activity with zero associated time entries rolls up to a total
/// duration of zero and an empty ticket set.
pub proof fn lemma_empty_activity_rollup(
    r: ActivityWithTickets,
    a: InvoiceActivity,
    ts: Seq<Time>,
    tts: Seq<TicketTime>,
)
    requires
        rollup_matches(r, a, ts, tts),
        forall|i: int| 0 <= i < ts.len() ==> (#[trigger] ts[i]).act_num != Some(a.act_num),
    ensures
        r.duration == 0,
        r.tickets@.len() == 0,
{
    let g = activity_times(a.act_num, ts);
    assert forall|i: int| 0 <= i < ts.len() implies !(has_act_num(a.act_num)(#[trigger] ts[i])) by {
        assert(ts[i].act_num != Some(a.act_num));
    }
    ts.lemma_all_neg_filter_empty(has_act_num(a.act_num));
    assert(g.len() == 0);
    assert(total_duration(g) == 0);
    let pool = tickets_of_times(g, tts);
    assert(pool =~= Seq::<Ticket>::empty());
    if r.tickets@.len() > 0 {
        let f = |t: Ticket| crate::order::ticket_key(t);
        assert(r.tickets@.map_values(f)[0] == f(r.tickets@[0]));
        assert(ticket_keys(r.tickets@).contains(f(r.tickets@[0])));
        let m = pool.map_values(f);
        assert(m.len() == 0);
        assert(!ticket_keys(pool).contains(f(r.tickets@[0])));
    }
}

/// The round trip through a number filter: where the loaded invoices
/// all carry the requested number, and invoice numbers are unique in
/// the fixture, at most one document comes back, and it carries that
/// number.
pub proof fn lemma_filter_round_trip(
    docs: Seq<InvoiceWithActivities>,
    invoices: Seq<(Invoice, Recipient)>,
    n: i32,
)
    requires
        docs.len() == invoices.len(),
        forall|p: int|
            0 <= p < docs.len() ==> (#[trigger] docs[p]).inv_num == invoices[p].0.inv_num,
        forall|p: int| 0 <= p < invoices.len() ==> (#[trigger] invoices[p]).0.inv_num == n,
        forall|p: int, q: int|
            0 <= p < q < invoices.len() ==> invoices[p].0.inv_num != invoices[q].0.inv_num,
    ensures
        docs.len() <= 1,
        forall|p: int| 0 <= p < docs.len() ==> (#[trigger] docs[p]).inv_num == n,
{
    if docs.len() >= 2 {
        assert(invoices[0].0.inv_num == n);
        assert(invoices[1].0.inv_num == n);
    }
}

} // verus!
