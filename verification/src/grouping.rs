//! Which transfers serve a chosen set of values: neighbours go into one read, or into one
//! write, as long as the gap between them stays small and the transfer stays within what one
//! call may carry.
use vstd::prelude::*;
use crate::device::ValueParam;

verus! {

/// One transfer, a read or a write: `count` addresses from `start` on. It serves the chosen
/// values at positions `first` to `last` of the selection.
#[derive(Clone, Copy, Debug, PartialEq, Eq, Structural)]
pub struct Span {
    pub start: u16,
    pub count: u16,
    pub first: usize,
    pub last: usize,
}

/// The values are in address order, none runs into the next, none reaches beyond the last
/// address.
pub open spec fn in_address_order(ds: Seq<ValueParam>) -> bool {
    &&& forall|i: int, j: int|
        0 <= i < j < ds.len() ==> #[trigger] ds[i].end() <= (#[trigger] ds[j]).addr
    &&& forall|i: int| 0 <= i < ds.len() ==> #[trigger] ds[i].end() <= 0x1_0000
}

/// A selection names values by their index, each at most once, in ascending order.
pub open spec fn is_selection(ds: Seq<ValueParam>, sel: Seq<usize>) -> bool {
    &&& forall|p: int| 0 <= p < sel.len() ==> #[trigger] sel[p] < ds.len()
    &&& forall|p: int, q: int| 0 <= p < q < sel.len() ==> #[trigger] sel[p] < #[trigger] sel[q]
}

/// The chosen value at position `p` of the selection.
pub open spec fn chosen(ds: Seq<ValueParam>, sel: Seq<usize>, p: int) -> ValueParam {
    ds[sel[p] as int]
}

/// The transfer begins where its first value begins and ends where its last value ends,
/// carries no more than one call may, and no gap inside it is wider than allowed.
pub open spec fn fitting(
    ds: Seq<ValueParam>,
    sel: Seq<usize>,
    max_gap: u16,
    max_count: u16,
    r: Span,
) -> bool {
    &&& r.first <= r.last < sel.len()
    &&& r.start == chosen(ds, sel, r.first as int).addr
    &&& r.start + r.count == chosen(ds, sel, r.last as int).end()
    &&& 1 <= r.count <= max_count
    &&& forall|p: int|
        r.first <= p < r.last ==> (#[trigger] chosen(ds, sel, p + 1)).addr - chosen(
            ds,
            sel,
            p,
        ).end() <= max_gap
}

/// The value that opens the next transfer could not have joined this one: the gap before
/// it is too wide, or the transfer would grow beyond what one call may carry.
pub open spec fn forced_apart(
    ds: Seq<ValueParam>,
    sel: Seq<usize>,
    max_gap: u16,
    max_count: u16,
    r: Span,
    next: Span,
) -> bool {
    let opener = chosen(ds, sel, next.first as int);
    ||| opener.addr - chosen(ds, sel, r.last as int).end() > max_gap
    ||| opener.end() - r.start > max_count
}

/// The transfers serve the whole selection in order, each value in exactly one of them, and
/// no two neighbours among them could have been one.
pub open spec fn is_plan(
    ds: Seq<ValueParam>,
    sel: Seq<usize>,
    max_gap: u16,
    max_count: u16,
    ranges: Seq<Span>,
) -> bool {
    &&& forall|k: int|
        0 <= k < ranges.len() ==> fitting(ds, sel, max_gap, max_count, #[trigger] ranges[k])
    &&& sel.len() == 0 ==> ranges.len() == 0
    &&& sel.len() > 0 ==> ranges.len() > 0 && ranges[0].first == 0 && ranges[ranges.len() - 1].last
        == sel.len() - 1
    &&& forall|k: int, m: int|
        0 <= k < ranges.len() && m == k + 1 && m < ranges.len() ==> (#[trigger] ranges[m]).first
            == (#[trigger] ranges[k]).last + 1
    &&& forall|k: int, m: int|
        0 <= k < ranges.len() && m == k + 1 && m < ranges.len() ==> forced_apart(
            ds,
            sel,
            max_gap,
            max_count,
            #[trigger] ranges[k],
            #[trigger] ranges[m],
        )
}

/// The transfers serve the selection up to position `next`, each value in exactly one of
/// them, and no two neighbours among them could have been one.
pub open spec fn chained(
    ds: Seq<ValueParam>,
    sel: Seq<usize>,
    max_gap: u16,
    max_count: u16,
    ranges: Seq<Span>,
    next: int,
) -> bool {
    &&& forall|k: int|
        0 <= k < ranges.len() ==> fitting(ds, sel, max_gap, max_count, #[trigger] ranges[k])
    &&& ranges.len() == 0 ==> next == 0
    &&& ranges.len() > 0 ==> ranges[0].first == 0 && ranges[ranges.len() - 1].last + 1 == next
    &&& forall|k: int, m: int|
        0 <= k < ranges.len() && m == k + 1 && m < ranges.len() ==> (#[trigger] ranges[m]).first
            == (#[trigger] ranges[k]).last + 1
    &&& forall|k: int, m: int|
        0 <= k < ranges.len() && m == k + 1 && m < ranges.len() ==> forced_apart(
            ds,
            sel,
            max_gap,
            max_count,
            #[trigger] ranges[k],
            #[trigger] ranges[m],
        )
}

/// A chain of transfers grows by the one that was just closed.
proof fn lemma_chain_grows(
    ds: Seq<ValueParam>,
    sel: Seq<usize>,
    max_gap: u16,
    max_count: u16,
    before: Seq<Span>,
    closed: Span,
)
    requires
        chained(ds, sel, max_gap, max_count, before, closed.first as int),
        fitting(ds, sel, max_gap, max_count, closed),
        before.len() > 0 ==> forced_apart(
            ds,
            sel,
            max_gap,
            max_count,
            before[before.len() - 1],
            closed,
        ),
    ensures
        chained(ds, sel, max_gap, max_count, before.push(closed), closed.last + 1),
{
    let after = before.push(closed);
    assert forall|k: int| 0 <= k < after.len() implies fitting(
        ds,
        sel,
        max_gap,
        max_count,
        #[trigger] after[k],
    ) by {
        if k < before.len() {
            assert(after[k] == before[k]);
        }
    }
    assert forall|k: int, m: int|
        0 <= k < after.len() && m == k + 1 && m < after.len() implies (#[trigger] after[m]).first
        == (#[trigger] after[k]).last + 1 by {
        assert(after[k] == before[k]);
        if m < before.len() {
            assert(after[m] == before[m]);
        }
    }
    assert forall|k: int, m: int|
        0 <= k < after.len() && m == k + 1 && m < after.len() implies forced_apart(
        ds,
        sel,
        max_gap,
        max_count,
        #[trigger] after[k],
        #[trigger] after[m],
    ) by {
        assert(after[k] == before[k]);
        if m < before.len() {
            assert(after[m] == before[m]);
        }
    }
    if before.len() > 0 {
        assert(after[0] == before[0]);
    }
}

/// Plans the transfers for a selection of the values of one memory space.
pub fn plan(ds: &Vec<ValueParam>, sel: &Vec<usize>, max_gap: u16, max_count: u16) -> (ranges: Vec<
    Span,
>)
    requires
        in_address_order(ds@),
        is_selection(ds@, sel@),
        max_count >= 2,
    ensures
        is_plan(ds@, sel@, max_gap, max_count, ranges@),
{
    let mut ranges: Vec<Span> = Vec::new();
    if sel.len() == 0 {
        return ranges;
    }
    let opener = &ds[sel[0]];
    let mut first: usize = 0;
    let mut p: usize = 0;
    let mut start: u16 = opener.addr;
    let mut end: u32 = opener.addr as u32 + opener.value.words() as u32;
    while p + 1 < sel.len()
        invariant
            in_address_order(ds@),
            is_selection(ds@, sel@),
            max_count >= 2,
            first <= p < sel.len(),
            start == chosen(ds@, sel@, first as int).addr,
            end == chosen(ds@, sel@, p as int).end(),
            1 <= end - start <= max_count,
            forall|q: int|
                first <= q < p ==> (#[trigger] chosen(ds@, sel@, q + 1)).addr - chosen(
                    ds@,
                    sel@,
                    q,
                ).end() <= max_gap,
            chained(ds@, sel@, max_gap, max_count, ranges@, first as int),
            ranges@.len() > 0 ==> {
                let closed = ranges@[ranges@.len() - 1];
                let opener = chosen(ds@, sel@, first as int);
                ||| opener.addr - chosen(ds@, sel@, closed.last as int).end() > max_gap
                ||| opener.end() - closed.start > max_count
            },
        decreases sel.len() - p,
    {
        let next = &ds[sel[p + 1]];
        let next_end: u32 = next.addr as u32 + next.value.words() as u32;
        proof {
            assert(sel@[p as int] < sel@[p + 1]);
            assert(chosen(ds@, sel@, p as int).end() <= chosen(ds@, sel@, p + 1).addr);
            assert(chosen(ds@, sel@, p + 1).end() <= 0x1_0000);
        }
        let gap: u32 = next.addr as u32 - end;
        if gap <= max_gap as u32 && next_end - start as u32 <= max_count as u32 {
            end = next_end;
        } else {
            let closed = Span { start, count: (end - start as u32) as u16, first, last: p };
            proof {
                lemma_chain_grows(ds@, sel@, max_gap, max_count, ranges@, closed);
            }
            ranges.push(closed);
            first = p + 1;
            start = next.addr;
            end = next_end;
        }
        p = p + 1;
    }
    let closed = Span { start, count: (end - start as u32) as u16, first, last: p };
    proof {
        lemma_chain_grows(ds@, sel@, max_gap, max_count, ranges@, closed);
    }
    ranges.push(closed);
    ranges
}

/// The index of the transfer that serves position `p` of the selection.
pub open spec fn serving(ranges: Seq<Span>, p: int) -> int
    decreases ranges.len(),
{
    if ranges.len() <= 1 || ranges[ranges.len() - 1].first <= p {
        ranges.len() - 1
    } else {
        serving(ranges.drop_last(), p)
    }
}

/// Every chosen value lies within one of the planned transfers, and within no other: they
/// cover exactly the chosen addresses, from the first value of each transfer to its last.
pub proof fn lemma_plan_covers(
    ds: Seq<ValueParam>,
    sel: Seq<usize>,
    max_gap: u16,
    max_count: u16,
    ranges: Seq<Span>,
    p: int,
)
    requires
        in_address_order(ds),
        is_selection(ds, sel),
        is_plan(ds, sel, max_gap, max_count, ranges),
        0 <= p < sel.len(),
    ensures
        0 <= serving(ranges, p) < ranges.len(),
        ranges[serving(ranges, p)].first <= p <= ranges[serving(ranges, p)].last,
        ranges[serving(ranges, p)].start <= chosen(ds, sel, p).addr,
        chosen(ds, sel, p).end() <= ranges[serving(ranges, p)].start + ranges[serving(
            ranges,
            p,
        )].count,
        forall|k: int|
            0 <= k < ranges.len() && (#[trigger] ranges[k]).first <= p <= ranges[k].last ==> k
                == serving(ranges, p),
{
    lemma_serving(ranges, p, ranges.len() as int);
    let k = serving(ranges, p);
    let r = ranges[k];
    assert(fitting(ds, sel, max_gap, max_count, r));
    if r.first < p {
        assert(sel[r.first as int] < sel[p]);
        assert(chosen(ds, sel, r.first as int).end() <= chosen(ds, sel, p).addr);
    }
    if p < r.last {
        assert(sel[p] < sel[r.last as int]);
        assert(chosen(ds, sel, p).end() <= chosen(ds, sel, r.last as int).addr);
    }
    assert forall|j: int| 0 <= j < ranges.len() && (#[trigger] ranges[j]).first <= p
        <= ranges[j].last implies j == k by {
        if j < k {
            lemma_in_order(ranges, j, k);
        } else if k < j {
            lemma_in_order(ranges, k, j);
        }
    }
}

/// The transfers follow one another: each begins behind the end of every earlier one.
pub open spec fn consecutive(ranges: Seq<Span>) -> bool {
    &&& forall|k: int| 0 <= k < ranges.len() ==> (#[trigger] ranges[k]).first <= ranges[k].last
    &&& forall|k: int, m: int|
        0 <= k < ranges.len() && m == k + 1 && m < ranges.len() ==> (#[trigger] ranges[m]).first
            == (#[trigger] ranges[k]).last + 1
}

proof fn lemma_in_order(ranges: Seq<Span>, j: int, k: int)
    requires
        consecutive(ranges),
        0 <= j < k < ranges.len(),
    ensures
        ranges[j].last < ranges[k].first,
    decreases k - j,
{
    if j + 1 < k {
        lemma_in_order(ranges, j, k - 1);
        assert(ranges[k].first == ranges[k - 1].last + 1);
    } else {
        assert(ranges[k].first == ranges[j].last + 1);
    }
}

proof fn lemma_serving(ranges: Seq<Span>, p: int, n: int)
    requires
        consecutive(ranges),
        ranges.len() > 0,
        ranges[0].first == 0,
        0 <= p <= ranges[ranges.len() - 1].last,
        n == ranges.len(),
    ensures
        0 <= serving(ranges, p) < ranges.len(),
        ranges[serving(ranges, p)].first <= p <= ranges[serving(ranges, p)].last,
    decreases n,
{
    if ranges.len() <= 1 || ranges[ranges.len() - 1].first <= p {
    } else {
        let shorter = ranges.drop_last();
        assert(ranges[ranges.len() - 1].first == ranges[ranges.len() - 2].last + 1);
        assert(shorter[shorter.len() - 1] == ranges[ranges.len() - 2]);
        assert(shorter[0] == ranges[0]);
        assert forall|k: int| 0 <= k < shorter.len() implies (#[trigger] shorter[k]).first
            <= shorter[k].last by {
            assert(shorter[k] == ranges[k]);
        }
        assert forall|k: int, m: int|
            0 <= k < shorter.len() && m == k + 1 && m < shorter.len() implies (
        #[trigger] shorter[m]).first == (#[trigger] shorter[k]).last + 1 by {
            assert(shorter[k] == ranges[k] && shorter[m] == ranges[m]);
        }
        lemma_serving(shorter, p, n - 1);
        assert(ranges[serving(shorter, p)] == shorter[serving(shorter, p)]);
    }
}

/// Two plans for one selection agree on their first `k` transfers.
proof fn lemma_plans_agree(
    ds: Seq<ValueParam>,
    sel: Seq<usize>,
    max_gap: u16,
    max_count: u16,
    a: Seq<Span>,
    b: Seq<Span>,
    k: int,
)
    requires
        in_address_order(ds),
        is_selection(ds, sel),
        is_plan(ds, sel, max_gap, max_count, a),
        is_plan(ds, sel, max_gap, max_count, b),
        0 <= k <= a.len(),
    ensures
        k <= b.len(),
        forall|i: int| 0 <= i < k ==> a[i] == b[i],
    decreases k,
{
    if k > 0 {
        lemma_plans_agree(ds, sel, max_gap, max_count, a, b, k - 1);
        let x = a[k - 1];
        assert(fitting(ds, sel, max_gap, max_count, x));
        if k == 1 {
            assert(sel.len() > 0);
        } else {
            assert(a[k - 2] == b[k - 2]);
            assert(x.first == a[k - 2].last + 1);
        }
        assert(k <= b.len());
        let y = b[k - 1];
        assert(fitting(ds, sel, max_gap, max_count, y));
        if k > 1 {
            assert(y.first == b[k - 2].last + 1);
        }
        assert(x.first == y.first);
        if x.last < y.last {
            lemma_cannot_stop_early(ds, sel, max_gap, max_count, a, k - 1, y);
        } else if y.last < x.last {
            lemma_cannot_stop_early(ds, sel, max_gap, max_count, b, k - 1, x);
        }
        assert(x == y);
    }
}

/// A transfer of a plan does not end before a fitting transfer that begins with it.
proof fn lemma_cannot_stop_early(
    ds: Seq<ValueParam>,
    sel: Seq<usize>,
    max_gap: u16,
    max_count: u16,
    a: Seq<Span>,
    k: int,
    longer: Span,
)
    requires
        in_address_order(ds),
        is_selection(ds, sel),
        is_plan(ds, sel, max_gap, max_count, a),
        0 <= k < a.len(),
        fitting(ds, sel, max_gap, max_count, longer),
        longer.first == a[k].first,
    ensures
        longer.last <= a[k].last,
{
    let x = a[k];
    assert(fitting(ds, sel, max_gap, max_count, x));
    if x.last < longer.last {
        assert(k + 1 < a.len());
        let next = a[k + 1];
        assert(next.first == x.last + 1);
        assert(forced_apart(ds, sel, max_gap, max_count, x, next));
        let opener = chosen(ds, sel, next.first as int);
        assert(opener.addr - chosen(ds, sel, x.last as int).end() <= max_gap);
        if next.first < longer.last {
            assert(sel[next.first as int] < sel[longer.last as int]);
            assert(opener.end() <= chosen(ds, sel, longer.last as int).addr);
        }
        assert(opener.end() <= chosen(ds, sel, longer.last as int).end());
    }
}

/// There is one plan for a selection: the transfers are fixed by the values chosen, the
/// widest gap and the most that one call may carry.
pub proof fn lemma_plan_is_unique(
    ds: Seq<ValueParam>,
    sel: Seq<usize>,
    max_gap: u16,
    max_count: u16,
    a: Seq<Span>,
    b: Seq<Span>,
)
    requires
        in_address_order(ds),
        is_selection(ds, sel),
        is_plan(ds, sel, max_gap, max_count, a),
        is_plan(ds, sel, max_gap, max_count, b),
    ensures
        a == b,
{
    lemma_plans_agree(ds, sel, max_gap, max_count, a, b, a.len() as int);
    lemma_plans_agree(ds, sel, max_gap, max_count, b, a, b.len() as int);
    assert(a =~= b);
}

} // verus!
