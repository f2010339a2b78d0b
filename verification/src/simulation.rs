use vstd::prelude::*;

use crate::contract::{Contract, CONTRACT_DURATION_MINIMUM_DAYS};
use crate::date::{Date, MAX_DAY_NUMBER};
use crate::id::{OfficeId, UserId};
use crate::office::Office;
use crate::range::{
    busy_ranges_ok, gap_list_wf, invert_ranges_in_boundary, range_covers_day, ranges_cover_day,
    spec_invert, DateRange,
};
use crate::user::User;

verus! {

/// What the engine decides about a contract: everything except the freshly
/// minted identifier and creation time. Two engine runs on identical inputs
/// agree on this projection of their output.
pub ghost struct Placement {
    pub host: UserId,
    pub guest: UserId,
    pub office: OfficeId,
    pub rent: int,
    pub start: int,
    pub end: int,
}

/// The placement a contract carries.
pub open spec fn placement_of(c: Contract) -> Placement {
    Placement {
        host: c.host,
        guest: c.guest,
        office: c.office,
        rent: c.rent as int,
        start: c.start.days as int,
        end: c.end.days as int,
    }
}

/// The placements of a contract list, in order.
pub open spec fn placements_of(cs: Seq<Contract>) -> Seq<Placement> {
    cs.map_values(|c: Contract| placement_of(c))
}

/// The span a placement locks, as a date range.
pub open spec fn placement_range(p: Placement) -> DateRange {
    DateRange { start: Date { days: p.start as i64 }, end: Date { days: p.end as i64 } }
}

/// The spans of all placements naming office `office`, in list order.
pub open spec fn busy_of_office(ps: Seq<Placement>, office: OfficeId) -> Seq<DateRange>
    decreases ps.len(),
{
    if ps.len() == 0 {
        Seq::empty()
    } else {
        busy_of_office(ps.drop_last(), office) + (if ps.last().office == office {
            seq![placement_range(ps.last())]
        } else {
            Seq::empty()
        })
    }
}

/// The spans of all placements naming user `guest` as guest, in list order.
pub open spec fn busy_of_guest(ps: Seq<Placement>, guest: UserId) -> Seq<DateRange>
    decreases ps.len(),
{
    if ps.len() == 0 {
        Seq::empty()
    } else {
        busy_of_guest(ps.drop_last(), guest) + (if ps.last().guest == guest {
            seq![placement_range(ps.last())]
        } else {
            Seq::empty()
        })
    }
}

/// Days spanned by a list of ranges, summed.
pub open spec fn total_days(rs: Seq<DateRange>) -> int
    decreases rs.len(),
{
    if rs.len() == 0 {
        0
    } else {
        total_days(rs.drop_last()) + (rs.last().end.days - rs.last().start.days)
    }
}

/// The first slot within one stretch of user availability `ua`: walk the
/// office's free ranges in order; on the first non-empty intersection, cut
/// it down to `missing` days; accept it if it spans at least the legal
/// minimum, otherwise keep scanning.
pub open spec fn slot_in_ranges(ua: DateRange, office_free: Seq<DateRange>, missing: int) -> Option<
    (int, int),
>
    decreases office_free.len(),
{
    if office_free.len() == 0 {
        None
    } else {
        let oa = office_free[0];
        let overlap_start: int = if ua.start.days >= oa.start.days {
            ua.start.days as int
        } else {
            oa.start.days as int
        };
        let overlap_end: int = if ua.end.days <= oa.end.days {
            ua.end.days as int
        } else {
            oa.end.days as int
        };
        if overlap_start < overlap_end {
            let contract_end: int = if overlap_start + missing <= overlap_end {
                overlap_start + missing
            } else {
                overlap_end
            };
            if contract_end - overlap_start >= CONTRACT_DURATION_MINIMUM_DAYS {
                Some((overlap_start, contract_end))
            } else {
                slot_in_ranges(ua, office_free.drop_first(), missing)
            }
        } else {
            slot_in_ranges(ua, office_free.drop_first(), missing)
        }
    }
}

/// The first slot over all of the user's free stretches, scanned in order.
pub open spec fn slot_in_office(
    user_free: Seq<DateRange>,
    office_free: Seq<DateRange>,
    missing: int,
) -> Option<(int, int)>
    decreases user_free.len(),
{
    if user_free.len() == 0 {
        None
    } else {
        match slot_in_ranges(user_free[0], office_free, missing) {
            Some(slot) => Some(slot),
            None => slot_in_office(user_free.drop_first(), office_free, missing),
        }
    }
}

/// The first candidate office (in list order, skipping the user's own
/// offices) holding a usable slot, together with that slot.
pub open spec fn find_slot(
    offices: Seq<Office>,
    ps: Seq<Placement>,
    user: UserId,
    user_free: Seq<DateRange>,
    missing: int,
    horizon_start: int,
    horizon_end: int,
) -> Option<(Office, int, int)>
    decreases offices.len(),
{
    if offices.len() == 0 {
        None
    } else {
        let o = offices[0];
        if o.owner == user {
            find_slot(offices.drop_first(), ps, user, user_free, missing, horizon_start, horizon_end)
        } else {
            let office_free = spec_invert(
                busy_of_office(ps, o.id),
                horizon_start as i64,
                horizon_end as i64,
            );
            match slot_in_office(user_free, office_free, missing) {
                Some((s, e)) => Some((o, s, e)),
                None => find_slot(
                    offices.drop_first(),
                    ps,
                    user,
                    user_free,
                    missing,
                    horizon_start,
                    horizon_end,
                ),
            }
        }
    }
}

/// Fill one user's missing days: repeatedly search for the first usable
/// slot (re-deriving the user's and every office's availability from the
/// running placement list), book it, and reduce the outstanding days, until
/// the user is satisfied or no slot remains.
pub open spec fn fill_user(
    ps: Seq<Placement>,
    offices: Seq<Office>,
    user: UserId,
    missing: int,
    horizon_start: int,
    horizon_end: int,
) -> Seq<Placement>
    decreases missing,
{
    if missing <= 0 {
        ps
    } else {
        let user_free = spec_invert(
            busy_of_guest(ps, user),
            horizon_start as i64,
            horizon_end as i64,
        );
        match find_slot(offices, ps, user, user_free, missing, horizon_start, horizon_end) {
            None => ps,
            Some((o, s, e)) => {
                let p = Placement {
                    host: o.owner,
                    guest: user,
                    office: o.id,
                    rent: o.available_positions * o.position_price,
                    start: s,
                    end: e,
                };
                let got = e - s;
                if got >= missing {
                    ps.push(p)
                } else if got >= 1 {
                    fill_user(ps.push(p), offices, user, missing - got, horizon_start, horizon_end)
                } else {
                    // a found slot always spans at least the legal minimum,
                    // so this branch is never reached
                    ps.push(p)
                }
            },
        }
    }
}

/// Plan one user: count the days already locked for them as guest, clamp
/// the outstanding amount up to the legal minimum, and fill.
pub open spec fn plan_user(
    ps: Seq<Placement>,
    offices: Seq<Office>,
    user: UserId,
    horizon_start: int,
    horizon_end: int,
    target: int,
) -> Seq<Placement> {
    let locked = total_days(busy_of_guest(ps, user));
    if target > locked {
        let missing: int = if target - locked >= CONTRACT_DURATION_MINIMUM_DAYS {
            target - locked
        } else {
            CONTRACT_DURATION_MINIMUM_DAYS as int
        };
        fill_user(ps, offices, user, missing, horizon_start, horizon_end)
    } else {
        ps
    }
}

/// The whole engine run: plan every user in list order over the growing
/// placement list.
pub open spec fn schedule_spec(
    users: Seq<User>,
    offices: Seq<Office>,
    ps: Seq<Placement>,
    horizon_start: int,
    horizon_end: int,
    target: int,
) -> Seq<Placement>
    decreases users.len(),
{
    if users.len() == 0 {
        ps
    } else {
        schedule_spec(
            users.drop_first(),
            offices,
            plan_user(ps, offices, users[0].id, horizon_start, horizon_end, target),
            horizon_start,
            horizon_end,
            target,
        )
    }
}

/// The global invariants of §agreements, as they apply to one placement:
/// nobody rents their own office, every contract spans at least the legal
/// minimum, and it lies within the simulation horizon.
pub open spec fn placement_valid(p: Placement, horizon_start: int, horizon_end: int) -> bool {
    &&& p.guest != p.host
    &&& p.end - p.start >= CONTRACT_DURATION_MINIMUM_DAYS
    &&& horizon_start <= p.start
    &&& p.end <= horizon_end
}

/// Two placements for the same office never overlap on `[start, end)`.
pub open spec fn office_disjoint(a: Placement, b: Placement) -> bool {
    a.office == b.office ==> (a.end <= b.start || b.end <= a.start)
}

/// The global invariants over a whole placement list: every placement is
/// valid on its own, and no two placements sharing an office overlap.
pub open spec fn placements_valid(ps: Seq<Placement>, horizon_start: int, horizon_end: int) -> bool {
    (forall|i: int| 0 <= i < ps.len() ==> placement_valid(#[trigger] ps[i], horizon_start, horizon_end))
        && (forall|i: int, j: int|
        0 <= i < j < ps.len() ==> office_disjoint(#[trigger] ps[i], #[trigger] ps[j]))
}

/// The busy list of an office holds exactly the spans of the placements
/// naming it, and they are exact inputs for the gap computation whenever
/// the placements are valid.
proof fn lemma_busy_of_office_ok(
    ps: Seq<Placement>,
    office: OfficeId,
    horizon_start: int,
    horizon_end: int,
)
    requires
        forall|i: int|
            0 <= i < ps.len() ==> placement_valid(#[trigger] ps[i], horizon_start, horizon_end),
        -0x5f5e100 <= horizon_start,
        horizon_end <= 0x5f5e100,
    ensures
        busy_ranges_ok(busy_of_office(ps, office), horizon_end as i64),
        forall|k: int|
            0 <= k < ps.len() && (#[trigger] ps[k]).office == office ==> busy_of_office(
                ps,
                office,
            ).contains(placement_range(ps[k])),
        forall|d: int|
            #[trigger] ranges_cover_day(busy_of_office(ps, office), d) ==> exists|k: int|
                0 <= k < ps.len() && (#[trigger] ps[k]).office == office && ps[k].start <= d
                    < ps[k].end,
    decreases ps.len(),
{
    let busy = busy_of_office(ps, office);
    if ps.len() == 0 {
        assert forall|d: int| #[trigger] ranges_cover_day(busy, d) implies exists|k: int|
            0 <= k < ps.len() && (#[trigger] ps[k]).office == office && ps[k].start <= d
                < ps[k].end by {
            let i = choose|i: int| 0 <= i < busy.len() && range_covers_day(busy[i], d);
        }
    } else {
        let prefix = ps.drop_last();
        let p = ps.last();
        lemma_busy_of_office_ok(prefix, office, horizon_start, horizon_end);
        let pb = busy_of_office(prefix, office);
        assert(forall|i: int| 0 <= i < prefix.len() ==> prefix[i] == ps[i]);
        if p.office == office {
            assert(busy =~= pb.push(placement_range(p)));
            assert(placement_valid(p, horizon_start, horizon_end));
            assert(placement_range(p).start.days == p.start && placement_range(p).end.days
                == p.end);
            assert(busy_ranges_ok(busy, horizon_end as i64)) by {
                assert(forall|i: int| 0 <= i < pb.len() ==> busy[i] == pb[i]);
                assert(busy[busy.len() - 1] == placement_range(p));
            }
            assert forall|k: int|
                0 <= k < ps.len() && (#[trigger] ps[k]).office == office implies busy.contains(
                placement_range(ps[k]),
            ) by {
                if k < ps.len() - 1 {
                    assert(pb.contains(placement_range(prefix[k])));
                    let j = choose|j: int| 0 <= j < pb.len() && pb[j] == placement_range(ps[k]);
                    assert(busy[j] == placement_range(ps[k]));
                } else {
                    assert(busy[busy.len() - 1] == placement_range(ps[k]));
                }
            }
            assert forall|d: int| #[trigger] ranges_cover_day(busy, d) implies exists|k: int|
                0 <= k < ps.len() && (#[trigger] ps[k]).office == office && ps[k].start <= d
                    < ps[k].end by {
                let i = choose|i: int| 0 <= i < busy.len() && range_covers_day(busy[i], d);
                if i < pb.len() {
                    assert(range_covers_day(pb[i], d));
                    assert(ranges_cover_day(pb, d));
                    let k = choose|k: int|
                        0 <= k < prefix.len() && (#[trigger] prefix[k]).office == office
                            && prefix[k].start <= d < prefix[k].end;
                    assert(ps[k].office == office && ps[k].start <= d < ps[k].end);
                } else {
                    assert(range_covers_day(placement_range(p), d));
                    assert(ps[ps.len() - 1].office == office && ps[ps.len() - 1].start <= d
                        < ps[ps.len() - 1].end);
                }
            }
        } else {
            assert(busy =~= pb);
            assert forall|k: int|
                0 <= k < ps.len() && (#[trigger] ps[k]).office == office implies busy.contains(
                placement_range(ps[k]),
            ) by {
                assert(k < ps.len() - 1);
                assert(pb.contains(placement_range(prefix[k])));
            }
            assert forall|d: int| #[trigger] ranges_cover_day(busy, d) implies exists|k: int|
                0 <= k < ps.len() && (#[trigger] ps[k]).office == office && ps[k].start <= d
                    < ps[k].end by {
                assert(ranges_cover_day(pb, d));
                let k = choose|k: int|
                    0 <= k < prefix.len() && (#[trigger] prefix[k]).office == office
                        && prefix[k].start <= d < prefix[k].end;
                assert(ps[k].office == office && ps[k].start <= d < ps[k].end);
            }
        }
    }
}

/// The busy list of a guest is an exact input for the gap computation
/// whenever the placements are valid.
proof fn lemma_busy_of_guest_ok(
    ps: Seq<Placement>,
    guest: UserId,
    horizon_start: int,
    horizon_end: int,
)
    requires
        forall|i: int|
            0 <= i < ps.len() ==> placement_valid(#[trigger] ps[i], horizon_start, horizon_end),
        -0x5f5e100 <= horizon_start,
        horizon_end <= 0x5f5e100,
    ensures
        busy_ranges_ok(busy_of_guest(ps, guest), horizon_end as i64),
        forall|i: int|
            0 <= i < busy_of_guest(ps, guest).len() ==> (#[trigger] busy_of_guest(
                ps,
                guest,
            )[i]).wf(),
        total_days(busy_of_guest(ps, guest)) >= 0,
    decreases ps.len(),
{
    let busy = busy_of_guest(ps, guest);
    if ps.len() == 0 {
    } else {
        let prefix = ps.drop_last();
        let p = ps.last();
        lemma_busy_of_guest_ok(prefix, guest, horizon_start, horizon_end);
        let pb = busy_of_guest(prefix, guest);
        assert(forall|i: int| 0 <= i < prefix.len() ==> prefix[i] == ps[i]);
        if p.guest == guest {
            assert(busy =~= pb.push(placement_range(p)));
            assert(placement_valid(p, horizon_start, horizon_end));
            assert(forall|i: int| 0 <= i < pb.len() ==> busy[i] == pb[i]);
            assert(busy[busy.len() - 1] == placement_range(p));
            assert(busy.drop_last() =~= pb);
        } else {
            assert(busy =~= pb);
        }
    }
}

/// Any slot found within one user stretch is at least the legal minimum
/// long, at most `missing` days long, lies within the boundary of the
/// office's free ranges, and every day of it is free for the office.
proof fn lemma_slot_in_ranges_valid(
    ua: DateRange,
    office_free: Seq<DateRange>,
    missing: int,
    horizon_start: int,
    horizon_end: int,
)
    requires
        gap_list_wf(office_free, horizon_start as i64, horizon_end as i64),
        missing >= 0,
        -0x5f5e100 <= horizon_start <= horizon_end <= 0x5f5e100,
    ensures
        slot_in_ranges(ua, office_free, missing) matches Some((cs, ce)) ==> {
            &&& CONTRACT_DURATION_MINIMUM_DAYS <= ce - cs <= missing
            &&& horizon_start <= cs
            &&& ce <= horizon_end
            &&& forall|d: int| cs <= d < ce ==> ranges_cover_day(office_free, d)
        },
    decreases office_free.len(),
{
    if office_free.len() == 0 {
    } else {
        let oa = office_free[0];
        let rest = office_free.drop_first();
        assert(gap_list_wf(rest, horizon_start as i64, horizon_end as i64)) by {
            assert(forall|i: int| 0 <= i < rest.len() ==> rest[i] == office_free[i + 1]);
            assert(forall|i: int, j: int|
                0 <= i < j < rest.len() ==> rest[i] == office_free[i + 1] && rest[j]
                    == office_free[j + 1]);
        }
        lemma_slot_in_ranges_valid(ua, rest, missing, horizon_start, horizon_end);
        let overlap_start: int = if ua.start.days >= oa.start.days {
            ua.start.days as int
        } else {
            oa.start.days as int
        };
        let overlap_end: int = if ua.end.days <= oa.end.days {
            ua.end.days as int
        } else {
            oa.end.days as int
        };
        if overlap_start < overlap_end {
            let contract_end: int = if overlap_start + missing <= overlap_end {
                overlap_start + missing
            } else {
                overlap_end
            };
            if contract_end - overlap_start >= CONTRACT_DURATION_MINIMUM_DAYS {
                assert(office_free.contains(oa));
                assert(oa.start.days <= overlap_start && contract_end <= oa.end.days);
                assert forall|d: int| overlap_start <= d < contract_end implies ranges_cover_day(
                    office_free,
                    d,
                ) by {
                    assert(range_covers_day(office_free[0], d));
                }
            } else {
                assert forall|d: int|
                    (slot_in_ranges(ua, office_free, missing) matches Some((cs, ce)) && cs <= d
                        < ce) implies ranges_cover_day(office_free, d) by {
                    assert(ranges_cover_day(rest, d));
                    let i = choose|i: int| 0 <= i < rest.len() && range_covers_day(rest[i], d);
                    assert(range_covers_day(office_free[i + 1], d));
                }
            }
        } else {
            assert forall|d: int|
                (slot_in_ranges(ua, office_free, missing) matches Some((cs, ce)) && cs <= d
                    < ce) implies ranges_cover_day(office_free, d) by {
                assert(ranges_cover_day(rest, d));
                let i = choose|i: int| 0 <= i < rest.len() && range_covers_day(rest[i], d);
                assert(range_covers_day(office_free[i + 1], d));
            }
        }
    }
}

/// The same guarantees for the scan over all of the user's free stretches.
proof fn lemma_slot_in_office_valid(
    user_free: Seq<DateRange>,
    office_free: Seq<DateRange>,
    missing: int,
    horizon_start: int,
    horizon_end: int,
)
    requires
        gap_list_wf(office_free, horizon_start as i64, horizon_end as i64),
        missing >= 0,
        -0x5f5e100 <= horizon_start <= horizon_end <= 0x5f5e100,
    ensures
        slot_in_office(user_free, office_free, missing) matches Some((cs, ce)) ==> {
            &&& CONTRACT_DURATION_MINIMUM_DAYS <= ce - cs <= missing
            &&& horizon_start <= cs
            &&& ce <= horizon_end
            &&& forall|d: int| cs <= d < ce ==> ranges_cover_day(office_free, d)
        },
    decreases user_free.len(),
{
    if user_free.len() == 0 {
    } else {
        lemma_slot_in_ranges_valid(user_free[0], office_free, missing, horizon_start, horizon_end);
        lemma_slot_in_office_valid(
            user_free.drop_first(),
            office_free,
            missing,
            horizon_start,
            horizon_end,
        );
    }
}

/// Any office and slot the search returns: the office is a candidate not
/// owned by the user, the slot is between the legal minimum and `missing`
/// days long, lies within the horizon, and every day of it is free for
/// that office given the current placements.
proof fn lemma_find_slot_valid(
    offices: Seq<Office>,
    ps: Seq<Placement>,
    user: UserId,
    user_free: Seq<DateRange>,
    missing: int,
    horizon_start: int,
    horizon_end: int,
)
    requires
        forall|i: int|
            0 <= i < ps.len() ==> placement_valid(#[trigger] ps[i], horizon_start, horizon_end),
        missing >= 0,
        -0x5f5e100 <= horizon_start <= horizon_end <= 0x5f5e100,
    ensures
        find_slot(offices, ps, user, user_free, missing, horizon_start, horizon_end) matches Some(
            (o, cs, ce),
        ) ==> {
            &&& offices.contains(o)
            &&& o.owner != user
            &&& CONTRACT_DURATION_MINIMUM_DAYS <= ce - cs <= missing
            &&& horizon_start <= cs
            &&& ce <= horizon_end
            &&& forall|d: int|
                cs <= d < ce ==> !ranges_cover_day(busy_of_office(ps, o.id), d)
        },
    decreases offices.len(),
{
    if offices.len() == 0 {
    } else {
        let o0 = offices[0];
        let rest = offices.drop_first();
        lemma_find_slot_valid(rest, ps, user, user_free, missing, horizon_start, horizon_end);
        assert forall|x: Office| rest.contains(x) implies offices.contains(x) by {
            let i = choose|i: int| 0 <= i < rest.len() && rest[i] == x;
            assert(offices[i + 1] == x);
        }
        assert(offices.contains(o0)) by {
            assert(offices[0] == o0);
        }
        if o0.owner == user {
        } else {
            let busy = busy_of_office(ps, o0.id);
            let office_free = spec_invert(busy, horizon_start as i64, horizon_end as i64);
            lemma_busy_of_office_ok(ps, o0.id, horizon_start, horizon_end);
            crate::range::lemma_spec_invert_props(busy, horizon_start as i64, horizon_end as i64);
            lemma_slot_in_office_valid(user_free, office_free, missing, horizon_start, horizon_end);
            match slot_in_office(user_free, office_free, missing) {
                Some((cs, ce)) => {
                    assert forall|d: int| cs <= d < ce implies !ranges_cover_day(busy, d) by {
                        assert(ranges_cover_day(office_free, d));
                        crate::range::lemma_spec_invert_day(
                            busy,
                            horizon_start as i64,
                            horizon_end as i64,
                            d,
                        );
                    }
                },
                None => {},
            }
        }
    }
}

/// Booking the slot the search found keeps the whole placement list valid.
proof fn lemma_found_slot_placement_valid(
    ps: Seq<Placement>,
    offices: Seq<Office>,
    user: UserId,
    user_free: Seq<DateRange>,
    missing: int,
    horizon_start: int,
    horizon_end: int,
)
    requires
        placements_valid(ps, horizon_start, horizon_end),
        missing >= 0,
        -0x5f5e100 <= horizon_start <= horizon_end <= 0x5f5e100,
    ensures
        find_slot(offices, ps, user, user_free, missing, horizon_start, horizon_end) matches Some(
            (o, cs, ce),
        ) ==> placements_valid(
            ps.push(
                Placement {
                    host: o.owner,
                    guest: user,
                    office: o.id,
                    rent: o.available_positions * o.position_price,
                    start: cs,
                    end: ce,
                },
            ),
            horizon_start,
            horizon_end,
        ),
{
    lemma_find_slot_valid(offices, ps, user, user_free, missing, horizon_start, horizon_end);
    match find_slot(offices, ps, user, user_free, missing, horizon_start, horizon_end) {
        None => {},
        Some((o, cs, ce)) => {
            let p = Placement {
                host: o.owner,
                guest: user,
                office: o.id,
                rent: o.available_positions * o.position_price,
                start: cs,
                end: ce,
            };
            assert(placement_valid(p, horizon_start, horizon_end));
            lemma_busy_of_office_ok(ps, o.id, horizon_start, horizon_end);
            assert forall|k: int| 0 <= k < ps.len() implies office_disjoint(#[trigger] ps[k], p) by {
                if ps[k].office == o.id && !(ps[k].end <= cs || ce <= ps[k].start) {
                    let d: int = if cs >= ps[k].start {
                        cs
                    } else {
                        ps[k].start
                    };
                    assert(cs <= d < ce);
                    assert(ps[k].start <= d < ps[k].end);
                    assert(busy_of_office(ps, o.id).contains(placement_range(ps[k])));
                    let busy = busy_of_office(ps, o.id);
                    let j = choose|j: int| 0 <= j < busy.len() && busy[j] == placement_range(ps[k]);
                    assert(range_covers_day(busy[j], d));
                    assert(ranges_cover_day(busy, d));
                    assert(false);
                }
            }
            let ps1 = ps.push(p);
            assert(placements_valid(ps1, horizon_start, horizon_end)) by {
                assert(forall|i: int| 0 <= i < ps.len() ==> ps1[i] == ps[i]);
                assert(ps1[ps1.len() - 1] == p);
                assert forall|i: int, j: int|
                    0 <= i < j < ps1.len() implies office_disjoint(
                    #[trigger] ps1[i],
                    #[trigger] ps1[j],
                ) by {
                    if j < ps.len() {
                        assert(office_disjoint(ps[i], ps[j]));
                    } else {
                        assert(ps1[j] == p && ps1[i] == ps[i]);
                        assert(office_disjoint(ps[i], p));
                    }
                }
            }
        },
    }
}

/// Filling one user preserves the global invariants and only appends.
proof fn lemma_fill_user_valid(
    ps: Seq<Placement>,
    offices: Seq<Office>,
    user: UserId,
    missing: int,
    horizon_start: int,
    horizon_end: int,
)
    requires
        placements_valid(ps, horizon_start, horizon_end),
        -0x5f5e100 <= horizon_start <= horizon_end <= 0x5f5e100,
    ensures
        placements_valid(fill_user(ps, offices, user, missing, horizon_start, horizon_end), horizon_start, horizon_end),
        ps.is_prefix_of(fill_user(ps, offices, user, missing, horizon_start, horizon_end)),
    decreases missing,
{
    let result = fill_user(ps, offices, user, missing, horizon_start, horizon_end);
    if missing <= 0 {
        assert(ps.subrange(0, ps.len() as int) =~= ps);
    } else {
        let user_free = spec_invert(
            busy_of_guest(ps, user),
            horizon_start as i64,
            horizon_end as i64,
        );
        lemma_find_slot_valid(offices, ps, user, user_free, missing, horizon_start, horizon_end);
        lemma_found_slot_placement_valid(
            ps,
            offices,
            user,
            user_free,
            missing,
            horizon_start,
            horizon_end,
        );
        match find_slot(offices, ps, user, user_free, missing, horizon_start, horizon_end) {
            None => {
                assert(ps.subrange(0, ps.len() as int) =~= ps);
            },
            Some((o, cs, ce)) => {
                let p = Placement {
                    host: o.owner,
                    guest: user,
                    office: o.id,
                    rent: o.available_positions * o.position_price,
                    start: cs,
                    end: ce,
                };
                let got = ce - cs;
                let ps1 = ps.push(p);
                assert(placements_valid(ps1, horizon_start, horizon_end));
                if got >= missing {
                    assert(result == ps1);
                    assert(ps.subrange(0, ps.len() as int) =~= ps);
                    assert(ps1.subrange(0, ps.len() as int) =~= ps);
                } else {
                    assert(got >= 1);
                    lemma_fill_user_valid(
                        ps1,
                        offices,
                        user,
                        missing - got,
                        horizon_start,
                        horizon_end,
                    );
                    assert(ps1.is_prefix_of(result));
                    assert(ps1.subrange(0, ps.len() as int) =~= ps);
                    assert(result.subrange(0, ps.len() as int) =~= ps) by {
                        assert(result.subrange(0, ps1.len() as int) == ps1);
                        assert(forall|i: int| 0 <= i < ps.len() ==> result[i] == ps1[i]);
                    }
                }
            },
        }
    }
}

/// Law (no double-booking, no self-rental, minimum duration): an engine
/// run on a valid state leaves the existing placements untouched, only
/// appends, and keeps every global invariant — no two placements sharing
/// an office overlap on `[start, end)`, no placement has `guest == host`,
/// and every placement spans at least the legal minimum within the
/// horizon.
pub proof fn lemma_schedule_spec_valid(
    users: Seq<User>,
    offices: Seq<Office>,
    ps: Seq<Placement>,
    horizon_start: int,
    horizon_end: int,
    target: int,
)
    requires
        placements_valid(ps, horizon_start, horizon_end),
        -0x5f5e100 <= horizon_start <= horizon_end <= 0x5f5e100,
    ensures
        placements_valid(
            schedule_spec(users, offices, ps, horizon_start, horizon_end, target),
            horizon_start,
            horizon_end,
        ),
        ps.is_prefix_of(schedule_spec(users, offices, ps, horizon_start, horizon_end, target)),
    decreases users.len(),
{
    let result = schedule_spec(users, offices, ps, horizon_start, horizon_end, target);
    if users.len() == 0 {
        assert(ps.subrange(0, ps.len() as int) =~= ps);
    } else {
        let ps1 = plan_user(ps, offices, users[0].id, horizon_start, horizon_end, target);
        let locked = total_days(busy_of_guest(ps, users[0].id));
        if target > locked {
            let missing: int = if target - locked >= CONTRACT_DURATION_MINIMUM_DAYS {
                target - locked
            } else {
                CONTRACT_DURATION_MINIMUM_DAYS as int
            };
            lemma_fill_user_valid(ps, offices, users[0].id, missing, horizon_start, horizon_end);
        } else {
            assert(ps.subrange(0, ps.len() as int) =~= ps);
        }
        lemma_schedule_spec_valid(
            users.drop_first(),
            offices,
            ps1,
            horizon_start,
            horizon_end,
            target,
        );
        assert(ps.is_prefix_of(result)) by {
            assert(ps1.is_prefix_of(result));
            assert(ps.is_prefix_of(ps1));
            assert(result.subrange(0, ps1.len() as int) == ps1);
            assert(forall|i: int| 0 <= i < ps.len() ==> result[i] == ps1[i]);
            assert(result.subrange(0, ps.len() as int) =~= ps);
        }
    }
}

/// Law (determinism): the engine is a function of its inputs — two runs on
/// identical input lists, in identical order, decide identical placement
/// lists.
pub proof fn lemma_engine_deterministic(
    r1: Seq<Placement>,
    r2: Seq<Placement>,
    users: Seq<User>,
    offices: Seq<Office>,
    ps: Seq<Placement>,
    horizon_start: int,
    horizon_end: int,
    target: int,
)
    requires
        r1 == schedule_spec(users, offices, ps, horizon_start, horizon_end, target),
        r2 == schedule_spec(users, offices, ps, horizon_start, horizon_end, target),
    ensures
        r1 == r2,
{
}

/// The spans of all contracts in which `guest` rents, in list order.
fn guest_busy_ranges(contracts: &Vec<Contract>, guest: UserId) -> (r: Vec<DateRange>)
    ensures
        r@ == busy_of_guest(placements_of(contracts@), guest),
{
    let mut result: Vec<DateRange> = Vec::new();
    let mut i: usize = 0;
    proof {
        assert(placements_of(contracts@.subrange(0, 0)) =~= Seq::<Placement>::empty());
    }
    while i < contracts.len()
        invariant
            i <= contracts@.len(),
            result@ == busy_of_guest(placements_of(contracts@.subrange(0, i as int)), guest),
        decreases contracts@.len() - i,
    {
        let c = &contracts[i];
        proof {
            let pre = placements_of(contracts@.subrange(0, i as int));
            let pre1 = placements_of(contracts@.subrange(0, i as int + 1));
            assert(pre1 =~= pre.push(placement_of(contracts@[i as int])));
            assert(pre1.drop_last() =~= pre);
            assert(placement_range(placement_of(contracts@[i as int])) == (DateRange {
                start: contracts@[i as int].start,
                end: contracts@[i as int].end,
            }));
            if contracts@[i as int].guest == guest {
                assert(busy_of_guest(pre1, guest) =~= result@.push(
                    placement_range(pre1.last()),
                ));
            } else {
                assert(busy_of_guest(pre1, guest) =~= result@);
            }
        }
        if c.guest == guest {
            result.push(DateRange { start: c.start, end: c.end });
        }
        i += 1;
    }
    proof {
        assert(contracts@.subrange(0, contracts@.len() as int) =~= contracts@);
    }
    result
}

/// The spans of all contracts naming office `office`, in list order.
fn office_busy_ranges(contracts: &Vec<Contract>, office: OfficeId) -> (r: Vec<DateRange>)
    ensures
        r@ == busy_of_office(placements_of(contracts@), office),
{
    let mut result: Vec<DateRange> = Vec::new();
    let mut i: usize = 0;
    proof {
        assert(placements_of(contracts@.subrange(0, 0)) =~= Seq::<Placement>::empty());
    }
    while i < contracts.len()
        invariant
            i <= contracts@.len(),
            result@ == busy_of_office(placements_of(contracts@.subrange(0, i as int)), office),
        decreases contracts@.len() - i,
    {
        let c = &contracts[i];
        proof {
            let pre = placements_of(contracts@.subrange(0, i as int));
            let pre1 = placements_of(contracts@.subrange(0, i as int + 1));
            assert(pre1 =~= pre.push(placement_of(contracts@[i as int])));
            assert(pre1.drop_last() =~= pre);
            assert(placement_range(placement_of(contracts@[i as int])) == (DateRange {
                start: contracts@[i as int].start,
                end: contracts@[i as int].end,
            }));
            if contracts@[i as int].office == office {
                assert(busy_of_office(pre1, office) =~= result@.push(
                    placement_range(pre1.last()),
                ));
            } else {
                assert(busy_of_office(pre1, office) =~= result@);
            }
        }
        if c.office == office {
            result.push(DateRange { start: c.start, end: c.end });
        }
        i += 1;
    }
    proof {
        assert(contracts@.subrange(0, contracts@.len() as int) =~= contracts@);
    }
    result
}

/// Days spanned by a list of well-formed ranges, summed.
fn total_locked_days(rs: &Vec<DateRange>) -> (r: u128)
    requires
        forall|i: int| 0 <= i < rs@.len() ==> (#[trigger] rs@[i]).wf(),
    ensures
        r as int == total_days(rs@),
{
    let mut total: u128 = 0;
    let mut i: usize = 0;
    proof {
        assert(rs@.subrange(0, 0) =~= Seq::<DateRange>::empty());
    }
    while i < rs.len()
        invariant
            i <= rs@.len(),
            total as int == total_days(rs@.subrange(0, i as int)),
            total <= i as int * 200_000_000,
            forall|k: int| 0 <= k < rs@.len() ==> (#[trigger] rs@[k]).wf(),
        decreases rs@.len() - i,
    {
        let range = rs[i];
        proof {
            let pre1 = rs@.subrange(0, i as int + 1);
            assert(pre1.drop_last() =~= rs@.subrange(0, i as int));
            assert(pre1.last() == rs@[i as int]);
            assert((i as int + 1) * 200_000_000 == i as int * 200_000_000 + 200_000_000)
                by (nonlinear_arith);
            assert(i as int * 200_000_000 + 200_000_000
                <= 0xffff_ffff_ffff_ffff_ffff_ffff_ffff_ffffu128) by (nonlinear_arith)
                requires
                    0 <= i as int <= 0xffff_ffff_ffff_ffffu128,
            ;
        }
        total = total + (range.end.days - range.start.days) as u128;
        i += 1;
    }
    proof {
        assert(rs@.subrange(0, rs@.len() as int) =~= rs@);
    }
    total
}

/// The first candidate office with a usable slot for `user`, scanning
/// offices, the user's free stretches and each office's free stretches in
/// order; returns the office's index together with the slot bounds.
fn find_first_slot(
    offices: &Vec<Office>,
    contracts: &Vec<Contract>,
    user: UserId,
    user_free: &Vec<DateRange>,
    missing: u64,
    horizon_start: Date,
    horizon_end: Date,
) -> (r: Option<(usize, i64, i64)>)
    requires
        horizon_start.wf(),
        horizon_end.wf(),
        horizon_start.days <= horizon_end.days,
        forall|i: int|
            0 <= i < placements_of(contracts@).len() ==> placement_valid(
                #[trigger] placements_of(contracts@)[i],
                horizon_start.days as int,
                horizon_end.days as int,
            ),
        gap_list_wf(user_free@, horizon_start.days, horizon_end.days),
    ensures
        r is None ==> find_slot(
            offices@,
            placements_of(contracts@),
            user,
            user_free@,
            missing as int,
            horizon_start.days as int,
            horizon_end.days as int,
        ) is None,
        r matches Some((idx, cs, ce)) ==> idx < offices@.len() && find_slot(
            offices@,
            placements_of(contracts@),
            user,
            user_free@,
            missing as int,
            horizon_start.days as int,
            horizon_end.days as int,
        ) == Some((offices@[idx as int], cs as int, ce as int)),
{
    let ghost ps = placements_of(contracts@);
    let ghost hs = horizon_start.days as int;
    let ghost he = horizon_end.days as int;
    let ghost m = missing as int;
    let mut oi: usize = 0;
    proof {
        assert(offices@.subrange(0, offices@.len() as int) =~= offices@);
    }
    while oi < offices.len()
        invariant
            oi <= offices@.len(),
            ps == placements_of(contracts@),
            hs == horizon_start.days as int,
            he == horizon_end.days as int,
            m == missing as int,
            horizon_start.wf(),
            horizon_end.wf(),
            horizon_start.days <= horizon_end.days,
            forall|i: int|
                0 <= i < ps.len() ==> placement_valid(#[trigger] ps[i], hs, he),
            gap_list_wf(user_free@, horizon_start.days, horizon_end.days),
            find_slot(offices@, ps, user, user_free@, m, hs, he) == find_slot(
                offices@.subrange(oi as int, offices@.len() as int),
                ps,
                user,
                user_free@,
                m,
                hs,
                he,
            ),
        decreases offices@.len() - oi,
    {
        let ghost sub = offices@.subrange(oi as int, offices@.len() as int);
        let ghost sub1 = offices@.subrange(oi as int + 1, offices@.len() as int);
        proof {
            assert(sub[0] == offices@[oi as int]);
            assert(sub.drop_first() =~= sub1);
        }
        let office = &offices[oi];
        if !(office.owner == user) {
            let busy = office_busy_ranges(contracts, office.id);
            let office_free = invert_ranges_in_boundary(&busy, horizon_start, horizon_end);
            proof {
                lemma_busy_of_office_ok(ps, office.id, hs, he);
                crate::range::lemma_spec_invert_props(busy@, horizon_start.days, horizon_end.days);
                assert(gap_list_wf(office_free@, horizon_start.days, horizon_end.days));
            }
            let mut uj: usize = 0;
            proof {
                assert(user_free@.subrange(0, user_free@.len() as int) =~= user_free@);
            }
            while uj < user_free.len()
                invariant
                    uj <= user_free@.len(),
                    m == missing as int,
                    hs == horizon_start.days as int,
                    he == horizon_end.days as int,
                    ps == placements_of(contracts@),
                    office_free@ == spec_invert(
                        busy_of_office(ps, offices@[oi as int].id),
                        horizon_start.days,
                        horizon_end.days,
                    ),
                    gap_list_wf(office_free@, horizon_start.days, horizon_end.days),
                    gap_list_wf(user_free@, horizon_start.days, horizon_end.days),
                    horizon_start.wf(),
                    horizon_end.wf(),
                    oi < offices@.len(),
                    offices@[oi as int].owner != user,
                    slot_in_office(user_free@, office_free@, m) == slot_in_office(
                        user_free@.subrange(uj as int, user_free@.len() as int),
                        office_free@,
                        m,
                    ),
                    find_slot(offices@, ps, user, user_free@, m, hs, he) == find_slot(
                        offices@.subrange(oi as int, offices@.len() as int),
                        ps,
                        user,
                        user_free@,
                        m,
                        hs,
                        he,
                    ),
                decreases user_free@.len() - uj,
            {
                let ghost usub = user_free@.subrange(uj as int, user_free@.len() as int);
                let ghost usub1 = user_free@.subrange(uj as int + 1, user_free@.len() as int);
                proof {
                    assert(usub[0] == user_free@[uj as int]);
                    assert(usub.drop_first() =~= usub1);
                }
                let ua = user_free[uj];
                let mut ok: usize = 0;
                proof {
                    assert(office_free@.subrange(0, office_free@.len() as int) =~= office_free@);
                }
                while ok < office_free.len()
                    invariant
                        ok <= office_free@.len(),
                        m == missing as int,
                        hs == horizon_start.days as int,
                        he == horizon_end.days as int,
                        ps == placements_of(contracts@),
                        ua == user_free@[uj as int],
                        uj < user_free@.len(),
                        oi < offices@.len(),
                        offices@[oi as int].owner != user,
                        gap_list_wf(office_free@, horizon_start.days, horizon_end.days),
                        gap_list_wf(user_free@, horizon_start.days, horizon_end.days),
                        horizon_start.wf(),
                        horizon_end.wf(),
                        office_free@ == spec_invert(
                            busy_of_office(ps, offices@[oi as int].id),
                            horizon_start.days,
                            horizon_end.days,
                        ),
                        slot_in_ranges(ua, office_free@, m) == slot_in_ranges(
                            ua,
                            office_free@.subrange(ok as int, office_free@.len() as int),
                            m,
                        ),
                        slot_in_office(user_free@, office_free@, m) == slot_in_office(
                            user_free@.subrange(uj as int, user_free@.len() as int),
                            office_free@,
                            m,
                        ),
                        find_slot(offices@, ps, user, user_free@, m, hs, he) == find_slot(
                            offices@.subrange(oi as int, offices@.len() as int),
                            ps,
                            user,
                            user_free@,
                            m,
                            hs,
                            he,
                        ),
                    decreases office_free@.len() - ok,
                {
                    let ghost osub = office_free@.subrange(ok as int, office_free@.len() as int);
                    let ghost osub1 = office_free@.subrange(
                        ok as int + 1,
                        office_free@.len() as int,
                    );
                    proof {
                        assert(osub[0] == office_free@[ok as int]);
                        assert(osub.drop_first() =~= osub1);
                        assert(ua.wf()) by {
                            assert(gap_list_wf(user_free@, horizon_start.days, horizon_end.days));
                        }
                        assert(office_free@[ok as int].wf());
                    }
                    let oa = office_free[ok];
                    let overlap_start: i64 = if ua.start.days >= oa.start.days {
                        ua.start.days
                    } else {
                        oa.start.days
                    };
                    let overlap_end: i64 = if ua.end.days <= oa.end.days {
                        ua.end.days
                    } else {
                        oa.end.days
                    };
                    if overlap_start < overlap_end {
                        let span: i64 = overlap_end - overlap_start;
                        let len: i64 = if missing <= span as u64 {
                            missing as i64
                        } else {
                            span
                        };
                        let contract_end: i64 = overlap_start + len;
                        proof {
                            assert(contract_end as int == (if overlap_start as int + m
                                <= overlap_end as int {
                                overlap_start as int + m
                            } else {
                                overlap_end as int
                            }));
                        }
                        if contract_end - overlap_start >= 120 {
                            proof {
                                let slot = (overlap_start as int, contract_end as int);
                                let iusub = user_free@.subrange(
                                    uj as int,
                                    user_free@.len() as int,
                                );
                                let isub = offices@.subrange(oi as int, offices@.len() as int);
                                assert(slot_in_ranges(ua, osub, m) == Some(slot));
                                assert(slot_in_ranges(ua, office_free@, m) == Some(slot));
                                assert(iusub[0] == ua);
                                assert(slot_in_office(iusub, office_free@, m) == Some(slot));
                                assert(slot_in_office(user_free@, office_free@, m) == Some(slot));
                                assert(isub[0] == offices@[oi as int]);
                                assert(find_slot(isub, ps, user, user_free@, m, hs, he) == Some(
                                    (offices@[oi as int], overlap_start as int, contract_end as int),
                                ));
                            }
                            return Some((oi, overlap_start, contract_end));
                        }
                    }
                    ok += 1;
                }
                proof {
                    assert(office_free@.subrange(
                        office_free@.len() as int,
                        office_free@.len() as int,
                    ) =~= Seq::<DateRange>::empty());
                    assert(slot_in_ranges(ua, office_free@, m) is None);
                    assert(slot_in_office(usub, office_free@, m) == slot_in_office(
                        usub1,
                        office_free@,
                        m,
                    ));
                }
                uj += 1;
            }
            proof {
                assert(user_free@.subrange(user_free@.len() as int, user_free@.len() as int)
                    =~= Seq::<DateRange>::empty());
                assert(slot_in_office(user_free@, office_free@, m) is None);
                assert(find_slot(sub, ps, user, user_free@, m, hs, he) == find_slot(
                    sub1,
                    ps,
                    user,
                    user_free@,
                    m,
                    hs,
                    he,
                ));
            }
        }
        oi += 1;
    }
    proof {
        assert(offices@.subrange(offices@.len() as int, offices@.len() as int)
            =~= Seq::<Office>::empty());
    }
    None
}

/// Decide at run time whether a contract list satisfies the global
/// invariants over the given horizon: every contract valid on its own and
/// no two contracts sharing an office overlapping on `[start, end)`.
#[verifier::loop_isolation(false)]
pub fn contracts_valid(contracts: &Vec<Contract>, horizon_start: Date, horizon_end: Date) -> (r:
    bool)
    ensures
        r == placements_valid(
            placements_of(contracts@),
            horizon_start.days as int,
            horizon_end.days as int,
        ),
{
    let ghost ps = placements_of(contracts@);
    let ghost hs = horizon_start.days as int;
    let ghost he = horizon_end.days as int;
    let n = contracts.len();
    let mut i: usize = 0;
    while i < n
        invariant
            i <= n,
            n == contracts@.len(),
            ps == placements_of(contracts@),
            hs == horizon_start.days as int,
            he == horizon_end.days as int,
            forall|k: int| 0 <= k < i ==> placement_valid(#[trigger] ps[k], hs, he),
            forall|k: int, l: int|
                0 <= k < l < ps.len() && k < i ==> office_disjoint(
                    #[trigger] ps[k],
                    #[trigger] ps[l],
                ),
        decreases n - i,
    {
        let c = &contracts[i];
        proof {
            assert(ps[i as int] == placement_of(contracts@[i as int]));
        }
        if c.guest == c.host || (c.end.days as i128) - (c.start.days as i128)
            < CONTRACT_DURATION_MINIMUM_DAYS as i128 || c.start.days < horizon_start.days
            || horizon_end.days < c.end.days {
            proof {
                assert(!placement_valid(ps[i as int], hs, he));
            }
            return false;
        }
        let mut j: usize = i + 1;
        while j < n
            invariant
                i < j <= n,
                n == contracts@.len(),
                ps == placements_of(contracts@),
                forall|l: int| i < l < j ==> office_disjoint(ps[i as int], #[trigger] ps[l]),
            decreases n - j,
        {
            let other = &contracts[j];
            proof {
                assert(ps[j as int] == placement_of(contracts@[j as int]));
            }
            if c.office == other.office && !(c.end.days <= other.start.days || other.end.days
                <= c.start.days) {
                proof {
                    assert(!office_disjoint(ps[i as int], ps[j as int]));
                }
                return false;
            }
            j += 1;
        }
        i += 1;
    }
    true
}

/// A simulation window together with the per-user occupancy target.
pub struct Simulation {
    pub start: Date,
    pub end: Date,
    pub target_days_in_office: u64,
}

/// Every busy span of a guest is a well-formed range whenever every
/// placement spans well-formed dates in order.
proof fn lemma_busy_of_guest_wf(ps: Seq<Placement>, guest: UserId)
    requires
        forall|i: int|
            0 <= i < ps.len() ==> -0x5f5e100 <= (#[trigger] ps[i]).start <= ps[i].end <= 0x5f5e100,
    ensures
        forall|i: int|
            0 <= i < busy_of_guest(ps, guest).len() ==> (#[trigger] busy_of_guest(
                ps,
                guest,
            )[i]).wf(),
    decreases ps.len(),
{
    let busy = busy_of_guest(ps, guest);
    if ps.len() == 0 {
    } else {
        let prefix = ps.drop_last();
        assert(forall|i: int| 0 <= i < prefix.len() ==> prefix[i] == ps[i]);
        lemma_busy_of_guest_wf(prefix, guest);
        let pb = busy_of_guest(prefix, guest);
        if ps.last().guest == guest {
            assert(busy =~= pb.push(placement_range(ps.last())));
            assert(forall|i: int| 0 <= i < pb.len() ==> busy[i] == pb[i]);
            assert(busy[busy.len() - 1] == placement_range(ps.last()));
        } else {
            assert(busy =~= pb);
        }
    }
}

/// Days already locked for `user` as guest across `contracts`: the sum of
/// `end - start` over the contracts in which they rent.
pub fn locked_days_for_user(contracts: &Vec<Contract>, user: UserId) -> (r: u128)
    requires
        forall|i: int|
            0 <= i < contracts@.len() ==> (#[trigger] contracts@[i]).dates_wf()
                && contracts@[i].start.days <= contracts@[i].end.days,
    ensures
        r as int == total_days(busy_of_guest(placements_of(contracts@), user)),
{
    let ranges = guest_busy_ranges(contracts, user);
    proof {
        let ps = placements_of(contracts@);
        assert forall|i: int|
            0 <= i < ps.len() implies -0x5f5e100 <= (#[trigger] ps[i]).start <= ps[i].end
            <= 0x5f5e100 by {
            assert(ps[i] == placement_of(contracts@[i]));
            assert(contracts@[i].dates_wf());
        }
        lemma_busy_of_guest_wf(ps, user);
    }
    total_locked_days(&ranges)
}

impl Simulation {
    pub open spec fn wf(self) -> bool {
        self.start.wf() && self.end.wf() && self.start.days <= self.end.days
    }

    /// Decide `wf` at run time, for a horizon built from outside dates.
    pub fn is_valid(&self) -> (r: bool)
        ensures
            r == self.wf(),
    {
        -MAX_DAY_NUMBER <= self.start.days && self.start.days <= MAX_DAY_NUMBER && -MAX_DAY_NUMBER
            <= self.end.days && self.end.days <= MAX_DAY_NUMBER && self.start.days <= self.end.days
    }

    /// Fill one user's outstanding days: book the first usable slot, reduce
    /// the outstanding amount, re-derive all availability from the grown
    /// contract list, and repeat until the user is satisfied or no slot
    /// remains.
    #[verifier::loop_isolation(false)]
    fn fill_for_user(
        &self,
        contracts: Vec<Contract>,
        offices: &Vec<Office>,
        user: UserId,
        missing_days: u64,
    ) -> (r: Vec<Contract>)
        requires
            self.wf(),
            missing_days >= 1,
            forall|i: int| 0 <= i < offices@.len() ==> (#[trigger] offices@[i]).wf(),
            placements_valid(
                placements_of(contracts@),
                self.start.days as int,
                self.end.days as int,
            ),
        ensures
            placements_of(r@) == fill_user(
                placements_of(contracts@),
                offices@,
                user,
                missing_days as int,
                self.start.days as int,
                self.end.days as int,
            ),
            placements_valid(placements_of(r@), self.start.days as int, self.end.days as int),
            contracts@.len() <= r@.len(),
            r@.subrange(0, contracts@.len() as int) == contracts@,
    {
        let ghost hs = self.start.days as int;
        let ghost he = self.end.days as int;
        let ghost orig = contracts@;
        let mut contracts = contracts;
        let mut missing: u64 = missing_days;
        loop
            invariant
                self.wf(),
                missing >= 1,
                hs == self.start.days as int,
                he == self.end.days as int,
                forall|i: int| 0 <= i < offices@.len() ==> (#[trigger] offices@[i]).wf(),
                placements_valid(placements_of(contracts@), hs, he),
                fill_user(placements_of(orig), offices@, user, missing_days as int, hs, he)
                    == fill_user(placements_of(contracts@), offices@, user, missing as int, hs, he),
                orig.len() <= contracts@.len(),
                contracts@.subrange(0, orig.len() as int) == orig,
            decreases missing,
        {
            let ghost cur = placements_of(contracts@);
            let locked_ranges = guest_busy_ranges(&contracts, user);
            let user_free = invert_ranges_in_boundary(&locked_ranges, self.start, self.end);
            proof {
                lemma_busy_of_guest_ok(cur, user, hs, he);
                crate::range::lemma_spec_invert_props(locked_ranges@, self.start.days, self.end.days);
                lemma_find_slot_valid(offices@, cur, user, user_free@, missing as int, hs, he);
            }
            match find_first_slot(
                offices,
                &contracts,
                user,
                &user_free,
                missing,
                self.start,
                self.end,
            ) {
                None => {
                    proof {
                        lemma_fill_user_valid(cur, offices@, user, missing as int, hs, he);
                    }
                    return contracts;
                },
                Some((idx, slot_start, slot_end)) => {
                    let office = &offices[idx];
                    let ghost spec_office = offices@[idx as int];
                    match Contract::for_office(
                        office,
                        user,
                        Date { days: slot_start },
                        Date { days: slot_end },
                    ) {
                        Err(_) => {
                            proof {
                                assert(false);
                            }
                            return contracts;
                        },
                        Ok(contract) => {
                            let ghost p = Placement {
                                host: spec_office.owner,
                                guest: user,
                                office: spec_office.id,
                                rent: spec_office.available_positions
                                    * spec_office.position_price,
                                start: slot_start as int,
                                end: slot_end as int,
                            };
                            proof {
                                assert(placement_of(contract) == p);
                            }
                            let got: u64 = (slot_end - slot_start) as u64;
                            contracts.push(contract);
                            proof {
                                assert(placements_of(contracts@) =~= cur.push(p));
                                lemma_fill_user_valid(cur, offices@, user, missing as int, hs, he);
                                lemma_found_slot_placement_valid(
                                    cur,
                                    offices@,
                                    user,
                                    user_free@,
                                    missing as int,
                                    hs,
                                    he,
                                );
                                assert(contracts@.subrange(0, orig.len() as int) =~= orig);
                            }
                            if got >= missing {
                                proof {
                                    assert(fill_user(cur, offices@, user, missing as int, hs, he)
                                        == cur.push(p));
                                }
                                return contracts;
                            } else {
                                proof {
                                    assert(fill_user(cur, offices@, user, missing as int, hs, he)
                                        == fill_user(
                                        cur.push(p),
                                        offices@,
                                        user,
                                        missing as int - got as int,
                                        hs,
                                        he,
                                    ));
                                }
                                missing = missing - got;
                            }
                        },
                    }
                },
            }
        }
    }

    /// One engine run: for each user in list order, top their locked days
    /// up to the target by appending conflict-free contracts on candidate
    /// offices they do not own. Deterministic, append-only, total: a user
    /// who cannot be fully satisfied is left short without an error.
    #[verifier::loop_isolation(false)]
    pub fn simulate(&self, users: &Vec<User>, offices: &Vec<Office>, contracts: Vec<Contract>) -> (r:
        Vec<Contract>)
        requires
            self.wf(),
            forall|i: int| 0 <= i < offices@.len() ==> (#[trigger] offices@[i]).wf(),
            placements_valid(
                placements_of(contracts@),
                self.start.days as int,
                self.end.days as int,
            ),
        ensures
            placements_of(r@) == schedule_spec(
                users@,
                offices@,
                placements_of(contracts@),
                self.start.days as int,
                self.end.days as int,
                self.target_days_in_office as int,
            ),
            placements_valid(placements_of(r@), self.start.days as int, self.end.days as int),
            contracts@.len() <= r@.len(),
            r@.subrange(0, contracts@.len() as int) == contracts@,
    {
        let ghost hs = self.start.days as int;
        let ghost he = self.end.days as int;
        let ghost t = self.target_days_in_office as int;
        let ghost orig = contracts@;
        let mut contracts = contracts;
        let mut ui: usize = 0;
        proof {
            assert(users@.subrange(0, users@.len() as int) =~= users@);
        }
        while ui < users.len()
            invariant
                ui <= users@.len(),
                self.wf(),
                hs == self.start.days as int,
                he == self.end.days as int,
                t == self.target_days_in_office as int,
                forall|i: int| 0 <= i < offices@.len() ==> (#[trigger] offices@[i]).wf(),
                placements_valid(placements_of(contracts@), hs, he),
                schedule_spec(users@, offices@, placements_of(orig), hs, he, t) == schedule_spec(
                    users@.subrange(ui as int, users@.len() as int),
                    offices@,
                    placements_of(contracts@),
                    hs,
                    he,
                    t,
                ),
                orig.len() <= contracts@.len(),
                contracts@.subrange(0, orig.len() as int) == orig,
            decreases users@.len() - ui,
        {
            let ghost sub = users@.subrange(ui as int, users@.len() as int);
            let ghost sub1 = users@.subrange(ui as int + 1, users@.len() as int);
            let ghost cur = placements_of(contracts@);
            proof {
                assert(sub[0] == users@[ui as int]);
                assert(sub.drop_first() =~= sub1);
            }
            let user = users[ui].id();
            let locked_ranges = guest_busy_ranges(&contracts, user);
            proof {
                lemma_busy_of_guest_ok(cur, user, hs, he);
            }
            let locked = total_locked_days(&locked_ranges);
            let target = self.target_days_in_office;
            if (target as u128) > locked {
                let diff: u128 = target as u128 - locked;
                let missing_days: u64 = if diff >= 120 {
                    diff as u64
                } else {
                    120
                };
                proof {
                    assert(missing_days as int == (if t - total_days(busy_of_guest(cur, user))
                        >= CONTRACT_DURATION_MINIMUM_DAYS {
                        t - total_days(busy_of_guest(cur, user))
                    } else {
                        CONTRACT_DURATION_MINIMUM_DAYS as int
                    }));
                    assert(plan_user(cur, offices@, users@[ui as int].id, hs, he, t) == fill_user(
                        cur,
                        offices@,
                        users@[ui as int].id,
                        missing_days as int,
                        hs,
                        he,
                    ));
                }
                contracts = self.fill_for_user(contracts, offices, user, missing_days);
                proof {
                    assert(contracts@.subrange(0, orig.len() as int) =~= orig);
                }
            } else {
                proof {
                    assert(plan_user(cur, offices@, users@[ui as int].id, hs, he, t) == cur);
                }
            }
            ui += 1;
        }
        proof {
            assert(users@.subrange(users@.len() as int, users@.len() as int)
                =~= Seq::<User>::empty());
        }
        contracts
    }
}

} // verus!
