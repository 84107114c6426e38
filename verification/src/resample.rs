//! Downsampling of an aggregate series to a coarser interval. The rule is
//! greedy thinning: the first point is kept, and after each kept point the
//! next kept one is the first whose timestamp lies at least the whole
//! interval later. The rule is deterministic and idempotent.
use vstd::prelude::*;

use crate::aggregation::AggregationDT;

verus! {

/// Timestamps that the resampler accepts: far enough from the `i64`
/// limits that adding one interval cannot overflow.
pub open spec fn ts_wide(t: int) -> bool {
    -0x4000_0000_0000_0000 <= t <= 0x4000_0000_0000_0000
}

/// The timestamp of the last kept point, or `dflt` when none is kept yet.
pub open spec fn last_kept(o: Seq<AggregationDT>, dflt: int) -> int {
    if o.len() > 0 {
        o.last().time as int
    } else {
        dflt
    }
}

/// Greedy thinning of `s` against a previously kept timestamp `last`:
/// a point survives exactly when it lies at least `gap` seconds past the
/// latest survivor before it.
pub open spec fn thin(s: Seq<AggregationDT>, last: int, gap: int) -> Seq<AggregationDT>
    decreases s.len(),
{
    if s.len() == 0 {
        Seq::empty()
    } else if s[0].time >= last + gap {
        seq![s[0]] + thin(s.drop_first(), s[0].time as int, gap)
    } else {
        thin(s.drop_first(), last, gap)
    }
}

/// What resampling a series to `interval_minutes` keeps: the first point,
/// then every point at least the whole interval after the last kept one.
pub open spec fn resample_spec(s: Seq<AggregationDT>, interval_minutes: int) -> Seq<
    AggregationDT,
> {
    if s.len() == 0 {
        s
    } else {
        seq![s[0]] + thin(s.drop_first(), s[0].time as int, 60 * interval_minutes)
    }
}

/// Consecutive kept points are at least `gap` apart.
pub open spec fn gapped(s: Seq<AggregationDT>, gap: int) -> bool {
    forall|j: int|
        0 <= j < s.len() - 1 ==> (s[j + 1].time as int) >= (#[trigger] s[j].time as int) + gap
}

/// Thinning keeps only points past `last + gap`, and what it keeps is
/// itself at least `gap` apart point to point.
proof fn lemma_thin_gapped(s: Seq<AggregationDT>, last: int, gap: int)
    ensures
        thin(s, last, gap).len() > 0 ==> (thin(s, last, gap)[0].time as int) >= last + gap,
        gapped(thin(s, last, gap), gap),
    decreases s.len(),
{
    if s.len() > 0 {
        if s[0].time >= last + gap {
            lemma_thin_gapped(s.drop_first(), s[0].time as int, gap);
            let rest = thin(s.drop_first(), s[0].time as int, gap);
            let o = seq![s[0]] + rest;
            assert forall|j: int| 0 <= j < o.len() - 1 implies (o[j + 1].time as int) >= ((
            #[trigger] o[j]).time as int) + gap by {
                if j == 0 {
                    assert(o[1] == rest[0]);
                } else {
                    assert(o[j] == rest[j - 1]);
                    assert(o[j + 1] == rest[j]);
                }
            }
        } else {
            lemma_thin_gapped(s.drop_first(), last, gap);
        }
    }
}

/// Thinning a series that already satisfies the spacing rule keeps every
/// point.
proof fn lemma_thin_identity(s: Seq<AggregationDT>, last: int, gap: int)
    requires
        s.len() > 0 ==> (s[0].time as int) >= last + gap,
        gapped(s, gap),
    ensures
        thin(s, last, gap) == s,
    decreases s.len(),
{
    if s.len() > 0 {
        assert(gapped(s.drop_first(), gap)) by {
            assert forall|j: int|
                0 <= j < s.drop_first().len() - 1 implies (s.drop_first()[j + 1].time as int) >= ((
            #[trigger] s.drop_first()[j]).time as int) + gap by {
                assert(s.drop_first()[j] == s[j + 1]);
                assert(s.drop_first()[j + 1] == s[j + 2]);
            }
        }
        if s.drop_first().len() > 0 {
            assert(s.drop_first()[0] == s[1]);
        }
        lemma_thin_identity(s.drop_first(), s[0].time as int, gap);
        assert(seq![s[0]] + s.drop_first() =~= s);
    }
}

/// Resampling is idempotent: resampling an already-resampled series at
/// the same interval changes nothing.
pub proof fn lemma_resample_idempotent(s: Seq<AggregationDT>, interval_minutes: int)
    ensures
        resample_spec(resample_spec(s, interval_minutes), interval_minutes) == resample_spec(
            s,
            interval_minutes,
        ),
{
    if s.len() > 0 {
        let gap = 60 * interval_minutes;
        let o = resample_spec(s, interval_minutes);
        let rest = thin(s.drop_first(), s[0].time as int, gap);
        lemma_thin_gapped(s.drop_first(), s[0].time as int, gap);
        assert(o[0] == s[0]);
        assert(o.drop_first() =~= rest);
        if rest.len() > 0 {
            assert(rest[0] == o[1]);
        }
        lemma_thin_identity(rest, s[0].time as int, gap);
        assert(resample_spec(o, interval_minutes) == seq![o[0]] + thin(
            o.drop_first(),
            o[0].time as int,
            gap,
        ));
        assert(resample_spec(o, interval_minutes) =~= o);
    }
}

/// Thinning commutes with appending one more point: the new point stays
/// exactly when it lies a whole interval past the last survivor.
proof fn lemma_thin_push(s: Seq<AggregationDT>, x: AggregationDT, last: int, gap: int)
    ensures
        thin(s.push(x), last, gap) == thin(s, last, gap) + (if (x.time as int) >= last_kept(
            thin(s, last, gap),
            last,
        ) + gap {
            seq![x]
        } else {
            Seq::empty()
        }),
    decreases s.len(),
{
    if s.len() == 0 {
        assert(s.push(x).drop_first() =~= Seq::<AggregationDT>::empty());
        assert(s.push(x)[0] == x);
        assert(thin(s.push(x).drop_first(), x.time as int, gap) =~= Seq::<AggregationDT>::empty());
        assert(thin(s.push(x).drop_first(), last, gap) =~= Seq::<AggregationDT>::empty());
        if (x.time as int) >= last + gap {
            assert(thin(s.push(x), last, gap) =~= thin(s, last, gap) + seq![x]);
        } else {
            assert(thin(s.push(x), last, gap) =~= thin(s, last, gap));
        }
    } else {
        assert(s.push(x).drop_first() =~= s.drop_first().push(x));
        assert(s.push(x)[0] == s[0]);
        if s[0].time >= last + gap {
            lemma_thin_push(s.drop_first(), x, s[0].time as int, gap);
            let rest = thin(s.drop_first(), s[0].time as int, gap);
            assert(last_kept(seq![s[0]] + rest, last) == last_kept(rest, s[0].time as int));
            if (x.time as int) >= last_kept(rest, s[0].time as int) + gap {
                assert(thin(s.push(x), last, gap) =~= thin(s, last, gap) + seq![x]);
            } else {
                assert(thin(s.push(x), last, gap) =~= thin(s, last, gap));
            }
        } else {
            lemma_thin_push(s.drop_first(), x, last, gap);
            if (x.time as int) >= last_kept(thin(s.drop_first(), last, gap), last) + gap {
                assert(thin(s.push(x), last, gap) =~= thin(s, last, gap) + seq![x]);
            } else {
                assert(thin(s.push(x), last, gap) =~= thin(s, last, gap));
            }
        }
    }
}

/// Resampling commutes with appending one more point.
proof fn lemma_resample_push(s: Seq<AggregationDT>, x: AggregationDT, interval_minutes: int)
    ensures
        s.len() == 0 ==> resample_spec(s.push(x), interval_minutes) == seq![x],
        s.len() > 0 ==> resample_spec(s.push(x), interval_minutes) == resample_spec(
            s,
            interval_minutes,
        ) + (if (x.time as int) >= last_kept(resample_spec(s, interval_minutes), 0) + 60
            * interval_minutes {
            seq![x]
        } else {
            Seq::empty()
        }),
{
    let gap = 60 * interval_minutes;
    if s.len() == 0 {
        assert(s.push(x)[0] == x);
        assert(s.push(x).drop_first() =~= Seq::<AggregationDT>::empty());
        assert(resample_spec(s.push(x), interval_minutes) =~= seq![x]);
    } else {
        assert(s.push(x)[0] == s[0]);
        assert(s.push(x).drop_first() =~= s.drop_first().push(x));
        lemma_thin_push(s.drop_first(), x, s[0].time as int, gap);
        let rest = thin(s.drop_first(), s[0].time as int, gap);
        assert(last_kept(seq![s[0]] + rest, 0) == last_kept(rest, s[0].time as int));
        if (x.time as int) >= last_kept(rest, s[0].time as int) + gap {
            assert(resample_spec(s.push(x), interval_minutes) =~= resample_spec(
                s,
                interval_minutes,
            ) + seq![x]);
        } else {
            assert(resample_spec(s.push(x), interval_minutes) =~= resample_spec(
                s,
                interval_minutes,
            ));
        }
    }
}

/// Reduces the series in place to roughly one point per `interval_minutes`
/// minutes, by the greedy thinning rule.
pub fn resample_series(series: &mut Vec<AggregationDT>, interval_minutes: i64)
    requires
        1 <= interval_minutes <= 0x8000_0000,
        forall|i: int| 0 <= i < old(series)@.len() ==> ts_wide(
            (#[trigger] old(series)@[i]).time as int,
        ),
    ensures
        final(series)@ == resample_spec(old(series)@, interval_minutes as int),
{
    let ghost all = series@;
    let gap: i64 = 60 * interval_minutes;
    let mut out: Vec<AggregationDT> = Vec::new();
    let mut last: i64 = 0;
    let mut i: usize = 0;
    proof {
        assert(all.take(0) =~= Seq::<AggregationDT>::empty());
    }
    while i < series.len()
        invariant
            all == series@,
            gap == 60 * interval_minutes,
            1 <= interval_minutes <= 0x8000_0000,
            forall|j: int| 0 <= j < all.len() ==> ts_wide((#[trigger] all[j]).time as int),
            i <= all.len(),
            out@ == resample_spec(all.take(i as int), interval_minutes as int),
            i > 0 ==> out@.len() > 0 && last as int == last_kept(out@, 0) && ts_wide(last as int),
            i == 0 ==> out@.len() == 0,
        decreases all.len() - i,
    {
        let p = series[i];
        proof {
            assert(all.take(i + 1) =~= all.take(i as int).push(all[i as int]));
            lemma_resample_push(all.take(i as int), p, interval_minutes as int);
        }
        if i == 0 {
            out.push(p);
            last = p.time;
        } else {
            if p.time >= last + gap {
                out.push(p);
                last = p.time;
            }
        }
        i = i + 1;
    }
    proof {
        assert(all.take(all.len() as int) =~= all);
    }
    *series = out;
}

} // verus!
