//! Partitioning of inbound writes by calendar date before they reach the
//! buffer: a write's payload is tagged with the partition key derived
//! from it.  Parsing the wire text and dispatching the partitions happen
//! at the service edge; the library derives keys (see
//! [`crate::outside::format_date_key`]) and carries tagged payloads.

use crate::outside::date_key_of;
use crate::outside::format_date_key;
use vstd::prelude::*;

verus! {

/// An error raised while splitting a write into partitions.
#[derive(Debug, Clone, PartialEq)]
pub enum PartitionError {
    /// A line of the request could not be parsed; lines count from one.
    LineParse { line_idx: usize },
    /// A line could not be folded into its partition's batch.
    LineBatchWrite { line_idx: usize },
}

/// A payload tagged with the partition key derived from it.
#[derive(Debug, Clone, PartialEq)]
pub struct Partitioned<T> {
    pub key: String,
    pub payload: T,
}

impl<T> Partitioned<T> {
    /// Wraps `payload` with a partition `key`.
    pub fn new(key: String, payload: T) -> (r: Self)
        ensures
            r == (Partitioned { key, payload }),
    {
        Partitioned { key, payload }
    }

    /// The partition payload.
    pub fn payload(&self) -> (r: &T)
        ensures
            r == &self.payload,
    {
        &self.payload
    }

    /// Unwraps into the partition key and the inner payload.
    pub fn into_parts(self) -> (r: (String, T))
        ensures
            r.0 == self.key,
            r.1 == self.payload,
    {
        (self.key, self.payload)
    }
}

/// The timestamp a line carries, or the write's default.
pub open spec fn effective_time(ts: Option<i64>, default_time: i64) -> i64 {
    match ts {
        Option::Some(v) => v,
        Option::None => default_time,
    }
}

/// The payloads, in arrival order, of the lines whose effective
/// timestamp falls on the calendar day keyed `k`.
pub open spec fn lines_for<T>(
    lines: Seq<(Option<i64>, T)>,
    default_time: i64,
    k: Seq<char>,
) -> Seq<T>
    decreases lines.len(),
{
    if lines.len() == 0 {
        Seq::empty()
    } else {
        let rest = lines_for(lines.drop_last(), default_time, k);
        if date_key_of(effective_time(lines.last().0, default_time)) == k {
            rest.push(lines.last().1)
        } else {
            rest
        }
    }
}

/// A day no processed line fell on collects nothing.
proof fn lemma_lines_for_empty<T>(lines: Seq<(Option<i64>, T)>, default_time: i64, k: Seq<char>)
    requires
        forall|j: int|
            0 <= j < lines.len() ==> date_key_of(
                effective_time((#[trigger] lines[j]).0, default_time),
            ) != k,
    ensures
        lines_for(lines, default_time, k).len() == 0,
    decreases lines.len(),
{
    if lines.len() > 0 {
        lemma_lines_for_empty(lines.drop_last(), default_time, k);
    }
}

/// Splits a run of timestamped payloads into per-calendar-day partitions:
/// each day that occurs gets exactly one group, keyed by its date, holding
/// that day's payloads in arrival order.  This is the routing decision of
/// the write-splitting service edge; parsing stays outside.
#[verifier::loop_isolation(false)]
#[verifier::rlimit(40)]
pub fn partition_by_day<T>(lines: Vec<(Option<i64>, T)>, default_time: i64) -> (r: Vec<
    Partitioned<Vec<T>>,
>)
    ensures
        forall|p: int, q: int|
            0 <= p < q < r@.len() ==> (#[trigger] r@[p].key@) != (#[trigger] r@[q].key@),
        forall|g: int|
            0 <= g < r@.len() ==> (#[trigger] r@[g].payload@) == lines_for(
                lines@,
                default_time,
                r@[g].key@,
            ) && r@[g].payload@.len() > 0,
        forall|i: int|
            0 <= i < lines@.len() ==> exists|g: int|
                0 <= g < r@.len() && (#[trigger] r@[g].key@) == date_key_of(
                    effective_time((#[trigger] lines@[i]).0, default_time),
                ),
{
    let ghost orig = lines@;
    let mut lines = lines;
    let _total = lines.len();
    proof {
        assert(orig.len() <= usize::MAX);
    }
    let mut out: Vec<Partitioned<Vec<T>>> = Vec::new();
    let mut i: usize = 0;
    while lines.len() > 0
        invariant
            orig.len() <= usize::MAX,
            i + lines@.len() == orig.len(),
            lines@ == orig.subrange(i as int, orig.len() as int),
            forall|p: int, q: int|
                0 <= p < q < out@.len() ==> (#[trigger] out@[p].key@) != (#[trigger] out@[q].key@),
            forall|g: int|
                0 <= g < out@.len() ==> (#[trigger] out@[g].payload@) == lines_for(
                    orig.take(i as int),
                    default_time,
                    out@[g].key@,
                ) && out@[g].payload@.len() > 0,
            forall|j: int|
                0 <= j < i ==> exists|g: int|
                    0 <= g < out@.len() && (#[trigger] out@[g].key@) == date_key_of(
                        effective_time((#[trigger] orig[j]).0, default_time),
                    ),
        decreases lines@.len(),
    {
        let (ts, payload) = lines.remove(0);
        proof {
            assert(orig.subrange(i as int, orig.len() as int)[0] == orig[i as int]);
            assert(lines@ =~= orig.subrange(i as int + 1, orig.len() as int));
            assert(orig.take(i as int + 1).drop_last() =~= orig.take(i as int));
            assert(orig.take(i as int + 1).last() == orig[i as int]);
        }
        let t = match ts {
            Option::Some(v) => v,
            Option::None => default_time,
        };
        let key = format_date_key(t);
        let ghost day = date_key_of(effective_time(orig[i as int].0, default_time));
        proof {
            assert(key@ == day);
        }
        let mut found: Option<usize> = Option::None;
        let mut g: usize = 0;
        while g < out.len() && found.is_none()
            invariant
                g <= out@.len(),
                match found {
                    Option::Some(gi) => gi < out@.len() && out@[gi as int].key@ == key@,
                    Option::None => forall|p: int|
                        0 <= p < g ==> (#[trigger] out@[p].key@) != key@,
                },
            decreases out@.len() - g + (if found is None {
                1int
            } else {
                0int
            }),
        {
            if out[g].key == key {
                found = Option::Some(g);
            } else {
                g += 1;
            }
        }
        let ghost out0 = out@;
        match found {
            Option::Some(gi) => {
                out[gi].payload.push(payload);
                proof {
                    assert forall|gg: int|
                        0 <= gg < out@.len() implies (#[trigger] out@[gg].payload@) == lines_for(
                        orig.take(i as int + 1),
                        default_time,
                        out@[gg].key@,
                    ) && out@[gg].payload@.len() > 0 by {
                        if gg != gi as int {
                            assert(out@[gg] == out0[gg]);
                            assert(out0[gg].key@ != out0[gi as int].key@ || gg == gi as int);
                            assert(out@[gg].key@ != day);
                        } else {
                            assert(out@[gg].key@ == day);
                            assert(out@[gg].payload@ == out0[gg].payload@.push(
                                orig[i as int].1,
                            ));
                        }
                    }
                    assert forall|p: int, q: int|
                        0 <= p < q < out@.len() implies (#[trigger] out@[p].key@) != (
                    #[trigger] out@[q].key@) by {
                        if p != gi as int {
                            assert(out@[p] == out0[p]);
                        }
                        if q != gi as int {
                            assert(out@[q] == out0[q]);
                        }
                        assert(out0[p].key@ != out0[q].key@);
                    }
                    assert(out@[gi as int].key@ == day);
                    assert forall|j: int|
                        0 <= j <= i implies exists|gw: int|
                        0 <= gw < out@.len() && (#[trigger] out@[gw].key@) == date_key_of(
                            effective_time((#[trigger] orig[j]).0, default_time),
                        ) by {
                        if j < i {
                            let g0 = choose|g0: int|
                                0 <= g0 < out0.len() && (#[trigger] out0[g0].key@) == date_key_of(
                                    effective_time((#[trigger] orig[j]).0, default_time),
                                );
                            if g0 != gi as int {
                                assert(out@[g0] == out0[g0]);
                            }
                            assert(out@[g0].key@ == out0[g0].key@);
                        } else {
                            assert(out@[gi as int].key@ == date_key_of(
                                effective_time(orig[j].0, default_time),
                            ));
                        }
                    }
                }
            },
            Option::None => {
                let mut group: Vec<T> = Vec::new();
                group.push(payload);
                out.push(Partitioned { key, payload: group });
                proof {
                    let li = out@.len() - 1;
                    assert(out@[li].key@ == day);
                    assert forall|j: int|
                        0 <= j < orig.take(i as int).len() implies date_key_of(
                        effective_time((#[trigger] orig.take(i as int)[j]).0, default_time),
                    ) != day by {
                        if date_key_of(effective_time(orig[j].0, default_time)) == day {
                            let gg = choose|gg: int|
                                0 <= gg < out0.len() && (#[trigger] out0[gg].key@) == date_key_of(
                                    effective_time(orig[j].0, default_time),
                                );
                            assert(out0[gg].key@ != key@);
                        }
                    }
                    lemma_lines_for_empty(orig.take(i as int), default_time, day);
                    assert(out@[li].payload@ =~= lines_for(
                        orig.take(i as int + 1),
                        default_time,
                        day,
                    ));
                    assert forall|gg: int|
                        0 <= gg < out@.len() implies (#[trigger] out@[gg].payload@) == lines_for(
                        orig.take(i as int + 1),
                        default_time,
                        out@[gg].key@,
                    ) && out@[gg].payload@.len() > 0 by {
                        if gg < li {
                            assert(out@[gg] == out0[gg]);
                            assert(out@[gg].key@ != day);
                        }
                    }
                    assert forall|p: int, q: int|
                        0 <= p < q < out@.len() implies (#[trigger] out@[p].key@) != (
                    #[trigger] out@[q].key@) by {
                        if q < li {
                            assert(out@[p] == out0[p]);
                            assert(out@[q] == out0[q]);
                            assert(out0[p].key@ != out0[q].key@);
                        } else {
                            assert(out@[p] == out0[p]);
                        }
                    }
                    assert forall|j: int|
                        0 <= j <= i implies exists|gw: int|
                        0 <= gw < out@.len() && (#[trigger] out@[gw].key@) == date_key_of(
                            effective_time((#[trigger] orig[j]).0, default_time),
                        ) by {
                        if j < i {
                            let g0 = choose|g0: int|
                                0 <= g0 < out0.len() && (#[trigger] out0[g0].key@) == date_key_of(
                                    effective_time((#[trigger] orig[j]).0, default_time),
                                );
                            assert(out@[g0] == out0[g0]);
                        } else {
                            assert(out@[li].key@ == date_key_of(
                                effective_time(orig[j].0, default_time),
                            ));
                        }
                    }
                }
            },
        }
        i += 1;
    }
    proof {
        assert(orig.take(orig.len() as int) =~= orig);
        assert(i == orig.len());
        assert forall|ii: int|
            0 <= ii < orig.len() implies exists|g: int|
            0 <= g < out@.len() && (#[trigger] out@[g].key@) == date_key_of(
                effective_time((#[trigger] orig[ii]).0, default_time),
            ) by {}
    }
    out
}

} // verus!
