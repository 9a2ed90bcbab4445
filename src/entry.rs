//! Upstream entries and the ranking of probe results.
//!
//! A probe run hands back one report per finished probe, in the order the
//! probes finished. `rank_reports` keeps the successful ones and orders them
//! by latency; equal latencies keep the order in which they were reported.
use vstd::prelude::*;
use std::time::Instant;
use crate::proxy_list::texts;

verus! {

/// Relies on `std::time::Instant`: a monotonic time stamp, carried through and
/// never read.
#[verifier::external_type_specification]
#[verifier::external_body]
pub struct ExInstant(Instant);

/// Relies on `Instant: Copy`: a clone is the same time stamp.
pub assume_specification[ <Instant as Clone>::clone ](i: &Instant) -> (r: Instant)
    ensures
        r == *i,
;

/// One upstream SOCKS5 proxy of the pool.
#[derive(Clone, Debug)]
pub struct ProxyEntry {
    /// `host:port` of the upstream.
    pub address: String,
    /// Round trip of the last successful probe, in nanoseconds.
    pub latency_ns: u64,
    /// When the last probe finished.
    pub last_check: Instant,
    /// Probe failures in a row; every entry kept in the pool has 0.
    pub fail_count: u32,
}

/// What a successful probe measured.
#[derive(Clone, Copy, Debug)]
pub struct Measurement {
    pub latency_ns: u64,
    pub checked_at: Instant,
}

/// The outcome of probing one candidate: its position in the candidate list
/// and, when the probe succeeded, what it measured.
#[derive(Clone, Copy, Debug)]
pub struct ProbeReport {
    pub candidate: usize,
    pub measured: Option<Measurement>,
}

impl ProxyEntry {
    /// A copy of this entry.
    pub fn snapshot(&self) -> (r: ProxyEntry)
        ensures
            r == *self,
    {
        ProxyEntry {
            address: self.address.clone(),
            latency_ns: self.latency_ns,
            last_check: self.last_check,
            fail_count: self.fail_count,
        }
    }

    /// The latency in whole milliseconds.
    pub fn latency_ms(&self) -> (r: u64)
        ensures
            r == self.latency_ns / 1_000_000,
    {
        self.latency_ns / 1_000_000
    }
}

/// Latencies never decrease along `s`.
pub open spec fn sorted_by_latency(s: Seq<ProxyEntry>) -> bool {
    forall|i: int, j: int| 0 <= i < j < s.len() ==> s[i].latency_ns <= s[j].latency_ns
}

pub open spec fn latency_is(l: u64) -> spec_fn(ProxyEntry) -> bool {
    |e: ProxyEntry| e.latency_ns == l
}

/// The entries of `s` whose latency is `l`, in their order in `s`.
pub open spec fn with_latency(s: Seq<ProxyEntry>, l: u64) -> Seq<ProxyEntry> {
    s.filter(latency_is(l))
}

/// `r` is `s` stably sorted by latency: sorted, and for each latency the
/// entries that have it come in the same order as in `s`.
pub open spec fn stably_ranked(r: Seq<ProxyEntry>, s: Seq<ProxyEntry>) -> bool {
    &&& sorted_by_latency(r)
    &&& forall|l: u64| #[trigger] with_latency(r, l) == with_latency(s, l)
}

/// The addresses of the entries, in order.
pub open spec fn addresses(s: Seq<ProxyEntry>) -> Seq<Seq<char>> {
    s.map_values(|e: ProxyEntry| e.address@)
}

/// Some report of `reps` is about candidate `c`.
pub open spec fn mentions(reps: Seq<ProbeReport>, c: usize) -> bool {
    exists|j: int| 0 <= j < reps.len() && #[trigger] reps[j].candidate == c
}

/// The successful reports about one of `n` candidates, each candidate at its
/// first success only, in report order.
pub open spec fn admitted(n: nat, reps: Seq<ProbeReport>) -> Seq<ProbeReport>
    decreases reps.len(),
{
    if reps.len() == 0 {
        reps
    } else {
        let prev = admitted(n, reps.drop_last());
        let r = reps.last();
        if r.measured is Some && r.candidate < n && !mentions(prev, r.candidate) {
            prev.push(r)
        } else {
            prev
        }
    }
}

/// The fresh entry a successful report gives.
pub open spec fn entry_for(cands: Seq<String>, r: ProbeReport) -> ProxyEntry {
    ProxyEntry {
        address: cands[r.candidate as int],
        latency_ns: r.measured->0.latency_ns,
        last_check: r.measured->0.checked_at,
        fail_count: 0,
    }
}

/// The entries of the reachable candidates, in report order.
pub open spec fn reachable(cands: Seq<String>, reps: Seq<ProbeReport>) -> Seq<ProxyEntry> {
    admitted(cands.len(), reps).map_values(|r: ProbeReport| entry_for(cands, r))
}

proof fn lemma_with_latency_push(s: Seq<ProxyEntry>, e: ProxyEntry, l: u64)
    ensures
        with_latency(s.push(e), l) == if e.latency_ns == l {
            with_latency(s, l).push(e)
        } else {
            with_latency(s, l)
        },
{
    reveal(Seq::filter);
    assert(s.push(e).drop_last() =~= s);
}

proof fn lemma_with_latency_none(s: Seq<ProxyEntry>, l: u64)
    requires
        forall|i: int| 0 <= i < s.len() ==> s[i].latency_ns != l,
    ensures
        with_latency(s, l) == Seq::<ProxyEntry>::empty(),
    decreases s.len(),
{
    reveal(Seq::filter);
    if s.len() > 0 {
        lemma_with_latency_none(s.drop_last(), l);
    }
}

/// Inserting `e` between the entries not slower and those slower than it
/// orders each latency class as appending `e` would.
proof fn lemma_insert_stable(s: Seq<ProxyEntry>, p: int, e: ProxyEntry, l: u64)
    requires
        0 <= p <= s.len(),
        forall|i: int| 0 <= i < p ==> s[i].latency_ns <= e.latency_ns,
        forall|i: int| p <= i < s.len() ==> s[i].latency_ns > e.latency_ns,
    ensures
        with_latency(s.insert(p, e), l) == with_latency(s.push(e), l),
{
    let pre = s.subrange(0, p);
    let post = s.subrange(p, s.len() as int);
    let one = seq![e];
    assert(s.insert(p, e) =~= pre + one + post);
    assert(s.push(e) =~= pre + post + one);
    Seq::filter_distributes_over_add(pre + one, post, latency_is(l));
    Seq::filter_distributes_over_add(pre, one, latency_is(l));
    Seq::filter_distributes_over_add(pre + post, one, latency_is(l));
    Seq::filter_distributes_over_add(pre, post, latency_is(l));
    lemma_with_latency_push(Seq::empty(), e, l);
    assert(Seq::<ProxyEntry>::empty().push(e) =~= one);
    lemma_with_latency_none(Seq::<ProxyEntry>::empty(), l);
    if e.latency_ns == l {
        assert forall|i: int| 0 <= i < post.len() implies post[i].latency_ns != l by {
            assert(post[i] == s[p + i]);
        }
        lemma_with_latency_none(post, l);
        assert(with_latency(s.insert(p, e), l) =~= with_latency(pre, l) + with_latency(one, l));
        assert(with_latency(s.push(e), l) =~= with_latency(pre, l) + with_latency(one, l));
    } else {
        assert(with_latency(one, l) =~= Seq::<ProxyEntry>::empty());
        assert(with_latency(s.insert(p, e), l) =~= with_latency(pre, l) + with_latency(post, l));
        assert(with_latency(s.push(e), l) =~= with_latency(pre, l) + with_latency(post, l));
    }
}

/// Puts `e` after every entry that is not slower than it.
fn insert_by_latency(v: &mut Vec<ProxyEntry>, e: ProxyEntry) -> (p: usize)
    requires
        sorted_by_latency(old(v)@),
    ensures
        p <= old(v)@.len(),
        final(v)@ == old(v)@.insert(p as int, e),
        sorted_by_latency(final(v)@),
        forall|l: u64| #[trigger]
            with_latency(final(v)@, l) == with_latency(old(v)@.push(e), l),
{
    let mut p = v.len();
    while p > 0 && v[p - 1].latency_ns > e.latency_ns
        invariant
            p <= v.len(),
            forall|i: int| p <= i < v.len() ==> v@[i].latency_ns > e.latency_ns,
        decreases p,
    {
        p -= 1;
    }
    let ghost old_v = v@;
    proof {
        assert forall|i: int| 0 <= i < p implies old_v[i].latency_ns <= e.latency_ns by {
            assert(old_v[i].latency_ns <= old_v[p - 1].latency_ns);
        }
        assert forall|l: u64| #[trigger]
            with_latency(old_v.insert(p as int, e), l) == with_latency(old_v.push(e), l) by {
            lemma_insert_stable(old_v, p as int, e, l);
        }
    }
    v.insert(p, e);
    proof {
        let w = v@;
        assert forall|i: int, j: int| 0 <= i < j < w.len() implies w[i].latency_ns
            <= w[j].latency_ns by {
            if i < p && j < p {
                assert(w[i] == old_v[i] && w[j] == old_v[j]);
            } else if i < p && j > p {
                assert(w[i] == old_v[i] && w[j] == old_v[j - 1]);
            } else if i < p {
                assert(w[i] == old_v[i]);
            } else if i == p {
                assert(w[j] == old_v[j - 1]);
            } else {
                assert(w[i] == old_v[i - 1] && w[j] == old_v[j - 1]);
            }
        }
    }
    p
}

/// The entries of the candidates whose probe succeeded, ordered by latency;
/// equal latencies keep report order. A candidate counts at its first
/// successful report; reports about no candidate are ignored.
pub fn rank_reports(candidates: &Vec<String>, reports: &Vec<ProbeReport>) -> (r: Vec<
    ProxyEntry,
>)
    ensures
        stably_ranked(r@, reachable(candidates@, reports@)),
        r@.len() == reachable(candidates@, reports@).len(),
        forall|i: int| 0 <= i < r@.len() ==> candidates@.contains(#[trigger] r@[i].address),
        texts(candidates@).no_duplicates() ==> addresses(r@).no_duplicates(),
{
    let n = candidates.len();
    let mut taken: Vec<bool> = vec![false; n];
    let mut out: Vec<ProxyEntry> = Vec::new();
    let ghost cands = candidates@;
    let ghost mut adm: Seq<ProbeReport> = Seq::empty();
    let ghost mut unranked: Seq<ProxyEntry> = Seq::empty();
    let mut i: usize = 0;
    while i < reports.len()
        invariant
            i <= reports.len(),
            n == cands.len(),
            cands == candidates@,
            taken@.len() == n,
            adm == admitted(n as nat, reports@.subrange(0, i as int)),
            unranked == adm.map_values(|r: ProbeReport| entry_for(cands, r)),
            forall|c: int| 0 <= c < n ==> #[trigger] taken@[c] == mentions(adm, c as usize),
            forall|j: int|
                0 <= j < adm.len() ==> (#[trigger] adm[j]).candidate < n && adm[j].measured is Some,
            stably_ranked(out@, unranked),
            out@.len() == unranked.len(),
            forall|k: int| 0 <= k < out@.len() ==> unranked.contains(#[trigger] out@[k]),
            texts(cands).no_duplicates() ==> addresses(out@).no_duplicates(),
        decreases reports.len() - i,
    {
        let ghost prefix = reports@.subrange(0, i as int);
        let ghost next_prefix = reports@.subrange(0, i + 1);
        proof {
            assert(next_prefix.drop_last() =~= prefix);
            assert(next_prefix.last() == reports@[i as int]);
        }
        let rep = reports[i];
        match rep.measured {
            Some(m) => {
                if rep.candidate < n && !taken[rep.candidate] {
                    let c = rep.candidate;
                    let e = ProxyEntry {
                        address: candidates[c].clone(),
                        latency_ns: m.latency_ns,
                        last_check: m.checked_at,
                        fail_count: 0,
                    };
                    let ghost old_out = out@;
                    let ghost old_adm = adm;
                    assert(e == entry_for(cands, rep));
                    let pos = insert_by_latency(&mut out, e);
                    taken.set(c, true);
                    proof {
                        adm = old_adm.push(rep);
                        let old_unranked = unranked;
                        unranked = adm.map_values(|r: ProbeReport| entry_for(cands, r));
                        assert(unranked =~= old_unranked.push(e));
                        assert forall|l: u64| #[trigger]
                            with_latency(out@, l) == with_latency(unranked, l) by {
                            lemma_with_latency_push(old_out, e, l);
                            lemma_with_latency_push(old_unranked, e, l);
                        }
                        assert forall|cc: int| 0 <= cc < n implies #[trigger] taken@[cc]
                            == mentions(adm, cc as usize) by {
                            if mentions(old_adm, cc as usize) {
                                let j = choose|j: int|
                                    0 <= j < old_adm.len() && #[trigger] old_adm[j].candidate
                                        == cc as usize;
                                assert(adm[j] == old_adm[j]);
                            }
                            if mentions(adm, cc as usize) && cc != c {
                                let j = choose|j: int|
                                    0 <= j < adm.len() && #[trigger] adm[j].candidate == cc as usize;
                                assert(j < old_adm.len());
                                assert(old_adm[j] == adm[j]);
                            }
                            if cc == c {
                                assert(adm[old_adm.len() as int].candidate == c);
                            }
                        }
                        assert forall|j: int| 0 <= j < adm.len() implies (#[trigger] adm[j]).candidate
                            < n && adm[j].measured is Some by {
                            if j < old_adm.len() {
                                assert(adm[j] == old_adm[j]);
                            }
                        }
                        assert forall|k: int| 0 <= k < out@.len() implies unranked.contains(
                            #[trigger] out@[k],
                        ) by {
                            let p = pos as int;
                            if k == p {
                                assert(unranked[old_unranked.len() as int] == e);
                            } else {
                                let kk = if k < p { k } else { k - 1 };
                                assert(out@[k] == old_out[kk]);
                                assert(old_unranked.contains(old_out[kk]));
                                let j = choose|j: int|
                                    0 <= j < old_unranked.len() && old_unranked[j] == old_out[kk];
                                assert(unranked[j] == old_unranked[j]);
                            }
                        }
                        if texts(cands).no_duplicates() {
                            let p = pos as int;
                            assert forall|k1: int, k2: int|
                                0 <= k1 < out@.len() && 0 <= k2 < out@.len() && k1 != k2 implies addresses(
                                out@,
                            )[k1] != addresses(out@)[k2] by {
                                if k1 != p && k2 != p {
                                    let a1 = if k1 < p { k1 } else { k1 - 1 };
                                    let a2 = if k2 < p { k2 } else { k2 - 1 };
                                    assert(out@[k1] == old_out[a1]);
                                    assert(out@[k2] == old_out[a2]);
                                    assert(addresses(old_out)[a1] != addresses(old_out)[a2]);
                                } else {
                                    let other = if k1 == p { k2 } else { k1 };
                                    let kk = if other < p { other } else { other - 1 };
                                    assert(out@[other] == old_out[kk]);
                                    assert(old_unranked.contains(old_out[kk]));
                                    let j = choose|j: int|
                                        0 <= j < old_unranked.len() && old_unranked[j] == old_out[kk];
                                    assert(old_unranked[j] == entry_for(cands, old_adm[j]));
                                    let cj = old_adm[j].candidate;
                                    assert(cj != c) by {
                                        if cj == c {
                                            assert(mentions(old_adm, c));
                                        }
                                    }
                                    assert(texts(cands)[cj as int] != texts(cands)[c as int]);
                                }
                            }
                        }
                    }
                }
            },
            None => {},
        }
        i += 1;
    }
    proof {
        assert(reports@.subrange(0, reports@.len() as int) =~= reports@);
        assert forall|k: int| 0 <= k < out@.len() implies candidates@.contains(
            #[trigger] out@[k].address,
        ) by {
            assert(unranked.contains(out@[k]));
            let j = choose|j: int| 0 <= j < unranked.len() && unranked[j] == out@[k];
            assert(unranked[j] == entry_for(cands, adm[j]));
            assert(out@[k].address == candidates@[adm[j].candidate as int]);
        }
    }
    out
}

} // verus!
