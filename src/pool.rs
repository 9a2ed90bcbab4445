//! The pool of validated upstreams and its rotation policies.
//!
//! Probing is the host program's work: it asks the pool for the candidates,
//! probes them, and hands the reports back. The pool keeps its entries
//! sorted by latency with distinct clean addresses, and its current index in
//! range, in every state.
use vstd::prelude::*;
use crate::config::Config;
use crate::entry::{
    ProxyEntry,
    ProbeReport,
    rank_reports,
    sorted_by_latency,
    stably_ranked,
    reachable,
    addresses,
};
use crate::proxy_list::{
    texts,
    is_clean_list,
    is_clean_address,
    proxy_list,
    join_lines,
    parse_proxy_list,
    render_proxy_list,
    lemma_proxy_list_clean,
    lemma_read_back,
};

verus! {

/// Why a proxy list could not be loaded.
#[derive(Debug, Clone, Copy, PartialEq, Eq, Structural)]
pub enum LoadError {
    /// The list names no address.
    EmptyProxyFile,
}

/// Distinct clean addresses, to be probed.
pub struct Candidates {
    addresses: Vec<String>,
}

impl View for Candidates {
    type V = Seq<Seq<char>>;

    closed spec fn view(&self) -> Seq<Seq<char>> {
        texts(self.addresses@)
    }
}

impl Candidates {
    #[verifier::type_invariant]
    spec fn well_formed(self) -> bool {
        is_clean_list(texts(self.addresses@))
    }

    /// The strings behind the addresses.
    pub closed spec fn strings(&self) -> Seq<String> {
        self.addresses@
    }

    /// The candidates a proxy-list text names, in file order; an error when
    /// it names none.
    pub fn from_text(text: &str) -> (r: Result<Candidates, LoadError>)
        ensures
            r matches Ok(c) ==> c@ == proxy_list(text@) && c@.len() > 0 && texts(c.strings())
                == c@,
            r matches Err(e) ==> e == LoadError::EmptyProxyFile,
            r is Err <==> proxy_list(text@).len() == 0,
    {
        let addresses = parse_proxy_list(text);
        proof {
            lemma_proxy_list_clean(text@);
        }
        if addresses.len() == 0 {
            Err(LoadError::EmptyProxyFile)
        } else {
            Ok(Candidates { addresses })
        }
    }

    /// How many addresses there are.
    pub fn len(&self) -> (r: usize)
        ensures
            r == self@.len(),
    {
        self.addresses.len()
    }

    /// A copy of the addresses, in order: what the prober probes, where
    /// position `i` is candidate `i` of the reports.
    pub fn addresses(&self) -> (r: Vec<String>)
        ensures
            texts(r@) == self@,
    {
        let r = self.addresses.clone();
        assert(texts(r@) =~= texts(self.addresses@));
        r
    }
}

/// The pool as a mathematical value: its entries and the current position.
pub struct PoolView {
    pub entries: Seq<ProxyEntry>,
    pub current: nat,
}

impl PoolView {
    /// Entries sorted by latency with distinct clean addresses, and the
    /// current position on an entry (0 when there is none).
    pub open spec fn well_formed(self) -> bool {
        &&& sorted_by_latency(self.entries)
        &&& is_clean_list(addresses(self.entries))
        &&& self.entries.len() == 0 ==> self.current == 0
        &&& self.entries.len() > 0 ==> self.current < self.entries.len()
    }

    /// The selected entry, if any.
    pub open spec fn current_entry(self) -> Option<ProxyEntry> {
        if self.entries.len() > 0 {
            Some(self.entries[self.current as int])
        } else {
            None
        }
    }

    /// One step of round-robin rotation.
    pub open spec fn advanced(self) -> PoolView {
        if self.entries.len() == 0 {
            self
        } else {
            PoolView { entries: self.entries, current: ((self.current + 1) % self.entries.len()) as nat }
        }
    }

    /// `k` steps of rotation.
    pub open spec fn advanced_by(self, k: nat) -> PoolView
        decreases k,
    {
        if k == 0 {
            self
        } else {
            self.advanced_by((k - 1) as nat).advanced()
        }
    }

    /// The pool after choosing entry `n`, counted from 1 and wrapping around.
    pub open spec fn selected(self, n: int) -> PoolView {
        if self.entries.len() == 0 {
            self
        } else {
            PoolView { entries: self.entries, current: ((n - 1) % (self.entries.len() as int)) as nat }
        }
    }

    /// The pool after its entries are replaced by `entries`, the position
    /// kept where it still names an entry and otherwise moved to the last one.
    pub open spec fn replaced(self, entries: Seq<ProxyEntry>) -> PoolView {
        PoolView {
            entries,
            current: if entries.len() == 0 {
                0
            } else if self.current < entries.len() {
                self.current
            } else {
                (entries.len() - 1) as nat
            },
        }
    }
}

/// The live set of upstreams, the current selection and the configuration.
pub struct ProxyPool {
    entries: Vec<ProxyEntry>,
    current_index: usize,
    config: Config,
}

impl View for ProxyPool {
    type V = PoolView;

    closed spec fn view(&self) -> PoolView {
        PoolView { entries: self.entries@, current: self.current_index as nat }
    }
}

/// The addresses of the entries as strings.
fn address_list(entries: &Vec<ProxyEntry>) -> (r: Vec<String>)
    ensures
        texts(r@) == addresses(entries@),
{
    let mut r: Vec<String> = Vec::new();
    let mut i: usize = 0;
    while i < entries.len()
        invariant
            i <= entries.len(),
            r@.len() == i,
            texts(r@) == addresses(entries@.subrange(0, i as int)),
        decreases entries.len() - i,
    {
        let ghost before = r@;
        r.push(entries[i].address.clone());
        proof {
            let sub = entries@.subrange(0, i + 1);
            assert forall|j: int| 0 <= j <= i implies texts(r@)[j] == addresses(sub)[j] by {
                if j < i {
                    assert(r@[j] == before[j]);
                    assert(sub[j] == entries@.subrange(0, i as int)[j]);
                    assert(texts(before)[j] == addresses(entries@.subrange(0, i as int))[j]);
                }
            }
            assert(texts(r@) =~= addresses(sub));
        }
        i += 1;
    }
    assert(entries@.subrange(0, entries.len() as int) =~= entries@);
    r
}

/// Ranked entries of distinct candidates form a well-formed pool.
proof fn lemma_ranked_well_formed(cands: Seq<String>, ranked: Seq<ProxyEntry>)
    requires
        is_clean_list(texts(cands)),
        forall|i: int| 0 <= i < ranked.len() ==> cands.contains(#[trigger] ranked[i].address),
        addresses(ranked).no_duplicates(),
    ensures
        is_clean_list(addresses(ranked)),
{
    assert forall|i: int| 0 <= i < addresses(ranked).len() implies #[trigger] is_clean_address(
        addresses(ranked)[i],
    ) by {
        assert(0 <= i < ranked.len());
        assert(cands.contains(ranked[i].address));
        let k = choose|k: int| 0 <= k < cands.len() && cands[k] == ranked[i].address;
        assert(is_clean_address(texts(cands)[k]));
    }
}

impl ProxyPool {
    #[verifier::type_invariant]
    spec fn well_formed(self) -> bool {
        self@.well_formed()
    }

    /// The configuration the pool was made with.
    pub closed spec fn spec_config(&self) -> Config {
        self.config
    }

    /// An empty pool.
    pub fn new(config: Config) -> (r: ProxyPool)
        ensures
            r@.entries.len() == 0,
            r@.current == 0,
            r.spec_config() == config,
    {
        ProxyPool { entries: Vec::new(), current_index: 0, config }
    }

    /// The configuration the pool was made with.
    pub fn get_config(&self) -> (r: &Config)
        ensures
            *r == self.spec_config(),
    {
        &self.config
    }

    /// The path of the proxy-list file.
    pub fn proxy_file(&self) -> (r: &String)
        ensures
            *r == self.spec_config().proxy.proxy_file,
    {
        &self.config.proxy.proxy_file
    }

    /// In every state, the entries are sorted by latency, their addresses
    /// are distinct and clean, and the selection names an entry. Does
    /// nothing at run time; it hands the fact to the caller's proofs.
    pub fn check_well_formed(&self)
        ensures
            self@.well_formed(),
    {
        proof {
            use_type_invariant(self);
        }
    }

    /// A copy of the selected entry; nothing when the pool is empty.
    pub fn get_current_proxy(&self) -> (r: Option<ProxyEntry>)
        ensures
            r == self@.current_entry(),
    {
        proof {
            use_type_invariant(self);
        }
        if self.entries.len() == 0 {
            None
        } else {
            Some(self.entries[self.current_index].snapshot())
        }
    }

    /// Moves the selection to the next entry, wrapping around, and returns
    /// it; an empty pool stays as it is and gives nothing.
    pub fn next_proxy(&mut self) -> (r: Option<ProxyEntry>)
        ensures
            final(self)@ == old(self)@.advanced(),
            final(self).spec_config() == old(self).spec_config(),
            r == final(self)@.current_entry(),
    {
        proof {
            use_type_invariant(&*self);
        }
        let n = self.entries.len();
        if n == 0 {
            return None;
        }
        self.current_index = (self.current_index + 1) % n;
        Some(self.entries[self.current_index].snapshot())
    }

    /// Selects entry `index`, counted from 1 and wrapping around (0 names the
    /// last entry), and returns it; an empty pool stays as it is and gives
    /// nothing.
    pub fn choose_proxy(&mut self, index: usize) -> (r: Option<ProxyEntry>)
        ensures
            final(self)@ == old(self)@.selected(index as int),
            final(self).spec_config() == old(self).spec_config(),
            r == final(self)@.current_entry(),
    {
        proof {
            use_type_invariant(&*self);
        }
        let n = self.entries.len();
        if n == 0 {
            return None;
        }
        let i = if index == 0 {
            n - 1
        } else {
            (index - 1) % n
        };
        assert(i as int == (index as int - 1) % (n as int)) by (nonlinear_arith)
            requires
                n > 0,
                index == 0 ==> i == n - 1,
                index > 0 ==> i == (index - 1) % n as int,
        ;
        self.current_index = i;
        Some(self.entries[self.current_index].snapshot())
    }

    /// A copy of all entries, in order.
    pub fn list_proxies(&self) -> (r: Vec<ProxyEntry>)
        ensures
            r@ == self@.entries,
    {
        let mut r: Vec<ProxyEntry> = Vec::new();
        let mut i: usize = 0;
        while i < self.entries.len()
            invariant
                i <= self.entries.len(),
                r@ == self.entries@.subrange(0, i as int),
            decreases self.entries.len() - i,
        {
            r.push(self.entries[i].snapshot());
            assert(r@ =~= self.entries@.subrange(0, i + 1));
            i += 1;
        }
        assert(self.entries@.subrange(0, self.entries.len() as int) =~= self.entries@);
        r
    }

    /// What a health cycle probes: the addresses of the entries, in order;
    /// nothing when the pool is empty.
    pub fn health_candidates(&self) -> (r: Option<Candidates>)
        ensures
            r is None <==> self@.entries.len() == 0,
            r matches Some(c) ==> c@ == addresses(self@.entries),
    {
        proof {
            use_type_invariant(self);
        }
        if self.entries.len() == 0 {
            None
        } else {
            let addresses = address_list(&self.entries);
            Some(Candidates { addresses })
        }
    }

    /// Ends a load: the entries become the reachable candidates ranked by
    /// latency, the first one is selected, and the returned text is what the
    /// proxy-list file is rewritten to.
    pub fn finish_load(&mut self, candidates: &Candidates, reports: &Vec<ProbeReport>) -> (r:
        String)
        ensures
            stably_ranked(final(self)@.entries, reachable(candidates.strings(), reports@)),
            final(self)@.current == 0,
            final(self)@.well_formed(),
            final(self).spec_config() == old(self).spec_config(),
            r@ == join_lines(addresses(final(self)@.entries)),
    {
        proof {
            use_type_invariant(candidates);
            use_type_invariant(&*self);
        }
        let ranked = rank_reports(&candidates.addresses, reports);
        proof {
            assert(candidates.strings() == candidates.addresses@);
            assert(texts(candidates.addresses@).no_duplicates());
            lemma_ranked_well_formed(candidates.addresses@, ranked@);
        }
        self.current_index = 0;
        self.entries = ranked;
        let text = render_proxy_list(&address_list(&self.entries));
        proof {
            use_type_invariant(&*self);
        }
        text
    }

    /// Ends a health cycle: the entries become the candidates that passed
    /// ranked by latency, the selection is kept in range, and when some
    /// entry is left the returned text is what the proxy-list file is
    /// rewritten to.
    pub fn finish_health_check(&mut self, checked: &Candidates, reports: &Vec<ProbeReport>) -> (r:
        Option<String>)
        ensures
            stably_ranked(final(self)@.entries, reachable(checked.strings(), reports@)),
            final(self)@ == old(self)@.replaced(final(self)@.entries),
            final(self)@.well_formed(),
            final(self).spec_config() == old(self).spec_config(),
            r is None <==> final(self)@.entries.len() == 0,
            r matches Some(t) ==> t@ == join_lines(addresses(final(self)@.entries)),
    {
        proof {
            use_type_invariant(checked);
            use_type_invariant(&*self);
        }
        let ranked = rank_reports(&checked.addresses, reports);
        proof {
            assert(checked.strings() == checked.addresses@);
            assert(texts(checked.addresses@).no_duplicates());
            lemma_ranked_well_formed(checked.addresses@, ranked@);
        }
        let n = ranked.len();
        let kept = if n == 0 {
            0
        } else if self.current_index < n {
            self.current_index
        } else {
            n - 1
        };
        self.current_index = 0;
        self.entries = ranked;
        self.current_index = kept;
        proof {
            use_type_invariant(&*self);
        }
        if n == 0 {
            None
        } else {
            Some(render_proxy_list(&address_list(&self.entries)))
        }
    }
}

/// Rotation law: `k` steps of rotation from position `i` of a non-empty pool
/// land on position `(i + k) mod n`.
pub proof fn lemma_rotation(v: PoolView, k: nat)
    requires
        v.well_formed(),
        v.entries.len() > 0,
    ensures
        v.advanced_by(k).entries == v.entries,
        v.advanced_by(k).current == (v.current as int + k as int) % (v.entries.len() as int),
    decreases k,
{
    let n = v.entries.len() as int;
    if k == 0 {
        let c = v.current as int;
        assert((c + 0) % n == c) by (nonlinear_arith)
            requires
                0 <= c < n,
        ;
    } else {
        lemma_rotation(v, (k - 1) as nat);
        let c = v.current as int;
        assert(((c + (k - 1)) % n + 1) % n == (c + k) % n) by {
            vstd::arithmetic::div_mod::lemma_add_mod_noop(c + k - 1, 1, n);
            vstd::arithmetic::div_mod::lemma_mod_twice(1, n);
            vstd::arithmetic::div_mod::lemma_mod_bound(1, n);
            if n == 1 {
                assert(1int % 1 == 0);
                assert(((c + (k - 1)) % n + 1) % n == 0) by (nonlinear_arith)
                    requires
                        n == 1,
                ;
                assert((c + k) % n == 0) by (nonlinear_arith)
                    requires
                        n == 1,
                ;
            } else {
                vstd::arithmetic::div_mod::lemma_small_mod(1, n as nat);
                vstd::arithmetic::div_mod::lemma_add_mod_noop((c + k - 1), 1, n);
                vstd::arithmetic::div_mod::lemma_mod_twice(c + k - 1, n);
                vstd::arithmetic::div_mod::lemma_add_mod_noop((c + k - 1) % n, 1, n);
            }
        }
    }
}

/// Selection law: after choosing entry `n`, the selected entry is the one at
/// position `(n - 1) mod |entries|`.
pub proof fn lemma_selection(v: PoolView, n: int)
    requires
        v.well_formed(),
        v.entries.len() > 0,
    ensures
        v.selected(n).entries == v.entries,
        v.selected(n).current_entry() == Some(v.entries[(n - 1) % (v.entries.len() as int)]),
{
}

/// An empty pool selects nothing, and neither rotation nor choosing changes it.
pub proof fn lemma_empty_pool(v: PoolView, n: int)
    requires
        v.entries.len() == 0,
    ensures
        v.current_entry() is None,
        v.advanced() == v,
        v.selected(n) == v,
{
}

/// File mirror: the text written after a load or a health cycle reads back
/// as the addresses of the entries, in pool order.
pub proof fn lemma_file_mirror(v: PoolView)
    requires
        v.well_formed(),
    ensures
        proxy_list(join_lines(addresses(v.entries))) == addresses(v.entries),
{
    lemma_read_back(addresses(v.entries));
}

} // verus!
