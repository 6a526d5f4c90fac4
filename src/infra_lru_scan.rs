//! Matching in order of recency: a credential that matches moves to the
//! front, so a returning client is found at the first candidate.

use crate::config::{credentials_from_config, flatten, views_of, Config, Credential, CredentialView};
use crate::crypto::{match_server, HANDSHAKE_LEN};
use crate::infra::{credential_opens, first_open, first_open_upto, lemma_first_open,
    lemma_first_open_head, lemma_first_open_stable, opt_int};
use lru::LruCache;
use vstd::prelude::*;

verus! {

#[verifier::external_type_specification]
#[verifier::external_body]
#[verifier::reject_recursive_types(K)]
#[verifier::reject_recursive_types(V)]
#[verifier::reject_recursive_types(S)]
pub struct ExLruCache<K, V, S>(lru::LruCache<K, V, S>);

#[verifier::external_type_specification]
#[verifier::external_body]
pub struct ExDefaultHasher(lru::DefaultHasher);

/// The keys of an LRU cache, most recently used first.
pub uninterp spec fn lru_keys(c: LruCache<usize, ()>) -> Seq<usize>;

/// The capacity of an LRU cache: beyond it, a new entry evicts the oldest.
pub uninterp spec fn lru_capacity(c: LruCache<usize, ()>) -> nat;

/// Relies on `LruCache::unbounded`: an empty cache of capacity `usize::MAX`.
#[verifier::external_body]
fn lru_unbounded() -> (r: LruCache<usize, ()>)
    ensures
        lru_keys(r) == Seq::<usize>::empty(),
        lru_capacity(r) == usize::MAX,
{
    LruCache::unbounded()
}

/// Relies on `LruCache::put`: a new key is attached at the front when the
/// cache is below capacity; a present key moves to the front.
#[verifier::external_body]
fn lru_put(c: &mut LruCache<usize, ()>, k: usize)
    ensures
        lru_capacity(*final(c)) == lru_capacity(*old(c)),
        !lru_keys(*old(c)).contains(k) && lru_keys(*old(c)).len() < lru_capacity(*old(c))
            ==> lru_keys(*final(c)) == seq![k] + lru_keys(*old(c)),
        lru_keys(*old(c)).contains(k) ==> lru_keys(*final(c)) == seq![k] + lru_keys(
            *old(c),
        ).remove_value(k),
{
    c.put(k, ());
}

/// Relies on `LruCache::get`: a present key moves to the front and is
/// reported; otherwise the cache is unchanged.
#[verifier::external_body]
fn lru_get(c: &mut LruCache<usize, ()>, k: usize) -> (r: bool)
    ensures
        lru_capacity(*final(c)) == lru_capacity(*old(c)),
        r == lru_keys(*old(c)).contains(k),
        r ==> lru_keys(*final(c)) == seq![k] + lru_keys(*old(c)).remove_value(k),
        !r ==> lru_keys(*final(c)) == lru_keys(*old(c)),
{
    c.get(&k).is_some()
}

/// Relies on `LruCache::iter`: the entries, most recently used first.
#[verifier::external_body]
fn lru_iter_keys(c: &LruCache<usize, ()>) -> (r: Vec<usize>)
    ensures
        r@ == lru_keys(*c),
{
    c.iter().map(|(k, _)| *k).collect()
}

/// The scan order after a credential is touched: it comes first, the others
/// keep their order.
pub open spec fn touched(order: Seq<usize>, handle: usize) -> Seq<usize> {
    seq![handle] + order.remove_value(handle)
}

/// The candidates of a scan: the credentials in scan order.
pub open spec fn candidates(creds: Seq<CredentialView>, order: Seq<usize>) -> Seq<CredentialView> {
    order.map_values(|k: usize| creds[k as int])
}

/// The credential handle that a scan in `order` returns for `buf`.
pub open spec fn lru_match(creds: Seq<CredentialView>, order: Seq<usize>, buf: Seq<u8>) -> Option<
    usize,
> {
    match first_open(candidates(creds, order), buf) {
        Some(p) => Some(order[p]),
        None => None,
    }
}

/// A scan order is a permutation of the credential handles.
pub open spec fn order_wf(order: Seq<usize>, n: nat) -> bool {
    &&& order.len() == n
    &&& order.no_duplicates()
    &&& forall|i: int| 0 <= i < order.len() ==> order[i] < n
    &&& forall|k: usize| k < n ==> order.contains(k)
}

/// Where a handle stands in a permutation of the handles, and what the
/// touched order holds at each position.
proof fn lemma_touched_at(order: Seq<usize>, n: nat, handle: usize) -> (p: int)
    requires
        order_wf(order, n),
        handle < n,
    ensures
        0 <= p < order.len(),
        order[p] == handle,
        touched(order, handle).len() == n,
        touched(order, handle)[0] == handle,
        forall|a: int| 0 < a <= p ==> #[trigger] touched(order, handle)[a] == order[a - 1],
        forall|a: int| p < a < n ==> #[trigger] touched(order, handle)[a] == order[a],
{
    assert(order.contains(handle));
    order.index_of_first_ensures(handle);
    let p = order.index_of_first(handle).unwrap();
    order.remove_ensures(p);
    p
}

/// Touching a credential keeps the scan order a permutation.
pub proof fn lemma_touched_wf(order: Seq<usize>, n: nat, handle: usize)
    requires
        order_wf(order, n),
        handle < n,
    ensures
        order_wf(touched(order, handle), n),
{
    let p = lemma_touched_at(order, n, handle);
    let t = touched(order, handle);
    assert forall|i: int| 0 <= i < t.len() implies t[i] < n by {
        if i > 0 && i <= p {
            assert(t[i] == order[i - 1]);
        } else if i > p {
            assert(t[i] == order[i]);
        }
    }
    assert forall|i: int, j: int| 0 <= i < t.len() && 0 <= j < t.len() && i != j implies t[i]
        != t[j] by {
        let oi = if i == 0 { p } else if i <= p { i - 1 } else { i };
        let oj = if j == 0 { p } else if j <= p { j - 1 } else { j };
        assert(t[i] == order[oi]);
        assert(t[j] == order[oj]);
    }
    assert forall|k: usize| k < n implies t.contains(k) by {
        assert(order.contains(k));
        let i = choose|i: int| 0 <= i < order.len() && order[i] == k;
        if i == p {
            assert(t[0] == k);
        } else if i < p {
            assert(t[i + 1] == k);
        } else {
            assert(t[i] == k);
        }
    }
}

/// The scan order after a query: a match moves its credential to the front;
/// without one the order stays.
pub open spec fn lru_next_order(creds: Seq<CredentialView>, order: Seq<usize>, buf: Seq<u8>) -> Seq<
    usize,
> {
    match lru_match(creds, order, buf) {
        Some(h) => touched(order, h),
        None => order,
    }
}

/// After a credential matches, the next handshake that it authenticates is
/// found at the first candidate, however many credentials there are.
pub proof fn lemma_hit_scans_one(
    creds: Seq<CredentialView>,
    order: Seq<usize>,
    buf: Seq<u8>,
    next: Seq<u8>,
)
    requires
        order_wf(order, creds.len()),
        lru_match(creds, order, buf) is Some,
        credential_opens(creds[lru_match(creds, order, buf).unwrap() as int], next),
    ensures
        first_open(candidates(creds, lru_next_order(creds, order, buf)), next) == Some(0int),
        lru_match(creds, lru_next_order(creds, order, buf), next) == lru_match(creds, order, buf),
{
    let h = lru_match(creds, order, buf).unwrap();
    let cands = candidates(creds, order);
    lemma_first_open(cands, buf);
    let p = first_open(cands, buf).unwrap();
    assert(order[p] == h);
    let t = touched(order, h);
    lemma_touched_at(order, creds.len(), h);
    assert(candidates(creds, t)[0] == creds[h as int]);
    lemma_first_open_head(candidates(creds, t), next);
}

/// Asking the same query twice, with no other match in between, gives the
/// same credential both times.
pub proof fn lemma_repeat_same_result(creds: Seq<CredentialView>, order: Seq<usize>, buf: Seq<u8>)
    requires
        order_wf(order, creds.len()),
    ensures
        lru_match(creds, lru_next_order(creds, order, buf), buf) == lru_match(creds, order, buf),
{
    if lru_match(creds, order, buf) is Some {
        let cands = candidates(creds, order);
        lemma_first_open(cands, buf);
        lemma_hit_scans_one(creds, order, buf, buf);
    }
}

/// The credentials of a configuration, scanned most recently matched first.
pub struct LRUScanImpl {
    servers: Vec<Credential>,
    servers_lru: LruCache<usize, ()>,
}

impl LRUScanImpl {
    /// The credentials, by handle.
    pub closed spec fn credentials(&self) -> Seq<CredentialView> {
        views_of(self.servers@)
    }

    /// The handles in scan order.
    pub closed spec fn order(&self) -> Seq<usize> {
        lru_keys(self.servers_lru)
    }

    pub open spec fn wf(&self) -> bool {
        order_wf(self.order(), self.credentials().len())
    }

    /// The scan starts in configuration order.
    pub fn from_config(config: &Config) -> (r: LRUScanImpl)
        ensures
            r.wf(),
            r.credentials() == flatten(config.servers@),
            r.order() == Seq::new(r.credentials().len(), |j: int| j as usize),
    {
        let servers = credentials_from_config(config);
        let n = servers.len();
        let mut servers_lru = lru_unbounded();
        let mut i: usize = n;
        while i > 0
            invariant
                i <= n,
                lru_capacity(servers_lru) == usize::MAX,
                lru_keys(servers_lru) == Seq::new((n - i) as nat, |j: int| (j + i) as usize),
            decreases i,
        {
            let ghost before = lru_keys(servers_lru);
            i = i - 1;
            proof {
                assert(!before.contains(i)) by {
                    if before.contains(i) {
                        let k = choose|k: int| 0 <= k < before.len() && before[k] == i;
                        assert(before[k] == (k + i + 1) as usize);
                    }
                }
            }
            lru_put(&mut servers_lru, i);
            proof {
                assert(lru_keys(servers_lru) =~= Seq::new((n - i) as nat, |j: int| (j + i) as usize));
            }
        }
        let r = LRUScanImpl { servers, servers_lru };
        proof {
            let order = r.order();
            assert(order =~= Seq::new(n as nat, |j: int| j as usize));
            assert forall|k: usize| k < n implies order.contains(k) by {
                assert(order[k as int] == k);
            }
            assert forall|a: int, b: int| 0 <= a < order.len() && 0 <= b < order.len() && a != b
                implies order[a] != order[b] by {}
        }
        r
    }

    pub fn len(&self) -> (r: usize)
        ensures
            r == self.credentials().len(),
    {
        self.servers.len()
    }

    /// The handle of the first credential, in scan order, under which the
    /// handshake prefix authenticates. The order is left as it is.
    pub fn linear_scan(&self, buf: &[u8; HANDSHAKE_LEN]) -> (r: Option<usize>)
        requires
            self.wf(),
        ensures
            r == lru_match(self.credentials(), self.order(), buf@),
    {
        let keys = lru_iter_keys(&self.servers_lru);
        let ghost cands = candidates(self.credentials(), self.order());
        let mut i: usize = 0;
        while i < keys.len()
            invariant
                self.wf(),
                keys@ == self.order(),
                cands == candidates(self.credentials(), self.order()),
                0 <= i <= keys@.len(),
                first_open_upto(cands, buf@, i as int) is None,
            decreases keys@.len() - i,
        {
            let handle = keys[i];
            let cred = &self.servers[handle];
            if match_server(&cred.password, buf, cred.method) {
                proof {
                    assert(cands[i as int] == cred@);
                    assert(first_open_upto(cands, buf@, i + 1) == Some(i as int));
                    lemma_first_open_stable(cands, buf@, i + 1, cands.len() as int);
                }
                return Some(handle);
            }
            proof {
                assert(cands[i as int] == cred@);
            }
            i = i + 1;
        }
        None
    }

    /// Moves a credential to the front of the scan order; the others keep
    /// their order and no credential is added, removed or changed.
    pub fn touch(&mut self, handle: usize)
        requires
            old(self).wf(),
            handle < old(self).credentials().len(),
        ensures
            final(self).wf(),
            final(self).credentials() == old(self).credentials(),
            final(self).order() == touched(old(self).order(), handle),
    {
        proof {
            assert(self.order().contains(handle));
        }
        lru_get(&mut self.servers_lru, handle);
        proof {
            lemma_touched_wf(old(self).order(), old(self).credentials().len(), handle);
        }
    }

    /// Matches a handshake prefix and touches the credential that matched.
    pub fn match_handshake(&mut self, buf: &[u8; HANDSHAKE_LEN]) -> (r: Option<usize>)
        requires
            old(self).wf(),
        ensures
            final(self).wf(),
            final(self).credentials() == old(self).credentials(),
            r == lru_match(old(self).credentials(), old(self).order(), buf@),
            final(self).order() == lru_next_order(old(self).credentials(), old(self).order(), buf@),
    {
        let r = self.linear_scan(buf);
        match r {
            Some(handle) => {
                proof {
                    let cands = candidates(self.credentials(), self.order());
                    lemma_first_open(cands, buf@);
                }
                self.touch(handle);
            },
            None => {},
        }
        r
    }

    /// The credential handles in scan order.
    pub fn scan_order(&self) -> (r: Vec<usize>)
        ensures
            r@ == self.order(),
    {
        lru_iter_keys(&self.servers_lru)
    }

    /// The backend address of a credential.
    pub fn address(&self, handle: usize) -> (r: &String)
        requires
            handle < self.credentials().len(),
        ensures
            r@ == self.credentials()[handle as int].2,
    {
        &self.servers[handle].address
    }
}

} // verus!
