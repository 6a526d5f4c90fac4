//! The matching strategies, and what a scan over an ordered list of
//! credentials returns.

use crate::config::{flatten, Config, CredentialView};
use crate::crypto::{handshake_opens, HANDSHAKE_LEN};
use crate::infra_linear_scan::LinearScanImpl;
use crate::infra_lru_scan::{lru_match, lru_next_order, touched, LRUScanImpl};
use vstd::prelude::*;
use vstd::string::StringSliceAdditionalSpecFns;

verus! {

/// The strategy that orders the candidates of a match.
#[derive(Debug, Clone, Copy, PartialEq, Eq, Structural)]
pub enum InfraAlgorithm {
    LinearScan,
    LinearScanWithLRU,
    ConcurrentScan,
}

/// The strategy that a configured name selects.
pub open spec fn algorithm_of_name(name: Seq<u8>) -> Option<InfraAlgorithm> {
    if name == "linear-scan".spec_bytes() {
        Some(InfraAlgorithm::LinearScan)
    } else if name == "linear-scan-with-lru".spec_bytes() {
        Some(InfraAlgorithm::LinearScanWithLRU)
    } else if name == "concurrent-scan".spec_bytes() {
        Some(InfraAlgorithm::ConcurrentScan)
    } else {
        None
    }
}

/// Whether two byte strings are equal.
pub fn bytes_equal(a: &[u8], b: &[u8]) -> (r: bool)
    ensures
        r == (a@ == b@),
{
    if a.len() != b.len() {
        return false;
    }
    let mut i: usize = 0;
    while i < a.len()
        invariant
            a@.len() == b@.len(),
            0 <= i <= a@.len(),
            forall|j: int| 0 <= j < i ==> a@[j] == b@[j],
        decreases a@.len() - i,
    {
        if a[i] != b[i] {
            return false;
        }
        i = i + 1;
    }
    proof {
        assert(a@ =~= b@);
    }
    true
}

/// A strategy ready to match: the closed set of strategies that can run.
pub enum InfraImpl {
    Linear(LinearScanImpl),
    Lru(LRUScanImpl),
}

impl InfraAlgorithm {
    pub open spec fn spec_name(self) -> Seq<char> {
        match self {
            InfraAlgorithm::LinearScan => "linear-scan"@,
            InfraAlgorithm::LinearScanWithLRU => "linear-scan-with-lru"@,
            InfraAlgorithm::ConcurrentScan => "concurrent-scan"@,
        }
    }

    /// The strategy that a configured name selects.
    pub fn from_name(name: &str) -> (r: Option<InfraAlgorithm>)
        ensures
            r == algorithm_of_name(name.spec_bytes()),
    {
        let b = name.as_bytes();
        if bytes_equal(b, "linear-scan".as_bytes()) {
            Some(InfraAlgorithm::LinearScan)
        } else if bytes_equal(b, "linear-scan-with-lru".as_bytes()) {
            Some(InfraAlgorithm::LinearScanWithLRU)
        } else if bytes_equal(b, "concurrent-scan".as_bytes()) {
            Some(InfraAlgorithm::ConcurrentScan)
        } else {
            None
        }
    }

    /// The name of the strategy, as written in a configuration.
    pub fn name(&self) -> (r: &'static str)
        ensures
            r@ == self.spec_name(),
    {
        proof {
            reveal_strlit("linear-scan");
            reveal_strlit("linear-scan-with-lru");
            reveal_strlit("concurrent-scan");
        }
        match self {
            InfraAlgorithm::LinearScan => "linear-scan",
            InfraAlgorithm::LinearScanWithLRU => "linear-scan-with-lru",
            InfraAlgorithm::ConcurrentScan => "concurrent-scan",
        }
    }

    /// Builds the matcher of this strategy over the configured credentials;
    /// concurrent scanning has none.
    pub fn new_impl(&self, config: &Config) -> (r: Option<InfraImpl>)
        ensures
            r is None <==> *self == InfraAlgorithm::ConcurrentScan,
            r is Some ==> r.unwrap().wf() && r.unwrap().credentials() == flatten(config.servers@),
            *self == InfraAlgorithm::LinearScan ==> r.unwrap() is Linear,
            *self == InfraAlgorithm::LinearScanWithLRU ==> r.unwrap() is Lru && r.unwrap().order()
                == Seq::new(r.unwrap().credentials().len(), |j: int| j as usize),
    {
        match self {
            InfraAlgorithm::LinearScan => Some(InfraImpl::Linear(LinearScanImpl::from_config(config))),
            InfraAlgorithm::LinearScanWithLRU => Some(InfraImpl::Lru(LRUScanImpl::from_config(config))),
            InfraAlgorithm::ConcurrentScan => None,
        }
    }
}

impl InfraImpl {
    /// The credentials, by handle.
    pub open spec fn credentials(&self) -> Seq<CredentialView> {
        match self {
            InfraImpl::Linear(l) => l@,
            InfraImpl::Lru(l) => l.credentials(),
        }
    }

    /// The handles in scan order.
    pub open spec fn order(&self) -> Seq<usize> {
        match self {
            InfraImpl::Linear(l) => Seq::new(l@.len(), |j: int| j as usize),
            InfraImpl::Lru(l) => l.order(),
        }
    }

    pub open spec fn wf(&self) -> bool {
        match self {
            InfraImpl::Linear(_) => true,
            InfraImpl::Lru(l) => l.wf(),
        }
    }

    /// The handle that a scan of `buf` in the current order returns.
    pub open spec fn spec_scan(&self, buf: Seq<u8>) -> Option<usize> {
        match self {
            InfraImpl::Linear(l) => match first_open(l@, buf) {
                Some(p) => Some(p as usize),
                None => None,
            },
            InfraImpl::Lru(l) => lru_match(l.credentials(), l.order(), buf),
        }
    }

    pub fn len(&self) -> (r: usize)
        ensures
            r == self.credentials().len(),
    {
        match self {
            InfraImpl::Linear(l) => l.len(),
            InfraImpl::Lru(l) => l.len(),
        }
    }

    /// Scans the credentials for the one that the handshake prefix
    /// authenticates under, without changing the order.
    pub fn scan(&self, buf: &[u8; HANDSHAKE_LEN]) -> (r: Option<usize>)
        requires
            self.wf(),
        ensures
            r == self.spec_scan(buf@),
            r is Some ==> r.unwrap() < self.credentials().len()
                && credential_opens(self.credentials()[r.unwrap() as int], buf@),
    {
        match self {
            InfraImpl::Linear(l) => {
                let r = l.linear_scan(buf);
                proof {
                    lemma_first_open(l@, buf@);
                }
                r
            },
            InfraImpl::Lru(l) => {
                let r = l.linear_scan(buf);
                proof {
                    lru_match_opens(l.credentials(), l.order(), buf@);
                }
                r
            },
        }
    }

    /// Records a match: under recency ordering the credential moves to the
    /// front; a fixed order stays as it is.
    pub fn record_hit(&mut self, handle: usize)
        requires
            old(self).wf(),
            handle < old(self).credentials().len(),
        ensures
            final(self).wf(),
            final(self).credentials() == old(self).credentials(),
            *old(self) is Linear ==> *final(self) == *old(self),
            *old(self) is Lru ==> *final(self) is Lru && final(self).order() == touched(
                old(self).order(),
                handle,
            ),
    {
        match self {
            InfraImpl::Linear(_) => {},
            InfraImpl::Lru(l) => l.touch(handle),
        }
    }

    /// Matches a handshake prefix and records the match.
    pub fn match_handshake(&mut self, buf: &[u8; HANDSHAKE_LEN]) -> (r: Option<usize>)
        requires
            old(self).wf(),
        ensures
            final(self).wf(),
            final(self).credentials() == old(self).credentials(),
            r == old(self).spec_scan(buf@),
            r is Some ==> r.unwrap() < old(self).credentials().len()
                && credential_opens(old(self).credentials()[r.unwrap() as int], buf@),
            *old(self) is Linear ==> *final(self) == *old(self),
            *old(self) is Lru ==> *final(self) is Lru && final(self).order() == lru_next_order(
                old(self).credentials(),
                old(self).order(),
                buf@,
            ),
    {
        let r = self.scan(buf);
        match r {
            Some(handle) => self.record_hit(handle),
            None => {},
        }
        r
    }

    /// The backend address of a credential.
    pub fn address(&self, handle: usize) -> (r: &String)
        requires
            handle < self.credentials().len(),
        ensures
            r@ == self.credentials()[handle as int].2,
    {
        match self {
            InfraImpl::Linear(l) => l.address(handle),
            InfraImpl::Lru(l) => l.address(handle),
        }
    }
}

/// What a recency-ordered scan returns is a credential that authenticates.
pub proof fn lru_match_opens(creds: Seq<CredentialView>, order: Seq<usize>, buf: Seq<u8>)
    requires
        crate::infra_lru_scan::order_wf(order, creds.len()),
    ensures
        lru_match(creds, order, buf) is Some ==> lru_match(creds, order, buf).unwrap() < creds.len()
            && credential_opens(creds[lru_match(creds, order, buf).unwrap() as int], buf),
{
    lemma_first_open(crate::infra_lru_scan::candidates(creds, order), buf);
}

/// Whether a handshake prefix authenticates under a credential.
pub open spec fn credential_opens(c: CredentialView, buf: Seq<u8>) -> bool {
    handshake_opens(c.0, c.1, buf)
}

/// The position of the first of the first `n` candidates that authenticates
/// `buf`, if any.
pub open spec fn first_open_upto(cands: Seq<CredentialView>, buf: Seq<u8>, n: int) -> Option<int>
    decreases n,
{
    if n <= 0 {
        None
    } else {
        match first_open_upto(cands, buf, n - 1) {
            Some(p) => Some(p),
            None => if credential_opens(cands[n - 1], buf) {
                Some(n - 1)
            } else {
                None
            },
        }
    }
}

/// The position of the first candidate that authenticates `buf`: the match,
/// after which nothing more is scanned.
pub open spec fn first_open(cands: Seq<CredentialView>, buf: Seq<u8>) -> Option<int> {
    first_open_upto(cands, buf, cands.len() as int)
}

/// The first match among the first `n` candidates is the earliest candidate
/// that authenticates; without one, none of them does.
pub proof fn lemma_first_open_upto(cands: Seq<CredentialView>, buf: Seq<u8>, n: int)
    requires
        0 <= n <= cands.len(),
    ensures
        match first_open_upto(cands, buf, n) {
            Some(p) => 0 <= p < n && credential_opens(cands[p], buf) && forall|q: int|
                0 <= q < p ==> !credential_opens(#[trigger] cands[q], buf),
            None => forall|q: int| 0 <= q < n ==> !credential_opens(#[trigger] cands[q], buf),
        },
    decreases n,
{
    if n > 0 {
        lemma_first_open_upto(cands, buf, n - 1);
    }
}

/// A scan stops at the first candidate that authenticates.
pub proof fn lemma_first_open(cands: Seq<CredentialView>, buf: Seq<u8>)
    ensures
        match first_open(cands, buf) {
            Some(p) => 0 <= p < cands.len() && credential_opens(cands[p], buf) && forall|q: int|
                0 <= q < p ==> !credential_opens(#[trigger] cands[q], buf),
            None => forall|q: int|
                0 <= q < cands.len() ==> !credential_opens(#[trigger] cands[q], buf),
        },
{
    lemma_first_open_upto(cands, buf, cands.len() as int);
}

/// Once a match is found among the first `n` candidates, later candidates
/// do not change it.
pub proof fn lemma_first_open_stable(cands: Seq<CredentialView>, buf: Seq<u8>, n: int, m: int)
    requires
        0 <= n <= m,
        first_open_upto(cands, buf, n) is Some,
    ensures
        first_open_upto(cands, buf, m) == first_open_upto(cands, buf, n),
    decreases m - n,
{
    if m > n {
        lemma_first_open_stable(cands, buf, n, m - 1);
    }
}

/// A candidate list that begins with a credential that authenticates `buf`
/// matches at its first position.
pub proof fn lemma_first_open_head(cands: Seq<CredentialView>, buf: Seq<u8>)
    requires
        cands.len() > 0,
        credential_opens(cands[0], buf),
    ensures
        first_open(cands, buf) == Some(0int),
{
    assert(first_open_upto(cands, buf, 0) is None);
    assert(first_open_upto(cands, buf, 1) == Some(0int));
    lemma_first_open_stable(cands, buf, 1, cands.len() as int);
}

/// `Option<usize>` as `Option<int>`.
pub open spec fn opt_int(r: Option<usize>) -> Option<int> {
    match r {
        Some(i) => Some(i as int),
        None => None,
    }
}

} // verus!
