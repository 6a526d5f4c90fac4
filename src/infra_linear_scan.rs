//! Matching in configuration order, with no bookkeeping.

use crate::config::{credentials_from_config, flatten, views_of, Config, Credential, CredentialView};
use crate::crypto::{match_server, HANDSHAKE_LEN};
use crate::infra::{first_open, first_open_upto, lemma_first_open_stable, opt_int};
use vstd::prelude::*;

verus! {

/// The credentials of a configuration, scanned in configuration order.
pub struct LinearScanImpl {
    servers: Vec<Credential>,
}

impl View for LinearScanImpl {
    type V = Seq<CredentialView>;

    closed spec fn view(&self) -> Seq<CredentialView> {
        views_of(self.servers@)
    }
}

impl LinearScanImpl {
    pub fn from_config(config: &Config) -> (r: LinearScanImpl)
        ensures
            r@ == flatten(config.servers@),
    {
        LinearScanImpl { servers: credentials_from_config(config) }
    }

    pub fn len(&self) -> (r: usize)
        ensures
            r == self@.len(),
    {
        self.servers.len()
    }

    /// The credential handle of the first credential, in configuration
    /// order, under which the handshake prefix authenticates.
    pub fn linear_scan(&self, buf: &[u8; HANDSHAKE_LEN]) -> (r: Option<usize>)
        ensures
            opt_int(r) == first_open(self@, buf@),
    {
        let mut i: usize = 0;
        while i < self.servers.len()
            invariant
                0 <= i <= self@.len(),
                first_open_upto(self@, buf@, i as int) is None,
            decreases self@.len() - i,
        {
            let cred = &self.servers[i];
            if match_server(&cred.password, buf, cred.method) {
                proof {
                    assert(first_open_upto(self@, buf@, i + 1) == Some(i as int));
                    lemma_first_open_stable(self@, buf@, i + 1, self@.len() as int);
                }
                return Some(i);
            }
            i = i + 1;
        }
        None
    }

    /// The backend address of a credential.
    pub fn address(&self, handle: usize) -> (r: &String)
        requires
            handle < self@.len(),
        ensures
            r@ == self@[handle as int].2,
    {
        &self.servers[handle].address
    }
}

} // verus!
