//! The configuration that the router is built from, and its flattening into
//! the list of credentials that matching walks.

pub use crate::crypto::AEADMethod;
use crate::infra::InfraAlgorithm;
use vstd::prelude::*;

verus! {

/// One backend: its address, its method, and the passwords of its users.
pub struct ServerConfig {
    pub address: String,
    pub method: AEADMethod,
    pub passwords: Vec<String>,
}

/// The whole configuration. `servers` is in configuration order, each entry
/// under its name.
pub struct Config {
    pub listen: String,
    pub algorithm: InfraAlgorithm,
    pub servers: Vec<(String, ServerConfig)>,
}

/// A credential: the method, the password and the backend address.
pub type CredentialView = (AEADMethod, Seq<char>, Seq<char>);

/// The unit that matching walks: one password of one backend.
pub struct Credential {
    pub method: AEADMethod,
    pub password: String,
    pub address: String,
}

impl View for Credential {
    type V = CredentialView;

    open spec fn view(&self) -> CredentialView {
        (self.method, self.password@, self.address@)
    }
}

/// The views of a sequence of credentials.
pub open spec fn views_of(creds: Seq<Credential>) -> Seq<CredentialView> {
    creds.map_values(|c: Credential| c@)
}

/// The credentials of one backend, one per password, in password order.
pub open spec fn server_credentials(s: ServerConfig) -> Seq<CredentialView> {
    s.passwords@.map_values(|p: String| (s.method, p@, s.address@))
}

/// All credentials of a configuration: backends in configuration order, and
/// within each backend its passwords in order.
pub open spec fn flatten(servers: Seq<(String, ServerConfig)>) -> Seq<CredentialView>
    decreases servers.len(),
{
    if servers.len() == 0 {
        seq![]
    } else {
        flatten(servers.drop_last()) + server_credentials(servers.last().1)
    }
}

/// Flattens the configured backends into their credentials.
pub fn credentials_from_config(config: &Config) -> (r: Vec<Credential>)
    ensures
        views_of(r@) == flatten(config.servers@),
{
    let mut creds: Vec<Credential> = Vec::new();
    let mut i: usize = 0;
    while i < config.servers.len()
        invariant
            0 <= i <= config.servers@.len(),
            views_of(creds@) == flatten(config.servers@.take(i as int)),
        decreases config.servers@.len() - i,
    {
        let server = &config.servers[i].1;
        let ghost before = views_of(creds@);
        let mut j: usize = 0;
        while j < server.passwords.len()
            invariant
                0 <= j <= server.passwords@.len(),
                views_of(creds@) == before + server_credentials(*server).take(j as int),
            decreases server.passwords@.len() - j,
        {
            let cred = Credential {
                method: server.method,
                password: server.passwords[j].clone(),
                address: server.address.clone(),
            };
            let ghost old_creds = creds@;
            creds.push(cred);
            proof {
                assert(views_of(creds@) =~= views_of(old_creds).push(cred@));
                assert(server_credentials(*server).take(j + 1) =~= server_credentials(
                    *server,
                ).take(j as int).push(cred@));
            }
            j = j + 1;
        }
        proof {
            let prefix = config.servers@.take(i + 1);
            assert(prefix.drop_last() =~= config.servers@.take(i as int));
            assert(server_credentials(*server).take(j as int) =~= server_credentials(*server));
        }
        i = i + 1;
    }
    proof {
        assert(config.servers@.take(i as int) =~= config.servers@);
    }
    creds
}

} // verus!
