//! The NTP server's settings, assembled from the values a configuration
//! source supplies.
use vstd::prelude::*;

verus! {

#[derive(Clone, Debug)]
pub struct MetricsConfig {
    pub port: u16,
    pub addr: String,
}

#[derive(Clone, Debug)]
pub struct ConfigNTP {
    pub addrs: Vec<String>,
    pub cookie_key: Vec<u8>,
    pub memcached_url: String,
    pub metrics: MetricsConfig,
    pub upstream_addr: Option<(String, u16)>,
}

/// Length of the shortest master key accepted.
pub const MIN_COOKIE_KEY_LEN: usize = 32;

/// Assembles the NTP server's settings: a master key shorter than 32 bytes is
/// refused (`None`); the cache URL is empty when none is given, ports keep
/// their low 16 bits, and an upstream is set only when both its host and its
/// port are given.
pub fn parse_ntp_config(
    cookie_key: Vec<u8>,
    addrs: Vec<String>,
    memc_url: Option<String>,
    metrics_port: i64,
    metrics_addr: String,
    upstream_host: Option<String>,
    upstream_port: Option<i64>,
) -> (o: Option<ConfigNTP>)
    ensures
        cookie_key@.len() < MIN_COOKIE_KEY_LEN <==> o.is_none(),
        o.is_some() ==> ({
            let r = o.unwrap();
            &&& r.cookie_key@ == cookie_key@
            &&& r.addrs@ == addrs@
            &&& r.memcached_url@ == match memc_url {
                Some(u) => u@,
                None => Seq::<char>::empty(),
            }
            &&& r.metrics.port == metrics_port as u16
            &&& r.metrics.addr@ == metrics_addr@
            &&& match (upstream_host, upstream_port) {
                (Some(h), Some(p)) => r.upstream_addr.is_some() && r.upstream_addr.unwrap().0@
                    == h@ && r.upstream_addr.unwrap().1 == p as u16,
                _ => r.upstream_addr.is_none(),
            }
        }),
{
    if cookie_key.len() < MIN_COOKIE_KEY_LEN {
        return None;
    }
    let memcached_url = match memc_url {
        Some(u) => u,
        None => String::new(),
    };
    let upstream_addr = match (upstream_host, upstream_port) {
        (Some(h), Some(p)) => Some((h, #[verifier::truncate] (p as u16))),
        _ => None,
    };
    Some(ConfigNTP {
        addrs,
        cookie_key,
        memcached_url,
        metrics: MetricsConfig { port: #[verifier::truncate] (metrics_port as u16), addr: metrics_addr },
        upstream_addr,
    })
}

} // verus!
