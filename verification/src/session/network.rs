//! Which hosts a session may be opened to.

use crate::session::types::{invalid, validation_error, SessionError};
use crate::text::{
    contains, has_sub, join2, join3, opt_str, starts_with, texts, trim, trim_end_char, trimmed,
    without_trailing,
};
use vstd::arithmetic::power2::pow2;
use vstd::prelude::*;
use vstd::string::*;

verus! {

/// An IP address as a number.
#[derive(Debug, Clone, Copy, PartialEq, Eq, Structural)]
pub enum IpNumber {
    V4(u32),
    V6(u128),
}

/// A network: one of its addresses and the number of leading bits that its
/// addresses share.
#[derive(Debug, Clone, Copy, PartialEq, Eq, Structural)]
pub enum Network {
    V4(u32, u8),
    V6(u128, u8),
}

impl Network {
    /// The prefix is no longer than an address.
    pub open spec fn wf(self) -> bool {
        match self {
            Network::V4(_, prefix) => prefix <= 32,
            Network::V6(_, prefix) => prefix <= 128,
        }
    }

    /// Whether an address is of the network: of its family, with its prefix.
    pub open spec fn holds(self, ip: IpNumber) -> bool {
        match (self, ip) {
            (Network::V4(base, prefix), IpNumber::V4(n)) => base as nat / pow2(
                (32 - prefix) as nat,
            ) == n as nat / pow2((32 - prefix) as nat),
            (Network::V6(base, prefix), IpNumber::V6(n)) => base as nat / pow2(
                (128 - prefix) as nat,
            ) == n as nat / pow2((128 - prefix) as nat),
            _ => false,
        }
    }
}

/// The address that a text writes.
pub uninterp spec fn ip_of(text: Seq<char>) -> Option<IpNumber>;

/// The parse of an IP address by std, handed on by `ipnetwork::IpNetwork`'s
/// constructor: the address, if the whole text is one.
#[verifier::external_body]
pub(crate) fn parse_ip(text: &str) -> (r: Option<IpNumber>)
    ensures
        r == ip_of(text@),
{
    let ip = match text.parse() {
        Ok(ip) => ip,
        Err(_) => return None,
    };
    match ipnetwork::IpNetwork::new(ip, 0) {
        Ok(ipnetwork::IpNetwork::V4(n)) => Some(IpNumber::V4(u32::from(n.ip()))),
        Ok(ipnetwork::IpNetwork::V6(n)) => Some(IpNumber::V6(u128::from(n.ip()))),
        Err(_) => None,
    }
}

/// The network that a text writes, as an address with or without a prefix.
pub uninterp spec fn network_of(text: Seq<char>) -> Option<Network>;

/// `IpNetwork`'s parse: the network, if the whole text is one. Its prefix is
/// never longer than its addresses.
#[verifier::external_body]
pub(crate) fn parse_network(text: &str) -> (r: Option<Network>)
    ensures
        r == network_of(text@),
        r is Some ==> r->0.wf(),
{
    match text.parse::<ipnetwork::IpNetwork>() {
        Ok(ipnetwork::IpNetwork::V4(n)) => Some(
            Network::V4(u32::from(n.ip()), n.prefix()),
        ),
        Ok(ipnetwork::IpNetwork::V6(n)) => Some(
            Network::V6(u128::from(n.ip()), n.prefix()),
        ),
        Err(_) => None,
    }
}

/// `Ipv4Network::contains`: whether the address has the network's prefix.
#[verifier::external_body]
fn v4_contains(base: u32, prefix: u8, ip: u32) -> (r: bool)
    requires
        prefix <= 32,
    ensures
        r == (Network::V4(base, prefix)).holds(IpNumber::V4(ip)),
{
    ipnetwork::Ipv4Network::new(base.into(), prefix).unwrap().contains(ip.into())
}

/// `Ipv6Network::contains`: whether the address has the network's prefix.
#[verifier::external_body]
fn v6_contains(base: u128, prefix: u8, ip: u128) -> (r: bool)
    requires
        prefix <= 128,
    ensures
        r == (Network::V6(base, prefix)).holds(IpNumber::V6(ip)),
{
    ipnetwork::Ipv6Network::new(base.into(), prefix).unwrap().contains(ip.into())
}

impl Network {
    /// Whether an address is of the network.
    pub fn contains(&self, ip: IpNumber) -> (r: bool)
        requires
            self.wf(),
        ensures
            r == self.holds(ip),
    {
        match (*self, ip) {
            (Network::V4(base, prefix), IpNumber::V4(n)) => v4_contains(base, prefix, n),
            (Network::V6(base, prefix), IpNumber::V6(n)) => v6_contains(base, prefix, n),
            _ => false,
        }
    }
}

/// The networks of an allowlist; entries that are none are left out.
pub open spec fn networks_of(allowed: Seq<Seq<char>>) -> Seq<Network>
    decreases allowed.len(),
{
    if allowed.len() == 0 {
        Seq::empty()
    } else {
        match network_of(allowed.last()) {
            Some(n) => networks_of(allowed.drop_last()).push(n),
            None => networks_of(allowed.drop_last()),
        }
    }
}

/// Every network of the list is sound.
pub open spec fn all_wf(nets: Seq<Network>) -> bool {
    forall|i: int| 0 <= i < nets.len() ==> (#[trigger] nets[i]).wf()
}

/// Whether an address is of one of the networks.
pub open spec fn any_holds(nets: Seq<Network>, ip: IpNumber) -> bool {
    exists|i: int| 0 <= i < nets.len() && (#[trigger] nets[i]).holds(ip)
}

/// The networks of an allowlist.
fn parse_networks(allowed: &Vec<String>) -> (r: Vec<Network>)
    ensures
        r@ == networks_of(texts(allowed@)),
        all_wf(r@),
{
    let mut nets: Vec<Network> = Vec::new();
    let mut i: usize = 0;
    while i < allowed.len()
        invariant
            i <= allowed@.len(),
            nets@ == networks_of(texts(allowed@).take(i as int)),
            all_wf(nets@),
        decreases allowed@.len() - i,
    {
        let ghost t = texts(allowed@);
        proof {
            assert(t.take(i + 1).drop_last() =~= t.take(i as int));
            assert(t.take(i + 1).last() == allowed@[i as int]@);
        }
        if let Some(n) = parse_network(allowed[i].as_str()) {
            nets.push(n);
        }
        i = i + 1;
    }
    proof {
        assert(texts(allowed@).take(i as int) =~= texts(allowed@));
    }
    nets
}

/// Whether an address is of one of the networks.
fn in_any(nets: &Vec<Network>, ip: IpNumber) -> (r: bool)
    requires
        all_wf(nets@),
    ensures
        r == any_holds(nets@, ip),
{
    let mut i: usize = 0;
    while i < nets.len()
        invariant
            i <= nets@.len(),
            all_wf(nets@),
            forall|j: int| 0 <= j < i ==> !(#[trigger] nets@[j]).holds(ip),
        decreases nets@.len() - i,
    {
        if nets[i].contains(ip) {
            return true;
        }
        i = i + 1;
    }
    false
}

/// What came of resolving a host name.
#[derive(Debug)]
pub enum Lookup {
    /// The addresses of the name, which may be none.
    Addresses(Vec<IpNumber>),
    /// The resolver did not answer in time.
    TimedOut,
    /// The task that asked the resolver failed.
    TaskFailed(String),
    /// The resolver knows no such name.
    Failed(String),
}

/// Whether a host is written as a URL.
pub open spec fn url_like(host: Seq<char>) -> bool {
    has_sub(host, "://"@) || "http"@.is_prefix_of(host)
}

/// Why a host may not be connected to, if there is a reason: its own address,
/// or else one of the addresses it resolves to, must be of an allowed network.
pub open spec fn host_refusal(
    host: Seq<char>,
    nets: Seq<Network>,
    ip: Option<IpNumber>,
    lookup: Lookup,
) -> Option<Seq<char>> {
    if url_like(host) {
        Some(
            "hostname must be a host or IP address, not a URL (use a Web entry for browser sessions)"@,
        )
    } else if nets.len() == 0 {
        Some("no valid CIDR networks configured in allowlist"@)
    } else {
        match ip {
            Some(n) => if any_holds(nets, n) {
                None
            } else {
                Some("host "@ + host + " is not in the allowed network list"@)
            },
            None => match lookup {
                Lookup::TimedOut => Some("DNS resolution for host '"@ + host + "' timed out"@),
                Lookup::TaskFailed(e) => Some("DNS task join error: "@ + e@),
                Lookup::Failed(e) => Some("failed to resolve host '"@ + host + "': "@ + e@),
                Lookup::Addresses(v) => if v@.len() == 0 {
                    Some("host '"@ + host + "' did not resolve to any addresses"@)
                } else if exists|i: int| 0 <= i < v@.len() && any_holds(nets, #[trigger] v@[i]) {
                    None
                } else {
                    Some(
                        "host '"@ + host
                            + "' resolves to addresses not in the allowed network list"@,
                    )
                },
            },
        }
    }
}

/// Whether an outcome says what a refusal says.
pub open spec fn verdict_is(r: Result<(), SessionError>, refusal: Option<Seq<char>>) -> bool {
    match r {
        Ok(_) => refusal is None,
        Err(e) => refusal is Some && invalid(e, refusal->0),
    }
}

/// Judge a host by the allowed networks and by what it resolves to.
pub fn judge_host(
    host: &str,
    nets: &Vec<Network>,
    ip: Option<IpNumber>,
    lookup: &Lookup,
) -> (r: Result<(), SessionError>)
    requires
        all_wf(nets@),
    ensures
        verdict_is(r, host_refusal(host@, nets@, ip, *lookup)),
{
    if contains(host, "://") || starts_with(host, "http") {
        return Err(
            validation_error(
                "hostname must be a host or IP address, not a URL (use a Web entry for browser sessions)",
            ),
        );
    }
    if nets.len() == 0 {
        return Err(validation_error("no valid CIDR networks configured in allowlist"));
    }
    if let Some(n) = ip {
        if in_any(nets, n) {
            return Ok(());
        }
        return Err(
            SessionError::ValidationError(
                join3("host ", host, " is not in the allowed network list"),
            ),
        );
    }
    match lookup {
        Lookup::TimedOut => Err(
            SessionError::ValidationError(
                join3("DNS resolution for host '", host, "' timed out"),
            ),
        ),
        Lookup::TaskFailed(e) => Err(
            SessionError::ValidationError(join2("DNS task join error: ", e.as_str())),
        ),
        Lookup::Failed(e) => {
            let mut m = join3("failed to resolve host '", host, "': ");
            m.append(e.as_str());
            Err(SessionError::ValidationError(m))
        },
        Lookup::Addresses(v) => {
            if v.len() == 0 {
                return Err(
                    SessionError::ValidationError(
                        join3("host '", host, "' did not resolve to any addresses"),
                    ),
                );
            }
            let mut i: usize = 0;
            while i < v.len()
                invariant
                    i <= v@.len(),
                    all_wf(nets@),
                    forall|j: int| 0 <= j < i ==> !any_holds(nets@, #[trigger] v@[j]),
                    !url_like(host@),
                    nets@.len() > 0,
                    ip is None,
                    *lookup == Lookup::Addresses(*v),
                decreases v@.len() - i,
            {
                if in_any(nets, v[i]) {
                    return Ok(());
                }
                i = i + 1;
            }
            Err(
                SessionError::ValidationError(
                    join3(
                        "host '",
                        host,
                        "' resolves to addresses not in the allowed network list",
                    ),
                ),
            )
        },
    }
}

/// Check that a host, or an address it resolves to, is within the allowed
/// networks. The lookup only matters for a host that `needs_lookup`.
pub fn check_allowed_network(host: &str, allowed: &Vec<String>, lookup: &Lookup) -> (r: Result<
    (),
    SessionError,
>)
    ensures
        verdict_is(
            r,
            host_refusal(host@, networks_of(texts(allowed@)), ip_of(host@), *lookup),
        ),
{
    let nets = parse_networks(allowed);
    let ip = parse_ip(host);
    judge_host(host, &nets, ip, lookup)
}

/// Whether a host has to be resolved before it can be judged.
pub fn needs_lookup(host: &str, allowed: &Vec<String>) -> (r: bool)
    ensures
        r == (!url_like(host@) && networks_of(texts(allowed@)).len() > 0 && ip_of(host@) is None),
{
    if contains(host, "://") || starts_with(host, "http") {
        return false;
    }
    let nets = parse_networks(allowed);
    nets.len() > 0 && parse_ip(host).is_none()
}

/// A host that does not have to be resolved is judged without the lookup.
pub proof fn law_lookup_only_where_needed(
    host: Seq<char>,
    nets: Seq<Network>,
    ip: Option<IpNumber>,
    a: Lookup,
    b: Lookup,
)
    requires
        url_like(host) || nets.len() == 0 || ip is Some,
    ensures
        host_refusal(host, nets, ip, a) == host_refusal(host, nets, ip, b),
{
}

/// Nothing is allowed where no network is.
pub proof fn law_empty_allowlist_refuses(
    host: Seq<char>,
    ip: Option<IpNumber>,
    lookup: Lookup,
)
    ensures
        host_refusal(host, Seq::empty(), ip, lookup) is Some,
{
}

/// Whether an address is of the link-local block 169.254.0.0/16, with the
/// cloud metadata endpoints: never a session target, whatever the allowlist
/// says.
pub open spec fn denied(ip: Option<IpNumber>) -> bool {
    match ip {
        Some(IpNumber::V4(n)) => 0xa9fe_0000 <= n <= 0xa9fe_ffff,
        _ => false,
    }
}

/// Why an address is denied, if it is.
pub open spec fn denial(ip: Option<IpNumber>) -> Option<Seq<char>> {
    if denied(ip) {
        Some("access to link-local / cloud metadata network 169.254.0.0/16 is blocked"@)
    } else {
        None
    }
}

/// Refuse an address of the denied network.
pub fn judge_target(ip: Option<IpNumber>) -> (r: Result<(), SessionError>)
    ensures
        verdict_is(r, denial(ip)),
{
    let net = Network::V4(0xa9fe_0000, 16);
    if let Some(i) = ip {
        proof {
            match i {
                IpNumber::V4(n) => {
                    law_denied_block(n);
                },
                _ => {},
            }
        }
        if net.contains(i) {
            return Err(
                validation_error(
                    "access to link-local / cloud metadata network 169.254.0.0/16 is blocked",
                ),
            );
        }
    }
    Ok(())
}

/// Reject hosts inside the deny list. Only direct IP targets are matched.
pub fn reject_denied_target(host: &str) -> (r: Result<(), SessionError>)
    ensures
        verdict_is(r, denial(ip_of(host@))),
{
    judge_target(parse_ip(host))
}

/// The denied block is the addresses that begin with 169.254.
pub proof fn law_denied_block(ip: u32)
    ensures
        (Network::V4(0xa9fe_0000, 16)).holds(IpNumber::V4(ip)) <==> denied(
            Some(IpNumber::V4(ip)),
        ),
{
    vstd::arithmetic::power2::lemma2_to64();
    let prefix: u8 = 16;
    assert((32 - prefix) as nat == 16);
    assert(pow2(16) == 65536);
    let n = ip as nat;
    assert(n / 65536 == 0xa9fe <==> 0xa9fe_0000 <= n <= 0xa9fe_ffff);
    assert(0xa9fe_0000u32 as nat / 65536 == 0xa9fe);
}

/// Why a host may not be a target, if there is a reason: the allowlist, then
/// the deny list.
pub open spec fn target_refusal(host: Seq<char>, allowed: Seq<Seq<char>>, lookup: Lookup) -> Option<
    Seq<char>,
> {
    let refusal = host_refusal(host, networks_of(allowed), ip_of(host), lookup);
    if refusal is Some {
        refusal
    } else {
        denial(ip_of(host))
    }
}

/// Check a target against the allowlist and the deny list.
pub fn check_target(host: &str, allowed: &Vec<String>, lookup: &Lookup) -> (r: Result<
    (),
    SessionError,
>)
    ensures
        verdict_is(r, target_refusal(host@, texts(allowed@), *lookup)),
{
    match check_allowed_network(host, allowed, lookup) {
        Err(e) => Err(e),
        Ok(_) => reject_denied_target(host),
    }
}

/// A link-local address is refused, whatever the allowlist and the resolver
/// say.
pub proof fn law_link_local_is_refused(
    host: Seq<char>,
    allowed: Seq<Seq<char>>,
    lookup: Lookup,
)
    requires
        denied(ip_of(host)),
    ensures
        target_refusal(host, allowed, lookup) is Some,
{
}

// ── The connecting client ──
/// What a reverse lookup gave, without the white space around it and without
/// trailing dots.
pub open spec fn host_name(name: Seq<char>) -> Seq<char> {
    without_trailing(trimmed(name), '.')
}

/// The name of the connecting client: its resolved name, else its address as
/// given, else "unknown".
pub open spec fn client_name(
    client_ip: Option<Seq<char>>,
    is_ip: bool,
    name: Option<Seq<char>>,
) -> Seq<char> {
    match client_ip {
        None => "unknown"@,
        Some(ip) => if ip.len() == 0 {
            "unknown"@
        } else if is_ip && name is Some && host_name(name->0).len() > 0 {
            host_name(name->0)
        } else {
            ip
        },
    }
}

/// The name of the connecting client, by what its address is and what the
/// reverse lookup gave.
pub fn client_name_from(client_ip: Option<&str>, is_ip: bool, name: Option<&str>) -> (r: String)
    ensures
        r@ == client_name(opt_str(client_ip), is_ip, opt_str(name)),
{
    let ip = match client_ip {
        None => return "unknown".to_owned(),
        Some(ip) => ip,
    };
    if ip.is_empty() {
        return "unknown".to_owned();
    }
    if is_ip {
        if let Some(n) = name {
            let t = trim(n);
            let bare = trim_end_char(t.as_str(), '.');
            if !bare.as_str().is_empty() {
                return bare;
            }
        }
    }
    ip.to_owned()
}

/// Resolve the connecting client's host name from what the reverse lookup of
/// its address gave (nothing, where it failed or was not asked).
pub fn resolve_client_host(client_ip: Option<&str>, name: Option<&str>) -> (r: String)
    ensures
        r@ == client_name(
            opt_str(client_ip),
            client_ip is Some && ip_of(client_ip->0@) is Some,
            opt_str(name),
        ),
{
    let is_ip = match client_ip {
        Some(ip) => parse_ip(ip).is_some(),
        None => false,
    };
    client_name_from(client_ip, is_ip, name)
}

} // verus!
