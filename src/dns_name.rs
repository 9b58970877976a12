//! DNS names: splitting a name into the prefix and the registrable root,
//! and the zone that a provider files a name under.
use vstd::prelude::*;

verus! {

/// What `addr::parse_dns_name` makes of a name: `None` where it refuses the
/// name, else the name's prefix (subdomain) and its root (registrable part),
/// each where the name has one.
pub uninterp spec fn parsed_dns_name(s: Seq<char>) -> Option<(Option<Seq<char>>, Option<Seq<char>>)>;

pub open spec fn opt_view(o: Option<String>) -> Option<Seq<char>> {
    match o {
        Some(s) => Some(s@),
        None => None,
    }
}

/// Relies on `addr::parse_dns_name` (public suffix list) to split a name,
/// reading the result through `Name::prefix` and `Name::root`.
#[verifier::external_body]
fn parse_dns_name(dns: &str) -> (r: Option<(Option<String>, Option<String>)>)
    ensures
        match r {
            None => parsed_dns_name(dns@) is None,
            Some(parts) => parsed_dns_name(dns@) == Some((opt_view(parts.0), opt_view(parts.1))),
        },
{
    match addr::parse_dns_name(dns) {
        Ok(name) => Some((name.prefix().map(|p| p.to_owned()), name.root().map(|r| r.to_owned()))),
        Err(_) => None,
    }
}

/// Why a DNS name was refused.
#[derive(Debug, Clone, Copy, PartialEq, Eq, Structural)]
pub enum DnsNameError {
    /// The name does not parse.
    Unparsable,
    /// The name has no registrable root.
    NoRoot,
}

/// The prefix and root that a parse yields, with "@" for a name without a
/// prefix.
pub open spec fn prefix_root_spec(
    parsed: Option<(Option<Seq<char>>, Option<Seq<char>>)>,
) -> Result<(Seq<char>, Seq<char>), DnsNameError> {
    match parsed {
        None => Err(DnsNameError::Unparsable),
        Some((_, None)) => Err(DnsNameError::NoRoot),
        Some((p, Some(root))) => Ok(
            (
                match p {
                    Some(x) => x,
                    None => "@"@,
                },
                root,
            ),
        ),
    }
}

pub open spec fn result_view(r: Result<(String, String), DnsNameError>) -> Result<(Seq<char>, Seq<char>), DnsNameError> {
    match r {
        Ok((p, root)) => Ok((p@, root@)),
        Err(e) => Err(e),
    }
}

/// Turns a parse of a name into its (prefix, root) pair.
pub fn prefix_root_of(parsed: Option<(Option<String>, Option<String>)>) -> (r: Result<(String, String), DnsNameError>)
    ensures
        result_view(r) == prefix_root_spec(
            match parsed {
                None => None,
                Some(parts) => Some((opt_view(parts.0), opt_view(parts.1))),
            },
        ),
{
    match parsed {
        None => Err(DnsNameError::Unparsable),
        Some((_, None)) => Err(DnsNameError::NoRoot),
        Some((p, Some(root))) => {
            let prefix = match p {
                Some(x) => x,
                None => "@".to_owned(),
            };
            Ok((prefix, root))
        },
    }
}

/// Splits a DNS name into its prefix ("@" where there is none) and its root.
pub fn get_dns_prefix_root(dns: &str) -> (r: Result<(String, String), DnsNameError>)
    ensures
        result_view(r) == prefix_root_spec(parsed_dns_name(dns@)),
{
    prefix_root_of(parse_dns_name(dns))
}

/// Where the kept suffix of `t[..i]` starts, scanning leftwards having passed
/// `dots` dots: just after the second dot from the right, or at the start.
pub open spec fn zone_start(t: Seq<char>, i: int, dots: nat) -> int
    decreases i,
{
    if i <= 0 {
        0
    } else if t[i - 1] == '.' {
        if dots >= 1 {
            i
        } else {
            zone_start(t, i - 1, dots + 1)
        }
    } else {
        zone_start(t, i - 1, dots)
    }
}

/// The name without one trailing dot.
pub open spec fn undotted(s: Seq<char>) -> Seq<char> {
    if s.len() > 0 && s.last() == '.' {
        s.drop_last()
    } else {
        s
    }
}

/// The zone of a name: its last two labels, a trailing dot ignored.
pub open spec fn zone_name_spec(s: Seq<char>) -> Seq<char> {
    let t = undotted(s);
    t.skip(zone_start(t, t.len() as int, 0))
}

/// The zone under which a provider files `dns`: its last two labels.
pub fn zone_name(dns: &str) -> (r: String)
    ensures
        r@ == zone_name_spec(dns@),
{
    let n = dns.unicode_len();
    let end: usize = if n > 0 && dns.get_char(n - 1) == '.' {
        n - 1
    } else {
        n
    };
    let ghost t = undotted(dns@);
    assert(t =~= dns@.subrange(0, end as int));
    let mut i: usize = end;
    let mut dots: usize = 0;
    let mut at_start = false;
    while i > 0 && !at_start
        invariant
            i <= end <= n,
            n == dns@.len(),
            t == dns@.subrange(0, end as int),
            dots <= 1,
            zone_start(t, i as int, dots as nat) == zone_start(t, end as int, 0),
            at_start ==> i > 0 && t[i - 1] == '.' && dots == 1,
        decreases i + (if at_start { 0int } else { 1int }),
    {
        if dns.get_char(i - 1) == '.' && dots >= 1 {
            at_start = true;
        } else {
            if dns.get_char(i - 1) == '.' {
                dots += 1;
            }
            i -= 1;
        }
    }
    assert(zone_start(t, end as int, 0) == i);
    let r = dns.substring_char(i, end);
    assert(r@ =~= t.skip(i as int));
    r.to_owned()
}

/// A DNS zone of the provider: only its identifier and name matter here.
#[derive(Debug, Clone)]
pub struct Zone {
    pub id: String,
    pub name: String,
}

impl Zone {
    /// How logs show the zone.
    pub fn describe(&self) -> (r: String)
        ensures
            r@ == "Zone "@ + self.name@ + " with id: "@ + self.id@,
    {
        let s = String::from_str("Zone ");
        let s = s.concat(self.name.as_str());
        let s = s.concat(" with id: ");
        s.concat(self.id.as_str())
    }
}

/// Why no zone could be chosen.
#[derive(Debug, Clone, Copy, PartialEq, Eq, Structural)]
pub enum ZoneError {
    /// The provider listed no zone of that name.
    NotFound,
}

/// The identifier of the first listed zone; an error where none is listed.
pub fn first_zone_id(zones: &Vec<Zone>) -> (r: Result<String, ZoneError>)
    ensures
        zones@.len() == 0 ==> r == Err::<String, ZoneError>(ZoneError::NotFound),
        zones@.len() > 0 ==> r is Ok && r->Ok_0@ == zones@[0].id@,
{
    if zones.len() == 0 {
        Err(ZoneError::NotFound)
    } else {
        Ok(zones[0].id.clone())
    }
}

} // verus!
