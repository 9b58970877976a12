//! Address sources: which of the addresses that the system reports for an
//! interface a task may publish.
use vstd::prelude::*;

use crate::address::{in_family, is_global, is_global_spec, Addr, IpType};

verus! {

/// Why an address source gave no address.
#[derive(Debug, Clone, Copy, PartialEq, Eq, Structural)]
pub enum AddressError {
    /// No interface of that name exists.
    NotFound,
    /// The interface has no global address of the family asked for.
    NoAddress,
}

/// One network interface as the system reports it.
#[derive(Debug, Clone)]
pub struct InterfaceInfo {
    pub name: String,
    pub addrs: Vec<Addr>,
}

/// The addresses of the first reported interface named `name`.
pub open spec fn find_interface(ifs: Seq<InterfaceInfo>, name: Seq<char>) -> Option<Seq<Addr>>
    decreases ifs.len(),
{
    if ifs.len() == 0 {
        None
    } else if ifs[0].name@ == name {
        Some(ifs[0].addrs@)
    } else {
        find_interface(ifs.skip(1), name)
    }
}

/// Whether a task may publish an address for `family`.
pub open spec fn publishable(a: Addr, family: IpType) -> bool {
    is_global_spec(a) && in_family(a, family)
}

/// The publishable addresses among `addrs`, in order.
pub open spec fn publishable_addrs(addrs: Seq<Addr>, family: IpType) -> Seq<Addr>
    decreases addrs.len(),
{
    if addrs.len() == 0 {
        seq![]
    } else if publishable(addrs.last(), family) {
        publishable_addrs(addrs.drop_last(), family).push(addrs.last())
    } else {
        publishable_addrs(addrs.drop_last(), family)
    }
}

/// What an interface named `name` yields for `family`, given what the
/// system reports.
pub open spec fn interface_addrs(ifs: Seq<InterfaceInfo>, name: Seq<char>, family: IpType) -> Result<
    Seq<Addr>,
    AddressError,
> {
    match find_interface(ifs, name) {
        None => Err(AddressError::NotFound),
        Some(addrs) => if publishable_addrs(addrs, family).len() == 0 {
            Err(AddressError::NoAddress)
        } else {
            Ok(publishable_addrs(addrs, family))
        },
    }
}

pub open spec fn addrs_result_view(r: Result<Vec<Addr>, AddressError>) -> Result<Seq<Addr>, AddressError> {
    match r {
        Ok(v) => Ok(v@),
        Err(e) => Err(e),
    }
}

/// The publishable addresses among `addrs`, in order.
pub fn select_addresses(addrs: &Vec<Addr>, family: IpType) -> (r: Vec<Addr>)
    ensures
        r@ == publishable_addrs(addrs@, family),
{
    let mut r: Vec<Addr> = Vec::new();
    let mut i: usize = 0;
    while i < addrs.len()
        invariant
            i <= addrs.len(),
            r@ == publishable_addrs(addrs@.take(i as int), family),
        decreases addrs.len() - i,
    {
        let a = addrs[i];
        proof {
            assert(addrs@.take(i + 1).drop_last() =~= addrs@.take(i as int));
        }
        if is_global(&a) && a.in_family(family) {
            r.push(a);
        }
        i += 1;
    }
    proof {
        assert(addrs@.take(addrs@.len() as int) =~= addrs@);
    }
    r
}

fn find_interface_index(ifs: &Vec<InterfaceInfo>, name: &String) -> (r: Option<usize>)
    ensures
        match r {
            None => find_interface(ifs@, name@) is None,
            Some(i) => i < ifs.len() && find_interface(ifs@, name@) == Some(ifs@[i as int].addrs@),
        },
{
    let mut i: usize = 0;
    proof {
        assert(ifs@.skip(0) =~= ifs@);
    }
    while i < ifs.len()
        invariant
            i <= ifs.len(),
            find_interface(ifs@.skip(i as int), name@) == find_interface(ifs@, name@),
        decreases ifs.len() - i,
    {
        assert(ifs@.skip(i as int)[0] == ifs@[i as int]);
        if ifs[i].name == *name {
            return Some(i);
        }
        assert(ifs@.skip(i as int).skip(1) =~= ifs@.skip(i + 1));
        i += 1;
    }
    None
}

/// An address source that reads a network interface of this host.
#[derive(Debug, Clone)]
pub struct Stock {
    name: String,
}

impl View for Stock {
    type V = Seq<char>;

    closed spec fn view(&self) -> Seq<char> {
        self.name@
    }
}

impl Stock {
    /// A source for the interface named `name`.
    pub fn create(name: &str) -> (r: Result<Stock, AddressError>)
        ensures
            r is Ok,
            r->Ok_0@ == name@,
    {
        Ok(Stock { name: name.to_owned() })
    }

    /// The interface name.
    pub fn name(&self) -> (r: &String)
        ensures
            r@ == self@,
    {
        &self.name
    }

    /// The global addresses of `family` that the interface has, given the
    /// interfaces that the system reports.
    pub fn get_ip(&self, interfaces: &Vec<InterfaceInfo>, family: IpType) -> (r: Result<Vec<Addr>, AddressError>)
        ensures
            addrs_result_view(r) == interface_addrs(interfaces@, self@, family),
    {
        match find_interface_index(interfaces, &self.name) {
            None => Err(AddressError::NotFound),
            Some(i) => {
                let found = select_addresses(&interfaces[i].addrs, family);
                if found.len() == 0 {
                    Err(AddressError::NoAddress)
                } else {
                    Ok(found)
                }
            },
        }
    }
}

/// An address source for a container interface, which this host cannot
/// read: every query fails.
#[derive(Debug, Clone)]
pub struct LXD {
    name: String,
}

impl View for LXD {
    type V = Seq<char>;

    closed spec fn view(&self) -> Seq<char> {
        self.name@
    }
}

impl LXD {
    /// A source for the container interface named `name`.
    pub fn create(name: &str) -> (r: Result<LXD, AddressError>)
        ensures
            r is Ok,
            r->Ok_0@ == name@,
    {
        Ok(LXD { name: name.to_owned() })
    }

    /// The interface name.
    pub fn name(&self) -> (r: &String)
        ensures
            r@ == self@,
    {
        &self.name
    }

    /// Every query fails: the interface cannot be found.
    pub fn get_ip(&self, family: IpType) -> (r: Result<Vec<Addr>, AddressError>)
        ensures
            r == Err::<Vec<Addr>, AddressError>(AddressError::NotFound),
    {
        Err(AddressError::NotFound)
    }
}

/// Whether every address belongs to `family`.
pub open spec fn all_in_family(addrs: Seq<Addr>, family: IpType) -> bool {
    forall|i: int| 0 <= i < addrs.len() ==> in_family(#[trigger] addrs[i], family)
}

/// Whether every address that a source returned belongs to the family that
/// was asked for; a tick skips the family where one does not.
pub fn family_consistent(addrs: &Vec<Addr>, family: IpType) -> (r: bool)
    ensures
        r == all_in_family(addrs@, family),
{
    let mut i: usize = 0;
    while i < addrs.len()
        invariant
            i <= addrs.len(),
            forall|k: int| 0 <= k < i ==> in_family(#[trigger] addrs@[k], family),
        decreases addrs.len() - i,
    {
        if !addrs[i].in_family(family) {
            return false;
        }
        i += 1;
    }
    true
}

} // verus!
