//! Provider records: grouping a flat listing by DNS-name prefix.
use vstd::prelude::*;

use crate::address::Addr;
use crate::reconcile::{RemoteGroup, RemoteRecord};

verus! {

/// The DNS record type that carries an address.
pub fn record_type(addr: &Addr) -> (r: &'static str)
    ensures
        *addr is V4 ==> r@ == "A"@,
        *addr is V6 ==> r@ == "AAAA"@,
{
    match addr {
        Addr::V4(_) => "A",
        Addr::V6(_) => "AAAA",
    }
}

/// How many records a provider returns per page at most.
pub const PAGE_SIZE: u32 = 50;

/// Whether a paged listing goes on after a page of `page_len` records: only
/// a full page may be followed by another.
pub fn more_pages(page_len: usize) -> (r: bool)
    ensures
        r == (page_len >= PAGE_SIZE),
{
    page_len >= PAGE_SIZE as usize
}

/// One record of a flat listing: the name it is filed under and its address.
#[derive(Debug, Clone)]
pub struct ListedRecord {
    pub name: String,
    pub addr: Addr,
}

/// Whether the groups hold each listed record exactly once, under its name,
/// with its position in the listing as its handle, in listing order.
pub open spec fn groups_of(listing: Seq<ListedRecord>, groups: Seq<RemoteGroup>) -> bool {
    &&& forall|g: int| 0 <= g < groups.len() ==> #[trigger] groups[g].records@.len() > 0
    &&& forall|g: int, h: int| 0 <= g < h < groups.len() ==> groups[g].prefix@ != groups[h].prefix@
    &&& forall|g: int, k: int|
        0 <= g < groups.len() && 0 <= k < groups[g].records@.len() ==> {
            let x = #[trigger] groups[g].records@[k];
            &&& x.id < listing.len()
            &&& listing[x.id as int].name@ == groups[g].prefix@
            &&& listing[x.id as int].addr == x.addr
        }
    &&& forall|g: int, k: int, m: int|
        0 <= g < groups.len() && 0 <= k < m < groups[g].records@.len() ==> #[trigger] groups[g].records@[k].id
            < #[trigger] groups[g].records@[m].id
    &&& forall|i: int|
        #![trigger listing[i]]
        0 <= i < listing.len() ==> exists|g: int, k: int|
            0 <= g < groups.len() && 0 <= k < groups[g].records@.len() && #[trigger] groups[g].records@[k].id
                == i && groups[g].prefix@ == listing[i].name@
}

/// Groups a flat listing by name, in the order in which names first appear;
/// each record's handle is its position in the listing.
pub fn group_records(listing: &Vec<ListedRecord>) -> (r: Vec<RemoteGroup>)
    requires
        listing@.len() <= u64::MAX,
    ensures
        groups_of(listing@, r@),
{
    let mut groups: Vec<RemoteGroup> = Vec::new();
    let mut i: usize = 0;
    while i < listing.len()
        invariant
            i <= listing@.len() <= u64::MAX,
            forall|g: int, h: int| 0 <= g < h < groups@.len() ==> groups@[g].prefix@ != groups@[h].prefix@,
            forall|g: int| 0 <= g < groups@.len() ==> #[trigger] groups@[g].records@.len() > 0,
            forall|g: int, k: int|
                0 <= g < groups@.len() && 0 <= k < groups@[g].records@.len() ==> {
                    let x = #[trigger] groups@[g].records@[k];
                    &&& x.id < i
                    &&& listing@[x.id as int].name@ == groups@[g].prefix@
                    &&& listing@[x.id as int].addr == x.addr
                },
            forall|g: int, k: int, m: int|
                0 <= g < groups@.len() && 0 <= k < m < groups@[g].records@.len() ==> #[trigger] groups@[g].records@[k].id
                    < #[trigger] groups@[g].records@[m].id,
            forall|j: int|
                #![trigger listing@[j]]
                0 <= j < i ==> exists|g: int, k: int|
                    0 <= g < groups@.len() && 0 <= k < groups@[g].records@.len() && #[trigger] groups@[g].records@[k].id
                        == j && groups@[g].prefix@ == listing@[j].name@,
        decreases listing.len() - i,
    {
        let item = &listing[i];
        let rec = RemoteRecord { id: i as u64, addr: item.addr };
        let mut g: usize = 0;
        let mut found = false;
        while g < groups.len() && !found
            invariant
                g <= groups@.len(),
                forall|h: int| 0 <= h < g ==> groups@[h].prefix@ != item.name@,
                found ==> g < groups@.len() && groups@[g as int].prefix@ == item.name@,
            decreases groups.len() - g + (if found { 0int } else { 1int }),
        {
            if groups[g].prefix == item.name {
                found = true;
            } else {
                g += 1;
            }
        }
        let ghost before = groups@;
        if g < groups.len() {
            let mut group = groups.remove(g);
            let ghost old_records = group.records@;
            group.records.push(rec);
            groups.insert(g, group);
            proof {
                assert(before.remove(g as int).insert(g as int, group) =~= before.update(g as int, group));
                assert forall|j: int| #![trigger listing@[j]] 0 <= j < i + 1 implies exists|g2: int, k: int|
                    0 <= g2 < groups@.len() && 0 <= k < groups@[g2].records@.len()
                        && #[trigger] groups@[g2].records@[k].id == j && groups@[g2].prefix@
                        == listing@[j].name@ by {
                    if j < i {
                        let (g2, k) = choose|g2: int, k: int|
                            0 <= g2 < before.len() && 0 <= k < before[g2].records@.len()
                                && #[trigger] before[g2].records@[k].id == j && before[g2].prefix@
                                == listing@[j].name@;
                        if g2 == g {
                            assert(groups@[g2].records@[k] == old_records[k]);
                        }
                        assert(groups@[g2].records@[k].id == j);
                    } else {
                        assert(groups@[g as int].records@[old_records.len() as int].id == j);
                    }
                }
            }
        } else {
            groups.push(RemoteGroup { prefix: item.name.clone(), records: vec![rec] });
            proof {
                assert forall|j: int| #![trigger listing@[j]] 0 <= j < i + 1 implies exists|g2: int, k: int|
                    0 <= g2 < groups@.len() && 0 <= k < groups@[g2].records@.len()
                        && #[trigger] groups@[g2].records@[k].id == j && groups@[g2].prefix@
                        == listing@[j].name@ by {
                    if j < i {
                        let (g2, k) = choose|g2: int, k: int|
                            0 <= g2 < before.len() && 0 <= k < before[g2].records@.len()
                                && #[trigger] before[g2].records@[k].id == j && before[g2].prefix@
                                == listing@[j].name@;
                        assert(groups@[g2] == before[g2]);
                        assert(groups@[g2].records@[k].id == j);
                    } else {
                        assert(groups@[before.len() as int].records@[0].id == j);
                    }
                }
            }
        }
        i += 1;
    }
    groups
}

/// The key pair with which a provider's API is called.
#[derive(Debug, Clone)]
pub struct Credentials {
    pub api_key: String,
    pub secret: String,
}

impl Credentials {
    /// The value of the authorization header: "sso-key KEY:SECRET".
    pub fn authorization(&self) -> (r: String)
        ensures
            r@ == "sso-key "@ + self.api_key@ + ":"@ + self.secret@,
    {
        let s = String::from_str("sso-key ");
        let s = s.concat(self.api_key.as_str());
        let s = s.concat(":");
        s.concat(self.secret.as_str())
    }
}

} // verus!
