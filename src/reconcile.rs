//! The reconciliation engine: compares the addresses observed locally with the
//! provider's records, prefix by prefix, and plans the fewest create, update
//! and delete calls that bring the provider in line, reusing existing records.
use vstd::prelude::*;

use crate::address::Addr;

verus! {

/// A record that the provider holds: a handle that is valid for one cycle, and
/// its address.
#[derive(Debug, Copy, Clone, PartialEq, Eq, Structural)]
pub struct RemoteRecord {
    pub id: u64,
    pub addr: Addr,
}

/// The addresses observed locally for one DNS-name prefix.
#[derive(Debug, Clone)]
pub struct LocalGroup {
    pub prefix: String,
    pub addrs: Vec<Addr>,
}

/// The provider's records for one DNS-name prefix.
#[derive(Debug, Clone)]
pub struct RemoteGroup {
    pub prefix: String,
    pub records: Vec<RemoteRecord>,
}

/// One provider call.
#[derive(Debug, Clone)]
pub enum Action {
    /// Create a record for `prefix` with `addr` and `ttl`.
    Create { prefix: String, addr: Addr, ttl: u32 },
    /// Point the existing record `record` of `prefix` at `addr`.
    Update { prefix: String, record: u64, addr: Addr },
    /// Delete the existing record `record` of `prefix`.
    Delete { prefix: String, record: u64 },
}

/// The mathematical value of an [`Action`].
pub enum Step {
    Create(Seq<char>, Addr, u32),
    Update(Seq<char>, u64, Addr),
    Delete(Seq<char>, u64),
}

impl View for Action {
    type V = Step;

    open spec fn view(&self) -> Step {
        match self {
            Action::Create { prefix, addr, ttl } => Step::Create(prefix@, *addr, *ttl),
            Action::Update { prefix, record, addr } => Step::Update(prefix@, *record, *addr),
            Action::Delete { prefix, record } => Step::Delete(prefix@, *record),
        }
    }
}

/// The calls of one cycle, in the order in which they are to be made, and the
/// (prefix, address) pairs that the cycle creates, updates or re-affirms.
#[derive(Debug, Clone)]
pub struct Plan {
    pub actions: Vec<Action>,
    pub outcome: Vec<(String, Addr)>,
}

pub open spec fn steps_of(v: Seq<Action>) -> Seq<Step> {
    v.map_values(|a: Action| a@)
}

pub open spec fn outcome_view(o: Seq<(String, Addr)>) -> Seq<(Seq<char>, Addr)> {
    o.map_values(|x: (String, Addr)| (x.0@, x.1))
}

pub open spec fn addrs_of(r: Seq<RemoteRecord>) -> Seq<Addr> {
    r.map_values(|x: RemoteRecord| x.addr)
}

/// The local addresses, first occurrences only and in their order, that no
/// remote record carries.
pub open spec fn fresh(l: Seq<Addr>, remote: Seq<Addr>) -> Seq<Addr>
    decreases l.len(),
{
    if l.len() == 0 {
        seq![]
    } else {
        let init = l.drop_last();
        let a = l.last();
        if init.contains(a) || remote.contains(a) {
            fresh(init, remote)
        } else {
            fresh(init, remote).push(a)
        }
    }
}

/// Whether record `x`, which follows the records `before`, is the first of
/// its prefix to carry its address. Records are compared by address only: a
/// later record that repeats an address is indistinguishable from the first
/// and is left out of the plan altogether.
pub open spec fn first_of_addr(before: Seq<RemoteRecord>, x: RemoteRecord) -> bool {
    !addrs_of(before).contains(x.addr)
}

/// Whether record `x`, which follows the records `before`, stays as it is: its
/// address is wanted locally and no earlier record carries it.
pub open spec fn stays(before: Seq<RemoteRecord>, x: RemoteRecord, l: Seq<Addr>) -> bool {
    l.contains(x.addr) && first_of_addr(before, x)
}

/// Whether record `x`, which follows the records `before`, is surplus: its
/// address is not wanted locally and no earlier record carries it.
pub open spec fn unwanted(before: Seq<RemoteRecord>, x: RemoteRecord, l: Seq<Addr>) -> bool {
    !l.contains(x.addr) && first_of_addr(before, x)
}

/// The remote records that stay, in their order.
pub open spec fn kept(r: Seq<RemoteRecord>, l: Seq<Addr>) -> Seq<RemoteRecord>
    decreases r.len(),
{
    if r.len() == 0 {
        seq![]
    } else if stays(r.drop_last(), r.last(), l) {
        kept(r.drop_last(), l).push(r.last())
    } else {
        kept(r.drop_last(), l)
    }
}

/// The surplus remote records, in their order: one per address that is not
/// wanted locally, the first record that carries it.
pub open spec fn surplus(r: Seq<RemoteRecord>, l: Seq<Addr>) -> Seq<RemoteRecord>
    decreases r.len(),
{
    if r.len() == 0 {
        seq![]
    } else if unwanted(r.drop_last(), r.last(), l) {
        surplus(r.drop_last(), l).push(r.last())
    } else {
        surplus(r.drop_last(), l)
    }
}

/// The records that repeat an address of an earlier record, in their order:
/// the plan leaves them as they are.
pub open spec fn repeats(r: Seq<RemoteRecord>) -> Seq<RemoteRecord>
    decreases r.len(),
{
    if r.len() == 0 {
        seq![]
    } else if first_of_addr(r.drop_last(), r.last()) {
        repeats(r.drop_last())
    } else {
        repeats(r.drop_last()).push(r.last())
    }
}

pub open spec fn min(a: int, b: int) -> int {
    if a <= b {
        a
    } else {
        b
    }
}

/// How many surplus records are reused for fresh addresses.
pub open spec fn paired(l: Seq<Addr>, r: Seq<RemoteRecord>) -> int {
    min(surplus(r, l).len() as int, fresh(l, addrs_of(r)).len() as int)
}

/// Force mode: re-affirm each record that stays.
pub open spec fn reaffirm_steps(p: Seq<char>, l: Seq<Addr>, r: Seq<RemoteRecord>) -> Seq<Step> {
    kept(r, l).map_values(|x: RemoteRecord| Step::Update(p, x.id, x.addr))
}

/// Repoint the i-th surplus record at the i-th fresh address.
pub open spec fn repoint_steps(p: Seq<char>, l: Seq<Addr>, r: Seq<RemoteRecord>) -> Seq<Step> {
    let s = surplus(r, l);
    let f = fresh(l, addrs_of(r));
    Seq::new(paired(l, r) as nat, |i: int| Step::Update(p, s[i].id, f[i]))
}

/// Delete the surplus records that were not reused.
pub open spec fn delete_steps(p: Seq<char>, l: Seq<Addr>, r: Seq<RemoteRecord>) -> Seq<Step> {
    surplus(r, l).skip(paired(l, r)).map_values(|x: RemoteRecord| Step::Delete(p, x.id))
}

/// Create records for the fresh addresses that no surplus record took.
pub open spec fn create_steps(p: Seq<char>, f: Seq<Addr>, ttl: u32) -> Seq<Step> {
    f.map_values(|a: Addr| Step::Create(p, a, ttl))
}

/// The calls for a prefix that the provider already has records for.
pub open spec fn group_steps(
    p: Seq<char>,
    l: Seq<Addr>,
    r: Seq<RemoteRecord>,
    ttl: u32,
    force: bool,
) -> Seq<Step> {
    (if force {
        reaffirm_steps(p, l, r)
    } else {
        seq![]
    }) + repoint_steps(p, l, r) + delete_steps(p, l, r) + create_steps(
        p,
        fresh(l, addrs_of(r)).skip(paired(l, r)),
        ttl,
    )
}

/// The records of the first remote group for prefix `p`.
pub open spec fn find_group(remote: Seq<RemoteGroup>, p: Seq<char>) -> Option<Seq<RemoteRecord>>
    decreases remote.len(),
{
    if remote.len() == 0 {
        None
    } else if remote[0].prefix@ == p {
        Some(remote[0].records@)
    } else {
        find_group(remote.skip(1), p)
    }
}

/// The calls for one local prefix: all creates where the provider has no
/// records for it, else the calls of [`group_steps`].
pub open spec fn prefix_steps(g: LocalGroup, remote: Seq<RemoteGroup>, ttl: u32, force: bool) -> Seq<
    Step,
> {
    match find_group(remote, g.prefix@) {
        None => create_steps(g.prefix@, g.addrs@, ttl),
        Some(r) => group_steps(g.prefix@, g.addrs@, r, ttl, force),
    }
}

/// The local addresses form a mapping: no prefix appears twice.
pub open spec fn distinct_prefixes(local: Seq<LocalGroup>) -> bool {
    forall|i: int, j: int| 0 <= i < j < local.len() ==> local[i].prefix@ != local[j].prefix@
}

/// The calls of a whole cycle, prefix after prefix in the local order.
pub open spec fn plan_steps(
    local: Seq<LocalGroup>,
    remote: Seq<RemoteGroup>,
    ttl: u32,
    force: bool,
) -> Seq<Step>
    decreases local.len(),
{
    if local.len() == 0 {
        seq![]
    } else {
        plan_steps(local.drop_last(), remote, ttl, force) + prefix_steps(
            local.last(),
            remote,
            ttl,
            force,
        )
    }
}

/// The (prefix, address) pairs that created or updated records carry.
pub open spec fn outcome_of(steps: Seq<Step>) -> Seq<(Seq<char>, Addr)>
    decreases steps.len(),
{
    if steps.len() == 0 {
        seq![]
    } else {
        let prev = outcome_of(steps.drop_last());
        match steps.last() {
            Step::Create(p, a, _) => prev.push((p, a)),
            Step::Update(p, _, a) => prev.push((p, a)),
            Step::Delete(_, _) => prev,
        }
    }
}

fn push_action(out: &mut Vec<Action>, a: Action)
    ensures
        steps_of(final(out)@) == steps_of(old(out)@).push(a@),
{
    let ghost before = out@;
    out.push(a);
    proof {
        assert(steps_of(out@) =~= steps_of(before).push(a@));
    }
}

/// Whether one of the first `n` addresses of `v` is `a`.
fn contains_upto(v: &Vec<Addr>, n: usize, a: Addr) -> (r: bool)
    requires
        n <= v.len(),
    ensures
        r == v@.take(n as int).contains(a),
{
    let mut j: usize = 0;
    while j < n
        invariant
            j <= n <= v.len(),
            forall|k: int| 0 <= k < j ==> v@[k] != a,
        decreases n - j,
    {
        if v[j] == a {
            assert(v@.take(n as int)[j as int] == a);
            return true;
        }
        j += 1;
    }
    assert(forall|k: int| 0 <= k < n ==> v@.take(n as int)[k] != a);
    false
}

/// Whether one of the first `n` records of `v` carries `a`.
fn records_carry(v: &Vec<RemoteRecord>, n: usize, a: Addr) -> (r: bool)
    requires
        n <= v.len(),
    ensures
        r == addrs_of(v@.take(n as int)).contains(a),
{
    let mut j: usize = 0;
    while j < n
        invariant
            j <= n <= v.len(),
            forall|k: int| 0 <= k < j ==> v@[k].addr != a,
        decreases n - j,
    {
        if v[j].addr == a {
            assert(addrs_of(v@.take(n as int))[j as int] == a);
            return true;
        }
        j += 1;
    }
    assert(forall|k: int| 0 <= k < n ==> addrs_of(v@.take(n as int))[k] != a);
    false
}

fn fresh_addrs(l: &Vec<Addr>, r: &Vec<RemoteRecord>) -> (out: Vec<Addr>)
    ensures
        out@ == fresh(l@, addrs_of(r@)),
{
    let mut out: Vec<Addr> = Vec::new();
    let mut i: usize = 0;
    proof {
        assert(r@.take(r@.len() as int) =~= r@);
    }
    while i < l.len()
        invariant
            i <= l.len(),
            r@.take(r@.len() as int) == r@,
            out@ == fresh(l@.take(i as int), addrs_of(r@)),
        decreases l.len() - i,
    {
        let a = l[i];
        let seen = contains_upto(l, i, a);
        let remote_has = records_carry(r, r.len(), a);
        proof {
            assert(l@.take(i + 1).drop_last() =~= l@.take(i as int));
        }
        if !seen && !remote_has {
            out.push(a);
        }
        i += 1;
    }
    proof {
        assert(l@.take(l@.len() as int) =~= l@);
    }
    out
}

fn split_records(r: &Vec<RemoteRecord>, l: &Vec<Addr>) -> (res: (Vec<RemoteRecord>, Vec<RemoteRecord>))
    ensures
        res.0@ == kept(r@, l@),
        res.1@ == surplus(r@, l@),
{
    let mut keep: Vec<RemoteRecord> = Vec::new();
    let mut rest: Vec<RemoteRecord> = Vec::new();
    let mut i: usize = 0;
    proof {
        assert(l@.take(l@.len() as int) =~= l@);
    }
    while i < r.len()
        invariant
            i <= r.len(),
            l@.take(l@.len() as int) == l@,
            keep@ == kept(r@.take(i as int), l@),
            rest@ == surplus(r@.take(i as int), l@),
        decreases r.len() - i,
    {
        let x = r[i];
        let wanted = contains_upto(l, l.len(), x.addr);
        let repeated = records_carry(r, i, x.addr);
        proof {
            assert(r@.take(i + 1).drop_last() =~= r@.take(i as int));
        }
        if !repeated {
            if wanted {
                keep.push(x);
            } else {
                rest.push(x);
            }
        }
        i += 1;
    }
    proof {
        assert(r@.take(r@.len() as int) =~= r@);
    }
    (keep, rest)
}

fn push_creates(out: &mut Vec<Action>, prefix: &String, f: &Vec<Addr>, from: usize, ttl: u32)
    requires
        from <= f.len(),
    ensures
        steps_of(final(out)@) == steps_of(old(out)@) + create_steps(prefix@, f@.skip(from as int), ttl),
{
    let ghost base = steps_of(out@);
    let ghost part = create_steps(prefix@, f@.skip(from as int), ttl);
    let mut i: usize = from;
    proof {
        assert(base + part.take(0) =~= base);
    }
    while i < f.len()
        invariant
            from <= i <= f.len(),
            part == create_steps(prefix@, f@.skip(from as int), ttl),
            part.len() == f.len() - from,
            steps_of(out@) == base + part.take(i - from),
        decreases f.len() - i,
    {
        push_action(out, Action::Create { prefix: prefix.clone(), addr: f[i], ttl });
        proof {
            assert(base + part.take(i + 1 - from) =~= (base + part.take(i - from)).push(part[i - from]));
        }
        i += 1;
    }
    proof {
        assert(part.take(part.len() as int) =~= part);
    }
}

fn push_group_actions(
    out: &mut Vec<Action>,
    prefix: &String,
    l: &Vec<Addr>,
    r: &Vec<RemoteRecord>,
    ttl: u32,
    force: bool,
)
    ensures
        steps_of(final(out)@) == steps_of(old(out)@) + group_steps(prefix@, l@, r@, ttl, force),
{
    let f = fresh_addrs(l, r);
    let (keep, rest) = split_records(r, l);
    let ghost p = prefix@;
    let ghost base = steps_of(out@);
    if force {
        let ghost part = reaffirm_steps(p, l@, r@);
        let mut i: usize = 0;
        proof {
            assert(base + part.take(0) =~= base);
        }
        while i < keep.len()
            invariant
                i <= keep.len(),
                keep@ == kept(r@, l@),
                part == reaffirm_steps(p, l@, r@),
                p == prefix@,
                steps_of(out@) == base + part.take(i as int),
            decreases keep.len() - i,
        {
            let x = keep[i];
            push_action(out, Action::Update { prefix: prefix.clone(), record: x.id, addr: x.addr });
            proof {
                assert(base + part.take(i + 1) =~= (base + part.take(i as int)).push(part[i as int]));
            }
            i += 1;
        }
        proof {
            assert(part.take(keep.len() as int) =~= part);
        }
    }
    let ghost base2 = steps_of(out@);
    assert(base2 == base + (if force {
        reaffirm_steps(p, l@, r@)
    } else {
        seq![]
    })) by {
        if !force {
            assert(base2 =~= base + seq![]);
        }
    }
    let k: usize = if rest.len() <= f.len() {
        rest.len()
    } else {
        f.len()
    };
    let ghost part = repoint_steps(p, l@, r@);
    let mut i: usize = 0;
    proof {
        assert(base2 + part.take(0) =~= base2);
    }
    while i < k
        invariant
            i <= k,
            k == paired(l@, r@),
            k <= rest.len(),
            k <= f.len(),
            rest@ == surplus(r@, l@),
            f@ == fresh(l@, addrs_of(r@)),
            part == repoint_steps(p, l@, r@),
            p == prefix@,
            steps_of(out@) == base2 + part.take(i as int),
        decreases k - i,
    {
        push_action(out, Action::Update { prefix: prefix.clone(), record: rest[i].id, addr: f[i] });
        proof {
            assert(base2 + part.take(i + 1) =~= (base2 + part.take(i as int)).push(part[i as int]));
        }
        i += 1;
    }
    proof {
        assert(part.take(k as int) =~= part);
    }
    let ghost base3 = steps_of(out@);
    let ghost dels = delete_steps(p, l@, r@);
    let mut j: usize = k;
    proof {
        assert(base3 + dels.take(0) =~= base3);
    }
    while j < rest.len()
        invariant
            k <= j <= rest.len(),
            k == paired(l@, r@),
            rest@ == surplus(r@, l@),
            dels == delete_steps(p, l@, r@),
            dels.len() == rest.len() - k,
            p == prefix@,
            steps_of(out@) == base3 + dels.take(j - k),
        decreases rest.len() - j,
    {
        push_action(out, Action::Delete { prefix: prefix.clone(), record: rest[j].id });
        proof {
            assert(base3 + dels.take(j + 1 - k) =~= (base3 + dels.take(j - k)).push(dels[j - k]));
        }
        j += 1;
    }
    proof {
        assert(dels.take(dels.len() as int) =~= dels);
    }
    push_creates(out, prefix, &f, k, ttl);
    proof {
        let g = group_steps(p, l@, r@, ttl, force);
        assert(steps_of(out@) =~= base + g);
    }
}

fn find_group_index(remote: &Vec<RemoteGroup>, p: &String) -> (r: Option<usize>)
    ensures
        match r {
            None => find_group(remote@, p@) is None,
            Some(i) => i < remote.len() && find_group(remote@, p@) == Some(remote@[i as int].records@),
        },
{
    let mut i: usize = 0;
    proof {
        assert(remote@.skip(0) =~= remote@);
    }
    while i < remote.len()
        invariant
            i <= remote.len(),
            find_group(remote@.skip(i as int), p@) == find_group(remote@, p@),
        decreases remote.len() - i,
    {
        assert(remote@.skip(i as int)[0] == remote@[i as int]);
        if remote[i].prefix == *p {
            return Some(i);
        }
        assert(remote@.skip(i as int).skip(1) =~= remote@.skip(i + 1));
        i += 1;
    }
    None
}

fn outcome_for(actions: &Vec<Action>) -> (o: Vec<(String, Addr)>)
    ensures
        outcome_view(o@) == outcome_of(steps_of(actions@)),
{
    let mut o: Vec<(String, Addr)> = Vec::new();
    let mut i: usize = 0;
    while i < actions.len()
        invariant
            i <= actions.len(),
            outcome_view(o@) == outcome_of(steps_of(actions@.take(i as int))),
        decreases actions.len() - i,
    {
        let ghost before = o@;
        proof {
            assert(steps_of(actions@.take(i + 1)).drop_last() =~= steps_of(actions@.take(i as int)));
        }
        match &actions[i] {
            Action::Create { prefix, addr, .. } => {
                o.push((prefix.clone(), *addr));
                assert(outcome_view(o@) =~= outcome_view(before).push((prefix@, *addr)));
            },
            Action::Update { prefix, addr, .. } => {
                o.push((prefix.clone(), *addr));
                assert(outcome_view(o@) =~= outcome_view(before).push((prefix@, *addr)));
            },
            Action::Delete { .. } => {},
        }
        i += 1;
    }
    proof {
        assert(actions@.take(actions@.len() as int) =~= actions@);
    }
    o
}

/// Plans one reconciliation cycle: for each local prefix in order, creates
/// for every address where the provider has no records for the prefix;
/// otherwise re-affirms (in force mode) the records that stay, repoints
/// surplus records at fresh addresses one for one, deletes the surplus
/// records left over and creates records for the fresh addresses left over.
/// The outcome lists what the creates and updates carry. Records are told
/// apart by address only: a record that repeats the address of an earlier
/// record of its prefix is left alone.
pub fn reconcile(local: &Vec<LocalGroup>, remote: &Vec<RemoteGroup>, ttl: u32, force: bool) -> (plan: Plan)
    requires
        distinct_prefixes(local@),
    ensures
        steps_of(plan.actions@) == plan_steps(local@, remote@, ttl, force),
        outcome_view(plan.outcome@) == outcome_of(plan_steps(local@, remote@, ttl, force)),
{
    let mut actions: Vec<Action> = Vec::new();
    let mut i: usize = 0;
    proof {
        assert(steps_of(actions@) =~= seq![]);
    }
    while i < local.len()
        invariant
            i <= local.len(),
            steps_of(actions@) == plan_steps(local@.take(i as int), remote@, ttl, force),
        decreases local.len() - i,
    {
        let g = &local[i];
        let ghost before = steps_of(actions@);
        proof {
            assert(local@.take(i + 1).drop_last() =~= local@.take(i as int));
        }
        match find_group_index(remote, &g.prefix) {
            None => {
                push_creates(&mut actions, &g.prefix, &g.addrs, 0, ttl);
                assert(g.addrs@.skip(0) =~= g.addrs@);
            },
            Some(j) => {
                push_group_actions(&mut actions, &g.prefix, &g.addrs, &remote[j].records, ttl, force);
            },
        }
        i += 1;
    }
    proof {
        assert(local@.take(local@.len() as int) =~= local@);
    }
    let outcome = outcome_for(&actions);
    Plan { actions, outcome }
}

} // verus!
