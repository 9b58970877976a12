//! Laws of the reconciliation engine.
use vstd::prelude::*;

use crate::address::Addr;
use crate::reconcile::{
    addrs_of, create_steps, delete_steps, distinct_prefixes, find_group, fresh, group_steps, kept,
    outcome_of, paired, plan_steps, prefix_steps, reaffirm_steps, repeats, repoint_steps, stays, surplus,
    first_of_addr,
    LocalGroup, RemoteGroup, RemoteRecord, Step,
};

verus! {

/// The provider is in line with `local`: for each local prefix, the records
/// carry the local addresses and nothing else, or, where the provider has no
/// records for the prefix, there are no local addresses.
pub open spec fn synced(local: Seq<LocalGroup>, remote: Seq<RemoteGroup>) -> bool {
    forall|i: int|
        0 <= i < local.len() ==> match #[trigger] find_group(remote, local[i].prefix@) {
            None => local[i].addrs@.len() == 0,
            Some(r) => addrs_of(r).to_set() == local[i].addrs@.to_set(),
        }
}

proof fn lemma_fresh_empty(l: Seq<Addr>, ra: Seq<Addr>)
    requires
        forall|a: Addr| l.contains(a) ==> ra.contains(a),
    ensures
        fresh(l, ra).len() == 0,
    decreases l.len(),
{
    if l.len() > 0 {
        assert(l.contains(l.last()));
        assert forall|a: Addr| l.drop_last().contains(a) implies ra.contains(a) by {
            let k = choose|k: int| 0 <= k < l.drop_last().len() && l.drop_last()[k] == a;
            assert(l[k] == a);
        }
        lemma_fresh_empty(l.drop_last(), ra);
    }
}

proof fn lemma_surplus_empty(r: Seq<RemoteRecord>, l: Seq<Addr>)
    requires
        forall|i: int| 0 <= i < r.len() ==> l.contains(#[trigger] r[i].addr),
    ensures
        surplus(r, l).len() == 0,
    decreases r.len(),
{
    if r.len() > 0 {
        let init = r.drop_last();
        assert(l.contains(r[r.len() - 1].addr));
        assert forall|i: int| 0 <= i < init.len() implies l.contains(#[trigger] init[i].addr) by {
            assert(init[i] == r[i]);
        }
        lemma_surplus_empty(init, l);
    }
}

/// A prefix whose records already match the local addresses needs no call.
proof fn lemma_synced_prefix(g: LocalGroup, remote: Seq<RemoteGroup>, ttl: u32)
    requires
        match find_group(remote, g.prefix@) {
            None => g.addrs@.len() == 0,
            Some(r) => addrs_of(r).to_set() == g.addrs@.to_set(),
        },
    ensures
        prefix_steps(g, remote, ttl, false).len() == 0,
{
    match find_group(remote, g.prefix@) {
        None => {},
        Some(r) => {
            let l = g.addrs@;
            let ra = addrs_of(r);
            assert forall|a: Addr| l.contains(a) implies ra.contains(a) by {
                assert(l.to_set().contains(a));
            }
            lemma_fresh_empty(l, ra);
            assert forall|i: int| 0 <= i < r.len() implies l.contains(#[trigger] r[i].addr) by {
                assert(ra[i] == r[i].addr);
                assert(ra.to_set().contains(r[i].addr));
            }
            lemma_surplus_empty(r, l);
            assert(paired(l, r) == 0);
            assert(group_steps(g.prefix@, l, r, ttl, false).len() == 0);
        },
    }
}

/// Idempotence: once the provider is in line with the local addresses, a
/// cycle without force mode makes no call and has an empty outcome.
pub proof fn lemma_synced_cycle_is_empty(local: Seq<LocalGroup>, remote: Seq<RemoteGroup>, ttl: u32)
    requires
        synced(local, remote),
    ensures
        plan_steps(local, remote, ttl, false) == Seq::<Step>::empty(),
        outcome_of(plan_steps(local, remote, ttl, false)) == Seq::<(Seq<char>, Addr)>::empty(),
    decreases local.len(),
{
    if local.len() > 0 {
        let init = local.drop_last();
        assert forall|i: int| 0 <= i < init.len() implies match #[trigger] find_group(
            remote,
            init[i].prefix@,
        ) {
            None => init[i].addrs@.len() == 0,
            Some(r) => addrs_of(r).to_set() == init[i].addrs@.to_set(),
        } by {
            assert(init[i] == local[i]);
        }
        lemma_synced_cycle_is_empty(init, remote, ttl);
        let last = local[local.len() - 1];
        assert(match find_group(remote, last.prefix@) {
            None => last.addrs@.len() == 0,
            Some(r) => addrs_of(r).to_set() == last.addrs@.to_set(),
        });
        lemma_synced_prefix(local.last(), remote, ttl);
        assert(plan_steps(local, remote, ttl, false) =~= Seq::<Step>::empty());
    }
}

proof fn lemma_fresh_all(l: Seq<Addr>, ra: Seq<Addr>)
    requires
        l.no_duplicates(),
        forall|a: Addr| l.contains(a) ==> !ra.contains(a),
    ensures
        fresh(l, ra) == l,
    decreases l.len(),
{
    if l.len() > 0 {
        let init = l.drop_last();
        assert(l.contains(l.last()));
        assert(!init.contains(l.last())) by {
            if init.contains(l.last()) {
                let k = choose|k: int| 0 <= k < init.len() && init[k] == l.last();
                assert(l[k] == l[l.len() - 1]);
            }
        }
        assert forall|a: Addr| init.contains(a) implies !ra.contains(a) by {
            let k = choose|k: int| 0 <= k < init.len() && init[k] == a;
            assert(l[k] == a);
        }
        lemma_fresh_all(init, ra);
        assert(init.push(l.last()) =~= l);
    }
}

/// One record per address that the records carry, the first that carries
/// it, in order.
pub open spec fn firsts(r: Seq<RemoteRecord>) -> Seq<RemoteRecord>
    decreases r.len(),
{
    if r.len() == 0 {
        seq![]
    } else if first_of_addr(r.drop_last(), r.last()) {
        firsts(r.drop_last()).push(r.last())
    } else {
        firsts(r.drop_last())
    }
}

proof fn lemma_firsts_facts(r: Seq<RemoteRecord>)
    ensures
        addrs_of(firsts(r)).no_duplicates(),
        addrs_of(firsts(r)).to_set() == addrs_of(r).to_set(),
        firsts(r).len() == addrs_of(r).to_set().len(),
    decreases r.len(),
{
    if r.len() > 0 {
        let init = r.drop_last();
        let x = r.last();
        lemma_firsts_facts(init);
        assert(addrs_of(init) =~= addrs_of(r).drop_last());
        assert(addrs_of(r) =~= addrs_of(init).push(x.addr));
        addrs_of(init).lemma_push_to_set_commute(x.addr);
        let fi = addrs_of(firsts(init));
        if first_of_addr(init, x) {
            assert(addrs_of(firsts(r)) =~= fi.push(x.addr));
            assert(!fi.contains(x.addr)) by {
                if fi.contains(x.addr) {
                    assert(fi.to_set().contains(x.addr));
                    assert(addrs_of(init).to_set().contains(x.addr));
                }
            }
            assert(addrs_of(firsts(r)).no_duplicates()) by {
                assert forall|i: int, j: int|
                    0 <= i < j < fi.len() + 1 implies addrs_of(firsts(r))[i] != addrs_of(firsts(r))[j] by {
                    if j == fi.len() {
                        assert(fi[i] == addrs_of(firsts(r))[i]);
                    }
                }
            }
            fi.lemma_push_to_set_commute(x.addr);
        } else {
            assert(addrs_of(firsts(r)) =~= fi);
            assert(addrs_of(init).to_set().contains(x.addr));
            assert(addrs_of(r).to_set() =~= addrs_of(init).to_set().insert(x.addr));
        }
        addrs_of(firsts(r)).lemma_no_dup_set_cardinality();
    } else {
        assert(addrs_of(r).to_set() =~= Set::<Addr>::empty());
    }
}

proof fn lemma_surplus_all(r: Seq<RemoteRecord>, l: Seq<Addr>)
    requires
        forall|i: int| 0 <= i < r.len() ==> !l.contains(#[trigger] r[i].addr),
    ensures
        surplus(r, l) == firsts(r),
        kept(r, l).len() == 0,
    decreases r.len(),
{
    if r.len() > 0 {
        let init = r.drop_last();
        assert(!l.contains(r[r.len() - 1].addr));
        assert forall|i: int| 0 <= i < init.len() implies !l.contains(#[trigger] init[i].addr) by {
            assert(init[i] == r[i]);
        }
        lemma_surplus_all(init, l);
    }
}

/// Minimality: where the local and remote addresses of a prefix, read as
/// sets, have the same size and nothing in common, one record per remote
/// address is reused: the cycle makes one update per local address and no
/// delete or create. Records that repeat an address are left alone.
pub proof fn lemma_rotation_is_updates_only(
    p: Seq<char>,
    l: Seq<Addr>,
    r: Seq<RemoteRecord>,
    ttl: u32,
)
    requires
        l.no_duplicates(),
        addrs_of(r).to_set().len() == l.len(),
        forall|i: int| 0 <= i < r.len() ==> !l.contains(#[trigger] r[i].addr),
    ensures
        group_steps(p, l, r, ttl, false) == Seq::new(
            l.len(),
            |i: int| Step::Update(p, firsts(r)[i].id, l[i]),
        ),
{
    let ra = addrs_of(r);
    assert forall|a: Addr| l.contains(a) implies !ra.contains(a) by {
        if ra.contains(a) {
            let k = choose|k: int| 0 <= k < ra.len() && ra[k] == a;
            assert(r[k].addr == a);
        }
    }
    lemma_fresh_all(l, ra);
    lemma_surplus_all(r, l);
    lemma_firsts_facts(r);
    assert(paired(l, r) == l.len());
    assert(group_steps(p, l, r, ttl, false) =~= Seq::new(
        l.len(),
        |i: int| Step::Update(p, firsts(r)[i].id, l[i]),
    ));
}

/// Creation only: a local prefix for which the provider has no records gets
/// one create per local address, in order, and no update or delete.
pub proof fn lemma_new_prefix_is_creates_only(
    g: LocalGroup,
    remote: Seq<RemoteGroup>,
    ttl: u32,
    force: bool,
)
    requires
        find_group(remote, g.prefix@) is None,
    ensures
        prefix_steps(g, remote, ttl, force).len() == g.addrs@.len(),
        forall|i: int|
            0 <= i < g.addrs@.len() ==> #[trigger] prefix_steps(g, remote, ttl, force)[i]
                == Step::Create(g.prefix@, g.addrs@[i], ttl),
{
    assert(prefix_steps(g, remote, ttl, force) == create_steps(g.prefix@, g.addrs@, ttl));
}

/// The addresses that a prefix carries after a cycle over records `r`: those
/// of the records that stay, then the fresh addresses, the first of them on
/// reused surplus records and the rest on created ones, then those of the
/// records that repeat an address, which the cycle leaves alone.
pub open spec fn left_after(l: Seq<Addr>, r: Seq<RemoteRecord>) -> Seq<Addr> {
    addrs_of(kept(r, l)) + fresh(l, addrs_of(r)) + addrs_of(repeats(r))
}

/// Every address that several of the records carry is wanted locally.
pub open spec fn repeats_wanted(l: Seq<Addr>, r: Seq<RemoteRecord>) -> bool {
    forall|i: int, j: int|
        0 <= i < j < r.len() && #[trigger] r[i].addr == #[trigger] r[j].addr ==> l.contains(r[j].addr)
}

proof fn lemma_repeats_wanted(l: Seq<Addr>, r: Seq<RemoteRecord>)
    requires
        repeats_wanted(l, r),
    ensures
        forall|a: Addr| #[trigger] addrs_of(repeats(r)).contains(a) ==> l.contains(a),
    decreases r.len(),
{
    if r.len() > 0 {
        let init = r.drop_last();
        let x = r.last();
        assert(repeats_wanted(l, init)) by {
            assert forall|i: int, j: int|
                0 <= i < j < init.len() && #[trigger] init[i].addr == #[trigger] init[j].addr implies l.contains(init[j].addr) by {
                assert(init[i] == r[i] && init[j] == r[j]);
            }
        }
        lemma_repeats_wanted(l, init);
        let ri = addrs_of(repeats(init));
        assert forall|a: Addr| #[trigger] addrs_of(repeats(r)).contains(a) implies l.contains(a) by {
            let k = choose|k: int| 0 <= k < addrs_of(repeats(r)).len() && addrs_of(repeats(r))[k] == a;
            if k < ri.len() {
                assert(addrs_of(repeats(r))[k] == ri[k]);
                assert(ri.contains(a));
            } else {
                assert(a == x.addr);
                assert(addrs_of(init).contains(x.addr));
                let m = choose|m: int| 0 <= m < addrs_of(init).len() && addrs_of(init)[m] == x.addr;
                assert(r[m].addr == r[r.len() - 1].addr);
            }
        }
    }
}

proof fn lemma_kept_facts(r: Seq<RemoteRecord>, l: Seq<Addr>)
    ensures
        addrs_of(kept(r, l)).no_duplicates(),
        forall|a: Addr|
            #[trigger] addrs_of(kept(r, l)).contains(a) ==> l.contains(a) && addrs_of(r).contains(a),
        forall|a: Addr|
            l.contains(a) && addrs_of(r).contains(a) ==> #[trigger] addrs_of(kept(r, l)).contains(a),
    decreases r.len(),
{
    if r.len() > 0 {
        let init = r.drop_last();
        let x = r.last();
        lemma_kept_facts(init, l);
        assert(addrs_of(init) =~= addrs_of(r).drop_last());
        assert(addrs_of(r)[r.len() - 1] == x.addr);
        let ki = addrs_of(kept(init, l));
        if stays(init, x, l) {
            assert(addrs_of(kept(r, l)) =~= ki.push(x.addr));
            assert(!ki.contains(x.addr));
            assert(addrs_of(kept(r, l)).no_duplicates()) by {
                assert forall|i: int, j: int|
                    0 <= i < j < ki.len() + 1 implies addrs_of(kept(r, l))[i] != addrs_of(
                    kept(r, l),
                )[j] by {
                    if j == ki.len() {
                        assert(ki[i] == addrs_of(kept(r, l))[i]);
                    }
                }
            }
        } else {
            assert(addrs_of(kept(r, l)) =~= ki);
        }
        assert forall|a: Addr| #[trigger] addrs_of(kept(r, l)).contains(a) implies l.contains(a)
            && addrs_of(r).contains(a) by {
            if ki.contains(a) {
                let k = choose|k: int| 0 <= k < addrs_of(init).len() && addrs_of(init)[k] == a;
                assert(addrs_of(r)[k] == a);
            }
        }
        assert forall|a: Addr| l.contains(a) && addrs_of(r).contains(a) implies #[trigger] addrs_of(
            kept(r, l),
        ).contains(a) by {
            let k = choose|k: int| 0 <= k < addrs_of(r).len() && addrs_of(r)[k] == a;
            if k < r.len() - 1 {
                assert(addrs_of(init)[k] == a);
                assert(ki.contains(a));
                let m = choose|m: int| 0 <= m < ki.len() && ki[m] == a;
                assert(addrs_of(kept(r, l))[m] == a);
            } else if !addrs_of(init).contains(a) {
                assert(addrs_of(kept(r, l))[ki.len() as int] == a);
            } else {
                assert(ki.contains(a));
                let m = choose|m: int| 0 <= m < ki.len() && ki[m] == a;
                assert(addrs_of(kept(r, l))[m] == a);
            }
        }
    }
}

proof fn lemma_fresh_facts(l: Seq<Addr>, ra: Seq<Addr>)
    ensures
        fresh(l, ra).no_duplicates(),
        forall|a: Addr| #[trigger] fresh(l, ra).contains(a) ==> l.contains(a) && !ra.contains(a),
        forall|a: Addr| l.contains(a) && !ra.contains(a) ==> #[trigger] fresh(l, ra).contains(a),
    decreases l.len(),
{
    if l.len() > 0 {
        let init = l.drop_last();
        let a0 = l.last();
        lemma_fresh_facts(init, ra);
        let fi = fresh(init, ra);
        if !(init.contains(a0) || ra.contains(a0)) {
            assert(!fi.contains(a0));
            assert(fresh(l, ra).no_duplicates()) by {
                assert forall|i: int, j: int|
                    0 <= i < j < fi.len() + 1 implies fresh(l, ra)[i] != fresh(l, ra)[j] by {
                    if j == fi.len() {
                        assert(fi[i] == fresh(l, ra)[i]);
                    }
                }
            }
        }
        assert forall|a: Addr| #[trigger] fresh(l, ra).contains(a) implies l.contains(a)
            && !ra.contains(a) by {
            if fi.contains(a) {
                let k = choose|k: int| 0 <= k < init.len() && init[k] == a;
                assert(l[k] == a);
            } else {
                assert(l[l.len() - 1] == a);
            }
        }
        assert forall|a: Addr| l.contains(a) && !ra.contains(a) implies #[trigger] fresh(
            l,
            ra,
        ).contains(a) by {
            let k = choose|k: int| 0 <= k < l.len() && l[k] == a;
            if k < l.len() - 1 {
                assert(init[k] == a);
                assert(init.contains(a));
                assert(fi.contains(a));
                let m = choose|m: int| 0 <= m < fi.len() && fi[m] == a;
                assert(fresh(l, ra)[m] == a);
            } else if init.contains(a) {
                assert(fi.contains(a));
                let m = choose|m: int| 0 <= m < fi.len() && fi[m] == a;
                assert(fresh(l, ra)[m] == a);
            } else {
                assert(fresh(l, ra)[fi.len() as int] == a);
            }
        }
    }
}

/// Convergence: what a cycle leaves at a prefix that the provider has
/// records for is the local addresses and nothing else, where every address
/// that several records carry is wanted locally, so that the next cycle
/// finds the prefix in line (see [`lemma_synced_cycle_is_empty`]).
pub proof fn lemma_cycle_leaves_local_addresses(l: Seq<Addr>, r: Seq<RemoteRecord>)
    requires
        repeats_wanted(l, r),
    ensures
        left_after(l, r).to_set() == l.to_set(),
{
    let ka = addrs_of(kept(r, l));
    let f = fresh(l, addrs_of(r));
    let rp = addrs_of(repeats(r));
    lemma_kept_facts(r, l);
    lemma_fresh_facts(l, addrs_of(r));
    lemma_repeats_wanted(l, r);
    assert forall|a: Addr| left_after(l, r).contains(a) <==> l.contains(a) by {
        if left_after(l, r).contains(a) {
            let k = choose|k: int| 0 <= k < left_after(l, r).len() && left_after(l, r)[k] == a;
            if k < ka.len() {
                assert(ka.contains(a));
            } else if k < ka.len() + f.len() {
                assert(f[k - ka.len()] == a);
                assert(f.contains(a));
            } else {
                assert(rp[k - ka.len() - f.len()] == a);
                assert(rp.contains(a));
            }
        }
        if l.contains(a) {
            if addrs_of(r).contains(a) {
                assert(ka.contains(a));
                let m = choose|m: int| 0 <= m < ka.len() && ka[m] == a;
                assert(left_after(l, r)[m] == a);
            } else {
                assert(f.contains(a));
                let m = choose|m: int| 0 <= m < f.len() && f[m] == a;
                assert(left_after(l, r)[ka.len() + m] == a);
            }
        }
    }
    assert(left_after(l, r).to_set() =~= l.to_set());
}

/// The addresses that a cycle leaves at the prefix of local group `g`: the
/// local addresses themselves where the provider had no records for it.
pub open spec fn left_for(g: LocalGroup, remote: Seq<RemoteGroup>) -> Seq<Addr> {
    match find_group(remote, g.prefix@) {
        Some(r) => left_after(g.addrs@, r),
        None => g.addrs@,
    }
}

/// `after` is what the provider holds once a cycle planned from `local` and
/// `before` has been carried out: for each local prefix, the addresses that
/// the cycle left there and nothing else.
pub open spec fn holds_after_cycle(
    local: Seq<LocalGroup>,
    before: Seq<RemoteGroup>,
    after: Seq<RemoteGroup>,
) -> bool {
    forall|i: int|
        0 <= i < local.len() ==> match #[trigger] find_group(after, local[i].prefix@) {
            None => left_for(local[i], before).len() == 0,
            Some(r) => addrs_of(r).to_set() == left_for(local[i], before).to_set(),
        }
}

/// Idempotence: a second cycle without force mode, over what the first one
/// left at the provider and with the same local addresses, makes no call and
/// has an empty outcome, where every address that several records of a
/// prefix carried before the first cycle is wanted locally.
pub proof fn lemma_second_cycle_is_empty(
    local: Seq<LocalGroup>,
    before: Seq<RemoteGroup>,
    after: Seq<RemoteGroup>,
    ttl: u32,
)
    requires
        holds_after_cycle(local, before, after),
        forall|i: int|
            0 <= i < local.len() && #[trigger] find_group(before, local[i].prefix@) is Some
                ==> repeats_wanted(local[i].addrs@, find_group(before, local[i].prefix@)->Some_0),
    ensures
        plan_steps(local, after, ttl, false) == Seq::<Step>::empty(),
        outcome_of(plan_steps(local, after, ttl, false)) == Seq::<(Seq<char>, Addr)>::empty(),
{
    assert forall|i: int| 0 <= i < local.len() implies match #[trigger] find_group(
        after,
        local[i].prefix@,
    ) {
        None => local[i].addrs@.len() == 0,
        Some(r) => addrs_of(r).to_set() == local[i].addrs@.to_set(),
    } by {
        let g = local[i];
        let l = g.addrs@;
        if let Some(r) = find_group(before, g.prefix@) {
            assert(find_group(before, local[i].prefix@) is Some);
            lemma_cycle_leaves_local_addresses(l, r);
        }
        assert(left_for(g, before).to_set() == l.to_set());
        if find_group(after, g.prefix@) is None && l.len() > 0 {
            assert(l.to_set().contains(l[0]));
            assert(left_for(g, before).to_set().contains(l[0]));
            assert(left_for(g, before).len() > 0);
        }
    }
    lemma_synced_cycle_is_empty(local, after, ttl);
}

/// The prefix that a call concerns.
pub open spec fn step_prefix(s: Step) -> Seq<char> {
    match s {
        Step::Create(p, _, _) => p,
        Step::Update(p, _, _) => p,
        Step::Delete(p, _) => p,
    }
}

/// The calls, in order, that concern prefix `p`.
pub open spec fn steps_for(steps: Seq<Step>, p: Seq<char>) -> Seq<Step>
    decreases steps.len(),
{
    if steps.len() == 0 {
        seq![]
    } else if step_prefix(steps.last()) == p {
        steps_for(steps.drop_last(), p).push(steps.last())
    } else {
        steps_for(steps.drop_last(), p)
    }
}

/// The outcome pairs, in order, of prefix `p`.
pub open spec fn outcome_for(o: Seq<(Seq<char>, Addr)>, p: Seq<char>) -> Seq<(Seq<char>, Addr)>
    decreases o.len(),
{
    if o.len() == 0 {
        seq![]
    } else if o.last().0 == p {
        outcome_for(o.drop_last(), p).push(o.last())
    } else {
        outcome_for(o.drop_last(), p)
    }
}

pub open spec fn all_of_prefix(steps: Seq<Step>, p: Seq<char>) -> bool {
    forall|k: int| 0 <= k < steps.len() ==> step_prefix(#[trigger] steps[k]) == p
}

proof fn lemma_steps_for_concat(a: Seq<Step>, b: Seq<Step>, p: Seq<char>)
    ensures
        steps_for(a + b, p) == steps_for(a, p) + steps_for(b, p),
    decreases b.len(),
{
    if b.len() == 0 {
        assert(a + b =~= a);
        assert(steps_for(a, p) + steps_for(b, p) =~= steps_for(a, p));
    } else {
        assert((a + b).drop_last() =~= a + b.drop_last());
        lemma_steps_for_concat(a, b.drop_last(), p);
        assert((a + b).last() == b.last());
        if step_prefix(b.last()) == p {
            assert(steps_for(a, p) + steps_for(b.drop_last(), p).push(b.last()) =~= (steps_for(a, p)
                + steps_for(b.drop_last(), p)).push(b.last()));
        }
    }
}

proof fn lemma_steps_for_uniform(s: Seq<Step>, q: Seq<char>, p: Seq<char>)
    requires
        all_of_prefix(s, q),
    ensures
        q == p ==> steps_for(s, p) == s,
        q != p ==> steps_for(s, p).len() == 0,
    decreases s.len(),
{
    if s.len() > 0 {
        assert(step_prefix(s[s.len() - 1]) == q);
        assert(all_of_prefix(s.drop_last(), q)) by {
            assert forall|k: int| 0 <= k < s.drop_last().len() implies step_prefix(
                #[trigger] s.drop_last()[k],
            ) == q by {
                assert(s.drop_last()[k] == s[k]);
            }
        }
        lemma_steps_for_uniform(s.drop_last(), q, p);
        if q == p {
            assert(s.drop_last().push(s.last()) =~= s);
        }
    }
}

proof fn lemma_prefix_steps_uniform(g: LocalGroup, remote: Seq<RemoteGroup>, ttl: u32, force: bool)
    ensures
        all_of_prefix(prefix_steps(g, remote, ttl, force), g.prefix@),
{
    let p = g.prefix@;
    match find_group(remote, p) {
        None => {},
        Some(r) => {
            let a = if force {
                reaffirm_steps(p, g.addrs@, r)
            } else {
                seq![]
            };
            let b = repoint_steps(p, g.addrs@, r);
            let c = delete_steps(p, g.addrs@, r);
            let d = create_steps(p, fresh(g.addrs@, addrs_of(r)).skip(paired(g.addrs@, r)), ttl);
            let all = a + b + c + d;
            assert(all == group_steps(p, g.addrs@, r, ttl, force));
            assert forall|k: int| 0 <= k < all.len() implies step_prefix(#[trigger] all[k]) == p by {
                if k < a.len() {
                    assert(all[k] == a[k]);
                } else if k < a.len() + b.len() {
                    assert(all[k] == b[k - a.len()]);
                } else if k < a.len() + b.len() + c.len() {
                    assert(all[k] == c[k - a.len() - b.len()]);
                } else {
                    assert(all[k] == d[k - a.len() - b.len() - c.len()]);
                }
            }
        },
    }
}

proof fn lemma_plan_without_prefix(local: Seq<LocalGroup>, remote: Seq<RemoteGroup>, ttl: u32, force: bool, p: Seq<char>)
    requires
        forall|i: int| 0 <= i < local.len() ==> (#[trigger] local[i]).prefix@ != p,
    ensures
        steps_for(plan_steps(local, remote, ttl, force), p).len() == 0,
    decreases local.len(),
{
    if local.len() > 0 {
        let init = local.drop_last();
        assert forall|i: int| 0 <= i < init.len() implies (#[trigger] init[i]).prefix@ != p by {
            assert(init[i] == local[i]);
        }
        lemma_plan_without_prefix(init, remote, ttl, force, p);
        let last = local[local.len() - 1];
        lemma_prefix_steps_uniform(last, remote, ttl, force);
        lemma_steps_for_uniform(prefix_steps(last, remote, ttl, force), last.prefix@, p);
        lemma_steps_for_concat(plan_steps(init, remote, ttl, force), prefix_steps(last, remote, ttl, force), p);
    }
}

/// Within a whole cycle, the calls that concern the prefix of local group
/// `i` are exactly the calls planned for that group, in order: the laws
/// stated for one prefix hold of every prefix of a cycle.
pub proof fn lemma_cycle_calls_for_prefix(
    local: Seq<LocalGroup>,
    remote: Seq<RemoteGroup>,
    ttl: u32,
    force: bool,
    i: int,
)
    requires
        distinct_prefixes(local),
        0 <= i < local.len(),
    ensures
        steps_for(plan_steps(local, remote, ttl, force), local[i].prefix@) == prefix_steps(
            local[i],
            remote,
            ttl,
            force,
        ),
    decreases local.len(),
{
    let init = local.drop_last();
    let last = local[local.len() - 1];
    let p = local[i].prefix@;
    assert(distinct_prefixes(init)) by {
        assert forall|a: int, b: int| 0 <= a < b < init.len() implies init[a].prefix@ != init[b].prefix@ by {
            assert(init[a] == local[a] && init[b] == local[b]);
        }
    }
    lemma_prefix_steps_uniform(last, remote, ttl, force);
    lemma_steps_for_concat(plan_steps(init, remote, ttl, force), prefix_steps(last, remote, ttl, force), p);
    lemma_steps_for_uniform(prefix_steps(last, remote, ttl, force), last.prefix@, p);
    if i == local.len() - 1 {
        assert forall|j: int| 0 <= j < init.len() implies (#[trigger] init[j]).prefix@ != p by {
            assert(init[j] == local[j]);
        }
        lemma_plan_without_prefix(init, remote, ttl, force, p);
        assert(steps_for(plan_steps(init, remote, ttl, force), p) + prefix_steps(last, remote, ttl, force)
            =~= prefix_steps(last, remote, ttl, force));
    } else {
        assert(init[i] == local[i]);
        lemma_cycle_calls_for_prefix(init, remote, ttl, force, i);
        assert(local[i].prefix@ != last.prefix@);
        assert(prefix_steps(local[i], remote, ttl, force) + steps_for(prefix_steps(last, remote, ttl, force), p)
            =~= prefix_steps(local[i], remote, ttl, force));
    }
}

proof fn lemma_outcome_concat(a: Seq<Step>, b: Seq<Step>)
    ensures
        outcome_of(a + b) == outcome_of(a) + outcome_of(b),
    decreases b.len(),
{
    if b.len() == 0 {
        assert(a + b =~= a);
        assert(outcome_of(a) + outcome_of(b) =~= outcome_of(a));
    } else {
        assert((a + b).drop_last() =~= a + b.drop_last());
        lemma_outcome_concat(a, b.drop_last());
        assert((a + b).last() == b.last());
        match b.last() {
            Step::Delete(_, _) => {},
            Step::Create(q, x, _) => {
                assert(outcome_of(a) + outcome_of(b.drop_last()).push((q, x)) =~= (outcome_of(a)
                    + outcome_of(b.drop_last())).push((q, x)));
            },
            Step::Update(q, _, x) => {
                assert(outcome_of(a) + outcome_of(b.drop_last()).push((q, x)) =~= (outcome_of(a)
                    + outcome_of(b.drop_last())).push((q, x)));
            },
        }
    }
}

/// The outcome of a cycle, restricted to prefix `p`, is the outcome of the
/// calls that concern `p`.
pub proof fn lemma_outcome_for_prefix(steps: Seq<Step>, p: Seq<char>)
    ensures
        outcome_for(outcome_of(steps), p) == outcome_of(steps_for(steps, p)),
    decreases steps.len(),
{
    if steps.len() > 0 {
        let init = steps.drop_last();
        lemma_outcome_for_prefix(init, p);
        let prev = outcome_of(init);
        let sf = steps_for(init, p);
        let e = steps.last();
        assert(sf.push(e).drop_last() =~= sf);
        assert(sf.push(e).last() == e);
        match e {
            Step::Delete(_, _) => {},
            Step::Create(q, x, _) => {
                assert(prev.push((q, x)).drop_last() =~= prev);
            },
            Step::Update(q, _, x) => {
                assert(prev.push((q, x)).drop_last() =~= prev);
            },
        }
    }
}

proof fn lemma_create_outcome(p: Seq<char>, l: Seq<Addr>, ttl: u32)
    ensures
        outcome_of(create_steps(p, l, ttl)) == l.map_values(|a: Addr| (p, a)),
    decreases l.len(),
{
    if l.len() > 0 {
        lemma_create_outcome(p, l.drop_last(), ttl);
        assert(create_steps(p, l, ttl).drop_last() =~= create_steps(p, l.drop_last(), ttl));
        assert(l.map_values(|a: Addr| (p, a)) =~= l.drop_last().map_values(|a: Addr| (p, a)).push((p, l.last())));
    } else {
        assert(create_steps(p, l, ttl) =~= Seq::<Step>::empty());
        assert(l.map_values(|a: Addr| (p, a)) =~= Seq::<(Seq<char>, Addr)>::empty());
    }
}

/// Creation only, over a whole cycle: for a local prefix that the provider
/// has no records for, the cycle's calls for that prefix are one create per
/// local address, in order, and its outcome for the prefix lists those
/// addresses in order.
pub proof fn lemma_cycle_new_prefix(
    local: Seq<LocalGroup>,
    remote: Seq<RemoteGroup>,
    ttl: u32,
    force: bool,
    i: int,
)
    requires
        distinct_prefixes(local),
        0 <= i < local.len(),
        find_group(remote, local[i].prefix@) is None,
    ensures
        steps_for(plan_steps(local, remote, ttl, force), local[i].prefix@) == create_steps(
            local[i].prefix@,
            local[i].addrs@,
            ttl,
        ),
        outcome_for(outcome_of(plan_steps(local, remote, ttl, force)), local[i].prefix@)
            == local[i].addrs@.map_values(|a: Addr| (local[i].prefix@, a)),
{
    lemma_cycle_calls_for_prefix(local, remote, ttl, force, i);
    lemma_outcome_for_prefix(plan_steps(local, remote, ttl, force), local[i].prefix@);
    lemma_create_outcome(local[i].prefix@, local[i].addrs@, ttl);
}

/// Minimality, over a whole cycle: for a local prefix whose local and remote
/// addresses, read as sets, have the same size and nothing in common, the
/// cycle's calls for that prefix are one update per local address, each
/// reusing the first record of one remote address.
pub proof fn lemma_cycle_rotation(local: Seq<LocalGroup>, remote: Seq<RemoteGroup>, ttl: u32, i: int)
    requires
        distinct_prefixes(local),
        0 <= i < local.len(),
        find_group(remote, local[i].prefix@) is Some,
        local[i].addrs@.no_duplicates(),
        addrs_of(find_group(remote, local[i].prefix@)->Some_0).to_set().len() == local[i].addrs@.len(),
        forall|k: int|
            0 <= k < find_group(remote, local[i].prefix@)->Some_0.len() ==> !local[i].addrs@.contains(
                #[trigger] find_group(remote, local[i].prefix@)->Some_0[k].addr,
            ),
    ensures
        steps_for(plan_steps(local, remote, ttl, false), local[i].prefix@) == Seq::new(
            local[i].addrs@.len(),
            |k: int| Step::Update(local[i].prefix@, firsts(find_group(remote, local[i].prefix@)->Some_0)[k].id, local[i].addrs@[k]),
        ),
{
    lemma_cycle_calls_for_prefix(local, remote, ttl, false, i);
    lemma_rotation_is_updates_only(local[i].prefix@, local[i].addrs@, find_group(remote, local[i].prefix@)->Some_0, ttl);
}

proof fn lemma_surplus_unwanted(r: Seq<RemoteRecord>, l: Seq<Addr>)
    ensures
        forall|k: int| 0 <= k < surplus(r, l).len() ==> !l.contains(#[trigger] surplus(r, l)[k].addr),
        forall|k: int|
            0 <= k < r.len() && !l.contains(#[trigger] r[k].addr) ==> addrs_of(surplus(r, l)).contains(r[k].addr),
    decreases r.len(),
{
    if r.len() > 0 {
        let init = r.drop_last();
        let x = r.last();
        lemma_surplus_unwanted(init, l);
        let si = surplus(init, l);
        assert forall|k: int| 0 <= k < surplus(r, l).len() implies !l.contains(#[trigger] surplus(r, l)[k].addr) by {
            if k < si.len() {
                assert(surplus(r, l)[k] == si[k]);
            }
        }
        assert forall|k: int|
            0 <= k < r.len() && !l.contains(#[trigger] r[k].addr) implies addrs_of(surplus(r, l)).contains(r[k].addr) by {
            if k < r.len() - 1 {
                assert(init[k] == r[k]);
                let m = choose|m: int| 0 <= m < addrs_of(si).len() && addrs_of(si)[m] == r[k].addr;
                assert(addrs_of(surplus(r, l))[m] == r[k].addr);
            } else if first_of_addr(init, x) {
                assert(addrs_of(surplus(r, l))[si.len() as int] == r[k].addr);
            } else {
                let m = choose|m: int| 0 <= m < addrs_of(init).len() && addrs_of(init)[m] == x.addr;
                assert(init[m].addr == x.addr);
                assert(addrs_of(si).contains(x.addr));
                let n = choose|n: int| 0 <= n < addrs_of(si).len() && addrs_of(si)[n] == x.addr;
                assert(addrs_of(surplus(r, l))[n] == x.addr);
            }
        }
    }
}

/// Surplus remote records: where every local address of a prefix is already
/// carried by one of its records, the calls for the prefix are, in force
/// mode, the re-affirmations of the records that stay, then one delete for
/// each address that is not wanted locally, of the first record that carries
/// it, and nothing else; no create and no repointing.
pub proof fn lemma_surplus_remote(p: Seq<char>, l: Seq<Addr>, r: Seq<RemoteRecord>, ttl: u32, force: bool)
    requires
        forall|a: Addr| l.contains(a) ==> addrs_of(r).contains(a),
    ensures
        group_steps(p, l, r, ttl, force) == (if force {
            reaffirm_steps(p, l, r)
        } else {
            seq![]
        }) + surplus(r, l).map_values(|x: RemoteRecord| Step::Delete(p, x.id)),
        forall|k: int| 0 <= k < surplus(r, l).len() ==> !l.contains(#[trigger] surplus(r, l)[k].addr),
        forall|k: int|
            0 <= k < r.len() && !l.contains(#[trigger] r[k].addr) ==> addrs_of(surplus(r, l)).contains(r[k].addr),
{
    lemma_fresh_empty(l, addrs_of(r));
    lemma_surplus_unwanted(r, l);
    assert(paired(l, r) == 0);
    assert(surplus(r, l).skip(0) =~= surplus(r, l));
    let a = if force {
        reaffirm_steps(p, l, r)
    } else {
        seq![]
    };
    assert(repoint_steps(p, l, r) =~= Seq::<Step>::empty());
    assert(create_steps(p, fresh(l, addrs_of(r)).skip(0), ttl) =~= Seq::<Step>::empty());
    assert(group_steps(p, l, r, ttl, force) =~= a + surplus(r, l).map_values(|x: RemoteRecord| Step::Delete(p, x.id)));
}

proof fn lemma_delete_outcome(p: Seq<char>, s: Seq<RemoteRecord>)
    ensures
        outcome_of(s.map_values(|x: RemoteRecord| Step::Delete(p, x.id))).len() == 0,
    decreases s.len(),
{
    if s.len() > 0 {
        lemma_delete_outcome(p, s.drop_last());
        assert(s.map_values(|x: RemoteRecord| Step::Delete(p, x.id)).drop_last() =~= s.drop_last().map_values(
            |x: RemoteRecord| Step::Delete(p, x.id),
        ));
    }
}

/// Surplus remote records, over a whole cycle without force mode: for a
/// local prefix whose addresses the provider's records all carry already,
/// the cycle's calls for that prefix are one delete per address that is not
/// wanted locally, and its outcome has nothing for the prefix.
pub proof fn lemma_cycle_surplus_remote(local: Seq<LocalGroup>, remote: Seq<RemoteGroup>, ttl: u32, i: int)
    requires
        distinct_prefixes(local),
        0 <= i < local.len(),
        find_group(remote, local[i].prefix@) is Some,
        forall|a: Addr| local[i].addrs@.contains(a) ==> addrs_of(find_group(remote, local[i].prefix@)->Some_0).contains(a),
    ensures
        steps_for(plan_steps(local, remote, ttl, false), local[i].prefix@) == surplus(
            find_group(remote, local[i].prefix@)->Some_0,
            local[i].addrs@,
        ).map_values(|x: RemoteRecord| Step::Delete(local[i].prefix@, x.id)),
        outcome_for(outcome_of(plan_steps(local, remote, ttl, false)), local[i].prefix@).len() == 0,
{
    let p = local[i].prefix@;
    let r = find_group(remote, p)->Some_0;
    lemma_cycle_calls_for_prefix(local, remote, ttl, false, i);
    lemma_surplus_remote(p, local[i].addrs@, r, ttl, false);
    let dels = surplus(r, local[i].addrs@).map_values(|x: RemoteRecord| Step::Delete(p, x.id));
    assert(seq![] + dels =~= dels);
    lemma_outcome_for_prefix(plan_steps(local, remote, ttl, false), p);
    lemma_delete_outcome(p, surplus(r, local[i].addrs@));
}

} // verus!
