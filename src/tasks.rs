//! The periodic sync tasks: resolving a task's configuration, staggering
//! their first ticks, and the decisions within one tick.
use vstd::prelude::*;

use crate::address::IpType;

verus! {

/// Why a task's configuration was refused.
#[derive(Debug, Clone, Copy, PartialEq, Eq, Structural)]
pub enum ConfigError {
    /// The family is none of "ipv4", "ipv6" and "all".
    UnknownFamily,
    /// A notifier that the task names is not defined.
    UnknownNotifier,
    /// The interface that the task names is not defined.
    UnknownInterface,
    /// The provider that the task names is not defined.
    UnknownProvider,
}

/// Whether two strings hold the same characters.
pub fn same_text(a: &str, b: &str) -> (r: bool)
    ensures
        r == (a@ == b@),
{
    let n = a.unicode_len();
    if n != b.unicode_len() {
        return false;
    }
    let mut i: usize = 0;
    while i < n
        invariant
            i <= n,
            n == a@.len(),
            n == b@.len(),
            forall|k: int| 0 <= k < i ==> a@[k] == b@[k],
        decreases n - i,
    {
        if a.get_char(i) != b.get_char(i) {
            return false;
        }
        i += 1;
    }
    assert(a@ =~= b@);
    true
}

/// The families that a task's family setting selects.
pub open spec fn families_spec(name: Seq<char>) -> Option<Seq<IpType>> {
    if name == "ipv4"@ {
        Some(seq![IpType::V4])
    } else if name == "ipv6"@ {
        Some(seq![IpType::V6])
    } else if name == "all"@ {
        Some(seq![IpType::V4, IpType::V6])
    } else {
        None
    }
}

/// The families that a task's family setting selects: "ipv4", "ipv6", or
/// "all" for both.
pub fn parse_families(name: &str) -> (r: Result<Vec<IpType>, ConfigError>)
    ensures
        match families_spec(name@) {
            None => r == Err::<Vec<IpType>, ConfigError>(ConfigError::UnknownFamily),
            Some(f) => r is Ok && r->Ok_0@ == f,
        },
{
    if same_text(name, "ipv4") {
        Ok(vec![IpType::V4])
    } else if same_text(name, "ipv6") {
        Ok(vec![IpType::V6])
    } else if same_text(name, "all") {
        Ok(vec![IpType::V4, IpType::V6])
    } else {
        Err(ConfigError::UnknownFamily)
    }
}

/// The delay before the first tick of the task at `index`: `index` times
/// the base interval, capped at the largest `u64`.
pub fn stagger_delay(base: u64, index: u64) -> (r: u64)
    ensures
        base * index <= u64::MAX ==> r == base * index,
        base * index > u64::MAX ==> r == u64::MAX,
{
    match base.checked_mul(index) {
        Some(v) => v,
        None => u64::MAX,
    }
}

/// Finds the definition that a task refers to by name.
pub fn resolve(names: &Vec<String>, wanted: &String) -> (r: Option<usize>)
    ensures
        match r {
            None => forall|i: int| 0 <= i < names@.len() ==> names@[i]@ != wanted@,
            Some(i) => i < names@.len() && names@[i as int]@ == wanted@ && forall|j: int|
                0 <= j < i ==> names@[j]@ != wanted@,
        },
{
    let mut i: usize = 0;
    while i < names.len()
        invariant
            i <= names.len(),
            forall|j: int| 0 <= j < i ==> names@[j]@ != wanted@,
        decreases names.len() - i,
    {
        if names[i] == *wanted {
            return Some(i);
        }
        i += 1;
    }
    None
}

/// A task as the configuration declares it.
#[derive(Debug, Clone)]
pub struct TaskConfig {
    pub name: String,
    pub family: String,
    pub interface: String,
    pub provider: String,
    pub notifiers: Vec<String>,
    /// Seconds between ticks.
    pub interval: u32,
}

/// The names under which the configuration defines interfaces, providers
/// and notifiers.
#[derive(Debug, Clone)]
pub struct Definitions {
    pub interfaces: Vec<String>,
    pub providers: Vec<String>,
    pub notifiers: Vec<String>,
}

/// A task ready to run: what it refers to, as positions in [`Definitions`].
#[derive(Debug, Clone)]
pub struct TaskPlan {
    pub families: Vec<IpType>,
    pub interface: usize,
    pub provider: usize,
    pub notifiers: Vec<usize>,
    /// Seconds before the first tick.
    pub start_delay: u64,
    /// Seconds between ticks.
    pub interval: u64,
}

pub open spec fn defined(names: Seq<String>, wanted: Seq<char>) -> bool {
    exists|i: int| 0 <= i < names.len() && names[i]@ == wanted
}

/// Whether position `i` holds the first definition named `wanted`.
pub open spec fn first_named(names: Seq<String>, wanted: Seq<char>, i: int) -> bool {
    0 <= i < names.len() && names[i]@ == wanted && forall|j: int| 0 <= j < i ==> names[j]@ != wanted
}

/// The error that a task's configuration meets first, in the order: family,
/// notifiers, interface, provider.
pub open spec fn task_error(t: TaskConfig, defs: Definitions) -> Option<ConfigError> {
    if families_spec(t.family@) is None {
        Some(ConfigError::UnknownFamily)
    } else if exists|k: int| 0 <= k < t.notifiers@.len() && !defined(defs.notifiers@, #[trigger] t.notifiers@[k]@) {
        Some(ConfigError::UnknownNotifier)
    } else if !defined(defs.interfaces@, t.interface@) {
        Some(ConfigError::UnknownInterface)
    } else if !defined(defs.providers@, t.provider@) {
        Some(ConfigError::UnknownProvider)
    } else {
        None
    }
}

/// Whether `p` is the plan of task `t` at position `index`.
pub open spec fn plans_task(p: TaskPlan, t: TaskConfig, defs: Definitions, index: u64, base: u64) -> bool {
    &&& families_spec(t.family@) == Some(p.families@)
    &&& p.notifiers@.len() == t.notifiers@.len()
    &&& forall|k: int| 0 <= k < p.notifiers@.len() ==> first_named(defs.notifiers@, t.notifiers@[k]@, #[trigger] p.notifiers@[k] as int)
    &&& first_named(defs.interfaces@, t.interface@, p.interface as int)
    &&& first_named(defs.providers@, t.provider@, p.provider as int)
    &&& p.start_delay == (if base * index <= u64::MAX { base * index } else { u64::MAX as int })
    &&& p.interval == t.interval
}

/// Resolves the task at position `index` against the definitions.
pub fn plan_task(t: &TaskConfig, defs: &Definitions, index: u64, base: u64) -> (r: Result<TaskPlan, ConfigError>)
    ensures
        match task_error(*t, *defs) {
            Some(e) => r == Err::<TaskPlan, ConfigError>(e),
            None => r is Ok && plans_task(r->Ok_0, *t, *defs, index, base),
        },
{
    let families = match parse_families(t.family.as_str()) {
        Ok(f) => f,
        Err(e) => return Err(e),
    };
    let mut notifiers: Vec<usize> = Vec::new();
    let mut k: usize = 0;
    while k < t.notifiers.len()
        invariant
            k <= t.notifiers@.len(),
            notifiers@.len() == k,
            families_spec(t.family@) == Some(families@),
            forall|m: int| 0 <= m < k ==> defined(defs.notifiers@, #[trigger] t.notifiers@[m]@),
            forall|m: int| 0 <= m < k ==> first_named(defs.notifiers@, t.notifiers@[m]@, #[trigger] notifiers@[m] as int),
        decreases t.notifiers.len() - k,
    {
        match resolve(&defs.notifiers, &t.notifiers[k]) {
            None => {
                assert(!defined(defs.notifiers@, t.notifiers@[k as int]@));
                assert(exists|m: int| 0 <= m < t.notifiers@.len() && !defined(defs.notifiers@, #[trigger] t.notifiers@[m]@));
                return Err(ConfigError::UnknownNotifier);
            },
            Some(i) => {
                assert(defined(defs.notifiers@, t.notifiers@[k as int]@));
                notifiers.push(i);
            },
        }
        k += 1;
    }
    let interface = match resolve(&defs.interfaces, &t.interface) {
        None => return Err(ConfigError::UnknownInterface),
        Some(i) => i,
    };
    assert(defined(defs.interfaces@, t.interface@));
    let provider = match resolve(&defs.providers, &t.provider) {
        None => return Err(ConfigError::UnknownProvider),
        Some(i) => i,
    };
    assert(defined(defs.providers@, t.provider@));
    Ok(TaskPlan {
        families,
        interface,
        provider,
        notifiers,
        start_delay: stagger_delay(base, index),
        interval: t.interval as u64,
    })
}

/// Where a tick stands: the position of the family being worked on.
#[derive(Debug, Clone, Copy, PartialEq, Eq, Structural)]
pub struct TickState {
    pub family: usize,
}

/// What happened in a tick.
#[derive(Debug, Clone, Copy, PartialEq, Eq, Structural)]
pub enum TickEvent {
    /// The tick begins.
    Started,
    /// The source answered for the current family: `ok` where it gave
    /// addresses, `consistent` where all of them belong to the family.
    Fetched { ok: bool, consistent: bool },
    /// The cycle for the current family ended: `ok` where no provider call
    /// failed, `changed` where its outcome is not empty.
    Reconciled { ok: bool, changed: bool },
    /// Every notifier was tried with the outcome.
    Notified,
}

/// What a tick does next.
#[derive(Debug, Clone, Copy, PartialEq, Eq, Structural)]
pub enum TickCommand {
    /// Ask the source for the addresses of this family.
    Fetch(IpType),
    /// Run a cycle for this family with the addresses fetched.
    Reconcile(IpType),
    /// Send the outcome to every notifier; a failure of one does not stop
    /// the others.
    Notify,
    /// The tick is over.
    Done,
}

/// Go on with the family after position `i`, or end the tick.
pub open spec fn advance(families: Seq<IpType>, i: int) -> (int, TickCommand) {
    if i + 1 < families.len() {
        (i + 1, TickCommand::Fetch(families[i + 1]))
    } else {
        (i, TickCommand::Done)
    }
}

/// The tick's transition: families in order; a failed fetch or cycle ends
/// the tick; addresses of the wrong family skip to the next one; a cycle
/// that changed something is followed by the notifiers.
pub open spec fn tick_transition(families: Seq<IpType>, i: int, e: TickEvent) -> (int, TickCommand) {
    match e {
        TickEvent::Started => if families.len() == 0 {
            (0, TickCommand::Done)
        } else {
            (0, TickCommand::Fetch(families[0]))
        },
        TickEvent::Fetched { ok, consistent } => if !ok || i >= families.len() {
            (i, TickCommand::Done)
        } else if !consistent {
            advance(families, i)
        } else {
            (i, TickCommand::Reconcile(families[i]))
        },
        TickEvent::Reconciled { ok, changed } => if !ok || i >= families.len() {
            (i, TickCommand::Done)
        } else if changed {
            (i, TickCommand::Notify)
        } else {
            advance(families, i)
        },
        TickEvent::Notified => if i >= families.len() {
            (i, TickCommand::Done)
        } else {
            advance(families, i)
        },
    }
}

/// Decides the next step of a tick over `families`.
pub fn tick_step(families: &Vec<IpType>, state: &mut TickState, e: TickEvent) -> (c: TickCommand)
    ensures
        (final(state).family as int, c) == tick_transition(families@, old(state).family as int, e),
{
    let i = state.family;
    let n = families.len();
    match e {
        TickEvent::Started => {
            state.family = 0;
            if n == 0 {
                TickCommand::Done
            } else {
                TickCommand::Fetch(families[0])
            }
        },
        TickEvent::Fetched { ok, consistent } => {
            if !ok || i >= n {
                TickCommand::Done
            } else if !consistent {
                advance_exec(families, state)
            } else {
                TickCommand::Reconcile(families[i])
            }
        },
        TickEvent::Reconciled { ok, changed } => {
            if !ok || i >= n {
                TickCommand::Done
            } else if changed {
                TickCommand::Notify
            } else {
                advance_exec(families, state)
            }
        },
        TickEvent::Notified => {
            if i >= n {
                TickCommand::Done
            } else {
                advance_exec(families, state)
            }
        },
    }
}

fn advance_exec(families: &Vec<IpType>, state: &mut TickState) -> (c: TickCommand)
    requires
        old(state).family < families@.len(),
    ensures
        (final(state).family as int, c) == advance(families@, old(state).family as int),
{
    if state.family < families.len() - 1 {
        state.family = state.family + 1;
        TickCommand::Fetch(families[state.family])
    } else {
        TickCommand::Done
    }
}

/// Resolves every task, the i-th with a stagger of i base intervals; the
/// first task that is refused refuses the whole configuration.
pub fn plan_tasks(tasks: &Vec<TaskConfig>, defs: &Definitions, base: u64) -> (r: Result<Vec<TaskPlan>, ConfigError>)
    ensures
        match r {
            Ok(plans) => plans@.len() == tasks@.len() && (forall|i: int|
                0 <= i < tasks@.len() ==> task_error(#[trigger] tasks@[i], *defs) is None) && forall|i: int|
                0 <= i < tasks@.len() ==> plans_task(
                    #[trigger] plans@[i],
                    tasks@[i],
                    *defs,
                    i as u64,
                    base,
                ),
            Err(e) => exists|i: int|
                0 <= i < tasks@.len() && task_error(#[trigger] tasks@[i], *defs) == Some(e) && forall|j: int|
                    0 <= j < i ==> task_error(tasks@[j], *defs) is None,
        },
{
    let mut plans: Vec<TaskPlan> = Vec::new();
    let mut i: usize = 0;
    while i < tasks.len()
        invariant
            i <= tasks@.len(),
            plans@.len() == i,
            forall|j: int| 0 <= j < i ==> task_error(#[trigger] tasks@[j], *defs) is None,
            forall|j: int|
                0 <= j < i ==> plans_task(
                    #[trigger] plans@[j],
                    tasks@[j],
                    *defs,
                    j as u64,
                    base,
                ),
        decreases tasks.len() - i,
    {
        match plan_task(&tasks[i], defs, i as u64, base) {
            Ok(p) => {
                let ghost before = plans@;
                proof {
                    assert(task_error(tasks@[i as int], *defs) is None);
                    assert(plans_task(p, tasks@[i as int], *defs, i as u64, base));
                }
                plans.push(p);
                assert(plans@[i as int] == p);
                assert(forall|j: int| 0 <= j < i ==> plans@[j] == before[j]);
            },
            Err(e) => {
                assert(task_error(tasks@[i as int], *defs) == Some(e));
                return Err(e);
            },
        }
        i += 1;
    }
    Ok(plans)
}

} // verus!
