use ddns_rs::address::IpType;
use ddns_rs::cli::{log_level, LogLevel};
use ddns_rs::shutdown::ShutdownSignal;
use ddns_rs::supervisor::{Command, Event, Phase, Supervisor, RETRY_COOLDOWN_SECS};
use ddns_rs::tasks::{
    parse_families, plan_task, plan_tasks, stagger_delay, tick_step, ConfigError, Definitions, TaskConfig,
    TickCommand, TickEvent, TickState,
};

#[test]
fn no_tick_after_trigger() {
    let mut s = ShutdownSignal::new();
    assert!(s.begin_tick());
    assert!(s.begin_tick());
    s.trigger();
    assert!(!s.begin_tick());
    assert!(!s.drained());
    s.end_tick();
    assert!(!s.drained());
    s.end_tick();
    assert!(s.drained());
    s.trigger();
    assert!(s.is_triggered());
    assert!(!s.begin_tick());
    assert_eq!(s.in_flight(), 0);
}

#[test]
fn supervisor_shutdown() {
    let (mut sup, first) = Supervisor::new();
    assert_eq!(first, Command::ReadConfig);
    assert_eq!(sup.handle(Event::ConfigLoaded), Command::StartTasks);
    assert!(sup.begin_tick(0));
    assert_eq!(sup.handle(Event::TerminationRequested), Command::AwaitDrain);
    assert!(!sup.begin_tick(0));
    assert_eq!(sup.handle(Event::TasksDrained), Command::AwaitDrain);
    sup.end_tick();
    assert_eq!(sup.handle(Event::TasksDrained), Command::Exit);
    assert_eq!(sup.phase(), Phase::Terminated);
}

#[test]
fn supervisor_reload() {
    let (mut sup, _) = Supervisor::new();
    sup.handle(Event::ConfigLoaded);
    assert!(sup.begin_tick(0));
    sup.end_tick();
    assert_eq!(sup.handle(Event::ReloadRequested), Command::AwaitDrain);
    assert_eq!(sup.handle(Event::TasksDrained), Command::ReadConfig);
    assert_eq!(sup.generation(), 1);
    assert!(!sup.is_triggered());
    assert_eq!(sup.handle(Event::ConfigLoaded), Command::StartTasks);
    assert!(!sup.begin_tick(0));
    assert!(sup.begin_tick(1));
}

#[test]
fn supervisor_retry_and_failures() {
    let (mut sup, _) = Supervisor::new();
    sup.handle(Event::ConfigLoaded);
    assert_eq!(sup.handle(Event::TasksFailed), Command::Wait(RETRY_COOLDOWN_SECS));
    assert_eq!(RETRY_COOLDOWN_SECS, 10);
    assert_eq!(sup.phase(), Phase::RetryCooldown);
    assert!(!sup.begin_tick(0));
    assert_eq!(sup.handle(Event::CooldownElapsed), Command::StartTasks);
    assert_eq!(sup.phase(), Phase::Running);
    assert_eq!(sup.handle(Event::TasksFailed), Command::Wait(10));
    assert_eq!(sup.handle(Event::TerminationRequested), Command::AwaitDrain);
    assert_eq!(sup.handle(Event::TasksDrained), Command::Exit);

    let (mut bad, _) = Supervisor::new();
    assert_eq!(bad.handle(Event::ConfigFailed), Command::Exit);
    assert_eq!(bad.handle(Event::ConfigLoaded), Command::Exit);
    let (mut lost, _) = Supervisor::new();
    lost.handle(Event::ConfigLoaded);
    assert_eq!(lost.handle(Event::SignalFailed), Command::Exit);
    assert_eq!(lost.phase(), Phase::Terminated);
}

#[test]
fn families() {
    assert_eq!(parse_families("ipv4"), Ok(vec![IpType::V4]));
    assert_eq!(parse_families("ipv6"), Ok(vec![IpType::V6]));
    assert_eq!(parse_families("all"), Ok(vec![IpType::V4, IpType::V6]));
    assert_eq!(parse_families("both"), Err(ConfigError::UnknownFamily));
}

#[test]
fn stagger() {
    assert_eq!(stagger_delay(5, 0), 0);
    assert_eq!(stagger_delay(5, 3), 15);
    assert_eq!(stagger_delay(u64::MAX, 2), u64::MAX);
}

fn names(v: &[&str]) -> Vec<String> {
    v.iter().map(|s| s.to_string()).collect()
}

fn task(family: &str, interface: &str, provider: &str, notifiers: &[&str]) -> TaskConfig {
    TaskConfig {
        name: "t".to_string(),
        family: family.to_string(),
        interface: interface.to_string(),
        provider: provider.to_string(),
        notifiers: names(notifiers),
        interval: 60,
    }
}

#[test]
fn task_resolution() {
    let defs = Definitions {
        interfaces: names(&["eth0", "eth1"]),
        providers: names(&["cf"]),
        notifiers: names(&["mail", "hook"]),
    };
    let p = plan_task(&task("all", "eth1", "cf", &["hook", "mail"]), &defs, 2, 5).unwrap();
    assert_eq!(p.families, vec![IpType::V4, IpType::V6]);
    assert_eq!(p.interface, 1);
    assert_eq!(p.provider, 0);
    assert_eq!(p.notifiers, vec![1, 0]);
    assert_eq!(p.start_delay, 10);
    assert_eq!(p.interval, 60);
    assert_eq!(plan_task(&task("x", "eth9", "cf", &[]), &defs, 0, 5).unwrap_err(), ConfigError::UnknownFamily);
    assert_eq!(plan_task(&task("ipv4", "eth9", "cf", &["sms"]), &defs, 0, 5).unwrap_err(), ConfigError::UnknownNotifier);
    assert_eq!(plan_task(&task("ipv4", "eth9", "cf", &[]), &defs, 0, 5).unwrap_err(), ConfigError::UnknownInterface);
    assert_eq!(plan_task(&task("ipv4", "eth0", "gd", &[]), &defs, 0, 5).unwrap_err(), ConfigError::UnknownProvider);
    let all = plan_tasks(&vec![task("ipv4", "eth0", "cf", &[]), task("ipv6", "eth1", "cf", &[])], &defs, 7).unwrap();
    assert_eq!(all.len(), 2);
    assert_eq!(all[0].start_delay, 0);
    assert_eq!(all[1].start_delay, 7);
    assert_eq!(
        plan_tasks(&vec![task("ipv4", "eth0", "cf", &[]), task("ipv6", "eth1", "gd", &[])], &defs, 7).unwrap_err(),
        ConfigError::UnknownProvider
    );
}

#[test]
fn tick_over_families() {
    let fam = vec![IpType::V4, IpType::V6];
    let mut st = TickState { family: 0 };
    assert_eq!(tick_step(&fam, &mut st, TickEvent::Started), TickCommand::Fetch(IpType::V4));
    assert_eq!(tick_step(&fam, &mut st, TickEvent::Fetched { ok: true, consistent: false }), TickCommand::Fetch(IpType::V6));
    assert_eq!(tick_step(&fam, &mut st, TickEvent::Fetched { ok: true, consistent: true }), TickCommand::Reconcile(IpType::V6));
    assert_eq!(tick_step(&fam, &mut st, TickEvent::Reconciled { ok: true, changed: true }), TickCommand::Notify);
    assert_eq!(tick_step(&fam, &mut st, TickEvent::Notified), TickCommand::Done);

    let mut st = TickState { family: 0 };
    tick_step(&fam, &mut st, TickEvent::Started);
    assert_eq!(tick_step(&fam, &mut st, TickEvent::Fetched { ok: false, consistent: true }), TickCommand::Done);
    let mut st = TickState { family: 0 };
    tick_step(&fam, &mut st, TickEvent::Started);
    tick_step(&fam, &mut st, TickEvent::Fetched { ok: true, consistent: true });
    assert_eq!(tick_step(&fam, &mut st, TickEvent::Reconciled { ok: false, changed: true }), TickCommand::Done);
    let mut st = TickState { family: 0 };
    tick_step(&fam, &mut st, TickEvent::Started);
    tick_step(&fam, &mut st, TickEvent::Fetched { ok: true, consistent: true });
    assert_eq!(tick_step(&fam, &mut st, TickEvent::Reconciled { ok: true, changed: false }), TickCommand::Fetch(IpType::V6));
    assert_eq!(tick_step(&vec![], &mut TickState { family: 0 }, TickEvent::Started), TickCommand::Done);
}

#[test]
fn log_levels() {
    assert_eq!(log_level(true, 5), LogLevel::Off);
    assert_eq!(log_level(false, 0), LogLevel::Error);
    assert_eq!(log_level(false, 1), LogLevel::Error);
    assert_eq!(log_level(false, 2), LogLevel::Warn);
    assert_eq!(log_level(false, 3), LogLevel::Info);
    assert_eq!(log_level(false, 4), LogLevel::Debug);
    assert_eq!(log_level(false, 9), LogLevel::Trace);
}
