use fieldchain::config::Config;
use fieldchain::phoenix::{Phoenix, Step, Subsystem, Supervisor};
use std::sync::atomic::AtomicBool;
use std::sync::Arc;

struct Plain;
impl Subsystem for Plain {
    fn name(&self) -> &'static str {
        "Plain"
    }
}

struct Tuned;
impl Subsystem for Tuned {
    fn name(&self) -> &'static str {
        "Tuned"
    }
    fn max_restarts(&self) -> Option<u32> {
        Some(5)
    }
    fn backoff_base_ms(&self) -> Option<u64> {
        Some(10)
    }
}

fn config() -> Config {
    Config::with_defaults(
        "d".to_string(),
        "h".to_string(),
        "m".to_string(),
        "p".to_string(),
        "t".to_string(),
        "o".to_string(),
    )
}

#[test]
fn phoenix_registers_subsystems_in_order() {
    let flag = Arc::new(AtomicBool::new(false));
    let mut p: Phoenix<&'static str> = Phoenix::new(config(), flag.clone());
    assert!(p.subsystems().is_empty());
    p.register("watcher");
    p.register("other");
    assert_eq!(p.subsystems(), &vec!["watcher", "other"]);
    assert_eq!(p.config().max_restarts, 3);
    assert!(Arc::ptr_eq(p.shutdown(), &flag));
}

#[test]
fn subsystem_defaults_defer_to_configuration() {
    assert_eq!(Plain.name(), "Plain");
    assert_eq!(Plain.max_restarts(), None);
    assert_eq!(Plain.backoff_base_ms(), None);
    let s = Supervisor::new(Plain.max_restarts(), Plain.backoff_base_ms(), &config());
    assert_eq!((s.max_restarts(), s.delay_ms(), s.attempts()), (3, 1000, 0));
    let t = Supervisor::new(Tuned.max_restarts(), Tuned.backoff_base_ms(), &config());
    assert_eq!((t.max_restarts(), t.delay_ms()), (5, 10));
}

#[test]
fn successful_run_finishes() {
    let mut s = Supervisor::new(None, None, &config());
    assert_eq!(s.after_run(true), Step::Finish);
    assert_eq!(s.attempts(), 0);
}

#[test]
fn failures_restart_with_doubling_delay_until_the_limit() {
    let mut s = Supervisor::new(None, None, &config());
    let mut sleeps = Vec::new();
    loop {
        match s.after_run(false) {
            Step::Reset => match s.after_reset(true) {
                Step::Sleep(ms) => sleeps.push(ms),
                other => panic!("unexpected {:?}", other),
            },
            Step::Halt => break,
            other => panic!("unexpected {:?}", other),
        }
    }
    assert_eq!(sleeps, vec![1000, 2000, 4000]);
    assert_eq!(s.attempts(), 4);
}

#[test]
fn failed_reset_halts() {
    let mut s = Supervisor::new(Some(5), Some(10), &config());
    assert_eq!(s.after_run(false), Step::Reset);
    assert_eq!(s.after_reset(false), Step::Halt);
    assert_eq!(s.delay_ms(), 10);
}

#[test]
fn zero_restarts_halts_on_first_failure() {
    let mut s = Supervisor::new(Some(0), None, &config());
    assert_eq!(s.after_run(false), Step::Halt);
}
