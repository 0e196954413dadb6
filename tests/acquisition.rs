use humility_dump::error::{ConfigError, DumpError};
use log::Log;
use humility_dump::format::{DumpTask, DUMPER_AGENT, DUMPER_NONE};
use humility_dump::hiffy::{
    call_outcome, calls_outcome, read_step, take_dump_prelude, HifOp, HiffyDumpAgent, ReadStep, SLEEP_ITERATIONS,
};
use humility_dump::logging::HumilityLog;
use humility_dump::orchestrate::{
    check_task_not_running, choose_agent, dispatch, plan_agent_dump, reset_after_read, stash_simulated,
    validate_options, AgentKind, AgentPlan, Command, DumpOptions,
};
use humility_dump::vcore::VirtualCore;

fn opts() -> DumpOptions {
    DumpOptions {
        list: false,
        dump_agent_status: false,
        force_dump_agent: false,
        force_hiffy_agent: false,
        force_manual_initiation: false,
        force_read: false,
        initialize_dump_agent: false,
        retain_state: false,
        force_overwrite: false,
        simulate_dumper: false,
        emulate_dumper: false,
        leave_halted: false,
        stock_dumpfile: false,
        task: false,
        area: None,
    }
}

#[test]
fn read_size_gates() {
    assert_eq!(
        HiffyDumpAgent::new(35, 4096).err(),
        Some(DumpError::Config(ConfigError::ReadSizeTooSmall { rsize: 35, min: 36 }))
    );
    assert_eq!(
        HiffyDumpAgent::new(36 + 8 * 15 + 7, 4096).err(),
        Some(DumpError::Config(ConfigError::ReadSizeTooFewSegments { rsize: 163, max_nsegments: 15 }))
    );
    let small = HiffyDumpAgent::new(1024, 1024).unwrap();
    assert_eq!(small.chunksize(), Err(DumpError::Config(ConfigError::BatchTooSmall)));
    assert_eq!(small.batches(&vec![(0, 0)]), Err(DumpError::Config(ConfigError::BatchTooSmall)));
    let a = HiffyDumpAgent::new(164, 4096).unwrap();
    assert_eq!(a.rsize(), 164);
    assert_eq!(a.chunksize(), Ok(4096 / 164 - 1));
}

#[test]
fn batches_are_full_but_the_last() {
    let a = HiffyDumpAgent::new(256, 256 * 5).unwrap();
    assert_eq!(a.chunksize(), Ok(4));
    let reads: Vec<(u8, u32)> = (0..10u8).map(|i| (i, 0)).collect();
    let b = a.batches(&reads).unwrap();
    assert_eq!(b.len(), 3);
    assert_eq!(b[0], reads[0..4].to_vec());
    assert_eq!(b[1], reads[4..8].to_vec());
    assert_eq!(b[2], reads[8..10].to_vec());
    assert_eq!(a.batches(&reads[..8].to_vec()).unwrap().len(), 2);
    assert_eq!(a.batches(&vec![]).unwrap().len(), 0);
}

#[test]
fn probe_attached_take_dump_sleeps_first() {
    let (ops, rindex) = take_dump_prelude(false, 9);
    assert_eq!(rindex, 100);
    assert_eq!(SLEEP_ITERATIONS, 100);
    assert_eq!(
        ops,
        vec![
            HifOp::Push(0),
            HifOp::Push(0),
            HifOp::Label(0),
            HifOp::Drop,
            HifOp::Push(100),
            HifOp::Call(9),
            HifOp::Drop,
            HifOp::Push(1),
            HifOp::Add,
            HifOp::Push(100),
            HifOp::BranchGreaterThan(0),
        ]
    );
    assert_eq!(take_dump_prelude(true, 9), (vec![], 0));
}

#[test]
fn overwrite_is_refused() {
    assert_eq!(plan_agent_dump(&opts(), DUMPER_AGENT), Err(ConfigError::DumpInSitu));
    let mut o = opts();
    o.force_overwrite = true;
    assert!(plan_agent_dump(&o, DUMPER_AGENT).unwrap().take_dump);
    let mut o = opts();
    o.initialize_dump_agent = true;
    let p = plan_agent_dump(&o, DUMPER_AGENT).unwrap();
    assert!(p.initialize && p.initialize_only && !p.take_dump && !p.read_back);
}

#[test]
fn empty_ring_takes_fresh_dump() {
    assert_eq!(
        plan_agent_dump(&opts(), DUMPER_NONE),
        Ok(AgentPlan {
            initialize: true,
            initialize_only: false,
            initialize_segments: true,
            emulate: false,
            manual: false,
            take_dump: true,
            read_back: true,
        })
    );
}

#[test]
fn reading_an_area_skips_initialization() {
    let mut o = opts();
    o.area = Some(2);
    let p = plan_agent_dump(&o, DUMPER_AGENT).unwrap();
    assert!(!p.initialize && !p.initialize_segments && !p.take_dump && p.read_back);
    let mut o = opts();
    o.force_dump_agent = true;
    o.force_manual_initiation = true;
    let p = plan_agent_dump(&o, DUMPER_NONE).unwrap();
    assert!(p.manual && !p.take_dump && !p.read_back);
}

#[test]
fn task_emulation_does_not_initialize_segments() {
    let mut o = opts();
    o.force_dump_agent = true;
    o.emulate_dumper = true;
    o.task = true;
    let p = plan_agent_dump(&o, DUMPER_AGENT).unwrap();
    assert!(!p.initialize && !p.initialize_segments && p.emulate && !p.take_dump && p.read_back);
}

#[test]
fn option_matrix() {
    assert_eq!(validate_options(&opts()), Ok(()));
    let mut o = opts();
    o.simulate_dumper = true;
    assert_eq!(validate_options(&o), Err(ConfigError::Requires));
    o.force_dump_agent = true;
    assert_eq!(validate_options(&o), Ok(()));
    o.emulate_dumper = true;
    assert_eq!(validate_options(&o), Err(ConfigError::Conflict));
    let mut o = opts();
    o.area = Some(1);
    o.list = true;
    assert_eq!(validate_options(&o), Err(ConfigError::Conflict));
    let mut o = opts();
    o.force_overwrite = true;
    o.initialize_dump_agent = true;
    assert_eq!(validate_options(&o), Err(ConfigError::Conflict));
    let mut o = opts();
    o.task = true;
    assert_eq!(validate_options(&o), Err(ConfigError::Requires));
}

#[test]
fn dispatch_picks_command() {
    let mut o = opts();
    assert_eq!(dispatch(&o, false), Ok(Command::Direct { leave_halted: false }));
    assert_eq!(dispatch(&o, true), Ok(Command::ViaAgent));
    o.initialize_dump_agent = true;
    assert_eq!(dispatch(&o, false), Err(ConfigError::InitializeNeedsAgent));
    o.list = true;
    assert_eq!(dispatch(&o, false), Ok(Command::List));
    let mut o = opts();
    o.dump_agent_status = true;
    assert_eq!(dispatch(&o, false), Ok(Command::Status));
    o.force_dump_agent = true;
    assert_eq!(dispatch(&o, true), Err(ConfigError::ForceAgentOverNetwork));
}

#[test]
fn agent_choice() {
    assert_eq!(choose_agent(true, false, true), AgentKind::Udp);
    assert_eq!(choose_agent(true, true, true), AgentKind::Hiffy);
    assert_eq!(choose_agent(true, false, false), AgentKind::Hiffy);
    assert_eq!(choose_agent(false, false, true), AgentKind::Hiffy);
}

#[test]
fn reset_only_after_whole_system_dump() {
    assert!(reset_after_read(None, false));
    assert!(!reset_after_read(None, true));
    assert!(!reset_after_read(Some(DumpTask { id: 3, time: 1 }), false));
}

#[test]
fn running_task_is_refused() {
    assert_eq!(check_task_not_running(Some(4), Some(4)), Err(ConfigError::CannotDumpRunningTask));
    assert_eq!(check_task_not_running(Some(4), Some(5)), Ok(()));
    assert_eq!(check_task_not_running(None, Some(5)), Ok(()));
}

#[test]
fn simulated_dumper_stashes_memory() {
    let data: Vec<u8> = (0..1000usize).map(|i| (i & 0xff) as u8).collect();
    let mut core = VirtualCore::new(vec![], vec![]).unwrap();
    let n = stash_simulated(&mut core, 0x2000_0000, &data).unwrap();
    // A ramp has no repeats within the dictionary: every byte is a 9-bit literal.
    // chunks of 384, 384 and 232 bytes, each byte a 9-bit literal
    assert_eq!(n, 432 + 432 + 261);
    let mut fresh = VirtualCore::new(vec![], vec![]).unwrap();
    assert_eq!(stash_simulated(&mut fresh, 0x2000_0000, &[]), Ok(0));
    assert_eq!(core.read(0x2000_0000, 1000).unwrap(), data);
    assert_eq!(
        stash_simulated(&mut core, 0x2000_0100, &data[..10]),
        Err(DumpError::RegionOverlap { address: 0x2000_0100 })
    );
}

#[test]
fn logger_enables_once() {
    let mut l = HumilityLog::new(log::LevelFilter::Info);
    assert!(l.enable().is_ok());
    assert_eq!(log::max_level(), log::LevelFilter::Info);
    let mut again = HumilityLog::new(log::LevelFilter::Trace);
    assert!(again.enable().is_err());
    assert_eq!(l.level, log::LevelFilter::Info);
}

#[test]
fn logger_keeps_records_up_to_its_level() {
    let l = HumilityLog::new(log::LevelFilter::Info);
    let warn = log::Metadata::builder().level(log::Level::Warn).target("humility").build();
    let debug = log::Metadata::builder().level(log::Level::Debug).target("humility").build();
    assert!(l.enabled(&warn));
    assert!(!l.enabled(&debug));
    let off = HumilityLog::new(log::LevelFilter::Off);
    assert!(!off.enabled(&warn));
}

#[test]
fn call_results_are_checked() {
    let results: Vec<Result<Vec<u8>, u32>> = vec![Ok(vec![]), Err(7), Ok(vec![1])];
    assert_eq!(call_outcome(&results, 0), Ok(()));
    assert_eq!(call_outcome(&results, 1), Err(DumpError::Agent(7)));
    assert_eq!(call_outcome(&results, 3), Err(DumpError::MissingResult(3)));
    assert_eq!(calls_outcome(&results, 1), Ok(()));
    assert_eq!(calls_outcome(&results, 3), Err(DumpError::Agent(7)));
    assert_eq!(calls_outcome(&vec![Ok(vec![])], 2), Err(DumpError::MissingResult(1)));
    assert_eq!(calls_outcome(&vec![Ok(vec![]), Err(3)], 5), Err(DumpError::Agent(3)));
}

#[test]
fn read_results_are_classified() {
    assert_eq!(read_step(&Ok(vec![1, 2]), 4, 0, 0), ReadStep::Data);
    assert_eq!(read_step(&Err(4), 4, 9, 0), ReadStep::EndOfList);
    assert_eq!(
        read_step(&Err(5), 4, 9, 256),
        ReadStep::Failed(DumpError::ReadFailed { index: 9, offset: 256, code: 5 })
    );
}
