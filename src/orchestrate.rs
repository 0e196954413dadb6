//! The decisions of an acquisition: which options go together, how a dump is
//! taken, when the agent is initialized or reset, what the simulated dumper
//! stores, and what a listing of the areas shows.

use crate::areas::{groups_ok, stops_at, task_areas, HeaderEntry, TaskGroup};
use crate::compression::{compress_checked, compress_checked_spec, CHUNK_SIZE};
use crate::error::{ConfigError, DumpError};
use crate::format::{DumpTask, DUMPER_NONE, DUMP_CONTENTS_SINGLETASK, DUMP_CONTENTS_TASKREGION};
use crate::vcore::{ram_byte, VirtualCore, ADDRESS_SPACE};
use vstd::prelude::*;

verus! {

/// The options of a dump, as the decisions read them.
#[derive(Clone, Copy, Debug, PartialEq, Eq, Structural)]
pub struct DumpOptions {
    pub list: bool,
    pub dump_agent_status: bool,
    pub force_dump_agent: bool,
    pub force_hiffy_agent: bool,
    pub force_manual_initiation: bool,
    pub force_read: bool,
    pub initialize_dump_agent: bool,
    pub retain_state: bool,
    pub force_overwrite: bool,
    pub simulate_dumper: bool,
    pub emulate_dumper: bool,
    pub leave_halted: bool,
    /// A stock dump file is asked for besides.
    pub stock_dumpfile: bool,
    /// A task is named.
    pub task: bool,
    pub area: Option<usize>,
}

pub open spec fn simulation(o: DumpOptions) -> bool {
    o.simulate_dumper || o.emulate_dumper
}

/// Two options that cannot be given together are.
pub open spec fn has_conflict(o: DumpOptions) -> bool {
    ||| o.simulate_dumper && o.emulate_dumper
    ||| simulation(o) && (o.dump_agent_status || o.force_read || o.initialize_dump_agent || o.leave_halted)
    ||| o.stock_dumpfile && o.task
    ||| o.area is Some && (o.task || simulation(o) || o.list)
    ||| o.retain_state && (o.task || o.list || o.area is Some)
    ||| o.force_overwrite && (o.initialize_dump_agent || o.simulate_dumper)
    ||| o.list && (o.task || simulation(o))
}

/// An option is given without one that it needs.
pub open spec fn lacks_requirement(o: DumpOptions) -> bool {
    ||| simulation(o) && !o.force_dump_agent
    ||| o.force_manual_initiation && !o.force_dump_agent
    ||| o.stock_dumpfile && !simulation(o)
    ||| o.task && !simulation(o)
}

/// Checks the options against each other: `Conflict` if two that exclude each
/// other are given, else `Requires` if one lacks another that it needs.
pub fn validate_options(o: &DumpOptions) -> (r: Result<(), ConfigError>)
    ensures
        has_conflict(*o) ==> r == Err::<(), ConfigError>(ConfigError::Conflict),
        !has_conflict(*o) && lacks_requirement(*o) ==> r == Err::<(), ConfigError>(ConfigError::Requires),
        !has_conflict(*o) && !lacks_requirement(*o) ==> r is Ok,
{
    let sim = o.simulate_dumper || o.emulate_dumper;
    let area = o.area.is_some();
    if (o.simulate_dumper && o.emulate_dumper)
        || (sim && (o.dump_agent_status || o.force_read || o.initialize_dump_agent || o.leave_halted))
        || (o.stock_dumpfile && o.task)
        || (area && (o.task || sim || o.list))
        || (o.retain_state && (o.task || o.list || area))
        || (o.force_overwrite && (o.initialize_dump_agent || o.simulate_dumper))
        || (o.list && (o.task || sim)) {
        return Err(ConfigError::Conflict);
    }
    if (sim && !o.force_dump_agent) || (o.force_manual_initiation && !o.force_dump_agent)
        || (o.stock_dumpfile && !sim) || (o.task && !sim) {
        return Err(ConfigError::Requires);
    }
    Ok(())
}

/// What a dump invocation does.
#[derive(Clone, Copy, Debug, PartialEq, Eq, Structural)]
pub enum Command {
    /// List the dumps in the areas.
    List,
    /// Show the raw headers of all areas.
    Status,
    /// Take or read a dump through the dump agent.
    ViaAgent,
    /// Halt the target and dump it through the debug probe.
    Direct { leave_halted: bool },
}

/// Picks what to do. Forcing the dump agent over a network link fails, as does
/// initializing the agent without going through it.
pub fn dispatch(o: &DumpOptions, is_net: bool) -> (r: Result<Command, ConfigError>)
    ensures
        o.force_dump_agent && is_net ==> r == Err::<Command, ConfigError>(ConfigError::ForceAgentOverNetwork),
        !(o.force_dump_agent && is_net) ==> r == if o.list {
            Ok::<Command, ConfigError>(Command::List)
        } else if o.dump_agent_status {
            Ok(Command::Status)
        } else if is_net || o.force_dump_agent || o.force_read || o.area is Some {
            Ok(Command::ViaAgent)
        } else if o.initialize_dump_agent {
            Err(ConfigError::InitializeNeedsAgent)
        } else {
            Ok(Command::Direct { leave_halted: o.leave_halted })
        },
{
    if o.force_dump_agent && is_net {
        return Err(ConfigError::ForceAgentOverNetwork);
    }
    if o.list {
        Ok(Command::List)
    } else if o.dump_agent_status {
        Ok(Command::Status)
    } else if is_net || o.force_dump_agent || o.force_read || o.area.is_some() {
        Ok(Command::ViaAgent)
    } else if o.initialize_dump_agent {
        Err(ConfigError::InitializeNeedsAgent)
    } else {
        Ok(Command::Direct { leave_halted: o.leave_halted })
    }
}

/// How the dump agent is reached.
#[derive(Clone, Copy, Debug, PartialEq, Eq, Structural)]
pub enum AgentKind {
    Udp,
    Hiffy,
}

/// UDP exactly when attached over the network, not told to use `hiffy`, and
/// the dump agent task has the `net` feature; `hiffy` otherwise.
pub fn choose_agent(is_net: bool, force_hiffy_agent: bool, agent_has_net: bool) -> (r: AgentKind)
    ensures
        r == if is_net && !force_hiffy_agent && agent_has_net { AgentKind::Udp } else { AgentKind::Hiffy },
{
    if is_net && !force_hiffy_agent && agent_has_net {
        AgentKind::Udp
    } else {
        AgentKind::Hiffy
    }
}

/// The steps of an acquisition through the dump agent, in order.
#[derive(Clone, Copy, Debug, PartialEq, Eq, Structural)]
pub struct AgentPlan {
    /// Clear the agent's state.
    pub initialize: bool,
    /// Stop once the state is cleared.
    pub initialize_only: bool,
    /// Push the RAM regions that a whole-system dump captures.
    pub initialize_segments: bool,
    /// Run the dumper on the host, writing the areas.
    pub emulate: bool,
    /// Halt the target and leave the dump to an operator.
    pub manual: bool,
    /// Have the agent take the dump.
    pub take_dump: bool,
    /// Read the dump back.
    pub read_back: bool,
}

/// The acquisition writes a new dump: it neither forces reading what is in the
/// areas nor names an area to read.
pub open spec fn fresh(o: DumpOptions) -> bool {
    !o.force_read && o.area is None
}

/// Plans an acquisition through the dump agent, given the dumper of area 0.
/// Unless reading what is there (`force_read` or an area), a dump already in
/// the areas is refused with `DumpInSitu` unless the options say to clear or
/// overwrite it, or a task is dumped. The agent is initialized for a
/// whole-system dump or when asked; the segments only for a whole-system dump.
pub fn plan_agent_dump(o: &DumpOptions, first_dumper: u8) -> (r: Result<AgentPlan, ConfigError>)
    ensures
        r is Err <==> fresh(*o) && first_dumper != DUMPER_NONE && !o.initialize_dump_agent && !o.force_overwrite && !o.task,
        r is Err ==> r == Err::<AgentPlan, ConfigError>(ConfigError::DumpInSitu),
        r matches Ok(p) ==> p.initialize == (fresh(*o) && (!o.task || o.initialize_dump_agent)),
        r matches Ok(p) ==> p.initialize_only == (fresh(*o) && o.initialize_dump_agent),
        r matches Ok(p) ==> p.initialize_segments == (fresh(*o) && !o.task && !o.initialize_dump_agent),
        r matches Ok(p) ==> p.emulate == (o.emulate_dumper && !p.initialize_only),
        r matches Ok(p) ==> p.manual == (fresh(*o) && o.force_manual_initiation && !o.emulate_dumper && !p.initialize_only),
        r matches Ok(p) ==> p.take_dump == (fresh(*o) && !o.force_manual_initiation && !o.emulate_dumper && !p.initialize_only),
        r matches Ok(p) ==> p.read_back == (!p.initialize_only && !p.manual),
{
    let fresh = !o.force_read && o.area.is_none();
    if fresh && first_dumper != DUMPER_NONE && !o.initialize_dump_agent && !o.force_overwrite && !o.task {
        return Err(ConfigError::DumpInSitu);
    }
    let initialize = fresh && (!o.task || o.initialize_dump_agent);
    let initialize_only = fresh && o.initialize_dump_agent;
    let manual = !initialize_only && !o.emulate_dumper && fresh && o.force_manual_initiation;
    Ok(AgentPlan {
        initialize,
        initialize_only,
        initialize_segments: fresh && !initialize_only && !o.task,
        emulate: !initialize_only && o.emulate_dumper,
        manual,
        take_dump: !initialize_only && !o.emulate_dumper && fresh && !o.force_manual_initiation,
        read_back: !initialize_only && !manual,
    })
}

/// Whether to reset the agent once a dump is read back: after a whole-system
/// dump, unless its state is to be kept; never after a task dump.
pub fn reset_after_read(task: Option<DumpTask>, retain_state: bool) -> (r: bool)
    ensures
        r == (task is None && !retain_state),
{
    task.is_none() && !retain_state
}

/// The simulated dumper refuses to dump the task that is running.
pub fn check_task_not_running(task: Option<u16>, running: Option<u16>) -> (r: Result<(), ConfigError>)
    ensures
        r is Err <==> (task is Some && running == task),
        r is Err ==> r == Err::<(), ConfigError>(ConfigError::CannotDumpRunningTask),
{
    match (task, running) {
        (Some(t), Some(c)) => {
            if t == c {
                Err(ConfigError::CannotDumpRunningTask)
            } else {
                Ok(())
            }
        },
        _ => Ok(()),
    }
}

/// The chunk of `data` that starts at `start`.
pub open spec fn chunk_at(data: Seq<u8>, start: int) -> Seq<u8> {
    data.subrange(start, if start + CHUNK_SIZE < data.len() { start + CHUNK_SIZE } else { data.len() as int })
}

/// The outcome of compressing and checking chunk `j` of `data`, read at `base`.
pub open spec fn chunk_outcome(data: Seq<u8>, base: int, j: int) -> Result<Seq<u8>, DumpError> {
    compress_checked_spec(chunk_at(data, j * CHUNK_SIZE), (base + j * CHUNK_SIZE) as u32)
}

/// How many chunks `data` is cut into.
pub open spec fn chunk_count(data: Seq<u8>) -> int {
    (data.len() + CHUNK_SIZE - 1) / CHUNK_SIZE as int
}

/// The compressed bytes of chunks `0..k` of `data`, all of them.
pub open spec fn packed_upto(data: Seq<u8>, base: int, k: int) -> int
    decreases k,
{
    if k <= 0 {
        0
    } else {
        packed_upto(data, base, k - 1) + match chunk_outcome(data, base, k - 1) {
            Ok(c) => c.len() as int,
            Err(_) => 0,
        }
    }
}

/// Stores memory that the simulated dumper read at `base` into `core`, a chunk
/// of `CHUNK_SIZE` bytes at a time, each compressed and checked to decompress
/// back to itself first. Returns the total of compressed bytes (saturated at
/// `usize::MAX`). Fails at the first chunk that fails the check, with its
/// error, or whose region does not fit, with `RegionOverlap`.
pub fn stash_simulated(core: &mut VirtualCore, base: u32, data: &[u8]) -> (r: Result<usize, DumpError>)
    requires
        old(core).wf(),
        base + data@.len() <= ADDRESS_SPACE,
    ensures
        final(core).wf(),
        final(core).flash_regions() == old(core).flash_regions(),
        final(core).flash_blob() == old(core).flash_blob(),
        final(core).register_list() == old(core).register_list(),
        r matches Ok(total) ==> {
            &&& forall|j: int| 0 <= j < chunk_count(data@) ==> (#[trigger] chunk_outcome(data@, base as int, j)) is Ok
            &&& total == if packed_upto(data@, base as int, chunk_count(data@)) < usize::MAX {
                packed_upto(data@, base as int, chunk_count(data@))
            } else {
                usize::MAX as int
            }
            &&& forall|a: int| #[trigger] ram_byte(final(core).ram_regions(), a) == if base <= a < base + data@.len() {
                Some(data@[a - base])
            } else {
                ram_byte(old(core).ram_regions(), a)
            }
        },
        r matches Err(e) ==> exists|j: int| 0 <= j < chunk_count(data@)
            && (forall|i: int| 0 <= i < j ==> (#[trigger] chunk_outcome(data@, base as int, i)) is Ok)
            && (#[trigger] chunk_outcome(data@, base as int, j) == Err::<Seq<u8>, DumpError>(e)
                || (chunk_outcome(data@, base as int, j) is Ok
                    && e == DumpError::RegionOverlap { address: (base + j * CHUNK_SIZE) as u32 }
                    && !old(core).ram_fits(base as int, data@.len() as int))),
{
    let n = data.len();
    let mut start: usize = 0;
    let mut total: usize = 0;
    let ghost mut k: int = 0;
    while start < n
        invariant
            n == data@.len(),
            start <= n,
            0 <= k,
            start < n ==> start == k * CHUNK_SIZE,
            start == n ==> k == chunk_count(data@),
            k * CHUNK_SIZE < n + CHUNK_SIZE || n == 0,
            n == 0 ==> k == 0,
            forall|j: int| 0 <= j < k ==> (#[trigger] chunk_outcome(data@, base as int, j)) is Ok,
            total == if packed_upto(data@, base as int, k) < usize::MAX {
                packed_upto(data@, base as int, k)
            } else {
                usize::MAX as int
            },
            base + n <= ADDRESS_SPACE,
            core.wf(),
            core.flash_regions() == old(core).flash_regions(),
            core.flash_blob() == old(core).flash_blob(),
            core.register_list() == old(core).register_list(),
            forall|a: int| #[trigger] ram_byte(core.ram_regions(), a) == if base <= a < base + start {
                Some(data@[a - base])
            } else {
                ram_byte(old(core).ram_regions(), a)
            },
        decreases n - start,
    {
        let take = if CHUNK_SIZE < n - start { CHUNK_SIZE } else { n - start };
        let addr = (base as u64 + start as u64) as u32;
        let chunk = &data[start..start + take];
        proof {
            assert(chunk@ == chunk_at(data@, k * CHUNK_SIZE));
            assert(k < chunk_count(data@)) by (nonlinear_arith)
                requires start == k * CHUNK_SIZE, start < n, n == data@.len(), chunk_count(data@) == (n + CHUNK_SIZE - 1) / CHUNK_SIZE as int;
        }
        let packed = match compress_checked(chunk, addr) {
            Ok(p) => p,
            Err(e) => {
                proof {
                    assert(chunk_outcome(data@, base as int, k) == Err::<Seq<u8>, DumpError>(e));
                }
                return Err(e);
            },
        };
        proof {
            assert(chunk_outcome(data@, base as int, k) == Ok::<Seq<u8>, DumpError>(packed@));
            assert(packed_upto(data@, base as int, k + 1) == packed_upto(data@, base as int, k) + packed@.len());
        }
        total = if total < usize::MAX - packed.len() { total + packed.len() } else { usize::MAX };
        let mut bytes: Vec<u8> = Vec::new();
        let mut j: usize = 0;
        while j < take
            invariant
                j <= take,
                chunk@.len() == take,
                bytes@ == chunk@.subrange(0, j as int),
            decreases take - j,
        {
            bytes.push(chunk[j]);
            proof {
                assert(bytes@ =~= chunk@.subrange(0, j + 1));
            }
            j = j + 1;
        }
        proof {
            assert(bytes@ =~= chunk@);
        }
        let ghost before = core.ram_regions();
        proof {
            if old(core).ram_fits(base as int, n as int) {
                assert forall|j: int| 0 <= j < before.len() implies
                    crate::vcore::ram_end(#[trigger] before[j]) <= addr || addr + take <= before[j].base by {
                    if !(crate::vcore::ram_end(before[j]) <= addr || addr + take <= before[j].base) {
                        let a = if before[j].base > addr { before[j].base as int } else { addr as int };
                        assert(crate::vcore::ram_holds(before[j], a));
                        assert(ram_byte(before, a) is Some);
                        assert(ram_byte(old(core).ram_regions(), a) is None);
                    }
                }
                assert(core.ram_fits(addr as int, take as int));
            }
        }
        match core.add_ram_region(addr, bytes) {
            Ok(()) => {},
            Err(e) => {
                proof {
                    assert(addr == (base + k * CHUNK_SIZE) as u32);
                }
                return Err(e);
            },
        }
        proof {
            assert forall|a: int| #[trigger] ram_byte(core.ram_regions(), a) == if base <= a < base + start + take {
                Some(data@[a - base])
            } else {
                ram_byte(old(core).ram_regions(), a)
            } by {
                if addr <= a < addr + take {
                    assert(chunk@[a - addr] == data@[a - base]);
                }
            }
            if start + take == n {
                assert(k + 1 == chunk_count(data@)) by (nonlinear_arith)
                    requires start == k * CHUNK_SIZE, start < n, start + take == n, take <= CHUNK_SIZE, take > 0,
                        chunk_count(data@) == (n + CHUNK_SIZE - 1) / CHUNK_SIZE as int;
            } else {
                assert(start + take == (k + 1) * CHUNK_SIZE);
            }
            k = k + 1;
        }
        start = start + take;
    }
    proof {
        if n == 0 {
            assert(chunk_count(data@) == 0);
        }
    }
    Ok(total)
}

/// One line of a listing of the dumps in the areas.
#[derive(Clone, Copy, Debug, PartialEq, Eq, Structural)]
pub struct ListRow {
    /// Index of the dump's first area.
    pub area: usize,
    /// The dumped task; `None` for the whole-system dump.
    pub task: Option<DumpTask>,
    /// Whether a task dump holds only a region of the task.
    pub region: bool,
    /// Bytes written over all of the dump's areas.
    pub size: u64,
}

pub open spec fn written_sum(hs: Seq<crate::format::AreaHeader>) -> int
    decreases hs.len(),
{
    if hs.len() == 0 {
        0
    } else {
        written_sum(hs.drop_last()) + hs.last().written
    }
}

/// Whether a task dump's first area holds a task or a task region.
pub open spec fn known_contents(g: TaskGroup) -> bool {
    g.headers@[0].contents == DUMP_CONTENTS_SINGLETASK || g.headers@[0].contents == DUMP_CONTENTS_TASKREGION
}

pub open spec fn entry_headers(hs: Seq<HeaderEntry>) -> Seq<crate::format::AreaHeader> {
    hs.map_values(|e: HeaderEntry| e.0)
}

fn sum_written(hs: &Vec<crate::format::AreaHeader>) -> (r: u64)
    requires
        hs@.len() <= 256,
    ensures
        r == written_sum(hs@),
{
    let mut total: u64 = 0;
    let mut i: usize = 0;
    while i < hs.len()
        invariant
            i <= hs@.len(),
            hs@.len() <= 256,
            total == written_sum(hs@.subrange(0, i as int)),
            total <= i * 0xffff_ffff,
        decreases hs.len() - i,
    {
        proof {
            assert(hs@.subrange(0, i + 1).drop_last() =~= hs@.subrange(0, i as int));
        }
        total = total + hs[i].written as u64;
        i = i + 1;
    }
    proof {
        assert(hs@.subrange(0, hs@.len() as int) =~= hs@);
    }
    total
}

/// The rows of a listing of the areas read (at most 256): none if the first
/// area is unused; one for the whole-system dump if the first area carries no
/// task marker, sized by all areas in use; else one per task dump, sized by
/// its areas. A task dump whose first area's contents are neither a task nor
/// a task region fails with `UnknownContents`.
pub fn list_rows(entries: &Vec<HeaderEntry>) -> (r: Result<Vec<ListRow>, DumpError>)
    requires
        entries@.len() <= 256,
    ensures
        entries@.len() == 0 || entries@[0].0.dumper == DUMPER_NONE ==> (r matches Ok(v) && v@.len() == 0),
        entries@.len() > 0 && entries@[0].0.dumper != DUMPER_NONE && entries@[0].1 is None ==> exists|s: int|
            stops_at(entries@, s) && (r matches Ok(v) && v@ == seq![ListRow {
                area: 0,
                task: None,
                region: false,
                size: written_sum(entry_headers(entries@.subrange(0, s))) as u64,
            }]),
        entries@.len() > 0 && entries@[0].0.dumper != DUMPER_NONE && entries@[0].1 is Some ==> exists|s: int, gs: Seq<TaskGroup>|
            stops_at(entries@, s) && groups_ok(entries@, gs, s) && match r {
                Ok(v) => v@.len() == gs.len() && forall|g: int| 0 <= g < gs.len() ==> (#[trigger] v@[g]) == (ListRow {
                    area: gs[g].first,
                    task: Some(gs[g].task),
                    region: gs[g].headers@[0].contents == DUMP_CONTENTS_TASKREGION,
                    size: written_sum(gs[g].headers@) as u64,
                }) && (gs[g].headers@[0].contents == DUMP_CONTENTS_SINGLETASK
                    || gs[g].headers@[0].contents == DUMP_CONTENTS_TASKREGION),
                Err(e) => exists|g: int| 0 <= g < gs.len() && !known_contents(#[trigger] gs[g])
                    && e == DumpError::Config(ConfigError::UnknownContents(gs[g].headers@[0].contents))
                    && forall|h: int| 0 <= h < g ==> known_contents(#[trigger] gs[h]),
            },
{
    if entries.len() == 0 || entries[0].0.dumper == DUMPER_NONE {
        return Ok(Vec::new());
    }
    if entries[0].1.is_none() {
        let mut hs: Vec<crate::format::AreaHeader> = Vec::new();
        let mut i: usize = 0;
        while i < entries.len()
            invariant
                i <= entries@.len(),
                entries@.len() <= 256,
                forall|k: int| 0 <= k < i ==> (#[trigger] entries@[k]).0.dumper != DUMPER_NONE,
                hs@ == entry_headers(entries@.subrange(0, i as int)),
            ensures
                i <= entries@.len(),
                forall|k: int| 0 <= k < i ==> (#[trigger] entries@[k]).0.dumper != DUMPER_NONE,
                i < entries@.len() ==> entries@[i as int].0.dumper == DUMPER_NONE,
                hs@ == entry_headers(entries@.subrange(0, i as int)),
            decreases entries.len() - i,
        {
            if entries[i].0.dumper == DUMPER_NONE {
                break;
            }
            hs.push(entries[i].0);
            proof {
                assert(hs@ =~= entry_headers(entries@.subrange(0, i + 1)));
            }
            i = i + 1;
        }
        let size = sum_written(&hs);
        let row = ListRow { area: 0, task: None, region: false, size };
        let v = vec![row];
        proof {
            assert(stops_at(entries@, i as int));
            assert(v@ =~= seq![row]);
        }
        return Ok(v);
    }
    let groups = task_areas(entries);
    let ghost gs = groups@;
    let mut rows: Vec<ListRow> = Vec::new();
    let mut g: usize = 0;
    while g < groups.len()
        invariant
            gs == groups@,
            g <= gs.len(),
            entries@.len() <= 256,
            entries@.len() > 0 && entries@[0].0.dumper != DUMPER_NONE && entries@[0].1 is Some,
            exists|s: int| stops_at(entries@, s) && groups_ok(entries@, gs, s),
            rows@.len() == g,
            forall|h: int| 0 <= h < g ==> known_contents(#[trigger] gs[h]),
            forall|h: int| 0 <= h < g ==> (#[trigger] rows@[h]) == (ListRow {
                area: gs[h].first,
                task: Some(gs[h].task),
                region: gs[h].headers@[0].contents == DUMP_CONTENTS_TASKREGION,
                size: written_sum(gs[h].headers@) as u64,
            }) && (gs[h].headers@[0].contents == DUMP_CONTENTS_SINGLETASK
                || gs[h].headers@[0].contents == DUMP_CONTENTS_TASKREGION),
        decreases groups.len() - g,
    {
        let grp = &groups[g];
        proof {
            assert(*grp == gs[g as int]);
            assert(crate::areas::group_ok(entries@, gs[g as int]));
        }
        let contents = grp.headers[0].contents;
        if contents != DUMP_CONTENTS_SINGLETASK && contents != DUMP_CONTENTS_TASKREGION {
            proof {
                assert(!known_contents(gs[g as int]));
            }
            return Err(DumpError::Config(ConfigError::UnknownContents(contents)));
        }
        let size = sum_written(&grp.headers);
        rows.push(ListRow {
            area: grp.first,
            task: Some(grp.task),
            region: contents == DUMP_CONTENTS_TASKREGION,
            size,
        });
        g = g + 1;
    }
    Ok(rows)
}

} // verus!
