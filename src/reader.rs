//! Reading a logical dump back: which areas make it up, which windows to read
//! from them, and how the windows join into the bytes that are decoded.

use crate::areas::{group_ok, groups_ok, stops_at, task_areas, HeaderEntry, TaskGroup};
use crate::error::{ConfigError, DumpError};
use crate::format::{AreaHeader, DumpTask, AREA_HEADER_SIZE, DUMPER_NONE, SEGMENT_HEADER_SIZE};
use vstd::prelude::*;

verus! {

/// A dump area named by its index in the ring or by its base address.
#[derive(Clone, Copy, Debug, PartialEq, Eq, Structural)]
pub enum DumpArea {
    ByIndex(usize),
    ByAddress(u32),
}

pub open spec fn selects(sel: DumpArea, g: TaskGroup) -> bool {
    match sel {
        DumpArea::ByIndex(i) => g.first == i,
        DumpArea::ByAddress(a) => g.headers@[0].address == a,
    }
}

pub open spec fn headers_of(hs: Seq<HeaderEntry>) -> Seq<AreaHeader> {
    hs.map_values(|e: HeaderEntry| e.0)
}

/// The areas of the logical dump asked for, as the index of the first and the
/// headers of all. With no selector, the whole-system dump: every area in use
/// from index 0. With one, the first task dump that it selects, with its task;
/// `NoSuchArea` if none does.
pub fn select_areas(entries: &Vec<HeaderEntry>, area: Option<DumpArea>) -> (r: Result<(usize, Vec<AreaHeader>, Option<DumpTask>), DumpError>)
    ensures
        match area {
            None => exists|s: int| stops_at(entries@, s) && (r matches Ok(x) && x.0 == 0 && x.2 is None
                && x.1@ == headers_of(entries@.subrange(0, s))),
            Some(sel) => exists|s: int, gs: Seq<TaskGroup>| stops_at(entries@, s) && groups_ok(entries@, gs, s) && match r {
                Ok(x) => exists|g: int| 0 <= g < gs.len() && selects(sel, #[trigger] gs[g])
                    && (forall|h: int| 0 <= h < g ==> !selects(sel, #[trigger] gs[h]))
                    && x.0 == gs[g].first && x.1@ == gs[g].headers@ && x.2 == Some(gs[g].task),
                Err(e) => e == DumpError::Config(ConfigError::NoSuchArea)
                    && forall|g: int| 0 <= g < gs.len() ==> !selects(sel, #[trigger] gs[g]),
            },
        },
{
    match area {
        None => {
            let mut hdrs: Vec<AreaHeader> = Vec::new();
            let mut i: usize = 0;
            while i < entries.len()
                invariant
                    i <= entries@.len(),
                    forall|k: int| 0 <= k < i ==> (#[trigger] entries@[k]).0.dumper != DUMPER_NONE,
                    hdrs@ == headers_of(entries@.subrange(0, i as int)),
                ensures
                    i <= entries@.len(),
                    forall|k: int| 0 <= k < i ==> (#[trigger] entries@[k]).0.dumper != DUMPER_NONE,
                    i < entries@.len() ==> entries@[i as int].0.dumper == DUMPER_NONE,
                    hdrs@ == headers_of(entries@.subrange(0, i as int)),
                decreases entries.len() - i,
            {
                if entries[i].0.dumper == DUMPER_NONE {
                    break;
                }
                hdrs.push(entries[i].0);
                proof {
                    assert(hdrs@ =~= headers_of(entries@.subrange(0, i + 1)));
                }
                i = i + 1;
            }
            proof {
                assert(stops_at(entries@, i as int));
            }
            Ok((0, hdrs, None))
        },
        Some(sel) => {
            let groups = task_areas(entries);
            let ghost gs = groups@;
            let mut g: usize = 0;
            while g < groups.len()
                invariant
                    area == Some(sel),
                    gs == groups@,
                    g <= gs.len(),
                    forall|h: int| 0 <= h < g ==> !selects(sel, #[trigger] gs[h]),
                    exists|s: int| stops_at(entries@, s) && groups_ok(entries@, gs, s),
                decreases groups.len() - g,
            {
                let grp = &groups[g];
                proof {
                    let s = choose|s: int| stops_at(entries@, s) && groups_ok(entries@, gs, s);
                    assert(group_ok(entries@, gs[g as int]));
                }
                let hit = match sel {
                    DumpArea::ByIndex(i) => grp.first == i,
                    DumpArea::ByAddress(a) => grp.headers[0].address == a,
                };
                if hit {
                    let mut hdrs: Vec<AreaHeader> = Vec::new();
                    let mut j: usize = 0;
                    while j < grp.headers.len()
                        invariant
                            j <= grp.headers@.len(),
                            hdrs@ == grp.headers@.subrange(0, j as int),
                        decreases grp.headers.len() - j,
                    {
                        hdrs.push(grp.headers[j]);
                        proof {
                            assert(hdrs@ =~= grp.headers@.subrange(0, j + 1));
                        }
                        j = j + 1;
                    }
                    proof {
                        assert(hdrs@ =~= grp.headers@);
                        assert(*grp == gs[g as int]);
                        assert(selects(sel, gs[g as int]));
                        assert(area == Some(sel));
                    }
                    return Ok((grp.first, hdrs, Some(grp.task)));
                }
                g = g + 1;
            }
            Err(DumpError::Config(ConfigError::NoSuchArea))
        },
    }
}

/// Where a spill-over area's own bytes start: past its header and its
/// segment-header table. The first area of a dump is taken whole.
pub open spec fn skip_of(h: AreaHeader, first: bool) -> int {
    if first {
        0
    } else {
        AREA_HEADER_SIZE + h.nsegments * SEGMENT_HEADER_SIZE
    }
}

/// The part of a window read at `offset` that belongs to the logical dump:
/// from the area's skip to its `written` bytes.
pub open spec fn window_part(window: Seq<u8>, offset: int, written: int, skip: int) -> Seq<u8> {
    let lo = if offset > skip { offset } else { skip };
    let hi = if offset + window.len() < written { offset + window.len() } else { written };
    if lo < hi {
        window.subrange(lo - offset, hi - offset)
    } else {
        seq![]
    }
}

/// Appends to `bytes` the part of `window`, read at `offset` in the area with
/// header `h`, that belongs to the logical dump; `first` says whether the area
/// is the dump's first.
pub fn append_window(bytes: &mut Vec<u8>, window: &[u8], offset: u32, h: &AreaHeader, first: bool)
    ensures
        final(bytes)@ == old(bytes)@ + window_part(window@, offset as int, h.written as int, skip_of(*h, first)),
{
    let skip: u64 = if first { 0 } else { AREA_HEADER_SIZE as u64 + h.nsegments as u64 * SEGMENT_HEADER_SIZE as u64 };
    let off = offset as u64;
    let lo = if off > skip { off } else { skip };
    let wr = h.written as u64;
    let hi = if off >= wr {
        off
    } else if (window.len() as u64) < wr - off {
        off + window.len() as u64
    } else {
        wr
    };
    if lo < hi {
        let a = (lo - off) as usize;
        let b = (hi - off) as usize;
        let ghost start = bytes@;
        let mut i: usize = a;
        while i < b
            invariant
                a <= i <= b,
                b <= window@.len(),
                bytes@ == start + window@.subrange(a as int, i as int),
            decreases b - i,
        {
            bytes.push(window[i]);
            proof {
                assert(bytes@ =~= start + window@.subrange(a as int, i + 1));
            }
            i = i + 1;
        }
    } else {
        proof {
            assert(bytes@ =~= old(bytes)@ + seq![]);
        }
    }
}

/// The offsets of the windows of `rsize` bytes that cover `written` bytes.
pub open spec fn window_count(written: int, rsize: int) -> int {
    (written + rsize - 1) / rsize
}

/// The windows to read, in order, to get the first `written` bytes of area
/// `index`: offsets `0, rsize, 2 * rsize, ...` below `written`.
pub fn area_reads(index: u8, written: u32, rsize: u32) -> (r: Vec<(u8, u32)>)
    requires
        rsize > 0,
    ensures
        r@.len() == window_count(written as int, rsize as int),
        forall|j: int| 0 <= j < r@.len() ==> #[trigger] r@[j] == (index, (j * rsize) as u32),
{
    let mut out: Vec<(u8, u32)> = Vec::new();
    let mut off: u64 = 0;
    let w = written as u64;
    let rs = rsize as u64;
    proof {
        assert(out@.len() == 0);
        assert(out@.len() * rs == 0) by (nonlinear_arith)
            requires out@.len() == 0;
        if w == 0 {
            assert((0 + rs as int - 1) / rs as int == 0) by (nonlinear_arith)
                requires rs >= 1;
        }
    }
    while off < w
        invariant
            rs == rsize,
            w == written,
            rs > 0,
            off == out@.len() * rs,
            off < w + rs,
            forall|j: int| 0 <= j < out@.len() ==> #[trigger] out@[j] == (index, (j * rsize) as u32),
            off >= w ==> out@.len() == window_count(w as int, rs as int),
        decreases w + rs - off,
    {
        let ghost k = out@.len();
        out.push((index, off as u32));
        proof {
            assert((k + 1) * rs == k * rs + rs) by (nonlinear_arith);
        }
        off = off + rs;
        proof {
            let kk = k as int;
            let rr = rs as int;
            let ww = w as int;
            if off >= w {
                assert(kk * rr < ww && ww <= (kk + 1) * rr);
                assert((ww + rr - 1) / rr == kk + 1) by (nonlinear_arith)
                    requires kk * rr < ww, ww <= (kk + 1) * rr, rr >= 1;
            }
        }
    }
    proof {
        if w == 0 {
            assert((0 + rs as int - 1) / rs as int == 0) by (nonlinear_arith)
                requires rs >= 1;
        }
    }
    out
}

} // verus!
