//! Reading dump areas: the task marker behind an area's header, the list of
//! areas in use, the grouping of areas into task dumps, and the batching of
//! reads into agent requests.

use crate::error::{ConfigError, DumpError};
use crate::format::{
    area_header_spec, le16, le64, parse_area_header, read_u16, read_u64, AreaHeader, DumpTask, ParseError,
    AREA_HEADER_SIZE, DUMPER_NONE, DUMP_CONTENTS_WHOLESYSTEM, SEGMENT_HEADER_SIZE, TASK_RECORD_SIZE,
    TASK_SIGNATURE,
};
use vstd::prelude::*;

verus! {

/// An area's header with the task marker found behind its segment-header table.
pub type HeaderEntry = (AreaHeader, Option<DumpTask>);

/// The task marker that an area's first bytes `b` hold right after the
/// segment-header table, if the area is in use, holds a task dump and the
/// bytes there form a task marker.
pub open spec fn task_marker_spec(b: Seq<u8>, h: AreaHeader) -> Option<DumpTask> {
    let pos = AREA_HEADER_SIZE + h.nsegments * SEGMENT_HEADER_SIZE;
    if h.dumper != DUMPER_NONE && h.contents != DUMP_CONTENTS_WHOLESYSTEM && pos + TASK_RECORD_SIZE <= b.len()
        && le16(b, pos) == TASK_SIGNATURE {
        Some(DumpTask { id: le16(b, pos + 2) as u16, time: le64(b, pos + 8) as u64 })
    } else {
        None
    }
}

/// Decodes the header at the start of an area's first window, with the task
/// marker that follows its segment-header table.
pub fn read_area_entry(b: &[u8]) -> (r: Result<HeaderEntry, DumpError>)
    ensures
        match area_header_spec(b@) {
            Ok(h) => r == Ok::<HeaderEntry, DumpError>((h, task_marker_spec(b@, h))),
            Err(e) => r == Err::<HeaderEntry, DumpError>(DumpError::Parse(e)),
        },
{
    let h = match parse_area_header(b) {
        Ok(h) => h,
        Err(e) => return Err(DumpError::Parse(e)),
    };
    let pos = AREA_HEADER_SIZE + h.nsegments as usize * SEGMENT_HEADER_SIZE;
    if h.dumper != DUMPER_NONE && h.contents != DUMP_CONTENTS_WHOLESYSTEM && pos <= b.len()
        && TASK_RECORD_SIZE <= b.len() - pos {
        let sig = read_u16(b, pos);
        if sig == TASK_SIGNATURE {
            let id = read_u16(b, pos + 2);
            let time = read_u64(b, pos + 8);
            return Ok((h, Some(DumpTask { id, time })));
        }
    }
    Ok((h, None))
}


/// The headers read so far while walking the areas from index 0.
pub struct HeaderScan {
    entries: Vec<HeaderEntry>,
    raw: bool,
}

impl HeaderScan {
    pub closed spec fn entries(&self) -> Seq<HeaderEntry> {
        self.entries@
    }

    pub closed spec fn raw(&self) -> bool {
        self.raw
    }

    /// Unless raw, only the last header read may be unused.
    pub open spec fn wf(&self) -> bool {
        !self.raw() ==> forall|k: int| 0 <= k < self.entries().len() - 1 ==> (#[trigger] self.entries()[k]).0.dumper != DUMPER_NONE
    }

    /// Whether the walk is over: not raw, and the last header read is unused.
    pub open spec fn done(&self) -> bool {
        !self.raw() && self.entries().len() > 0 && self.entries().last().0.dumper == DUMPER_NONE
    }

    /// A walk with nothing read; `raw` walks past unused areas too.
    pub fn new(raw: bool) -> (r: HeaderScan)
        ensures
            r.wf(),
            r.entries().len() == 0,
            r.raw() == raw,
    {
        HeaderScan { entries: Vec::new(), raw }
    }

    pub fn is_done(&self) -> (r: bool)
        ensures
            r == self.done(),
    {
        !self.raw && self.entries.len() > 0 && self.entries[self.entries.len() - 1].0.dumper == DUMPER_NONE
    }

    /// Takes the first window of the next area. Returns whether the walk goes
    /// on: it stops at the first unused area unless raw. A window that does not
    /// decode fails and changes nothing.
    pub fn accept(&mut self, window: &[u8]) -> (r: Result<bool, DumpError>)
        requires
            old(self).wf(),
            !old(self).done(),
        ensures
            final(self).wf(),
            final(self).raw() == old(self).raw(),
            match area_header_spec(window@) {
                Ok(h) => final(self).entries() == old(self).entries().push((h, task_marker_spec(window@, h)))
                    && r == Ok::<bool, DumpError>(old(self).raw() || h.dumper != DUMPER_NONE),
                Err(e) => final(self).entries() == old(self).entries()
                    && r == Err::<bool, DumpError>(DumpError::Parse(e)),
            },
    {
        let entry = read_area_entry(window)?;
        let go_on = self.raw || entry.0.dumper != DUMPER_NONE;
        self.entries.push(entry);
        Ok(go_on)
    }

    /// The headers read, in area order.
    pub fn into_entries(self) -> (r: Vec<HeaderEntry>)
        ensures
            r@ == self.entries(),
    {
        self.entries
    }
}

/// One task dump: the area that holds its task marker, and the headers of the
/// areas that it spans, from that one on.
#[derive(Debug)]
pub struct TaskGroup {
    pub first: usize,
    pub task: DumpTask,
    pub headers: Vec<AreaHeader>,
}

/// `s` is where the walk stops: every area before it is in use, and it is the
/// end of `hs` or an unused area.
pub open spec fn stops_at(hs: Seq<HeaderEntry>, s: int) -> bool {
    &&& 0 <= s <= hs.len()
    &&& forall|k: int| 0 <= k < s ==> (#[trigger] hs[k]).0.dumper != DUMPER_NONE
    &&& s < hs.len() ==> hs[s].0.dumper == DUMPER_NONE
}

/// `g` is a run of areas of `hs` that starts at one with a task marker and
/// continues over areas without one.
pub open spec fn group_spans(hs: Seq<HeaderEntry>, first: int, task: DumpTask, headers: Seq<AreaHeader>) -> bool {
    &&& 0 <= first
    &&& headers.len() >= 1
    &&& first + headers.len() <= hs.len()
    &&& hs[first].1 == Some(task)
    &&& forall|j: int| 0 <= j < headers.len() ==> #[trigger] headers[j] == hs[first + j].0
    &&& forall|j: int| 1 <= j < headers.len() ==> (#[trigger] hs[first + j]).1 is None
}

pub open spec fn group_ok(hs: Seq<HeaderEntry>, g: TaskGroup) -> bool {
    group_spans(hs, g.first as int, g.task, g.headers@)
}

pub open spec fn group_end(g: TaskGroup) -> int {
    g.first + g.headers@.len()
}

/// The grouping of areas into task dumps, up to the walk's stop `s`: the groups
/// follow each other without gaps, from the first area with a task marker to
/// `s`; areas before the first group carry no task marker.
pub open spec fn groups_ok(hs: Seq<HeaderEntry>, gs: Seq<TaskGroup>, s: int) -> bool {
    &&& forall|g: int| 0 <= g < gs.len() ==> group_ok(hs, #[trigger] gs[g])
    &&& forall|g: int| 0 <= g < gs.len() - 1 ==> (#[trigger] gs[g + 1]).first == group_end(gs[g])
    &&& gs.len() == 0 ==> forall|k: int| 0 <= k < s ==> (#[trigger] hs[k]).1 is None
    &&& gs.len() > 0 ==> group_end(gs.last()) == s && forall|k: int| 0 <= k < gs[0].first ==> (#[trigger] hs[k]).1 is None
}

/// Groups the areas in use into task dumps: an area with a task marker opens a
/// group, each following area in use without one joins it, and the walk stops
/// at the first unused area.
pub fn task_areas(headers: &Vec<HeaderEntry>) -> (r: Vec<TaskGroup>)
    ensures
        exists|s: int| stops_at(headers@, s) && groups_ok(headers@, r@, s),
{
    let hs = headers;
    let mut groups: Vec<TaskGroup> = Vec::new();
    let mut cur: Option<TaskGroup> = None;
    let mut i: usize = 0;
    while i < hs.len()
        invariant
            i <= hs@.len(),
            forall|k: int| 0 <= k < i ==> (#[trigger] hs@[k]).0.dumper != DUMPER_NONE,
            match cur {
                None => groups@.len() == 0 && forall|k: int| 0 <= k < i ==> (#[trigger] hs@[k]).1 is None,
                Some(c) => group_ok(hs@, c) && group_end(c) == i
                    && groups_ok(hs@, groups@, c.first as int),
            },
        ensures
            i <= hs@.len(),
            forall|k: int| 0 <= k < i ==> (#[trigger] hs@[k]).0.dumper != DUMPER_NONE,
            i < hs@.len() ==> hs@[i as int].0.dumper == DUMPER_NONE,
            match cur {
                None => groups@.len() == 0 && forall|k: int| 0 <= k < i ==> (#[trigger] hs@[k]).1 is None,
                Some(c) => group_ok(hs@, c) && group_end(c) == i
                    && groups_ok(hs@, groups@, c.first as int),
            },
        decreases hs.len() - i,
    {
        let (h, t) = hs[i];
        if h.dumper == DUMPER_NONE {
            break;
        }
        match t {
            Some(task) => {
                let ghost gs0 = groups@;
                match cur {
                    Some(c) => {
                        let ghost cv = c;
                        groups.push(c);
                        proof {
                            assert(groups@.last() == cv);
                            assert forall|g: int| 0 <= g < groups@.len() implies group_ok(hs@, #[trigger] groups@[g]) by {
                                if g < gs0.len() {
                                    assert(groups@[g] == gs0[g]);
                                }
                            }
                            assert forall|g: int| 0 <= g < groups@.len() - 1 implies (#[trigger] groups@[g + 1]).first == group_end(groups@[g]) by {
                                if g + 1 < gs0.len() {
                                    assert(groups@[g] == gs0[g] && groups@[g + 1] == gs0[g + 1]);
                                } else {
                                    assert(groups@[g] == gs0[g]);
                                }
                            }
                            if gs0.len() == 0 {
                                assert forall|k: int| 0 <= k < groups@[0].first implies (#[trigger] hs@[k]).1 is None by {
                                    assert(k < cv.first);
                                }
                            } else {
                                assert(groups@[0] == gs0[0]);
                            }
                        }
                    },
                    None => {},
                }
                let v = vec![h];
                proof {
                    assert(v@[0] == hs@[i as int].0);
                }
                cur = Some(TaskGroup { first: i, task, headers: v });
            },
            None => {
                match cur {
                    Some(c) => {
                        let mut c = c;
                        let ghost c0 = c;
                        c.headers.push(h);
                        proof {
                            assert forall|j: int| 0 <= j < c.headers@.len() implies #[trigger] c.headers@[j] == hs@[c.first + j].0 by {
                                if j < c0.headers@.len() {
                                    assert(c.headers@[j] == c0.headers@[j]);
                                }
                            }
                        }
                        cur = Some(c);
                    },
                    None => {},
                }
            },
        }
        i = i + 1;
    }
    match cur {
        Some(c) => {
            let ghost gs0 = groups@;
            let ghost cv = c;
            groups.push(c);
            proof {
                assert(stops_at(hs@, i as int));
                assert(groups@.last() == cv);
                assert forall|g: int| 0 <= g < groups@.len() implies group_ok(hs@, #[trigger] groups@[g]) by {
                    if g < gs0.len() {
                        assert(groups@[g] == gs0[g]);
                    }
                }
                assert forall|g: int| 0 <= g < groups@.len() - 1 implies (#[trigger] groups@[g + 1]).first == group_end(groups@[g]) by {
                    if g + 1 < gs0.len() {
                        assert(groups@[g] == gs0[g] && groups@[g + 1] == gs0[g + 1]);
                    } else {
                        assert(groups@[g] == gs0[g]);
                    }
                }
                if gs0.len() == 0 {
                    assert forall|k: int| 0 <= k < groups@[0].first implies (#[trigger] hs@[k]).1 is None by {
                        assert(k < cv.first);
                    }
                } else {
                    assert(groups@[0] == gs0[0]);
                }
                assert(groups_ok(hs@, groups@, i as int));
            }
        },
        None => {
            proof {
                assert(stops_at(hs@, i as int));
            }
        },
    }
    groups
}

} // verus!
