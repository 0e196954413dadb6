//! The dump agent reached through the `hiffy` stack-machine interpreter: the
//! sanity gates on its read size, the batching of reads into programs, and
//! the program that takes a dump.

use crate::error::{ConfigError, DumpError};
use crate::format::{AREA_HEADER_SIZE, MAX_RECORD_SIZE, SEGMENT_HEADER_SIZE};
use vstd::prelude::*;

verus! {

/// Fewest segment headers that a `read_dump` reply must be able to hold.
pub const MIN_NSEGMENTS: usize = 16;
/// Milliseconds that each iteration of the take-dump delay sleeps.
pub const SLEEP_MS: u32 = 100;
/// Iterations of the take-dump delay: ten seconds in all.
pub const SLEEP_ITERATIONS: u32 = 100;

/// One operation of a HIF program.
#[derive(Clone, Copy, Debug, PartialEq, Eq, Structural)]
pub enum HifOp {
    Push(u32),
    Drop,
    Add,
    Label(u8),
    BranchGreaterThan(u8),
    Call(u16),
    Done,
}

/// A read of the window at `offset` into area `index`.
pub type AreaRead = (u8, u32);

/// The dump agent as seen through `hiffy`: `read_dump` replies of `rsize`
/// bytes, and an interpreter that returns at most `rdata_size` bytes per program.
pub struct HiffyDumpAgent {
    rsize: usize,
    rdata_size: usize,
}

pub open spec fn min_read_size() -> int {
    AREA_HEADER_SIZE + MAX_RECORD_SIZE
}

pub open spec fn max_nsegments(rsize: int) -> int {
    (rsize - min_read_size()) / SEGMENT_HEADER_SIZE as int
}

impl HiffyDumpAgent {
    pub closed spec fn reply_size(&self) -> nat {
        self.rsize as nat
    }

    pub closed spec fn rdata_size(&self) -> nat {
        self.rdata_size as nat
    }

    /// Reads per program: as many replies as the interpreter returns, less one.
    pub open spec fn chunk(&self) -> int {
        self.rdata_size() as int / self.reply_size() as int - 1
    }

    pub open spec fn wf(&self) -> bool {
        &&& self.reply_size() >= min_read_size()
        &&& max_nsegments(self.reply_size() as int) >= MIN_NSEGMENTS
    }

    /// An agent with replies of `rsize` bytes and programs that return at most
    /// `rdata_size` bytes. A reply must hold an area header and one record
    /// (else `ReadSizeTooSmall`) and at least `MIN_NSEGMENTS` segment headers
    /// besides (else `ReadSizeTooFewSegments`).
    pub fn new(rsize: usize, rdata_size: usize) -> (r: Result<HiffyDumpAgent, DumpError>)
        ensures
            rsize < min_read_size() ==> r == Err::<HiffyDumpAgent, DumpError>(
                DumpError::Config(ConfigError::ReadSizeTooSmall { rsize, min: (AREA_HEADER_SIZE + MAX_RECORD_SIZE) as usize })),
            rsize >= min_read_size() && max_nsegments(rsize as int) < MIN_NSEGMENTS ==> r == Err::<HiffyDumpAgent, DumpError>(
                DumpError::Config(ConfigError::ReadSizeTooFewSegments { rsize, max_nsegments: max_nsegments(rsize as int) as usize })),
            r is Ok <==> rsize >= min_read_size() && max_nsegments(rsize as int) >= MIN_NSEGMENTS,
            r matches Ok(a) ==> a.wf() && a.reply_size() == rsize && a.rdata_size() == rdata_size,
    {
        let min = AREA_HEADER_SIZE + MAX_RECORD_SIZE;
        if rsize < min {
            return Err(DumpError::Config(ConfigError::ReadSizeTooSmall { rsize, min }));
        }
        let max = (rsize - min) / SEGMENT_HEADER_SIZE;
        if max < MIN_NSEGMENTS {
            return Err(DumpError::Config(ConfigError::ReadSizeTooFewSegments { rsize, max_nsegments: max }));
        }
        Ok(HiffyDumpAgent { rsize, rdata_size })
    }

    /// Bytes in each `read_dump` reply.
    pub fn rsize(&self) -> (r: usize)
        ensures
            r == self.reply_size(),
    {
        self.rsize
    }

    /// Reads that one program carries; `BatchTooSmall` if the interpreter's
    /// returned data cannot hold two replies, which leaves no room for one.
    pub fn chunksize(&self) -> (r: Result<usize, DumpError>)
        requires
            self.wf(),
        ensures
            self.chunk() >= 1 ==> r == Ok::<usize, DumpError>(self.chunk() as usize),
            self.chunk() < 1 ==> r == Err::<usize, DumpError>(DumpError::Config(ConfigError::BatchTooSmall)),
    {
        let per = self.rdata_size / self.rsize;
        if per < 2 {
            return Err(DumpError::Config(ConfigError::BatchTooSmall));
        }
        Ok(per - 1)
    }

    /// Splits `reads` into the batches that successive programs carry, in
    /// order: every batch full but the last. There are exactly
    /// `ceil(reads.len() / chunksize)` of them. Fails with `BatchTooSmall` when
    /// a program has no room for a read.
    pub fn batches(&self, reads: &Vec<AreaRead>) -> (r: Result<Vec<Vec<AreaRead>>, DumpError>)
        requires
            self.wf(),
        ensures
            self.chunk() < 1 ==> r == Err::<Vec<Vec<AreaRead>>, DumpError>(DumpError::Config(ConfigError::BatchTooSmall)),
            self.chunk() >= 1 ==> (r matches Ok(v) && v@.len() == (reads@.len() + self.chunk() - 1) / self.chunk()
                && forall|b: int| 0 <= b < v@.len() ==> (#[trigger] v@[b])@ == reads@.subrange(
                    b * self.chunk(),
                    if (b + 1) * self.chunk() < reads@.len() { (b + 1) * self.chunk() } else { reads@.len() as int },
                )),
    {
        let c = self.chunksize()?;
        let n = reads.len();
        let mut out: Vec<Vec<AreaRead>> = Vec::new();
        let mut start: usize = 0;
        proof {
            assert(out@.len() == 0);
            assert(out@.len() * c == 0) by (nonlinear_arith)
                requires out@.len() == 0;
            if n == 0 {
                assert((n as int + c as int - 1) / c as int == 0) by (nonlinear_arith)
                    requires n == 0, c >= 1;
            }
        }
        while start < n
            invariant
                c == self.chunk(),
                c >= 1,
                n == reads@.len(),
                start <= n,
                start < n ==> start == out@.len() * c,
                start == n ==> (out@.len() == (n as int + c as int - 1) / c as int),
                start < n || out@.len() * c >= n,
                forall|b: int| 0 <= b < out@.len() ==> (#[trigger] out@[b])@ == reads@.subrange(
                    b * c,
                    if (b + 1) * c < n { (b + 1) * c } else { n as int },
                ),
            decreases n - start,
        {
            let k = out.len();
            let take = if c < n - start { c } else { n - start };
            let mut chunk: Vec<AreaRead> = Vec::new();
            let mut j: usize = 0;
            while j < take
                invariant
                    start + take <= n,
                    n == reads@.len(),
                    j <= take,
                    chunk@ == reads@.subrange(start as int, start + j),
                decreases take - j,
            {
                chunk.push(reads[start + j]);
                proof {
                    assert(chunk@ =~= reads@.subrange(start as int, start + j + 1));
                }
                j = j + 1;
            }
            proof {
                assert((k + 1) * c == k * c + c) by (nonlinear_arith);
            }
            out.push(chunk);
            start = start + take;
            proof {
                let kk = k as int;
                let cc = c as int;
                let nn = n as int;
                if start == n {
                    if take == c {
                        assert(nn == (kk + 1) * cc);
                        assert((nn + cc - 1) / cc == kk + 1) by (nonlinear_arith)
                            requires nn == (kk + 1) * cc, cc >= 1;
                    } else {
                        assert(kk * cc < nn && nn < (kk + 1) * cc);
                        assert((nn + cc - 1) / cc == kk + 1) by (nonlinear_arith)
                            requires kk * cc < nn, nn < (kk + 1) * cc, cc >= 1;
                    }
                }
            }
        }
        proof {
            if n == 0 {
                assert((n as int + c as int - 1) / c as int == 0) by (nonlinear_arith)
                    requires n == 0, c >= 1;
            }
        }
        Ok(out)
    }
}

/// The outcome of the call whose result is at `index` among a program's
/// results: its error code as `Agent`, or `MissingResult` if the program
/// returned no result there.
pub fn call_outcome(results: &Vec<Result<Vec<u8>, u32>>, index: usize) -> (r: Result<(), DumpError>)
    ensures
        index >= results@.len() ==> r == Err::<(), DumpError>(DumpError::MissingResult(index)),
        index < results@.len() ==> r == match results@[index as int] {
            Ok(_) => Ok::<(), DumpError>(()),
            Err(code) => Err(DumpError::Agent(code)),
        },
{
    if index >= results.len() {
        return Err(DumpError::MissingResult(index));
    }
    match &results[index] {
        Ok(_) => Ok(()),
        Err(code) => Err(DumpError::Agent(*code)),
    }
}

/// The outcome of every call of a program that made `ncalls` calls: the first
/// failure, in call order, or success.
pub fn calls_outcome(results: &Vec<Result<Vec<u8>, u32>>, ncalls: usize) -> (r: Result<(), DumpError>)
    ensures
        r is Ok <==> ncalls <= results@.len() && forall|i: int| 0 <= i < ncalls ==> (#[trigger] results@[i]) is Ok,
        r matches Err(DumpError::Agent(code)) ==> exists|i: int| 0 <= i < ncalls && i < results@.len()
            && #[trigger] results@[i] == Err::<Vec<u8>, u32>(code)
            && forall|j: int| 0 <= j < i ==> (#[trigger] results@[j]) is Ok,
        r is Err && ncalls <= results@.len() ==> exists|i: int| 0 <= i < ncalls
            && (#[trigger] results@[i] matches Err(code) && r == Err::<(), DumpError>(DumpError::Agent(code)))
            && forall|j: int| 0 <= j < i ==> (#[trigger] results@[j]) is Ok,
        r is Err && ncalls > results@.len() && (forall|j: int| 0 <= j < results@.len() ==> (#[trigger] results@[j]) is Ok)
            ==> r == Err::<(), DumpError>(DumpError::MissingResult(results@.len() as usize)),
{
    let mut i: usize = 0;
    while i < ncalls
        invariant
            i <= ncalls,
            i <= results@.len() || i == 0,
            forall|j: int| 0 <= j < i ==> j < results@.len() && (#[trigger] results@[j]) is Ok,
        decreases ncalls - i,
    {
        let r = call_outcome(results, i);
        if r.is_err() {
            return r;
        }
        i = i + 1;
    }
    Ok(())
}

/// What a reader does with one `read_dump` result.
#[derive(Clone, Copy, Debug, PartialEq, Eq, Structural)]
pub enum ReadStep {
    /// The window came back.
    Data,
    /// The area is past the last one: the list is over, without error.
    EndOfList,
    /// Any other error, with the area and offset read.
    Failed(DumpError),
}

/// Classifies the result of reading the window at `offset` of area `index`;
/// `invalid_area` is the agent's error code for an area past the last.
pub fn read_step(result: &Result<Vec<u8>, u32>, invalid_area: u32, index: u8, offset: u32) -> (r: ReadStep)
    ensures
        r == match *result {
            Ok(_) => ReadStep::Data,
            Err(code) => if code == invalid_area {
                ReadStep::EndOfList
            } else {
                ReadStep::Failed(DumpError::ReadFailed { index, offset, code })
            },
        },
{
    match result {
        Ok(_) => ReadStep::Data,
        Err(code) => {
            if *code == invalid_area {
                ReadStep::EndOfList
            } else {
                ReadStep::Failed(DumpError::ReadFailed { index, offset, code: *code })
            }
        },
    }
}

/// The operations that precede the `take_dump` call, and the index of the
/// result that holds its outcome. Over a network link there is nothing to
/// wait for; through a debug probe the program first sleeps `SLEEP_ITERATIONS`
/// times `SLEEP_MS` milliseconds through the `Sleep` function `sleep`, so that
/// the probe can be unplugged, and each sleep adds one result before the call's.
pub fn take_dump_prelude(is_net: bool, sleep: u16) -> (r: (Vec<HifOp>, usize))
    ensures
        is_net ==> r.0@.len() == 0 && r.1 == 0,
        !is_net ==> r.1 == SLEEP_ITERATIONS && r.0@ == seq![
            HifOp::Push(0),
            HifOp::Push(0),
            HifOp::Label(0),
            HifOp::Drop,
            HifOp::Push(SLEEP_MS),
            HifOp::Call(sleep),
            HifOp::Drop,
            HifOp::Push(1),
            HifOp::Add,
            HifOp::Push(SLEEP_ITERATIONS),
            HifOp::BranchGreaterThan(0),
        ],
{
    if is_net {
        return (Vec::new(), 0);
    }
    let ops = vec![
        HifOp::Push(0),
        HifOp::Push(0),
        HifOp::Label(0),
        HifOp::Drop,
        HifOp::Push(SLEEP_MS),
        HifOp::Call(sleep),
        HifOp::Drop,
        HifOp::Push(1),
        HifOp::Add,
        HifOp::Push(SLEEP_ITERATIONS),
        HifOp::BranchGreaterThan(0),
    ];
    proof {
        assert(ops@ =~= seq![
            HifOp::Push(0),
            HifOp::Push(0),
            HifOp::Label(0),
            HifOp::Drop,
            HifOp::Push(SLEEP_MS),
            HifOp::Call(sleep),
            HifOp::Drop,
            HifOp::Push(1),
            HifOp::Add,
            HifOp::Push(SLEEP_ITERATIONS),
            HifOp::BranchGreaterThan(0),
        ]);
    }
    (ops, SLEEP_ITERATIONS as usize)
}

} // verus!
