//! The parameter-read chain.
//!
//! Reading a target process's command line and working directory takes a
//! chain of independent cross-process reads: locate its control block,
//! read it, read its parameter sub-structure, then read the two
//! variable-length buffers that sub-structure points at.  Each read can
//! fail on its own, and any failure must discard the whole parameter
//! set — a truncated command line is worse than none.
//!
//! The reads themselves are raw platform calls and live outside this
//! library.  What is verified here is the chain's control: a state
//! machine that says which read comes next, what each read's result
//! leads to, and that no partial parameter set can ever come out of it.
//! The platform layer performs one read per step and feeds the result
//! back in.

use vstd::prelude::*;

verus! {

/// The architecture resolver's verdict for one target process: either
/// the target runs at the introspector's native width, or it runs under
/// a narrower-width layer and `block_addr` locates its narrow-layout
/// parameter block.
#[derive(Clone, Copy, Debug, PartialEq, Eq)]
pub enum LayoutSelector {
    Native,
    Narrow { block_addr: u64 },
}

/// The two raw buffers a successful chain yields, always together.
#[derive(Debug, PartialEq, Eq)]
pub struct RawParams {
    pub command_line: Vec<u16>,
    pub current_directory: Vec<u16>,
}

/// Where the chain stands: which read the platform layer must perform
/// next, or the two terminal outcomes.
pub enum ReadState {
    /// Query the target's basic information for its control-block address.
    NeedBasicInfo,
    /// Read the control block at `block_addr` for its parameter-block address.
    NeedControlBlock { block_addr: u64 },
    /// Read the parameter block at `params_addr`, in the narrow layout
    /// when `narrow` holds, for the two buffers' addresses and byte lengths.
    NeedParamBlock { params_addr: u64, narrow: bool },
    /// Read `cmd_len` bytes of command line at `cmd_addr`.
    NeedCommandLine { cmd_addr: u64, cmd_len: u16, cwd_addr: u64, cwd_len: u16 },
    /// Read `cwd_len` bytes of working directory at `cwd_addr`.
    NeedCurrentDir { command_line: Vec<u16>, cwd_addr: u64, cwd_len: u16 },
    /// Every read succeeded; both buffers are in hand.
    Done { params: RawParams },
    /// Some read failed; the whole parameter set is discarded.
    Failed,
}

/// What one read produced.
pub enum ReadEvent {
    GotBasicInfo { block_addr: u64 },
    GotControlBlock { params_addr: u64 },
    GotParamBlock { cmd_addr: u64, cmd_len: u16, cwd_addr: u64, cwd_len: u16 },
    GotBuffer { data: Vec<u16> },
    ReadFailed,
}

/// The chain's first step for a resolved layout: the native path must
/// locate the control block first; the narrow path was handed its
/// parameter block's address directly.
pub open spec fn spec_start(sel: LayoutSelector) -> ReadState {
    match sel {
        LayoutSelector::Native => ReadState::NeedBasicInfo,
        LayoutSelector::Narrow { block_addr } => ReadState::NeedParamBlock {
            params_addr: block_addr,
            narrow: true,
        },
    }
}

/// How one read's outcome advances the chain: the expected result moves
/// it forward, and anything else — a failed read, or a result that does
/// not answer the pending read — ends it with nothing.
pub open spec fn spec_step(st: ReadState, ev: ReadEvent) -> ReadState {
    match (st, ev) {
        (ReadState::NeedBasicInfo, ReadEvent::GotBasicInfo { block_addr }) =>
            ReadState::NeedControlBlock { block_addr },
        (ReadState::NeedControlBlock { .. }, ReadEvent::GotControlBlock { params_addr }) =>
            ReadState::NeedParamBlock { params_addr, narrow: false },
        (ReadState::NeedParamBlock { .. }, ReadEvent::GotParamBlock {
            cmd_addr,
            cmd_len,
            cwd_addr,
            cwd_len,
        }) => ReadState::NeedCommandLine { cmd_addr, cmd_len, cwd_addr, cwd_len },
        (ReadState::NeedCommandLine { cwd_addr, cwd_len, .. }, ReadEvent::GotBuffer { data }) =>
            ReadState::NeedCurrentDir { command_line: data, cwd_addr, cwd_len },
        (ReadState::NeedCurrentDir { command_line, .. }, ReadEvent::GotBuffer { data }) =>
            ReadState::Done {
                params: RawParams { command_line, current_directory: data },
            },
        _ => ReadState::Failed,
    }
}

/// Starts the chain for one target process.
pub fn start_read(sel: LayoutSelector) -> (r: ReadState)
    ensures
        r == spec_start(sel),
{
    match sel {
        LayoutSelector::Native => ReadState::NeedBasicInfo,
        LayoutSelector::Narrow { block_addr } => ReadState::NeedParamBlock {
            params_addr: block_addr,
            narrow: true,
        },
    }
}

/// Advances the chain by one read's outcome.
pub fn step_read(st: ReadState, ev: ReadEvent) -> (r: ReadState)
    ensures
        r == spec_step(st, ev),
{
    match (st, ev) {
        (ReadState::NeedBasicInfo, ReadEvent::GotBasicInfo { block_addr }) =>
            ReadState::NeedControlBlock { block_addr },
        (ReadState::NeedControlBlock { .. }, ReadEvent::GotControlBlock { params_addr }) =>
            ReadState::NeedParamBlock { params_addr, narrow: false },
        (ReadState::NeedParamBlock { .. }, ReadEvent::GotParamBlock {
            cmd_addr,
            cmd_len,
            cwd_addr,
            cwd_len,
        }) => ReadState::NeedCommandLine { cmd_addr, cmd_len, cwd_addr, cwd_len },
        (ReadState::NeedCommandLine { cwd_addr, cwd_len, .. }, ReadEvent::GotBuffer { data }) =>
            ReadState::NeedCurrentDir { command_line: data, cwd_addr, cwd_len },
        (ReadState::NeedCurrentDir { command_line, .. }, ReadEvent::GotBuffer { data }) =>
            ReadState::Done {
                params: RawParams { command_line, current_directory: data },
            },
        _ => ReadState::Failed,
    }
}

/// What the finished chain yields: both buffers on full success,
/// nothing otherwise.
pub fn read_outcome(st: ReadState) -> (r: Option<RawParams>)
    ensures
        match st {
            ReadState::Done { params } => r == Some::<RawParams>(params),
            _ => r is None,
        },
{
    match st {
        ReadState::Done { params } => Some(params),
        _ => None,
    }
}

/// The chain run over a whole sequence of read outcomes.
pub open spec fn run_reads(st: ReadState, evs: Seq<ReadEvent>) -> ReadState
    decreases evs.len(),
{
    if evs.len() == 0 {
        st
    } else {
        run_reads(spec_step(st, evs.first()), evs.drop_first())
    }
}

/// Failure is final: once a read has failed, no later outcome revives
/// the chain.
pub proof fn lemma_failure_is_final(evs: Seq<ReadEvent>)
    ensures
        run_reads(ReadState::Failed, evs) == ReadState::Failed,
    decreases evs.len(),
{
    if evs.len() > 0 {
        lemma_failure_is_final(evs.drop_first());
    }
}

/// A failed read anywhere in the chain means no parameter set at all:
/// the run ends in the failure state, never in a partial result.
pub proof fn lemma_no_params_after_failure(st: ReadState, evs: Seq<ReadEvent>, k: int)
    requires
        0 <= k < evs.len(),
        evs[k] == ReadEvent::ReadFailed,
    ensures
        run_reads(st, evs) == ReadState::Failed,
    decreases evs.len(),
{
    if k == 0 {
        assert(spec_step(st, evs.first()) == ReadState::Failed);
        lemma_failure_is_final(evs.drop_first());
    } else {
        lemma_no_params_after_failure(spec_step(st, evs.first()), evs.drop_first(), k - 1);
    }
}

/// A full parameter set arises only from the last read of the chain,
/// and carries exactly the two buffers those reads delivered.
pub proof fn lemma_done_takes_both_buffers(st: ReadState, ev: ReadEvent)
    ensures
        forall|p: RawParams|
            spec_step(st, ev) == (ReadState::Done { params: p }) ==> {
                &&& st matches ReadState::NeedCurrentDir { command_line, .. }
                    && p.command_line == command_line
                &&& ev matches ReadEvent::GotBuffer { data } && p.current_directory == data
            },
{
}

} // verus!
