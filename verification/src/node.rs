//! The process node: the one persistent entity this library produces,
//! and the raw per-process material it is made from.

use crate::cmdline::{spec_tokenize, tokenize_command_line};
use crate::params::RawParams;
use crate::timing::{spec_ticks_to_unix_nanos, ticks_to_timestamp, FileTicks, Timestamp};
use crate::wide::{
    decode_wide, decoded, spec_file_name, spec_truncate_nul, truncate_at_nul, wide_file_name,
    wide_to_string,
};
use vstd::prelude::*;

verus! {

/// A process's run status.  Only `Run` is ever produced here; richer
/// states are future scope.
#[derive(Clone, Copy, Debug, PartialEq, Eq)]
pub enum LocalProcessStatus {
    Run,
}

/// Everything the platform layer gathered about one enumerated process,
/// as plain values.  `pid`, `ppid` and `exe_file` come from the
/// system-wide snapshot and are always present; the other three are
/// best-effort and default independently when a read failed:
/// `image_path` from the module query, `params` from the read chain
/// (both buffers or neither), `start` from the timing query.
pub struct RawProcess {
    pub pid: u32,
    pub ppid: u32,
    pub exe_file: Vec<u16>,
    pub image_path: Option<Vec<u16>>,
    pub params: Option<RawParams>,
    pub start: Option<FileTicks>,
}

/// One node of the finished tree.
pub struct LocalProcessInfo {
    pub pid: u32,
    pub ppid: u32,
    pub name: String,
    pub executable: String,
    pub cwd: String,
    pub argv: Vec<String>,
    pub start_time: Timestamp,
    pub status: LocalProcessStatus,
    pub children: Vec<LocalProcessInfo>,
}

/// The wide path the node's `executable` field is derived from: the
/// resolved image path when the module query succeeded, the raw
/// enumerated name otherwise.
pub open spec fn exe_wide(e: RawProcess) -> Seq<u16> {
    match e.image_path {
        Some(w) => w@,
        None => e.exe_file@,
    }
}

/// The argument vector `av` is exactly the decoded tokenization of the
/// raw command-line buffer `cmd`.
pub open spec fn argv_matches(av: Seq<String>, cmd: Seq<u16>) -> bool {
    let toks = spec_tokenize(spec_truncate_nul(cmd));
    &&& av.len() == toks.len()
    &&& forall|i: int| 0 <= i < toks.len() ==> av[i]@ == decoded(toks[i])
}

/// How every field of a node is determined by its raw material `e` and
/// the introspection time `now`: each enrichment defaults independently
/// when its read failed.
pub open spec fn fields_match(n: LocalProcessInfo, e: RawProcess, now: Timestamp) -> bool {
    &&& n.pid == e.pid
    &&& n.ppid == e.ppid
    &&& n.status == LocalProcessStatus::Run
    &&& n.executable@ == decoded(spec_truncate_nul(exe_wide(e)))
    &&& n.name@ == decoded(spec_file_name(spec_truncate_nul(exe_wide(e))))
    &&& match e.params {
        Some(p) => {
            &&& n.cwd@ == decoded(spec_truncate_nul(p.current_directory@))
            &&& argv_matches(n.argv@, p.command_line@)
        },
        None => n.cwd@ == Seq::<char>::empty() && n.argv@ == Seq::<String>::empty(),
    }
    &&& match e.start {
        Some(t) => n.start_time.unix_nanos == spec_ticks_to_unix_nanos(t),
        None => n.start_time == now,
    }
}

/// Builds one node from its raw material: resolves the executable path
/// and display name, decodes the working directory and tokenizes the
/// command line when the read chain delivered them, converts the start
/// time when the timing query delivered it, and falls back to the
/// documented default for each missing piece — the empty path, the
/// empty argument vector, and `now` as the start-time sentinel.
pub fn node_from_raw(e: &RawProcess, now: Timestamp, children: Vec<LocalProcessInfo>) -> (n:
    LocalProcessInfo)
    ensures
        fields_match(n, *e, now),
        n.children == children,
{
    let exe_trunc: Vec<u16> = match &e.image_path {
        Some(w) => truncate_at_nul(w),
        None => truncate_at_nul(&e.exe_file),
    };
    let name_wide = wide_file_name(&exe_trunc);
    let executable = decode_wide(&exe_trunc);
    let name = decode_wide(&name_wide);
    let mut cwd: String;
    let mut argv: Vec<String>;
    match &e.params {
        Some(p) => {
            cwd = wide_to_string(&p.current_directory);
            argv = tokenize_command_line(&p.command_line);
        },
        None => {
            let empty_wide: Vec<u16> = Vec::new();
            cwd = decode_wide(&empty_wide);
            argv = Vec::new();
            proof {
                assert(cwd@ =~= Seq::<char>::empty());
                assert(argv@ =~= Seq::<String>::empty());
            }
        },
    }
    let start_time: Timestamp = match &e.start {
        Some(t) => ticks_to_timestamp(*t),
        None => now,
    };
    LocalProcessInfo {
        pid: e.pid,
        ppid: e.ppid,
        name,
        executable,
        cwd,
        argv,
        start_time,
        status: LocalProcessStatus::Run,
        children,
    }
}

} // verus!
