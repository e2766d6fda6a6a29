//! What the embedded fio worker is asked to do, and what is made of its answer.
//!
//! Each measured run is one worker process: `iomark __fio-worker <args>`.
//! Final statistics are written by fio as JSON to a temp file (`--output`),
//! while live progress is scraped from the ETA lines fio prints to stdout.

use std::borrow::Cow;

use vstd::prelude::*;

use crate::duration::Duration;
use crate::measure::Reading;
use crate::paths;
use crate::paths::strip_verbatim;
use crate::platform::Platform;
use crate::task::{Pattern, TaskSpec};
use crate::text;
use crate::text::{chars_of, decimal_string, string_of, trimmed};

verus! {

/// Hidden argv[1] that selects the fio worker mode.
pub const WORKER_ARG: &'static str = "__fio-worker";

/// Direction of one benchmark operation (a CDM table cell).
#[derive(Debug, Clone, Copy, PartialEq, Eq, Hash, Structural)]
pub enum Op {
    Read,
    Write,
}

impl Op {
    /// The direction in words.
    pub open spec fn name_text(self) -> Seq<char> {
        match self {
            Op::Read => "read"@,
            Op::Write => "write"@,
        }
    }

    pub fn name(self) -> (r: &'static str)
        ensures
            r@ == self.name_text(),
    {
        match self {
            Op::Read => "read",
            Op::Write => "write",
        }
    }

    /// fio's word for the direction and the access pattern together.
    pub open spec fn rw_text(self, pattern: Pattern) -> Seq<char> {
        match (pattern, self) {
            (Pattern::Sequential, Op::Read) => "read"@,
            (Pattern::Sequential, Op::Write) => "write"@,
            (Pattern::Random, Op::Read) => "randread"@,
            (Pattern::Random, Op::Write) => "randwrite"@,
        }
    }

    /// fio's word for the direction and the access pattern together.
    pub fn rw(self, pattern: Pattern) -> (r: &'static str)
        ensures
            r@ == self.rw_text(pattern),
    {
        match (pattern, self) {
            (Pattern::Sequential, Op::Read) => "read",
            (Pattern::Sequential, Op::Write) => "write",
            (Pattern::Random, Op::Read) => "randread",
            (Pattern::Random, Op::Write) => "randwrite",
        }
    }
}

/// Live throughput scraped from one fio ETA line.
#[derive(Debug, Clone, Copy, PartialEq, Eq, Structural)]
pub struct LiveRate {
    pub bytes_per_sec: Reading,
    pub iops: Reading,
    /// Completion percentage of the current run, when fio reports it.
    pub percent: Option<Reading>,
}

/// Final statistics of one measured run.
#[derive(Debug, Clone, Copy, PartialEq, Eq, Structural)]
pub struct RunSample {
    pub bytes_per_sec: Reading,
    pub iops: Reading,
    pub lat_mean_us: Reading,
    pub lat_min_us: Reading,
}

/// One fio worker invocation.
pub struct Workload<'a> {
    pub spec: TaskSpec,
    pub op: Op,
    pub file: &'a str,
    pub size: u64,
    pub runtime: Duration,
}

// ---------------------------------------------------------------------------
// Arguments

/// The path under which fio finds a file: fio cannot parse the verbatim form
/// of a Windows path.
pub open spec fn fio_path_text(path: Seq<char>, platform: Platform) -> Seq<char> {
    if platform is Windows {
        paths::stripped(path)
    } else {
        path
    }
}

/// The path under which fio finds a file: fio cannot parse the verbatim form
/// of a Windows path.
pub fn fio_path(path: &str, platform: Platform) -> (r: String)
    ensures
        r@ == fio_path_text(path@, platform),
{
    match platform {
        Platform::Windows => match strip_verbatim(path) {
            Cow::Owned(plain) => plain,
            Cow::Borrowed(same) => same.to_owned(),
        },
        _ => path.to_owned(),
    }
}

/// An option and its value in one argument.
fn option(name: &str, value: &str) -> (r: String)
    ensures
        r@ == name@ + value@,
{
    let mut out = name.to_owned();
    out.append(value);
    out
}

impl Workload<'_> {
    /// The arguments that ask fio for this workload, in order.
    pub open spec fn arg_texts(&self, platform: Platform, output: Seq<char>) -> Seq<Seq<char>> {
        let all = seq![
            "--name="@ + (self.spec.id_text() + "-"@ + self.op.name_text()),
            "--filename="@ + fio_path_text(self.file@, platform),
            "--size="@ + text::decimal(self.size as nat),
            "--ioengine="@ + platform.engine_text(),
            "--direct=1"@,
            "--randrepeat=0"@,
            "--thread"@,
            "--bs="@ + text::decimal(self.spec.block_size as nat),
            "--iodepth="@ + text::decimal(self.spec.queue_depth as nat),
            "--numjobs="@ + text::decimal(self.spec.threads as nat),
            "--group_reporting"@,
            "--rw="@ + self.op.rw_text(self.spec.pattern),
            "--time_based"@,
            "--runtime="@ + (text::decimal(self.runtime@ / 1_000_000) + "ms"@),
            "--output-format=json"@,
            "--output="@ + output,
            "--eta=always"@,
            "--eta-newline=250ms"@,
            "--eta-interval=250ms"@,
        ];
        if self.op is Write {
            all.push("--end_fsync=1"@)
        } else {
            all
        }
    }

    /// The arguments that ask fio for this workload, its statistics going to
    /// the file `output`.
    pub fn args(&self, platform: Platform, output: &str) -> (r: Vec<String>)
        ensures
            text::texts(r@) == self.arg_texts(platform, output@),
    {
        let mut name = self.spec.id();
        name.append("-");
        name.append(self.op.name());
        let mut runtime = decimal_string(self.runtime.as_millis());
        runtime.append("ms");
        let mut args: Vec<String> = Vec::new();
        args.push(option("--name=", name.as_str()));
        args.push(option("--filename=", fio_path(self.file, platform).as_str()));
        args.push(option("--size=", decimal_string(self.size as u128).as_str()));
        args.push(option("--ioengine=", platform.engine()));
        args.push("--direct=1".to_owned());
        args.push("--randrepeat=0".to_owned());
        // Jobs as threads (CDM's T semantics) and one process to kill on abort.
        args.push("--thread".to_owned());
        args.push(option("--bs=", decimal_string(self.spec.block_size as u128).as_str()));
        args.push(option("--iodepth=", decimal_string(self.spec.queue_depth as u128).as_str()));
        args.push(option("--numjobs=", decimal_string(self.spec.threads as u128).as_str()));
        args.push("--group_reporting".to_owned());
        args.push(option("--rw=", self.op.rw(self.spec.pattern)));
        args.push("--time_based".to_owned());
        args.push(option("--runtime=", runtime.as_str()));
        args.push("--output-format=json".to_owned());
        args.push(option("--output=", output));
        args.push("--eta=always".to_owned());
        args.push("--eta-newline=250ms".to_owned());
        args.push("--eta-interval=250ms".to_owned());
        if self.op == Op::Write {
            args.push("--end_fsync=1".to_owned());
        }
        assert(text::texts(args@) =~= self.arg_texts(platform, output@));
        args
    }
}

/// The arguments that ask fio for the test file.
pub open spec fn prepare_arg_texts(
    file: Seq<char>,
    size: u64,
    platform: Platform,
    output: Seq<char>,
) -> Seq<Seq<char>> {
    let block = if size < 0x10_0000 {
        size
    } else {
        0x10_0000
    };
    seq![
        "--name=prepare"@,
        "--filename="@ + fio_path_text(file, platform),
        "--size="@ + text::decimal(size as nat),
        "--rw=write"@,
        "--overwrite=1"@,
        "--thread"@,
        "--bs="@ + text::decimal(block as nat),
        "--create_only=1"@,
        "--output-format=json"@,
        "--output="@ + output,
    ]
}

/// The arguments that ask fio for the shared test file, fully written with
/// data (`--create_only=1`).
pub fn prepare_args(file: &str, size: u64, platform: Platform, output: &str) -> (r: Vec<String>)
    ensures
        text::texts(r@) == prepare_arg_texts(file@, size, platform, output@),
{
    let block: u64 = if size < 0x10_0000 {
        size
    } else {
        0x10_0000
    };
    let mut args: Vec<String> = Vec::new();
    args.push("--name=prepare".to_owned());
    args.push(option("--filename=", fio_path(file, platform).as_str()));
    args.push(option("--size=", decimal_string(size as u128).as_str()));
    args.push("--rw=write".to_owned());
    // Without overwrite=1, fio's layout for a write job merely fallocates:
    // the file reaches full size but contains only unwritten extents, which
    // the kernel serves as zeros without touching the device — inflating
    // every read result several-fold.
    args.push("--overwrite=1".to_owned());
    // The layout job must die with the worker when aborted.
    args.push("--thread".to_owned());
    args.push(option("--bs=", decimal_string(block as u128).as_str()));
    args.push("--create_only=1".to_owned());
    args.push("--output-format=json".to_owned());
    args.push(option("--output=", output));
    assert(text::texts(args@) =~= prepare_arg_texts(file@, size, platform, output@));
    args
}

/// Every run bypasses the page cache. Where it is of a millisecond or more it
/// lasts for its runtime, not for the size of the file: fio drops `time_based`
/// only on a zero runtime.
pub proof fn law_every_run_is_direct_and_timed(w: Workload<'_>, platform: Platform, output: Seq<char>)
    ensures
        w.arg_texts(platform, output).contains("--direct=1"@),
        w.runtime@ >= 1_000_000 ==> {
            &&& w.arg_texts(platform, output).contains("--time_based"@)
            &&& w.runtime@ / 1_000_000 > 0
            &&& w.arg_texts(platform, output).contains(
                "--runtime="@ + (text::decimal(w.runtime@ / 1_000_000) + "ms"@),
            )
        },
{
    assert(w.arg_texts(platform, output)[4] == "--direct=1"@);
    assert(w.arg_texts(platform, output)[12] == "--time_based"@);
    assert(w.arg_texts(platform, output)[13] == "--runtime="@ + (text::decimal(
        w.runtime@ / 1_000_000,
    ) + "ms"@));
}

/// Whether `args` give the option `name`, which ends in `=`, this value, and no
/// other one as well.
pub open spec fn gives(args: Seq<Seq<char>>, name: Seq<char>, value: Seq<char>) -> bool {
    &&& args.contains(name + value)
    &&& forall|i: int|
        0 <= i < args.len() && text::has_prefix(#[trigger] args[i], name) ==> args[i] == name
            + value
}

proof fn lemma_gives(args: Seq<Seq<char>>, k: int, name: Seq<char>, value: Seq<char>)
    requires
        0 <= k < args.len(),
        args[k] == name + value,
        forall|i: int|
            0 <= i < args.len() && text::has_prefix(#[trigger] args[i], name) ==> i == k,
    ensures
        gives(args, name, value),
{
}

/// The first letters of the option at place `i`.
spec fn head(i: int) -> (char, char, char) {
    if i == 0 {
        ('n', 'a', 'm')
    } else if i == 1 {
        ('f', 'i', 'l')
    } else if i == 2 {
        ('s', 'i', 'z')
    } else if i == 3 {
        ('i', 'o', 'e')
    } else if i == 4 {
        ('d', 'i', 'r')
    } else if i == 5 {
        ('r', 'a', 'n')
    } else if i == 6 {
        ('t', 'h', 'r')
    } else if i == 7 {
        ('b', 's', '=')
    } else if i == 8 {
        ('i', 'o', 'd')
    } else if i == 9 {
        ('n', 'u', 'm')
    } else if i == 10 {
        ('g', 'r', 'o')
    } else if i == 11 {
        ('r', 'w', '=')
    } else if i == 12 {
        ('t', 'i', 'm')
    } else if i == 13 {
        ('r', 'u', 'n')
    } else if i == 14 {
        ('o', 'u', 't')
    } else if i == 15 {
        ('o', 'u', 't')
    } else if i == 16 {
        ('e', 't', 'a')
    } else if i == 17 {
        ('e', 't', 'a')
    } else if i == 18 {
        ('e', 't', 'a')
    } else {
        ('e', 'n', 'd')
    }
}

/// The arguments begin with the names of their options.
proof fn lemma_heads(w: Workload<'_>, platform: Platform, output: Seq<char>)
    ensures
        forall|i: int|
            0 <= i < w.arg_texts(platform, output).len() ==> {
                let a = #[trigger] w.arg_texts(platform, output)[i];
                &&& a.len() >= 5
                &&& (a[2], a[3], a[4]) == head(i)
            },
        w.arg_texts(platform, output)[14].len() > 8,
        w.arg_texts(platform, output)[14][8] == '-',
        19 <= w.arg_texts(platform, output).len() <= 20,
{
    reveal_strlit("--name=");
    reveal_strlit("--filename=");
    reveal_strlit("--size=");
    reveal_strlit("--ioengine=");
    reveal_strlit("--direct=1");
    reveal_strlit("--randrepeat=0");
    reveal_strlit("--thread");
    reveal_strlit("--bs=");
    reveal_strlit("--iodepth=");
    reveal_strlit("--numjobs=");
    reveal_strlit("--group_reporting");
    reveal_strlit("--rw=");
    reveal_strlit("--time_based");
    reveal_strlit("--runtime=");
    reveal_strlit("--output-format=json");
    reveal_strlit("--output=");
    reveal_strlit("--eta=always");
    reveal_strlit("--eta-newline=250ms");
    reveal_strlit("--eta-interval=250ms");
    reveal_strlit("--end_fsync=1");
    let args = w.arg_texts(platform, output);
    assert forall|i: int| 0 <= i < args.len() implies {
        let a = #[trigger] args[i];
        &&& a.len() >= 5
        &&& (a[2], a[3], a[4]) == head(i)
    } by {
        let a = args[i];
        if i == 0 {
            assert(a[2] == "--name="@[2] && a[3] == "--name="@[3] && a[4] == "--name="@[4]);
        }
        if i == 1 {
            assert(a[2] == "--filename="@[2] && a[3] == "--filename="@[3] && a[4] == "--filename="@[4]);
        }
        if i == 2 {
            assert(a[2] == "--size="@[2] && a[3] == "--size="@[3] && a[4] == "--size="@[4]);
        }
        if i == 3 {
            assert(a[2] == "--ioengine="@[2] && a[3] == "--ioengine="@[3] && a[4] == "--ioengine="@[4]);
        }
        if i == 4 {
            assert(a[2] == "--direct=1"@[2] && a[3] == "--direct=1"@[3] && a[4] == "--direct=1"@[4]);
        }
        if i == 5 {
            assert(a[2] == "--randrepeat=0"@[2] && a[3] == "--randrepeat=0"@[3] && a[4] == "--randrepeat=0"@[4]);
        }
        if i == 6 {
            assert(a[2] == "--thread"@[2] && a[3] == "--thread"@[3] && a[4] == "--thread"@[4]);
        }
        if i == 7 {
            assert(a[2] == "--bs="@[2] && a[3] == "--bs="@[3] && a[4] == "--bs="@[4]);
        }
        if i == 8 {
            assert(a[2] == "--iodepth="@[2] && a[3] == "--iodepth="@[3] && a[4] == "--iodepth="@[4]);
        }
        if i == 9 {
            assert(a[2] == "--numjobs="@[2] && a[3] == "--numjobs="@[3] && a[4] == "--numjobs="@[4]);
        }
        if i == 10 {
            assert(a[2] == "--group_reporting"@[2] && a[3] == "--group_reporting"@[3] && a[4] == "--group_reporting"@[4]);
        }
        if i == 11 {
            assert(a[2] == "--rw="@[2] && a[3] == "--rw="@[3] && a[4] == "--rw="@[4]);
        }
        if i == 12 {
            assert(a[2] == "--time_based"@[2] && a[3] == "--time_based"@[3] && a[4] == "--time_based"@[4]);
        }
        if i == 13 {
            assert(a[2] == "--runtime="@[2] && a[3] == "--runtime="@[3] && a[4] == "--runtime="@[4]);
        }
        if i == 14 {
            assert(a[2] == "--output-format=json"@[2] && a[3] == "--output-format=json"@[3] && a[4] == "--output-format=json"@[4]);
        }
        if i == 15 {
            assert(a[2] == "--output="@[2] && a[3] == "--output="@[3] && a[4] == "--output="@[4]);
        }
        if i == 16 {
            assert(a[2] == "--eta=always"@[2] && a[3] == "--eta=always"@[3] && a[4] == "--eta=always"@[4]);
        }
        if i == 17 {
            assert(a[2] == "--eta-newline=250ms"@[2] && a[3] == "--eta-newline=250ms"@[3] && a[4] == "--eta-newline=250ms"@[4]);
        }
        if i == 18 {
            assert(a[2] == "--eta-interval=250ms"@[2] && a[3] == "--eta-interval=250ms"@[3] && a[4] == "--eta-interval=250ms"@[4]);
        }
        if i == 19 {
            assert(a[2] == "--end_fsync=1"@[2] && a[3] == "--end_fsync=1"@[3] && a[4] == "--end_fsync=1"@[4]);
        }
    }
    assert(args[14][8] == "--output-format=json"@[8]);
}

/// What fio is asked for is the workload: its file and size, its block size,
/// its queue depth and its threads, its direction and access pattern and its
/// runtime, each given once, in either direction and on every system.
#[verifier::rlimit(40)]
pub proof fn law_fio_is_asked_for_the_workload(
    w: Workload<'_>,
    platform: Platform,
    output: Seq<char>,
)
    ensures
        ({
            let args = w.arg_texts(platform, output);
            &&& gives(args, "--filename="@, fio_path_text(w.file@, platform))
            &&& gives(args, "--size="@, text::decimal(w.size as nat))
            &&& gives(args, "--bs="@, text::decimal(w.spec.block_size as nat))
            &&& gives(args, "--iodepth="@, text::decimal(w.spec.queue_depth as nat))
            &&& gives(args, "--numjobs="@, text::decimal(w.spec.threads as nat))
            &&& gives(args, "--direct="@, "1"@)
            &&& gives(args, "--runtime="@, text::decimal(w.runtime@ / 1_000_000) + "ms"@)
            &&& gives(args, "--output="@, output)
            &&& args.contains("--time_based"@)
            &&& args.contains("--thread"@)
            &&& args.contains("--group_reporting"@)
            &&& args.contains("--output-format=json"@)
            &&& args.contains("--randrepeat=0"@)
            &&& args.contains("--eta=always"@)
            &&& args.contains("--eta-newline=250ms"@)
            &&& args.contains("--eta-interval=250ms"@)
            &&& args.contains("--end_fsync=1"@) <==> w.op is Write
            &&& w.op is Read && w.spec.pattern is Sequential ==> gives(args, "--rw="@, "read"@)
            &&& w.op is Write && w.spec.pattern is Sequential ==> gives(args, "--rw="@, "write"@)
            &&& w.op is Read && w.spec.pattern is Random ==> gives(args, "--rw="@, "randread"@)
            &&& w.op is Write && w.spec.pattern is Random ==> gives(args, "--rw="@, "randwrite"@)
            &&& platform is Linux ==> gives(args, "--ioengine="@, "libaio"@)
            &&& platform is MacOs ==> gives(args, "--ioengine="@, "posixaio"@)
            &&& platform is Windows ==> gives(args, "--ioengine="@, "windowsaio"@)
            &&& platform is Other ==> gives(args, "--ioengine="@, "psync"@)
            &&& !(platform is Windows) ==> gives(args, "--filename="@, w.file@)
            &&& platform is Windows ==> gives(args, "--filename="@, paths::stripped(w.file@))
        }),
{
    let args = w.arg_texts(platform, output);
    lemma_heads(w, platform, output);
    reveal_strlit("1");
    reveal_strlit("--direct=");
    reveal_strlit("--bs=");
    reveal_strlit("--direct=1");
    reveal_strlit("--end_fsync=1");
    reveal_strlit("--filename=");
    reveal_strlit("--iodepth=");
    reveal_strlit("--ioengine=");
    reveal_strlit("--numjobs=");
    reveal_strlit("--output=");
    reveal_strlit("--runtime=");
    reveal_strlit("--rw=");
    reveal_strlit("--size=");
    assert forall|i: int|
        0 <= i < args.len() && text::has_prefix(#[trigger] args[i], "--filename="@) implies i == 1 by {
        let name = "--filename="@;
        assert(args[i].take(name.len() as int) == name);
        assert(args[i][2] == name[2] && args[i][3] == name[3] && args[i][4] == name[4]);
    }
    lemma_gives(args, 1, "--filename="@, fio_path_text(w.file@, platform));
    assert forall|i: int|
        0 <= i < args.len() && text::has_prefix(#[trigger] args[i], "--size="@) implies i == 2 by {
        let name = "--size="@;
        assert(args[i].take(name.len() as int) == name);
        assert(args[i][2] == name[2] && args[i][3] == name[3] && args[i][4] == name[4]);
    }
    lemma_gives(args, 2, "--size="@, text::decimal(w.size as nat));
    assert forall|i: int|
        0 <= i < args.len() && text::has_prefix(#[trigger] args[i], "--ioengine="@) implies i == 3 by {
        let name = "--ioengine="@;
        assert(args[i].take(name.len() as int) == name);
        assert(args[i][2] == name[2] && args[i][3] == name[3] && args[i][4] == name[4]);
    }
    lemma_gives(args, 3, "--ioengine="@, platform.engine_text());
    assert forall|i: int|
        0 <= i < args.len() && text::has_prefix(#[trigger] args[i], "--direct="@) implies i == 4 by {
        let name = "--direct="@;
        assert(args[i].take(name.len() as int) == name);
        assert(args[i][2] == name[2] && args[i][3] == name[3] && args[i][4] == name[4]);
    }
    assert("--direct=1"@ =~= "--direct="@ + "1"@);
    lemma_gives(args, 4, "--direct="@, "1"@);
    assert forall|i: int|
        0 <= i < args.len() && text::has_prefix(#[trigger] args[i], "--bs="@) implies i == 7 by {
        let name = "--bs="@;
        assert(args[i].take(name.len() as int) == name);
        assert(args[i][2] == name[2] && args[i][3] == name[3] && args[i][4] == name[4]);
    }
    lemma_gives(args, 7, "--bs="@, text::decimal(w.spec.block_size as nat));
    assert forall|i: int|
        0 <= i < args.len() && text::has_prefix(#[trigger] args[i], "--iodepth="@) implies i == 8 by {
        let name = "--iodepth="@;
        assert(args[i].take(name.len() as int) == name);
        assert(args[i][2] == name[2] && args[i][3] == name[3] && args[i][4] == name[4]);
    }
    lemma_gives(args, 8, "--iodepth="@, text::decimal(w.spec.queue_depth as nat));
    assert forall|i: int|
        0 <= i < args.len() && text::has_prefix(#[trigger] args[i], "--numjobs="@) implies i == 9 by {
        let name = "--numjobs="@;
        assert(args[i].take(name.len() as int) == name);
        assert(args[i][2] == name[2] && args[i][3] == name[3] && args[i][4] == name[4]);
    }
    lemma_gives(args, 9, "--numjobs="@, text::decimal(w.spec.threads as nat));
    assert forall|i: int|
        0 <= i < args.len() && text::has_prefix(#[trigger] args[i], "--rw="@) implies i == 11 by {
        let name = "--rw="@;
        assert(args[i].take(name.len() as int) == name);
        assert(args[i][2] == name[2] && args[i][3] == name[3] && args[i][4] == name[4]);
    }
    lemma_gives(args, 11, "--rw="@, w.op.rw_text(w.spec.pattern));
    assert forall|i: int|
        0 <= i < args.len() && text::has_prefix(#[trigger] args[i], "--runtime="@) implies i == 13 by {
        let name = "--runtime="@;
        assert(args[i].take(name.len() as int) == name);
        assert(args[i][2] == name[2] && args[i][3] == name[3] && args[i][4] == name[4]);
    }
    lemma_gives(args, 13, "--runtime="@, text::decimal(w.runtime@ / 1_000_000) + "ms"@);
    assert forall|i: int|
        0 <= i < args.len() && text::has_prefix(#[trigger] args[i], "--output="@) implies i == 15 by {
        let name = "--output="@;
        assert(args[i].take(name.len() as int) == name);
        assert(args[i][2] == name[2] && args[i][3] == name[3] && args[i][4] == name[4]);
        assert(args[i][8] == name[8]);
    }
    lemma_gives(args, 15, "--output="@, output);
    assert(args[12] == "--time_based"@);
    assert(args[6] == "--thread"@);
    assert(args[10] == "--group_reporting"@);
    assert(args[14] == "--output-format=json"@);
    assert(args[5] == "--randrepeat=0"@);
    assert(args[16] == "--eta=always"@);
    assert(args[17] == "--eta-newline=250ms"@);
    assert(args[18] == "--eta-interval=250ms"@);
    if w.op is Write {
        assert(args[19] == "--end_fsync=1"@);
    } else if args.contains("--end_fsync=1"@) {
        let i = choose|i: int| 0 <= i < args.len() && args[i] == "--end_fsync=1"@;
        assert(args[i][3] == 'n' && head(i).1 != 'n');
    }
}

/// The first letters of the option at place `i`.
spec fn prepare_head(i: int) -> (char, char, char) {
    if i == 0 {
        ('n', 'a', 'm')
    } else if i == 1 {
        ('f', 'i', 'l')
    } else if i == 2 {
        ('s', 'i', 'z')
    } else if i == 3 {
        ('r', 'w', '=')
    } else if i == 4 {
        ('o', 'v', 'e')
    } else if i == 5 {
        ('t', 'h', 'r')
    } else if i == 6 {
        ('b', 's', '=')
    } else if i == 7 {
        ('c', 'r', 'e')
    } else if i == 8 {
        ('o', 'u', 't')
    } else {
        ('o', 'u', 't')
    }
}

/// The test file is laid out in full, with data and not merely allocated, at
/// the place and of the size that the workloads use, in blocks of a mebibyte
/// or of the whole file where that is less. Each is given once.
pub proof fn law_test_file_is_written_with_data(
    file: Seq<char>,
    size: u64,
    platform: Platform,
    output: Seq<char>,
)
    ensures
        ({
            let args = prepare_arg_texts(file, size, platform, output);
            &&& gives(args, "--filename="@, fio_path_text(file, platform))
            &&& !(platform is Windows) ==> gives(args, "--filename="@, file)
            &&& gives(args, "--size="@, text::decimal(size as nat))
            &&& gives(args, "--rw="@, "write"@)
            &&& gives(args, "--overwrite="@, "1"@)
            &&& args.contains("--overwrite=1"@)
            &&& gives(args, "--output="@, output)
            &&& args.contains("--create_only=1"@)
            &&& args.contains("--thread"@)
            &&& args.contains("--output-format=json"@)
            &&& size <= 0x10_0000 ==> gives(args, "--bs="@, text::decimal(size as nat))
            &&& size >= 0x10_0000 ==> gives(args, "--bs="@, text::decimal(0x10_0000))
        }),
{
    let args = prepare_arg_texts(file, size, platform, output);
    reveal_strlit("--name=prepare");
    reveal_strlit("--filename=");
    reveal_strlit("--size=");
    reveal_strlit("--rw=write");
    reveal_strlit("--overwrite=1");
    reveal_strlit("--thread");
    reveal_strlit("--bs=");
    reveal_strlit("--create_only=1");
    reveal_strlit("--output-format=json");
    reveal_strlit("--output=");
    reveal_strlit("--rw=");
    reveal_strlit("--overwrite=");
    reveal_strlit("write");
    reveal_strlit("1");
    assert forall|i: int| 0 <= i < args.len() implies {
        let a = #[trigger] args[i];
        &&& a.len() >= 5
        &&& (a[2], a[3], a[4]) == prepare_head(i)
    } by {
        let a = args[i];
        if i == 0 {
            assert(a[2] == "--name=prepare"@[2] && a[3] == "--name=prepare"@[3] && a[4] == "--name=prepare"@[4]);
        }
        if i == 1 {
            assert(a[2] == "--filename="@[2] && a[3] == "--filename="@[3] && a[4] == "--filename="@[4]);
        }
        if i == 2 {
            assert(a[2] == "--size="@[2] && a[3] == "--size="@[3] && a[4] == "--size="@[4]);
        }
        if i == 3 {
            assert(a[2] == "--rw=write"@[2] && a[3] == "--rw=write"@[3] && a[4] == "--rw=write"@[4]);
        }
        if i == 4 {
            assert(a[2] == "--overwrite=1"@[2] && a[3] == "--overwrite=1"@[3] && a[4] == "--overwrite=1"@[4]);
        }
        if i == 5 {
            assert(a[2] == "--thread"@[2] && a[3] == "--thread"@[3] && a[4] == "--thread"@[4]);
        }
        if i == 6 {
            assert(a[2] == "--bs="@[2] && a[3] == "--bs="@[3] && a[4] == "--bs="@[4]);
        }
        if i == 7 {
            assert(a[2] == "--create_only=1"@[2] && a[3] == "--create_only=1"@[3] && a[4] == "--create_only=1"@[4]);
        }
        if i == 8 {
            assert(a[2] == "--output-format=json"@[2] && a[3] == "--output-format=json"@[3] && a[4] == "--output-format=json"@[4]);
        }
        if i == 9 {
            assert(a[2] == "--output="@[2] && a[3] == "--output="@[3] && a[4] == "--output="@[4]);
        }
    }
    assert(args[8][8] == "--output-format=json"@[8]);
    assert("--rw=write"@ =~= "--rw="@ + "write"@);
    assert("--overwrite=1"@ =~= "--overwrite="@ + "1"@);
    let block = if size < 0x10_0000 {
        size
    } else {
        0x10_0000
    };
    assert forall|i: int|
        0 <= i < args.len() && text::has_prefix(#[trigger] args[i], "--filename="@) implies i == 1 by {
        let name = "--filename="@;
        assert(args[i].take(name.len() as int) == name);
        assert(args[i][2] == name[2] && args[i][3] == name[3] && args[i][4] == name[4]);
    }
    lemma_gives(args, 1, "--filename="@, fio_path_text(file, platform));
    assert forall|i: int|
        0 <= i < args.len() && text::has_prefix(#[trigger] args[i], "--size="@) implies i == 2 by {
        let name = "--size="@;
        assert(args[i].take(name.len() as int) == name);
        assert(args[i][2] == name[2] && args[i][3] == name[3] && args[i][4] == name[4]);
    }
    lemma_gives(args, 2, "--size="@, text::decimal(size as nat));
    assert forall|i: int|
        0 <= i < args.len() && text::has_prefix(#[trigger] args[i], "--rw="@) implies i == 3 by {
        let name = "--rw="@;
        assert(args[i].take(name.len() as int) == name);
        assert(args[i][2] == name[2] && args[i][3] == name[3] && args[i][4] == name[4]);
    }
    lemma_gives(args, 3, "--rw="@, "write"@);
    assert forall|i: int|
        0 <= i < args.len() && text::has_prefix(#[trigger] args[i], "--overwrite="@) implies i == 4 by {
        let name = "--overwrite="@;
        assert(args[i].take(name.len() as int) == name);
        assert(args[i][2] == name[2] && args[i][3] == name[3] && args[i][4] == name[4]);
    }
    lemma_gives(args, 4, "--overwrite="@, "1"@);
    assert forall|i: int|
        0 <= i < args.len() && text::has_prefix(#[trigger] args[i], "--bs="@) implies i == 6 by {
        let name = "--bs="@;
        assert(args[i].take(name.len() as int) == name);
        assert(args[i][2] == name[2] && args[i][3] == name[3] && args[i][4] == name[4]);
    }
    lemma_gives(args, 6, "--bs="@, text::decimal(block as nat));
    assert forall|i: int|
        0 <= i < args.len() && text::has_prefix(#[trigger] args[i], "--output="@) implies i == 9 by {
        let name = "--output="@;
        assert(args[i].take(name.len() as int) == name);
        assert(args[i][2] == name[2] && args[i][3] == name[3] && args[i][4] == name[4]);
        assert(args[i][8] == name[8]);
    }
    lemma_gives(args, 9, "--output="@, output);
    assert(args[7] == "--create_only=1"@);
    assert(args[5] == "--thread"@);
    assert(args[8] == "--output-format=json"@);
}

// ---------------------------------------------------------------------------
// Results

/// How a worker ended: whether it finished rather than being aborted, or the
/// message for its failure.
pub open spec fn worker_end(
    aborted: bool,
    success: bool,
    status: Seq<char>,
    stderr: Seq<char>,
) -> Result<bool, Seq<char>> {
    if aborted {
        Ok(false)
    } else if !success {
        Err("fio worker failed ("@ + status + "): "@ + text::trim(stderr))
    } else {
        Ok(true)
    }
}

/// A worker finished exactly when nobody aborted it and it succeeded. An abort
/// is never a failure, and a failure says how the worker ended and what it
/// printed.
pub proof fn law_only_failures_are_reported(
    aborted: bool,
    success: bool,
    status: Seq<char>,
    stderr: Seq<char>,
)
    ensures
        ({
            let end = worker_end(aborted, success, status, stderr);
            &&& end == Ok::<bool, Seq<char>>(true) <==> !aborted && success
            &&& end == Ok::<bool, Seq<char>>(false) <==> aborted
            &&& end is Err <==> !aborted && !success
            &&& end matches Err(message) ==> {
                let said = text::trim(stderr);
                &&& message.len() >= said.len()
                &&& message.skip(message.len() - said.len()) == said
                &&& text::has_prefix(message, "fio worker failed ("@ + status + "): "@)
            }
        }),
{
    let said = text::trim(stderr);
    let start = "fio worker failed ("@ + status + "): "@;
    assert((start + said).skip(start.len() as int) =~= said);
    assert((start + said).take(start.len() as int) =~= start);
}

/// Judges a worker that was reaped: true when it finished, false when the
/// session was aborted. An abort outweighs a failure, which it may have caused.
pub fn judge_worker(aborted: bool, success: bool, status: &str, stderr: &str) -> (r: Result<
    bool,
    String,
>)
    ensures
        match (r, worker_end(aborted, success, status@, stderr@)) {
            (Ok(a), Ok(b)) => a == b,
            (Err(a), Err(b)) => a@ == b,
            _ => false,
        },
{
    if aborted {
        return Ok(false);
    }
    if !success {
        let mut message = "fio worker failed (".to_owned();
        message.append(status);
        message.append("): ");
        message.append(string_of(trimmed(chars_of(stderr).as_slice())).as_str());
        return Err(message);
    }
    Ok(true)
}

/// Statistics of one fio job, per direction.
#[derive(Debug, Clone, Copy, PartialEq, Eq, Structural)]
pub struct JobStats {
    pub read: RunSample,
    pub write: RunSample,
}

/// Picks the statistics of a run: those of the first job, in the direction
/// that ran.
pub fn pick_sample(jobs: &Vec<JobStats>, op: Op) -> (r: Result<RunSample, String>)
    ensures
        match r {
            Ok(sample) => jobs@.len() > 0 && sample == (match op {
                Op::Read => jobs@[0].read,
                Op::Write => jobs@[0].write,
            }),
            Err(e) => jobs@.len() == 0 && e@ == "fio JSON contains no jobs"@,
        },
{
    if jobs.len() == 0 {
        return Err("fio JSON contains no jobs".to_owned());
    }
    match op {
        Op::Read => Ok(jobs[0].read),
        Op::Write => Ok(jobs[0].write),
    }
}

/// Name of the `seq`th statistics file of process `pid`.
pub open spec fn output_name_text(pid: u32, seq: u64) -> Seq<char> {
    "iomark-fio-"@ + text::decimal(pid as nat) + "-"@ + text::decimal(seq as nat) + ".json"@
}

/// Name of the `seq`th statistics file of process `pid`.
pub fn output_name(pid: u32, seq: u64) -> (r: String)
    ensures
        r@ == output_name_text(pid, seq),
{
    let mut out = "iomark-fio-".to_owned();
    out.append(decimal_string(pid as u128).as_str());
    out.append("-");
    out.append(decimal_string(seq as u128).as_str());
    out.append(".json");
    out
}

/// No two runs share a statistics file, neither of one process nor of two.
pub proof fn law_output_names_differ(pid: u32, seq: u64, other_pid: u32, other_seq: u64)
    requires
        output_name_text(pid, seq) == output_name_text(other_pid, other_seq),
    ensures
        pid == other_pid && seq == other_seq,
{
    reveal_strlit("iomark-fio-");
    reveal_strlit("-");
    reveal_strlit(".json");
    lemma_output_name_parts(pid, seq);
    lemma_output_name_parts(other_pid, other_seq);
}

/// The two numbers stand on either side of the third dash.
#[verifier::spinoff_prover]
proof fn lemma_output_name_parts(pid: u32, seq: u64)
    ensures
        ({
            let s = output_name_text(pid, seq).skip(11);
            let k = text::find(s, '-');
            let rest = s.skip(k->0 + 1);
            &&& k is Some
            &&& text::number(s.take(k->0)) == pid
            &&& text::number(rest.take(rest.len() - 5)) == seq
        }),
{
    reveal_strlit("iomark-fio-");
    reveal_strlit("-");
    reveal_strlit(".json");
    let p = text::decimal(pid as nat);
    let n = text::decimal(seq as nat);
    text::lemma_decimal(pid as nat);
    text::lemma_decimal(seq as nat);
    let s = output_name_text(pid, seq).skip(11);
    assert(s =~= p + "-"@ + n + ".json"@);
    let k = p.len() as int;
    assert(s[k] == '-');
    assert forall|j: int| 0 <= j < k implies s[j] != '-' by {
        assert(s[j] == p[j]);
        assert(text::is_digit(p[j]));
    }
    text::lemma_find_is(s, '-', 0, k);
    assert(s.take(k) =~= p);
    let rest = s.skip(k + 1);
    assert(rest =~= n + ".json"@);
    assert(rest.take(rest.len() - 5) =~= n);
}

// ---------------------------------------------------------------------------
// Entering the worker

/// The bytes without the zeros among them.
pub open spec fn without_zeros(s: Seq<u8>) -> Seq<u8>
    decreases s.len(),
{
    if s.len() == 0 {
        s
    } else if s.last() == 0 {
        without_zeros(s.drop_last())
    } else {
        without_zeros(s.drop_last()).push(s.last())
    }
}

/// The bytes of an argument as C can hold them: zeros cannot appear in real
/// argv or env values; drop them defensively rather than aborting the worker.
pub fn sanitize(bytes: &[u8]) -> (r: Vec<u8>)
    ensures
        r@ == without_zeros(bytes@),
        forall|i: int| 0 <= i < r@.len() ==> r@[i] != 0,
{
    let mut r: Vec<u8> = Vec::new();
    let mut i: usize = 0;
    assert(bytes@.take(0) =~= Seq::<u8>::empty());
    while i < bytes.len()
        invariant
            i <= bytes.len(),
            r@ == without_zeros(bytes@.take(i as int)),
            forall|j: int| 0 <= j < r@.len() ==> r@[j] != 0,
        decreases bytes.len() - i,
    {
        assert(bytes@.take(i as int + 1).drop_last() =~= bytes@.take(i as int));
        if bytes[i] != 0 {
            r.push(bytes[i]);
        }
        i += 1;
    }
    assert(bytes@.take(i as int) =~= bytes@);
    r
}

/// Bytes without zeros are passed on as they are.
pub proof fn law_ordinary_arguments_are_kept(s: Seq<u8>)
    requires
        forall|i: int| 0 <= i < s.len() ==> s[i] != 0,
    ensures
        without_zeros(s) == s,
    decreases s.len(),
{
    if s.len() > 0 {
        law_ordinary_arguments_are_kept(s.drop_last());
        assert(s.drop_last().push(s.last()) =~= s);
    }
}

/// Zeros are dropped wherever they stand, and nothing else is.
pub proof fn law_only_zeros_are_dropped(a: Seq<u8>, b: Seq<u8>)
    ensures
        without_zeros(a + seq![0u8] + b) == without_zeros(a + b),
        without_zeros(a + b) == without_zeros(a) + without_zeros(b),
    decreases b.len(),
{
    if b.len() == 0 {
        assert(a + b =~= a);
        assert((a + seq![0u8] + b).drop_last() =~= a);
        assert(without_zeros(a) + without_zeros(b) =~= without_zeros(a));
    } else {
        law_only_zeros_are_dropped(a, b.drop_last());
        assert((a + b).drop_last() =~= a + b.drop_last());
        assert((a + seq![0u8] + b).drop_last() =~= a + seq![0u8] + b.drop_last());
        assert((a + b).last() == b.last());
        assert((a + seq![0u8] + b).last() == b.last());
        assert(without_zeros(a + b) =~= without_zeros(a) + without_zeros(b));
    }
}

} // verus!
