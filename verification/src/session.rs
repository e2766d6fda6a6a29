//! What a session checks before it starts, and how it presents itself.

use vstd::prelude::*;

use crate::cli::Cli;
use crate::disk;
use crate::disk::{human_bytes, human_sum, DiskInfo};
use crate::platform::Platform;
use crate::task::TaskSpec;
use crate::text;
use crate::text::{chars_of, decode_lossy, parse_unsigned, push_decimal, trimmed};

verus! {

/// Space to leave on the volume next to the test file: 64 MiB.
pub const SLACK: u64 = 0x400_0000;

/// The version shown by `--version`: crate version plus embedded fio.
pub open spec fn version_text(own: Seq<char>, fio: Seq<char>) -> Seq<char> {
    own + " ("@ + fio + ")"@
}

/// The version shown by `--version`: crate version plus embedded fio.
pub fn version(own: &str, fio: &str) -> (r: String)
    ensures
        r@ == version_text(own@, fio@),
{
    let mut out = own.to_owned();
    out.append(" (");
    out.append(fio);
    out.append(")");
    out
}

// ---------------------------------------------------------------------------
// Checks

/// Whether the volume cannot take the test file plus some slack.
pub open spec fn lacks_space(d: DiskInfo, size: u64) -> bool {
    d.available < size + SLACK
}

/// What is said of a volume with too little space.
pub open spec fn space_message(d: DiskInfo, size: u64) -> Seq<char> {
    "not enough free space on "@ + d.mount@ + ": "@ + disk::human_text(d.available as nat)
        + " available, "@ + disk::human_text((size + SLACK) as nat) + " needed"@
}

/// The first task whose blocks are larger than the test file.
pub open spec fn oversized(tasks: Seq<TaskSpec>, size: u64) -> Option<TaskSpec>
    decreases tasks.len(),
{
    if tasks.len() == 0 {
        None
    } else if tasks[0].block_size > size {
        Some(tasks[0])
    } else {
        oversized(tasks.skip(1), size)
    }
}

/// What is said of such a task.
pub open spec fn oversized_message(task: TaskSpec, size: u64) -> Seq<char> {
    "--size "@ + disk::human_text(size as nat) + " is smaller than "@ + task.label_text()
        + "'s block size — increase --size or drop the task"@
}

/// Why a session cannot start, if it cannot.
pub open spec fn obstacle(cli: Cli, disk: Option<&DiskInfo>) -> Option<Seq<char>> {
    if disk matches Some(d) && lacks_space(*d, cli.size) {
        Some(space_message(*disk->0, cli.size))
    } else {
        match oversized(cli.tasks@, cli.size) {
            Some(task) => Some(oversized_message(task, cli.size)),
            None => None,
        }
    }
}

fn find_oversized(tasks: &Vec<TaskSpec>, size: u64) -> (r: Option<TaskSpec>)
    ensures
        r == oversized(tasks@, size),
{
    let mut i: usize = 0;
    assert(tasks@.skip(0) =~= tasks@);
    while i < tasks.len()
        invariant
            i <= tasks.len(),
            oversized(tasks@, size) == oversized(tasks@.skip(i as int), size),
        decreases tasks.len() - i,
    {
        assert(tasks@.skip(i as int).skip(1) =~= tasks@.skip(i as int + 1));
        if tasks[i].block_size > size {
            return Some(tasks[i]);
        }
        i += 1;
    }
    None
}

/// Refuses to start a session that would fill the volume `disk`, or that has a
/// task whose blocks do not fit the test file: a 1M-block task cannot run
/// against a 512K file.
pub fn preflight(cli: &Cli, disk: Option<&DiskInfo>) -> (r: Result<(), String>)
    ensures
        match r {
            Ok(_) => obstacle(*cli, disk) is None,
            Err(message) => obstacle(*cli, disk) == Some(message@),
        },
{
    match disk {
        Some(d) => {
            let needed: u128 = cli.size as u128 + SLACK as u128;
            if (d.available as u128) < needed {
                let mut message = "not enough free space on ".to_owned();
                message.append(d.mount.as_str());
                message.append(": ");
                message.append(human_bytes(d.available).as_str());
                message.append(" available, ");
                message.append(human_sum(needed).as_str());
                message.append(" needed");
                return Err(message);
            }
        },
        None => {},
    }
    match find_oversized(&cli.tasks, cli.size) {
        Some(task) => {
            let mut message = "--size ".to_owned();
            message.append(human_bytes(cli.size).as_str());
            message.append(" is smaller than ");
            message.append(task.to_string().as_str());
            message.append("'s block size — increase --size or drop the task");
            Err(message)
        },
        None => Ok(()),
    }
}

/// A session starts only if its file fits the volume with the slack to spare,
/// and every task's blocks fit the file.
pub proof fn law_a_session_that_starts_fits(cli: Cli, disk: Option<&DiskInfo>)
    requires
        obstacle(cli, disk) is None,
    ensures
        disk matches Some(d) ==> d.available >= cli.size + SLACK,
        forall|i: int|
            0 <= i < cli.tasks@.len() ==> (#[trigger] cli.tasks@[i]).block_size <= cli.size,
{
    lemma_none_oversized(cli.tasks@, cli.size);
}

/// A session whose file fits the volume with the slack to spare, if the volume
/// is known, and every block of whose tasks fits the file, starts.
pub proof fn law_a_session_that_fits_starts(cli: Cli, disk: Option<&DiskInfo>)
    requires
        disk matches Some(d) ==> d.available >= cli.size + 64 * 1024 * 1024,
        forall|i: int|
            0 <= i < cli.tasks@.len() ==> (#[trigger] cli.tasks@[i]).block_size <= cli.size,
    ensures
        obstacle(cli, disk) is None,
{
    lemma_all_fit(cli.tasks@, cli.size);
}

proof fn lemma_all_fit(tasks: Seq<TaskSpec>, size: u64)
    requires
        forall|i: int| 0 <= i < tasks.len() ==> (#[trigger] tasks[i]).block_size <= size,
    ensures
        oversized(tasks, size) is None,
    decreases tasks.len(),
{
    if tasks.len() > 0 {
        let rest = tasks.skip(1);
        assert forall|i: int| 0 <= i < rest.len() implies (#[trigger] rest[i]).block_size
            <= size by {
            assert(rest[i] == tasks[i + 1]);
        }
        lemma_all_fit(rest, size);
    }
}

/// A session on a volume that is too full is refused for that, with the mount
/// point, what is free and what is needed; otherwise a session is refused only
/// for the first task whose blocks are too large, by its label.
pub proof fn law_a_refusal_says_why(cli: Cli, disk: Option<&DiskInfo>)
    ensures
        disk matches Some(d) && d.available < cli.size + 64 * 1024 * 1024 ==> obstacle(cli, disk)
            == Some(
            "not enough free space on "@ + disk->0.mount@ + ": "@ + disk::human_text(
                disk->0.available as nat,
            ) + " available, "@ + disk::human_text((cli.size + 64 * 1024 * 1024) as nat)
                + " needed"@,
        ),
        !(disk matches Some(d) && d.available < cli.size + 64 * 1024 * 1024) && obstacle(
            cli,
            disk,
        ) is Some ==> exists|k: int|
            {
                &&& 0 <= k < cli.tasks@.len()
                &&& (#[trigger] cli.tasks@[k]).block_size > cli.size
                &&& forall|i: int|
                    0 <= i < k ==> (#[trigger] cli.tasks@[i]).block_size <= cli.size
                &&& obstacle(cli, disk) == Some(
                    "--size "@ + disk::human_text(cli.size as nat) + " is smaller than "@
                        + cli.tasks@[k].label_text()
                        + "'s block size — increase --size or drop the task"@,
                )
            },
{
    if obstacle(cli, disk) is Some && oversized(cli.tasks@, cli.size) is Some {
        let k = lemma_first_oversized(cli.tasks@, cli.size);
        assert(cli.tasks@[k].block_size > cli.size);
    }
}

proof fn lemma_first_oversized(tasks: Seq<TaskSpec>, size: u64) -> (k: int)
    requires
        oversized(tasks, size) is Some,
    ensures
        0 <= k < tasks.len(),
        tasks[k].block_size > size,
        oversized(tasks, size) == Some(tasks[k]),
        forall|i: int| 0 <= i < k ==> (#[trigger] tasks[i]).block_size <= size,
    decreases tasks.len(),
{
    if tasks[0].block_size > size {
        0
    } else {
        let rest = tasks.skip(1);
        let k = lemma_first_oversized(rest, size);
        assert forall|i: int| 0 <= i < k + 1 implies (#[trigger] tasks[i]).block_size <= size by {
            if i > 0 {
                assert(tasks[i] == rest[i - 1]);
            }
        }
        k + 1
    }
}

proof fn lemma_none_oversized(tasks: Seq<TaskSpec>, size: u64)
    requires
        oversized(tasks, size) is None,
    ensures
        forall|i: int| 0 <= i < tasks.len() ==> (#[trigger] tasks[i]).block_size <= size,
    decreases tasks.len(),
{
    if tasks.len() > 0 {
        lemma_none_oversized(tasks.skip(1), size);
        assert forall|i: int| 0 <= i < tasks.len() implies (#[trigger] tasks[i]).block_size
            <= size by {
            if i > 0 {
                assert(tasks[i] == tasks.skip(1)[i - 1]);
            }
        }
    }
}

// ---------------------------------------------------------------------------
// Platform quirks

/// The per-process POSIX AIO limit that `sysctl` printed; none away from macOS.
pub open spec fn aio_limit_of(platform: Platform, printed: Seq<u8>) -> Option<nat> {
    if platform is MacOs {
        text::unsigned(text::trim(text::utf8_lossy(printed)), u64::MAX as nat)
    } else {
        None
    }
}

/// The per-process POSIX AIO limit on macOS, if discoverable: what `sysctl`
/// printed for it.
pub fn aio_limit(platform: Platform, printed: &[u8]) -> (r: Option<u64>)
    ensures
        aio_limit_of(platform, printed@) == (match r {
            Some(n) => Some(n as nat),
            None => None,
        }),
{
    match platform {
        Platform::MacOs => {
            let chars = chars_of(decode_lossy(printed).as_str());
            parse_unsigned(trimmed(chars.as_slice()), u64::MAX)
        },
        _ => None,
    }
}

/// Whether a task keeps more operations in flight than `limit`.
pub open spec fn exceeds(task: TaskSpec, limit: u64) -> bool {
    task.queue_depth * task.threads > limit
}

/// Whether any task keeps more operations in flight than `limit`.
pub open spec fn any_exceeds(tasks: Seq<TaskSpec>, limit: u64) -> bool {
    exists|i: int| 0 <= i < tasks.len() && exceeds(#[trigger] tasks[i], limit)
}

/// What is said of the limit.
pub open spec fn aio_warning(limit: u64) -> Seq<char> {
    "macOS caps in-flight POSIX AIO at "@ + text::decimal(limit as nat)
        + " per process (kern.aioprocmax); deeper queues run effectively shallower"@
}

/// A limit is exceeded exactly when some task keeps more than that many
/// operations in flight: its queue depth in each of its threads.
pub proof fn law_deep_queues_exceed_the_limit(tasks: Seq<TaskSpec>, limit: u64)
    ensures
        any_exceeds(tasks, limit) <==> !(forall|i: int|
            0 <= i < tasks.len() ==> (#[trigger] tasks[i]).queue_depth as int
                * tasks[i].threads as int <= limit),
{
    if any_exceeds(tasks, limit) {
        let i = choose|i: int| 0 <= i < tasks.len() && exceeds(#[trigger] tasks[i], limit);
        assert(tasks[i].queue_depth as int * tasks[i].threads as int > limit);
    } else {
        assert forall|i: int| 0 <= i < tasks.len() implies (#[trigger] tasks[i]).queue_depth as int
            * tasks[i].threads as int <= limit by {
            assert(!exceeds(tasks[i], limit));
        }
    }
}

/// The limit is the number that was printed, on macOS and nowhere else.
pub proof fn law_the_limit_is_the_printed_number(
    platform: Platform,
    printed: Seq<u8>,
    n: u64,
    before: Seq<char>,
    after: Seq<char>,
)
    requires
        text::utf8_lossy(printed) == before + text::decimal(n as nat) + after,
        forall|i: int| 0 <= i < before.len() ==> text::is_white_space(#[trigger] before[i]),
        forall|i: int| 0 <= i < after.len() ==> text::is_white_space(#[trigger] after[i]),
    ensures
        aio_limit_of(platform, printed) == (if platform is MacOs {
            Some(n as nat)
        } else {
            None
        }),
{
    let s = text::decimal(n as nat);
    text::lemma_decimal(n as nat);
    assert(text::is_digit(s[0]) && text::is_digit(s[s.len() - 1]));
    text::law_trimming_takes_white_space_only(before, s, after);
}

/// Platform quirks worth surfacing next to the results.
pub fn platform_warnings(tasks: &Vec<TaskSpec>, limit: Option<u64>) -> (r: Vec<String>)
    ensures
        text::texts(r@) == (match limit {
            Some(n) => if any_exceeds(tasks@, n) {
                seq![aio_warning(n)]
            } else {
                Seq::empty()
            },
            None => Seq::empty(),
        }),
{
    let mut warnings: Vec<String> = Vec::new();
    match limit {
        Some(n) => {
            let mut i: usize = 0;
            while i < tasks.len()
                invariant
                    i <= tasks.len(),
                    warnings@.len() == 0,
                    limit == Some(n),
                    forall|j: int| 0 <= j < i ==> !exceeds(#[trigger] tasks@[j], n),
                decreases tasks.len() - i,
            {
                let task = tasks[i];
                proof {
                    assert(task.queue_depth * task.threads <= 0xffff_ffff * 0xffff_ffff)
                        by (nonlinear_arith)
                        requires
                            task.queue_depth <= 0xffff_ffff,
                            task.threads <= 0xffff_ffff,
                    ;
                }
                if task.queue_depth as u64 * task.threads as u64 > n {
                    assert(exceeds(tasks@[i as int], n));
                    let mut message = "macOS caps in-flight POSIX AIO at ".to_owned();
                    push_decimal(&mut message, n as u128);
                    message.append(
                        " per process (kern.aioprocmax); deeper queues run effectively shallower",
                    );
                    warnings.push(message);
                    assert(text::texts(warnings@) =~= seq![aio_warning(n)]);
                    return warnings;
                }
                i += 1;
            }
        },
        None => {},
    }
    assert(text::texts(warnings@) =~= Seq::empty());
    warnings
}

// ---------------------------------------------------------------------------
// Presentation

/// Whether a session is shown interactively: in a terminal that also takes
/// keys, and not where NDJSON owns stdout. Being attached to a terminal is not
/// enough; where no key can be read the plain renderer is used.
pub fn interactive(
    json: bool,
    stdout_is_terminal: bool,
    stdin_is_terminal: bool,
    input_available: bool,
) -> (r: bool)
    ensures
        r == (!json && stdout_is_terminal && stdin_is_terminal && input_available),
{
    !json && stdout_is_terminal && stdin_is_terminal && input_available
}

/// The version is the program's and, in brackets, fio's; the warning states the
/// limit.
pub proof fn law_version_and_limit_are_shown(own: Seq<char>, fio: Seq<char>, limit: u64)
    ensures
        version_text(own, fio) == own + " ("@ + fio + ")"@,
        aio_warning(limit) == "macOS caps in-flight POSIX AIO at "@ + text::decimal(limit as nat)
            + " per process (kern.aioprocmax); deeper queues run effectively shallower"@,
{
}

} // verus!
