//! How the program is launched: its arguments, and the files that its log goes to.
use vstd::prelude::*;
use crate::dev_pair::{index_in, parse_index, sanitize_session, session_name, unsigned_text};
use crate::digits::{decimal, is_digit, lemma_decimal_is_read_back, push_decimal};
use crate::text::{chars_of, push_chars, same_text, texts};

verus! {

/// How many instances take part in a development call.
pub const DEV_CALL_PARTICIPANTS: usize = 3;

/// How many bytes a log may hold.
pub const MAX_LOG_BYTES: u64 = 33_554_432;

/// A log of more bytes than this has run away.
pub const RUNAWAY_LOG_BYTES: u64 = 67_108_864;

/// After this long a log is no longer in use.
pub const STALE_LOG_AGE_MS: u64 = 600_000;

// ---------------------------------------------------------------------------
// Beginnings and ends of texts
// ---------------------------------------------------------------------------

/// Whether a text begins with another.
pub open spec fn begins_with(s: Seq<char>, start: Seq<char>) -> bool {
    start.len() <= s.len() && s.take(start.len() as int) == start
}

/// Whether a text ends with another.
pub open spec fn ends_with(s: Seq<char>, end: Seq<char>) -> bool {
    end.len() <= s.len() && s.skip(s.len() - end.len()) == end
}

/// What follows `start` in a text that begins with it.
pub fn after(s: &str, start: &str) -> (r: Option<String>)
    ensures
        match r {
            Some(rest) => begins_with(s@, start@) && rest@ == s@.skip(start@.len() as int),
            None => !begins_with(s@, start@),
        },
{
    let a = chars_of(s);
    let b = chars_of(start);
    if b.len() > a.len() {
        return None;
    }
    let mut i: usize = 0;
    while i < b.len()
        invariant
            0 <= i <= b@.len() <= a@.len(),
            a@ == s@,
            b@ == start@,
            forall|j: int| 0 <= j < i ==> a@[j] == b@[j],
        decreases b@.len() - i,
    {
        if a[i] != b[i] {
            assert(s@.take(start@.len() as int)[i as int] != start@[i as int]);
            return None;
        }
        i += 1;
    }
    assert(s@.take(start@.len() as int) =~= start@);
    let mut rest: String = String::new();
    push_chars(&mut rest, &a, b.len(), a.len());
    assert(rest@ =~= s@.skip(start@.len() as int));
    Some(rest)
}

/// Whether a text ends with `end`.
pub fn has_end(s: &str, end: &str) -> (r: bool)
    ensures
        r == ends_with(s@, end@),
{
    let a = chars_of(s);
    let b = chars_of(end);
    if b.len() > a.len() {
        return false;
    }
    let shift: usize = a.len() - b.len();
    let mut i: usize = 0;
    while i < b.len()
        invariant
            0 <= i <= b@.len() <= a@.len(),
            shift == a@.len() - b@.len(),
            a@.len() <= usize::MAX,
            a@ == s@,
            b@ == end@,
            forall|j: int| 0 <= j < i ==> a@[shift + j] == b@[j],
        decreases b@.len() - i,
    {
        if a[shift + i] != b[i] {
            assert(s@.skip(shift as int)[i as int] != end@[i as int]);
            return false;
        }
        i += 1;
    }
    assert(s@.skip(shift as int) =~= end@);
    true
}

// ---------------------------------------------------------------------------
// Arguments
// ---------------------------------------------------------------------------

/// What the arguments ask for.
#[derive(Debug)]
pub struct LaunchConfig {
    pub dev_pair_session: Option<String>,
    pub dev_peer_index: usize,
    pub dev_auto_share: bool,
}

/// What the arguments ask for, as a value.
pub struct LaunchView {
    pub session: Option<Seq<char>>,
    pub index: int,
    pub auto_share: bool,
}

impl View for LaunchConfig {
    type V = LaunchView;

    open spec fn view(&self) -> LaunchView {
        LaunchView {
            session: match self.dev_pair_session {
                Some(s) => Some(s@),
                None => None,
            },
            index: self.dev_peer_index as int,
            auto_share: self.dev_auto_share,
        }
    }
}

/// Whether an argument can be the name of a session: it does not look like an option.
pub open spec fn is_value(argument: Seq<char>) -> bool {
    !begins_with(argument, "-"@)
}

/// How many arguments the first one takes up: a session's name may follow `--dev-pair`.
pub open spec fn taken(args: Seq<Seq<char>>) -> int {
    if args[0] == "--dev-pair"@ && args.len() > 1 && is_value(args[1]) {
        2
    } else {
        1
    }
}

/// What the first argument changes.
pub open spec fn with_argument(before: LaunchView, args: Seq<Seq<char>>, pid: nat) -> LaunchView {
    let a = args[0];
    if a == "--dev-child"@ {
        LaunchView { index: 1, ..before }
    } else if begins_with(a, "--dev-peer-index="@) {
        LaunchView { index: index_in(a.skip("--dev-peer-index="@.len() as int)), ..before }
    } else if a == "--dev-auto-share"@ {
        LaunchView { auto_share: true, ..before }
    } else if begins_with(a, "--dev-pair="@) {
        LaunchView {
            session: Some(session_name(a.skip("--dev-pair="@.len() as int))),
            ..before
        }
    } else if a == "--dev-pair"@ {
        LaunchView {
            session: Some(
                if taken(args) == 2 {
                    session_name(args[1])
                } else {
                    session_name("local-"@ + decimal(pid))
                },
            ),
            ..before
        }
    } else {
        before
    }
}

/// What all the arguments ask for: later ones win, unknown ones change nothing.
pub open spec fn launch_of(before: LaunchView, args: Seq<Seq<char>>, pid: nat) -> LaunchView
    decreases args.len(),
{
    if args.len() == 0 {
        before
    } else {
        launch_of(with_argument(before, args, pid), args.skip(taken(args)), pid)
    }
}

/// What a program without arguments does.
pub open spec fn plain_launch() -> LaunchView {
    LaunchView { session: None, index: 0, auto_share: false }
}

impl LaunchConfig {
    /// Reads the arguments, without the program's own name. A session that is not named is
    /// called after the process.
    pub fn from_args(args: &Vec<String>, pid: u32) -> (r: LaunchConfig)
        ensures
            r@ == launch_of(plain_launch(), texts(args@), pid as nat),
    {
        let ghost all = texts(args@);
        let mut config = LaunchConfig {
            dev_pair_session: None,
            dev_peer_index: 0,
            dev_auto_share: false,
        };
        let mut i: usize = 0;
        assert(all.skip(0) =~= all);
        while i < args.len()
            invariant
                0 <= i <= args@.len(),
                all == texts(args@),
                all.len() == args@.len(),
                launch_of(plain_launch(), all, pid as nat) == launch_of(
                    config@,
                    all.skip(i as int),
                    pid as nat,
                ),
            decreases args@.len() - i,
        {
            let ghost before = config@;
            let ghost rest = all.skip(i as int);
            let argument = args[i].as_str();
            assert(rest[0] == argument@);
            let mut next: usize = i + 1;
            if same_text(argument, "--dev-child") {
                config.dev_peer_index = 1;
            } else {
                match after(argument, "--dev-peer-index=") {
                    Some(value) => {
                        config.dev_peer_index = parse_index(value.as_str());
                    },
                    None => {
                        if same_text(argument, "--dev-auto-share") {
                            config.dev_auto_share = true;
                        } else {
                            match after(argument, "--dev-pair=") {
                                Some(value) => {
                                    config.dev_pair_session = Some(
                                        sanitize_session(value.as_str()),
                                    );
                                },
                                None => {
                                    if same_text(argument, "--dev-pair") {
                                        let named = i + 1 < args.len() && after(
                                            args[i + 1].as_str(),
                                            "-",
                                        ).is_none();
                                        if named {
                                            assert(rest[1] == all[i + 1]);
                                            config.dev_pair_session = Some(
                                                sanitize_session(args[i + 1].as_str()),
                                            );
                                            next = i + 2;
                                        } else {
                                            proof {
                                                if rest.len() > 1 {
                                                    assert(rest[1] == all[i + 1]);
                                                }
                                            }
                                            let mut name: String = "local-".to_owned();
                                            push_decimal(&mut name, pid as u64);
                                            config.dev_pair_session = Some(
                                                sanitize_session(name.as_str()),
                                            );
                                        }
                                    }
                                },
                            }
                        }
                    },
                }
            }
            proof {
                lemma_options_differ();
                assert(next == i + taken(rest));
                assert(config@ == with_argument(before, rest, pid as nat));
                assert(rest.skip(taken(rest)) =~= all.skip(next as int));
            }
            i = next;
        }
        assert(all.skip(args@.len() as int) =~= Seq::empty());
        config
    }

    /// The participants that this instance starts: all the others, where it is the first of a
    /// development call.
    pub fn peers_to_start(&self) -> (peers: Vec<usize>)
        ensures
            peers@ == if self@.session is Some && self@.index == 0 {
                Seq::new((DEV_CALL_PARTICIPANTS - 1) as nat, |i: int| (i + 1) as usize)
            } else {
                Seq::empty()
            },
    {
        let mut peers: Vec<usize> = Vec::new();
        if self.dev_pair_session.is_some() && self.dev_peer_index == 0 {
            let mut i: usize = 1;
            while i < DEV_CALL_PARTICIPANTS
                invariant
                    1 <= i <= DEV_CALL_PARTICIPANTS,
                    peers@ == Seq::new((i - 1) as nat, |i: int| (i + 1) as usize),
                decreases DEV_CALL_PARTICIPANTS - i,
            {
                peers.push(i);
                i += 1;
            }
        }
        peers
    }

    /// Whether this instance shares its screen by itself: only the first participant does.
    pub fn shares_by_itself(&self) -> (r: bool)
        ensures
            r == (self@.auto_share && self@.index == 0),
    {
        self.dev_auto_share && self.dev_peer_index == 0
    }
}

proof fn lemma_options_differ()
    ensures
        "--dev-child"@ != "--dev-pair"@,
        "--dev-auto-share"@ != "--dev-pair"@,
        !begins_with("--dev-pair"@, "--dev-peer-index="@),
        !begins_with("--dev-pair"@, "--dev-pair="@),
{
    reveal_strlit("--dev-child");
    reveal_strlit("--dev-pair");
    reveal_strlit("--dev-auto-share");
    reveal_strlit("--dev-peer-index=");
    reveal_strlit("--dev-pair=");
    assert("--dev-child"@.len() != "--dev-pair"@.len());
    assert("--dev-auto-share"@.len() != "--dev-pair"@.len());
}

/// The arguments that a started participant is given: it reads back its session and its index.
pub fn peer_arguments(session: &str, peer_index: usize) -> (args: Vec<String>)
    ensures
        texts(args@) == seq![
            "--dev-pair"@,
            session@,
            "--dev-peer-index="@ + decimal(peer_index as nat),
        ],
{
    let mut args: Vec<String> = Vec::new();
    args.push("--dev-pair".to_owned());
    args.push(session.to_owned());
    let mut index: String = "--dev-peer-index=".to_owned();
    push_decimal(&mut index, peer_index as u64);
    args.push(index);
    assert(texts(args@) =~= seq![
        "--dev-pair"@,
        session@,
        "--dev-peer-index="@ + decimal(peer_index as nat),
    ]);
    args
}

/// A started participant reads its session and its index out of its arguments, where the
/// session's name does not look like an option.
pub proof fn law_started_peers_know_their_place(session: Seq<char>, index: nat, pid: nat)
    requires
        is_value(session),
        index <= usize::MAX,
    ensures
        launch_of(
            plain_launch(),
            seq!["--dev-pair"@, session, "--dev-peer-index="@ + decimal(index)],
            pid,
        ) == (LaunchView {
            session: Some(session_name(session)),
            index: index as int,
            auto_share: false,
        }),
{
    let option = "--dev-peer-index="@;
    let last = option + decimal(index);
    let args = seq!["--dev-pair"@, session, last];
    lemma_options_differ();
    lemma_decimal_is_read_back(index);
    reveal_strlit("--dev-child");
    reveal_strlit("--dev-peer-index=");
    reveal_strlit("--dev-pair");
    assert(last.take(option.len() as int) =~= option);
    assert(last.skip(option.len() as int) =~= decimal(index));
    assert(last[6] == 'p' && "--dev-child"@[6] == 'c') by {
        assert(option[6] == 'p');
    }
    assert(last[8] == 'e' && "--dev-pair"@[8] == 'i');
    assert(is_digit(decimal(index)[0]));
    assert(unsigned_text(decimal(index)) == decimal(index));
    let rest = args.skip(2);
    assert(rest =~= seq![last]);
    assert(rest.skip(1) =~= Seq::empty());
    reveal_with_fuel(launch_of, 3);
}

/// The name of the directory that a participant keeps its state in.
pub fn config_directory(peer_index: usize) -> (s: String)
    ensures
        s@ == "config-peer-"@ + decimal(peer_index as nat),
{
    let mut s: String = "config-peer-".to_owned();
    push_decimal(&mut s, peer_index as u64);
    s
}

// ---------------------------------------------------------------------------
// Logs
// ---------------------------------------------------------------------------

/// The name of a process's log.
pub open spec fn log_name(session: Option<Seq<char>>, index: int, pid: nat) -> Seq<char> {
    match session {
        Some(name) => "wire-app-dev-"@ + name + "-"@ + (if index == 0 {
            "host"@
        } else {
            "peer-"@ + decimal(index as nat)
        }) + "-"@ + decimal(pid) + ".log"@,
        None => "wire-app-"@ + decimal(pid) + ".log"@,
    }
}

/// The name of a process's log.
pub fn log_file_name(launch: &LaunchConfig, pid: u32) -> (s: String)
    ensures
        s@ == log_name(launch@.session, launch@.index, pid as nat),
{
    match &launch.dev_pair_session {
        Some(name) => {
            let mut s: String = "wire-app-dev-".to_owned();
            s.append(name.as_str());
            s.append("-");
            let mut place: String = "host".to_owned();
            if launch.dev_peer_index != 0 {
                place = "peer-".to_owned();
                push_decimal(&mut place, launch.dev_peer_index as u64);
            }
            s.append(place.as_str());
            s.append("-");
            push_decimal(&mut s, pid as u64);
            s.append(".log");
            s
        },
        None => {
            let mut s: String = "wire-app-".to_owned();
            push_decimal(&mut s, pid as u64);
            s.append(".log");
            s
        },
    }
}

/// Whether a file is an abandoned log that has grown too large; `age_ms` is how long ago it was
/// written, where that is known.
pub fn is_runaway_log(name: &str, bytes: u64, age_ms: Option<u64>) -> (r: bool)
    ensures
        r == (begins_with(name@, "wire-app"@) && ends_with(name@, ".log"@) && bytes
            > RUNAWAY_LOG_BYTES && age_ms is Some && age_ms->0 >= STALE_LOG_AGE_MS),
{
    let stale = match age_ms {
        Some(age) => age >= STALE_LOG_AGE_MS,
        None => false,
    };
    after(name, "wire-app").is_some() && has_end(name, ".log") && bytes > RUNAWAY_LOG_BYTES && stale
}

/// How much of a log has been written, and whether it is closed.
#[derive(Clone, Copy, Debug, PartialEq, Eq, Structural)]
pub struct LogCap {
    pub written: u64,
    pub capped: bool,
}

/// What becomes of some bytes for the log.
#[derive(Clone, Copy, Debug, PartialEq, Eq, Structural)]
pub struct LogStep {
    /// How many of them are written.
    pub accepted: usize,
    /// Whether the closing line is written after them.
    pub mark: bool,
}

/// How many of some bytes fit.
pub open spec fn fitting(cap: LogCap, len: nat) -> nat {
    if cap.capped || cap.written >= MAX_LOG_BYTES {
        0
    } else if len <= MAX_LOG_BYTES - cap.written {
        len
    } else {
        (MAX_LOG_BYTES - cap.written) as nat
    }
}

impl LogCap {
    /// A log that already holds some bytes.
    pub fn new(written: u64) -> (c: LogCap)
        ensures
            c == (LogCap { written, capped: false }),
    {
        LogCap { written, capped: false }
    }

    /// Decides on bytes for the log. What no longer fits is dropped, and the closing line is
    /// written once.
    pub fn offer(&mut self, len: usize) -> (step: LogStep)
        ensures
            step.accepted == fitting(*old(self), len as nat),
            step.mark == (!old(self).capped && (fitting(*old(self), len as nat) < len
                || old(self).written >= MAX_LOG_BYTES)),
            final(self).written == old(self).written + step.accepted,
            final(self).capped == (old(self).capped || step.mark),
    {
        if self.capped {
            return LogStep { accepted: 0, mark: false };
        }
        if self.written >= MAX_LOG_BYTES {
            self.capped = true;
            return LogStep { accepted: 0, mark: true };
        }
        let remaining: u64 = MAX_LOG_BYTES - self.written;
        if len as u64 <= remaining {
            self.written = self.written + len as u64;
            LogStep { accepted: len, mark: false }
        } else {
            let accepted: usize = remaining as usize;
            self.written = MAX_LOG_BYTES;
            self.capped = true;
            LogStep { accepted, mark: true }
        }
    }
}

/// The state of a log after some writes.
pub open spec fn after_writes(cap: LogCap, lens: Seq<nat>) -> LogCap
    decreases lens.len(),
{
    if lens.len() == 0 {
        cap
    } else {
        let before = after_writes(cap, lens.drop_last());
        let accepted = fitting(before, lens.last());
        LogCap {
            written: (before.written + accepted) as u64,
            capped: before.capped || accepted < lens.last() || before.written >= MAX_LOG_BYTES,
        }
    }
}

/// However much is written to a new log, it never holds more than its cap, and nothing is
/// written to it once it is closed.
pub proof fn law_log_stays_under_its_cap(cap: LogCap, lens: Seq<nat>)
    requires
        cap.written <= MAX_LOG_BYTES,
    ensures
        after_writes(cap, lens).written <= MAX_LOG_BYTES,
        cap.capped ==> after_writes(cap, lens) == cap,
    decreases lens.len(),
{
    if lens.len() > 0 {
        law_log_stays_under_its_cap(cap, lens.drop_last());
    }
}

/// Whatever fits into an open log, of at most 32 MiB, is written whole; a closed log takes
/// nothing.
pub proof fn law_log_drops_only_what_does_not_fit(cap: LogCap, len: nat)
    ensures
        !cap.capped && cap.written + len <= 33_554_432 && cap.written < 33_554_432 ==> fitting(
            cap,
            len,
        ) == len,
        cap.capped ==> fitting(cap, len) == 0,
        fitting(cap, len) <= len,
        cap.written <= 33_554_432 ==> cap.written + fitting(cap, len) <= 33_554_432,
        !cap.capped && cap.written <= 33_554_432 && cap.written + len > 33_554_432 ==> cap.written
            + fitting(cap, len) == 33_554_432,
{
}

/// Arguments that are no options of a development call change nothing.
pub proof fn law_other_arguments_change_nothing(
    before: LaunchView,
    args: Seq<Seq<char>>,
    pid: nat,
)
    requires
        forall|i: int| 0 <= i < args.len() ==> !begins_with(#[trigger] args[i], "--dev-"@),
    ensures
        launch_of(before, args, pid) == before,
    decreases args.len(),
{
    if args.len() > 0 {
        let a = args[0];
        assert(!begins_with(a, "--dev-"@));
        reveal_strlit("--dev-");
        reveal_strlit("--dev-child");
        reveal_strlit("--dev-peer-index=");
        reveal_strlit("--dev-auto-share");
        reveal_strlit("--dev-pair=");
        reveal_strlit("--dev-pair");
        let start = "--dev-"@;
        assert("--dev-child"@.take(6) =~= start);
        assert("--dev-peer-index="@.take(6) =~= start);
        assert("--dev-auto-share"@.take(6) =~= start);
        assert("--dev-pair="@.take(6) =~= start);
        assert("--dev-pair"@.take(6) =~= start);
        if begins_with(a, "--dev-peer-index="@) {
            assert(a.take(6) =~= a.take("--dev-peer-index="@.len() as int).take(6));
        }
        if begins_with(a, "--dev-pair="@) {
            assert(a.take(6) =~= a.take("--dev-pair="@.len() as int).take(6));
        }
        assert(taken(args) == 1);
        let rest = args.skip(1);
        assert forall|i: int| 0 <= i < rest.len() implies !begins_with(
            #[trigger] rest[i],
            "--dev-"@,
        ) by {
            assert(rest[i] == args[i + 1]);
        }
        law_other_arguments_change_nothing(before, rest, pid);
    }
}

/// Only the option for it makes the first participant share by itself, and no later argument
/// takes it back.
pub proof fn law_sharing_is_asked_for(before: LaunchView, args: Seq<Seq<char>>, pid: nat)
    ensures
        before.auto_share ==> launch_of(before, args, pid).auto_share,
        launch_of(before, args, pid).auto_share ==> before.auto_share || args.contains(
            "--dev-auto-share"@,
        ),
    decreases args.len(),
{
    if args.len() > 0 {
        let rest = args.skip(taken(args));
        law_sharing_is_asked_for(with_argument(before, args, pid), rest, pid);
        assert(args[0] == args.first());
        if rest.contains("--dev-auto-share"@) {
            let i = choose|i: int| 0 <= i < rest.len() && rest[i] == "--dev-auto-share"@;
            assert(args[i + taken(args)] == "--dev-auto-share"@);
        }
    }
}

/// A text begins with its beginning and ends with its end, and with itself.
pub proof fn law_texts_begin_and_end_with_their_parts(start: Seq<char>, end: Seq<char>)
    ensures
        begins_with(start + end, start),
        ends_with(start + end, end),
        begins_with(start, start),
        ends_with(end, end),
        start.len() > 0 ==> !begins_with(start.drop_last(), start),
        end.len() > 0 ==> !ends_with(end.drop_last(), end),
{
    assert((start + end).take(start.len() as int) == start);
    assert((start + end).skip(start.len() as int) == end);
    assert(start.take(start.len() as int) == start);
    assert(end.skip(0) == end);
}

/// What stands behind a flag is its value unless it begins with a dash.
pub proof fn law_values_do_not_begin_with_a_dash(argument: Seq<char>)
    ensures
        is_value(argument) <==> argument.len() == 0 || argument[0] != '-',
{
    reveal_strlit("-");
    if argument.len() > 0 && argument[0] == '-' {
        assert(argument.take(1) == "-"@);
    }
    if begins_with(argument, "-"@) {
        assert(argument.take(1)[0] == argument[0]);
    }
}

} // verus!
