//! Several instances of the application on one machine, joined in one call for development.
use vstd::prelude::*;
use crate::digits::{decimal, digits_value, is_digit, push_decimal};
use crate::node::{keys_of, parsed_key, NodeId};
use crate::text::{chars_of, texts};

verus! {

/// How many characters of a session's name are kept.
pub const MAX_SESSION: usize = 48;

/// How often the record of another participant is looked for.
pub const RENDEZVOUS_ATTEMPTS: u32 = 100;

/// How often a record that cannot be read yet is read again.
pub const READ_ATTEMPTS: u32 = 20;

/// How often our own record is tried to be made.
pub const CLAIM_ATTEMPTS: u32 = 4;

// ---------------------------------------------------------------------------
// Session names
// ---------------------------------------------------------------------------

/// Whether a character may stand in a session's name.
pub open spec fn session_char(c: char) -> bool {
    ||| 'a' <= c && c <= 'z'
    ||| 'A' <= c && c <= 'Z'
    ||| '0' <= c && c <= '9'
    ||| c == '-'
    ||| c == '_'
}

/// The characters that may stand in a session's name.
pub open spec fn session_chars(s: Seq<char>) -> Seq<char>
    decreases s.len(),
{
    if s.len() == 0 {
        Seq::empty()
    } else {
        let rest = session_chars(s.drop_last());
        if session_char(s.last()) {
            rest.push(s.last())
        } else {
            rest
        }
    }
}

/// The name of a session as files carry it.
pub open spec fn session_name(value: Seq<char>) -> Seq<char> {
    let kept = session_chars(value);
    if kept.len() == 0 {
        "local"@
    } else if kept.len() <= MAX_SESSION {
        kept
    } else {
        kept.take(MAX_SESSION as int)
    }
}

/// Makes a session's name fit for file names: letters, digits, `-` and `_`, at most 48 of them,
/// and `local` where nothing is left.
pub fn sanitize_session(value: &str) -> (s: String)
    ensures
        s@ == session_name(value@),
{
    let v = chars_of(value);
    let mut s: String = String::new();
    let mut count: usize = 0;
    let mut i: usize = 0;
    assert(s@ =~= Seq::empty());
    while i < v.len() && count < MAX_SESSION
        invariant
            0 <= i <= v@.len(),
            count == s@.len(),
            count <= MAX_SESSION,
            s@ == session_chars(v@.take(i as int)),
        decreases v@.len() - i,
    {
        let c: char = v[i];
        assert(v@.take(i as int + 1).drop_last() =~= v@.take(i as int));
        if ('a' <= c && c <= 'z') || ('A' <= c && c <= 'Z') || ('0' <= c && c <= '9') || c == '-'
            || c == '_' {
            s.push(c);
            count += 1;
        }
        i += 1;
    }
    proof {
        lemma_session_prefix(v@, i as int);
        let kept = session_chars(v@);
        if i == v@.len() {
            assert(v@.take(i as int) =~= v@);
        }
        assert(s@ =~= kept.take(s@.len() as int));
        if s@.len() == kept.len() {
            assert(kept.take(s@.len() as int) =~= kept);
        }
    }
    if count == 0 {
        return "local".to_owned();
    }
    s
}

proof fn lemma_session_prefix(s: Seq<char>, k: int)
    requires
        0 <= k <= s.len(),
    ensures
        session_chars(s.take(k)).len() <= session_chars(s).len(),
        session_chars(s).take(session_chars(s.take(k)).len() as int) == session_chars(s.take(k)),
    decreases s.len(),
{
    if k == s.len() {
        assert(s.take(k) =~= s);
        assert(session_chars(s).take(session_chars(s).len() as int) =~= session_chars(s));
    } else {
        let t = s.drop_last();
        assert(t.take(k) =~= s.take(k));
        lemma_session_prefix(t, k);
        let n = session_chars(s.take(k)).len() as int;
        assert(session_chars(s).take(n) =~= session_chars(t).take(n));
    }
}

proof fn lemma_session_chars(s: Seq<char>)
    ensures
        session_chars(s).len() <= s.len(),
        forall|i: int| 0 <= i < session_chars(s).len() ==> session_char(#[trigger] session_chars(s)[i]),
        (forall|i: int| 0 <= i < s.len() ==> session_char(#[trigger] s[i])) ==> session_chars(s) == s,
    decreases s.len(),
{
    if s.len() > 0 {
        lemma_session_chars(s.drop_last());
        if forall|i: int| 0 <= i < s.len() ==> session_char(#[trigger] s[i]) {
            assert forall|i: int| 0 <= i < s.drop_last().len() implies session_char(
                #[trigger] s.drop_last()[i],
            ) by {
                assert(s.drop_last()[i] == s[i]);
            }
            assert(session_chars(s) =~= s);
        }
    } else {
        assert(session_chars(s) =~= s);
    }
}

/// A session's name is never empty, has at most 48 characters, all of them fit for a file name,
/// and is its own name.
pub proof fn law_session_names_are_safe(value: Seq<char>)
    ensures
        1 <= session_name(value).len() <= MAX_SESSION,
        forall|i: int|
            0 <= i < session_name(value).len() ==> session_char(#[trigger] session_name(value)[i]),
        session_name(session_name(value)) == session_name(value),
{
    reveal_strlit("local");
    lemma_session_chars(value);
    let name = session_name(value);
    assert forall|i: int| 0 <= i < name.len() implies session_char(#[trigger] name[i]) by {
        if session_chars(value).len() > 0 {
            assert(name[i] == session_chars(value)[i]);
        }
    }
    lemma_session_chars(name);
}

// ---------------------------------------------------------------------------
// Numbers
// ---------------------------------------------------------------------------

/// A text without a leading plus sign.
pub open spec fn unsigned_text(s: Seq<char>) -> Seq<char> {
    if s.len() > 0 && s[0] == '+' {
        s.drop_first()
    } else {
        s
    }
}

/// The number that a text writes: digits, after a plus sign if there is one.
pub open spec fn number_in(s: Seq<char>) -> Option<nat> {
    let digits = unsigned_text(s);
    if digits.len() > 0 && forall|i: int| 0 <= i < digits.len() ==> is_digit(#[trigger] digits[i]) {
        Some(digits_value(digits))
    } else {
        None
    }
}

/// The index that a text writes, or zero where it writes none that fits.
pub open spec fn index_in(s: Seq<char>) -> int {
    match number_in(s) {
        Some(n) => if n <= usize::MAX {
            n as int
        } else {
            0
        },
        None => 0,
    }
}

proof fn lemma_digits_grow(s: Seq<char>, k: int)
    requires
        0 <= k <= s.len(),
        forall|i: int| 0 <= i < s.len() ==> is_digit(#[trigger] s[i]),
    ensures
        digits_value(s.take(k)) <= digits_value(s),
    decreases s.len(),
{
    if k == s.len() {
        assert(s.take(k) =~= s);
    } else {
        assert(s.drop_last().take(k) =~= s.take(k));
        assert forall|i: int| 0 <= i < s.drop_last().len() implies is_digit(
            #[trigger] s.drop_last()[i],
        ) by {
            assert(s.drop_last()[i] == s[i]);
        }
        lemma_digits_grow(s.drop_last(), k);
        assert(is_digit(s[s.len() - 1]));
    }
}

/// Reads an index, or zero where the text writes none that fits.
pub fn parse_index(value: &str) -> (n: usize)
    ensures
        n == index_in(value@),
{
    let v = chars_of(value);
    let start: usize = if v.len() > 0 && v[0] == '+' {
        1
    } else {
        0
    };
    let ghost digits = unsigned_text(v@);
    assert(digits =~= v@.skip(start as int));
    if v.len() == start {
        return 0;
    }
    let mut k: usize = start;
    while k < v.len()
        invariant
            start <= k <= v@.len(),
            start <= 1,
            v@ == value@,
            digits == unsigned_text(value@),
            digits == v@.skip(start as int),
            forall|j: int| 0 <= j < k - start ==> is_digit(#[trigger] digits[j]),
        decreases v@.len() - k,
    {
        let c: char = v[k];
        if !('0' <= c && c <= '9') {
            assert(!is_digit(digits[k - start]));
            return 0;
        }
        k += 1;
    }
    let mut n: usize = 0;
    let mut i: usize = start;
    while i < v.len()
        invariant
            start <= i <= v@.len(),
            start <= 1,
            v@ == value@,
            digits == unsigned_text(value@),
            digits == v@.skip(start as int),
            digits.len() > 0,
            forall|j: int| 0 <= j < digits.len() ==> is_digit(#[trigger] digits[j]),
            n == digits_value(digits.take(i - start)),
        decreases v@.len() - i,
    {
        let c: char = v[i];
        proof {
            assert(is_digit(digits[i - start]));
            assert(digits.take(i - start + 1).drop_last() =~= digits.take(i - start));
            lemma_digits_grow(digits, i - start + 1);
        }
        let d: u8 = digit_of(c);
        if n > (usize::MAX - d as usize) / 10 {
            proof {
                assert(10 * n + d > usize::MAX);
            }
            return 0;
        }
        n = n * 10 + d as usize;
        i += 1;
    }
    assert(digits.take(digits.len() as int) =~= digits);
    n
}

fn digit_of(c: char) -> (d: u8)
    requires
        is_digit(c),
    ensures
        d == c as int - 48,
        d < 10,
{
    match c {
        '0' => 0,
        '1' => 1,
        '2' => 2,
        '3' => 3,
        '4' => 4,
        '5' => 5,
        '6' => 6,
        '7' => 7,
        '8' => 8,
        _ => 9,
    }
}

// ---------------------------------------------------------------------------
// Participants
// ---------------------------------------------------------------------------

/// One of several participants on this machine.
#[derive(Debug)]
pub struct DevPairState {
    session: String,
    peer_index: usize,
    owns_record: bool,
}

/// The name of a participant's record.
pub open spec fn record_name(index: nat) -> Seq<char> {
    "peer-"@ + decimal(index) + ".json"@
}

/// The name of a participant's record.
pub fn record_file(index: usize) -> (s: String)
    ensures
        s@ == record_name(index as nat),
{
    let mut s: String = "peer-".to_owned();
    push_decimal(&mut s, index as u64);
    s.append(".json");
    s
}

/// The peers that the records of earlier participants name, but for ourselves; nothing where one
/// of them cannot be read.
pub open spec fn earlier_peers(records: Seq<Seq<char>>, ours: Seq<u8>) -> Option<Seq<Seq<u8>>>
    decreases records.len(),
{
    if records.len() == 0 {
        Some(Seq::empty())
    } else {
        match (earlier_peers(records.drop_last(), ours), parsed_key(records.last())) {
            (Some(rest), Ok(key)) => Some(
                if key != ours {
                    rest.push(key)
                } else {
                    rest
                },
            ),
            _ => None,
        }
    }
}

/// What became of an attempt to make our own record.
#[derive(Clone, Copy, Debug, PartialEq, Eq, Structural)]
pub enum ClaimOutcome {
    Written,
    /// A record is there, of the process with this id, which is alive.
    HeldByLive(u32),
    /// A record is there, of no process that is alive.
    HeldByDead,
    Failed,
}

/// How to go on after an attempt to make our own record.
#[derive(Clone, Copy, Debug, PartialEq, Eq, Structural)]
pub enum ClaimStep {
    Done,
    /// Take the dead record away and try again.
    RemoveAndRetry,
    /// The index is in use by this process.
    InUse(u32),
    /// Take the dead record away; that was the last attempt.
    GiveUp,
    Fail,
}

impl DevPairState {
    pub closed spec fn name(self) -> Seq<char> {
        self.session@
    }

    pub closed spec fn index(self) -> int {
        self.peer_index as int
    }

    pub closed spec fn owns(self) -> bool {
        self.owns_record
    }

    /// A participant of a session.
    pub fn new(session: String, peer_index: usize) -> (s: DevPairState)
        ensures
            s.name() == session@,
            s.index() == peer_index,
            !s.owns(),
    {
        DevPairState { session, peer_index, owns_record: false }
    }

    /// The participant that the environment asks for: a session, and an index that may be
    /// missing.
    pub fn from_env(session: Option<String>, peer_index: Option<String>) -> (r: Option<DevPairState>)
        ensures
            match r {
                Some(s) => session is Some && s.name() == session_name(session->0@) && s.index()
                    == (match peer_index {
                    Some(text) => index_in(text@),
                    None => 0,
                }) && !s.owns(),
                None => session is None,
            },
    {
        match session {
            Some(session) => {
                let index: usize = match &peer_index {
                    Some(text) => parse_index(text.as_str()),
                    None => 0,
                };
                Some(DevPairState::new(sanitize_session(session.as_str()), index))
            },
            None => None,
        }
    }

    /// The session's name.
    pub fn session(&self) -> (s: &str)
        ensures
            s@ == self.name(),
    {
        self.session.as_str()
    }

    /// Which of the participants this is.
    pub fn peer_index(&self) -> (n: usize)
        ensures
            n == self.index(),
    {
        self.peer_index
    }

    /// The name of our own record.
    pub fn own_record(&self) -> (s: String)
        ensures
            s@ == record_name(self.index() as nat),
    {
        record_file(self.peer_index)
    }

    /// The peers to connect to: those that the records of all earlier participants name. Each new
    /// participant connects to all earlier ones, so that every pair is connected once. Gives the
    /// first record that cannot be read, if there is one.
    pub fn register(&self, own_node_id: &NodeId, earlier: &Vec<String>) -> (r: Result<
        Vec<NodeId>,
        usize,
    >)
        ensures
            match r {
                Ok(peers) => earlier_peers(texts(earlier@), own_node_id@) == Some(keys_of(peers@)),
                Err(at) => at < earlier@.len() && parsed_key(earlier@[at as int]@) is Err && (
                forall|j: int| 0 <= j < at ==> parsed_key((#[trigger] earlier@[j])@) is Ok)
                    && earlier_peers(texts(earlier@), own_node_id@) is None,
            },
    {
        let ghost all = texts(earlier@);
        let mut peers: Vec<NodeId> = Vec::new();
        let mut i: usize = 0;
        assert(keys_of(peers@) =~= Seq::empty());
        while i < earlier.len()
            invariant
                0 <= i <= earlier@.len(),
                all == texts(earlier@),
                earlier_peers(all.take(i as int), own_node_id@) == Some(keys_of(peers@)),
                forall|j: int| 0 <= j < i ==> parsed_key((#[trigger] earlier@[j])@) is Ok,
            decreases earlier@.len() - i,
        {
            let ghost before = keys_of(peers@);
            assert(all.take(i as int + 1).drop_last() =~= all.take(i as int));
            match NodeId::parse(earlier[i].as_str()) {
                Ok(peer) => {
                    if !peer.same(own_node_id) {
                        peers.push(peer);
                        assert(keys_of(peers@) =~= before.push(peer@));
                    }
                },
                Err(_) => {
                    proof {
                        lemma_unreadable(all, i as int, own_node_id@);
                    }
                    return Err(i);
                },
            }
            i += 1;
        }
        assert(all.take(earlier@.len() as int) =~= all);
        Ok(peers)
    }

    /// How to go on after attempt number `attempt`, counted from one, to make our own record.
    pub fn claim_step(&mut self, attempt: u32, outcome: ClaimOutcome) -> (step: ClaimStep)
        ensures
            final(self).name() == old(self).name(),
            final(self).index() == old(self).index(),
            final(self).owns() == (old(self).owns() || outcome == ClaimOutcome::Written),
            step == match outcome {
                ClaimOutcome::Written => ClaimStep::Done,
                ClaimOutcome::HeldByLive(pid) => ClaimStep::InUse(pid),
                ClaimOutcome::HeldByDead => if attempt < CLAIM_ATTEMPTS {
                    ClaimStep::RemoveAndRetry
                } else {
                    ClaimStep::GiveUp
                },
                ClaimOutcome::Failed => ClaimStep::Fail,
            },
    {
        match outcome {
            ClaimOutcome::Written => {
                self.owns_record = true;
                ClaimStep::Done
            },
            ClaimOutcome::HeldByLive(pid) => ClaimStep::InUse(pid),
            ClaimOutcome::HeldByDead => if attempt < CLAIM_ATTEMPTS {
                ClaimStep::RemoveAndRetry
            } else {
                ClaimStep::GiveUp
            },
            ClaimOutcome::Failed => ClaimStep::Fail,
        }
    }

    /// The text of the error for an index that is in use.
    pub fn in_use_text(&self, pid: u32) -> (s: String)
        ensures
            s@ == "dev-call participant index "@ + decimal(self.index() as nat)
                + " is already used by process "@ + decimal(pid as nat),
    {
        let mut s: String = "dev-call participant index ".to_owned();
        push_decimal(&mut s, self.peer_index as u64);
        s.append(" is already used by process ");
        push_decimal(&mut s, pid as u64);
        s
    }

    /// The text of the error after the last attempt.
    pub fn give_up_text(&self) -> (s: String)
        ensures
            s@ == "could not register dev-call participant "@ + decimal(self.index() as nat),
    {
        let mut s: String = "could not register dev-call participant ".to_owned();
        push_decimal(&mut s, self.peer_index as u64);
        s
    }

    /// Whether our record is taken away at the end: only where we made it and it still names our
    /// process.
    pub fn removes_record(&self, recorded_pid: Option<u32>, own_pid: u32) -> (r: bool)
        ensures
            r == (self.owns() && recorded_pid == Some(own_pid)),
    {
        match recorded_pid {
            Some(pid) => self.owns_record && pid == own_pid,
            None => false,
        }
    }
}

proof fn lemma_unreadable(records: Seq<Seq<char>>, at: int, ours: Seq<u8>)
    requires
        0 <= at < records.len(),
        parsed_key(records[at]) is Err,
    ensures
        earlier_peers(records, ours) is None,
    decreases records.len(),
{
    if at < records.len() - 1 {
        assert(records.drop_last()[at] == records[at]);
        lemma_unreadable(records.drop_last(), at, ours);
    }
}

/// What reading a record gave.
#[derive(Clone, Copy, Debug, PartialEq, Eq, Structural)]
pub enum RecordRead {
    Record,
    /// It is there but cannot be understood, perhaps because it is being written.
    Unfinished,
    Missing,
    Failed,
}

/// How to go on after a record was read.
#[derive(Clone, Copy, Debug, PartialEq, Eq, Structural)]
pub enum ReadStep {
    Take,
    /// Wait and read again.
    Again,
    Nothing,
    Fail,
}

/// How to go on after read number `attempt`, counted from one.
pub fn read_step(attempt: u32, read: RecordRead) -> (step: ReadStep)
    ensures
        step == match read {
            RecordRead::Record => ReadStep::Take,
            RecordRead::Unfinished => if attempt < READ_ATTEMPTS {
                ReadStep::Again
            } else {
                ReadStep::Nothing
            },
            RecordRead::Missing => ReadStep::Nothing,
            RecordRead::Failed => ReadStep::Fail,
        },
{
    match read {
        RecordRead::Record => ReadStep::Take,
        RecordRead::Unfinished => if attempt < READ_ATTEMPTS {
            ReadStep::Again
        } else {
            ReadStep::Nothing
        },
        RecordRead::Missing => ReadStep::Nothing,
        RecordRead::Failed => ReadStep::Fail,
    }
}

/// How to go on after look number `attempt`, counted from one, for the record of another
/// participant; `alive` says whether a record was found and its process is alive.
pub fn wait_step(attempt: u32, alive: bool) -> (step: ReadStep)
    ensures
        step == if alive {
            ReadStep::Take
        } else if attempt < RENDEZVOUS_ATTEMPTS {
            ReadStep::Again
        } else {
            ReadStep::Fail
        },
{
    if alive {
        ReadStep::Take
    } else if attempt < RENDEZVOUS_ATTEMPTS {
        ReadStep::Again
    } else {
        ReadStep::Fail
    }
}

/// Every pair of participants is connected exactly once: of two, the later one lists the
/// earlier, and the earlier does not list the later.
pub proof fn law_participants_form_a_full_mesh(
    keys: Seq<Seq<u8>>,
    texts_of: Seq<Seq<char>>,
    a: int,
    b: int,
)
    requires
        0 <= a < b < keys.len(),
        texts_of.len() == keys.len(),
        forall|i: int|
            0 <= i < keys.len() ==> parsed_key(#[trigger] texts_of[i]) == Ok::<Seq<u8>, Seq<char>>(
                keys[i],
            ),
        forall|i: int, j: int| 0 <= i < j < keys.len() ==> keys[i] != keys[j],
    ensures
        earlier_peers(texts_of.take(b), keys[b]) is Some,
        earlier_peers(texts_of.take(b), keys[b])->0.contains(keys[a]),
        earlier_peers(texts_of.take(a), keys[a]) is Some,
        !earlier_peers(texts_of.take(a), keys[a])->0.contains(keys[b]),
{
    lemma_mesh(keys, texts_of, b, b);
    lemma_mesh(keys, texts_of, a, a);
}

proof fn lemma_mesh(keys: Seq<Seq<u8>>, texts_of: Seq<Seq<char>>, n: int, us: int)
    requires
        0 <= n <= us < keys.len(),
        texts_of.len() == keys.len(),
        forall|i: int|
            0 <= i < keys.len() ==> parsed_key(#[trigger] texts_of[i]) == Ok::<Seq<u8>, Seq<char>>(
                keys[i],
            ),
        forall|i: int, j: int| 0 <= i < j < keys.len() ==> keys[i] != keys[j],
    ensures
        earlier_peers(texts_of.take(n), keys[us]) == Some(keys.take(n)),
        forall|k: int| n <= k < keys.len() ==> !keys.take(n).contains(#[trigger] keys[k]),
        forall|k: int| 0 <= k < n ==> keys.take(n).contains(#[trigger] keys[k]),
    decreases n,
{
    if n > 0 {
        lemma_mesh(keys, texts_of, n - 1, us);
        assert(texts_of.take(n).drop_last() =~= texts_of.take(n - 1));
        assert(texts_of.take(n).last() == texts_of[n - 1]);
        assert(keys.take(n) =~= keys.take(n - 1).push(keys[n - 1]));
    } else {
        assert(texts_of.take(0) =~= Seq::empty());
        assert(keys.take(0) =~= Seq::empty());
    }
    assert forall|k: int| n <= k < keys.len() implies !keys.take(n).contains(#[trigger] keys[k]) by {
        if keys.take(n).contains(keys[k]) {
            let i = choose|i: int| 0 <= i < keys.take(n).len() && keys.take(n)[i] == keys[k];
            assert(keys[i] == keys[k]);
        }
    }
    assert forall|k: int| 0 <= k < n implies keys.take(n).contains(#[trigger] keys[k]) by {
        assert(keys.take(n)[k] == keys[k]);
    }
}

/// A name of letters, digits, `-` and `_`, at most 48 of them, is kept as it is.
pub proof fn law_clean_names_stay(value: Seq<char>)
    requires
        1 <= value.len() <= 48,
        forall|i: int|
            0 <= i < value.len() ==> ('a' <= #[trigger] value[i] <= 'z' || 'A' <= value[i] <= 'Z'
                || '0' <= value[i] <= '9' || value[i] == '-' || value[i] == '_'),
    ensures
        session_name(value) == value,
{
    assert forall|i: int| 0 <= i < value.len() implies session_char(#[trigger] value[i]) by {}
    lemma_session_chars(value);
}

/// Characters that may not stand in a name are left out, and all others are kept in their order.
pub proof fn law_odd_characters_are_left_out(s: Seq<char>, c: char)
    ensures
        ({
            let fit = 'a' <= c <= 'z' || 'A' <= c <= 'Z' || '0' <= c <= '9' || c == '-' || c == '_';
            session_chars(s.push(c)) == if fit {
                session_chars(s).push(c)
            } else {
                session_chars(s)
            }
        }),
        session_chars(Seq::empty()).len() == 0,
{
    assert(s.push(c).drop_last() =~= s);
}

} // verus!
