//! Which streams are shown, which are paused, and what is offered on them.
use vstd::prelude::*;
use crate::calls::{
    held, presentable, same_source, some_call, stop_sharing_command, CallDesk, CallEffect, CallState, Command,
    DeskView, FrameInfo, FrameShape, SourceView, Sound, StreamSource, StreamViewMode,
};
use crate::contacts::{display_name_of, Contacts};
use crate::digits::{decimal, push_decimal};
use crate::node::{keys_of, NodeId};
use crate::text::{ellipsize, ellipsized, lemma_held_after_push, lemma_held_or_last, texts};

verus! {

/// The remote streams whose picture can be shown.
pub open spec fn shown_remote(entries: Seq<(NodeId, FrameInfo)>) -> Seq<StreamSource>
    decreases entries.len(),
{
    if entries.len() == 0 {
        Seq::empty()
    } else {
        let rest = shown_remote(entries.drop_last());
        if presentable(entries.last().1) {
            rest.push(StreamSource::Remote(entries.last().0))
        } else {
            rest
        }
    }
}

/// The streams that can be shown: our own first, then those of the peers.
pub open spec fn active_sources(desk: CallDesk) -> Seq<StreamSource> {
    (if desk@.local_ready() {
        seq![StreamSource::Local]
    } else {
        Seq::empty()
    }) + shown_remote(desk.frames.entries@)
}

/// Whether a stream is in a list.
pub open spec fn lists_source(sources: Seq<StreamSource>, source: SourceView) -> bool {
    exists|i: int| 0 <= i < sources.len() && (#[trigger] sources[i])@ == source
}

/// The width and height of a stream's picture, where there is one with both.
pub open spec fn shown_size(desk: DeskView, source: SourceView) -> Option<(u32, u32)> {
    let size = match source {
        SourceView::Local => match desk.preview {
            Some(preview) => Some((preview.width, preview.height)),
            None => None,
        },
        SourceView::Remote(key) => match held(desk.frames, key) {
            Some(frame) => Some((frame.width, frame.height)),
            None => None,
        },
    };
    match size {
        Some(size) => if size.0 > 0 && size.1 > 0 {
            Some(size)
        } else {
            None
        },
        None => None,
    }
}

/// The peers whose newest stream is left unwatched during an active call.
pub open spec fn paused_in(entries: Seq<(NodeId, u64)>, desk: DeskView) -> Seq<NodeId>
    decreases entries.len(),
{
    if entries.len() == 0 {
        Seq::empty()
    } else {
        let rest = paused_in(entries.drop_last(), desk);
        let (node, stopped) = entries.last();
        if held(desk.generations, node@) == Some(stopped) && held(desk.calls, node@) == Some(
            CallState::Active,
        ) {
            rest.push(node)
        } else {
            rest
        }
    }
}

/// Whether a peer's stream is paused when the window goes out of sight: its call has not ended,
/// and it is not left unwatched already.
pub open spec fn is_pausable(desk: DeskView, key: Seq<u8>) -> bool {
    &&& desk.generations.contains_key(key)
    &&& desk.calls.contains_key(key)
    &&& desk.calls[key] != CallState::Aborted
    &&& !desk.stopped.contains_key(key)
}

/// The peers whose streams are paused when the window goes out of sight.
pub open spec fn pausable_in(entries: Seq<(NodeId, u64)>, desk: DeskView) -> Seq<NodeId>
    decreases entries.len(),
{
    if entries.len() == 0 {
        Seq::empty()
    } else {
        let rest = pausable_in(entries.drop_last(), desk);
        if is_pausable(desk, entries.last().0@) {
            rest.push(entries.last().0)
        } else {
            rest
        }
    }
}

/// With the streams of some peers no longer watched.
pub open spec fn unwatched_all(desk: DeskView, keys: Seq<Seq<u8>>) -> DeskView
    decreases keys.len(),
{
    if keys.len() == 0 {
        desk
    } else {
        unwatched_all(desk, keys.drop_last()).unwatched(keys.last())
    }
}

/// With the streams of some peers watched again.
pub open spec fn rewatched_all(desk: DeskView, keys: Seq<Seq<u8>>) -> DeskView
    decreases keys.len(),
{
    if keys.len() == 0 {
        desk
    } else {
        rewatched_all(desk, keys.drop_last()).rewatched(keys.last())
    }
}

/// What the service is told to stop sending.
pub open spec fn pause_commands(desk: DeskView, nodes: Seq<NodeId>) -> Seq<Command> {
    Seq::new(
        nodes.len(),
        |i: int|
            Command::SetWatching {
                node_id: nodes[i],
                generation: desk.generations[nodes[i]@],
                watching: false,
            },
    )
}

/// What the service is told to send again: the streams of active calls that are left unwatched.
pub open spec fn resume_commands(desk: DeskView, nodes: Seq<NodeId>) -> Seq<Command>
    decreases nodes.len(),
{
    if nodes.len() == 0 {
        Seq::empty()
    } else {
        let node = nodes.last();
        let rest = resume_commands(desk, nodes.drop_last());
        let now = rewatched_all(desk, keys_of(nodes.drop_last()));
        if held(desk.calls, node@) == Some(CallState::Active) && now.stopped.contains_key(node@) {
            rest.push(
                Command::SetWatching {
                    node_id: node,
                    generation: now.stopped[node@],
                    watching: true,
                },
            )
        } else {
            rest
        }
    }
}

proof fn lemma_unwatched_frame(desk: DeskView, keys: Seq<Seq<u8>>)
    ensures
        unwatched_all(desk, keys).generations == desk.generations,
        unwatched_all(desk, keys).calls == desk.calls,
    decreases keys.len(),
{
    if keys.len() > 0 {
        lemma_unwatched_frame(desk, keys.drop_last());
    }
}

proof fn lemma_rewatched_frame(desk: DeskView, keys: Seq<Seq<u8>>)
    ensures
        rewatched_all(desk, keys) == (DeskView {
            stopped: rewatched_all(desk, keys).stopped,
            ..desk
        }),
        rewatched_all(desk, keys).stopped.submap_of(desk.stopped),
        forall|key: Seq<u8>| #[trigger]
            rewatched_all(desk, keys).stopped.contains_key(key) <==> desk.stopped.contains_key(key)
                && !keys.contains(key),
    decreases keys.len(),
{
    if keys.len() > 0 {
        let rest = keys.drop_last();
        lemma_rewatched_frame(desk, rest);
        assert forall|key: Seq<u8>| #[trigger]
            rewatched_all(desk, keys).stopped.contains_key(key) <==> desk.stopped.contains_key(key)
                && !keys.contains(key) by {
            if keys.contains(key) {
                let i = choose|i: int| 0 <= i < keys.len() && keys[i] == key;
                if i < rest.len() {
                    assert(rest[i] == key);
                    assert(rest.contains(key));
                }
            } else {
                assert(!rest.contains(key)) by {
                    if rest.contains(key) {
                        let i = choose|i: int| 0 <= i < rest.len() && rest[i] == key;
                        assert(keys[i] == key);
                    }
                }
                assert(keys[keys.len() - 1] != key);
            }
            assert(rewatched_all(desk, rest).stopped.contains_key(key) <==>
                desk.stopped.contains_key(key) && !rest.contains(key));
        }
    } else {
        assert(forall|key: Seq<u8>| !keys.contains(key));
    }
}

impl CallDesk {
    /// The streams that can be shown: our own first, then those of the peers.
    pub fn active_stream_sources(&self) -> (sources: Vec<StreamSource>)
        ensures
            sources@ == active_sources(*self),
    {
        let mut sources: Vec<StreamSource> = Vec::new();
        if self.local_stream_ready() {
            sources.push(StreamSource::Local);
        }
        let ghost first = sources@;
        let ghost all = self.frames.entries@;
        let mut i: usize = 0;
        assert(sources@ =~= first + shown_remote(all.take(0)));
        while i < self.frames.entries.len()
            invariant
                0 <= i <= self.frames.entries@.len(),
                all == self.frames.entries@,
                sources@ == first + shown_remote(all.take(i as int)),
            decreases self.frames.entries@.len() - i,
        {
            let frame = self.frames.entries[i].1;
            assert(all.take(i as int + 1).drop_last() =~= all.take(i as int));
            if frame.width > 0 && frame.height > 0 && frame.has_data {
                sources.push(StreamSource::Remote(self.frames.entries[i].0));
            }
            assert(sources@ =~= first + shown_remote(all.take(i as int + 1)));
            i += 1;
        }
        assert(all.take(all.len() as int) =~= all);
        sources
    }

    /// The streams that the stage shows: the one in focus alone where it can be shown, else all.
    pub fn shown_sources(&self) -> (sources: Vec<StreamSource>)
        ensures
            sources@ == match self.focused {
                Some(focused) => if lists_source(active_sources(*self), focused@) {
                    seq![focused]
                } else {
                    active_sources(*self)
                },
                None => active_sources(*self),
            },
    {
        let sources = self.active_stream_sources();
        match self.focused {
            Some(focused) => {
                let mut i: usize = 0;
                while i < sources.len()
                    invariant
                        0 <= i <= sources@.len(),
                        sources@ == active_sources(*self),
                        self.focused == Some(focused),
                        forall|j: int| 0 <= j < i ==> (#[trigger] sources@[j])@ != focused@,
                    decreases sources@.len() - i,
                {
                    if same_source(&sources[i], &focused) {
                        assert(lists_source(active_sources(*self), focused@));
                        let mut alone: Vec<StreamSource> = Vec::new();
                        alone.push(focused);
                        assert(alone@ =~= seq![focused]);
                        return alone;
                    }
                    i += 1;
                }
                sources
            },
            None => sources,
        }
    }

    /// The peers whose newest stream is left unwatched.
    pub fn stopped_stream_nodes(&self) -> (nodes: Vec<NodeId>)
        requires
            self.wf(),
        ensures
            nodes@ == paused_in(self.stopped.entries@, self@),
    {
        let mut nodes: Vec<NodeId> = Vec::new();
        let ghost all = self.stopped.entries@;
        let mut i: usize = 0;
        assert(nodes@ =~= paused_in(all.take(0), self@));
        while i < self.stopped.entries.len()
            invariant
                0 <= i <= self.stopped.entries@.len(),
                self.wf(),
                all == self.stopped.entries@,
                nodes@ == paused_in(all.take(i as int), self@),
            decreases self.stopped.entries@.len() - i,
        {
            let (node, stopped) = self.stopped.entries[i];
            assert(all.take(i as int + 1).drop_last() =~= all.take(i as int));
            let newest = match self.generations.get(&node) {
                Some(generation) => *generation == stopped,
                None => false,
            };
            if newest && self.call_state(&node) == Some(CallState::Active) {
                nodes.push(node);
            }
            i += 1;
        }
        assert(all.take(all.len() as int) =~= all);
        nodes
    }

    /// Pauses the streams of all peers when the window goes out of sight; gives the peers, to be
    /// resumed later, and what the service is told.
    pub fn pause_remote_video_for_hidden_window(&mut self) -> (r: (Vec<NodeId>, Vec<Command>))
        requires
            old(self).wf(),
        ensures
            final(self).wf(),
            r.0@ == pausable_in(old(self).generations.entries@, old(self)@),
            r.1@ == pause_commands(old(self)@, r.0@),
            final(self)@ == (DeskView {
                preview: None,
                ..unwatched_all(old(self)@, keys_of(r.0@))
            }),
    {
        let ghost before = self@;
        let ghost all = self.generations.entries@;
        let mut nodes: Vec<NodeId> = Vec::new();
        let mut i: usize = 0;
        assert(nodes@ =~= pausable_in(all.take(0), before));
        while i < self.generations.entries.len()
            invariant
                0 <= i <= self.generations.entries@.len(),
                self.wf(),
                before == self@,
                all == self.generations.entries@,
                nodes@ == pausable_in(all.take(i as int), before),
                forall|k: int|
                    0 <= k < nodes@.len() ==> before.generations.contains_key(
                        (#[trigger] nodes@[k])@,
                    ),
            decreases self.generations.entries@.len() - i,
        {
            let node = self.generations.entries[i].0;
            proof {
                assert(all.take(i as int + 1).drop_last() =~= all.take(i as int));
                self.generations.lemma_entry(i as int);
            }
            let lasts = match self.call_state(&node) {
                Some(state) => state != CallState::Aborted,
                None => false,
            };
            if lasts && !self.stopped.has(&node) {
                nodes.push(node);
            }
            i += 1;
        }
        assert(all.take(all.len() as int) =~= all);
        let mut commands: Vec<Command> = Vec::new();
        let mut k: usize = 0;
        let ghost keys = keys_of(nodes@);
        assert(keys.take(0) =~= Seq::empty());
        while k < nodes.len()
            invariant
                0 <= k <= nodes@.len(),
                self.wf(),
                keys == keys_of(nodes@),
                self@ == unwatched_all(before, keys.take(k as int)),
                forall|k: int|
                    0 <= k < nodes@.len() ==> before.generations.contains_key(
                        (#[trigger] nodes@[k])@,
                    ),
                commands@.len() == k,
                forall|j: int|
                    0 <= j < k ==> #[trigger] commands@[j] == pause_commands(before, nodes@)[j],
            decreases nodes@.len() - k,
        {
            proof {
                assert(keys.take(k as int + 1).drop_last() =~= keys.take(k as int));
                lemma_unwatched_frame(before, keys.take(k as int));
                assert(before.generations.contains_key(nodes@[k as int]@));
            }
            match self.stop_watching(nodes[k]) {
                Some(command) => {
                    commands.push(command);
                },
                None => {},
            }
            k += 1;
        }
        assert(keys.take(keys.len() as int) =~= keys);
        assert(commands@ =~= pause_commands(before, nodes@));
        self.preview = None;
        (nodes, commands)
    }

    /// Resumes what was paused; the pause of a call that is no longer active is forgotten.
    pub fn resume_hidden_video(&mut self, nodes: &Vec<NodeId>) -> (commands: Vec<Command>)
        requires
            old(self).wf(),
        ensures
            final(self).wf(),
            final(self)@ == rewatched_all(old(self)@, keys_of(nodes@)),
            commands@ == resume_commands(old(self)@, nodes@),
    {
        let ghost before = self@;
        let ghost keys = keys_of(nodes@);
        let mut commands: Vec<Command> = Vec::new();
        let mut k: usize = 0;
        proof {
            assert(keys.take(0) =~= Seq::empty());
            assert(nodes@.take(0) =~= Seq::empty());
        }
        while k < nodes.len()
            invariant
                0 <= k <= nodes@.len(),
                self.wf(),
                keys == keys_of(nodes@),
                self@ == rewatched_all(before, keys.take(k as int)),
                commands@ == resume_commands(before, nodes@.take(k as int)),
            decreases nodes@.len() - k,
        {
            proof {
                assert(keys.take(k as int + 1).drop_last() =~= keys.take(k as int));
                assert(nodes@.take(k as int + 1).drop_last() =~= nodes@.take(k as int));
                assert(keys_of(nodes@.take(k as int)) =~= keys.take(k as int));
                lemma_rewatched_frame(before, keys.take(k as int));
            }
            let active = self.call_state(&nodes[k]) == Some(CallState::Active);
            match self.resume_watching(nodes[k]) {
                Some(command) => {
                    if active {
                        commands.push(command);
                    }
                },
                None => {},
            }
            k += 1;
        }
        assert(keys.take(keys.len() as int) =~= keys);
        assert(nodes@.take(nodes@.len() as int) =~= nodes@);
        commands
    }

    /// How a stream is labelled.
    pub fn stream_label(&self, source: &StreamSource, contacts: &Contacts) -> (s: String)
        ensures
            s@ == match source {
                StreamSource::Local => if self@.system_audio_active {
                    "You · audio"@
                } else {
                    "You"@
                },
                StreamSource::Remote(node) => display_name_of(contacts@, node@),
            },
    {
        match source {
            StreamSource::Local => if self.system_audio_active {
                "You · audio".to_owned()
            } else {
                "You".to_owned()
            },
            StreamSource::Remote(node) => contacts.peer_display_name(node),
        }
    }

    /// The width and height of a stream's picture, where there is one with both.
    pub fn stream_size(&self, source: &StreamSource) -> (r: Option<(u32, u32)>)
        requires
            self.wf(),
        ensures
            r == shown_size(self@, source@),
    {
        let size: Option<(u32, u32)> = match source {
            StreamSource::Local => match &self.preview {
                Some(preview) => Some((preview.width, preview.height)),
                None => None,
            },
            StreamSource::Remote(node) => match self.frames.get(node) {
                Some(frame) => Some((frame.width, frame.height)),
                None => None,
            },
        };
        match size {
            Some((width, height)) => if width > 0 && height > 0 {
                Some((width, height))
            } else {
                None
            },
            None => None,
        }
    }

    /// Whether a picture has to be handed to the screen: it was not yet, and there is something
    /// to see.
    pub fn needs_upload(uploaded: u64, generation: u64, width: u32, height: u32, has_data: bool) -> (r:
        bool)
        ensures
            r == (uploaded != generation && width > 0 && height > 0 && has_data),
    {
        uploaded != generation && width > 0 && height > 0 && has_data
    }
}

// ---------------------------------------------------------------------------
// Labels
// ---------------------------------------------------------------------------

/// How the quality of a stream is shown: its height and its pictures per second.
pub fn format_stream_quality(height: u32, fps: u32) -> (r: Option<String>)
    ensures
        match r {
            Some(s) => height > 0 && fps > 0 && s@ == decimal(height as nat) + "p@"@ + decimal(
                fps as nat,
            ),
            None => height == 0 || fps == 0,
        },
{
    if height > 0 && fps > 0 {
        let mut s: String = String::new();
        push_decimal(&mut s, height as u64);
        s.append("p@");
        push_decimal(&mut s, fps as u64);
        assert(s@ =~= decimal(height as nat) + "p@"@ + decimal(fps as nat));
        Some(s)
    } else {
        None
    }
}

/// What a list of badges holds, if all is stated of it: the answers of `fits` on the names that
/// were tried decide how far the name is cut.
pub open spec fn fitted<F: Fn(&str) -> bool>(name: Seq<char>, label: Seq<char>, fits: F) -> bool {
    exists|k: int| #[trigger] cut_fits(name, label, fits, k)
}

/// Whether the name cut to `k` characters was the first that fitted. At least one character of
/// room is left to a name, also where that does not fit.
pub open spec fn cut_fits<F: Fn(&str) -> bool>(
    name: Seq<char>,
    label: Seq<char>,
    fits: F,
    k: int,
) -> bool {
    &&& (if name.len() > 0 {
        1int
    } else {
        0int
    }) <= k <= name.len()
    &&& label == ellipsized(name, k)
    &&& k <= 1 || answered(fits, label, true)
    &&& forall|j: int|
        k < j <= name.len() ==> answered(fits, #[trigger] ellipsized(name, j), false)
}

/// Whether `fits` can give this answer for a text.
pub open spec fn answered<F: Fn(&str) -> bool>(fits: F, text: Seq<char>, answer: bool) -> bool {
    exists|s: &str| s@ == text && #[trigger] call_ensures(fits, (s,), answer)
}

/// The badges on a stream: its name, and its quality where both fit beside each other. The name
/// is cut, one character at a time, only where it does not fit alone.
pub fn fit_stream_info_badges<F: Fn(&str) -> bool>(
    name: &str,
    quality: Option<&str>,
    both_fit: bool,
    fits: F,
) -> (badges: Vec<String>)
    requires
        forall|s: &str| call_requires(fits, (s,)),
    ensures
        quality is Some && both_fit ==> texts(badges@) == seq![name@, quality->0@],
        !(quality is Some && both_fit) ==> badges@.len() == 1 && fitted(name@, badges@[0]@, fits),
{
    let mut badges: Vec<String> = Vec::new();
    match quality {
        Some(quality) => {
            if both_fit {
                badges.push(name.to_owned());
                badges.push(quality.to_owned());
                assert(texts(badges@) =~= seq![name@, quality@]);
                return badges;
            }
        },
        None => {},
    }
    let count: usize = name.unicode_len();
    let mut chars: usize = count;
    let mut label: String = name.to_owned();
    assert(label@ == ellipsized(name@, count as int));
    while chars > 1 && !fits(label.as_str())
        invariant
            chars <= count,
            count >= 1 ==> chars >= 1,
            count == name@.len(),
            forall|s: &str| call_requires(fits, (s,)),
            label@ == ellipsized(name@, chars as int),
            forall|j: int|
                chars < j <= name@.len() ==> answered(fits, #[trigger] ellipsized(name@, j), false),
        ensures
            chars <= count,
            count >= 1 ==> chars >= 1,
            count == name@.len(),
            label@ == ellipsized(name@, chars as int),
            chars <= 1 || answered(fits, label@, true),
            forall|j: int|
                chars < j <= name@.len() ==> answered(fits, #[trigger] ellipsized(name@, j), false),
        decreases chars,
    {
        assert(answered(fits, ellipsized(name@, chars as int), false));
        chars = chars - 1;
        label = ellipsize(name, chars);
    }
    assert(cut_fits(name@, label@, fits, chars as int));
    badges.push(label);
    badges
}

/// How many streams there are, in words.
pub fn stream_count(count: usize) -> (s: String)
    ensures
        s@ == if count == 1 {
            "1 stream"@
        } else {
            decimal(count as nat) + " streams"@
        },
{
    if count == 1 {
        "1 stream".to_owned()
    } else {
        let mut s: String = String::new();
        push_decimal(&mut s, count as u64);
        s.append(" streams");
        assert(s@ =~= decimal(count as nat) + " streams"@);
        s
    }
}

/// What stands beside the title of the stage.
pub fn stage_detail(count: usize, sharing_active: bool) -> (r: Option<String>)
    ensures
        match r {
            Some(s) => (count == 1 && s@ == "1 stream"@) || (count > 1 && s@ == decimal(
                count as nat,
            ) + " streams"@) || (count == 0 && sharing_active && s@ == "starting share…"@),
            None => count == 0 && !sharing_active,
        },
{
    if count > 0 {
        Some(stream_count(count))
    } else if sharing_active {
        Some("starting share…".to_owned())
    } else {
        None
    }
}

/// What an empty stage shows.
#[derive(Clone, Copy, Debug, PartialEq, Eq, Structural)]
pub enum EmptyStage {
    /// The screen could not be captured.
    NeedsAccess,
    /// Our own first picture is awaited.
    Starting,
    /// Streams of peers are left unwatched.
    Paused,
    /// Nothing is shared.
    Idle,
}

/// What an empty stage shows: an error before all, then our own sharing, then what is paused.
pub fn empty_stage(has_capture_error: bool, sharing_active: bool, stopped: usize) -> (r: EmptyStage)
    ensures
        r == if has_capture_error {
            EmptyStage::NeedsAccess
        } else if sharing_active {
            EmptyStage::Starting
        } else if stopped > 0 {
            EmptyStage::Paused
        } else {
            EmptyStage::Idle
        },
{
    if has_capture_error {
        EmptyStage::NeedsAccess
    } else if sharing_active {
        EmptyStage::Starting
    } else if stopped > 0 {
        EmptyStage::Paused
    } else {
        EmptyStage::Idle
    }
}

/// The texts on an empty stage.
pub struct StageTexts {
    pub title: String,
    pub detail: String,
    pub button: String,
}

/// The title over paused streams.
pub open spec fn paused_title(names: Seq<Seq<char>>) -> Seq<char> {
    if names.len() == 1 {
        names[0] + "'s stream is paused"@
    } else {
        decimal(names.len()) + " streams are paused"@
    }
}

/// The texts on an empty stage; `stopped` are the names of the peers whose streams are paused.
pub fn empty_stage_texts(
    stage: EmptyStage,
    sharing_active: bool,
    capture_error: &str,
    stopped: &Vec<String>,
) -> (t: StageTexts)
    ensures
        t.title@ == match stage {
            EmptyStage::NeedsAccess => "Screen sharing needs access"@,
            EmptyStage::Starting => "Starting your screen share"@,
            EmptyStage::Paused => paused_title(texts(stopped@)),
            EmptyStage::Idle => "Nothing is being shared"@,
        },
        t.detail@ == match stage {
            EmptyStage::NeedsAccess => capture_error@,
            EmptyStage::Starting => "Preparing the first frame. This usually takes a moment."@,
            EmptyStage::Paused => "Video data is paused. Resume whenever you want to watch again."@,
            EmptyStage::Idle => "Shared screens and incoming video will appear here."@,
        },
        t.button@ == if stage == EmptyStage::Paused {
            "Resume watching"@
        } else if sharing_active {
            "Stop sharing"@
        } else {
            "Share your screen"@
        },
{
    let title: String = match stage {
        EmptyStage::NeedsAccess => "Screen sharing needs access".to_owned(),
        EmptyStage::Starting => "Starting your screen share".to_owned(),
        EmptyStage::Paused => {
            if stopped.len() == 1 {
                let mut s: String = stopped[0].clone();
                s.append("'s stream is paused");
                assert(s@ == paused_title(texts(stopped@)));
                s
            } else {
                let mut s: String = String::new();
                push_decimal(&mut s, stopped.len() as u64);
                s.append(" streams are paused");
                assert(s@ =~= paused_title(texts(stopped@)));
                s
            }
        },
        EmptyStage::Idle => "Nothing is being shared".to_owned(),
    };
    let detail: String = match stage {
        EmptyStage::NeedsAccess => capture_error.to_owned(),
        EmptyStage::Starting => "Preparing the first frame. This usually takes a moment.".to_owned(),
        EmptyStage::Paused =>
            "Video data is paused. Resume whenever you want to watch again.".to_owned(),
        EmptyStage::Idle => "Shared screens and incoming video will appear here.".to_owned(),
    };
    let button: String = if stage == EmptyStage::Paused {
        "Resume watching".to_owned()
    } else if sharing_active {
        "Stop sharing".to_owned()
    } else {
        "Share your screen".to_owned()
    };
    StageTexts { title, detail, button }
}

/// The buttons on a stream's tile.
#[derive(Clone, Copy, Debug, PartialEq, Eq, Structural)]
pub enum TileButton {
    /// Show this stream alone, or all of them again.
    Focus,
    /// Share computer sound along, or no longer.
    Audio,
    /// Stop watching.
    Stop,
}

/// The buttons on a stream's tile: our own has a switch for sound, a peer's one to stop watching.
pub fn tile_buttons(source: &StreamSource) -> (buttons: Vec<TileButton>)
    ensures
        buttons@ == match source {
            StreamSource::Local => seq![TileButton::Focus, TileButton::Audio],
            StreamSource::Remote(_) => seq![TileButton::Focus, TileButton::Stop],
        },
{
    let mut buttons: Vec<TileButton> = Vec::new();
    buttons.push(TileButton::Focus);
    match source {
        StreamSource::Local => buttons.push(TileButton::Audio),
        StreamSource::Remote(_) => buttons.push(TileButton::Stop),
    }
    buttons
}

/// What a button on a tile says when pointed at.
pub fn tile_tip(button: TileButton, expanded: bool, audio_on: bool) -> (s: &'static str)
    ensures
        s@ == match button {
            TileButton::Focus => if expanded {
                "Show all streams"@
            } else {
                "Focus this stream"@
            },
            TileButton::Audio => if audio_on {
                "Stop sharing computer sound"@
            } else {
                "Also share computer sound"@
            },
            TileButton::Stop => "Stop watching this screen share"@,
        },
{
    match button {
        TileButton::Focus => if expanded {
            "Show all streams"
        } else {
            "Focus this stream"
        },
        TileButton::Audio => if audio_on {
            "Stop sharing computer sound"
        } else {
            "Also share computer sound"
        },
        TileButton::Stop => "Stop watching this screen share",
    }
}

/// The layout after the button for one was pressed: the same button leads back.
pub fn pressed_view_mode(current: StreamViewMode, pressed: StreamViewMode) -> (r: StreamViewMode)
    ensures
        r == if current == pressed {
            StreamViewMode::Normal
        } else {
            pressed
        },
{
    if current == pressed {
        StreamViewMode::Normal
    } else {
        pressed
    }
}

// ---------------------------------------------------------------------------
// Choosing what to share
// ---------------------------------------------------------------------------

/// The screen or window that is chosen at first: the first primary one, else the first, if any.
pub open spec fn first_choice(primary: Seq<bool>) -> Option<int> {
    if primary.contains(true) {
        Some(first_true(primary))
    } else if primary.len() > 0 {
        Some(0)
    } else {
        None
    }
}

/// The place of the first `true`.
pub open spec fn first_true(flags: Seq<bool>) -> int
    decreases flags.len(),
{
    if flags.len() == 0 || flags[0] {
        0
    } else {
        1 + first_true(flags.drop_first())
    }
}

proof fn lemma_first_true(flags: Seq<bool>, n: int)
    requires
        0 <= n < flags.len(),
        flags[n],
        forall|j: int| 0 <= j < n ==> !flags[j],
    ensures
        first_true(flags) == n,
    decreases n,
{
    if n > 0 {
        assert(!flags[0]);
        lemma_first_true(flags.drop_first(), n - 1);
    }
}

/// Chooses a screen or window at first.
pub fn choose_target(primary: &Vec<bool>) -> (r: Option<usize>)
    ensures
        match r {
            Some(i) => first_choice(primary@) == Some(i as int) && i < primary@.len(),
            None => first_choice(primary@) is None,
        },
{
    let mut i: usize = 0;
    while i < primary.len()
        invariant
            0 <= i <= primary@.len(),
            forall|j: int| 0 <= j < i ==> !primary@[j],
        decreases primary@.len() - i,
    {
        if primary[i] {
            proof {
                lemma_first_true(primary@, i as int);
                assert(primary@.contains(true));
            }
            return Some(i);
        }
        i += 1;
    }
    assert(!primary@.contains(true));
    if primary.len() > 0 {
        Some(0)
    } else {
        None
    }
}

/// What the user did in the picker.
#[derive(Clone, Copy, Debug, PartialEq, Eq, Structural)]
pub struct PickerInput {
    pub start: bool,
    pub refresh: bool,
    pub cancel: bool,
    /// Whether the picker's own frame left it open.
    pub open: bool,
    pub selected: Option<usize>,
    /// How many targets there are to choose from.
    pub targets: usize,
}

/// What follows.
#[derive(Clone, Copy, Debug)]
pub enum PickerOutcome {
    /// Share the chosen target, and close.
    Share(Command),
    /// List the targets anew.
    Refresh,
    StayOpen,
    Close,
}

/// What follows on what the user did in the picker. Starting without a choice changes nothing.
pub fn picker_outcome(input: PickerInput, share_system_audio: bool) -> (r: PickerOutcome)
    ensures
        r == if input.start {
            if input.selected is Some && input.selected->0 < input.targets {
                PickerOutcome::Share(
                    Command::ToggleSharing {
                        enabled: true,
                        target: input.selected,
                        share_system_audio,
                    },
                )
            } else {
                PickerOutcome::StayOpen
            }
        } else if input.refresh {
            PickerOutcome::Refresh
        } else if input.open && !input.cancel {
            PickerOutcome::StayOpen
        } else {
            PickerOutcome::Close
        },
{
    if input.start {
        match input.selected {
            Some(index) => if index < input.targets {
                PickerOutcome::Share(
                    Command::ToggleSharing {
                        enabled: true,
                        target: input.selected,
                        share_system_audio,
                    },
                )
            } else {
                PickerOutcome::StayOpen
            },
            None => PickerOutcome::StayOpen,
        }
    } else if input.refresh {
        PickerOutcome::Refresh
    } else if input.open && !input.cancel {
        PickerOutcome::StayOpen
    } else {
        PickerOutcome::Close
    }
}

/// How a target is described: its size, and whether it is the primary screen.
pub fn target_detail(width: u32, height: u32, is_primary: bool) -> (s: String)
    ensures
        s@ == decimal(width as nat) + " × "@ + decimal(height as nat) + (if is_primary {
            "  ·  Primary"@
        } else {
            ""@
        }),
{
    let mut s: String = String::new();
    push_decimal(&mut s, width as u64);
    s.append(" × ");
    push_decimal(&mut s, height as u64);
    assert(s@ =~= decimal(width as nat) + " × "@ + decimal(height as nat));
    if is_primary {
        s.append("  ·  Primary");
    } else {
        s.append("");
    }
    s
}

/// The waits and switches of a development call that starts and stops sharing so many times: off
/// after two seconds, on again after one more, and off at last.
pub open spec fn share_cycle(cycles: nat) -> Seq<(u64, bool)> {
    Seq::new(
        if cycles == 0 {
            0
        } else {
            (2 * cycles - 1) as nat
        },
        |i: int|
            if i % 2 == 0 {
                (2000u64, false)
            } else {
                (1000u64, true)
            },
    )
}

/// The waits, in milliseconds, and switches of a development call that starts and stops sharing.
pub fn share_cycles(cycles: u32) -> (steps: Vec<(u64, bool)>)
    ensures
        steps@ == share_cycle(cycles as nat),
{
    let mut steps: Vec<(u64, bool)> = Vec::new();
    let mut cycle: u32 = 0;
    while cycle < cycles
        invariant
            0 <= cycle <= cycles,
            steps@.len() == if cycle == 0 {
                0
            } else if cycle < cycles {
                2 * cycle as int
            } else {
                2 * cycle - 1
            },
            forall|i: int|
                0 <= i < steps@.len() ==> #[trigger] steps@[i] == if i % 2 == 0 {
                    (2000u64, false)
                } else {
                    (1000u64, true)
                },
        decreases cycles - cycle,
    {
        steps.push((2000, false));
        if cycle + 1 < cycles {
            steps.push((1000, true));
        }
        cycle += 1;
    }
    assert(steps@ =~= share_cycle(cycles as nat));
    steps
}

// ---------------------------------------------------------------------------
// Laws
// ---------------------------------------------------------------------------

/// A call that ended leaves nothing behind: no stream, no picture, no focus.
pub proof fn law_ended_call_leaves_nothing(desk: DeskView, key: Seq<u8>)
    ensures
        ({
            let after = desk.with_state(key, CallState::Aborted);
            &&& !after.calls.contains_key(key)
            &&& !after.generations.contains_key(key)
            &&& !after.ended.contains_key(key)
            &&& !after.stopped.contains_key(key)
            &&& !after.frames.contains_key(key)
            &&& !after.volume_open.contains_key(key)
            &&& after.focused != Some(SourceView::Remote(key))
        }),
{
}

/// What belongs to an older stream than the newest changes nothing.
pub proof fn law_outdated_streams_change_nothing(
    desk: DeskView,
    key: Seq<u8>,
    generation: u64,
    shape: FrameShape,
)
    requires
        desk.generations.contains_key(key),
        generation < desk.generations[key],
    ensures
        desk.accepted(key, generation) == desk,
        desk.shown(key, generation, shape) == desk,
        desk.stream_over(key, generation) == desk,
{
}

/// While a call lasts, the newest stream of a peer never becomes an older one.
pub proof fn law_newest_stream_only_rises(
    desk: DeskView,
    key: Seq<u8>,
    other: Seq<u8>,
    generation: u64,
    shape: FrameShape,
)
    requires
        desk.generations.contains_key(key),
    ensures
        desk.accepted(other, generation).generations.contains_key(key),
        desk.accepted(other, generation).generations[key] >= desk.generations[key],
        desk.shown(other, generation, shape).generations.contains_key(key),
        desk.shown(other, generation, shape).generations[key] >= desk.generations[key],
        desk.stream_over(other, generation).generations == desk.generations,
        desk.unwatched(other).generations == desk.generations,
        desk.rewatched(other).generations == desk.generations,
{
}

/// A stream that is left unwatched shows nothing more, until a newer one is accepted.
pub proof fn law_unwatched_streams_show_nothing(
    desk: DeskView,
    key: Seq<u8>,
    generation: u64,
    newer: u64,
    shape: FrameShape,
)
    requires
        held(desk.calls, key) == Some(CallState::Active),
        desk.generations.contains_key(key),
        generation <= desk.generations[key] < newer,
    ensures
        desk.unwatched(key).shown(key, generation, shape) == desk.unwatched(key),
        !desk.unwatched(key).frames.contains_key(key),
        !desk.unwatched(key).accepted(key, newer).stopped.contains_key(key),
        desk.unwatched(key).accepted(key, newer).takes_frame(key, newer),
{
}

/// No picture of a stream is shown after its end.
pub proof fn law_ended_streams_show_nothing(
    desk: DeskView,
    key: Seq<u8>,
    generation: u64,
    shape: FrameShape,
)
    requires
        held(desk.generations, key) == Some(generation),
    ensures
        !desk.stream_over(key, generation).frames.contains_key(key),
        desk.stream_over(key, generation).shown(key, generation, shape) == desk.stream_over(
            key,
            generation,
        ),
{
}

/// Sharing is asked to stop when the last active call ends.
pub proof fn law_sharing_ends_with_the_last_call(desk: DeskView, node: NodeId, state: CallState)
    requires
        desk.sharing_active,
        !some_call(desk.with_state(node@, state).calls, CallState::Active),
    ensures
        desk.state_effects(node, state).contains(CallEffect::Send(stop_sharing_command())),
{
    let news = desk.state_news(node, state);
    let all = desk.state_effects(node, state);
    assert(all[news.len() as int] == CallEffect::Send(stop_sharing_command()));
}

/// A hangup of our own never sounds as a failure.
pub proof fn law_own_hangups_are_silent(desk: DeskView, node: NodeId)
    requires
        desk.voluntary_hangups > 0,
    ensures
        !desk.state_effects(node, CallState::Aborted).contains(CallEffect::Play(Sound::Fail)),
{
    let all = desk.state_effects(node, CallState::Aborted);
    assert forall|i: int| 0 <= i < all.len() implies all[i] != CallEffect::Play(Sound::Fail) by {}
}

/// Whoever is watched when the window goes out of sight is watched again when it is back, and
/// nobody else is: what was left unwatched stays so.
pub proof fn law_window_keeps_what_is_watched(desk: DeskView, keys: Seq<Seq<u8>>)
    requires
        forall|i: int| 0 <= i < keys.len() ==> is_pausable(desk, #[trigger] keys[i]),
    ensures
        rewatched_all(unwatched_all(desk, keys), keys).stopped == desk.stopped,
{
    let hidden = unwatched_all(desk, keys);
    lemma_unwatched(desk, keys);
    lemma_rewatched_frame(hidden, keys);
    let back = rewatched_all(hidden, keys);
    assert forall|key: Seq<u8>|
        back.stopped.contains_key(key) <==> desk.stopped.contains_key(key) by {
        assert(hidden.stopped.contains_key(key) <==> desk.stopped.contains_key(key)
            || keys.contains(key));
        if keys.contains(key) {
            let i = choose|i: int| 0 <= i < keys.len() && keys[i] == key;
            assert(is_pausable(desk, keys[i]));
        }
    }
    assert forall|key: Seq<u8>| back.stopped.contains_key(key) implies back.stopped[key]
        == desk.stopped[key] by {
        assert(hidden.stopped.contains_key(key));
        assert(!keys.contains(key));
    }
    assert(back.stopped =~= desk.stopped);
}

proof fn lemma_unwatched(desk: DeskView, keys: Seq<Seq<u8>>)
    requires
        forall|i: int| 0 <= i < keys.len() ==> is_pausable(desk, #[trigger] keys[i]),
    ensures
        forall|key: Seq<u8>| #[trigger]
            unwatched_all(desk, keys).stopped.contains_key(key) <==> desk.stopped.contains_key(key)
                || keys.contains(key),
        forall|key: Seq<u8>|
            desk.stopped.contains_key(key) && !keys.contains(key) ==> #[trigger] unwatched_all(
                desk,
                keys,
            ).stopped[key] == desk.stopped[key],
    decreases keys.len(),
{
    if keys.len() > 0 {
        let rest = keys.drop_last();
        let last = keys.last();
        assert forall|i: int| 0 <= i < rest.len() implies is_pausable(desk, #[trigger] rest[i]) by {
            assert(rest[i] == keys[i]);
        }
        lemma_unwatched(desk, rest);
        lemma_unwatched_frame(desk, rest);
        assert(is_pausable(desk, keys[keys.len() - 1]));
        assert forall|key: Seq<u8>| keys.contains(key) <==> rest.contains(key) || key == last by {
            if keys.contains(key) {
                let i = choose|i: int| 0 <= i < keys.len() && keys[i] == key;
                if i < rest.len() {
                    assert(rest[i] == key);
                }
            }
            if rest.contains(key) {
                let i = choose|i: int| 0 <= i < rest.len() && rest[i] == key;
                assert(keys[i] == key);
            }
            assert(keys[keys.len() - 1] == last);
        }
    } else {
        assert(forall|key: Seq<u8>| !keys.contains(key));
    }
}

/// The peers that are paused are just those whose stream can be.
pub proof fn law_pausing_takes_every_stream(desk: CallDesk, key: Seq<u8>)
    requires
        desk.wf(),
    ensures
        keys_of(pausable_in(desk.generations.entries@, desk@)).contains(key) <==> is_pausable(
            desk@,
            key,
        ),
{
    let all = desk.generations.entries@;
    lemma_pausable(all, desk@, key);
    if is_pausable(desk@, key) {
        let i = desk.generations.lemma_held(key);
        assert(all[i].0@ == key);
    }
}

proof fn lemma_pausable(entries: Seq<(NodeId, u64)>, desk: DeskView, key: Seq<u8>)
    ensures
        keys_of(pausable_in(entries, desk)).contains(key) <==> is_pausable(desk, key) && exists|
            i: int,
        |
            0 <= i < entries.len() && (#[trigger] entries[i]).0@ == key,
    decreases entries.len(),
{
    let list = pausable_in(entries, desk);
    if entries.len() > 0 {
        let rest = entries.drop_last();
        let before = pausable_in(rest, desk);
        lemma_pausable(rest, desk, key);
        if keys_of(list).contains(key) {
            let k = choose|k: int| 0 <= k < keys_of(list).len() && keys_of(list)[k] == key;
            if k < before.len() {
                assert(keys_of(before)[k] == key);
                assert(keys_of(before).contains(key));
                let i = choose|i: int| 0 <= i < rest.len() && (#[trigger] rest[i]).0@ == key;
                assert(entries[i] == rest[i]);
            } else {
                assert(entries[entries.len() - 1].0@ == key);
            }
        }
        if is_pausable(desk, key) && exists|i: int|
            0 <= i < entries.len() && (#[trigger] entries[i]).0@ == key {
            let i = choose|i: int| 0 <= i < entries.len() && (#[trigger] entries[i]).0@ == key;
            if i < rest.len() {
                assert(rest[i].0@ == key);
                assert(keys_of(before).contains(key));
                let k = choose|k: int| 0 <= k < keys_of(before).len() && keys_of(before)[k] == key;
                assert(keys_of(list)[k] == key);
            } else {
                assert(keys_of(list)[list.len() - 1] == key);
            }
        }
    } else {
        assert(keys_of(list) =~= Seq::empty());
    }
}

/// A picture of a peer that is taken is shown as it came: at its own width and height, with what
/// is known of its source, as one of the stream that it belongs to. Other peers' pictures and
/// all calls stay as they were.
pub proof fn law_pictures_are_shown_at_their_size(
    desk: DeskView,
    key: Seq<u8>,
    generation: u64,
    shape: FrameShape,
    other: Seq<u8>,
)
    requires
        desk.takes_frame(key, generation),
    ensures
        ({
            let after = desk.shown(key, generation, shape);
            let frame = after.frames[key];
            &&& after.frames.contains_key(key)
            &&& frame.width == shape.width && frame.height == shape.height
            &&& frame.source_height == shape.source_height && frame.source_fps == shape.source_fps
            &&& frame.has_data == shape.has_data
            &&& frame.stream_generation == generation
            &&& after.generations.contains_key(key) && after.generations[key] == generation
            &&& shape.width > 0 && shape.height > 0 ==> shown_size(after, SourceView::Remote(key))
                == Some((shape.width, shape.height))
            &&& desk.frames.contains_key(key) ==> frame.generation != desk.frames[key].generation
            &&& other != key ==> shown_size(after, SourceView::Remote(other)) == shown_size(
                desk,
                SourceView::Remote(other),
            )
            &&& shown_size(after, SourceView::Local) == shown_size(desk, SourceView::Local)
            &&& after.calls == desk.calls
        }),
{
}

/// A picture of an active call is taken unless its stream is older than the newest, has ended or
/// is left unwatched; without an active call none is taken.
pub proof fn law_pictures_of_watched_streams_are_taken(
    desk: DeskView,
    key: Seq<u8>,
    generation: u64,
)
    ensures
        !desk.calls.contains_key(key) || desk.calls[key] != CallState::Active
            ==> !desk.takes_frame(key, generation),
        desk.generations.contains_key(key) && generation < desk.generations[key]
            ==> !desk.takes_frame(key, generation),
        desk.ended.contains_key(key) && generation <= desk.ended[key] ==> !desk.takes_frame(
            key,
            generation,
        ),
        desk.stopped.contains_key(key) && generation <= desk.stopped[key] ==> !desk.takes_frame(
            key,
            generation,
        ),
        desk.calls.contains_key(key) && desk.calls[key] == CallState::Active && (
        desk.generations.contains_key(key) ==> desk.generations[key] <= generation) && (
        desk.ended.contains_key(key) ==> desk.ended[key] < generation) && (
        desk.stopped.contains_key(key) ==> desk.stopped[key] < generation) ==> desk.takes_frame(
            key,
            generation,
        ),
{
}

/// A stream that begins in an active call is the newest, and its pictures are taken, also after
/// the end of an earlier one.
pub proof fn law_new_streams_are_watched(desk: DeskView, key: Seq<u8>, generation: u64)
    requires
        desk.calls.contains_key(key),
        desk.calls[key] == CallState::Active,
        desk.generations.contains_key(key) ==> desk.generations[key] <= generation,
        desk.stopped.contains_key(key) ==> desk.stopped[key] < generation,
    ensures
        ({
            let after = desk.accepted(key, generation);
            &&& after.generations.contains_key(key) && after.generations[key] == generation
            &&& after.takes_frame(key, generation)
            &&& !after.stopped.contains_key(key)
            &&& after.frames == desk.frames && after.calls == desk.calls
        }),
{
}

/// Our own picture is shown at its size while we share, and not at all otherwise.
pub proof fn law_own_picture_is_shown_at_its_size(
    desk: DeskView,
    width: u32,
    height: u32,
    has_data: bool,
)
    ensures
        ({
            let after = desk.previewed(width, height, has_data);
            &&& desk.sharing_active && width > 0 && height > 0 ==> shown_size(
                after,
                SourceView::Local,
            ) == Some((width, height))
            &&& desk.sharing_active ==> after.local_ready() == (width > 0 && height > 0 && has_data)
            &&& !desk.sharing_active ==> after == desk
            &&& desk.sharing_active && desk.preview is Some ==> after.preview->0.generation
                != desk.preview->0.generation
            &&& after.frames == desk.frames && after.calls == desk.calls
        }),
{
}

/// When sharing ends our picture, its focus and computer sound go with it; when it begins an
/// earlier failure is forgotten. What peers share is not touched.
pub proof fn law_sharing_is_all_or_nothing(desk: DeskView, system_audio: bool)
    ensures
        ({
            let off = desk.sharing_set(false, system_audio);
            let on = desk.sharing_set(true, system_audio);
            &&& !off.sharing_active && !off.system_audio_active && off.preview is None
            &&& !off.local_ready() && off.focused != Some(SourceView::Local)
            &&& off.capture_error == desk.capture_error
            &&& desk.focused != Some(SourceView::Local) ==> off.focused == desk.focused
            &&& on.sharing_active && on.system_audio_active == system_audio
            &&& on.capture_error is None && on.preview == desk.preview && on.focused == desk.focused
            &&& off.frames == desk.frames && on.frames == desk.frames
            &&& off.calls == desk.calls && on.calls == desk.calls
        }),
{
}

/// A call that came to a state is in it, unless it ended; the calls, streams and pictures of
/// other peers stay as they were.
pub proof fn law_calls_keep_to_their_peer(
    desk: DeskView,
    key: Seq<u8>,
    state: CallState,
    other: Seq<u8>,
)
    requires
        other != key,
    ensures
        ({
            let after = desk.with_state(key, state);
            &&& state != CallState::Aborted ==> held(after.calls, key) == Some(state)
                && after.generations == desk.generations && after.frames == desk.frames
                && after.voluntary_hangups == desk.voluntary_hangups
            &&& held(after.calls, other) == held(desk.calls, other)
            &&& held(after.generations, other) == held(desk.generations, other)
            &&& held(after.ended, other) == held(desk.ended, other)
            &&& held(after.stopped, other) == held(desk.stopped, other)
            &&& held(after.frames, other) == held(desk.frames, other)
            &&& desk.focused != Some(SourceView::Remote(key)) ==> after.focused == desk.focused
            &&& after.sharing_active == desk.sharing_active && after.muted == desk.muted
                && after.deafened == desk.deafened
            &&& state == CallState::Aborted && desk.voluntary_hangups > 0
                ==> after.voluntary_hangups == desk.voluntary_hangups - 1
            &&& state == CallState::Aborted && desk.voluntary_hangups == 0
                ==> after.voluntary_hangups == 0
        }),
{
}

/// It rings exactly while somebody calls, and never in a development call.
pub proof fn law_ring_follows_incoming_calls(
    desk: DeskView,
    node: NodeId,
    state: CallState,
    on: bool,
)
    ensures
        desk.state_effects(node, state).contains(CallEffect::Ring(on)) <==> on == (!desk.dev_pair
            && (state == CallState::Incoming || exists|key: Seq<u8>|
            key != node@ && #[trigger] desk.calls.contains_key(key) && desk.calls[key]
                == CallState::Incoming)),
{
    let all = desk.state_effects(node, state);
    let news = desk.state_news(node, state);
    let after = desk.with_state(node@, state);
    let unshare = desk.sharing_active && !some_call(after.calls, CallState::Active);
    let at: int = news.len() + if unshare {
        1int
    } else {
        0int
    };
    let rings = !desk.dev_pair && some_call(after.calls, CallState::Incoming);
    assert(all[at] == CallEffect::Ring(rings));
    assert forall|i: int| 0 <= i < all.len() && i != at implies !(all[i] is Ring) by {}
    assert(some_call(after.calls, CallState::Incoming) <==> state == CallState::Incoming || exists|
        key: Seq<u8>,
    |
        key != node@ && #[trigger] desk.calls.contains_key(key) && desk.calls[key]
            == CallState::Incoming) by {
        if state == CallState::Incoming {
            assert(after.calls.contains_key(node@));
        }
        if some_call(after.calls, CallState::Incoming) {
            let key = choose|key: Seq<u8>| #[trigger]
                after.calls.contains_key(key) && after.calls[key] == CallState::Incoming;
            if key != node@ {
                assert(desk.calls.contains_key(key));
            }
        }
        if exists|key: Seq<u8>|
            key != node@ && #[trigger] desk.calls.contains_key(key) && desk.calls[key]
                == CallState::Incoming {
            let key = choose|key: Seq<u8>|
                key != node@ && #[trigger] desk.calls.contains_key(key) && desk.calls[key]
                    == CallState::Incoming;
            assert(after.calls.contains_key(key));
        }
    }
    if all.contains(CallEffect::Ring(on)) {
        let i = choose|i: int| 0 <= i < all.len() && all[i] == CallEffect::Ring(on);
        assert(i == at);
    }
}

/// A call that comes in shows its card once; when it is answered or ends, the card goes. A call
/// that connects is told with a card once and sounds as a success.
pub proof fn law_cards_follow_calls(desk: DeskView, node: NodeId, state: CallState)
    ensures
        ({
            let all = desk.state_effects(node, state);
            let before = held(desk.calls, node@);
            &&& all.contains(CallEffect::IncomingCard(node)) <==> state == CallState::Incoming
                && before != Some(CallState::Incoming) && !desk.dev_pair
            &&& all.contains(CallEffect::DismissCard(node)) <==> state == CallState::Active || state
                == CallState::Aborted
            &&& all.contains(CallEffect::ConnectedCard(node)) <==> state == CallState::Active
                && before != Some(CallState::Active)
            &&& all.contains(CallEffect::Play(Sound::Success)) <==> state == CallState::Active
            &&& all.contains(CallEffect::Play(Sound::Fail)) <==> state == CallState::Aborted
                && desk.voluntary_hangups == 0 && (before == Some(CallState::Calling) || before
                == Some(CallState::Incoming))
            &&& all.contains(CallEffect::DropMedia(node)) <==> state == CallState::Aborted
        }),
{
    let all = desk.state_effects(node, state);
    let news = desk.state_news(node, state);
    assert forall|i: int| news.len() <= i < all.len() implies all[i] is Ring || all[i] is Send by {}
    assert forall|i: int| 0 <= i < news.len() implies all[i] == news[i] by {}
    lemma_in_news(all, news, CallEffect::IncomingCard(node));
    lemma_in_news(all, news, CallEffect::DismissCard(node));
    lemma_in_news(all, news, CallEffect::ConnectedCard(node));
    lemma_in_news(all, news, CallEffect::Play(Sound::Success));
    lemma_in_news(all, news, CallEffect::Play(Sound::Fail));
    lemma_in_news(all, news, CallEffect::DropMedia(node));
    if state == CallState::Active {
        assert(news[0] == CallEffect::Play(Sound::Success));
        assert(news[1] == CallEffect::DismissCard(node));
        if news.len() > 2 {
            assert(news[2] == CallEffect::ConnectedCard(node));
        }
    } else if state == CallState::Aborted {
        assert(news[0] == CallEffect::DismissCard(node));
        assert(news[news.len() - 1] == CallEffect::DropMedia(node));
        if news.len() > 2 {
            assert(news[1] == CallEffect::Play(Sound::Fail));
        }
    } else if state == CallState::Incoming && news.len() > 0 {
        assert(news[0] == CallEffect::IncomingCard(node));
    }
}

proof fn lemma_in_news(all: Seq<CallEffect>, news: Seq<CallEffect>, effect: CallEffect)
    requires
        news.len() <= all.len(),
        forall|i: int| 0 <= i < news.len() ==> #[trigger] all[i] == news[i],
        forall|i: int|
            news.len() <= i < all.len() ==> (#[trigger] all[i]) is Ring || all[i] is Send,
        !(effect is Ring),
        !(effect is Send),
    ensures
        all.contains(effect) <==> news.contains(effect),
{
    if all.contains(effect) {
        let i = choose|i: int| 0 <= i < all.len() && all[i] == effect;
        assert(i < news.len());
        assert(news[i] == effect);
    }
    if news.contains(effect) {
        let i = choose|i: int| 0 <= i < news.len() && news[i] == effect;
        assert(all[i] == effect);
    }
}

/// While an active call remains, sharing is not asked to stop.
pub proof fn law_sharing_goes_on_with_a_call(
    desk: DeskView,
    node: NodeId,
    state: CallState,
    other: Seq<u8>,
)
    requires
        state == CallState::Active || (other != node@ && desk.calls.contains_key(other)
            && desk.calls[other] == CallState::Active),
    ensures
        !desk.state_effects(node, state).contains(CallEffect::Send(stop_sharing_command())),
{
    let all = desk.state_effects(node, state);
    let after = desk.with_state(node@, state);
    if state == CallState::Active {
        assert(after.calls.contains_key(node@) && after.calls[node@] == CallState::Active);
    } else {
        assert(after.calls.contains_key(other) && after.calls[other] == CallState::Active);
    }
    assert(some_call(after.calls, CallState::Active));
    assert forall|i: int| 0 <= i < all.len() implies all[i] != CallEffect::Send(
        stop_sharing_command(),
    ) by {}
}

/// A stream can be shown exactly if there is something to see: our own while we share, and a
/// peer's where its picture has both sides and data.
pub proof fn law_streams_with_a_picture_can_be_shown(desk: CallDesk, key: Seq<u8>)
    requires
        desk.wf(),
    ensures
        lists_source(active_sources(desk), SourceView::Local) <==> desk.sharing_active && (
        match desk.preview {
            Some(preview) => preview.width > 0 && preview.height > 0 && preview.has_data,
            None => false,
        }),
        lists_source(active_sources(desk), SourceView::Remote(key)) <==> desk@.frames.contains_key(
            key,
        ) && desk@.frames[key].width > 0 && desk@.frames[key].height > 0
            && desk@.frames[key].has_data,
{
    let first: Seq<StreamSource> = if desk@.local_ready() {
        seq![StreamSource::Local]
    } else {
        Seq::empty()
    };
    let entries = desk.frames.entries@;
    let rest = shown_remote(entries);
    let all = active_sources(desk);
    assert(all == first + rest);
    lemma_shown_remote(entries, key);
    if desk@.local_ready() {
        assert(all[0]@ == SourceView::Local);
    }
    if lists_source(all, SourceView::Local) {
        let i = choose|i: int| 0 <= i < all.len() && (#[trigger] all[i])@ == SourceView::Local;
        if i >= first.len() {
            assert(rest[i - first.len()]@ == SourceView::Local);
        }
    }
    if lists_source(all, SourceView::Remote(key)) {
        let i = choose|i: int| 0 <= i < all.len() && (#[trigger] all[i])@ == SourceView::Remote(key);
        assert(i >= first.len());
        assert(rest[i - first.len()]@ == SourceView::Remote(key));
        let k = choose|k: int|
            0 <= k < entries.len() && (#[trigger] entries[k]).0@ == key && presentable(entries[k].1);
        desk.frames.lemma_entry(k);
    }
    if desk@.frames.contains_key(key) && presentable(desk@.frames[key]) {
        let k = desk.frames.lemma_held(key);
        assert(entries[k].0@ == key);
        let i = choose|i: int|
            0 <= i < rest.len() && (#[trigger] rest[i])@ == SourceView::Remote(key);
        assert(all[i + first.len()]@ == SourceView::Remote(key));
    }
}

proof fn lemma_shown_remote(entries: Seq<(NodeId, FrameInfo)>, key: Seq<u8>)
    ensures
        lists_source(shown_remote(entries), SourceView::Remote(key)) <==> exists|k: int|
            0 <= k < entries.len() && (#[trigger] entries[k]).0@ == key && presentable(
                entries[k].1,
            ),
        forall|i: int|
            0 <= i < shown_remote(entries).len() ==> (#[trigger] shown_remote(entries)[i]) is Remote,
    decreases entries.len(),
{
    if entries.len() > 0 {
        let shorter = entries.drop_last();
        let before = shown_remote(shorter);
        let all = shown_remote(entries);
        lemma_shown_remote(shorter, key);
        if lists_source(all, SourceView::Remote(key)) {
            let i = choose|i: int|
                0 <= i < all.len() && (#[trigger] all[i])@ == SourceView::Remote(key);
            if i < before.len() {
                assert(before[i]@ == SourceView::Remote(key));
                let k = choose|k: int|
                    0 <= k < shorter.len() && (#[trigger] shorter[k]).0@ == key && presentable(
                        shorter[k].1,
                    );
                assert(entries[k] == shorter[k]);
            } else {
                assert(entries[entries.len() - 1].0@ == key);
            }
        }
        if exists|k: int|
            0 <= k < entries.len() && (#[trigger] entries[k]).0@ == key && presentable(
                entries[k].1,
            ) {
            let k = choose|k: int|
                0 <= k < entries.len() && (#[trigger] entries[k]).0@ == key && presentable(
                    entries[k].1,
                );
            if k < shorter.len() {
                assert(shorter[k].0@ == key);
                let i = choose|i: int|
                    0 <= i < before.len() && (#[trigger] before[i])@ == SourceView::Remote(key);
                assert(all[i]@ == SourceView::Remote(key));
            } else {
                assert(all[all.len() - 1]@ == SourceView::Remote(key));
            }
        }
        assert forall|i: int| 0 <= i < all.len() implies (#[trigger] all[i]) is Remote by {
            if i < before.len() {
                assert(before[i] is Remote);
            }
        }
    }
}

/// A peer's stream is offered to be watched again exactly if its call is active and its newest
/// stream is the one left unwatched.
pub proof fn law_paused_streams_can_be_resumed(desk: CallDesk, key: Seq<u8>)
    requires
        desk.wf(),
    ensures
        keys_of(paused_in(desk.stopped.entries@, desk@)).contains(key)
            <==> desk@.stopped.contains_key(key) && desk@.generations.contains_key(key)
            && desk@.generations[key] == desk@.stopped[key] && desk@.calls.contains_key(key)
            && desk@.calls[key] == CallState::Active,
{
    let entries = desk.stopped.entries@;
    lemma_paused(entries, desk@, key);
    if keys_of(paused_in(entries, desk@)).contains(key) {
        let k = choose|k: int|
            0 <= k < entries.len() && (#[trigger] entries[k]).0@ == key && held(
                desk@.generations,
                key,
            ) == Some(entries[k].1);
        desk.stopped.lemma_entry(k);
    }
    if desk@.stopped.contains_key(key) {
        let k = desk.stopped.lemma_held(key);
        assert(entries[k].0@ == key);
    }
}

proof fn lemma_paused(entries: Seq<(NodeId, u64)>, desk: DeskView, key: Seq<u8>)
    ensures
        keys_of(paused_in(entries, desk)).contains(key) <==> held(desk.calls, key) == Some(
            CallState::Active,
        ) && exists|k: int|
            0 <= k < entries.len() && (#[trigger] entries[k]).0@ == key && held(
                desk.generations,
                key,
            ) == Some(entries[k].1),
    decreases entries.len(),
{
    let all = paused_in(entries, desk);
    if entries.len() > 0 {
        let shorter = entries.drop_last();
        let before = paused_in(shorter, desk);
        lemma_paused(shorter, desk, key);
        if all != before {
            assert(all == before.push(entries.last().0));
            assert(keys_of(all) =~= keys_of(before).push(entries.last().0@));
            lemma_held_after_push(keys_of(before), entries.last().0@, key);
        }
        if exists|k: int|
            0 <= k < shorter.len() && (#[trigger] shorter[k]).0@ == key && held(
                desk.generations,
                key,
            ) == Some(shorter[k].1) {
            let k = choose|k: int|
                0 <= k < shorter.len() && (#[trigger] shorter[k]).0@ == key && held(
                    desk.generations,
                    key,
                ) == Some(shorter[k].1);
            assert(entries[k] == shorter[k]);
        }
        if exists|k: int|
            0 <= k < entries.len() && (#[trigger] entries[k]).0@ == key && held(
                desk.generations,
                key,
            ) == Some(entries[k].1) {
            let k = choose|k: int|
                0 <= k < entries.len() && (#[trigger] entries[k]).0@ == key && held(
                    desk.generations,
                    key,
                ) == Some(entries[k].1);
            if k < shorter.len() {
                assert(shorter[k] == entries[k]);
            }
        }
        assert(entries[entries.len() - 1] == entries.last());
    } else {
        assert(keys_of(all) =~= Seq::empty());
    }
}

/// A stream that is no longer watched is taken out of sight, and what other peers share stays;
/// one that is watched again has its pictures taken.
pub proof fn law_watching_can_be_stopped_and_resumed(
    desk: DeskView,
    key: Seq<u8>,
    other: Seq<u8>,
    generation: u64,
)
    requires
        other != key,
        desk.generations.contains_key(key),
        desk.generations[key] == generation,
    ensures
        ({
            let off = desk.unwatched(key);
            let back = off.rewatched(key);
            &&& shown_size(off, SourceView::Remote(key)) is None
            &&& off.focused != Some(SourceView::Remote(key))
            &&& held(off.stopped, key) == Some(generation)
            &&& shown_size(off, SourceView::Remote(other)) == shown_size(
                desk,
                SourceView::Remote(other),
            )
            &&& held(off.stopped, other) == held(desk.stopped, other)
            &&& held(back.stopped, other) == held(desk.stopped, other)
            &&& !back.stopped.contains_key(key)
            &&& desk.calls.contains_key(key) && desk.calls[key] == CallState::Active && (
            desk.ended.contains_key(key) ==> desk.ended[key] < generation) ==> back.takes_frame(
                key,
                generation,
            )
        }),
{
}

/// Showing a stream alone and pressing again shows all; nothing but the focus changes.
pub proof fn law_focus_goes_and_comes(desk: DeskView, source: SourceView)
    ensures
        desk.focused != Some(source) ==> desk.focus_toggled(source).focused == Some(source),
        desk.focused == Some(source) ==> desk.focus_toggled(source).focused is None,
        desk.focus_toggled(source) == (DeskView {
            focused: desk.focus_toggled(source).focused,
            ..desk
        }),
{
}

/// The target chosen at first is a primary one if there is any, the first of them; else the
/// first in the list.
pub proof fn law_primary_target_comes_first(primary: Seq<bool>, i: int)
    requires
        0 <= i < primary.len(),
    ensures
        first_choice(primary) is Some,
        0 <= first_choice(primary)->0 < primary.len(),
        primary[i] ==> primary[first_choice(primary)->0] && first_choice(primary)->0 <= i,
        !primary.contains(true) ==> first_choice(primary)->0 == 0,
{
    if primary.contains(true) {
        let k = choose|k: int| 0 <= k < primary.len() && primary[k] == true;
        lemma_true_found(primary, k);
    }
    if primary[i] {
        assert(primary.contains(true));
        lemma_true_found(primary, i);
    }
}

proof fn lemma_true_found(flags: Seq<bool>, i: int)
    requires
        0 <= i < flags.len(),
        flags[i],
    ensures
        0 <= first_true(flags) <= i,
        flags[first_true(flags)],
    decreases flags.len(),
{
    if !flags[0] {
        lemma_true_found(flags.drop_first(), i - 1);
    }
}

/// When a peer's newest stream ends, its picture, its focus and the mark that it is left
/// unwatched go with it; marks for other streams and other peers' pictures stay.
pub proof fn law_ended_streams_leave_no_mark(
    desk: DeskView,
    key: Seq<u8>,
    generation: u64,
    other: Seq<u8>,
)
    requires
        desk.generations.contains_key(key),
        desk.generations[key] == generation,
        other != key,
    ensures
        ({
            let after = desk.stream_over(key, generation);
            &&& after.ended.contains_key(key) && after.ended[key] == generation
            &&& held(desk.stopped, key) == Some(generation) ==> !after.stopped.contains_key(key)
            &&& held(desk.stopped, key) != Some(generation) ==> after.stopped == desk.stopped
            &&& held(after.stopped, other) == held(desk.stopped, other)
            &&& shown_size(after, SourceView::Remote(key)) is None
            &&& shown_size(after, SourceView::Remote(other)) == shown_size(
                desk,
                SourceView::Remote(other),
            )
            &&& after.focused != Some(SourceView::Remote(key))
            &&& after.calls == desk.calls && after.generations == desk.generations
        }),
{
}

/// A development call accepts what comes in and, where it is to, begins to share once a call is
/// active; any other leaves both to the user. Sharing is stopped by a command that says so.
pub proof fn law_development_calls_run_by_themselves(
    desk: DeskView,
    node: NodeId,
    state: CallState,
)
    ensures
        ({
            let all = desk.state_effects(node, state);
            let accept = CallEffect::Send(Command::HandleIncoming { node_id: node, accept: true });
            let share = CallEffect::Send(
                Command::ToggleSharing {
                    enabled: true,
                    target: None,
                    share_system_audio: desk.share_system_audio,
                },
            );
            let stop = CallEffect::Send(
                Command::ToggleSharing { enabled: false, target: None, share_system_audio: false },
            );
            &&& all.contains(accept) <==> desk.dev_pair && state == CallState::Incoming
            &&& all.contains(share) <==> desk.dev_auto_share && !desk.sharing_active && state
                == CallState::Active
            &&& all.contains(stop) <==> desk.sharing_active && !some_call(
                desk.with_state(node@, state).calls,
                CallState::Active,
            )
        }),
{
    let all = desk.state_effects(node, state);
    let news = desk.state_news(node, state);
    let steps = desk.state_steps(node, state);
    let after = desk.with_state(node@, state);
    let accept = CallEffect::Send(Command::HandleIncoming { node_id: node, accept: true });
    let share = CallEffect::Send(
        Command::ToggleSharing {
            enabled: true,
            target: None,
            share_system_audio: desk.share_system_audio,
        },
    );
    let stop = CallEffect::Send(stop_sharing_command());
    let unshares = desk.sharing_active && !some_call(after.calls, CallState::Active);
    let accepts = desk.dev_pair && state == CallState::Incoming;
    let shares = desk.dev_auto_share && !desk.sharing_active && state == CallState::Active;
    assert forall|i: int| 0 <= i < news.len() implies !((#[trigger] all[i]) is Send) by {}
    let at: int = news.len() + if unshares {
        1int
    } else {
        0int
    };
    if unshares {
        assert(all[news.len() as int] == stop);
    }
    assert(all[at] is Ring);
    if accepts {
        assert(all[at + 1] == accept);
    }
    if shares {
        assert(all[at + 1] == share);
    }
    assert forall|i: int| 0 <= i < all.len() && (#[trigger] all[i]) is Send implies all[i] == stop
        && unshares || all[i] == accept && accepts || all[i] == share && shares by {}
}

/// Pictures and streams are there only for peers with a call.
pub proof fn law_streams_belong_to_calls(desk: DeskView, key: Seq<u8>)
    requires
        desk.sound(),
        !desk.calls.contains_key(key),
    ensures
        !desk.generations.contains_key(key),
        !desk.frames.contains_key(key),
        !desk.stopped.contains_key(key),
        !desk.ended.contains_key(key),
        shown_size(desk, SourceView::Remote(key)) is None,
{
    if desk.generations.contains_key(key) {
        assert(desk.generations.dom().contains(key));
    }
    if desk.frames.contains_key(key) {
        assert(desk.frames.dom().contains(key));
    }
    if desk.stopped.contains_key(key) {
        assert(desk.stopped.dom().contains(key));
    }
    if desk.ended.contains_key(key) {
        assert(desk.ended.dom().contains(key));
    }
}

/// A hidden window stops each of its streams once, at the generation that is watched.
pub proof fn law_hidden_window_stops_every_stream(desk: DeskView, nodes: Seq<NodeId>, i: int)
    requires
        0 <= i < nodes.len(),
    ensures
        pause_commands(desk, nodes).len() == nodes.len(),
        pause_commands(desk, nodes)[i] == (Command::SetWatching {
            node_id: nodes[i],
            generation: desk.generations[nodes[i]@],
            watching: false,
        }),
{
}

/// Only streams of active calls are resumed, and every command of a window shown again resumes.
pub proof fn law_only_active_calls_are_resumed(desk: DeskView, nodes: Seq<NodeId>, i: int)
    requires
        0 <= i < resume_commands(desk, nodes).len(),
    ensures
        ({
            let command = resume_commands(desk, nodes)[i];
            &&& command is SetWatching && command->SetWatching_watching
            &&& nodes.contains(command->SetWatching_node_id)
            &&& held(desk.calls, command->SetWatching_node_id@) == Some(CallState::Active)
        }),
    decreases nodes.len(),
{
    if nodes.len() > 0 {
        let rest = resume_commands(desk, nodes.drop_last());
        if i < rest.len() {
            law_only_active_calls_are_resumed(desk, nodes.drop_last(), i);
            lemma_held_or_last(nodes, rest[i]->SetWatching_node_id);
        } else {
            assert(nodes[nodes.len() - 1] == nodes.last());
        }
    }
}

/// A single paused stream goes by its peer's name, several by their number.
pub proof fn law_single_paused_stream_is_named(names: Seq<Seq<char>>)
    ensures
        names.len() == 1 ==> paused_title(names) == names[0] + "'s stream is paused"@,
        names.len() != 1 ==> paused_title(names) == decimal(names.len())
            + " streams are paused"@,
{
}

/// A picture without any extent has no size, and one with both has its own.
pub proof fn law_empty_pictures_have_no_size(desk: DeskView, key: Seq<u8>)
    requires
        desk.frames.contains_key(key),
    ensures
        ({
            let frame = desk.frames[key];
            let size = shown_size(desk, SourceView::Remote(key));
            &&& frame.width == 0 || frame.height == 0 ==> size is None
            &&& frame.width > 0 && frame.height > 0 ==> size == Some((frame.width, frame.height))
        }),
{
}

/// Sharing that is tried out in turns is off after two seconds and on again a second later; it
/// ends switched off.
pub proof fn law_sharing_takes_turns(cycles: nat, i: int)
    requires
        0 <= i < share_cycle(cycles).len(),
    ensures
        share_cycle(cycles).len() == 2 * cycles - 1,
        share_cycle(cycles)[0] == (2000u64, false),
        share_cycle(cycles).last() == (2000u64, false),
        share_cycle(cycles)[i].1 ==> share_cycle(cycles)[i].0 == 1000,
        i > 0 ==> share_cycle(cycles)[i].1 != share_cycle(cycles)[i - 1].1,
{
}

} // verus!
