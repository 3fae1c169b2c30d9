//! Calls, the streams in them, and what is shared.
use vstd::prelude::*;
use crate::node::NodeId;
use crate::notifications::{
    incoming_call_spec, notice_spec, NotificationAction, NotificationKind, NotificationSpec,
};
use crate::message::opt_text;
use crate::digits::hex_lower;
use crate::table::Table;

verus! {

/// How far a call has come.
#[derive(Clone, Copy, Debug, PartialEq, Eq, Structural)]
pub enum CallState {
    Incoming,
    Calling,
    Active,
    Aborted,
}

/// Whose picture a stream shows.
#[derive(Clone, Copy, Debug)]
pub enum StreamSource {
    Local,
    Remote(NodeId),
}

/// The contents of a `StreamSource`.
pub enum SourceView {
    Local,
    Remote(Seq<u8>),
}

impl View for StreamSource {
    type V = SourceView;

    open spec fn view(&self) -> SourceView {
        match self {
            StreamSource::Local => SourceView::Local,
            StreamSource::Remote(node) => SourceView::Remote(node@),
        }
    }
}

/// The contents of an optional source.
pub open spec fn opt_source(source: Option<StreamSource>) -> Option<SourceView> {
    match source {
        Some(source) => Some(source@),
        None => None,
    }
}

/// How streams are laid out.
#[derive(Clone, Copy, Debug, PartialEq, Eq, Structural)]
pub enum StreamViewMode {
    Normal,
    FillWindow,
    Fullscreen,
}

impl StreamViewMode {
    /// Whether the stream covers the whole screen.
    pub fn is_fullscreen(self) -> (r: bool)
        ensures
            r == (self == StreamViewMode::Fullscreen),
    {
        match self {
            StreamViewMode::Fullscreen => true,
            _ => false,
        }
    }
}

/// What is asked of the window when the layout of streams changes.
#[derive(Clone, Copy, Debug, PartialEq, Eq, Structural)]
pub enum Fullscreen {
    Keep,
    Enter,
    Leave,
}

/// What a change of layout asks of the window.
pub fn fullscreen_change(from: StreamViewMode, to: StreamViewMode) -> (r: Fullscreen)
    ensures
        r == if to == StreamViewMode::Fullscreen {
            Fullscreen::Enter
        } else if from == StreamViewMode::Fullscreen {
            Fullscreen::Leave
        } else {
            Fullscreen::Keep
        },
{
    if to.is_fullscreen() {
        Fullscreen::Enter
    } else if from.is_fullscreen() {
        Fullscreen::Leave
    } else {
        Fullscreen::Keep
    }
}

/// What is known of a remote picture. Its `generation` counts the pictures that came in.
#[derive(Clone, Copy, Debug, PartialEq, Eq, Structural)]
pub struct FrameInfo {
    pub width: u32,
    pub height: u32,
    pub stream_generation: u64,
    pub generation: u64,
    pub source_height: u32,
    pub source_fps: u32,
    pub has_data: bool,
}

/// What a remote picture brings.
#[derive(Clone, Copy, Debug, PartialEq, Eq, Structural)]
pub struct FrameShape {
    pub width: u32,
    pub height: u32,
    pub source_height: u32,
    pub source_fps: u32,
    pub has_data: bool,
}

/// What is known of the picture that we share.
#[derive(Clone, Copy, Debug, PartialEq, Eq, Structural)]
pub struct PreviewInfo {
    pub width: u32,
    pub height: u32,
    pub generation: u64,
    pub has_data: bool,
}

/// A sound.
#[derive(Clone, Copy, Debug, PartialEq, Eq, Structural)]
pub enum Sound {
    Whoosh1,
    Whoosh2,
    Success,
    Fail,
    Button1,
    Button2,
    Notification,
}

/// The sound of a switch.
pub fn control_sound(enabled: bool) -> (s: Sound)
    ensures
        s == if enabled {
            Sound::Button1
        } else {
            Sound::Button2
        },
{
    if enabled {
        Sound::Button1
    } else {
        Sound::Button2
    }
}

/// What the service is told. A capture target is told by its place in the list.
#[derive(Clone, Copy, Debug)]
pub enum Command {
    Call { node_id: NodeId },
    Abort { node_id: NodeId },
    HandleIncoming { node_id: NodeId, accept: bool },
    ToggleSharing { enabled: bool, target: Option<usize>, share_system_audio: bool },
    SetSystemAudio { enabled: bool },
    SetWatching { node_id: NodeId, generation: u64, watching: bool },
    SetMuted { muted: bool },
    SetDeafened { deafened: bool },
}

/// What is to be done, in this order.
#[derive(Clone, Copy, Debug)]
pub enum CallEffect {
    /// Show the card of an incoming call.
    IncomingCard(NodeId),
    /// Take the card of an incoming call away.
    DismissCard(NodeId),
    /// Show the card of a call that was connected.
    ConnectedCard(NodeId),
    Play(Sound),
    /// Drop the volumes and levels of a peer.
    DropMedia(NodeId),
    Send(Command),
    /// Ring, or stop ringing.
    Ring(bool),
}

/// The command that ends sharing.
pub open spec fn stop_sharing_command() -> Command {
    Command::ToggleSharing { enabled: false, target: None, share_system_audio: false }
}

/// The number after another, starting over after the last.
pub open spec fn following(n: int, last: int) -> int {
    if n == last {
        0
    } else {
        n + 1
    }
}

fn next_u64(n: u64) -> (m: u64)
    ensures
        m == following(n as int, u64::MAX as int),
{
    if n == u64::MAX {
        0
    } else {
        n + 1
    }
}

/// Everything that is known of calls.
pub struct CallDesk {
    pub calls: Table<NodeId, CallState>,
    /// The newest stream of each peer.
    pub generations: Table<NodeId, u64>,
    /// The stream of each peer that has ended.
    pub ended: Table<NodeId, u64>,
    /// The stream of each peer that is not watched.
    pub stopped: Table<NodeId, u64>,
    pub frames: Table<NodeId, FrameInfo>,
    /// The peers whose volume is shown.
    pub volume_open: Table<NodeId, ()>,
    pub focused: Option<StreamSource>,
    pub sharing_active: bool,
    pub share_system_audio: bool,
    pub system_audio_active: bool,
    pub capture_error: Option<String>,
    pub preview: Option<PreviewInfo>,
    pub voluntary_hangups: u32,
    pub muted: bool,
    pub deafened: bool,
    pub dev_pair: bool,
    pub dev_auto_share: bool,
}

/// The contents of a `CallDesk`.
pub struct DeskView {
    pub calls: Map<Seq<u8>, CallState>,
    pub generations: Map<Seq<u8>, u64>,
    pub ended: Map<Seq<u8>, u64>,
    pub stopped: Map<Seq<u8>, u64>,
    pub frames: Map<Seq<u8>, FrameInfo>,
    pub volume_open: Map<Seq<u8>, ()>,
    pub focused: Option<SourceView>,
    pub sharing_active: bool,
    pub share_system_audio: bool,
    pub system_audio_active: bool,
    pub capture_error: Option<Seq<char>>,
    pub preview: Option<PreviewInfo>,
    pub voluntary_hangups: int,
    pub muted: bool,
    pub deafened: bool,
    pub dev_pair: bool,
    pub dev_auto_share: bool,
}

impl View for CallDesk {
    type V = DeskView;

    open spec fn view(&self) -> DeskView {
        DeskView {
            calls: self.calls@,
            generations: self.generations@,
            ended: self.ended@,
            stopped: self.stopped@,
            frames: self.frames@,
            volume_open: self.volume_open@,
            focused: opt_source(self.focused),
            sharing_active: self.sharing_active,
            share_system_audio: self.share_system_audio,
            system_audio_active: self.system_audio_active,
            capture_error: opt_text(self.capture_error),
            preview: self.preview,
            voluntary_hangups: self.voluntary_hangups as int,
            muted: self.muted,
            deafened: self.deafened,
            dev_pair: self.dev_pair,
            dev_auto_share: self.dev_auto_share,
        }
    }
}

/// What is held for a key, if anything.
pub open spec fn held<V>(map: Map<Seq<u8>, V>, key: Seq<u8>) -> Option<V> {
    if map.contains_key(key) {
        Some(map[key])
    } else {
        None
    }
}

/// Whether some call is in this state.
pub open spec fn some_call(calls: Map<Seq<u8>, CallState>, state: CallState) -> bool {
    exists|key: Seq<u8>| #[trigger] calls.contains_key(key) && calls[key] == state
}

impl DeskView {
    /// What always holds: only peers with a call have streams, only streams that began have
    /// ended or are left unwatched, and computer sound and a preview are there only while
    /// sharing.
    pub open spec fn sound(self) -> bool {
        &&& self.generations.dom().subset_of(self.calls.dom())
        &&& self.ended.dom().subset_of(self.generations.dom())
        &&& self.stopped.dom().subset_of(self.generations.dom())
        &&& self.frames.dom().subset_of(self.generations.dom())
        &&& self.system_audio_active ==> self.sharing_active
        &&& self.preview is Some ==> self.sharing_active
    }

    /// Without the focus on a peer's stream.
    pub open spec fn unfocused(self, source: SourceView) -> DeskView {
        DeskView {
            focused: if self.focused == Some(source) {
                None
            } else {
                self.focused
            },
            ..self
        }
    }

    /// With the focus on a stream, or without it where it was there.
    pub open spec fn focus_toggled(self, source: SourceView) -> DeskView {
        DeskView {
            focused: if self.focused == Some(source) {
                None
            } else {
                Some(source)
            },
            ..self
        }
    }

    /// With all of a peer's call gone.
    pub open spec fn without(self, key: Seq<u8>) -> DeskView {
        DeskView {
            calls: self.calls.remove(key),
            generations: self.generations.remove(key),
            ended: self.ended.remove(key),
            stopped: self.stopped.remove(key),
            frames: self.frames.remove(key),
            volume_open: self.volume_open.remove(key),
            ..self
        }.unfocused(SourceView::Remote(key))
    }

    /// After a call has come to a state. A hangup of our own is then accounted for.
    pub open spec fn with_state(self, key: Seq<u8>, state: CallState) -> DeskView {
        if state == CallState::Aborted {
            DeskView {
                voluntary_hangups: if self.voluntary_hangups > 0 {
                    self.voluntary_hangups - 1
                } else {
                    0
                },
                ..self.without(key)
            }
        } else {
            DeskView { calls: self.calls.insert(key, state), ..self }
        }
    }

    /// What is told when a call comes to a state.
    pub open spec fn state_news(self, node: NodeId, state: CallState) -> Seq<CallEffect> {
        let previous = held(self.calls, node@);
        if state == CallState::Incoming {
            if !self.dev_pair && previous != Some(CallState::Incoming) {
                seq![CallEffect::IncomingCard(node)]
            } else {
                Seq::empty()
            }
        } else if state == CallState::Active {
            if previous != Some(CallState::Active) {
                seq![
                    CallEffect::Play(Sound::Success),
                    CallEffect::DismissCard(node),
                    CallEffect::ConnectedCard(node),
                ]
            } else {
                seq![CallEffect::Play(Sound::Success), CallEffect::DismissCard(node)]
            }
        } else if state == CallState::Aborted {
            if self.voluntary_hangups == 0 && (previous == Some(CallState::Calling) || previous
                == Some(CallState::Incoming)) {
                seq![
                    CallEffect::DismissCard(node),
                    CallEffect::Play(Sound::Fail),
                    CallEffect::DropMedia(node),
                ]
            } else {
                seq![CallEffect::DismissCard(node), CallEffect::DropMedia(node)]
            }
        } else {
            Seq::empty()
        }
    }

    /// What is to be done once a call has come to a state: sharing ends with the last active
    /// call, the ring follows the incoming ones, and a development call accepts and shares by
    /// itself.
    pub open spec fn state_steps(self, node: NodeId, state: CallState) -> Seq<CallEffect> {
        let after = self.with_state(node@, state);
        let unshare: Seq<CallEffect> = if self.sharing_active && !some_call(
            after.calls,
            CallState::Active,
        ) {
            seq![CallEffect::Send(stop_sharing_command())]
        } else {
            Seq::empty()
        };
        let ring = CallEffect::Ring(
            !self.dev_pair && some_call(after.calls, CallState::Incoming),
        );
        let accept: Seq<CallEffect> = if self.dev_pair && state == CallState::Incoming {
            seq![CallEffect::Send(Command::HandleIncoming { node_id: node, accept: true })]
        } else {
            Seq::empty()
        };
        let share: Seq<CallEffect> = if self.dev_auto_share && !self.sharing_active && state
            == CallState::Active {
            seq![
                CallEffect::Send(
                    Command::ToggleSharing {
                        enabled: true,
                        target: None,
                        share_system_audio: self.share_system_audio,
                    },
                ),
            ]
        } else {
            Seq::empty()
        };
        unshare.push(ring) + accept + share
    }

    /// What is to be done when a call comes to a state.
    pub open spec fn state_effects(self, node: NodeId, state: CallState) -> Seq<CallEffect> {
        self.state_news(node, state) + self.state_steps(node, state)
    }

    /// After a stream was accepted. One without an active call, or older than the newest, counts
    /// for nothing; one newer than what is left unwatched is watched again.
    pub open spec fn accepted(self, key: Seq<u8>, generation: u64) -> DeskView {
        if held(self.calls, key) != Some(CallState::Active) || (self.generations.contains_key(key)
            && generation < self.generations[key]) {
            self
        } else {
            DeskView {
                generations: self.generations.insert(key, generation),
                ended: self.ended.remove(key),
                stopped: if self.stopped.contains_key(key) && generation > self.stopped[key] {
                    self.stopped.remove(key)
                } else {
                    self.stopped
                },
                ..self
            }
        }
    }

    /// Whether a picture counts: its call is active, and its stream is neither outdated, nor
    /// ended, nor left unwatched.
    pub open spec fn takes_frame(self, key: Seq<u8>, generation: u64) -> bool {
        &&& held(self.calls, key) == Some(CallState::Active)
        &&& !(self.generations.contains_key(key) && generation < self.generations[key])
        &&& !(self.ended.contains_key(key) && generation <= self.ended[key])
        &&& !(self.stopped.contains_key(key) && generation <= self.stopped[key])
    }

    /// After a picture came in.
    pub open spec fn shown(self, key: Seq<u8>, generation: u64, shape: FrameShape) -> DeskView {
        if !self.takes_frame(key, generation) {
            self
        } else {
            let count = if self.frames.contains_key(key) {
                self.frames[key].generation
            } else {
                0
            };
            DeskView {
                generations: self.generations.insert(key, generation),
                frames: self.frames.insert(
                    key,
                    FrameInfo {
                        width: shape.width,
                        height: shape.height,
                        stream_generation: generation,
                        generation: following(count as int, u64::MAX as int) as u64,
                        source_height: shape.source_height,
                        source_fps: shape.source_fps,
                        has_data: shape.has_data,
                    },
                ),
                ..self
            }
        }
    }

    /// After a stream has ended. Only the newest stream counts.
    pub open spec fn stream_over(self, key: Seq<u8>, generation: u64) -> DeskView {
        if held(self.generations, key) != Some(generation) {
            self
        } else {
            DeskView {
                ended: self.ended.insert(key, generation),
                stopped: if held(self.stopped, key) == Some(generation) {
                    self.stopped.remove(key)
                } else {
                    self.stopped
                },
                frames: self.frames.remove(key),
                ..self
            }.unfocused(SourceView::Remote(key))
        }
    }

    /// After a peer's stream is no longer watched.
    pub open spec fn unwatched(self, key: Seq<u8>) -> DeskView {
        if self.generations.contains_key(key) {
            DeskView {
                stopped: self.stopped.insert(key, self.generations[key]),
                frames: self.frames.remove(key),
                ..self
            }.unfocused(SourceView::Remote(key))
        } else {
            self
        }
    }

    /// After a peer's stream is watched again.
    pub open spec fn rewatched(self, key: Seq<u8>) -> DeskView {
        DeskView { stopped: self.stopped.remove(key), ..self }
    }

    /// After sharing began or ended.
    pub open spec fn sharing_set(self, active: bool, system_audio: bool) -> DeskView {
        let set = DeskView {
            sharing_active: active,
            system_audio_active: active && system_audio,
            capture_error: if active {
                None
            } else {
                self.capture_error
            },
            preview: if active {
                self.preview
            } else {
                None
            },
            ..self
        };
        if active {
            set
        } else {
            set.unfocused(SourceView::Local)
        }
    }

    /// After a picture of our own was captured.
    pub open spec fn previewed(self, width: u32, height: u32, has_data: bool) -> DeskView {
        if !self.sharing_active {
            self
        } else {
            let count = if self.preview is Some {
                self.preview->0.generation
            } else {
                0
            };
            DeskView {
                preview: Some(
                    PreviewInfo {
                        width,
                        height,
                        generation: following(count as int, u64::MAX as int) as u64,
                        has_data,
                    },
                ),
                ..self
            }
        }
    }

    /// Whether our own picture can be shown.
    pub open spec fn local_ready(self) -> bool {
        self.sharing_active && self.preview is Some && self.preview->0.width > 0
            && self.preview->0.height > 0 && self.preview->0.has_data
    }
}

/// Whether a picture can be shown.
pub open spec fn presentable(frame: FrameInfo) -> bool {
    frame.width > 0 && frame.height > 0 && frame.has_data
}

pub(crate) fn same_source(a: &StreamSource, b: &StreamSource) -> (r: bool)
    ensures
        r == (a@ == b@),
{
    match (a, b) {
        (StreamSource::Local, StreamSource::Local) => true,
        (StreamSource::Remote(x), StreamSource::Remote(y)) => x.same(y),
        _ => false,
    }
}

impl CallDesk {
    /// The tables are in order and what always holds does.
    pub open spec fn wf(self) -> bool {
        &&& self.calls.wf()
        &&& self.generations.wf()
        &&& self.ended.wf()
        &&& self.stopped.wf()
        &&& self.frames.wf()
        &&& self.volume_open.wf()
        &&& self@.sound()
    }

    /// No calls.
    pub fn new(share_system_audio: bool, dev_pair: bool, dev_auto_share: bool) -> (d: CallDesk)
        ensures
            d.wf(),
            d@ == (DeskView {
                calls: Map::empty(),
                generations: Map::empty(),
                ended: Map::empty(),
                stopped: Map::empty(),
                frames: Map::empty(),
                volume_open: Map::empty(),
                focused: None,
                sharing_active: false,
                share_system_audio,
                system_audio_active: false,
                capture_error: None,
                preview: None,
                voluntary_hangups: 0,
                muted: false,
                deafened: false,
                dev_pair,
                dev_auto_share,
            }),
    {
        CallDesk {
            calls: Table::new(),
            generations: Table::new(),
            ended: Table::new(),
            stopped: Table::new(),
            frames: Table::new(),
            volume_open: Table::new(),
            focused: None,
            sharing_active: false,
            share_system_audio,
            system_audio_active: false,
            capture_error: None,
            preview: None,
            voluntary_hangups: 0,
            muted: false,
            deafened: false,
            dev_pair,
            dev_auto_share,
        }
    }

    fn any_call(&self, state: CallState) -> (r: bool)
        requires
            self.calls.wf(),
        ensures
            r == some_call(self.calls@, state),
    {
        let mut i: usize = 0;
        while i < self.calls.entries.len()
            invariant
                0 <= i <= self.calls.entries@.len(),
                self.calls.wf(),
                forall|j: int| 0 <= j < i ==> (#[trigger] self.calls.entries@[j]).1 != state,
            decreases self.calls.entries@.len() - i,
        {
            if self.calls.entries[i].1 == state {
                proof {
                    self.calls.lemma_entry(i as int);
                }
                return true;
            }
            i += 1;
        }
        proof {
            if some_call(self.calls@, state) {
                let key = choose|key: Seq<u8>| #[trigger]
                    self.calls@.contains_key(key) && self.calls@[key] == state;
                let j = self.calls.lemma_held(key);
                assert(self.calls.entries@[j].1 != state);
            }
        }
        false
    }

    /// Whether a call is active.
    pub fn has_active_call(&self) -> (r: bool)
        requires
            self.wf(),
        ensures
            r == some_call(self@.calls, CallState::Active),
    {
        self.any_call(CallState::Active)
    }

    /// Whether there is a call to show: one of a group, or one that has not ended.
    pub fn has_visible_call(&self, in_group_call: bool) -> (r: bool)
        requires
            self.wf(),
        ensures
            r == (in_group_call || some_call(self@.calls, CallState::Incoming) || some_call(
                self@.calls,
                CallState::Calling,
            ) || some_call(self@.calls, CallState::Active)),
    {
        in_group_call || self.any_call(CallState::Incoming) || self.any_call(CallState::Calling)
            || self.any_call(CallState::Active)
    }

    /// How far the call with a peer has come.
    pub fn call_state(&self, node: &NodeId) -> (r: Option<CallState>)
        requires
            self.wf(),
        ensures
            r == held(self@.calls, node@),
    {
        match self.calls.get(node) {
            Some(state) => Some(*state),
            None => None,
        }
    }

    fn drop_focus(&mut self, source: StreamSource)
        ensures
            final(self)@ == old(self)@.unfocused(source@),
            final(self).calls == old(self).calls,
            final(self).generations == old(self).generations,
            final(self).ended == old(self).ended,
            final(self).stopped == old(self).stopped,
            final(self).frames == old(self).frames,
            final(self).volume_open == old(self).volume_open,
    {
        let there = match &self.focused {
            Some(focused) => same_source(focused, &source),
            None => false,
        };
        if there {
            self.focused = None;
        }
    }

    /// Shows a stream alone, or all streams again where it was shown alone.
    pub fn toggle_focus(&mut self, source: StreamSource)
        requires
            old(self).wf(),
        ensures
            final(self).wf(),
            final(self)@ == old(self)@.focus_toggled(source@),
    {
        let there = match &self.focused {
            Some(focused) => same_source(focused, &source),
            None => false,
        };
        self.focused = if there {
            None
        } else {
            Some(source)
        };
    }

    fn tell_state(&self, node: NodeId, state: CallState) -> (effects: Vec<CallEffect>)
        requires
            self.wf(),
        ensures
            effects@ == self@.state_news(node, state),
    {
        let previous = self.call_state(&node);
        let mut effects: Vec<CallEffect> = Vec::new();
        match state {
            CallState::Incoming => {
                if !self.dev_pair && previous != Some(CallState::Incoming) {
                    effects.push(CallEffect::IncomingCard(node));
                }
            },
            CallState::Active => {
                effects.push(CallEffect::Play(Sound::Success));
                effects.push(CallEffect::DismissCard(node));
                if previous != Some(CallState::Active) {
                    effects.push(CallEffect::ConnectedCard(node));
                }
            },
            CallState::Aborted => {
                effects.push(CallEffect::DismissCard(node));
                if self.voluntary_hangups == 0 && (previous == Some(CallState::Calling) || previous
                    == Some(CallState::Incoming)) {
                    effects.push(CallEffect::Play(Sound::Fail));
                }
                effects.push(CallEffect::DropMedia(node));
            },
            CallState::Calling => {},
        }
        assert(effects@ =~= self@.state_news(node, state));
        effects
    }

    fn settle_state(&mut self, node: NodeId, state: CallState)
        requires
            old(self).wf(),
        ensures
            final(self).wf(),
            final(self)@ == old(self)@.with_state(node@, state),
    {
        if state == CallState::Aborted {
            if self.voluntary_hangups > 0 {
                self.voluntary_hangups = self.voluntary_hangups - 1;
            }
            let _ = self.calls.remove(&node);
            let _ = self.generations.remove(&node);
            let _ = self.ended.remove(&node);
            let _ = self.stopped.remove(&node);
            let _ = self.frames.remove(&node);
            let _ = self.volume_open.remove(&node);
            self.drop_focus(StreamSource::Remote(node));
        } else {
            self.calls.insert(node, state);
        }
    }

    /// A call has come to a state. One that ended leaves nothing behind.
    pub fn set_call_state(&mut self, node: NodeId, state: CallState) -> (effects: Vec<CallEffect>)
        requires
            old(self).wf(),
        ensures
            final(self).wf(),
            final(self)@ == old(self)@.with_state(node@, state),
            effects@ == old(self)@.state_effects(node, state),
    {
        let ghost before = self@;
        let auto_accept = self.dev_pair && state == CallState::Incoming;
        let auto_share = self.dev_auto_share && !self.sharing_active && state == CallState::Active;
        let mut effects = self.tell_state(node, state);
        let mut steps: Vec<CallEffect> = Vec::new();
        self.settle_state(node, state);
        if self.sharing_active && !self.has_active_call() {
            steps.push(
                CallEffect::Send(
                    Command::ToggleSharing {
                        enabled: false,
                        target: None,
                        share_system_audio: false,
                    },
                ),
            );
        }
        steps.push(CallEffect::Ring(!self.dev_pair && self.any_call(CallState::Incoming)));
        if auto_accept {
            steps.push(CallEffect::Send(Command::HandleIncoming { node_id: node, accept: true }));
        }
        if auto_share {
            steps.push(
                CallEffect::Send(
                    Command::ToggleSharing {
                        enabled: true,
                        target: None,
                        share_system_audio: self.share_system_audio,
                    },
                ),
            );
        }
        assert(steps@ =~= before.state_steps(node, state));
        effects.append(&mut steps);
        effects
    }

    /// A stream was accepted.
    pub fn video_stream_accepted(&mut self, node: NodeId, generation: u64)
        requires
            old(self).wf(),
        ensures
            final(self).wf(),
            final(self)@ == old(self)@.accepted(node@, generation),
    {
        if self.call_state(&node) != Some(CallState::Active) {
            return;
        }
        match self.generations.get(&node) {
            Some(current) => if generation < *current {
                return;
            },
            None => {},
        }
        self.generations.insert(node, generation);
        let _ = self.ended.remove(&node);
        let newer = match self.stopped.get(&node) {
            Some(stopped) => generation > *stopped,
            None => false,
        };
        if newer {
            let _ = self.stopped.remove(&node);
        }
    }

    /// A picture came in.
    pub fn video_frame(&mut self, node: NodeId, generation: u64, shape: FrameShape) -> (taken: bool)
        requires
            old(self).wf(),
        ensures
            final(self).wf(),
            taken == old(self)@.takes_frame(node@, generation),
            final(self)@ == old(self)@.shown(node@, generation, shape),
    {
        if self.call_state(&node) != Some(CallState::Active) {
            return false;
        }
        let outdated = match self.generations.get(&node) {
            Some(current) => generation < *current,
            None => false,
        };
        let over = match self.ended.get(&node) {
            Some(ended) => generation <= *ended,
            None => false,
        };
        let unwatched = match self.stopped.get(&node) {
            Some(stopped) => generation <= *stopped,
            None => false,
        };
        if outdated || over || unwatched {
            return false;
        }
        self.generations.insert(node, generation);
        let count: u64 = match self.frames.get(&node) {
            Some(frame) => frame.generation,
            None => 0,
        };
        self.frames.insert(
            node,
            FrameInfo {
                width: shape.width,
                height: shape.height,
                stream_generation: generation,
                generation: next_u64(count),
                source_height: shape.source_height,
                source_fps: shape.source_fps,
                has_data: shape.has_data,
            },
        );
        true
    }

    /// A stream has ended; says whether it was the newest.
    pub fn video_stream_ended(&mut self, node: NodeId, generation: u64) -> (current: bool)
        requires
            old(self).wf(),
        ensures
            final(self).wf(),
            current == (held(old(self)@.generations, node@) == Some(generation)),
            final(self)@ == old(self)@.stream_over(node@, generation),
    {
        let current = match self.generations.get(&node) {
            Some(newest) => *newest == generation,
            None => false,
        };
        if !current {
            return false;
        }
        self.ended.insert(node, generation);
        let stopped = match self.stopped.get(&node) {
            Some(stopped) => *stopped == generation,
            None => false,
        };
        if stopped {
            let _ = self.stopped.remove(&node);
        }
        let _ = self.frames.remove(&node);
        self.drop_focus(StreamSource::Remote(node));
        true
    }

    /// Sharing began or ended; gives the card that tells so.
    pub fn sharing_toggled(&mut self, active: bool, system_audio: bool) -> (card: NotificationSpec)
        requires
            old(self).wf(),
        ensures
            final(self).wf(),
            final(self)@ == old(self)@.sharing_set(active, system_audio),
            opt_text(card.group_key) == Some("screen-sharing"@),
            card.kind == if active {
                NotificationKind::Success
            } else {
                NotificationKind::Info
            },
            card.title@ == if active && system_audio {
                "Sharing screen and sound"@
            } else if active {
                "Screen sharing started"@
            } else {
                "Screen sharing stopped"@
            },
            card.body@ == Seq::<char>::empty(),
            card.action is None,
            card.buttons@.len() == 0,
    {
        self.sharing_active = active;
        self.system_audio_active = active && system_audio;
        let none: String = String::new();
        assert(none@ =~= Seq::empty());
        if active {
            self.capture_error = None;
            notice_spec(
                NotificationKind::Success,
                "screen-sharing".to_owned(),
                if system_audio {
                    "Sharing screen and sound".to_owned()
                } else {
                    "Screen sharing started".to_owned()
                },
                none,
            )
        } else {
            self.preview = None;
            self.drop_focus(StreamSource::Local);
            notice_spec(
                NotificationKind::Info,
                "screen-sharing".to_owned(),
                "Screen sharing stopped".to_owned(),
                none,
            )
        }
    }

    /// Computer sound began or ended; it is never on without sharing.
    pub fn system_audio_toggled(&mut self, active: bool)
        requires
            old(self).wf(),
        ensures
            final(self).wf(),
            final(self)@ == (DeskView {
                system_audio_active: active && old(self)@.sharing_active,
                ..old(self)@
            }),
    {
        self.system_audio_active = active && self.sharing_active;
    }

    /// Computer sound could not be shared; gives the card that tells so.
    pub fn system_audio_failed(&mut self, message: String) -> (card: NotificationSpec)
        requires
            old(self).wf(),
        ensures
            final(self).wf(),
            final(self)@ == (DeskView { system_audio_active: false, ..old(self)@ }),
            opt_text(card.group_key) == Some("system-audio-error"@),
            card.kind == NotificationKind::Error,
            card.title@ == "Could not share computer sound"@,
            card.body@ == message@,
            card.action is None,
            card.buttons@.len() == 0,
    {
        self.system_audio_active = false;
        notice_spec(
            NotificationKind::Error,
            "system-audio-error".to_owned(),
            "Could not share computer sound".to_owned(),
            message,
        )
    }

    /// Sharing failed; gives the card that tells so.
    pub fn sharing_failed(&mut self, message: String) -> (card: NotificationSpec)
        requires
            old(self).wf(),
        ensures
            final(self).wf(),
            final(self)@ == (DeskView {
                sharing_active: false,
                system_audio_active: false,
                preview: None,
                capture_error: Some(message@),
                ..old(self)@
            }),
            opt_text(card.group_key) == Some("screen-sharing-error"@),
            card.kind == NotificationKind::Error,
            card.title@ == "Could not share your screen"@,
            card.body@ == message@,
            card.action is None,
            card.buttons@.len() == 0,
    {
        self.sharing_active = false;
        self.system_audio_active = false;
        self.preview = None;
        let card = notice_spec(
            NotificationKind::Error,
            "screen-sharing-error".to_owned(),
            "Could not share your screen".to_owned(),
            message.clone(),
        );
        self.capture_error = Some(message);
        card
    }

    /// A picture of our own was captured.
    pub fn preview_frame(&mut self, width: u32, height: u32, has_data: bool)
        requires
            old(self).wf(),
        ensures
            final(self).wf(),
            final(self)@ == old(self)@.previewed(width, height, has_data),
    {
        if !self.sharing_active {
            return;
        }
        let count: u64 = match &self.preview {
            Some(preview) => preview.generation,
            None => 0,
        };
        self.preview = Some(PreviewInfo { width, height, generation: next_u64(count), has_data });
    }

    /// Stops watching a peer's stream; gives what the service is told.
    pub fn stop_watching(&mut self, node: NodeId) -> (r: Option<Command>)
        requires
            old(self).wf(),
        ensures
            final(self).wf(),
            final(self)@ == old(self)@.unwatched(node@),
            r == if old(self)@.generations.contains_key(node@) {
                Some(
                    Command::SetWatching {
                        node_id: node,
                        generation: old(self)@.generations[node@],
                        watching: false,
                    },
                )
            } else {
                None
            },
            final(self).generations == old(self).generations,
    {
        let generation: u64 = match self.generations.get(&node) {
            Some(generation) => *generation,
            None => {
                return None;
            },
        };
        self.stopped.insert(node, generation);
        let _ = self.frames.remove(&node);
        self.drop_focus(StreamSource::Remote(node));
        Some(Command::SetWatching { node_id: node, generation, watching: false })
    }

    /// Watches a peer's stream again; gives what the service is told.
    pub fn resume_watching(&mut self, node: NodeId) -> (r: Option<Command>)
        requires
            old(self).wf(),
        ensures
            final(self).wf(),
            final(self)@ == old(self)@.rewatched(node@),
            r == if old(self)@.stopped.contains_key(node@) {
                Some(
                    Command::SetWatching {
                        node_id: node,
                        generation: old(self)@.stopped[node@],
                        watching: true,
                    },
                )
            } else {
                None
            },
    {
        match self.stopped.remove(&node) {
            Some(generation) => Some(
                Command::SetWatching { node_id: node, generation, watching: true },
            ),
            None => None,
        }
    }

    /// Whether our own picture can be shown.
    pub fn local_stream_ready(&self) -> (r: bool)
        ensures
            r == self@.local_ready(),
    {
        match &self.preview {
            Some(preview) => self.sharing_active && preview.width > 0 && preview.height > 0
                && preview.has_data,
            None => false,
        }
    }

    /// Switches the microphone; gives the sound and what the service is told.
    pub fn toggle_muted(&mut self) -> (r: (Sound, Command))
        requires
            old(self).wf(),
        ensures
            final(self).wf(),
            final(self)@ == (DeskView { muted: !old(self)@.muted, ..old(self)@ }),
            r.0 == if !old(self)@.muted {
                Sound::Button1
            } else {
                Sound::Button2
            },
            r.1 == (Command::SetMuted { muted: !old(self)@.muted }),
    {
        self.muted = !self.muted;
        (control_sound(self.muted), Command::SetMuted { muted: self.muted })
    }

    /// Switches all sound of calls; gives the sound and what the service is told. Capture stops
    /// before playback falls silent, and playback is back before capture.
    pub fn toggle_deafened(&mut self) -> (r: (Sound, Vec<Command>))
        requires
            old(self).wf(),
        ensures
            final(self).wf(),
            final(self)@ == (DeskView {
                muted: !old(self)@.deafened,
                deafened: !old(self)@.deafened,
                ..old(self)@
            }),
            r.0 == if !old(self)@.deafened {
                Sound::Button1
            } else {
                Sound::Button2
            },
            r.1@ == if !old(self)@.deafened {
                seq![Command::SetMuted { muted: true }, Command::SetDeafened { deafened: true }]
            } else {
                seq![Command::SetDeafened { deafened: false }, Command::SetMuted { muted: false }]
            },
    {
        let (deafened, muted) = next_deafen_audio_state(self.deafened);
        self.deafened = deafened;
        self.muted = muted;
        let mut commands: Vec<Command> = Vec::new();
        if deafened {
            commands.push(Command::SetMuted { muted: true });
            commands.push(Command::SetDeafened { deafened: true });
        } else {
            commands.push(Command::SetDeafened { deafened: false });
            commands.push(Command::SetMuted { muted: false });
        }
        (control_sound(deafened), commands)
    }

    /// Notes that the next call to end was ended by us.
    pub fn count_hangup(&mut self)
        requires
            old(self).wf(),
        ensures
            final(self).wf(),
            final(self)@ == (DeskView {
                voluntary_hangups: following(
                    old(self)@.voluntary_hangups,
                    u32::MAX as int,
                ),
                ..old(self)@
            }),
            final(self).calls == old(self).calls,
    {
        if self.voluntary_hangups == u32::MAX {
            self.voluntary_hangups = 0;
        } else {
            self.voluntary_hangups = self.voluntary_hangups + 1;
        }
    }

    /// Ends a call; its end will then sound no failure.
    pub fn hang_up_call(&mut self, node: NodeId) -> (r: (Sound, Command))
        requires
            old(self).wf(),
        ensures
            final(self).wf(),
            final(self)@ == (DeskView {
                voluntary_hangups: following(
                    old(self)@.voluntary_hangups,
                    u32::MAX as int,
                ),
                ..old(self)@
            }),
            r.0 == Sound::Whoosh1,
            r.1 == (Command::Abort { node_id: node }),
    {
        self.count_hangup();
        (Sound::Whoosh1, Command::Abort { node_id: node })
    }

    /// Sets whether computer sound is shared along; gives what the service is told, and nothing
    /// where nothing changes.
    pub fn set_share_system_audio(&mut self, enabled: bool) -> (r: Option<Option<Command>>)
        requires
            old(self).wf(),
        ensures
            final(self).wf(),
            final(self)@ == (DeskView { share_system_audio: enabled, ..old(self)@ }),
            r is Some <==> !(old(self)@.share_system_audio == enabled
                && old(self)@.system_audio_active == enabled),
            r is Some ==> r->0 == if old(self)@.sharing_active {
                Some(Command::SetSystemAudio { enabled })
            } else {
                None
            },
    {
        if self.share_system_audio == enabled && self.system_audio_active == enabled {
            return None;
        }
        self.share_system_audio = enabled;
        if self.sharing_active {
            Some(Some(Command::SetSystemAudio { enabled }))
        } else {
            Some(None)
        }
    }
}

/// The next state of sound when all of it is switched: whether it is off, and the microphone
/// with it.
pub fn next_deafen_audio_state(currently_deafened: bool) -> (r: (bool, bool))
    ensures
        r == (!currently_deafened, !currently_deafened),
{
    (!currently_deafened, !currently_deafened)
}

/// Whether a contact can be called: only while there is no call to show.
pub fn friend_call_enabled(state: Option<CallState>) -> (r: bool)
    ensures
        r == !(state == Some(CallState::Incoming) || state == Some(CallState::Calling) || state
            == Some(CallState::Active)),
{
    match state {
        Some(CallState::Incoming) => false,
        Some(CallState::Calling) => false,
        Some(CallState::Active) => false,
        _ => true,
    }
}

/// The key of the card of an incoming call.
pub fn call_key(node: &NodeId) -> (s: String)
    ensures
        s@ == "call:"@ + hex_lower(node@),
{
    let mut s: String = "call:".to_owned();
    s.append(node.to_text().as_str());
    s
}

/// The card of an incoming call.
pub fn incoming_card(node: &NodeId, name: String) -> (card: NotificationSpec)
    ensures
        opt_text(card.group_key) == Some("call:"@ + hex_lower(node@)),
        card.kind == NotificationKind::IncomingCall,
        card.title == name,
        card.body@ == "Wants to start a voice call"@,
        card.action == Some(NotificationAction::OpenCalls),
        card.buttons@.len() == 2,
        card.buttons@[0].label@ == "Decline"@,
        card.buttons@[0].action matches NotificationAction::DeclineCall(id) && id@ == hex_lower(
            node@,
        ),
        !card.buttons@[0].emphasized,
        card.buttons@[1].label@ == "Accept"@,
        card.buttons@[1].action matches NotificationAction::AcceptCall(id) && id@ == hex_lower(
            node@,
        ),
        card.buttons@[1].emphasized,
{
    incoming_call_spec(node.to_text(), name)
}

/// The card of a call that was connected.
pub fn connected_card(node: &NodeId, name: String) -> (card: NotificationSpec)
    ensures
        opt_text(card.group_key) == Some("call-connected:"@ + hex_lower(node@)),
        card.kind == NotificationKind::Success,
        card.title@ == "Call connected"@,
        card.body == name,
        card.action is None,
        card.buttons@.len() == 0,
{
    let mut key: String = "call-connected:".to_owned();
    key.append(node.to_text().as_str());
    notice_spec(NotificationKind::Success, key, "Call connected".to_owned(), name)
}

} // verus!
