//! The window: what of it is in sight, and what closes it.
use vstd::prelude::*;
use crate::attachments::ImagePreviewMode;
use crate::calls::StreamViewMode;
use crate::client_status::{call_views, CallView, GroupCallAnnouncement};
use crate::digits::{decimal, push_decimal};
use crate::group_calls::{reported, GroupCalls};
use crate::node::{parsed_key, NodeId};
use crate::notifications::NotificationAction;
use crate::roster::opt_key;

verus! {

/// Which half of the program is in sight.
#[derive(Clone, Copy, Debug, PartialEq, Eq, Structural)]
pub enum AppMode {
    Text,
    Calls,
}

// ---------------------------------------------------------------------------
// Closing and showing
// ---------------------------------------------------------------------------

/// Whether the window is in sight, and what closing it means.
#[derive(Clone, Copy, Debug, PartialEq, Eq, Structural)]
pub struct WindowState {
    pub visible: bool,
    pub close_to_tray: bool,
    pub quit_requested: bool,
}

/// What follows on a request to close the window.
#[derive(Clone, Copy, Debug, PartialEq, Eq, Structural)]
pub enum CloseStep {
    /// Nothing: the window closes if it was asked to.
    Let,
    /// The window stays open, out of sight as it is.
    Cancel,
    /// The window stays open and goes out of sight; remote pictures are paused.
    Hide,
}

/// What the icon in the tray asks for.
#[derive(Clone, Copy, Debug, PartialEq, Eq, Structural)]
pub enum TrayAction {
    Show,
    Quit,
}

/// What follows on what the tray asked for.
#[derive(Clone, Copy, Debug, PartialEq, Eq, Structural)]
pub struct TrayStep {
    /// Whether the window is shown that was out of sight: remote pictures are resumed.
    pub revealed: bool,
    /// Whether the window comes to the front.
    pub focus: bool,
    /// Whether the program ends.
    pub close: bool,
}

/// What follows on a request to close the window, if there is one.
pub open spec fn close_step(state: WindowState, close_requested: bool) -> CloseStep {
    if state.quit_requested || !state.close_to_tray || !close_requested {
        CloseStep::Let
    } else if state.visible {
        CloseStep::Hide
    } else {
        CloseStep::Cancel
    }
}

impl WindowState {
    /// The window at the start, before its icon is in the tray.
    pub fn start(start_hidden: bool) -> (w: WindowState)
        ensures
            w == (WindowState {
                visible: !start_hidden,
                close_to_tray: false,
                quit_requested: false,
            }),
    {
        WindowState { visible: !start_hidden, close_to_tray: false, quit_requested: false }
    }

    /// The icon was put in the tray, or could not be; says whether the program goes on. Without
    /// the icon one that was started out of sight could not be brought in sight again.
    pub fn tray_made(&mut self, made: bool, start_hidden: bool) -> (goes_on: bool)
        ensures
            goes_on == (made || !start_hidden),
            *final(self) == (WindowState {
                close_to_tray: old(self).close_to_tray || made,
                ..*old(self)
            }),
    {
        if made {
            self.close_to_tray = true;
        }
        made || !start_hidden
    }

    /// A request to close the window, if there is one. With an icon in the tray it only goes out
    /// of sight, unless the program is to end.
    pub fn handle_close_request(&mut self, close_requested: bool) -> (r: CloseStep)
        ensures
            r == close_step(*old(self), close_requested),
            *final(self) == (WindowState {
                visible: old(self).visible && r != CloseStep::Hide,
                ..*old(self)
            }),
    {
        if self.quit_requested || !self.close_to_tray || !close_requested {
            return CloseStep::Let;
        }
        if !self.visible {
            return CloseStep::Cancel;
        }
        self.visible = false;
        CloseStep::Hide
    }

    /// Shows the window; says whether it was out of sight.
    pub fn show_window(&mut self) -> (revealed: bool)
        ensures
            revealed == !old(self).visible,
            *final(self) == (WindowState { visible: true, ..*old(self) }),
    {
        let revealed = !self.visible;
        self.visible = true;
        revealed
    }

    /// Asks for the end of the program; says whether that is new.
    pub fn quit(&mut self) -> (fresh: bool)
        ensures
            fresh == !old(self).quit_requested,
            *final(self) == (WindowState { quit_requested: true, ..*old(self) }),
    {
        let fresh = !self.quit_requested;
        self.quit_requested = true;
        fresh
    }

    /// Carries out what the tray asked for; what comes after the end of the program is left.
    pub fn process_tray(&mut self, actions: &Vec<TrayAction>) -> (r: TrayStep)
        ensures
            r.focus == (actions@.len() > 0 && actions@[0] == TrayAction::Show),
            r.revealed == (r.focus && !old(self).visible),
            r.close == (actions@.contains(TrayAction::Quit) && !old(self).quit_requested),
            *final(self) == (WindowState {
                visible: old(self).visible || r.focus,
                quit_requested: old(self).quit_requested || actions@.contains(TrayAction::Quit),
                ..*old(self)
            }),
    {
        let mut step = TrayStep { revealed: false, focus: false, close: false };
        let mut i: usize = 0;
        while i < actions.len()
            invariant
                0 <= i <= actions@.len(),
                forall|j: int| 0 <= j < i ==> actions@[j] == TrayAction::Show,
                step.focus == (i > 0),
                step.revealed == (step.focus && !old(self).visible),
                !step.close,
                *self == (WindowState { visible: old(self).visible || step.focus, ..*old(self) }),
            decreases actions@.len() - i,
        {
            match actions[i] {
                TrayAction::Show => {
                    step.focus = true;
                    if self.show_window() {
                        step.revealed = true;
                    }
                },
                TrayAction::Quit => {
                    assert(actions@[i as int] == TrayAction::Quit);
                    assert(actions@.contains(TrayAction::Quit));
                    step.close = self.quit();
                    return step;
                },
            }
            i += 1;
        }
        assert(!actions@.contains(TrayAction::Quit));
        step
    }
}

/// Closing the window never ends the program while its icon is in the tray, unless its end was
/// asked for.
pub proof fn law_closing_keeps_the_program(state: WindowState)
    requires
        state.close_to_tray,
        !state.quit_requested,
    ensures
        close_step(state, true) != CloseStep::Let,
{
}

// ---------------------------------------------------------------------------
// What is in sight
// ---------------------------------------------------------------------------

/// What the layout of streams is brought to: they only fill the window during an active call.
pub fn settled_view_mode(mode: AppMode, has_active_call: bool, current: StreamViewMode) -> (r:
    StreamViewMode)
    ensures
        r == if mode == AppMode::Text || !has_active_call {
            StreamViewMode::Normal
        } else {
            current
        },
{
    if mode == AppMode::Text || !has_active_call {
        StreamViewMode::Normal
    } else {
        current
    }
}

/// Whether the contacts are in sight: on the side of calls, where they are asked for or there is
/// no active call.
pub fn contacts_visible(mode: AppMode, show_contacts: bool, has_active_call: bool) -> (r: bool)
    ensures
        r == (mode == AppMode::Calls && (show_contacts || !has_active_call)),
{
    mode == AppMode::Calls && (show_contacts || !has_active_call)
}

/// The dialogs that are in sight.
#[derive(Clone, Copy, Debug, PartialEq, Eq, Structural)]
pub struct Dialogs {
    pub contacts: bool,
    pub settings: bool,
    /// Whether pictures that are painted past the dialogs are taken out of sight.
    pub cover_video: bool,
}

/// The dialogs that are in sight. Settings come before contacts, and stay until they were made.
pub fn dialogs(
    contacts_wanted: bool,
    show_settings: bool,
    configured: bool,
    update_prompt: bool,
    capture_picker: bool,
) -> (r: Dialogs)
    ensures
        r.contacts == (contacts_wanted && !show_settings && configured),
        r.settings == (show_settings || !configured),
        r.cover_video == (show_settings || !configured || update_prompt || contacts_wanted
            || capture_picker),
{
    Dialogs {
        contacts: contacts_wanted && !show_settings && configured,
        settings: show_settings || !configured,
        cover_video: show_settings || !configured || update_prompt || contacts_wanted
            || capture_picker,
    }
}

/// In how many milliseconds the window is painted again by itself, where it is.
pub fn repaint_after(
    show_system_usage: bool,
    window_visible: bool,
    has_visible_call: bool,
) -> (r: Option<u64>)
    ensures
        r == if window_visible && has_visible_call {
            Some(50u64)
        } else if !window_visible {
            Some(250u64)
        } else if show_system_usage {
            Some(1000u64)
        } else {
            None
        },
{
    if window_visible && has_visible_call {
        Some(50)
    } else if !window_visible {
        Some(250)
    } else if show_system_usage {
        Some(1000)
    } else {
        None
    }
}

/// What the Escape key leaves.
#[derive(Clone, Copy, Debug, PartialEq, Eq, Structural)]
pub enum Escape {
    CapturePicker,
    /// The image goes back to a floating window.
    ImageToFloating,
    Image,
    Focus,
    ViewMode,
}

/// What the Escape key leaves: what lies on top.
pub fn escape(picker: bool, preview: Option<ImagePreviewMode>, stream_focused: bool) -> (r: Escape)
    ensures
        r == if picker {
            Escape::CapturePicker
        } else if preview is Some {
            if preview->0 == ImagePreviewMode::Floating {
                Escape::Image
            } else {
                Escape::ImageToFloating
            }
        } else if stream_focused {
            Escape::Focus
        } else {
            Escape::ViewMode
        },
{
    if picker {
        return Escape::CapturePicker;
    }
    match preview {
        Some(mode) => if mode == ImagePreviewMode::Floating {
            Escape::Image
        } else {
            Escape::ImageToFloating
        },
        None => if stream_focused {
            Escape::Focus
        } else {
            Escape::ViewMode
        },
    }
}

/// The title of the window.
pub fn window_title(session: Option<&str>, peer_index: usize) -> (s: String)
    ensures
        s@ == match session {
            Some(session) => "Wire · DEV "@ + session@ + " · P"@ + decimal(peer_index as nat),
            None => "Wire"@,
        },
{
    match session {
        Some(session) => {
            let mut s: String = "Wire · DEV ".to_owned();
            s.append(session);
            s.append(" · P");
            push_decimal(&mut s, peer_index as u64);
            s
        },
        None => "Wire".to_owned(),
    }
}

/// Whether some call goes on.
pub open spec fn any_goes_on(calls: Seq<CallView>) -> bool {
    exists|i: int| 0 <= i < calls.len() && (#[trigger] calls[i]).ended_at_ms is None
}

/// Whether the side of calls gets a mark: we are in a group call, or one goes on.
pub fn call_available(groups: &GroupCalls) -> (r: bool)
    ensures
        r == (groups.local is Some || any_goes_on(reported(groups.reports.entries@))),
{
    if groups.local.is_some() {
        return true;
    }
    let ghost all = groups.reports.entries@;
    let mut i: usize = 0;
    assert(all.take(0) =~= Seq::empty());
    while i < groups.reports.entries.len()
        invariant
            0 <= i <= groups.reports.entries@.len(),
            all == groups.reports.entries@,
            groups.local is None,
            !any_goes_on(reported(all.take(i as int))),
        decreases groups.reports.entries@.len() - i,
    {
        let list = &groups.reports.entries[i].1;
        let ghost before = reported(all.take(i as int));
        let ghost after = reported(all.take(i as int + 1));
        assert(all.take(i as int + 1).drop_last() =~= all.take(i as int));
        assert(after == before + call_views(list@));
        let mut j: usize = 0;
        while j < list.len()
            invariant
                0 <= j <= list@.len(),
                i < groups.reports.entries@.len(),
                all == groups.reports.entries@,
                list == groups.reports.entries@[i as int].1,
                after == reported(all.take(i as int + 1)),
                after == before + call_views(list@),
                forall|k: int| 0 <= k < j ==> (#[trigger] list@[k])@.ended_at_ms is Some,
            decreases list@.len() - j,
        {
            if list[j].ended_at_ms.is_none() {
                proof {
                    assert(after[before.len() + j] == list@[j as int]@);
                    lemma_goes_on_grows(all, i as int + 1, before.len() + j);
                }
                return true;
            }
            j += 1;
        }
        proof {
            assert forall|k: int| 0 <= k < after.len() implies (#[trigger] after[k]).ended_at_ms
                is Some by {
                if k < before.len() {
                    assert(after[k] == before[k]);
                } else {
                    assert(after[k] == list@[k - before.len()]@);
                }
            }
        }
        i += 1;
    }
    assert(all.take(all.len() as int) =~= all);
    false
}

proof fn lemma_goes_on_grows(
    entries: Seq<(NodeId, Vec<GroupCallAnnouncement>)>,
    n: int,
    k: int,
)
    requires
        0 <= n <= entries.len(),
        0 <= k < reported(entries.take(n)).len(),
        reported(entries.take(n))[k].ended_at_ms is None,
    ensures
        any_goes_on(reported(entries)),
    decreases entries.len() - n,
{
    if n == entries.len() {
        assert(entries.take(n) =~= entries);
    } else {
        let short = reported(entries.take(n));
        let long = reported(entries.take(n + 1));
        assert(entries.take(n + 1).drop_last() =~= entries.take(n));
        assert(long[k] == short[k]);
        lemma_goes_on_grows(entries, n + 1, k);
    }
}

// ---------------------------------------------------------------------------
// Clicks on cards
// ---------------------------------------------------------------------------

/// What follows on a click on a card.
#[derive(Clone, Copy, Debug)]
pub struct ActionStep {
    /// Which half of the program comes in sight, where that changes.
    pub mode: Option<AppMode>,
    /// Whether the conversation of the card is selected.
    pub select: bool,
    /// Whether the settings are closed.
    pub close_settings: bool,
    /// Whether streams go back to their normal layout.
    pub normal_layout: bool,
    /// The call that is answered.
    pub accept: Option<NodeId>,
    /// The call that is declined.
    pub decline: Option<NodeId>,
}

/// The peer that a text names.
pub open spec fn named_peer(text: Seq<char>) -> Option<Seq<u8>> {
    match parsed_key(text) {
        Ok(key) => Some(key),
        Err(_) => None,
    }
}

fn read_peer(text: &str) -> (r: Option<NodeId>)
    ensures
        opt_key(r) == named_peer(text@),
{
    match NodeId::parse(text) {
        Ok(node) => Some(node),
        Err(_) => None,
    }
}

/// What follows on a click on a card. One for a conversation that is gone changes nothing; the
/// window comes to the front in any case.
pub fn action_step(action: &NotificationAction, conversation_known: bool) -> (r: ActionStep)
    ensures
        r.mode == match *action {
            NotificationAction::OpenConversation(_) => if conversation_known {
                Some(AppMode::Text)
            } else {
                None
            },
            _ => Some(AppMode::Calls),
        },
        r.select == (action is OpenConversation && conversation_known),
        r.close_settings == (!(action is OpenConversation) || conversation_known),
        r.normal_layout == r.select,
        opt_key(r.accept) == match *action {
            NotificationAction::AcceptCall(text) => named_peer(text@),
            _ => None,
        },
        opt_key(r.decline) == match *action {
            NotificationAction::DeclineCall(text) => named_peer(text@),
            _ => None,
        },
{
    match action {
        NotificationAction::OpenConversation(_) => ActionStep {
            mode: if conversation_known {
                Some(AppMode::Text)
            } else {
                None
            },
            select: conversation_known,
            close_settings: conversation_known,
            normal_layout: conversation_known,
            accept: None,
            decline: None,
        },
        NotificationAction::OpenCalls => ActionStep {
            mode: Some(AppMode::Calls),
            select: false,
            close_settings: true,
            normal_layout: false,
            accept: None,
            decline: None,
        },
        NotificationAction::AcceptCall(text) => ActionStep {
            mode: Some(AppMode::Calls),
            select: false,
            close_settings: true,
            normal_layout: false,
            accept: read_peer(text.as_str()),
            decline: None,
        },
        NotificationAction::DeclineCall(text) => ActionStep {
            mode: Some(AppMode::Calls),
            select: false,
            close_settings: true,
            normal_layout: false,
            accept: None,
            decline: read_peer(text.as_str()),
        },
    }
}

// ---------------------------------------------------------------------------
// The renderer
// ---------------------------------------------------------------------------

/// Why no picture could be had from the surface of the window.
#[derive(Clone, Copy, Debug, PartialEq, Eq, Structural)]
pub enum SurfaceError {
    Timeout,
    Outdated,
    Lost,
    OutOfMemory,
    Other,
}

/// What follows.
#[derive(Clone, Copy, Debug, PartialEq, Eq, Structural)]
pub enum SurfaceErrorAction {
    SkipFrame,
    RecreateSurface,
}

/// What follows on an error of the surface: one that can be made anew is, and for all others this
/// frame is left out.
pub fn wgpu_surface_error_action(error: SurfaceError) -> (r: SurfaceErrorAction)
    ensures
        r == if error == SurfaceError::Lost || error == SurfaceError::Other {
            SurfaceErrorAction::RecreateSurface
        } else {
            SurfaceErrorAction::SkipFrame
        },
{
    match error {
        SurfaceError::Outdated => SurfaceErrorAction::SkipFrame,
        SurfaceError::Timeout => SurfaceErrorAction::SkipFrame,
        SurfaceError::Lost => SurfaceErrorAction::RecreateSurface,
        SurfaceError::Other => SurfaceErrorAction::RecreateSurface,
        SurfaceError::OutOfMemory => SurfaceErrorAction::SkipFrame,
    }
}

/// With an icon in the tray, closing the window takes it out of sight, or leaves it so; without
/// one, or once the end was asked for, it closes. Without a request nothing happens.
pub proof fn law_closing_hides_the_window(state: WindowState)
    ensures
        state.close_to_tray && !state.quit_requested && state.visible ==> close_step(state, true)
            == CloseStep::Hide,
        state.close_to_tray && !state.quit_requested && !state.visible ==> close_step(state, true)
            == CloseStep::Cancel,
        !state.close_to_tray || state.quit_requested ==> close_step(state, true) == CloseStep::Let,
        close_step(state, false) == CloseStep::Let,
{
}

/// A call that goes on marks the side of calls, whoever reports it; one that has ended does not.
pub proof fn law_calls_that_go_on_are_marked(calls: Seq<CallView>, call: CallView)
    ensures
        any_goes_on(calls.push(call)) <==> any_goes_on(calls) || call.ended_at_ms is None,
        !any_goes_on(Seq::empty()),
{
    let more = calls.push(call);
    if any_goes_on(calls) {
        let i = choose|i: int| 0 <= i < calls.len() && (#[trigger] calls[i]).ended_at_ms is None;
        assert(more[i] == calls[i]);
    }
    if any_goes_on(more) {
        let i = choose|i: int| 0 <= i < more.len() && (#[trigger] more[i]).ended_at_ms is None;
        if i < calls.len() {
            assert(calls[i] == more[i]);
        }
    }
    assert(more[calls.len() as int] == call);
}

} // verus!
