//! Secondary OS windows: requests to open and close windows and runtime changes to
//! open ones are queued here and drained by the shell each turn. A window's content
//! and callbacks stay with the caller, keyed by its id.
use vstd::prelude::*;
use crate::overlay::{self, Overlays};
use crate::dialog::{self, Dialogs};
use crate::sheet::{self, Sheets};
use crate::toast::{self, Toasts};

verus! {

/// Identifies an open secondary window.
pub type WindowId = u64;

/// A decoded window icon: RGBA8 pixels + dimensions.
#[derive(Clone, Debug)]
pub struct WindowIcon {
    pub rgba: Vec<u8>,
    pub width: u32,
    pub height: u32,
}

/// A runtime change to an already-open window.
#[derive(Clone, Debug)]
pub enum WindowCommand {
    SetTitle(WindowId, String),
    SetResizable(WindowId, bool),
    SetMaximized(WindowId, bool),
    Minimize(WindowId),
    SetPosition(WindowId, i32, i32),
    SetSize(WindowId, u32, u32),
    Focus(WindowId),
}

/// A command as values.
pub enum CommandView {
    SetTitle(WindowId, Seq<char>),
    SetResizable(WindowId, bool),
    SetMaximized(WindowId, bool),
    Minimize(WindowId),
    SetPosition(WindowId, i32, i32),
    SetSize(WindowId, u32, u32),
    Focus(WindowId),
}

impl View for WindowCommand {
    type V = CommandView;

    open spec fn view(&self) -> CommandView {
        match self {
            WindowCommand::SetTitle(id, t) => CommandView::SetTitle(*id, t@),
            WindowCommand::SetResizable(id, b) => CommandView::SetResizable(*id, *b),
            WindowCommand::SetMaximized(id, b) => CommandView::SetMaximized(*id, *b),
            WindowCommand::Minimize(id) => CommandView::Minimize(*id),
            WindowCommand::SetPosition(id, x, y) => CommandView::SetPosition(*id, *x, *y),
            WindowCommand::SetSize(id, w, h) => CommandView::SetSize(*id, *w, *h),
            WindowCommand::Focus(id) => CommandView::Focus(*id),
        }
    }
}

/// The commands as values.
pub open spec fn commands_view(c: Seq<WindowCommand>) -> Seq<CommandView> {
    c.map_values(|x: WindowCommand| x@)
}

/// The queues the shell drains: windows to open, windows to close, commands.
pub struct WindowQueues {
    next_id: WindowId,
    open: Vec<WindowId>,
    close: Vec<WindowId>,
    cmds: Vec<WindowCommand>,
}

impl WindowQueues {
    /// The id the next window gets.
    pub closed spec fn next_id(&self) -> WindowId {
        self.next_id
    }

    /// The windows waiting to open, in request order.
    pub closed spec fn open_queue(&self) -> Seq<WindowId> {
        self.open@
    }

    /// The windows waiting to close, in request order.
    pub closed spec fn close_queue(&self) -> Seq<WindowId> {
        self.close@
    }

    /// The commands waiting, in request order.
    pub closed spec fn command_queue(&self) -> Seq<CommandView> {
        commands_view(self.cmds@)
    }

    /// Empty queues; window ids start at 1.
    pub fn new() -> (r: WindowQueues)
        ensures
            r.next_id() == 1,
            r.open_queue() == Seq::<WindowId>::empty(),
            r.close_queue() == Seq::<WindowId>::empty(),
            r.command_queue() == Seq::<CommandView>::empty(),
    {
        let r = WindowQueues { next_id: 1, open: Vec::new(), close: Vec::new(), cmds: Vec::new() };
        assert(r.command_queue() =~= Seq::<CommandView>::empty());
        r
    }
}

/// Queue a window to open; the shell spawns it on the next turn. Returns its id.
pub fn open_window(q: &mut WindowQueues) -> (r: WindowId)
    requires
        old(q).next_id() < u64::MAX,
    ensures
        r == old(q).next_id(),
        final(q).next_id() == old(q).next_id() + 1,
        final(q).open_queue() == old(q).open_queue().push(r),
        final(q).close_queue() == old(q).close_queue(),
        final(q).command_queue() == old(q).command_queue(),
{
    let id = q.next_id;
    q.next_id = id + 1;
    q.open.push(id);
    id
}

/// Request that the window with `id` be closed.
pub fn close_window(q: &mut WindowQueues, id: WindowId)
    ensures
        final(q).next_id() == old(q).next_id(),
        final(q).open_queue() == old(q).open_queue(),
        final(q).close_queue() == old(q).close_queue().push(id),
        final(q).command_queue() == old(q).command_queue(),
{
    q.close.push(id);
}

/// Queue a runtime command.
pub fn push_cmd(q: &mut WindowQueues, cmd: WindowCommand)
    ensures
        final(q).next_id() == old(q).next_id(),
        final(q).open_queue() == old(q).open_queue(),
        final(q).close_queue() == old(q).close_queue(),
        final(q).command_queue() == old(q).command_queue().push(cmd@),
{
    let ghost before = q.cmds@;
    q.cmds.push(cmd);
    assert(commands_view(q.cmds@) =~= commands_view(before).push(cmd@));
}

/// Change an open window's title at runtime.
pub fn set_window_title(q: &mut WindowQueues, id: WindowId, title: String)
    ensures
        final(q).next_id() == old(q).next_id(),
        final(q).open_queue() == old(q).open_queue(),
        final(q).close_queue() == old(q).close_queue(),
        final(q).command_queue() == old(q).command_queue().push(CommandView::SetTitle(id, title@)),
{
    push_cmd(q, WindowCommand::SetTitle(id, title));
}

/// Toggle whether an open window can be resized.
pub fn set_window_resizable(q: &mut WindowQueues, id: WindowId, resizable: bool)
    ensures
        final(q).next_id() == old(q).next_id(),
        final(q).open_queue() == old(q).open_queue(),
        final(q).close_queue() == old(q).close_queue(),
        final(q).command_queue() == old(q).command_queue().push(
            CommandView::SetResizable(id, resizable),
        ),
{
    push_cmd(q, WindowCommand::SetResizable(id, resizable));
}

/// Maximize / un-maximize an open window.
pub fn set_window_maximized(q: &mut WindowQueues, id: WindowId, maximized: bool)
    ensures
        final(q).next_id() == old(q).next_id(),
        final(q).open_queue() == old(q).open_queue(),
        final(q).close_queue() == old(q).close_queue(),
        final(q).command_queue() == old(q).command_queue().push(
            CommandView::SetMaximized(id, maximized),
        ),
{
    push_cmd(q, WindowCommand::SetMaximized(id, maximized));
}

/// Minimize an open window to the taskbar/dock.
pub fn minimize_window(q: &mut WindowQueues, id: WindowId)
    ensures
        final(q).next_id() == old(q).next_id(),
        final(q).open_queue() == old(q).open_queue(),
        final(q).close_queue() == old(q).close_queue(),
        final(q).command_queue() == old(q).command_queue().push(CommandView::Minimize(id)),
{
    push_cmd(q, WindowCommand::Minimize(id));
}

/// Move an open window's top-left to `(x, y)` (logical px).
pub fn set_window_position(q: &mut WindowQueues, id: WindowId, x: i32, y: i32)
    ensures
        final(q).next_id() == old(q).next_id(),
        final(q).open_queue() == old(q).open_queue(),
        final(q).close_queue() == old(q).close_queue(),
        final(q).command_queue() == old(q).command_queue().push(CommandView::SetPosition(id, x, y)),
{
    push_cmd(q, WindowCommand::SetPosition(id, x, y));
}

/// Resize an open window (logical px).
pub fn set_window_size(q: &mut WindowQueues, id: WindowId, width: u32, height: u32)
    ensures
        final(q).next_id() == old(q).next_id(),
        final(q).open_queue() == old(q).open_queue(),
        final(q).close_queue() == old(q).close_queue(),
        final(q).command_queue() == old(q).command_queue().push(
            CommandView::SetSize(id, width, height),
        ),
{
    push_cmd(q, WindowCommand::SetSize(id, width, height));
}

/// Bring an open window to the front and focus it.
pub fn focus_window(q: &mut WindowQueues, id: WindowId)
    ensures
        final(q).next_id() == old(q).next_id(),
        final(q).open_queue() == old(q).open_queue(),
        final(q).close_queue() == old(q).close_queue(),
        final(q).command_queue() == old(q).command_queue().push(CommandView::Focus(id)),
{
    push_cmd(q, WindowCommand::Focus(id));
}

/// Drain pending open requests (shell-only).
pub fn take_open_requests(q: &mut WindowQueues) -> (r: Vec<WindowId>)
    ensures
        r@ == old(q).open_queue(),
        final(q).open_queue() == Seq::<WindowId>::empty(),
        final(q).next_id() == old(q).next_id(),
        final(q).close_queue() == old(q).close_queue(),
        final(q).command_queue() == old(q).command_queue(),
{
    let mut out: Vec<WindowId> = Vec::new();
    std::mem::swap(&mut out, &mut q.open);
    out
}

/// Drain pending close requests (shell-only).
pub fn take_close_requests(q: &mut WindowQueues) -> (r: Vec<WindowId>)
    ensures
        r@ == old(q).close_queue(),
        final(q).close_queue() == Seq::<WindowId>::empty(),
        final(q).next_id() == old(q).next_id(),
        final(q).open_queue() == old(q).open_queue(),
        final(q).command_queue() == old(q).command_queue(),
{
    let mut out: Vec<WindowId> = Vec::new();
    std::mem::swap(&mut out, &mut q.close);
    out
}

/// Drain pending runtime window commands (shell-only).
pub fn take_window_commands(q: &mut WindowQueues) -> (r: Vec<WindowCommand>)
    ensures
        commands_view(r@) == old(q).command_queue(),
        final(q).command_queue() == Seq::<CommandView>::empty(),
        final(q).next_id() == old(q).next_id(),
        final(q).open_queue() == old(q).open_queue(),
        final(q).close_queue() == old(q).close_queue(),
{
    let mut out: Vec<WindowCommand> = Vec::new();
    std::mem::swap(&mut out, &mut q.cmds);
    assert(commands_view(q.cmds@) =~= Seq::<CommandView>::empty());
    out
}

/// Release everything the services hold for a closed window: its overlay and
/// passive panels, modal dialog, sheet and toasts.
pub fn drop_window_state(
    o: &mut Overlays,
    d: &mut Dialogs,
    s: &mut Sheets,
    t: &mut Toasts,
    window: u32,
)
    ensures
        final(o).overlays() == old(o).overlays().remove(window),
        final(o).passives() == old(o).passives().remove(window),
        final(d).modals() == old(d).modals().remove(window),
        final(d).next_id() == old(d).next_id(),
        final(s).sheets() == old(s).sheets().remove(window),
        final(s).next_id() == old(s).next_id(),
        final(t).stacks() == old(t).stacks().remove(window),
        final(t).next_id() == old(t).next_id(),
{
    overlay::drop_window(o, window);
    dialog::drop_window(d, window);
    sheet::drop_window(s, window);
    toast::drop_window(t, window);
}

/// Draining hands out every queued request exactly once, in order: what was queued
/// before a drain is what the drain returns, and the queue starts over empty.
pub proof fn drain_returns_requests_in_order(before: Seq<WindowId>, ids: Seq<WindowId>)
    ensures
        (before + ids).take(before.len() as int) == before,
        (before + ids).skip(before.len() as int) == ids,
{
    assert((before + ids).take(before.len() as int) =~= before);
    assert((before + ids).skip(before.len() as int) =~= ids);
}

} // verus!
