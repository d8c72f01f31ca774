//! The window manager as a state machine: what each event does to the state
//! and which requests to the display it calls for.

use crate::grammar::{decode, resolve, CommandModel, ConfigModel};
use vstd::prelude::*;

verus! {

/// Position, size and stacking of a window, as a client asks for them.
#[derive(Clone, Copy, Debug, PartialEq, Eq, Structural)]
pub struct Geometry {
    pub x: i32,
    pub y: i32,
    pub width: i32,
    pub height: i32,
    pub border_width: i32,
    pub sibling: u64,
    pub stack_mode: i32,
}

/// An event as plain values.
pub enum EventModel {
    KeyPress { key: Seq<char>, modifiers: u32 },
    CreateNotify { window: u64 },
    DestroyNotify { window: u64 },
    MapRequest { window: u64 },
    ConfigureRequest { window: u64, geometry: Geometry, value_mask: u64 },
    Other,
}

/// A request to the display as plain values.
pub enum RequestModel {
    MapWindow(u64),
    UnmapWindow(u64),
    Configure { window: u64, geometry: Geometry, value_mask: u64 },
    Spawn { program: Seq<char>, args: Seq<Seq<char>> },
    MoveFocused(usize),
}

/// The state of the window manager as plain values: each managed window with
/// its workspace, the active workspace, and whether the loop goes on.
#[verifier::ext_equal]
pub struct WmModel {
    pub root: u64,
    pub active: usize,
    pub windows: Map<u64, usize>,
    pub running: bool,
    pub config: ConfigModel,
}

/// The request that shows a window of the active workspace and hides any other.
pub open spec fn visibility(window: u64, workspace: usize, active: usize) -> RequestModel {
    if workspace == active {
        RequestModel::MapWindow(window)
    } else {
        RequestModel::UnmapWindow(window)
    }
}

/// The window that a request shows or hides.
pub open spec fn subject(request: RequestModel) -> Option<u64> {
    match request {
        RequestModel::MapWindow(w) => Some(w),
        RequestModel::UnmapWindow(w) => Some(w),
        _ => None,
    }
}

/// `requests` is one visibility pass over `windows`: one request for each
/// managed window and no other, in any order.
pub open spec fn is_visibility_pass(
    requests: Seq<RequestModel>,
    windows: Map<u64, usize>,
    active: usize,
) -> bool {
    &&& requests.len() == windows.dom().len()
    &&& forall|i: int|
        0 <= i < requests.len() ==> match subject(#[trigger] requests[i]) {
            Some(w) => windows.contains_key(w) && requests[i] == visibility(
                w,
                windows[w],
                active,
            ),
            None => false,
        }
    &&& forall|w: u64| #[trigger]
        windows.contains_key(w) ==> requests.contains(visibility(w, windows[w], active))
}

/// The windows that are mapped once `requests` have been carried out, in
/// order, on a display where `mapped` were.
pub open spec fn mapped_after(requests: Seq<RequestModel>, mapped: Set<u64>) -> Set<u64>
    decreases requests.len(),
{
    if requests.len() == 0 {
        mapped
    } else {
        let before = mapped_after(requests.drop_last(), mapped);
        match requests.last() {
            RequestModel::MapWindow(w) => before.insert(w),
            RequestModel::UnmapWindow(w) => before.remove(w),
            _ => before,
        }
    }
}

/// Whether carrying out `command` in state `pre` may leave state `post` and
/// call for `requests`.
pub open spec fn dispatched(
    pre: WmModel,
    command: CommandModel,
    post: WmModel,
    requests: Seq<RequestModel>,
) -> bool {
    match command {
        CommandModel::Exit => post == (WmModel { running: false, ..pre }) && requests.len() == 0,
        CommandModel::Exec { program, args } => post == pre && requests == seq![
            RequestModel::Spawn { program, args },
        ],
        CommandModel::Workspace(id) => post == (WmModel { active: id, ..pre })
            && is_visibility_pass(requests, pre.windows, id),
        CommandModel::Move(id) => post == pre && requests == seq![RequestModel::MoveFocused(id)],
        CommandModel::Nothing => post == pre && requests.len() == 0,
    }
}

/// Whether moving the focused window to workspace `target` in state `pre`
/// leaves state `post` and calls for `requests`: a managed window other than
/// the root is hidden and changes workspace, anything else is left alone.
pub open spec fn moved(
    pre: WmModel,
    focused: u64,
    target: usize,
    post: WmModel,
    requests: Seq<RequestModel>,
) -> bool {
    if focused != pre.root && pre.windows.contains_key(focused) {
        post == (WmModel { windows: pre.windows.insert(focused, target), ..pre }) && requests
            == seq![RequestModel::UnmapWindow(focused)]
    } else {
        post == pre && requests.len() == 0
    }
}

/// Whether handling `event` in state `pre` may leave state `post` and call
/// for `requests`.
pub open spec fn handled(
    pre: WmModel,
    event: EventModel,
    post: WmModel,
    requests: Seq<RequestModel>,
) -> bool {
    match event {
        EventModel::KeyPress { key, modifiers } => match resolve(
            pre.config.keybinds,
            key,
            modifiers,
        ) {
            Some(command) => dispatched(pre, decode(pre.config.vars, command), post, requests),
            None => post == pre && requests.len() == 0,
        },
        EventModel::CreateNotify { window } => post == (WmModel {
            windows: pre.windows.insert(window, pre.active),
            ..pre
        }) && requests.len() == 0,
        EventModel::DestroyNotify { window } => post == (WmModel {
            windows: pre.windows.remove(window),
            ..pre
        }) && requests.len() == 0,
        EventModel::MapRequest { window } => post == pre && requests == seq![
            RequestModel::MapWindow(window),
        ],
        EventModel::ConfigureRequest { window, geometry, value_mask } => post == pre && requests
            == seq![RequestModel::Configure { window, geometry, value_mask }],
        EventModel::Other => post == pre && requests.len() == 0,
    }
}

/// Whether handling the events one after another, each only while the
/// window manager is still running, may lead from `pre` to `post` and call
/// for `requests`, those of earlier events first.
pub open spec fn ran(
    pre: WmModel,
    events: Seq<EventModel>,
    post: WmModel,
    requests: Seq<RequestModel>,
) -> bool
    decreases events.len(),
{
    if events.len() == 0 {
        post == pre && requests.len() == 0
    } else {
        exists|mid: WmModel, k: int|
            #![trigger requests.take(k), mid.running]
            0 <= k <= requests.len() && ran(pre, events.drop_last(), mid, requests.take(k))
                && if mid.running {
                handled(mid, events.last(), post, requests.skip(k))
            } else {
                post == mid && k == requests.len()
            }
    }
}

} // verus!
