//! The window registry and workspace manager, driven one event at a time.

use crate::ascension::{denied, observe, Ascension};
use crate::command::Command;
use crate::config::Config;
use crate::error::Error;
use crate::laws::law_visibility_follows_workspace;
use crate::machine::{
    dispatched, handled, is_visibility_pass, mapped_after, moved, ran, subject, visibility,
    EventModel, Geometry, RequestModel, WmModel,
};
use crate::text::texts;
use std::collections::HashMap;
use vstd::prelude::*;
use vstd::std_specs::hash::spec_hash_map_iter;
use vstd::std_specs::iter::IteratorSpec;

verus! {

broadcast use vstd::std_specs::hash::group_hash_axioms;

/// A managed window and the workspace it belongs to.
#[derive(Clone, Copy, Debug, PartialEq, Eq, Structural)]
pub struct AppWindow {
    pub window: u64,
    pub workspace_id: usize,
}

impl AppWindow {
    /// The record of `window` on workspace `workspace_id`.
    pub fn new(window: u64, workspace_id: usize) -> (w: Self)
        ensures
            w.window == window,
            w.workspace_id == workspace_id,
    {
        Self { window, workspace_id }
    }
}

/// What the display server reports.
#[derive(Debug)]
pub enum Event {
    /// A grabbed key was pressed; `key` is the name of its key symbol.
    KeyPress { key: String, modifiers: u32 },
    CreateNotify { window: u64 },
    DestroyNotify { window: u64 },
    MapRequest { window: u64 },
    ConfigureRequest { window: u64, geometry: Geometry, value_mask: u64 },
    /// Any other kind of event.
    Other,
}

/// What the window manager asks of its environment.
#[derive(Debug)]
pub enum Request {
    /// Show a window.
    MapWindow(u64),
    /// Hide a window.
    UnmapWindow(u64),
    /// Give a window the geometry that it asked for.
    ConfigureWindow { window: u64, geometry: Geometry, value_mask: u64 },
    /// Launch a program, detached.
    Spawn { program: String, args: Vec<String> },
    /// Ask which window has the input focus and move it to this workspace.
    MoveFocused(usize),
}

impl View for Event {
    type V = EventModel;

    open spec fn view(&self) -> EventModel {
        match self {
            Event::KeyPress { key, modifiers } => EventModel::KeyPress {
                key: key@,
                modifiers: *modifiers,
            },
            Event::CreateNotify { window } => EventModel::CreateNotify { window: *window },
            Event::DestroyNotify { window } => EventModel::DestroyNotify { window: *window },
            Event::MapRequest { window } => EventModel::MapRequest { window: *window },
            Event::ConfigureRequest { window, geometry, value_mask } => {
                EventModel::ConfigureRequest {
                    window: *window,
                    geometry: *geometry,
                    value_mask: *value_mask,
                }
            },
            Event::Other => EventModel::Other,
        }
    }
}

impl View for Request {
    type V = RequestModel;

    open spec fn view(&self) -> RequestModel {
        match self {
            Request::MapWindow(w) => RequestModel::MapWindow(*w),
            Request::UnmapWindow(w) => RequestModel::UnmapWindow(*w),
            Request::ConfigureWindow { window, geometry, value_mask } => {
                RequestModel::Configure {
                    window: *window,
                    geometry: *geometry,
                    value_mask: *value_mask,
                }
            },
            Request::Spawn { program, args } => RequestModel::Spawn {
                program: program@,
                args: texts(args@),
            },
            Request::MoveFocused(id) => RequestModel::MoveFocused(*id),
        }
    }
}

/// The models of a list of requests.
pub open spec fn request_models(requests: Seq<Request>) -> Seq<RequestModel> {
    Seq::new(requests.len(), |i: int| requests[i]@)
}

/// The workspace of each window of a registry.
pub open spec fn workspaces(windows: Map<u64, AppWindow>) -> Map<u64, usize> {
    Map::new(|w: u64| windows.contains_key(w), |w: u64| windows[w].workspace_id)
}

/// One request for each window of the registry: shown if it belongs to the
/// active workspace, hidden if not.
fn visibility_pass(windows: &HashMap<u64, AppWindow>, active: usize) -> (requests: Vec<Request>)
    requires
        forall|w: u64| windows@.contains_key(w) ==> (#[trigger] windows@[w]).window == w,
    ensures
        is_visibility_pass(request_models(requests@), workspaces(windows@), active),
{
    let mut requests: Vec<Request> = Vec::new();
    proof {
        let all = spec_hash_map_iter(windows).remaining();
        assert forall|i: int| 0 <= i < all.len() implies windows@.contains_key(
            *(#[trigger] all[i]).0,
        ) && windows@[*all[i].0] == *all[i].1 by {
            assert(windows@.contains_key(*all[i].0) && windows@[*all[i].0] == *all[i].1);
        }
    }
    for entry in it: windows.iter()
        invariant
            it.seq() == spec_hash_map_iter(windows).remaining(),
            requests.len() == it.index(),
            forall|w: u64| windows@.contains_key(w) ==> (#[trigger] windows@[w]).window == w,
            forall|i: int|
                0 <= i < it.seq().len() ==> windows@.contains_key(*(#[trigger] it.seq()[i]).0)
                    && windows@[*it.seq()[i].0] == *it.seq()[i].1,
            forall|i: int|
                0 <= i < requests.len() ==> (#[trigger] requests@[i])@ == visibility(
                    *it.seq()[i].0,
                    it.seq()[i].1.workspace_id,
                    active,
                ),
    {
        let (_, record) = entry;
        assert(entry == it.seq()[it.index() as int]);
        assert(windows@[*entry.0] == *record);
        assert(record.window == *entry.0);
        if record.workspace_id == active {
            requests.push(Request::MapWindow(record.window));
        } else {
            requests.push(Request::UnmapWindow(record.window));
        }
    }
    proof {
        let all = spec_hash_map_iter(windows).remaining();
        let models = request_models(requests@);
        let registry = workspaces(windows@);
        assert(registry.dom() =~= windows@.dom());
        assert forall|i: int| 0 <= i < models.len() implies match subject(#[trigger] models[i]) {
            Some(w) => registry.contains_key(w) && models[i] == visibility(w, registry[w], active),
            None => false,
        } by {
            let w = *all[i].0;
            assert(windows@.contains_key(w));
            assert(models[i] == requests@[i]@);
        }
        assert forall|w: u64| #[trigger] registry.contains_key(w) implies models.contains(
            visibility(w, registry[w], active),
        ) by {
            assert(windows@.contains_key(w));
            assert(all.contains((&w, &windows@[w])));
            let i = choose|i: int| 0 <= i < all.len() && all[i] == (&w, &windows@[w]);
            assert(models[i] == requests@[i]@);
        }
    }
    requests
}

/// The window manager: the registry of managed windows, the active
/// workspace, the running flag and the configuration.
pub struct WM {
    root: u64,
    current_workspace: usize,
    windows: HashMap<u64, AppWindow>,
    running: bool,
    config: Config,
}

impl View for WM {
    type V = WmModel;

    closed spec fn view(&self) -> WmModel {
        WmModel {
            root: self.root,
            active: self.current_workspace,
            windows: workspaces(self.windows@),
            running: self.running,
            config: self.config@,
        }
    }
}

impl WM {
    #[verifier::type_invariant]
    spec fn keyed_by_handle(&self) -> bool {
        forall|w: u64| self.windows@.contains_key(w) ==> (#[trigger] self.windows@[w]).window == w
    }

    /// A window manager that is not attached to a display yet: it manages no
    /// window, its active workspace is the first, and it is running.
    pub fn new(config: Config) -> (wm: Self)
        ensures
            wm@ == (WmModel {
                root: 0,
                active: 1,
                windows: Map::empty(),
                running: true,
                config: config@,
            }),
    {
        let wm = WM {
            root: 0,
            current_workspace: 1,
            windows: HashMap::new(),
            running: true,
            config,
        };
        assert(wm@.windows =~= Map::empty());
        wm
    }

    /// Attaches the window manager to the display, given how connecting and
    /// the negotiation ended: `connection` is the root window of the display
    /// that was reached, if one was.
    pub fn init(&mut self, connection: Option<u64>, ascension: Ascension) -> (r: Result<(), Error>)
        ensures
            match connection {
                None => r == Err::<(), Error>(Error::ConnectionFailed) && final(self)@ == old(
                    self,
                )@,
                Some(root) => if ascension.granted() {
                    r == Ok::<(), Error>(()) && final(self)@ == (WmModel { root, ..old(self)@ })
                } else {
                    r == Err::<(), Error>(Error::AlreadyRunning) && final(self)@ == old(self)@
                },
            },
    {
        proof {
            use_type_invariant(&*self);
        }
        match connection {
            None => Err(Error::ConnectionFailed),
            Some(root) => match ascension.finish() {
                Err(e) => Err(e),
                Ok(()) => {
                    self.root = root;
                    Ok(())
                },
            },
        }
    }

    /// Creates the window manager from the outcome of start-up: the
    /// configuration that was loaded, the root window of the display that
    /// was reached, if one was, and the protocol errors that were delivered
    /// while the display was claimed.
    pub fn create(config: Config, connection: Option<u64>, error_codes: &Vec<u8>) -> (r: Result<
        Self,
        Error,
    >)
        ensures
            match connection {
                None => r matches Err(e) && e == Error::ConnectionFailed,
                Some(root) => if denied(error_codes@) {
                    r matches Err(e) && e == Error::AlreadyRunning
                } else {
                    r matches Ok(wm) && wm@ == (WmModel {
                        root,
                        active: 1,
                        windows: Map::empty(),
                        running: true,
                        config: config@,
                    })
                },
            },
    {
        let mut wm = WM::new(config);
        match wm.init(connection, observe(error_codes)) {
            Ok(()) => Ok(wm),
            Err(e) => Err(e),
        }
    }

    /// Whether the event loop is to go on.
    pub fn is_running(&self) -> (b: bool)
        ensures
            b == self@.running,
    {
        self.running
    }

    /// The root window of the display.
    pub fn root(&self) -> (w: u64)
        ensures
            w == self@.root,
    {
        self.root
    }

    /// The active workspace.
    pub fn current_workspace(&self) -> (id: usize)
        ensures
            id == self@.active,
    {
        self.current_workspace
    }

    /// The configuration.
    pub fn config(&self) -> (c: &Config)
        ensures
            c@ == self@.config,
    {
        &self.config
    }

    /// The record of a managed window, if `window` is one.
    pub fn window(&self, window: u64) -> (r: Option<AppWindow>)
        ensures
            match r {
                Some(record) => self@.windows.contains_key(window) && record.window == window
                    && record.workspace_id == self@.windows[window],
                None => !self@.windows.contains_key(window),
            },
    {
        proof {
            use_type_invariant(self);
        }
        match self.windows.get(&window) {
            Some(record) => Some(*record),
            None => None,
        }
    }

    /// How many windows are managed.
    pub fn window_count(&self) -> (n: usize)
        ensures
            n == self@.windows.dom().len(),
    {
        assert(workspaces(self.windows@).dom() =~= self.windows@.dom());
        self.windows.len()
    }

    /// Registers a new window with the active workspace.
    pub fn on_create(&mut self, window: u64)
        ensures
            final(self)@ == (WmModel {
                windows: old(self)@.windows.insert(window, old(self)@.active),
                ..old(self)@
            }),
    {
        proof {
            use_type_invariant(&*self);
        }
        let record = AppWindow::new(window, self.current_workspace);
        let mut windows: HashMap<u64, AppWindow> = HashMap::new();
        core::mem::swap(&mut self.windows, &mut windows);
        windows.insert(window, record);
        core::mem::swap(&mut self.windows, &mut windows);
        assert(final(self)@.windows =~= old(self)@.windows.insert(window, old(self)@.active));
    }

    /// Forgets a window. A window that is not managed changes nothing.
    pub fn on_destroy(&mut self, window: u64)
        ensures
            final(self)@ == (WmModel {
                windows: old(self)@.windows.remove(window),
                ..old(self)@
            }),
            !old(self)@.windows.contains_key(window) ==> final(self)@ == old(self)@,
    {
        proof {
            use_type_invariant(&*self);
        }
        let mut windows: HashMap<u64, AppWindow> = HashMap::new();
        core::mem::swap(&mut self.windows, &mut windows);
        windows.remove(&window);
        core::mem::swap(&mut self.windows, &mut windows);
        assert(final(self)@.windows =~= old(self)@.windows.remove(window));
        assert(!old(self)@.windows.contains_key(window) ==> old(self)@.windows.remove(window)
            =~= old(self)@.windows);
    }

    /// Makes `target_id` the active workspace and returns the visibility
    /// pass: one request for every managed window, which shows it if it
    /// belongs to `target_id` and hides it if not.
    pub fn switch_workspace(&mut self, target_id: usize) -> (requests: Vec<Request>)
        ensures
            final(self)@ == (WmModel { active: target_id, ..old(self)@ }),
            is_visibility_pass(request_models(requests@), old(self)@.windows, target_id),
            forall|mapped: Set<u64>, w: u64|
                final(self)@.windows.contains_key(w) ==> (#[trigger] mapped_after(
                    request_models(requests@),
                    mapped,
                ).contains(w) <==> final(self)@.windows[w] == target_id),
    {
        proof {
            use_type_invariant(&*self);
        }
        self.current_workspace = target_id;
        let requests = visibility_pass(&self.windows, target_id);
        proof {
            let models = request_models(requests@);
            let registry = self@.windows;
            assert forall|mapped: Set<u64>, w: u64| registry.contains_key(w) implies (
            #[trigger] mapped_after(models, mapped).contains(w) <==> registry[w] == target_id) by {
                law_visibility_follows_workspace(models, registry, target_id, mapped);
            }
        }
        requests
    }

    /// Moves the window that has the input focus to workspace `target_id`:
    /// a managed window other than the root is hidden and changes workspace;
    /// the root, or a window that is not managed, is left alone.
    pub fn move_focused_window(&mut self, focused: u64, target_id: usize) -> (requests: Vec<
        Request,
    >)
        ensures
            moved(old(self)@, focused, target_id, final(self)@, request_models(requests@)),
            focused == old(self)@.root ==> final(self)@ == old(self)@ && requests@.len() == 0,
    {
        proof {
            use_type_invariant(&*self);
        }
        let mut requests: Vec<Request> = Vec::new();
        if focused != self.root && self.windows.contains_key(&focused) {
            let record = AppWindow::new(focused, target_id);
            let mut windows: HashMap<u64, AppWindow> = HashMap::new();
            core::mem::swap(&mut self.windows, &mut windows);
            windows.insert(focused, record);
            core::mem::swap(&mut self.windows, &mut windows);
            requests.push(Request::UnmapWindow(focused));
            assert(final(self)@.windows =~= old(self)@.windows.insert(focused, target_id));
            assert(request_models(requests@) =~= seq![RequestModel::UnmapWindow(focused)]);
        }
        requests
    }

    /// Carries out a built-in action.
    pub fn dispatch(&mut self, command: Command) -> (requests: Vec<Request>)
        ensures
            dispatched(old(self)@, command@, final(self)@, request_models(requests@)),
    {
        proof {
            use_type_invariant(&*self);
        }
        match command {
            Command::Exit => {
                self.running = false;
                Vec::new()
            },
            Command::Exec { program, args } => {
                let mut requests: Vec<Request> = Vec::new();
                requests.push(Request::Spawn { program, args });
                assert(request_models(requests@) =~= seq![
                    RequestModel::Spawn { program: program@, args: texts(args@) },
                ]);
                requests
            },
            Command::Workspace(id) => self.switch_workspace(id),
            Command::Move(id) => {
                let mut requests: Vec<Request> = Vec::new();
                requests.push(Request::MoveFocused(id));
                assert(request_models(requests@) =~= seq![RequestModel::MoveFocused(id)]);
                requests
            },
            Command::Nothing => Vec::new(),
        }
    }

    /// Handles one event: routes it to the one handler of its kind and
    /// returns the requests that the handler calls for.
    pub fn handle_event(&mut self, event: &Event) -> (requests: Vec<Request>)
        ensures
            handled(old(self)@, event@, final(self)@, request_models(requests@)),
            event@ matches EventModel::ConfigureRequest { window, geometry, value_mask }
                ==> requests@.len() == 1 && requests@[0]@ == (RequestModel::Configure {
                window,
                geometry,
                value_mask,
            }),
    {
        match event {
            Event::KeyPress { key, modifiers } => {
                match self.config.resolve(key.as_str(), *modifiers) {
                    Some(text) => {
                        let command = Command::decode(&self.config, text.as_str());
                        self.dispatch(command)
                    },
                    None => Vec::new(),
                }
            },
            Event::CreateNotify { window } => {
                self.on_create(*window);
                Vec::new()
            },
            Event::DestroyNotify { window } => {
                self.on_destroy(*window);
                Vec::new()
            },
            Event::MapRequest { window } => {
                let mut requests: Vec<Request> = Vec::new();
                requests.push(Request::MapWindow(*window));
                assert(request_models(requests@) =~= seq![RequestModel::MapWindow(*window)]);
                requests
            },
            Event::ConfigureRequest { window, geometry, value_mask } => {
                let mut requests: Vec<Request> = Vec::new();
                requests.push(
                    Request::ConfigureWindow {
                        window: *window,
                        geometry: *geometry,
                        value_mask: *value_mask,
                    },
                );
                assert(request_models(requests@) =~= seq![
                    RequestModel::Configure {
                        window: *window,
                        geometry: *geometry,
                        value_mask: *value_mask,
                    },
                ]);
                requests
            },
            Event::Other => Vec::new(),
        }
    }
}

/// The models of a list of events.
pub open spec fn event_models(events: Seq<Event>) -> Seq<EventModel> {
    Seq::new(events.len(), |i: int| events[i]@)
}

impl WM {
    /// Handles a run of events in order, each only while the window manager
    /// is still running: once a command has stopped it, the events that
    /// follow are left alone. Returns the requests of all events, those of
    /// earlier events first.
    pub fn run(&mut self, events: &Vec<Event>) -> (requests: Vec<Request>)
        ensures
            ran(old(self)@, event_models(events@), final(self)@, request_models(requests@)),
    {
        let ghost all = event_models(events@);
        let mut requests: Vec<Request> = Vec::new();
        let mut i: usize = 0;
        assert(all.take(0).len() == 0);
        while i < events.len()
            invariant
                i <= events.len(),
                all == event_models(events@),
                ran(old(self)@, all.take(i as int), self@, request_models(requests@)),
            decreases events.len() - i,
        {
            let ghost mid = self@;
            let ghost before = request_models(requests@);
            let ghost seen = all.take(i + 1);
            assert(seen.drop_last() == all.take(i as int));
            assert(seen.last() == events@[i as int]@);
            if self.is_running() {
                let mut more = self.handle_event(&events[i]);
                let ghost added = request_models(more@);
                requests.append(&mut more);
                proof {
                    let now = request_models(requests@);
                    assert(now =~= before + added);
                    assert(now.take(before.len() as int) == before);
                    assert(now.skip(before.len() as int) == added);
                }
            } else {
                assert(before.take(before.len() as int) == before);
            }
            i += 1;
        }
        assert(all.take(events.len() as int) == all);
        requests
    }
}

} // verus!
