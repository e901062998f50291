//! The application state: the connected gamepads, their input state, the
//! selected gamepad and the view mode, and how each message changes them.
use vstd::prelude::*;
use crate::device::{DeviceInfo, GamepadState, GamepadStateView};
use crate::keyed::{
    distinct_keys, has_key, keyed, lemma_keyed_index, lemma_keyed_push, lemma_keyed_update,
    lemma_keyed_remove, lemma_filter_keeps_all, lemma_filter_drops_one,
};
use crate::messages::{Message, ViewMode};

verus! {

/// Holds of the listed gamepads other than `id`.
pub open spec fn listed_other_than(id: usize) -> spec_fn((usize, Seq<char>)) -> bool {
    |d: (usize, Seq<char>)| d.0 != id
}

/// The abstract application state.
pub struct AppView {
    /// The connected gamepads, in order of connection: (id, name).
    pub devices: Seq<(usize, Seq<char>)>,
    /// The input state of each connected gamepad.
    pub states: Map<usize, GamepadStateView>,
    /// The gamepad shown in the visualiser.
    pub selected: Option<usize>,
    /// Whether the controller canvas or the calibration panel is shown.
    pub view_mode: ViewMode,
}

impl AppView {
    /// A gamepad with this id is connected.
    pub open spec fn has_device(self, id: usize) -> bool {
        has_key(self.devices, id)
    }

    /// No gamepad is listed twice, and exactly the listed gamepads have an
    /// input state.
    pub open spec fn consistent(self) -> bool {
        &&& distinct_keys(self.devices)
        &&& forall|id: usize| #[trigger] self.states.contains_key(id) <==> self.has_device(id)
    }

    /// The state on start-up: no gamepad, controller view.
    pub open spec fn initial() -> Self {
        AppView {
            devices: Seq::empty(),
            states: Map::empty(),
            selected: None,
            view_mode: ViewMode::Controller,
        }
    }

    /// The state after a gamepad's input state becomes `st`, if it is
    /// connected; otherwise unchanged.
    pub open spec fn with_state(self, id: usize, st: GamepadStateView) -> Self {
        if self.states.contains_key(id) {
            AppView { states: self.states.insert(id, st), ..self }
        } else {
            self
        }
    }

    /// The state after a gamepad connects: a gamepad already listed is
    /// ignored; a new one is listed last with an empty input state, and
    /// is selected if nothing was.
    pub open spec fn connected(self, id: usize, name: Seq<char>) -> Self {
        if self.has_device(id) {
            self
        } else {
            AppView {
                devices: self.devices.push((id, name)),
                states: self.states.insert(id, GamepadStateView::empty()),
                selected: if self.selected is None {
                    Some(id)
                } else {
                    self.selected
                },
                ..self
            }
        }
    }

    /// The state after a gamepad disconnects: it leaves the list and its
    /// input state is dropped; if it was selected, the first remaining
    /// gamepad is selected, or none.
    pub open spec fn disconnected(self, id: usize) -> Self {
        let devices = self.devices.filter(listed_other_than(id));
        AppView {
            devices,
            states: self.states.remove(id),
            selected: if self.selected == Some(id) {
                if devices.len() > 0 {
                    Some(devices[0].0)
                } else {
                    None
                }
            } else {
                self.selected
            },
            ..self
        }
    }

    /// The input state of a gamepad, if it is connected.
    pub open spec fn state_of(self, id: usize) -> GamepadStateView {
        self.states[id]
    }

    /// The state after a message.
    pub open spec fn next(self, m: Message) -> Self {
        match m {
            Message::GamepadConnected(id, name) => self.connected(id, name@),
            Message::GamepadDisconnected(id) => self.disconnected(id),
            Message::SelectDevice(sel) => AppView { selected: sel, ..self },
            Message::ButtonChanged(id, b, v) => self.with_state(
                id,
                self.state_of(id).with_button(b, v),
            ),
            Message::AxisChanged(id, a, v) => self.with_state(id, self.state_of(id).with_axis(a, v)),
            Message::SetViewMode(mode) => AppView { view_mode: mode, ..self },
            Message::SetDeadzone(id, a, dz) => self.with_state(
                id,
                self.state_of(id).with_deadzone(a, dz),
            ),
            Message::RecenterAxis(id, a) => self.with_state(id, self.state_of(id).recentered(a)),
            Message::ResetAxisCalibration(id, a) => self.with_state(
                id,
                self.state_of(id).without_calibration(a),
            ),
            Message::ResetAllCalibration(id) => self.with_state(
                id,
                self.state_of(id).without_calibrations(),
            ),
        }
    }
}

/// Where `id` is listed, the list without it is the list with its entry
/// removed; where it is not, the list is unchanged.
proof fn lemma_unlisted(devices: Seq<(usize, Seq<char>)>, id: usize)
    requires
        distinct_keys(devices),
    ensures
        distinct_keys(devices.filter(listed_other_than(id))),
        forall|x: usize|
            has_key(devices.filter(listed_other_than(id)), x) <==> (has_key(devices, x) && x != id),
        !has_key(devices, id) ==> devices.filter(listed_other_than(id)) == devices,
{
    let pred = listed_other_than(id);
    if has_key(devices, id) {
        let i = choose|i: int| 0 <= i < devices.len() && devices[i].0 == id;
        assert forall|j: int| 0 <= j < devices.len() && j != i implies pred(#[trigger] devices[j]) by {
            assert(devices[j].0 != devices[i].0);
        }
        lemma_filter_drops_one(devices, pred, i);
        lemma_keyed_remove(devices, i);
        let t = devices.remove(i);
        assert forall|x: usize| has_key(t, x) <==> (has_key(devices, x) && x != id) by {
            if has_key(t, x) {
                let j = choose|j: int| 0 <= j < t.len() && t[j].0 == x;
                let j2 = if j < i {
                    j
                } else {
                    j + 1
                };
                assert(t[j] == devices[j2]);
                assert(j2 != i);
            }
            if has_key(devices, x) && x != id {
                let j = choose|j: int| 0 <= j < devices.len() && devices[j].0 == x;
                assert(j != i);
                let j2 = if j < i {
                    j
                } else {
                    j - 1
                };
                assert(t[j2] == devices[j]);
            }
        }
    } else {
        assert forall|j: int| 0 <= j < devices.len() implies pred(#[trigger] devices[j]) by {
            assert(!(devices[j].0 == id));
        }
        lemma_filter_keeps_all(devices, pred);
    }
}

/// Every message keeps the state consistent: no gamepad is listed twice,
/// and exactly the listed gamepads have an input state.
pub proof fn lemma_next_consistent(s: AppView, m: Message)
    requires
        s.consistent(),
    ensures
        s.next(m).consistent(),
{
    match m {
        Message::GamepadConnected(id, name) => {
            if !s.has_device(id) {
                lemma_keyed_push(s.devices, id, name@);
                let t = s.devices.push((id, name@));
                assert forall|x: usize| has_key(t, x) <==> (has_key(s.devices, x) || x == id) by {
                    if has_key(s.devices, x) {
                        let j = choose|j: int| 0 <= j < s.devices.len() && s.devices[j].0 == x;
                        assert(t[j] == s.devices[j]);
                    }
                    if x == id {
                        assert(t[s.devices.len() as int].0 == id);
                    }
                    if has_key(t, x) {
                        let j = choose|j: int| 0 <= j < t.len() && t[j].0 == x;
                        if j < s.devices.len() {
                            assert(t[j] == s.devices[j]);
                        }
                    }
                }
            }
        },
        Message::GamepadDisconnected(id) => {
            lemma_unlisted(s.devices, id);
        },
        _ => {},
    }
}

/// A gamepad that connects while nothing is selected becomes selected.
pub proof fn lemma_connect_selects_first(s: AppView, id: usize, name: Seq<char>)
    requires
        s.selected is None,
        !s.has_device(id),
    ensures
        s.connected(id, name).selected == Some(id),
        s.connected(id, name).devices.last() == (id, name),
        s.connected(id, name).states[id] == GamepadStateView::empty(),
{
}

/// A gamepad that connects while another is selected leaves the
/// selection as it was; it is listed last with an empty input state.
pub proof fn lemma_connect_keeps_selection(s: AppView, id: usize, name: Seq<char>)
    requires
        s.selected is Some,
        !s.has_device(id),
    ensures
        s.connected(id, name).selected == s.selected,
        s.connected(id, name).devices == s.devices.push((id, name)),
        s.connected(id, name).states == s.states.insert(id, GamepadStateView::empty()),
        s.connected(id, name).view_mode == s.view_mode,
{
}

/// A gamepad that is already listed is not listed again: connecting it a
/// second time changes nothing, whatever name it reports.
pub proof fn lemma_connect_twice(s: AppView, id: usize, name: Seq<char>, again: Seq<char>)
    ensures
        s.connected(id, name).connected(id, again) == s.connected(id, name),
{
    if !s.has_device(id) {
        let t = s.connected(id, name);
        assert(t.devices[s.devices.len() as int].0 == id);
        assert(t.has_device(id));
    }
}

/// Connecting a new gamepad and disconnecting it again gives back the
/// list and the input states; the selection comes back too, unless it
/// named that very gamepad, or nothing was selected while other gamepads
/// were listed.
pub proof fn lemma_connect_then_disconnect(s: AppView, id: usize, name: Seq<char>)
    requires
        !s.has_device(id),
        !s.states.contains_key(id),
    ensures
        ({
            let r = s.connected(id, name).disconnected(id);
            &&& r.devices == s.devices
            &&& r.states == s.states
            &&& r.view_mode == s.view_mode
            &&& s.selected != Some(id) && (s.selected is Some || s.devices.len() == 0) ==> r.selected
                == s.selected
        }),
{
    let t = s.connected(id, name);
    let d = s.devices.push((id, name));
    assert(t.devices == d);
    let pred = listed_other_than(id);
    assert(d.filter(pred) == s.devices) by {
        let i = s.devices.len() as int;
        assert(d[i].0 == id);
        assert forall|j: int| 0 <= j < d.len() && j != i implies pred(#[trigger] d[j]) by {
            assert(d[j] == s.devices[j]);
        }
        lemma_filter_drops_one(d, pred, i);
        assert(d.remove(i) =~= s.devices);
    }
    assert(t.states.remove(id) =~= s.states);
}
/// Disconnecting the selected gamepad drops it with its input state and
/// selects the first gamepad still listed, or none.
pub proof fn lemma_disconnect_selected(s: AppView, id: usize)
    requires
        s.consistent(),
        s.selected == Some(id),
    ensures
        !s.disconnected(id).has_device(id),
        !s.disconnected(id).states.contains_key(id),
        s.disconnected(id).devices.len() > 0 ==> s.disconnected(id).selected == Some(
            s.disconnected(id).devices[0].0,
        ),
        s.disconnected(id).devices.len() == 0 ==> s.disconnected(id).selected is None,
{
    lemma_unlisted(s.devices, id);
}

/// A message about a gamepad that is not connected leaves the state as
/// it was.
pub proof fn lemma_unknown_gamepad_ignored(s: AppView, m: Message)
    requires
        match m {
            Message::ButtonChanged(id, _, _) => !s.states.contains_key(id),
            Message::AxisChanged(id, _, _) => !s.states.contains_key(id),
            Message::SetDeadzone(id, _, _) => !s.states.contains_key(id),
            Message::RecenterAxis(id, _) => !s.states.contains_key(id),
            Message::ResetAxisCalibration(id, _) => !s.states.contains_key(id),
            Message::ResetAllCalibration(id) => !s.states.contains_key(id),
            _ => false,
        },
    ensures
        s.next(m) == s,
{
}

/// Selecting a gamepad changes the selection only: the list, the input
/// states and the view mode stay.
pub proof fn lemma_select_changes_only_selection(s: AppView, sel: Option<usize>)
    ensures
        s.next(Message::SelectDevice(sel)).selected == sel,
        s.next(Message::SelectDevice(sel)).view_mode == s.view_mode,
        s.next(Message::SelectDevice(sel)).devices == s.devices,
        s.next(Message::SelectDevice(sel)).states == s.states,
{
}

/// The view mode changes only on a request to set it, and then becomes
/// the requested mode.
pub proof fn lemma_view_mode_changes_only_on_request(s: AppView, m: Message)
    ensures
        m matches Message::SetViewMode(mode) ==> s.next(m).view_mode == mode,
        !(m is SetViewMode) ==> s.next(m).view_mode == s.view_mode,
{
}

/// Input and calibration messages leave the list, the selection and the
/// view mode as they were, and change at most the addressed gamepad's
/// input state.
pub proof fn lemma_input_changes_only_its_gamepad(s: AppView, m: Message, other: usize)
    requires
        match m {
            Message::ButtonChanged(id, _, _) => other != id,
            Message::AxisChanged(id, _, _) => other != id,
            Message::SetDeadzone(id, _, _) => other != id,
            Message::RecenterAxis(id, _) => other != id,
            Message::ResetAxisCalibration(id, _) => other != id,
            Message::ResetAllCalibration(id) => other != id,
            _ => false,
        },
    ensures
        s.next(m).devices == s.devices,
        s.next(m).selected == s.selected,
        s.next(m).view_mode == s.view_mode,
        s.next(m).states.dom() == s.states.dom(),
        s.states.contains_key(other) ==> s.next(m).states[other] == s.states[other],
{
    match m {
        Message::ButtonChanged(id, _, _) | Message::AxisChanged(id, _, _) | Message::SetDeadzone(id, _, _)
        | Message::RecenterAxis(id, _) | Message::ResetAxisCalibration(id, _)
        | Message::ResetAllCalibration(id) => {
            if s.states.contains_key(id) {
                assert(s.next(m).states.dom() =~= s.states.dom());
            }
        },
        _ => {},
    }
}

/// The connected gamepads and their input states, side by side.
struct Registry {
    devices: Vec<DeviceInfo>,
    states: Vec<GamepadState>,
}

impl Registry {
    spec fn device_seq(&self) -> Seq<(usize, Seq<char>)> {
        Seq::new(self.devices@.len(), |i: int| (self.devices@[i].id, self.devices@[i].name@))
    }

    spec fn state_seq(&self) -> Seq<(usize, GamepadStateView)> {
        Seq::new(self.devices@.len(), |i: int| (self.devices@[i].id, self.states@[i]@))
    }

    spec fn wf(&self) -> bool {
        &&& self.devices@.len() == self.states@.len()
        &&& distinct_keys(self.device_seq())
        &&& distinct_keys(self.state_seq())
    }

    fn position(&self, id: usize) -> (r: Option<usize>)
        requires
            self.wf(),
        ensures
            match r {
                Some(i) => i < self.devices@.len() && self.devices@[i as int].id == id,
                None => !has_key(self.device_seq(), id) && !has_key(self.state_seq(), id),
            },
    {
        let mut i: usize = 0;
        while i < self.devices.len()
            invariant
                i <= self.devices@.len(),
                forall|j: int| 0 <= j < i ==> self.devices@[j].id != id,
            decreases self.devices@.len() - i,
        {
            if self.devices[i].id == id {
                return Some(i);
            }
            i = i + 1;
        }
        assert(!has_key(self.device_seq(), id)) by {
            if has_key(self.device_seq(), id) {
                let j = choose|j: int| 0 <= j < self.device_seq().len() && self.device_seq()[j].0 == id;
                assert(self.devices@[j].id == id);
            }
        }
        assert(!has_key(self.state_seq(), id)) by {
            if has_key(self.state_seq(), id) {
                let j = choose|j: int| 0 <= j < self.state_seq().len() && self.state_seq()[j].0 == id;
                assert(self.devices@[j].id == id);
            }
        }
        None
    }
    /// Replaces the input state at position `i`.
    fn put_state(&mut self, i: usize, st: GamepadState)
        requires
            old(self).wf(),
            i < old(self).devices@.len(),
        ensures
            final(self).wf(),
            final(self).device_seq() == old(self).device_seq(),
            final(self).devices@[i as int].id == old(self).devices@[i as int].id,
            keyed(final(self).state_seq()) == keyed(old(self).state_seq()).insert(
                old(self).devices@[i as int].id,
                st@,
            ),
    {
        let ghost s0 = self.state_seq();
        self.states.set(i, st);
        proof {
            let id = self.devices@[i as int].id;
            assert(self.state_seq() =~= s0.update(i as int, (s0[i as int].0, st@)));
            lemma_keyed_update(s0, i as int, st@);
            assert(self.device_seq() =~= old(self).device_seq());
        }
    }

    /// Lists a new gamepad with an empty input state.
    fn add(&mut self, info: DeviceInfo)
        requires
            old(self).wf(),
            !has_key(old(self).device_seq(), info.id),
            !has_key(old(self).state_seq(), info.id),
        ensures
            final(self).wf(),
            final(self).device_seq() == old(self).device_seq().push((info.id, info.name@)),
            keyed(final(self).state_seq()) == keyed(old(self).state_seq()).insert(
                info.id,
                GamepadStateView::empty(),
            ),
    {
        let ghost d0 = self.device_seq();
        let ghost s0 = self.state_seq();
        let ghost id = info.id;
        let ghost name = info.name@;
        self.devices.push(info);
        self.states.push(GamepadState::new());
        proof {
            assert(self.device_seq() =~= d0.push((id, name)));
            assert(self.state_seq() =~= s0.push((id, GamepadStateView::empty())));
            lemma_keyed_push(d0, id, name);
            lemma_keyed_push(s0, id, GamepadStateView::empty());
        }
    }

    /// Drops the gamepad at position `i`.
    fn remove_at(&mut self, i: usize)
        requires
            old(self).wf(),
            i < old(self).devices@.len(),
        ensures
            final(self).wf(),
            final(self).device_seq() == old(self).device_seq().remove(i as int),
            keyed(final(self).state_seq()) == keyed(old(self).state_seq()).remove(
                old(self).devices@[i as int].id,
            ),
    {
        let ghost d0 = self.device_seq();
        let ghost s0 = self.state_seq();
        self.devices.remove(i);
        self.states.remove(i);
        proof {
            assert(self.device_seq() =~= d0.remove(i as int));
            assert(self.state_seq() =~= s0.remove(i as int));
            lemma_keyed_remove(d0, i as int);
            lemma_keyed_remove(s0, i as int);
        }
    }
}

/// The application state: connected gamepads with their input state, the
/// selection and the view mode.
pub struct GamepadApp {
    registry: Registry,
    selected: Option<usize>,
    view_mode: ViewMode,
}

impl View for GamepadApp {
    type V = AppView;

    closed spec fn view(&self) -> AppView {
        AppView {
            devices: self.registry.device_seq(),
            states: keyed(self.registry.state_seq()),
            selected: self.selected,
            view_mode: self.view_mode,
        }
    }
}

/// Which panel the content area shows.
#[derive(Clone, Copy, Debug, PartialEq, Eq, Structural)]
pub enum Panel {
    /// No gamepad is selected.
    NoDevice,
    /// The selected gamepad has no input state.
    NoState(usize),
    /// The controller canvas of the selected gamepad.
    Controller(usize),
    /// The calibration panel of the selected gamepad.
    Calibration(usize),
}

impl GamepadApp {
    #[verifier::type_invariant]
    spec fn registry_wf(self) -> bool {
        self.registry.wf()
    }

    proof fn lemma_consistent(&self)
        requires
            self.registry.wf(),
        ensures
            self@.consistent(),
    {
        let d = self.registry.device_seq();
        let s = self.registry.state_seq();
        assert forall|id: usize| #[trigger] self@.states.contains_key(id) <==> self@.has_device(id) by {
            if has_key(d, id) {
                let j = choose|j: int| 0 <= j < d.len() && d[j].0 == id;
                assert(s[j].0 == id);
            }
            if has_key(s, id) {
                let j = choose|j: int| 0 <= j < s.len() && s[j].0 == id;
                assert(d[j].0 == id);
            }
        }
    }

    /// The state on start-up: no gamepad, controller view.
    pub fn new() -> (r: Self)
        ensures
            r@ == AppView::initial(),
            r@.consistent(),
    {
        let r = GamepadApp {
            registry: Registry { devices: Vec::new(), states: Vec::new() },
            selected: None,
            view_mode: ViewMode::Controller,
        };
        proof {
            assert(r@.devices =~= Seq::<(usize, Seq<char>)>::empty());
            assert(r@.states =~= Map::<usize, GamepadStateView>::empty());
            r.lemma_consistent();
        }
        r
    }

    /// The window title.  (Every accessor also states that the state is
    /// consistent: no gamepad listed twice, and exactly the listed gamepads
    /// have an input state.)
    pub fn title(&self) -> (r: String)
        ensures
            self@.consistent(),
            r@ == "Gamepad"@,
    {
        proof {
            use_type_invariant(self);
            self.lemma_consistent();
        }
        String::from_str("Gamepad")
    }

    /// The connected gamepads, in order of connection.
    pub fn devices(&self) -> (r: &Vec<DeviceInfo>)
        ensures
            self@.consistent(),
            r@.len() == self@.devices.len(),
            forall|i: int|
                0 <= i < r@.len() ==> (#[trigger] r@[i]).id == self@.devices[i].0 && r@[i].name@
                    == self@.devices[i].1,
    {
        proof {
            use_type_invariant(self);
            self.lemma_consistent();
        }
        &self.registry.devices
    }

    /// The gamepad shown in the visualiser.
    pub fn selected(&self) -> (r: Option<usize>)
        ensures
            self@.consistent(),
            r == self@.selected,
    {
        proof {
            use_type_invariant(self);
            self.lemma_consistent();
        }
        self.selected
    }

    /// The current view mode.
    pub fn view_mode(&self) -> (r: ViewMode)
        ensures
            self@.consistent(),
            r == self@.view_mode,
    {
        proof {
            use_type_invariant(self);
            self.lemma_consistent();
        }
        self.view_mode
    }

    /// The input state of a gamepad, if it is connected.
    pub fn state(&self, id: usize) -> (r: Option<&GamepadState>)
        ensures
            self@.consistent(),
            match r {
                Some(st) => self@.states.contains_key(id) && st@ == self@.states[id],
                None => !self@.states.contains_key(id),
            },
    {
        proof {
            use_type_invariant(self);
            self.lemma_consistent();
        }
        match self.registry.position(id) {
            Some(i) => {
                proof {
                    lemma_keyed_index(self.registry.state_seq(), i as int);
                }
                Some(&self.registry.states[i])
            },
            None => None,
        }
    }

    /// Which panel the content area shows: nothing selected, a selected
    /// gamepad without input state, or the panel of the view mode.
    pub fn panel(&self) -> (r: Panel)
        ensures
            self@.consistent(),
            r == (match self@.selected {
                None => Panel::NoDevice,
                Some(id) => if !self@.states.contains_key(id) {
                    Panel::NoState(id)
                } else {
                    match self@.view_mode {
                        ViewMode::Controller => Panel::Controller(id),
                        ViewMode::Calibration => Panel::Calibration(id),
                    }
                },
            }),
    {
        proof {
            use_type_invariant(self);
            self.lemma_consistent();
        }
        match self.selected {
            None => Panel::NoDevice,
            Some(id) => match self.state(id) {
                None => Panel::NoState(id),
                Some(_) => match self.view_mode {
                    ViewMode::Controller => Panel::Controller(id),
                    ViewMode::Calibration => Panel::Calibration(id),
                },
            },
        }
    }
    /// Applies a message to the state.
    pub fn update(&mut self, message: Message)
        ensures
            final(self)@ == old(self)@.next(message),
            final(self)@.consistent(),
    {
        proof {
            use_type_invariant(&*self);
        }
        let ghost s0 = self@;
        let mut reg = Registry { devices: Vec::new(), states: Vec::new() };
        std::mem::swap(&mut reg, &mut self.registry);
        assert(reg.device_seq() == s0.devices);
        assert(keyed(reg.state_seq()) == s0.states);
        match message {
            Message::GamepadConnected(id, name) => {
                match reg.position(id) {
                    Some(i) => {
                        assert(reg.device_seq()[i as int].0 == id);
                    },
                    None => {
                        reg.add(DeviceInfo { id, name });
                        if self.selected.is_none() {
                            self.selected = Some(id);
                        }
                    },
                }
            },
            Message::GamepadDisconnected(id) => {
                let ghost pred = listed_other_than(id);
                match reg.position(id) {
                    Some(i) => {
                        proof {
                            let d0 = reg.device_seq();
                            assert(d0[i as int].0 == id);
                            assert forall|j: int| 0 <= j < d0.len() && j != i implies pred(
                                #[trigger] d0[j],
                            ) by {
                                assert(d0[j].0 != d0[i as int].0);
                            }
                            lemma_filter_drops_one(d0, pred, i as int);
                        }
                        reg.remove_at(i);
                    },
                    None => {
                        proof {
                            let d0 = reg.device_seq();
                            assert forall|j: int| 0 <= j < d0.len() implies pred(#[trigger] d0[j]) by {
                                assert(!(d0[j].0 == id));
                            }
                            lemma_filter_keeps_all(d0, pred);
                            assert(!s0.states.contains_key(id));
                            assert(s0.states.remove(id) =~= s0.states);
                        }
                    },
                }
                if let Some(sel) = self.selected {
                    if sel == id {
                        self.selected = if reg.devices.len() > 0 {
                            Some(reg.devices[0].id)
                        } else {
                            None
                        };
                    }
                }
            },
            Message::SelectDevice(sel) => {
                self.selected = sel;
            },
            Message::ButtonChanged(id, button, value) => {
                if let Some(i) = reg.position(id) {
                    proof {
                        lemma_keyed_index(reg.state_seq(), i as int);
                    }
                    let mut st = reg.states[i];
                    st.update_button(button, value);
                    reg.put_state(i, st);
                }
            },
            Message::AxisChanged(id, axis, value) => {
                if let Some(i) = reg.position(id) {
                    proof {
                        lemma_keyed_index(reg.state_seq(), i as int);
                    }
                    let mut st = reg.states[i];
                    st.update_axis(axis, value);
                    reg.put_state(i, st);
                }
            },
            Message::SetViewMode(mode) => {
                self.view_mode = mode;
            },
            Message::SetDeadzone(id, axis, deadzone) => {
                if let Some(i) = reg.position(id) {
                    proof {
                        lemma_keyed_index(reg.state_seq(), i as int);
                    }
                    let mut st = reg.states[i];
                    st.set_deadzone(axis, deadzone);
                    reg.put_state(i, st);
                }
            },
            Message::RecenterAxis(id, axis) => {
                if let Some(i) = reg.position(id) {
                    proof {
                        lemma_keyed_index(reg.state_seq(), i as int);
                    }
                    let mut st = reg.states[i];
                    st.recenter_axis(axis);
                    reg.put_state(i, st);
                }
            },
            Message::ResetAxisCalibration(id, axis) => {
                if let Some(i) = reg.position(id) {
                    proof {
                        lemma_keyed_index(reg.state_seq(), i as int);
                    }
                    let mut st = reg.states[i];
                    st.reset_axis_calibration(axis);
                    reg.put_state(i, st);
                }
            },
            Message::ResetAllCalibration(id) => {
                if let Some(i) = reg.position(id) {
                    proof {
                        lemma_keyed_index(reg.state_seq(), i as int);
                    }
                    let mut st = reg.states[i];
                    st.reset_all_calibration();
                    reg.put_state(i, st);
                }
            },
        }
        self.registry = reg;
        proof {
            self.lemma_consistent();
        }
    }
}

} // verus!
