//! Turning backend input events into application messages: per-device
//! mapping rules, code-number fallbacks, and device names.
use vstd::prelude::*;
use crate::controls::{Axis, Button, axis_name, button_name, negate_sample, negated};
use crate::keyed::{distinct_keys, has_key, keyed, lemma_keyed_index, lemma_keyed_push,
    lemma_keyed_remove, lemma_keyed_update};
use crate::mappings::{Mapping, MappingView, find_mapping_index, first_match, mapping_views};
use crate::messages::Message;
use crate::text::{
    chars_of, occurs_at, occurs_at_exec, is_digit, all_digits, read_digits, spec_parse_i32,
    capped_value, digits_value, i32_magnitude_limit, decimal_text, push_decimal,
};

verus! {

/// The text that precedes the code number in a printed event code.
pub open spec fn code_marker() -> Seq<char> {
    "code: "@
}

/// The last position below `n` where `p` occurs in `s`.
pub open spec fn last_occurrence_below(s: Seq<char>, p: Seq<char>, n: nat) -> Option<int>
    decreases n,
{
    if n == 0 {
        None
    } else if occurs_at(s, p, n - 1) {
        Some(n - 1)
    } else {
        last_occurrence_below(s, p, (n - 1) as nat)
    }
}

/// The last position where `p` occurs in `s`.
pub open spec fn last_occurrence(s: Seq<char>, p: Seq<char>) -> Option<int> {
    last_occurrence_below(s, p, s.len() + 1)
}

/// The last occurrence is an occurrence, and no later one exists.
pub proof fn lemma_last_occurrence(s: Seq<char>, p: Seq<char>, n: nat)
    ensures
        match last_occurrence_below(s, p, n) {
            Some(i) => 0 <= i < n && occurs_at(s, p, i) && forall|j: int|
                i < j < n ==> !#[trigger] occurs_at(s, p, j),
            None => forall|j: int| 0 <= j < n ==> !#[trigger] occurs_at(s, p, j),
        },
    decreases n,
{
    if n > 0 {
        lemma_last_occurrence(s, p, (n - 1) as nat);
    }
}

/// How many decimal digits `t` starts with.
pub open spec fn digit_run_len(t: Seq<char>) -> nat
    decreases t.len(),
{
    if t.len() > 0 && is_digit(t[0]) {
        1 + digit_run_len(t.drop_first())
    } else {
        0
    }
}

/// The code number in the printed form of an event code: the digits
/// right after the last `code: `, read as an `i32`.
pub open spec fn spec_parse_code_number(s: Seq<char>) -> Option<i32> {
    match last_occurrence(s, code_marker()) {
        Some(i) => {
            let tail = s.subrange(i + code_marker().len(), s.len() as int);
            spec_parse_i32(tail.take(digit_run_len(tail) as int))
        },
        None => None,
    }
}

/// The last position where `p` occurs in `s`.
fn find_last(s: &Vec<char>, p: &Vec<char>) -> (r: Option<usize>)
    ensures
        match r {
            Some(i) => last_occurrence(s@, p@) == Some(i as int),
            None => last_occurrence(s@, p@) is None,
        },
{
    if occurs_at_exec(s, p, s.len()) {
        return Some(s.len());
    }
    let mut n: usize = s.len();
    while n > 0
        invariant
            n <= s@.len(),
            last_occurrence(s@, p@) == last_occurrence_below(s@, p@, n as nat),
        decreases n,
    {
        if occurs_at_exec(s, p, n - 1) {
            return Some(n - 1);
        }
        n = n - 1;
    }
    None
}

/// Parses a printed event code like `EvCode(EvCode { kind: 3, code: 10 })`
/// for its code number.
pub fn parse_code_number(s: &str) -> (r: Option<i32>)
    ensures
        r == spec_parse_code_number(s@),
{
    let v = chars_of(s);
    let marker = chars_of("code: ");
    proof {
        reveal_strlit("code: ");
    }
    assert(marker@.len() == 6);
    let i = match find_last(&v, &marker) {
        None => {
            return None;
        },
        Some(i) => i,
    };
    proof {
        lemma_last_occurrence(v@, marker@, v@.len() + 1);
        assert(last_occurrence_below(v@, marker@, v@.len() + 1) == Some(i as int));
        assert(occurs_at(v@, marker@, i as int));
        assert(i + 6 <= v.len());
    }
    let start = i + 6;
    let ghost tail = v@.subrange(start as int, v@.len() as int);
    let mut j = start;
    while j < v.len() && '0' <= v[j] && v[j] <= '9'
        invariant
            start <= j <= v@.len(),
            tail == v@.subrange(start as int, v@.len() as int),
            all_digits(v@.subrange(start as int, j as int)),
            digit_run_len(tail) == (j - start) + digit_run_len(v@.subrange(j as int, v@.len() as int)),
        decreases v@.len() - j,
    {
        let ghost rest = v@.subrange(j as int, v@.len() as int);
        assert(rest.drop_first() =~= v@.subrange(j + 1, v@.len() as int));
        assert(rest[0] == v@[j as int]);
        let ghost prev = v@.subrange(start as int, j as int);
        let ghost next = v@.subrange(start as int, j + 1);
        assert forall|k: int| 0 <= k < next.len() implies is_digit(#[trigger] next[k]) by {
            if k < prev.len() {
                assert(next[k] == prev[k]);
            }
        }
        j = j + 1;
    }
    let ghost rest = v@.subrange(j as int, v@.len() as int);
    assert(digit_run_len(rest) == 0) by {
        if j < v@.len() {
            assert(rest[0] == v@[j as int]);
        }
    }
    let ghost digits = v@.subrange(start as int, j as int);
    assert(tail.take(digit_run_len(tail) as int) =~= digits);
    if j == start {
        return None;
    }
    assert(digits[0] == v@[start as int]);
    assert(is_digit(digits[0]));
    match read_digits(&v, start, j) {
        None => None,
        Some(x) => {
            if x < 2147483648 {
                Some(x as i32)
            } else {
                None
            }
        },
    }
}

/// The axis that a bare code number stands for where no mapping names
/// the axis.
pub open spec fn fallback_axis(code: i32) -> Axis {
    if code == 9 || code == 3 {
        Axis::RightStickX
    } else if code == 10 || code == 4 {
        Axis::RightStickY
    } else if code == 16 {
        Axis::DPadX
    } else if code == 17 {
        Axis::DPadY
    } else {
        Axis::Unknown
    }
}

/// The axis that a bare code number stands for where no mapping names
/// the axis.
pub fn code_fallback(code: i32) -> (r: Axis)
    ensures
        r == fallback_axis(code),
{
    match code {
        9 => Axis::RightStickX,
        10 => Axis::RightStickY,
        3 => Axis::RightStickX,
        4 => Axis::RightStickY,
        16 => Axis::DPadX,
        17 => Axis::DPadY,
        _ => Axis::Unknown,
    }
}

/// The axis and value that an axis event is forwarded with, given the
/// mapping of its device (if any) and the printed form of its event
/// code: a mapped code number names the axis first; failing that (the
/// axis unchanged), a renaming of the reported axis applies; the value
/// is negated where the mapping inverts the resulting axis.  An axis
/// still `Unknown` falls back on the code number.
pub open spec fn routed_axis(m: Option<MappingView>, axis: Axis, value: u32, code_text: Seq<char>) -> (
    Axis,
    u32,
) {
    let code = spec_parse_code_number(code_text);
    let (mapped, v) = match m {
        None => (axis, value),
        Some(mp) => {
            let by_code = match code {
                Some(n) => if mp.axis_codes.contains_key(n) {
                    mp.axis_codes[n]
                } else {
                    axis
                },
                None => axis,
            };
            let by_name = if by_code == axis && mp.axis_names.contains_key(axis) {
                mp.axis_names[axis]
            } else {
                by_code
            };
            (
                by_name,
                if mp.axis_invert.contains(axis_name(by_name)) {
                    negated(value)
                } else {
                    value
                },
            )
        },
    };
    if mapped == Axis::Unknown {
        match code {
            Some(n) => (fallback_axis(n), v),
            None => (mapped, v),
        }
    } else {
        (mapped, v)
    }
}

/// The button that a button event is forwarded with: the mapping's
/// renaming of the reported button's name, if it has one.
pub open spec fn routed_button(m: Option<MappingView>, b: Button) -> Button {
    match m {
        Some(mp) => if mp.button_names.contains_key(button_name(b)) {
            mp.button_names[button_name(b)]
        } else {
            b
        },
        None => b,
    }
}

/// The name a connected device is listed under: the name the backend
/// reports, or `Gamepad #<id>` where it reports none.
pub open spec fn display_name(name: Option<Seq<char>>, id: usize) -> Seq<char> {
    match name {
        Some(n) => n,
        None => "Gamepad #"@ + decimal_text(id as nat),
    }
}

/// The characters of an optional text.
pub open spec fn opt_text(name: Option<String>) -> Option<Seq<char>> {
    match name {
        Some(n) => Some(n@),
        None => None,
    }
}

/// The name a connected device is listed under.
pub fn device_display_name(name: Option<String>, id: usize) -> (r: String)
    ensures
        r@ == display_name(opt_text(name), id),
{
    match name {
        Some(n) => n,
        None => {
            let mut s = String::from_str("Gamepad #");
            push_decimal(&mut s, id);
            s
        },
    }
}

/// An input event as the backend reports it.  Values are `f32` bit
/// patterns; `code` is the printed form of the axis event's code.
#[derive(Debug)]
pub enum InputEvent {
    /// A gamepad connected (id, the name the backend reports, if any).
    Connected(usize, Option<String>),
    /// A gamepad disconnected.
    Disconnected(usize),
    /// A button's value changed.
    ButtonChanged(usize, Button, u32),
    /// An axis's value changed.
    AxisChanged(usize, Axis, u32, String),
    /// Anything else; it is not forwarded.
    Other,
}

/// The abstract router: the mappings known, and which of them each
/// connected device uses (by position).
pub struct RouterView {
    pub mappings: Seq<MappingView>,
    pub assigned: Map<usize, usize>,
}

impl RouterView {
    /// The mapping a device uses, if any.
    pub open spec fn mapping_of(self, id: usize) -> Option<MappingView> {
        if self.assigned.contains_key(id) {
            Some(self.mappings[self.assigned[id] as int])
        } else {
            None
        }
    }

    /// After a device of this name connects: it uses the first mapping
    /// that applies to its name; where none applies, what it used before
    /// stays.
    pub open spec fn after_connect(self, id: usize, name: Seq<char>) -> Self {
        match first_match(self.mappings, name) {
            Some(i) => RouterView { assigned: self.assigned.insert(id, i as usize), ..self },
            None => self,
        }
    }

    /// After a device disconnects: it uses no mapping.
    pub open spec fn after_disconnect(self, id: usize) -> Self {
        RouterView { assigned: self.assigned.remove(id), ..self }
    }

    /// After an event: a connection assigns a mapping by the device's
    /// listed name, a disconnection drops the device's mapping, and any
    /// other event changes nothing.
    pub open spec fn after_event(self, e: InputEvent) -> Self {
        match e {
            InputEvent::Connected(id, name) => self.after_connect(
                id,
                display_name(opt_text(name), id),
            ),
            InputEvent::Disconnected(id) => self.after_disconnect(id),
            _ => self,
        }
    }
}

/// The router after a sequence of events, in order.
pub open spec fn after_events(r: RouterView, events: Seq<InputEvent>) -> RouterView
    decreases events.len(),
{
    if events.len() == 0 {
        r
    } else {
        after_events(r, events.drop_last()).after_event(events.last())
    }
}

/// The event is a connection of device `id`.
pub open spec fn connects(e: InputEvent, id: usize) -> bool {
    match e {
        InputEvent::Connected(i, _) => i == id,
        _ => false,
    }
}

/// Routes backend events to application messages, applying the mapping
/// that each connected device uses.
pub struct EventRouter {
    mappings: Vec<Mapping>,
    assigned: Vec<(usize, usize)>,
}

impl View for EventRouter {
    type V = RouterView;

    closed spec fn view(&self) -> RouterView {
        RouterView { mappings: mapping_views(self.mappings@), assigned: keyed(self.assigned@) }
    }
}

/// Adds or replaces an assignment.
fn put_assignment(tab: &mut Vec<(usize, usize)>, k: usize, v: usize, bound: usize)
    requires
        distinct_keys(old(tab)@),
        v < bound,
        forall|j: int| 0 <= j < old(tab)@.len() ==> #[trigger] old(tab)@[j].1 < bound,
    ensures
        distinct_keys(final(tab)@),
        keyed(final(tab)@) == keyed(old(tab)@).insert(k, v),
        forall|j: int| 0 <= j < final(tab)@.len() ==> #[trigger] final(tab)@[j].1 < bound,
{
    let mut i: usize = 0;
    while i < tab.len()
        invariant
            i <= tab@.len(),
            tab@ == old(tab)@,
            distinct_keys(tab@),
            forall|j: int| 0 <= j < tab@.len() ==> #[trigger] tab@[j].1 < bound,
            v < bound,
            forall|j: int| 0 <= j < i ==> tab@[j].0 != k,
        decreases tab@.len() - i,
    {
        if tab[i].0 == k {
            proof {
                lemma_keyed_update(tab@, i as int, v);
            }
            tab.set(i, (k, v));
            assert forall|j: int| 0 <= j < tab@.len() implies #[trigger] tab@[j].1 < bound by {
                if j != i {
                    assert(tab@[j] == old(tab)@[j]);
                }
            }
            return;
        }
        i = i + 1;
    }
    proof {
        assert(!has_key(tab@, k));
        lemma_keyed_push(tab@, k, v);
    }
    tab.push((k, v));
    assert forall|j: int| 0 <= j < tab@.len() implies #[trigger] tab@[j].1 < bound by {
        if j < old(tab)@.len() {
            assert(tab@[j] == old(tab)@[j]);
        }
    }
}

/// Drops the assignment of a key, if any.
fn drop_assignment(tab: &mut Vec<(usize, usize)>, k: usize, bound: usize)
    requires
        distinct_keys(old(tab)@),
        forall|j: int| 0 <= j < old(tab)@.len() ==> #[trigger] old(tab)@[j].1 < bound,
    ensures
        distinct_keys(final(tab)@),
        keyed(final(tab)@) == keyed(old(tab)@).remove(k),
        forall|j: int| 0 <= j < final(tab)@.len() ==> #[trigger] final(tab)@[j].1 < bound,
{
    let mut i: usize = 0;
    while i < tab.len()
        invariant
            i <= tab@.len(),
            tab@ == old(tab)@,
            distinct_keys(tab@),
            forall|j: int| 0 <= j < tab@.len() ==> #[trigger] tab@[j].1 < bound,
            forall|j: int| 0 <= j < i ==> tab@[j].0 != k,
        decreases tab@.len() - i,
    {
        if tab[i].0 == k {
            proof {
                lemma_keyed_remove(tab@, i as int);
            }
            tab.remove(i);
            assert forall|j: int| 0 <= j < tab@.len() implies #[trigger] tab@[j].1 < bound by {
                if j < i {
                    assert(tab@[j] == old(tab)@[j]);
                } else {
                    assert(tab@[j] == old(tab)@[j + 1]);
                }
            }
            return;
        }
        i = i + 1;
    }
    assert(!has_key(tab@, k));
    assert(keyed(tab@).remove(k) =~= keyed(tab@));

}

impl EventRouter {
    #[verifier::type_invariant]
    spec fn assignments_valid(self) -> bool {
        &&& distinct_keys(self.assigned@)
        &&& forall|j: int| 0 <= j < self.assigned@.len() ==> #[trigger] self.assigned@[j].1 < self.mappings@.len()
    }

    /// A router with these mappings, no device assigned yet.
    pub fn new(mappings: Vec<Mapping>) -> (r: Self)
        ensures
            r@.mappings == mapping_views(mappings@),
            r@.assigned == Map::<usize, usize>::empty(),
    {
        let r = EventRouter { mappings, assigned: Vec::new() };
        assert(keyed(r.assigned@) =~= Map::<usize, usize>::empty());
        r
    }

    /// The mappings known.
    pub fn mappings(&self) -> (r: &Vec<Mapping>)
        ensures
            mapping_views(r@) == self@.mappings,
    {
        &self.mappings
    }

    /// The mapping a device uses, if any.
    pub fn mapping_for(&self, id: usize) -> (r: Option<&Mapping>)
        ensures
            match r {
                Some(m) => self@.mapping_of(id) == Some(m@),
                None => self@.mapping_of(id) is None,
            },
    {
        proof {
            use_type_invariant(self);
        }
        let mut i: usize = 0;
        while i < self.assigned.len()
            invariant
                i <= self.assigned@.len(),
                distinct_keys(self.assigned@),
                forall|j: int| 0 <= j < self.assigned@.len() ==> #[trigger] self.assigned@[j].1 < self.mappings@.len(),
                forall|j: int| 0 <= j < i ==> self.assigned@[j].0 != id,
            decreases self.assigned@.len() - i,
        {
            if self.assigned[i].0 == id {
                proof {
                    lemma_keyed_index(self.assigned@, i as int);
                }
                let k = self.assigned[i].1;
                assert(k < self.mappings@.len());
                return Some(&self.mappings[k]);
            }
            i = i + 1;
        }
        None
    }

    /// Records a device connecting under a name: it uses the first mapping
    /// that applies to the name, if any.  Gives the message announcing it.
    pub fn device_connected(&mut self, id: usize, name: String) -> (r: Message)
        ensures
            r == Message::GamepadConnected(id, name),
            final(self)@ == old(self)@.after_connect(id, name@),
    {
        proof {
            use_type_invariant(&*self);
        }
        match find_mapping_index(self.mappings.as_slice(), name.as_str()) {
            Some(i) => {
                let mut tab: Vec<(usize, usize)> = Vec::new();
                std::mem::swap(&mut tab, &mut self.assigned);
                put_assignment(&mut tab, id, i, self.mappings.len());
                self.assigned = tab;
            },
            None => {},
        }
        Message::GamepadConnected(id, name)
    }

    /// Records a device disconnecting.  Gives the message announcing it.
    pub fn device_disconnected(&mut self, id: usize) -> (r: Message)
        ensures
            r == Message::GamepadDisconnected(id),
            final(self)@ == old(self)@.after_disconnect(id),
    {
        proof {
            use_type_invariant(&*self);
        }
        let mut tab: Vec<(usize, usize)> = Vec::new();
        std::mem::swap(&mut tab, &mut self.assigned);
        drop_assignment(&mut tab, id, self.mappings.len());
        self.assigned = tab;
        Message::GamepadDisconnected(id)
    }

    /// The button a device's button event is forwarded with.
    pub fn route_button(&self, id: usize, button: Button) -> (r: Button)
        ensures
            r == routed_button(self@.mapping_of(id), button),
    {
        match self.mapping_for(id) {
            Some(m) => match m.button_target(button.name()) {
                Some(b) => b,
                None => button,
            },
            None => button,
        }
    }

    /// The axis and value a device's axis event is forwarded with.
    pub fn route_axis(&self, id: usize, axis: Axis, value: u32, code_text: &str) -> (r: (Axis, u32))
        ensures
            r == routed_axis(self@.mapping_of(id), axis, value, code_text@),
    {
        let code = parse_code_number(code_text);
        let mut mapped = axis;
        let mut v = value;
        match self.mapping_for(id) {
            Some(m) => {
                if let Some(n) = code {
                    if let Some(ax) = m.code_target(n) {
                        mapped = ax;
                    }
                }
                if mapped == axis {
                    if let Some(ax) = m.name_target(axis) {
                        mapped = ax;
                    }
                }
                if m.inverts(mapped.name()) {
                    v = negate_sample(v);
                }
            },
            None => {},
        }
        if mapped == Axis::Unknown {
            if let Some(n) = code {
                mapped = code_fallback(n);
            }
        }
        (mapped, v)
    }

    /// Handles one backend event: keeps the device assignments up to date
    /// and gives the message to forward, if any.
    pub fn handle_event(&mut self, event: InputEvent) -> (r: Option<Message>)
        ensures
            match event {
                InputEvent::Connected(id, name) => r matches Some(Message::GamepadConnected(i, n))
                    && i == id && n@ == display_name(opt_text(name), id)
                    && final(self)@ == old(self)@.after_connect(id, n@),
                InputEvent::Disconnected(id) => r == Some(Message::GamepadDisconnected(id))
                    && final(self)@ == old(self)@.after_disconnect(id),
                InputEvent::ButtonChanged(id, b, v) => r == Some(
                    Message::ButtonChanged(id, routed_button(old(self)@.mapping_of(id), b), v),
                ) && final(self)@ == old(self)@,
                InputEvent::AxisChanged(id, a, v, code) => r == Some(
                    Message::AxisChanged(
                        id,
                        routed_axis(old(self)@.mapping_of(id), a, v, code@).0,
                        routed_axis(old(self)@.mapping_of(id), a, v, code@).1,
                    ),
                ) && final(self)@ == old(self)@,
                InputEvent::Other => r is None && final(self)@ == old(self)@,
            },
            final(self)@ == old(self)@.after_event(event),
    {
        match event {
            InputEvent::Connected(id, name) => {
                let name = device_display_name(name, id);
                Some(self.device_connected(id, name))
            },
            InputEvent::Disconnected(id) => Some(self.device_disconnected(id)),
            InputEvent::ButtonChanged(id, b, v) => Some(
                Message::ButtonChanged(id, self.route_button(id, b), v),
            ),
            InputEvent::AxisChanged(id, a, v, code) => {
                let (ax, val) = self.route_axis(id, a, v, code.as_str());
                Some(Message::AxisChanged(id, ax, val))
            },
            InputEvent::Other => None,
        }
    }
}

/// An occurrence with none after it below `n` is the last one below `n`.
proof fn lemma_last_occurrence_is(s: Seq<char>, p: Seq<char>, i: int, n: nat)
    requires
        occurs_at(s, p, i),
        0 <= i < n,
        forall|j: int| i < j < n ==> !#[trigger] occurs_at(s, p, j),
    ensures
        last_occurrence_below(s, p, n) == Some(i),
    decreases n,
{
    if n - 1 != i {
        lemma_last_occurrence_is(s, p, i, (n - 1) as nat);
    }
}

/// A run of digits followed by a non-digit (or nothing) is as long as
/// the run.
proof fn lemma_digit_run(d: Seq<char>, t: Seq<char>)
    requires
        all_digits(d),
        t.len() > 0 ==> !is_digit(t[0]),
    ensures
        digit_run_len(d + t) == d.len(),
    decreases d.len(),
{
    if d.len() == 0 {
        assert(d + t =~= t);
    } else {
        assert((d + t).drop_first() =~= d.drop_first() + t);
        assert((d + t)[0] == d[0]);
        assert(all_digits(d.drop_first())) by {
            assert forall|k: int| 0 <= k < d.drop_first().len() implies is_digit(
                #[trigger] d.drop_first()[k],
            ) by {
                assert(d.drop_first()[k] == d[k + 1]);
            }
        }
        lemma_digit_run(d.drop_first(), t);
    }
}

/// A code number printed after `code: ` is read back, whatever precedes
/// it, when what follows holds no `c` and does not start with a digit.
pub proof fn lemma_code_number_read_back(p: Seq<char>, n: nat, t: Seq<char>)
    requires
        n < 2147483648,
        forall|k: int| 0 <= k < t.len() ==> t[k] != 'c',
        t.len() > 0 ==> !is_digit(t[0]),
    ensures
        spec_parse_code_number(p + code_marker() + decimal_text(n) + t) == Some(n as i32),
{
    reveal_strlit("code: ");
    let m = code_marker();
    let d = decimal_text(n);
    crate::text::lemma_decimal_text(n);
    assert(m.len() == 6);
    assert(m[0] == 'c' && m[1] == 'o' && m[2] == 'd' && m[3] == 'e' && m[4] == ':' && m[5] == ' ');
    let s = p + m + d + t;
    let i = p.len() as int;
    assert(s.subrange(i, i + 6) =~= m);
    assert forall|j: int| i < j < s.len() + 1 implies !#[trigger] occurs_at(s, m, j) by {
        if occurs_at(s, m, j) {
            assert(s.subrange(j, j + 6)[0] == m[0]);
            assert(s[j] == 'c');
            if j < i + 6 {
                assert(s[j] == m[j - i]);
            } else if j < i + 6 + d.len() {
                assert(s[j] == d[j - i - 6]);
            } else {
                assert(s[j] == t[j - i - 6 - d.len()]);
            }
        }
    }
    lemma_last_occurrence_is(s, m, i, (s.len() + 1) as nat);
    let tail = s.subrange(i + 6, s.len() as int);
    assert(tail =~= d + t);
    lemma_digit_run(d, t);
    assert(tail.take(d.len() as int) =~= d);
    assert(is_digit(d[0]));
}

/// A device without a mapping has its buttons forwarded unchanged and
/// its axis values unchanged; a disconnected device has no mapping.
pub proof fn lemma_unmapped_device(r: RouterView, id: usize, b: Button, a: Axis, v: u32, code: Seq<char>)
    ensures
        r.after_disconnect(id).mapping_of(id) is None,
        routed_button(None, b) == b,
        routed_axis(None, a, v, code).1 == v,
        a != Axis::Unknown ==> routed_axis(None, a, v, code).0 == a,
{
}

/// Once a device disconnects, it uses no mapping until it connects again:
/// whatever other events come in between (other devices connecting or
/// disconnecting, input from any device), its buttons are forwarded
/// unchanged and its axis values unchanged, its axes renamed only by the
/// bare-code fallback for `Unknown`.
pub proof fn lemma_disconnected_stays_unmapped(
    r: RouterView,
    id: usize,
    events: Seq<InputEvent>,
    b: Button,
    a: Axis,
    v: u32,
    code: Seq<char>,
)
    requires
        forall|i: int| 0 <= i < events.len() ==> !connects(#[trigger] events[i], id),
    ensures
        after_events(r.after_disconnect(id), events).mapping_of(id) is None,
        routed_button(after_events(r.after_disconnect(id), events).mapping_of(id), b) == b,
        routed_axis(after_events(r.after_disconnect(id), events).mapping_of(id), a, v, code).1 == v,
        a != Axis::Unknown ==> routed_axis(
            after_events(r.after_disconnect(id), events).mapping_of(id),
            a,
            v,
            code,
        ).0 == a,
    decreases events.len(),
{
    if events.len() > 0 {
        let d = events.drop_last();
        assert forall|i: int| 0 <= i < d.len() implies !connects(#[trigger] d[i], id) by {
            assert(d[i] == events[i]);
        }
        lemma_disconnected_stays_unmapped(r, id, d, b, a, v, code);
        assert(!connects(events[events.len() - 1], id));
    }
}

/// The forwarded value is the reported value, negated or not.
pub proof fn lemma_routed_value(m: Option<MappingView>, a: Axis, v: u32, code: Seq<char>)
    ensures
        routed_axis(m, a, v, code).1 == v || routed_axis(m, a, v, code).1 == negated(v),
        m is None ==> routed_axis(m, a, v, code).1 == v,
{
}

/// With a mapping whose code table does not take the event's code, an
/// axis that the name table renames to a known axis `b` is forwarded as
/// `b`, its value negated exactly when the mapping inverts `b`.
pub proof fn lemma_route_by_name(mp: MappingView, a: Axis, v: u32, code: Seq<char>)
    requires
        !(spec_parse_code_number(code) matches Some(n) && mp.axis_codes.contains_key(n)),
        mp.axis_names.contains_key(a),
        mp.axis_names[a] != Axis::Unknown,
    ensures
        routed_axis(Some(mp), a, v, code).0 == mp.axis_names[a],
        mp.axis_invert.contains(axis_name(mp.axis_names[a])) ==> routed_axis(Some(mp), a, v, code).1
            == negated(v),
        !mp.axis_invert.contains(axis_name(mp.axis_names[a])) ==> routed_axis(Some(mp), a, v, code).1
            == v,
{
}

/// With a mapping whose code table takes the event's code to a known axis
/// `c` other than the reported one, the event is forwarded as `c` (the
/// name table is not consulted), its value negated exactly when the
/// mapping inverts `c`.
pub proof fn lemma_route_by_code(mp: MappingView, a: Axis, v: u32, code: Seq<char>, n: i32)
    requires
        spec_parse_code_number(code) == Some(n),
        mp.axis_codes.contains_key(n),
        mp.axis_codes[n] != a,
        mp.axis_codes[n] != Axis::Unknown,
    ensures
        routed_axis(Some(mp), a, v, code).0 == mp.axis_codes[n],
        mp.axis_invert.contains(axis_name(mp.axis_codes[n])) ==> routed_axis(Some(mp), a, v, code).1
            == negated(v),
        !mp.axis_invert.contains(axis_name(mp.axis_codes[n])) ==> routed_axis(Some(mp), a, v, code).1
            == v,
{
}

/// With a mapping that renames neither the code nor the reported known
/// axis, the event keeps its axis, its value negated exactly when the
/// mapping inverts that axis.
pub proof fn lemma_route_unrenamed(mp: MappingView, a: Axis, v: u32, code: Seq<char>)
    requires
        !(spec_parse_code_number(code) matches Some(n) && mp.axis_codes.contains_key(n)),
        !mp.axis_names.contains_key(a),
        a != Axis::Unknown,
    ensures
        routed_axis(Some(mp), a, v, code).0 == a,
        mp.axis_invert.contains(axis_name(a)) ==> routed_axis(Some(mp), a, v, code).1 == negated(v),
        !mp.axis_invert.contains(axis_name(a)) ==> routed_axis(Some(mp), a, v, code).1 == v,
{
}

/// An axis still `Unknown` after the renamings takes the axis its code
/// number stands for; without a mapping, so does every `Unknown` axis.
pub proof fn lemma_route_unknown_fallback(m: Option<MappingView>, v: u32, code: Seq<char>, n: i32)
    requires
        spec_parse_code_number(code) == Some(n),
        m is None || !(m->0.axis_codes.contains_key(n) || m->0.axis_names.contains_key(Axis::Unknown)),
    ensures
        routed_axis(m, Axis::Unknown, v, code).0 == fallback_axis(n),
{
}

/// A button is renamed by one lookup of its name: to the mapping's target
/// for that name where there is one (whatever the target's own renaming),
/// otherwise it is forwarded as reported; without a mapping it is
/// forwarded as reported.
pub proof fn lemma_route_button(mp: MappingView, b: Button)
    ensures
        mp.button_names.contains_key(button_name(b)) ==> routed_button(Some(mp), b)
            == mp.button_names[button_name(b)],
        !mp.button_names.contains_key(button_name(b)) ==> routed_button(Some(mp), b) == b,
        routed_button(None, b) == b,
{
}

} // verus!
