use vstd::prelude::*;
use vstd::string::StringExecFns;
use crate::input::{Key, MouseButton, same_key};
use crate::input_action::ButtonEvent;
use crate::text::push_decimal;

verus! {

/// Why the input manager refused a device request.
#[derive(Debug, Clone, Copy, PartialEq, Eq, Structural)]
pub enum InputManagerError {
    /// A device with this id is already registered.
    DeviceExists(u32),
    /// No device with this id is registered.
    DeviceNotFound(u32),
}

impl InputManagerError {
    /// The error's message.
    pub fn message(&self) -> (s: String)
        ensures
            s@ == match *self {
                InputManagerError::DeviceExists(id) => "Device with ID "@ + crate::text::decimal_text(
                    id as nat,
                ) + " already exists"@,
                InputManagerError::DeviceNotFound(id) => "Device with ID "@
                    + crate::text::decimal_text(id as nat) + " not found"@,
            },
    {
        let mut s = String::from_str("Device with ID ");
        match self {
            InputManagerError::DeviceExists(id) => {
                push_decimal(&mut s, *id as u64);
                s.append(" already exists");
            },
            InputManagerError::DeviceNotFound(id) => {
                push_decimal(&mut s, *id as u64);
                s.append(" not found");
            },
        }
        s
    }
}

/// Whether `key` is down by the first entry for the same key, if any.
pub open spec fn flag_of_key(list: Seq<(Key, bool)>, key: Key) -> Option<bool>
    decreases list.len(),
{
    if list.len() == 0 {
        None
    } else if same_key(list[0].0, key) {
        Some(list[0].1)
    } else {
        flag_of_key(list.drop_first(), key)
    }
}

/// Whether `button` is down by its first entry, if any.
pub open spec fn flag_of_button(list: Seq<(MouseButton, bool)>, button: MouseButton) -> Option<bool>
    decreases list.len(),
{
    if list.len() == 0 {
        None
    } else if list[0].0 == button {
        Some(list[0].1)
    } else {
        flag_of_button(list.drop_first(), button)
    }
}

proof fn lemma_flag_of_key_update(list: Seq<(Key, bool)>, i: int, key: Key, down: bool, other: Key)
    requires
        0 <= i < list.len(),
        same_key(list[i].0, key),
        forall|j: int| 0 <= j < i ==> !same_key(#[trigger] list[j].0, key),
    ensures
        flag_of_key(list.update(i, (key, down)), other) == if same_key(key, other) {
            Some(down)
        } else {
            flag_of_key(list, other)
        },
    decreases list.len(),
{
    let after = list.update(i, (key, down));
    if i > 0 {
        assert(after.drop_first() =~= list.drop_first().update(i - 1, (key, down)));
        assert forall|j: int| 0 <= j < i - 1 implies !same_key(#[trigger] list.drop_first()[j].0, key) by {
            assert(list.drop_first()[j] == list[j + 1]);
        }
        lemma_flag_of_key_update(list.drop_first(), i - 1, key, down, other);
        assert(!same_key(list[0].0, key));
    } else {
        assert(after.drop_first() =~= list.drop_first());
    }
}

proof fn lemma_flag_of_key_push(list: Seq<(Key, bool)>, key: Key, down: bool, other: Key)
    requires
        forall|j: int| 0 <= j < list.len() ==> !same_key(#[trigger] list[j].0, key),
    ensures
        flag_of_key(list.push((key, down)), other) == if same_key(key, other) {
            Some(down)
        } else {
            flag_of_key(list, other)
        },
    decreases list.len(),
{
    let after = list.push((key, down));
    if list.len() == 0 {
        assert(after.drop_first() =~= list);
    } else {
        assert(after.drop_first() =~= list.drop_first().push((key, down)));
        assert forall|j: int| 0 <= j < list.len() - 1 implies !same_key(
            #[trigger] list.drop_first()[j].0,
            key,
        ) by {
            assert(list.drop_first()[j] == list[j + 1]);
        }
        lemma_flag_of_key_push(list.drop_first(), key, down, other);
        assert(!same_key(list[0].0, key));
    }
}

proof fn lemma_flag_of_button_update(
    list: Seq<(MouseButton, bool)>,
    i: int,
    button: MouseButton,
    down: bool,
    other: MouseButton,
)
    requires
        0 <= i < list.len(),
        list[i].0 == button,
        forall|j: int| 0 <= j < i ==> #[trigger] list[j].0 != button,
    ensures
        flag_of_button(list.update(i, (button, down)), other) == if button == other {
            Some(down)
        } else {
            flag_of_button(list, other)
        },
    decreases list.len(),
{
    let after = list.update(i, (button, down));
    if i > 0 {
        assert(after.drop_first() =~= list.drop_first().update(i - 1, (button, down)));
        assert forall|j: int| 0 <= j < i - 1 implies #[trigger] list.drop_first()[j].0 != button by {
            assert(list.drop_first()[j] == list[j + 1]);
        }
        lemma_flag_of_button_update(list.drop_first(), i - 1, button, down, other);
        assert(list[0].0 != button);
    } else {
        assert(after.drop_first() =~= list.drop_first());
    }
}

proof fn lemma_flag_of_button_push(
    list: Seq<(MouseButton, bool)>,
    button: MouseButton,
    down: bool,
    other: MouseButton,
)
    requires
        forall|j: int| 0 <= j < list.len() ==> #[trigger] list[j].0 != button,
    ensures
        flag_of_button(list.push((button, down)), other) == if button == other {
            Some(down)
        } else {
            flag_of_button(list, other)
        },
    decreases list.len(),
{
    let after = list.push((button, down));
    if list.len() == 0 {
        assert(after.drop_first() =~= list);
    } else {
        assert(after.drop_first() =~= list.drop_first().push((button, down)));
        assert forall|j: int| 0 <= j < list.len() - 1 implies #[trigger] list.drop_first()[j].0
            != button by {
            assert(list.drop_first()[j] == list[j + 1]);
        }
        lemma_flag_of_button_push(list.drop_first(), button, down, other);
    }
}

/// The bookkeeping of an input manager: the ids of its devices in the order
/// they were added (a device's position is its index), whether it was
/// initialized, and which keys and mouse buttons its events left down.
pub struct InputManager {
    device_ids: Vec<u32>,
    is_initialized: bool,
    key_states: Vec<(Key, bool)>,
    mouse_button_states: Vec<(MouseButton, bool)>,
}

impl InputManager {
    /// The device ids, in the order of the devices.
    pub closed spec fn spec_device_ids(&self) -> Seq<u32> {
        self.device_ids@
    }

    /// Whether the manager was initialized.
    pub closed spec fn spec_initialized(&self) -> bool {
        self.is_initialized
    }

    /// Whether `key` was last pressed (`true`) or released (`false`); `None`
    /// when no event named it.
    pub closed spec fn spec_key(&self, key: Key) -> Option<bool> {
        flag_of_key(self.key_states@, key)
    }

    /// Whether `button` was last pressed (`true`) or released (`false`);
    /// `None` when no event named it.
    pub closed spec fn spec_button(&self, button: MouseButton) -> Option<bool> {
        flag_of_button(self.mouse_button_states@, button)
    }

    /// No id is registered twice.
    pub closed spec fn wf(&self) -> bool {
        self.device_ids@.no_duplicates()
    }

    /// A manager with no devices, not initialized, with no key or button down.
    pub fn new() -> (m: Self)
        ensures
            m.wf(),
            m.spec_device_ids() == Seq::<u32>::empty(),
            !m.spec_initialized(),
            forall|k: Key| #[trigger] m.spec_key(k) is None,
            forall|b: MouseButton| #[trigger] m.spec_button(b) is None,
    {
        InputManager {
            device_ids: Vec::new(),
            is_initialized: false,
            key_states: Vec::new(),
            mouse_button_states: Vec::new(),
        }
    }

    /// The position of the device with id `device_id`.
    pub fn device_index(&self, device_id: u32) -> (r: Option<usize>)
        ensures
            match r {
                Some(i) => i < self.spec_device_ids().len() && self.spec_device_ids()[i as int]
                    == device_id,
                None => !self.spec_device_ids().contains(device_id),
            },
    {
        let mut i: usize = 0;
        while i < self.device_ids.len()
            invariant
                i <= self.device_ids@.len(),
                forall|j: int| 0 <= j < i ==> #[trigger] self.device_ids@[j] != device_id,
            decreases self.device_ids@.len() - i,
        {
            if self.device_ids[i] == device_id {
                return Some(i);
            }
            i = i + 1;
        }
        None
    }

    /// Registers a device id at the end; refused when the id is registered.
    /// Returns the id.
    pub fn add_device(&mut self, device_id: u32) -> (r: Result<u32, InputManagerError>)
        requires
            old(self).wf(),
        ensures
            final(self).wf(),
            final(self).spec_initialized() == old(self).spec_initialized(),
            forall|k: Key| #[trigger] final(self).spec_key(k) == old(self).spec_key(k),
            forall|b: MouseButton| #[trigger] final(self).spec_button(b) == old(self).spec_button(b),
            old(self).spec_device_ids().contains(device_id) ==> {
                &&& r == Err::<u32, InputManagerError>(InputManagerError::DeviceExists(device_id))
                &&& final(self).spec_device_ids() == old(self).spec_device_ids()
            },
            !old(self).spec_device_ids().contains(device_id) ==> {
                &&& r == Ok::<u32, InputManagerError>(device_id)
                &&& final(self).spec_device_ids() == old(self).spec_device_ids().push(device_id)
            },
    {
        match self.device_index(device_id) {
            Some(_) => Err(InputManagerError::DeviceExists(device_id)),
            None => {
                self.device_ids.push(device_id);
                proof {
                    assert forall|a: int, b: int|
                        0 <= a < b < self.device_ids@.len() implies self.device_ids@[a]
                        != self.device_ids@[b] by {
                        if b == self.device_ids@.len() - 1 {
                            assert(old(self).device_ids@[a] == self.device_ids@[a]);
                        }
                    }
                }
                Ok(device_id)
            },
        }
    }

    /// Unregisters the device with id `device_id`; the devices after it move
    /// up by one. Returns its former position; refused when the id is not
    /// registered.
    pub fn remove_device(&mut self, device_id: u32) -> (r: Result<usize, InputManagerError>)
        requires
            old(self).wf(),
        ensures
            final(self).wf(),
            final(self).spec_initialized() == old(self).spec_initialized(),
            forall|k: Key| #[trigger] final(self).spec_key(k) == old(self).spec_key(k),
            forall|b: MouseButton| #[trigger] final(self).spec_button(b) == old(self).spec_button(b),
            match r {
                Ok(i) => {
                    &&& i < old(self).spec_device_ids().len()
                    &&& old(self).spec_device_ids()[i as int] == device_id
                    &&& final(self).spec_device_ids() == old(self).spec_device_ids().remove(i as int)
                },
                Err(e) => {
                    &&& e == InputManagerError::DeviceNotFound(device_id)
                    &&& !old(self).spec_device_ids().contains(device_id)
                    &&& final(self).spec_device_ids() == old(self).spec_device_ids()
                },
            },
    {
        match self.device_index(device_id) {
            Some(i) => {
                self.device_ids.remove(i);
                proof {
                    let before = old(self).device_ids@;
                    assert forall|a: int, b: int|
                        0 <= a < b < self.device_ids@.len() implies self.device_ids@[a]
                        != self.device_ids@[b] by {
                        let a0 = if a < i { a } else { a + 1 };
                        let b0 = if b < i { b } else { b + 1 };
                        assert(self.device_ids@[a] == before[a0]);
                        assert(self.device_ids@[b] == before[b0]);
                    }
                }
                Ok(i)
            },
            None => Err(InputManagerError::DeviceNotFound(device_id)),
        }
    }

    /// The number of registered devices.
    pub fn device_count(&self) -> (n: usize)
        ensures
            n == self.spec_device_ids().len(),
    {
        self.device_ids.len()
    }

    /// Whether the manager was initialized.
    pub fn is_initialized(&self) -> (b: bool)
        ensures
            b == self.spec_initialized(),
    {
        self.is_initialized
    }

    /// Records that every device was initialized.
    pub fn mark_initialized(&mut self)
        ensures
            final(self).spec_initialized(),
            final(self).spec_device_ids() == old(self).spec_device_ids(),
            final(self).wf() == old(self).wf(),
            forall|k: Key| #[trigger] final(self).spec_key(k) == old(self).spec_key(k),
            forall|b: MouseButton| #[trigger] final(self).spec_button(b) == old(self).spec_button(b),
    {
        self.is_initialized = true;
    }

    /// Whether `key` was last pressed; `None` when no event named it.
    pub fn key_state(&self, key: &Key) -> (r: Option<bool>)
        ensures
            r == self.spec_key(*key),
    {
        let ghost list = self.key_states@;
        assert(list.subrange(0, list.len() as int) =~= list);
        let mut i: usize = 0;
        while i < self.key_states.len()
            invariant
                list == self.key_states@,
                i <= list.len(),
                flag_of_key(list, *key) == flag_of_key(list.subrange(i as int, list.len() as int), *key),
            decreases list.len() - i,
        {
            let ghost rest = list.subrange(i as int, list.len() as int);
            assert(rest[0] == list[i as int]);
            if self.key_states[i].0.same_as(key) {
                return Some(self.key_states[i].1);
            }
            assert(list.subrange(i + 1, list.len() as int) =~= rest.drop_first());
            i = i + 1;
        }
        None
    }

    /// Whether `button` was last pressed; `None` when no event named it.
    pub fn mouse_button_state(&self, button: MouseButton) -> (r: Option<bool>)
        ensures
            r == self.spec_button(button),
    {
        let ghost list = self.mouse_button_states@;
        assert(list.subrange(0, list.len() as int) =~= list);
        let mut i: usize = 0;
        while i < self.mouse_button_states.len()
            invariant
                list == self.mouse_button_states@,
                i <= list.len(),
                flag_of_button(list, button) == flag_of_button(
                    list.subrange(i as int, list.len() as int),
                    button,
                ),
            decreases list.len() - i,
        {
            let ghost rest = list.subrange(i as int, list.len() as int);
            assert(rest[0] == list[i as int]);
            if self.mouse_button_states[i].0 == button {
                return Some(self.mouse_button_states[i].1);
            }
            assert(list.subrange(i + 1, list.len() as int) =~= rest.drop_first());
            i = i + 1;
        }
        None
    }

    fn set_key(&mut self, key: &Key, down: bool)
        ensures
            forall|k: Key|
                #[trigger] final(self).spec_key(k) == if same_key(*key, k) {
                    Some(down)
                } else {
                    old(self).spec_key(k)
                },
            forall|b: MouseButton| #[trigger] final(self).spec_button(b) == old(self).spec_button(b),
            final(self).device_ids == old(self).device_ids,
            final(self).is_initialized == old(self).is_initialized,
    {
        let ghost before = self.key_states@;
        let mut i: usize = 0;
        while i < self.key_states.len()
            invariant
                before == self.key_states@,
                before == old(self).key_states@,
                self.mouse_button_states == old(self).mouse_button_states,
                self.device_ids == old(self).device_ids,
                self.is_initialized == old(self).is_initialized,
                i <= before.len(),
                forall|j: int| 0 <= j < i ==> !same_key(#[trigger] before[j].0, *key),
            decreases before.len() - i,
        {
            if self.key_states[i].0.same_as(key) {
                self.key_states.set(i, (key.clone(), down));
                proof {
                    assert forall|k: Key| #[trigger] flag_of_key(self.key_states@, k) == if same_key(
                        *key,
                        k,
                    ) {
                        Some(down)
                    } else {
                        flag_of_key(before, k)
                    } by {
                        lemma_flag_of_key_update(before, i as int, *key, down, k);
                    }
                }
                return;
            }
            i = i + 1;
        }
        self.key_states.push((key.clone(), down));
        proof {
            assert forall|k: Key| #[trigger] flag_of_key(self.key_states@, k) == if same_key(*key, k) {
                Some(down)
            } else {
                flag_of_key(before, k)
            } by {
                lemma_flag_of_key_push(before, *key, down, k);
            }
        }
    }

    fn set_button(&mut self, button: MouseButton, down: bool)
        ensures
            forall|b: MouseButton|
                #[trigger] final(self).spec_button(b) == if button == b {
                    Some(down)
                } else {
                    old(self).spec_button(b)
                },
            forall|k: Key| #[trigger] final(self).spec_key(k) == old(self).spec_key(k),
            final(self).device_ids == old(self).device_ids,
            final(self).is_initialized == old(self).is_initialized,
    {
        let ghost before = self.mouse_button_states@;
        let mut i: usize = 0;
        while i < self.mouse_button_states.len()
            invariant
                before == self.mouse_button_states@,
                before == old(self).mouse_button_states@,
                self.key_states == old(self).key_states,
                self.device_ids == old(self).device_ids,
                self.is_initialized == old(self).is_initialized,
                i <= before.len(),
                forall|j: int| 0 <= j < i ==> #[trigger] before[j].0 != button,
            decreases before.len() - i,
        {
            if self.mouse_button_states[i].0 == button {
                self.mouse_button_states.set(i, (button, down));
                proof {
                    assert forall|b: MouseButton| #[trigger] flag_of_button(
                        self.mouse_button_states@,
                        b,
                    ) == if button == b {
                        Some(down)
                    } else {
                        flag_of_button(before, b)
                    } by {
                        lemma_flag_of_button_update(before, i as int, button, down, b);
                    }
                }
                return;
            }
            i = i + 1;
        }
        self.mouse_button_states.push((button, down));
        proof {
            assert forall|b: MouseButton| #[trigger] flag_of_button(self.mouse_button_states@, b)
                == if button == b {
                Some(down)
            } else {
                flag_of_button(before, b)
            } by {
                lemma_flag_of_button_push(before, button, down, b);
            }
        }
    }

    /// Follows one event: a press leaves its key or button down, a release
    /// leaves it up; nothing else changes.
    pub fn update_state_from_event(&mut self, event: &ButtonEvent)
        requires
            old(self).wf(),
        ensures
            final(self).wf(),
            final(self).spec_device_ids() == old(self).spec_device_ids(),
            final(self).spec_initialized() == old(self).spec_initialized(),
            forall|k: Key|
                #[trigger] final(self).spec_key(k) == match *event {
                    ButtonEvent::KeyPress(p) => if same_key(p, k) {
                        Some(true)
                    } else {
                        old(self).spec_key(k)
                    },
                    ButtonEvent::KeyRelease(p) => if same_key(p, k) {
                        Some(false)
                    } else {
                        old(self).spec_key(k)
                    },
                    _ => old(self).spec_key(k),
                },
            forall|b: MouseButton|
                #[trigger] final(self).spec_button(b) == match *event {
                    ButtonEvent::MousePress(p) => if p == b {
                        Some(true)
                    } else {
                        old(self).spec_button(b)
                    },
                    ButtonEvent::MouseRelease(p) => if p == b {
                        Some(false)
                    } else {
                        old(self).spec_button(b)
                    },
                    _ => old(self).spec_button(b),
                },
    {
        match event {
            ButtonEvent::KeyPress(key) => self.set_key(key, true),
            ButtonEvent::KeyRelease(key) => self.set_key(key, false),
            ButtonEvent::MousePress(button) => self.set_button(*button, true),
            ButtonEvent::MouseRelease(button) => self.set_button(*button, false),
        }
    }

    /// Forgets the devices, the key and button states and the
    /// initialization; does nothing when the manager was not initialized.
    pub fn shutdown(&mut self)
        ensures
            !old(self).spec_initialized() ==> *final(self) == *old(self),
            old(self).spec_initialized() ==> {
                &&& final(self).wf()
                &&& final(self).spec_device_ids() == Seq::<u32>::empty()
                &&& !final(self).spec_initialized()
                &&& forall|k: Key| #[trigger] final(self).spec_key(k) is None
                &&& forall|b: MouseButton| #[trigger] final(self).spec_button(b) is None
            },
    {
        if !self.is_initialized {
            return;
        }
        self.device_ids.clear();
        self.key_states.clear();
        self.mouse_button_states.clear();
        self.is_initialized = false;
    }
}

} // verus!
