use vstd::prelude::*;

use std::collections::HashMap;

verus! {

broadcast use vstd::std_specs::hash::group_hash_axioms;

/// A mouse button, numbered from 1.
#[derive(PartialEq, Eq, Structural, Debug, Clone, Copy)]
pub enum MouseButton {
    Left,
    Middle,
    Right,
    Side1,
    Side2,
}

impl MouseButton {
    /// The button's number: 1 to 5 in the order of the variants.
    pub open spec fn spec_number(self) -> u32 {
        match self {
            MouseButton::Left => 1,
            MouseButton::Middle => 2,
            MouseButton::Right => 3,
            MouseButton::Side1 => 4,
            MouseButton::Side2 => 5,
        }
    }

    /// The button's number.
    pub fn number(&self) -> (n: u32)
        ensures
            n == self.spec_number(),
    {
        match self {
            MouseButton::Left => 1,
            MouseButton::Middle => 2,
            MouseButton::Right => 3,
            MouseButton::Side1 => 4,
            MouseButton::Side2 => 5,
        }
    }
}

/// The numbers of the buttons.
pub open spec fn button_numbers() -> Set<u32> {
    Set::new(|k: u32| 1 <= k <= 5)
}

/// The button that a number stands for, if any.
pub open spec fn button_of(value: u32) -> Option<MouseButton> {
    if value == 1 {
        Some(MouseButton::Left)
    } else if value == 2 {
        Some(MouseButton::Middle)
    } else if value == 3 {
        Some(MouseButton::Right)
    } else if value == 4 {
        Some(MouseButton::Side1)
    } else if value == 5 {
        Some(MouseButton::Side2)
    } else {
        None
    }
}

/// The pointer's place and motion in whole pixels, the scroll, and which buttons are down and
/// which have changed.
pub struct Mouse {
    x: i32,
    y: i32,
    last_x: i32,
    last_y: i32,
    dx: i32,
    dy: i32,
    scroll_dx: i32,
    scroll_dy: i32,
    first_mouse: bool,
    buttons: HashMap<u32, bool>,
    buttons_changed: HashMap<u32, bool>,
}

impl Mouse {
    /// The pointer's place.
    pub closed spec fn spec_position(&self) -> (i32, i32) {
        (self.x, self.y)
    }

    /// The motion not yet read.
    pub closed spec fn spec_motion(&self) -> (i32, i32) {
        (self.dx, self.dy)
    }

    /// The scroll not yet read.
    pub closed spec fn spec_scroll(&self) -> (i32, i32) {
        (self.scroll_dx, self.scroll_dy)
    }

    /// Whether each button is down, by number.
    pub closed spec fn spec_buttons(&self) -> Map<u32, bool> {
        self.buttons@
    }

    /// Whether each button has changed, by number.
    pub closed spec fn spec_buttons_changed(&self) -> Map<u32, bool> {
        self.buttons_changed@
    }

    /// Every button is known to both maps, and nothing else.
    pub open spec fn wf(&self) -> bool {
        &&& self.spec_buttons().dom() == button_numbers()
        &&& self.spec_buttons_changed().dom() == button_numbers()
    }

    /// A mouse at the origin, at rest, with no button down or changed.
    pub fn new() -> (m: Self)
        ensures
            m.wf(),
            m.spec_position() == (0i32, 0i32),
            m.spec_motion() == (0i32, 0i32),
            m.spec_scroll() == (0i32, 0i32),
            forall|k: u32| button_numbers().contains(k) ==> !m.spec_buttons()[k]
                && !m.spec_buttons_changed()[k],
    {
        let mut buttons: HashMap<u32, bool> = HashMap::new();
        let mut buttons_changed: HashMap<u32, bool> = HashMap::new();
        let mouse_buttons: [MouseButton; 5] = [
            MouseButton::Left,
            MouseButton::Middle,
            MouseButton::Right,
            MouseButton::Side1,
            MouseButton::Side2,
        ];
        let mut i: usize = 0;
        while i < 5
            invariant
                i <= 5,
                mouse_buttons@ == seq![
                    MouseButton::Left,
                    MouseButton::Middle,
                    MouseButton::Right,
                    MouseButton::Side1,
                    MouseButton::Side2,
                ],
                buttons@.dom() == Set::new(|k: u32| 1 <= k <= i),
                buttons_changed@.dom() == Set::new(|k: u32| 1 <= k <= i),
                forall|k: u32| 1 <= k <= i ==> !buttons@[k] && !buttons_changed@[k],
            decreases 5 - i,
        {
            let number = mouse_buttons[i].number();
            assert(number == i + 1);
            buttons.insert(number, false);
            buttons_changed.insert(number, false);
            i = i + 1;
            assert(buttons@.dom() =~= Set::new(|k: u32| 1 <= k <= i));
            assert(buttons_changed@.dom() =~= Set::new(|k: u32| 1 <= k <= i));
        }
        assert(buttons@.dom() =~= button_numbers());
        assert(buttons_changed@.dom() =~= button_numbers());
        Mouse {
            x: 0,
            y: 0,
            last_x: 0,
            last_y: 0,
            dx: 0,
            dy: 0,
            scroll_dx: 0,
            scroll_dy: 0,
            first_mouse: false,
            buttons,
            buttons_changed,
        }
    }

    /// The pointer's column.
    pub fn get_mouse_x(&self) -> (r: i32)
        ensures
            r == self.spec_position().0,
    {
        self.x
    }

    /// The pointer's row.
    pub fn get_mouse_y(&self) -> (r: i32)
        ensures
            r == self.spec_position().1,
    {
        self.y
    }

    /// The horizontal motion, which reads as zero until the next motion.
    pub fn get_dx(&mut self) -> (r: i32)
        ensures
            r == old(self).spec_motion().0,
            final(self).spec_motion() == (0i32, old(self).spec_motion().1),
            final(self).spec_position() == old(self).spec_position(),
            final(self).spec_scroll() == old(self).spec_scroll(),
            final(self).spec_buttons() == old(self).spec_buttons(),
            final(self).spec_buttons_changed() == old(self).spec_buttons_changed(),
    {
        let dx = self.dx;
        self.dx = 0;
        dx
    }

    /// The vertical motion, which reads as zero until the next motion.
    pub fn get_dy(&mut self) -> (r: i32)
        ensures
            r == old(self).spec_motion().1,
            final(self).spec_motion() == (old(self).spec_motion().0, 0i32),
            final(self).spec_position() == old(self).spec_position(),
            final(self).spec_scroll() == old(self).spec_scroll(),
            final(self).spec_buttons() == old(self).spec_buttons(),
            final(self).spec_buttons_changed() == old(self).spec_buttons_changed(),
    {
        let dy = self.dy;
        self.dy = 0;
        dy
    }

    /// The horizontal scroll, which reads as zero afterwards.
    pub fn get_scroll_dx(&mut self) -> (r: i32)
        ensures
            r == old(self).spec_scroll().0,
            final(self).spec_scroll() == (0i32, old(self).spec_scroll().1),
            final(self).spec_position() == old(self).spec_position(),
            final(self).spec_motion() == old(self).spec_motion(),
            final(self).spec_buttons() == old(self).spec_buttons(),
            final(self).spec_buttons_changed() == old(self).spec_buttons_changed(),
    {
        let d = self.scroll_dx;
        self.scroll_dx = 0;
        d
    }

    /// The vertical scroll, which reads as zero afterwards.
    pub fn get_scroll_dy(&mut self) -> (r: i32)
        ensures
            r == old(self).spec_scroll().1,
            final(self).spec_scroll() == (old(self).spec_scroll().0, 0i32),
            final(self).spec_position() == old(self).spec_position(),
            final(self).spec_motion() == old(self).spec_motion(),
            final(self).spec_buttons() == old(self).spec_buttons(),
            final(self).spec_buttons_changed() == old(self).spec_buttons_changed(),
    {
        let d = self.scroll_dy;
        self.scroll_dy = 0;
        d
    }

    /// Marks the button numbered `button` as down and changed.
    pub fn change_button(&mut self, button: u32)
        requires
            old(self).wf(),
            1 <= button <= 5,
        ensures
            final(self).wf(),
            final(self).spec_buttons() == old(self).spec_buttons().insert(button, true),
            final(self).spec_buttons_changed() == old(self).spec_buttons_changed().insert(
                button,
                true,
            ),
            final(self).spec_position() == old(self).spec_position(),
            final(self).spec_motion() == old(self).spec_motion(),
            final(self).spec_scroll() == old(self).spec_scroll(),
    {
        self.buttons.insert(button, true);
        self.buttons_changed.insert(button, true);
        assert(self.buttons@.dom() =~= button_numbers());
        assert(self.buttons_changed@.dom() =~= button_numbers());
    }

    /// Records a motion: the new place and the motion since the last one.
    pub fn change_motion(&mut self, x: i32, y: i32, dx: i32, dy: i32)
        ensures
            final(self).spec_position() == (x, y),
            final(self).spec_motion() == (dx, dy),
            final(self).spec_scroll() == old(self).spec_scroll(),
            final(self).spec_buttons() == old(self).spec_buttons(),
            final(self).spec_buttons_changed() == old(self).spec_buttons_changed(),
    {
        self.x = x;
        self.y = y;
        self.dx = dx;
        self.dy = dy;
    }

    /// Whether the button is down.
    pub fn get_button(&self, button: MouseButton) -> (r: bool)
        requires
            self.wf(),
        ensures
            r == self.spec_buttons()[button.spec_number()],
    {
        let number = button.number();
        match self.buttons.get(&number) {
            Some(b) => *b,
            None => {
                proof {
                    assert(button_numbers().contains(number));
                }
                false
            },
        }
    }

    /// Whether the button has changed; reading it changes nothing.
    pub fn button_changed(&mut self, button: MouseButton) -> (r: bool)
        requires
            old(self).wf(),
        ensures
            r == old(self).spec_buttons_changed()[button.spec_number()],
            *final(self) == *old(self),
    {
        let number = button.number();
        match self.buttons_changed.get(&number) {
            Some(b) => *b,
            None => {
                proof {
                    assert(button_numbers().contains(number));
                }
                false
            },
        }
    }

    /// Whether the button is up and has changed.
    pub fn button_went_up(&mut self, button: MouseButton) -> (r: bool)
        requires
            old(self).wf(),
        ensures
            r == (!old(self).spec_buttons()[button.spec_number()]
                && old(self).spec_buttons_changed()[button.spec_number()]),
            *final(self) == *old(self),
    {
        let number = button.number();
        let down = self.get_button(button);
        if down {
            false
        } else {
            match self.from_u32(&number) {
                Some(b) => self.button_changed(b),
                None => false,
            }
        }
    }

    /// The button numbered `value`, if any.
    pub fn from_u32(&self, value: &u32) -> (r: Option<MouseButton>)
        ensures
            r == button_of(*value),
            r matches Some(b) ==> b.spec_number() == *value,
    {
        match *value {
            1 => Some(MouseButton::Left),
            2 => Some(MouseButton::Middle),
            3 => Some(MouseButton::Right),
            4 => Some(MouseButton::Side1),
            5 => Some(MouseButton::Side2),
            _ => None,
        }
    }
}

} // verus!
