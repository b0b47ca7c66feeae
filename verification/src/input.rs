//! Keyboard input from a PS/2 keyboard and from the serial console: the
//! decoders of both byte streams, with Ctrl-Alt-Del detection, and the
//! queue of keys waiting to be read.

use vstd::prelude::*;

verus! {

/// The keys the agent reacts to.
#[derive(Clone, Copy, Debug, PartialEq, Eq, Structural)]
pub enum Key {
    Up,
    Down,
    Left,
    Right,
    Enter,
}

/// What one PS/2 byte amounts to.
#[derive(Clone, Copy, Debug, PartialEq, Eq, Structural)]
pub enum Ps2Event {
    /// Nothing to report.
    Nothing,
    /// A key was pressed.
    Pressed(Key),
    /// Ctrl-Alt-Del: the machine must be reset.
    Reset,
}

/// The decoders' state and the keys waiting to be read.
pub struct InputState {
    /// The previous PS/2 byte was the `0xE0` prefix.
    pub extended: bool,
    /// The serial console is inside an escape sequence.
    pub escape: bool,
    /// A Ctrl key is held.
    pub ctrl: bool,
    /// An Alt key is held.
    pub alt: bool,
    /// Keys polled but not read yet, oldest first.
    pub queue: Vec<Key>,
}

/// The key of a PS/2 make code (set 1), with or without the `0xE0` prefix.
pub open spec fn ps2_key(extended: bool, make: u8) -> Option<Key> {
    if extended {
        if make == 0x48 {
            Some(Key::Up)
        } else if make == 0x50 {
            Some(Key::Down)
        } else if make == 0x4B {
            Some(Key::Left)
        } else if make == 0x4D {
            Some(Key::Right)
        } else {
            None
        }
    } else if make == 0x1C {
        Some(Key::Enter)
    } else {
        None
    }
}

/// The key of the final byte of an ANSI cursor escape sequence.
pub open spec fn ansi_key(b: u8) -> Option<Key> {
    if b == 65 {
        Some(Key::Up)
    } else if b == 66 {
        Some(Key::Down)
    } else if b == 68 {
        Some(Key::Left)
    } else if b == 67 {
        Some(Key::Right)
    } else {
        None
    }
}

impl InputState {
    /// No modifier held, no sequence pending, no key queued.
    pub fn new() -> (r: InputState)
        ensures
            !r.extended && !r.escape && !r.ctrl && !r.alt,
            r.queue@.len() == 0,
    {
        InputState { extended: false, escape: false, ctrl: false, alt: false, queue: Vec::new() }
    }

    /// Whether the PS/2 controller has a byte to read, from its status
    /// register.
    pub fn ps2_has_byte(status: u8) -> (r: bool)
        ensures
            r == ((status & 0x01) != 0),
    {
        (status & 0x01) != 0
    }

    /// Decodes the byte `data` read from the PS/2 controller whose status
    /// was `status`: mouse bytes are dropped; `0xE0` marks the next code as
    /// extended; Ctrl and Alt presses and releases are tracked; Delete
    /// pressed with both held resets; arrows and Enter are keys.
    pub fn poll_ps2(&mut self, status: u8, data: u8) -> (r: Ps2Event)
        requires
            (status & 0x01) != 0,
        ensures
            final(self).escape == old(self).escape,
            final(self).queue == old(self).queue,
            (status & 0x20) != 0 ==> r == Ps2Event::Nothing && final(self).extended == old(self).extended
                && final(self).ctrl == old(self).ctrl && final(self).alt == old(self).alt,
            (status & 0x20) == 0 && data == 0xE0 ==> r == Ps2Event::Nothing && final(self).extended
                && final(self).ctrl == old(self).ctrl && final(self).alt == old(self).alt,
            (status & 0x20) == 0 && data != 0xE0 ==> {
                let release = (data & 0x80) != 0;
                let make = data & 0x7F;
                &&& !final(self).extended
                &&& make == 0x1D ==> r == Ps2Event::Nothing && final(self).ctrl == !release && final(self).alt
                    == old(self).alt
                &&& make == 0x38 ==> r == Ps2Event::Nothing && final(self).alt == !release && final(self).ctrl
                    == old(self).ctrl
                &&& make != 0x1D && make != 0x38 ==> {
                    &&& final(self).ctrl == old(self).ctrl && final(self).alt == old(self).alt
                    &&& release ==> r == Ps2Event::Nothing
                    &&& !release && make == 0x53 && old(self).ctrl && old(self).alt ==> r == Ps2Event::Reset
                    &&& !release && !(make == 0x53 && old(self).ctrl && old(self).alt) ==> r == (match ps2_key(
                        old(self).extended,
                        make,
                    ) {
                        Some(k) => Ps2Event::Pressed(k),
                        None => Ps2Event::Nothing,
                    })
                }
            },
    {
        if (status & 0x20) != 0 {
            return Ps2Event::Nothing;
        }
        if data == 0xE0 {
            self.extended = true;
            return Ps2Event::Nothing;
        }
        let is_extended = self.extended;
        self.extended = false;
        let is_release = (data & 0x80) != 0;
        let make = data & 0x7F;
        if make == 0x1D {
            self.ctrl = !is_release;
            return Ps2Event::Nothing;
        } else if make == 0x38 {
            self.alt = !is_release;
            return Ps2Event::Nothing;
        }
        if is_release {
            return Ps2Event::Nothing;
        }
        if make == 0x53 && self.ctrl && self.alt {
            return Ps2Event::Reset;
        }
        let key = if is_extended {
            if make == 0x48 {
                Some(Key::Up)
            } else if make == 0x50 {
                Some(Key::Down)
            } else if make == 0x4B {
                Some(Key::Left)
            } else if make == 0x4D {
                Some(Key::Right)
            } else {
                None
            }
        } else if make == 0x1C {
            Some(Key::Enter)
        } else {
            None
        };
        match key {
            Some(k) => Ps2Event::Pressed(k),
            None => Ps2Event::Nothing,
        }
    }

    /// Decodes a byte from the serial console: `ESC [` starts a cursor
    /// sequence whose final letter is an arrow; CR or LF is Enter.
    pub fn poll_serial(&mut self, byte: u8) -> (r: Option<Key>)
        ensures
            final(self).extended == old(self).extended,
            final(self).ctrl == old(self).ctrl && final(self).alt == old(self).alt,
            final(self).queue == old(self).queue,
            byte == 0x1B ==> r is None && final(self).escape,
            byte != 0x1B && old(self).escape && byte == 91 ==> r is None && final(self).escape,
            byte != 0x1B && old(self).escape && byte != 91 ==> r == ansi_key(byte) && !final(self).escape,
            byte != 0x1B && !old(self).escape ==> !final(self).escape && r == (if byte == 13 || byte == 10 {
                Some(Key::Enter)
            } else {
                None
            }),
    {
        if byte == 0x1B {
            self.escape = true;
            return None;
        }
        if self.escape {
            if byte == 91 {
                return None;
            }
            self.escape = false;
            return if byte == 65 {
                Some(Key::Up)
            } else if byte == 66 {
                Some(Key::Down)
            } else if byte == 68 {
                Some(Key::Left)
            } else if byte == 67 {
                Some(Key::Right)
            } else {
                None
            };
        }
        if byte == 13 || byte == 10 {
            Some(Key::Enter)
        } else {
            None
        }
    }

    /// One round of background polling: `polled` is what the devices gave
    /// (the PS/2 controller first, the serial port only when PS/2 had no
    /// key). A key is queued behind the others and polling goes on (`true`);
    /// the first round that finds no key ends it (`false`) and changes
    /// nothing.
    pub fn poll_background(&mut self, polled: Option<Key>) -> (more: bool)
        ensures
            more == polled is Some,
            final(self).queue@ == (match polled {
                Some(k) => old(self).queue@.push(k),
                None => old(self).queue@,
            }),
            final(self).extended == old(self).extended && final(self).escape == old(self).escape,
            final(self).ctrl == old(self).ctrl && final(self).alt == old(self).alt,
    {
        match polled {
            Some(key) => {
                self.queue.push(key);
                true
            },
            None => false,
        }
    }

    /// The next key: the oldest queued one, else `polled` (what the
    /// devices gave right now).
    pub fn try_read_key(&mut self, polled: Option<Key>) -> (r: Option<Key>)
        ensures
            old(self).queue@.len() > 0 ==> r == Some(old(self).queue@[0]) && final(self).queue@ == old(
                self,
            ).queue@.drop_first(),
            old(self).queue@.len() == 0 ==> r == polled && final(self).queue@ == old(self).queue@,
            final(self).extended == old(self).extended && final(self).escape == old(self).escape,
            final(self).ctrl == old(self).ctrl && final(self).alt == old(self).alt,
    {
        if self.queue.len() > 0 {
            let k = self.queue.remove(0);
            proof {
                assert(self.queue@ =~= old(self).queue@.drop_first());
            }
            Some(k)
        } else {
            polled
        }
    }

    /// Whether a key was pressed; consumes it.
    pub fn check_key_pressed(&mut self, polled: Option<Key>) -> (r: bool)
        ensures
            r == (old(self).queue@.len() > 0 || polled is Some),
            old(self).queue@.len() > 0 ==> final(self).queue@ == old(self).queue@.drop_first(),
            old(self).queue@.len() == 0 ==> final(self).queue@ == old(self).queue@,
    {
        self.try_read_key(polled).is_some()
    }
}

} // verus!
