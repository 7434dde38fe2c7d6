//! The decisions of the console: what a key means to the menu, how a key
//! edits the kernel command line, and the auto-boot countdown. The firmware
//! console and the drawing stay with the firmware adapter.
use vstd::prelude::*;
use crate::graph::{BootGraph, EntryId};
use crate::graph::tree::{bootable_entries, first_with_id, lemma_first_with_id, lemma_first_with_id_at};
use crate::policy::Decision;
use crate::text::char_from_u32;

verus! {

/// Scan code of the up arrow.
pub const SCAN_UP: u16 = 0x01;

/// Scan code of the down arrow.
pub const SCAN_DOWN: u16 = 0x02;

/// Scan code of Escape.
pub const SCAN_ESCAPE: u16 = 0x17;

/// A key as the firmware console reports it: a special key by its scan
/// code, or a printable one by its UCS-2 unit.
#[derive(Clone, Copy, Debug, PartialEq, Eq, Structural)]
pub enum Key {
    Special(u16),
    Printable(u16),
}

/// What a key means to the menu.
#[derive(Clone, Copy, Debug, PartialEq, Eq, Structural)]
pub enum InputEvent {
    Up,
    Down,
    Escape,
    Enter,
    Edit,
    Recovery,
    Firmware,
    Shell,
}

/// The menu meaning of a key: the arrows and Escape; Enter; and the
/// hotkeys `e`, `r`, `f`, `s` in either case. Other keys mean nothing.
pub open spec fn spec_input_event(k: Key) -> Option<InputEvent> {
    match k {
        Key::Special(s) => if s == SCAN_UP {
            Some(InputEvent::Up)
        } else if s == SCAN_DOWN {
            Some(InputEvent::Down)
        } else if s == SCAN_ESCAPE {
            Some(InputEvent::Escape)
        } else {
            None
        },
        Key::Printable(c) => if c == 0x0D {
            Some(InputEvent::Enter)
        } else if c == 0x65 || c == 0x45 {
            Some(InputEvent::Edit)
        } else if c == 0x72 || c == 0x52 {
            Some(InputEvent::Recovery)
        } else if c == 0x66 || c == 0x46 {
            Some(InputEvent::Firmware)
        } else if c == 0x73 || c == 0x53 {
            Some(InputEvent::Shell)
        } else {
            None
        },
    }
}

/// What a key means to the menu, if anything.
pub fn input_event(k: Key) -> (r: Option<InputEvent>)
    ensures
        r == spec_input_event(k),
{
    match k {
        Key::Special(s) => if s == SCAN_UP {
            Some(InputEvent::Up)
        } else if s == SCAN_DOWN {
            Some(InputEvent::Down)
        } else if s == SCAN_ESCAPE {
            Some(InputEvent::Escape)
        } else {
            None
        },
        Key::Printable(c) => if c == 0x0D {
            Some(InputEvent::Enter)
        } else if c == 0x65 || c == 0x45 {
            Some(InputEvent::Edit)
        } else if c == 0x72 || c == 0x52 {
            Some(InputEvent::Recovery)
        } else if c == 0x66 || c == 0x46 {
            Some(InputEvent::Firmware)
        } else if c == 0x73 || c == 0x53 {
            Some(InputEvent::Shell)
        } else {
            None
        },
    }
}

/// What a key does to a command line being edited.
#[derive(Clone, Copy, Debug, PartialEq, Eq, Structural)]
pub enum EditStep {
    /// Keep editing.
    Continue,
    /// Enter: the line is done.
    Accept,
    /// Escape: the edit is abandoned.
    Cancel,
}

/// The line after a key: Backspace removes the last character, a printable
/// unit that is a character is appended, anything else leaves it.
pub open spec fn edited_line(line: Seq<char>, k: Key) -> Seq<char> {
    match k {
        Key::Printable(c) => if c == 0x0D {
            line
        } else if c == 0x08 {
            if line.len() > 0 {
                line.drop_last()
            } else {
                line
            }
        } else if 0xD800 <= c <= 0xDFFF {
            line
        } else {
            line.push(c as char)
        },
        Key::Special(_) => line,
    }
}

/// What a key means to the editor: Escape cancels, Enter accepts.
pub open spec fn edit_outcome(k: Key) -> EditStep {
    match k {
        Key::Special(s) => if s == SCAN_ESCAPE {
            EditStep::Cancel
        } else {
            EditStep::Continue
        },
        Key::Printable(c) => if c == 0x0D {
            EditStep::Accept
        } else {
            EditStep::Continue
        },
    }
}

/// Apply one key to a command line being edited.
pub fn edit_step(line: &mut Vec<char>, k: Key) -> (r: EditStep)
    ensures
        r == edit_outcome(k),
        r == EditStep::Cancel ==> final(line)@ == old(line)@,
        r != EditStep::Cancel ==> final(line)@ == edited_line(old(line)@, k),
{
    match k {
        Key::Special(s) => {
            if s == SCAN_ESCAPE {
                EditStep::Cancel
            } else {
                EditStep::Continue
            }
        },
        Key::Printable(c) => {
            if c == 0x0D {
                EditStep::Accept
            } else if c == 0x08 {
                if line.len() > 0 {
                    line.pop();
                }
                EditStep::Continue
            } else {
                match char_from_u32(c as u32) {
                    Some(ch) => line.push(ch),
                    None => {},
                }
                EditStep::Continue
            }
        },
    }
}

/// The auto-boot countdown: `deadline` one-second ticks, of which `elapsed`
/// have passed; any key stops it.
#[derive(Clone, Copy, Debug, PartialEq, Eq, Structural)]
pub struct Countdown {
    pub deadline: u64,
    pub elapsed: u64,
    pub counting: bool,
}

/// A fresh countdown of `timeout` seconds; a zero timeout never counts.
pub open spec fn countdown_of(timeout: u16) -> Countdown {
    Countdown { deadline: timeout as u64, elapsed: 0, counting: timeout != 0 }
}

/// The countdown after a key: stopped.
pub open spec fn keyed(c: Countdown) -> Countdown {
    Countdown { counting: false, ..c }
}

/// The countdown after one quiet second.
pub open spec fn ticked(c: Countdown) -> Countdown {
    if c.counting && c.elapsed < c.deadline {
        Countdown { elapsed: (c.elapsed + 1) as u64, ..c }
    } else {
        c
    }
}

/// Whether that second reaches the deadline.
pub open spec fn tick_expires(c: Countdown) -> bool {
    c.counting && ticked(c).elapsed >= c.deadline
}

/// The countdown after `n` quiet seconds.
pub open spec fn ticks(c: Countdown, n: nat) -> Countdown
    decreases n,
{
    if n == 0 {
        c
    } else {
        ticked(ticks(c, (n - 1) as nat))
    }
}

impl Countdown {
    /// A countdown of `timeout` seconds; a zero timeout never counts.
    pub fn new(timeout: u16) -> (r: Countdown)
        ensures
            r == countdown_of(timeout),
    {
        Countdown { deadline: timeout as u64, elapsed: 0, counting: timeout != 0 }
    }

    /// The seconds left while counting.
    pub fn remaining(&self) -> (r: Option<u32>)
        requires
            self.elapsed <= self.deadline <= u32::MAX,
        ensures
            r == (if self.counting {
                Some((self.deadline - self.elapsed) as u32)
            } else {
                None
            }),
    {
        if self.counting {
            Some((self.deadline - self.elapsed) as u32)
        } else {
            None
        }
    }

    /// A key was pressed: stop counting.
    pub fn on_key(&mut self)
        ensures
            *final(self) == keyed(*old(self)),
    {
        self.counting = false;
    }

    /// One second passed without a key: count it; whether the deadline is
    /// reached.
    pub fn on_tick(&mut self) -> (expired: bool)
        ensures
            *final(self) == ticked(*old(self)),
            expired == tick_expires(*old(self)),
    {
        if self.counting {
            if self.elapsed < self.deadline {
                self.elapsed = self.elapsed + 1;
            }
            self.elapsed >= self.deadline
        } else {
            false
        }
    }
}

proof fn lemma_ticks_from_fresh(t: u16, k: nat)
    requires
        0 < t,
        k <= t,
    ensures
        ticks(countdown_of(t), k) == (Countdown { deadline: t as u64, elapsed: k as u64, counting: true }),
    decreases k,
{
    if k > 0 {
        lemma_ticks_from_fresh(t, (k - 1) as nat);
    }
}

/// Auto-boot honours the timeout: from a fresh countdown of `t > 0`
/// seconds, the quiet second that expires it is exactly the `t`-th.
pub proof fn law_autoboot_after_timeout(t: u16, k: nat)
    requires
        0 < t,
        k < t,
    ensures
        tick_expires(ticks(countdown_of(t), k)) <==> k + 1 == t,
{
    lemma_ticks_from_fresh(t, k);
}

proof fn lemma_ticks_stopped(c: Countdown, n: nat)
    requires
        !c.counting,
    ensures
        ticks(c, n) == c,
    decreases n,
{
    if n > 0 {
        lemma_ticks_stopped(c, (n - 1) as nat);
    }
}

/// Any key stops auto-boot: after a key, no quiet second expires the
/// countdown, however many pass; and a zero timeout never auto-boots.
pub proof fn law_key_stops_autoboot(c: Countdown, n: nat)
    ensures
        !tick_expires(ticks(keyed(c), n)),
        !tick_expires(ticks(countdown_of(0), n)),
{
    lemma_ticks_stopped(keyed(c), n);
    lemma_ticks_stopped(countdown_of(0), n);
}

/// The entry to boot without a menu: the policy's decision, else the first
/// bootable entry, else none.
pub fn headless_choice(graph: &BootGraph, decision: &Option<Decision>) -> (r: Option<EntryId>)
    ensures
        match decision {
            Some(d) => r matches Some(x) && x@ == d.chosen@,
            None => match r {
                Some(x) => bootable_entries(graph.flat()).len() > 0 && x@ == bootable_entries(graph.flat())[0].id@,
                None => bootable_entries(graph.flat()).len() == 0,
            },
        },
{
    match decision {
        Some(d) => Some(d.chosen.clone()),
        None => {
            let b = graph.bootable();
            if b.len() > 0 {
                Some(b[0].id.clone())
            } else {
                None
            }
        },
    }
}

/// The menu cursor after an event over `rows` rows: Up moves one row up
/// and Down one row down, stopping at the first and last row; any other
/// event leaves it where it is.
pub open spec fn moved(selected: int, rows: int, ev: InputEvent) -> int {
    match ev {
        InputEvent::Up => if selected > 0 {
            selected - 1
        } else {
            selected
        },
        InputEvent::Down => if selected + 1 < rows {
            selected + 1
        } else {
            selected
        },
        _ => selected,
    }
}

/// Move the menu cursor (see [`moved`]).
pub fn move_cursor(selected: usize, rows: usize, ev: InputEvent) -> (r: usize)
    requires
        selected < rows,
    ensures
        r == moved(selected as int, rows as int, ev),
        r < rows,
{
    match ev {
        InputEvent::Up => if selected > 0 {
            selected - 1
        } else {
            selected
        },
        InputEvent::Down => if selected + 1 < rows {
            selected + 1
        } else {
            selected
        },
        _ => selected,
    }
}

/// Where the menu cursor starts over the bootable entries: on the policy's
/// choice when it is among them (its first row), else on the first row.
pub open spec fn start_row(flat: Seq<crate::graph::BootEntry>, decision: Option<Decision>) -> int {
    match decision {
        Some(d) => match first_with_id(bootable_entries(flat), d.chosen@) {
            Some(k) => k,
            None => 0,
        },
        None => 0,
    }
}

/// The row the menu cursor starts on (see [`start_row`]).
pub fn initial_cursor(graph: &BootGraph, decision: &Option<Decision>) -> (r: usize)
    ensures
        r == start_row(graph.flat(), *decision),
{
    let d = match decision {
        Some(d) => d,
        None => return 0,
    };
    assert(*decision == Some(*d));
    let rows = graph.bootable();
    let ghost b = bootable_entries(graph.flat());
    let mut k: usize = 0;
    while k < rows.len()
        invariant
            rows@.len() == b.len(),
            b == bootable_entries(graph.flat()),
            *decision == Some(*d),
            forall|j: int| 0 <= j < rows@.len() ==> *rows@[j] == b[j],
            k <= rows@.len(),
            forall|j: int| 0 <= j < k ==> b[j].id@ != d.chosen@,
        decreases rows@.len() - k,
    {
        if rows[k].id == d.chosen {
            proof {
                lemma_first_with_id_at(b, d.chosen@, k as int);
            }
            return k;
        }
        k = k + 1;
    }
    proof {
        lemma_first_with_id(b, d.chosen@);
        if let Some(j) = first_with_id(b, d.chosen@) {
            assert(b[j].id@ != d.chosen@);
        }
    }
    0
}

} // verus!
