//! The search for a display number that nobody uses.
use crate::text::{digits, lock_name, numbered};
use vstd::prelude::*;

verus! {

/// The greatest display number that is tried.
pub const LAST_DISPLAY: u32 = 32;

/// The display system whose socket is looked for.
#[derive(Debug, Clone, Copy, PartialEq, Eq, Structural)]
pub enum DisplaySystem {
    Wayland,
    X11,
}

/// What is asked of the program.
#[derive(Debug, Clone, Copy, PartialEq, Eq, Structural)]
pub struct Command {
    pub system: DisplaySystem,
    /// Whether the whole path is wanted and not only the name of the display.
    pub full_path: bool,
}

/// What a display system is called.
pub open spec fn system_named(name: Seq<char>) -> Option<DisplaySystem> {
    if name == "wayland"@ {
        Some(DisplaySystem::Wayland)
    } else if name == "x11"@ {
        Some(DisplaySystem::X11)
    } else {
        None
    }
}

/// Reads the arguments of the program; nothing comes of a first one that names no display
/// system.
pub fn parse_command(first: Option<String>, second: Option<String>) -> (command: Option<Command>)
    ensures
        command == match first {
            Some(name) => match system_named(name@) {
                Some(system) => Some(
                    Command {
                        system,
                        full_path: second matches Some(word) && word@ == "full-path"@,
                    },
                ),
                None => None,
            },
            None => None,
        },
{
    let system: DisplaySystem = match first {
        Some(name) => {
            if name == "wayland".to_string() {
                DisplaySystem::Wayland
            } else if name == "x11".to_string() {
                DisplaySystem::X11
            } else {
                return None;
            }
        },
        None => {
            return None;
        },
    };
    let full_path: bool = match second {
        Some(word) => word == "full-path".to_string(),
        None => false,
    };
    Some(Command { system, full_path })
}

/// The name of the socket of a display.
pub open spec fn socket_named(system: DisplaySystem, display: u32) -> Seq<char> {
    match system {
        DisplaySystem::Wayland => "wayland-"@ + digits(display as nat),
        DisplaySystem::X11 => "X"@ + digits(display as nat),
    }
}

/// What programs are told of a display.
pub open spec fn display_named(system: DisplaySystem, display: u32) -> Seq<char> {
    match system {
        DisplaySystem::Wayland => "wayland-"@ + digits(display as nat),
        DisplaySystem::X11 => ":"@ + digits(display as nat),
    }
}

/// The name of the socket of a display.
pub fn socket_name(system: DisplaySystem, display: u32) -> (name: String)
    ensures
        name@ == socket_named(system, display),
{
    match system {
        DisplaySystem::Wayland => numbered("wayland-", display as u64),
        DisplaySystem::X11 => numbered("X", display as u64),
    }
}

/// What programs are told of a display.
pub fn display_name(system: DisplaySystem, display: u32) -> (name: String)
    ensures
        name@ == display_named(system, display),
{
    match system {
        DisplaySystem::Wayland => numbered("wayland-", display as u64),
        DisplaySystem::X11 => numbered(":", display as u64),
    }
}

/// The name of the file that is locked while the socket of a display is in use.
pub fn socket_lock_name(display: u32) -> (name: String)
    ensures
        name@ == socket_named(DisplaySystem::Wayland, display) + ".lock"@,
{
    lock_name(socket_name(DisplaySystem::Wayland, display).as_str())
}

/// What came of the lock file of a display.
#[derive(Debug, Clone, Copy, PartialEq, Eq, Structural)]
pub enum LockFile {
    /// There is none to be had for this display system.
    NotNeeded,
    NotCreated,
    HeldByOther,
    Held,
}

/// What came of the socket of a display.
#[derive(Debug, Clone, Copy, PartialEq, Eq, Structural)]
pub enum SocketFile {
    Absent,
    /// Somebody listens.
    Answered,
    /// The file is there and nobody listens.
    Refused,
    /// It could not be found out whether somebody listens.
    Failed,
}

/// What is found where a display could be.
#[derive(Debug, Clone, Copy, PartialEq, Eq, Structural)]
pub struct Attempt {
    pub lock: LockFile,
    pub socket: SocketFile,
}

impl Attempt {
    /// Whether nobody uses the display. In doubt somebody does.
    pub open spec fn is_free(self) -> bool {
        &&& self.lock is NotNeeded || self.lock is Held
        &&& self.socket is Absent || self.socket is Refused
    }
}

/// What to do with a display.
#[derive(Debug, Clone, Copy, PartialEq, Eq, Structural)]
pub enum Verdict {
    Skip,
    /// The display is free; a socket that nobody listens on is in the way.
    TakeStale,
    Take,
}

/// The display that is tried after what was found at one: the same, once it is free.
pub open spec fn next_display(display: u32, attempt: Attempt) -> u32 {
    if attempt.is_free() {
        display
    } else {
        (display + 1) as u32
    }
}

/// The search, in the order of the display numbers.
#[derive(Debug, Clone, Copy, PartialEq, Eq, Structural)]
pub struct SocketSearch {
    /// The number that is tried next.
    pub display: u32,
}

impl SocketSearch {
    pub fn new() -> (search: Self)
        ensures
            search.display == 0,
    {
        SocketSearch { display: 0 }
    }

    /// The display to be tried, until all were.
    pub fn candidate(&self) -> (display: Option<u32>)
        ensures
            display == (if self.display <= LAST_DISPLAY {
                Some(self.display)
            } else {
                None
            }),
    {
        if self.display <= LAST_DISPLAY {
            Some(self.display)
        } else {
            None
        }
    }

    /// Whether the socket of a display is looked at, once it is known what came of its lock.
    pub fn wants_socket(lock: LockFile) -> (r: bool)
        ensures
            r == (lock is NotNeeded || lock is Held),
    {
        match lock {
            LockFile::NotNeeded => true,
            LockFile::Held => true,
            LockFile::NotCreated => false,
            LockFile::HeldByOther => false,
        }
    }

    /// Judges the display that was tried; the next one is tried where it is skipped.
    pub fn judge(&mut self, attempt: Attempt) -> (verdict: Verdict)
        requires
            old(self).display <= LAST_DISPLAY,
        ensures
            verdict == if !attempt.is_free() {
                Verdict::Skip
            } else if attempt.socket is Refused {
                Verdict::TakeStale
            } else {
                Verdict::Take
            },
            final(self).display == next_display(old(self).display, attempt),
    {
        let verdict: Verdict = if !Self::wants_socket(attempt.lock) {
            Verdict::Skip
        } else {
            match attempt.socket {
                SocketFile::Absent => Verdict::Take,
                SocketFile::Refused => Verdict::TakeStale,
                SocketFile::Answered => Verdict::Skip,
                SocketFile::Failed => Verdict::Skip,
            }
        };
        if verdict == Verdict::Skip {
            self.display = self.display + 1;
        }
        verdict
    }
}

/// Where the search ends that is at `display`, where `attempts` holds what is found at every
/// display.
pub open spec fn search_end(attempts: Seq<Attempt>, display: u32) -> u32
    decreases attempts.len() - display,
{
    if display < attempts.len() && display <= LAST_DISPLAY && next_display(
        display,
        attempts[display as int],
    ) > display {
        search_end(attempts, next_display(display, attempts[display as int]))
    } else {
        display
    }
}

/// The search ends at the smallest display that nobody uses; where all are in use, it ends
/// when all were tried.
pub proof fn smallest_free_display_is_found(attempts: Seq<Attempt>)
    requires
        attempts.len() == LAST_DISPLAY + 1,
    ensures
        ({
            let end = search_end(attempts, 0);
            &&& end <= LAST_DISPLAY ==> attempts[end as int].is_free()
            &&& forall|i: int| 0 <= i < end ==> !(#[trigger] attempts[i]).is_free()
            &&& end <= LAST_DISPLAY + 1
        }),
{
    lemma_search(attempts, 0);
}

proof fn lemma_search(attempts: Seq<Attempt>, display: u32)
    requires
        attempts.len() == LAST_DISPLAY + 1,
        display <= LAST_DISPLAY + 1,
        forall|i: int| 0 <= i < display ==> !(#[trigger] attempts[i]).is_free(),
    ensures
        ({
            let end = search_end(attempts, display);
            &&& end <= LAST_DISPLAY ==> attempts[end as int].is_free()
            &&& forall|i: int| 0 <= i < end ==> !(#[trigger] attempts[i]).is_free()
            &&& end <= LAST_DISPLAY + 1
        }),
    decreases attempts.len() - display,
{
    if display <= LAST_DISPLAY && !attempts[display as int].is_free() {
        lemma_search(attempts, (display + 1) as u32);
    }
}

/// Every display has a socket of its own.
pub proof fn displays_have_their_own_socket(system: DisplaySystem, m: u32, n: u32)
    requires
        m != n,
    ensures
        socket_named(system, m) != socket_named(system, n),
{
    crate::text::digits_tell_numbers_apart(m as nat, n as nat);
    let prefix = match system {
        DisplaySystem::Wayland => "wayland-"@,
        DisplaySystem::X11 => "X"@,
    };
    let a = prefix + digits(m as nat);
    let b = prefix + digits(n as nat);
    assert(a.skip(prefix.len() as int) =~= digits(m as nat));
    assert(b.skip(prefix.len() as int) =~= digits(n as nat));
}

} // verus!
