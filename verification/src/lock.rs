//! Locking the session: one lock window per display, and one authentication at
//! a time.
use vstd::prelude::*;
use crate::shell::Display;

verus! {

/// The lock windows of the session: how many are open.
pub struct LockManager {
    windows: usize,
}

/// Whether a password check may start, and keeps others from starting meanwhile.
pub struct AuthGate {
    authenticating: bool,
}

/// What follows a password check.
#[derive(Clone, Copy, Debug, PartialEq, Eq, Structural)]
pub enum AuthOutcome {
    /// The session unlocks.
    Unlock,
    /// The lock screen stays.
    StayLocked,
}

impl LockManager {
    /// An unlocked session.
    pub fn new() -> (r: LockManager)
        ensures
            r.windows() == 0,
    {
        LockManager { windows: 0 }
    }

    pub closed spec fn windows(&self) -> nat {
        self.windows as nat
    }

    /// Whether the session is locked, that is some lock window is open.
    pub fn is_locked(&self) -> (r: bool)
        ensures
            r == (self.windows() > 0),
    {
        self.windows > 0
    }

    /// The displays that need a lock window: all of them, unless lock windows
    /// already exist, in which case a second lock request changes nothing.
    pub fn lock_targets(&self, displays: &Vec<Display>) -> (r: Vec<Display>)
        ensures
            r@ == if self.windows() > 0 {
                Seq::<Display>::empty()
            } else {
                displays@
            },
    {
        if self.windows > 0 {
            return Vec::new();
        }
        let mut r: Vec<Display> = Vec::new();
        let mut i: usize = 0;
        while i < displays.len()
            invariant
                i <= displays@.len(),
                r@ == displays@.take(i as int),
            decreases displays@.len() - i,
        {
            r.push(displays[i]);
            proof {
                assert(displays@.take(i + 1) =~= displays@.take(i as int).push(displays@[i as int]));
            }
            i = i + 1;
        }
        proof {
            assert(displays@.take(displays@.len() as int) =~= displays@);
        }
        r
    }

    /// A lock window opened.
    pub fn window_opened(&mut self)
        ensures
            final(self).windows() == if old(self).windows() < usize::MAX {
                old(self).windows() + 1
            } else {
                old(self).windows()
            },
    {
        if self.windows < usize::MAX {
            self.windows = self.windows + 1;
        }
    }

    /// The session unlocked (`unlocked`) or could not be unlocked: the lock
    /// windows are released only in the first case.
    pub fn unlock_finished(&mut self, unlocked: bool)
        ensures
            final(self).windows() == if unlocked {
                0
            } else {
                old(self).windows()
            },
    {
        if unlocked {
            self.windows = 0;
        }
    }
}

impl AuthGate {
    /// No check is running.
    pub fn new() -> (r: AuthGate)
        ensures
            !r.authenticating(),
    {
        AuthGate { authenticating: false }
    }

    pub closed spec fn authenticating(&self) -> bool {
        self.authenticating
    }

    pub fn is_authenticating(&self) -> (r: bool)
        ensures
            r == self.authenticating(),
    {
        self.authenticating
    }

    /// A password was submitted for `username`. A check starts unless one is
    /// already running or the user name or the password is empty. Returns
    /// whether it starts.
    pub fn begin(&mut self, username: &str, password: &str) -> (started: bool)
        ensures
            started == (!old(self).authenticating() && username@.len() > 0 && password@.len() > 0),
            final(self).authenticating() == (old(self).authenticating() || started),
    {
        if self.authenticating {
            return false;
        }
        proof {
            crate::input::text::lemma_encode_utf8_len(username@);
            crate::input::text::lemma_len_le_byte_len(username@);
            crate::input::text::lemma_encode_utf8_len(password@);
            crate::input::text::lemma_len_le_byte_len(password@);
        }
        if password.as_bytes().len() == 0 || username.as_bytes().len() == 0 {
            return false;
        }
        proof {
            if username@.len() == 0 {
                assert(username@ =~= Seq::<char>::empty());
            }
            if password@.len() == 0 {
                assert(password@ =~= Seq::<char>::empty());
            }
        }
        self.authenticating = true;
        true
    }

    /// The check finished: the session unlocks if it succeeded.
    pub fn finish(&mut self, succeeded: bool) -> (r: AuthOutcome)
        ensures
            !final(self).authenticating(),
            r == if succeeded {
                AuthOutcome::Unlock
            } else {
                AuthOutcome::StayLocked
            },
    {
        self.authenticating = false;
        if succeeded {
            AuthOutcome::Unlock
        } else {
            AuthOutcome::StayLocked
        }
    }
}

} // verus!
