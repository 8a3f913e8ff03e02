//! Admission by source address: an allow set, a deny set, and the switch
//! that says which of the two gates a connection.

use std::collections::HashSet;
use vstd::prelude::*;

verus! {

/// Which of the two address sets gates admission.
#[derive(Clone, Copy, Debug, PartialEq, Eq, Structural)]
pub enum ActiveList {
    BanList,
    WhiteList,
}

impl ActiveList {
    /// The other variant.
    pub open spec fn toggled(self) -> ActiveList {
        match self {
            ActiveList::BanList => ActiveList::WhiteList,
            ActiveList::WhiteList => ActiveList::BanList,
        }
    }

    pub fn is_ban_list(&self) -> (b: bool)
        ensures
            b == (*self == ActiveList::BanList),
    {
        match self {
            ActiveList::BanList => true,
            ActiveList::WhiteList => false,
        }
    }

    pub fn is_white_list(&self) -> (b: bool)
        ensures
            b == (*self == ActiveList::WhiteList),
    {
        match self {
            ActiveList::WhiteList => true,
            ActiveList::BanList => false,
        }
    }

    /// Moves to the other variant: one call, one change.
    pub fn switch(&mut self)
        ensures
            *final(self) == old(self).toggled(),
            *final(self) != *old(self),
    {
        match self {
            ActiveList::BanList => {
                *self = ActiveList::WhiteList;
            },
            ActiveList::WhiteList => {
                *self = ActiveList::BanList;
            },
        }
    }
}

/// What an `AccessControl` stands for: the two address sets and the switch.
/// An address is the 32-bit number of an IPv4 address, first octet highest.
pub struct AccessView {
    pub active: ActiveList,
    pub allowed: Set<u32>,
    pub banned: Set<u32>,
}

impl AccessView {
    /// The set that gates admission now.
    pub open spec fn current(self) -> Set<u32> {
        match self.active {
            ActiveList::WhiteList => self.allowed,
            ActiveList::BanList => self.banned,
        }
    }

    /// Whether a connection from `ip` is served: with the allow set active,
    /// the address has to be in it; with the deny set active, it must not
    /// be in that.
    pub open spec fn admits(self, ip: u32) -> bool {
        (self.active == ActiveList::WhiteList && self.allowed.contains(ip)) || (self.active
            == ActiveList::BanList && !self.banned.contains(ip))
    }

    /// The state with `set` in the place of the set that gates admission.
    pub open spec fn with_current(self, set: Set<u32>) -> AccessView {
        match self.active {
            ActiveList::WhiteList => AccessView { allowed: set, ..self },
            ActiveList::BanList => AccessView { banned: set, ..self },
        }
    }
}

/// The allow set, the deny set and the switch between them.
pub struct AccessControl {
    active_list: ActiveList,
    white_list: HashSet<u32>,
    ban_list: HashSet<u32>,
}

impl View for AccessControl {
    type V = AccessView;

    closed spec fn view(&self) -> AccessView {
        AccessView {
            active: self.active_list,
            allowed: self.white_list@,
            banned: self.ban_list@,
        }
    }
}

impl AccessControl {
    pub fn new(active_list: ActiveList, white_list: HashSet<u32>, ban_list: HashSet<u32>) -> (acl:
        Self)
        ensures
            acl@ == (AccessView { active: active_list, allowed: white_list@, banned: ban_list@ }),
    {
        AccessControl { active_list, white_list, ban_list }
    }

    /// Whether a connection from `ip` is served.
    pub fn admits(&self, ip: u32) -> (served: bool)
        ensures
            served == self@.admits(ip),
            served <==> (self@.active == ActiveList::WhiteList && self@.allowed.contains(ip)) || (
            self@.active == ActiveList::BanList && !self@.banned.contains(ip)),
    {
        broadcast use vstd::std_specs::hash::group_hash_axioms;

        match self.active_list {
            ActiveList::WhiteList => self.white_list.contains(&ip),
            ActiveList::BanList => !self.ban_list.contains(&ip),
        }
    }

    /// Puts `ip` into the set that gates admission now.
    pub fn add(&mut self, ip: u32)
        ensures
            final(self)@ == old(self)@.with_current(old(self)@.current().insert(ip)),
    {
        broadcast use vstd::std_specs::hash::group_hash_axioms;

        match self.active_list {
            ActiveList::WhiteList => {
                self.white_list.insert(ip);
            },
            ActiveList::BanList => {
                self.ban_list.insert(ip);
            },
        }
    }

    /// Takes `ip` out of the set that gates admission now.
    pub fn remove(&mut self, ip: u32)
        ensures
            final(self)@ == old(self)@.with_current(old(self)@.current().remove(ip)),
    {
        broadcast use vstd::std_specs::hash::group_hash_axioms;

        match self.active_list {
            ActiveList::WhiteList => {
                self.white_list.remove(&ip);
            },
            ActiveList::BanList => {
                self.ban_list.remove(&ip);
            },
        }
    }

    /// Puts the other set in charge of admission. Both sets stay as they are.
    pub fn switch(&mut self)
        ensures
            final(self)@ == (AccessView { active: old(self)@.active.toggled(), ..old(self)@ }),
    {
        self.active_list.switch();
    }

    pub fn active_list(&self) -> (active: ActiveList)
        ensures
            active == self@.active,
    {
        self.active_list
    }

    pub fn white_list(&self) -> (set: &HashSet<u32>)
        ensures
            set@ == self@.allowed,
    {
        &self.white_list
    }

    pub fn ban_list(&self) -> (set: &HashSet<u32>)
        ensures
            set@ == self@.banned,
    {
        &self.ban_list
    }

    /// The set that gates admission now.
    pub fn current_list(&self) -> (set: &HashSet<u32>)
        ensures
            set@ == self@.current(),
    {
        match self.active_list {
            ActiveList::WhiteList => &self.white_list,
            ActiveList::BanList => &self.ban_list,
        }
    }
}

} // verus!
