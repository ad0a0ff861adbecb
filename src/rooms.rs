use vstd::prelude::*;

verus! {

/// One of the rooms whose relay the controller switches.
#[derive(Clone, Copy, Debug, PartialEq, Eq, Structural, Hash)]
pub enum Room {
    LivingRoom,
    Office,
    Bedroom,
}

/// Which room relays are on.
#[derive(Clone, Copy, Debug, PartialEq, Eq, Structural, Hash)]
pub struct Rooms {
    pub living_room: bool,
    pub office: bool,
    pub bedroom: bool,
}

/// A partial room update, as a schedule entry gives it: a field left `None`
/// keeps the room as it is.
#[derive(Clone, Copy, Debug, PartialEq, Eq, Structural, Hash)]
pub struct ScheduledRoomState {
    pub living_room: Option<bool>,
    pub office: Option<bool>,
    pub bedroom: Option<bool>,
}

/// An optional override applied to a current value.
pub open spec fn override_with(o: Option<bool>, current: bool) -> bool {
    match o {
        Some(v) => v,
        None => current,
    }
}

impl Rooms {
    /// The rooms with only `room` on.
    pub open spec fn only(room: Room) -> Rooms {
        Rooms {
            living_room: room == Room::LivingRoom,
            office: room == Room::Office,
            bedroom: room == Room::Bedroom,
        }
    }

    /// `self` with the fields that `s` sets replaced.
    pub open spec fn merged(self, s: ScheduledRoomState) -> Rooms {
        Rooms {
            living_room: override_with(s.living_room, self.living_room),
            office: override_with(s.office, self.office),
            bedroom: override_with(s.bedroom, self.bedroom),
        }
    }

    /// Turns `room` on and every other room off.
    pub fn set_active_only(&mut self, room: Room)
        ensures
            *final(self) == Rooms::only(room),
    {
        self.living_room = false;
        self.office = false;
        self.bedroom = false;
        match room {
            Room::LivingRoom => self.living_room = true,
            Room::Office => self.office = true,
            Room::Bedroom => self.bedroom = true,
        }
    }

    pub fn set_active_rooms(&mut self, active_rooms: &Rooms)
        ensures
            *final(self) == *active_rooms,
    {
        *self = *active_rooms;
    }

    /// Applies a partial update: rooms that `active_rooms` leaves unset keep
    /// their state.
    pub fn set_active_rooms_option(&mut self, active_rooms: &ScheduledRoomState)
        ensures
            *final(self) == old(self).merged(*active_rooms),
    {
        *self = self.from_scheduled(active_rooms);
    }

    pub fn active_rooms(&self) -> (r: &Rooms)
        ensures
            *r == *self,
    {
        self
    }

    /// The merge of a partial update into these rooms.
    pub fn from_scheduled(&self, scheduled: &ScheduledRoomState) -> (r: Rooms)
        ensures
            r == self.merged(*scheduled),
    {
        let living_room = match scheduled.living_room {
            Some(v) => v,
            None => self.living_room,
        };
        let office = match scheduled.office {
            Some(v) => v,
            None => self.office,
        };
        let bedroom = match scheduled.bedroom {
            Some(v) => v,
            None => self.bedroom,
        };
        Rooms { living_room, office, bedroom }
    }
}

impl Default for Rooms {
    fn default() -> (r: Rooms)
        ensures
            r == (Rooms { living_room: false, office: false, bedroom: false }),
    {
        Rooms { living_room: false, office: false, bedroom: false }
    }
}

} // verus!
