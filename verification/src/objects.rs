//! Names for what lives on a Wayland display, and a snapshot of what is alive.
use vstd::prelude::*;

verus! {

/// A client connected to the display.
#[derive(Clone, Copy, Debug, PartialEq, Eq, Structural)]
pub struct ClientId(pub u64);

/// A protocol object, for as long as the display exists.
///
/// Two objects never share an `ObjectId`, not even one after the other: `object` is not the
/// protocol-level number, which clients reuse.
#[derive(Clone, Copy, Debug, PartialEq, Eq, Structural)]
pub struct ObjectId {
    /// The client that owns the object.
    pub client: ClientId,
    /// Tells the objects of the display apart.
    pub object: u64,
}

/// A seat.
#[derive(Clone, Copy, Debug, PartialEq, Eq, Structural)]
pub struct SeatId(pub u64);

/// A destruction hook installed on a surface.
#[derive(Clone, Copy, Debug, PartialEq, Eq, Structural)]
pub struct HookId(pub u64);

/// The serial of an input event.
#[derive(Clone, Copy, Debug, PartialEq, Eq, Structural)]
pub struct Serial(pub u32);

impl ObjectId {
    /// Whether both objects belong to one client.
    pub fn same_client_as(&self, other: &ObjectId) -> (r: bool)
        ensures
            r == (self.client == other.client),
    {
        self.client == other.client
    }
}

/// What is alive on the display at the moment of a call.
///
/// Objects and seats are remembered weakly: holding an [`ObjectId`] or a [`SeatId`] keeps nothing
/// alive, and whoever asks after one says by this snapshot what still exists.
#[derive(Debug)]
pub struct Liveness {
    /// The objects that exist at the protocol level.
    pub objects: Vec<ObjectId>,
    /// The clients that are connected.
    pub clients: Vec<ClientId>,
    /// The seats that exist.
    pub seats: Vec<SeatId>,
}

impl Liveness {
    /// The object exists.
    pub open spec fn object_alive(&self, id: ObjectId) -> bool {
        self.objects@.contains(id)
    }

    /// The seat exists.
    pub open spec fn seat_exists(&self, id: SeatId) -> bool {
        self.seats@.contains(id)
    }

    /// The client of an object, while it is connected.
    pub open spec fn connected_client(&self, id: ObjectId) -> Option<ClientId> {
        if self.clients@.contains(id.client) {
            Some(id.client)
        } else {
            None
        }
    }

    /// Whether the object exists.
    pub fn is_alive(&self, id: &ObjectId) -> (r: bool)
        ensures
            r == self.object_alive(*id),
    {
        let mut i: usize = 0;
        while i < self.objects.len()
            invariant
                i <= self.objects.len(),
                forall|j: int| 0 <= j < i ==> self.objects@[j] != *id,
            decreases self.objects.len() - i,
        {
            if self.objects[i] == *id {
                return true;
            }
            i += 1;
        }
        false
    }

    /// Whether the seat exists.
    pub fn seat_alive(&self, id: &SeatId) -> (r: bool)
        ensures
            r == self.seat_exists(*id),
    {
        let mut i: usize = 0;
        while i < self.seats.len()
            invariant
                i <= self.seats.len(),
                forall|j: int| 0 <= j < i ==> self.seats@[j] != *id,
            decreases self.seats.len() - i,
        {
            if self.seats[i] == *id {
                return true;
            }
            i += 1;
        }
        false
    }

    /// The client that owns an object; `None` once that client is gone.
    pub fn client(&self, id: &ObjectId) -> (r: Option<ClientId>)
        ensures
            r == self.connected_client(*id),
    {
        let mut i: usize = 0;
        while i < self.clients.len()
            invariant
                i <= self.clients.len(),
                forall|j: int| 0 <= j < i ==> self.clients@[j] != id.client,
            decreases self.clients.len() - i,
        {
            if self.clients[i] == id.client {
                return Some(id.client);
            }
            i += 1;
        }
        None
    }
}

} // verus!
