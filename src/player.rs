use vstd::prelude::*;

use crate::codec::Uuid;
use crate::connection::{join_frames, ConnView, Connection};
use crate::error::{ConnectionState, ProtocolError};

verus! {

/// A logged-in player; it owns the connection it logged in on.
pub struct Player {
    pub connection: Connection,
    pub uuid: Uuid,
    pub username: String,
}

impl Player {
    /// Takes over `connection` for the player `username`, who gets `uuid`.
    pub fn new(connection: Connection, username: String, uuid: Uuid) -> (r: Player)
        ensures
            r.uuid == uuid,
            r.username@ == username@,
            r.connection == connection,
    {
        Player { connection, uuid, username }
    }

    /// Completes the login on the player's connection: compression on,
    /// login success, play state, play setup.
    pub fn finish_joining(&mut self, entity_id: i32, registries_nbt: &[u8]) -> (r: Result<
        (),
        ProtocolError,
    >)
        requires
            old(self).connection.wf(),
            old(self).connection.spec_state() == ConnectionState::Login,
            !old(self).connection.spec_compressed(),
        ensures
            final(self).connection.wf(),
            final(self).uuid == old(self).uuid,
            final(self).username@ == old(self).username@,
            match join_frames(old(self).uuid, old(self).username@, entity_id, registries_nbt@) {
                Ok(f) => r is Ok && final(self).connection@ == (ConnView {
                    state: ConnectionState::Play,
                    compressed: true,
                    uuid: Some(old(self).uuid),
                    pending: old(self).connection.pending() + f,
                    ..old(self).connection@
                }),
                Err(e) => r == Err::<(), ProtocolError>(e),
            },
    {
        let uuid = self.uuid;
        self.connection.finish_joining(uuid, self.username.as_str(), entity_id, registries_nbt)
    }

    /// One tick of play; nothing happens in play yet.
    pub fn tick(&mut self) -> (r: Result<(), ProtocolError>)
        ensures
            r is Ok,
            *final(self) == *old(self),
    {
        Ok(())
    }
}

} // verus!
