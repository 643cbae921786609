use vstd::prelude::*;

use crate::status::{Listing, ListingPlayers, ListingVersion};
use crate::text::{
    as_full, no_formatting, reformat, ColorView, FormattingView, Text, TextColor, TextView,
};

verus! {

/// Whether the caller should close the connection.
#[derive(Debug, Clone, Copy, PartialEq, Eq, Structural)]
pub enum ShouldClose {
    False,
    True,
}

impl ShouldClose {
    pub fn is_true(&self) -> (r: bool)
        ensures
            r == (*self == ShouldClose::True),
    {
        match self {
            ShouldClose::True => true,
            ShouldClose::False => false,
        }
    }
}

/// The protocol number this server speaks.
pub const PROTOCOL_VERSION: i32 = 761;

/// The value after `v` on a counter that wraps at the largest `i32`.
pub open spec fn wrapping_next(v: i32) -> i32 {
    if v == i32::MAX {
        i32::MIN
    } else {
        (v + 1) as i32
    }
}

/// State shared by every connection of a server.
pub struct ServerContext {
    next_entity_id: i32,
}

impl ServerContext {
    pub closed spec fn spec_next_entity_id(&self) -> i32 {
        self.next_entity_id
    }

    /// A context whose first entity id is zero.
    pub fn new() -> (r: ServerContext)
        ensures
            r.spec_next_entity_id() == 0,
    {
        ServerContext { next_entity_id: 0 }
    }

    /// Returns the current entity id and advances the counter, wrapping at
    /// the largest `i32`.
    pub fn next_entity_id(&mut self) -> (r: i32)
        ensures
            r == old(self).spec_next_entity_id(),
            final(self).spec_next_entity_id() == wrapping_next(r),
    {
        let id = self.next_entity_id;
        self.next_entity_id = if id == i32::MAX {
            i32::MIN
        } else {
            id + 1
        };
        id
    }
}

impl ServerContext {
    /// The listing reported to modern clients.
    pub fn listing(&self) -> (r: Listing)
        ensures
            r.version.value == PROTOCOL_VERSION,
            r.version.name@ == "Minestodon 1.19.3"@,
            r.players.current == 0,
            r.players.max == 1,
            r.players.sample is None,
            r.motd@ == default_motd(),
            r.icon is None,
    {
        listing()
    }

    /// The listing reported to legacy pings: the same as the modern one.
    pub fn legacy_listing(&self) -> (r: Listing)
        ensures
            r.version.value == PROTOCOL_VERSION,
            r.version.name@ == "Minestodon 1.19.3"@,
            r.players.current == 0,
            r.players.max == 1,
            r.players.sample is None,
            r.motd@ == default_motd(),
            r.icon is None,
    {
        listing()
    }
}

/// The MOTD of the default listing: "Minestodon!", bold, coloured #6364ff.
pub open spec fn default_motd() -> TextView {
    let base = as_full(TextView::Str("Minestodon!"@));
    let colored = FormattingView { color: Some(ColorView::Hex("#6364ff"@)), ..no_formatting() };
    reformat(base, FormattingView { bolded: Some(true), ..colored })
}

/// The listing the server reports: protocol 761, "Minestodon 1.19.3", no
/// one online out of one, a bold MOTD coloured #6364ff, no icon.
pub fn listing() -> (r: Listing)
    ensures
        r.version.value == PROTOCOL_VERSION,
        r.version.name@ == "Minestodon 1.19.3"@,
        r.players.current == 0,
        r.players.max == 1,
        r.players.sample is None,
        r.motd@ == default_motd(),
        r.icon is None,
{
    let motd = Text::from_string(String::from_str("Minestodon!")).color(
        TextColor::Hex(String::from_str("#6364ff")),
    ).bolded(true);
    Listing {
        version: ListingVersion { value: PROTOCOL_VERSION, name: String::from_str("Minestodon 1.19.3") },
        players: ListingPlayers { current: 0, max: 1, sample: None },
        motd,
        icon: None,
    }
}

} // verus!
