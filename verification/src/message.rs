//! The data the relay core works on: the inbound message shape delivered by
//! the gateway, the role-lookup table, the session capability, and the
//! immutable record submitted to the remote store.

use vstd::prelude::*;

verus! {

/// The author of an inbound message.
#[derive(Debug, Clone)]
pub struct Author {
    pub id: u64,
    pub display_name: String,
    /// True for bots and other automated senders; such messages are never
    /// forwarded, to prevent forwarding loops.
    pub is_automated: bool,
}

/// A user mentioned in a message, with the display name the gateway resolved.
#[derive(Debug, Clone)]
pub struct UserMention {
    pub id: u64,
    pub display_name: String,
}

/// A channel mentioned in a message, with its display name.
#[derive(Debug, Clone)]
pub struct ChannelMention {
    pub id: u64,
    pub display_name: String,
}

/// One role the guild-role lookup capability can resolve.
#[derive(Debug, Clone)]
pub struct RoleEntry {
    pub id: u64,
    pub display_name: String,
}

/// A message-received event, read-only to the core.
#[derive(Debug, Clone)]
pub struct InboundMessage {
    pub channel_id: String,
    pub author: Author,
    pub raw_text: String,
    pub user_mentions: Vec<UserMention>,
    pub role_mentions: Vec<u64>,
    pub channel_mentions: Vec<ChannelMention>,
    pub guild_id: Option<u64>,
    pub attachment_count: usize,
}

/// The authenticated identity under which records are submitted. Its
/// lifecycle (login, refresh, expiry) is owned outside the core.
#[derive(Debug, Clone)]
pub struct Session {
    /// The submitting identity (the bridge's own identity).
    pub identity: String,
}

/// The immutable payload submitted once to the remote append-only store.
/// Rich-text facets and reply threading are deliberately absent.
#[derive(Debug, Clone)]
pub struct ForwardedRecord {
    pub text: String,
    /// Stamped at relay time, not at original send time.
    pub created_at: String,
    pub destination_identity: String,
}

impl ForwardedRecord {
    /// Every constructed record carries non-empty text; empty results must
    /// prevent submission entirely.
    pub open spec fn wf(self) -> bool {
        self.text@.len() > 0
    }
}

/// What the remote store returns for a successful submission.
#[derive(Debug, Clone)]
pub struct SubmitReceipt {
    pub location_uri: String,
    pub content_id: String,
}

} // verus!
