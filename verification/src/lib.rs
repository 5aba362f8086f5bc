//! Core of a chat-relay bridge: a channel directory mapping inbound channel
//! identifiers to outbound destination identities, a pure message transformer
//! that rewrites platform mention tokens into portable text, and a forwarding
//! coordinator that decides, per inbound message, whether to skip, fail, or
//! submit a forwarded record.

mod chars;
mod coordinator;
mod digits;
mod directory;
mod matching;
mod message;
mod transform;

pub use chars::{is_space, is_space_char, lemma_trim_empty_iff, trim_end_spec, trim_spec,
    trim_start_spec};
pub use coordinator::{
    handle, get_streamer_for_channel, record_collection, settle, should_forward_channel,
    skip_spec, ForwardError, HandleStep,
};
pub use digits::{
    channel_token, dec_digits, digit_char, is_digit, mention_rep, role_token, sig_token,
    user_token,
};
pub use directory::{
    entries_map, get_channel_mappings, mappings_of, parse_mappings, segment_entry, split_on,
    ChannelMapping, Directory,
};
pub use matching::{has_match, match_at, replace_all};
pub use message::{
    Author, ChannelMention, ForwardedRecord, InboundMessage, RoleEntry, Session, SubmitReceipt,
    UserMention,
};
pub use transform::{
    body_spec, lemma_transform_strips_channel_tokens, lemma_transform_strips_user_tokens,
    lemma_trim_no_match, mentions_safe, prefix_spec, role_lookup, safe_name, subst_channels,
    subst_roles, subst_users, transform, transform_result_spec, TransformError,
};

