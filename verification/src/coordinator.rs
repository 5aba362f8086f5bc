//! The forwarding coordinator: per inbound message, decide whether to skip,
//! fail, or submit — and map the submission outcome back. The single
//! suspending step (the network submission itself) is performed by the caller
//! between `handle` and `settle`; everything decided here is pure.

use vstd::prelude::*;
use crate::chars::{str_to_chars, trim_chars, trim_spec};
use crate::directory::Directory;
use crate::message::{ForwardedRecord, InboundMessage, RoleEntry, Session, SubmitReceipt};
use crate::transform::{transform, transform_result_spec};
use vstd::string::StringExecFns;

verus! {

/// The failures a single forwarding attempt can surface. Intentional skips
/// are not errors and are not represented here.
#[derive(Debug, PartialEq, Eq, Clone)]
pub enum ForwardError {
    /// Expected and frequent: the channel is not in the directory.
    ChannelNotMapped,
    /// No authenticated session was available; the message is dropped.
    NoActiveSession,
    /// The remote store rejected the submission; the cause is carried along.
    SubmissionFailed(String),
}

/// What the coordinator decided for one message.
#[derive(Debug)]
pub enum HandleStep {
    /// Intentional skip (automated author, command chatter, empty content):
    /// no submission, no error.
    Skip,
    /// A failure to surface; no submission is attempted.
    Fail(ForwardError),
    /// Submit this record to the remote store, exactly once.
    Submit(ForwardedRecord),
}

/// A message is intentionally skipped when its author is automated, when the
/// raw text starts with the reserved command prefix `~`, or when the content
/// is empty before or after transformation.
pub open spec fn skip_spec(msg: InboundMessage, roles: Seq<RoleEntry>) -> bool {
    ||| msg.author.is_automated
    ||| (msg.raw_text@.len() > 0 && msg.raw_text@[0] == '~')
    ||| trim_spec(msg.raw_text@).len() == 0
    ||| trim_spec(transform_result_spec(msg, roles)).len() == 0
}

/// Decide what to do with one inbound message.
///
/// The guards run in order: skip checks, then directory resolution, then
/// session availability; only when all pass is a record constructed, its
/// text the transformer's exact result, stamped with the caller-supplied
/// submission time.
pub fn handle(
    msg: &InboundMessage,
    roles: &Vec<RoleEntry>,
    directory: &Directory,
    session: &Option<Session>,
    created_at: &str,
) -> (r: HandleStep)
    ensures
        msg.author.is_automated ==> r is Skip,
        r is Skip <==> skip_spec(*msg, roles@),
        r is Fail <==> !skip_spec(*msg, roles@) && (!directory@.contains_key(msg.channel_id@)
            || session is None),
        r matches HandleStep::Fail(e) ==> if !directory@.contains_key(msg.channel_id@) {
            e == ForwardError::ChannelNotMapped
        } else {
            e == ForwardError::NoActiveSession
        },
        r is Submit <==> !skip_spec(*msg, roles@) && directory@.contains_key(msg.channel_id@)
            && session is Some,
        r matches HandleStep::Submit(rec) ==> {
            &&& rec.text@ == transform_result_spec(*msg, roles@)
            &&& rec.created_at@ == created_at@
            &&& rec.destination_identity@ == directory@[msg.channel_id@]
            &&& rec.wf()
        },
{
    if msg.author.is_automated {
        return HandleStep::Skip;
    }
    let raw = msg.raw_text.as_str();
    if raw.unicode_len() > 0 && raw.get_char(0) == '~' {
        return HandleStep::Skip;
    }
    let text = match transform(msg, roles) {
        Err(_) => {
            return HandleStep::Skip;
        },
        Ok(text) => text,
    };
    let tchars = str_to_chars(text.as_str());
    let ttrim = trim_chars(&tchars);
    if ttrim.len() == 0 {
        return HandleStep::Skip;
    }
    let destination = match directory.resolve(msg.channel_id.as_str()) {
        None => {
            return HandleStep::Fail(ForwardError::ChannelNotMapped);
        },
        Some(dest) => dest,
    };
    match session {
        None => HandleStep::Fail(ForwardError::NoActiveSession),
        Some(_) => {
            proof {
                if text@.len() == 0 {
                    assert(trim_spec(text@).len() == 0);
                }
            }
            HandleStep::Submit(
                ForwardedRecord {
                    text,
                    created_at: String::from_str(created_at),
                    destination_identity: destination,
                },
            )
        },
    }
}

/// Map the outcome of the caller's submission attempt: a transport or
/// validation error becomes `SubmissionFailed` with its cause; a receipt is
/// passed through for observability.
pub fn settle(outcome: Result<SubmitReceipt, String>) -> (r: Result<SubmitReceipt, ForwardError>)
    ensures
        r is Ok <==> outcome is Ok,
        outcome matches Ok(receipt) ==> r matches Ok(rr) && rr == receipt,
        outcome matches Err(cause) ==> r matches Err(e) && e == ForwardError::SubmissionFailed(
            cause,
        ),
{
    match outcome {
        Ok(receipt) => Ok(receipt),
        Err(cause) => Err(ForwardError::SubmissionFailed(cause)),
    }
}

/// The collection every forwarded record is submitted under.
pub fn record_collection() -> (s: &'static str)
    ensures
        s@ == "place.stream.chat.message"@,
{
    "place.stream.chat.message"
}

/// Whether a channel is forwarded at all.
pub fn should_forward_channel(directory: &Directory, channel_id: &str) -> (b: bool)
    ensures
        b == directory@.contains_key(channel_id@),
{
    match directory.resolve(channel_id) {
        Some(_) => true,
        None => false,
    }
}

/// The destination identity for a channel, or `ChannelNotMapped`.
pub fn get_streamer_for_channel(directory: &Directory, channel_id: &str) -> (r: Result<
    String,
    ForwardError,
>)
    ensures
        r is Ok <==> directory@.contains_key(channel_id@),
        r matches Ok(dest) ==> directory@[channel_id@] == dest@,
        r is Err ==> r->Err_0 == ForwardError::ChannelNotMapped,
{
    match directory.resolve(channel_id) {
        Some(dest) => Ok(dest),
        None => Err(ForwardError::ChannelNotMapped),
    }
}

} // verus!
