//! Topic-count rules of the standardized event API: every event carries
//! its name plus at most three extra indexed topics.

use vstd::prelude::*;
use crate::error::ContractError;

verus! {

/// Maximum number of indexed topics per event, the event name included.
pub const MAX_EVENT_TOPICS: u32 = 4;

/// Validate that a topic count does not exceed the limit.
pub fn validate_topics(topic_count: u32) -> (r: Result<(), ContractError>)
    ensures
        topic_count <= MAX_EVENT_TOPICS ==> r == Ok::<(), ContractError>(()),
        topic_count > MAX_EVENT_TOPICS ==> r == Err::<(), ContractError>(ContractError::EventTopicLimitExceeded),
{
    if topic_count > MAX_EVENT_TOPICS {
        Err(ContractError::EventTopicLimitExceeded)
    } else {
        Ok(())
    }
}

/// Number of topics a well-formed event has given `extra_topics` extra
/// topics: one for the name plus the extras, capped at the limit.
pub fn topic_count(extra_topics: u32) -> (r: u32)
    requires
        extra_topics < u32::MAX,
    ensures
        r == if extra_topics + 1 > MAX_EVENT_TOPICS { MAX_EVENT_TOPICS as int } else { extra_topics + 1 },
{
    let total = 1 + extra_topics;
    if total > MAX_EVENT_TOPICS {
        MAX_EVENT_TOPICS
    } else {
        total
    }
}

/// Check the topic budget of an event about to be published with
/// `extra_topics` extra topics (the event name is always the first topic).
pub fn check_event_topics(extra_topics: usize) -> (r: Result<(), ContractError>)
    ensures
        extra_topics + 1 <= MAX_EVENT_TOPICS ==> r == Ok::<(), ContractError>(()),
        extra_topics + 1 > MAX_EVENT_TOPICS ==> r == Err::<(), ContractError>(ContractError::EventTopicLimitExceeded),
{
    if extra_topics >= MAX_EVENT_TOPICS as usize {
        return Err(ContractError::EventTopicLimitExceeded);
    }
    validate_topics(1 + extra_topics as u32)
}

} // verus!
