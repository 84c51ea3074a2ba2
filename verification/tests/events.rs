use stellarflow_contracts::error::ContractError;
use stellarflow_contracts::events::{check_event_topics, topic_count, validate_topics, MAX_EVENT_TOPICS};

#[test]
fn validate_topics_within_limit() {
    assert!(validate_topics(0).is_ok());
    assert!(validate_topics(1).is_ok());
    assert!(validate_topics(2).is_ok());
    assert!(validate_topics(3).is_ok());
    assert!(validate_topics(4).is_ok());
}

#[test]
fn validate_topics_exceeds_limit() {
    assert_eq!(validate_topics(5), Err(ContractError::EventTopicLimitExceeded));
    assert_eq!(validate_topics(10), Err(ContractError::EventTopicLimitExceeded));
}

#[test]
fn topic_count_returns_correct_totals() {
    assert_eq!(topic_count(0), 1);
    assert_eq!(topic_count(1), 2);
    assert_eq!(topic_count(2), 3);
    assert_eq!(topic_count(3), 4);
    assert_eq!(topic_count(4), 4);
    assert_eq!(topic_count(100), 4);
}

#[test]
fn max_event_topics_is_four() {
    assert_eq!(MAX_EVENT_TOPICS, 4);
}

#[test]
fn event_topic_budget_before_publishing() {
    assert_eq!(check_event_topics(0), Ok(()));
    assert_eq!(check_event_topics(3), Ok(()));
    assert_eq!(check_event_topics(4), Err(ContractError::EventTopicLimitExceeded));
    assert_eq!(check_event_topics(usize::MAX), Err(ContractError::EventTopicLimitExceeded));
}
