use shared_ownership::LimitTracker;
use shared_ownership::message_for;
use shared_ownership::Messenger;
use shared_ownership::QuotaLevel;
use shared_ownership::quota_level;
use std::cell::RefCell;

const ERROR_MSG: &str = "Error: You are over your quota!";
const URGENT_WARNING: &str = "Urgent warning: You've used up over 90% of your quota!";
const WARNING_MSG: &str = "Warning: You've used up over 75% of your quota!";

struct MockMessenger {
    sent_messages: RefCell<Vec<String>>,
}

impl MockMessenger {
    fn new() -> MockMessenger {
        MockMessenger { sent_messages: RefCell::new(vec![]) }
    }
}

impl Messenger for MockMessenger {
    fn send(&self, message: &str) {
        self.sent_messages.borrow_mut().push(String::from(message));
    }
}

#[test]
fn it_sends_an_over_75_percent_warning_message() {
    let mock_messenger = MockMessenger::new();
    let mut limit_tracker = LimitTracker::new(&mock_messenger, 100);

    limit_tracker.set_value(80);

    assert_eq!(mock_messenger.sent_messages.borrow().len(), 1);
    assert_eq!(
        mock_messenger.sent_messages.borrow().get(0),
        Some(&WARNING_MSG.to_string()),
        "sent message should be [{}]",
        WARNING_MSG
    );
}

#[test]
fn each_threshold_sends_its_own_message() {
    let mock = MockMessenger::new();
    let mut tracker = LimitTracker::new(&mock, 100);
    tracker.set_value(74);
    tracker.set_value(75);
    tracker.set_value(89);
    tracker.set_value(90);
    tracker.set_value(95);
    tracker.set_value(100);
    tracker.set_value(101);
    let sent = mock.sent_messages.borrow();
    assert_eq!(
        *sent,
        vec![
            WARNING_MSG.to_string(),
            WARNING_MSG.to_string(),
            URGENT_WARNING.to_string(),
            URGENT_WARNING.to_string(),
            ERROR_MSG.to_string(),
            ERROR_MSG.to_string(),
        ]
    );
}

#[test]
fn quota_level_exact_boundaries() {
    assert_eq!(quota_level(0, 100), QuotaLevel::Silent);
    assert_eq!(quota_level(74, 100), QuotaLevel::Silent);
    assert_eq!(quota_level(75, 100), QuotaLevel::Warning);
    assert_eq!(quota_level(89, 100), QuotaLevel::Warning);
    assert_eq!(quota_level(90, 100), QuotaLevel::Urgent);
    assert_eq!(quota_level(99, 100), QuotaLevel::Urgent);
    assert_eq!(quota_level(100, 100), QuotaLevel::Exceeded);
    assert_eq!(quota_level(250, 100), QuotaLevel::Exceeded);
    assert_eq!(quota_level(3, 4), QuotaLevel::Warning);
    assert_eq!(quota_level(9, 10), QuotaLevel::Urgent);
}

#[test]
fn quota_level_with_zero_maximum() {
    assert_eq!(quota_level(0, 0), QuotaLevel::Silent);
    assert_eq!(quota_level(1, 0), QuotaLevel::Exceeded);
}

#[test]
fn quota_level_is_exact_on_huge_values() {
    let huge = usize::MAX;
    assert_eq!(quota_level(huge, huge), QuotaLevel::Exceeded);
    assert_eq!(quota_level(huge - 1, huge), QuotaLevel::Urgent);
    assert_eq!(quota_level(huge / 2, huge), QuotaLevel::Silent);
}

#[test]
fn message_for_each_level() {
    assert_eq!(message_for(QuotaLevel::Silent), None);
    assert_eq!(message_for(QuotaLevel::Warning), Some(WARNING_MSG));
    assert_eq!(message_for(QuotaLevel::Urgent), Some(URGENT_WARNING));
    assert_eq!(message_for(QuotaLevel::Exceeded), Some(ERROR_MSG));
}
