use badge_forge::queue::{EnqueueOutcome, InMemoryQueue};
use badge_forge::request::{normalize_request, LevelRequest};

// Helper function to create a test LevelRequest
fn create_test_request(user_id: &str) -> LevelRequest {
    LevelRequest {
        user_id: user_id.to_string(),
        request_id: format!("req-{}", user_id),
        created_at: chrono::Utc::now().timestamp(),
    }
}

// Helper function to create a test LevelRequest with specific ID
fn create_test_request_with_id(user_id: &str, request_id: &str) -> LevelRequest {
    LevelRequest {
        user_id: user_id.to_string(),
        request_id: request_id.to_string(),
        created_at: chrono::Utc::now().timestamp(),
    }
}

// Helper function to create a LevelRequest with empty fields
fn create_empty_request(user_id: &str) -> LevelRequest {
    LevelRequest {
        user_id: user_id.to_string(),
        request_id: String::new(),
        created_at: 0, // Unix epoch (empty date)
    }
}

#[test]
fn test_queue_creation() {
    let queue = InMemoryQueue::new(10);

    // Check that the queue starts empty
    let pending = queue.get_pending_requests();
    assert_eq!(pending.len(), 0, "Queue should be empty on creation");
}

#[test]
fn test_enqueue() {
    let mut queue = InMemoryQueue::new(10);
    let request = create_test_request("user123");

    // Enqueue a request
    let outcome = queue.enqueue(request);
    assert!(
        matches!(outcome, EnqueueOutcome::Dispatched),
        "Enqueue should hand the request to the buffer"
    );

    // Verify it's in the pending list
    let pending = queue.get_pending_requests();
    assert_eq!(pending.len(), 1, "Queue should have 1 pending request");
    assert_eq!(pending[0].user_id, "user123", "User ID should match");

    // Verify it can be received from the buffer
    let received = queue.try_receive();
    assert!(received.is_some(), "Should receive the request from the buffer");
    assert_eq!(received.unwrap().user_id, "user123", "Received request should match");
}

#[test]
fn test_enqueue_empty_fields() {
    let mut queue = InMemoryQueue::new(10);
    let empty_request = create_empty_request("user456");

    // Verify fields are empty
    assert!(empty_request.request_id.is_empty(), "request_id should be empty");
    assert_eq!(empty_request.created_at, 0, "created_at should be Unix epoch");

    let before = chrono::Utc::now().timestamp();

    // Enqueue request with empty fields
    let outcome = queue.enqueue(empty_request);
    assert!(
        matches!(outcome, EnqueueOutcome::Dispatched),
        "Enqueue should succeed even with empty fields"
    );

    // Verify request in queue has generated fields
    let pending = queue.get_pending_requests();
    assert_eq!(pending.len(), 1, "Queue should have 1 pending request");
    assert!(!pending[0].request_id.is_empty(), "request_id should be generated");
    assert_eq!(pending[0].request_id.len(), 36, "request_id should be a full identifier");
    assert!(
        pending[0].created_at >= before,
        "created_at should be set to current time"
    );

    // Verify the received request also has generated fields
    let received = queue.try_receive().unwrap();
    assert!(
        !received.request_id.is_empty(),
        "Received request should have generated request_id"
    );
    assert!(
        received.created_at >= before,
        "Received request should have current timestamp"
    );
}

#[test]
fn test_remove_request() {
    let mut queue = InMemoryQueue::new(10);
    let request_id = "test-request-id-123";
    let request = create_test_request_with_id("user123", request_id);

    // Add request to queue
    let _ = queue.enqueue(request);

    // Verify request is in the queue
    let pending_before = queue.get_pending_requests();
    assert_eq!(pending_before.len(), 1, "Queue should have 1 request");

    // Remove the request
    queue.remove_request(request_id);

    // Verify request was removed
    let pending_after = queue.get_pending_requests();
    assert_eq!(pending_after.len(), 0, "Queue should be empty after removing request");
}

#[test]
fn test_remove_nonexistent_request() {
    let mut queue = InMemoryQueue::new(10);
    let request = create_test_request("user123");

    // Add request to queue
    let _ = queue.enqueue(request);

    // Try to remove non-existent request
    queue.remove_request("non-existent-id");

    // Verify the queue is unchanged
    let pending = queue.get_pending_requests();
    assert_eq!(pending.len(), 1, "Queue should still have 1 request");
    assert_eq!(pending[0].user_id, "user123");
}

#[test]
fn test_get_pending_requests_empty() {
    let queue = InMemoryQueue::new(10);

    // Check empty queue
    let pending = queue.get_pending_requests();
    assert_eq!(pending.len(), 0, "Empty queue should return empty vector");
}

#[test]
fn test_get_pending_requests_with_items() {
    let mut queue = InMemoryQueue::new(10);

    // Add multiple requests
    let _ = queue.enqueue(create_test_request("user1"));
    let _ = queue.enqueue(create_test_request("user2"));
    let _ = queue.enqueue(create_test_request("user3"));

    // Check queue has all items
    let pending = queue.get_pending_requests();
    assert_eq!(pending.len(), 3, "Queue should have 3 requests");

    // Verify the user IDs
    let user_ids: Vec<String> = pending.iter().map(|req| req.user_id.clone()).collect();
    assert!(user_ids.contains(&"user1".to_string()), "Should contain user1");
    assert!(user_ids.contains(&"user2".to_string()), "Should contain user2");
    assert!(user_ids.contains(&"user3".to_string()), "Should contain user3");
}

#[test]
fn test_ten_enqueues_yield_ten_pending() {
    // Ten submissions with distinct identities, none marked done, leave
    // exactly ten requests pending.
    let mut queue = InMemoryQueue::new(100);
    for i in 0..10 {
        let user_id = format!("user{}", i);
        let _ = queue.enqueue(create_test_request(&user_id));
    }
    let pending = queue.get_pending_requests();
    assert_eq!(pending.len(), 10, "Queue should have 10 requests after 10 enqueues");
}

#[test]
fn test_enqueue_and_remove_batches() {
    // Five early requests marked done; five later ones left pending.
    let mut queue = InMemoryQueue::new(100);
    let mut request_ids = Vec::new();
    for i in 0..5 {
        let user_id = format!("user{}", i);
        let request_id = format!("first-batch-{}", i);
        request_ids.push(request_id.clone());
        let _ = queue.enqueue(create_test_request_with_id(&user_id, &request_id));
    }
    for i in 5..10 {
        let user_id = format!("user{}", i);
        let _ = queue.enqueue(create_test_request(&user_id));
    }
    for id in request_ids {
        queue.remove_request(&id);
    }

    let pending = queue.get_pending_requests();
    assert_eq!(pending.len(), 5, "Queue should have 5 requests after removals");
    for req in pending {
        let user_id_num: String = req.user_id.chars().filter(|c| c.is_ascii_digit()).collect();
        let num: u32 = user_id_num.parse().unwrap_or(0);
        assert!((5..10).contains(&num), "Only requests from the second batch should remain");
    }
}

#[test]
fn test_queue_backpressure() {
    // Create a very small buffer to test backpressure
    let mut queue = InMemoryQueue::new(2);

    // Fill the buffer: both hand-offs succeed without waiting
    assert!(matches!(queue.enqueue(create_test_request("user1")), EnqueueOutcome::Dispatched));
    assert!(matches!(queue.enqueue(create_test_request("user2")), EnqueueOutcome::Dispatched));

    // The third submission finds the buffer full: the caller would now
    // suspend until the consumer drains a slot
    let outcome = queue.enqueue(create_test_request("user3"));
    let waiting = match outcome {
        EnqueueOutcome::BufferFull(req) => req,
        EnqueueOutcome::Dispatched => panic!("Enqueue should report a full buffer"),
    };
    assert_eq!(waiting.user_id, "user3");
    assert_eq!(queue.buffered_len(), 2, "Buffer should hold 2 items despite attempted overflow");

    // The request is pending from acceptance, before the consumer can see it
    assert_eq!(queue.pending_len(), 3);

    // Once the consumer drains one slot, the dispatch goes through
    let drained = queue.try_receive();
    assert_eq!(drained.unwrap().user_id, "user1");
    assert!(matches!(queue.try_dispatch(waiting), EnqueueOutcome::Dispatched));
    assert_eq!(queue.buffered_len(), 2);
    assert_eq!(queue.pending_len(), 3);
}

#[test]
fn test_same_user_different_requests() {
    let mut queue = InMemoryQueue::new(10);

    // Add multiple requests for the same user with generated request_ids
    let _ = queue.enqueue(create_empty_request("same_user"));
    let _ = queue.enqueue(create_empty_request("same_user"));
    let _ = queue.enqueue(create_empty_request("same_user"));

    // Check queue has all items despite same user_id
    let pending = queue.get_pending_requests();
    assert_eq!(pending.len(), 3, "Queue should have 3 requests for the same user");

    // Check they all have different request_ids
    let mut request_ids = Vec::new();
    for req in pending {
        assert_eq!(req.user_id, "same_user", "User ID should be the same");
        assert!(!request_ids.contains(&req.request_id), "Request IDs should be unique");
        request_ids.push(req.request_id);
    }
}

#[test]
fn test_receive_is_fifo() {
    let mut queue = InMemoryQueue::new(10);
    let _ = queue.enqueue(create_test_request("first"));
    let _ = queue.enqueue(create_test_request("second"));
    let _ = queue.enqueue(create_test_request("third"));

    assert_eq!(queue.try_receive().unwrap().user_id, "first");
    assert_eq!(queue.try_receive().unwrap().user_id, "second");
    assert_eq!(queue.try_receive().unwrap().user_id, "third");
    assert!(queue.try_receive().is_none());
}

#[test]
fn test_remove_request_removes_first_match_only() {
    let mut queue = InMemoryQueue::new(10);
    let _ = queue.enqueue(create_test_request_with_id("a", "dup"));
    let _ = queue.enqueue(create_test_request_with_id("b", "dup"));
    queue.remove_request("dup");
    let pending = queue.get_pending_requests();
    assert_eq!(pending.len(), 1);
    assert_eq!(pending[0].user_id, "b");
}

#[test]
fn test_normalize_request_keeps_supplied_fields() {
    let supplied = LevelRequest {
        user_id: "u".to_string(),
        request_id: "given".to_string(),
        created_at: 77,
    };
    let normalized = normalize_request(supplied, "fresh".to_string(), 1_000);
    assert_eq!(normalized.user_id, "u");
    assert_eq!(normalized.request_id, "given");
    assert_eq!(normalized.created_at, 77);

    let empty = LevelRequest {
        user_id: "u".to_string(),
        request_id: String::new(),
        created_at: 0,
    };
    let normalized = normalize_request(empty, "fresh".to_string(), 1_000);
    assert_eq!(normalized.request_id, "fresh");
    assert_eq!(normalized.created_at, 1_000);
}
