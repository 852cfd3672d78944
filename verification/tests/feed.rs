use feed_relay::feed::{
    fetch_error_for_status, reference_text, FeedItem, FetchError, TrackedMapping, FETCH_LIMIT,
};
use feed_relay::order::sort_newest_first;

#[test]
fn fetch_limit_is_one_small_page() {
    assert_eq!(FETCH_LIMIT, 20);
}

#[test]
fn reference_is_prefix_and_decimal_id() {
    assert_eq!(reference_text(42), "https://twitter.com/twitter/status/42");
    assert_eq!(reference_text(0), "https://twitter.com/twitter/status/0");
    assert_eq!(reference_text(9), "https://twitter.com/twitter/status/9");
    assert_eq!(reference_text(10), "https://twitter.com/twitter/status/10");
    assert_eq!(
        reference_text(1606870814680322049),
        "https://twitter.com/twitter/status/1606870814680322049"
    );
    assert_eq!(
        reference_text(u64::MAX),
        "https://twitter.com/twitter/status/18446744073709551615"
    );
}

#[test]
fn reference_agrees_with_std_formatting() {
    for id in [1u64, 19, 100, 1009, 987654321, 1 << 40, u64::MAX - 1] {
        assert_eq!(reference_text(id), format!("https://twitter.com/twitter/status/{}", id));
    }
}

#[test]
fn item_reference_is_that_of_its_id() {
    let item = FeedItem { id: 77 };
    assert_eq!(item.reference(), reference_text(77));
}

#[test]
fn mappings_compare_by_fields() {
    let a = TrackedMapping { identity: 1, destination: 2 };
    let b = TrackedMapping { identity: 1, destination: 2 };
    let c = TrackedMapping { identity: 2, destination: 1 };
    assert_eq!(a, b);
    assert_ne!(a, c);
}

#[test]
fn sort_puts_the_newest_first() {
    assert_eq!(sort_newest_first(&vec![5, 3, 9, 1]), vec![9, 5, 3, 1]);
}

#[test]
fn sort_keeps_repeated_ids() {
    assert_eq!(sort_newest_first(&vec![2, 7, 2, 7, 1]), vec![7, 7, 2, 2, 1]);
}

#[test]
fn sort_of_nothing_is_nothing() {
    assert_eq!(sort_newest_first(&Vec::new()), Vec::<u64>::new());
}

#[test]
fn sort_leaves_a_descending_batch_alone() {
    assert_eq!(sort_newest_first(&vec![u64::MAX, 4, 0]), vec![u64::MAX, 4, 0]);
}

#[test]
fn refused_credential_is_an_authentication_failure() {
    assert_eq!(fetch_error_for_status(401), FetchError::Authentication);
    assert_eq!(fetch_error_for_status(403), FetchError::Authentication);
}

#[test]
fn too_many_requests_is_a_rate_limit() {
    assert_eq!(fetch_error_for_status(429), FetchError::RateLimited);
}

#[test]
fn any_other_status_is_a_network_failure() {
    for status in [0u16, 200, 400, 402, 404, 428, 430, 500, 503, u16::MAX] {
        assert_eq!(fetch_error_for_status(status), FetchError::Network);
    }
}
