use automate::address::{get_endpoint, AddressError};
use automate::context::{get_comet_addr, set_comet_addr, AppContext};
use automate::ident::{get_nanid, tagged_id, SUFFIX_LEN};
use automate::text::{append_bytes, clone_texts, str_eq};

#[test]
fn endpoint_with_namespace() {
    assert_eq!(
        get_endpoint("tenantA", "10.0.0.1"),
        Ok(String::from("jiascheduler:ins:tenantA:10.0.0.1"))
    );
}

#[test]
fn endpoint_without_namespace_is_shorter() {
    assert_eq!(
        get_endpoint("", "10.0.0.1"),
        Ok(String::from("jiascheduler:ins:10.0.0.1"))
    );
}

#[test]
fn endpoint_rejects_empty_ip() {
    assert_eq!(get_endpoint("tenantA", ""), Err(AddressError::EmptyIp));
    assert_eq!(get_endpoint("", ""), Err(AddressError::EmptyIp));
}

#[test]
fn endpoint_is_deterministic() {
    assert_eq!(get_endpoint("ns", "192.168.1.7"), get_endpoint("ns", "192.168.1.7"));
}

#[test]
fn endpoint_separates_distinct_pairs() {
    let pairs = [
        ("", "10.0.0.1"),
        ("a", "10.0.0.1"),
        ("b", "10.0.0.1"),
        ("a", "10.0.0.2"),
        ("", "10.0.0.2"),
        ("ab", "1"),
        ("a", "b1"),
    ];
    for (i, x) in pairs.iter().enumerate() {
        for (j, y) in pairs.iter().enumerate() {
            let same = get_endpoint(x.0, x.1) == get_endpoint(y.0, y.1);
            assert_eq!(same, i == j);
        }
    }
}

#[test]
fn endpoint_keeps_non_ascii_text() {
    assert_eq!(
        get_endpoint("área", "::1"),
        Ok(String::from("jiascheduler:ins:área:::1"))
    );
}

#[test]
fn endpoint_with_colons_in_both_parts_can_collide() {
    assert_eq!(get_endpoint("", "a:b"), get_endpoint("a", "b"));
}

#[test]
fn tagged_id_joins_with_hyphen() {
    assert_eq!(tagged_id("job", "abc"), "job-abc");
    assert_eq!(tagged_id("", ""), "-");
}

#[test]
fn nanid_has_prefix_hyphen_and_random_part() {
    let id = get_nanid("job");
    assert!(id.starts_with("job-"));
    assert_eq!(id.chars().count(), 3 + 1 + SUFFIX_LEN);
    for c in id.chars().skip(4) {
        assert!(c == '_' || c == '-' || c.is_ascii_alphanumeric());
    }
}

#[test]
fn nanid_differs_from_call_to_call() {
    let a = get_nanid("x");
    let b = get_nanid("x");
    let c = get_nanid("x");
    assert!(a != b || b != c);
}

#[test]
fn nanid_with_empty_prefix() {
    let id = get_nanid("");
    assert!(id.starts_with('-'));
    assert_eq!(id.len(), 1 + SUFFIX_LEN);
}

#[test]
fn str_eq_compares_characters() {
    assert!(str_eq("", ""));
    assert!(str_eq("abc", "abc"));
    assert!(!str_eq("abc", "abd"));
    assert!(!str_eq("abc", "ab"));
    assert!(str_eq("héllo", "héllo"));
    assert!(!str_eq("héllo", "hello"));
}

#[test]
fn append_bytes_appends_in_order() {
    let mut out = vec![1u8, 2];
    append_bytes(&mut out, &[3, 4, 5]);
    assert_eq!(out, vec![1, 2, 3, 4, 5]);
    append_bytes(&mut out, &[]);
    assert_eq!(out, vec![1, 2, 3, 4, 5]);
}

#[test]
fn clone_texts_copies_each_string() {
    let v = vec![String::from("a"), String::from(""), String::from("xyz")];
    assert_eq!(clone_texts(&v), v);
    assert_eq!(clone_texts(&Vec::new()), Vec::<String>::new());
}

#[test]
fn context_starts_without_relay_address() {
    let ctx = AppContext::new("10.1.2.3");
    assert_eq!(ctx.local_ip(), "10.1.2.3");
    assert_eq!(get_comet_addr(&ctx), None);
}

#[test]
fn context_relay_address_is_set_and_replaced() {
    let mut ctx = AppContext::new("10.1.2.3");
    set_comet_addr(&mut ctx, "ws://relay:3000");
    assert_eq!(get_comet_addr(&ctx), Some(String::from("ws://relay:3000")));
    set_comet_addr(&mut ctx, "ws://other:3000");
    assert_eq!(get_comet_addr(&ctx), Some(String::from("ws://other:3000")));
    assert_eq!(ctx.local_ip(), "10.1.2.3");
}

#[test]
fn context_local_endpoint_uses_own_ip() {
    let ctx = AppContext::new("10.1.2.3");
    assert_eq!(
        ctx.local_endpoint("tenantA"),
        Ok(String::from("jiascheduler:ins:tenantA:10.1.2.3"))
    );
    assert_eq!(ctx.local_endpoint(""), Ok(String::from("jiascheduler:ins:10.1.2.3")));
    assert_eq!(AppContext::new("").local_endpoint("x"), Err(AddressError::EmptyIp));
}

#[test]
fn empty_namespace_with_plain_ip_collides_with_nothing() {
    let plain = get_endpoint("", "10.0.0.1");
    for (ns, ip) in [("a", "10.0.0.1"), ("10.0.0", "1"), ("a:b", "c"), ("", "10.0.0.2"), ("x", "y:z")] {
        assert_ne!(plain, get_endpoint(ns, ip));
    }
}

#[test]
fn pairs_that_move_the_separator_collide() {
    assert_eq!(get_endpoint("a", "b:c"), get_endpoint("a:b", "c"));
    assert_eq!(get_endpoint("", "tenantA:10.0.0.1"), get_endpoint("tenantA", "10.0.0.1"));
    assert_ne!(get_endpoint("a", "b:c"), get_endpoint("a:c", "b"));
}
