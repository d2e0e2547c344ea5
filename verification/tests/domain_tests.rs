use blockandfocus::domain::{normalize_domain, DomainBlocker};

#[test]
fn test_normalize_domain() {
    assert_eq!(normalize_domain("Facebook.COM"), "facebook.com");
    assert_eq!(normalize_domain("twitter.com."), "twitter.com");
    assert_eq!(normalize_domain("  Reddit.com  "), "reddit.com");
}

#[test]
fn test_exact_match() {
    let blocker = DomainBlocker::new(vec![
        "facebook.com".to_string(),
        "twitter.com".to_string(),
    ]);

    assert!(blocker.should_block("facebook.com"));
    assert!(blocker.should_block("FACEBOOK.COM"));
    assert!(blocker.should_block("facebook.com."));
    assert!(blocker.should_block("twitter.com"));
    assert!(!blocker.should_block("google.com"));
}

#[test]
fn test_subdomain_match() {
    let blocker = DomainBlocker::new(vec!["facebook.com".to_string()]);

    assert!(blocker.should_block("www.facebook.com"));
    assert!(blocker.should_block("m.facebook.com"));
    assert!(blocker.should_block("api.facebook.com"));
    assert!(blocker.should_block("deep.sub.facebook.com"));

    // Should NOT match domains that just contain the string
    assert!(!blocker.should_block("notfacebook.com"));
    assert!(!blocker.should_block("facebook.com.evil.com"));
}

#[test]
fn test_update_domains() {
    let mut blocker = DomainBlocker::new(vec!["facebook.com".to_string()]);

    assert!(blocker.should_block("facebook.com"));
    assert!(!blocker.should_block("twitter.com"));

    blocker.update_domains(vec!["twitter.com".to_string()]);

    assert!(!blocker.should_block("facebook.com"));
    assert!(blocker.should_block("twitter.com"));
}

#[test]
fn test_blocked_count() {
    let blocker = DomainBlocker::new(vec![
        "facebook.com".to_string(),
        "twitter.com".to_string(),
        "instagram.com".to_string(),
    ]);

    assert_eq!(blocker.blocked_count(), 3);
}

#[test]
fn test_normalize_idempotent_on_names() {
    for d in ["Facebook.COM", "  x.Y.z..  ", "a.b", "REDDIT.com."] {
        let once = normalize_domain(d);
        let twice = normalize_domain(&once);
        assert_eq!(once, twice);
    }
}

#[test]
fn test_empty_blocklist_blocks_nothing() {
    let blocker = DomainBlocker::new(Vec::new());
    assert!(!blocker.should_block("facebook.com"));
    assert!(!blocker.should_block(""));
    assert!(!blocker.should_block("anything.at.all"));
}

#[test]
fn test_upper_and_trailing_dot_queries_match() {
    let blocker = DomainBlocker::new(vec!["facebook.com".to_string()]);
    assert!(blocker.should_block("WWW.Facebook.COM."));
    assert!(blocker.should_block("Facebook.Com."));
}

#[test]
fn test_blocker_entries_are_normalized() {
    let blocker = DomainBlocker::new(vec!["  TikTok.COM.  ".to_string()]);
    assert_eq!(blocker.entries(), vec!["tiktok.com".to_string()]);
}
