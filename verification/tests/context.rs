use rpcmux::context::default_ctx;
use rpcmux::context::with_timeout;
use rpcmux::context::DEFAULT_TIMEOUT_NANOS;

fn strings(values: &[&str]) -> Vec<String> {
    values.iter().map(|v| v.to_string()).collect()
}

#[test]
fn add_twice_keeps_both_values_in_order() {
    let mut ctx = with_timeout(0);
    ctx.add("k".to_string(), "v1".to_string());
    ctx.add("k".to_string(), "v2".to_string());
    assert_eq!(ctx.get("k"), Some(&strings(&["v1", "v2"])));
}

#[test]
fn set_after_add_replaces_the_whole_list() {
    let mut ctx = with_timeout(0);
    ctx.add("k".to_string(), "v1".to_string());
    ctx.add("k".to_string(), "v2".to_string());
    ctx.set("k".to_string(), strings(&["v3"]));
    assert_eq!(ctx.get("k"), Some(&strings(&["v3"])));
}

#[test]
fn add_after_set_appends_to_the_new_list() {
    let mut ctx = with_timeout(0);
    ctx.set("k".to_string(), strings(&["a", "b"]));
    ctx.add("k".to_string(), "c".to_string());
    assert_eq!(ctx.get("k"), Some(&strings(&["a", "b", "c"])));
}

#[test]
fn set_creates_a_missing_key() {
    let mut ctx = with_timeout(5);
    ctx.set("fresh".to_string(), strings(&["x", "y"]));
    assert_eq!(ctx.get("fresh"), Some(&strings(&["x", "y"])));
}

#[test]
fn set_to_an_empty_list_keeps_the_key() {
    let mut ctx = with_timeout(5);
    ctx.add("k".to_string(), "v".to_string());
    ctx.set("k".to_string(), Vec::new());
    assert_eq!(ctx.get("k"), Some(&Vec::new()));
}

#[test]
fn unknown_key_has_no_values() {
    let mut ctx = with_timeout(0);
    assert_eq!(ctx.get("k"), None);
    ctx.add("k".to_string(), "v".to_string());
    assert_eq!(ctx.get("other"), None);
    assert_eq!(ctx.get(""), None);
}

#[test]
fn keys_do_not_disturb_each_other() {
    let mut ctx = with_timeout(0);
    ctx.add("a".to_string(), "1".to_string());
    ctx.add("b".to_string(), "2".to_string());
    ctx.add("a".to_string(), "3".to_string());
    ctx.set("c".to_string(), strings(&["4"]));
    ctx.set("b".to_string(), strings(&["5", "6"]));
    assert_eq!(ctx.get("a"), Some(&strings(&["1", "3"])));
    assert_eq!(ctx.get("b"), Some(&strings(&["5", "6"])));
    assert_eq!(ctx.get("c"), Some(&strings(&["4"])));
}

#[test]
fn equal_values_are_all_kept() {
    let mut ctx = with_timeout(0);
    ctx.add("k".to_string(), "v".to_string());
    ctx.add("k".to_string(), "v".to_string());
    assert_eq!(ctx.get("k"), Some(&strings(&["v", "v"])));
}

#[test]
fn with_timeout_starts_without_metadata() {
    let ctx = with_timeout(20 * 1000 * 1000);
    assert_eq!(ctx.timeout_nano(), 20_000_000);
    assert_eq!(ctx.get("key-1"), None);
}

#[test]
fn changing_metadata_keeps_the_timeout() {
    let mut ctx = with_timeout(42);
    ctx.add("k".to_string(), "v".to_string());
    ctx.set("k".to_string(), strings(&["w"]));
    assert_eq!(ctx.timeout_nano(), 42);
}

#[test]
fn a_clone_is_a_copy_of_its_own() {
    let mut ctx = with_timeout(42);
    ctx.add("k".to_string(), "v".to_string());
    let copy = ctx.clone();
    ctx.add("k".to_string(), "w".to_string());
    assert_eq!(copy.get("k"), Some(&strings(&["v"])));
    assert_eq!(ctx.get("k"), Some(&strings(&["v", "w"])));
    assert_eq!(copy.timeout_nano(), 42);
}

#[test]
fn deadline_is_now_plus_timeout() {
    assert_eq!(with_timeout(20_000_000).deadline_at(100), 20_000_100);
    assert_eq!(with_timeout(1).deadline_at(0), 1);
    assert_eq!(with_timeout(1).deadline_at(u64::MAX - 1), u64::MAX);
}

#[test]
fn timeout_zero_means_the_default() {
    assert_eq!(DEFAULT_TIMEOUT_NANOS, 10_000_000_000);
    assert_eq!(with_timeout(0).deadline_at(5), 10_000_000_005);
    assert_eq!(with_timeout(0).timeout_nano(), 0);
}

#[test]
fn deadline_stays_within_the_clock() {
    assert_eq!(with_timeout(1).deadline_at(u64::MAX), u64::MAX);
    assert_eq!(with_timeout(i64::MAX).deadline_at(u64::MAX), u64::MAX);
    assert_eq!(with_timeout(i64::MAX).deadline_at((1 << 63) - 1), u64::MAX - 1);
    assert_eq!(with_timeout(i64::MAX).deadline_at(1 << 63), u64::MAX);
    assert_eq!(with_timeout(i64::MAX).deadline_at((1 << 63) + 1), u64::MAX);
    assert_eq!(with_timeout(0).deadline_at(u64::MAX - 9_999_999_999), u64::MAX);
}

#[test]
fn negative_timeout_has_expired_at_once() {
    assert_eq!(with_timeout(-10).deadline_at(100), 90);
    assert_eq!(with_timeout(-10).deadline_at(10), 0);
    assert_eq!(with_timeout(-10).deadline_at(4), 0);
    assert_eq!(with_timeout(i64::MIN).deadline_at(u64::MAX), (1 << 63) - 1);
    assert_eq!(with_timeout(i64::MIN).deadline_at(1 << 63), 0);
    assert_eq!(with_timeout(i64::MIN).deadline_at(0), 0);
    assert_eq!(with_timeout(-1).deadline_at(1), 0);
}

#[test]
fn default_ctx_holds_its_three_values() {
    let ctx = default_ctx();
    assert_eq!(ctx.timeout_nano(), 0);
    assert_eq!(ctx.get("key-1"), Some(&strings(&["value-1-1", "value-1-2"])));
    assert_eq!(ctx.get("key-2"), Some(&strings(&["value-2"])));
    assert_eq!(ctx.get("key-3"), None);
    assert_eq!(ctx.deadline_at(7), 10_000_000_007);
}
