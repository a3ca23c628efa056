use sexy_claude::toast::{expired_after, fade_progress_ms, Toast, FADE_DURATION_MS, TOAST_DURATION_MS};

#[test]
fn test_toast_new_is_not_expired() {
    let toast = Toast::new("test".to_string());
    assert!(!toast.is_expired());
}

#[test]
fn toast_expiry_threshold() {
    assert!(!expired_after(0));
    assert!(!expired_after(1999));
    assert!(expired_after(2000));
    assert!(expired_after(5000));
    assert_eq!(TOAST_DURATION_MS, 2000);
    assert_eq!(FADE_DURATION_MS, 500);
}

#[test]
fn toast_fade_progress() {
    assert_eq!(fade_progress_ms(0), 0);
    assert_eq!(fade_progress_ms(1500), 0);
    assert_eq!(fade_progress_ms(1501), 1);
    assert_eq!(fade_progress_ms(1750), 250);
    assert_eq!(fade_progress_ms(1999), 499);
    assert_eq!(fade_progress_ms(2000), 500);
    assert_eq!(fade_progress_ms(10_000), 500);
}
