use newt::swapchain::{AcquireOutcome, PresentOutcome, RecreateOutcome, SwapchainStatus};

#[test]
fn fresh_swapchain_is_not_rebuilt_unless_forced() {
    let mut status = SwapchainStatus::new();
    assert!(!status.begin_frame(false));
    assert!(status.begin_frame(true));
}

#[test]
fn rebuild_is_retried_while_dimensions_are_unsupported() {
    let mut status = SwapchainStatus::new();
    assert!(status.begin_frame(true));
    assert!(status.recreated(RecreateOutcome::UnsupportedDimensions));
    assert!(status.recreated(RecreateOutcome::UnsupportedDimensions));
    assert!(!status.recreated(RecreateOutcome::Recreated));
    assert!(!status.begin_frame(false));
}

#[test]
fn out_of_date_acquire_drops_the_frame_and_rebuilds_next() {
    let mut status = SwapchainStatus::new();
    assert_eq!(status.acquired(AcquireOutcome::Acquired(2)), Some(2));
    assert!(!status.recreate_swapchain);
    assert_eq!(status.acquired(AcquireOutcome::OutOfDate), None);
    assert!(status.begin_frame(false));
}

#[test]
fn out_of_date_present_rebuilds_next_frame() {
    let mut status = SwapchainStatus::new();
    status.presented(PresentOutcome::Presented);
    assert!(!status.begin_frame(false));
    status.presented(PresentOutcome::OutOfDate);
    assert!(status.begin_frame(false));
}
