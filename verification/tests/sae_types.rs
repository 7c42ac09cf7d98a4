use arcstar::sae_types::{Likeness, NormDescriptor, SaeEvent, NORM_DESCRIPTOR_LEN};

fn as_ratio(likeness: Likeness) -> f32 {
    likeness.shared as f32 / likeness.total as f32
}

fn event_with(samples: [u32; NORM_DESCRIPTOR_LEN], freshest: u32) -> SaeEvent {
    SaeEvent {
        row: 0,
        col: 0,
        polarity: 0,
        timestamp: 0,
        norm_descriptor: Some(Box::new(NormDescriptor { samples, freshest })),
    }
}

#[test]
fn test_spatial_dist() {
    let mut evt_a: SaeEvent = SaeEvent::new();
    let mut evt_b: SaeEvent = SaeEvent::new();
    let dist2 = evt_a.spatial_dist_2(&evt_b);
    let rl_dist = evt_a.spatial_rl_dist(&evt_b);
    assert_eq!(rl_dist, 0);
    assert_eq!(dist2, 0);

    evt_a.col = 3;
    evt_b.col = 5;

    let dist2 = evt_a.spatial_dist_2(&evt_b);
    let rl_dist = evt_a.spatial_rl_dist(&evt_b);
    assert_eq!(rl_dist, 2);
    assert_eq!(dist2, 4);

    evt_a.row = 3;
    evt_b.row = 5;

    let dist2 = evt_a.spatial_dist_2(&evt_b);
    let rl_dist = evt_a.spatial_rl_dist(&evt_b);
    assert_eq!(rl_dist, 4);
    assert_eq!(dist2, 8);
}

#[test]
fn test_event_likeness() {
    // every value 1.0
    let evt_a = event_with([1; NORM_DESCRIPTOR_LEN], 1);
    let mut evt_b = event_with([1; NORM_DESCRIPTOR_LEN], 1);

    let likeness = as_ratio(evt_a.likeness(&evt_b));
    assert!((likeness - 1.0).abs() < 1.0e-6);

    // every value 0.0
    evt_b.norm_descriptor = Some(Box::new(NormDescriptor {
        samples: [0; NORM_DESCRIPTOR_LEN],
        freshest: 1,
    }));
    let likeness = as_ratio(evt_a.likeness(&evt_b));
    assert!((likeness - 0.0).abs() < 1.0e-6);

    // every value 0.5
    evt_b.norm_descriptor = Some(Box::new(NormDescriptor {
        samples: [1; NORM_DESCRIPTOR_LEN],
        freshest: 2,
    }));
    let likeness = as_ratio(evt_a.likeness(&evt_b));
    assert!((likeness - 0.5).abs() < 1.0e-6);

    evt_b.norm_descriptor = None;
    let likeness = as_ratio(evt_a.likeness(&evt_b));
    assert!((likeness - 0.0).abs() < 1.0e-6);
}

#[test]
fn likeness_is_an_exact_fraction() {
    let evt_a = event_with([1; NORM_DESCRIPTOR_LEN], 1);
    let evt_b = event_with([1; NORM_DESCRIPTOR_LEN], 2);
    assert_eq!(evt_a.likeness(&evt_b), Likeness { shared: 36, total: 72 });
    assert_eq!(evt_b.likeness(&evt_a), Likeness { shared: 36, total: 72 });

    let mut samples = [0u32; NORM_DESCRIPTOR_LEN];
    samples[0] = 3;
    samples[35] = 5;
    let evt_c = event_with(samples, 10);
    // against all-ones over 4: min(3*4, 1*10) + min(5*4, 1*10) + 34 * min(0, 10)
    let evt_d = event_with([1; NORM_DESCRIPTOR_LEN], 4);
    assert_eq!(evt_c.likeness(&evt_d), Likeness { shared: 20, total: 360 });
}

#[test]
fn likeness_to_itself_is_one() {
    let mut samples = [7u32; NORM_DESCRIPTOR_LEN];
    samples[4] = 9;
    let evt = event_with(samples, 9);
    let likeness = evt.likeness(&evt);
    assert_eq!(likeness.shared, likeness.total);
    assert!(likeness.total > 0);
}

#[test]
fn likeness_of_equal_values_over_other_denominators_is_one() {
    let evt_a = event_with([2; NORM_DESCRIPTOR_LEN], 4);
    let evt_b = event_with([3; NORM_DESCRIPTOR_LEN], 6);
    let likeness = evt_a.likeness(&evt_b);
    assert_eq!(likeness.shared, likeness.total);
}

#[test]
fn likeness_of_zero_descriptors_is_undefined() {
    let evt_a = event_with([0; NORM_DESCRIPTOR_LEN], 1);
    assert_eq!(evt_a.likeness(&evt_a), Likeness { shared: 0, total: 0 });
}

#[test]
fn likeness_without_descriptor_is_zero() {
    let evt_a = event_with([1; NORM_DESCRIPTOR_LEN], 1);
    let evt_b = SaeEvent::new();
    assert_eq!(evt_a.likeness(&evt_b), Likeness { shared: 0, total: 1 });
    assert_eq!(evt_b.likeness(&evt_a), Likeness { shared: 0, total: 1 });
    assert_eq!(evt_b.likeness(&evt_b), Likeness { shared: 0, total: 1 });
}

#[test]
fn likeness_holds_the_largest_timestamps() {
    let evt = event_with([u32::MAX; NORM_DESCRIPTOR_LEN], u32::MAX);
    let square = (u32::MAX as u128) * (u32::MAX as u128);
    assert_eq!(evt.likeness(&evt), Likeness { shared: 36 * square, total: 36 * square });
}

#[test]
fn new_event_is_the_default() {
    let evt = SaeEvent::new();
    assert_eq!(evt.row, 0);
    assert_eq!(evt.col, 0);
    assert_eq!(evt.polarity, 0);
    assert_eq!(evt.timestamp, 0);
    assert!(evt.norm_descriptor.is_none());
    assert_eq!(evt, SaeEvent::default());
}

#[test]
fn events_compare_without_their_descriptors() {
    let mut evt_a = event_with([1; NORM_DESCRIPTOR_LEN], 1);
    let mut evt_b = SaeEvent::new();
    assert_eq!(evt_a, evt_b);
    evt_b.timestamp = 1;
    assert_ne!(evt_a, evt_b);
    evt_a.timestamp = 1;
    evt_a.polarity = 1;
    assert_ne!(evt_a, evt_b);
    evt_b.polarity = 1;
    evt_b.row = 2;
    assert_ne!(evt_a, evt_b);
    evt_a.row = 2;
    evt_a.col = 3;
    assert_ne!(evt_a, evt_b);
    evt_b.col = 3;
    assert_eq!(evt_a, evt_b);
}

#[test]
fn distances_are_symmetric() {
    let mut evt_a = SaeEvent::new();
    let mut evt_b = SaeEvent::new();
    evt_a.row = 10;
    evt_a.col = 2;
    evt_b.row = 7;
    evt_b.col = 6;
    assert_eq!(evt_a.spatial_dist_2(&evt_b), 25);
    assert_eq!(evt_b.spatial_dist_2(&evt_a), 25);
    assert_eq!(evt_a.spatial_rl_dist(&evt_b), 7);
    assert_eq!(evt_b.spatial_rl_dist(&evt_a), 7);
    assert_eq!(evt_a.spatial_dist_2(&evt_a), 0);
    assert_eq!(evt_a.spatial_rl_dist(&evt_a), 0);
}

#[test]
fn distances_across_the_widest_surface() {
    let mut evt_a = SaeEvent::new();
    let mut evt_b = SaeEvent::new();
    evt_b.row = u16::MAX;
    assert_eq!(evt_a.spatial_dist_2(&evt_b), 4294836225);
    evt_b.col = u16::MAX;
    assert_eq!(evt_a.spatial_rl_dist(&evt_b), 131070);
    evt_a.row = u16::MAX;
    assert_eq!(evt_a.spatial_dist_2(&evt_b), 4294836225);
}
