use arcstar::detector::{
    arcstar_check_for_point, arcstar_expand, c3_vals_for_point, c4_vals_for_point,
    detect_and_compute_one, find_freshest_in_circle,
};
use arcstar::sae_types::{NormDescriptor, SaeEvent, NORM_DESCRIPTOR_LEN};
use arcstar::surface::SaeMatrix;

fn surface_from(rows: &[Vec<u32>]) -> SaeMatrix {
    let ncols = if rows.is_empty() { 0 } else { rows[0].len() };
    let mut sae = SaeMatrix::zeros(rows.len(), ncols).unwrap();
    for (r, row) in rows.iter().enumerate() {
        for (c, t) in row.iter().enumerate() {
            assert!(sae.set(r, c, *t));
        }
    }
    sae
}

/// A 10 x 11 surface whose cell (r, c) holds 100 r + c.
fn numbered_surface() -> SaeMatrix {
    let rows: Vec<Vec<u32>> = (0..10u32).map(|r| (0..11u32).map(|c| r * 100 + c).collect()).collect();
    surface_from(&rows)
}

fn outside_corner_ne() -> SaeMatrix {
    let mut rows: Vec<Vec<u32>> = vec![
        vec![0, 0, 0, 0, 80, 79, 78, 77, 76],
        vec![0, 0, 0, 0, 85, 84, 83, 82, 81],
        vec![0, 0, 0, 0, 90, 89, 88, 87, 86],
        vec![0, 0, 0, 0, 95, 94, 93, 92, 91],
        vec![0, 0, 0, 0, 100, 99, 98, 97, 96],
    ];
    for _ in 0..4 {
        rows.push(vec![0; 9]);
    }
    surface_from(&rows)
}

fn event_at(row: u16, col: u16) -> SaeEvent {
    SaeEvent { row, col, polarity: 1, timestamp: 77, norm_descriptor: None }
}

#[test]
fn surface_starts_blank_and_keeps_what_is_set() {
    let mut sae = SaeMatrix::zeros(3, 5).unwrap();
    assert_eq!(sae.shape(), (3, 5));
    for r in 0..3 {
        for c in 0..5 {
            assert_eq!(sae.get(r, c), Some(0));
        }
    }
    assert!(sae.set(2, 4, 9));
    assert!(sae.set(0, 1, 7));
    assert_eq!(sae.get(2, 4), Some(9));
    assert_eq!(sae.get(0, 1), Some(7));
    assert_eq!(sae.get(1, 0), Some(0));
    assert_eq!(sae.shape(), (3, 5));
}

#[test]
fn surface_refuses_pixels_off_its_extent() {
    let mut sae = SaeMatrix::zeros(3, 5).unwrap();
    assert_eq!(sae.get(3, 0), None);
    assert_eq!(sae.get(0, 5), None);
    assert!(!sae.set(3, 0, 1));
    assert!(!sae.set(0, 5, 1));
    assert_eq!(sae.get(2, 4), Some(0));
    let empty = SaeMatrix::zeros(0, 4).unwrap();
    assert_eq!(empty.shape(), (0, 4));
    assert_eq!(empty.get(0, 0), None);
}

#[test]
fn surface_too_large_is_not_made() {
    assert!(SaeMatrix::zeros(usize::MAX, 2).is_none());
    assert!(SaeMatrix::zeros(usize::MAX / 4, 2).is_none());
    assert!(SaeMatrix::zeros(1 << (usize::BITS / 2), 1 << (usize::BITS / 2)).is_none());
}

#[test]
fn inner_ring_is_sampled_clockwise_from_the_east() {
    let sae = numbered_surface();
    let ring = c3_vals_for_point(&sae, 5, 4);
    assert_eq!(
        ring.as_slice(),
        &[507, 607, 706, 805, 804, 803, 702, 601, 501, 401, 302, 203, 204, 205, 306, 407]
    );
}

#[test]
fn outer_ring_is_sampled_clockwise_from_the_east() {
    let sae = numbered_surface();
    let ring = c4_vals_for_point(&sae, 5, 6);
    assert_eq!(
        ring.as_slice(),
        &[
            510, 610, 709, 808, 907, 906, 905, 804, 703, 602, 502, 402, 303, 204, 105, 106, 107,
            208, 309, 410
        ]
    );
}

#[test]
fn inner_ring_fits_three_pixels_from_the_edge() {
    let sae = numbered_surface();
    let ring = c3_vals_for_point(&sae, 3, 3);
    assert_eq!(ring.as_slice()[0], 306);
    assert_eq!(ring.as_slice()[8], 300);
    assert_eq!(ring.as_slice()[12], 3);
    assert_eq!(ring.len(), 16);
}

#[test]
fn freshest_is_the_first_of_equal_maxima() {
    assert_eq!(find_freshest_in_circle(&[1, 9, 3, 9, 9]), (1, 9));
    assert_eq!(find_freshest_in_circle(&[4, 4, 4]), (0, 4));
    assert_eq!(find_freshest_in_circle(&[1, 2, 3, 4]), (3, 4));
    assert_eq!(find_freshest_in_circle(&[u32::MAX, 0, u32::MAX]), (0, u32::MAX));
}

#[test]
fn freshest_of_nothing_is_zero() {
    assert_eq!(find_freshest_in_circle(&[]), (0, 0));
    assert_eq!(find_freshest_in_circle(&[0, 0, 0]), (0, 0));
}

#[test]
fn arc_lengths_of_small_rings() {
    assert_eq!(arcstar_expand(&[5, 1, 2, 3, 4, 9, 8, 7], 8, 3, 5), 3);
    assert_eq!(arcstar_expand(&[5, 1, 2, 3, 4, 9, 8, 7], 8, 3, 0), 4);
    assert_eq!(arcstar_expand(&[4, 4, 9, 9, 1, 1, 9, 3], 8, 4, 2), 6);
    assert_eq!(arcstar_expand(&[0, 0, 0, 9, 0, 0, 0, 0], 8, 1, 3), 1);
    let rising: Vec<u32> = (1..=16).collect();
    assert_eq!(arcstar_expand(&rising, 16, 3, 15), 3);
}

#[test]
fn arc_of_a_uniform_ring_is_the_whole_ring() {
    assert_eq!(arcstar_expand(&[7; 16], 16, 3, 0), 16);
    assert_eq!(arcstar_expand(&[7; 16], 16, 3, 9), 16);
    assert_eq!(arcstar_expand(&[0; 20], 20, 4, 0), 20);
}

#[test]
fn arc_length_at_the_limits_of_the_minimum() {
    assert_eq!(arcstar_expand(&[3, 8, 8, 2], 4, 6, 1), 6);
    assert_eq!(arcstar_expand(&[3, 8, 8, 2], 4, 0, 1), 0);
    assert_eq!(arcstar_expand(&[5], 1, 3, 0), 3);
    assert_eq!(arcstar_expand(&[6, 2], 2, 1, 0), 1);
}

#[test]
fn arc_reads_only_the_ring_it_is_given() {
    assert_eq!(arcstar_expand(&[1, 2, 3, 4, 5, 6, 7, 8], 5, 2, 3), 2);
    assert_eq!(arcstar_expand(&[1, 2, 3, 4, 5, 6, 7, 8, 0, 0], 8, 3, 2), 6);
}

#[test]
fn corner_gets_its_descriptor() {
    let sae = outside_corner_ne();
    let evt = event_at(4, 4);
    let found = detect_and_compute_one(&sae, &evt).unwrap();
    assert_eq!(found, evt);
    assert_eq!(found.polarity, 1);
    assert_eq!(found.timestamp, 77);
    let desc = found.norm_descriptor.unwrap();
    assert_eq!(desc.samples.len(), NORM_DESCRIPTOR_LEN);
    assert_eq!(desc.freshest, 97);
    assert_eq!(
        desc.samples,
        [
            97, 0, 0, 0, 0, 0, 0, 0, 0, 0, 0, 0, 85, 84, 88, 92, 96, 0, 0, 0, 0, 0, 0, 0, 0, 0, 0,
            0, 0, 0, 0, 80, 79, 83, 87, 91
        ]
    );
    assert!(evt.norm_descriptor.is_none());
}

#[test]
fn descriptor_values_are_fractions_of_the_freshest() {
    let sae = outside_corner_ne();
    let found = detect_and_compute_one(&sae, &event_at(4, 4)).unwrap();
    let desc = found.norm_descriptor.unwrap();
    assert!(desc.freshest > 0);
    for sample in desc.samples.iter() {
        assert!(*sample <= desc.freshest);
    }
    let first = desc.samples[0] as f32 / desc.freshest as f32;
    assert!((first - 1.0).abs() < 1.0e-6);
}

#[test]
fn detection_repeats_itself() {
    let sae = outside_corner_ne();
    let evt = event_at(4, 4);
    let once = detect_and_compute_one(&sae, &evt).unwrap();
    let twice = detect_and_compute_one(&sae, &evt).unwrap();
    assert_eq!(once, twice);
    assert_eq!(once.norm_descriptor, twice.norm_descriptor);
    let flat = numbered_surface();
    assert!(detect_and_compute_one(&flat, &event_at(0, 0)).is_none());
    assert!(detect_and_compute_one(&flat, &event_at(0, 0)).is_none());
}

#[test]
fn border_pixels_are_never_corners() {
    let sae = numbered_surface();
    for row in 0..12u16 {
        for col in 0..13u16 {
            let inside = (4..6).contains(&row) && (4..7).contains(&col);
            let found = detect_and_compute_one(&sae, &event_at(row, col));
            assert_eq!(found.is_some(), inside, "at ({}, {})", row, col);
        }
    }
}

#[test]
fn surface_smaller_than_the_border_has_no_corner() {
    let rows: Vec<Vec<u32>> = vec![vec![9, 1, 2], vec![3, 9, 4]];
    let sae = surface_from(&rows);
    for row in 0..6u16 {
        for col in 0..6u16 {
            assert!(detect_and_compute_one(&sae, &event_at(row, col)).is_none());
        }
    }
    let none = SaeMatrix::zeros(0, 0).unwrap();
    assert!(detect_and_compute_one(&none, &event_at(0, 0)).is_none());
    let strip = SaeMatrix::zeros(8, 40).unwrap();
    assert!(detect_and_compute_one(&strip, &event_at(4, 20)).is_none());
}

#[test]
fn blank_surface_has_no_corner() {
    let sae = SaeMatrix::zeros(12, 12).unwrap();
    for row in 0..12u16 {
        for col in 0..12u16 {
            assert!(detect_and_compute_one(&sae, &event_at(row, col)).is_none());
        }
    }
}

#[test]
fn rejected_event_keeps_its_descriptor() {
    let sae = SaeMatrix::zeros(9, 9).unwrap();
    let kept = NormDescriptor { samples: [666; NORM_DESCRIPTOR_LEN], freshest: 1 };
    let mut evt = event_at(4, 4);
    evt.norm_descriptor = Some(Box::new(kept));
    assert!(!arcstar_check_for_point(&sae, &mut evt));
    assert_eq!(evt.norm_descriptor, Some(Box::new(kept)));
}

#[test]
fn accepted_event_has_its_descriptor_replaced() {
    let sae = outside_corner_ne();
    let mut evt = event_at(4, 4);
    evt.norm_descriptor =
        Some(Box::new(NormDescriptor { samples: [666; NORM_DESCRIPTOR_LEN], freshest: 1 }));
    assert!(arcstar_check_for_point(&sae, &mut evt));
    let desc = evt.norm_descriptor.unwrap();
    assert_eq!(desc.freshest, 97);
    assert_eq!(desc.samples[0], 97);
    assert_eq!(desc.samples[16], 96);
    assert_eq!(evt.row, 4);
    assert_eq!(evt.col, 4);
}
