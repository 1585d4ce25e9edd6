use love_api::card_layers::{Layer, Probe};
use love_api::occlusion::Rect;

fn layer(image: usize) -> Layer {
    Layer {
        image,
        region: [0, 0, 71.0_f32.to_bits(), 95.0_f32.to_bits()],
        transform: [1; 6],
        effect: 4,
        inputs: [0; 5],
        clip: Rect([0, 0, 640, 480]),
        blend: 0,
    }
}

#[test]
fn pairing_requires_matching_effect_geometry_and_state() {
    let first = layer(1);
    let second = layer(2);
    assert!(second.follows(first));
    assert!(!first.follows(first));
    let mut changed = second;
    changed.transform[3] += 1;
    assert!(!changed.follows(first));
    changed = second;
    changed.inputs[1] += 1;
    assert!(!changed.follows(first));
    changed = second;
    changed.region[2] += 1;
    assert!(!changed.follows(first));
    changed = second;
    changed.effect = 5;
    assert!(!changed.follows(first));
    changed = second;
    changed.clip = Rect([1, 0, 640, 480]);
    assert!(!changed.follows(first));
    changed = second;
    changed.blend = 4;
    assert!(!changed.follows(first));
}

#[test]
fn pairs_do_not_overlap_or_cross_unrelated_draws_and_boundaries() {
    let mut probe = Probe::default();
    let bounds = Some(Rect([0, 0, 71, 95]));
    for image in 1..=4 {
        probe.observe(Some(layer(image)), bounds);
    }
    assert_eq!(probe.pairs(), 2);
    probe.observe(Some(layer(1)), bounds);
    probe.observe(None, bounds);
    probe.observe(Some(layer(2)), bounds);
    probe.boundary();
    probe.observe(Some(layer(3)), bounds);
    assert_eq!(probe.pairs(), 2);
    assert_eq!(probe.pair_bounds(), 71 * 95 * 2);
}

#[test]
fn a_different_region_of_the_same_image_pairs() {
    let first = layer(1);
    let mut second = layer(1);
    second.region[0] = 71.0_f32.to_bits();
    assert!(second.follows(first));
    let mut probe = Probe::default();
    probe.observe(Some(first), None);
    probe.observe(Some(second), None);
    assert_eq!((probe.eligible(), probe.pairs(), probe.pair_bounds()), (2, 1, 0));
}
