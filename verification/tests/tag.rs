use photon_walk::tag::{CHANNEL_BOUND, TAG_ALPHA};
use photon_walk::ColorTag;

#[test]
fn random_tag_stays_below_the_channel_bound() {
    let mut rng = rand::thread_rng();
    for _ in 0..2000 {
        let tag = ColorTag::random(&mut rng);
        assert!((tag.r as i32) < CHANNEL_BOUND);
        assert!((tag.g as i32) < CHANNEL_BOUND);
        assert!((tag.b as i32) < CHANNEL_BOUND);
        assert_eq!(tag.a, TAG_ALPHA);
    }
}

#[test]
fn random_tags_are_not_all_alike() {
    let mut rng = rand::thread_rng();
    let first = ColorTag::random(&mut rng);
    let mut differs = false;
    for _ in 0..200 {
        if ColorTag::random(&mut rng) != first {
            differs = true;
        }
    }
    assert!(differs);
}

#[test]
fn tag_from_channels_keeps_each_channel() {
    let tag = ColorTag::from_channels(235, 201, 52);
    assert_eq!(tag, ColorTag { r: 235, g: 201, b: 52, a: 200 });
    let dark = ColorTag::from_channels(0, 0, 0);
    assert_eq!(dark, ColorTag { r: 0, g: 0, b: 0, a: 200 });
    let bright = ColorTag::from_channels(254, 254, 254);
    assert_eq!(bright, ColorTag { r: 254, g: 254, b: 254, a: 200 });
}

#[test]
fn tag_constants() {
    assert_eq!(TAG_ALPHA, 200);
    assert_eq!(CHANNEL_BOUND, 255);
}
