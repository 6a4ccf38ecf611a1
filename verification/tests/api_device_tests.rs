use virtual_crossover::api::{story, user};
use virtual_crossover::device::{
    AudioDevice, DeviceDirection, device_name_or_default, select_device,
};

#[test]
fn story_builds_listing_url() {
    assert_eq!(story("news?page=1"), "https://node-hnapi.herokuapp.com/news?page=1");
    assert_eq!(story(""), "https://node-hnapi.herokuapp.com/");
}

#[test]
fn user_builds_profile_url() {
    assert_eq!(user("alice"), "https://hacker-news.firebaseio.com/v0/user/alice.json");
}

#[test]
fn select_device_picks_the_first() {
    let devices = vec![
        AudioDevice {
            name: "speakers".to_string(),
            direction: DeviceDirection::Output,
            sample_rate_hz: 48000,
            channels: 2,
        },
        AudioDevice {
            name: "headset".to_string(),
            direction: DeviceDirection::Duplex,
            sample_rate_hz: 44100,
            channels: 2,
        },
    ];
    let chosen = select_device(&devices).unwrap();
    assert_eq!(chosen.name, "speakers");
}

#[test]
fn select_device_yields_nothing_when_empty() {
    assert!(select_device(&Vec::new()).is_none());
}

#[test]
fn device_name_falls_back_when_unreported() {
    assert_eq!(device_name_or_default(Some("usb mic".to_string())), "usb mic");
    assert_eq!(device_name_or_default(None), "Unknown Device");
}

#[test]
fn device_snapshot_duplicates_exactly() {
    let d = AudioDevice {
        name: "mic".to_string(),
        direction: DeviceDirection::Input,
        sample_rate_hz: 44100,
        channels: 1,
    };
    let copy = d.duplicate();
    assert_eq!(copy.name, d.name);
    assert_eq!(copy.sample_rate_hz, d.sample_rate_hz);
    assert_eq!(copy.channels, d.channels);
}
