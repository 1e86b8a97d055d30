use voicetype::audio::{pack_samples, pick_device, TARGET_RATE};

fn names(list: &[Option<&str>]) -> Vec<Option<String>> {
    list.iter().map(|n| n.map(|n| n.to_string())).collect()
}

#[test]
fn first_device_that_suits_is_picked() {
    let devices = names(&[
        Some("hw:0"),
        None,
        Some("my pipewire sink"),
        Some("pipewire"),
        Some("USB mic"),
    ]);
    assert_eq!(pick_device(&devices, ""), Some(2));
    assert_eq!(pick_device(&devices, "USB"), Some(4));
    assert_eq!(pick_device(&devices, "hw:0"), Some(0));
    assert_eq!(pick_device(&devices, "usb"), None);
    assert_eq!(pick_device(&names(&[None, Some("hw:0")]), ""), None);
    assert_eq!(pick_device(&[].to_vec(), "x"), None);
}

#[test]
fn samples_are_packed_little_endian() {
    assert_eq!(
        pack_samples(&[0, 1, -1, 0x1234, i16::MAX, i16::MIN]),
        [0, 0, 1, 0, 0xff, 0xff, 0x34, 0x12, 0xff, 0x7f, 0, 0x80]
    );
    for x in i16::MIN..=i16::MAX {
        assert_eq!(pack_samples(&[x]), x.to_le_bytes());
    }
    assert!(pack_samples(&[]).is_empty());
    assert_eq!(TARGET_RATE, 16_000);
}
