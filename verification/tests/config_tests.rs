use apkparse::config::parse_resource_table_config;
use apkparse::config_qualifiers::{
    Density, Keyboard, KeysHidden, LayoutDirection, Navigation, Orientation, ScreenSize,
    SdkVersion, Touchscreen, UiMode, MCC, MNC,
};

fn config_record() -> Vec<u8> {
    let mut rec = vec![0u8; 52];
    rec[0] = 52; // size
    rec
}

#[test]
fn configuration_name_for_language_region_density_and_sdk() {
    let mut rec = config_record();
    // language 'de', big-endian
    rec[8] = 0x64;
    rec[9] = 0x65;
    // region 'AT', big-endian
    rec[10] = 0x41;
    rec[11] = 0x54;
    // density 240, little-endian
    rec[14] = 240;
    rec[15] = 0;
    // sdk version 21
    rec[24] = 21;
    let config = parse_resource_table_config(&rec, 0).unwrap();
    assert_eq!(config.to_configuration_name().unwrap(), "de-rAT-hdpi-v21");
}

#[test]
fn default_configuration_has_no_name() {
    let rec = config_record();
    let config = parse_resource_table_config(&rec, 0).unwrap();
    assert!(config.to_configuration_name().is_none());
    assert!(config.screen_width().is_none());
    assert!(config.screen_height().is_none());
    assert!(config.minor_version().is_none());
}

#[test]
fn many_qualifiers_in_canonical_order() {
    let mut rec = config_record();
    // mcc 310, mnc 260
    rec[4..6].copy_from_slice(&310u16.to_le_bytes());
    rec[6..8].copy_from_slice(&260u16.to_le_bytes());
    rec[12] = 2; // landscape
    rec[13] = 3; // finger
    rec[14..16].copy_from_slice(&480u16.to_le_bytes()); // xxhdpi
    rec[16] = 2; // qwerty
    rec[17] = 2; // dpad
    rec[18] = 0b0000_0110; // keys hidden = 2 (keyshidden), nav hidden = 1 (navhidden... bits 2-3 = 01)
    rec[24..26].copy_from_slice(&19u16.to_le_bytes());
    rec[28] = 0b0101_0010; // size=2 normal, long bits=01 notlong, direction=01 ldltr
    rec[29] = 0b0001_0011; // ui mode car, night bits 01 notnight
    rec[30..32].copy_from_slice(&320u16.to_le_bytes()); // sw320dp
    rec[32..34].copy_from_slice(&480u16.to_le_bytes()); // w480dp
    rec[34..36].copy_from_slice(&640u16.to_le_bytes()); // h640dp
    rec[48] = 0b0000_0010; // round
    rec[49] = 0b0000_0110; // widecg = 2 yes, hdr bits 01 low
    let config = parse_resource_table_config(&rec, 0).unwrap();
    assert_eq!(
        config.to_configuration_name().unwrap(),
        "mcc310-mnc260-ldltr-sw320dp-w480dp-h640dp-normal-notlong-round-widecg-lowdr-land-car-notnight-xxhdpi-finger-keyshidden-qwerty-navhidden-dpad-v19"
    );
}

#[test]
fn unknown_density_is_rejected() {
    let mut rec = config_record();
    rec[14..16].copy_from_slice(&440u16.to_le_bytes());
    assert!(parse_resource_table_config(&rec, 0).is_err());
}

#[test]
fn short_record_is_rejected() {
    let rec = vec![0u8; 40];
    assert!(parse_resource_table_config(&rec, 0).is_err());
}

#[test]
fn qualifier_tokens() {
    assert_eq!(MCC::from(262).to_string().unwrap(), "mcc262");
    assert!(MCC::from(0).to_string().is_none());
    assert_eq!(MNC::from(7).to_string().unwrap(), "mnc7");
    assert_eq!(Orientation::from(1).unwrap().to_string().unwrap(), "port");
    assert_eq!(Touchscreen::from(1).unwrap().to_string().unwrap(), "notouch");
    assert_eq!(Density::from(160).unwrap().to_string().unwrap(), "mdpi");
    assert_eq!(Density::from(213).unwrap().to_string().unwrap(), "tvdpi");
    assert_eq!(Density::from(0xfffe).unwrap().to_string().unwrap(), "anydpi");
    assert_eq!(Density::from(0xffff).unwrap().to_string().unwrap(), "nodpi");
    assert!(Density::from(0).unwrap().to_string().is_none());
    assert_eq!(Keyboard::from(3).unwrap().to_string().unwrap(), "12key");
    assert_eq!(Navigation::from(4).unwrap().to_string().unwrap(), "wheel");
    assert_eq!(KeysHidden::from(3).to_string().unwrap(), "keyssoft");
    assert_eq!(SdkVersion::from(33).to_string().unwrap(), "v33");
    assert_eq!(ScreenSize::from(4).unwrap().to_string().unwrap(), "xlarge");
    assert_eq!(LayoutDirection::from(0x80).unwrap().to_string().unwrap(), "ldlrtl");
    assert_eq!(UiMode::from(6).unwrap().to_string().unwrap(), "watch");
    assert!(UiMode::from(1).unwrap().to_string().is_none());
    assert!(Orientation::from(9).is_none());
}
