use tunnelclient::projector::{
    color_mode_name, is_usb_serial_port, power_state, reply_text, set_command, status_of,
    usb_serial_ports,
    PowerState, ProjectorRequest, StatusReplies,
};

#[test]
fn color_mode_known_codes() {
    assert_eq!(color_mode_name("06"), "Dynamic");
    assert_eq!(color_mode_name("04"), "Presentation");
    assert_eq!(color_mode_name("01"), "sRGB");
}

#[test]
fn color_mode_unknown_code() {
    assert_eq!(color_mode_name("FF"), "Unknown (FF)");
}

#[test]
fn every_listed_color_mode_has_its_name() {
    let table = [
        ("00", "Auto"),
        ("01", "sRGB"),
        ("03", "Presentation 2"),
        ("04", "Presentation"),
        ("05", "Theatre"),
        ("06", "Dynamic"),
        ("07", "Natural"),
        ("08", "Sports"),
        ("09", "Theatre Black 1"),
        ("0A", "Theatre Black 2"),
        ("0C", "Bright Cinema"),
        ("0D", "Game"),
        ("10", "Custom"),
        ("11", "Blackboard"),
        ("12", "Whiteboard"),
        ("14", "Photo"),
        ("15", "Cinema"),
    ];
    for (code, name) in table {
        assert_eq!(color_mode_name(code), name);
    }
    // Codes are matched exactly: case and gaps in the table both count.
    assert_eq!(color_mode_name("0a"), "Unknown (0a)");
    assert_eq!(color_mode_name("02"), "Unknown (02)");
    assert_eq!(color_mode_name(""), "Unknown ()");
}

#[test]
fn power_answers_read_as_states() {
    assert_eq!(power_state("00"), PowerState::Off);
    assert_eq!(power_state("01"), PowerState::On);
    assert_eq!(power_state("02"), PowerState::WarmingUp);
    assert_eq!(power_state("03"), PowerState::CoolingDown);
    assert_eq!(power_state("04"), PowerState::Standby);
    assert_eq!(power_state("05"), PowerState::Error);
    assert_eq!(power_state("9"), PowerState::Error);
}

#[test]
fn setting_requests_become_commands() {
    assert_eq!(set_command(&ProjectorRequest::SetPower(true)), Some("PWR ON"));
    assert_eq!(set_command(&ProjectorRequest::SetPower(false)), Some("PWR OFF"));
    assert_eq!(set_command(&ProjectorRequest::SetAvMute(true)), Some("MUTE ON"));
    assert_eq!(set_command(&ProjectorRequest::SetAvMute(false)), Some("MUTE OFF"));
    assert_eq!(set_command(&ProjectorRequest::SetEcoMode(true)), Some("LUMINANCE 01"));
    assert_eq!(set_command(&ProjectorRequest::SetEcoMode(false)), Some("LUMINANCE 00"));
    assert_eq!(set_command(&ProjectorRequest::GetStatus), None);
    assert_eq!(set_command(&ProjectorRequest::Disconnect), None);
    assert_eq!(set_command(&ProjectorRequest::Connect("/dev/ttyUSB0".to_string())), None);
}

fn replies(mute: &str, lum: &str, lamp: &str, err: &str, cmode: &str) -> StatusReplies {
    StatusReplies {
        mute: Some(mute.to_string()),
        luminance: Some(lum.to_string()),
        lamp: Some(lamp.to_string()),
        error: Some(err.to_string()),
        color_mode: Some(cmode.to_string()),
    }
}

#[test]
fn a_projector_that_is_on_reports_every_field() {
    let s = status_of(PowerState::On, &replies("ON", "01", "1234", "1F", "06"));
    assert_eq!(s.power, PowerState::On);
    assert!(s.av_mute);
    assert!(s.eco_mode);
    assert_eq!(s.lamp_hours, 1234);
    assert_eq!(s.error_code, 0x1f);
    assert_eq!(s.color_mode.as_deref(), Some("Dynamic"));

    let s = status_of(PowerState::On, &replies("OFF", "00", "lots", "zz", "FF"));
    assert!(!s.av_mute);
    assert!(!s.eco_mode);
    assert_eq!(s.lamp_hours, 0, "an unreadable lamp count reads as zero");
    assert_eq!(s.error_code, 0, "an unreadable error code reads as zero");
    assert_eq!(s.color_mode.as_deref(), Some("Unknown (FF)"));

    let failed = StatusReplies { mute: None, luminance: None, lamp: None, error: None, color_mode: None };
    let s = status_of(PowerState::On, &failed);
    assert!(!s.av_mute && !s.eco_mode);
    assert_eq!(s.lamp_hours, 0);
    assert_eq!(s.color_mode, None);
}

#[test]
fn a_projector_that_is_not_on_reports_only_its_power() {
    let s = status_of(PowerState::Standby, &replies("ON", "01", "1234", "1F", "06"));
    assert_eq!(s.power, PowerState::Standby);
    assert!(!s.av_mute && !s.eco_mode);
    assert_eq!(s.lamp_hours, 0);
    assert_eq!(s.error_code, 0);
    assert_eq!(s.color_mode, None);
}

#[test]
fn only_usb_adapters_are_offered() {
    assert!(is_usb_serial_port("/dev/tty.usbserial-A10K"));
    assert!(is_usb_serial_port("/dev/cu.usbmodem1101"));
    assert!(is_usb_serial_port("/dev/ttyUSB0"));
    assert!(is_usb_serial_port("/dev/ttyACM1"));
    assert!(!is_usb_serial_port("/dev/ttyS0"));
    assert!(!is_usb_serial_port("/dev/cu.Bluetooth-Incoming-Port"));
    let names = vec![
        "/dev/ttyS0".to_string(),
        "/dev/ttyUSB0".to_string(),
        "/dev/ttyS1".to_string(),
        "/dev/ttyACM0".to_string(),
    ];
    assert_eq!(usb_serial_ports(names), vec!["/dev/ttyUSB0".to_string(), "/dev/ttyACM0".to_string()]);
}

#[test]
fn a_reply_is_the_text_before_the_prompt_without_whitespace() {
    assert_eq!(reply_text("PWR?", b" 01\r\n".to_vec()), Ok("01".to_string()));
    assert_eq!(reply_text("PWR ON", Vec::new()), Ok(String::new()));
    assert_eq!(
        reply_text("PWR ON", b"\rERR\r\n".to_vec()),
        Err("Projector returned ERR for command: PWR ON".to_string())
    );
    assert_eq!(reply_text("LAMP?", b"ERROR".to_vec()), Ok("ERROR".to_string()));
    let e = reply_text("LAMP?", vec![0xff, 0x30]).unwrap_err();
    assert!(e.starts_with("invalid utf-8"), "{e}");
}
