//! The projector control service's decisions: which ESC/VP21 command a
//! console request becomes, and what the projector's replies mean.
//!
//! Talking to the serial port is the caller's; what is sent and how an answer
//! is read is decided here.

use crate::text::{contains_seq, contains_text, parse_hex_u8, parse_u32, parsed_hex_u8, parsed_u32, same_text};
use vstd::prelude::*;

verus! {

/// The name of an Epson colour mode, by the code `CMODE?` answers with.
pub open spec fn color_mode_table(code: Seq<char>) -> Option<Seq<char>> {
    if code == "00"@ {
        Some("Auto"@)
    } else if code == "01"@ {
        Some("sRGB"@)
    } else if code == "03"@ {
        Some("Presentation 2"@)
    } else if code == "04"@ {
        Some("Presentation"@)
    } else if code == "05"@ {
        Some("Theatre"@)
    } else if code == "06"@ {
        Some("Dynamic"@)
    } else if code == "07"@ {
        Some("Natural"@)
    } else if code == "08"@ {
        Some("Sports"@)
    } else if code == "09"@ {
        Some("Theatre Black 1"@)
    } else if code == "0A"@ {
        Some("Theatre Black 2"@)
    } else if code == "0C"@ {
        Some("Bright Cinema"@)
    } else if code == "0D"@ {
        Some("Game"@)
    } else if code == "10"@ {
        Some("Custom"@)
    } else if code == "11"@ {
        Some("Blackboard"@)
    } else if code == "12"@ {
        Some("Whiteboard"@)
    } else if code == "14"@ {
        Some("Photo"@)
    } else if code == "15"@ {
        Some("Cinema"@)
    } else {
        None
    }
}

/// The human-readable name of a colour mode code: its name from the table,
/// or `Unknown (code)` for a code the table does not hold.
pub open spec fn color_mode_text(code: Seq<char>) -> Seq<char> {
    match color_mode_table(code) {
        Some(name) => name,
        None => "Unknown ("@ + code + ")"@,
    }
}

/// Map an Epson `CMODE?` hex code to a human-readable name.
pub fn color_mode_name(code: &str) -> (r: String)
    ensures
        r@ == color_mode_text(code@),
{
    let name: &str = if same_text(code, "00") {
        "Auto"
    } else if same_text(code, "01") {
        "sRGB"
    } else if same_text(code, "03") {
        "Presentation 2"
    } else if same_text(code, "04") {
        "Presentation"
    } else if same_text(code, "05") {
        "Theatre"
    } else if same_text(code, "06") {
        "Dynamic"
    } else if same_text(code, "07") {
        "Natural"
    } else if same_text(code, "08") {
        "Sports"
    } else if same_text(code, "09") {
        "Theatre Black 1"
    } else if same_text(code, "0A") {
        "Theatre Black 2"
    } else if same_text(code, "0C") {
        "Bright Cinema"
    } else if same_text(code, "0D") {
        "Game"
    } else if same_text(code, "10") {
        "Custom"
    } else if same_text(code, "11") {
        "Blackboard"
    } else if same_text(code, "12") {
        "Whiteboard"
    } else if same_text(code, "14") {
        "Photo"
    } else if same_text(code, "15") {
        "Cinema"
    } else {
        let mut unknown = String::from_str("Unknown (");
        unknown.append(code);
        unknown.append(")");
        return unknown;
    };
    String::from_str(name)
}

/// What the projector says of its power.
#[derive(Clone, Copy, Debug, PartialEq, Eq, Structural)]
pub enum PowerState {
    Off,
    On,
    WarmingUp,
    CoolingDown,
    Standby,
    Error,
}

/// The power state a `PWR?` answer names; anything unrecognised reads as an
/// error.
pub open spec fn power_table(response: Seq<char>) -> PowerState {
    if response == "00"@ {
        PowerState::Off
    } else if response == "01"@ {
        PowerState::On
    } else if response == "02"@ {
        PowerState::WarmingUp
    } else if response == "03"@ {
        PowerState::CoolingDown
    } else if response == "04"@ {
        PowerState::Standby
    } else {
        PowerState::Error
    }
}

/// Read a `PWR?` answer.
pub fn power_state(response: &str) -> (r: PowerState)
    ensures
        r == power_table(response@),
{
    if same_text(response, "00") {
        PowerState::Off
    } else if same_text(response, "01") {
        PowerState::On
    } else if same_text(response, "02") {
        PowerState::WarmingUp
    } else if same_text(response, "03") {
        PowerState::CoolingDown
    } else if same_text(response, "04") {
        PowerState::Standby
    } else {
        PowerState::Error
    }
}

/// A request from the console.
pub enum ProjectorRequest {
    GetStatus,
    Connect(String),
    Disconnect,
    SetPower(bool),
    SetAvMute(bool),
    SetEcoMode(bool),
}

/// The ESC/VP21 command a setting request is sent as.
pub open spec fn command_text(request: ProjectorRequest) -> Option<Seq<char>> {
    match request {
        ProjectorRequest::SetPower(on) => Some(if on { "PWR ON"@ } else { "PWR OFF"@ }),
        ProjectorRequest::SetAvMute(on) => Some(if on { "MUTE ON"@ } else { "MUTE OFF"@ }),
        ProjectorRequest::SetEcoMode(eco) => Some(
            if eco {
                "LUMINANCE 01"@
            } else {
                "LUMINANCE 00"@
            },
        ),
        _ => None,
    }
}

/// The command a request sends to the projector, for the requests that set
/// something on it; `None` for those the service answers itself.
pub fn set_command(request: &ProjectorRequest) -> (r: Option<&'static str>)
    ensures
        match r {
            Some(c) => command_text(*request) == Some(c@),
            None => command_text(*request) is None,
        },
{
    match request {
        ProjectorRequest::SetPower(on) => Some(if *on { "PWR ON" } else { "PWR OFF" }),
        ProjectorRequest::SetAvMute(on) => Some(if *on { "MUTE ON" } else { "MUTE OFF" }),
        ProjectorRequest::SetEcoMode(eco) => Some(if *eco { "LUMINANCE 01" } else { "LUMINANCE 00" }),
        _ => None,
    }
}

/// The projector's answers to the status queries, each `None` where the
/// query failed.
pub struct StatusReplies {
    pub mute: Option<String>,
    pub luminance: Option<String>,
    pub lamp: Option<String>,
    pub error: Option<String>,
    pub color_mode: Option<String>,
}

/// What the projector reports of itself.
pub struct ProjectorState {
    pub power: PowerState,
    pub av_mute: bool,
    pub eco_mode: bool,
    pub lamp_hours: u32,
    pub color_mode: Option<String>,
    pub error_code: u8,
}

/// Whether a reply is present and says exactly `text`.
pub open spec fn says(reply: Option<String>, text: Seq<char>) -> bool {
    match reply {
        Some(r) => r@ == text,
        None => false,
    }
}

fn reply_says(reply: &Option<String>, text: &str) -> (r: bool)
    ensures
        r == says(*reply, text@),
{
    match reply {
        Some(r) => same_text(r.as_str(), text),
        None => false,
    }
}

/// Read the status replies of a projector in the given power state.
///
/// A projector that is not fully on answers most queries with `ERR`, so only
/// its power is reported then. Otherwise muting is on for `ON`, eco mode for
/// `01`, the lamp hours are the decimal reply (zero if unreadable), the error
/// code is the hexadecimal reply (zero if unreadable), and the colour mode is
/// named from its code.
pub fn status_of(power: PowerState, replies: &StatusReplies) -> (r: ProjectorState)
    ensures
        r.power == power,
        power != PowerState::On ==> !r.av_mute && !r.eco_mode && r.lamp_hours == 0
            && r.color_mode is None && r.error_code == 0,
        power == PowerState::On ==> {
            &&& r.av_mute == says(replies.mute, "ON"@)
            &&& r.eco_mode == says(replies.luminance, "01"@)
            &&& r.lamp_hours == match replies.lamp {
                Some(l) => match parsed_u32(l@) {
                    Some(v) => v,
                    None => 0,
                },
                None => 0,
            }
            &&& r.error_code == match replies.error {
                Some(e) => match parsed_hex_u8(e@) {
                    Some(v) => v,
                    None => 0,
                },
                None => 0,
            }
            &&& match replies.color_mode {
                Some(c) => r.color_mode matches Some(name) && name@ == color_mode_text(c@),
                None => r.color_mode is None,
            }
        },
{
    if power != PowerState::On {
        return ProjectorState {
            power,
            av_mute: false,
            eco_mode: false,
            lamp_hours: 0,
            color_mode: None,
            error_code: 0,
        };
    }
    let av_mute = reply_says(&replies.mute, "ON");
    let eco_mode = reply_says(&replies.luminance, "01");
    let lamp_hours = match &replies.lamp {
        Some(l) => match parse_u32(l.as_str()) {
            Some(v) => v,
            None => 0,
        },
        None => 0,
    };
    let error_code = match &replies.error {
        Some(e) => match parse_hex_u8(e.as_str()) {
            Some(v) => v,
            None => 0,
        },
        None => 0,
    };
    let color_mode = match &replies.color_mode {
        Some(c) => Some(color_mode_name(c.as_str())),
        None => None,
    };
    ProjectorState { power, av_mute, eco_mode, lamp_hours, color_mode, error_code }
}

/// Whether a port name looks like a USB-to-serial adapter.
pub open spec fn usb_serial_name(name: Seq<char>) -> bool {
    contains_seq(name, "usbserial"@) || contains_seq(name, "usbmodem"@) || contains_seq(
        name,
        "ttyUSB"@,
    ) || contains_seq(name, "ttyACM"@)
}

/// Whether a serial port's name looks like a USB-to-serial adapter.
pub fn is_usb_serial_port(name: &str) -> (r: bool)
    ensures
        r == usb_serial_name(name@),
{
    contains_text(name, "usbserial") || contains_text(name, "usbmodem") || contains_text(
        name,
        "ttyUSB",
    ) || contains_text(name, "ttyACM")
}

/// The ports worth offering the console: those whose names look like
/// USB-to-serial adapters, in the order they were found.
pub fn usb_serial_ports(names: Vec<String>) -> (r: Vec<String>)
    ensures
        r@ == names@.filter(|n: String| usb_serial_name(n@)),
{
    let mut out: Vec<String> = Vec::new();
    let mut i: usize = 0;
    while i < names.len()
        invariant
            0 <= i <= names@.len(),
            out@ == names@.subrange(0, i as int).filter(|n: String| usb_serial_name(n@)),
        decreases names@.len() - i,
    {
        let keep = is_usb_serial_port(names[i].as_str());
        proof {
            let pre = names@.subrange(0, i as int);
            assert(names@.subrange(0, i + 1).drop_last() =~= pre);
            reveal_with_fuel(Seq::filter, 1);
        }
        if keep {
            out.push(names[i].clone());
        }
        i = i + 1;
    }
    assert(names@.subrange(0, names@.len() as int) =~= names@);
    out
}

/// What `String::from_utf8` makes of bytes: the text they encode, or the
/// description its error gives of bytes that are not UTF-8.
pub uninterp spec fn utf8_decoding(bytes: Seq<u8>) -> Result<Seq<char>, Seq<char>>;

/// `String::from_utf8`, with its error displayed: named, not described; it
/// depends on the bytes alone.
#[verifier::external_body]
fn decode_utf8(bytes: Vec<u8>) -> (r: Result<String, String>)
    ensures
        match utf8_decoding(bytes@) {
            Ok(text) => r matches Ok(s) && s@ == text,
            Err(why) => r matches Err(e) && e@ == why,
        },
{
    String::from_utf8(bytes).map_err(|e| e.to_string())
}

/// What `str::trim` leaves of a string: it without its leading and trailing
/// whitespace, as Unicode defines whitespace.
pub uninterp spec fn trimmed_text(s: Seq<char>) -> Seq<char>;

/// `str::trim`: named, not described; it depends on the string alone.
#[verifier::external_body]
fn trim_text(s: &str) -> (r: String)
    ensures
        r@ == trimmed_text(s@),
{
    s.trim().to_string()
}

/// Read what the projector answered to `command`: the bytes before its `:`
/// prompt, as UTF-8 text without surrounding whitespace. A bare `ERR` is the
/// projector refusing the command.
pub fn reply_text(command: &str, received: Vec<u8>) -> (r: Result<String, String>)
    ensures
        match utf8_decoding(received@) {
            Err(why) => r matches Err(e) && e@ == why,
            Ok(text) => if trimmed_text(text) == "ERR"@ {
                r matches Err(e) && e@ == "Projector returned ERR for command: "@ + command@
            } else {
                r matches Ok(t) && t@ == trimmed_text(text)
            },
        },
{
    let text = match decode_utf8(received) {
        Ok(t) => t,
        Err(why) => return Err(why),
    };
    let answer = trim_text(text.as_str());
    if same_text(answer.as_str(), "ERR") {
        let mut e = String::from_str("Projector returned ERR for command: ");
        e.append(command);
        Err(e)
    } else {
        Ok(answer)
    }
}

} // verus!
