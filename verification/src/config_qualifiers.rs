//! Device-configuration qualifiers: each one decodes from its raw field
//! and renders the token that appears in a configuration name.
//!
//! Zero (or the all-"any" bit pattern) means "any" for every qualifier and
//! renders no token.

use vstd::prelude::*;

use crate::strutil::{dec_of, dec_str};

verus! {

/// Relies on `String::push`: appends exactly the one character.
#[verifier::external_body]
fn push_char(s: &mut String, c: char)
    ensures
        final(s)@ == old(s)@.push(c),
{
    s.push(c);
}

/// The two ASCII letters packed big-endian in a language or region field,
/// or `None` for the zero ("any") value and for the three-letter form
/// (high bits set), which is not decoded.
pub open spec fn language_or_region_chars(v: u16) -> Option<Seq<char>> {
    if v == 0 {
        None
    } else if v & 0x8080 == 0 {
        Some(seq![((v as int / 0x100) as u8) as char, ((v as int % 0x100) as u8) as char])
    } else {
        None
    }
}

/// Renders the two packed letters, or `None` as `language_or_region_chars`
/// has it.
pub fn language_or_region_to_string(v: u16) -> (r: Option<String>)
    ensures
        r is Some <==> language_or_region_chars(v) is Some,
        r is Some ==> r->Some_0@ == language_or_region_chars(v)->Some_0,
{
    if v == 0 {
        return None;
    }
    if v & 0x8080 == 0 {
        let hi = (v / 0x100) as u8;
        let lo = (v % 0x100) as u8;
        let mut s = String::new();
        push_char(&mut s, hi as char);
        push_char(&mut s, lo as char);
        proof {
            assert(v & 0x8080 == 0 ==> v / 0x100 < 0x100) by (bit_vector);
            assert(s@ =~= language_or_region_chars(v)->Some_0);
        }
        Some(s)
    } else {
        None
    }
}

/// Mobile country code; zero means "any".
#[derive(Debug, Clone, Copy, PartialEq, Eq, Structural)]
pub enum MCC {
    Any,
    Value(u16),
}

impl MCC {
    pub open spec fn spec_from(v: u16) -> MCC {
        if v != 0 {
            MCC::Value(v)
        } else {
            MCC::Any
        }
    }

    pub fn from(v: u16) -> (r: MCC)
        ensures
            r == MCC::spec_from(v),
    {
        if v != 0 {
            MCC::Value(v)
        } else {
            MCC::Any
        }
    }

    pub open spec fn token(self) -> Option<Seq<char>> {
        match self {
            MCC::Any => None,
            MCC::Value(v) => Some("mcc"@ + dec_of(v as int)),
        }
    }

    pub fn to_string(&self) -> (r: Option<String>)
        ensures
            r is Some <==> self.token() is Some,
            r is Some ==> r->Some_0@ == self.token()->Some_0,
    {
        match self {
            MCC::Any => None,
            MCC::Value(v) => {
                let mut s = String::from_str("mcc");
                s.append(dec_str(*v as u32).as_str());
                Some(s)
            },
        }
    }
}

/// Mobile network code; zero means "any".
#[derive(Debug, Clone, Copy, PartialEq, Eq, Structural)]
pub enum MNC {
    Any,
    Value(u16),
}

impl MNC {
    pub open spec fn spec_from(v: u16) -> MNC {
        if v != 0 {
            MNC::Value(v)
        } else {
            MNC::Any
        }
    }

    pub fn from(v: u16) -> (r: MNC)
        ensures
            r == MNC::spec_from(v),
    {
        if v != 0 {
            MNC::Value(v)
        } else {
            MNC::Any
        }
    }

    pub open spec fn token(self) -> Option<Seq<char>> {
        match self {
            MNC::Any => None,
            MNC::Value(v) => Some("mnc"@ + dec_of(v as int)),
        }
    }

    pub fn to_string(&self) -> (r: Option<String>)
        ensures
            r is Some <==> self.token() is Some,
            r is Some ==> r->Some_0@ == self.token()->Some_0,
    {
        match self {
            MNC::Any => None,
            MNC::Value(v) => {
                let mut s = String::from_str("mnc");
                s.append(dec_str(*v as u32).as_str());
                Some(s)
            },
        }
    }
}

/// Language, packed as two big-endian bytes; zero means "any".
#[derive(Debug, Clone, Copy, PartialEq, Eq, Structural)]
pub enum Language {
    Any,
    Value(u16),
}

impl Language {
    pub open spec fn spec_from(v: u16) -> Language {
        if v != 0 {
            Language::Value(v)
        } else {
            Language::Any
        }
    }

    pub fn from(v: u16) -> (r: Language)
        ensures
            r == Language::spec_from(v),
    {
        if v != 0 {
            Language::Value(v)
        } else {
            Language::Any
        }
    }

    pub open spec fn token(self) -> Option<Seq<char>> {
        match self {
            Language::Any => None,
            Language::Value(v) => language_or_region_chars(v),
        }
    }

    pub fn to_string(&self) -> (r: Option<String>)
        ensures
            r is Some <==> self.token() is Some,
            r is Some ==> r->Some_0@ == self.token()->Some_0,
    {
        match self {
            Language::Any => None,
            Language::Value(v) => language_or_region_to_string(*v),
        }
    }
}

/// Region, packed as two big-endian bytes; zero means "any".  Its token
/// carries an `r` prefix.
#[derive(Debug, Clone, Copy, PartialEq, Eq, Structural)]
pub enum Region {
    Any,
    Value(u16),
}

impl Region {
    pub open spec fn spec_from(v: u16) -> Region {
        if v != 0 {
            Region::Value(v)
        } else {
            Region::Any
        }
    }

    pub fn from(v: u16) -> (r: Region)
        ensures
            r == Region::spec_from(v),
    {
        if v != 0 {
            Region::Value(v)
        } else {
            Region::Any
        }
    }

    pub open spec fn token(self) -> Option<Seq<char>> {
        match self {
            Region::Any => None,
            Region::Value(v) => match language_or_region_chars(v) {
                Some(cs) => Some("r"@ + cs),
                None => None,
            },
        }
    }

    pub fn to_string(&self) -> (r: Option<String>)
        ensures
            r is Some <==> self.token() is Some,
            r is Some ==> r->Some_0@ == self.token()->Some_0,
    {
        match self {
            Region::Any => None,
            Region::Value(v) => match language_or_region_to_string(*v) {
                Some(inner) => {
                    let mut s = String::from_str("r");
                    s.append(inner.as_str());
                    Some(s)
                },
                None => None,
            },
        }
    }
}

#[derive(Debug, Clone, Copy, PartialEq, Eq, Structural)]
pub enum Orientation {
    Any,
    Portrait,
    Landscape,
    Square,
}

impl Orientation {
    pub open spec fn spec_from(v: u8) -> Option<Orientation> {
        if v == 0 {
            Some(Orientation::Any)
        } else if v == 1 {
            Some(Orientation::Portrait)
        } else if v == 2 {
            Some(Orientation::Landscape)
        } else if v == 3 {
            Some(Orientation::Square)
        } else {
            None
        }
    }

    pub fn from(v: u8) -> (r: Option<Orientation>)
        ensures
            r == Orientation::spec_from(v),
    {
        match v {
            0 => Some(Orientation::Any),
            1 => Some(Orientation::Portrait),
            2 => Some(Orientation::Landscape),
            3 => Some(Orientation::Square),
            _ => None,
        }
    }

    pub open spec fn token(self) -> Option<Seq<char>> {
        match self {
            Orientation::Any => None,
            Orientation::Portrait => Some("port"@),
            Orientation::Landscape => Some("land"@),
            Orientation::Square => Some("square"@),
        }
    }

    pub fn to_string(&self) -> (r: Option<String>)
        ensures
            r is Some <==> self.token() is Some,
            r is Some ==> r->Some_0@ == self.token()->Some_0,
    {
        match self {
            Orientation::Any => None,
            Orientation::Portrait => Some(String::from_str("port")),
            Orientation::Landscape => Some(String::from_str("land")),
            Orientation::Square => Some(String::from_str("square")),
        }
    }
}

#[derive(Debug, Clone, Copy, PartialEq, Eq, Structural)]
pub enum Touchscreen {
    Any,
    NoTouch,
    Stylus,
    Finger,
}

impl Touchscreen {
    pub open spec fn spec_from(v: u8) -> Option<Touchscreen> {
        if v == 0 {
            Some(Touchscreen::Any)
        } else if v == 1 {
            Some(Touchscreen::NoTouch)
        } else if v == 2 {
            Some(Touchscreen::Stylus)
        } else if v == 3 {
            Some(Touchscreen::Finger)
        } else {
            None
        }
    }

    pub fn from(v: u8) -> (r: Option<Touchscreen>)
        ensures
            r == Touchscreen::spec_from(v),
    {
        match v {
            0 => Some(Touchscreen::Any),
            1 => Some(Touchscreen::NoTouch),
            2 => Some(Touchscreen::Stylus),
            3 => Some(Touchscreen::Finger),
            _ => None,
        }
    }

    pub open spec fn token(self) -> Option<Seq<char>> {
        match self {
            Touchscreen::Any => None,
            Touchscreen::NoTouch => Some("notouch"@),
            Touchscreen::Stylus => Some("stylus"@),
            Touchscreen::Finger => Some("finger"@),
        }
    }

    pub fn to_string(&self) -> (r: Option<String>)
        ensures
            r is Some <==> self.token() is Some,
            r is Some ==> r->Some_0@ == self.token()->Some_0,
    {
        match self {
            Touchscreen::Any => None,
            Touchscreen::NoTouch => Some(String::from_str("notouch")),
            Touchscreen::Stylus => Some(String::from_str("stylus")),
            Touchscreen::Finger => Some(String::from_str("finger")),
        }
    }
}

#[derive(Debug, Clone, Copy, PartialEq, Eq, Structural)]
pub enum Density {
    Default,
    Low,
    Medium,
    TV,
    High,
    XHigh,
    XXHigh,
    XXXHigh,
    Any,
    NoDpi,
}

impl Density {
    pub open spec fn spec_from(v: u16) -> Option<Density> {
        if v == 0 {
            Some(Density::Default)
        } else if v == 120 {
            Some(Density::Low)
        } else if v == 160 {
            Some(Density::Medium)
        } else if v == 213 {
            Some(Density::TV)
        } else if v == 240 {
            Some(Density::High)
        } else if v == 320 {
            Some(Density::XHigh)
        } else if v == 480 {
            Some(Density::XXHigh)
        } else if v == 640 {
            Some(Density::XXXHigh)
        } else if v == 0xfffe {
            Some(Density::Any)
        } else if v == 0xffff {
            Some(Density::NoDpi)
        } else {
            Option::None
        }
    }

    pub fn from(v: u16) -> (r: Option<Density>)
        ensures
            r == Density::spec_from(v),
    {
        match v {
            0 => Some(Density::Default),
            120 => Some(Density::Low),
            160 => Some(Density::Medium),
            213 => Some(Density::TV),
            240 => Some(Density::High),
            320 => Some(Density::XHigh),
            480 => Some(Density::XXHigh),
            640 => Some(Density::XXXHigh),
            0xfffe => Some(Density::Any),
            0xffff => Some(Density::NoDpi),
            _ => Option::None,
        }
    }

    pub open spec fn token(self) -> Option<Seq<char>> {
        match self {
            Density::Low => Some("ldpi"@),
            Density::Medium => Some("mdpi"@),
            Density::High => Some("hdpi"@),
            Density::XHigh => Some("xhdpi"@),
            Density::XXHigh => Some("xxhdpi"@),
            Density::XXXHigh => Some("xxxhdpi"@),
            Density::TV => Some("tvdpi"@),
            Density::NoDpi => Some("nodpi"@),
            Density::Any => Some("anydpi"@),
            Density::Default => Option::None,
        }
    }

    pub fn to_string(&self) -> (r: Option<String>)
        ensures
            r is Some <==> self.token() is Some,
            r is Some ==> r->Some_0@ == self.token()->Some_0,
    {
        match self {
            Density::Low => Some(String::from_str("ldpi")),
            Density::Medium => Some(String::from_str("mdpi")),
            Density::High => Some(String::from_str("hdpi")),
            Density::XHigh => Some(String::from_str("xhdpi")),
            Density::XXHigh => Some(String::from_str("xxhdpi")),
            Density::XXXHigh => Some(String::from_str("xxxhdpi")),
            Density::TV => Some(String::from_str("tvdpi")),
            Density::NoDpi => Some(String::from_str("nodpi")),
            Density::Any => Some(String::from_str("anydpi")),
            Density::Default => Option::None,
        }
    }
}

#[derive(Debug, Clone, Copy, PartialEq, Eq, Structural)]
pub enum Keyboard {
    Any,
    NoKeys,
    QWERTY,
    TwelveKey,
}

impl Keyboard {
    pub open spec fn spec_from(v: u8) -> Option<Keyboard> {
        if v == 0 {
            Some(Keyboard::Any)
        } else if v == 1 {
            Some(Keyboard::NoKeys)
        } else if v == 2 {
            Some(Keyboard::QWERTY)
        } else if v == 3 {
            Some(Keyboard::TwelveKey)
        } else {
            None
        }
    }

    pub fn from(v: u8) -> (r: Option<Keyboard>)
        ensures
            r == Keyboard::spec_from(v),
    {
        match v {
            0 => Some(Keyboard::Any),
            1 => Some(Keyboard::NoKeys),
            2 => Some(Keyboard::QWERTY),
            3 => Some(Keyboard::TwelveKey),
            _ => None,
        }
    }

    pub open spec fn token(self) -> Option<Seq<char>> {
        match self {
            Keyboard::Any => None,
            Keyboard::NoKeys => Some("nokeys"@),
            Keyboard::QWERTY => Some("qwerty"@),
            Keyboard::TwelveKey => Some("12key"@),
        }
    }

    pub fn to_string(&self) -> (r: Option<String>)
        ensures
            r is Some <==> self.token() is Some,
            r is Some ==> r->Some_0@ == self.token()->Some_0,
    {
        match self {
            Keyboard::Any => None,
            Keyboard::NoKeys => Some(String::from_str("nokeys")),
            Keyboard::QWERTY => Some(String::from_str("qwerty")),
            Keyboard::TwelveKey => Some(String::from_str("12key")),
        }
    }
}

#[derive(Debug, Clone, Copy, PartialEq, Eq, Structural)]
pub enum Navigation {
    Any,
    NoNav,
    DPad,
    Trackball,
    Wheel,
}

impl Navigation {
    pub open spec fn spec_from(v: u8) -> Option<Navigation> {
        if v == 0 {
            Some(Navigation::Any)
        } else if v == 1 {
            Some(Navigation::NoNav)
        } else if v == 2 {
            Some(Navigation::DPad)
        } else if v == 3 {
            Some(Navigation::Trackball)
        } else if v == 4 {
            Some(Navigation::Wheel)
        } else {
            None
        }
    }

    pub fn from(v: u8) -> (r: Option<Navigation>)
        ensures
            r == Navigation::spec_from(v),
    {
        match v {
            0 => Some(Navigation::Any),
            1 => Some(Navigation::NoNav),
            2 => Some(Navigation::DPad),
            3 => Some(Navigation::Trackball),
            4 => Some(Navigation::Wheel),
            _ => None,
        }
    }

    pub open spec fn token(self) -> Option<Seq<char>> {
        match self {
            Navigation::Any => None,
            Navigation::NoNav => Some("nonav"@),
            Navigation::DPad => Some("dpad"@),
            Navigation::Trackball => Some("trackball"@),
            Navigation::Wheel => Some("wheel"@),
        }
    }

    pub fn to_string(&self) -> (r: Option<String>)
        ensures
            r is Some <==> self.token() is Some,
            r is Some ==> r->Some_0@ == self.token()->Some_0,
    {
        match self {
            Navigation::Any => None,
            Navigation::NoNav => Some(String::from_str("nonav")),
            Navigation::DPad => Some(String::from_str("dpad")),
            Navigation::Trackball => Some(String::from_str("trackball")),
            Navigation::Wheel => Some(String::from_str("wheel")),
        }
    }
}

/// Keys-hidden state, from bits 0-1 of the input flags.
#[derive(Debug, Clone, Copy, PartialEq, Eq, Structural)]
pub enum KeysHidden {
    Any,
    No,
    Yes,
    Soft,
}

impl KeysHidden {
    pub open spec fn spec_from(input_flags: u8) -> KeysHidden {
        let v = input_flags & 0x03;
        if v == 0 {
            KeysHidden::Any
        } else if v == 1 {
            KeysHidden::No
        } else if v == 2 {
            KeysHidden::Yes
        } else {
            KeysHidden::Soft
        }
    }

    pub fn from(input_flags: u8) -> (r: KeysHidden)
        ensures
            r == KeysHidden::spec_from(input_flags),
    {
        proof {
            assert(input_flags & 0x03 < 4) by (bit_vector);
        }
        match input_flags & 0x03 {
            0 => KeysHidden::Any,
            1 => KeysHidden::No,
            2 => KeysHidden::Yes,
            _ => KeysHidden::Soft,
        }
    }

    pub open spec fn token(self) -> Option<Seq<char>> {
        match self {
            KeysHidden::Any => None,
            KeysHidden::No => Some("keysexposed"@),
            KeysHidden::Yes => Some("keyshidden"@),
            KeysHidden::Soft => Some("keyssoft"@),
        }
    }

    pub fn to_string(&self) -> (r: Option<String>)
        ensures
            r is Some <==> self.token() is Some,
            r is Some ==> r->Some_0@ == self.token()->Some_0,
    {
        match self {
            KeysHidden::Any => None,
            KeysHidden::No => Some(String::from_str("keysexposed")),
            KeysHidden::Yes => Some(String::from_str("keyshidden")),
            KeysHidden::Soft => Some(String::from_str("keyssoft")),
        }
    }
}

/// Raw screen width in pixels; zero means "any".
#[derive(Debug, Clone, Copy, PartialEq, Eq, Structural)]
pub enum ScreenWidth {
    Any,
    Value(u16),
}

/// Raw screen height in pixels; zero means "any".
#[derive(Debug, Clone, Copy, PartialEq, Eq, Structural)]
pub enum ScreenHeight {
    Any,
    Value(u16),
}

/// Platform SDK version; zero means "any".
#[derive(Debug, Clone, Copy, PartialEq, Eq, Structural)]
pub enum SdkVersion {
    Any,
    Value(u16),
}

impl SdkVersion {
    pub open spec fn spec_from(v: u16) -> SdkVersion {
        if v != 0 {
            SdkVersion::Value(v)
        } else {
            SdkVersion::Any
        }
    }

    pub fn from(v: u16) -> (r: SdkVersion)
        ensures
            r == SdkVersion::spec_from(v),
    {
        if v != 0 {
            SdkVersion::Value(v)
        } else {
            SdkVersion::Any
        }
    }

    pub open spec fn token(self) -> Option<Seq<char>> {
        match self {
            SdkVersion::Any => None,
            SdkVersion::Value(v) => Some("v"@ + dec_of(v as int)),
        }
    }

    pub fn to_string(&self) -> (r: Option<String>)
        ensures
            r is Some <==> self.token() is Some,
            r is Some ==> r->Some_0@ == self.token()->Some_0,
    {
        match self {
            SdkVersion::Any => None,
            SdkVersion::Value(v) => {
                let mut s = String::from_str("v");
                s.append(dec_str(*v as u32).as_str());
                Some(s)
            },
        }
    }
}

/// Minor platform version; renders no token.
#[derive(Debug, Clone, Copy, PartialEq, Eq, Structural)]
pub enum MinorVersion {
    Any,
    Value(u16),
}

impl MinorVersion {
    pub open spec fn spec_from(v: u16) -> MinorVersion {
        if v != 0 {
            MinorVersion::Value(v)
        } else {
            MinorVersion::Any
        }
    }

    pub fn from(v: u16) -> (r: MinorVersion)
        ensures
            r == MinorVersion::spec_from(v),
    {
        if v != 0 {
            MinorVersion::Value(v)
        } else {
            MinorVersion::Any
        }
    }
}

/// Screen-size bucket, from bits 0-3 of the screen layout byte.
#[derive(Debug, Clone, Copy, PartialEq, Eq, Structural)]
pub enum ScreenSize {
    Any,
    Small,
    Normal,
    Large,
    XLarge,
}

impl ScreenSize {
    pub open spec fn spec_from(screen_layout: u8) -> Option<ScreenSize> {
        let v = screen_layout & 0x0f;
        if v == 0 {
            Some(ScreenSize::Any)
        } else if v == 1 {
            Some(ScreenSize::Small)
        } else if v == 2 {
            Some(ScreenSize::Normal)
        } else if v == 3 {
            Some(ScreenSize::Large)
        } else if v == 4 {
            Some(ScreenSize::XLarge)
        } else {
            None
        }
    }

    pub fn from(screen_layout: u8) -> (r: Option<ScreenSize>)
        ensures
            r == ScreenSize::spec_from(screen_layout),
    {
        match screen_layout & 0x0f {
            0 => Some(ScreenSize::Any),
            1 => Some(ScreenSize::Small),
            2 => Some(ScreenSize::Normal),
            3 => Some(ScreenSize::Large),
            4 => Some(ScreenSize::XLarge),
            _ => None,
        }
    }

    pub open spec fn token(self) -> Option<Seq<char>> {
        match self {
            ScreenSize::Any => None,
            ScreenSize::Small => Some("small"@),
            ScreenSize::Normal => Some("normal"@),
            ScreenSize::Large => Some("large"@),
            ScreenSize::XLarge => Some("xlarge"@),
        }
    }

    pub fn to_string(&self) -> (r: Option<String>)
        ensures
            r is Some <==> self.token() is Some,
            r is Some ==> r->Some_0@ == self.token()->Some_0,
    {
        match self {
            ScreenSize::Any => None,
            ScreenSize::Small => Some(String::from_str("small")),
            ScreenSize::Normal => Some(String::from_str("normal")),
            ScreenSize::Large => Some(String::from_str("large")),
            ScreenSize::XLarge => Some(String::from_str("xlarge")),
        }
    }
}

/// Layout direction, from bits 6-7 of the screen layout byte.
#[derive(Debug, Clone, Copy, PartialEq, Eq, Structural)]
pub enum LayoutDirection {
    Any,
    LeftToRight,
    RightToLeft,
}

impl LayoutDirection {
    pub open spec fn spec_from(screen_layout: u8) -> Option<LayoutDirection> {
        let v = (screen_layout & 0xc0) / 0x40;
        if v == 0 {
            Some(LayoutDirection::Any)
        } else if v == 1 {
            Some(LayoutDirection::LeftToRight)
        } else if v == 2 {
            Some(LayoutDirection::RightToLeft)
        } else {
            None
        }
    }

    pub fn from(screen_layout: u8) -> (r: Option<LayoutDirection>)
        ensures
            r == LayoutDirection::spec_from(screen_layout),
    {
        match (screen_layout & 0xc0) / 0x40 {
            0 => Some(LayoutDirection::Any),
            1 => Some(LayoutDirection::LeftToRight),
            2 => Some(LayoutDirection::RightToLeft),
            _ => None,
        }
    }

    pub open spec fn token(self) -> Option<Seq<char>> {
        match self {
            LayoutDirection::Any => None,
            LayoutDirection::LeftToRight => Some("ldltr"@),
            LayoutDirection::RightToLeft => Some("ldlrtl"@),
        }
    }

    pub fn to_string(&self) -> (r: Option<String>)
        ensures
            r is Some <==> self.token() is Some,
            r is Some ==> r->Some_0@ == self.token()->Some_0,
    {
        match self {
            LayoutDirection::Any => None,
            LayoutDirection::LeftToRight => Some(String::from_str("ldltr")),
            LayoutDirection::RightToLeft => Some(String::from_str("ldlrtl")),
        }
    }
}

/// Interface mode, from bits 0-3 of the UI-mode byte.
#[derive(Debug, Clone, Copy, PartialEq, Eq, Structural)]
pub enum UiMode {
    Any,
    Normal,
    Desk,
    Car,
    Television,
    Appliance,
    Watch,
    VRHeadset,
}

impl UiMode {
    pub open spec fn spec_from(mode: u8) -> Option<UiMode> {
        let v = mode & 0x0f;
        if v == 0 {
            Some(UiMode::Any)
        } else if v == 1 {
            Some(UiMode::Normal)
        } else if v == 2 {
            Some(UiMode::Desk)
        } else if v == 3 {
            Some(UiMode::Car)
        } else if v == 4 {
            Some(UiMode::Television)
        } else if v == 5 {
            Some(UiMode::Appliance)
        } else if v == 6 {
            Some(UiMode::Watch)
        } else if v == 7 {
            Some(UiMode::VRHeadset)
        } else {
            None
        }
    }

    pub fn from(mode: u8) -> (r: Option<UiMode>)
        ensures
            r == UiMode::spec_from(mode),
    {
        match mode & 0x0f {
            0 => Some(UiMode::Any),
            1 => Some(UiMode::Normal),
            2 => Some(UiMode::Desk),
            3 => Some(UiMode::Car),
            4 => Some(UiMode::Television),
            5 => Some(UiMode::Appliance),
            6 => Some(UiMode::Watch),
            7 => Some(UiMode::VRHeadset),
            _ => None,
        }
    }

    pub open spec fn token(self) -> Option<Seq<char>> {
        match self {
            UiMode::Desk => Some("desk"@),
            UiMode::Car => Some("car"@),
            UiMode::Television => Some("television"@),
            UiMode::Appliance => Some("appliance"@),
            UiMode::Watch => Some("watch"@),
            UiMode::VRHeadset => Some("vrheadset"@),
            _ => None,
        }
    }

    pub fn to_string(&self) -> (r: Option<String>)
        ensures
            r is Some <==> self.token() is Some,
            r is Some ==> r->Some_0@ == self.token()->Some_0,
    {
        match self {
            UiMode::Desk => Some(String::from_str("desk")),
            UiMode::Car => Some(String::from_str("car")),
            UiMode::Television => Some(String::from_str("television")),
            UiMode::Appliance => Some(String::from_str("appliance")),
            UiMode::Watch => Some(String::from_str("watch")),
            UiMode::VRHeadset => Some(String::from_str("vrheadset")),
            _ => None,
        }
    }
}

/// Available width in density-independent pixels; zero means "any".
#[derive(Debug, Clone, Copy, PartialEq, Eq, Structural)]
pub enum ScreenWidthDp {
    Any,
    Value(u16),
}

impl ScreenWidthDp {
    pub open spec fn spec_from(v: u16) -> ScreenWidthDp {
        if v != 0 {
            ScreenWidthDp::Value(v)
        } else {
            ScreenWidthDp::Any
        }
    }

    pub fn from(v: u16) -> (r: ScreenWidthDp)
        ensures
            r == ScreenWidthDp::spec_from(v),
    {
        if v != 0 {
            ScreenWidthDp::Value(v)
        } else {
            ScreenWidthDp::Any
        }
    }

    pub open spec fn token(self) -> Option<Seq<char>> {
        match self {
            ScreenWidthDp::Any => None,
            ScreenWidthDp::Value(v) => Some("w"@ + dec_of(v as int) + "dp"@),
        }
    }

    pub fn to_string(&self) -> (r: Option<String>)
        ensures
            r is Some <==> self.token() is Some,
            r is Some ==> r->Some_0@ == self.token()->Some_0,
    {
        match self {
            ScreenWidthDp::Any => None,
            ScreenWidthDp::Value(v) => {
                let mut s = String::from_str("w");
                s.append(dec_str(*v as u32).as_str());
                s.append("dp");
                Some(s)
            },
        }
    }
}

/// Available height in density-independent pixels; zero means "any".
#[derive(Debug, Clone, Copy, PartialEq, Eq, Structural)]
pub enum ScreenHeightDp {
    Any,
    Value(u16),
}

impl ScreenHeightDp {
    pub open spec fn spec_from(v: u16) -> ScreenHeightDp {
        if v != 0 {
            ScreenHeightDp::Value(v)
        } else {
            ScreenHeightDp::Any
        }
    }

    pub fn from(v: u16) -> (r: ScreenHeightDp)
        ensures
            r == ScreenHeightDp::spec_from(v),
    {
        if v != 0 {
            ScreenHeightDp::Value(v)
        } else {
            ScreenHeightDp::Any
        }
    }

    pub open spec fn token(self) -> Option<Seq<char>> {
        match self {
            ScreenHeightDp::Any => None,
            ScreenHeightDp::Value(v) => Some("h"@ + dec_of(v as int) + "dp"@),
        }
    }

    pub fn to_string(&self) -> (r: Option<String>)
        ensures
            r is Some <==> self.token() is Some,
            r is Some ==> r->Some_0@ == self.token()->Some_0,
    {
        match self {
            ScreenHeightDp::Any => None,
            ScreenHeightDp::Value(v) => {
                let mut s = String::from_str("h");
                s.append(dec_str(*v as u32).as_str());
                s.append("dp");
                Some(s)
            },
        }
    }
}

/// Smallest width in density-independent pixels; zero means "any".
#[derive(Debug, Clone, Copy, PartialEq, Eq, Structural)]
pub enum SmallestWidthDp {
    Any,
    Value(u16),
}

impl SmallestWidthDp {
    pub open spec fn spec_from(v: u16) -> SmallestWidthDp {
        if v != 0 {
            SmallestWidthDp::Value(v)
        } else {
            SmallestWidthDp::Any
        }
    }

    pub fn from(v: u16) -> (r: SmallestWidthDp)
        ensures
            r == SmallestWidthDp::spec_from(v),
    {
        if v != 0 {
            SmallestWidthDp::Value(v)
        } else {
            SmallestWidthDp::Any
        }
    }

    pub open spec fn token(self) -> Option<Seq<char>> {
        match self {
            SmallestWidthDp::Any => None,
            SmallestWidthDp::Value(v) => Some("sw"@ + dec_of(v as int) + "dp"@),
        }
    }

    pub fn to_string(&self) -> (r: Option<String>)
        ensures
            r is Some <==> self.token() is Some,
            r is Some ==> r->Some_0@ == self.token()->Some_0,
    {
        match self {
            SmallestWidthDp::Any => None,
            SmallestWidthDp::Value(v) => {
                let mut s = String::from_str("sw");
                s.append(dec_str(*v as u32).as_str());
                s.append("dp");
                Some(s)
            },
        }
    }
}

/// A three-way qualifier: unspecified, set, or cleared.
#[derive(Debug, Clone, Copy, PartialEq, Eq, Structural)]
pub enum TripleState {
    Any,
    Yes,
    No,
}

/// Decodes a two-bit field as a `TripleState`; the remaining bit pattern is
/// unassigned.
pub open spec fn spec_triple_state(v: u8) -> Option<TripleState> {
    if v == 0 {
        Some(TripleState::Any)
    } else if v == 1 {
        Some(TripleState::No)
    } else if v == 2 {
        Some(TripleState::Yes)
    } else {
        None
    }
}

fn triple_state(v: u8) -> (r: Option<TripleState>)
    ensures
        r == spec_triple_state(v),
{
    match v {
        0 => Some(TripleState::Any),
        1 => Some(TripleState::No),
        2 => Some(TripleState::Yes),
        _ => None,
    }
}

/// Whether the screen is longer than usual, from bits 4-5 of the screen
/// layout byte.
#[derive(Debug, Clone, Copy, PartialEq, Eq, Structural)]
pub struct ScreenLong(pub TripleState);

impl ScreenLong {
    pub open spec fn spec_from(screen_layout: u8) -> Option<ScreenLong> {
        match spec_triple_state((screen_layout & 0x30) / 0x10) {
            Some(t) => Some(ScreenLong(t)),
            None => None,
        }
    }

    pub fn from(screen_layout: u8) -> (r: Option<ScreenLong>)
        ensures
            r == ScreenLong::spec_from(screen_layout),
    {
        match triple_state((screen_layout & 0x30) / 0x10) {
            Some(t) => Some(ScreenLong(t)),
            None => None,
        }
    }

    pub open spec fn token(self) -> Option<Seq<char>> {
        match self.0 {
            TripleState::Any => None,
            TripleState::Yes => Some("long"@),
            TripleState::No => Some("notlong"@),
        }
    }

    pub fn to_string(&self) -> (r: Option<String>)
        ensures
            r is Some <==> self.token() is Some,
            r is Some ==> r->Some_0@ == self.token()->Some_0,
    {
        match self.0 {
            TripleState::Any => None,
            TripleState::Yes => Some(String::from_str("long")),
            TripleState::No => Some(String::from_str("notlong")),
        }
    }
}

/// Night mode, from bits 4-5 of the UI-mode byte.
#[derive(Debug, Clone, Copy, PartialEq, Eq, Structural)]
pub struct NightMode(pub TripleState);

impl NightMode {
    pub open spec fn spec_from(mode: u8) -> Option<NightMode> {
        match spec_triple_state((mode & 0x30) / 0x10) {
            Some(t) => Some(NightMode(t)),
            None => None,
        }
    }

    pub fn from(mode: u8) -> (r: Option<NightMode>)
        ensures
            r == NightMode::spec_from(mode),
    {
        match triple_state((mode & 0x30) / 0x10) {
            Some(t) => Some(NightMode(t)),
            None => None,
        }
    }

    pub open spec fn token(self) -> Option<Seq<char>> {
        match self.0 {
            TripleState::Any => None,
            TripleState::Yes => Some("night"@),
            TripleState::No => Some("notnight"@),
        }
    }

    pub fn to_string(&self) -> (r: Option<String>)
        ensures
            r is Some <==> self.token() is Some,
            r is Some ==> r->Some_0@ == self.token()->Some_0,
    {
        match self.0 {
            TripleState::Any => None,
            TripleState::Yes => Some(String::from_str("night")),
            TripleState::No => Some(String::from_str("notnight")),
        }
    }
}

/// Navigation-hidden state, from bits 2-3 of the input flags.
#[derive(Debug, Clone, Copy, PartialEq, Eq, Structural)]
pub struct NavigationHidden(pub TripleState);

impl NavigationHidden {
    pub open spec fn spec_from(input_flags: u8) -> Option<NavigationHidden> {
        match spec_triple_state((input_flags & 0x0c) / 0x04) {
            Some(t) => Some(NavigationHidden(t)),
            None => None,
        }
    }

    pub fn from(input_flags: u8) -> (r: Option<NavigationHidden>)
        ensures
            r == NavigationHidden::spec_from(input_flags),
    {
        match triple_state((input_flags & 0x0c) / 0x04) {
            Some(t) => Some(NavigationHidden(t)),
            None => None,
        }
    }

    pub open spec fn token(self) -> Option<Seq<char>> {
        match self.0 {
            TripleState::Any => None,
            TripleState::Yes => Some("navexposed"@),
            TripleState::No => Some("navhidden"@),
        }
    }

    pub fn to_string(&self) -> (r: Option<String>)
        ensures
            r is Some <==> self.token() is Some,
            r is Some ==> r->Some_0@ == self.token()->Some_0,
    {
        match self.0 {
            TripleState::Any => None,
            TripleState::Yes => Some(String::from_str("navexposed")),
            TripleState::No => Some(String::from_str("navhidden")),
        }
    }
}

/// Wide colour gamut, from bits 0-1 of the colour-mode byte.
#[derive(Debug, Clone, Copy, PartialEq, Eq, Structural)]
pub struct WideColorGamut(pub TripleState);

impl WideColorGamut {
    pub open spec fn spec_from(color_mode: u8) -> Option<WideColorGamut> {
        match spec_triple_state(color_mode & 0x03) {
            Some(t) => Some(WideColorGamut(t)),
            None => None,
        }
    }

    pub fn from(color_mode: u8) -> (r: Option<WideColorGamut>)
        ensures
            r == WideColorGamut::spec_from(color_mode),
    {
        match triple_state(color_mode & 0x03) {
            Some(t) => Some(WideColorGamut(t)),
            None => None,
        }
    }

    pub open spec fn token(self) -> Option<Seq<char>> {
        match self.0 {
            TripleState::Any => None,
            TripleState::Yes => Some("widecg"@),
            TripleState::No => Some("nowidecg"@),
        }
    }

    pub fn to_string(&self) -> (r: Option<String>)
        ensures
            r is Some <==> self.token() is Some,
            r is Some ==> r->Some_0@ == self.token()->Some_0,
    {
        match self.0 {
            TripleState::Any => None,
            TripleState::Yes => Some(String::from_str("widecg")),
            TripleState::No => Some(String::from_str("nowidecg")),
        }
    }
}

/// High dynamic range, from bits 2-3 of the colour-mode byte.
#[derive(Debug, Clone, Copy, PartialEq, Eq, Structural)]
pub struct HighDynamicRange(pub TripleState);

impl HighDynamicRange {
    pub open spec fn spec_from(color_mode: u8) -> Option<HighDynamicRange> {
        match spec_triple_state((color_mode & 0x0c) / 0x04) {
            Some(t) => Some(HighDynamicRange(t)),
            None => None,
        }
    }

    pub fn from(color_mode: u8) -> (r: Option<HighDynamicRange>)
        ensures
            r == HighDynamicRange::spec_from(color_mode),
    {
        match triple_state((color_mode & 0x0c) / 0x04) {
            Some(t) => Some(HighDynamicRange(t)),
            None => None,
        }
    }

    pub open spec fn token(self) -> Option<Seq<char>> {
        match self.0 {
            TripleState::Any => None,
            TripleState::Yes => Some("highdr"@),
            TripleState::No => Some("lowdr"@),
        }
    }

    pub fn to_string(&self) -> (r: Option<String>)
        ensures
            r is Some <==> self.token() is Some,
            r is Some ==> r->Some_0@ == self.token()->Some_0,
    {
        match self.0 {
            TripleState::Any => None,
            TripleState::Yes => Some(String::from_str("highdr")),
            TripleState::No => Some(String::from_str("lowdr")),
        }
    }
}

/// Whether the screen is round, from bits 0-1 of the second screen-layout
/// byte.
#[derive(Debug, Clone, Copy, PartialEq, Eq, Structural)]
pub struct ScreenRound(pub TripleState);

impl ScreenRound {
    pub open spec fn spec_from(screen_layout2: u8) -> Option<ScreenRound> {
        match spec_triple_state(screen_layout2 & 0x03) {
            Some(t) => Some(ScreenRound(t)),
            None => None,
        }
    }

    pub fn from(screen_layout2: u8) -> (r: Option<ScreenRound>)
        ensures
            r == ScreenRound::spec_from(screen_layout2),
    {
        match triple_state(screen_layout2 & 0x03) {
            Some(t) => Some(ScreenRound(t)),
            None => None,
        }
    }

    pub open spec fn token(self) -> Option<Seq<char>> {
        match self.0 {
            TripleState::Any => None,
            TripleState::Yes => Some("round"@),
            TripleState::No => Some("notround"@),
        }
    }

    pub fn to_string(&self) -> (r: Option<String>)
        ensures
            r is Some <==> self.token() is Some,
            r is Some ==> r->Some_0@ == self.token()->Some_0,
    {
        match self.0 {
            TripleState::Any => None,
            TripleState::Yes => Some(String::from_str("round")),
            TripleState::No => Some(String::from_str("notround")),
        }
    }
}

} // verus!
