//! The fixed-layout device-configuration record and its canonical name.

use vstd::prelude::*;

use crate::config_qualifiers::{
    Density, HighDynamicRange, Keyboard, KeysHidden, Language, LayoutDirection, MCC, MNC,
    Navigation, NavigationHidden, NightMode, Orientation, Region, ScreenHeightDp, ScreenLong,
    ScreenRound, ScreenSize, ScreenWidthDp, SdkVersion, SmallestWidthDp, Touchscreen, UiMode,
    WideColorGamut,
};
use crate::cursor::{be16_at, le16_at, read_be_u16, read_le_u16, read_u8};
use crate::error::ParseError;

verus! {

/// A device configuration: the decoded qualifiers of one resource variant.
#[derive(Debug, Clone, Copy, PartialEq, Eq, Structural)]
pub struct Configuration {
    pub imsi_mcc: MCC,
    pub imsi_mnc: MNC,
    pub language: Language,
    pub region: Region,
    pub orientation: Orientation,
    pub touchscreen: Touchscreen,
    pub density: Density,
    pub keyboard: Keyboard,
    pub navigation: Navigation,
    pub keys_hidden: KeysHidden,
    pub nav_hidden: NavigationHidden,
    pub screen_width: u16,
    pub screen_height: u16,
    pub sdk_version: SdkVersion,
    pub minor_version: u16,
    pub screen_size: ScreenSize,
    pub screen_long: ScreenLong,
    pub layout_direction: LayoutDirection,
    pub ui_mode: UiMode,
    pub night_mode: NightMode,
    pub smallest_screen_width_dp: SmallestWidthDp,
    pub screen_width_dp: ScreenWidthDp,
    pub screen_height_dp: ScreenHeightDp,
    pub screen_round: ScreenRound,
    pub wide_color_gamut: WideColorGamut,
    pub hdr: HighDynamicRange,
}

/// The number of bytes of the configuration record that are decoded.
pub const CONFIG_BYTES: usize = 52;

/// Whether the raw configuration record at `off` decodes: every packed
/// qualifier field carries a known value.
pub open spec fn spec_config_ok(s: Seq<u8>, off: int) -> bool {
    &&& off + CONFIG_BYTES <= s.len()
    &&& Orientation::spec_from(s[off + 12]) is Some
    &&& Touchscreen::spec_from(s[off + 13]) is Some
    &&& Density::spec_from(le16_at(s, off + 14)) is Some
    &&& Keyboard::spec_from(s[off + 16]) is Some
    &&& Navigation::spec_from(s[off + 17]) is Some
    &&& NavigationHidden::spec_from(s[off + 18]) is Some
    &&& ScreenSize::spec_from(s[off + 28]) is Some
    &&& ScreenLong::spec_from(s[off + 28]) is Some
    &&& LayoutDirection::spec_from(s[off + 28]) is Some
    &&& UiMode::spec_from(s[off + 29]) is Some
    &&& NightMode::spec_from(s[off + 29]) is Some
    &&& ScreenRound::spec_from(s[off + 48]) is Some
    &&& WideColorGamut::spec_from(s[off + 49]) is Some
    &&& HighDynamicRange::spec_from(s[off + 49]) is Some
}

/// The configuration decoded from the record at `off`.  Little-endian
/// throughout, except the big-endian language and region fields.
pub open spec fn spec_config_at(s: Seq<u8>, off: int) -> Configuration {
    Configuration {
        imsi_mcc: MCC::spec_from(le16_at(s, off + 4)),
        imsi_mnc: MNC::spec_from(le16_at(s, off + 6)),
        language: Language::spec_from(be16_at(s, off + 8)),
        region: Region::spec_from(be16_at(s, off + 10)),
        orientation: Orientation::spec_from(s[off + 12])->Some_0,
        touchscreen: Touchscreen::spec_from(s[off + 13])->Some_0,
        density: Density::spec_from(le16_at(s, off + 14))->Some_0,
        keyboard: Keyboard::spec_from(s[off + 16])->Some_0,
        navigation: Navigation::spec_from(s[off + 17])->Some_0,
        keys_hidden: KeysHidden::spec_from(s[off + 18]),
        nav_hidden: NavigationHidden::spec_from(s[off + 18])->Some_0,
        screen_width: le16_at(s, off + 20),
        screen_height: le16_at(s, off + 22),
        sdk_version: SdkVersion::spec_from(le16_at(s, off + 24)),
        minor_version: le16_at(s, off + 26),
        screen_size: ScreenSize::spec_from(s[off + 28])->Some_0,
        screen_long: ScreenLong::spec_from(s[off + 28])->Some_0,
        layout_direction: LayoutDirection::spec_from(s[off + 28])->Some_0,
        ui_mode: UiMode::spec_from(s[off + 29])->Some_0,
        night_mode: NightMode::spec_from(s[off + 29])->Some_0,
        smallest_screen_width_dp: SmallestWidthDp::spec_from(le16_at(s, off + 30)),
        screen_width_dp: ScreenWidthDp::spec_from(le16_at(s, off + 32)),
        screen_height_dp: ScreenHeightDp::spec_from(le16_at(s, off + 34)),
        screen_round: ScreenRound::spec_from(s[off + 48])->Some_0,
        wide_color_gamut: WideColorGamut::spec_from(s[off + 49])->Some_0,
        hdr: HighDynamicRange::spec_from(s[off + 49])->Some_0,
    }
}

/// Decodes the configuration record at `off`.  Fails exactly when the
/// record is short or a packed field carries an unknown value.
pub fn parse_resource_table_config(s: &[u8], off: usize) -> (r: Result<Configuration, ParseError>)
    ensures
        match r {
            Ok(c) => spec_config_ok(s@, off as int) && c == spec_config_at(s@, off as int),
            Err(e) => !spec_config_ok(s@, off as int) && e == ParseError::InvalidData,
        },
{
    let len = s.len();
    if off > len || len - off < CONFIG_BYTES {
        return Err(ParseError::InvalidData);
    }
    let orientation = match Orientation::from(read_u8(s, off + 12)) {
        Some(v) => v,
        None => {
            return Err(ParseError::InvalidData);
        },
    };
    let touchscreen = match Touchscreen::from(read_u8(s, off + 13)) {
        Some(v) => v,
        None => {
            return Err(ParseError::InvalidData);
        },
    };
    let density = match Density::from(read_le_u16(s, off + 14)) {
        Some(v) => v,
        None => {
            return Err(ParseError::InvalidData);
        },
    };
    let keyboard = match Keyboard::from(read_u8(s, off + 16)) {
        Some(v) => v,
        None => {
            return Err(ParseError::InvalidData);
        },
    };
    let navigation = match Navigation::from(read_u8(s, off + 17)) {
        Some(v) => v,
        None => {
            return Err(ParseError::InvalidData);
        },
    };
    let input_flags = read_u8(s, off + 18);
    let nav_hidden = match NavigationHidden::from(input_flags) {
        Some(v) => v,
        None => {
            return Err(ParseError::InvalidData);
        },
    };
    let screen_layout = read_u8(s, off + 28);
    let screen_size = match ScreenSize::from(screen_layout) {
        Some(v) => v,
        None => {
            return Err(ParseError::InvalidData);
        },
    };
    let screen_long = match ScreenLong::from(screen_layout) {
        Some(v) => v,
        None => {
            return Err(ParseError::InvalidData);
        },
    };
    let layout_direction = match LayoutDirection::from(screen_layout) {
        Some(v) => v,
        None => {
            return Err(ParseError::InvalidData);
        },
    };
    let ui_mode_raw = read_u8(s, off + 29);
    let ui_mode = match UiMode::from(ui_mode_raw) {
        Some(v) => v,
        None => {
            return Err(ParseError::InvalidData);
        },
    };
    let night_mode = match NightMode::from(ui_mode_raw) {
        Some(v) => v,
        None => {
            return Err(ParseError::InvalidData);
        },
    };
    let screen_layout2 = read_u8(s, off + 48);
    let screen_round = match ScreenRound::from(screen_layout2) {
        Some(v) => v,
        None => {
            return Err(ParseError::InvalidData);
        },
    };
    let color_mode = read_u8(s, off + 49);
    let wide_color_gamut = match WideColorGamut::from(color_mode) {
        Some(v) => v,
        None => {
            return Err(ParseError::InvalidData);
        },
    };
    let hdr = match HighDynamicRange::from(color_mode) {
        Some(v) => v,
        None => {
            return Err(ParseError::InvalidData);
        },
    };
    Ok(
        Configuration {
            imsi_mcc: MCC::from(read_le_u16(s, off + 4)),
            imsi_mnc: MNC::from(read_le_u16(s, off + 6)),
            language: Language::from(read_be_u16(s, off + 8)),
            region: Region::from(read_be_u16(s, off + 10)),
            orientation,
            touchscreen,
            density,
            keyboard,
            navigation,
            keys_hidden: KeysHidden::from(input_flags),
            nav_hidden,
            screen_width: read_le_u16(s, off + 20),
            screen_height: read_le_u16(s, off + 22),
            sdk_version: SdkVersion::from(read_le_u16(s, off + 24)),
            minor_version: read_le_u16(s, off + 26),
            screen_size,
            screen_long,
            layout_direction,
            ui_mode,
            night_mode,
            smallest_screen_width_dp: SmallestWidthDp::from(read_le_u16(s, off + 30)),
            screen_width_dp: ScreenWidthDp::from(read_le_u16(s, off + 32)),
            screen_height_dp: ScreenHeightDp::from(read_le_u16(s, off + 34)),
            screen_round,
            wide_color_gamut,
            hdr,
        },
    )
}

/// The singleton sequence of a token that is present, or the empty
/// sequence of an absent one.
pub open spec fn opt_part(t: Option<Seq<char>>) -> Seq<Seq<char>> {
    match t {
        Some(s) => seq![s],
        None => Seq::empty(),
    }
}

/// The qualifier tokens of a configuration, in the canonical order.
pub open spec fn config_parts(c: Configuration) -> Seq<Seq<char>> {
    opt_part(c.imsi_mcc.token()) + opt_part(c.imsi_mnc.token()) + opt_part(c.language.token())
        + opt_part(c.region.token()) + opt_part(c.layout_direction.token()) + opt_part(
        c.smallest_screen_width_dp.token(),
    ) + opt_part(c.screen_width_dp.token()) + opt_part(c.screen_height_dp.token()) + opt_part(
        c.screen_size.token(),
    ) + opt_part(c.screen_long.token()) + opt_part(c.screen_round.token()) + opt_part(
        c.wide_color_gamut.token(),
    ) + opt_part(c.hdr.token()) + opt_part(c.orientation.token()) + opt_part(c.ui_mode.token())
        + opt_part(c.night_mode.token()) + opt_part(c.density.token()) + opt_part(
        c.touchscreen.token(),
    ) + opt_part(c.keys_hidden.token()) + opt_part(c.keyboard.token()) + opt_part(
        c.nav_hidden.token(),
    ) + opt_part(c.navigation.token()) + opt_part(c.sdk_version.token())
}

/// The parts joined with `-` separators.
pub open spec fn dash_joined(parts: Seq<Seq<char>>) -> Seq<char>
    decreases parts.len(),
{
    if parts.len() == 0 {
        Seq::empty()
    } else if parts.len() == 1 {
        parts[0]
    } else {
        dash_joined(parts.drop_last()) + seq!['-'] + parts.last()
    }
}

impl Configuration {
    pub fn orientation(&self) -> (r: Orientation)
        ensures
            r == self.orientation,
    {
        self.orientation
    }

    pub fn touchscreen(&self) -> (r: Touchscreen)
        ensures
            r == self.touchscreen,
    {
        self.touchscreen
    }

    pub fn density(&self) -> (r: Density)
        ensures
            r == self.density,
    {
        self.density
    }

    pub fn keyboard(&self) -> (r: Keyboard)
        ensures
            r == self.keyboard,
    {
        self.keyboard
    }

    pub fn navigation(&self) -> (r: Navigation)
        ensures
            r == self.navigation,
    {
        self.navigation
    }

    pub fn keys_hidden(&self) -> (r: KeysHidden)
        ensures
            r == self.keys_hidden,
    {
        self.keys_hidden
    }

    pub fn nav_hidden(&self) -> (r: NavigationHidden)
        ensures
            r == self.nav_hidden,
    {
        self.nav_hidden
    }

    pub fn language(&self) -> (r: Language)
        ensures
            r == self.language,
    {
        self.language
    }

    pub fn country(&self) -> (r: Region)
        ensures
            r == self.region,
    {
        self.region
    }

    pub fn sdk_version(&self) -> (r: SdkVersion)
        ensures
            r == self.sdk_version,
    {
        self.sdk_version
    }

    pub fn screen_size(&self) -> (r: ScreenSize)
        ensures
            r == self.screen_size,
    {
        self.screen_size
    }

    pub fn screen_long(&self) -> (r: ScreenLong)
        ensures
            r == self.screen_long,
    {
        self.screen_long
    }

    pub fn screen_layout_direction(&self) -> (r: LayoutDirection)
        ensures
            r == self.layout_direction,
    {
        self.layout_direction
    }

    pub fn mode(&self) -> (r: UiMode)
        ensures
            r == self.ui_mode,
    {
        self.ui_mode
    }

    pub fn night_mode(&self) -> (r: NightMode)
        ensures
            r == self.night_mode,
    {
        self.night_mode
    }

    pub fn smallest_screen_width_dp(&self) -> (r: SmallestWidthDp)
        ensures
            r == self.smallest_screen_width_dp,
    {
        self.smallest_screen_width_dp
    }

    pub fn screen_width_dp(&self) -> (r: ScreenWidthDp)
        ensures
            r == self.screen_width_dp,
    {
        self.screen_width_dp
    }

    pub fn screen_height_dp(&self) -> (r: ScreenHeightDp)
        ensures
            r == self.screen_height_dp,
    {
        self.screen_height_dp
    }

    pub fn screen_round(&self) -> (r: ScreenRound)
        ensures
            r == self.screen_round,
    {
        self.screen_round
    }

    pub fn wide_color_gamut(&self) -> (r: WideColorGamut)
        ensures
            r == self.wide_color_gamut,
    {
        self.wide_color_gamut
    }

    /// The raw screen width, or `None` for zero ("any").
    pub fn screen_width(&self) -> (r: Option<u16>)
        ensures
            r == (if self.screen_width != 0 {
                Some(self.screen_width)
            } else {
                None::<u16>
            }),
    {
        if self.screen_width != 0 {
            Some(self.screen_width)
        } else {
            None
        }
    }

    /// The raw screen height, or `None` for zero ("any").
    pub fn screen_height(&self) -> (r: Option<u16>)
        ensures
            r == (if self.screen_height != 0 {
                Some(self.screen_height)
            } else {
                None::<u16>
            }),
    {
        if self.screen_height != 0 {
            Some(self.screen_height)
        } else {
            None
        }
    }

    /// The minor platform version, or `None` for zero ("any").
    pub fn minor_version(&self) -> (r: Option<u16>)
        ensures
            r == (if self.minor_version != 0 {
                Some(self.minor_version)
            } else {
                None::<u16>
            }),
    {
        if self.minor_version != 0 {
            Some(self.minor_version)
        } else {
            None
        }
    }

    /// The qualifier tokens present in this configuration, in canonical
    /// order.
    #[verifier::rlimit(50)]
    fn push_locale_parts(&self, parts: &mut Vec<String>)
        ensures
            final(parts)@.map_values(|s: String| s@) == old(parts)@.map_values(|s: String| s@)
                + opt_part(self.imsi_mcc.token()) + opt_part(self.imsi_mnc.token()) + opt_part(self.language.token()) + opt_part(self.region.token()) + opt_part(self.layout_direction.token()) + opt_part(self.smallest_screen_width_dp.token()),
    {
        let ghost mut expected: Seq<Seq<char>> = old(parts)@.map_values(|s: String| s@);
        proof {
            assert(parts@.map_values(|s: String| s@) =~= expected);
        }
        if let Some(t) = self.imsi_mcc.to_string() {
            parts.push(t);
        }
        proof {
            expected = expected + opt_part(self.imsi_mcc.token());
            assert(parts@.map_values(|s: String| s@) =~= expected);
        }
        if let Some(t) = self.imsi_mnc.to_string() {
            parts.push(t);
        }
        proof {
            expected = expected + opt_part(self.imsi_mnc.token());
            assert(parts@.map_values(|s: String| s@) =~= expected);
        }
        if let Some(t) = self.language.to_string() {
            parts.push(t);
        }
        proof {
            expected = expected + opt_part(self.language.token());
            assert(parts@.map_values(|s: String| s@) =~= expected);
        }
        if let Some(t) = self.region.to_string() {
            parts.push(t);
        }
        proof {
            expected = expected + opt_part(self.region.token());
            assert(parts@.map_values(|s: String| s@) =~= expected);
        }
        if let Some(t) = self.layout_direction.to_string() {
            parts.push(t);
        }
        proof {
            expected = expected + opt_part(self.layout_direction.token());
            assert(parts@.map_values(|s: String| s@) =~= expected);
        }
        if let Some(t) = self.smallest_screen_width_dp.to_string() {
            parts.push(t);
        }
        proof {
            expected = expected + opt_part(self.smallest_screen_width_dp.token());
            assert(parts@.map_values(|s: String| s@) =~= expected);
        }
    }

    #[verifier::rlimit(50)]
    fn push_screen_parts(&self, parts: &mut Vec<String>)
        ensures
            final(parts)@.map_values(|s: String| s@) == old(parts)@.map_values(|s: String| s@)
                + opt_part(self.screen_width_dp.token()) + opt_part(self.screen_height_dp.token()) + opt_part(self.screen_size.token()) + opt_part(self.screen_long.token()) + opt_part(self.screen_round.token()) + opt_part(self.wide_color_gamut.token()),
    {
        let ghost mut expected: Seq<Seq<char>> = old(parts)@.map_values(|s: String| s@);
        proof {
            assert(parts@.map_values(|s: String| s@) =~= expected);
        }
        if let Some(t) = self.screen_width_dp.to_string() {
            parts.push(t);
        }
        proof {
            expected = expected + opt_part(self.screen_width_dp.token());
            assert(parts@.map_values(|s: String| s@) =~= expected);
        }
        if let Some(t) = self.screen_height_dp.to_string() {
            parts.push(t);
        }
        proof {
            expected = expected + opt_part(self.screen_height_dp.token());
            assert(parts@.map_values(|s: String| s@) =~= expected);
        }
        if let Some(t) = self.screen_size.to_string() {
            parts.push(t);
        }
        proof {
            expected = expected + opt_part(self.screen_size.token());
            assert(parts@.map_values(|s: String| s@) =~= expected);
        }
        if let Some(t) = self.screen_long.to_string() {
            parts.push(t);
        }
        proof {
            expected = expected + opt_part(self.screen_long.token());
            assert(parts@.map_values(|s: String| s@) =~= expected);
        }
        if let Some(t) = self.screen_round.to_string() {
            parts.push(t);
        }
        proof {
            expected = expected + opt_part(self.screen_round.token());
            assert(parts@.map_values(|s: String| s@) =~= expected);
        }
        if let Some(t) = self.wide_color_gamut.to_string() {
            parts.push(t);
        }
        proof {
            expected = expected + opt_part(self.wide_color_gamut.token());
            assert(parts@.map_values(|s: String| s@) =~= expected);
        }
    }

    #[verifier::rlimit(100)]
    #[verifier::spinoff_prover]
    fn push_mode_parts(&self, parts: &mut Vec<String>)
        ensures
            final(parts)@.map_values(|s: String| s@) == old(parts)@.map_values(|s: String| s@)
                + opt_part(self.hdr.token()) + opt_part(self.orientation.token()) + opt_part(self.ui_mode.token()) + opt_part(self.night_mode.token()) + opt_part(self.density.token()) + opt_part(self.touchscreen.token()),
    {
        let ghost mut expected: Seq<Seq<char>> = old(parts)@.map_values(|s: String| s@);
        proof {
            assert(parts@.map_values(|s: String| s@) =~= expected);
        }
        if let Some(t) = self.hdr.to_string() {
            parts.push(t);
        }
        proof {
            expected = expected + opt_part(self.hdr.token());
            assert(parts@.map_values(|s: String| s@) =~= expected);
        }
        if let Some(t) = self.orientation.to_string() {
            parts.push(t);
        }
        proof {
            expected = expected + opt_part(self.orientation.token());
            assert(parts@.map_values(|s: String| s@) =~= expected);
        }
        if let Some(t) = self.ui_mode.to_string() {
            parts.push(t);
        }
        proof {
            expected = expected + opt_part(self.ui_mode.token());
            assert(parts@.map_values(|s: String| s@) =~= expected);
        }
        if let Some(t) = self.night_mode.to_string() {
            parts.push(t);
        }
        proof {
            expected = expected + opt_part(self.night_mode.token());
            assert(parts@.map_values(|s: String| s@) =~= expected);
        }
        if let Some(t) = self.density.to_string() {
            parts.push(t);
        }
        proof {
            expected = expected + opt_part(self.density.token());
            assert(parts@.map_values(|s: String| s@) =~= expected);
        }
        if let Some(t) = self.touchscreen.to_string() {
            parts.push(t);
        }
        proof {
            expected = expected + opt_part(self.touchscreen.token());
            assert(parts@.map_values(|s: String| s@) =~= expected);
        }
    }

    #[verifier::rlimit(50)]
    fn push_input_parts(&self, parts: &mut Vec<String>)
        ensures
            final(parts)@.map_values(|s: String| s@) == old(parts)@.map_values(|s: String| s@)
                + opt_part(self.keys_hidden.token()) + opt_part(self.keyboard.token()) + opt_part(self.nav_hidden.token()) + opt_part(self.navigation.token()) + opt_part(self.sdk_version.token()),
    {
        let ghost mut expected: Seq<Seq<char>> = old(parts)@.map_values(|s: String| s@);
        proof {
            assert(parts@.map_values(|s: String| s@) =~= expected);
        }
        if let Some(t) = self.keys_hidden.to_string() {
            parts.push(t);
        }
        proof {
            expected = expected + opt_part(self.keys_hidden.token());
            assert(parts@.map_values(|s: String| s@) =~= expected);
        }
        if let Some(t) = self.keyboard.to_string() {
            parts.push(t);
        }
        proof {
            expected = expected + opt_part(self.keyboard.token());
            assert(parts@.map_values(|s: String| s@) =~= expected);
        }
        if let Some(t) = self.nav_hidden.to_string() {
            parts.push(t);
        }
        proof {
            expected = expected + opt_part(self.nav_hidden.token());
            assert(parts@.map_values(|s: String| s@) =~= expected);
        }
        if let Some(t) = self.navigation.to_string() {
            parts.push(t);
        }
        proof {
            expected = expected + opt_part(self.navigation.token());
            assert(parts@.map_values(|s: String| s@) =~= expected);
        }
        if let Some(t) = self.sdk_version.to_string() {
            parts.push(t);
        }
        proof {
            expected = expected + opt_part(self.sdk_version.token());
            assert(parts@.map_values(|s: String| s@) =~= expected);
        }
    }

    fn get_configuration_parts(&self) -> (r: Vec<String>)
        ensures
            r@.map_values(|s: String| s@) == config_parts(*self),
    {
        let mut parts: Vec<String> = Vec::new();
        proof {
            assert(parts@.map_values(|s: String| s@) =~= Seq::<Seq<char>>::empty());
        }
        self.push_locale_parts(&mut parts);
        self.push_screen_parts(&mut parts);
        self.push_mode_parts(&mut parts);
        self.push_input_parts(&mut parts);
        proof {
            assert(parts@.map_values(|s: String| s@) =~= config_parts(*self));
        }
        parts
    }

    /// Renders the canonical configuration name: the present tokens joined
    /// with `-`, or `None` for the default (all-"any") configuration.
    pub fn to_configuration_name(&self) -> (r: Option<String>)
        ensures
            r is Some <==> config_parts(*self).len() != 0,
            r is Some ==> r->Some_0@ == dash_joined(config_parts(*self)),
    {
        let parts = self.get_configuration_parts();
        if parts.len() == 0 {
            return None;
        }
        let ghost all = parts@.map_values(|s: String| s@);
        let mut s = String::new();
        for i in 0..parts.len()
            invariant
                all == parts@.map_values(|x: String| x@),
                all == config_parts(*self),
                parts@.len() != 0,
                s@ == dash_joined(all.take(i as int)),
        {
            if i != 0 {
                s.append("-");
            }
            s.append(parts[i].as_str());
            proof {
                reveal_strlit("-");
                let prefix = all.take(i as int);
                let now = all.take(i + 1);
                assert(now.drop_last() =~= prefix);
                assert(now.last() == all[i as int]);
                if i == 0 {
                    assert(dash_joined(now) == all[0]);
                    assert("-"@ =~= seq!['-']);
                    assert(s@ =~= dash_joined(now));
                } else {
                    assert(dash_joined(now) == dash_joined(prefix) + seq!['-'] + all[i as int]);
                    assert("-"@ =~= seq!['-']);
                    assert(s@ =~= dash_joined(now));
                }
            }
        }
        proof {
            assert(all.take(parts@.len() as int) =~= all);
        }
        Some(s)
    }
}

} // verus!
