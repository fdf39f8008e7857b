//! The settings of the program.

use crate::error::{self, AppError, ErrorView};
use crate::models::{Duplicate, WindowState, WindowStateView};
use crate::text::{self, char_len, same, trimmed};
use vstd::prelude::*;

verus! {

/// The settings. The line height is an IEEE 754 number of 32 bits, held by its bits.
#[derive(Debug)]
pub struct AppSettings {
    pub schema_version: u16,
    pub font_family: String,
    pub font_size: u16,
    pub line_height_bits: u32,
    pub theme: String,
    pub cursor_style: String,
    pub cursor_blink: bool,
    pub scrollback: u32,
    pub confirm_close_session: bool,
    pub connection_timeout_seconds: u64,
    pub keepalive_enabled: bool,
    pub keepalive_seconds: u64,
    pub default_download_directory: String,
}

/// What a [`AppSettings`] says.
#[verifier::ext_equal]
pub struct AppSettingsView {
    pub schema_version: u16,
    pub font_family: Seq<char>,
    pub font_size: u16,
    pub line_height_bits: u32,
    pub theme: Seq<char>,
    pub cursor_style: Seq<char>,
    pub cursor_blink: bool,
    pub scrollback: u32,
    pub confirm_close_session: bool,
    pub connection_timeout_seconds: u64,
    pub keepalive_enabled: bool,
    pub keepalive_seconds: u64,
    pub default_download_directory: Seq<char>,
}

impl View for AppSettings {
    type V = AppSettingsView;

    open spec fn view(&self) -> AppSettingsView {
        AppSettingsView {
            schema_version: self.schema_version,
            font_family: self.font_family@,
            font_size: self.font_size,
            line_height_bits: self.line_height_bits,
            theme: self.theme@,
            cursor_style: self.cursor_style@,
            cursor_blink: self.cursor_blink,
            scrollback: self.scrollback,
            confirm_close_session: self.confirm_close_session,
            connection_timeout_seconds: self.connection_timeout_seconds,
            keepalive_enabled: self.keepalive_enabled,
            keepalive_seconds: self.keepalive_seconds,
            default_download_directory: self.default_download_directory@,
        }
    }
}

impl DeepView for AppSettings {
    type V = AppSettingsView;

    open spec fn deep_view(&self) -> AppSettingsView {
        self@
    }
}

impl Duplicate for AppSettings {
    fn duplicate(&self) -> (r: Self) {
        AppSettings {
            schema_version: self.schema_version,
            font_family: self.font_family.clone(),
            font_size: self.font_size,
            line_height_bits: self.line_height_bits,
            theme: self.theme.clone(),
            cursor_style: self.cursor_style.clone(),
            cursor_blink: self.cursor_blink,
            scrollback: self.scrollback,
            confirm_close_session: self.confirm_close_session,
            connection_timeout_seconds: self.connection_timeout_seconds,
            keepalive_enabled: self.keepalive_enabled,
            keepalive_seconds: self.keepalive_seconds,
            default_download_directory: self.default_download_directory.clone(),
        }
    }
}

impl Clone for AppSettings {
    fn clone(&self) -> (r: Self)
        ensures
            r@ == self@,
    {
        self.duplicate()
    }
}

/// The bits of 1.0.
pub const ONE_BITS: u32 = 0x3f80_0000;

/// The bits of 2.0.
pub const TWO_BITS: u32 = 0x4000_0000;

/// The bits of the number next to 1.2.
pub const DEFAULT_LINE_HEIGHT_BITS: u32 = 0x3f99_999a;

/// The settings before the user changes any.
pub open spec fn default_settings() -> AppSettingsView {
    AppSettingsView {
        schema_version: 1,
        font_family: "JetBrains Mono, Cascadia Code, Consolas, monospace"@,
        font_size: 14,
        line_height_bits: DEFAULT_LINE_HEIGHT_BITS,
        theme: "dark"@,
        cursor_style: "bar"@,
        cursor_blink: true,
        scrollback: 10_000,
        confirm_close_session: true,
        connection_timeout_seconds: 15,
        keepalive_enabled: true,
        keepalive_seconds: 30,
        default_download_directory: ""@,
    }
}

impl Default for AppSettings {
    fn default() -> (r: Self)
        ensures
            r@ == default_settings(),
    {
        AppSettings {
            schema_version: 1,
            font_family: "JetBrains Mono, Cascadia Code, Consolas, monospace".to_owned(),
            font_size: 14,
            line_height_bits: DEFAULT_LINE_HEIGHT_BITS,
            theme: "dark".to_owned(),
            cursor_style: "bar".to_owned(),
            cursor_blink: true,
            scrollback: 10_000,
            confirm_close_session: true,
            connection_timeout_seconds: 15,
            keepalive_enabled: true,
            keepalive_seconds: 30,
            default_download_directory: "".to_owned(),
        }
    }
}

/// What is wrong with settings. Bits between those of 1.0 and those of 2.0 are the
/// bits of the numbers between 1.0 and 2.0.
pub open spec fn settings_fault(settings: AppSettingsView) -> Option<ErrorView> {
    if settings.schema_version != 1 {
        Some(error::validation_error("设置文件版本不受支持"@))
    } else if text::trim(settings.font_family).len() == 0 || settings.font_family.len() > 256 {
        Some(error::validation_error("字体族长度必须为 1～256 个字符"@))
    } else if !(10 <= settings.font_size <= 32) {
        Some(error::validation_error("字号必须为 10～32 px"@))
    } else if !(ONE_BITS <= settings.line_height_bits <= TWO_BITS) {
        Some(error::validation_error("行高必须为 1.0～2.0"@))
    } else if settings.theme != "dark"@ && settings.theme != "light"@ {
        Some(error::validation_error("终端主题无效"@))
    } else if settings.cursor_style != "block"@ && settings.cursor_style != "bar"@
        && settings.cursor_style != "underline"@ {
        Some(error::validation_error("光标形状无效"@))
    } else if !(1_000 <= settings.scrollback <= 100_000) {
        Some(error::validation_error("滚动缓冲必须为 1,000～100,000 行"@))
    } else if !(5 <= settings.connection_timeout_seconds <= 60) {
        Some(error::validation_error("连接超时必须为 5～60 秒"@))
    } else if settings.keepalive_enabled && !(5 <= settings.keepalive_seconds <= 300) {
        Some(error::validation_error("Keepalive 间隔必须为 5～300 秒"@))
    } else {
        None
    }
}

impl AppSettings {
    /// Checks the settings.
    pub fn validate(&self) -> (r: Result<(), AppError>)
        ensures
            error::error_of(r) == settings_fault(self@),
    {
        if self.schema_version != 1 {
            return Err(AppError::validation("设置文件版本不受支持"));
        }
        if char_len(trimmed(self.font_family.as_str()).as_str()) == 0 || char_len(
            self.font_family.as_str(),
        ) > 256 {
            return Err(AppError::validation("字体族长度必须为 1～256 个字符"));
        }
        if self.font_size < 10 || self.font_size > 32 {
            return Err(AppError::validation("字号必须为 10～32 px"));
        }
        if self.line_height_bits < ONE_BITS || self.line_height_bits > TWO_BITS {
            return Err(AppError::validation("行高必须为 1.0～2.0"));
        }
        if !same(self.theme.as_str(), "dark") && !same(self.theme.as_str(), "light") {
            return Err(AppError::validation("终端主题无效"));
        }
        if !same(self.cursor_style.as_str(), "block") && !same(self.cursor_style.as_str(), "bar")
            && !same(self.cursor_style.as_str(), "underline") {
            return Err(AppError::validation("光标形状无效"));
        }
        if self.scrollback < 1_000 || self.scrollback > 100_000 {
            return Err(AppError::validation("滚动缓冲必须为 1,000～100,000 行"));
        }
        if self.connection_timeout_seconds < 5 || self.connection_timeout_seconds > 60 {
            return Err(AppError::validation("连接超时必须为 5～60 秒"));
        }
        if self.keepalive_enabled && (self.keepalive_seconds < 5 || self.keepalive_seconds > 300) {
            return Err(AppError::validation("Keepalive 间隔必须为 5～300 秒"));
        }
        Ok(())
    }
}

/// The settings that are in force: those that are stored, or the defaults, with
/// another download directory where theirs is empty or cannot be written.
pub open spec fn loaded(
    stored: Option<AppSettingsView>,
    fallback: Seq<char>,
    writable: bool,
) -> Result<AppSettingsView, ErrorView> {
    let settings = match stored {
        Some(settings) => settings,
        None => default_settings(),
    };
    match settings_fault(settings) {
        Some(fault) => Err(fault),
        None => if settings.default_download_directory.len() == 0 || !writable {
            Ok(AppSettingsView { default_download_directory: fallback, ..settings })
        } else {
            Ok(settings)
        },
    }
}

/// What is wrong with settings that are to be stored.
pub open spec fn store_fault(settings: AppSettingsView, writable: bool) -> Option<ErrorView> {
    match settings_fault(settings) {
        Some(fault) => Some(fault),
        None => if !writable {
            Some(error::validation_error("默认下载目录不存在或不可写"@))
        } else {
            None
        },
    }
}

/// What is wrong with the size of a window that is to be stored.
pub open spec fn window_fault(state: WindowStateView) -> Option<ErrorView> {
    if !(480 <= state.width <= 10_000) || !(360 <= state.height <= 10_000) {
        Some(error::validation_error("窗口尺寸无效"@))
    } else {
        None
    }
}

/// The place where the settings are stored, and the rules for storing them.
pub struct SettingsStore {
    path: String,
}

impl SettingsStore {
    /// The path of the file.
    pub closed spec fn location(self) -> Seq<char> {
        self.path@
    }

    /// A store in the file at this path.
    pub fn new(path: String) -> (r: Self)
        ensures
            r.location() == path@,
    {
        SettingsStore { path }
    }

    /// The path of the file.
    pub fn path(&self) -> (r: String)
        ensures
            r@ == self.location(),
    {
        self.path.clone()
    }

    /// The settings that are in force, given what the file holds, where it is
    /// there, and whether the download directory that it names can be written.
    pub fn load(
        &self,
        stored: Option<AppSettings>,
        fallback_download: &str,
        writable: bool,
    ) -> (r: Result<AppSettings, AppError>)
        ensures
            error::ends_as(r, loaded(stored.deep_view(), fallback_download@, writable)),
    {
        let mut settings = match stored {
            Some(settings) => settings,
            None => AppSettings::default(),
        };
        settings.validate()?;
        if char_len(settings.default_download_directory.as_str()) == 0 || !writable {
            settings.default_download_directory = fallback_download.to_owned();
        }
        Ok(settings)
    }

    /// Checks settings that are to be stored, given whether their download
    /// directory can be written.
    pub fn save(&self, settings: &AppSettings, writable: bool) -> (r: Result<(), AppError>)
        ensures
            error::error_of(r) == store_fault(settings@, writable),
    {
        settings.validate()?;
        if !writable {
            return Err(AppError::validation("默认下载目录不存在或不可写"));
        }
        Ok(())
    }

    /// Checks a window state that is to be stored.
    pub fn save_window(&self, state: &WindowState) -> (r: Result<(), AppError>)
        ensures
            error::error_of(r) == window_fault(state@),
    {
        if state.width < 480 || state.width > 10_000 || state.height < 360 || state.height
            > 10_000 {
            return Err(AppError::validation("窗口尺寸无效"));
        }
        Ok(())
    }
}

/// Settings that are in force are valid and can be stored again, once their
/// download directory can be written.
pub proof fn loaded_settings_are_valid(
    stored: Option<AppSettingsView>,
    fallback: Seq<char>,
    writable: bool,
)
    ensures
        loaded(stored, fallback, writable) matches Ok(settings) ==> store_fault(settings, true)
            is None,
        stored is None ==> loaded(stored, fallback, writable) is Ok,
{
    reveal_strlit("JetBrains Mono, Cascadia Code, Consolas, monospace");
    let family = "JetBrains Mono, Cascadia Code, Consolas, monospace"@;
    reveal_with_fuel(text::trim_start, 2);
    reveal_with_fuel(text::trim_end, 2);
    assert(family[0] == 'J');
    assert(family.last() == 'e');
    assert(text::trim(family) == family);
}

/// The part of the screen that a monitor shows.
pub struct MonitorArea {
    pub x: i32,
    pub y: i32,
    pub width: u32,
    pub height: u32,
}

/// A number of 32 bits read with a sign.
pub open spec fn with_sign(n: u32) -> int {
    if n < 0x8000_0000 {
        n as int
    } else {
        n - 0x1_0000_0000
    }
}

/// A sum of two numbers with a sign, of which 32 bits are kept.
pub open spec fn sum_32(a: int, b: int) -> int {
    if a + b > i32::MAX {
        a + b - 0x1_0000_0000
    } else if a + b < i32::MIN {
        a + b + 0x1_0000_0000
    } else {
        a + b
    }
}

/// Whether a window overlaps the area of a monitor.
pub open spec fn overlaps(state: WindowStateView, area: MonitorArea) -> bool {
    &&& state.x < sum_32(area.x as int, with_sign(area.width))
    &&& state.y < sum_32(area.y as int, with_sign(area.height))
    &&& sum_32(state.x as int, with_sign(state.width)) > area.x
    &&& sum_32(state.y as int, with_sign(state.height)) > area.y
}

/// A number of 32 bits read with a sign.
fn signed(n: u32) -> (r: i32)
    ensures
        r == with_sign(n),
{
    if n < 0x8000_0000 {
        n as i32
    } else {
        let below: u32 = n - 0x8000_0000;
        i32::MIN + below as i32
    }
}

/// Whether a window is visible on one of the monitors.
pub fn window_visible(state: &WindowState, monitors: &Vec<MonitorArea>) -> (r: bool)
    ensures
        r == exists|i: int| 0 <= i < monitors@.len() && overlaps(state@, #[trigger] monitors@[i]),
{
    let mut i: usize = 0;
    while i < monitors.len()
        invariant
            i <= monitors@.len(),
            forall|j: int| 0 <= j < i ==> !overlaps(state@, #[trigger] monitors@[j]),
        decreases monitors@.len() - i,
    {
        let area = &monitors[i];
        let right: i32 = area.x.wrapping_add(signed(area.width));
        let bottom: i32 = area.y.wrapping_add(signed(area.height));
        let window_right: i32 = state.x.wrapping_add(signed(state.width));
        let window_bottom: i32 = state.y.wrapping_add(signed(state.height));
        if state.x < right && state.y < bottom && window_right > area.x && window_bottom > area.y {
            assert(overlaps(state@, monitors@[i as int]));
            return true;
        }
        i = i + 1;
    }
    false
}

/// What was stored is in force: every setting but the download directory is the stored
/// one, and that one is too where it is named and can be written. Settings that can be
/// stored come back as they are.
pub proof fn stored_settings_come_back(
    settings: AppSettingsView,
    fallback: Seq<char>,
    writable: bool,
)
    ensures
        match loaded(Some(settings), fallback, writable) {
            Ok(found) => {
                &&& settings_fault(settings) is None
                &&& found.schema_version == settings.schema_version
                &&& found.font_family == settings.font_family
                &&& found.font_size == settings.font_size
                &&& found.line_height_bits == settings.line_height_bits
                &&& found.theme == settings.theme
                &&& found.cursor_style == settings.cursor_style
                &&& found.cursor_blink == settings.cursor_blink
                &&& found.scrollback == settings.scrollback
                &&& found.confirm_close_session == settings.confirm_close_session
                &&& found.connection_timeout_seconds == settings.connection_timeout_seconds
                &&& found.keepalive_enabled == settings.keepalive_enabled
                &&& found.keepalive_seconds == settings.keepalive_seconds
                &&& found.default_download_directory == if writable
                    && settings.default_download_directory.len() > 0 {
                    settings.default_download_directory
                } else {
                    fallback
                }
            },
            Err(fault) => settings_fault(settings) == Some(fault),
        },
        store_fault(settings, writable) is None && settings.default_download_directory.len() > 0
            ==> loaded(Some(settings), fallback, true) == Ok::<AppSettingsView, ErrorView>(
            settings,
        ),
{
}

/// Where nothing is stored the defaults are in force, with the download directory of
/// the system.
pub proof fn defaults_hold_where_nothing_is_stored(fallback: Seq<char>, writable: bool)
    ensures
        loaded(None, fallback, writable) matches Ok(found) && found == (AppSettingsView {
            default_download_directory: fallback,
            ..default_settings()
        }),
        default_settings().default_download_directory.len() == 0,
{
    reveal_strlit("");
    loaded_settings_are_valid(None, fallback, writable);
}

/// Settings are in order if and only if each of them is within its limits.
pub proof fn settings_within_limits_are_accepted(settings: AppSettingsView)
    ensures
        settings_fault(settings) is None <==> {
            &&& settings.schema_version == 1
            &&& text::trim(settings.font_family).len() > 0
            &&& settings.font_family.len() <= 256
            &&& 10 <= settings.font_size <= 32
            &&& 0x3f80_0000 <= settings.line_height_bits <= 0x4000_0000
            &&& (settings.theme == "dark"@ || settings.theme == "light"@)
            &&& (settings.cursor_style == "block"@ || settings.cursor_style == "bar"@
                || settings.cursor_style == "underline"@)
            &&& 1000 <= settings.scrollback <= 100000
            &&& 5 <= settings.connection_timeout_seconds <= 60
            &&& (settings.keepalive_enabled ==> 5 <= settings.keepalive_seconds <= 300)
        },
        forall|writable: bool| #[trigger]
            store_fault(settings, writable) is None <==> settings_fault(settings) is None
                && writable,
{
}

/// The size of a window is in order if and only if both sides are within their limits.
pub proof fn windows_within_limits_are_accepted(state: WindowStateView)
    ensures
        window_fault(state) is None <==> 480 <= state.width <= 10000 && 360 <= state.height
            <= 10000,
{
}

/// A window overlaps a monitor if and only if they have a point in common, where no
/// number leaves its range.
pub proof fn overlapping_windows_share_a_point(state: WindowStateView, area: MonitorArea)
    requires
        area.x + area.width <= i32::MAX,
        area.y + area.height <= i32::MAX,
        state.x + state.width <= i32::MAX,
        state.y + state.height <= i32::MAX,
        state.width <= i32::MAX,
        state.height <= i32::MAX,
        area.width <= i32::MAX,
        area.height <= i32::MAX,
        state.width > 0,
        state.height > 0,
        area.width > 0,
        area.height > 0,
    ensures
        overlaps(state, area) <==> exists|x: int, y: int|
            #[trigger] within(state.x as int, state.width as int, x) && #[trigger] within(
                state.y as int,
                state.height as int,
                y,
            ) && within(area.x as int, area.width as int, x) && within(
                area.y as int,
                area.height as int,
                y,
            ),
{
    if overlaps(state, area) {
        let x: int = if state.x < area.x {
            area.x as int
        } else {
            state.x as int
        };
        let y: int = if state.y < area.y {
            area.y as int
        } else {
            state.y as int
        };
        assert(within(state.x as int, state.width as int, x));
        assert(within(state.y as int, state.height as int, y));
    }
}

/// Whether a point lies on a stretch.
pub open spec fn within(from: int, length: int, at: int) -> bool {
    from <= at < from + length
}

/// Numbers are read with a sign, and sums kept, as the low bits have it.
pub proof fn signs_go_by_the_high_bit(n: u32, a: i32, b: i32)
    ensures
        i32::MIN <= with_sign(n) <= i32::MAX,
        (with_sign(n) - n) % 0x1_0000_0000 == 0,
        i32::MIN <= sum_32(a as int, b as int) <= i32::MAX,
        (sum_32(a as int, b as int) - (a + b)) % 0x1_0000_0000 == 0,
{
}

} // verus!
