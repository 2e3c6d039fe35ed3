//! The fixed registry of catalogue fields.
use vstd::prelude::*;

verus! {

/// One named column of the catalogue. Each field has a position among the
/// fields, and its column in a catalogue row is one past that position
/// (column 0 holds the pattern).
#[derive(Debug, Clone, Copy, PartialEq, Eq, Hash, Structural)]
pub enum BrowsCapField {
    IsMasterParent,
    IsLiteMode,
    Parent,
    Comment,
    Browser,
    BrowserType,
    BrowserBits,
    BrowserMaker,
    BrowserModus,
    BrowserVersion,
    BrowserMajorVersion,
    BrowserMinorVersion,
    Platform,
    PlatformVersion,
    PlatformDescription,
    PlatformBits,
    PlatformMaker,
    IsAlpha,
    IsBeta,
    IsWin16,
    IsWin32,
    IsWin64,
    IsIframes,
    IsFrames,
    IsTables,
    IsCookies,
    IsBackgroundSounds,
    IsJavascript,
    IsVbscript,
    IsJavaApplets,
    IsActivexControls,
    IsMobileDevice,
    IsTablet,
    IsSyndicationReader,
    IsCrawler,
    IsFake,
    IsAnonymized,
    IsModified,
    CssVersion,
    AolVersion,
    DeviceName,
    DeviceMaker,
    DeviceType,
    DevicePointingMethod,
    DeviceCodeName,
    DeviceBrandName,
    RenderingEngineName,
    RenderingEngineVersion,
    RenderingEngineDescription,
    RenderingEngineMaker,
}

pub const IS_MASTER_PARENT: BrowsCapField = BrowsCapField::IsMasterParent;
pub const IS_LITE_MODE: BrowsCapField = BrowsCapField::IsLiteMode;
pub const PARENT: BrowsCapField = BrowsCapField::Parent;
pub const COMMENT: BrowsCapField = BrowsCapField::Comment;
pub const BROWSER: BrowsCapField = BrowsCapField::Browser;
pub const BROWSER_TYPE: BrowsCapField = BrowsCapField::BrowserType;
pub const BROWSER_BITS: BrowsCapField = BrowsCapField::BrowserBits;
pub const BROWSER_MAKER: BrowsCapField = BrowsCapField::BrowserMaker;
pub const BROWSER_MODUS: BrowsCapField = BrowsCapField::BrowserModus;
pub const BROWSER_VERSION: BrowsCapField = BrowsCapField::BrowserVersion;
pub const BROWSER_MAJOR_VERSION: BrowsCapField = BrowsCapField::BrowserMajorVersion;
pub const BROWSER_MINOR_VERSION: BrowsCapField = BrowsCapField::BrowserMinorVersion;
pub const PLATFORM: BrowsCapField = BrowsCapField::Platform;
pub const PLATFORM_VERSION: BrowsCapField = BrowsCapField::PlatformVersion;
pub const PLATFORM_DESCRIPTION: BrowsCapField = BrowsCapField::PlatformDescription;
pub const PLATFORM_BITS: BrowsCapField = BrowsCapField::PlatformBits;
pub const PLATFORM_MAKER: BrowsCapField = BrowsCapField::PlatformMaker;
pub const IS_ALPHA: BrowsCapField = BrowsCapField::IsAlpha;
pub const IS_BETA: BrowsCapField = BrowsCapField::IsBeta;
pub const IS_WIN16: BrowsCapField = BrowsCapField::IsWin16;
pub const IS_WIN32: BrowsCapField = BrowsCapField::IsWin32;
pub const IS_WIN64: BrowsCapField = BrowsCapField::IsWin64;
pub const IS_IFRAMES: BrowsCapField = BrowsCapField::IsIframes;
pub const IS_FRAMES: BrowsCapField = BrowsCapField::IsFrames;
pub const IS_TABLES: BrowsCapField = BrowsCapField::IsTables;
pub const IS_COOKIES: BrowsCapField = BrowsCapField::IsCookies;
pub const IS_BACKGROUND_SOUNDS: BrowsCapField = BrowsCapField::IsBackgroundSounds;
pub const IS_JAVASCRIPT: BrowsCapField = BrowsCapField::IsJavascript;
pub const IS_VBSCRIPT: BrowsCapField = BrowsCapField::IsVbscript;
pub const IS_JAVA_APPLETS: BrowsCapField = BrowsCapField::IsJavaApplets;
pub const IS_ACTIVEX_CONTROLS: BrowsCapField = BrowsCapField::IsActivexControls;
pub const IS_MOBILE_DEVICE: BrowsCapField = BrowsCapField::IsMobileDevice;
pub const IS_TABLET: BrowsCapField = BrowsCapField::IsTablet;
pub const IS_SYNDICATION_READER: BrowsCapField = BrowsCapField::IsSyndicationReader;
pub const IS_CRAWLER: BrowsCapField = BrowsCapField::IsCrawler;
pub const IS_FAKE: BrowsCapField = BrowsCapField::IsFake;
pub const IS_ANONYMIZED: BrowsCapField = BrowsCapField::IsAnonymized;
pub const IS_MODIFIED: BrowsCapField = BrowsCapField::IsModified;
pub const CSS_VERSION: BrowsCapField = BrowsCapField::CssVersion;
pub const AOL_VERSION: BrowsCapField = BrowsCapField::AolVersion;
pub const DEVICE_NAME: BrowsCapField = BrowsCapField::DeviceName;
pub const DEVICE_MAKER: BrowsCapField = BrowsCapField::DeviceMaker;
pub const DEVICE_TYPE: BrowsCapField = BrowsCapField::DeviceType;
pub const DEVICE_POINTING_METHOD: BrowsCapField = BrowsCapField::DevicePointingMethod;
pub const DEVICE_CODE_NAME: BrowsCapField = BrowsCapField::DeviceCodeName;
pub const DEVICE_BRAND_NAME: BrowsCapField = BrowsCapField::DeviceBrandName;
pub const RENDERING_ENGINE_NAME: BrowsCapField = BrowsCapField::RenderingEngineName;
pub const RENDERING_ENGINE_VERSION: BrowsCapField = BrowsCapField::RenderingEngineVersion;
pub const RENDERING_ENGINE_DESCRIPTION: BrowsCapField = BrowsCapField::RenderingEngineDescription;
pub const RENDERING_ENGINE_MAKER: BrowsCapField = BrowsCapField::RenderingEngineMaker;

/// The number of fields in the registry.
pub const FIELD_COUNT: usize = 50;

/// The position of a field among all fields.
pub open spec fn ordinal_of(f: BrowsCapField) -> nat {
    match f {
        BrowsCapField::IsMasterParent => 0,
        BrowsCapField::IsLiteMode => 1,
        BrowsCapField::Parent => 2,
        BrowsCapField::Comment => 3,
        BrowsCapField::Browser => 4,
        BrowsCapField::BrowserType => 5,
        BrowsCapField::BrowserBits => 6,
        BrowsCapField::BrowserMaker => 7,
        BrowsCapField::BrowserModus => 8,
        BrowsCapField::BrowserVersion => 9,
        BrowsCapField::BrowserMajorVersion => 10,
        BrowsCapField::BrowserMinorVersion => 11,
        BrowsCapField::Platform => 12,
        BrowsCapField::PlatformVersion => 13,
        BrowsCapField::PlatformDescription => 14,
        BrowsCapField::PlatformBits => 15,
        BrowsCapField::PlatformMaker => 16,
        BrowsCapField::IsAlpha => 17,
        BrowsCapField::IsBeta => 18,
        BrowsCapField::IsWin16 => 19,
        BrowsCapField::IsWin32 => 20,
        BrowsCapField::IsWin64 => 21,
        BrowsCapField::IsIframes => 22,
        BrowsCapField::IsFrames => 23,
        BrowsCapField::IsTables => 24,
        BrowsCapField::IsCookies => 25,
        BrowsCapField::IsBackgroundSounds => 26,
        BrowsCapField::IsJavascript => 27,
        BrowsCapField::IsVbscript => 28,
        BrowsCapField::IsJavaApplets => 29,
        BrowsCapField::IsActivexControls => 30,
        BrowsCapField::IsMobileDevice => 31,
        BrowsCapField::IsTablet => 32,
        BrowsCapField::IsSyndicationReader => 33,
        BrowsCapField::IsCrawler => 34,
        BrowsCapField::IsFake => 35,
        BrowsCapField::IsAnonymized => 36,
        BrowsCapField::IsModified => 37,
        BrowsCapField::CssVersion => 38,
        BrowsCapField::AolVersion => 39,
        BrowsCapField::DeviceName => 40,
        BrowsCapField::DeviceMaker => 41,
        BrowsCapField::DeviceType => 42,
        BrowsCapField::DevicePointingMethod => 43,
        BrowsCapField::DeviceCodeName => 44,
        BrowsCapField::DeviceBrandName => 45,
        BrowsCapField::RenderingEngineName => 46,
        BrowsCapField::RenderingEngineVersion => 47,
        BrowsCapField::RenderingEngineDescription => 48,
        BrowsCapField::RenderingEngineMaker => 49,
    }
}

/// The stable name of a field.
pub open spec fn field_name(f: BrowsCapField) -> Seq<char> {
    match f {
        BrowsCapField::IsMasterParent => "IS_MASTER_PARENT"@,
        BrowsCapField::IsLiteMode => "IS_LITE_MODE"@,
        BrowsCapField::Parent => "PARENT"@,
        BrowsCapField::Comment => "COMMENT"@,
        BrowsCapField::Browser => "BROWSER"@,
        BrowsCapField::BrowserType => "BROWSER_TYPE"@,
        BrowsCapField::BrowserBits => "BROWSER_BITS"@,
        BrowsCapField::BrowserMaker => "BROWSER_MAKER"@,
        BrowsCapField::BrowserModus => "BROWSER_MODUS"@,
        BrowsCapField::BrowserVersion => "BROWSER_VERSION"@,
        BrowsCapField::BrowserMajorVersion => "BROWSER_MAJOR_VERSION"@,
        BrowsCapField::BrowserMinorVersion => "BROWSER_MINOR_VERSION"@,
        BrowsCapField::Platform => "PLATFORM"@,
        BrowsCapField::PlatformVersion => "PLATFORM_VERSION"@,
        BrowsCapField::PlatformDescription => "PLATFORM_DESCRIPTION"@,
        BrowsCapField::PlatformBits => "PLATFORM_BITS"@,
        BrowsCapField::PlatformMaker => "PLATFORM_MAKER"@,
        BrowsCapField::IsAlpha => "IS_ALPHA"@,
        BrowsCapField::IsBeta => "IS_BETA"@,
        BrowsCapField::IsWin16 => "IS_WIN16"@,
        BrowsCapField::IsWin32 => "IS_WIN32"@,
        BrowsCapField::IsWin64 => "IS_WIN64"@,
        BrowsCapField::IsIframes => "IS_IFRAMES"@,
        BrowsCapField::IsFrames => "IS_FRAMES"@,
        BrowsCapField::IsTables => "IS_TABLES"@,
        BrowsCapField::IsCookies => "IS_COOKIES"@,
        BrowsCapField::IsBackgroundSounds => "IS_BACKGROUND_SOUNDS"@,
        BrowsCapField::IsJavascript => "IS_JAVASCRIPT"@,
        BrowsCapField::IsVbscript => "IS_VBSCRIPT"@,
        BrowsCapField::IsJavaApplets => "IS_JAVA_APPLETS"@,
        BrowsCapField::IsActivexControls => "IS_ACTIVEX_CONTROLS"@,
        BrowsCapField::IsMobileDevice => "IS_MOBILE_DEVICE"@,
        BrowsCapField::IsTablet => "IS_TABLET"@,
        BrowsCapField::IsSyndicationReader => "IS_SYNDICATION_READER"@,
        BrowsCapField::IsCrawler => "IS_CRAWLER"@,
        BrowsCapField::IsFake => "IS_FAKE"@,
        BrowsCapField::IsAnonymized => "IS_ANONYMIZED"@,
        BrowsCapField::IsModified => "IS_MODIFIED"@,
        BrowsCapField::CssVersion => "CSS_VERSION"@,
        BrowsCapField::AolVersion => "AOL_VERSION"@,
        BrowsCapField::DeviceName => "DEVICE_NAME"@,
        BrowsCapField::DeviceMaker => "DEVICE_MAKER"@,
        BrowsCapField::DeviceType => "DEVICE_TYPE"@,
        BrowsCapField::DevicePointingMethod => "DEVICE_POINTING_METHOD"@,
        BrowsCapField::DeviceCodeName => "DEVICE_CODE_NAME"@,
        BrowsCapField::DeviceBrandName => "DEVICE_BRAND_NAME"@,
        BrowsCapField::RenderingEngineName => "RENDERING_ENGINE_NAME"@,
        BrowsCapField::RenderingEngineVersion => "RENDERING_ENGINE_VERSION"@,
        BrowsCapField::RenderingEngineDescription => "RENDERING_ENGINE_DESCRIPTION"@,
        BrowsCapField::RenderingEngineMaker => "RENDERING_ENGINE_MAKER"@,
    }
}

/// Whether a field belongs to the projection that every parser exposes.
pub open spec fn default_field(f: BrowsCapField) -> bool {
    match f {
        BrowsCapField::Browser => true,
        BrowsCapField::BrowserType => true,
        BrowsCapField::BrowserMajorVersion => true,
        BrowsCapField::Platform => true,
        BrowsCapField::PlatformVersion => true,
        BrowsCapField::DeviceType => true,
        _ => false,
    }
}

/// The field at a position.
pub open spec fn field_at(o: nat) -> BrowsCapField
    recommends
        o < FIELD_COUNT,
{
    if o == 0 {
        BrowsCapField::IsMasterParent
    } else if o == 1 {
        BrowsCapField::IsLiteMode
    } else if o == 2 {
        BrowsCapField::Parent
    } else if o == 3 {
        BrowsCapField::Comment
    } else if o == 4 {
        BrowsCapField::Browser
    } else if o == 5 {
        BrowsCapField::BrowserType
    } else if o == 6 {
        BrowsCapField::BrowserBits
    } else if o == 7 {
        BrowsCapField::BrowserMaker
    } else if o == 8 {
        BrowsCapField::BrowserModus
    } else if o == 9 {
        BrowsCapField::BrowserVersion
    } else if o == 10 {
        BrowsCapField::BrowserMajorVersion
    } else if o == 11 {
        BrowsCapField::BrowserMinorVersion
    } else if o == 12 {
        BrowsCapField::Platform
    } else if o == 13 {
        BrowsCapField::PlatformVersion
    } else if o == 14 {
        BrowsCapField::PlatformDescription
    } else if o == 15 {
        BrowsCapField::PlatformBits
    } else if o == 16 {
        BrowsCapField::PlatformMaker
    } else if o == 17 {
        BrowsCapField::IsAlpha
    } else if o == 18 {
        BrowsCapField::IsBeta
    } else if o == 19 {
        BrowsCapField::IsWin16
    } else if o == 20 {
        BrowsCapField::IsWin32
    } else if o == 21 {
        BrowsCapField::IsWin64
    } else if o == 22 {
        BrowsCapField::IsIframes
    } else if o == 23 {
        BrowsCapField::IsFrames
    } else if o == 24 {
        BrowsCapField::IsTables
    } else if o == 25 {
        BrowsCapField::IsCookies
    } else if o == 26 {
        BrowsCapField::IsBackgroundSounds
    } else if o == 27 {
        BrowsCapField::IsJavascript
    } else if o == 28 {
        BrowsCapField::IsVbscript
    } else if o == 29 {
        BrowsCapField::IsJavaApplets
    } else if o == 30 {
        BrowsCapField::IsActivexControls
    } else if o == 31 {
        BrowsCapField::IsMobileDevice
    } else if o == 32 {
        BrowsCapField::IsTablet
    } else if o == 33 {
        BrowsCapField::IsSyndicationReader
    } else if o == 34 {
        BrowsCapField::IsCrawler
    } else if o == 35 {
        BrowsCapField::IsFake
    } else if o == 36 {
        BrowsCapField::IsAnonymized
    } else if o == 37 {
        BrowsCapField::IsModified
    } else if o == 38 {
        BrowsCapField::CssVersion
    } else if o == 39 {
        BrowsCapField::AolVersion
    } else if o == 40 {
        BrowsCapField::DeviceName
    } else if o == 41 {
        BrowsCapField::DeviceMaker
    } else if o == 42 {
        BrowsCapField::DeviceType
    } else if o == 43 {
        BrowsCapField::DevicePointingMethod
    } else if o == 44 {
        BrowsCapField::DeviceCodeName
    } else if o == 45 {
        BrowsCapField::DeviceBrandName
    } else if o == 46 {
        BrowsCapField::RenderingEngineName
    } else if o == 47 {
        BrowsCapField::RenderingEngineVersion
    } else if o == 48 {
        BrowsCapField::RenderingEngineDescription
    } else {
        BrowsCapField::RenderingEngineMaker
    }
}

pub proof fn lemma_field_at_ordinal(f: BrowsCapField)
    ensures
        ordinal_of(f) < FIELD_COUNT,
        field_at(ordinal_of(f)) == f,
{
}

pub proof fn lemma_ordinal_field_at(o: nat)
    requires
        o < FIELD_COUNT,
    ensures
        ordinal_of(field_at(o)) == o,
{
}

impl BrowsCapField {
    pub fn name(&self) -> (r: &'static str)
        ensures
            r@ == field_name(*self),
    {
        match self {
            BrowsCapField::IsMasterParent => "IS_MASTER_PARENT",
            BrowsCapField::IsLiteMode => "IS_LITE_MODE",
            BrowsCapField::Parent => "PARENT",
            BrowsCapField::Comment => "COMMENT",
            BrowsCapField::Browser => "BROWSER",
            BrowsCapField::BrowserType => "BROWSER_TYPE",
            BrowsCapField::BrowserBits => "BROWSER_BITS",
            BrowsCapField::BrowserMaker => "BROWSER_MAKER",
            BrowsCapField::BrowserModus => "BROWSER_MODUS",
            BrowsCapField::BrowserVersion => "BROWSER_VERSION",
            BrowsCapField::BrowserMajorVersion => "BROWSER_MAJOR_VERSION",
            BrowsCapField::BrowserMinorVersion => "BROWSER_MINOR_VERSION",
            BrowsCapField::Platform => "PLATFORM",
            BrowsCapField::PlatformVersion => "PLATFORM_VERSION",
            BrowsCapField::PlatformDescription => "PLATFORM_DESCRIPTION",
            BrowsCapField::PlatformBits => "PLATFORM_BITS",
            BrowsCapField::PlatformMaker => "PLATFORM_MAKER",
            BrowsCapField::IsAlpha => "IS_ALPHA",
            BrowsCapField::IsBeta => "IS_BETA",
            BrowsCapField::IsWin16 => "IS_WIN16",
            BrowsCapField::IsWin32 => "IS_WIN32",
            BrowsCapField::IsWin64 => "IS_WIN64",
            BrowsCapField::IsIframes => "IS_IFRAMES",
            BrowsCapField::IsFrames => "IS_FRAMES",
            BrowsCapField::IsTables => "IS_TABLES",
            BrowsCapField::IsCookies => "IS_COOKIES",
            BrowsCapField::IsBackgroundSounds => "IS_BACKGROUND_SOUNDS",
            BrowsCapField::IsJavascript => "IS_JAVASCRIPT",
            BrowsCapField::IsVbscript => "IS_VBSCRIPT",
            BrowsCapField::IsJavaApplets => "IS_JAVA_APPLETS",
            BrowsCapField::IsActivexControls => "IS_ACTIVEX_CONTROLS",
            BrowsCapField::IsMobileDevice => "IS_MOBILE_DEVICE",
            BrowsCapField::IsTablet => "IS_TABLET",
            BrowsCapField::IsSyndicationReader => "IS_SYNDICATION_READER",
            BrowsCapField::IsCrawler => "IS_CRAWLER",
            BrowsCapField::IsFake => "IS_FAKE",
            BrowsCapField::IsAnonymized => "IS_ANONYMIZED",
            BrowsCapField::IsModified => "IS_MODIFIED",
            BrowsCapField::CssVersion => "CSS_VERSION",
            BrowsCapField::AolVersion => "AOL_VERSION",
            BrowsCapField::DeviceName => "DEVICE_NAME",
            BrowsCapField::DeviceMaker => "DEVICE_MAKER",
            BrowsCapField::DeviceType => "DEVICE_TYPE",
            BrowsCapField::DevicePointingMethod => "DEVICE_POINTING_METHOD",
            BrowsCapField::DeviceCodeName => "DEVICE_CODE_NAME",
            BrowsCapField::DeviceBrandName => "DEVICE_BRAND_NAME",
            BrowsCapField::RenderingEngineName => "RENDERING_ENGINE_NAME",
            BrowsCapField::RenderingEngineVersion => "RENDERING_ENGINE_VERSION",
            BrowsCapField::RenderingEngineDescription => "RENDERING_ENGINE_DESCRIPTION",
            BrowsCapField::RenderingEngineMaker => "RENDERING_ENGINE_MAKER",
        }
    }

    pub fn is_default(&self) -> (r: bool)
        ensures
            r == default_field(*self),
    {
        match self {
            BrowsCapField::IsMasterParent => false,
            BrowsCapField::IsLiteMode => false,
            BrowsCapField::Parent => false,
            BrowsCapField::Comment => false,
            BrowsCapField::Browser => true,
            BrowsCapField::BrowserType => true,
            BrowsCapField::BrowserBits => false,
            BrowsCapField::BrowserMaker => false,
            BrowsCapField::BrowserModus => false,
            BrowsCapField::BrowserVersion => false,
            BrowsCapField::BrowserMajorVersion => true,
            BrowsCapField::BrowserMinorVersion => false,
            BrowsCapField::Platform => true,
            BrowsCapField::PlatformVersion => true,
            BrowsCapField::PlatformDescription => false,
            BrowsCapField::PlatformBits => false,
            BrowsCapField::PlatformMaker => false,
            BrowsCapField::IsAlpha => false,
            BrowsCapField::IsBeta => false,
            BrowsCapField::IsWin16 => false,
            BrowsCapField::IsWin32 => false,
            BrowsCapField::IsWin64 => false,
            BrowsCapField::IsIframes => false,
            BrowsCapField::IsFrames => false,
            BrowsCapField::IsTables => false,
            BrowsCapField::IsCookies => false,
            BrowsCapField::IsBackgroundSounds => false,
            BrowsCapField::IsJavascript => false,
            BrowsCapField::IsVbscript => false,
            BrowsCapField::IsJavaApplets => false,
            BrowsCapField::IsActivexControls => false,
            BrowsCapField::IsMobileDevice => false,
            BrowsCapField::IsTablet => false,
            BrowsCapField::IsSyndicationReader => false,
            BrowsCapField::IsCrawler => false,
            BrowsCapField::IsFake => false,
            BrowsCapField::IsAnonymized => false,
            BrowsCapField::IsModified => false,
            BrowsCapField::CssVersion => false,
            BrowsCapField::AolVersion => false,
            BrowsCapField::DeviceName => false,
            BrowsCapField::DeviceMaker => false,
            BrowsCapField::DeviceType => true,
            BrowsCapField::DevicePointingMethod => false,
            BrowsCapField::DeviceCodeName => false,
            BrowsCapField::DeviceBrandName => false,
            BrowsCapField::RenderingEngineName => false,
            BrowsCapField::RenderingEngineVersion => false,
            BrowsCapField::RenderingEngineDescription => false,
            BrowsCapField::RenderingEngineMaker => false,
        }
    }

    /// The position of the field among all fields.
    pub fn ordinal(&self) -> (r: usize)
        ensures
            r == ordinal_of(*self),
    {
        match self {
            BrowsCapField::IsMasterParent => 0,
            BrowsCapField::IsLiteMode => 1,
            BrowsCapField::Parent => 2,
            BrowsCapField::Comment => 3,
            BrowsCapField::Browser => 4,
            BrowsCapField::BrowserType => 5,
            BrowsCapField::BrowserBits => 6,
            BrowsCapField::BrowserMaker => 7,
            BrowsCapField::BrowserModus => 8,
            BrowsCapField::BrowserVersion => 9,
            BrowsCapField::BrowserMajorVersion => 10,
            BrowsCapField::BrowserMinorVersion => 11,
            BrowsCapField::Platform => 12,
            BrowsCapField::PlatformVersion => 13,
            BrowsCapField::PlatformDescription => 14,
            BrowsCapField::PlatformBits => 15,
            BrowsCapField::PlatformMaker => 16,
            BrowsCapField::IsAlpha => 17,
            BrowsCapField::IsBeta => 18,
            BrowsCapField::IsWin16 => 19,
            BrowsCapField::IsWin32 => 20,
            BrowsCapField::IsWin64 => 21,
            BrowsCapField::IsIframes => 22,
            BrowsCapField::IsFrames => 23,
            BrowsCapField::IsTables => 24,
            BrowsCapField::IsCookies => 25,
            BrowsCapField::IsBackgroundSounds => 26,
            BrowsCapField::IsJavascript => 27,
            BrowsCapField::IsVbscript => 28,
            BrowsCapField::IsJavaApplets => 29,
            BrowsCapField::IsActivexControls => 30,
            BrowsCapField::IsMobileDevice => 31,
            BrowsCapField::IsTablet => 32,
            BrowsCapField::IsSyndicationReader => 33,
            BrowsCapField::IsCrawler => 34,
            BrowsCapField::IsFake => 35,
            BrowsCapField::IsAnonymized => 36,
            BrowsCapField::IsModified => 37,
            BrowsCapField::CssVersion => 38,
            BrowsCapField::AolVersion => 39,
            BrowsCapField::DeviceName => 40,
            BrowsCapField::DeviceMaker => 41,
            BrowsCapField::DeviceType => 42,
            BrowsCapField::DevicePointingMethod => 43,
            BrowsCapField::DeviceCodeName => 44,
            BrowsCapField::DeviceBrandName => 45,
            BrowsCapField::RenderingEngineName => 46,
            BrowsCapField::RenderingEngineVersion => 47,
            BrowsCapField::RenderingEngineDescription => 48,
            BrowsCapField::RenderingEngineMaker => 49,
        }
    }

    /// The column of the field in a catalogue row.
    pub fn index(&self) -> (r: usize)
        ensures
            r == ordinal_of(*self) + 1,
    {
        self.ordinal() + 1
    }

    /// The field at a position, if there is one.
    pub fn from_ordinal(o: usize) -> (r: Option<BrowsCapField>)
        ensures
            r == if o < FIELD_COUNT {
                Some(field_at(o as nat))
            } else {
                None::<BrowsCapField>
            },
    {
        match o {
            0 => Some(BrowsCapField::IsMasterParent),
            1 => Some(BrowsCapField::IsLiteMode),
            2 => Some(BrowsCapField::Parent),
            3 => Some(BrowsCapField::Comment),
            4 => Some(BrowsCapField::Browser),
            5 => Some(BrowsCapField::BrowserType),
            6 => Some(BrowsCapField::BrowserBits),
            7 => Some(BrowsCapField::BrowserMaker),
            8 => Some(BrowsCapField::BrowserModus),
            9 => Some(BrowsCapField::BrowserVersion),
            10 => Some(BrowsCapField::BrowserMajorVersion),
            11 => Some(BrowsCapField::BrowserMinorVersion),
            12 => Some(BrowsCapField::Platform),
            13 => Some(BrowsCapField::PlatformVersion),
            14 => Some(BrowsCapField::PlatformDescription),
            15 => Some(BrowsCapField::PlatformBits),
            16 => Some(BrowsCapField::PlatformMaker),
            17 => Some(BrowsCapField::IsAlpha),
            18 => Some(BrowsCapField::IsBeta),
            19 => Some(BrowsCapField::IsWin16),
            20 => Some(BrowsCapField::IsWin32),
            21 => Some(BrowsCapField::IsWin64),
            22 => Some(BrowsCapField::IsIframes),
            23 => Some(BrowsCapField::IsFrames),
            24 => Some(BrowsCapField::IsTables),
            25 => Some(BrowsCapField::IsCookies),
            26 => Some(BrowsCapField::IsBackgroundSounds),
            27 => Some(BrowsCapField::IsJavascript),
            28 => Some(BrowsCapField::IsVbscript),
            29 => Some(BrowsCapField::IsJavaApplets),
            30 => Some(BrowsCapField::IsActivexControls),
            31 => Some(BrowsCapField::IsMobileDevice),
            32 => Some(BrowsCapField::IsTablet),
            33 => Some(BrowsCapField::IsSyndicationReader),
            34 => Some(BrowsCapField::IsCrawler),
            35 => Some(BrowsCapField::IsFake),
            36 => Some(BrowsCapField::IsAnonymized),
            37 => Some(BrowsCapField::IsModified),
            38 => Some(BrowsCapField::CssVersion),
            39 => Some(BrowsCapField::AolVersion),
            40 => Some(BrowsCapField::DeviceName),
            41 => Some(BrowsCapField::DeviceMaker),
            42 => Some(BrowsCapField::DeviceType),
            43 => Some(BrowsCapField::DevicePointingMethod),
            44 => Some(BrowsCapField::DeviceCodeName),
            45 => Some(BrowsCapField::DeviceBrandName),
            46 => Some(BrowsCapField::RenderingEngineName),
            47 => Some(BrowsCapField::RenderingEngineVersion),
            48 => Some(BrowsCapField::RenderingEngineDescription),
            49 => Some(BrowsCapField::RenderingEngineMaker),
            _ => None,
        }
    }

    /// All fields, in the order of their positions.
    pub fn values() -> (r: Vec<BrowsCapField>)
        ensures
            r@.len() == FIELD_COUNT,
            forall|i: int| 0 <= i < FIELD_COUNT ==> #[trigger] r@[i] == field_at(i as nat),
    {
        let mut r: Vec<BrowsCapField> = Vec::new();
        let mut o: usize = 0;
        while o < FIELD_COUNT
            invariant
                o <= FIELD_COUNT,
                r@.len() == o,
                forall|i: int| 0 <= i < o ==> #[trigger] r@[i] == field_at(i as nat),
            decreases FIELD_COUNT - o,
        {
            match BrowsCapField::from_ordinal(o) {
                Some(f) => r.push(f),
                None => {},
            }
            o = o + 1;
        }
        r
    }
}

/// Fields listed in increasing order of position, so each at most once.
pub open spec fn ordered_fields(s: Seq<BrowsCapField>) -> bool {
    forall|i: int, j: int| 0 <= i < j < s.len() ==> ordinal_of(#[trigger] s[i]) < ordinal_of(#[trigger] s[j])
}

/// The fields of `all` (every field, in order) that `keep` picks, in order.
fn pick_fields(requested: &Vec<BrowsCapField>, with_requested: bool) -> (r: Vec<BrowsCapField>)
    ensures
        ordered_fields(r@),
        forall|f: BrowsCapField| #[trigger] r@.contains(f) <==> (default_field(f) || (with_requested && requested@.contains(f))),
{
    let all = BrowsCapField::values();
    let mut r: Vec<BrowsCapField> = Vec::new();
    let mut o: usize = 0;
    while o < FIELD_COUNT
        invariant
            o <= FIELD_COUNT,
            all@.len() == FIELD_COUNT,
            forall|i: int| 0 <= i < FIELD_COUNT ==> #[trigger] all@[i] == field_at(i as nat),
            ordered_fields(r@),
            forall|k: int| 0 <= k < r@.len() ==> ordinal_of(#[trigger] r@[k]) < o,
            forall|f: BrowsCapField| #[trigger] ordinal_of(f) < o ==> (r@.contains(f) <==> (default_field(f) || (with_requested && requested@.contains(f)))),
            forall|f: BrowsCapField| #[trigger] r@.contains(f) ==> ordinal_of(f) < o,
        decreases FIELD_COUNT - o,
    {
        let f = all[o];
        proof {
            lemma_ordinal_field_at(o as nat);
        }
        let mut keep = f.is_default();
        if !keep && with_requested {
            let mut k: usize = 0;
            while k < requested.len()
                invariant
                    k <= requested@.len(),
                    keep ==> requested@.contains(f),
                    !keep ==> forall|m: int| 0 <= m < k ==> #[trigger] requested@[m] != f,
                decreases requested@.len() - k,
            {
                if requested[k] == f {
                    keep = true;
                }
                k = k + 1;
            }
            proof {
                if !keep && requested@.contains(f) {
                    let m = choose|m: int| 0 <= m < requested@.len() && requested@[m] == f;
                }
            }
        }
        proof {
            assert(keep == (default_field(f) || (with_requested && requested@.contains(f))));
        }
        let ghost before = r@;
        if keep {
            r.push(f);
        }
        proof {
            assert forall|g: BrowsCapField| ordinal_of(g) < o + 1 implies (r@.contains(g) <==> (default_field(g) || (with_requested && requested@.contains(g)))) by {
                if ordinal_of(g) == o {
                    lemma_field_at_ordinal(g);
                    assert(g == f);
                    if !keep {
                        assert(r@ == before);
                        if before.contains(g) {
                            assert(ordinal_of(g) < o);
                        }
                    }
                    if keep {
                        assert(r@[r@.len() - 1] == g);
                        assert(r@.contains(g));
                    }
                } else {
                    assert(ordinal_of(g) < o);
                    if r@.contains(g) {
                        let m = choose|m: int| 0 <= m < r@.len() && r@[m] == g;
                        if m < before.len() {
                            assert(before[m] == g);
                        } else {
                            assert(r@[m] == f);
                            assert(ordinal_of(f) == o);
                        }
                        assert(before.contains(g));
                    }
                    if before.contains(g) {
                        let m = choose|m: int| 0 <= m < before.len() && before[m] == g;
                        assert(r@[m] == g);
                    }
                }
            }
            assert forall|g: BrowsCapField| r@.contains(g) implies ordinal_of(g) < o + 1 by {
                let m = choose|m: int| 0 <= m < r@.len() && r@[m] == g;
                if m < before.len() {
                    assert(before[m] == g);
                    assert(before.contains(g));
                }
            }
        }
        o = o + 1;
    }
    proof {
        assert forall|f: BrowsCapField| #[trigger] r@.contains(f) <==> (default_field(f) || (with_requested && requested@.contains(f))) by {
            lemma_field_at_ordinal(f);
            assert(ordinal_of(f) < o);
        }
    }
    r
}

/// The fields that every parser exposes, in order of position.
pub fn default_fields() -> (r: Vec<BrowsCapField>)
    ensures
        ordered_fields(r@),
        forall|f: BrowsCapField| r@.contains(f) <==> default_field(f),
{
    let none: Vec<BrowsCapField> = Vec::new();
    pick_fields(&none, false)
}

/// The projection for a request: the requested fields together with the
/// default ones, each once, in order of position.
pub fn merge_fields(fields: Vec<BrowsCapField>) -> (r: Vec<BrowsCapField>)
    ensures
        ordered_fields(r@),
        forall|f: BrowsCapField| r@.contains(f) <==> (default_field(f) || fields@.contains(f)),
{
    pick_fields(&fields, true)
}

} // verus!
