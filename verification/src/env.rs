//! Environment description.
//!
//! A platform is described by its CPU architecture, operating system family and operating system
//! name, and each query says whether a platform of that kind could offer some capability.

use vstd::prelude::*;
use crate::text::str_eq;

verus! {

/// The CPU architecture, OS family and OS name of a platform.
pub struct Platform {
    pub cpu_arch: &'static str,
    pub os_family: &'static str,
    pub os_name: &'static str,
}

/// Operating systems that could run a desktop environment.
pub open spec fn desktop_os(name: Seq<char>) -> bool {
    name == "linux"@ || name == "redox"@ || name == "windows"@ || name == "macos"@ || name
        == "openbsd"@ || name == "freebsd"@ || name == "netbsd"@ || name == "haiku"@
}

/// Operating systems that could run on an embedded device.
pub open spec fn embedded_os(name: Seq<char>) -> bool {
    name == "linux"@ || name == "redox"@ || name == "openbsd"@ || name == "freebsd"@ || name
        == "netbsd"@
}

/// Operating systems that could run on a mobile device.
pub open spec fn mobile_os(name: Seq<char>) -> bool {
    name == "linux"@ || name == "redox"@ || name == "android"@ || name == "ios"@
}

/// Operating systems that could drive a display.
pub open spec fn display_os(name: Seq<char>) -> bool {
    name == "linux"@ || name == "redox"@ || name == "windows"@ || name == "macos"@ || name
        == "android"@ || name == "ios"@ || name == "openbsd"@ || name == "freebsd"@ || name
        == "netbsd"@ || name == "haiku"@ || name == "wasi"@
}

impl Platform {
    pub fn could_be_desktop(&self) -> (r: bool)
        ensures
            r == desktop_os(self.os_name@),
    {
        let n = self.os_name;
        str_eq(n, "linux") || str_eq(n, "redox") || str_eq(n, "windows") || str_eq(n, "macos")
            || str_eq(n, "openbsd") || str_eq(n, "freebsd") || str_eq(n, "netbsd") || str_eq(
            n,
            "haiku",
        )
    }

    pub fn could_be_embedded(&self) -> (r: bool)
        ensures
            r == (embedded_os(self.os_name@) || self.os_family@ == "itron"@),
    {
        let n = self.os_name;
        str_eq(n, "linux") || str_eq(n, "redox") || str_eq(n, "openbsd") || str_eq(n, "freebsd")
            || str_eq(n, "netbsd") || str_eq(self.os_family, "itron")
    }

    pub fn could_be_mobile(&self) -> (r: bool)
        ensures
            r == mobile_os(self.os_name@),
    {
        let n = self.os_name;
        str_eq(n, "linux") || str_eq(n, "redox") || str_eq(n, "android") || str_eq(n, "ios")
    }

    pub fn could_be_web(&self) -> (r: bool)
        ensures
            r == (self.os_name@ == "wasi"@),
    {
        str_eq(self.os_name, "wasi")
    }

    pub fn could_support_display(&self) -> (r: bool)
        ensures
            r == display_os(self.os_name@),
    {
        let n = self.os_name;
        str_eq(n, "linux") || str_eq(n, "redox") || str_eq(n, "windows") || str_eq(n, "macos")
            || str_eq(n, "android") || str_eq(n, "ios") || str_eq(n, "openbsd") || str_eq(
            n,
            "freebsd",
        ) || str_eq(n, "netbsd") || str_eq(n, "haiku") || str_eq(n, "wasi")
    }
}

/// Every platform that could be a desktop, embedded, mobile or web platform could support a
/// display, except an embedded platform known only by the `itron` family.
pub proof fn lemma_capabilities_imply_display(p: Platform)
    ensures
        desktop_os(p.os_name@) ==> display_os(p.os_name@),
        embedded_os(p.os_name@) ==> display_os(p.os_name@),
        mobile_os(p.os_name@) ==> display_os(p.os_name@),
        p.os_name@ == "wasi"@ ==> display_os(p.os_name@),
{
}

/// The operating systems of each capability, by name: a desktop could be Linux, Redox, Windows,
/// macOS, OpenBSD, FreeBSD, NetBSD or Haiku; an embedded device Linux, Redox, OpenBSD, FreeBSD
/// or NetBSD (or any system of the `itron` family); a mobile device Linux, Redox, Android or iOS;
/// the web WASI; and a display may be driven by Linux, Redox, Windows, macOS, Android, iOS,
/// OpenBSD, FreeBSD, NetBSD, Haiku or WASI.
pub proof fn lemma_capability_names(name: Seq<char>)
    ensures
        desktop_os(name) <==> (name == "linux"@ || name == "redox"@ || name == "windows"@ || name
            == "macos"@ || name == "openbsd"@ || name == "freebsd"@ || name == "netbsd"@ || name
            == "haiku"@),
        embedded_os(name) <==> (name == "linux"@ || name == "redox"@ || name == "openbsd"@ || name
            == "freebsd"@ || name == "netbsd"@),
        mobile_os(name) <==> (name == "linux"@ || name == "redox"@ || name == "android"@ || name
            == "ios"@),
        display_os(name) <==> (name == "linux"@ || name == "redox"@ || name == "windows"@ || name
            == "macos"@ || name == "android"@ || name == "ios"@ || name == "openbsd"@ || name
            == "freebsd"@ || name == "netbsd"@ || name == "haiku"@ || name == "wasi"@),
{
}

/// Common features a wide number of platforms support.
#[derive(Clone, Copy, Debug, Default, Eq, Hash, PartialEq, Structural)]
pub struct PlatformFeature(pub u8);

/// Common features filesystems support.
#[derive(Clone, Copy, Debug, Default, Eq, Hash, PartialEq, Structural)]
pub struct FilesystemFeature(pub u8);

/// Common features windowing systems support.
#[derive(Clone, Copy, Debug, Default, Eq, Hash, PartialEq, Structural)]
pub struct WindowingFeature(pub u8);

impl PlatformFeature {
    /// Platform supports process management (spawning children, killing processes, etc.).
    pub const PROCESS: u8 = 0b_00000001;
    /// Platform supports a filesystem.
    pub const FILESYSTEM: u8 = 0b_00000010;
    /// Platform has graphical windowing capabilities.
    pub const WINDOW: u8 = 0b_00000100;
    /// Platform has networking capabilities.
    pub const NETWORK: u8 = 0b_00001000;
    /// Platform will respond to "keyed" devices.
    pub const KEYBOARD: u8 = 0b_00010000;
    /// Platform will respond to pointing devices.
    pub const POINTER: u8 = 0b_00100000;
    /// Platform supports complex touch gestures.
    pub const GESTURES: u8 = 0b_01000000;

    /// Whether every feature flagged in `other` is flagged here.
    pub fn contains(&self, other: Self) -> (r: bool)
        ensures
            r == (self.0 & other.0 == other.0),
    {
        self.0 & other.0 == other.0
    }
}

impl FilesystemFeature {
    pub const FILES: u8 = 0b_00000001;
    pub const DIRECTORIES: u8 = 0b_00000010;
    pub const SOFT_LINK: u8 = 0b_00000100;
    pub const HARD_LINK: u8 = 0b_00001000;
    pub const SHARED_MEM: u8 = 0b_00010000;
    pub const HOME_DIR: u8 = 0b_00100000;

    /// Whether every feature flagged in `other` is flagged here.
    pub fn contains(&self, other: Self) -> (r: bool)
        ensures
            r == (self.0 & other.0 == other.0),
    {
        self.0 & other.0 == other.0
    }
}

impl WindowingFeature {
    /// Clients can create multiple windows.
    pub const MULTIPLE: u8 = 0b_00000001;
    /// Windows can stack on top of one another.
    pub const STACKING: u8 = 0b_00000010;
    /// Platform supports "focus stealing" (when a client brings a window to the front).
    pub const GRAB_FOCUS: u8 = 0b_00000100;
    /// Platform supports attention requests (think blinnking taskbar on Windows).
    pub const REQUEST_ATTENTION: u8 = 0b_00001000;
    /// Clients can "grab" the mouse cursor (stop it from leaving windows).
    pub const GRAB_POINTER: u8 = 0b_00010000;
    /// Clients can hide the default mouse cursor.
    pub const HIDE_POINTER: u8 = 0b_00100000;
    /// Windows can ignore the mouse cursor's inputs.
    pub const IGNORE_POINTER: u8 = 0b_01000000;

    /// Whether every feature flagged in `other` is flagged here.
    pub fn contains(&self, other: Self) -> (r: bool)
        ensures
            r == (self.0 & other.0 == other.0),
    {
        self.0 & other.0 == other.0
    }
}

} // verus!
