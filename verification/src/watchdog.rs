//! Presence monitoring: whether the device the program runs from is still
//! there.
//!
//! Every backend decides the same way: if a marker file was recorded at
//! startup, its existence is the answer; otherwise the existence of the
//! watched directory (or drive) is. The backends differ only in what they
//! watch and in what counts as a removable location. Probing the file
//! system is the surrounding code's job; the decision from the probe
//! results is made here.

use vstd::prelude::*;
use vstd::utf8::encode_utf8;

verus! {

/// Whether `p` is a prefix of `s`.
pub open spec fn has_prefix(s: Seq<u8>, p: Seq<u8>) -> bool {
    p.len() <= s.len() && s.subrange(0, p.len() as int) == p
}

/// Whether one byte sequence starts with another.
fn bytes_have_prefix(s: &[u8], p: &[u8]) -> (r: bool)
    ensures
        r == has_prefix(s@, p@),
{
    let np = p.len();
    if np > s.len() {
        proof {
            assert(!has_prefix(s@, p@));
        }
        return false;
    }
    let mut i: usize = 0;
    while i < np
        invariant
            i <= np,
            np == p@.len(),
            np <= s@.len(),
            forall|j: int| 0 <= j < i ==> s@[j] == p@[j],
        decreases np - i,
    {
        if s[i] != p[i] {
            proof {
                assert(s@.subrange(0, np as int)[i as int] != p@[i as int]);
            }
            return false;
        }
        i = i + 1;
    }
    proof {
        assert(s@.subrange(0, np as int) =~= p@);
    }
    true
}

/// The decision every backend makes: the marker, when one was recorded,
/// is authoritative; otherwise the watched location decides.
pub open spec fn presence_decision(
    uses_marker: bool,
    marker_present: bool,
    watch_present: bool,
) -> bool {
    if uses_marker {
        marker_present
    } else {
        watch_present
    }
}

/// A presence backend.
pub trait UsbWatchdog {
    /// Whether a marker file was recorded at startup.
    spec fn uses_marker(&self) -> bool;

    /// The location this backend watches.
    spec fn watch_view(&self) -> Seq<char>;

    /// The marker path to probe, when one was recorded.
    fn marker_path(&self) -> (r: Option<&String>)
        ensures
            r is Some <==> self.uses_marker(),
    ;

    /// The directory or drive to probe when no marker was recorded.
    fn watch_path(&self) -> (r: &String)
        ensures
            r@ == self.watch_view(),
    ;

    /// Decide presence from the probe results: the marker's existence when
    /// a marker was recorded, the watched location's existence otherwise.
    fn is_present_from(&self, marker_present: bool, watch_present: bool) -> (r: bool)
        ensures
            r == presence_decision(self.uses_marker(), marker_present, watch_present),
    ;
}

/// The backend for Linux hosts.
pub struct LinuxWatchdog {
    /// The directory the program runs from.
    pub watch_path: String,
    /// The marker file recorded at startup, if it existed then.
    pub marker_file: Option<String>,
}

impl LinuxWatchdog {
    /// A watchdog over the program's directory, with the marker recorded
    /// when it existed at startup.
    pub fn new(watch_path: String, marker_file: Option<String>) -> (r: Self)
        ensures
            r.watch_path@ == watch_path@,
            r.marker_file == marker_file,
    {
        LinuxWatchdog { watch_path, marker_file }
    }

    /// Whether the watched directory lies under one of the usual mount
    /// points of removable media.
    pub fn is_removable(&self) -> (r: bool)
        ensures
            r == (has_prefix(encode_utf8(self.watch_path@), encode_utf8("/media/"@))
                || has_prefix(encode_utf8(self.watch_path@), encode_utf8("/mnt/"@))
                || has_prefix(encode_utf8(self.watch_path@), encode_utf8("/run/media/"@))),
    {
        let path = self.watch_path.as_str().as_bytes();
        bytes_have_prefix(path, "/media/".as_bytes()) || bytes_have_prefix(
            path,
            "/mnt/".as_bytes(),
        ) || bytes_have_prefix(path, "/run/media/".as_bytes())
    }
}

impl UsbWatchdog for LinuxWatchdog {
    open spec fn uses_marker(&self) -> bool {
        self.marker_file is Some
    }

    open spec fn watch_view(&self) -> Seq<char> {
        self.watch_path@
    }

    fn marker_path(&self) -> (r: Option<&String>)
        ensures
            r is Some <==> self.uses_marker(),
    {
        self.marker_file.as_ref()
    }

    fn watch_path(&self) -> (r: &String)
        ensures
            r@ == self.watch_view(),
    {
        &self.watch_path
    }

    fn is_present_from(&self, marker_present: bool, watch_present: bool) -> (r: bool)
        ensures
            r == presence_decision(self.uses_marker(), marker_present, watch_present),
    {
        match &self.marker_file {
            Some(_) => marker_present,
            None => watch_present,
        }
    }
}

/// The backend for macOS hosts.
pub struct MacOsWatchdog {
    /// The directory the program runs from, usually under `/Volumes`.
    pub watch_path: String,
    /// The marker file recorded at startup, if it existed then.
    pub marker_file: Option<String>,
}

impl MacOsWatchdog {
    /// A watchdog over the program's directory, with the marker recorded
    /// when it existed at startup.
    pub fn new(watch_path: String, marker_file: Option<String>) -> (r: Self)
        ensures
            r.watch_path@ == watch_path@,
            r.marker_file == marker_file,
    {
        MacOsWatchdog { watch_path, marker_file }
    }

    /// Whether the watched directory lies under `/Volumes`, where macOS
    /// mounts removable media.
    pub fn is_removable(&self) -> (r: bool)
        ensures
            r == has_prefix(encode_utf8(self.watch_path@), encode_utf8("/Volumes/"@)),
    {
        bytes_have_prefix(self.watch_path.as_str().as_bytes(), "/Volumes/".as_bytes())
    }
}

impl UsbWatchdog for MacOsWatchdog {
    open spec fn uses_marker(&self) -> bool {
        self.marker_file is Some
    }

    open spec fn watch_view(&self) -> Seq<char> {
        self.watch_path@
    }

    fn marker_path(&self) -> (r: Option<&String>)
        ensures
            r is Some <==> self.uses_marker(),
    {
        self.marker_file.as_ref()
    }

    fn watch_path(&self) -> (r: &String)
        ensures
            r@ == self.watch_view(),
    {
        &self.watch_path
    }

    fn is_present_from(&self, marker_present: bool, watch_present: bool) -> (r: bool)
        ensures
            r == presence_decision(self.uses_marker(), marker_present, watch_present),
    {
        match &self.marker_file {
            Some(_) => marker_present,
            None => watch_present,
        }
    }
}

/// The backend for Windows hosts, watching the drive the program runs
/// from.
pub struct WindowsWatchdog {
    /// The drive prefix of the program's directory, such as `E:`.
    pub drive_path: String,
    /// The marker file recorded at startup, if it existed then.
    pub marker_file: Option<String>,
}

impl WindowsWatchdog {
    /// A watchdog over the drive the program runs from: the part of the
    /// directory before the first path separator, or the whole directory
    /// when it has none.
    pub fn new(exe_dir: &str, marker_file: Option<String>) -> (r: Self)
        ensures
            r.marker_file == marker_file,
            r.drive_path@.len() <= exe_dir@.len(),
            r.drive_path@ == exe_dir@.take(r.drive_path@.len() as int),
            forall|j: int|
                0 <= j < r.drive_path@.len() ==> exe_dir@[j] != '\\' && exe_dir@[j] != '/',
            r.drive_path@.len() < exe_dir@.len() ==> (exe_dir@[r.drive_path@.len() as int] == '\\'
                || exe_dir@[r.drive_path@.len() as int] == '/'),
    {
        let n = exe_dir.unicode_len();
        let mut i: usize = 0;
        while i < n
            invariant
                i <= n,
                n == exe_dir@.len(),
                forall|j: int| 0 <= j < i ==> exe_dir@[j] != '\\' && exe_dir@[j] != '/',
            decreases n - i,
        {
            let c = exe_dir.get_char(i);
            if c == '\\' || c == '/' {
                let prefix = exe_dir.substring_char(0, i);
                let drive_path = String::from_str(prefix);
                proof {
                    assert(drive_path@ =~= exe_dir@.take(i as int));
                }
                return WindowsWatchdog { drive_path, marker_file };
            }
            i = i + 1;
        }
        let drive_path = String::from_str(exe_dir);
        proof {
            assert(drive_path@ =~= exe_dir@.take(n as int));
        }
        WindowsWatchdog { drive_path, marker_file }
    }

    /// Whether the drive is removable: drive types cannot be probed on
    /// this build, so no drive counts as removable.
    pub fn is_removable(&self) -> (r: bool)
        ensures
            r == false,
    {
        false
    }
}

impl UsbWatchdog for WindowsWatchdog {
    open spec fn uses_marker(&self) -> bool {
        self.marker_file is Some
    }

    open spec fn watch_view(&self) -> Seq<char> {
        self.drive_path@
    }

    fn marker_path(&self) -> (r: Option<&String>)
        ensures
            r is Some <==> self.uses_marker(),
    {
        self.marker_file.as_ref()
    }

    fn watch_path(&self) -> (r: &String)
        ensures
            r@ == self.watch_view(),
    {
        &self.drive_path
    }

    fn is_present_from(&self, marker_present: bool, watch_present: bool) -> (r: bool)
        ensures
            r == presence_decision(self.uses_marker(), marker_present, watch_present),
    {
        match &self.marker_file {
            Some(_) => marker_present,
            None => watch_present,
        }
    }
}

/// The platform the program was built for.
pub enum Platform {
    /// A Linux host.
    Linux,
    /// A macOS host.
    MacOs,
    /// A Windows host.
    Windows,
    /// Anything else: no presence backend exists for it.
    Other,
}

/// A presence backend of whichever platform was selected.
pub enum Watchdog {
    /// The Linux backend.
    Linux(LinuxWatchdog),
    /// The macOS backend.
    MacOs(MacOsWatchdog),
    /// The Windows backend.
    Windows(WindowsWatchdog),
}

impl UsbWatchdog for Watchdog {
    open spec fn uses_marker(&self) -> bool {
        match self {
            Watchdog::Linux(w) => w.uses_marker(),
            Watchdog::MacOs(w) => w.uses_marker(),
            Watchdog::Windows(w) => w.uses_marker(),
        }
    }

    open spec fn watch_view(&self) -> Seq<char> {
        match self {
            Watchdog::Linux(w) => w.watch_view(),
            Watchdog::MacOs(w) => w.watch_view(),
            Watchdog::Windows(w) => w.watch_view(),
        }
    }

    fn marker_path(&self) -> (r: Option<&String>)
        ensures
            r is Some <==> self.uses_marker(),
    {
        match self {
            Watchdog::Linux(w) => w.marker_path(),
            Watchdog::MacOs(w) => w.marker_path(),
            Watchdog::Windows(w) => w.marker_path(),
        }
    }

    fn watch_path(&self) -> (r: &String)
        ensures
            r@ == self.watch_view(),
    {
        match self {
            Watchdog::Linux(w) => w.watch_path(),
            Watchdog::MacOs(w) => w.watch_path(),
            Watchdog::Windows(w) => w.watch_path(),
        }
    }

    fn is_present_from(&self, marker_present: bool, watch_present: bool) -> (r: bool)
        ensures
            r == presence_decision(self.uses_marker(), marker_present, watch_present),
    {
        match self {
            Watchdog::Linux(w) => w.is_present_from(marker_present, watch_present),
            Watchdog::MacOs(w) => w.is_present_from(marker_present, watch_present),
            Watchdog::Windows(w) => w.is_present_from(marker_present, watch_present),
        }
    }
}

/// Select the presence backend for the platform, handing it the program's
/// directory and the marker file recorded at startup. Platforms without a
/// backend get none.
pub fn create_watchdog(platform: Platform, exe_dir: String, marker_file: Option<String>) -> (r:
    Option<Watchdog>)
    ensures
        r is Some <==> !(platform is Other),
        r matches Some(w) ==> (w.uses_marker() <==> marker_file is Some),
        r matches Some(w) ==> ((platform is Linux || platform is MacOs) ==> w.watch_view()
            == exe_dir@),
{
    match platform {
        Platform::Linux => Some(Watchdog::Linux(LinuxWatchdog::new(exe_dir, marker_file))),
        Platform::MacOs => Some(Watchdog::MacOs(MacOsWatchdog::new(exe_dir, marker_file))),
        Platform::Windows => Some(
            Watchdog::Windows(WindowsWatchdog::new(exe_dir.as_str(), marker_file)),
        ),
        Platform::Other => None,
    }
}

} // verus!
