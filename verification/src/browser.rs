//! Data the client tool's screens work with: the screen set, directory
//! entries with their display sizes, and the simple screen states.

use vstd::prelude::*;
use vstd::string::StringExecFns;
use crate::util::{pow1024, spec_dec, u64_to_dec};

verus! {

/// The client tool's screens.
#[derive(Debug, Clone, Copy, PartialEq, Eq, Structural)]
pub enum AppScreen {
    FileBrowser,
    JobMonitor,
    Config,
    Help,
}

impl AppScreen {
    /// The screen's title.
    pub fn as_str(&self) -> (r: &'static str)
        ensures
            self is FileBrowser ==> r@ == "File Browser"@,
            self is JobMonitor ==> r@ == "Job Monitor"@,
            self is Config ==> r@ == "Configuration"@,
            self is Help ==> r@ == "Help"@,
    {
        match self {
            AppScreen::FileBrowser => "File Browser",
            AppScreen::JobMonitor => "Job Monitor",
            AppScreen::Config => "Configuration",
            AppScreen::Help => "Help",
        }
    }
}

pub open spec fn spec_size_unit(size: u64) -> int {
    if size < 1024 {
        0
    } else if size < 0x100000 {
        1
    } else if size < 0x40000000 {
        2
    } else if size < 0x10000000000 {
        3
    } else {
        4
    }
}

pub open spec fn spec_size_suffix(unit: int) -> Seq<char> {
    if unit == 1 {
        " KB"@
    } else if unit == 2 {
        " MB"@
    } else if unit == 3 {
        " GB"@
    } else {
        " TB"@
    }
}

/// Formats a size with one decimal and the largest fitting unit.
pub fn format_size(size: u64) -> (r: String)
    ensures
        spec_size_unit(size) == 0 ==> r@ == spec_dec(size as int) + " B"@,
        spec_size_unit(size) > 0 ==> r@ == spec_dec(
            ((size * 20) / pow1024(spec_size_unit(size)) + 1) / 2 / 10,
        ) + "."@ + spec_dec((((size * 20) / pow1024(spec_size_unit(size)) + 1) / 2) % 10)
            + spec_size_suffix(spec_size_unit(size)),
{
    proof {
        reveal_strlit(" B");
        reveal_strlit(" KB");
        reveal_strlit(" MB");
        reveal_strlit(" GB");
        reveal_strlit(" TB");
        reveal_strlit(".");
        assert(pow1024(0) == 1);
        assert(pow1024(1) == 1024);
        assert(pow1024(2) == 0x100000);
        assert(pow1024(3) == 0x40000000);
        assert(pow1024(4) == 0x10000000000);
    }
    let (unit, div): (u64, u64) = if size < 1024 {
        (0, 1)
    } else if size < 0x100000 {
        (1, 1024)
    } else if size < 0x40000000 {
        (2, 0x100000)
    } else if size < 0x10000000000 {
        (3, 0x40000000)
    } else {
        (4, 0x10000000000)
    };
    if unit == 0 {
        let r = u64_to_dec(size).concat(" B");
        assert(r@ =~= spec_dec(size as int) + " B"@);
        r
    } else {
        proof {
            let b = size as int;
            let d = div as int;
            assert(b < 0x1000000 * d);
            assert(b * 20 / d < 0x1000000 * 20) by (nonlinear_arith)
                requires
                    b < 0x1000000 * d,
                    d >= 1,
                    b >= 0,
            ;
        }
        let t: u128 = (size as u128) * 20 / (div as u128);
        let h: u64 = ((t + 1) / 2) as u64;
        proof {
            assert((size as u128) * 20 == ((size as int) * 20) as u128) by (nonlinear_arith);
        }
        let suffix = if unit == 1 {
            " KB"
        } else if unit == 2 {
            " MB"
        } else if unit == 3 {
            " GB"
        } else {
            " TB"
        };
        let r = u64_to_dec(h / 10).concat(".").concat(u64_to_dec(h % 10).as_str()).concat(suffix);
        assert(r@ =~= spec_dec(((size * 20) / pow1024(spec_size_unit(size)) + 1) / 2 / 10) + "."@
            + spec_dec((((size * 20) / pow1024(spec_size_unit(size)) + 1) / 2) % 10)
            + spec_size_suffix(spec_size_unit(size)));
        r
    }
}

/// One directory entry as the file browser shows it.
pub struct FileEntry {
    pub name: String,
    pub path: String,
    pub is_dir: bool,
    pub size: u64,
    /// Octal permission string.
    pub permissions: String,
}

impl FileEntry {
    /// What the size column shows: a marker for directories, the formatted
    /// size otherwise.
    pub fn display_size(&self) -> (r: String)
        ensures
            self.is_dir ==> r@ == "<DIR>"@,
    {
        proof {
            reveal_strlit("<DIR>");
        }
        if self.is_dir {
            "<DIR>".to_owned()
        } else {
            format_size(self.size)
        }
    }
}

/// The help screen; it holds no state.
pub struct HelpScreen;

impl HelpScreen {
    pub fn new() -> (r: HelpScreen) {
        HelpScreen
    }
}

/// The job monitor screen's state: the lines it lists.
pub struct JobMonitor {
    pub jobs: Vec<String>,
}

impl JobMonitor {
    pub fn new() -> (r: JobMonitor)
        ensures
            r.jobs@.len() == 1,
    {
        let jobs = vec!["Job monitoring coming soon...".to_owned()];
        JobMonitor { jobs }
    }
}

/// The configuration editor screen; it holds no state yet.
pub struct ConfigEditor;

impl ConfigEditor {
    pub fn new() -> (r: Result<ConfigEditor, ()>)
        ensures
            r is Ok,
    {
        Ok(ConfigEditor)
    }
}

} // verus!
