//! The engine's configuration record and its defaults.
//!
//! The record is read from and written to a JSON file by the platform
//! layer; the library holds the logical record. Zoom levels are stored in
//! thousandths (a level of 14.0 is 14000), since the engine only moves them
//! between the file and host memory.

use vstd::prelude::*;

verus! {

/// The configuration record.
#[derive(Debug)]
pub struct Config {
    /// Install the crash-dump-flag patch.
    pub enable_anti_wobble: bool,
    /// Install the sector-blocking NOP-out.
    pub enable_unblocked_guns: bool,
    /// Install the zoom-range and zoom-level patches.
    pub enable_arcade_zoom: bool,
    /// Upper zoom bound written to host memory.
    pub max_zoom_level: u8,
    /// Lower zoom bound written to host memory.
    pub min_zoom_level: u8,
    /// Replacement zoom lookup table, in thousandths.
    pub zoom_levels: Vec<u32>,
}

/// The default zoom table, in thousandths: 14.0, 7.0, 1.0, 0.7, 0.5, 0.3.
pub open spec fn default_zoom_levels() -> Seq<u32> {
    seq![14000u32, 7000u32, 1000u32, 700u32, 500u32, 300u32]
}

impl Config {
    /// The defaults used when the configuration file is missing or
    /// malformed: only arcade zoom on, zoom bounds 3 to 5, the stock six
    /// zoom levels.
    pub fn fallback() -> (c: Config)
        ensures
            !c.enable_anti_wobble,
            !c.enable_unblocked_guns,
            c.enable_arcade_zoom,
            c.max_zoom_level == 5,
            c.min_zoom_level == 3,
            c.zoom_levels@ == default_zoom_levels(),
    {
        let c = Config {
            enable_anti_wobble: false,
            enable_unblocked_guns: false,
            enable_arcade_zoom: true,
            max_zoom_level: 5,
            min_zoom_level: 3,
            zoom_levels: vec![14000u32, 7000, 1000, 700, 500, 300],
        };
        proof {
            assert(c.zoom_levels@ =~= default_zoom_levels());
        }
        c
    }

    /// Fewer than the five levels the host ships with may destabilise it.
    pub fn levels_below_stock(&self) -> (r: bool)
        ensures
            r == (self.zoom_levels@.len() < 5),
    {
        self.zoom_levels.len() < 5
    }

    /// A maximum zoom level beyond the table may destabilise the host.
    pub fn levels_below_max(&self) -> (r: bool)
        ensures
            r == (self.zoom_levels@.len() < self.max_zoom_level as int),
    {
        self.zoom_levels.len() < self.max_zoom_level as usize
    }
}

impl Default for Config {
    /// Same record as [`Config::fallback`].
    fn default() -> (c: Config)
        ensures
            !c.enable_anti_wobble,
            !c.enable_unblocked_guns,
            c.enable_arcade_zoom,
            c.max_zoom_level == 5,
            c.min_zoom_level == 3,
            c.zoom_levels@ == default_zoom_levels(),
    {
        Config::fallback()
    }
}

} // verus!
